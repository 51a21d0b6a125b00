//! Caller-side wait limits and the decision each blocking observer takes between wake-ups.

use std::time::Duration;
use vstd::prelude::*;

verus! {

/// How long one observation call may block its caller.
#[derive(Clone, Copy, Debug, PartialEq, Eq)]
pub enum WaitTimeout {
    /// Return at once.
    Poll,
    /// Block for at most this long.
    For(Duration),
    /// Block until the observed condition holds.
    Infinite,
}

/// The length of a duration in nanoseconds, as [`Duration::as_nanos`] reports it.
pub uninterp spec fn nanos_of(duration: Duration) -> u128;

/// Calls [`Duration::as_nanos`]: the total number of nanoseconds that `duration` holds.
#[verifier::external_body]
pub(crate) fn duration_as_nanos(duration: Duration) -> (nanos: u128)
    ensures
        nanos == nanos_of(duration),
{
    duration.as_nanos()
}

/// Calls [`Duration::from_nanos`]: a duration of exactly `nanos` nanoseconds.
#[verifier::external_body]
pub(crate) fn duration_from_nanos(nanos: u64) -> (duration: Duration)
    ensures
        nanos_of(duration) == nanos,
{
    Duration::from_nanos(nanos)
}

/// What a waiter does while its condition does not hold.
#[derive(Clone, Copy, Debug, PartialEq, Eq, Structural)]
pub enum WaitStep {
    /// Give up: only this observation timed out.
    Timeout,
    /// Sleep until the observed state changes.
    Block,
    /// Sleep until the observed state changes, for at most this many nanoseconds.
    BlockFor(u128),
}

/// The step of a waiter whose limit is `wait`, `elapsed_ns` nanoseconds after it began.
pub open spec fn wait_step_of(wait: WaitTimeout, elapsed_ns: u128) -> WaitStep {
    match wait {
        WaitTimeout::Poll => WaitStep::Timeout,
        WaitTimeout::Infinite => WaitStep::Block,
        WaitTimeout::For(limit) => if elapsed_ns <= nanos_of(limit) {
            WaitStep::BlockFor((nanos_of(limit) - elapsed_ns) as u128)
        } else {
            WaitStep::Timeout
        },
    }
}

/// Decides the step of a waiter with a limit in nanoseconds, `elapsed_ns` after it began.
pub fn wait_step_within(limit_ns: u128, elapsed_ns: u128) -> (step: WaitStep)
    ensures
        step == if elapsed_ns <= limit_ns {
            WaitStep::BlockFor((limit_ns - elapsed_ns) as u128)
        } else {
            WaitStep::Timeout
        },
{
    if elapsed_ns <= limit_ns {
        WaitStep::BlockFor(limit_ns - elapsed_ns)
    } else {
        WaitStep::Timeout
    }
}

/// Decides what a waiter does while its condition does not hold.
pub fn wait_step(wait: WaitTimeout, elapsed_ns: u128) -> (step: WaitStep)
    ensures
        step == wait_step_of(wait, elapsed_ns),
{
    match wait {
        WaitTimeout::Poll => WaitStep::Timeout,
        WaitTimeout::Infinite => WaitStep::Block,
        WaitTimeout::For(limit) => wait_step_within(duration_as_nanos(limit), elapsed_ns),
    }
}

/// One look of a blocking observer at the state it waits for.
#[derive(Clone, Copy, Debug, PartialEq, Eq)]
pub enum Look<T> {
    /// The call returns this.
    Done(T),
    /// The call sleeps, then looks again.
    Sleep(WaitStep),
}

/// The look of an observer whose condition does not hold: `timed_out` says that its last sleep ran
/// out, and `timeout` is what the call then returns.
pub open spec fn idle_look<T>(
    wait: WaitTimeout,
    elapsed_ns: u128,
    timed_out: bool,
    timeout: T,
) -> Look<T> {
    if timed_out || wait_step_of(wait, elapsed_ns) == WaitStep::Timeout {
        Look::Done(timeout)
    } else {
        Look::Sleep(wait_step_of(wait, elapsed_ns))
    }
}

/// Decides the look of an observer whose condition does not hold.
pub fn look_again<T>(wait: WaitTimeout, elapsed_ns: u128, timed_out: bool, timeout: T) -> (look:
    Look<T>)
    ensures
        look == idle_look(wait, elapsed_ns, timed_out, timeout),
{
    if timed_out {
        return Look::Done(timeout);
    }
    let step = wait_step(wait, elapsed_ns);
    if step == WaitStep::Timeout {
        Look::Done(timeout)
    } else {
        Look::Sleep(step)
    }
}

} // verus!
