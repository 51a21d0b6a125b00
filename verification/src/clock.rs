//! Monotonic time sources.

use crate::wait::{duration_as_nanos, duration_from_nanos};
use std::time::{Duration, Instant};
use vstd::prelude::*;

pub mod laws;

verus! {

/// Identifier of one registered monotonic deadline.
#[derive(Clone, Copy, Debug, PartialEq, Eq, PartialOrd, Ord, Hash, Structural)]
pub struct DeadlineId(pub u64);

impl DeadlineId {
    /// Returns the numeric identifier.
    pub fn get(self) -> (id: u64)
        ensures
            id == self.0,
    {
        self.0
    }
}

/// Deterministic trace of one registered deadline.
#[derive(Clone, Copy, Debug, PartialEq, Eq, Structural)]
pub struct DeadlineTrace {
    /// Registration order within the clock.
    pub id: DeadlineId,
    /// Absolute monotonic target.
    pub target_ns: u64,
    /// Time at which a consumer recorded dispatch, if any.
    pub dispatched_at_ns: Option<u64>,
    /// Whether a virtual advance crossed this target.
    pub woken: bool,
}

/// Monotonic time source used by Runtime and controller scheduling.
pub trait Clock {
    /// Returns nanoseconds since this clock's private monotonic epoch.
    fn now_ns(&self) -> u64;

    /// Subscribes to explicit clock changes. Virtual clocks notify on every advance.
    fn subscribe(&mut self) -> ClockReceiver
        requires
            old(self).listeners_left(),
    ;

    /// Registers a hook to run after an explicit clock change.
    fn on_change(&mut self, hook: u64);

    /// Registers an absolute deadline for deterministic trace inspection.
    fn register_deadline(&mut self, target_ns: u64) -> DeadlineId
        requires
            old(self).ids_left(),
    ;

    /// Records actual dispatch for a previously registered deadline.
    fn record_dispatch(&mut self, id: DeadlineId, actual_ns: u64);

    /// Returns a real wait duration for a target, or `None` for manually advanced clocks.
    fn real_wait_duration(&self, target_ns: u64) -> Option<Duration>;

    /// Whether the clock can number another deadline.
    open spec fn ids_left(&self) -> bool {
        true
    }

    /// Whether the clock can number another listener.
    open spec fn listeners_left(&self) -> bool {
        true
    }
}

/// One listener for clock changes: at most one change notice waits to be taken.
#[derive(Clone, Copy, Debug, PartialEq, Eq, Structural)]
pub struct ClockListener {
    pub id: u64,
    pub notified: bool,
    pub connected: bool,
}

/// State of a virtual clock, as plain values.
#[verifier::ext_equal]
pub struct ClockModel {
    pub now_ns: u64,
    pub next_deadline: u64,
    pub deadlines: Seq<DeadlineTrace>,
    pub wake_order: Seq<DeadlineId>,
    pub next_listener: u64,
    pub listeners: Seq<ClockListener>,
    pub hooks: Seq<u64>,
}

/// The trace of a deadline after the clock reached `now_ns`.
pub open spec fn woken_by(trace: DeadlineTrace, now_ns: u64) -> DeadlineTrace {
    DeadlineTrace { woken: trace.woken || trace.target_ns <= now_ns, ..trace }
}

/// The deadlines that reaching `now_ns` wakes, in registration order.
pub open spec fn newly_woken(deadlines: Seq<DeadlineTrace>, now_ns: u64) -> Seq<DeadlineId>
    decreases deadlines.len(),
{
    if deadlines.len() == 0 {
        seq![]
    } else {
        let last = deadlines.last();
        if !last.woken && last.target_ns <= now_ns {
            newly_woken(deadlines.drop_last(), now_ns).push(last.id)
        } else {
            newly_woken(deadlines.drop_last(), now_ns)
        }
    }
}

/// The listeners after a change: the connected ones, each with a notice to take.
pub open spec fn notified_listeners(listeners: Seq<ClockListener>) -> Seq<ClockListener>
    decreases listeners.len(),
{
    if listeners.len() == 0 {
        seq![]
    } else {
        let last = listeners.last();
        if last.connected {
            notified_listeners(listeners.drop_last()).push(
                ClockListener { notified: true, ..last },
            )
        } else {
            notified_listeners(listeners.drop_last())
        }
    }
}

/// The deadlines after a dispatch was recorded for the first one numbered `id`.
pub open spec fn with_dispatch(
    deadlines: Seq<DeadlineTrace>,
    id: DeadlineId,
    actual_ns: u64,
) -> Seq<DeadlineTrace> {
    Seq::new(
        deadlines.len(),
        |i: int|
            if deadlines[i].id == id {
                DeadlineTrace { dispatched_at_ns: Some(actual_ns), ..deadlines[i] }
            } else {
                deadlines[i]
            },
    )
}

impl ClockModel {
    /// The clock after it advanced.
    pub open spec fn advanced(self, target_ns: u64) -> ClockModel {
        ClockModel {
            now_ns: target_ns,
            deadlines: self.deadlines.map_values(|trace: DeadlineTrace| woken_by(trace, target_ns)),
            wake_order: self.wake_order + newly_woken(self.deadlines, target_ns),
            listeners: notified_listeners(self.listeners),
            ..self
        }
    }

    /// What every virtual clock satisfies: deadlines are numbered in registration order, and a
    /// deadline counts as woken exactly when its target is reached.
    pub open spec fn valid(self) -> bool {
        &&& self.next_deadline >= 1
        &&& forall|i: int|
            0 <= i < self.deadlines.len() ==> 1 <= (#[trigger] self.deadlines[i]).id.0
                < self.next_deadline
        &&& forall|i: int, j: int|
            #![trigger self.deadlines[i], self.deadlines[j]]
            0 <= i < j < self.deadlines.len() ==> self.deadlines[i].id.0 < self.deadlines[j].id.0
        &&& forall|i: int|
            0 <= i < self.deadlines.len() ==> ((#[trigger] self.deadlines[i]).woken
                <==> self.deadlines[i].target_ns <= self.now_ns)
        &&& forall|i: int|
            0 <= i < self.listeners.len() ==> (#[trigger] self.listeners[i]).id
                < self.next_listener
        &&& forall|i: int, j: int|
            #![trigger self.listeners[i], self.listeners[j]]
            0 <= i < j < self.listeners.len() ==> self.listeners[i].id < self.listeners[j].id
    }
}

/// A manually advanced monotonic clock.
pub struct VirtualClock {
    now_ns: u64,
    next_deadline: u64,
    deadlines: Vec<DeadlineTrace>,
    wake_order: Vec<DeadlineId>,
    next_listener: u64,
    listeners: Vec<ClockListener>,
    hooks: Vec<u64>,
}

impl View for VirtualClock {
    type V = ClockModel;

    closed spec fn view(&self) -> ClockModel {
        ClockModel {
            now_ns: self.now_ns,
            next_deadline: self.next_deadline,
            deadlines: self.deadlines@,
            wake_order: self.wake_order@,
            next_listener: self.next_listener,
            listeners: self.listeners@,
            hooks: self.hooks@,
        }
    }
}

/// Receiving end of one change listener.
#[derive(Clone, Copy, Debug, PartialEq, Eq, Structural)]
pub struct ClockReceiver {
    pub id: u64,
}

/// Why no change notice could be taken.
#[derive(Clone, Copy, Debug, PartialEq, Eq, Structural)]
pub enum ClockReceiveError {
    /// No change happened since the last notice was taken.
    Empty,
    /// The clock no longer knows this listener.
    Disconnected,
}

impl VirtualClock {
    /// Creates a clock at the supplied monotonic instant.
    pub fn new(now_ns: u64) -> (clock: Self)
        ensures
            clock@.valid(),
            clock@ == (ClockModel {
                now_ns,
                next_deadline: 1,
                deadlines: seq![],
                wake_order: seq![],
                next_listener: 0,
                listeners: seq![],
                hooks: seq![],
            }),
    {
        let clock = VirtualClock {
            now_ns,
            next_deadline: 1,
            deadlines: Vec::new(),
            wake_order: Vec::new(),
            next_listener: 0,
            listeners: Vec::new(),
            hooks: Vec::new(),
        };
        assert(clock@ =~= ClockModel {
            now_ns,
            next_deadline: 1,
            deadlines: seq![],
            wake_order: seq![],
            next_listener: 0,
            listeners: seq![],
            hooks: seq![],
        });
        clock
    }

    /// Advances to an absolute instant, wakes the deadlines it reaches, notifies listeners, and
    /// returns the change hooks to run.
    pub fn advance_to(&mut self, target_ns: u64) -> (hooks: Vec<u64>)
        requires
            old(self)@.valid(),
            target_ns >= old(self)@.now_ns,
        ensures
            final(self)@.valid(),
            final(self)@ == old(self)@.advanced(target_ns),
            hooks@ == old(self)@.hooks,
    {
        let ghost start = self@;
        self.now_ns = target_ns;
        let mut k: usize = 0;
        assert(start.deadlines.take(0) =~= seq![]);
        while k < self.deadlines.len()
            invariant
                k <= self.deadlines.len(),
                start == old(self)@,
                self.deadlines@.len() == start.deadlines.len(),
                self.now_ns == target_ns,
                self.next_deadline == start.next_deadline,
                self.next_listener == start.next_listener,
                self.listeners@ == start.listeners,
                self.hooks@ == start.hooks,
                forall|j: int|
                    0 <= j < start.deadlines.len() ==> (#[trigger] self.deadlines@[j]) == if j < k {
                        woken_by(start.deadlines[j], target_ns)
                    } else {
                        start.deadlines[j]
                    },
                self.wake_order@ =~= start.wake_order + newly_woken(
                    start.deadlines.take(k as int),
                    target_ns,
                ),
            decreases self.deadlines.len() - k,
        {
            proof {
                assert(start.deadlines.take(k + 1).drop_last() =~= start.deadlines.take(k as int));
                assert(start.deadlines.take(k + 1).last() == start.deadlines[k as int]);
            }
            let mut trace = self.deadlines[k];
            if !trace.woken && trace.target_ns <= target_ns {
                trace.woken = true;
                self.wake_order.push(trace.id);
                self.deadlines.set(k, trace);
            }
            k += 1;
        }
        assert(start.deadlines.take(k as int) =~= start.deadlines);
        let mut kept: Vec<ClockListener> = Vec::new();
        let mut m: usize = 0;
        assert(start.listeners.take(0) =~= seq![]);
        while m < self.listeners.len()
            invariant
                m <= self.listeners.len(),
                self.listeners@ == start.listeners,
                kept@ =~= notified_listeners(start.listeners.take(m as int)),
            decreases self.listeners.len() - m,
        {
            proof {
                assert(start.listeners.take(m + 1).drop_last() =~= start.listeners.take(m as int));
                assert(start.listeners.take(m + 1).last() == start.listeners[m as int]);
            }
            let mut listener = self.listeners[m];
            if listener.connected {
                listener.notified = true;
                kept.push(listener);
            }
            m += 1;
        }
        assert(start.listeners.take(m as int) =~= start.listeners);
        self.listeners = kept;
        proof {
            assert(self@.deadlines =~= start.advanced(target_ns).deadlines);
            assert(self@ =~= start.advanced(target_ns));
            lemma_notified_listeners_stay_sorted(start.listeners, start.next_listener);
        }
        let mut hooks: Vec<u64> = Vec::new();
        let mut h: usize = 0;
        while h < self.hooks.len()
            invariant
                h <= self.hooks.len(),
                self.hooks@ == start.hooks,
                hooks@ =~= start.hooks.take(h as int),
            decreases self.hooks.len() - h,
        {
            hooks.push(self.hooks[h]);
            h += 1;
        }
        hooks
    }

    /// Advances by a duration whose end the clock can represent.
    pub fn advance_by(&mut self, duration: Duration) -> (hooks: Vec<u64>)
        requires
            old(self)@.valid(),
            old(self)@.now_ns + crate::wait::nanos_of(duration) <= u64::MAX,
        ensures
            final(self)@.valid(),
            final(self)@ == old(self)@.advanced(
                (old(self)@.now_ns + crate::wait::nanos_of(duration)) as u64,
            ),
            hooks@ == old(self)@.hooks,
    {
        let delta: u128 = duration_as_nanos(duration);
        let target: u64 = self.now_ns + delta as u64;
        self.advance_to(target)
    }

    /// Advances by a number of nanoseconds, where the clock can represent the end; otherwise
    /// changes nothing and returns none.
    pub fn try_advance_by(&mut self, duration: Duration) -> (hooks: Option<Vec<u64>>)
        requires
            old(self)@.valid(),
        ensures
            final(self)@.valid(),
            hooks is Some <==> old(self)@.now_ns + crate::wait::nanos_of(duration) <= u64::MAX,
            hooks matches Some(hooks) ==> hooks@ == old(self)@.hooks && final(self)@ == old(
                self,
            )@.advanced((old(self)@.now_ns + crate::wait::nanos_of(duration)) as u64),
            hooks is None ==> final(self)@ == old(self)@,
    {
        let delta: u128 = duration_as_nanos(duration);
        if delta > (u64::MAX - self.now_ns) as u128 {
            return None;
        }
        Some(self.advance_by(duration))
    }

    /// Returns whether the clock can number another deadline.
    pub fn has_ids_left(&self) -> (left: bool)
        ensures
            left == self.ids_left(),
    {
        self.next_deadline < u64::MAX
    }

    /// Returns whether the clock can number another listener.
    pub fn has_listeners_left(&self) -> (left: bool)
        ensures
            left == self.listeners_left(),
    {
        self.next_listener < u64::MAX
    }

    /// Returns deadline records in registration order.
    pub fn deadline_trace(&self) -> (trace: Vec<DeadlineTrace>)
        ensures
            trace@ == self@.deadlines,
    {
        let mut trace: Vec<DeadlineTrace> = Vec::new();
        let mut k: usize = 0;
        while k < self.deadlines.len()
            invariant
                k <= self.deadlines.len(),
                trace@ =~= self.deadlines@.take(k as int),
            decreases self.deadlines.len() - k,
        {
            trace.push(self.deadlines[k]);
            k += 1;
        }
        trace
    }

    /// Returns deadline identifiers in wake order.
    pub fn wake_order(&self) -> (order: Vec<DeadlineId>)
        ensures
            order@ == self@.wake_order,
    {
        let mut order: Vec<DeadlineId> = Vec::new();
        let mut k: usize = 0;
        while k < self.wake_order.len()
            invariant
                k <= self.wake_order.len(),
                order@ =~= self.wake_order@.take(k as int),
            decreases self.wake_order.len() - k,
        {
            order.push(self.wake_order[k]);
            k += 1;
        }
        order
    }
}

impl ClockReceiver {
    fn position(&self, clock: &VirtualClock) -> (position: Option<usize>)
        ensures
            position matches Some(k) ==> k < clock@.listeners.len() && clock@.listeners[k as int].id
                == self.id,
            position is None ==> forall|k: int|
                0 <= k < clock@.listeners.len() ==> (#[trigger] clock@.listeners[k]).id != self.id,
    {
        let mut k: usize = 0;
        while k < clock.listeners.len()
            invariant
                k <= clock.listeners.len(),
                forall|j: int| 0 <= j < k ==> (#[trigger] clock@.listeners[j]).id != self.id,
            decreases clock.listeners.len() - k,
        {
            if clock.listeners[k].id == self.id {
                return Some(k);
            }
            k += 1;
        }
        None
    }

    /// Takes the waiting change notice, if any.
    pub fn try_recv(&self, clock: &mut VirtualClock) -> (taken: Result<(), ClockReceiveError>)
        requires
            old(clock)@.valid(),
        ensures
            final(clock)@.valid(),
            taken == match listener_state(old(clock)@.listeners, self.id) {
                Some(true) => Ok(()),
                Some(false) => Err(ClockReceiveError::Empty),
                None => Err(ClockReceiveError::Disconnected),
            },
            final(clock)@ == (ClockModel {
                listeners: with_notice_taken(old(clock)@.listeners, self.id),
                ..old(clock)@
            }),
    {
        let ghost start = clock@;
        match self.position(clock) {
            Some(k) => {
                let mut listener = clock.listeners[k];
                let notified: bool = listener.notified;
                proof {
                    assert(start.listeners[k as int].id == self.id);
                    assert(listener_state(start.listeners, self.id) == Some(
                        start.listeners[k as int].notified,
                    )) by {
                        let m = choose|m: int|
                            0 <= m < start.listeners.len() && (#[trigger] start.listeners[m]).id
                                == self.id;
                        assert(m == k);
                    }
                }
                listener.notified = false;
                clock.listeners.set(k, listener);
                assert(clock@.listeners =~= with_notice_taken(start.listeners, self.id));
                assert(clock@ =~= ClockModel {
                    listeners: with_notice_taken(start.listeners, self.id),
                    ..start
                });
                if notified {
                    Ok(())
                } else {
                    Err(ClockReceiveError::Empty)
                }
            },
            None => {
                assert(with_notice_taken(start.listeners, self.id) =~= start.listeners);
                Err(ClockReceiveError::Disconnected)
            },
        }
    }

    /// Drops this receiver: the next change forgets its listener.
    pub fn disconnect(&self, clock: &mut VirtualClock)
        requires
            old(clock)@.valid(),
        ensures
            final(clock)@.valid(),
            final(clock)@ == (ClockModel {
                listeners: with_listener_dropped(old(clock)@.listeners, self.id),
                ..old(clock)@
            }),
    {
        let ghost start = clock@;
        if let Some(k) = self.position(clock) {
            let mut listener = clock.listeners[k];
            listener.connected = false;
            assert(start.listeners[k as int].id == self.id);
            clock.listeners.set(k, listener);
            assert(clock@.listeners =~= with_listener_dropped(start.listeners, self.id));
            assert(clock@ =~= ClockModel {
                listeners: with_listener_dropped(start.listeners, self.id),
                ..start
            });
        } else {
            assert(with_listener_dropped(start.listeners, self.id) =~= start.listeners);
        }
    }
}

/// Whether a notice waits for listener `id`; none where the clock does not know it.
pub open spec fn listener_state(listeners: Seq<ClockListener>, id: u64) -> Option<bool> {
    if exists|k: int| 0 <= k < listeners.len() && (#[trigger] listeners[k]).id == id {
        let k = choose|k: int| 0 <= k < listeners.len() && (#[trigger] listeners[k]).id == id;
        Some(listeners[k].notified)
    } else {
        None
    }
}

/// The listeners after the notice of listener `id` was taken.
pub open spec fn with_notice_taken(listeners: Seq<ClockListener>, id: u64) -> Seq<ClockListener> {
    listeners.map_values(
        |listener: ClockListener|
            if listener.id == id {
                ClockListener { notified: false, ..listener }
            } else {
                listener
            },
    )
}

/// The listeners after the receiver of listener `id` was dropped.
pub open spec fn with_listener_dropped(listeners: Seq<ClockListener>, id: u64) -> Seq<
    ClockListener,
> {
    listeners.map_values(
        |listener: ClockListener|
            if listener.id == id {
                ClockListener { connected: false, ..listener }
            } else {
                listener
            },
    )
}

proof fn lemma_notified_listeners_stay_sorted(listeners: Seq<ClockListener>, bound: u64)
    requires
        forall|i: int| 0 <= i < listeners.len() ==> (#[trigger] listeners[i]).id < bound,
        forall|i: int, j: int|
            #![trigger listeners[i], listeners[j]]
            0 <= i < j < listeners.len() ==> listeners[i].id < listeners[j].id,
    ensures
        forall|i: int|
            0 <= i < notified_listeners(listeners).len() ==> (#[trigger] notified_listeners(
                listeners,
            )[i]).id < bound,
        forall|i: int|
            0 <= i < notified_listeners(listeners).len() && listeners.len() > 0
                ==> (#[trigger] notified_listeners(listeners)[i]).id <= listeners.last().id,
        forall|i: int, j: int|
            #![trigger notified_listeners(listeners)[i], notified_listeners(listeners)[j]]
            0 <= i < j < notified_listeners(listeners).len() ==> notified_listeners(
                listeners,
            )[i].id < notified_listeners(listeners)[j].id,
    decreases listeners.len(),
{
    if listeners.len() > 0 {
        let rest = listeners.drop_last();
        lemma_notified_listeners_stay_sorted(rest, bound);
        if rest.len() > 0 {
            assert(listeners[rest.len() - 1].id < listeners[listeners.len() - 1].id);
        }
        let kept = notified_listeners(rest);
        assert forall|i: int| 0 <= i < kept.len() implies (#[trigger] kept[i]).id
            < listeners.last().id by {
            assert(rest.len() > 0);
        }
    }
}

impl Default for VirtualClock {
    fn default() -> (clock: Self)
        ensures
            clock@.valid(),
            clock@ == (ClockModel {
                now_ns: 0,
                next_deadline: 1,
                deadlines: seq![],
                wake_order: seq![],
                next_listener: 0,
                listeners: seq![],
                hooks: seq![],
            }),
    {
        Self::new(0)
    }
}

impl Clock for VirtualClock {
    open spec fn ids_left(&self) -> bool {
        self@.next_deadline < u64::MAX
    }

    open spec fn listeners_left(&self) -> bool {
        self@.next_listener < u64::MAX
    }

    fn now_ns(&self) -> (now: u64)
        ensures
            now == self@.now_ns,
    {
        self.now_ns
    }

    fn subscribe(&mut self) -> (receiver: ClockReceiver)
        ensures
            old(self)@.valid() ==> final(self)@.valid(),
            receiver.id == old(self)@.next_listener,
            final(self)@ == (ClockModel {
                next_listener: (old(self)@.next_listener + 1) as u64,
                listeners: old(self)@.listeners.push(
                    ClockListener {
                        id: old(self)@.next_listener,
                        notified: false,
                        connected: true,
                    },
                ),
                ..old(self)@
            }),
    {
        let id: u64 = self.next_listener;
        self.next_listener = id + 1;
        self.listeners.push(ClockListener { id, notified: false, connected: true });
        ClockReceiver { id }
    }

    fn on_change(&mut self, hook: u64)
        ensures
            old(self)@.valid() ==> final(self)@.valid(),
            final(self)@ == (ClockModel { hooks: old(self)@.hooks.push(hook), ..old(self)@ }),
    {
        self.hooks.push(hook);
    }

    fn register_deadline(&mut self, target_ns: u64) -> (id: DeadlineId)
        ensures
            old(self)@.valid() ==> final(self)@.valid(),
            id.0 == old(self)@.next_deadline,
            final(self)@ == (ClockModel {
                next_deadline: (old(self)@.next_deadline + 1) as u64,
                deadlines: old(self)@.deadlines.push(
                    DeadlineTrace {
                        id,
                        target_ns,
                        dispatched_at_ns: None,
                        woken: target_ns <= old(self)@.now_ns,
                    },
                ),
                ..old(self)@
            }),
    {
        let id = DeadlineId(self.next_deadline);
        self.next_deadline = self.next_deadline + 1;
        self.deadlines.push(
            DeadlineTrace {
                id,
                target_ns,
                dispatched_at_ns: None,
                woken: target_ns <= self.now_ns,
            },
        );
        id
    }

    fn record_dispatch(&mut self, id: DeadlineId, actual_ns: u64)
        ensures
            old(self)@.valid() ==> final(self)@.valid(),
            old(self)@.valid() ==> final(self)@ == (ClockModel {
                deadlines: with_dispatch(old(self)@.deadlines, id, actual_ns),
                ..old(self)@
            }),
    {
        let ghost start = self@;
        let mut k: usize = 0;
        while k < self.deadlines.len()
            invariant
                k <= self.deadlines.len(),
                self@ == start,
                start == old(self)@,
                forall|j: int| 0 <= j < k ==> (#[trigger] start.deadlines[j]).id != id,
            decreases self.deadlines.len() - k,
        {
            if self.deadlines[k].id.0 == id.0 {
                let mut trace = self.deadlines[k];
                trace.dispatched_at_ns = Some(actual_ns);
                self.deadlines.set(k, trace);
                proof {
                    assert(start.deadlines[k as int].id == id);
                    if start.valid() {
                        assert(self@.deadlines =~= with_dispatch(start.deadlines, id, actual_ns));
                        assert(self@ =~= ClockModel {
                            deadlines: with_dispatch(start.deadlines, id, actual_ns),
                            ..start
                        });
                    }
                }
                return;
            }
            k += 1;
        }
        assert(with_dispatch(start.deadlines, id, actual_ns) =~= start.deadlines);
    }

    fn real_wait_duration(&self, target_ns: u64) -> (wait: Option<Duration>)
        ensures
            wait is None,
    {
        None
    }
}

/// [`Instant`], carried by [`SystemClock`] and never looked into.
#[verifier::external_type_specification]
#[verifier::external_body]
pub struct ExInstant(Instant);

/// Calls [`Instant::now`]. Which instant it returns rests on the machine: nothing is stated of it.
#[verifier::external_body]
fn instant_now() -> (now: Instant) {
    Instant::now()
}

/// Calls [`Instant::elapsed`] on the clock's epoch. How long ago that was rests on the machine:
/// nothing is stated of it.
#[verifier::external_body]
fn instant_elapsed(epoch: &Instant) -> (elapsed: Duration) {
    epoch.elapsed()
}

/// Production monotonic clock backed by [`Instant`]. Nobody moves it, so its listeners and hooks are
/// kept and never told of a change.
pub struct SystemClock {
    epoch: Instant,
    next_deadline: u64,
    listeners: Vec<ClockReceiver>,
    hooks: Vec<u64>,
}

/// State of a system clock, as plain values; which time it tells is not part of it.
#[verifier::ext_equal]
pub struct SystemClockModel {
    pub next_deadline: u64,
    pub listeners: Seq<ClockReceiver>,
    pub hooks: Seq<u64>,
}

impl SystemClockModel {
    /// A clock that nobody used.
    pub open spec fn fresh() -> SystemClockModel {
        SystemClockModel { next_deadline: 1, listeners: seq![], hooks: seq![] }
    }
}

impl View for SystemClock {
    type V = SystemClockModel;

    closed spec fn view(&self) -> SystemClockModel {
        SystemClockModel {
            next_deadline: self.next_deadline,
            listeners: self.listeners@,
            hooks: self.hooks@,
        }
    }
}

/// A length of time as a clock reading: nanoseconds, or the largest reading where they exceed it.
pub fn reading_of(elapsed_ns: u128) -> (now: u64)
    ensures
        now == if elapsed_ns <= u64::MAX {
            elapsed_ns as u64
        } else {
            u64::MAX
        },
{
    if elapsed_ns <= u64::MAX as u128 {
        elapsed_ns as u64
    } else {
        u64::MAX
    }
}

/// How long a waiter at `now_ns` has to wait for `target_ns`; nothing for a target in the past.
pub fn remaining_until(target_ns: u64, now_ns: u64) -> (wait: Duration)
    ensures
        crate::wait::nanos_of(wait) == if target_ns >= now_ns {
            target_ns - now_ns
        } else {
            0
        },
{
    duration_from_nanos(target_ns.saturating_sub(now_ns))
}

impl SystemClock {
    /// Creates a new private monotonic epoch.
    pub fn new() -> (clock: Self)
        ensures
            clock@ == SystemClockModel::fresh(),
    {
        let clock = SystemClock {
            epoch: instant_now(),
            next_deadline: 1,
            listeners: Vec::new(),
            hooks: Vec::new(),
        };
        assert(clock@ =~= SystemClockModel::fresh());
        clock
    }

    /// Returns whether the clock can number another deadline.
    pub fn has_ids_left(&self) -> (left: bool)
        ensures
            left == self.ids_left(),
    {
        self.next_deadline < u64::MAX
    }
}

impl Default for SystemClock {
    fn default() -> (clock: Self)
        ensures
            clock@ == SystemClockModel::fresh(),
    {
        Self::new()
    }
}

impl Clock for SystemClock {
    open spec fn ids_left(&self) -> bool {
        self@.next_deadline < u64::MAX
    }

    /// Returns [`reading_of`] the nanoseconds since the epoch. How many have passed rests on the
    /// machine, and any reading can come of it: nothing is stated of the result.
    fn now_ns(&self) -> u64 {
        reading_of(duration_as_nanos(instant_elapsed(&self.epoch)))
    }

    fn subscribe(&mut self) -> (receiver: ClockReceiver)
        ensures
            receiver.id == old(self)@.listeners.len(),
            final(self)@ == (SystemClockModel {
                listeners: old(self)@.listeners.push(receiver),
                ..old(self)@
            }),
    {
        let receiver = ClockReceiver { id: self.listeners.len() as u64 };
        self.listeners.push(receiver);
        receiver
    }

    fn on_change(&mut self, hook: u64)
        ensures
            final(self)@ == (SystemClockModel {
                hooks: old(self)@.hooks.push(hook),
                ..old(self)@
            }),
    {
        self.hooks.push(hook);
    }

    fn register_deadline(&mut self, target_ns: u64) -> (id: DeadlineId)
        ensures
            id.0 == old(self)@.next_deadline,
            final(self)@ == (SystemClockModel {
                next_deadline: (old(self)@.next_deadline + 1) as u64,
                ..old(self)@
            }),
    {
        let id = DeadlineId(self.next_deadline);
        self.next_deadline = self.next_deadline + 1;
        id
    }

    fn record_dispatch(&mut self, id: DeadlineId, actual_ns: u64)
        ensures
            *final(self) == *old(self),
    {
    }

    fn real_wait_duration(&self, target_ns: u64) -> (wait: Option<Duration>)
        ensures
            wait is Some,
            crate::wait::nanos_of(wait->0) <= target_ns,
    {
        Some(remaining_until(target_ns, self.now_ns()))
    }
}

/// Virtual time never moves backwards, and a woken deadline stays woken.
pub proof fn law_virtual_time_is_monotone(clock: ClockModel, target_ns: u64, k: int)
    requires
        clock.valid(),
        target_ns >= clock.now_ns,
        0 <= k < clock.deadlines.len(),
    ensures
        clock.advanced(target_ns).now_ns >= clock.now_ns,
        clock.deadlines[k].woken ==> clock.advanced(target_ns).deadlines[k].woken,
        clock.advanced(target_ns).deadlines[k].id == clock.deadlines[k].id,
        clock.advanced(target_ns).deadlines[k].target_ns == clock.deadlines[k].target_ns,
        clock.advanced(target_ns).deadlines[k].dispatched_at_ns
            == clock.deadlines[k].dispatched_at_ns,
{
}

/// An advance reports exactly the deadlines that it wakes.
pub proof fn law_advance_reports_what_it_wakes(
    deadlines: Seq<DeadlineTrace>,
    target_ns: u64,
    id: DeadlineId,
)
    ensures
        newly_woken(deadlines, target_ns).contains(id) <==> exists|k: int|
            0 <= k < deadlines.len() && (#[trigger] deadlines[k]).id == id && !deadlines[k].woken
                && woken_by(deadlines[k], target_ns).woken,
    decreases deadlines.len(),
{
    if deadlines.len() > 0 {
        let rest = deadlines.drop_last();
        let last = deadlines.last();
        law_advance_reports_what_it_wakes(rest, target_ns, id);
        let before = newly_woken(rest, target_ns);
        let all = newly_woken(deadlines, target_ns);
        if all.contains(id) {
            let at = choose|at: int| 0 <= at < all.len() && all[at] == id;
            if at < before.len() {
                assert(before[at] == id);
                let k = choose|k: int|
                    0 <= k < rest.len() && (#[trigger] rest[k]).id == id && !rest[k].woken
                        && woken_by(rest[k], target_ns).woken;
                assert(deadlines[k] == rest[k]);
            } else {
                assert(deadlines[deadlines.len() - 1].id == id);
            }
        }
        if exists|k: int|
            0 <= k < deadlines.len() && (#[trigger] deadlines[k]).id == id && !deadlines[k].woken
                && woken_by(deadlines[k], target_ns).woken {
            let k = choose|k: int|
                0 <= k < deadlines.len() && (#[trigger] deadlines[k]).id == id
                    && !deadlines[k].woken && woken_by(deadlines[k], target_ns).woken;
            if k < rest.len() {
                assert(rest[k].id == id);
                assert(before.contains(id));
                let at = choose|at: int| 0 <= at < before.len() && before[at] == id;
                assert(all[at] == id);
            } else {
                assert(all[all.len() - 1] == id);
            }
        }
    }
}

/// An advance to the present wakes nothing again.
pub proof fn law_a_second_advance_wakes_nothing_again(clock: ClockModel, target_ns: u64)
    requires
        clock.valid(),
        target_ns >= clock.now_ns,
    ensures
        clock.advanced(target_ns).advanced(target_ns).wake_order
            == clock.advanced(target_ns).wake_order,
{
    let once = clock.advanced(target_ns);
    assert forall|id: DeadlineId| !newly_woken(once.deadlines, target_ns).contains(id) by {
        law_advance_reports_what_it_wakes(once.deadlines, target_ns, id);
    }
    let again = newly_woken(once.deadlines, target_ns);
    if again.len() > 0 {
        assert(again.contains(again[0]));
    }
    assert(once.wake_order + again =~= once.wake_order);
}

/// Advancing in two steps ends where one step ends, with the same deadlines woken; only the order
/// of their wakes may differ.
pub proof fn law_advancing_in_two_steps(clock: ClockModel, middle_ns: u64, target_ns: u64)
    requires
        clock.valid(),
        clock.now_ns <= middle_ns <= target_ns,
    ensures
        ({
            let twice = clock.advanced(middle_ns).advanced(target_ns);
            let once = clock.advanced(target_ns);
            &&& twice.now_ns == once.now_ns
            &&& twice.deadlines == once.deadlines
            &&& forall|id: DeadlineId|
                #![auto]
                twice.wake_order.contains(id) <==> once.wake_order.contains(id)
        }),
{
    let half = clock.advanced(middle_ns);
    let twice = half.advanced(target_ns);
    let once = clock.advanced(target_ns);
    assert(twice.deadlines =~= once.deadlines);
    let first = newly_woken(clock.deadlines, middle_ns);
    let second = newly_woken(half.deadlines, target_ns);
    let all = newly_woken(clock.deadlines, target_ns);
    assert forall|id: DeadlineId|
        #![auto]
        twice.wake_order.contains(id) <==> once.wake_order.contains(id) by {
        law_advance_reports_what_it_wakes(clock.deadlines, middle_ns, id);
        law_advance_reports_what_it_wakes(half.deadlines, target_ns, id);
        law_advance_reports_what_it_wakes(clock.deadlines, target_ns, id);
        lemma_contained_in_either(clock.wake_order, first, id);
        lemma_contained_in_either(clock.wake_order + first, second, id);
        lemma_contained_in_either(clock.wake_order, all, id);
        if all.contains(id) {
            let k = choose|k: int|
                0 <= k < clock.deadlines.len() && (#[trigger] clock.deadlines[k]).id == id
                    && !clock.deadlines[k].woken && woken_by(clock.deadlines[k], target_ns).woken;
            assert(half.deadlines[k] == woken_by(clock.deadlines[k], middle_ns));
            assert(first.contains(id) || second.contains(id));
        }
        if second.contains(id) {
            let k = choose|k: int|
                0 <= k < half.deadlines.len() && (#[trigger] half.deadlines[k]).id == id
                    && !half.deadlines[k].woken && woken_by(half.deadlines[k], target_ns).woken;
            assert(half.deadlines[k] == woken_by(clock.deadlines[k], middle_ns));
            assert(all.contains(id));
        }
        if first.contains(id) {
            let k = choose|k: int|
                0 <= k < clock.deadlines.len() && (#[trigger] clock.deadlines[k]).id == id
                    && !clock.deadlines[k].woken && woken_by(clock.deadlines[k], middle_ns).woken;
            assert(woken_by(clock.deadlines[k], target_ns).woken);
            assert(all.contains(id));
        }
    }
}

proof fn lemma_contained_in_either(front: Seq<DeadlineId>, back: Seq<DeadlineId>, id: DeadlineId)
    ensures
        (front + back).contains(id) <==> front.contains(id) || back.contains(id),
{
    if front.contains(id) {
        let k = choose|k: int| 0 <= k < front.len() && front[k] == id;
        assert((front + back)[k] == id);
    }
    if back.contains(id) {
        let k = choose|k: int| 0 <= k < back.len() && back[k] == id;
        assert((front + back)[front.len() + k] == id);
    }
}

} // verus!
