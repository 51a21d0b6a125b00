//! What virtual time promises of deadlines and listeners.

use crate::clock::{
    listener_state, newly_woken, notified_listeners, with_dispatch, with_listener_dropped,
    with_notice_taken, ClockListener, ClockModel, DeadlineId, DeadlineTrace,
};
use vstd::prelude::*;

verus! {

/// Once time has moved on, a deadline is woken exactly where its time has come; nothing else of it
/// changes.
pub proof fn law_deadlines_wake_at_their_time(clock: ClockModel, target_ns: u64, k: int)
    requires
        clock.valid(),
        target_ns >= clock.now_ns,
        0 <= k < clock.deadlines.len(),
    ensures
        ({
            let after = clock.advanced(target_ns);
            &&& after.now_ns == target_ns
            &&& after.deadlines.len() == clock.deadlines.len()
            &&& after.deadlines[k].woken <==> clock.deadlines[k].target_ns <= target_ns
            &&& after.deadlines[k].id == clock.deadlines[k].id
            &&& after.deadlines[k].target_ns == clock.deadlines[k].target_ns
            &&& after.deadlines[k].dispatched_at_ns == clock.deadlines[k].dispatched_at_ns
            &&& after.hooks == clock.hooks
            &&& after.next_deadline == clock.next_deadline
            &&& after.next_listener == clock.next_listener
        }),
{
}

proof fn lemma_newly_woken(deadlines: Seq<DeadlineTrace>, target_ns: u64, i: int)
    requires
        0 <= i < newly_woken(deadlines, target_ns).len(),
    ensures
        exists|k: int|
            0 <= k < deadlines.len() && (#[trigger] deadlines[k]).id == newly_woken(
                deadlines,
                target_ns,
            )[i] && !deadlines[k].woken && deadlines[k].target_ns <= target_ns,
    decreases deadlines.len(),
{
    let rest = deadlines.drop_last();
    if i < newly_woken(rest, target_ns).len() {
        lemma_newly_woken(rest, target_ns, i);
        let k = choose|k: int|
            0 <= k < rest.len() && (#[trigger] rest[k]).id == newly_woken(rest, target_ns)[i]
                && !rest[k].woken && rest[k].target_ns <= target_ns;
        assert(deadlines[k] == rest[k]);
    } else {
        assert(deadlines[deadlines.len() - 1] == deadlines.last());
    }
}

proof fn lemma_woken_in_order(deadlines: Seq<DeadlineTrace>, target_ns: u64)
    requires
        forall|i: int, j: int|
            #![trigger deadlines[i], deadlines[j]]
            0 <= i < j < deadlines.len() ==> deadlines[i].id.0 < deadlines[j].id.0,
    ensures
        forall|i: int, j: int|
            #![trigger newly_woken(deadlines, target_ns)[i], newly_woken(deadlines, target_ns)[j]]
            0 <= i < j < newly_woken(deadlines, target_ns).len() ==> newly_woken(
                deadlines,
                target_ns,
            )[i].0 < newly_woken(deadlines, target_ns)[j].0,
    decreases deadlines.len(),
{
    if deadlines.len() > 0 {
        let rest = deadlines.drop_last();
        let before = newly_woken(rest, target_ns);
        let all = newly_woken(deadlines, target_ns);
        assert forall|i: int, j: int| #![trigger rest[i], rest[j]]
            0 <= i < j < rest.len() implies rest[i].id.0 < rest[j].id.0 by {
            assert(deadlines[i].id.0 < deadlines[j].id.0);
        }
        lemma_woken_in_order(rest, target_ns);
        assert forall|i: int, j: int| #![trigger all[i], all[j]]
            0 <= i < j < all.len() implies all[i].0 < all[j].0 by {
            if j < before.len() {
                assert(before[i].0 < before[j].0);
            } else {
                assert(all[i] == before[i]);
                lemma_newly_woken(rest, target_ns, i);
                let k = choose|k: int|
                    0 <= k < rest.len() && (#[trigger] rest[k]).id == before[i] && !rest[k].woken
                        && rest[k].target_ns <= target_ns;
                assert(deadlines[k].id.0 < deadlines[deadlines.len() - 1].id.0);
            }
        }
    }
}

/// A step of time reports the deadlines whose time came with it: those after the old time and not
/// after the new one, each once, in the order of their registration, behind those reported before.
pub proof fn law_each_deadline_is_reported_when_its_time_comes(
    clock: ClockModel,
    target_ns: u64,
    k: int,
)
    requires
        clock.valid(),
        target_ns >= clock.now_ns,
        0 <= k < clock.deadlines.len(),
    ensures
        ({
            let after = clock.advanced(target_ns);
            let old = clock.wake_order.len() as int;
            let news = after.wake_order.skip(old);
            &&& after.wake_order.len() >= old
            &&& after.wake_order.take(old) == clock.wake_order
            &&& news.contains(clock.deadlines[k].id) <==> clock.now_ns
                < clock.deadlines[k].target_ns <= target_ns
            &&& forall|i: int, j: int|
                #![trigger news[i], news[j]]
                0 <= i < j < news.len() ==> news[i].0 < news[j].0
        }),
{
    let news = newly_woken(clock.deadlines, target_ns);
    let after = clock.advanced(target_ns);
    let old = clock.wake_order.len() as int;
    assert(after.wake_order.take(old) =~= clock.wake_order);
    assert(after.wake_order.skip(old) =~= news);
    crate::clock::law_advance_reports_what_it_wakes(
        clock.deadlines,
        target_ns,
        clock.deadlines[k].id,
    );
    lemma_woken_in_order(clock.deadlines, target_ns);
}

/// Every connected listener is told of a step of time; disconnected ones are forgotten.
pub proof fn law_connected_listeners_are_told(listeners: Seq<ClockListener>, k: int)
    requires
        0 <= k < listeners.len(),
    ensures
        listeners[k].connected ==> exists|j: int|
            0 <= j < notified_listeners(listeners).len() && (
            #[trigger] notified_listeners(listeners)[j]).id == listeners[k].id
                && notified_listeners(listeners)[j].notified && notified_listeners(
                listeners,
            )[j].connected,
        forall|j: int|
            0 <= j < notified_listeners(listeners).len() ==> (
            #[trigger] notified_listeners(listeners)[j]).connected && notified_listeners(
                listeners,
            )[j].notified,
        notified_listeners(listeners).len() <= listeners.len(),
    decreases listeners.len(),
{
    let rest = listeners.drop_last();
    let before = notified_listeners(rest);
    let all = notified_listeners(listeners);
    if rest.len() > 0 {
        law_connected_listeners_are_told(
            rest,
            if k < rest.len() {
                k
            } else {
                0
            },
        );
    }
    if listeners[k].connected {
        if k < rest.len() {
            assert(rest[k] == listeners[k]);
            let j = choose|j: int|
                0 <= j < before.len() && (#[trigger] before[j]).id == rest[k].id
                    && before[j].notified && before[j].connected;
            assert(all[j] == before[j]);
        } else {
            assert(all[all.len() - 1].id == listeners[k].id);
        }
    }
}

/// A dispatch is recorded for its own deadline alone, with the time it was given.
pub proof fn law_dispatch_is_recorded_for_its_deadline(
    deadlines: Seq<DeadlineTrace>,
    id: DeadlineId,
    actual_ns: u64,
    k: int,
)
    requires
        0 <= k < deadlines.len(),
    ensures
        ({
            let after = with_dispatch(deadlines, id, actual_ns);
            &&& after.len() == deadlines.len()
            &&& after[k].id == deadlines[k].id
            &&& after[k].target_ns == deadlines[k].target_ns
            &&& after[k].woken == deadlines[k].woken
            &&& deadlines[k].id == id ==> after[k].dispatched_at_ns == Some(actual_ns)
            &&& deadlines[k].id != id ==> after[k] == deadlines[k]
        }),
{
}

/// A listener takes its notice once: afterwards it has none, it is still known, and nobody else's
/// notice is touched. A dropped listener is no longer connected.
pub proof fn law_notice_is_taken_once(listeners: Seq<ClockListener>, k: int, other: int)
    requires
        forall|i: int, j: int|
            #![trigger listeners[i], listeners[j]]
            0 <= i < j < listeners.len() ==> listeners[i].id < listeners[j].id,
        0 <= k < listeners.len(),
        0 <= other < listeners.len(),
        other != k,
    ensures
        ({
            let id = listeners[k].id;
            let taken = with_notice_taken(listeners, id);
            let dropped = with_listener_dropped(listeners, id);
            &&& listener_state(listeners, id) == Some(listeners[k].notified)
            &&& listener_state(taken, id) == Some(false)
            &&& taken[k].connected == listeners[k].connected
            &&& taken[other] == listeners[other]
            &&& !dropped[k].connected
            &&& dropped[k].notified == listeners[k].notified
            &&& dropped[other] == listeners[other]
        }),
{
    let id = listeners[k].id;
    let taken = with_notice_taken(listeners, id);
    assert(listeners[other].id != id);
    assert(listeners[k].id == id);
    assert(taken[k].id == id);
    let i = choose|i: int| 0 <= i < taken.len() && (#[trigger] taken[i]).id == id;
    assert(taken[i].id == listeners[i].id);
    assert(i == k);
}

/// Who is not known has no notice.
pub proof fn law_unknown_listener_has_no_notice(listeners: Seq<ClockListener>, id: u64)
    requires
        forall|k: int| 0 <= k < listeners.len() ==> (#[trigger] listeners[k]).id != id,
    ensures
        listener_state(listeners, id) is None,
        with_notice_taken(listeners, id) == listeners,
{
    assert(with_notice_taken(listeners, id) =~= listeners);
}

} // verus!
