//! What the deadline schedule promises of each of its entries.

use crate::clock::DeadlineId;
use crate::deadline::{
    entry_ids, fired_at, lemma_resolved_signals, next_target_of,
    schedule_position, DeadlineNotice, DeadlineRegistrationId, DeadlineResolution,
    PendingDeadline, ScheduledDeadline, SchedulerModel,
};
use vstd::prelude::*;

verus! {

/// Whether a deadline has to wait for a reservation: one that is due as well and, by time and then
/// by number, does not come after it.
pub open spec fn waits_for(
    entry: ScheduledDeadline,
    reservation: PendingDeadline,
    now_ns: u64,
) -> bool {
    reservation.target_ns <= now_ns && (reservation.target_ns < entry.target_ns || (
    reservation.target_ns == entry.target_ns && reservation.id.0 <= entry.id.0))
}

/// Every armed deadline whose time has come fires, unless it has to wait for a reservation. It is
/// reported with its own time and number, resolved as fired, and leaves the schedule; any other
/// deadline stays armed and unresolved. Reservations stay as they are.
pub proof fn law_due_deadlines_fire(
    before: SchedulerModel,
    now_ns: u64,
    after: SchedulerModel,
    notices: Seq<DeadlineNotice>,
    k: int,
)
    requires
        before.valid(),
        before.has_orders(),
        fired_at(before, now_ns, after, notices),
        0 <= k < before.entries.len(),
    ensures
        ({
            let entry = before.entries[k];
            let free = forall|p: int|
                0 <= p < before.pending.len() ==> !waits_for(
                    entry,
                    #[trigger] before.pending[p],
                    now_ns,
                );
            &&& after.pending == before.pending
            &&& after.admission_open == before.admission_open
            &&& after.next_order == before.next_order + notices.len()
            &&& entry.target_ns <= now_ns && free <==> exists|n: int|
                0 <= n < notices.len() && (#[trigger] notices[n]).id == entry.id
            &&& entry.target_ns <= now_ns && free ==> {
                &&& notices[k].id == entry.id
                &&& notices[k].target_ns == entry.target_ns
                &&& notices[k].trace_id == Some(entry.trace_id)
                &&& notices[k].waker == before.signals[entry.id.0 - 1].waker
                &&& after.signals[entry.id.0 - 1].outcome matches Some(outcome)
                    && outcome.resolution == DeadlineResolution::Fired && outcome.order
                    == before.next_order + k
                &&& after.signals[entry.id.0 - 1].waker is None
                &&& !after.entries.contains(entry)
            }
            &&& !(entry.target_ns <= now_ns && free) ==> after.entries.contains(entry)
                && after.signals[entry.id.0 - 1] == before.signals[entry.id.0 - 1]
        }),
{
    let entry = before.entries[k];
    let count = notices.len() as int;
    let ids = entry_ids(before.entries.take(count));
    let free = forall|p: int|
        0 <= p < before.pending.len() ==> !waits_for(entry, #[trigger] before.pending[p], now_ns);
    if !free {
        let p = choose|p: int|
            0 <= p < before.pending.len() && waits_for(entry, #[trigger] before.pending[p], now_ns);
        assert(before.is_blocked(entry, now_ns));
    } else {
        assert forall|p: int| 0 <= p < before.pending.len() && (
        #[trigger] before.pending[p]).target_ns <= now_ns implies crate::deadline::comes_before(
            entry.target_ns,
            entry.id.0,
            before.pending[p].target_ns,
            before.pending[p].id.0,
        ) by {
            assert(!waits_for(entry, before.pending[p], now_ns));
        }
        assert(!before.is_blocked(entry, now_ns));
    }
    assert(before.fires(entry, now_ns) <==> entry.target_ns <= now_ns && free);
    assert(k < count <==> before.fires(before.entries[k], now_ns));
    assert forall|j: int| 0 <= j < ids.len() implies 1 <= (#[trigger] ids[j])
        <= before.signals.len() && ids[j] == before.entries[j].id.0 by {
        assert(before.knows(before.entries[j].id));
    }
    assert(ids.no_duplicates()) by {
        assert forall|i: int, j: int| 0 <= i < j < ids.len() implies ids[i] != ids[j] by {
            assert(before.entries[i].id != before.entries[j].id);
        }
    }
    lemma_resolved_signals(before.signals, ids, DeadlineResolution::Fired, before.next_order);
    assert(before.knows(entry.id));
    if k < count {
        assert(ids[k] == entry.id.0);
        if after.entries.contains(entry) {
            let j = choose|j: int| 0 <= j < after.entries.len() && after.entries[j] == entry;
            assert(before.entries[j + count] == entry);
            assert(before.entries[k].id != before.entries[j + count].id);
        }
    } else {
        assert(after.entries[k - count] == entry);
        assert(!ids.contains(entry.id.0)) by {
            if ids.contains(entry.id.0) {
                let j = choose|j: int| 0 <= j < ids.len() && ids[j] == entry.id.0;
                assert(before.entries[j].id != before.entries[k].id);
            }
        }
        assert forall|n: int| 0 <= n < notices.len() implies (#[trigger] notices[n]).id
            != entry.id by {
            assert(before.entries[n].id != before.entries[k].id);
        }
    }
}

/// A committed reservation leaves the reservations and is armed with its own time and number; the
/// others, reserved or armed, stay.
pub proof fn law_commit_arms_its_reservation(
    before: SchedulerModel,
    trace_id: DeadlineId,
    p: int,
    other: int,
    k: int,
)
    requires
        before.valid(),
        0 <= p < before.pending.len(),
        0 <= other < before.pending.len(),
        other != p,
        0 <= k < before.entries.len(),
    ensures
        ({
            let id = before.pending[p].id;
            let after = before.with_armed(id, trace_id);
            &&& after.pending.len() == before.pending.len() - 1
            &&& after.pending.contains(before.pending[other])
            &&& !after.pending.contains(before.pending[p])
            &&& after.entries.len() == before.entries.len() + 1
            &&& after.entries.contains(before.entries[k])
            &&& after.entries.contains(
                ScheduledDeadline { target_ns: before.pending[p].target_ns, id, trace_id },
            )
            &&& after.signals == before.signals
            &&& after.next_order == before.next_order
            &&& after.admission_open == before.admission_open
        }),
{
    let id = before.pending[p].id;
    let after = before.with_armed(id, trace_id);
    assert(before.is_pending(id));
    let at = before.pending_position(id);
    assert(at == p) by {
        assert(before.pending[at].id == id);
        if at < p {
            assert(before.pending[at].id.0 < before.pending[p].id.0);
        } else if p < at {
            assert(before.pending[p].id.0 < before.pending[at].id.0);
        }
    }
    let target_ns = before.pending[p].target_ns;
    let entry = ScheduledDeadline { target_ns, id, trace_id };
    let place = schedule_position(before.entries, target_ns, id.0) as int;
    lemma_place_fits(before.entries, target_ns, id.0);
    assert(after.entries[place] == entry);
    assert(after.entries[if k < place {
        k
    } else {
        k + 1
    }] == before.entries[k]);
    assert(after.pending[if other < p {
        other
    } else {
        other - 1
    }] == before.pending[other]);
    if after.pending.contains(before.pending[p]) {
        let j = choose|j: int|
            0 <= j < after.pending.len() && after.pending[j] == before.pending[p];
        let old = if j < p {
            j
        } else {
            j + 1
        };
        assert(before.pending[old] == before.pending[p]);
        if old < p {
            assert(before.pending[old].id.0 < before.pending[p].id.0);
        } else {
            assert(before.pending[p].id.0 < before.pending[old].id.0);
        }
    }
}

proof fn lemma_place_fits(entries: Seq<ScheduledDeadline>, target_ns: u64, id: u64)
    ensures
        schedule_position(entries, target_ns, id) <= entries.len(),
    decreases entries.len(),
{
    if entries.len() > 0 {
        lemma_place_fits(entries.drop_last(), target_ns, id);
    }
}

/// What the worker waits for next: the earliest armed deadline. While a reservation does not come
/// after it, the worker waits for no time, since that reservation wakes it.
pub proof fn law_worker_waits_for_the_earliest_deadline(model: SchedulerModel, k: int)
    requires
        model.valid(),
        0 <= k < model.entries.len(),
    ensures
        next_target_of(model) matches Some(target_ns) ==> target_ns <= model.entries[k].target_ns
            && model.entries[0].target_ns == target_ns && forall|p: int|
            0 <= p < model.pending.len() ==> target_ns <= (#[trigger] model.pending[p]).target_ns,
        next_target_of(model) is None ==> exists|p: int|
            0 <= p < model.pending.len() && (#[trigger] model.pending[p]).target_ns
                <= model.entries[0].target_ns,
        model.pending.len() == 0 ==> next_target_of(model) is Some,
{
    if k > 0 {
        assert(model.entries[0].target_ns <= model.entries[k].target_ns);
    }
}

/// Without an armed deadline the worker waits for no time.
pub proof fn law_worker_without_deadlines_waits_for_none(model: SchedulerModel)
    requires
        model.entries.len() == 0,
    ensures
        next_target_of(model) is None,
{
}

/// One resolution settles one registration, with the next number of its order.
pub proof fn law_one_resolution_settles_one_registration(
    model: SchedulerModel,
    id: DeadlineRegistrationId,
    other: DeadlineRegistrationId,
    resolution: DeadlineResolution,
)
    requires
        model.valid(),
        model.next_order < u64::MAX,
        1 <= id.0 <= model.signals.len(),
        1 <= other.0 <= model.signals.len(),
        other != id,
    ensures
        ({
            let after = model.with_resolved(seq![id.0], resolution);
            &&& after.signals[id.0 - 1].outcome matches Some(outcome) && outcome.resolution
                == resolution && outcome.order == model.next_order
            &&& after.signals[id.0 - 1].waker is None
            &&& after.signals[other.0 - 1] == model.signals[other.0 - 1]
            &&& after.next_order == model.next_order + 1
            &&& after.entries == model.entries
            &&& after.pending == model.pending
        }),
{
    let ids = seq![id.0];
    lemma_resolved_signals(model.signals, ids, resolution, model.next_order);
    assert(ids[0] == id.0);
    assert(!ids.contains(other.0));
}

} // verus!
