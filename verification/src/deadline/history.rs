//! What a deadline schedule promises over any sequence of calls.

use crate::clock::DeadlineId;
use crate::deadline::{
    comes_before, entry_ids, fired_at, law_closing_resolves_the_whole_schedule,
    law_firing_never_overtakes, law_firing_respects_resolutions, lemma_entry_ids_are_distinct,
    lemma_resolved_signals, lemma_schedule_position, lists_schedule, notice_ids, schedule_position,
    DeadlineNotice, DeadlineOutcome, DeadlineRegistrationId, DeadlineResolution,
    DeadlineResolutionState, PendingDeadline, ScheduledDeadline, SchedulerModel,
};
use vstd::prelude::*;

verus! {

/// One call on a schedule. Arming a registration whose target is reached is followed by a firing.
pub enum DeadlineStep {
    Reserve { target_ns: u64 },
    Arm { id: DeadlineRegistrationId, trace_id: DeadlineId },
    Abandon { id: DeadlineRegistrationId },
    Fire { now_ns: u64 },
    Disarm { id: DeadlineRegistrationId },
    Poll { id: DeadlineRegistrationId, waker: u64 },
    Seal,
    Close,
}

impl SchedulerModel {
    /// The schedule after a registration was admitted.
    pub open spec fn with_reserved(self, target_ns: u64) -> SchedulerModel {
        let id = DeadlineRegistrationId((self.signals.len() + 1) as u64);
        SchedulerModel {
            pending: self.pending.push(PendingDeadline { target_ns, id }),
            signals: self.signals.push(DeadlineResolutionState { outcome: None, waker: None }),
            ..self
        }
    }

    /// Whether a registration is admitted or armed.
    pub open spec fn is_scheduled(self, id: DeadlineRegistrationId) -> bool {
        self.is_pending(id) || self.is_armed(id)
    }

    /// Whether a registration stands in the schedule with this target alone, if it does.
    pub open spec fn aims_at(self, id: DeadlineRegistrationId, target_ns: u64) -> bool {
        &&& forall|k: int|
            0 <= k < self.pending.len() && (#[trigger] self.pending[k]).id == id
                ==> self.pending[k].target_ns == target_ns
        &&& forall|k: int|
            0 <= k < self.entries.len() && (#[trigger] self.entries[k]).id == id
                ==> self.entries[k].target_ns == target_ns
    }

    /// Whether a registration has fired.
    pub open spec fn has_fired(self, id: DeadlineRegistrationId) -> bool {
        self.signal(id).outcome matches Some(outcome) && outcome.resolution
            == DeadlineResolution::Fired
    }
}

/// Whether one call leads from one schedule to the next.
pub open spec fn leads_to(before: SchedulerModel, step: DeadlineStep, after: SchedulerModel) -> bool {
    match step {
        DeadlineStep::Reserve { target_ns } => after == if before.admission_open {
            before.with_reserved(target_ns)
        } else {
            before
        },
        DeadlineStep::Arm { id, trace_id } => after == before.with_armed(id, trace_id),
        DeadlineStep::Abandon { id } => after == if before.is_pending(id) {
            SchedulerModel {
                pending: before.pending.remove(before.pending_position(id)),
                ..before
            }
        } else {
            before
        },
        DeadlineStep::Fire { now_ns } => exists|notices: Seq<DeadlineNotice>| #[trigger]
            fired_at(before, now_ns, after, notices),
        DeadlineStep::Disarm { id } => after == if before.is_armed(id) {
            (SchedulerModel {
                entries: before.entries.remove(before.armed_position(id)),
                ..before
            }).with_resolved(seq![id.0], DeadlineResolution::Disarmed)
        } else {
            before
        },
        DeadlineStep::Poll { id, waker } => before.knows(id) && after == if before.signal(
            id,
        ).outcome is Some {
            before
        } else {
            SchedulerModel {
                signals: before.signals.update(
                    id.0 - 1,
                    DeadlineResolutionState { outcome: None, waker: Some(waker) },
                ),
                ..before
            }
        },
        DeadlineStep::Seal => after == (SchedulerModel { admission_open: false, ..before }),
        DeadlineStep::Close => exists|notices: Seq<DeadlineNotice>| #[trigger]
            lists_schedule(before, notices) && after == (SchedulerModel {
                admission_open: false,
                pending: seq![],
                entries: seq![],
                ..before
            }).with_resolved(notice_ids(notices), DeadlineResolution::RuntimeClosed),
    }
}

/// Whether schedules follow each other by calls, one from the other.
pub open spec fn is_course(states: Seq<SchedulerModel>, steps: Seq<DeadlineStep>) -> bool {
    &&& states.len() == steps.len() + 1
    &&& forall|i: int|
        0 <= i < states.len() ==> (#[trigger] states[i]).valid() && states[i].has_orders()
    &&& forall|i: int|
        #![trigger steps[i]]
        0 <= i < steps.len() ==> leads_to(states[i], steps[i], states[i + 1])
}

proof fn lemma_arming_keeps_the_others(
    before: SchedulerModel,
    id: DeadlineRegistrationId,
    trace_id: DeadlineId,
    other: DeadlineRegistrationId,
    target_ns: u64,
)
    requires
        before.valid(),
    ensures
        !before.is_scheduled(other) ==> !before.with_armed(id, trace_id).is_scheduled(other),
        before.aims_at(other, target_ns) ==> before.with_armed(id, trace_id).aims_at(
            other,
            target_ns,
        ),
{
    let after = before.with_armed(id, trace_id);
    if before.is_pending(id) {
        let p = before.pending_position(id);
        let entry = ScheduledDeadline { target_ns: before.pending[p].target_ns, id, trace_id };
        let at = schedule_position(before.entries, entry.target_ns, id.0) as int;
        lemma_schedule_position(before.entries, entry);
        assert forall|k: int| 0 <= k < after.pending.len() implies before.pending.contains(
            #[trigger] after.pending[k],
        ) by {
            assert(after.pending[k] == before.pending[if k < p {
                k
            } else {
                k + 1
            }]);
        }
        assert forall|k: int| 0 <= k < after.entries.len() implies (#[trigger] after.entries[k])
            == entry || before.entries.contains(after.entries[k]) by {
            if k < at {
                assert(after.entries[k] == before.entries[k]);
            } else if k > at {
                assert(after.entries[k] == before.entries[k - 1]);
            }
        }
        if after.is_pending(other) {
            let k = choose|k: int|
                0 <= k < after.pending.len() && (#[trigger] after.pending[k]).id == other;
            assert(before.pending.contains(after.pending[k]));
            assert(before.is_pending(other));
        }
        if after.is_armed(other) {
            let k = choose|k: int|
                0 <= k < after.entries.len() && (#[trigger] after.entries[k]).id == other;
            assert(after.entries[k] == entry || before.entries.contains(after.entries[k]));
        }
    }
}

proof fn lemma_step(
    before: SchedulerModel,
    step: DeadlineStep,
    after: SchedulerModel,
    id: DeadlineRegistrationId,
    target_ns: u64,
)
    requires
        before.valid(),
        before.has_orders(),
        after.valid(),
        leads_to(before, step, after),
        before.knows(id),
    ensures
        after.knows(id),
        before.next_order <= after.next_order,
        before.signals.len() <= after.signals.len(),
        before.signal(id).outcome is Some ==> after.signal(id).outcome == before.signal(id).outcome,
        !before.is_scheduled(id) ==> !after.is_scheduled(id) && after.signal(id).outcome
            == before.signal(id).outcome,
        before.aims_at(id, target_ns) ==> after.aims_at(id, target_ns),
        before.signal(id).outcome is None && after.has_fired(id) ==> step is Fire,
{
    match step {
        DeadlineStep::Reserve { target_ns: reserved } => {
            if before.admission_open {
                assert(after.signals[id.0 - 1] == before.signals[id.0 - 1]);
                assert forall|k: int| 0 <= k < after.pending.len() && (
                #[trigger] after.pending[k]).id == id implies k < before.pending.len()
                    && before.pending[k] == after.pending[k] by {}
                if after.is_pending(id) {
                    let k = choose|k: int|
                        0 <= k < after.pending.len() && (#[trigger] after.pending[k]).id == id;
                    assert(before.pending[k].id == id);
                }
            }
        },
        DeadlineStep::Arm { id: armed, trace_id } => {
            lemma_arming_keeps_the_others(before, armed, trace_id, id, target_ns);
        },
        DeadlineStep::Abandon { id: gone } => {
            if before.is_pending(gone) {
                let p = before.pending_position(gone);
                assert forall|k: int| 0 <= k < after.pending.len() implies before.pending.contains(
                    #[trigger] after.pending[k],
                ) by {
                    assert(after.pending[k] == before.pending[if k < p {
                        k
                    } else {
                        k + 1
                    }]);
                }
                if after.is_pending(id) {
                    let k = choose|k: int|
                        0 <= k < after.pending.len() && (#[trigger] after.pending[k]).id == id;
                    assert(before.pending.contains(after.pending[k]));
                }
            }
        },
        DeadlineStep::Fire { now_ns } => {
            let notices = choose|notices: Seq<DeadlineNotice>| #[trigger]
                fired_at(before, now_ns, after, notices);
            let count = notices.len() as int;
            law_firing_respects_resolutions(before, now_ns, after, notices, id);
            lemma_entry_ids_are_distinct(before, 0, count);
            assert(before.entries.take(count) =~= before.entries.subrange(0, count));
            assert forall|k: int| 0 <= k < entry_ids(before.entries.take(count)).len() implies 1
                <= (#[trigger] entry_ids(before.entries.take(count))[k]) <= before.signals.len() by {
                assert(before.knows(before.entries[k].id));
            }
            lemma_resolved_signals(
                before.signals,
                entry_ids(before.entries.take(count)),
                DeadlineResolution::Fired,
                before.next_order,
            );
            assert forall|k: int| 0 <= k < after.entries.len() implies (
            #[trigger] after.entries[k]) == before.entries[k + count] by {}
            if after.is_armed(id) {
                let k = choose|k: int|
                    0 <= k < after.entries.len() && (#[trigger] after.entries[k]).id == id;
                assert(before.entries[k + count].id == id);
            }
        },
        DeadlineStep::Disarm { id: gone } => {
            if before.is_armed(gone) {
                let p = before.armed_position(gone);
                assert(before.entries[p].id == gone);
                lemma_resolved_signals(
                    before.signals,
                    seq![gone.0],
                    DeadlineResolution::Disarmed,
                    before.next_order,
                );
                assert(seq![gone.0][0] == gone.0);
                if id != gone {
                    assert(!seq![gone.0].contains(((id.0 - 1) + 1) as u64));
                    assert(after.signals[id.0 - 1] == before.signals[id.0 - 1]);
                }
                assert forall|k: int| 0 <= k < after.entries.len() implies before.entries.contains(
                    #[trigger] after.entries[k],
                ) by {
                    assert(after.entries[k] == before.entries[if k < p {
                        k
                    } else {
                        k + 1
                    }]);
                }
                if after.is_armed(id) {
                    let k = choose|k: int|
                        0 <= k < after.entries.len() && (#[trigger] after.entries[k]).id == id;
                    assert(before.entries.contains(after.entries[k]));
                }
            }
        },
        DeadlineStep::Poll { id: polled, waker } => {},
        DeadlineStep::Seal => {},
        DeadlineStep::Close => {
            let notices = choose|notices: Seq<DeadlineNotice>| #[trigger]
                lists_schedule(before, notices) && after == (SchedulerModel {
                    admission_open: false,
                    pending: seq![],
                    entries: seq![],
                    ..before
                }).with_resolved(notice_ids(notices), DeadlineResolution::RuntimeClosed);
            law_closing_resolves_the_whole_schedule(before, notices, id);
        },
    }
}

proof fn lemma_course(
    states: Seq<SchedulerModel>,
    steps: Seq<DeadlineStep>,
    i: int,
    j: int,
    id: DeadlineRegistrationId,
    target_ns: u64,
)
    requires
        is_course(states, steps),
        0 <= i <= j < states.len(),
        states[i].knows(id),
    ensures
        states[j].knows(id),
        states[i].signals.len() <= states[j].signals.len(),
        states[i].signal(id).outcome is Some ==> states[j].signal(id).outcome == states[i].signal(
            id,
        ).outcome,
        states[i].aims_at(id, target_ns) ==> states[j].aims_at(id, target_ns),
    decreases j - i,
{
    if i < j {
        lemma_course(states, steps, i, j - 1, id, target_ns);
        assert(leads_to(states[j - 1], steps[j - 1], states[j - 1 + 1]));
        assert(states[j - 1].valid() && states[j].valid());
        lemma_step(states[j - 1], steps[j - 1], states[j], id, target_ns);
    }
}

/// A resolution that was seen once stays: whatever is called on the schedule afterwards, every later
/// look shows the same outcome, and the registration cannot be resolved again.
pub proof fn law_seen_resolution_stays(
    states: Seq<SchedulerModel>,
    steps: Seq<DeadlineStep>,
    i: int,
    j: int,
    id: DeadlineRegistrationId,
    outcome: DeadlineOutcome,
)
    requires
        is_course(states, steps),
        0 <= i <= j < states.len(),
        states[i].knows(id),
        states[i].signal(id).outcome == Some(outcome),
    ensures
        states[j].knows(id),
        states[j].signal(id).outcome == Some(outcome),
        !states[j].is_pending(id),
        !states[j].is_armed(id),
{
    lemma_course(states, steps, i, j, id, 0);
    assert(states[j].valid());
}

proof fn lemma_fired_behind(
    states: Seq<SchedulerModel>,
    steps: Seq<DeadlineStep>,
    i: int,
    j: int,
    older: DeadlineRegistrationId,
    younger: DeadlineRegistrationId,
    target_ns: u64,
)
    requires
        is_course(states, steps),
        0 <= i <= j < states.len(),
        states[i].knows(older),
        states[i].knows(younger),
        older.0 < younger.0,
        states[i].aims_at(older, target_ns),
        states[i].aims_at(younger, target_ns),
        states[i].signal(younger).outcome is None,
    ensures
        states[j].has_fired(younger) ==> !states[j].is_scheduled(older) && (states[j].signal(
            older,
        ).outcome matches Some(outcome) ==> outcome.order < states[j].signal(
            younger,
        ).outcome->0.order),
    decreases j - i,
{
    if i < j {
        lemma_fired_behind(states, steps, i, j - 1, older, younger, target_ns);
        lemma_course(states, steps, i, j - 1, older, target_ns);
        lemma_course(states, steps, i, j - 1, younger, target_ns);
        let before = states[j - 1];
        let after = states[j];
        assert(leads_to(before, steps[j - 1], states[j - 1 + 1]));
        assert(before.valid() && before.has_orders() && after.valid());
        lemma_step(before, steps[j - 1], after, older, target_ns);
        lemma_step(before, steps[j - 1], after, younger, target_ns);
        if after.has_fired(younger) && before.signal(younger).outcome is None {
            if let DeadlineStep::Fire { now_ns } = steps[j - 1] {
                lemma_firing_older_first(before, now_ns, after, older, younger, target_ns);
            }
        }
    }
}

proof fn lemma_firing_older_first(
    before: SchedulerModel,
    now_ns: u64,
    after: SchedulerModel,
    older: DeadlineRegistrationId,
    younger: DeadlineRegistrationId,
    target_ns: u64,
)
    requires
        before.valid(),
        before.has_orders(),
        after.valid(),
        leads_to(before, DeadlineStep::Fire { now_ns }, after),
        before.knows(older),
        before.knows(younger),
        older.0 < younger.0,
        before.aims_at(older, target_ns),
        before.aims_at(younger, target_ns),
        before.signal(younger).outcome is None,
        after.signal(younger).outcome is Some,
    ensures
        !after.is_scheduled(older),
        after.signal(older).outcome matches Some(outcome) ==> outcome.order < after.signal(
            younger,
        ).outcome->0.order,
{
    let notices = choose|notices: Seq<DeadlineNotice>| #[trigger]
        fired_at(before, now_ns, after, notices);
    let count = notices.len() as int;
    let ids = entry_ids(before.entries.take(count));
    law_firing_respects_resolutions(before, now_ns, after, notices, older);
    law_firing_respects_resolutions(before, now_ns, after, notices, younger);
    lemma_entry_ids_are_distinct(before, 0, count);
    assert(before.entries.take(count) =~= before.entries.subrange(0, count));
    assert forall|k: int| 0 <= k < ids.len() implies 1 <= (#[trigger] ids[k])
        <= before.signals.len() by {
        assert(before.knows(before.entries[k].id));
    }
    lemma_resolved_signals(before.signals, ids, DeadlineResolution::Fired, before.next_order);
    if !ids.contains(younger.0) {
        assert(!ids.contains(((younger.0 - 1) + 1) as u64));
        assert(after.signals[younger.0 - 1] == before.signals[younger.0 - 1]);
    }
    let later = choose|k: int| 0 <= k < ids.len() && ids[k] == younger.0;
    assert(before.entries[later].id == younger);
    assert(notices[later].id == younger);
    assert(after.signals[ids[later] - 1].outcome->0.order == before.next_order + later);
    law_firing_never_overtakes(before, now_ns, after, notices, later);
    if before.is_pending(older) {
        let k = choose|k: int|
            0 <= k < before.pending.len() && (#[trigger] before.pending[k]).id == older;
        assert(comes_before(
            notices[later].target_ns,
            notices[later].id.0,
            before.pending[k].target_ns,
            before.pending[k].id.0,
        ));
        assert(false);
    }
    if before.is_armed(older) {
        let k = choose|k: int|
            0 <= k < before.entries.len() && (#[trigger] before.entries[k]).id == older;
        assert(comes_before(
            before.entries[k].target_ns,
            before.entries[k].id.0,
            notices[later].target_ns,
            notices[later].id.0,
        ));
        assert(after.signal(before.entries[k].id).outcome is Some);
    } else {
        lemma_step(before, DeadlineStep::Fire { now_ns }, after, older, target_ns);
    }
}

/// Registrations are numbered in the order in which they are made, whatever happens to the earlier
/// ones; and of two with the same target that both fire, the older one fires first.
pub proof fn law_registrations_keep_their_order(
    states: Seq<SchedulerModel>,
    steps: Seq<DeadlineStep>,
    p: int,
    q: int,
    j: int,
    first_ns: u64,
    second_ns: u64,
)
    requires
        is_course(states, steps),
        0 <= p < q < j < states.len(),
        steps[p] == (DeadlineStep::Reserve { target_ns: first_ns }),
        steps[q] == (DeadlineStep::Reserve { target_ns: second_ns }),
        states[p].admission_open,
        states[q].admission_open,
    ensures
        ({
            let older = DeadlineRegistrationId((states[p].signals.len() + 1) as u64);
            let younger = DeadlineRegistrationId((states[q].signals.len() + 1) as u64);
            &&& older.0 < younger.0
            &&& states[j].knows(older)
            &&& states[j].knows(younger)
            &&& first_ns == second_ns && states[j].has_fired(older) && states[j].has_fired(younger)
                ==> states[j].signal(older).outcome->0.order < states[j].signal(
                younger,
            ).outcome->0.order
        }),
{
    let older = DeadlineRegistrationId((states[p].signals.len() + 1) as u64);
    let younger = DeadlineRegistrationId((states[q].signals.len() + 1) as u64);
    assert(leads_to(states[p], steps[p], states[p + 1]));
    assert(leads_to(states[q], steps[q], states[q + 1]));
    assert(states[p].valid() && states[q].valid() && states[p + 1].valid() && states[q
        + 1].valid());
    lemma_reserved(states[p], first_ns);
    lemma_reserved(states[q], second_ns);
    lemma_course(states, steps, p + 1, q, older, first_ns);
    lemma_course(states, steps, p + 1, q + 1, older, first_ns);
    lemma_course(states, steps, q + 1, j, older, first_ns);
    lemma_course(states, steps, q + 1, j, younger, second_ns);
    if first_ns == second_ns {
        lemma_fired_behind(states, steps, q + 1, j, older, younger, first_ns);
    }
}

proof fn lemma_reserved(before: SchedulerModel, target_ns: u64)
    requires
        before.valid(),
        before.with_reserved(target_ns).valid(),
    ensures
        ({
            let id = DeadlineRegistrationId((before.signals.len() + 1) as u64);
            let after = before.with_reserved(target_ns);
            &&& after.knows(id)
            &&& after.signal(id).outcome is None
            &&& after.aims_at(id, target_ns)
            &&& after.signals.len() == before.signals.len() + 1
        }),
{
    let id = DeadlineRegistrationId((before.signals.len() + 1) as u64);
    let after = before.with_reserved(target_ns);
    assert forall|k: int| 0 <= k < after.pending.len() && (#[trigger] after.pending[k]).id
        == id implies after.pending[k].target_ns == target_ns by {
        if k < before.pending.len() {
            assert(before.knows(before.pending[k].id));
        }
    }
    assert forall|k: int| 0 <= k < after.entries.len() && (#[trigger] after.entries[k]).id
        == id implies after.entries[k].target_ns == target_ns by {
        assert(before.knows(before.entries[k].id));
    }
}

} // verus!
