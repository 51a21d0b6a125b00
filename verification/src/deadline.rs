//! One-shot absolute deadlines: each registration resolves exactly once, in a deterministic order.

use crate::clock::DeadlineId;
use crate::wait::{look_again, Look, WaitTimeout};
use vstd::prelude::*;

pub mod history;
pub mod laws;

verus! {

/// Runtime-local identity of one deadline registration.
#[derive(Clone, Copy, Debug, PartialEq, Eq, PartialOrd, Ord, Hash, Structural)]
pub struct DeadlineRegistrationId(pub u64);

impl DeadlineRegistrationId {
    /// Returns the numeric registration identity.
    pub fn get(self) -> (id: u64)
        ensures
            id == self.0,
    {
        self.0
    }
}

/// Unique terminal resolution of a deadline registration.
#[derive(Clone, Copy, Debug, PartialEq, Eq, Structural)]
pub enum DeadlineResolution {
    /// The Runtime clock reached the absolute target.
    Fired,
    /// The registration owner disarmed or dropped the handle first.
    Disarmed,
    /// Runtime close drained the still-armed registration.
    RuntimeClosed,
}

/// Observable resolution and deterministic scheduler order.
#[derive(Clone, Copy, Debug, PartialEq, Eq, Structural)]
pub struct DeadlineOutcome {
    /// The unique terminal resolution.
    pub resolution: DeadlineResolution,
    /// Runtime-local order in which the scheduler committed the resolution.
    pub order: u64,
}

/// Result of waiting for a deadline signal.
#[derive(Clone, Copy, Debug, PartialEq, Eq, Structural)]
pub enum DeadlineWaitResult {
    /// The registration reached its unique resolution.
    Resolved(DeadlineOutcome),
    /// Only this observation wait elapsed.
    Timeout,
}

/// Result of asking for a resolution without blocking.
#[derive(Clone, Copy, Debug, PartialEq, Eq, Structural)]
pub enum DeadlinePoll {
    /// Not resolved yet: the supplied waker is kept.
    Pending,
    /// The unique resolution.
    Ready(DeadlineOutcome),
}

/// What one registration's observers see, with the one waker that waits for it.
#[derive(Clone, Copy, Debug, PartialEq, Eq, Structural)]
pub struct DeadlineResolutionState {
    pub outcome: Option<DeadlineOutcome>,
    pub waker: Option<u64>,
}

impl DeadlineResolutionState {
    /// A registration that nothing resolved yet.
    pub fn armed() -> (state: Self)
        ensures
            state.outcome is None,
            state.waker is None,
    {
        DeadlineResolutionState { outcome: None, waker: None }
    }

    /// Resolves the registration; true the first time only. A waiting waker is dropped.
    pub fn resolve(&mut self, outcome: DeadlineOutcome) -> (resolved: bool)
        ensures
            resolved == (old(self).outcome is None),
            resolved ==> *final(self) == (DeadlineResolutionState {
                outcome: Some(outcome),
                waker: None,
            }),
            !resolved ==> *final(self) == *old(self),
    {
        self.resolve_and_take_waker(outcome).is_some()
    }

    /// Resolves the registration and hands back the waker to wake; none where it was resolved
    /// before.
    pub fn resolve_and_take_waker(&mut self, outcome: DeadlineOutcome) -> (taken: Option<
        Option<u64>,
    >)
        ensures
            taken is Some <==> old(self).outcome is None,
            taken matches Some(waker) ==> waker == old(self).waker && *final(self) == (
            DeadlineResolutionState { outcome: Some(outcome), waker: None }),
            taken is None ==> *final(self) == *old(self),
    {
        if self.outcome.is_some() {
            return None;
        }
        let waker = self.waker;
        self.outcome = Some(outcome);
        self.waker = None;
        Some(waker)
    }

    /// Asks for the resolution and, while there is none, keeps `candidate` as the one waker.
    ///
    /// The second part of the answer is the waker that is not kept: one that `candidate` replaced,
    /// or `candidate` itself where it is not needed.
    pub fn poll_resolution(&mut self, candidate: u64) -> (answer: (DeadlinePoll, Option<u64>))
        ensures
            old(self).outcome matches Some(outcome) ==> answer == (
                DeadlinePoll::Ready(outcome),
                Some(candidate),
            ) && *final(self) == *old(self),
            old(self).outcome is None ==> answer.0 == DeadlinePoll::Pending && answer.1 == old(
                self,
            ).waker && *final(self) == (DeadlineResolutionState {
                outcome: None,
                waker: Some(candidate),
            }),
    {
        match self.outcome {
            Some(outcome) => (DeadlinePoll::Ready(outcome), Some(candidate)),
            None => {
                let displaced = self.waker;
                self.waker = Some(candidate);
                (DeadlinePoll::Pending, displaced)
            },
        }
    }

    /// Returns the resolution.
    pub fn outcome(&self) -> (outcome: Option<DeadlineOutcome>)
        ensures
            outcome == self.outcome,
    {
        self.outcome
    }
}

/// An armed registration that waits for its target.
#[derive(Clone, Copy, Debug, PartialEq, Eq, Structural)]
pub struct ScheduledDeadline {
    pub target_ns: u64,
    pub id: DeadlineRegistrationId,
    /// The clock's own number for this target.
    pub trace_id: DeadlineId,
}

/// A registration that is admitted but not armed yet.
#[derive(Clone, Copy, Debug, PartialEq, Eq, Structural)]
pub struct PendingDeadline {
    pub target_ns: u64,
    pub id: DeadlineRegistrationId,
}

/// One registration that was just resolved: whom to tell.
#[derive(Clone, Copy, Debug, PartialEq, Eq, Structural)]
pub struct DeadlineNotice {
    pub target_ns: u64,
    pub id: DeadlineRegistrationId,
    /// The clock's own number; none for a registration that was never armed.
    pub trace_id: Option<DeadlineId>,
    /// The waker to wake, once every registration of the batch is resolved.
    pub waker: Option<u64>,
}

/// Whether target `left_ns` of registration `left` comes before target `right_ns` of `right`:
/// earlier targets first, and at one target the older registration first.
pub open spec fn comes_before(left_ns: u64, left: u64, right_ns: u64, right: u64) -> bool {
    left_ns < right_ns || (left_ns == right_ns && left < right)
}

/// Whether the armed registrations stand in scheduling order.
pub open spec fn in_schedule_order(entries: Seq<ScheduledDeadline>) -> bool {
    forall|i: int, j: int|
        #![trigger entries[i], entries[j]]
        0 <= i < j < entries.len() ==> comes_before(
            entries[i].target_ns,
            entries[i].id.0,
            entries[j].target_ns,
            entries[j].id.0,
        )
}

/// Whether notices stand in scheduling order.
pub open spec fn notices_in_order(notices: Seq<DeadlineNotice>) -> bool {
    forall|i: int, j: int|
        #![trigger notices[i], notices[j]]
        0 <= i < j < notices.len() ==> comes_before(
            notices[i].target_ns,
            notices[i].id.0,
            notices[j].target_ns,
            notices[j].id.0,
        )
}

/// State of a scheduler, as plain values.
#[verifier::ext_equal]
pub struct SchedulerModel {
    pub next_order: u64,
    pub admission_open: bool,
    pub pending: Seq<PendingDeadline>,
    pub entries: Seq<ScheduledDeadline>,
    /// What observers see, by registration: registration `n` stands at `n - 1`.
    pub signals: Seq<DeadlineResolutionState>,
}

impl SchedulerModel {
    /// Whether `id` was ever given out.
    pub open spec fn knows(self, id: DeadlineRegistrationId) -> bool {
        1 <= id.0 <= self.signals.len()
    }

    /// What the observers of a registration see.
    pub open spec fn signal(self, id: DeadlineRegistrationId) -> DeadlineResolutionState {
        self.signals[id.0 - 1]
    }

    /// Whether a registration is admitted but not armed.
    pub open spec fn is_pending(self, id: DeadlineRegistrationId) -> bool {
        exists|k: int| 0 <= k < self.pending.len() && (#[trigger] self.pending[k]).id == id
    }

    /// Whether a registration is armed.
    pub open spec fn is_armed(self, id: DeadlineRegistrationId) -> bool {
        exists|k: int| 0 <= k < self.entries.len() && (#[trigger] self.entries[k]).id == id
    }

    /// Whether a registration has a result to show or will get one from the schedule.
    pub open spec fn is_committed(self, id: DeadlineRegistrationId) -> bool {
        self.knows(id) && (self.is_armed(id) || self.signal(id).outcome is Some)
    }

    /// Whether an armed registration has to wait for an admitted one that comes before it and is
    /// due as well.
    pub open spec fn is_blocked(self, entry: ScheduledDeadline, now_ns: u64) -> bool {
        exists|k: int|
            0 <= k < self.pending.len() && (#[trigger] self.pending[k]).target_ns <= now_ns
                && !comes_before(
                entry.target_ns,
                entry.id.0,
                self.pending[k].target_ns,
                self.pending[k].id.0,
            )
    }

    /// Whether an armed registration fires at `now_ns`.
    pub open spec fn fires(self, entry: ScheduledDeadline, now_ns: u64) -> bool {
        entry.target_ns <= now_ns && !self.is_blocked(entry, now_ns)
    }

    /// The scheduler's invariant.
    pub open spec fn valid(self) -> bool {
        &&& self.next_order >= 1
        &&& self.signals.len() < u64::MAX
        &&& in_schedule_order(self.entries)
        &&& forall|k: int|
            0 <= k < self.pending.len() ==> self.knows((#[trigger] self.pending[k]).id)
                && self.signal(self.pending[k].id).outcome is None
        &&& forall|k: int|
            0 <= k < self.entries.len() ==> self.knows((#[trigger] self.entries[k]).id)
                && self.signal(self.entries[k].id).outcome is None
        &&& forall|j: int, k: int|
            #![trigger self.pending[j], self.pending[k]]
            0 <= j < k < self.pending.len() ==> self.pending[j].id.0 < self.pending[k].id.0
        &&& forall|j: int, k: int|
            #![trigger self.entries[j], self.entries[k]]
            0 <= j < k < self.entries.len() ==> self.entries[j].id != self.entries[k].id
        &&& forall|j: int, k: int|
            #![trigger self.pending[j], self.entries[k]]
            0 <= j < self.pending.len() && 0 <= k < self.entries.len() ==> self.pending[j].id
                != self.entries[k].id
        &&& forall|n: int|
            0 <= n < self.signals.len() ==> ((#[trigger] self.signals[n]).outcome matches Some(
                outcome,
            ) ==> 1 <= outcome.order < self.next_order)
        &&& forall|m: int, n: int|
            #![trigger self.signals[m], self.signals[n]]
            0 <= m < n < self.signals.len() && self.signals[m].outcome is Some
                && self.signals[n].outcome is Some ==> self.signals[m].outcome->0.order
                != self.signals[n].outcome->0.order
    }
}

/// What observers see after the registrations `ids` were resolved one after the other, the first
/// with order `first`.
pub open spec fn resolved_signals(
    signals: Seq<DeadlineResolutionState>,
    ids: Seq<u64>,
    resolution: DeadlineResolution,
    first: u64,
) -> Seq<DeadlineResolutionState>
    decreases ids.len(),
{
    if ids.len() == 0 {
        signals
    } else {
        resolved_signals(signals, ids.drop_last(), resolution, first).update(
            ids.last() - 1,
            DeadlineResolutionState {
                outcome: Some(
                    DeadlineOutcome { resolution, order: (first + ids.len() - 1) as u64 },
                ),
                waker: None,
            },
        )
    }
}

/// The registrations that a list of armed entries names.
pub open spec fn entry_ids(entries: Seq<ScheduledDeadline>) -> Seq<u64> {
    entries.map_values(|entry: ScheduledDeadline| entry.id.0)
}

pub(crate) proof fn lemma_resolved_signals(
    signals: Seq<DeadlineResolutionState>,
    ids: Seq<u64>,
    resolution: DeadlineResolution,
    first: u64,
)
    requires
        ids.no_duplicates(),
        forall|k: int| 0 <= k < ids.len() ==> 1 <= (#[trigger] ids[k]) <= signals.len(),
        first + ids.len() <= u64::MAX,
    ensures
        resolved_signals(signals, ids, resolution, first).len() == signals.len(),
        forall|k: int|
            0 <= k < ids.len() ==> resolved_signals(signals, ids, resolution, first)[(
            #[trigger] ids[k]) - 1] == (DeadlineResolutionState {
                outcome: Some(DeadlineOutcome { resolution, order: (first + k) as u64 }),
                waker: None,
            }),
        forall|n: int|
            0 <= n < signals.len() && !ids.contains((n + 1) as u64) ==> (
            #[trigger] resolved_signals(signals, ids, resolution, first)[n]) == signals[n],
    decreases ids.len(),
{
    if ids.len() > 0 {
        let rest = ids.drop_last();
        lemma_resolved_signals(signals, rest, resolution, first);
        let before = resolved_signals(signals, rest, resolution, first);
        let after = resolved_signals(signals, ids, resolution, first);
        assert forall|k: int| 0 <= k < ids.len() implies after[(#[trigger] ids[k]) - 1] == (
        DeadlineResolutionState {
            outcome: Some(DeadlineOutcome { resolution, order: (first + k) as u64 }),
            waker: None,
        }) by {
            if k < rest.len() {
                assert(rest[k] == ids[k]);
                assert(ids[k] != ids[ids.len() - 1]);
                assert(before[rest[k] - 1] == after[ids[k] - 1]);
            }
        }
        assert forall|n: int| 0 <= n < signals.len() && !ids.contains((n + 1) as u64) implies (
        #[trigger] after[n]) == signals[n] by {
            if rest.contains((n + 1) as u64) {
                let k = choose|k: int| 0 <= k < rest.len() && rest[k] == (n + 1) as u64;
                assert(ids[k] == (n + 1) as u64);
            }
            assert(ids[ids.len() - 1] == ids.last());
            assert(before[n] == signals[n]);
        }
    }
}

/// Orders admitted and armed deadlines, and resolves each registration exactly once.
pub struct DeadlineScheduler {
    next_order: u64,
    admission_open: bool,
    pending: Vec<PendingDeadline>,
    entries: Vec<ScheduledDeadline>,
    signals: Vec<DeadlineResolutionState>,
}

impl View for DeadlineScheduler {
    type V = SchedulerModel;

    closed spec fn view(&self) -> SchedulerModel {
        SchedulerModel {
            next_order: self.next_order,
            admission_open: self.admission_open,
            pending: self.pending@,
            entries: self.entries@,
            signals: self.signals@,
        }
    }
}

/// A reservation that keeps its place in the schedule until it is armed or abandoned.
pub struct DeadlineAdmission {
    pub id: DeadlineRegistrationId,
    pub target_ns: u64,
}

/// Handle of one registration.
#[derive(Clone, Copy, Debug, PartialEq, Eq, Structural)]
pub struct DeadlineRegistration {
    pub id: DeadlineRegistrationId,
    pub target_ns: u64,
}

/// Observation handle of one registration.
#[derive(Clone, Copy, Debug, PartialEq, Eq, Structural)]
pub struct DeadlineSignal {
    pub id: DeadlineRegistrationId,
}

/// What follows from arming a registration.
pub enum CommitFollowUp {
    /// The registration was resolved before it could be armed.
    Nothing,
    /// The target is in the future: the worker has to look at the schedule again.
    WakeWorker,
    /// The target is reached: these registrations fired.
    Fired(Vec<DeadlineNotice>),
}

/// The registrations that a list of notices names.
pub open spec fn notice_ids(notices: Seq<DeadlineNotice>) -> Seq<u64> {
    notices.map_values(|notice: DeadlineNotice| notice.id.0)
}

/// Where a target belongs among armed registrations: behind the last one that comes before it.
pub open spec fn schedule_position(
    entries: Seq<ScheduledDeadline>,
    target_ns: u64,
    id: u64,
) -> nat
    decreases entries.len(),
{
    if entries.len() == 0 {
        0
    } else if comes_before(entries.last().target_ns, entries.last().id.0, target_ns, id) {
        entries.len()
    } else {
        schedule_position(entries.drop_last(), target_ns, id)
    }
}

impl SchedulerModel {
    /// Where an admitted registration stands.
    pub open spec fn pending_position(self, id: DeadlineRegistrationId) -> int {
        choose|k: int| 0 <= k < self.pending.len() && (#[trigger] self.pending[k]).id == id
    }

    /// Where an armed registration stands.
    pub open spec fn armed_position(self, id: DeadlineRegistrationId) -> int {
        choose|k: int| 0 <= k < self.entries.len() && (#[trigger] self.entries[k]).id == id
    }

    /// The scheduler after an admitted registration was armed.
    pub open spec fn with_armed(
        self,
        id: DeadlineRegistrationId,
        trace_id: DeadlineId,
    ) -> SchedulerModel {
        if self.is_pending(id) {
            let k = self.pending_position(id);
            let target_ns = self.pending[k].target_ns;
            SchedulerModel {
                pending: self.pending.remove(k),
                entries: self.entries.insert(
                    schedule_position(self.entries, target_ns, id.0) as int,
                    ScheduledDeadline { target_ns, id, trace_id },
                ),
                ..self
            }
        } else {
            self
        }
    }

    /// The scheduler after registrations that left the schedule were resolved.
    pub open spec fn with_resolved(
        self,
        ids: Seq<u64>,
        resolution: DeadlineResolution,
    ) -> SchedulerModel {
        SchedulerModel {
            signals: resolved_signals(self.signals, ids, resolution, self.next_order),
            next_order: (self.next_order + ids.len()) as u64,
            ..self
        }
    }

    /// Whether as many resolutions can still be numbered.
    pub open spec fn has_orders_for(self, count: int) -> bool {
        self.next_order + count <= u64::MAX
    }

    /// Whether the whole schedule can still be resolved.
    pub open spec fn has_orders(self) -> bool {
        self.has_orders_for((self.pending.len() + self.entries.len()) as int)
    }
}

/// Whether `after` and `notices` are what firing `before` at `now_ns` gives: the registrations that
/// fire leave the schedule, are resolved in scheduling order, and are reported in that order.
pub open spec fn fired_at(
    before: SchedulerModel,
    now_ns: u64,
    after: SchedulerModel,
    notices: Seq<DeadlineNotice>,
) -> bool {
    let count = notices.len() as int;
    &&& count <= before.entries.len()
    &&& forall|k: int|
        0 <= k < before.entries.len() ==> (k < count <==> before.fires(
            #[trigger] before.entries[k],
            now_ns,
        ))
    &&& after == (SchedulerModel {
        entries: before.entries.skip(count),
        ..before
    }).with_resolved(entry_ids(before.entries.take(count)), DeadlineResolution::Fired)
    &&& forall|k: int|
        0 <= k < count ==> (#[trigger] notices[k]) == (DeadlineNotice {
            target_ns: before.entries[k].target_ns,
            id: before.entries[k].id,
            trace_id: Some(before.entries[k].trace_id),
            waker: before.signal(before.entries[k].id).waker,
        })
}

proof fn lemma_resolving_keeps_valid(
    model: SchedulerModel,
    ids: Seq<u64>,
    resolution: DeadlineResolution,
)
    requires
        model.valid(),
        model.has_orders_for(ids.len() as int),
        ids.no_duplicates(),
        forall|k: int|
            0 <= k < ids.len() ==> 1 <= (#[trigger] ids[k]) <= model.signals.len()
                && model.signals[ids[k] - 1].outcome is None && !model.is_pending(
                DeadlineRegistrationId(ids[k]),
            ) && !model.is_armed(DeadlineRegistrationId(ids[k])),
    ensures
        model.with_resolved(ids, resolution).valid(),
{
    let after = model.with_resolved(ids, resolution);
    lemma_resolved_signals(model.signals, ids, resolution, model.next_order);
    assert forall|k: int| 0 <= k < after.pending.len() implies after.knows(
        (#[trigger] after.pending[k]).id,
    ) && after.signal(after.pending[k].id).outcome is None by {
        let id = after.pending[k].id;
        assert(model.pending[k].id == id);
        if ids.contains(id.0) {
            let m = choose|m: int| 0 <= m < ids.len() && ids[m] == id.0;
            assert(model.is_pending(DeadlineRegistrationId(ids[m])));
        }
        assert(!ids.contains(((id.0 - 1) + 1) as u64));
        assert(after.signals[id.0 - 1] == model.signals[id.0 - 1]);
    }
    assert forall|k: int| 0 <= k < after.entries.len() implies after.knows(
        (#[trigger] after.entries[k]).id,
    ) && after.signal(after.entries[k].id).outcome is None by {
        let id = after.entries[k].id;
        assert(model.entries[k].id == id);
        if ids.contains(id.0) {
            let m = choose|m: int| 0 <= m < ids.len() && ids[m] == id.0;
            assert(model.is_armed(DeadlineRegistrationId(ids[m])));
        }
        assert(!ids.contains(((id.0 - 1) + 1) as u64));
        assert(after.signals[id.0 - 1] == model.signals[id.0 - 1]);
    }
    assert forall|n: int| 0 <= n < after.signals.len() implies ((
    #[trigger] after.signals[n]).outcome matches Some(outcome) ==> 1 <= outcome.order
        < after.next_order) by {
        if ids.contains((n + 1) as u64) {
            let m = choose|m: int| 0 <= m < ids.len() && ids[m] == (n + 1) as u64;
            assert(after.signals[ids[m] - 1].outcome->0.order == model.next_order + m);
        } else {
            assert(after.signals[n] == model.signals[n]);
        }
    }
    assert forall|m: int, n: int| #![trigger after.signals[m], after.signals[n]]
        0 <= m < n < after.signals.len() && after.signals[m].outcome is Some
            && after.signals[n].outcome is Some implies after.signals[m].outcome->0.order
        != after.signals[n].outcome->0.order by {
        let left = ids.contains((m + 1) as u64);
        let right = ids.contains((n + 1) as u64);
        if left {
            let i = choose|i: int| 0 <= i < ids.len() && ids[i] == (m + 1) as u64;
            assert(after.signals[ids[i] - 1].outcome->0.order == model.next_order + i);
            if right {
                let j = choose|j: int| 0 <= j < ids.len() && ids[j] == (n + 1) as u64;
                assert(after.signals[ids[j] - 1].outcome->0.order == model.next_order + j);
            } else {
                assert(after.signals[n] == model.signals[n]);
            }
        } else {
            assert(after.signals[m] == model.signals[m]);
            if right {
                let j = choose|j: int| 0 <= j < ids.len() && ids[j] == (n + 1) as u64;
                assert(after.signals[ids[j] - 1].outcome->0.order == model.next_order + j);
            } else {
                assert(after.signals[n] == model.signals[n]);
            }
        }
    }
}

proof fn lemma_firing_is_a_prefix(model: SchedulerModel, now_ns: u64, k: int, j: int)
    requires
        model.valid(),
        0 <= k <= j < model.entries.len(),
        !model.fires(model.entries[k], now_ns),
    ensures
        !model.fires(model.entries[j], now_ns),
{
    if k < j && model.entries[k].target_ns <= now_ns {
        let p = choose|p: int|
            0 <= p < model.pending.len() && (#[trigger] model.pending[p]).target_ns <= now_ns
                && !comes_before(
                model.entries[k].target_ns,
                model.entries[k].id.0,
                model.pending[p].target_ns,
                model.pending[p].id.0,
            );
        assert(!comes_before(
            model.entries[j].target_ns,
            model.entries[j].id.0,
            model.pending[p].target_ns,
            model.pending[p].id.0,
        ));
    }
}

proof fn lemma_schedule_position(entries: Seq<ScheduledDeadline>, entry: ScheduledDeadline)
    requires
        in_schedule_order(entries),
        forall|k: int| 0 <= k < entries.len() ==> (#[trigger] entries[k]).id != entry.id,
    ensures
        schedule_position(entries, entry.target_ns, entry.id.0) <= entries.len(),
        in_schedule_order(
            entries.insert(
                schedule_position(entries, entry.target_ns, entry.id.0) as int,
                entry,
            ),
        ),
        forall|k: int|
            0 <= k < schedule_position(entries, entry.target_ns, entry.id.0) ==> comes_before(
                (#[trigger] entries[k]).target_ns,
                entries[k].id.0,
                entry.target_ns,
                entry.id.0,
            ),
        forall|k: int|
            schedule_position(entries, entry.target_ns, entry.id.0) <= k < entries.len()
                ==> comes_before(
                entry.target_ns,
                entry.id.0,
                (#[trigger] entries[k]).target_ns,
                entries[k].id.0,
            ),
    decreases entries.len(),
{
    if entries.len() > 0 {
        let last = entries[entries.len() - 1];
        if comes_before(last.target_ns, last.id.0, entry.target_ns, entry.id.0) {
            assert(entries.insert(entries.len() as int, entry) =~= entries.push(entry));
        } else {
            let rest = entries.drop_last();
            assert forall|k: int| 0 <= k < rest.len() implies (#[trigger] rest[k]).id
                != entry.id by {
                assert(entries[k].id != entry.id);
            }
            lemma_schedule_position(rest, entry);
            let p = schedule_position(rest, entry.target_ns, entry.id.0) as int;
            assert(entries.insert(p, entry) =~= rest.insert(p, entry).push(last));
            assert forall|k: int| 0 <= k < p implies comes_before(
                (#[trigger] entries[k]).target_ns,
                entries[k].id.0,
                entry.target_ns,
                entry.id.0,
            ) by {
                assert(rest[k] == entries[k]);
            }
            assert forall|k: int| p <= k < entries.len() implies comes_before(
                entry.target_ns,
                entry.id.0,
                (#[trigger] entries[k]).target_ns,
                entries[k].id.0,
            ) by {
                if k < rest.len() {
                    assert(rest[k] == entries[k]);
                }
            }
            let all = entries.insert(p, entry);
            assert forall|i: int, j: int| #![trigger all[i], all[j]]
                0 <= i < j < all.len() implies comes_before(
                all[i].target_ns,
                all[i].id.0,
                all[j].target_ns,
                all[j].id.0,
            ) by {
                if j == all.len() - 1 {
                    if i < p {
                        assert(all[i] == entries[i]);
                    } else if i == p {
                        assert(all[i] == entry);
                    } else {
                        assert(all[i] == entries[i - 1]);
                    }
                } else {
                    let short = rest.insert(p, entry);
                    assert(all[i] == short[i] && all[j] == short[j]);
                }
            }
        }
    } else {
        assert(entries.insert(0, entry) =~= seq![entry]);
    }
}

proof fn lemma_arming_keeps_valid(
    model: SchedulerModel,
    id: DeadlineRegistrationId,
    trace_id: DeadlineId,
)
    requires
        model.valid(),
    ensures
        model.with_armed(id, trace_id).valid(),
        model.is_pending(id) ==> model.with_armed(id, trace_id).is_armed(id),
        model.with_armed(id, trace_id).pending.len() + model.with_armed(id, trace_id).entries.len()
            == model.pending.len() + model.entries.len(),
{
    if model.is_pending(id) {
        let after = model.with_armed(id, trace_id);
        let k = model.pending_position(id);
        let entry = ScheduledDeadline { target_ns: model.pending[k].target_ns, id, trace_id };
        assert forall|j: int| 0 <= j < model.entries.len() implies (
        #[trigger] model.entries[j]).id != entry.id by {
            assert(model.pending[k].id != model.entries[j].id);
        }
        lemma_schedule_position(model.entries, entry);
        let p = schedule_position(model.entries, entry.target_ns, entry.id.0) as int;
        assert(after.entries[p] == entry);
        assert forall|j: int| 0 <= j < after.pending.len() implies after.knows(
            (#[trigger] after.pending[j]).id,
        ) && after.signal(after.pending[j].id).outcome is None && after.pending[j].id != id by {
            let old_j = if j < k {
                j
            } else {
                j + 1
            };
            assert(after.pending[j] == model.pending[old_j]);
            assert(model.pending[k].id == id);
        }
        assert forall|i: int, j: int| #![trigger after.pending[i], after.pending[j]]
            0 <= i < j < after.pending.len() implies after.pending[i].id.0
            < after.pending[j].id.0 by {
            let old_i = if i < k {
                i
            } else {
                i + 1
            };
            let old_j = if j < k {
                j
            } else {
                j + 1
            };
            assert(model.pending[old_i].id.0 < model.pending[old_j].id.0);
        }
        assert forall|j: int| 0 <= j < after.entries.len() implies after.knows(
            (#[trigger] after.entries[j]).id,
        ) && after.signal(after.entries[j].id).outcome is None && (j != p
            ==> after.entries[j].id != id) by {
            if j < p {
                assert(after.entries[j] == model.entries[j]);
            } else if j == p {
                assert(model.pending[k].id == id);
            } else {
                assert(after.entries[j] == model.entries[j - 1]);
            }
        }
        assert forall|i: int, j: int| #![trigger after.entries[i], after.entries[j]]
            0 <= i < j < after.entries.len() implies after.entries[i].id
            != after.entries[j].id by {
            if i != p && j != p {
                let old_i = if i < p {
                    i
                } else {
                    i - 1
                };
                let old_j = if j < p {
                    j
                } else {
                    j - 1
                };
                assert(model.entries[old_i].id != model.entries[old_j].id);
            }
        }
        assert forall|i: int, j: int| #![trigger after.pending[i], after.entries[j]]
            0 <= i < after.pending.len() && 0 <= j < after.entries.len() implies after.pending[i].id
            != after.entries[j].id by {
            let old_i = if i < k {
                i
            } else {
                i + 1
            };
            if j == p {
                assert(after.pending[i].id != id);
            } else {
                let old_j = if j < p {
                    j
                } else {
                    j - 1
                };
                assert(model.pending[old_i].id != model.entries[old_j].id);
            }
        }
    }
}

impl DeadlineScheduler {
    /// Creates a scheduler that admits registrations.
    pub fn new() -> (scheduler: Self)
        ensures
            scheduler@.valid(),
            scheduler@ == (SchedulerModel {
                next_order: 1,
                admission_open: true,
                pending: seq![],
                entries: seq![],
                signals: seq![],
            }),
    {
        let scheduler = DeadlineScheduler {
            next_order: 1,
            admission_open: true,
            pending: Vec::new(),
            entries: Vec::new(),
            signals: Vec::new(),
        };
        assert(scheduler@ =~= SchedulerModel {
            next_order: 1,
            admission_open: true,
            pending: seq![],
            entries: seq![],
            signals: seq![],
        });
        scheduler
    }

    /// Admits a registration and keeps its place in the schedule; refused once admission is sealed.
    pub fn reserve(&mut self, target_ns: u64) -> (admission: Result<DeadlineAdmission, ()>)
        requires
            old(self)@.valid(),
            old(self)@.signals.len() < u64::MAX - 1,
            old(self)@.signals.len() < usize::MAX,
        ensures
            final(self)@.valid(),
            admission is Ok <==> old(self)@.admission_open,
            admission is Err ==> final(self)@ == old(self)@,
            admission matches Ok(admission) ==> admission.target_ns == target_ns && admission.id.0
                == old(self)@.signals.len() + 1 && final(self)@ == (SchedulerModel {
                pending: old(self)@.pending.push(PendingDeadline { target_ns, id: admission.id }),
                signals: old(self)@.signals.push(
                    DeadlineResolutionState { outcome: None, waker: None },
                ),
                ..old(self)@
            }),
    {
        if !self.admission_open {
            return Err(());
        }
        let ghost before = self@;
        let id = DeadlineRegistrationId(self.signals.len() as u64 + 1);
        self.pending.push(PendingDeadline { target_ns, id });
        self.signals.push(DeadlineResolutionState::armed());
        proof {
            let after = self@;
            let fresh = DeadlineResolutionState { outcome: None, waker: None };
            assert(after.signals =~= before.signals.push(fresh));
            assert(after =~= SchedulerModel {
                pending: before.pending.push(PendingDeadline { target_ns, id }),
                signals: before.signals.push(fresh),
                ..before
            });
            assert forall|k: int| 0 <= k < after.pending.len() implies after.knows(
                (#[trigger] after.pending[k]).id,
            ) && after.signal(after.pending[k].id).outcome is None by {
                if k < before.pending.len() {
                    assert(before.pending[k] == after.pending[k]);
                }
            }
            assert forall|k: int| 0 <= k < after.entries.len() implies after.knows(
                (#[trigger] after.entries[k]).id,
            ) && after.signal(after.entries[k].id).outcome is None by {
                assert(before.entries[k] == after.entries[k]);
            }
            assert forall|j: int, k: int| #![trigger after.pending[j], after.pending[k]]
                0 <= j < k < after.pending.len() implies after.pending[j].id.0
                < after.pending[k].id.0 by {
                assert(before.pending[j] == after.pending[j]);
                if k < before.pending.len() {
                    assert(before.pending[k] == after.pending[k]);
                }
            }
        }
        Ok(DeadlineAdmission { id, target_ns })
    }

    fn find_pending(&self, id: DeadlineRegistrationId) -> (position: Option<usize>)
        requires
            self@.valid(),
        ensures
            position is Some <==> self@.is_pending(id),
            position matches Some(k) ==> k < self@.pending.len() && self@.pending[k as int].id == id
                && self@.pending_position(id) == k,
    {
        let mut k: usize = 0;
        while k < self.pending.len()
            invariant
                k <= self.pending.len(),
                self@.valid(),
                forall|j: int| 0 <= j < k ==> (#[trigger] self@.pending[j]).id != id,
            decreases self.pending.len() - k,
        {
            if self.pending[k].id.0 == id.0 {
                proof {
                    assert(self@.pending[k as int].id == id);
                    let p = self@.pending_position(id);
                    assert(self@.pending[p].id == id);
                }
                return Some(k);
            }
            k += 1;
        }
        None
    }

    fn find_armed(&self, id: DeadlineRegistrationId) -> (position: Option<usize>)
        requires
            self@.valid(),
        ensures
            position is Some <==> self@.is_armed(id),
            position matches Some(k) ==> k < self@.entries.len() && self@.entries[k as int].id == id
                && self@.armed_position(id) == k,
    {
        let mut k: usize = 0;
        while k < self.entries.len()
            invariant
                k <= self.entries.len(),
                self@.valid(),
                forall|j: int| 0 <= j < k ==> (#[trigger] self@.entries[j]).id != id,
            decreases self.entries.len() - k,
        {
            if self.entries[k].id.0 == id.0 {
                proof {
                    assert(self@.entries[k as int].id == id);
                    let p = self@.armed_position(id);
                    assert(self@.entries[p].id == id);
                }
                return Some(k);
            }
            k += 1;
        }
        None
    }

    /// Arms an admitted registration. A registration that is already due uses the same schedule, so
    /// that it cannot overtake an older one.
    pub fn commit_reservation(
        &mut self,
        id: DeadlineRegistrationId,
        trace_id: DeadlineId,
    ) -> (committed: bool)
        requires
            old(self)@.valid(),
        ensures
            final(self)@.valid(),
            committed == old(self)@.is_pending(id),
            final(self)@ == old(self)@.with_armed(id, trace_id),
    {
        let ghost before = self@;
        match self.find_pending(id) {
            Some(k) => {
                let pending = self.pending.remove(k);
                let entry = ScheduledDeadline { target_ns: pending.target_ns, id, trace_id };
                let mut p: usize = self.entries.len();
                proof {
                    assert(self.entries@.take(p as int) =~= self.entries@);
                }
                while p > 0 && !Self::entry_precedes(&self.entries[p - 1], &entry)
                    invariant
                        p <= self.entries.len(),
                        self.entries@ == before.entries,
                        schedule_position(before.entries, entry.target_ns, entry.id.0)
                            == schedule_position(
                            before.entries.take(p as int),
                            entry.target_ns,
                            entry.id.0,
                        ),
                    decreases p,
                {
                    proof {
                        let part = before.entries.take(p as int);
                        assert(part.last() == before.entries[p - 1]);
                        assert(part.drop_last() =~= before.entries.take(p - 1));
                    }
                    p -= 1;
                }
                proof {
                    let part = before.entries.take(p as int);
                    if p > 0 {
                        assert(part.last() == before.entries[p - 1]);
                    }
                    assert(schedule_position(part, entry.target_ns, entry.id.0) == p);
                }
                self.entries.insert(p, entry);
                proof {
                    assert(self@ =~= before.with_armed(id, trace_id));
                    lemma_arming_keeps_valid(before, id, trace_id);
                }
                true
            },
            None => false,
        }
    }

    fn entry_precedes(left: &ScheduledDeadline, right: &ScheduledDeadline) -> (precedes: bool)
        ensures
            precedes == comes_before(left.target_ns, left.id.0, right.target_ns, right.id.0),
    {
        left.target_ns < right.target_ns || (left.target_ns == right.target_ns && left.id.0
            < right.id.0)
    }

    /// Gives up an admitted registration; the result says whether the worker has to look at the
    /// schedule again.
    pub fn abandon_reservation(&mut self, id: DeadlineRegistrationId) -> (wake_worker: bool)
        requires
            old(self)@.valid(),
        ensures
            final(self)@.valid(),
            wake_worker == old(self)@.is_pending(id),
            wake_worker ==> final(self)@ == (SchedulerModel {
                pending: old(self)@.pending.remove(old(self)@.pending_position(id)),
                ..old(self)@
            }),
            !wake_worker ==> final(self)@ == old(self)@,
    {
        let ghost before = self@;
        match self.find_pending(id) {
            Some(k) => {
                let _ = self.pending.remove(k);
                proof {
                    let after = self@;
                    assert(after =~= SchedulerModel {
                        pending: before.pending.remove(k as int),
                        ..before
                    });
                    lemma_removing_pending_keeps_valid(before, k as int);
                }
                true
            },
            None => false,
        }
    }

    /// Returns whether another deadline can be numbered and, in the end, resolved.
    pub fn has_room(&self) -> (room: bool)
        ensures
            room == (self@.signals.len() < u64::MAX - 1 && self@.signals.len() < usize::MAX
                && self@.has_orders_for((self@.pending.len() + self@.entries.len() + 1) as int)),
    {
        let numbered: u64 = self.signals.len() as u64;
        let scheduled: u128 = self.pending.len() as u128 + self.entries.len() as u128 + 1;
        numbered < u64::MAX - 1 && self.signals.len() < usize::MAX && self.next_order as u128
            + scheduled <= u64::MAX as u128
    }

    /// Refuses every later reservation.
    pub fn seal_admission(&mut self)
        requires
            old(self)@.valid(),
        ensures
            final(self)@.valid(),
            final(self)@ == (SchedulerModel { admission_open: false, ..old(self)@ }),
    {
        self.admission_open = false;
    }

    fn is_blocked(&self, entry: &ScheduledDeadline, now_ns: u64) -> (blocked: bool)
        ensures
            blocked == self@.is_blocked(*entry, now_ns),
    {
        let mut k: usize = 0;
        while k < self.pending.len()
            invariant
                k <= self.pending.len(),
                forall|j: int|
                    0 <= j < k ==> !((#[trigger] self@.pending[j]).target_ns <= now_ns
                        && !comes_before(
                        entry.target_ns,
                        entry.id.0,
                        self@.pending[j].target_ns,
                        self@.pending[j].id.0,
                    )),
            decreases self.pending.len() - k,
        {
            if Self::pending_precedes_or_matches(&self.pending[k], entry, now_ns) {
                assert(self@.pending[k as int].target_ns <= now_ns);
                return true;
            }
            k += 1;
        }
        false
    }

    fn pending_precedes_or_matches(
        pending: &PendingDeadline,
        entry: &ScheduledDeadline,
        now_ns: u64,
    ) -> (holds: bool)
        ensures
            holds == (pending.target_ns <= now_ns && !comes_before(
                entry.target_ns,
                entry.id.0,
                pending.target_ns,
                pending.id.0,
            )),
    {
        let after: bool = entry.target_ns < pending.target_ns || (entry.target_ns
            == pending.target_ns && entry.id.0 < pending.id.0);
        pending.target_ns <= now_ns && !after
    }

    fn resolve_batch(&mut self, batch: &mut Vec<DeadlineNotice>, resolution: DeadlineResolution)
        requires
            old(self)@.valid(),
            old(self)@.has_orders_for(old(batch)@.len() as int),
            notice_ids(old(batch)@).no_duplicates(),
            forall|k: int|
                0 <= k < old(batch)@.len() ==> old(self)@.knows((#[trigger] old(batch)@[k]).id)
                    && old(self)@.signal(old(batch)@[k].id).outcome is None && !old(
                    self,
                )@.is_pending(old(batch)@[k].id) && !old(self)@.is_armed(old(batch)@[k].id),
        ensures
            final(self)@.valid(),
            final(self)@ == old(self)@.with_resolved(notice_ids(old(batch)@), resolution),
            final(batch)@.len() == old(batch)@.len(),
            forall|k: int|
                0 <= k < old(batch)@.len() ==> (#[trigger] final(batch)@[k]) == (DeadlineNotice {
                    waker: old(self)@.signal(old(batch)@[k].id).waker,
                    ..old(batch)@[k]
                }),
    {
        let ghost before = self@;
        let ghost start = batch@;
        let ghost ids = notice_ids(start);
        assert(ids.take(0) =~= seq![]);
        let mut k: usize = 0;
        while k < batch.len()
            invariant
                k <= batch.len(),
                before == old(self)@,
                start == old(batch)@,
                ids == notice_ids(start),
                ids.no_duplicates(),
                before.has_orders_for(ids.len() as int),
                forall|j: int|
                    0 <= j < start.len() ==> before.knows((#[trigger] start[j]).id)
                        && before.signal(start[j].id).outcome is None,
                batch@.len() == start.len(),
                self.admission_open == before.admission_open,
                self.pending@ == before.pending,
                self.entries@ == before.entries,
                self.next_order == before.next_order + k,
                self.signals@ == resolved_signals(
                    before.signals,
                    ids.take(k as int),
                    resolution,
                    before.next_order,
                ),
                self.signals@.len() == before.signals.len(),
                forall|j: int|
                    0 <= j < start.len() ==> (#[trigger] batch@[j]) == if j < k {
                        DeadlineNotice { waker: before.signal(start[j].id).waker, ..start[j] }
                    } else {
                        start[j]
                    },
            decreases batch.len() - k,
        {
            let mut notice = batch[k];
            assert(notice == start[k as int] && before.knows(start[k as int].id));
            assert(notice.id.0 - 1 < self.signals.len());
            let index: usize = (notice.id.0 - 1) as usize;
            proof {
                assert(ids[k as int] == notice.id.0);
                let done = ids.take(k as int);
                assert forall|j: int| 0 <= j < done.len() implies 1 <= (#[trigger] done[j])
                    <= before.signals.len() by {
                    assert(before.knows(start[j].id));
                }
                assert(done.no_duplicates());
                lemma_resolved_signals(before.signals, done, resolution, before.next_order);
                if done.contains(notice.id.0) {
                    let j = choose|j: int| 0 <= j < done.len() && done[j] == notice.id.0;
                    assert(ids[j] == ids[k as int]);
                }
                assert(!done.contains((index + 1) as u64));
                assert(self.signals@[index as int] == before.signals[index as int]);
                assert(ids.take(k + 1).drop_last() =~= done);
                assert(ids.take(k + 1).last() == notice.id.0);
            }
            let mut signal = self.signals[index];
            let order: u64 = self.next_order;
            let taken = signal.resolve_and_take_waker(DeadlineOutcome { resolution, order });
            if let Some(waker) = taken {
                notice.waker = waker;
            }
            self.signals.set(index, signal);
            self.next_order = order + 1;
            batch.set(k, notice);
            k += 1;
        }
        proof {
            assert(ids.take(k as int) =~= ids);
            assert(self@ =~= before.with_resolved(ids, resolution));
            assert forall|j: int| 0 <= j < ids.len() implies 1 <= (#[trigger] ids[j])
                <= before.signals.len() && before.signals[ids[j] - 1].outcome is None
                && !before.is_pending(DeadlineRegistrationId(ids[j])) && !before.is_armed(
                DeadlineRegistrationId(ids[j]),
            ) by {
                assert(start[j].id == DeadlineRegistrationId(ids[j]));
                assert(before.knows(start[j].id));
            }
            lemma_resolving_keeps_valid(before, ids, resolution);
        }
    }
}

proof fn lemma_removing_pending_keeps_valid(model: SchedulerModel, k: int)
    requires
        model.valid(),
        0 <= k < model.pending.len(),
    ensures
        (SchedulerModel { pending: model.pending.remove(k), ..model }).valid(),
        !(SchedulerModel { pending: model.pending.remove(k), ..model }).is_pending(
            model.pending[k].id,
        ),
{
    let after = SchedulerModel { pending: model.pending.remove(k), ..model };
    assert forall|j: int| 0 <= j < after.pending.len() implies after.knows(
        (#[trigger] after.pending[j]).id,
    ) && after.signal(after.pending[j].id).outcome is None && after.pending[j].id
        != model.pending[k].id by {
        let old_j = if j < k {
            j
        } else {
            j + 1
        };
        assert(after.pending[j] == model.pending[old_j]);
    }
    assert forall|i: int, j: int| #![trigger after.pending[i], after.pending[j]]
        0 <= i < j < after.pending.len() implies after.pending[i].id.0 < after.pending[j].id.0 by {
        let old_i = if i < k {
            i
        } else {
            i + 1
        };
        let old_j = if j < k {
            j
        } else {
            j + 1
        };
        assert(model.pending[old_i].id.0 < model.pending[old_j].id.0);
    }
    assert forall|i: int, j: int| #![trigger after.pending[i], after.entries[j]]
        0 <= i < after.pending.len() && 0 <= j < after.entries.len() implies after.pending[i].id
        != after.entries[j].id by {
        let old_i = if i < k {
            i
        } else {
            i + 1
        };
        assert(model.pending[old_i].id != model.entries[j].id);
    }
    assert forall|j: int| 0 <= j < after.entries.len() implies after.knows(
        (#[trigger] after.entries[j]).id,
    ) && after.signal(after.entries[j].id).outcome is None by {
        assert(model.knows(model.entries[j].id));
    }
}

proof fn lemma_entry_ids_are_distinct(model: SchedulerModel, from: int, to: int)
    requires
        model.valid(),
        0 <= from <= to <= model.entries.len(),
    ensures
        entry_ids(model.entries.subrange(from, to)).no_duplicates(),
{
    let ids = entry_ids(model.entries.subrange(from, to));
    assert forall|i: int, j: int| 0 <= i < j < ids.len() implies ids[i] != ids[j] by {
        assert(model.entries[from + i].id != model.entries[from + j].id);
        assert(ids[i] == model.entries[from + i].id.0);
        assert(ids[j] == model.entries[from + j].id.0);
    }
}

proof fn lemma_skipping_entries_keeps_valid(model: SchedulerModel, count: int)
    requires
        model.valid(),
        0 <= count <= model.entries.len(),
    ensures
        (SchedulerModel { entries: model.entries.skip(count), ..model }).valid(),
        forall|k: int|
            0 <= k < count ==> !(SchedulerModel {
                entries: model.entries.skip(count),
                ..model
            }).is_armed((#[trigger] model.entries[k]).id) && !model.is_pending(model.entries[k].id),
{
    let after = SchedulerModel { entries: model.entries.skip(count), ..model };
    assert forall|j: int| 0 <= j < after.entries.len() implies (#[trigger] after.entries[j])
        == model.entries[count + j] by {}
    assert forall|i: int, j: int| #![trigger after.entries[i], after.entries[j]]
        0 <= i < j < after.entries.len() implies comes_before(
        after.entries[i].target_ns,
        after.entries[i].id.0,
        after.entries[j].target_ns,
        after.entries[j].id.0,
    ) && after.entries[i].id != after.entries[j].id by {
        assert(model.entries[count + i].id != model.entries[count + j].id);
    }
    assert forall|j: int| 0 <= j < after.entries.len() implies after.knows(
        (#[trigger] after.entries[j]).id,
    ) && after.signal(after.entries[j].id).outcome is None by {
        assert(model.knows(model.entries[count + j].id));
    }
    assert forall|j: int| 0 <= j < after.pending.len() implies after.knows(
        (#[trigger] after.pending[j]).id,
    ) && after.signal(after.pending[j].id).outcome is None by {
        assert(model.knows(model.pending[j].id));
    }
    assert forall|i: int, j: int| #![trigger after.pending[i], after.entries[j]]
        0 <= i < after.pending.len() && 0 <= j < after.entries.len() implies after.pending[i].id
        != after.entries[j].id by {
        assert(model.pending[i].id != model.entries[count + j].id);
    }
    assert forall|k: int| 0 <= k < count implies !after.is_armed((#[trigger] model.entries[k]).id)
        && !model.is_pending(model.entries[k].id) by {
        let id = model.entries[k].id;
        if after.is_armed(id) {
            let j = choose|j: int|
                0 <= j < after.entries.len() && (#[trigger] after.entries[j]).id == id;
            assert(model.entries[k].id != model.entries[count + j].id);
        }
        if model.is_pending(id) {
            let j = choose|j: int|
                0 <= j < model.pending.len() && (#[trigger] model.pending[j]).id == id;
            assert(model.pending[j].id != model.entries[k].id);
        }
    }
}

proof fn lemma_removing_entry_keeps_valid(model: SchedulerModel, k: int)
    requires
        model.valid(),
        0 <= k < model.entries.len(),
    ensures
        (SchedulerModel { entries: model.entries.remove(k), ..model }).valid(),
        !(SchedulerModel { entries: model.entries.remove(k), ..model }).is_armed(
            model.entries[k].id,
        ),
        !model.is_pending(model.entries[k].id),
{
    let after = SchedulerModel { entries: model.entries.remove(k), ..model };
    assert forall|j: int| 0 <= j < after.entries.len() implies (#[trigger] after.entries[j])
        == model.entries[if j < k {
        j
    } else {
        j + 1
    }] by {}
    assert forall|i: int, j: int| #![trigger after.entries[i], after.entries[j]]
        0 <= i < j < after.entries.len() implies comes_before(
        after.entries[i].target_ns,
        after.entries[i].id.0,
        after.entries[j].target_ns,
        after.entries[j].id.0,
    ) && after.entries[i].id != after.entries[j].id by {
        let old_i = if i < k {
            i
        } else {
            i + 1
        };
        let old_j = if j < k {
            j
        } else {
            j + 1
        };
        assert(model.entries[old_i].id != model.entries[old_j].id);
    }
    assert forall|j: int| 0 <= j < after.entries.len() implies after.knows(
        (#[trigger] after.entries[j]).id,
    ) && after.signal(after.entries[j].id).outcome is None && after.entries[j].id
        != model.entries[k].id by {
        let old_j = if j < k {
            j
        } else {
            j + 1
        };
        assert(model.knows(model.entries[old_j].id));
        assert(old_j != k);
        if old_j < k {
            assert(model.entries[old_j].id != model.entries[k].id);
        } else {
            assert(model.entries[k].id != model.entries[old_j].id);
        }
    }
    assert forall|j: int| 0 <= j < after.pending.len() implies after.knows(
        (#[trigger] after.pending[j]).id,
    ) && after.signal(after.pending[j].id).outcome is None by {
        assert(model.knows(model.pending[j].id));
    }
    assert forall|i: int, j: int| #![trigger after.pending[i], after.entries[j]]
        0 <= i < after.pending.len() && 0 <= j < after.entries.len() implies after.pending[i].id
        != after.entries[j].id by {
        let old_j = if j < k {
            j
        } else {
            j + 1
        };
        assert(model.pending[i].id != model.entries[old_j].id);
    }
    if model.is_pending(model.entries[k].id) {
        let j = choose|j: int|
            0 <= j < model.pending.len() && (#[trigger] model.pending[j]).id
                == model.entries[k].id;
        assert(model.pending[j].id != model.entries[k].id);
    }
}

/// Whether a notice stands for a registration that was admitted or armed.
pub open spec fn stands_in_schedule(model: SchedulerModel, notice: DeadlineNotice) -> bool {
    ||| exists|k: int|
        0 <= k < model.pending.len() && (#[trigger] model.pending[k]).id == notice.id
            && model.pending[k].target_ns == notice.target_ns && notice.trace_id is None
    ||| exists|k: int|
        0 <= k < model.entries.len() && (#[trigger] model.entries[k]).id == notice.id
            && model.entries[k].target_ns == notice.target_ns && notice.trace_id == Some(
            model.entries[k].trace_id,
        )
}

/// Whether `notices` are the whole schedule of `model`, each registration once and in order.
pub open spec fn lists_schedule(model: SchedulerModel, notices: Seq<DeadlineNotice>) -> bool {
    &&& notices_in_order(notices)
    &&& notices.len() == model.pending.len() + model.entries.len()
    &&& forall|n: int|
        0 <= n < notices.len() ==> stands_in_schedule(model, #[trigger] notices[n])
            && notices[n].waker == model.signal(notices[n].id).waker
    &&& forall|k: int|
        0 <= k < model.pending.len() ==> notice_ids(notices).contains(
            (#[trigger] model.pending[k]).id.0,
        )
    &&& forall|k: int|
        0 <= k < model.entries.len() ==> notice_ids(notices).contains(
            (#[trigger] model.entries[k]).id.0,
        )
}

/// What disarming a registration did.
pub struct DisarmReport {
    /// The registration's unique resolution.
    pub resolution: DeadlineResolution,
    /// The registration, where this call resolved it; the worker then has to look at the schedule
    /// again.
    pub notice: Option<DeadlineNotice>,
}

impl DeadlineScheduler {
    /// Resolves every registration that fires at `now_ns`, in scheduling order, and reports them.
    ///
    /// An armed registration fires when its target is reached, unless an older place in the
    /// schedule, reached as well, is still held by a reservation.
    pub fn fire_due_at(&mut self, now_ns: u64) -> (notices: Vec<DeadlineNotice>)
        requires
            old(self)@.valid(),
            old(self)@.has_orders(),
        ensures
            final(self)@.valid(),
            final(self)@.has_orders(),
            fired_at(old(self)@, now_ns, final(self)@, notices@),
    {
        let ghost before = self@;
        let mut notices: Vec<DeadlineNotice> = Vec::new();
        let mut k: usize = 0;
        while k < self.entries.len() && self.entries[k].target_ns <= now_ns && !self.is_blocked(
            &self.entries[k],
            now_ns,
        )
            invariant
                k <= self.entries.len(),
                self@ == before,
                notices@.len() == k,
                forall|j: int| 0 <= j < k ==> before.fires(#[trigger] before.entries[j], now_ns),
                forall|j: int|
                    0 <= j < k ==> (#[trigger] notices@[j]) == (DeadlineNotice {
                        target_ns: before.entries[j].target_ns,
                        id: before.entries[j].id,
                        trace_id: Some(before.entries[j].trace_id),
                        waker: None,
                    }),
            decreases self.entries.len() - k,
        {
            let entry = self.entries[k];
            assert(before.fires(before.entries[k as int], now_ns));
            notices.push(
                DeadlineNotice {
                    target_ns: entry.target_ns,
                    id: entry.id,
                    trace_id: Some(entry.trace_id),
                    waker: None,
                },
            );
            k += 1;
        }
        proof {
            if k < before.entries.len() {
                assert(!before.fires(before.entries[k as int], now_ns));
                assert forall|j: int| k <= j < before.entries.len() implies !before.fires(
                    #[trigger] before.entries[j],
                    now_ns,
                ) by {
                    lemma_firing_is_a_prefix(before, now_ns, k as int, j);
                }
            }
        }
        let rest = self.entries.split_off(k);
        self.entries = rest;
        proof {
            let middle = SchedulerModel { entries: before.entries.skip(k as int), ..before };
            assert(self@.entries =~= before.entries.skip(k as int));
            assert(self@ =~= middle);
            lemma_skipping_entries_keeps_valid(before, k as int);
            lemma_entry_ids_are_distinct(before, 0, k as int);
            assert(before.entries.take(k as int) =~= before.entries.subrange(0, k as int));
            assert(notice_ids(notices@) =~= entry_ids(before.entries.take(k as int)));
            assert forall|j: int| 0 <= j < notices@.len() implies middle.knows(
                (#[trigger] notices@[j]).id,
            ) && middle.signal(notices@[j].id).outcome is None && !middle.is_pending(notices@[j].id)
                && !middle.is_armed(notices@[j].id) by {
                assert(before.knows(before.entries[j].id));
                if middle.is_pending(notices@[j].id) {
                    assert(before.is_pending(before.entries[j].id));
                }
            }
        }
        self.resolve_batch(&mut notices, DeadlineResolution::Fired);
        notices
    }

    /// Returns the earliest target that the worker has to wait for; none while the front of the
    /// schedule is held by a reservation.
    pub fn next_target_ns(&self) -> (target: Option<u64>)
        requires
            self@.valid(),
        ensures
            target == next_target_of(self@),
    {
        if self.entries.len() == 0 {
            return None;
        }
        let front = self.entries[0];
        let mut k: usize = 0;
        while k < self.pending.len()
            invariant
                k <= self.pending.len(),
                self@.entries.len() > 0,
                front == self@.entries[0],
                forall|j: int|
                    0 <= j < k ==> comes_before(
                        front.target_ns,
                        front.id.0,
                        (#[trigger] self@.pending[j]).target_ns,
                        self@.pending[j].id.0,
                    ),
            decreases self.pending.len() - k,
        {
            let pending = self.pending[k];
            let first: bool = front.target_ns < pending.target_ns || (front.target_ns
                == pending.target_ns && front.id.0 < pending.id.0);
            if !first {
                assert(!comes_before(
                    front.target_ns,
                    front.id.0,
                    self@.pending[k as int].target_ns,
                    self@.pending[k as int].id.0,
                ));
                return None;
            }
            k += 1;
        }
        Some(front.target_ns)
    }

    /// Arms an admitted registration, and fires what is due where its target is reached.
    pub fn commit(
        &mut self,
        admission: DeadlineAdmission,
        trace_id: DeadlineId,
        now_ns: u64,
    ) -> (done: (DeadlineRegistration, CommitFollowUp))
        requires
            old(self)@.valid(),
            old(self)@.has_orders(),
        ensures
            final(self)@.valid(),
            final(self)@.has_orders(),
            done.0 == (DeadlineRegistration {
                id: admission.id,
                target_ns: admission.target_ns,
            }),
            done.1 is Nothing <==> !old(self)@.is_pending(admission.id),
            done.1 is Nothing ==> final(self)@ == old(self)@,
            done.1 is WakeWorker <==> old(self)@.is_pending(admission.id) && now_ns
                < admission.target_ns,
            done.1 is WakeWorker ==> final(self)@ == old(self)@.with_armed(admission.id, trace_id),
            done.1 matches CommitFollowUp::Fired(notices) ==> fired_at(
                old(self)@.with_armed(admission.id, trace_id),
                now_ns,
                final(self)@,
                notices@,
            ),
    {
        let ghost before = self@;
        let registration = DeadlineRegistration {
            id: admission.id,
            target_ns: admission.target_ns,
        };
        proof {
            lemma_arming_keeps_valid(before, admission.id, trace_id);
        }
        if !self.commit_reservation(admission.id, trace_id) {
            return (registration, CommitFollowUp::Nothing);
        }
        (registration, self.finish_commit(admission.target_ns, now_ns))
    }

    fn finish_commit(&mut self, target_ns: u64, now_ns: u64) -> (follow_up: CommitFollowUp)
        requires
            old(self)@.valid(),
            old(self)@.has_orders(),
        ensures
            final(self)@.valid(),
            final(self)@.has_orders(),
            follow_up !is Nothing,
            follow_up is WakeWorker <==> now_ns < target_ns,
            follow_up is WakeWorker ==> final(self)@ == old(self)@,
            follow_up matches CommitFollowUp::Fired(notices) ==> fired_at(
                old(self)@,
                now_ns,
                final(self)@,
                notices@,
            ),
    {
        if now_ns >= target_ns {
            CommitFollowUp::Fired(self.fire_due_at(now_ns))
        } else {
            CommitFollowUp::WakeWorker
        }
    }

    /// Disarms a registration: an armed one is resolved now, any other keeps its resolution.
    pub fn disarm(&mut self, id: DeadlineRegistrationId) -> (report: DisarmReport)
        requires
            old(self)@.valid(),
            old(self)@.has_orders(),
            old(self)@.is_committed(id),
        ensures
            final(self)@.valid(),
            final(self)@.has_orders(),
            final(self)@.signal(id).outcome is Some,
            report.resolution == final(self)@.signal(id).outcome->0.resolution,
            old(self)@.is_armed(id) ==> final(self)@ == (SchedulerModel {
                entries: old(self)@.entries.remove(old(self)@.armed_position(id)),
                ..old(self)@
            }).with_resolved(seq![id.0], DeadlineResolution::Disarmed),
            old(self)@.is_armed(id) ==> report.resolution == DeadlineResolution::Disarmed
                && report.notice == Some(
                DeadlineNotice {
                    target_ns: old(self)@.entries[old(self)@.armed_position(id)].target_ns,
                    id,
                    trace_id: Some(
                        old(self)@.entries[old(self)@.armed_position(id)].trace_id,
                    ),
                    waker: old(self)@.signal(id).waker,
                },
            ),
            !old(self)@.is_armed(id) ==> final(self)@ == old(self)@ && report.notice is None,
    {
        let ghost before = self@;
        let mut told: Option<DeadlineNotice> = None;
        if let Some(k) = self.find_armed(id) {
            let entry = self.entries.remove(k);
            let mut batch: Vec<DeadlineNotice> = Vec::new();
            batch.push(
                DeadlineNotice {
                    target_ns: entry.target_ns,
                    id,
                    trace_id: Some(entry.trace_id),
                    waker: None,
                },
            );
            proof {
                let middle = SchedulerModel { entries: before.entries.remove(k as int), ..before };
                assert(self@ =~= middle);
                lemma_removing_entry_keeps_valid(before, k as int);
                assert(notice_ids(batch@) =~= seq![id.0]);
                assert(before.knows(before.entries[k as int].id));
                if middle.is_pending(id) {
                    assert(before.is_pending(before.entries[k as int].id));
                }
            }
            self.resolve_batch(&mut batch, DeadlineResolution::Disarmed);
            proof {
                let middle = SchedulerModel { entries: before.entries.remove(k as int), ..before };
                lemma_resolved_signals(
                    middle.signals,
                    seq![id.0],
                    DeadlineResolution::Disarmed,
                    middle.next_order,
                );
                assert(seq![id.0][0] == id.0);
            }
            told = Some(batch[0]);
        }
        assert(self@.knows(id));
        assert(id.0 - 1 < self.signals.len());
        let outcome = self.signals[(id.0 - 1) as usize].outcome();
        let resolution = match outcome {
            Some(outcome) => outcome.resolution,
            None => DeadlineResolution::Disarmed,
        };
        DisarmReport { resolution, notice: told }
    }

    /// Ends the schedule: admission is sealed, and every admitted or armed registration is resolved
    /// as closed, in scheduling order.
    pub fn drain_runtime_closed(&mut self) -> (notices: Vec<DeadlineNotice>)
        requires
            old(self)@.valid(),
            old(self)@.has_orders(),
        ensures
            final(self)@.valid(),
            final(self)@.has_orders(),
            lists_schedule(old(self)@, notices@),
            final(self)@ == (SchedulerModel {
                admission_open: false,
                pending: seq![],
                entries: seq![],
                ..old(self)@
            }).with_resolved(notice_ids(notices@), DeadlineResolution::RuntimeClosed),
    {
        let ghost before = self@;
        self.seal_admission();
        let mut notices: Vec<DeadlineNotice> = Vec::new();
        let mut k: usize = 0;
        while k < self.entries.len()
            invariant
                k <= self.entries.len(),
                self.entries@ == before.entries,
                before.valid(),
                notices@.len() == k,
                forall|j: int|
                    0 <= j < k ==> (#[trigger] notices@[j]) == (DeadlineNotice {
                        target_ns: before.entries[j].target_ns,
                        id: before.entries[j].id,
                        trace_id: Some(before.entries[j].trace_id),
                        waker: None,
                    }),
            decreases self.entries.len() - k,
        {
            let entry = self.entries[k];
            notices.push(
                DeadlineNotice {
                    target_ns: entry.target_ns,
                    id: entry.id,
                    trace_id: Some(entry.trace_id),
                    waker: None,
                },
            );
            k += 1;
        }
        proof {
            assert forall|n: int| 0 <= n < notices@.len() implies stands_in_schedule(
                before,
                #[trigger] notices@[n],
            ) by {
                assert(before.entries[n].id == notices@[n].id);
            }
            assert forall|j: int| 0 <= j < before.entries.len() implies notice_ids(
                notices@,
            ).contains((#[trigger] before.entries[j]).id.0) by {
                assert(notice_ids(notices@)[j] == before.entries[j].id.0);
            }
        }
        let mut m: usize = 0;
        while m < self.pending.len()
            invariant
                m <= self.pending.len(),
                self.pending@ == before.pending,
                before.valid(),
                notices@.len() == before.entries.len() + m,
                notices_in_order(notices@),
                forall|n: int|
                    0 <= n < notices@.len() ==> stands_in_schedule(before, #[trigger] notices@[n])
                        && notices@[n].waker is None,
                forall|n: int, j: int|
                    #![trigger notices@[n], before.pending[j]]
                    0 <= n < notices@.len() && m <= j < before.pending.len() ==> notices@[n].id
                        != before.pending[j].id,
                forall|j: int|
                    0 <= j < before.entries.len() ==> notice_ids(notices@).contains(
                        (#[trigger] before.entries[j]).id.0,
                    ),
                forall|j: int|
                    0 <= j < m ==> notice_ids(notices@).contains(
                        (#[trigger] before.pending[j]).id.0,
                    ),
            decreases self.pending.len() - m,
        {
            let pending = self.pending[m];
            let notice = DeadlineNotice {
                target_ns: pending.target_ns,
                id: pending.id,
                trace_id: None,
                waker: None,
            };
            assert(before.pending[m as int].id == notice.id);
            let ghost so_far = notices@;
            assert forall|n: int| 0 <= n < so_far.len() implies (#[trigger] so_far[n]).id
                != notice.id by {
                assert(so_far[n].id != before.pending[m as int].id);
            }
            let p: usize = Self::insert_notice(&mut notices, notice);
            proof {
                assert(notices@[p as int] == notice);
                assert(stands_in_schedule(before, notice));
                assert forall|n: int| 0 <= n < notices@.len() implies stands_in_schedule(
                    before,
                    #[trigger] notices@[n],
                ) && notices@[n].waker is None by {
                    if n < p {
                        assert(notices@[n] == so_far[n]);
                    } else if n > p {
                        assert(notices@[n] == so_far[n - 1]);
                    }
                }
                assert forall|n: int, j: int| #![trigger notices@[n], before.pending[j]]
                    0 <= n < notices@.len() && m + 1 <= j < before.pending.len() implies notices@[n].id
                    != before.pending[j].id by {
                    if n < p {
                        assert(notices@[n] == so_far[n]);
                    } else if n > p {
                        assert(notices@[n] == so_far[n - 1]);
                    } else {
                        assert(before.pending[m as int].id.0 < before.pending[j].id.0);
                    }
                }
                assert forall|id: u64| notice_ids(so_far).contains(id) implies notice_ids(
                    notices@,
                ).contains(id) by {
                    let n = choose|n: int|
                        0 <= n < notice_ids(so_far).len() && notice_ids(so_far)[n] == id;
                    if n < p {
                        assert(notice_ids(notices@)[n] == id);
                    } else {
                        assert(notice_ids(notices@)[n + 1] == id);
                    }
                }
                assert(notice_ids(notices@)[p as int] == notice.id.0);
                assert forall|j: int| 0 <= j < m + 1 implies notice_ids(notices@).contains(
                    (#[trigger] before.pending[j]).id.0,
                ) by {
                    if j < m {
                        assert(notice_ids(so_far).contains(before.pending[j].id.0));
                    }
                }
            }
            m += 1;
        }
        self.pending = Vec::new();
        self.entries = Vec::new();
        let ghost middle = SchedulerModel {
            admission_open: false,
            pending: seq![],
            entries: seq![],
            ..before
        };
        proof {
            assert(self@ =~= middle);
            assert forall|i: int, j: int| 0 <= i < j < notices@.len() implies notice_ids(
                notices@,
            )[i] != notice_ids(notices@)[j] by {
                lemma_schedule_ids_differ(before, notices@, i, j);
            }
            assert forall|n: int| 0 <= n < notices@.len() implies middle.knows(
                (#[trigger] notices@[n]).id,
            ) && middle.signal(notices@[n].id).outcome is None && !middle.is_pending(notices@[n].id)
                && !middle.is_armed(notices@[n].id) by {
                assert(stands_in_schedule(before, notices@[n]));
                assert(before.knows(notices@[n].id) && before.signal(notices@[n].id).outcome
                    is None);
            }
        }
        let ghost listed = notices@;
        self.resolve_batch(&mut notices, DeadlineResolution::RuntimeClosed);
        proof {
            assert(notice_ids(notices@) =~= notice_ids(listed));
            assert forall|n: int| 0 <= n < notices@.len() implies stands_in_schedule(
                before,
                #[trigger] notices@[n],
            ) && notices@[n].waker == before.signal(notices@[n].id).waker by {
                assert(stands_in_schedule(before, listed[n]));
            }
            assert forall|i: int, j: int| #![trigger notices@[i], notices@[j]]
                0 <= i < j < notices@.len() implies comes_before(
                notices@[i].target_ns,
                notices@[i].id.0,
                notices@[j].target_ns,
                notices@[j].id.0,
            ) by {
                assert(comes_before(
                    listed[i].target_ns,
                    listed[i].id.0,
                    listed[j].target_ns,
                    listed[j].id.0,
                ));
            }
        }
        notices
    }

    fn insert_notice(notices: &mut Vec<DeadlineNotice>, notice: DeadlineNotice) -> (place: usize)
        requires
            notices_in_order(old(notices)@),
            forall|n: int|
                0 <= n < old(notices)@.len() ==> (#[trigger] old(notices)@[n]).id != notice.id,
        ensures
            place <= old(notices)@.len(),
            final(notices)@ == old(notices)@.insert(place as int, notice),
            notices_in_order(final(notices)@),
    {
        let ghost before = notices@;
        let mut p: usize = notices.len();
        while p > 0 && (notice.target_ns < notices[p - 1].target_ns || (notice.target_ns
            == notices[p - 1].target_ns && notice.id.0 < notices[p - 1].id.0))
            invariant
                p <= notices.len(),
                notices@ == before,
                forall|n: int|
                    p <= n < before.len() ==> comes_before(
                        notice.target_ns,
                        notice.id.0,
                        (#[trigger] before[n]).target_ns,
                        before[n].id.0,
                    ),
            decreases p,
        {
            p -= 1;
        }
        notices.insert(p, notice);
        proof {
            let after = notices@;
            assert forall|i: int, j: int| #![trigger after[i], after[j]]
                0 <= i < j < after.len() implies comes_before(
                after[i].target_ns,
                after[i].id.0,
                after[j].target_ns,
                after[j].id.0,
            ) by {
                if i < p {
                    assert(after[i] == before[i]);
                    assert(before[p - 1].id != notice.id);
                    if i < p - 1 {
                        assert(comes_before(
                            before[i].target_ns,
                            before[i].id.0,
                            before[p - 1].target_ns,
                            before[p - 1].id.0,
                        ));
                    }
                    if j > p {
                        assert(after[j] == before[j - 1]);
                    } else if j < p {
                        assert(after[j] == before[j]);
                    }
                } else if i == p {
                    assert(after[j] == before[j - 1]);
                } else {
                    assert(after[i] == before[i - 1] && after[j] == before[j - 1]);
                }
            }
        }
        p
    }

    /// Returns what the observers of a registration see.
    pub fn resolution(&self, id: DeadlineRegistrationId) -> (outcome: Option<DeadlineOutcome>)
        requires
            self@.knows(id),
        ensures
            outcome == self@.signal(id).outcome,
    {
        assert(id.0 - 1 < self.signals.len());
        self.signals[(id.0 - 1) as usize].outcome()
    }
}

/// The earliest target that the worker has to wait for.
pub open spec fn next_target_of(model: SchedulerModel) -> Option<u64> {
    if model.entries.len() == 0 || exists|k: int|
        0 <= k < model.pending.len() && !comes_before(
            model.entries[0].target_ns,
            model.entries[0].id.0,
            (#[trigger] model.pending[k]).target_ns,
            model.pending[k].id.0,
        ) {
        None
    } else {
        Some(model.entries[0].target_ns)
    }
}

proof fn lemma_schedule_ids_differ(
    model: SchedulerModel,
    notices: Seq<DeadlineNotice>,
    i: int,
    j: int,
)
    requires
        model.valid(),
        notices_in_order(notices),
        0 <= i < j < notices.len(),
        stands_in_schedule(model, notices[i]),
        stands_in_schedule(model, notices[j]),
    ensures
        notices[i].id != notices[j].id,
{
    if notices[i].id == notices[j].id {
        let id = notices[i].id;
        assert(comes_before(
            notices[i].target_ns,
            notices[i].id.0,
            notices[j].target_ns,
            notices[j].id.0,
        ));
        lemma_one_place_per_id(model, notices[i], notices[j]);
    }
}

proof fn lemma_one_place_per_id(
    model: SchedulerModel,
    left: DeadlineNotice,
    right: DeadlineNotice,
)
    requires
        model.valid(),
        stands_in_schedule(model, left),
        stands_in_schedule(model, right),
        left.id == right.id,
    ensures
        left.target_ns == right.target_ns,
{
    if left.trace_id is None {
        let i = choose|i: int|
            0 <= i < model.pending.len() && (#[trigger] model.pending[i]).id == left.id
                && model.pending[i].target_ns == left.target_ns;
        if right.trace_id is None {
            let j = choose|j: int|
                0 <= j < model.pending.len() && (#[trigger] model.pending[j]).id == right.id
                    && model.pending[j].target_ns == right.target_ns;
            if i < j {
                assert(model.pending[i].id.0 < model.pending[j].id.0);
            } else if j < i {
                assert(model.pending[j].id.0 < model.pending[i].id.0);
            }
        } else {
            let j = choose|j: int|
                0 <= j < model.entries.len() && (#[trigger] model.entries[j]).id == right.id;
            assert(model.pending[i].id != model.entries[j].id);
        }
    } else {
        let i = choose|i: int|
            0 <= i < model.entries.len() && (#[trigger] model.entries[i]).id == left.id
                && model.entries[i].target_ns == left.target_ns;
        if right.trace_id is None {
            let j = choose|j: int|
                0 <= j < model.pending.len() && (#[trigger] model.pending[j]).id == right.id;
            assert(model.pending[j].id != model.entries[i].id);
        } else {
            let j = choose|j: int|
                0 <= j < model.entries.len() && (#[trigger] model.entries[j]).id == right.id
                    && model.entries[j].target_ns == right.target_ns;
            if i < j {
                assert(model.entries[i].id != model.entries[j].id);
            } else if j < i {
                assert(model.entries[j].id != model.entries[i].id);
            }
        }
    }
}

impl DeadlineAdmission {
    /// Arms the reservation; see [`DeadlineScheduler::commit`].
    pub fn commit(
        self,
        scheduler: &mut DeadlineScheduler,
        trace_id: DeadlineId,
        now_ns: u64,
    ) -> (done: (DeadlineRegistration, CommitFollowUp))
        requires
            old(scheduler)@.valid(),
            old(scheduler)@.has_orders(),
        ensures
            final(scheduler)@.valid(),
            final(scheduler)@.has_orders(),
            done.0 == (DeadlineRegistration { id: self.id, target_ns: self.target_ns }),
            done.1 is Nothing <==> !old(scheduler)@.is_pending(self.id),
            done.1 is Nothing ==> final(scheduler)@ == old(scheduler)@,
            done.1 is WakeWorker <==> old(scheduler)@.is_pending(self.id) && now_ns
                < self.target_ns,
            done.1 is WakeWorker ==> final(scheduler)@ == old(scheduler)@.with_armed(
                self.id,
                trace_id,
            ),
            done.1 matches CommitFollowUp::Fired(notices) ==> fired_at(
                old(scheduler)@.with_armed(self.id, trace_id),
                now_ns,
                final(scheduler)@,
                notices@,
            ),
    {
        scheduler.commit(self, trace_id, now_ns)
    }
}

impl DeadlineRegistration {
    /// Returns the Runtime-local registration identity.
    pub fn id(&self) -> (id: DeadlineRegistrationId)
        ensures
            id == self.id,
    {
        self.id
    }

    /// Returns the absolute target in the owning Runtime clock epoch.
    pub fn target_ns(&self) -> (target_ns: u64)
        ensures
            target_ns == self.target_ns,
    {
        self.target_ns
    }

    /// Returns a one-shot observation handle.
    pub fn signal(&self) -> (signal: DeadlineSignal)
        ensures
            signal.id == self.id,
    {
        DeadlineSignal { id: self.id }
    }

    /// Idempotently resolves an armed registration as disarmed; see [`DeadlineScheduler::disarm`].
    pub fn disarm(&self, scheduler: &mut DeadlineScheduler) -> (report: DisarmReport)
        requires
            old(scheduler)@.valid(),
            old(scheduler)@.has_orders(),
            old(scheduler)@.is_committed(self.id),
        ensures
            final(scheduler)@.valid(),
            final(scheduler)@.has_orders(),
            final(scheduler)@.signal(self.id).outcome is Some,
            report.resolution == final(scheduler)@.signal(self.id).outcome->0.resolution,
            old(scheduler)@.is_armed(self.id) ==> final(scheduler)@ == (SchedulerModel {
                entries: old(scheduler)@.entries.remove(
                    old(scheduler)@.armed_position(self.id),
                ),
                ..old(scheduler)@
            }).with_resolved(seq![self.id.0], DeadlineResolution::Disarmed),
            old(scheduler)@.is_armed(self.id) ==> report.resolution
                == DeadlineResolution::Disarmed && report.notice is Some
                && report.notice->0.waker == old(scheduler)@.signal(self.id).waker,
            !old(scheduler)@.is_armed(self.id) ==> final(scheduler)@ == old(scheduler)@
                && report.notice is None,
    {
        scheduler.disarm(self.id)
    }
}

impl DeadlineSignal {
    /// Returns the committed resolution without blocking.
    pub fn resolution(&self, scheduler: &DeadlineScheduler) -> (outcome: Option<DeadlineOutcome>)
        requires
            scheduler@.knows(self.id),
        ensures
            outcome == scheduler@.signal(self.id).outcome,
    {
        scheduler.resolution(self.id)
    }

    /// Looks once for the resolution on behalf of a call that waits at most `wait`; the schedule is
    /// not affected.
    pub fn wait(
        &self,
        scheduler: &DeadlineScheduler,
        wait: WaitTimeout,
        elapsed_ns: u128,
        timed_out: bool,
    ) -> (look: Look<DeadlineWaitResult>)
        requires
            scheduler@.knows(self.id),
        ensures
            look == match scheduler@.signal(self.id).outcome {
                Some(outcome) => Look::Done(DeadlineWaitResult::Resolved(outcome)),
                None => crate::wait::idle_look(
                    wait,
                    elapsed_ns,
                    timed_out,
                    DeadlineWaitResult::Timeout,
                ),
            },
    {
        match scheduler.resolution(self.id) {
            Some(outcome) => Look::Done(DeadlineWaitResult::Resolved(outcome)),
            None => look_again(wait, elapsed_ns, timed_out, DeadlineWaitResult::Timeout),
        }
    }

    /// Asks for the resolution without blocking; while there is none, `waker` replaces the waker
    /// that waits for it.
    pub fn poll_resolution(&self, scheduler: &mut DeadlineScheduler, waker: u64) -> (answer: (
        DeadlinePoll,
        Option<u64>,
    ))
        requires
            old(scheduler)@.valid(),
            old(scheduler)@.knows(self.id),
        ensures
            final(scheduler)@.valid(),
            old(scheduler)@.signal(self.id).outcome matches Some(outcome) ==> answer == (
                DeadlinePoll::Ready(outcome),
                Some(waker),
            ) && final(scheduler)@ == old(scheduler)@,
            old(scheduler)@.signal(self.id).outcome is None ==> answer == (
                DeadlinePoll::Pending,
                old(scheduler)@.signal(self.id).waker,
            ) && final(scheduler)@ == (SchedulerModel {
                signals: old(scheduler)@.signals.update(
                    self.id.0 - 1,
                    DeadlineResolutionState { outcome: None, waker: Some(waker) },
                ),
                ..old(scheduler)@
            }),
    {
        let ghost before = scheduler@;
        assert(self.id.0 - 1 < scheduler.signals.len());
        let index: usize = (self.id.0 - 1) as usize;
        let mut state = scheduler.signals[index];
        let answer = state.poll_resolution(waker);
        scheduler.signals.set(index, state);
        proof {
            let after = scheduler@;
            assert(after.signals =~= before.signals.update(index as int, state));
            if before.signal(self.id).outcome is Some {
                assert(after.signals =~= before.signals);
                assert(after =~= before);
            }
            assert forall|n: int| 0 <= n < after.signals.len() implies (
            #[trigger] after.signals[n]).outcome == before.signals[n].outcome by {}
            assert forall|k: int| 0 <= k < after.pending.len() implies after.knows(
                (#[trigger] after.pending[k]).id,
            ) && after.signal(after.pending[k].id).outcome is None by {
                assert(before.knows(before.pending[k].id));
            }
            assert forall|k: int| 0 <= k < after.entries.len() implies after.knows(
                (#[trigger] after.entries[k]).id,
            ) && after.signal(after.entries[k].id).outcome is None by {
                assert(before.knows(before.entries[k].id));
            }
            assert(after.valid());
        }
        answer
    }
}

/// Firing never touches what was resolved before, and what it resolves had reached its target.
pub proof fn law_firing_respects_resolutions(
    before: SchedulerModel,
    now_ns: u64,
    after: SchedulerModel,
    notices: Seq<DeadlineNotice>,
    id: DeadlineRegistrationId,
)
    requires
        before.valid(),
        before.has_orders(),
        before.knows(id),
        fired_at(before, now_ns, after, notices),
    ensures
        before.signal(id).outcome is Some ==> after.signal(id) == before.signal(id),
        before.signal(id).outcome is None && after.signal(id).outcome is Some
            ==> after.signal(id).outcome->0.resolution == DeadlineResolution::Fired
            && before.is_armed(id) && before.entries[before.armed_position(id)].target_ns <= now_ns
            && !after.is_armed(id),
{
    let count = notices.len() as int;
    let taken = before.entries.take(count);
    let ids = entry_ids(taken);
    lemma_entry_ids_are_distinct(before, 0, count);
    lemma_skipping_entries_keeps_valid(before, count);
    assert(taken =~= before.entries.subrange(0, count));
    assert forall|k: int| 0 <= k < ids.len() implies 1 <= (#[trigger] ids[k])
        <= before.signals.len() by {
        assert(before.knows(before.entries[k].id));
    }
    lemma_resolved_signals(before.signals, ids, DeadlineResolution::Fired, before.next_order);
    if ids.contains(id.0) {
        let k = choose|k: int| 0 <= k < ids.len() && ids[k] == id.0;
        assert(before.entries[k].id == id);
        assert(before.fires(before.entries[k], now_ns));
        let p = before.armed_position(id);
        assert(before.entries[p].id == id);
        if p != k {
            if p < k {
                assert(before.entries[p].id != before.entries[k].id);
            } else {
                assert(before.entries[k].id != before.entries[p].id);
            }
        }
    } else {
        assert(!ids.contains(((id.0 - 1) + 1) as u64));
        assert(after.signals[id.0 - 1] == before.signals[id.0 - 1]);
    }
}

/// Whatever fires, nothing that comes before it in the schedule is overtaken: an armed registration
/// fires with it and gets the smaller order, and no reservation stands before it.
pub proof fn law_firing_never_overtakes(
    before: SchedulerModel,
    now_ns: u64,
    after: SchedulerModel,
    notices: Seq<DeadlineNotice>,
    later: int,
)
    requires
        before.valid(),
        before.has_orders(),
        fired_at(before, now_ns, after, notices),
        0 <= later < notices.len(),
    ensures
        forall|k: int|
            0 <= k < before.entries.len() && comes_before(
                (#[trigger] before.entries[k]).target_ns,
                before.entries[k].id.0,
                notices[later].target_ns,
                notices[later].id.0,
            ) ==> after.signal(before.entries[k].id).outcome is Some && after.signal(
                notices[later].id,
            ).outcome is Some && after.signal(before.entries[k].id).outcome->0.order
                < after.signal(notices[later].id).outcome->0.order,
        forall|k: int|
            0 <= k < before.pending.len() ==> comes_before(
                notices[later].target_ns,
                notices[later].id.0,
                (#[trigger] before.pending[k]).target_ns,
                before.pending[k].id.0,
            ),
{
    let count = notices.len() as int;
    let taken = before.entries.take(count);
    let ids = entry_ids(taken);
    lemma_entry_ids_are_distinct(before, 0, count);
    assert(taken =~= before.entries.subrange(0, count));
    assert forall|k: int| 0 <= k < ids.len() implies 1 <= (#[trigger] ids[k])
        <= before.signals.len() by {
        assert(before.knows(before.entries[k].id));
    }
    lemma_resolved_signals(before.signals, ids, DeadlineResolution::Fired, before.next_order);
    assert(notices[later].id == before.entries[later].id);
    assert(ids[later] == notices[later].id.0);
    assert(before.fires(before.entries[later], now_ns));
    assert forall|k: int| 0 <= k < before.entries.len() && comes_before(
        (#[trigger] before.entries[k]).target_ns,
        before.entries[k].id.0,
        notices[later].target_ns,
        notices[later].id.0,
    ) implies after.signal(before.entries[k].id).outcome is Some && after.signal(
        notices[later].id,
    ).outcome is Some && after.signal(before.entries[k].id).outcome->0.order < after.signal(
        notices[later].id,
    ).outcome->0.order by {
        if k >= later {
            if k > later {
                assert(comes_before(
                    before.entries[later].target_ns,
                    before.entries[later].id.0,
                    before.entries[k].target_ns,
                    before.entries[k].id.0,
                ));
            }
            assert(false);
        }
        assert(ids[k] == before.entries[k].id.0);
        assert(after.signals[ids[k] - 1].outcome->0.order == before.next_order + k);
        assert(after.signals[ids[later] - 1].outcome->0.order == before.next_order + later);
    }
    assert forall|k: int| 0 <= k < before.pending.len() implies comes_before(
        notices[later].target_ns,
        notices[later].id.0,
        (#[trigger] before.pending[k]).target_ns,
        before.pending[k].id.0,
    ) by {
        if before.pending[k].target_ns > now_ns {
            assert(before.entries[later].target_ns <= now_ns);
        }
    }
}

/// A registration resolves at most once: no call on the scheduler changes a resolution.
pub proof fn law_resolution_is_final(
    model: SchedulerModel,
    ids: Seq<u64>,
    resolution: DeadlineResolution,
    id: DeadlineRegistrationId,
)
    requires
        model.valid(),
        model.has_orders_for(ids.len() as int),
        ids.no_duplicates(),
        forall|k: int|
            0 <= k < ids.len() ==> 1 <= (#[trigger] ids[k]) <= model.signals.len()
                && model.signals[ids[k] - 1].outcome is None,
        model.knows(id),
        model.signal(id).outcome is Some,
    ensures
        model.with_resolved(ids, resolution).signal(id) == model.signal(id),
{
    lemma_resolved_signals(model.signals, ids, resolution, model.next_order);
    if ids.contains(id.0) {
        let k = choose|k: int| 0 <= k < ids.len() && ids[k] == id.0;
        assert(model.signals[ids[k] - 1].outcome is None);
    }
    assert(!ids.contains(((id.0 - 1) + 1) as u64));
    assert(model.with_resolved(ids, resolution).signals[id.0 - 1] == model.signals[id.0 - 1]);
}

/// Closing resolves the whole schedule and nothing else: what was admitted or armed is closed, and
/// every earlier resolution stands.
pub proof fn law_closing_resolves_the_whole_schedule(
    before: SchedulerModel,
    notices: Seq<DeadlineNotice>,
    id: DeadlineRegistrationId,
)
    requires
        before.valid(),
        before.has_orders(),
        before.knows(id),
        lists_schedule(before, notices),
    ensures
        ({
            let after = (SchedulerModel {
                admission_open: false,
                pending: seq![],
                entries: seq![],
                ..before
            }).with_resolved(notice_ids(notices), DeadlineResolution::RuntimeClosed);
            &&& before.is_pending(id) || before.is_armed(id) ==> after.signal(id).outcome is Some
                && after.signal(id).outcome->0.resolution == DeadlineResolution::RuntimeClosed
            &&& !before.is_pending(id) && !before.is_armed(id) ==> after.signal(id)
                == before.signal(id)
            &&& after.signals.len() == before.signals.len()
        }),
{
    let ids = notice_ids(notices);
    assert forall|i: int, j: int| 0 <= i < j < ids.len() implies ids[i] != ids[j] by {
        assert(stands_in_schedule(before, notices[i]) && stands_in_schedule(before, notices[j]));
        lemma_schedule_ids_differ(before, notices, i, j);
    }
    assert forall|k: int| 0 <= k < ids.len() implies 1 <= (#[trigger] ids[k])
        <= before.signals.len() by {
        assert(stands_in_schedule(before, notices[k]));
        assert(before.knows(notices[k].id));
    }
    lemma_resolved_signals(
        before.signals,
        ids,
        DeadlineResolution::RuntimeClosed,
        before.next_order,
    );
    if before.is_pending(id) {
        assert(ids.contains(before.pending[before.pending_position(id)].id.0));
    }
    if before.is_armed(id) {
        assert(ids.contains(before.entries[before.armed_position(id)].id.0));
    }
    if ids.contains(id.0) {
        let k = choose|k: int| 0 <= k < ids.len() && ids[k] == id.0;
        assert(stands_in_schedule(before, notices[k]));
        assert(notices[k].id == id);
    } else {
        assert(!ids.contains(((id.0 - 1) + 1) as u64));
        let after = (SchedulerModel {
            admission_open: false,
            pending: seq![],
            entries: seq![],
            ..before
        }).with_resolved(ids, DeadlineResolution::RuntimeClosed);
        assert(after.signals[id.0 - 1] == before.signals[id.0 - 1]);
    }
}

} // verus!
