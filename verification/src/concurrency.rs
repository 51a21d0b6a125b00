//! Small state machines that decide who may finish, join or close shared work.

use vstd::prelude::*;
use vstd::std_specs::cmp::PartialEqSpec;

pub mod laws;

verus! {

/// What the owner of an effect can prove about it.
#[derive(Clone, Copy, Debug, PartialEq, Eq, Structural)]
pub enum TerminalEvidenceKind {
    EffectAccepted,
    NotDelivered,
    ExecutionFailed,
}

/// Which kind of terminal result was fixed.
#[derive(Clone, Copy, Debug, PartialEq, Eq, Structural)]
pub enum TerminalWinnerKind {
    Success,
    Failure,
    Cancellation,
}

/// Answer to one attempt to fix the terminal result.
#[derive(Clone, Copy, Debug, PartialEq, Eq, Structural)]
pub enum TerminalClaimResult {
    /// This attempt fixed the winner.
    Claimed,
    /// A winner was fixed before.
    Observe,
    /// The caller is not the active owner.
    RejectedOwner,
    /// The evidence does not support the proposed winner.
    RejectedEvidence,
}

/// The winner that a kind of evidence supports.
pub open spec fn supported_winner(evidence: TerminalEvidenceKind) -> TerminalWinnerKind {
    match evidence {
        TerminalEvidenceKind::EffectAccepted => TerminalWinnerKind::Success,
        TerminalEvidenceKind::NotDelivered => TerminalWinnerKind::Cancellation,
        TerminalEvidenceKind::ExecutionFailed => TerminalWinnerKind::Failure,
    }
}

/// Returns whether `evidence` supports `winner`; each kind of evidence supports exactly one.
pub fn evidence_allows_winner(
    evidence: TerminalEvidenceKind,
    winner: TerminalWinnerKind,
) -> (allowed: bool)
    ensures
        allowed == (winner == supported_winner(evidence)),
{
    match (evidence, winner) {
        (TerminalEvidenceKind::EffectAccepted, TerminalWinnerKind::Success) => true,
        (TerminalEvidenceKind::NotDelivered, TerminalWinnerKind::Cancellation) => true,
        (TerminalEvidenceKind::ExecutionFailed, TerminalWinnerKind::Failure) => true,
        _ => false,
    }
}

/// State of one terminal arbitration, as plain values.
pub struct ArbiterModel {
    pub primary_owner: u64,
    pub transfer_owner: Option<u64>,
    pub active_owner: u64,
    pub primary_owner_joined: bool,
    pub handoff_used: bool,
    pub winner: Option<TerminalWinnerKind>,
    pub committed: bool,
}

/// One call on an arbiter.
pub enum ArbiterStep {
    Claim { owner: u64, evidence: TerminalEvidenceKind, winner: TerminalWinnerKind },
    MarkJoined { owner: u64 },
    Handoff { transfer_owner: u64 },
    Commit { owner: u64, winner: TerminalWinnerKind },
}

impl ArbiterModel {
    /// A fresh arbitration: the primary owner is active and nothing is decided.
    pub open spec fn initial(primary_owner: u64, transfer_owner: Option<u64>) -> ArbiterModel {
        ArbiterModel {
            primary_owner,
            transfer_owner,
            active_owner: primary_owner,
            primary_owner_joined: false,
            handoff_used: false,
            winner: None,
            committed: false,
        }
    }

    /// The answer to a claim.
    pub open spec fn claim_result(
        self,
        owner: u64,
        evidence: TerminalEvidenceKind,
        winner: TerminalWinnerKind,
    ) -> TerminalClaimResult {
        if self.winner is Some || self.committed {
            TerminalClaimResult::Observe
        } else if owner != self.active_owner {
            TerminalClaimResult::RejectedOwner
        } else if winner != supported_winner(evidence) {
            TerminalClaimResult::RejectedEvidence
        } else {
            TerminalClaimResult::Claimed
        }
    }

    /// Whether the primary owner's end is news.
    pub open spec fn join_counts(self, owner: u64) -> bool {
        owner == self.primary_owner && !self.primary_owner_joined
    }

    /// Whether the pre-held transfer owner may take over.
    pub open spec fn handoff_allowed(self, transfer_owner: u64) -> bool {
        &&& !self.committed
        &&& self.winner is None
        &&& !self.handoff_used
        &&& self.primary_owner_joined
        &&& self.transfer_owner == Some(transfer_owner)
        &&& self.active_owner == self.primary_owner
    }

    /// Whether `owner` may commit `winner`.
    pub open spec fn commit_allowed(self, owner: u64, winner: TerminalWinnerKind) -> bool {
        !self.committed && self.active_owner == owner && self.winner == Some(winner)
    }

    /// Whether the call has an effect.
    pub open spec fn accepts(self, step: ArbiterStep) -> bool {
        match step {
            ArbiterStep::Claim { owner, evidence, winner } => self.claim_result(
                owner,
                evidence,
                winner,
            ) == TerminalClaimResult::Claimed,
            ArbiterStep::MarkJoined { owner } => self.join_counts(owner),
            ArbiterStep::Handoff { transfer_owner } => self.handoff_allowed(transfer_owner),
            ArbiterStep::Commit { owner, winner } => self.commit_allowed(owner, winner),
        }
    }

    /// The state after one call.
    pub open spec fn after(self, step: ArbiterStep) -> ArbiterModel {
        if !self.accepts(step) {
            self
        } else {
            match step {
                ArbiterStep::Claim { owner, evidence, winner } => ArbiterModel {
                    winner: Some(winner),
                    ..self
                },
                ArbiterStep::MarkJoined { owner } => ArbiterModel {
                    primary_owner_joined: true,
                    ..self
                },
                ArbiterStep::Handoff { transfer_owner } => ArbiterModel {
                    active_owner: transfer_owner,
                    handoff_used: true,
                    ..self
                },
                ArbiterStep::Commit { owner, winner } => ArbiterModel { committed: true, ..self },
            }
        }
    }

    /// The state after a sequence of calls.
    pub open spec fn after_all(self, steps: Seq<ArbiterStep>) -> ArbiterModel
        decreases steps.len(),
    {
        if steps.len() == 0 {
            self
        } else {
            self.after_all(steps.drop_last()).after(steps.last())
        }
    }

    /// What every reachable arbitration satisfies.
    pub open spec fn valid(self) -> bool {
        &&& self.committed ==> self.winner is Some
        &&& !self.handoff_used ==> self.active_owner == self.primary_owner
        &&& self.handoff_used ==> self.primary_owner_joined && self.transfer_owner == Some(
            self.active_owner,
        )
    }
}

/// Decides which owner fixes the terminal result of one operation, and when it is committed.
#[derive(Clone, Copy, Debug, PartialEq, Eq, Structural)]
pub struct TerminalArbiterState {
    primary_owner: u64,
    transfer_owner: Option<u64>,
    active_owner: u64,
    primary_owner_joined: bool,
    handoff_used: bool,
    winner: Option<TerminalWinnerKind>,
    committed: bool,
}

impl View for TerminalArbiterState {
    type V = ArbiterModel;

    closed spec fn view(&self) -> ArbiterModel {
        ArbiterModel {
            primary_owner: self.primary_owner,
            transfer_owner: self.transfer_owner,
            active_owner: self.active_owner,
            primary_owner_joined: self.primary_owner_joined,
            handoff_used: self.handoff_used,
            winner: self.winner,
            committed: self.committed,
        }
    }
}

impl TerminalArbiterState {
    /// Starts an arbitration for a primary owner and, where supervision holds one in advance, a
    /// transfer owner.
    pub fn new(primary_owner: u64, transfer_owner: Option<u64>) -> (state: Self)
        ensures
            state@ == ArbiterModel::initial(primary_owner, transfer_owner),
            state@.valid(),
    {
        TerminalArbiterState {
            primary_owner,
            transfer_owner,
            active_owner: primary_owner,
            primary_owner_joined: false,
            handoff_used: false,
            winner: None,
            committed: false,
        }
    }

    /// Tries to fix the winner.
    pub fn claim(
        &mut self,
        owner: u64,
        evidence: TerminalEvidenceKind,
        winner: TerminalWinnerKind,
    ) -> (result: TerminalClaimResult)
        ensures
            result == old(self)@.claim_result(owner, evidence, winner),
            final(self)@ == old(self)@.after(ArbiterStep::Claim { owner, evidence, winner }),
    {
        if self.winner.is_some() || self.committed {
            return TerminalClaimResult::Observe;
        }
        if owner != self.active_owner {
            return TerminalClaimResult::RejectedOwner;
        }
        if !evidence_allows_winner(evidence, winner) {
            return TerminalClaimResult::RejectedEvidence;
        }
        self.winner = Some(winner);
        TerminalClaimResult::Claimed
    }

    /// Records that the primary owner has ended; true the first time only.
    pub fn mark_primary_owner_joined(&mut self, owner: u64) -> (marked: bool)
        ensures
            marked == old(self)@.join_counts(owner),
            final(self)@ == old(self)@.after(ArbiterStep::MarkJoined { owner }),
    {
        if owner != self.primary_owner || self.primary_owner_joined {
            return false;
        }
        self.primary_owner_joined = true;
        true
    }

    /// Makes the pre-held transfer owner the active owner.
    pub fn handoff(&mut self, transfer_owner: u64) -> (done: bool)
        ensures
            done == old(self)@.handoff_allowed(transfer_owner),
            final(self)@ == old(self)@.after(ArbiterStep::Handoff { transfer_owner }),
    {
        let held: bool = match self.transfer_owner {
            Some(owner) => owner == transfer_owner,
            None => false,
        };
        if self.committed || self.winner.is_some() || self.handoff_used
            || !self.primary_owner_joined || !held || self.active_owner != self.primary_owner {
            return false;
        }
        self.active_owner = transfer_owner;
        self.handoff_used = true;
        true
    }

    /// Commits the fixed winner.
    pub fn commit(&mut self, owner: u64, winner: TerminalWinnerKind) -> (done: bool)
        ensures
            done == old(self)@.commit_allowed(owner, winner),
            final(self)@ == old(self)@.after(ArbiterStep::Commit { owner, winner }),
    {
        let fixed: bool = match self.winner {
            Some(fixed) => fixed == winner,
            None => false,
        };
        if self.committed || self.active_owner != owner || !fixed {
            return false;
        }
        self.committed = true;
        true
    }

    /// Returns the fixed winner.
    pub fn winner(&self) -> (winner: Option<TerminalWinnerKind>)
        ensures
            winner == self@.winner,
    {
        self.winner
    }

    /// Returns whether the winner is committed.
    pub fn committed(&self) -> (committed: bool)
        ensures
            committed == self@.committed,
    {
        self.committed
    }

    /// Returns whether the primary owner has ended.
    pub fn primary_owner_joined(&self) -> (joined: bool)
        ensures
            joined == self@.primary_owner_joined,
    {
        self.primary_owner_joined
    }

    /// Returns the pre-held transfer owner.
    pub fn transfer_owner(&self) -> (owner: Option<u64>)
        ensures
            owner == self@.transfer_owner,
    {
        self.transfer_owner
    }

    /// Returns the primary owner.
    pub fn primary_owner(&self) -> (owner: u64)
        ensures
            owner == self@.primary_owner,
    {
        self.primary_owner
    }
}

/// Every arbitration that starts fresh stays valid: a commit has a winner, and only the pre-held
/// transfer owner, after the primary owner ended, ever replaces the primary owner.
pub proof fn law_arbitration_stays_valid(
    primary_owner: u64,
    transfer_owner: Option<u64>,
    steps: Seq<ArbiterStep>,
)
    ensures
        ArbiterModel::initial(primary_owner, transfer_owner).after_all(steps).valid(),
        ArbiterModel::initial(primary_owner, transfer_owner).after_all(steps).primary_owner
            == primary_owner,
        ArbiterModel::initial(primary_owner, transfer_owner).after_all(steps).transfer_owner
            == transfer_owner,
    decreases steps.len(),
{
    if steps.len() > 0 {
        law_arbitration_stays_valid(primary_owner, transfer_owner, steps.drop_last());
    }
}

/// A fixed winner, a commit, a recorded end and a used handoff survive every later call.
pub proof fn law_arbitration_decisions_are_stable(state: ArbiterModel, steps: Seq<ArbiterStep>)
    ensures
        state.winner is Some ==> state.after_all(steps).winner == state.winner,
        state.committed ==> state.after_all(steps).committed,
        state.primary_owner_joined ==> state.after_all(steps).primary_owner_joined,
        state.handoff_used ==> state.after_all(steps).handoff_used
            && state.after_all(steps).active_owner == state.active_owner,
        state.winner is Some ==> state.after_all(steps).active_owner == state.active_owner,
    decreases steps.len(),
{
    if steps.len() > 0 {
        law_arbitration_decisions_are_stable(state, steps.drop_last());
    }
}

/// How many of the calls fix a winner.
pub open spec fn claims_made(state: ArbiterModel, steps: Seq<ArbiterStep>) -> nat
    decreases steps.len(),
{
    if steps.len() == 0 {
        0
    } else {
        let before = state.after_all(steps.drop_last());
        claims_made(state, steps.drop_last()) + if steps.last() is Claim && before.accepts(
            steps.last(),
        ) {
            1nat
        } else {
            0nat
        }
    }
}

/// How many of the calls commit.
pub open spec fn commits_made(state: ArbiterModel, steps: Seq<ArbiterStep>) -> nat
    decreases steps.len(),
{
    if steps.len() == 0 {
        0
    } else {
        let before = state.after_all(steps.drop_last());
        commits_made(state, steps.drop_last()) + if steps.last() is Commit && before.accepts(
            steps.last(),
        ) {
            1nat
        } else {
            0nat
        }
    }
}

/// However callers interleave, at most one claim fixes a winner and at most one commit succeeds,
/// and there is a winner exactly when a claim succeeded.
pub proof fn law_claim_and_commit_are_unique(
    primary_owner: u64,
    transfer_owner: Option<u64>,
    steps: Seq<ArbiterStep>,
)
    ensures
        claims_made(ArbiterModel::initial(primary_owner, transfer_owner), steps) <= 1,
        commits_made(ArbiterModel::initial(primary_owner, transfer_owner), steps) <= 1,
        claims_made(ArbiterModel::initial(primary_owner, transfer_owner), steps) == 1
            <==> ArbiterModel::initial(primary_owner, transfer_owner).after_all(steps).winner
            is Some,
        commits_made(ArbiterModel::initial(primary_owner, transfer_owner), steps) == 1
            <==> ArbiterModel::initial(primary_owner, transfer_owner).after_all(steps).committed,
    decreases steps.len(),
{
    if steps.len() > 0 {
        law_claim_and_commit_are_unique(primary_owner, transfer_owner, steps.drop_last());
        law_arbitration_stays_valid(primary_owner, transfer_owner, steps.drop_last());
    }
}

/// A claim by anyone but the active owner, or on evidence that supports another winner, changes
/// nothing.
pub proof fn law_only_the_active_owner_claims(
    state: ArbiterModel,
    owner: u64,
    evidence: TerminalEvidenceKind,
    winner: TerminalWinnerKind,
)
    requires
        owner != state.active_owner || winner != supported_winner(evidence),
    ensures
        state.after(ArbiterStep::Claim { owner, evidence, winner }) == state,
{
}

/// Returns whether a token in this condition may admit a child.
pub fn cancellation_admission_open(active: bool, cancelled: bool) -> (open: bool)
    ensures
        open == (active && !cancelled),
{
    active && !cancelled
}

/// Returns whether this caller is the one that cancels.
pub fn claim_cancellation(already_cancelled: bool) -> (claimed: bool)
    ensures
        claimed == !already_cancelled,
{
    !already_cancelled
}

/// One step of the admission of a child.
pub enum AdmissionEvent {
    /// A look at the parent, and whether it still admitted children.
    Look(bool),
    /// The child was linked.
    Link,
    /// The child was cancelled.
    Cancel,
}

/// A parent that other threads may end while its child registry is locked, and the child to link.
///
/// Nothing is claimed of what a look shows: [`ChildAdmission::steps`] only names the steps that were
/// taken, in order. It is ghost: an admission outside of verified code leaves it out.
pub trait ChildAdmission {
    /// The steps that were taken.
    closed spec fn steps(&self) -> Seq<AdmissionEvent> {
        arbitrary()
    }

    /// Returns whether the parent admits children now.
    fn admission_open(&mut self) -> (open: bool)
        ensures
            final(self).steps() == old(self).steps().push(AdmissionEvent::Look(open)),
    ;

    /// Links the child.
    fn link_child(&mut self)
        ensures
            final(self).steps() == old(self).steps().push(AdmissionEvent::Link),
    ;

    /// Cancels the child.
    fn cancel_child(&mut self)
        ensures
            final(self).steps() == old(self).steps().push(AdmissionEvent::Cancel),
    ;
}

/// The steps of an admission whose looks show `first` and `second`: a parent that admits nothing is
/// left alone; otherwise the child is linked and the parent looked at again, and a child whose parent
/// ended in between is cancelled.
pub open spec fn admission_steps(first: bool, second: bool) -> Seq<AdmissionEvent> {
    if !first {
        seq![AdmissionEvent::Look(false)]
    } else if second {
        seq![AdmissionEvent::Look(true), AdmissionEvent::Link, AdmissionEvent::Look(true)]
    } else {
        seq![
            AdmissionEvent::Look(true),
            AdmissionEvent::Link,
            AdmissionEvent::Look(false),
            AdmissionEvent::Cancel,
        ]
    }
}

/// Links a child while its parent's registry is locked, and cancels it at once where the parent
/// ended in between.
pub fn admit_child_while_locked<A: ChildAdmission>(admission: &mut A) -> (admitted: bool)
    ensures
        exists|second: bool|
            final(admission).steps() == old(admission).steps() + #[trigger] admission_steps(
                admitted,
                second,
            ),
{
    let ghost before = admission.steps();
    if !admission.admission_open() {
        assert(admission.steps() =~= before + admission_steps(false, false));
        return false;
    }
    admission.link_child();
    let second: bool = admission.admission_open();
    if !second {
        admission.cancel_child();
    }
    assert(admission.steps() =~= before + admission_steps(true, second));
    true
}

/// One step of retiring a finished item.
pub enum RetirementEvent {
    /// The item was removed from its registry, or removing it failed.
    Unlink(bool),
    /// Those who wait for the item were woken.
    Notify,
}

/// A finished item that is still registered, and those who wait for it.
///
/// Nothing is claimed of what removing it comes to: [`Retirement::steps`] only names the steps that
/// were taken, in order. It is ghost: an item outside of verified code leaves it out.
pub trait Retirement {
    /// The steps that were taken.
    closed spec fn steps(&self) -> Seq<RetirementEvent> {
        arbitrary()
    }

    /// Removes the item from its registry and returns whether that worked. An implementation
    /// contains its own panics.
    fn unlink(&mut self) -> (unlinked: bool)
        ensures
            final(self).steps() == old(self).steps().push(RetirementEvent::Unlink(unlinked)),
    ;

    /// Wakes those who wait for the item.
    fn notify(&mut self)
        ensures
            final(self).steps() == old(self).steps().push(RetirementEvent::Notify),
    ;
}

/// Removes a finished item from its registry, then wakes those who wait for it, whether or not
/// removing it worked.
pub fn unlink_then_notify<R: Retirement>(item: &mut R) -> (unlinked: bool)
    ensures
        final(item).steps() == old(item).steps() + seq![
            RetirementEvent::Unlink(unlinked),
            RetirementEvent::Notify,
        ],
{
    let ghost before = item.steps();
    let unlinked: bool = item.unlink();
    item.notify();
    assert(item.steps() =~= before + seq![
        RetirementEvent::Unlink(unlinked),
        RetirementEvent::Notify,
    ]);
    unlinked
}

/// Which Runtime and which of its tasks the calling thread belongs to.
#[derive(Clone, Copy, Debug, PartialEq, Eq)]
pub struct TaskOwnerBinding<R, T> {
    pub runtime: R,
    pub task: T,
}

impl<R, T> TaskOwnerBinding<R, T> {
    /// Binds a thread to one task of one Runtime.
    pub fn new(runtime: R, task: T) -> (binding: Self)
        ensures
            binding.runtime == runtime,
            binding.task == task,
    {
        TaskOwnerBinding { runtime, task }
    }
}

impl<R: PartialEq, T: PartialEq> TaskOwnerBinding<R, T> {
    /// Returns whether the bound thread may not close `runtime`.
    pub fn rejects_runtime_close(&self, runtime: &R) -> (rejected: bool)
        ensures
            R::obeys_eq_spec() ==> rejected == self.runtime.eq_spec(runtime),
    {
        self.runtime == *runtime
    }

    /// Returns whether the bound thread may not join `task` of `runtime`.
    pub fn rejects_task_join(&self, runtime: &R, task: &T) -> (rejected: bool)
        ensures
            R::obeys_eq_spec() && T::obeys_eq_spec() ==> rejected == (self.runtime.eq_spec(runtime)
                && self.task.eq_spec(task)),
    {
        self.runtime == *runtime && self.task == *task
    }
}

/// Returns whether a thread bound as `current` may not close `runtime`: exactly when it runs one of
/// that Runtime's tasks.
pub fn runtime_close_rejected<R: PartialEq, T: PartialEq>(
    current: Option<TaskOwnerBinding<R, T>>,
    runtime: R,
) -> (rejected: bool)
    ensures
        current is None ==> !rejected,
        R::obeys_eq_spec() && current is Some ==> rejected == current->0.runtime.eq_spec(&runtime),
{
    match current {
        Some(owner) => owner.rejects_runtime_close(&runtime),
        None => false,
    }
}

/// Returns whether a thread bound as `current` may not join `task`: exactly when it runs that task.
pub fn task_join_rejected<R: PartialEq, T: PartialEq>(
    current: Option<TaskOwnerBinding<R, T>>,
    runtime: R,
    task: T,
) -> (rejected: bool)
    ensures
        current is None ==> !rejected,
        R::obeys_eq_spec() && T::obeys_eq_spec() && current is Some ==> rejected == (
        current->0.runtime.eq_spec(&runtime) && current->0.task.eq_spec(&task)),
{
    match current {
        Some(owner) => owner.rejects_task_join(&runtime, &task),
        None => false,
    }
}

/// What became of a task's join handle.
#[derive(Clone, Copy, Debug, PartialEq, Eq, Structural)]
pub enum TaskHandleState {
    Missing,
    Retained,
    Joining,
    Joined,
}

/// Life of one supervised task from registration to removal.
#[derive(Clone, Debug, PartialEq, Eq)]
pub struct TaskLifecycleState<O> {
    owner_bound: bool,
    body_outcome: Option<O>,
    handle: TaskHandleState,
    panic_diagnostic_durable: bool,
    registry_linked: bool,
}

/// Life of one supervised task, as plain values.
pub struct TaskModel<O> {
    pub owner_bound: bool,
    pub body_outcome: Option<O>,
    pub handle: TaskHandleState,
    pub panic_diagnostic_durable: bool,
    pub registry_linked: bool,
}

/// One call on a task's life.
pub enum TaskStep<O> {
    Bind,
    CompleteBody { outcome: O },
    ClaimJoin,
    FinishJoin,
    PersistPanic,
    Unlink { panic_diagnostic_required: bool },
    AbortSpawn,
}

impl<O> TaskModel<O> {
    /// A task that is registered and has no thread yet.
    pub open spec fn initial() -> TaskModel<O> {
        TaskModel {
            owner_bound: false,
            body_outcome: None,
            handle: TaskHandleState::Missing,
            panic_diagnostic_durable: false,
            registry_linked: true,
        }
    }

    /// Whether the call is legal now; every call needs the registry link.
    pub open spec fn accepts(self, step: TaskStep<O>) -> bool {
        self.registry_linked && match step {
            TaskStep::Bind => !self.owner_bound && self.body_outcome is None && self.handle
                == TaskHandleState::Missing,
            TaskStep::CompleteBody { outcome } => self.owner_bound && self.body_outcome is None
                && self.handle == TaskHandleState::Retained,
            TaskStep::ClaimJoin => self.body_outcome is Some && self.handle
                == TaskHandleState::Retained,
            TaskStep::FinishJoin => self.body_outcome is Some && self.handle
                == TaskHandleState::Joining,
            TaskStep::PersistPanic => self.handle == TaskHandleState::Joined
                && !self.panic_diagnostic_durable,
            TaskStep::Unlink { panic_diagnostic_required } => self.handle
                == TaskHandleState::Joined && (panic_diagnostic_required
                ==> self.panic_diagnostic_durable),
            TaskStep::AbortSpawn => !self.owner_bound && self.body_outcome is None && self.handle
                == TaskHandleState::Missing,
        }
    }

    /// The task after one call; a refused call changes nothing.
    pub open spec fn after(self, step: TaskStep<O>) -> TaskModel<O> {
        if !self.accepts(step) {
            self
        } else {
            match step {
                TaskStep::Bind => TaskModel {
                    owner_bound: true,
                    handle: TaskHandleState::Retained,
                    ..self
                },
                TaskStep::CompleteBody { outcome } => TaskModel {
                    body_outcome: Some(outcome),
                    ..self
                },
                TaskStep::ClaimJoin => TaskModel { handle: TaskHandleState::Joining, ..self },
                TaskStep::FinishJoin => TaskModel { handle: TaskHandleState::Joined, ..self },
                TaskStep::PersistPanic => TaskModel { panic_diagnostic_durable: true, ..self },
                TaskStep::Unlink { panic_diagnostic_required } => TaskModel {
                    registry_linked: false,
                    ..self
                },
                TaskStep::AbortSpawn => TaskModel { registry_linked: false, ..self },
            }
        }
    }

    /// The task after a sequence of calls.
    pub open spec fn after_all(self, steps: Seq<TaskStep<O>>) -> TaskModel<O>
        decreases steps.len(),
    {
        if steps.len() == 0 {
            self
        } else {
            self.after_all(steps.drop_last()).after(steps.last())
        }
    }

    /// What every task satisfies at any time.
    pub open spec fn valid(self) -> bool {
        &&& self.owner_bound <==> self.handle != TaskHandleState::Missing
        &&& self.body_outcome is Some ==> self.owner_bound
        &&& self.handle == TaskHandleState::Joining || self.handle == TaskHandleState::Joined
            ==> self.body_outcome is Some
        &&& self.panic_diagnostic_durable ==> self.handle == TaskHandleState::Joined
        &&& !self.registry_linked ==> self.handle == TaskHandleState::Joined || self.handle
            == TaskHandleState::Missing
    }
}

impl<O> View for TaskLifecycleState<O> {
    type V = TaskModel<O>;

    closed spec fn view(&self) -> TaskModel<O> {
        TaskModel {
            owner_bound: self.owner_bound,
            body_outcome: self.body_outcome,
            handle: self.handle,
            panic_diagnostic_durable: self.panic_diagnostic_durable,
            registry_linked: self.registry_linked,
        }
    }
}

impl<O: Copy> TaskLifecycleState<O> {
    /// Registers a task before its thread exists.
    pub fn registered() -> (state: Self)
        ensures
            state@ == TaskModel::<O>::initial(),
            state@.valid(),
    {
        TaskLifecycleState {
            owner_bound: false,
            body_outcome: None,
            handle: TaskHandleState::Missing,
            panic_diagnostic_durable: false,
            registry_linked: true,
        }
    }

    /// Records the thread that runs the task and keeps its join handle.
    pub fn bind_owner_and_retain_handle(&mut self) -> (done: bool)
        ensures
            done == old(self)@.accepts(TaskStep::Bind),
            final(self)@ == old(self)@.after(TaskStep::Bind),
    {
        if !self.registry_linked || self.owner_bound || self.body_outcome.is_some() || self.handle
            != TaskHandleState::Missing {
            return false;
        }
        self.owner_bound = true;
        self.handle = TaskHandleState::Retained;
        true
    }

    /// Records how the task body ended.
    pub fn complete_body(&mut self, outcome: O) -> (done: bool)
        ensures
            done == old(self)@.accepts(TaskStep::CompleteBody { outcome }),
            final(self)@ == old(self)@.after(TaskStep::CompleteBody { outcome }),
    {
        if !self.registry_linked || !self.owner_bound || self.body_outcome.is_some() || self.handle
            != TaskHandleState::Retained {
            return false;
        }
        self.body_outcome = Some(outcome);
        true
    }

    /// Takes the join handle of a task whose body has ended.
    pub fn claim_join_handle(&mut self) -> (done: bool)
        ensures
            done == old(self)@.accepts(TaskStep::ClaimJoin),
            final(self)@ == old(self)@.after(TaskStep::ClaimJoin),
    {
        if !self.registry_linked || self.body_outcome.is_none() || self.handle
            != TaskHandleState::Retained {
            return false;
        }
        self.handle = TaskHandleState::Joining;
        true
    }

    /// Records that the thread is joined.
    pub fn finish_join(&mut self) -> (done: bool)
        ensures
            done == old(self)@.accepts(TaskStep::FinishJoin),
            final(self)@ == old(self)@.after(TaskStep::FinishJoin),
    {
        if !self.registry_linked || self.body_outcome.is_none() || self.handle
            != TaskHandleState::Joining {
            return false;
        }
        self.handle = TaskHandleState::Joined;
        true
    }

    /// Records that a panic of the body is saved where close will find it.
    pub fn persist_panic_diagnostic(&mut self) -> (done: bool)
        ensures
            done == old(self)@.accepts(TaskStep::PersistPanic),
            final(self)@ == old(self)@.after(TaskStep::PersistPanic),
    {
        if !self.registry_linked || self.handle != TaskHandleState::Joined
            || self.panic_diagnostic_durable {
            return false;
        }
        self.panic_diagnostic_durable = true;
        true
    }

    /// Removes a joined task; where a panic diagnostic is due, only after it is saved.
    pub fn unlink_registry(&mut self, panic_diagnostic_required: bool) -> (done: bool)
        ensures
            done == old(self)@.accepts(TaskStep::Unlink { panic_diagnostic_required }),
            final(self)@ == old(self)@.after(TaskStep::Unlink { panic_diagnostic_required }),
    {
        if !self.registry_linked || self.handle != TaskHandleState::Joined || (
        panic_diagnostic_required && !self.panic_diagnostic_durable) {
            return false;
        }
        self.registry_linked = false;
        true
    }

    /// Removes a task whose thread could not be started.
    pub fn abort_spawn(&mut self) -> (done: bool)
        ensures
            done == old(self)@.accepts(TaskStep::AbortSpawn),
            final(self)@ == old(self)@.after(TaskStep::AbortSpawn),
    {
        if !self.registry_linked || self.owner_bound || self.body_outcome.is_some() || self.handle
            != TaskHandleState::Missing {
            return false;
        }
        self.registry_linked = false;
        true
    }

    /// Returns whether the task has a thread.
    pub fn owner_bound(&self) -> (bound: bool)
        ensures
            bound == self@.owner_bound,
    {
        self.owner_bound
    }

    /// Returns how the task body ended.
    pub fn body_outcome(&self) -> (outcome: Option<O>)
        ensures
            outcome == self@.body_outcome,
    {
        self.body_outcome
    }

    /// Returns whether the join handle is still held.
    pub fn join_handle_retained(&self) -> (retained: bool)
        ensures
            retained == (self@.handle == TaskHandleState::Retained),
    {
        self.handle == TaskHandleState::Retained
    }

    /// Returns whether the thread is joined.
    pub fn thread_joined(&self) -> (joined: bool)
        ensures
            joined == (self@.handle == TaskHandleState::Joined),
    {
        self.handle == TaskHandleState::Joined
    }

    /// Returns whether a panic of the body is saved.
    pub fn panic_diagnostic_durable(&self) -> (durable: bool)
        ensures
            durable == self@.panic_diagnostic_durable,
    {
        self.panic_diagnostic_durable
    }

    /// Returns whether the task is still registered.
    pub fn registry_linked(&self) -> (linked: bool)
        ensures
            linked == self@.registry_linked,
    {
        self.registry_linked
    }
}

/// Whatever is called on a registered task, it stays valid: its body ends only on a bound thread,
/// its thread is joined only after the body ended, and it leaves the registry only joined or never
/// started.
pub proof fn law_task_life_stays_valid<O>(steps: Seq<TaskStep<O>>)
    ensures
        TaskModel::<O>::initial().after_all(steps).valid(),
    decreases steps.len(),
{
    if steps.len() > 0 {
        law_task_life_stays_valid::<O>(steps.drop_last());
    }
}

/// A task that left the registry never changes again.
pub proof fn law_unlinked_task_is_final<O>(state: TaskModel<O>, steps: Seq<TaskStep<O>>)
    requires
        !state.registry_linked,
    ensures
        state.after_all(steps) == state,
    decreases steps.len(),
{
    if steps.len() > 0 {
        law_unlinked_task_is_final(state, steps.drop_last());
    }
}

/// A task whose panic must be saved leaves the registry only after it was saved.
pub proof fn law_panic_is_durable_before_unlink<O>(state: TaskModel<O>)
    requires
        state.registry_linked,
        !state.after(TaskStep::Unlink { panic_diagnostic_required: true }).registry_linked,
    ensures
        state.panic_diagnostic_durable,
        state.handle == TaskHandleState::Joined,
{
}

/// A body outcome, once recorded, never changes.
pub proof fn law_body_outcome_is_stable<O>(state: TaskModel<O>, steps: Seq<TaskStep<O>>)
    requires
        state.body_outcome is Some,
    ensures
        state.after_all(steps).body_outcome == state.body_outcome,
    decreases steps.len(),
{
    if steps.len() > 0 {
        law_body_outcome_is_stable(state, steps.drop_last());
    }
}

} // verus!
