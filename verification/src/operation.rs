//! Operations: every operation ends exactly once, and who may end it is decided by its owner.

use crate::cancellation::{
    cancel_order, cancelled_tree, children_order, dropped_hooks, ended_tree, hook_ids,
    released_hooks, CancellationPropagation, CancellationToken, CancellationTree, NodeModel,
};
use crate::concurrency::{
    evidence_allows_winner, supported_winner, ArbiterModel, ArbiterStep, TerminalArbiterState,
    TerminalClaimResult, TerminalEvidenceKind, TerminalWinnerKind,
};
use crate::event::{EventClass, EventDraft, EventKind, Severity};
use crate::model::{EasyConError, ErrorCode, ErrorDomain, ErrorModel, OperationId, TaskId};
use crate::wait::{idle_look, look_again, Look, WaitTimeout};
use vstd::prelude::*;

pub mod laws;

verus! {

/// Canonical operation state shared by every language binding.
#[derive(Clone, Copy, Debug, PartialEq, Eq, Structural)]
pub enum OperationState {
    /// Created but not yet admitted to work.
    Pending,
    /// Admitted and executing or awaiting a supervised resource.
    Running,
    /// Cancellation was requested and cleanup is incomplete.
    Cancelling,
    /// Result committed exactly once.
    Succeeded,
    /// Error committed exactly once.
    Failed,
    /// Cancellation cleanup completed.
    Cancelled,
}

/// Whether no further transition is legal from a state.
pub open spec fn terminal(state: OperationState) -> bool {
    state == OperationState::Succeeded || state == OperationState::Failed || state
        == OperationState::Cancelled
}

impl OperationState {
    /// Returns whether no further transition is legal.
    pub fn is_terminal(self) -> (is_terminal: bool)
        ensures
            is_terminal == terminal(self),
    {
        match self {
            OperationState::Succeeded | OperationState::Failed | OperationState::Cancelled => true,
            _ => false,
        }
    }
}

/// First cancellation cause retained by an operation.
#[derive(Clone, Copy, Debug, PartialEq, Eq, Structural)]
pub enum CancellationReason {
    /// Explicit caller request.
    Requested,
    /// Operation execution deadline.
    Deadline,
    /// Parent Runtime shutdown.
    ParentClose,
}

/// Immutable operation result payload.
#[derive(Debug, PartialEq, Eq)]
pub enum OperationValue {
    /// Successful command with no additional value.
    Unit,
    /// Stable numeric result.
    U64(u64),
    /// Owned byte result.
    Bytes(Vec<u8>),
}

/// An operation result, as plain values.
pub enum ValueModel {
    Unit,
    U64(u64),
    Bytes(Seq<u8>),
}

impl View for OperationValue {
    type V = ValueModel;

    open spec fn view(&self) -> ValueModel {
        match self {
            OperationValue::Unit => ValueModel::Unit,
            OperationValue::U64(value) => ValueModel::U64(*value),
            OperationValue::Bytes(bytes) => ValueModel::Bytes(bytes@),
        }
    }
}

impl Clone for OperationValue {
    fn clone(&self) -> (copy: Self)
        ensures
            copy@ == self@,
    {
        match self {
            OperationValue::Unit => OperationValue::Unit,
            OperationValue::U64(value) => OperationValue::U64(*value),
            OperationValue::Bytes(bytes) => {
                let copy = bytes.clone();
                assert(copy@ =~= bytes@);
                OperationValue::Bytes(copy)
            },
        }
    }
}

impl OperationValue {
    /// Returns whether two results are the same.
    pub fn same_as(&self, other: &Self) -> (same: bool)
        ensures
            same == (self@ == other@),
    {
        match (self, other) {
            (OperationValue::Unit, OperationValue::Unit) => true,
            (OperationValue::U64(left), OperationValue::U64(right)) => *left == *right,
            (OperationValue::Bytes(left), OperationValue::Bytes(right)) => same_bytes(left, right),
            _ => false,
        }
    }
}

fn same_bytes(left: &Vec<u8>, right: &Vec<u8>) -> (same: bool)
    ensures
        same == (left@ == right@),
{
    if left.len() != right.len() {
        return false;
    }
    let mut k: usize = 0;
    while k < left.len()
        invariant
            k <= left.len(),
            left.len() == right.len(),
            forall|j: int| 0 <= j < k ==> left@[j] == right@[j],
        decreases left.len() - k,
    {
        if left[k] != right[k] {
            return false;
        }
        k += 1;
    }
    assert(left@ =~= right@);
    true
}

/// What an optional result says.
pub open spec fn value_model(value: Option<OperationValue>) -> Option<ValueModel> {
    match value {
        Some(value) => Some(value@),
        None => None,
    }
}

/// What an optional error says.
pub open spec fn error_model(error: Option<EasyConError>) -> Option<ErrorModel> {
    match error {
        Some(error) => Some(error@),
        None => None,
    }
}

/// Authoritative immutable view of an operation.
#[derive(Debug)]
pub struct OperationSnapshot {
    /// Canonical state.
    pub state: OperationState,
    /// Result present only for `Succeeded`.
    pub result: Option<OperationValue>,
    /// Error present for `Failed` and reason-bearing `Cancelled`.
    pub error: Option<EasyConError>,
    /// First cancellation cause, if cancellation was requested.
    pub cancellation_reason: Option<CancellationReason>,
}

/// An operation's authoritative view, as plain values.
pub struct SnapshotModel {
    pub state: OperationState,
    pub result: Option<ValueModel>,
    pub error: Option<ErrorModel>,
    pub cancellation_reason: Option<CancellationReason>,
}

impl View for OperationSnapshot {
    type V = SnapshotModel;

    open spec fn view(&self) -> SnapshotModel {
        SnapshotModel {
            state: self.state,
            result: value_model(self.result),
            error: error_model(self.error),
            cancellation_reason: self.cancellation_reason,
        }
    }
}

/// Result of an attempted operation transition.
#[derive(Clone, Copy, Debug, PartialEq, Eq, Structural)]
pub enum TransitionOutcome {
    /// The transition was committed.
    Applied,
    /// The requested idempotent transition had already been requested.
    Unchanged,
    /// The operation already has an immutable terminal state.
    AlreadyTerminal,
    /// The requested edge is not legal from the current non-terminal state.
    Invalid,
    /// Owner cleanup failed; the transaction was committed with that failure.
    CleanupFailed,
}

/// Mutually exclusive evidence consumed by a legitimate operation settlement owner.
#[derive(Clone, Copy, Debug, PartialEq, Eq, Structural)]
pub enum SettlementEvidence {
    /// The domain effect was fully accepted.
    EffectAccepted,
    /// The domain proved that the effect was not delivered.
    NotDelivered,
    /// Execution failed without an accepted effect.
    ExecutionFailed,
}

/// The arbiter's name for a kind of evidence.
pub open spec fn evidence_kind(evidence: SettlementEvidence) -> TerminalEvidenceKind {
    match evidence {
        SettlementEvidence::EffectAccepted => TerminalEvidenceKind::EffectAccepted,
        SettlementEvidence::NotDelivered => TerminalEvidenceKind::NotDelivered,
        SettlementEvidence::ExecutionFailed => TerminalEvidenceKind::ExecutionFailed,
    }
}

impl SettlementEvidence {
    /// Returns the arbiter's name for this evidence.
    pub fn kind(self) -> (kind: TerminalEvidenceKind)
        ensures
            kind == evidence_kind(self),
    {
        match self {
            SettlementEvidence::EffectAccepted => TerminalEvidenceKind::EffectAccepted,
            SettlementEvidence::NotDelivered => TerminalEvidenceKind::NotDelivered,
            SettlementEvidence::ExecutionFailed => TerminalEvidenceKind::ExecutionFailed,
        }
    }
}

/// Whether Runtime supervision pre-holds a transferable settlement owner.
#[derive(Clone, Copy, Debug, PartialEq, Eq, Structural)]
pub enum SettlementOwnerMode {
    /// Only the original registered owner may claim settlement.
    Exclusive,
    /// Runtime supervision may hand off after the original owner is joined and evidence is shared.
    Transferable,
}

/// Generic terminal candidate paired with settlement evidence.
#[derive(Debug)]
pub enum TerminalCandidate {
    /// An accepted effect projects to success after cleanup.
    Success(OperationValue),
    /// Execution failure remains the primary error after cleanup.
    Failure(EasyConError),
    /// Not-delivered evidence projects the immutable first cancellation reason.
    Cancellation,
}

/// A terminal candidate, as plain values.
pub enum CandidateModel {
    Success(ValueModel),
    Failure(ErrorModel),
    Cancellation,
}

impl View for TerminalCandidate {
    type V = CandidateModel;

    open spec fn view(&self) -> CandidateModel {
        match self {
            TerminalCandidate::Success(value) => CandidateModel::Success(value@),
            TerminalCandidate::Failure(error) => CandidateModel::Failure(error@),
            TerminalCandidate::Cancellation => CandidateModel::Cancellation,
        }
    }
}

impl Clone for TerminalCandidate {
    fn clone(&self) -> (copy: Self)
        ensures
            copy@ == self@,
    {
        match self {
            TerminalCandidate::Success(value) => TerminalCandidate::Success(value.clone()),
            TerminalCandidate::Failure(error) => TerminalCandidate::Failure(error.clone()),
            TerminalCandidate::Cancellation => TerminalCandidate::Cancellation,
        }
    }
}

impl TerminalCandidate {
    /// Returns whether two candidates are the same.
    pub fn same_as(&self, other: &Self) -> (same: bool)
        ensures
            same == (self@ == other@),
    {
        match (self, other) {
            (TerminalCandidate::Success(left), TerminalCandidate::Success(right)) => left.same_as(
                right,
            ),
            (TerminalCandidate::Failure(left), TerminalCandidate::Failure(right)) => left.same_as(
                right,
            ),
            (TerminalCandidate::Cancellation, TerminalCandidate::Cancellation) => true,
            _ => false,
        }
    }
}

/// Result of waiting for an operation terminal state.
#[derive(Debug)]
pub enum WaitResult {
    /// The operation reached a terminal state.
    Completed(OperationSnapshot),
    /// Only this wait elapsed; the operation continues unchanged.
    Timeout,
}

/// The result that a terminal transaction is about to commit.
pub enum TerminalPrimary {
    Success(OperationValue),
    Failure(EasyConError),
    Cancellation(CancellationReason),
}

/// The result that a terminal transaction is about to commit, as plain values.
pub enum PrimaryModel {
    Success(ValueModel),
    Failure(ErrorModel),
    Cancellation(CancellationReason),
}

impl View for TerminalPrimary {
    type V = PrimaryModel;

    open spec fn view(&self) -> PrimaryModel {
        match self {
            TerminalPrimary::Success(value) => PrimaryModel::Success(value@),
            TerminalPrimary::Failure(error) => PrimaryModel::Failure(error@),
            TerminalPrimary::Cancellation(reason) => PrimaryModel::Cancellation(*reason),
        }
    }
}

/// The winner that a primary result stands for.
pub open spec fn winner_of(primary: PrimaryModel) -> TerminalWinnerKind {
    match primary {
        PrimaryModel::Success(_) => TerminalWinnerKind::Success,
        PrimaryModel::Failure(_) => TerminalWinnerKind::Failure,
        PrimaryModel::Cancellation(_) => TerminalWinnerKind::Cancellation,
    }
}

impl Clone for TerminalPrimary {
    fn clone(&self) -> (copy: Self)
        ensures
            copy@ == self@,
    {
        match self {
            TerminalPrimary::Success(value) => TerminalPrimary::Success(value.clone()),
            TerminalPrimary::Failure(error) => TerminalPrimary::Failure(error.clone()),
            TerminalPrimary::Cancellation(reason) => TerminalPrimary::Cancellation(*reason),
        }
    }
}

impl TerminalPrimary {
    /// Returns the winner that this result stands for.
    pub fn winner_kind(&self) -> (winner: TerminalWinnerKind)
        ensures
            winner == winner_of(self@),
    {
        match self {
            TerminalPrimary::Success(_) => TerminalWinnerKind::Success,
            TerminalPrimary::Failure(_) => TerminalWinnerKind::Failure,
            TerminalPrimary::Cancellation(_) => TerminalWinnerKind::Cancellation,
        }
    }
}

/// The result that a candidate projects in a state; none where it cannot settle the operation.
pub open spec fn primary_of_candidate(
    candidate: CandidateModel,
    state: OperationState,
    reason: Option<CancellationReason>,
) -> Option<PrimaryModel> {
    match candidate {
        CandidateModel::Success(value) => if state == OperationState::Running {
            Some(PrimaryModel::Success(value))
        } else {
            None
        },
        CandidateModel::Failure(error) => if state == OperationState::Pending || state
            == OperationState::Running {
            Some(PrimaryModel::Failure(error))
        } else {
            None
        },
        CandidateModel::Cancellation => if state == OperationState::Pending || state
            == OperationState::Running {
            match reason {
                Some(reason) => Some(PrimaryModel::Cancellation(reason)),
                None => None,
            }
        } else {
            None
        },
    }
}

/// What an optional primary result says.
pub open spec fn primary_model(primary: Option<TerminalPrimary>) -> Option<PrimaryModel> {
    match primary {
        Some(primary) => Some(primary@),
        None => None,
    }
}

/// Projects a candidate onto an operation.
pub fn primary_from_candidate(
    candidate: TerminalCandidate,
    state: OperationState,
    cancellation_reason: Option<CancellationReason>,
) -> (primary: Option<TerminalPrimary>)
    ensures
        primary_model(primary) == primary_of_candidate(candidate@, state, cancellation_reason),
{
    let unfinished: bool = state == OperationState::Pending || state == OperationState::Running;
    match candidate {
        TerminalCandidate::Success(value) => {
            if state == OperationState::Running {
                Some(TerminalPrimary::Success(value))
            } else {
                None
            }
        },
        TerminalCandidate::Failure(error) => {
            if unfinished {
                Some(TerminalPrimary::Failure(error))
            } else {
                None
            }
        },
        TerminalCandidate::Cancellation => {
            if !unfinished {
                return None;
            }
            match cancellation_reason {
                Some(reason) => Some(TerminalPrimary::Cancellation(reason)),
                None => None,
            }
        },
    }
}

/// What the error of a cancelled operation says.
pub open spec fn cancellation_error_model(reason: CancellationReason) -> ErrorModel {
    match reason {
        CancellationReason::Requested => ErrorModel {
            domain: ErrorDomain::Runtime,
            code: ErrorCode::Cancelled,
            message: "operation cancelled"@,
        },
        CancellationReason::Deadline => ErrorModel {
            domain: ErrorDomain::Runtime,
            code: ErrorCode::DeadlineExceeded,
            message: "operation deadline elapsed"@,
        },
        CancellationReason::ParentClose => ErrorModel {
            domain: ErrorDomain::Runtime,
            code: ErrorCode::Cancelled,
            message: "parent operation, resource, or Runtime ended"@,
        },
    }
}

/// The error of a cancelled operation.
pub fn cancellation_error(reason: CancellationReason) -> (error: EasyConError)
    ensures
        error@ == cancellation_error_model(reason),
{
    match reason {
        CancellationReason::Requested => EasyConError::new(
            ErrorDomain::Runtime,
            ErrorCode::Cancelled,
            "operation cancelled",
        ),
        CancellationReason::Deadline => EasyConError::new(
            ErrorDomain::Runtime,
            ErrorCode::DeadlineExceeded,
            "operation deadline elapsed",
        ),
        CancellationReason::ParentClose => EasyConError::new(
            ErrorDomain::Runtime,
            ErrorCode::Cancelled,
            "parent operation, resource, or Runtime ended",
        ),
    }
}

/// What the error of a panicked cleanup says.
pub open spec fn cleanup_panic_model() -> ErrorModel {
    ErrorModel {
        domain: ErrorDomain::Internal,
        code: ErrorCode::Internal,
        message: "operation owner cleanup panicked"@,
    }
}

/// The error of a panicked cleanup.
pub fn cleanup_panic_error() -> (error: EasyConError)
    ensures
        error@ == cleanup_panic_model(),
{
    EasyConError::new(
        ErrorDomain::Internal,
        ErrorCode::Internal,
        "operation owner cleanup panicked",
    )
}

/// What the error of a panicked settlement observer says.
pub open spec fn settlement_panic_model() -> ErrorModel {
    ErrorModel {
        domain: ErrorDomain::Internal,
        code: ErrorCode::Internal,
        message: "operation cleanup settlement observer panicked"@,
    }
}

/// The error of a panicked settlement observer.
pub fn cleanup_settlement_panic_error() -> (error: EasyConError)
    ensures
        error@ == settlement_panic_model(),
{
    EasyConError::new(
        ErrorDomain::Internal,
        ErrorCode::Internal,
        "operation cleanup settlement observer panicked",
    )
}

/// The event code of a state.
pub open spec fn state_code_of(state: OperationState) -> &'static str {
    match state {
        OperationState::Pending => "runtime.operation.pending",
        OperationState::Running => "runtime.operation.running",
        OperationState::Cancelling => "runtime.operation.cancelling",
        OperationState::Succeeded => "runtime.operation.succeeded",
        OperationState::Failed => "runtime.operation.failed",
        OperationState::Cancelled => "runtime.operation.cancelled",
    }
}

/// Returns the event code of a state.
pub fn state_code(state: OperationState) -> (code: &'static str)
    ensures
        code == state_code_of(state),
{
    match state {
        OperationState::Pending => "runtime.operation.pending",
        OperationState::Running => "runtime.operation.running",
        OperationState::Cancelling => "runtime.operation.cancelling",
        OperationState::Succeeded => "runtime.operation.succeeded",
        OperationState::Failed => "runtime.operation.failed",
        OperationState::Cancelled => "runtime.operation.cancelled",
    }
}

/// Returns the event code of a terminal state.
pub fn terminal_code(state: OperationState) -> (code: &'static str)
    ensures
        code == state_code_of(state),
{
    state_code(state)
}

/// The event that announces a state: critical, and an error only for failure.
pub open spec fn state_draft_of(state: OperationState, id: OperationId) -> EventDraft {
    EventDraft {
        class: EventClass::Critical,
        kind: if terminal(state) {
            EventKind::Terminal
        } else {
            EventKind::State
        },
        code: state_code_of(state),
        severity: if state == OperationState::Failed {
            Severity::Error
        } else {
            Severity::Info
        },
        operation_id: Some(id),
        resource_id: None,
        detail: None,
    }
}

/// Returns the event that announces a state.
pub fn state_draft(state: OperationState, id: OperationId) -> (draft: EventDraft)
    ensures
        draft == state_draft_of(state, id),
{
    let (kind, severity) = state_event(state);
    let code = if state.is_terminal() {
        terminal_code(state)
    } else {
        state_code(state)
    };
    EventDraft::critical(kind, code, severity).with_operation(id)
}

/// Returns the category and severity of a state's event.
pub fn state_event(state: OperationState) -> (event: (EventKind, Severity))
    ensures
        event.0 == if terminal(state) {
            EventKind::Terminal
        } else {
            EventKind::State
        },
        event.1 == if state == OperationState::Failed {
            Severity::Error
        } else {
            Severity::Info
        },
{
    if state.is_terminal() {
        if state == OperationState::Failed {
            (EventKind::Terminal, Severity::Error)
        } else {
            (EventKind::Terminal, Severity::Info)
        }
    } else {
        (EventKind::State, Severity::Info)
    }
}

/// How an owner's cleanup ended.
#[derive(Debug)]
pub enum CleanupRun {
    /// The cleanup returned this.
    Returned(Result<(), EasyConError>),
    /// The cleanup panicked; the panic was contained.
    Panicked,
}

/// Cleanup of one terminal transaction, ready to commit.
#[derive(Debug)]
pub struct SettledCleanup {
    domain_failed: bool,
    outcome: Result<(), EasyConError>,
}

/// Cleanup of one terminal transaction, as plain values.
pub struct CleanupModel {
    /// Whether the domain's own bookkeeping failed.
    pub domain_failed: bool,
    /// The first failure, if any.
    pub error: Option<ErrorModel>,
}

impl View for SettledCleanup {
    type V = CleanupModel;

    closed spec fn view(&self) -> CleanupModel {
        CleanupModel {
            domain_failed: self.domain_failed,
            error: match self.outcome {
                Ok(_) => None,
                Err(error) => Some(error@),
            },
        }
    }
}

impl CleanupModel {
    /// A failed domain has an error to show.
    pub open spec fn valid(self) -> bool {
        self.domain_failed ==> self.error is Some
    }

    /// The failure that counts, after the settlement observer was told.
    pub open spec fn failure(self, observer_panicked: bool) -> Option<ErrorModel> {
        if self.error is None && observer_panicked {
            Some(settlement_panic_model())
        } else {
            self.error
        }
    }
}

/// What an optional failure says.
pub open spec fn failure_model(outcome: Result<(), EasyConError>) -> Option<ErrorModel> {
    match outcome {
        Ok(_) => None,
        Err(error) => Some(error@),
    }
}

impl SettledCleanup {
    /// Combines the domain's own result with the registered cleanup: the domain's failure is the
    /// first, and a panicked cleanup is a failure.
    pub fn settle(domain: Result<(), EasyConError>, run: CleanupRun) -> (settled: Self)
        ensures
            settled@.valid(),
            settled@.domain_failed == (domain is Err),
            settled@.error == match domain {
                Err(error) => Some(error@),
                Ok(_) => match run {
                    CleanupRun::Returned(outcome) => failure_model(outcome),
                    CleanupRun::Panicked => Some(cleanup_panic_model()),
                },
            },
    {
        match domain {
            Err(error) => SettledCleanup { domain_failed: true, outcome: Err(error) },
            Ok(()) => match run {
                CleanupRun::Returned(outcome) => SettledCleanup { domain_failed: false, outcome },
                CleanupRun::Panicked => SettledCleanup {
                    domain_failed: false,
                    outcome: Err(cleanup_panic_error()),
                },
            },
        }
    }

    /// Cleanup without anything to do.
    pub fn none() -> (settled: Self)
        ensures
            settled@ == (CleanupModel { domain_failed: false, error: None }),
            settled@.valid(),
    {
        SettledCleanup { domain_failed: false, outcome: Ok(()) }
    }

    /// Returns what the settlement observer is told.
    pub fn outcome(&self) -> (outcome: Result<(), EasyConError>)
        ensures
            failure_model(outcome) == self@.error,
    {
        match &self.outcome {
            Ok(()) => Ok(()),
            Err(error) => Err(error.clone()),
        }
    }
}

/// Progress of a claimed terminal transaction.
#[derive(Clone, Copy, Debug, PartialEq, Eq, Structural)]
pub enum ClaimedTerminalState {
    /// The claim is held and not finished yet.
    Held,
    /// The claim is being finished.
    Finishing,
    /// The claim was dropped unfinished: its winner stays fixed.
    Abandoned,
}

/// A claim on an operation's terminal result, as plain values.
#[verifier::ext_equal]
pub struct ClaimedModel {
    pub owner_id: u64,
    pub evidence: SettlementEvidence,
    pub candidate: CandidateModel,
    pub primary: PrimaryModel,
    /// The hooks that wait for the claim to be finished.
    pub held_hooks: Seq<u64>,
    pub held_discarded: Seq<u64>,
    pub state: ClaimedTerminalState,
}

/// The settlement side of an owned operation, as plain values.
#[verifier::ext_equal]
pub struct OwnerModel {
    pub arbiter: ArbiterModel,
    pub owner_task: Option<TaskId>,
    pub handoff_record: Option<(SettlementEvidence, CandidateModel)>,
    pub claimed: Option<ClaimedModel>,
}

/// A terminal transaction whose cleanup is running, as plain values.
pub struct TransactionModel {
    pub primary: PrimaryModel,
    /// The owner that commits, for an owned operation.
    pub owner_id: Option<u64>,
}

/// An operation, as plain values.
#[verifier::ext_equal]
pub struct OperationModel {
    pub id: OperationId,
    pub token: CancellationToken,
    pub deadline_ns: Option<u64>,
    pub state: OperationState,
    pub result: Option<ValueModel>,
    pub error: Option<ErrorModel>,
    pub cancellation_reason: Option<CancellationReason>,
    pub terminal_in_progress: bool,
    pub finishing: Option<TransactionModel>,
    pub owner: Option<OwnerModel>,
}

/// A terminal request on an operation without a settlement owner, as plain values.
pub enum RequestModel {
    Success(ValueModel),
    Failure(ErrorModel),
    Cancellation,
}

impl OperationModel {
    /// A new operation.
    pub open spec fn initial(
        id: OperationId,
        token: CancellationToken,
        deadline_ns: Option<u64>,
        owner: Option<OwnerModel>,
    ) -> OperationModel {
        OperationModel {
            id,
            token,
            deadline_ns,
            state: OperationState::Pending,
            result: None,
            error: None,
            cancellation_reason: None,
            terminal_in_progress: false,
            finishing: None,
            owner,
        }
    }

    /// What callers see.
    pub open spec fn snapshot(self) -> SnapshotModel {
        SnapshotModel {
            state: self.state,
            result: self.result,
            error: self.error,
            cancellation_reason: self.cancellation_reason,
        }
    }

    /// What every operation satisfies.
    pub open spec fn valid(self) -> bool {
        &&& terminal(self.state) ==> !self.terminal_in_progress && self.finishing is None
        &&& self.result is Some <==> self.state == OperationState::Succeeded
        &&& self.error is Some <==> self.state == OperationState::Failed || self.state
            == OperationState::Cancelled
        &&& self.state == OperationState::Cancelling || self.state == OperationState::Cancelled
            ==> self.cancellation_reason is Some
        &&& self.state == OperationState::Cancelled ==> self.error == Some(
            cancellation_error_model(self.cancellation_reason->0),
        )
        &&& self.finishing is Some ==> self.terminal_in_progress
        &&& self.finishing matches Some(transaction) ==> (
        transaction.primary matches PrimaryModel::Cancellation(reason)
            ==> self.cancellation_reason == Some(reason))
        &&& self.owner is None && self.cancellation_reason is Some && !terminal(self.state)
            ==> self.state == OperationState::Cancelling
        &&& self.owner is None ==> (self.terminal_in_progress <==> self.finishing is Some)
        &&& self.owner is None ==> (self.finishing matches Some(transaction)
            ==> transaction.owner_id is None)
        &&& self.owner matches Some(owner) ==> self.owner_valid(owner)
    }

    /// What the settlement side of an owned operation satisfies.
    pub open spec fn owner_valid(self, owner: OwnerModel) -> bool {
        &&& owner.arbiter.valid()
        &&& terminal(self.state) <==> owner.arbiter.committed
        &&& !terminal(self.state) ==> (self.terminal_in_progress <==> owner.arbiter.winner
            is Some)
        &&& owner.claimed matches Some(claimed) ==> {
            &&& projects(claimed.candidate, claimed.primary)
            &&& owner.arbiter.winner == Some(winner_of(claimed.primary))
            &&& claimed.owner_id == owner.arbiter.active_owner
            &&& (claimed.primary matches PrimaryModel::Cancellation(reason)
                ==> self.cancellation_reason == Some(reason))
            &&& !terminal(self.state) ==> (claimed.state == ClaimedTerminalState::Finishing
                <==> self.finishing is Some)
            &&& self.finishing matches Some(transaction) ==> transaction.primary
                == claimed.primary
            &&& terminal(self.state) ==> claimed.state == ClaimedTerminalState::Finishing
            &&& self.state == OperationState::Succeeded ==> (
            self.result matches Some(value) && claimed.primary == PrimaryModel::Success(value))
        }
        &&& self.finishing matches Some(transaction) ==> {
            &&& transaction.owner_id == Some(owner.arbiter.active_owner)
            &&& owner.arbiter.winner == Some(winner_of(transaction.primary))
        }
        &&& self.terminal_in_progress && owner.claimed is None ==> self.finishing is Some
        &&& self.state == OperationState::Cancelling ==> self.terminal_in_progress
        &&& !terminal(self.state) && !self.terminal_in_progress ==> !owner.arbiter.handoff_used
        &&& owner.handoff_record matches Some(record) ==> {
            &&& owner.owner_task is Some
            &&& owner.arbiter.transfer_owner is Some
            &&& !terminal(self.state) && !self.terminal_in_progress ==> self.supports(record)
        }
    }

    /// Whether recorded evidence supports its candidate in the present state.
    pub open spec fn supports(self, record: (SettlementEvidence, CandidateModel)) -> bool {
        primary_of_candidate(record.1, self.state, self.cancellation_reason) matches Some(primary)
            && winner_of(primary) == supported_winner(evidence_kind(record.0))
    }

    // ---- starting ----

    /// The answer to a start.
    pub open spec fn start_outcome(self) -> TransitionOutcome {
        if terminal(self.state) {
            TransitionOutcome::AlreadyTerminal
        } else if !self.terminal_in_progress && self.state == OperationState::Pending {
            TransitionOutcome::Applied
        } else {
            TransitionOutcome::Invalid
        }
    }

    /// The operation after a start.
    pub open spec fn started(self) -> OperationModel {
        if self.start_outcome() == TransitionOutcome::Applied {
            OperationModel { state: OperationState::Running, ..self }
        } else {
            self
        }
    }

    // ---- cancellation intent ----

    /// The answer to a cancellation request. On an owned operation a request is intent alone: it
    /// fixes the reason and wakes the owner.
    pub open spec fn cancel_outcome(self) -> TransitionOutcome {
        if terminal(self.state) {
            TransitionOutcome::AlreadyTerminal
        } else if self.owner is Some {
            if self.cancellation_reason is Some {
                TransitionOutcome::Unchanged
            } else {
                TransitionOutcome::Applied
            }
        } else if self.state == OperationState::Cancelling {
            TransitionOutcome::Unchanged
        } else if self.terminal_in_progress {
            TransitionOutcome::Invalid
        } else {
            TransitionOutcome::Applied
        }
    }

    /// The operation after a cancellation request.
    pub open spec fn cancel_requested(self, reason: CancellationReason) -> OperationModel {
        if self.cancel_outcome() != TransitionOutcome::Applied {
            self
        } else if self.owner is Some {
            OperationModel { cancellation_reason: Some(reason), ..self }
        } else {
            OperationModel {
                state: OperationState::Cancelling,
                cancellation_reason: Some(reason),
                ..self
            }
        }
    }

    // ---- operations without a settlement owner ----

    /// The result that a terminal request projects; none where it is not legal now.
    pub open spec fn requested_primary(self, request: RequestModel) -> Option<PrimaryModel> {
        match request {
            RequestModel::Success(value) => if self.state == OperationState::Running {
                Some(PrimaryModel::Success(value))
            } else {
                None
            },
            RequestModel::Failure(error) => if self.state == OperationState::Pending || self.state
                == OperationState::Running {
                Some(PrimaryModel::Failure(error))
            } else {
                None
            },
            RequestModel::Cancellation => if self.state == OperationState::Cancelling {
                Some(
                    PrimaryModel::Cancellation(
                        match self.cancellation_reason {
                            Some(reason) => reason,
                            None => CancellationReason::Requested,
                        },
                    ),
                )
            } else {
                None
            },
        }
    }

    /// Whether a terminal request starts a terminal transaction.
    pub open spec fn request_begins(self, request: RequestModel) -> bool {
        !terminal(self.state) && self.owner is None && !self.terminal_in_progress
            && self.requested_primary(request) is Some
    }

    /// Whether a strict cleanup failure starts a terminal transaction.
    pub open spec fn strict_begins(self) -> bool {
        !terminal(self.state) && self.owner is None && !self.terminal_in_progress
    }

    /// The operation after a terminal transaction began.
    pub open spec fn begun(self, primary: PrimaryModel) -> OperationModel {
        OperationModel {
            terminal_in_progress: true,
            finishing: Some(TransactionModel { primary, owner_id: None }),
            ..self
        }
    }

    // ---- settlement owners ----

    /// Whether an abandoned claim is taken up again by the owner that made it.
    pub open spec fn claim_recovers(
        self,
        owner_id: u64,
        evidence: SettlementEvidence,
        candidate: CandidateModel,
    ) -> bool {
        !terminal(self.state) && (self.owner matches Some(owner) && (
        owner.claimed matches Some(claimed) && {
            &&& claimed.state == ClaimedTerminalState::Abandoned
            &&& claimed.owner_id == owner_id
            &&& claimed.evidence == evidence
            &&& claimed.candidate == candidate
        }))
    }

    /// Whether a claim fixes the winner.
    pub open spec fn claim_fixes(
        self,
        owner_id: u64,
        evidence: SettlementEvidence,
        candidate: CandidateModel,
    ) -> bool {
        !terminal(self.state) && (self.owner matches Some(owner) && owner.claimed is None && (
        primary_of_candidate(candidate, self.state, self.cancellation_reason) matches Some(primary)
            && owner.arbiter.claim_result(owner_id, evidence_kind(evidence), winner_of(primary))
            == TerminalClaimResult::Claimed))
    }

    /// The answer to a claim.
    pub open spec fn claim_answer(
        self,
        owner_id: u64,
        evidence: SettlementEvidence,
        candidate: CandidateModel,
    ) -> ClaimAnswer {
        if terminal(self.state) {
            ClaimAnswer::Closed
        } else if self.claim_recovers(owner_id, evidence, candidate) || self.claim_fixes(
            owner_id,
            evidence,
            candidate,
        ) {
            ClaimAnswer::Claimed
        } else {
            match self.owner {
                None => ClaimAnswer::Rejected,
                Some(owner) => match owner.claimed {
                    Some(claimed) => if claimed.state == ClaimedTerminalState::Abandoned {
                        ClaimAnswer::Rejected
                    } else {
                        ClaimAnswer::Observe
                    },
                    None => if primary_of_candidate(
                        candidate,
                        self.state,
                        self.cancellation_reason,
                    ) is Some && owner.arbiter.winner is Some {
                        ClaimAnswer::Observe
                    } else {
                        ClaimAnswer::Rejected
                    },
                },
            }
        }
    }

    /// The operation after a claim; `hooks` and `discarded` are what sealing its token set free.
    pub open spec fn after_claim(
        self,
        owner_id: u64,
        evidence: SettlementEvidence,
        candidate: CandidateModel,
        hooks: Seq<u64>,
        discarded: Seq<u64>,
    ) -> OperationModel {
        if self.claim_recovers(owner_id, evidence, candidate) {
            let owner = self.owner->0;
            OperationModel {
                owner: Some(
                    OwnerModel {
                        claimed: Some(
                            ClaimedModel {
                                state: ClaimedTerminalState::Held,
                                ..owner.claimed->0
                            },
                        ),
                        ..owner
                    },
                ),
                ..self
            }
        } else if self.claim_fixes(owner_id, evidence, candidate) {
            let owner = self.owner->0;
            let primary = primary_of_candidate(candidate, self.state, self.cancellation_reason)->0;
            OperationModel {
                state: if primary is Cancellation {
                    OperationState::Cancelling
                } else {
                    self.state
                },
                terminal_in_progress: true,
                owner: Some(
                    OwnerModel {
                        arbiter: owner.arbiter.after(
                            ArbiterStep::Claim {
                                owner: owner_id,
                                evidence: evidence_kind(evidence),
                                winner: winner_of(primary),
                            },
                        ),
                        claimed: Some(
                            ClaimedModel {
                                owner_id,
                                evidence,
                                candidate,
                                primary,
                                held_hooks: hooks,
                                held_discarded: discarded,
                                state: ClaimedTerminalState::Held,
                            },
                        ),
                        ..owner
                    },
                ),
                ..self
            }
        } else {
            self
        }
    }

    /// Whether a held claim starts to finish.
    pub open spec fn finish_begins(self, owner_id: u64) -> bool {
        !terminal(self.state) && (self.owner matches Some(owner) && (
        owner.claimed matches Some(claimed) && claimed.owner_id == owner_id && claimed.state
            == ClaimedTerminalState::Held))
    }

    /// The operation after a claim started to finish.
    pub open spec fn after_finish_begins(self, owner_id: u64) -> OperationModel {
        if self.finish_begins(owner_id) {
            let owner = self.owner->0;
            let claimed = owner.claimed->0;
            OperationModel {
                finishing: Some(
                    TransactionModel { primary: claimed.primary, owner_id: Some(owner_id) },
                ),
                owner: Some(
                    OwnerModel {
                        claimed: Some(
                            ClaimedModel {
                                state: ClaimedTerminalState::Finishing,
                                held_hooks: seq![],
                                held_discarded: seq![],
                                ..claimed
                            },
                        ),
                        ..owner
                    },
                ),
                ..self
            }
        } else {
            self
        }
    }

    /// Whether dropping a claim leaves it abandoned.
    pub open spec fn abandons(self, owner_id: u64) -> bool {
        self.owner matches Some(owner) && (owner.claimed matches Some(claimed) && claimed.owner_id
            == owner_id && claimed.state == ClaimedTerminalState::Held)
    }

    /// The operation after a claim was dropped.
    pub open spec fn after_abandon(self, owner_id: u64) -> OperationModel {
        if self.abandons(owner_id) {
            let owner = self.owner->0;
            OperationModel {
                owner: Some(
                    OwnerModel {
                        claimed: Some(
                            ClaimedModel {
                                state: ClaimedTerminalState::Abandoned,
                                ..owner.claimed->0
                            },
                        ),
                        ..owner
                    },
                ),
                ..self
            }
        } else {
            self
        }
    }

    /// Whether evidence may be recorded for a handoff.
    pub open spec fn may_record(
        self,
        owner_id: u64,
        evidence: SettlementEvidence,
        candidate: CandidateModel,
    ) -> bool {
        !terminal(self.state) && (primary_of_candidate(
            candidate,
            self.state,
            self.cancellation_reason,
        ) matches Some(primary) && winner_of(primary) == supported_winner(evidence_kind(evidence)))
            && (self.owner matches Some(owner) && owner.arbiter.primary_owner == owner_id
            && owner.arbiter.transfer_owner is Some && owner.arbiter.winner is None
            && owner.owner_task is Some)
    }

    /// The answer to recording evidence for a handoff: the first record stands.
    pub open spec fn record_outcome(
        self,
        owner_id: u64,
        evidence: SettlementEvidence,
        candidate: CandidateModel,
    ) -> TransitionOutcome {
        if terminal(self.state) {
            TransitionOutcome::AlreadyTerminal
        } else if !self.may_record(owner_id, evidence, candidate) {
            TransitionOutcome::Invalid
        } else {
            match self.owner->0.handoff_record {
                None => TransitionOutcome::Applied,
                Some(record) => if record == (evidence, candidate) {
                    TransitionOutcome::Unchanged
                } else {
                    TransitionOutcome::Invalid
                },
            }
        }
    }

    /// The operation after evidence was recorded for a handoff.
    pub open spec fn recorded(
        self,
        owner_id: u64,
        evidence: SettlementEvidence,
        candidate: CandidateModel,
    ) -> OperationModel {
        if self.record_outcome(owner_id, evidence, candidate) == TransitionOutcome::Applied {
            OperationModel {
                owner: Some(
                    OwnerModel {
                        handoff_record: Some((evidence, candidate)),
                        ..self.owner->0
                    },
                ),
                ..self
            }
        } else {
            self
        }
    }

    /// Whether a task may be bound as the owner's task.
    pub open spec fn may_bind(self, owner_id: u64) -> bool {
        self.owner matches Some(owner) && owner.arbiter.primary_owner == owner_id
            && owner.owner_task is None
    }

    /// The operation after its owner was bound to a task.
    pub open spec fn bound(self, owner_id: u64, task: TaskId) -> OperationModel {
        if self.may_bind(owner_id) {
            OperationModel {
                owner: Some(OwnerModel { owner_task: Some(task), ..self.owner->0 }),
                ..self
            }
        } else {
            self
        }
    }

    /// The operation after a task was joined: its owner has ended where that was its task.
    pub open spec fn task_joined(self, task: TaskId) -> OperationModel {
        match self.owner {
            Some(owner) => if owner.owner_task == Some(task) {
                OperationModel {
                    owner: Some(
                        OwnerModel {
                            arbiter: owner.arbiter.after(
                                ArbiterStep::MarkJoined { owner: owner.arbiter.primary_owner },
                            ),
                            ..owner
                        },
                    ),
                    ..self
                }
            } else {
                self
            },
            None => self,
        }
    }

    // ---- fallback at Runtime close ----

    /// Whether supervision settles the operation from the recorded evidence.
    pub open spec fn handoff_settles(self) -> bool {
        !terminal(self.state) && !self.terminal_in_progress && (self.owner matches Some(owner) && {
            &&& owner.arbiter.primary_owner_joined
            &&& owner.arbiter.transfer_owner is Some
            &&& owner.handoff_record matches Some(record) && (primary_of_candidate(
                record.1,
                self.state,
                self.cancellation_reason,
            ) matches Some(primary) && owner.arbiter.handoff_allowed(
                owner.arbiter.transfer_owner->0,
            ) && winner_of(primary) == supported_winner(evidence_kind(record.0)))
        })
    }

    /// What supervision does with an operation whose owners have ended.
    pub open spec fn fallback(self) -> OperationFallback {
        if terminal(self.state) {
            OperationFallback::AlreadyTerminal
        } else {
            match self.owner {
                None => OperationFallback::Legacy,
                Some(owner) => if self.terminal_in_progress {
                    if owner.claimed matches Some(claimed) && claimed.state
                        == ClaimedTerminalState::Finishing {
                        OperationFallback::Observe
                    } else {
                        OperationFallback::OwnershipLost
                    }
                } else if self.handoff_settles() {
                    OperationFallback::Settles
                } else {
                    OperationFallback::OwnershipLost
                },
            }
        }
    }

    /// Whether looking for recorded evidence uses it up.
    pub open spec fn fallback_takes_record(self) -> bool {
        !terminal(self.state) && !self.terminal_in_progress && (self.owner matches Some(owner)
            && owner.arbiter.primary_owner_joined && owner.arbiter.transfer_owner is Some)
    }

    /// The operation after supervision looked at it.
    pub open spec fn after_fallback(self) -> OperationModel {
        if self.handoff_settles() {
            let owner = self.owner->0;
            let transfer = owner.arbiter.transfer_owner->0;
            let record = owner.handoff_record->0;
            let primary = primary_of_candidate(record.1, self.state, self.cancellation_reason)->0;
            OperationModel {
                state: if primary is Cancellation {
                    OperationState::Cancelling
                } else {
                    self.state
                },
                terminal_in_progress: true,
                finishing: Some(TransactionModel { primary, owner_id: Some(transfer) }),
                owner: Some(
                    OwnerModel {
                        arbiter: owner.arbiter.after(
                            ArbiterStep::Handoff { transfer_owner: transfer },
                        ).after(
                            ArbiterStep::Claim {
                                owner: transfer,
                                evidence: evidence_kind(record.0),
                                winner: winner_of(primary),
                            },
                        ),
                        handoff_record: None,
                        ..owner
                    },
                ),
                ..self
            }
        } else if self.fallback_takes_record() {
            OperationModel {
                owner: Some(
                    OwnerModel {
                        arbiter: self.after_failed_handoff(),
                        handoff_record: None,
                        ..self.owner->0
                    },
                ),
                ..self
            }
        } else {
            self
        }
    }

    /// The arbitration after a handoff whose evidence did not support its candidate.
    pub open spec fn after_failed_handoff(self) -> ArbiterModel {
        let owner = self.owner->0;
        match owner.handoff_record {
            Some(record) => match primary_of_candidate(
                record.1,
                self.state,
                self.cancellation_reason,
            ) {
                Some(primary) => owner.arbiter.after(
                    ArbiterStep::Handoff { transfer_owner: owner.arbiter.transfer_owner->0 },
                ),
                None => owner.arbiter,
            },
            None => owner.arbiter,
        }
    }

    // ---- commit ----

    /// The answer to a commit.
    pub open spec fn commit_outcome(
        self,
        cleanup: CleanupModel,
        observer_panicked: bool,
    ) -> TransitionOutcome {
        if cleanup.failure(observer_panicked) is Some {
            TransitionOutcome::CleanupFailed
        } else {
            TransitionOutcome::Applied
        }
    }

    /// The operation after its terminal transaction was committed. A failed domain outweighs every
    /// result; success needs a clean cleanup; failure and cancellation stand whatever cleanup did.
    pub open spec fn committed(
        self,
        cleanup: CleanupModel,
        observer_panicked: bool,
    ) -> OperationModel {
        let transaction = self.finishing->0;
        let failure = cleanup.failure(observer_panicked);
        let ended = OperationModel {
            terminal_in_progress: false,
            finishing: None,
            result: None,
            error: None,
            owner: match self.owner {
                Some(owner) => Some(
                    OwnerModel {
                        arbiter: owner.arbiter.after(
                            ArbiterStep::Commit {
                                owner: transaction.owner_id->0,
                                winner: winner_of(transaction.primary),
                            },
                        ),
                        ..owner
                    },
                ),
                None => None,
            },
            ..self
        };
        if cleanup.domain_failed {
            OperationModel { state: OperationState::Failed, error: failure, ..ended }
        } else {
            match transaction.primary {
                PrimaryModel::Success(value) => match failure {
                    None => OperationModel {
                        state: OperationState::Succeeded,
                        result: Some(value),
                        ..ended
                    },
                    Some(error) => OperationModel {
                        state: OperationState::Failed,
                        error: Some(error),
                        ..ended
                    },
                },
                PrimaryModel::Failure(error) => OperationModel {
                    state: OperationState::Failed,
                    error: Some(error),
                    ..ended
                },
                PrimaryModel::Cancellation(reason) => OperationModel {
                    state: OperationState::Cancelled,
                    error: Some(cancellation_error_model(reason)),
                    ..ended
                },
            }
        }
    }
}

/// Whether a result is that of a candidate.
pub open spec fn projects(candidate: CandidateModel, primary: PrimaryModel) -> bool {
    match candidate {
        CandidateModel::Success(value) => primary == PrimaryModel::Success(value),
        CandidateModel::Failure(error) => primary == PrimaryModel::Failure(error),
        CandidateModel::Cancellation => primary is Cancellation,
    }
}

/// Answer to an attempt to fix the winner of an owned terminal transaction.
#[derive(Clone, Copy, Debug, PartialEq, Eq, Structural)]
pub enum ClaimAnswer {
    /// This caller fixed the winner and owns the deferred terminal transaction.
    Claimed,
    /// Another claim already fixed a winner.
    Observe,
    /// The caller or its evidence cannot claim this operation.
    Rejected,
    /// The operation had already committed a terminal state.
    Closed,
}

/// What supervision does with an operation whose owners have ended.
#[derive(Clone, Copy, Debug, PartialEq, Eq, Structural)]
pub enum OperationFallback {
    /// No settlement owner: supervision completes the cancellation.
    Legacy,
    /// Nothing is left to do.
    AlreadyTerminal,
    /// An owner is finishing: its commit is awaited.
    Observe,
    /// Supervision settles the operation from the recorded evidence.
    Settles,
    /// The owner is gone and left nothing to settle from.
    OwnershipLost,
}

struct ClaimedTerminalTransaction {
    owner_id: u64,
    evidence: SettlementEvidence,
    candidate: TerminalCandidate,
    primary: TerminalPrimary,
    hooks: Vec<u64>,
    discarded: Vec<u64>,
    state: ClaimedTerminalState,
}

struct OperationOwnerData {
    arbiter: TerminalArbiterState,
    owner_task: Option<TaskId>,
    handoff_record: Option<(SettlementEvidence, TerminalCandidate)>,
    claimed: Option<ClaimedTerminalTransaction>,
}

struct TerminalTransaction {
    primary: TerminalPrimary,
    owner_id: Option<u64>,
}

/// One supervised operation.
pub struct OperationInner {
    id: OperationId,
    token: CancellationToken,
    deadline_ns: Option<u64>,
    state: OperationState,
    result: Option<OperationValue>,
    error: Option<EasyConError>,
    cancellation_reason: Option<CancellationReason>,
    terminal_in_progress: bool,
    finishing: Option<TerminalTransaction>,
    owner: Option<OperationOwnerData>,
}

spec fn claimed_view(claimed: ClaimedTerminalTransaction) -> ClaimedModel {
    ClaimedModel {
        owner_id: claimed.owner_id,
        evidence: claimed.evidence,
        candidate: claimed.candidate@,
        primary: claimed.primary@,
        held_hooks: claimed.hooks@,
        held_discarded: claimed.discarded@,
        state: claimed.state,
    }
}

spec fn owner_view(owner: OperationOwnerData) -> OwnerModel {
    OwnerModel {
        arbiter: owner.arbiter@,
        owner_task: owner.owner_task,
        handoff_record: match owner.handoff_record {
            Some(record) => Some((record.0, record.1@)),
            None => None,
        },
        claimed: match owner.claimed {
            Some(claimed) => Some(claimed_view(claimed)),
            None => None,
        },
    }
}

impl View for OperationInner {
    type V = OperationModel;

    closed spec fn view(&self) -> OperationModel {
        OperationModel {
            id: self.id,
            token: self.token,
            deadline_ns: self.deadline_ns,
            state: self.state,
            result: value_model(self.result),
            error: error_model(self.error),
            cancellation_reason: self.cancellation_reason,
            terminal_in_progress: self.terminal_in_progress,
            finishing: match self.finishing {
                Some(transaction) => Some(
                    TransactionModel {
                        primary: transaction.primary@,
                        owner_id: transaction.owner_id,
                    },
                ),
                None => None,
            },
            owner: match self.owner {
                Some(owner) => Some(owner_view(owner)),
                None => None,
            },
        }
    }
}

/// A terminal request on an operation without a settlement owner.
pub enum LegacyTerminalRequest {
    Execution(Result<OperationValue, EasyConError>),
    Cancellation,
}

impl View for LegacyTerminalRequest {
    type V = RequestModel;

    open spec fn view(&self) -> RequestModel {
        match self {
            LegacyTerminalRequest::Execution(Ok(value)) => RequestModel::Success(value@),
            LegacyTerminalRequest::Execution(Err(error)) => RequestModel::Failure(error@),
            LegacyTerminalRequest::Cancellation => RequestModel::Cancellation,
        }
    }
}

/// What a cancellation request did.
pub struct CancelRequest {
    pub outcome: TransitionOutcome,
    /// Whether the public state changed, so that it has to be published before hooks run.
    pub publish: bool,
    /// The hooks that the cancelled token set free, for an applied request.
    pub propagation: Option<CancellationPropagation>,
}

/// What a terminal request on an operation without a settlement owner did.
pub enum LegacyStart {
    /// Nothing: the answer is final.
    Rejected(TransitionOutcome),
    /// Another terminal transaction is running: the answer comes with its commit.
    Observe,
    /// A terminal transaction began; run these hooks, then cleanup, then commit.
    Begun(CancellationPropagation),
}

/// What supervision found.
pub enum FallbackStart {
    /// No settlement owner: supervision completes the cancellation.
    Legacy,
    /// Nothing is left to do.
    AlreadyTerminal,
    /// An owner is finishing: its commit is awaited.
    Observe,
    /// The owner is gone and left nothing to settle from.
    OwnershipLost,
    /// A terminal transaction began from the recorded evidence; run these hooks, then cleanup, then
    /// commit. The flag says that the cancellation has to be published first.
    Begun(CancellationPropagation, bool),
}

/// The hooks that ending token `id` runs.
pub open spec fn ending_hooks(tree: Seq<NodeModel>, id: int) -> Seq<u64> {
    released_hooks(tree, children_order(tree, id, tree[id].children.len()))
}

/// The hooks that ending token `id` drops.
pub open spec fn ending_discards(tree: Seq<NodeModel>, id: int) -> Seq<u64> {
    hook_ids(tree[id].hooks) + dropped_hooks(
        tree,
        children_order(tree, id, tree[id].children.len()),
    )
}

impl OperationInner {
    /// Creates a pending operation without a settlement owner.
    pub fn new(
        id: OperationId,
        token: CancellationToken,
        deadline_ns: Option<u64>,
    ) -> (operation: Self)
        ensures
            operation@ == OperationModel::initial(id, token, deadline_ns, None),
            operation@.valid(),
    {
        OperationInner {
            id,
            token,
            deadline_ns,
            state: OperationState::Pending,
            result: None,
            error: None,
            cancellation_reason: None,
            terminal_in_progress: false,
            finishing: None,
            owner: None,
        }
    }

    /// Creates a pending operation that only its settlement owner may end.
    pub fn new_owned(
        id: OperationId,
        token: CancellationToken,
        deadline_ns: Option<u64>,
        owner_id: u64,
        transfer_owner_id: Option<u64>,
    ) -> (operation: Self)
        ensures
            operation@ == OperationModel::initial(
                id,
                token,
                deadline_ns,
                Some(
                    OwnerModel {
                        arbiter: ArbiterModel::initial(owner_id, transfer_owner_id),
                        owner_task: None,
                        handoff_record: None,
                        claimed: None,
                    },
                ),
            ),
            operation@.valid(),
    {
        OperationInner {
            id,
            token,
            deadline_ns,
            state: OperationState::Pending,
            result: None,
            error: None,
            cancellation_reason: None,
            terminal_in_progress: false,
            finishing: None,
            owner: Some(
                OperationOwnerData {
                    arbiter: TerminalArbiterState::new(owner_id, transfer_owner_id),
                    owner_task: None,
                    handoff_record: None,
                    claimed: None,
                },
            ),
        }
    }

    /// Returns the Runtime-local operation identifier.
    pub fn id(&self) -> (id: OperationId)
        ensures
            id == self@.id,
    {
        self.id
    }

    /// Returns the optional absolute execution deadline.
    pub fn deadline_ns(&self) -> (deadline_ns: Option<u64>)
        ensures
            deadline_ns == self@.deadline_ns,
    {
        self.deadline_ns
    }

    /// Returns the operation's cancellation token.
    pub fn cancellation_token(&self) -> (token: CancellationToken)
        ensures
            token == self@.token,
    {
        self.token
    }

    /// Returns the operation's state.
    pub fn state(&self) -> (state: OperationState)
        ensures
            state == self@.state,
    {
        self.state
    }

    /// Returns whether the operation has a settlement owner.
    pub fn is_owned(&self) -> (owned: bool)
        ensures
            owned == (self@.owner is Some),
    {
        self.owner.is_some()
    }

    /// Admits a pending operation; an applied start has to be published.
    pub fn transition_running(&mut self) -> (outcome: TransitionOutcome)
        requires
            old(self)@.valid(),
        ensures
            final(self)@.valid(),
            outcome == old(self)@.start_outcome(),
            final(self)@ == old(self)@.started(),
    {
        if self.state.is_terminal() {
            return TransitionOutcome::AlreadyTerminal;
        }
        if self.terminal_in_progress {
            return TransitionOutcome::Invalid;
        }
        match self.state {
            OperationState::Pending => {
                self.state = OperationState::Running;
                TransitionOutcome::Applied
            },
            _ => TransitionOutcome::Invalid,
        }
    }

    /// Records the first cancellation cause and cancels the operation's token. Without a settlement
    /// owner the operation starts to cancel; with one, the request stays intent.
    pub fn request_cancel(
        &mut self,
        tree: &mut CancellationTree,
        reason: CancellationReason,
    ) -> (request: CancelRequest)
        requires
            old(self)@.valid(),
            old(tree).valid(),
            old(tree).holds(old(self)@.token),
        ensures
            final(self)@.valid(),
            final(tree).valid(),
            final(tree).scopes() == old(tree).scopes(),
            request.outcome == old(self)@.cancel_outcome(),
            final(self)@ == old(self)@.cancel_requested(reason),
            request.publish == (request.outcome == TransitionOutcome::Applied && old(self)@.owner
                is None),
            request.propagation is Some <==> request.outcome == TransitionOutcome::Applied,
            request.propagation is None ==> final(tree)@ == old(tree)@,
            request.propagation matches Some(propagation) ==> {
                let id = old(self)@.token.node as int;
                &&& final(tree)@ == cancelled_tree(old(tree)@, id)
                &&& propagation.hooks@ == released_hooks(
                    old(tree)@,
                    cancel_order(old(tree)@, id),
                )
                &&& propagation.discarded@ == dropped_hooks(
                    old(tree)@,
                    cancel_order(old(tree)@, id),
                )
            },
    {
        if self.state.is_terminal() {
            return CancelRequest {
                outcome: TransitionOutcome::AlreadyTerminal,
                publish: false,
                propagation: None,
            };
        }
        if self.owner.is_some() {
            if self.cancellation_reason.is_some() {
                return CancelRequest {
                    outcome: TransitionOutcome::Unchanged,
                    publish: false,
                    propagation: None,
                };
            }
            self.cancellation_reason = Some(reason);
            let propagation = self.token.cancel(tree);
            return CancelRequest {
                outcome: TransitionOutcome::Applied,
                publish: false,
                propagation: Some(propagation),
            };
        }
        if self.state == OperationState::Cancelling {
            return CancelRequest {
                outcome: TransitionOutcome::Unchanged,
                publish: false,
                propagation: None,
            };
        }
        if self.terminal_in_progress {
            return CancelRequest {
                outcome: TransitionOutcome::Invalid,
                publish: false,
                propagation: None,
            };
        }
        self.state = OperationState::Cancelling;
        self.cancellation_reason = Some(reason);
        let propagation = self.token.cancel(tree);
        CancelRequest {
            outcome: TransitionOutcome::Applied,
            publish: true,
            propagation: Some(propagation),
        }
    }

    /// Takes the news that the operation's token was cancelled from above; true where the public
    /// state changed. The token's subtree is sealed already.
    pub fn observe_parent_close(&mut self) -> (publish: bool)
        requires
            old(self)@.valid(),
        ensures
            final(self)@.valid(),
            final(self)@ == old(self)@.cancel_requested(CancellationReason::ParentClose),
            publish == (final(self)@.state != old(self)@.state),
    {
        if self.state.is_terminal() {
            return false;
        }
        if self.owner.is_some() {
            if self.cancellation_reason.is_none() {
                self.cancellation_reason = Some(CancellationReason::ParentClose);
            }
            return false;
        }
        if self.terminal_in_progress || self.state == OperationState::Cancelling {
            return false;
        }
        self.state = OperationState::Cancelling;
        self.cancellation_reason = Some(CancellationReason::ParentClose);
        true
    }

    /// Starts to commit a result on an operation without a settlement owner.
    pub fn begin_legacy(
        &mut self,
        tree: &mut CancellationTree,
        request: LegacyTerminalRequest,
    ) -> (start: LegacyStart)
        requires
            old(self)@.valid(),
            old(tree).valid(),
            old(tree).holds(old(self)@.token),
        ensures
            final(self)@.valid(),
            final(tree).valid(),
            final(tree).scopes() == old(tree).scopes(),
            start is Begun <==> old(self)@.request_begins(request@),
            start is Observe <==> !terminal(old(self)@.state) && old(self)@.owner is None && old(
                self,
            )@.terminal_in_progress,
            start matches LegacyStart::Rejected(outcome) ==> outcome == if terminal(
                old(self)@.state,
            ) {
                TransitionOutcome::AlreadyTerminal
            } else {
                TransitionOutcome::Invalid
            },
            start !is Begun ==> final(self)@ == old(self)@ && final(tree)@ == old(tree)@,
            start matches LegacyStart::Begun(propagation) ==> {
                let id = old(self)@.token.node as int;
                &&& final(self)@ == old(self)@.begun(old(self)@.requested_primary(request@)->0)
                &&& final(tree)@ == ended_tree(old(tree)@, id)
                &&& propagation.hooks@ == ending_hooks(old(tree)@, id)
                &&& propagation.discarded@ == ending_discards(old(tree)@, id)
            },
    {
        if self.state.is_terminal() {
            return LegacyStart::Rejected(TransitionOutcome::AlreadyTerminal);
        }
        if self.owner.is_some() {
            return LegacyStart::Rejected(TransitionOutcome::Invalid);
        }
        if self.terminal_in_progress {
            return LegacyStart::Observe;
        }
        let state = self.state;
        let primary = match request {
            LegacyTerminalRequest::Execution(Ok(value)) => {
                if state != OperationState::Running {
                    return LegacyStart::Rejected(TransitionOutcome::Invalid);
                }
                TerminalPrimary::Success(value)
            },
            LegacyTerminalRequest::Execution(Err(error)) => {
                if state != OperationState::Running && state != OperationState::Pending {
                    return LegacyStart::Rejected(TransitionOutcome::Invalid);
                }
                TerminalPrimary::Failure(error)
            },
            LegacyTerminalRequest::Cancellation => {
                if state != OperationState::Cancelling {
                    return LegacyStart::Rejected(TransitionOutcome::Invalid);
                }
                let reason = match self.cancellation_reason {
                    Some(reason) => reason,
                    None => CancellationReason::Requested,
                };
                TerminalPrimary::Cancellation(reason)
            },
        };
        LegacyStart::Begun(self.begin(tree, primary))
    }

    /// Starts to commit a proven cleanup failure, even where cancellation was requested.
    pub fn begin_strict_cleanup_failure(
        &mut self,
        tree: &mut CancellationTree,
        error: EasyConError,
    ) -> (start: LegacyStart)
        requires
            old(self)@.valid(),
            old(tree).valid(),
            old(tree).holds(old(self)@.token),
        ensures
            final(self)@.valid(),
            final(tree).valid(),
            final(tree).scopes() == old(tree).scopes(),
            start is Begun <==> old(self)@.strict_begins(),
            start !is Observe,
            start matches LegacyStart::Rejected(outcome) ==> outcome == if terminal(
                old(self)@.state,
            ) {
                TransitionOutcome::AlreadyTerminal
            } else {
                TransitionOutcome::Invalid
            },
            start !is Begun ==> final(self)@ == old(self)@ && final(tree)@ == old(tree)@,
            start matches LegacyStart::Begun(propagation) ==> {
                let id = old(self)@.token.node as int;
                &&& final(self)@ == old(self)@.begun(PrimaryModel::Failure(error@))
                &&& final(tree)@ == ended_tree(old(tree)@, id)
                &&& propagation.hooks@ == ending_hooks(old(tree)@, id)
                &&& propagation.discarded@ == ending_discards(old(tree)@, id)
            },
    {
        if self.state.is_terminal() {
            return LegacyStart::Rejected(TransitionOutcome::AlreadyTerminal);
        }
        if self.owner.is_some() || self.terminal_in_progress {
            return LegacyStart::Rejected(TransitionOutcome::Invalid);
        }
        LegacyStart::Begun(self.begin(tree, TerminalPrimary::Failure(error)))
    }

    fn begin(&mut self, tree: &mut CancellationTree, primary: TerminalPrimary) -> (propagation:
        CancellationPropagation)
        requires
            old(self)@.valid(),
            old(self)@.owner is None,
            !terminal(old(self)@.state),
            !old(self)@.terminal_in_progress,
            primary@ matches PrimaryModel::Cancellation(reason) ==> old(self)@.cancellation_reason
                == Some(reason),
            old(tree).valid(),
            old(tree).holds(old(self)@.token),
        ensures
            final(self)@.valid(),
            final(self)@ == old(self)@.begun(primary@),
            final(tree).valid(),
            final(tree).scopes() == old(tree).scopes(),
            final(tree)@ == ended_tree(old(tree)@, old(self)@.token.node as int),
            propagation.hooks@ == ending_hooks(old(tree)@, old(self)@.token.node as int),
            propagation.discarded@ == ending_discards(old(tree)@, old(self)@.token.node as int),
    {
        self.terminal_in_progress = true;
        self.finishing = Some(TerminalTransaction { primary, owner_id: None });
        self.token.deactivate(tree)
    }

    /// Tries to fix the winner of an owned operation, without committing it.
    ///
    /// A fixed winner seals the operation's token; the hooks set free wait until the claim is
    /// finished. Where the winner is a cancellation, the answer's flag says that the new public
    /// state has to be published.
    pub fn claim_owned(
        &mut self,
        tree: &mut CancellationTree,
        owner_id: u64,
        evidence: SettlementEvidence,
        candidate: TerminalCandidate,
    ) -> (claim: (ClaimAnswer, bool))
        requires
            old(self)@.valid(),
            old(tree).valid(),
            old(tree).holds(old(self)@.token),
        ensures
            final(self)@.valid(),
            final(tree).valid(),
            final(tree).scopes() == old(tree).scopes(),
            claim.0 == old(self)@.claim_answer(owner_id, evidence, candidate@),
            final(self)@ == old(self)@.after_claim(
                owner_id,
                evidence,
                candidate@,
                ending_hooks(old(tree)@, old(self)@.token.node as int),
                ending_discards(old(tree)@, old(self)@.token.node as int),
            ),
            final(tree)@ == if old(self)@.claim_fixes(owner_id, evidence, candidate@) {
                ended_tree(old(tree)@, old(self)@.token.node as int)
            } else {
                old(tree)@
            },
            claim.1 == (final(self)@.state != old(self)@.state),
    {
        if self.state.is_terminal() {
            return (ClaimAnswer::Closed, false);
        }
        let ghost before = self@;
        let state = self.state;
        let reason = self.cancellation_reason;
        match &mut self.owner {
            None => {
                return (ClaimAnswer::Rejected, false);
            },
            Some(owner) => {
                if let Some(claimed) = &mut owner.claimed {
                    return match claimed.state {
                        ClaimedTerminalState::Abandoned => {
                            if claimed.owner_id == owner_id && claimed.evidence == evidence
                                && claimed.candidate.same_as(&candidate) {
                                // The winner is already fixed: only this very claim is taken up.
                                claimed.state = ClaimedTerminalState::Held;
                                (ClaimAnswer::Claimed, false)
                            } else {
                                (ClaimAnswer::Rejected, false)
                            }
                        },
                        ClaimedTerminalState::Finishing => (ClaimAnswer::Observe, false),
                        ClaimedTerminalState::Held => (ClaimAnswer::Observe, false),
                    };
                }
                let primary = match primary_from_candidate(candidate.clone(), state, reason) {
                    Some(primary) => primary,
                    None => {
                        return (ClaimAnswer::Rejected, false);
                    },
                };
                let winner = primary.winner_kind();
                match owner.arbiter.claim(owner_id, evidence.kind(), winner) {
                    TerminalClaimResult::Claimed => {},
                    TerminalClaimResult::Observe => {
                        return (ClaimAnswer::Observe, false);
                    },
                    _ => {
                        return (ClaimAnswer::Rejected, false);
                    },
                }
                let cancellation: bool = winner == TerminalWinnerKind::Cancellation;
                let propagation = self.token.deactivate(tree);
                owner.claimed = Some(
                    ClaimedTerminalTransaction {
                        owner_id,
                        evidence,
                        candidate,
                        primary,
                        hooks: propagation.hooks,
                        discarded: propagation.discarded,
                        state: ClaimedTerminalState::Held,
                    },
                );
                self.terminal_in_progress = true;
                if cancellation {
                    self.state = OperationState::Cancelling;
                }
                (ClaimAnswer::Claimed, cancellation)
            },
        }
    }

    /// Starts to finish a held claim, and hands back the hooks that waited for it.
    pub fn finish_claimed(&mut self, owner_id: u64) -> (start: LegacyStart)
        requires
            old(self)@.valid(),
        ensures
            final(self)@.valid(),
            start is Begun <==> old(self)@.finish_begins(owner_id),
            start !is Observe,
            start matches LegacyStart::Rejected(outcome) ==> outcome == if terminal(
                old(self)@.state,
            ) {
                TransitionOutcome::AlreadyTerminal
            } else {
                TransitionOutcome::Invalid
            },
            final(self)@ == old(self)@.after_finish_begins(owner_id),
            start matches LegacyStart::Begun(propagation) ==> propagation.hooks@
                == old(self)@.owner->0.claimed->0.held_hooks && propagation.discarded@ == old(
                self,
            )@.owner->0.claimed->0.held_discarded,
    {
        if self.state.is_terminal() {
            return LegacyStart::Rejected(TransitionOutcome::AlreadyTerminal);
        }
        match &mut self.owner {
            None => LegacyStart::Rejected(TransitionOutcome::Invalid),
            Some(owner) => match &mut owner.claimed {
                None => LegacyStart::Rejected(TransitionOutcome::Invalid),
                Some(claimed) => {
                    if claimed.owner_id != owner_id || claimed.state
                        != ClaimedTerminalState::Held {
                        return LegacyStart::Rejected(TransitionOutcome::Invalid);
                    }
                    claimed.state = ClaimedTerminalState::Finishing;
                    let primary = claimed.primary.clone();
                    let mut hooks: Vec<u64> = Vec::new();
                    let mut discarded: Vec<u64> = Vec::new();
                    std::mem::swap(&mut hooks, &mut claimed.hooks);
                    std::mem::swap(&mut discarded, &mut claimed.discarded);
                    self.finishing = Some(
                        TerminalTransaction { primary, owner_id: Some(owner_id) },
                    );
                    LegacyStart::Begun(CancellationPropagation { hooks, discarded })
                },
            },
        }
    }

    /// Drops a held claim: its winner stays fixed, and observers are to be told.
    pub fn abandon_claimed(&mut self, owner_id: u64) -> (notify: bool)
        requires
            old(self)@.valid(),
        ensures
            final(self)@.valid(),
            notify == old(self)@.abandons(owner_id),
            final(self)@ == old(self)@.after_abandon(owner_id),
    {
        match &mut self.owner {
            None => false,
            Some(owner) => match &mut owner.claimed {
                None => false,
                Some(claimed) => {
                    if claimed.owner_id != owner_id || claimed.state
                        != ClaimedTerminalState::Held {
                        return false;
                    }
                    claimed.state = ClaimedTerminalState::Abandoned;
                    true
                },
            },
        }
    }
}

impl OperationInner {
    /// Stores evidence from which supervision may settle after the owner's task was joined.
    pub fn record_for_handoff(
        &mut self,
        owner_id: u64,
        evidence: SettlementEvidence,
        candidate: TerminalCandidate,
    ) -> (outcome: TransitionOutcome)
        requires
            old(self)@.valid(),
        ensures
            final(self)@.valid(),
            outcome == old(self)@.record_outcome(owner_id, evidence, candidate@),
            final(self)@ == old(self)@.recorded(owner_id, evidence, candidate@),
    {
        if self.state.is_terminal() {
            return TransitionOutcome::AlreadyTerminal;
        }
        let primary = match primary_from_candidate(
            candidate.clone(),
            self.state,
            self.cancellation_reason,
        ) {
            Some(primary) => primary,
            None => {
                return TransitionOutcome::Invalid;
            },
        };
        if !evidence_allows_winner(evidence.kind(), primary.winner_kind()) {
            return TransitionOutcome::Invalid;
        }
        match &mut self.owner {
            None => TransitionOutcome::Invalid,
            Some(owner) => {
                if owner.arbiter.primary_owner() != owner_id
                    || owner.arbiter.transfer_owner().is_none() || owner.arbiter.winner().is_some()
                    || owner.owner_task.is_none() {
                    return TransitionOutcome::Invalid;
                }
                if let Some(existing) = &owner.handoff_record {
                    return if existing.0 == evidence && existing.1.same_as(&candidate) {
                        TransitionOutcome::Unchanged
                    } else {
                        TransitionOutcome::Invalid
                    };
                }
                owner.handoff_record = Some((evidence, candidate));
                TransitionOutcome::Applied
            },
        }
    }

    /// Binds the settlement owner to the task that runs it; once only.
    pub fn bind_owner_task(&mut self, owner_id: u64, task: TaskId) -> (done: bool)
        requires
            old(self)@.valid(),
        ensures
            final(self)@.valid(),
            done == old(self)@.may_bind(owner_id),
            final(self)@ == old(self)@.bound(owner_id, task),
    {
        match &mut self.owner {
            None => false,
            Some(owner) => {
                if owner.arbiter.primary_owner() != owner_id || owner.owner_task.is_some() {
                    return false;
                }
                owner.owner_task = Some(task);
                true
            },
        }
    }

    /// Records that a task was joined; the owner has ended where that was its task.
    pub fn mark_owner_task_joined(&mut self, task: TaskId)
        requires
            old(self)@.valid(),
        ensures
            final(self)@.valid(),
            final(self)@ == old(self)@.task_joined(task),
    {
        if let Some(owner) = &mut self.owner {
            let bound: bool = match owner.owner_task {
                Some(bound) => bound.0 == task.0,
                None => false,
            };
            if bound {
                let primary_owner: u64 = owner.arbiter.primary_owner();
                let _ = owner.arbiter.mark_primary_owner_joined(primary_owner);
            }
        }
    }

    /// Decides what supervision does with the operation once its owners have ended, and starts to
    /// settle it where the owner shared its evidence.
    pub fn settle_after_owner_join(&mut self, tree: &mut CancellationTree) -> (start: FallbackStart)
        requires
            old(self)@.valid(),
            old(tree).valid(),
            old(tree).holds(old(self)@.token),
        ensures
            final(self)@.valid(),
            final(tree).valid(),
            final(tree).scopes() == old(tree).scopes(),
            start is Legacy <==> old(self)@.fallback() == OperationFallback::Legacy,
            start is AlreadyTerminal <==> old(self)@.fallback()
                == OperationFallback::AlreadyTerminal,
            start is Observe <==> old(self)@.fallback() == OperationFallback::Observe,
            start is OwnershipLost <==> old(self)@.fallback() == OperationFallback::OwnershipLost,
            start is Begun <==> old(self)@.fallback() == OperationFallback::Settles,
            final(self)@ == old(self)@.after_fallback(),
            start !is Begun ==> final(tree)@ == old(tree)@,
            start matches FallbackStart::Begun(propagation, publish) ==> {
                let id = old(self)@.token.node as int;
                &&& final(tree)@ == ended_tree(old(tree)@, id)
                &&& propagation.hooks@ == ending_hooks(old(tree)@, id)
                &&& propagation.discarded@ == ending_discards(old(tree)@, id)
                &&& publish == (final(self)@.state != old(self)@.state)
            },
    {
        if self.state.is_terminal() {
            return FallbackStart::AlreadyTerminal;
        }
        let state = self.state;
        let reason = self.cancellation_reason;
        let in_progress: bool = self.terminal_in_progress;
        match &mut self.owner {
            None => FallbackStart::Legacy,
            Some(owner) => {
                if in_progress {
                    return match &owner.claimed {
                        // A legitimate owner already runs its commit: only observe it.
                        Some(claimed) => if claimed.state == ClaimedTerminalState::Finishing {
                            FallbackStart::Observe
                        } else {
                            FallbackStart::OwnershipLost
                        },
                        None => FallbackStart::OwnershipLost,
                    };
                }
                if !owner.arbiter.primary_owner_joined() {
                    return FallbackStart::OwnershipLost;
                }
                let transfer_owner: u64 = match owner.arbiter.transfer_owner() {
                    Some(transfer_owner) => transfer_owner,
                    None => {
                        return FallbackStart::OwnershipLost;
                    },
                };
                let (evidence, candidate) = match owner.handoff_record.take() {
                    Some(record) => record,
                    None => {
                        return FallbackStart::OwnershipLost;
                    },
                };
                let primary = match primary_from_candidate(candidate, state, reason) {
                    Some(primary) => primary,
                    None => {
                        return FallbackStart::OwnershipLost;
                    },
                };
                let winner = primary.winner_kind();
                if !owner.arbiter.handoff(transfer_owner) {
                    return FallbackStart::OwnershipLost;
                }
                if owner.arbiter.claim(transfer_owner, evidence.kind(), winner)
                    != TerminalClaimResult::Claimed {
                    return FallbackStart::OwnershipLost;
                }
                self.terminal_in_progress = true;
                let publish: bool = winner == TerminalWinnerKind::Cancellation;
                if publish {
                    self.state = OperationState::Cancelling;
                }
                self.finishing = Some(
                    TerminalTransaction { primary, owner_id: Some(transfer_owner) },
                );
                let propagation = self.token.deactivate(tree);
                FallbackStart::Begun(propagation, publish)
            },
        }
    }

    /// Commits the running terminal transaction with the result of its cleanup.
    ///
    /// The new state has to be published, the operation removed from its registry, and then its
    /// waiters woken.
    pub fn finish_claimed_terminal(
        &mut self,
        cleanup: SettledCleanup,
        observer_panicked: bool,
    ) -> (outcome: TransitionOutcome)
        requires
            old(self)@.valid(),
            old(self)@.finishing is Some,
            cleanup@.valid(),
        ensures
            final(self)@.valid(),
            terminal(final(self)@.state),
            outcome == old(self)@.commit_outcome(cleanup@, observer_panicked),
            final(self)@ == old(self)@.committed(cleanup@, observer_panicked),
    {
        let domain_failed: bool = cleanup.domain_failed;
        let mut failure: Option<EasyConError> = match cleanup.outcome {
            Ok(()) => None,
            Err(error) => Some(error),
        };
        if observer_panicked && failure.is_none() {
            failure = Some(cleanup_settlement_panic_error());
        }
        let outcome = if failure.is_some() {
            TransitionOutcome::CleanupFailed
        } else {
            TransitionOutcome::Applied
        };
        if let Some(transaction) = self.finishing.take() {
            if let Some(owner) = &mut self.owner {
                if let Some(owner_id) = transaction.owner_id {
                    let _ = owner.arbiter.commit(owner_id, transaction.primary.winner_kind());
                }
            }
            self.terminal_in_progress = false;
            self.result = None;
            self.error = None;
            if domain_failed {
                self.state = OperationState::Failed;
                self.error = failure;
            } else {
                match transaction.primary {
                    TerminalPrimary::Success(value) => match failure {
                        None => {
                            self.state = OperationState::Succeeded;
                            self.result = Some(value);
                        },
                        Some(error) => {
                            self.state = OperationState::Failed;
                            self.error = Some(error);
                        },
                    },
                    TerminalPrimary::Failure(error) => {
                        self.state = OperationState::Failed;
                        self.error = Some(error);
                    },
                    TerminalPrimary::Cancellation(reason) => {
                        self.state = OperationState::Cancelled;
                        self.error = Some(cancellation_error(reason));
                    },
                }
            }
        }
        outcome
    }

    /// Returns whether a terminal transaction waits for its commit.
    pub fn is_finishing(&self) -> (finishing: bool)
        ensures
            finishing == (self@.finishing is Some),
    {
        self.finishing.is_some()
    }

    /// Returns authoritative state without changing the operation.
    pub fn snapshot(&self) -> (snapshot: OperationSnapshot)
        ensures
            snapshot@ == self@.snapshot(),
    {
        let result = match &self.result {
            Some(value) => Some(value.clone()),
            None => None,
        };
        let error = match &self.error {
            Some(error) => Some(error.clone()),
            None => None,
        };
        OperationSnapshot {
            state: self.state,
            result,
            error,
            cancellation_reason: self.cancellation_reason,
        }
    }

    /// Looks once for the terminal state on behalf of a call that waits at most `wait`; a timeout
    /// never affects the operation.
    pub fn wait(&self, wait: WaitTimeout, elapsed_ns: u128, timed_out: bool) -> (look: Look<
        WaitResult,
    >)
        ensures
            terminal(self@.state) ==> (look matches Look::Done(WaitResult::Completed(snapshot))
                && snapshot@ == self@.snapshot()),
            !terminal(self@.state) ==> look == idle_look(
                wait,
                elapsed_ns,
                timed_out,
                WaitResult::Timeout,
            ),
    {
        if self.state.is_terminal() {
            return Look::Done(WaitResult::Completed(self.snapshot()));
        }
        look_again(wait, elapsed_ns, timed_out, WaitResult::Timeout)
    }
}

/// One call on an operation.
pub enum OperationStep {
    Start,
    RequestCancel { reason: CancellationReason },
    Request { request: RequestModel },
    StrictFailure { error: ErrorModel },
    Claim {
        owner_id: u64,
        evidence: SettlementEvidence,
        candidate: CandidateModel,
        hooks: Seq<u64>,
        discarded: Seq<u64>,
    },
    Finish { owner_id: u64 },
    Abandon { owner_id: u64 },
    Record { owner_id: u64, evidence: SettlementEvidence, candidate: CandidateModel },
    Bind { owner_id: u64, task: TaskId },
    TaskJoined { task: TaskId },
    Fallback,
    Commit { cleanup: CleanupModel, observer_panicked: bool },
}

impl OperationModel {
    /// Whether the call can be made: a commit needs a running transaction and settled cleanup.
    pub open spec fn can(self, step: OperationStep) -> bool {
        match step {
            OperationStep::Commit { cleanup, observer_panicked } => self.finishing is Some
                && cleanup.valid(),
            _ => true,
        }
    }

    /// The operation after one call.
    pub open spec fn after(self, step: OperationStep) -> OperationModel {
        match step {
            OperationStep::Start => self.started(),
            OperationStep::RequestCancel { reason } => self.cancel_requested(reason),
            OperationStep::Request { request } => if self.request_begins(request) {
                self.begun(self.requested_primary(request)->0)
            } else {
                self
            },
            OperationStep::StrictFailure { error } => if self.strict_begins() {
                self.begun(PrimaryModel::Failure(error))
            } else {
                self
            },
            OperationStep::Claim { owner_id, evidence, candidate, hooks, discarded } =>
                self.after_claim(owner_id, evidence, candidate, hooks, discarded),
            OperationStep::Finish { owner_id } => self.after_finish_begins(owner_id),
            OperationStep::Abandon { owner_id } => self.after_abandon(owner_id),
            OperationStep::Record { owner_id, evidence, candidate } => self.recorded(
                owner_id,
                evidence,
                candidate,
            ),
            OperationStep::Bind { owner_id, task } => self.bound(owner_id, task),
            OperationStep::TaskJoined { task } => self.task_joined(task),
            OperationStep::Fallback => self.after_fallback(),
            OperationStep::Commit { cleanup, observer_panicked } => self.committed(
                cleanup,
                observer_panicked,
            ),
        }
    }

    /// Whether a sequence of calls can be made, each after those before it.
    pub open spec fn can_all(self, steps: Seq<OperationStep>) -> bool
        decreases steps.len(),
    {
        steps.len() == 0 || (self.can_all(steps.drop_last()) && self.after_all(
            steps.drop_last(),
        ).can(steps.last()))
    }

    /// The operation after a sequence of calls.
    pub open spec fn after_all(self, steps: Seq<OperationStep>) -> OperationModel
        decreases steps.len(),
    {
        if steps.len() == 0 {
            self
        } else {
            self.after_all(steps.drop_last()).after(steps.last())
        }
    }
}

/// Whatever is called on an operation, it stays valid: a result stands only with success and an
/// error only with failure or cancellation, a cancelled operation carries the error of its first
/// cancellation cause, and an owned operation is terminal exactly when its arbiter committed.
pub proof fn law_operation_stays_valid(operation: OperationModel, steps: Seq<OperationStep>)
    requires
        operation.valid(),
        operation.can_all(steps),
    ensures
        operation.after_all(steps).valid(),
    decreases steps.len(),
{
    if steps.len() > 0 {
        law_operation_stays_valid(operation, steps.drop_last());
    }
}

/// A terminal operation never changes what callers see, whatever is called on it.
pub proof fn law_terminal_state_is_immutable(operation: OperationModel, steps: Seq<OperationStep>)
    requires
        operation.valid(),
        terminal(operation.state),
        operation.can_all(steps),
    ensures
        operation.after_all(steps).snapshot() == operation.snapshot(),
        operation.after_all(steps).valid(),
    decreases steps.len(),
{
    if steps.len() > 0 {
        law_terminal_state_is_immutable(operation, steps.drop_last());
        law_operation_stays_valid(operation, steps);
    }
}

/// The first cancellation cause stands for good.
pub proof fn law_first_cancellation_cause_stands(
    operation: OperationModel,
    steps: Seq<OperationStep>,
)
    requires
        operation.valid(),
        operation.cancellation_reason is Some,
        operation.can_all(steps),
    ensures
        operation.after_all(steps).cancellation_reason == operation.cancellation_reason,
    decreases steps.len(),
{
    if steps.len() > 0 {
        law_first_cancellation_cause_stands(operation, steps.drop_last());
        law_operation_stays_valid(operation, steps.drop_last());
    }
}

/// A terminal transaction that began ends with the result it began with, or with a failure where
/// cleanup failed: no later request, claim or cancellation replaces it.
pub proof fn law_running_transaction_is_not_replaced(
    operation: OperationModel,
    step: OperationStep,
)
    requires
        operation.valid(),
        operation.finishing is Some,
        !(step is Commit),
    ensures
        operation.after(step).finishing == operation.finishing,
        operation.after(step).state == operation.state,
{
}

/// Only a commit ends an operation.
pub proof fn law_only_commit_ends_an_operation(operation: OperationModel, step: OperationStep)
    requires
        operation.valid(),
        operation.can(step),
        !terminal(operation.state),
        terminal(operation.after(step).state),
    ensures
        step is Commit,
{
}

/// Cancelling is idempotent: while the operation has not ended, a second request changes nothing
/// and says so.
pub proof fn law_cancel_request_is_idempotent(
    operation: OperationModel,
    first: CancellationReason,
    second: CancellationReason,
)
    requires
        operation.valid(),
        operation.cancel_outcome() == TransitionOutcome::Applied,
    ensures
        operation.cancel_requested(first).cancel_outcome() == TransitionOutcome::Unchanged,
        operation.cancel_requested(first).cancel_requested(second) == operation.cancel_requested(
            first,
        ),
{
}

/// Cancellation intent alone settles nothing on an owned operation: its owner can still commit an
/// accepted effect as success.
pub proof fn law_intent_does_not_override_accepted_evidence(
    operation: OperationModel,
    reason: CancellationReason,
    owner_id: u64,
    value: ValueModel,
)
    requires
        operation.valid(),
        operation.state == OperationState::Running,
        operation.claim_fixes(
            owner_id,
            SettlementEvidence::EffectAccepted,
            CandidateModel::Success(value),
        ),
    ensures
        operation.cancel_requested(reason).state == OperationState::Running,
        operation.cancel_requested(reason).claim_fixes(
            owner_id,
            SettlementEvidence::EffectAccepted,
            CandidateModel::Success(value),
        ),
{
}

/// Only its settlement owner ends an owned operation: plain terminal requests are refused and change
/// nothing.
pub proof fn law_owned_operation_refuses_plain_requests(
    operation: OperationModel,
    request: RequestModel,
    error: ErrorModel,
)
    requires
        operation.owner is Some,
    ensures
        !operation.request_begins(request),
        !operation.strict_begins(),
        operation.after(OperationStep::Request { request }) == operation,
        operation.after(OperationStep::StrictFailure { error }) == operation,
{
}

/// An abandoned claim keeps its winner: only the owner that made it takes it up again, with the very
/// same evidence and candidate, and everybody else is refused.
pub proof fn law_abandoned_claim_keeps_its_winner(
    operation: OperationModel,
    owner_id: u64,
    evidence: SettlementEvidence,
    candidate: CandidateModel,
)
    requires
        operation.valid(),
        !terminal(operation.state),
        operation.owner is Some,
        operation.owner->0.claimed is Some,
        operation.owner->0.claimed->0.state == ClaimedTerminalState::Abandoned,
    ensures
        ({
            let claimed = operation.owner->0.claimed->0;
            operation.claim_answer(owner_id, evidence, candidate) == if claimed.owner_id
                == owner_id && claimed.evidence == evidence && claimed.candidate == candidate {
                ClaimAnswer::Claimed
            } else {
                ClaimAnswer::Rejected
            }
        }),
        forall|hooks: Seq<u64>, discarded: Seq<u64>|
            (#[trigger] operation.after_claim(
                owner_id,
                evidence,
                candidate,
                hooks,
                discarded,
            )).owner->0.arbiter == operation.owner->0.arbiter,
{
}

/// Whether an operation holds the same claim as before: its owner, evidence, candidate and winner.
pub open spec fn same_claim(before: OperationModel, after: OperationModel) -> bool {
    &&& before.owner matches Some(first) && (first.claimed matches Some(claim) && (
    after.owner matches Some(second) && (second.claimed matches Some(kept) && {
        &&& kept.owner_id == claim.owner_id
        &&& kept.evidence == claim.evidence
        &&& kept.candidate == claim.candidate
        &&& kept.primary == claim.primary
    })))
}

/// A claim is made once: whatever is called afterwards, in whatever order, the operation keeps it.
/// While it is held or being finished every further claim is left to observe it; while it is
/// abandoned only its owner takes it up, with the very same evidence and candidate; once the
/// operation has ended every claim is closed, and a success carries the claimed value.
pub proof fn law_claim_is_kept_through_every_course(
    operation: OperationModel,
    steps: Seq<OperationStep>,
    owner_id: u64,
    evidence: SettlementEvidence,
    candidate: CandidateModel,
)
    requires
        operation.valid(),
        operation.owner is Some,
        operation.owner->0.claimed is Some,
        operation.can_all(steps),
    ensures
        ({
            let end = operation.after_all(steps);
            let claim = operation.owner->0.claimed->0;
            let kept = end.owner->0.claimed->0;
            &&& end.valid()
            &&& same_claim(operation, end)
            &&& end.claim_answer(owner_id, evidence, candidate) == if terminal(end.state) {
                ClaimAnswer::Closed
            } else if kept.state != ClaimedTerminalState::Abandoned {
                ClaimAnswer::Observe
            } else if owner_id == claim.owner_id && evidence == claim.evidence && candidate
                == claim.candidate {
                ClaimAnswer::Claimed
            } else {
                ClaimAnswer::Rejected
            }
            &&& end.state == OperationState::Succeeded ==> (end.result matches Some(value)
                && claim.primary == PrimaryModel::Success(value))
        }),
    decreases steps.len(),
{
    if steps.len() > 0 {
        let rest = steps.drop_last();
        law_claim_is_kept_through_every_course(operation, rest, owner_id, evidence, candidate);
        law_operation_stays_valid(operation, steps);
    }
}

impl OperationModel {
    /// The operation after its claim was dropped and taken up again, a number of times.
    pub open spec fn reclaimed(
        self,
        owner_id: u64,
        evidence: SettlementEvidence,
        candidate: CandidateModel,
        rounds: nat,
    ) -> OperationModel
        decreases rounds,
    {
        if rounds == 0 {
            self
        } else {
            self.reclaimed(owner_id, evidence, candidate, (rounds - 1) as nat).after_abandon(
                owner_id,
            ).after_claim(owner_id, evidence, candidate, seq![], seq![])
        }
    }
}

/// The course of a claim: once made it may be dropped and taken up again any number of times with
/// nothing changed; a dropped claim leaves what callers see as it was; and when it is finished with
/// cleanup that did not fail, the operation ends with the claimed result.
pub proof fn law_course_of_a_claim(
    operation: OperationModel,
    owner_id: u64,
    evidence: SettlementEvidence,
    candidate: CandidateModel,
    hooks: Seq<u64>,
    discarded: Seq<u64>,
    rounds: nat,
)
    requires
        operation.valid(),
        operation.claim_answer(owner_id, evidence, candidate) == ClaimAnswer::Claimed,
    ensures
        ({
            let held = operation.after_claim(owner_id, evidence, candidate, hooks, discarded);
            let again = held.reclaimed(owner_id, evidence, candidate, rounds);
            let dropped = again.after_abandon(owner_id);
            let ended = again.after_finish_begins(owner_id).committed(
                CleanupModel { domain_failed: false, error: None },
                false,
            );
            &&& again == held
            &&& dropped.snapshot() == held.snapshot()
            &&& dropped.claim_answer(owner_id, evidence, candidate) == ClaimAnswer::Claimed
            &&& again.finish_begins(owner_id)
            &&& candidate matches CandidateModel::Success(value) ==> held.snapshot()
                == operation.snapshot() && ended.state == OperationState::Succeeded
                && ended.result == Some(value)
            &&& candidate matches CandidateModel::Failure(error) ==> ended.state
                == OperationState::Failed && ended.error == Some(error)
            &&& candidate is Cancellation ==> ended.state == OperationState::Cancelled
            &&& ended.claim_answer(owner_id, evidence, candidate) == ClaimAnswer::Closed
        }),
    decreases rounds,
{
    let held = operation.after_claim(owner_id, evidence, candidate, hooks, discarded);
    if rounds > 0 {
        law_course_of_a_claim(
            operation,
            owner_id,
            evidence,
            candidate,
            hooks,
            discarded,
            (rounds - 1) as nat,
        );
        assert(held.reclaimed(owner_id, evidence, candidate, rounds) =~= held);
    }
    let claim = OperationStep::Claim { owner_id, evidence, candidate, hooks, discarded };
    assert(held.valid()) by {
        let steps = seq![claim];
        assert(steps.drop_last() =~= Seq::<OperationStep>::empty());
        assert(operation.after_all(steps.drop_last()) == operation);
        assert(operation.can_all(steps.drop_last()));
        law_operation_stays_valid(operation, steps);
    }
}

/// Evidence that an owner recorded for a handoff can still be settled: once the owner's task was
/// joined, supervision settles the operation from it.
pub proof fn law_recorded_handoff_settles(operation: OperationModel, steps: Seq<OperationStep>)
    requires
        operation.valid(),
        operation.can_all(steps),
        ({
            let now = operation.after_all(steps);
            &&& !terminal(now.state) && !now.terminal_in_progress
            &&& now.owner is Some
            &&& now.owner->0.handoff_record is Some
            &&& now.owner->0.arbiter.primary_owner_joined
        }),
    ensures
        operation.after_all(steps).handoff_settles(),
        operation.after_all(steps).fallback() == OperationFallback::Settles,
{
    law_operation_stays_valid(operation, steps);
}

/// Supervision settles an operation only after its owner was joined, and only from evidence that the
/// owner shared; otherwise it leaves the operation as it is, unfinished.
pub proof fn law_fallback_never_invents_a_result(operation: OperationModel)
    requires
        operation.valid(),
        operation.owner is Some,
        !terminal(operation.state),
    ensures
        operation.fallback() == OperationFallback::Settles ==> operation.owner->0.handoff_record
            is Some && operation.owner->0.arbiter.primary_owner_joined,
        operation.fallback() == OperationFallback::OwnershipLost
            ==> operation.after_fallback().snapshot() == operation.snapshot(),
        operation.fallback() != OperationFallback::Legacy,
{
}

} // verus!
