//! What one operation promises of each request, stated over its public states.

use crate::cancellation::laws::law_own_hooks_run_before_those_below;
use crate::cancellation::{
    active_hooks, cancel_order, released_hooks, tree_valid, CancellationToken, NodeModel,
};
use crate::event::{EventClass, EventKind, Severity};
use crate::model::{ErrorCode, ErrorModel, OperationId, TaskId};
use crate::operation::{
    cancellation_error_model, cleanup_panic_model, ending_discards, ending_hooks,
    settlement_panic_model, state_code_of, state_draft_of, CancellationReason, CandidateModel,
    ClaimAnswer, ClaimedTerminalState, CleanupModel, OperationFallback, OperationModel,
    OperationState, OwnerModel, PrimaryModel, RequestModel, SettlementEvidence, TransitionOutcome,
    ValueModel,
};
use vstd::prelude::*;

verus! {

/// Whether nothing of an operation but its state and its cause of cancellation differs.
pub open spec fn differs_in_state_alone(one: OperationModel, other: OperationModel) -> bool {
    &&& one.id == other.id
    &&& one.token == other.token
    &&& one.deadline_ns == other.deadline_ns
    &&& one.result == other.result
    &&& one.error == other.error
    &&& one.terminal_in_progress == other.terminal_in_progress
    &&& one.finishing == other.finishing
    &&& one.owner == other.owner
}

/// A pending operation that is not about to end starts to run; nothing else starts, and what does
/// not start stays as it is.
pub proof fn law_only_pending_operations_start(operation: OperationModel)
    ensures
        operation.state == OperationState::Pending && !operation.terminal_in_progress ==> {
            &&& operation.start_outcome() == TransitionOutcome::Applied
            &&& operation.started().state == OperationState::Running
            &&& operation.started().cancellation_reason == operation.cancellation_reason
            &&& differs_in_state_alone(operation, operation.started())
        },
        operation.state == OperationState::Succeeded || operation.state == OperationState::Failed
            || operation.state == OperationState::Cancelled ==> operation.start_outcome()
            == TransitionOutcome::AlreadyTerminal && operation.started() == operation,
        operation.state == OperationState::Running || operation.state == OperationState::Cancelling
            || (operation.state == OperationState::Pending && operation.terminal_in_progress)
            ==> operation.start_outcome() == TransitionOutcome::Invalid && operation.started()
            == operation,
{
}

/// A request to cancel takes hold of every operation that has not ended, is not about to, and was
/// not cancelled before. Without a settlement owner the operation is seen to cancel; an owned one
/// keeps its state, and its owner learns the cause.
pub proof fn law_cancellation_takes_hold(operation: OperationModel, reason: CancellationReason)
    requires
        operation.valid(),
    ensures
        ({
            let after = operation.cancel_requested(reason);
            let outcome = operation.cancel_outcome();
            &&& differs_in_state_alone(operation, after)
            &&& operation.owner is None && !operation.terminal_in_progress && (operation.state
                == OperationState::Pending || operation.state == OperationState::Running)
                ==> outcome == TransitionOutcome::Applied && after.state
                == OperationState::Cancelling && after.cancellation_reason == Some(reason)
            &&& operation.owner is None && operation.terminal_in_progress && (operation.state
                == OperationState::Pending || operation.state == OperationState::Running)
                ==> outcome == TransitionOutcome::Invalid && after == operation
            &&& operation.owner is None && operation.state == OperationState::Cancelling ==> outcome
                == TransitionOutcome::Unchanged && after == operation
            &&& operation.owner is Some && operation.cancellation_reason is None && (operation.state
                == OperationState::Pending || operation.state == OperationState::Running)
                ==> outcome == TransitionOutcome::Applied && after.state == operation.state
                && after.cancellation_reason == Some(reason)
            &&& operation.owner is Some && operation.cancellation_reason is Some && (operation.state
                == OperationState::Pending || operation.state == OperationState::Running
                || operation.state == OperationState::Cancelling) ==> outcome
                == TransitionOutcome::Unchanged && after == operation
            &&& operation.state == OperationState::Succeeded || operation.state
                == OperationState::Failed || operation.state == OperationState::Cancelled
                ==> outcome == TransitionOutcome::AlreadyTerminal && after == operation
        }),
{
}

/// A request to end an operation without an owner is legal in the states it belongs to: success
/// while it runs, failure before it is cancelled, cancellation while it cancels; and not twice.
pub proof fn law_requests_end_the_states_they_belong_to(
    operation: OperationModel,
    value: ValueModel,
    error: ErrorModel,
)
    requires
        operation.valid(),
    ensures
        ({
            let free = operation.owner is None && !operation.terminal_in_progress;
            &&& operation.request_begins(RequestModel::Success(value)) <==> free && operation.state
                == OperationState::Running
            &&& operation.request_begins(RequestModel::Failure(error)) <==> free && (operation.state
                == OperationState::Pending || operation.state == OperationState::Running)
            &&& operation.request_begins(RequestModel::Cancellation) <==> free && operation.state
                == OperationState::Cancelling
            &&& operation.strict_begins() <==> free && (operation.state == OperationState::Pending
                || operation.state == OperationState::Running || operation.state
                == OperationState::Cancelling)
        }),
        operation.state == OperationState::Running ==> operation.requested_primary(
            RequestModel::Success(value),
        ) == Some(PrimaryModel::Success(value)),
        operation.state == OperationState::Running ==> operation.requested_primary(
            RequestModel::Failure(error),
        ) == Some(PrimaryModel::Failure(error)),
        operation.state == OperationState::Cancelling ==> (operation.requested_primary(
            RequestModel::Cancellation,
        ) matches Some(PrimaryModel::Cancellation(reason)) && operation.cancellation_reason
            == Some(reason)),
{
}

/// What a committed operation shows. A failed domain makes it fail with the domain's error. Without
/// one, a success whose cleanup went well succeeds with its value, and one whose cleanup failed, or
/// whose observer panicked, fails; a failure keeps its error and a cancellation its cause, whatever
/// cleanup did. Nothing is left in progress.
pub proof fn law_commit_shows_the_result(
    operation: OperationModel,
    cleanup: CleanupModel,
    observer_panicked: bool,
)
    requires
        operation.valid(),
        operation.finishing is Some,
        cleanup.domain_failed ==> cleanup.error is Some,
    ensures
        ({
            let after = operation.committed(cleanup, observer_panicked);
            let clean = cleanup.error is None && !observer_panicked;
            &&& !after.terminal_in_progress
            &&& after.finishing is None
            &&& after.id == operation.id
            &&& after.token == operation.token
            &&& after.deadline_ns == operation.deadline_ns
            &&& after.cancellation_reason == operation.cancellation_reason
            &&& cleanup.domain_failed ==> after.state == OperationState::Failed && after.error
                == cleanup.error && after.result is None
            &&& !cleanup.domain_failed ==> match operation.finishing->0.primary {
                PrimaryModel::Success(value) => if clean {
                    after.state == OperationState::Succeeded && after.result == Some(value)
                        && after.error is None
                } else {
                    after.state == OperationState::Failed && after.result is None && after.error
                        is Some && (cleanup.error is Some ==> after.error == cleanup.error)
                },
                PrimaryModel::Failure(error) => after.state == OperationState::Failed && after.error
                    == Some(error) && after.result is None,
                PrimaryModel::Cancellation(reason) => after.state == OperationState::Cancelled
                    && after.result is None && (after.error matches Some(error) && (error.code
                    == ErrorCode::DeadlineExceeded <==> reason == CancellationReason::Deadline) && (
                error.code == ErrorCode::Cancelled <==> reason != CancellationReason::Deadline)),
            }
            &&& operation.commit_outcome(cleanup, observer_panicked) == if clean {
                TransitionOutcome::Applied
            } else {
                TransitionOutcome::CleanupFailed
            }
        }),
{
}

/// A missed deadline is told apart from every other cause of cancellation, each cause in words of
/// its own.
pub proof fn law_causes_of_cancellation_are_told_apart(
    one: CancellationReason,
    other: CancellationReason,
)
    ensures
        cancellation_error_model(CancellationReason::Deadline).code == ErrorCode::DeadlineExceeded,
        cancellation_error_model(CancellationReason::Requested).code == ErrorCode::Cancelled,
        cancellation_error_model(CancellationReason::ParentClose).code == ErrorCode::Cancelled,
        one != other ==> cancellation_error_model(one) != cancellation_error_model(other),
{
    reveal_strlit("operation cancelled");
    reveal_strlit("parent operation, resource, or Runtime ended");
    assert("operation cancelled"@.len() != "parent operation, resource, or Runtime ended"@.len());
}

/// Every change of state is announced as critical and with the operation's own number, an end as
/// terminal, and only a failure as an error. No two states have the same code.
pub proof fn law_states_are_announced(
    state: OperationState,
    other: OperationState,
    id: OperationId,
)
    ensures
        state_draft_of(state, id).class == EventClass::Critical,
        state_draft_of(state, id).operation_id == Some(id),
        state_draft_of(state, id).resource_id is None,
        state_draft_of(state, id).kind == EventKind::Terminal <==> state
            == OperationState::Succeeded || state == OperationState::Failed || state
            == OperationState::Cancelled,
        state_draft_of(state, id).kind == EventKind::State <==> state == OperationState::Pending
            || state == OperationState::Running || state == OperationState::Cancelling,
        state_draft_of(state, id).severity == Severity::Error <==> state == OperationState::Failed,
        state_draft_of(state, id).severity == Severity::Info <==> state != OperationState::Failed,
        state_draft_of(state, id).code == state_code_of(state),
        state_code_of(OperationState::Pending) == "runtime.operation.pending",
        state_code_of(OperationState::Running) == "runtime.operation.running",
        state_code_of(OperationState::Cancelling) == "runtime.operation.cancelling",
        state_code_of(OperationState::Succeeded) == "runtime.operation.succeeded",
        state_code_of(OperationState::Failed) == "runtime.operation.failed",
        state_code_of(OperationState::Cancelled) == "runtime.operation.cancelled",
{
}

/// What evidence can show: an accepted effect a success, an undelivered one a cancellation, a
/// failed execution a failure. A claim that fixes the winner rests on such evidence, comes from the
/// owner that may settle, and finds the operation undecided.
pub proof fn law_claim_rests_on_evidence(
    operation: OperationModel,
    owner_id: u64,
    evidence: SettlementEvidence,
    candidate: CandidateModel,
)
    requires
        operation.valid(),
        operation.claim_fixes(owner_id, evidence, candidate),
    ensures
        candidate is Success <==> evidence == SettlementEvidence::EffectAccepted,
        candidate is Cancellation <==> evidence == SettlementEvidence::NotDelivered,
        candidate is Failure <==> evidence == SettlementEvidence::ExecutionFailed,
        candidate is Success ==> operation.state == OperationState::Running,
        candidate is Cancellation ==> operation.cancellation_reason is Some,
        operation.state == OperationState::Pending || operation.state == OperationState::Running,
        operation.owner is Some,
        operation.owner->0.arbiter.active_owner == owner_id,
        operation.owner->0.arbiter.winner is None,
        operation.owner->0.claimed is None,
{
}

/// A claim that rests on evidence is granted to the owner that may settle, once: it holds what it
/// was given, seals the operation, and shows a cancellation at once.
pub proof fn law_evidence_wins_the_claim(
    operation: OperationModel,
    evidence: SettlementEvidence,
    candidate: CandidateModel,
    hooks: Seq<u64>,
    discarded: Seq<u64>,
)
    requires
        operation.valid(),
        operation.owner is Some,
        operation.owner->0.claimed is None,
        operation.owner->0.arbiter.winner is None,
        !operation.terminal_in_progress,
        match candidate {
            CandidateModel::Success(_) => evidence == SettlementEvidence::EffectAccepted
                && operation.state == OperationState::Running,
            CandidateModel::Failure(_) => evidence == SettlementEvidence::ExecutionFailed && (
            operation.state == OperationState::Pending || operation.state
                == OperationState::Running),
            CandidateModel::Cancellation => evidence == SettlementEvidence::NotDelivered && (
            operation.state == OperationState::Pending || operation.state
                == OperationState::Running) && operation.cancellation_reason is Some,
        },
    ensures
        ({
            let owner_id = operation.owner->0.arbiter.active_owner;
            let after = operation.after_claim(owner_id, evidence, candidate, hooks, discarded);
            &&& operation.claim_answer(owner_id, evidence, candidate) == ClaimAnswer::Claimed
            &&& after.terminal_in_progress
            &&& after.state == if candidate is Cancellation {
                OperationState::Cancelling
            } else {
                operation.state
            }
            &&& after.owner matches Some(owner) && owner.claimed matches Some(claimed) && {
                &&& claimed.owner_id == owner_id
                &&& claimed.evidence == evidence
                &&& claimed.candidate == candidate
                &&& claimed.held_hooks == hooks
                &&& claimed.held_discarded == discarded
                &&& claimed.state == ClaimedTerminalState::Held
                &&& match (candidate, claimed.primary) {
                    (
                        CandidateModel::Success(value),
                        PrimaryModel::Success(shown),
                    ) => value == shown,
                    (
                        CandidateModel::Failure(error),
                        PrimaryModel::Failure(shown),
                    ) => error == shown,
                    (
                        CandidateModel::Cancellation,
                        PrimaryModel::Cancellation(reason),
                    ) => operation.cancellation_reason == Some(reason),
                    _ => false,
                }
            }
            &&& forall|other: u64, later: SettlementEvidence, second: CandidateModel|
                #[trigger] after.claim_answer(other, later, second) == ClaimAnswer::Observe
        }),
{
}

/// Nobody but the owner that may settle is granted a claim, and none without the evidence for it:
/// such a claim changes nothing.
pub proof fn law_unsupported_claim_changes_nothing(
    operation: OperationModel,
    owner_id: u64,
    evidence: SettlementEvidence,
    candidate: CandidateModel,
    hooks: Seq<u64>,
    discarded: Seq<u64>,
)
    requires
        operation.valid(),
        operation.owner is Some,
        operation.owner->0.claimed is None,
        owner_id != operation.owner->0.arbiter.active_owner || match candidate {
            CandidateModel::Success(_) => evidence != SettlementEvidence::EffectAccepted,
            CandidateModel::Failure(_) => evidence != SettlementEvidence::ExecutionFailed,
            CandidateModel::Cancellation => evidence != SettlementEvidence::NotDelivered,
        },
    ensures
        operation.claim_answer(owner_id, evidence, candidate) != ClaimAnswer::Claimed,
        operation.after_claim(owner_id, evidence, candidate, hooks, discarded) == operation,
{
}

/// A held claim finishes for the owner that made it and for nobody else, with the result that it
/// fixed; dropped before, it is left to that owner to take up again.
pub proof fn law_held_claim_finishes_for_its_owner(operation: OperationModel, owner_id: u64)
    requires
        operation.valid(),
        operation.owner is Some,
        operation.owner->0.claimed is Some,
        operation.state == OperationState::Pending || operation.state == OperationState::Running
            || operation.state == OperationState::Cancelling,
        operation.owner->0.claimed->0.state == ClaimedTerminalState::Held,
    ensures
        ({
            let claimed = operation.owner->0.claimed->0;
            let finishing = operation.after_finish_begins(owner_id);
            let dropped = operation.after_abandon(owner_id);
            &&& operation.finish_begins(owner_id) <==> claimed.owner_id == owner_id
            &&& operation.abandons(owner_id) <==> claimed.owner_id == owner_id
            &&& claimed.owner_id != owner_id ==> finishing == operation && dropped == operation
            &&& claimed.owner_id == owner_id ==> {
                &&& finishing.finishing matches Some(transaction) && transaction.primary
                    == claimed.primary && transaction.owner_id == Some(owner_id)
                &&& finishing.owner->0.claimed->0.state == ClaimedTerminalState::Finishing
                &&& finishing.owner->0.claimed->0.held_hooks.len() == 0
                &&& finishing.owner->0.claimed->0.held_discarded.len() == 0
                &&& finishing.state == operation.state
                &&& dropped.owner->0.claimed->0.state == ClaimedTerminalState::Abandoned
                &&& dropped.owner->0.claimed->0.primary == claimed.primary
                &&& dropped.owner->0.claimed->0.held_hooks == claimed.held_hooks
                &&& dropped.owner->0.claimed->0.held_discarded == claimed.held_discarded
                &&& dropped.finishing == operation.finishing
                &&& dropped.claim_answer(owner_id, claimed.evidence, claimed.candidate)
                    == ClaimAnswer::Claimed
            }
        }),
{
}

/// A claim that is being finished, or was dropped, neither begins to finish nor is dropped again.
pub proof fn law_only_held_claims_move(operation: OperationModel, owner_id: u64)
    requires
        operation.owner is Some,
        operation.owner->0.claimed is None || operation.owner->0.claimed->0.state
            != ClaimedTerminalState::Held,
    ensures
        !operation.finish_begins(owner_id),
        !operation.abandons(owner_id),
        operation.after_finish_begins(owner_id) == operation,
        operation.after_abandon(owner_id) == operation,
{
}

/// Evidence for a handoff is recorded by the first owner, once, while nothing is decided, its task
/// is bound, and a second owner is named; the same evidence again changes nothing.
pub proof fn law_handoff_evidence_is_recorded_once(
    operation: OperationModel,
    owner_id: u64,
    evidence: SettlementEvidence,
    candidate: CandidateModel,
)
    requires
        operation.valid(),
        operation.owner is Some,
        operation.record_outcome(owner_id, evidence, candidate) == TransitionOutcome::Applied,
    ensures
        operation.owner->0.arbiter.primary_owner == owner_id,
        operation.owner->0.arbiter.transfer_owner is Some,
        operation.owner->0.arbiter.winner is None,
        operation.owner->0.owner_task is Some,
        operation.owner->0.handoff_record is None,
        candidate is Success <==> evidence == SettlementEvidence::EffectAccepted,
        candidate is Cancellation <==> evidence == SettlementEvidence::NotDelivered,
        candidate is Failure <==> evidence == SettlementEvidence::ExecutionFailed,
        ({
            let after = operation.recorded(owner_id, evidence, candidate);
            &&& after.owner matches Some(owner) && owner.handoff_record == Some(
                (evidence, candidate),
            ) && owner.arbiter == operation.owner->0.arbiter && owner.owner_task
                == operation.owner->0.owner_task && owner.claimed == operation.owner->0.claimed
            &&& after.state == operation.state
            &&& after.record_outcome(owner_id, evidence, candidate) == TransitionOutcome::Unchanged
            &&& after.recorded(owner_id, evidence, candidate) == after
        }),
{
}

/// Recorded evidence stands: other evidence, or the same for another result, is refused and changes
/// nothing.
pub proof fn law_recorded_evidence_stands(
    operation: OperationModel,
    owner_id: u64,
    evidence: SettlementEvidence,
    candidate: CandidateModel,
)
    requires
        operation.valid(),
        operation.owner is Some,
        operation.owner->0.handoff_record is Some,
        operation.owner->0.handoff_record != Some((evidence, candidate)),
        operation.state == OperationState::Pending || operation.state == OperationState::Running
            || operation.state == OperationState::Cancelling,
    ensures
        operation.record_outcome(owner_id, evidence, candidate) == TransitionOutcome::Invalid,
        operation.recorded(owner_id, evidence, candidate) == operation,
{
}

/// A task is bound to the first owner, once; when that task is joined, and no other, the owner is
/// known to have ended.
pub proof fn law_bound_task_speaks_for_its_owner(
    operation: OperationModel,
    owner_id: u64,
    task: TaskId,
    other: TaskId,
)
    requires
        operation.owner is Some,
    ensures
        operation.may_bind(owner_id) <==> operation.owner->0.arbiter.primary_owner == owner_id
            && operation.owner->0.owner_task is None,
        operation.may_bind(owner_id) ==> operation.bound(owner_id, task).owner->0.owner_task
            == Some(task) && !operation.bound(owner_id, task).may_bind(owner_id),
        !operation.may_bind(owner_id) ==> operation.bound(owner_id, task) == operation,
        operation.owner->0.owner_task == Some(task) ==> operation.task_joined(
            task,
        ).owner->0.arbiter.primary_owner_joined,
        operation.owner->0.owner_task != Some(task) ==> operation.task_joined(task) == operation,
        operation.task_joined(task).state == operation.state,
        operation.task_joined(task).owner->0.owner_task == operation.owner->0.owner_task,
{
}

/// What supervision does with an operation at close: one that ended is left alone, one without an
/// owner is told to fail or cancel by its own rules, one that its owner finishes is observed; one
/// whose owner ended behind recorded evidence is settled by it, and any other is lost.
pub proof fn law_supervision_tells_operations_apart(operation: OperationModel)
    requires
        operation.valid(),
    ensures
        operation.fallback() == OperationFallback::AlreadyTerminal <==> operation.state
            == OperationState::Succeeded || operation.state == OperationState::Failed
            || operation.state == OperationState::Cancelled,
        operation.fallback() == OperationFallback::Legacy <==> operation.owner is None && (
        operation.state == OperationState::Pending || operation.state == OperationState::Running
            || operation.state == OperationState::Cancelling),
        operation.fallback() == OperationFallback::Settles ==> {
            let owner = operation.owner->0;
            let record = owner.handoff_record->0;
            let after = operation.after_fallback();
            &&& owner.arbiter.primary_owner_joined
            &&& owner.handoff_record is Some
            &&& owner.arbiter.winner is None
            &&& after.terminal_in_progress
            &&& after.finishing matches Some(transaction) && transaction.owner_id
                == owner.arbiter.transfer_owner && match (
                record.1,
                transaction.primary,
            ) {
                (CandidateModel::Success(value), PrimaryModel::Success(shown)) => value == shown,
                (CandidateModel::Failure(error), PrimaryModel::Failure(shown)) => error == shown,
                (
                    CandidateModel::Cancellation,
                    PrimaryModel::Cancellation(reason),
                ) => operation.cancellation_reason == Some(reason) && after.state
                    == OperationState::Cancelling,
                _ => false,
            }
            &&& after.owner->0.handoff_record is None
            &&& after.owner->0.arbiter.winner is Some
            &&& after.owner->0.arbiter.handoff_used
        },
        operation.fallback() == OperationFallback::Observe ==> operation.finishing is Some
            && operation.after_fallback() == operation,
{
}

/// Ending a token runs the active hooks of the tokens below it and none of its own; its own hooks
/// are all given back, and so are the released ones below it.
pub proof fn law_ending_gives_back_its_own_hooks(tree: Seq<NodeModel>, id: int, k: int)
    requires
        tree_valid(tree),
        0 <= id < tree.len(),
        0 <= k < tree[id].hooks.len(),
    ensures
        ending_discards(tree, id)[k] == tree[id].hooks[k].hook,
        ending_discards(tree, id).len() >= tree[id].hooks.len(),
        tree[id].active && !tree[id].cancelled ==> released_hooks(tree, cancel_order(tree, id))
            == active_hooks(tree[id].hooks) + ending_hooks(tree, id),
{
    law_own_hooks_run_before_those_below(tree, id);
}

/// A cleanup that panicked, and an observer that did, fail as internal, each in words of its own.
/// The error of a cleanup comes before the panic of its observer.
pub proof fn law_panics_of_cleanup_are_internal(cleanup: CleanupModel)
    ensures
        cleanup_panic_model().code == ErrorCode::Internal,
        settlement_panic_model().code == ErrorCode::Internal,
        cleanup_panic_model().message == "operation owner cleanup panicked"@,
        settlement_panic_model().message == "operation cleanup settlement observer panicked"@,
        cleanup.failure(false) == cleanup.error,
        cleanup.error is Some ==> cleanup.failure(true) == cleanup.error,
        cleanup.error is None ==> (cleanup.failure(true) matches Some(error) && error.code
            == ErrorCode::Internal && error.message
            == "operation cleanup settlement observer panicked"@),
{
}

/// A new operation has nothing but its number, its token, its deadline and its owner.
pub proof fn law_new_operation_has_no_past(
    id: OperationId,
    token: CancellationToken,
    deadline_ns: Option<u64>,
    owner: Option<OwnerModel>,
)
    ensures
        ({
            let operation = OperationModel::initial(id, token, deadline_ns, owner);
            &&& operation.id == id
            &&& operation.token == token
            &&& operation.deadline_ns == deadline_ns
            &&& operation.owner == owner
            &&& operation.state == OperationState::Pending
            &&& operation.snapshot().state == OperationState::Pending
            &&& operation.snapshot().result is None && operation.snapshot().error is None
                && operation.snapshot().cancellation_reason is None
            &&& !operation.terminal_in_progress && operation.finishing is None
        }),
{
}

/// A snapshot shows the state, the result, the error and the cause of cancellation as they are.
pub proof fn law_snapshot_shows_the_operation(operation: OperationModel)
    ensures
        operation.snapshot().state == operation.state,
        operation.snapshot().result == operation.result,
        operation.snapshot().error == operation.error,
        operation.snapshot().cancellation_reason == operation.cancellation_reason,
{
}

} // verus!
