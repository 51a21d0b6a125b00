//! What arbitration and task lives promise of each of their steps.

use crate::concurrency::{
    admission_steps, supported_winner, AdmissionEvent, ArbiterModel, ArbiterStep, TaskHandleState,
    TaskModel, TaskStep, TerminalClaimResult, TerminalEvidenceKind, TerminalWinnerKind,
};
use vstd::prelude::*;

verus! {

/// Evidence supports exactly one kind of end.
pub proof fn law_evidence_supports_one_end(winner: TerminalWinnerKind)
    ensures
        supported_winner(TerminalEvidenceKind::EffectAccepted) == winner <==> winner
            == TerminalWinnerKind::Success,
        supported_winner(TerminalEvidenceKind::NotDelivered) == winner <==> winner
            == TerminalWinnerKind::Cancellation,
        supported_winner(TerminalEvidenceKind::ExecutionFailed) == winner <==> winner
            == TerminalWinnerKind::Failure,
{
}

/// The owner that may settle claims an undecided end once; whoever claims behind it observes. A
/// stranger's claim is refused as that, and one without the evidence for it as that.
pub proof fn law_claims_are_answered(
    state: ArbiterModel,
    owner: u64,
    evidence: TerminalEvidenceKind,
    winner: TerminalWinnerKind,
)
    requires
        state.valid(),
    ensures
        ({
            let answer = state.claim_result(owner, evidence, winner);
            let supported = match winner {
                TerminalWinnerKind::Success => evidence == TerminalEvidenceKind::EffectAccepted,
                TerminalWinnerKind::Failure => evidence == TerminalEvidenceKind::ExecutionFailed,
                TerminalWinnerKind::Cancellation => evidence == TerminalEvidenceKind::NotDelivered,
            };
            let after = state.after(ArbiterStep::Claim { owner, evidence, winner });
            &&& answer == TerminalClaimResult::Observe <==> state.winner is Some
            &&& answer == TerminalClaimResult::RejectedOwner <==> state.winner is None && owner
                != state.active_owner
            &&& answer == TerminalClaimResult::RejectedEvidence <==> state.winner is None && owner
                == state.active_owner && !supported
            &&& answer == TerminalClaimResult::Claimed <==> state.winner is None && owner
                == state.active_owner && supported
            &&& answer == TerminalClaimResult::Claimed ==> after.winner == Some(winner)
            &&& answer != TerminalClaimResult::Claimed ==> after == state
            &&& after.active_owner == state.active_owner
            &&& after.committed == state.committed
            &&& after.primary_owner_joined == state.primary_owner_joined
            &&& after.handoff_used == state.handoff_used
        }),
{
}

/// The right to settle passes to the second owner once, behind the end of the first, and only while
/// nothing is decided. Afterwards the second owner claims and the first does not.
pub proof fn law_handoff_passes_the_right_to_settle(
    primary: u64,
    transfer: u64,
    evidence: TerminalEvidenceKind,
)
    requires
        primary != transfer,
    ensures
        ({
            let start = ArbiterModel::initial(primary, Some(transfer));
            let joined = start.after(ArbiterStep::MarkJoined { owner: primary });
            let passed = joined.after(ArbiterStep::Handoff { transfer_owner: transfer });
            let winner = supported_winner(evidence);
            let claimed = passed.after(ArbiterStep::Claim { owner: transfer, evidence, winner });
            &&& !start.handoff_allowed(transfer)
            &&& start.join_counts(primary)
            &&& !start.join_counts(transfer)
            &&& !joined.join_counts(primary)
            &&& joined.handoff_allowed(transfer)
            &&& !joined.handoff_allowed(primary)
            &&& passed.claim_result(primary, evidence, winner)
                == TerminalClaimResult::RejectedOwner
            &&& passed.claim_result(transfer, evidence, winner) == TerminalClaimResult::Claimed
            &&& !passed.handoff_allowed(transfer)
            &&& !joined.after(
                ArbiterStep::Claim { owner: primary, evidence, winner },
            ).handoff_allowed(transfer)
            &&& claimed.commit_allowed(transfer, winner)
            &&& !claimed.commit_allowed(primary, winner)
            &&& claimed.after(ArbiterStep::Commit { owner: transfer, winner }).committed
        }),
{
}

/// The right to settle is passed exactly while nothing is decided, behind the end of the first
/// owner, to the owner that was named for it, and once.
pub proof fn law_right_to_settle_is_passed_once(
    state: ArbiterModel,
    transfer_owner: u64,
    other: u64,
)
    requires
        state.valid(),
    ensures
        state.handoff_allowed(transfer_owner) <==> state.winner is None && !state.committed
            && !state.handoff_used && state.primary_owner_joined && state.transfer_owner == Some(
            transfer_owner,
        ),
        ({
            let after = state.after(ArbiterStep::Handoff { transfer_owner });
            &&& state.handoff_allowed(transfer_owner) ==> after.active_owner == transfer_owner
                && after.handoff_used && !after.handoff_allowed(other)
            &&& !state.handoff_allowed(transfer_owner) ==> after == state
            &&& after.winner == state.winner
            &&& after.primary_owner == state.primary_owner
        }),
{
}

/// A claim is committed by the owner that may settle, with the winner that was claimed, once.
pub proof fn law_commit_needs_the_claim(
    state: ArbiterModel,
    owner: u64,
    winner: TerminalWinnerKind,
)
    requires
        state.valid(),
    ensures
        state.commit_allowed(owner, winner) ==> state.winner == Some(winner) && owner
            == state.active_owner && !state.committed && state.after(
            ArbiterStep::Commit { owner, winner },
        ).committed,
        state.winner == Some(winner) && owner == state.active_owner && !state.committed
            ==> state.commit_allowed(owner, winner),
        !state.commit_allowed(owner, winner) ==> state.after(ArbiterStep::Commit { owner, winner })
            == state,
        state.after(ArbiterStep::Commit { owner, winner }).winner == state.winner,
{
}

/// A child is linked only behind an open look, and cancelled exactly where the look behind the link
/// finds admission shut.
pub proof fn law_child_is_linked_behind_an_open_look(first: bool, second: bool)
    ensures
        admission_steps(first, second).contains(AdmissionEvent::Link) <==> first,
        admission_steps(first, second).contains(AdmissionEvent::Cancel) <==> first && !second,
        admission_steps(first, second)[0] == AdmissionEvent::Look(first),
        first ==> admission_steps(first, second)[1] == AdmissionEvent::Link && admission_steps(
            first,
            second,
        )[2] == AdmissionEvent::Look(second),
        admission_steps(first, second).len() == if !first {
            1int
        } else if second {
            3int
        } else {
            4int
        },
{
    let steps = admission_steps(first, second);
    if first {
        assert(steps[1] == AdmissionEvent::Link);
        if !second {
            assert(steps[3] == AdmissionEvent::Cancel);
        }
    }
}

/// A task that is bound, runs and is joined leaves its registry with the outcome of its body; a
/// panic that has to be told is told before.
pub proof fn law_task_runs_its_course<O>(outcome: O, other: O, panicked: bool)
    ensures
        ({
            let start = TaskModel::<O>::initial();
            let bound = start.after(TaskStep::Bind);
            let ran = bound.after(TaskStep::CompleteBody { outcome });
            let joining = ran.after(TaskStep::ClaimJoin);
            let joined = joining.after(TaskStep::FinishJoin);
            let told = joined.after(TaskStep::PersistPanic);
            let unlink = TaskStep::Unlink { panic_diagnostic_required: panicked };
            &&& start.accepts(TaskStep::Bind) && start.accepts(TaskStep::AbortSpawn)
            &&& bound.accepts(TaskStep::CompleteBody { outcome }) && !bound.accepts(
                TaskStep::Bind,
            ) && !bound.accepts(TaskStep::AbortSpawn) && !bound.accepts(TaskStep::ClaimJoin)
            &&& ran.accepts(TaskStep::ClaimJoin) && ran.body_outcome == Some(outcome)
                && !ran.accepts(TaskStep::CompleteBody { outcome: other }) && !ran.accepts(
                TaskStep::FinishJoin,
            )
            &&& joining.accepts(TaskStep::FinishJoin) && !joining.accepts(TaskStep::ClaimJoin)
                && !joining.accepts(unlink)
            &&& joined.handle == TaskHandleState::Joined && !joined.accepts(TaskStep::ClaimJoin)
            &&& joined.accepts(TaskStep::PersistPanic) && !told.accepts(TaskStep::PersistPanic)
            &&& joined.accepts(unlink) <==> !panicked
            &&& told.accepts(unlink)
            &&& !told.after(unlink).registry_linked && told.after(unlink).body_outcome == Some(
                outcome,
            )
            &&& joined.registry_linked && told.registry_linked
            &&& !start.after(TaskStep::AbortSpawn).registry_linked
        }),
{
}

/// No step comes out of its order.
pub proof fn law_task_steps_keep_their_order<O>(task: TaskModel<O>, outcome: O, required: bool)
    requires
        task.valid(),
    ensures
        task.accepts(TaskStep::Bind) <==> task.registry_linked && task.handle
            == TaskHandleState::Missing,
        task.accepts(TaskStep::CompleteBody { outcome }) <==> task.registry_linked && task.handle
            == TaskHandleState::Retained && task.body_outcome is None,
        task.accepts(TaskStep::ClaimJoin) <==> task.registry_linked && task.handle
            == TaskHandleState::Retained && task.body_outcome is Some,
        task.accepts(TaskStep::FinishJoin) <==> task.registry_linked && task.handle
            == TaskHandleState::Joining,
        task.accepts(TaskStep::Unlink { panic_diagnostic_required: required })
            <==> task.registry_linked && task.handle == TaskHandleState::Joined && (!required
            || task.panic_diagnostic_durable),
        task.accepts(TaskStep::AbortSpawn) <==> task.registry_linked && task.handle
            == TaskHandleState::Missing,
{
}

} // verus!
