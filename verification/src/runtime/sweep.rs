//! What a Runtime promises of execution deadlines.

use crate::operation::{CancellationReason, OperationModel, OperationState};
use crate::runtime::{earlier_of, is_next_deadline, lists_due, RuntimeModel};
use vstd::prelude::*;

verus! {

/// An operation is listed exactly where it is pending, running or cancelling and its deadline is
/// not after the time, and it is listed once, with its deadline.
pub proof fn law_every_elapsed_deadline_is_listed(
    operations: Seq<OperationModel>,
    now_ns: u64,
    due: Seq<(u64, usize)>,
    k: int,
)
    requires
        lists_due(operations, now_ns, due),
        0 <= k < operations.len(),
    ensures
        ({
            let operation = operations[k];
            let unfinished = operation.state == OperationState::Pending || operation.state
                == OperationState::Running || operation.state == OperationState::Cancelling;
            let elapsed = operation.deadline_ns matches Some(deadline) && deadline <= now_ns;
            &&& unfinished && elapsed <==> exists|i: int|
                0 <= i < due.len() && (#[trigger] due[i]).1 == k
            &&& forall|i: int|
                0 <= i < due.len() && (#[trigger] due[i]).1 == k ==> operation.deadline_ns == Some(
                    due[i].0,
                )
            &&& forall|i: int, j: int|
                #![trigger due[i], due[j]]
                0 <= i < due.len() && 0 <= j < due.len() && due[i].1 == k && due[j].1 == k ==> i
                    == j
        }),
{
    assert forall|i: int, j: int|
        #![trigger due[i], due[j]]
        0 <= i < due.len() && 0 <= j < due.len() && due[i].1 == k && due[j].1 == k implies i
        == j by {
        if i < j {
            assert(due[i].0 < due[j].0 || due[i].1 < due[j].1);
        } else if j < i {
            assert(due[j].0 < due[i].0 || due[j].1 < due[i].1);
        }
    }
}

/// Earlier deadlines come first, and of equal ones the operation that was created first.
pub proof fn law_earlier_deadlines_are_listed_first(
    operations: Seq<OperationModel>,
    now_ns: u64,
    due: Seq<(u64, usize)>,
    i: int,
    j: int,
)
    requires
        lists_due(operations, now_ns, due),
        0 <= i < j < due.len(),
    ensures
        due[i].0 <= due[j].0,
        due[i].0 == due[j].0 ==> due[i].1 < due[j].1,
{
}

/// The Runtime after a sweep requested the cancellation of every listed operation.
pub open spec fn swept(
    runtime: RuntimeModel,
    due: Seq<(u64, usize)>,
    now_ns: Option<u64>,
) -> RuntimeModel
    decreases due.len(),
{
    if due.len() == 0 {
        runtime
    } else {
        swept(runtime, due.drop_last(), now_ns).deadline_enforced(due.last().1 as int, now_ns)
    }
}

proof fn lemma_swept(
    runtime: RuntimeModel,
    due: Seq<(u64, usize)>,
    now_ns: Option<u64>,
    k: int,
)
    requires
        0 <= k < runtime.operations.len(),
        runtime.operations[k].valid(),
        forall|i: int|
            0 <= i < due.len() ==> (#[trigger] due[i]).1 < runtime.operations.len(),
    ensures
        swept(runtime, due, now_ns).operations.len() == runtime.operations.len(),
        swept(runtime, due, now_ns).operations[k] == if exists|i: int|
            0 <= i < due.len() && (#[trigger] due[i]).1 == k {
            runtime.operations[k].cancel_requested(CancellationReason::Deadline)
        } else {
            runtime.operations[k]
        },
    decreases due.len(),
{
    if due.len() > 0 {
        let rest = due.drop_last();
        assert forall|i: int| 0 <= i < rest.len() implies (#[trigger] rest[i]).1
            < runtime.operations.len() by {
            assert(rest[i] == due[i]);
        }
        lemma_swept(runtime, rest, now_ns, k);
        let last = due[due.len() - 1];
        assert(last.1 < runtime.operations.len());
        let before = exists|i: int| 0 <= i < rest.len() && (#[trigger] rest[i]).1 == k;
        let all = exists|i: int| 0 <= i < due.len() && (#[trigger] due[i]).1 == k;
        if before {
            let i = choose|i: int| 0 <= i < rest.len() && (#[trigger] rest[i]).1 == k;
            assert(due[i].1 == k);
        }
        if all && last.1 != k {
            let i = choose|i: int| 0 <= i < due.len() && (#[trigger] due[i]).1 == k;
            assert(rest[i].1 == k);
        }
        assert(all <==> before || last.1 == k);
    }
}

/// A sweep leaves no elapsed deadline behind. Every operation without a settlement owner that was
/// pending or running past its deadline, and not about to end, cancels for its deadline; every
/// owned one has a cause of cancellation, its deadline where it had none before. An operation whose
/// deadline is still to come, or that has none, stays as it is.
pub proof fn law_sweep_leaves_no_elapsed_deadline(
    runtime: RuntimeModel,
    time_ns: u64,
    due: Seq<(u64, usize)>,
    now_ns: Option<u64>,
    k: int,
)
    requires
        runtime.valid(),
        lists_due(runtime.operations, time_ns, due),
        0 <= k < runtime.operations.len(),
    ensures
        ({
            let before = runtime.operations[k];
            let after = swept(runtime, due, now_ns).operations[k];
            let elapsed = before.deadline_ns matches Some(deadline) && deadline <= time_ns;
            let awaited = before.state == OperationState::Pending || before.state
                == OperationState::Running;
            &&& after.deadline_ns == before.deadline_ns
            &&& !elapsed ==> after == before
            &&& elapsed && awaited && before.owner is None && !before.terminal_in_progress
                ==> after.state == OperationState::Cancelling && after.cancellation_reason == Some(
                CancellationReason::Deadline,
            )
            &&& elapsed && awaited && before.owner is Some ==> after.state == before.state
                && after.cancellation_reason == match before.cancellation_reason {
                Some(reason) => Some(reason),
                None => Some(CancellationReason::Deadline),
            }
            &&& elapsed && (after.state == OperationState::Pending || after.state
                == OperationState::Running) ==> after.owner is Some || after.terminal_in_progress
            &&& before.state == OperationState::Succeeded || before.state == OperationState::Failed
                || before.state == OperationState::Cancelled ==> after == before
        }),
{
    assert(runtime.operations[k].valid());
    lemma_swept(runtime, due, now_ns, k);
    law_every_elapsed_deadline_is_listed(runtime.operations, time_ns, due, k);
}

/// The next deadline is the earliest that a pending or running operation has; there is none where
/// no such operation has one.
pub proof fn law_next_deadline_is_the_earliest(
    operations: Seq<OperationModel>,
    next: Option<u64>,
    k: int,
)
    requires
        is_next_deadline(operations, next),
        0 <= k < operations.len(),
        operations[k].state == OperationState::Pending || operations[k].state
            == OperationState::Running,
        operations[k].deadline_ns is Some,
    ensures
        next is Some,
        next->0 <= operations[k].deadline_ns->0,
        exists|j: int|
            0 <= j < operations.len() && (#[trigger] operations[j]).deadline_ns == next && (
            operations[j].state == OperationState::Pending || operations[j].state
                == OperationState::Running),
{
}

/// Without a pending or running operation that has a deadline, no deadline is next.
pub proof fn law_no_awaited_deadline_is_next(operations: Seq<OperationModel>, next: Option<u64>)
    requires
        is_next_deadline(operations, next),
        forall|k: int|
            0 <= k < operations.len() ==> (#[trigger] operations[k]).deadline_ns is None || (
            operations[k].state != OperationState::Pending && operations[k].state
                != OperationState::Running),
    ensures
        next is None,
{
}

/// Of two times the earlier one counts, and one that is there before one that is not.
pub proof fn law_earlier_time_counts(left: u64, right: u64)
    ensures
        earlier_of(Some(left), Some(right)) matches Some(earlier) && earlier <= left && earlier
            <= right && (earlier == left || earlier == right),
        earlier_of(Some(left), None) == Some(left),
        earlier_of(None, Some(right)) == Some(right),
        earlier_of(None, None) is None,
{
}

} // verus!
