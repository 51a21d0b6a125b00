//! What single calls on a Runtime promise of operations, resources and tasks.

use crate::cancellation::{
    cancel_order, cancelled_tree, dropped_hooks, ended_tree, released_hooks,
};
use crate::concurrency::{TaskHandleState, TaskOwnerBinding, TaskStep};
use crate::event::{EventClass, EventDraft, EventKind, SubscriptionOptions};
use crate::event_hub::{events_closed_model, HubModel};
use crate::model::{ErrorCode, OperationId, ResourceId, RuntimeId, TaskId};
use crate::operation::{
    CancellationReason, CandidateModel, OperationModel, OperationState, OwnerModel,
    SettlementEvidence, TransitionOutcome,
};
use crate::runtime::task::{JoinStep, SupervisedTask, TaskJoinError};
use crate::runtime::{
    active_operations, active_tasks, announced, callbacks_of, fresh_owner, without_resource,
    FinishStart, HookTarget, RuntimeModel, RuntimeState, RuntimeToken, SupervisedTaskOutcome,
    TaskRecordModel,
};
use vstd::prelude::*;

verus! {

/// A new Runtime is active, admits deadlines, and supervises its deadline worker alone; everybody
/// who holds it holds it through one handle.
pub proof fn law_new_runtime_supervises_its_worker_alone(id: RuntimeId)
    ensures
        ({
            let runtime = RuntimeModel::initial(id);
            &&& runtime.id == id
            &&& runtime.state == RuntimeState::Active
            &&& !runtime.closing && runtime.close_owner is None && runtime.outcome is None
            &&& runtime.handles == 1
            &&& runtime.operations.len() == 0 && runtime.resources.len() == 0
            &&& runtime.tasks.len() == 1 && runtime.tasks[0].id == runtime.deadline_task
            &&& runtime.tasks[0].life.registry_linked
            &&& runtime.worker_running
            &&& runtime.scheduler.admission_open
            &&& runtime.tree.len() == 1 && runtime.tree[runtime.root.node as int].owner == Some(id)
            &&& runtime.tree[0].active && !runtime.tree[0].cancelled
            &&& runtime.deadline_task.0 < runtime.next_id
        }),
{
}

/// An operation is admitted by an active Runtime below a token of its own that is active and not
/// cancelled. A closing Runtime says that it closes; otherwise the argument is at fault.
pub proof fn law_operations_are_admitted_below_open_tokens(
    runtime: RuntimeModel,
    parent: RuntimeToken,
)
    ensures
        ({
            let node = runtime.tree[parent.token.node as int];
            &&& runtime.admits(parent) <==> runtime.state == RuntimeState::Active && parent.owner
                == Some(runtime.id) && node.active && !node.cancelled
            &&& runtime.state != RuntimeState::Active ==> runtime.refusal(parent).code
                == ErrorCode::RuntimeClosing
            &&& runtime.state == RuntimeState::Active ==> runtime.refusal(parent).code
                == ErrorCode::InvalidArgument
        }),
{
}

/// A new operation is pending, has its deadline and a number and a token of its own, and nothing is
/// known of its end; the operations before it, and everything else that is supervised, stay.
pub proof fn law_new_operation_is_pending(
    runtime: RuntimeModel,
    parent: usize,
    deadline_ns: Option<u64>,
    owner: Option<OwnerModel>,
    ids: int,
    k: int,
)
    requires
        runtime.valid(),
        parent < runtime.tree.len(),
        runtime.tree[parent as int].is_open(),
        runtime.tree.len() < usize::MAX,
        runtime.operations.len() < usize::MAX,
        runtime.hooks.len() < u64::MAX,
        ids >= 1,
        runtime.next_id + ids <= u64::MAX,
        0 <= k < runtime.operations.len(),
    ensures
        ({
            let after = runtime.created(parent, deadline_ns, owner, ids);
            let newcomer = after.operations.last();
            let token = after.tree[newcomer.token.node as int];
            &&& after.operations.len() == runtime.operations.len() + 1
            &&& newcomer.state == OperationState::Pending
            &&& newcomer.id == OperationId(runtime.next_id)
            &&& newcomer.deadline_ns == deadline_ns
            &&& newcomer.owner == owner
            &&& newcomer.result is None && newcomer.error is None && newcomer.cancellation_reason
                is None && !newcomer.terminal_in_progress && newcomer.finishing is None
            &&& newcomer.token.node == runtime.tree.len()
            &&& token.parent == Some(parent) && token.active && !token.cancelled
            &&& token.hooks.len() == 1 && after.hooks[token.hooks[0].hook as int]
                == HookTarget::Operation(runtime.operations.len() as usize)
            &&& after.next_id == runtime.next_id + ids
            &&& after.operations[k] == runtime.operations[k]
            &&& after.resources == runtime.resources
            &&& after.tasks == runtime.tasks
            &&& after.hub == runtime.hub
            &&& after.state == runtime.state
        }),
{
    let after = runtime.created(parent, deadline_ns, owner, ids);
    let child = crate::cancellation::with_child(runtime.tree, parent);
    let node = runtime.tree.len() as int;
    assert(child[node].hooks.len() == 0);
    assert(crate::cancellation::kept_hooks(child[node].hooks).len() == 0);
}

/// Something is announced wherever production is open, a time is known and a number is left;
/// otherwise nothing changes.
pub proof fn law_announcements_need_a_time(hub: HubModel, now_ns: Option<u64>, draft: EventDraft)
    ensures
        hub.closed || now_ns is None || hub.next_sequence == u64::MAX ==> announced(
            hub,
            now_ns,
            draft,
        ) == hub,
        !hub.closed && hub.next_sequence < u64::MAX ==> (now_ns matches Some(time_ns) ==> announced(
            hub,
            now_ns,
            draft,
        ) == hub.published(time_ns, draft)),
{
}

/// A request to cancel an operation without an owner that is pending or running, and not about to
/// end, cancels its token and announces that it cancels; a request that does not take hold changes
/// nothing at all. No other operation changes with it.
pub proof fn law_cancel_request_cancels_the_token(
    runtime: RuntimeModel,
    slot: int,
    reason: CancellationReason,
    now_ns: Option<u64>,
    k: int,
)
    requires
        runtime.valid(),
        0 <= slot < runtime.operations.len(),
        0 <= k < runtime.operations.len(),
        k != slot,
    ensures
        ({
            let old = runtime.operations[slot];
            let after = runtime.cancel_requested(slot, reason, now_ns);
            let node = old.token.node as int;
            let awaited = old.state == OperationState::Pending || old.state
                == OperationState::Running;
            let plain = awaited && old.owner is None && !old.terminal_in_progress;
            let owned = awaited && old.owner is Some && old.cancellation_reason is None;
            &&& after.operations[k] == runtime.operations[k]
            &&& after.operations[slot].id == old.id
            &&& plain ==> after.operations[slot].state == OperationState::Cancelling
            &&& owned ==> after.operations[slot].state == old.state
            &&& plain || owned ==> after.operations[slot].cancellation_reason == Some(reason)
                && after.tree == cancelled_tree(runtime.tree, node) && (runtime.tree[node].active
                ==> after.tree[node].cancelled)
            &&& plain ==> exists|draft: EventDraft|
                {
                    &&& #[trigger] announced(runtime.hub, now_ns, draft) == after.hub
                    &&& draft.class == EventClass::Critical
                    &&& draft.kind == EventKind::State
                    &&& draft.code == "runtime.operation.cancelling"
                    &&& draft.operation_id == Some(old.id)
                }
            &&& owned ==> after.hub == runtime.hub
            &&& old.state == OperationState::Succeeded || old.state == OperationState::Failed
                || old.state == OperationState::Cancelled ==> after == runtime
            &&& after.resources == runtime.resources && after.tasks == runtime.tasks && after.state
                == runtime.state
        }),
{
    let old = runtime.operations[slot];
    let after = runtime.cancel_requested(slot, reason, now_ns);
    let node = old.token.node as int;
    assert(old.valid());
    if runtime.tree[node].active && !runtime.tree[node].cancelled {
        assert(crate::cancellation::reached(runtime.tree, node, node));
    }
    if old.state == OperationState::Succeeded || old.state == OperationState::Failed || old.state
        == OperationState::Cancelled {
        assert(runtime.operations.update(slot, old) =~= runtime.operations);
        assert(after =~= runtime);
    }
    let draft = crate::operation::state_draft_of(OperationState::Cancelling, old.id);
    assert(draft.code == "runtime.operation.cancelling");
    if (old.state == OperationState::Pending || old.state == OperationState::Running) && old.owner
        is None && !old.terminal_in_progress {
        assert(announced(runtime.hub, now_ns, draft) == after.hub);
    }
}

/// An operation that hears of a cancellation from above cancels for the close of its parent, where
/// it has no owner and is pending or running; it is announced then, and not otherwise.
pub proof fn law_cancellation_from_above_is_parent_close(
    runtime: RuntimeModel,
    slot: int,
    now_ns: Option<u64>,
)
    requires
        runtime.valid(),
        0 <= slot < runtime.operations.len(),
    ensures
        ({
            let old = runtime.operations[slot];
            let after = runtime.parent_closed(slot, now_ns);
            let new = after.operations[slot];
            let awaited = old.state == OperationState::Pending || old.state
                == OperationState::Running;
            &&& awaited && old.owner is None && !old.terminal_in_progress ==> new.state
                == OperationState::Cancelling && new.cancellation_reason == Some(
                CancellationReason::ParentClose,
            )
            &&& awaited && old.owner is Some && old.cancellation_reason is None ==> new.state
                == old.state && new.cancellation_reason == Some(CancellationReason::ParentClose)
            &&& old.cancellation_reason is Some ==> new == old
            &&& new.state == old.state ==> after.hub == runtime.hub
            &&& after.tree == runtime.tree
        }),
{
    assert(runtime.operations[slot].valid());
}

/// A Runtime that stopped to admit is closing, and schedules no deadline any more; what it
/// supervises stays.
pub proof fn law_sealed_runtime_admits_nothing(runtime: RuntimeModel, parent: RuntimeToken)
    ensures
        runtime.sealed().state == RuntimeState::Closing,
        !runtime.sealed().scheduler.admission_open,
        !runtime.sealed().admits(parent),
        runtime.sealed().operations == runtime.operations,
        runtime.sealed().resources == runtime.resources,
        runtime.sealed().tasks == runtime.tasks,
        runtime.sealed().tree == runtime.tree,
        runtime.sealed().hub == runtime.hub,
        runtime.sealed().scheduler.entries == runtime.scheduler.entries,
        runtime.sealed().scheduler.pending == runtime.scheduler.pending,
{
}

/// Each operation that has not ended counts as one that is supervised, and no other.
pub proof fn law_unfinished_operations_are_counted(
    operations: Seq<OperationModel>,
    operation: OperationModel,
)
    ensures
        active_operations(Seq::<OperationModel>::empty()) == 0,
        active_operations(operations.push(operation)) == active_operations(operations) + if
            operation.state == OperationState::Pending || operation.state
            == OperationState::Running || operation.state == OperationState::Cancelling {
            1int
        } else {
            0int
        },
{
    assert(operations.push(operation).drop_last() =~= operations);
}

/// Each task that is registered counts as one that is supervised, and no other.
pub proof fn law_registered_tasks_are_counted(
    tasks: Seq<TaskRecordModel>,
    task: TaskRecordModel,
)
    ensures
        active_tasks(Seq::<TaskRecordModel>::empty()) == 0,
        active_tasks(tasks.push(task)) == active_tasks(tasks) + if task.life.registry_linked {
            1int
        } else {
            0int
        },
{
    assert(tasks.push(task).drop_last() =~= tasks);
}

/// Unregistering a resource takes it out, and no other.
pub proof fn law_unregistering_takes_out_one_resource(
    resources: Seq<ResourceId>,
    id: ResourceId,
    kept: ResourceId,
)
    requires
        resources.contains(kept),
    ensures
        !without_resource(resources, id).contains(id),
        kept != id ==> without_resource(resources, id).contains(kept),
        without_resource(resources, id).len() <= resources.len(),
    decreases resources.len(),
{
    crate::runtime::laws::law_unregister_is_idempotent(resources, id);
    reveal(Seq::filter);
    let rest = resources.drop_last();
    let before = without_resource(rest, id);
    let all = without_resource(resources, id);
    assert(all == if resources.last() != id {
        before.push(resources.last())
    } else {
        before
    });
    let k = choose|k: int| 0 <= k < resources.len() && resources[k] == kept;
    if rest.contains(kept) {
        law_unregistering_takes_out_one_resource(rest, id, kept);
        if kept != id {
            let j = choose|j: int| 0 <= j < before.len() && before[j] == kept;
            assert(all[j] == kept);
        }
    } else {
        if k < rest.len() {
            assert(rest[k] == kept);
        }
        lemma_no_more_resources(rest, id);
        if kept != id {
            assert(all[all.len() - 1] == kept);
        }
    }
}

proof fn lemma_no_more_resources(resources: Seq<ResourceId>, id: ResourceId)
    ensures
        without_resource(resources, id).len() <= resources.len(),
    decreases resources.len(),
{
    reveal(Seq::filter);
    if resources.len() > 0 {
        lemma_no_more_resources(resources.drop_last(), id);
    }
}

/// The callbacks of a caller are picked out of a list of hooks in their order, those of operations
/// are left out.
pub proof fn law_callbacks_keep_their_order(runtime: RuntimeModel, hooks: Seq<u64>, hook: u64)
    ensures
        callbacks_of(runtime, Seq::<u64>::empty()).len() == 0,
        hook >= runtime.hooks.len() ==> callbacks_of(runtime, hooks.push(hook)) == callbacks_of(
            runtime,
            hooks,
        ).push(hook),
        hook < runtime.hooks.len() ==> callbacks_of(runtime, hooks.push(hook)) == (
        match runtime.hooks[hook as int] {
            HookTarget::Caller(callback) => callbacks_of(runtime, hooks).push(callback),
            HookTarget::Operation(_) => callbacks_of(runtime, hooks),
        }),
{
    assert(hooks.push(hook).drop_last() =~= hooks);
}

/// A new task is registered behind the others, with a number of its own; nothing has run yet.
pub proof fn law_new_task_is_registered(runtime: RuntimeModel, k: int)
    requires
        runtime.valid(),
        runtime.next_id < u64::MAX,
        0 <= k < runtime.tasks.len(),
    ensures
        ({
            let after = runtime.task_registered();
            let newcomer = after.tasks.last();
            &&& after.tasks.len() == runtime.tasks.len() + 1
            &&& newcomer.id == TaskId(runtime.next_id)
            &&& newcomer.life.registry_linked
            &&& newcomer.life.body_outcome is None
            &&& newcomer.life.handle == TaskHandleState::Missing
            &&& after.next_id == runtime.next_id + 1
            &&& after.tasks[k] == runtime.tasks[k]
            &&& after.operations == runtime.operations
        }),
{
}

/// What a join comes to: a task cannot join itself; a body that still runs, or a thread that
/// another caller joins, is waited for; a task that was joined before gives its outcome; otherwise
/// the caller joins the thread.
pub proof fn law_joins_are_answered(
    runtime: RuntimeModel,
    task: SupervisedTask,
    current: Option<TaskOwnerBinding<RuntimeId, TaskId>>,
)
    requires
        runtime.valid(),
        runtime.runs(task),
    ensures
        ({
            let life = runtime.tasks[task.slot as int].life;
            let own = current is Some && current->0.runtime == runtime.id && current->0.task
                == task.id;
            let step = runtime.join_step(task, current);
            &&& own ==> step == JoinStep::Rejected(TaskJoinError::SelfJoin)
            &&& !own && life.body_outcome is None ==> step == JoinStep::Wait
            &&& !own && life.registry_linked && life.handle == TaskHandleState::Joining ==> step
                == JoinStep::Wait
            &&& !own && life.registry_linked && life.handle == TaskHandleState::Retained
                && life.body_outcome is Some ==> step == JoinStep::JoinThread
            &&& !own && !life.registry_linked ==> (life.body_outcome matches Some(outcome) ==> step
                == JoinStep::Done(outcome))
        }),
{
    assert(runtime.tasks[task.slot as int].life.valid());
}

/// A joined task leaves the registry with its outcome. The panic of its body is told once, and
/// nothing else is told; every unfinished operation whose owner ran on it learns that the owner has
/// ended, and no other changes.
pub proof fn law_joined_task_leaves_with_its_outcome(
    runtime: RuntimeModel,
    slot: int,
    other: int,
    k: int,
)
    requires
        runtime.valid(),
        0 <= slot < runtime.tasks.len(),
        0 <= other < runtime.tasks.len(),
        other != slot,
        0 <= k < runtime.operations.len(),
    ensures
        ({
            let old = runtime.tasks[slot];
            let after = runtime.task_joined(slot);
            let new = after.tasks[slot];
            let operation = runtime.operations[k];
            let unfinished = operation.state == OperationState::Pending || operation.state
                == OperationState::Running || operation.state == OperationState::Cancelling;
            let panicked = old.life.body_outcome == Some(SupervisedTaskOutcome::Panicked);
            &&& !new.life.registry_linked
            &&& new.life.handle == TaskHandleState::Joined
            &&& new.life.body_outcome == old.life.body_outcome
            &&& new.id == old.id
            &&& new.life.panic_diagnostic_durable <==> panicked
            &&& after.tasks[other] == runtime.tasks[other]
            &&& panicked ==> after.failures.contains(old.id)
            &&& !panicked ==> after.failures == runtime.failures
            &&& unfinished && (operation.owner matches Some(owner) && owner.owner_task == Some(
                old.id,
            )) ==> after.operations[k].owner->0.arbiter.primary_owner_joined
                && after.operations[k].state == operation.state
            &&& !unfinished || operation.owner is None || operation.owner->0.owner_task != Some(
                old.id,
            ) ==> after.operations[k] == operation
        }),
{
    let old = runtime.tasks[slot];
    let after = runtime.task_joined(slot);
    if old.life.body_outcome == Some(SupervisedTaskOutcome::Panicked) && !runtime.failures.contains(
        old.id,
    ) {
        assert(after.failures[after.failures.len() - 1] == old.id);
    }
}

/// A claim that fixes the winner ends the operation's token; one that does not leaves the tree.
pub proof fn law_winning_claim_ends_the_token(
    runtime: RuntimeModel,
    slot: int,
    owner_id: u64,
    evidence: SettlementEvidence,
    candidate: CandidateModel,
    now_ns: Option<u64>,
    k: int,
)
    requires
        runtime.valid(),
        0 <= slot < runtime.operations.len(),
        0 <= k < runtime.operations.len(),
        k != slot,
    ensures
        ({
            let old = runtime.operations[slot];
            let after = runtime.claimed(slot, owner_id, evidence, candidate, now_ns);
            let new = after.operations[slot];
            &&& after.operations[k] == runtime.operations[k]
            &&& !old.terminal_in_progress && new.terminal_in_progress ==> after.tree == ended_tree(
                runtime.tree,
                old.token.node as int,
            ) && !after.tree[old.token.node as int].active
            &&& old.terminal_in_progress || !new.terminal_in_progress ==> after.tree
                == runtime.tree
            &&& new.state == old.state ==> after.hub == runtime.hub
            &&& after.tasks == runtime.tasks && after.resources == runtime.resources
        }),
{
    assert(runtime.operations[slot].valid());
}

/// A new settlement owner is undecided: it may settle, a second owner only behind it, and nothing
/// is bound, recorded or claimed.
pub proof fn law_new_owner_is_undecided(owner_id: u64, transfer_owner_id: Option<u64>)
    ensures
        ({
            let owner = fresh_owner(owner_id, transfer_owner_id);
            &&& owner.arbiter.primary_owner == owner_id
            &&& owner.arbiter.active_owner == owner_id
            &&& owner.arbiter.transfer_owner == transfer_owner_id
            &&& owner.arbiter.winner is None
            &&& !owner.arbiter.committed && !owner.arbiter.handoff_used
                && !owner.arbiter.primary_owner_joined
            &&& owner.owner_task is None && owner.handoff_record is None && owner.claimed is None
        }),
{
}

/// A request to cancel that takes hold sets free what cancelling the operation's token releases;
/// one that does not sets nothing free. Cancelling the root sets free what that releases.
pub proof fn law_cancel_request_sets_hooks_free(runtime: RuntimeModel, slot: int)
    requires
        runtime.valid(),
        0 <= slot < runtime.operations.len(),
    ensures
        ({
            let old = runtime.operations[slot];
            let node = old.token.node as int;
            let root = runtime.root.node as int;
            let awaited = old.state == OperationState::Pending || old.state
                == OperationState::Running;
            let holds = awaited && (old.owner is None && !old.terminal_in_progress || old.owner
                is Some && old.cancellation_reason is None);
            &&& holds ==> runtime.cancel_hooks(slot) == released_hooks(
                runtime.tree,
                cancel_order(runtime.tree, node),
            ) && runtime.cancel_discards(slot) == dropped_hooks(
                runtime.tree,
                cancel_order(runtime.tree, node),
            )
            &&& old.state == OperationState::Succeeded || old.state == OperationState::Failed
                || old.state == OperationState::Cancelled || old.cancellation_reason is Some
                ==> runtime.cancel_hooks(slot).len() == 0 && runtime.cancel_discards(slot).len()
                == 0
            &&& runtime.root_hooks() == released_hooks(
                runtime.tree,
                cancel_order(runtime.tree, root),
            )
            &&& runtime.root_discards() == dropped_hooks(
                runtime.tree,
                cancel_order(runtime.tree, root),
            )
        }),
{
    assert(runtime.operations[slot].valid());
}

/// A request to end an operation begins a transaction or is refused; refused, it changes nothing,
/// and says whether the operation had ended before. A transaction that begins makes the operation's
/// token inactive.
pub proof fn law_refused_requests_change_nothing(
    runtime: RuntimeModel,
    slot: int,
    begins: bool,
    operation: OperationModel,
    start: FinishStart,
    after: RuntimeModel,
)
    requires
        runtime.valid(),
        0 <= slot < runtime.operations.len(),
        operation.token == runtime.operations[slot].token,
        runtime.starts(slot, begins, operation, start, after),
    ensures
        ({
            let old = runtime.operations[slot];
            &&& begins <==> start is Begun
            &&& !begins ==> after == runtime
            &&& start matches FinishStart::Rejected(outcome) ==> (outcome
                == TransitionOutcome::AlreadyTerminal <==> old.state == OperationState::Succeeded
                || old.state == OperationState::Failed || old.state == OperationState::Cancelled)
            &&& begins ==> after.operations[slot] == operation
                && !after.tree[old.token.node as int].active && after.hub == runtime.hub
        }),
{
}

/// One task's step changes no other task, and nothing but the life of its own.
pub proof fn law_one_task_moves_at_a_time(
    runtime: RuntimeModel,
    slot: int,
    other: int,
    step: TaskStep<SupervisedTaskOutcome>,
)
    requires
        0 <= slot < runtime.tasks.len(),
        0 <= other < runtime.tasks.len(),
        other != slot,
    ensures
        runtime.task_stepped(slot, step).tasks[other] == runtime.tasks[other],
        runtime.task_stepped(slot, step).tasks[slot].id == runtime.tasks[slot].id,
        runtime.task_stepped(slot, step).tasks[slot].owner == runtime.tasks[slot].owner,
        runtime.task_stepped(slot, step).tasks[slot].life == runtime.tasks[slot].life.after(step),
        runtime.task_stepped(slot, step).operations == runtime.operations,
        runtime.task_stepped(slot, step).failures == runtime.failures,
        runtime.task_stepped(slot, step).next_id == runtime.next_id,
{
}

/// What a caller cancels is cancelled on request: that is the cause, and the error that comes of it
/// is no missed deadline.
pub proof fn law_callers_cancel_on_request(runtime: RuntimeModel, slot: int, now_ns: Option<u64>)
    requires
        runtime.valid(),
        0 <= slot < runtime.operations.len(),
        runtime.operations[slot].state == OperationState::Pending
            || runtime.operations[slot].state == OperationState::Running,
        runtime.operations[slot].cancellation_reason is None,
        runtime.operations[slot].owner is Some || !runtime.operations[slot].terminal_in_progress,
    ensures
        ({
            let new = runtime.caller_cancelled(slot, now_ns).operations[slot];
            &&& new.cancellation_reason == Some(CancellationReason::Requested)
            &&& runtime.operations[slot].owner is None ==> new.state == OperationState::Cancelling
        }),
{
}

/// A subscription needs room for an event and a Runtime that is active; the first that is missing
/// is told, the one as a fault of the argument and the other as that the Runtime closes.
pub proof fn law_subscriptions_need_room_and_an_active_runtime(
    runtime: RuntimeModel,
    options: SubscriptionOptions,
)
    ensures
        runtime.subscription_refusal(options) is None <==> options.capacity > 0 && runtime.state
            == RuntimeState::Active,
        options.capacity == 0 ==> (runtime.subscription_refusal(options) matches Some(error)
            && error.code == ErrorCode::InvalidArgument),
        options.capacity > 0 && runtime.state != RuntimeState::Active ==> (
        runtime.subscription_refusal(options) matches Some(error) && error.code
            == ErrorCode::RuntimeClosing),
{
}

/// A resource is registered by an active Runtime alone, behind the others and with a number of its
/// own; a Runtime that closes says so.
pub proof fn law_resources_are_registered_while_active(runtime: RuntimeModel, k: int)
    requires
        runtime.next_id < u64::MAX,
    ensures
        runtime.resource_refusal() is None <==> runtime.state == RuntimeState::Active,
        runtime.resource_refusal() matches Some(error) ==> error.code == ErrorCode::RuntimeClosing,
        ({
            let after = runtime.resource_registered();
            &&& after.resources.len() == runtime.resources.len() + 1
            &&& after.resources.last().0 == runtime.next_id
            &&& 0 <= k < runtime.resources.len() ==> after.resources[k] == runtime.resources[k]
            &&& after.next_id == runtime.next_id + 1
            &&& after.operations == runtime.operations && after.tasks == runtime.tasks
                && after.state == runtime.state
        }),
{
}

/// Production that has ended says that the Runtime closes.
pub proof fn law_ended_production_is_told_as_closing()
    ensures
        events_closed_model().code == ErrorCode::RuntimeClosing,
        events_closed_model().message == "Runtime event production is closed"@,
{
}

} // verus!
