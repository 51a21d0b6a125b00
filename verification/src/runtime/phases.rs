//! What each phase of a deterministic close promises.

use crate::concurrency::TaskOwnerBinding;
use crate::event::{EventClass, EventDraft, EventKind, Severity};
use crate::model::{ResourceId, RuntimeId, TaskId};
use crate::operation::{CancellationReason, OperationModel, OperationState, PrimaryModel};
use crate::runtime::close::{
    close_entered, close_step, live_slots, panicked, surviving, CloseAction, CloseEntry,
    CloseRejection, CloseReply, CloseStage, RunModel,
};
use crate::runtime::{
    active_operations, active_tasks, ClosePhase, HookTarget, OutcomeModel, RuntimeModel,
    RuntimeState, SupervisedTaskOutcome, TaskRecordModel,
};
use vstd::prelude::*;

verus! {

/// Who may close: a task that the Runtime supervises may not, nor the thread that is closing it. Of
/// the others the first one runs the close, and ends admission with that; whoever comes while it
/// runs waits, and whoever comes behind it gets the saved outcome.
pub proof fn law_one_caller_runs_the_close(
    before: RuntimeModel,
    current: Option<TaskOwnerBinding<RuntimeId, TaskId>>,
    thread: u64,
    entered: Result<CloseEntry, CloseRejection>,
    after: RuntimeModel,
)
    requires
        before.valid(),
        close_entered(before, current, thread, entered, after),
    ensures
        ({
            let supervised = current is Some && current->0.runtime == before.id;
            let own = before.close_owner == Some(thread);
            let first = before.state == RuntimeState::Active || before.state
                == RuntimeState::Closing && !before.closing;
            &&& supervised ==> entered == Err::<CloseEntry, CloseRejection>(
                CloseRejection::SupervisedTask,
            ) && after == before
            &&& !supervised && own ==> entered == Err::<CloseEntry, CloseRejection>(
                CloseRejection::CloseOwner,
            ) && after == before
            &&& !supervised && !own && first ==> {
                &&& entered matches Ok(CloseEntry::Run(run)) && run@.stage == CloseStage::Start
                    && run@.first is None
                &&& after.state == RuntimeState::Closing
                &&& after.closing
                &&& after.close_owner == Some(thread)
                &&& !after.scheduler.admission_open
                &&& after.operations == before.operations
                &&& after.resources == before.resources
                &&& after.tasks == before.tasks
                &&& after.tree == before.tree
                &&& after.hub == before.hub
            }
            &&& !supervised && !own && before.state == RuntimeState::Closing && before.closing
                ==> (entered matches Ok(CloseEntry::Wait)) && after == before
            &&& !supervised && !own && (before.state == RuntimeState::Closed || before.state
                == RuntimeState::CloseFailed) ==> (entered matches Ok(
                CloseEntry::Finished(outcome),
            ) && Some(outcome@) == before.outcome) && after == before
        }),
{
}

/// Close begins with the announcement that the Runtime closes and with the cancellation of its
/// root; an announcement that could not be made is the first failure.
pub proof fn law_close_begins_with_the_root(
    before: RuntimeModel,
    run: RunModel,
    reply: CloseReply,
    now_ns: Option<u64>,
    after: RuntimeModel,
    run_after: RunModel,
    action: CloseAction,
)
    requires
        before.valid(),
        run.stage == CloseStage::Start,
        close_step(before, run, reply, now_ns, after, run_after, action),
    ensures
        ({
            let can = now_ns is Some && !before.hub.closed && before.hub.next_sequence < u64::MAX;
            &&& run_after.first is None <==> can
            &&& run_after.first matches Some(failure) ==> failure.phase == ClosePhase::Start
            &&& !can ==> after.hub == before.hub
            &&& can ==> exists|draft: EventDraft|
                {
                    &&& #[trigger] before.hub.published(now_ns->0, draft) == after.hub
                    &&& draft.class == EventClass::Critical
                    &&& draft.kind == EventKind::State
                    &&& draft.code == "runtime.closing"
                    &&& draft.severity == Severity::Info
                }
            &&& after.tree[before.root.node as int].cancelled
                || !before.tree[before.root.node as int].active
            &&& after.operations == before.operations
            &&& after.resources == before.resources
            &&& after.tasks == before.tasks
            &&& run_after.stage == CloseStage::RootHooks
        }),
{
    let node = before.root.node as int;
    if before.tree[node].active && !before.tree[node].cancelled {
        assert(crate::cancellation::reached(before.tree, node, node));
    }
}

proof fn lemma_live_slots(operations: Seq<OperationModel>)
    requires
        operations.len() <= usize::MAX,
    ensures
        forall|k: int|
            #![trigger operations[k]]
            0 <= k < operations.len() ==> (live_slots(operations).contains(k as usize) <==> (
            operations[k].state == OperationState::Pending || operations[k].state
                == OperationState::Running || operations[k].state == OperationState::Cancelling)),
        forall|i: int|
            0 <= i < live_slots(operations).len() ==> (#[trigger] live_slots(operations)[i])
                < operations.len(),
        forall|i: int, j: int|
            #![trigger live_slots(operations)[i], live_slots(operations)[j]]
            0 <= i < j < live_slots(operations).len() ==> live_slots(operations)[i] < live_slots(
                operations,
            )[j],
    decreases operations.len(),
{
    if operations.len() > 0 {
        let rest = operations.drop_last();
        let before = live_slots(rest);
        let all = live_slots(operations);
        let last = (operations.len() - 1) as usize;
        lemma_live_slots(rest);
        assert forall|k: int| #![trigger operations[k]] 0 <= k < operations.len() implies (
        all.contains(k as usize) <==> (operations[k].state == OperationState::Pending
            || operations[k].state == OperationState::Running || operations[k].state
            == OperationState::Cancelling)) by {
            if k < rest.len() {
                assert(rest[k] == operations[k]);
                if before.contains(k as usize) {
                    let i = choose|i: int| 0 <= i < before.len() && before[i] == k as usize;
                    assert(all[i] == k as usize);
                }
                if all.contains(k as usize) {
                    let i = choose|i: int| 0 <= i < all.len() && all[i] == k as usize;
                    if i < before.len() {
                        assert(before[i] == k as usize);
                    }
                }
            } else {
                if all.len() > before.len() {
                    assert(all[all.len() - 1] == last);
                }
                if all.contains(k as usize) {
                    let i = choose|i: int| 0 <= i < all.len() && all[i] == k as usize;
                    if i < before.len() {
                        assert(before[i] < rest.len());
                    }
                }
            }
        }
    }
}

/// Close asks every operation that has not ended to stop, the older one first: once the root's
/// hooks are through, it has listed each pending, running and cancelling operation.
pub proof fn law_close_lists_every_unfinished_operation(
    before: RuntimeModel,
    run: RunModel,
    reply: CloseReply,
    now_ns: Option<u64>,
    after: RuntimeModel,
    run_after: RunModel,
    action: CloseAction,
    k: int,
)
    requires
        run.stage == CloseStage::RootHooks,
        close_step(before, run, reply, now_ns, after, run_after, action),
        run_after.stage != CloseStage::RootHooks,
        after.operations.len() <= usize::MAX,
        0 <= k < after.operations.len(),
    ensures
        run_after.stage == CloseStage::RequestCancel,
        run_after.next == 0,
        run_after.operations.contains(k as usize) <==> after.operations[k].state
            == OperationState::Pending || after.operations[k].state == OperationState::Running
            || after.operations[k].state == OperationState::Cancelling,
        forall|i: int, j: int|
            #![trigger run_after.operations[i], run_after.operations[j]]
            0 <= i < j < run_after.operations.len() ==> run_after.operations[i]
                < run_after.operations[j],
{
    lemma_live_slots(after.operations);
}

/// The listed operations are asked one after the other, each for the close of its parent: one
/// without an owner that was pending or running and not about to end cancels, an owned one learns
/// the cause. Once all were asked, close asks which resources are alive.
pub proof fn law_close_cancels_for_the_parent(
    before: RuntimeModel,
    run: RunModel,
    reply: CloseReply,
    now_ns: Option<u64>,
    after: RuntimeModel,
    run_after: RunModel,
    action: CloseAction,
)
    requires
        before.valid(),
        run.stage == CloseStage::RequestCancel,
        run.next < run.operations.len() ==> run.operations[run.next as int]
            < before.operations.len(),
        run.operations.len() <= usize::MAX,
        close_step(before, run, reply, now_ns, after, run_after, action),
    ensures
        run.next >= run.operations.len() ==> action is NameLiveResources && after == before
            && run_after.stage == CloseStage::Resources,
        run.next < run.operations.len() ==> {
            let slot = run.operations[run.next as int] as int;
            let old = before.operations[slot];
            let new = after.operations[slot];
            &&& run_after.next == run.next + 1
            &&& run_after.first == run.first
            &&& after.resources == before.resources
            &&& after.tasks == before.tasks
            &&& after.operations.len() == before.operations.len()
            &&& old.owner is None && !old.terminal_in_progress && (old.state
                == OperationState::Pending || old.state == OperationState::Running) ==> new.state
                == OperationState::Cancelling && new.cancellation_reason == Some(
                CancellationReason::ParentClose,
            )
            &&& old.owner is Some && (old.state == OperationState::Pending || old.state
                == OperationState::Running) ==> new.state == old.state && new.cancellation_reason
                == match old.cancellation_reason {
                Some(reason) => Some(reason),
                None => Some(CancellationReason::ParentClose),
            }
            &&& forall|k: int|
                #![trigger after.operations[k]]
                0 <= k < before.operations.len() && k != slot ==> after.operations[k]
                    == before.operations[k]
        },
{
    if run.next < run.operations.len() {
        assert(before.operations[run.operations[run.next as int] as int].valid());
    }
}

/// Close keeps to the resources that are both registered and alive, in the order of their
/// registration; the others are forgotten.
pub proof fn law_close_keeps_to_living_resources(
    before: RuntimeModel,
    run: RunModel,
    alive: Vec<ResourceId>,
    now_ns: Option<u64>,
    after: RuntimeModel,
    run_after: RunModel,
    action: CloseAction,
    id: ResourceId,
)
    requires
        before.valid(),
        run.stage == CloseStage::Resources,
        close_step(
            before,
            run,
            CloseReply::LiveResources(alive),
            now_ns,
            after,
            run_after,
            action,
        ),
    ensures
        run_after.resources.contains(id) <==> before.resources.contains(id) && alive@.contains(id),
        forall|i: int, j: int|
            #![trigger run_after.resources[i], run_after.resources[j]]
            0 <= i < j < run_after.resources.len() ==> run_after.resources[i].0
                < run_after.resources[j].0,
        after.resources == run_after.resources,
        run_after.next == 0,
        run_after.stage == CloseStage::CloseResource,
        after.operations == before.operations,
        after.tasks == before.tasks,
        run_after.first == run.first,
{
    broadcast use vstd::seq_lib::group_filter_ensures;

    let living = |resource: ResourceId| alive@.contains(resource);
    let kept = before.resources.filter(living);
    assert(surviving(before.resources, alive@) == kept);
    crate::runtime::close::lemma_surviving_stays_in_order(
        before.resources,
        alive@,
        before.next_id,
    );
    if before.resources.contains(id) && alive@.contains(id) {
        let k = choose|k: int| 0 <= k < before.resources.len() && before.resources[k] == id;
        assert(living(before.resources[k]));
        assert(kept.contains(before.resources[k]));
    }
    if kept.contains(id) {
        let i = choose|i: int| 0 <= i < kept.len() && kept[i] == id;
        assert(living(kept[i]));
        assert(before.resources.contains(kept[i]));
    }
}

/// Every listed resource is asked to close, in its turn. A failure is announced with the resource
/// and its words, and a panic as that; the first of them is kept, none stops the work, and none
/// changes what is registered.
pub proof fn law_resource_failures_are_told_and_survived(
    before: RuntimeModel,
    run: RunModel,
    reply: CloseReply,
    now_ns: Option<u64>,
    after: RuntimeModel,
    run_after: RunModel,
    action: CloseAction,
)
    requires
        run.stage == CloseStage::ResourceReply,
        run.next < run.resources.len() <= usize::MAX,
        reply is ResourceClosed || reply is ResourceFailed || reply is ResourcePanicked,
        close_step(before, run, reply, now_ns, after, run_after, action),
    ensures
        ({
            let id = run.resources[run.next as int];
            &&& run_after.stage == CloseStage::CloseResource
            &&& run_after.next == run.next + 1
            &&& run_after.resources == run.resources
            &&& run_after.first == run.first
            &&& after.resources == before.resources
            &&& after.operations == before.operations
            &&& after.tasks == before.tasks
            &&& action is Continue
            &&& run.resource is Some ==> run_after.resource == run.resource
            &&& reply is ResourceClosed ==> run_after.resource == run.resource && after == before
            &&& reply !is ResourceClosed && run.resource is None ==> (
            run_after.resource matches Some(failure) && failure.resource_id == Some(id)
                && failure.task_id is None && failure.phase == ClosePhase::ResourceCleanup)
            &&& reply matches CloseReply::ResourceFailed(text) ==> (run.resource is None ==> (
            run_after.resource matches Some(failure) && failure.diagnostic == text@))
            &&& reply !is ResourceClosed && now_ns is Some && !before.hub.closed
                && before.hub.next_sequence < u64::MAX ==> exists|draft: EventDraft|
                {
                    &&& #[trigger] before.hub.published(now_ns->0, draft) == after.hub
                    &&& draft.class == EventClass::Critical
                    &&& draft.kind == EventKind::Warning
                    &&& draft.severity == Severity::Error
                    &&& draft.resource_id == Some(id)
                    &&& draft.operation_id is None
                    &&& reply is ResourcePanicked ==> draft.code
                        == "runtime.resource.close_panicked"
                    &&& reply matches CloseReply::ResourceFailed(text) ==> draft.code
                        == "runtime.resource.close_failed" && (draft.detail matches Some(detail)
                        && detail@ == text@)
                }
        }),
{
}

/// Resources are asked one by one as they are listed; behind the last one, every registered task
/// but the deadline worker is listed to be joined, and the first failure of a resource becomes that
/// of the close where none came before.
pub proof fn law_resources_come_before_tasks(
    before: RuntimeModel,
    run: RunModel,
    reply: CloseReply,
    now_ns: Option<u64>,
    after: RuntimeModel,
    run_after: RunModel,
    action: CloseAction,
    k: int,
)
    requires
        run.stage == CloseStage::CloseResource,
        close_step(before, run, reply, now_ns, after, run_after, action),
        0 <= k < before.tasks.len(),
    ensures
        after == before,
        run.next < run.resources.len() ==> run_after.stage == CloseStage::ResourceReply && (
        action matches CloseAction::CloseResource(id) && id == run.resources[run.next as int]),
        run.next >= run.resources.len() ==> {
            &&& run_after.stage == CloseStage::JoinTask
            &&& run_after.next == 0
            &&& run_after.first == match run.first {
                Some(failure) => Some(failure),
                None => run.resource,
            }
            &&& before.tasks[k].life.registry_linked && before.tasks[k].id != before.deadline_task
                <==> exists|i: int|
                0 <= i < run_after.tasks.len() && (#[trigger] run_after.tasks[i]).slot == k
            &&& forall|i: int|
                0 <= i < run_after.tasks.len() ==> (#[trigger] run_after.tasks[i]).runtime
                    == before.id && run_after.tasks[i].slot < before.tasks.len()
                    && run_after.tasks[i].id == before.tasks[run_after.tasks[i].slot as int].id
        },
{
    if run.next >= run.resources.len() {
        assert(before.lists_external_tasks(run_after.tasks));
    }
}

/// Tasks are joined one by one as they are listed; behind the last one, the oldest task whose body
/// panicked is the first failure where none came before.
pub proof fn law_panicked_tasks_are_told(
    before: RuntimeModel,
    run: RunModel,
    reply: CloseReply,
    now_ns: Option<u64>,
    after: RuntimeModel,
    run_after: RunModel,
    action: CloseAction,
    k: int,
)
    requires
        run.stage == CloseStage::JoinTask,
        close_step(before, run, reply, now_ns, after, run_after, action),
        0 <= k < before.failures.len(),
    ensures
        after == before,
        run.next < run.tasks.len() ==> run_after.stage == CloseStage::TaskReply && (
        action matches CloseAction::JoinTask(task) && task == run.tasks[run.next as int])
            && run_after.first == run.first,
        run.next >= run.tasks.len() ==> {
            &&& run_after.stage == CloseStage::Finalize
            &&& run_after.next == 0
            &&& run_after.operations == run.operations
            &&& run.first is Some ==> run_after.first == run.first
            &&& run.first is None ==> (run_after.first matches Some(failure) && failure.phase
                == ClosePhase::TaskJoin && (failure.task_id matches Some(task)
                && before.failures.contains(task) && task.0 <= before.failures[k].0))
        },
{
}

/// Without a panicked task, joining the last one is no failure.
pub proof fn law_joined_tasks_are_no_failure(
    before: RuntimeModel,
    run: RunModel,
    reply: CloseReply,
    now_ns: Option<u64>,
    after: RuntimeModel,
    run_after: RunModel,
    action: CloseAction,
)
    requires
        run.stage == CloseStage::JoinTask,
        run.next >= run.tasks.len(),
        before.failures.len() == 0,
        close_step(before, run, reply, now_ns, after, run_after, action),
    ensures
        run_after.first == run.first,
        run_after.stage == CloseStage::Finalize,
{
    let task = choose|task: Option<TaskId>| #[trigger] before.is_first_failure(task);
}

/// A joined task is followed by the next one. A task that would have to join itself ends the
/// joining and is the first failure where none came before.
pub proof fn law_task_replies_are_taken(
    before: RuntimeModel,
    run: RunModel,
    reply: CloseReply,
    now_ns: Option<u64>,
    after: RuntimeModel,
    run_after: RunModel,
    action: CloseAction,
)
    requires
        run.stage == CloseStage::TaskReply,
        run.next < run.tasks.len() <= usize::MAX,
        close_step(before, run, reply, now_ns, after, run_after, action),
    ensures
        after == before,
        reply is TaskJoined ==> run_after.stage == CloseStage::JoinTask && run_after.next
            == run.next + 1 && run_after.first == run.first && run_after.tasks == run.tasks,
        reply is TaskSelfJoin ==> run_after.stage == CloseStage::Finalize && run_after.next == 0
            && (run.first is Some ==> run_after.first == run.first) && (run.first is None ==> (
        run_after.first matches Some(failure) && failure.phase == ClosePhase::TaskJoin
            && failure.task_id == Some(run.tasks[run.next as int].id))),
        !(reply is TaskJoined || reply is TaskSelfJoin) ==> run_after == run && (
        action matches CloseAction::JoinTask(task) && task == run.tasks[run.next as int]),
{
}

/// What close does with a listed operation in its turn. One that ended is passed over. One that
/// cancels without an owner is made to end as cancelled; one that is about to end is waited for,
/// and looked at again. An owned one whose recorded evidence settles it is settled by supervision;
/// where neither owner nor evidence is left, that is a failure of the close, and the operation
/// stays unsettled.
pub proof fn law_close_ends_every_operation(
    before: RuntimeModel,
    run: RunModel,
    reply: CloseReply,
    now_ns: Option<u64>,
    after: RuntimeModel,
    run_after: RunModel,
    action: CloseAction,
)
    requires
        before.valid(),
        run.stage == CloseStage::Finalize,
        run.next < run.operations.len() <= usize::MAX,
        run.operations[run.next as int] < before.operations.len(),
        close_step(before, run, reply, now_ns, after, run_after, action),
    ensures
        ({
            let slot = run.operations[run.next as int] as int;
            let old = before.operations[slot];
            let new = after.operations[slot];
            let ended = old.state == OperationState::Succeeded || old.state
                == OperationState::Failed || old.state == OperationState::Cancelled;
            &&& run_after.first == run.first
            &&& run_after.operations == run.operations
            &&& after.resources == before.resources
            &&& after.tasks == before.tasks
            &&& ended ==> after == before && run_after.next == run.next + 1 && run_after.stage
                == CloseStage::Finalize
            &&& old.owner is None && old.state == OperationState::Cancelling
                && !old.terminal_in_progress ==> {
                &&& new.terminal_in_progress
                &&& new.finishing matches Some(transaction) && (
                transaction.primary matches PrimaryModel::Cancellation(reason)
                    && old.cancellation_reason == Some(reason))
                &&& run_after.stage == CloseStage::FinalizeHooks
                &&& !run_after.settles
                &&& run_after.next == run.next
            }
            &&& old.owner is None && !ended && old.terminal_in_progress ==> after == before
                && run_after == run && (action matches CloseAction::Await(handle) && handle.slot
                == slot && handle.id == old.id && handle.runtime == before.id)
            &&& old.owner is Some && !ended && old.terminal_in_progress && old.finishing is Some && (
            old.owner->0.claimed is Some) ==> after == before && run_after == run && (
            action matches CloseAction::Await(handle) && handle.slot == slot)
            &&& old.owner is Some && !ended && !old.terminal_in_progress && (
            old.owner->0.handoff_record is None || !old.owner->0.arbiter.primary_owner_joined) ==> {
                &&& new.state == old.state
                &&& run_after.next == run.next + 1
                &&& run_after.stage == CloseStage::Finalize
                &&& run.operation is Some || run.first is Some || (
                run_after.operation matches Some(failure) && failure.phase
                    == ClosePhase::OperationFinalization)
                &&& run.operation is Some ==> run_after.operation == run.operation
            }
        }),
{
    assert(before.operations[run.operations[run.next as int] as int].valid());
}

/// Behind the last operation the deadline worker is stopped.
pub proof fn law_worker_is_stopped_behind_the_operations(
    before: RuntimeModel,
    run: RunModel,
    reply: CloseReply,
    now_ns: Option<u64>,
    after: RuntimeModel,
    run_after: RunModel,
    action: CloseAction,
)
    requires
        run.stage == CloseStage::Finalize,
        run.next >= run.operations.len(),
        close_step(before, run, reply, now_ns, after, run_after, action),
    ensures
        after == before,
        run_after.stage == CloseStage::StopWorker,
        run_after.first == run.first,
        run_after.operation == run.operation,
{
}

/// Stopping the worker resolves every deadline that is left, reserved or armed, and nothing can be
/// scheduled any more; the worker is joined exactly where it still runs.
pub proof fn law_stopping_the_worker_resolves_the_schedule(
    before: RuntimeModel,
    run: RunModel,
    reply: CloseReply,
    now_ns: Option<u64>,
    after: RuntimeModel,
    run_after: RunModel,
    action: CloseAction,
)
    requires
        run.stage == CloseStage::StopWorker || run.stage == CloseStage::ContainWorker,
        close_step(before, run, reply, now_ns, after, run_after, action),
    ensures
        !after.scheduler.admission_open,
        after.scheduler.pending.len() == 0,
        after.scheduler.entries.len() == 0,
        after.operations == before.operations,
        after.tasks == before.tasks,
        after.worker_running == before.worker_running,
        run_after.first == run.first,
        action matches CloseAction::StopWorker(notices, task) && {
            &&& notices@.len() == before.scheduler.pending.len() + before.scheduler.entries.len()
            &&& task is Some <==> before.worker_running
            &&& task matches Some(task) ==> task.id == before.deadline_task && task.runtime
                == before.id
        },
        before.worker_running ==> run_after.stage == if run.stage == CloseStage::StopWorker {
            CloseStage::WorkerReply
        } else {
            CloseStage::ContainReply
        },
        !before.worker_running ==> run_after.stage == if run.stage == CloseStage::StopWorker {
            CloseStage::Converge
        } else {
            CloseStage::Report
        },
{
}

/// A worker that was joined no longer runs. That it completed is no failure; a panic of it, or an
/// attempt to join itself, is one, unless a failure came before or an operation was lost.
pub proof fn law_worker_failures_are_told(
    before: RuntimeModel,
    run: RunModel,
    reply: CloseReply,
    now_ns: Option<u64>,
    after: RuntimeModel,
    run_after: RunModel,
    action: CloseAction,
)
    requires
        run.stage == CloseStage::WorkerReply,
        reply is WorkerJoined || reply is WorkerSelfJoin,
        close_step(before, run, reply, now_ns, after, run_after, action),
    ensures
        !after.worker_running,
        after.operations == before.operations,
        after.scheduler == before.scheduler,
        run_after.stage == CloseStage::Converge,
        reply == CloseReply::WorkerJoined(SupervisedTaskOutcome::Completed) ==> run_after.first
            == run.first,
        run.first is Some || run.operation is Some ==> run_after.first == run.first,
        reply != CloseReply::WorkerJoined(SupervisedTaskOutcome::Completed) && run.first is None
            && run.operation is None ==> (run_after.first matches Some(failure) && failure.phase
            == ClosePhase::InternalTaskJoin && failure.task_id == Some(before.deadline_task)),
{
}

proof fn lemma_unfinished_is_counted(operations: Seq<OperationModel>, k: int)
    requires
        0 <= k < operations.len(),
        operations[k].state == OperationState::Pending || operations[k].state
            == OperationState::Running || operations[k].state == OperationState::Cancelling,
    ensures
        active_operations(operations) > 0,
    decreases operations.len(),
{
    if k < operations.len() - 1 {
        assert(operations.drop_last()[k] == operations[k]);
        lemma_unfinished_is_counted(operations.drop_last(), k);
    }
}

proof fn lemma_registered_is_counted(tasks: Seq<TaskRecordModel>, k: int)
    requires
        0 <= k < tasks.len(),
        tasks[k].life.registry_linked,
    ensures
        active_tasks(tasks) > 0,
    decreases tasks.len(),
{
    if k < tasks.len() - 1 {
        assert(tasks.drop_last()[k] == tasks[k]);
        lemma_registered_is_counted(tasks.drop_last(), k);
    }
}

/// A close ends well only where nothing failed and nothing is left: no operation that is pending,
/// running or cancelling, no resource and no registered task. The failure that it tells is the
/// first one; a lost operation comes before what it left behind.
pub proof fn law_what_is_left_is_a_failure(
    before: RuntimeModel,
    run: RunModel,
    reply: CloseReply,
    now_ns: Option<u64>,
    after: RuntimeModel,
    run_after: RunModel,
    action: CloseAction,
    slot: int,
    task: int,
)
    requires
        run.stage == CloseStage::Converge,
        close_step(before, run, reply, now_ns, after, run_after, action),
    ensures
        ({
            let operation_left = 0 <= slot < before.operations.len() && (
            before.operations[slot].state == OperationState::Pending
                || before.operations[slot].state == OperationState::Running
                || before.operations[slot].state == OperationState::Cancelling);
            let task_left = 0 <= task < before.tasks.len()
                && before.tasks[task].life.registry_linked;
            &&& after == before
            &&& run.first is Some ==> run_after.stage == CloseStage::Contain && run_after.first
                == run.first
            &&& run.first is None && run.operation is Some ==> run_after.stage
                == CloseStage::Contain && run_after.first == run.operation
            &&& run.first is None && run.operation is None && (before.resources.len() > 0
                || operation_left || task_left) ==> run_after.stage == CloseStage::Contain && (
            run_after.first matches Some(failure) && failure.phase
                == ClosePhase::RegistryConvergence)
            &&& run_after.stage == CloseStage::FinalEvent ==> before.resources.len() == 0
                && !operation_left && !task_left && run.first is None && run.operation is None
        }),
{
    if 0 <= slot < before.operations.len() && (before.operations[slot].state
        == OperationState::Pending || before.operations[slot].state == OperationState::Running
        || before.operations[slot].state == OperationState::Cancelling) {
        lemma_unfinished_is_counted(before.operations, slot);
    }
    if 0 <= task < before.tasks.len() && before.tasks[task].life.registry_linked {
        lemma_registered_is_counted(before.tasks, task);
    }
}

/// The last word of a close that ends well is the event that the Runtime is closed, which passes
/// every filter; with it production ends and the outcome is saved. Without a time for it, the close
/// fails instead.
pub proof fn law_closed_is_the_last_word(
    before: RuntimeModel,
    run: RunModel,
    reply: CloseReply,
    now_ns: Option<u64>,
    after: RuntimeModel,
    run_after: RunModel,
    action: CloseAction,
)
    requires
        run.stage == CloseStage::FinalEvent,
        !before.hub.closed,
        before.hub.next_sequence < u64::MAX,
        close_step(before, run, reply, now_ns, after, run_after, action),
    ensures
        now_ns matches Some(time_ns) ==> {
            &&& after.state == RuntimeState::Closed
            &&& after.outcome == Some(OutcomeModel::Closed)
            &&& after.close_owner is None
            &&& after.hub.closed
            &&& action matches CloseAction::Done(outcome) && outcome@ == OutcomeModel::Closed
            &&& run_after.stage == CloseStage::Done
            &&& exists|draft: EventDraft|
                {
                    &&& #[trigger] before.hub.finished(time_ns, draft) == after.hub
                    &&& draft.class == EventClass::Critical
                    &&& draft.kind == EventKind::State
                    &&& draft.code == "runtime.closed"
                    &&& draft.severity == Severity::Info
                }
        },
        now_ns is None ==> after == before && run_after.stage == CloseStage::Contain && (
        run_after.first matches Some(failure) && failure.phase == ClosePhase::FinalEvent),
{
}

/// A close that fails says so in its last event, with the words and the resource of its first
/// failure, and saves the report of it. Without a time for the event it is tried once more.
pub proof fn law_failed_close_says_why(
    before: RuntimeModel,
    run: RunModel,
    reply: CloseReply,
    now_ns: Option<u64>,
    after: RuntimeModel,
    run_after: RunModel,
    action: CloseAction,
)
    requires
        run.stage == CloseStage::Report,
        run.first is Some,
        !before.hub.closed,
        before.hub.next_sequence < u64::MAX,
        close_step(before, run, reply, now_ns, after, run_after, action),
    ensures
        now_ns matches Some(time_ns) ==> {
            &&& after.state == RuntimeState::CloseFailed
            &&& after.close_owner is None
            &&& after.hub.closed
            &&& run_after.stage == CloseStage::Done
            &&& after.outcome matches Some(OutcomeModel::Failed(report)) && {
                &&& report.phase == run.first->0.phase
                &&& report.diagnostic == run.first->0.diagnostic
                &&& report.resource_id == run.first->0.resource_id
                &&& report.task_id == run.first->0.task_id
                &&& report.counts.active_resources == before.resources.len()
                &&& report.counts.active_operations == active_operations(before.operations)
                &&& report.counts.active_tasks == active_tasks(before.tasks)
                &&& action matches CloseAction::Done(outcome) && outcome@ == OutcomeModel::Failed(
                    report,
                )
            }
            &&& exists|draft: EventDraft|
                {
                    &&& #[trigger] before.hub.finished(time_ns, draft) == after.hub
                    &&& draft.class == EventClass::Critical
                    &&& draft.kind == EventKind::State
                    &&& draft.code == "runtime.close_failed"
                    &&& draft.severity == Severity::Error
                    &&& draft.resource_id == run.first->0.resource_id
                    &&& draft.detail matches Some(detail) && detail@ == run.first->0.diagnostic
                }
        },
        now_ns is None ==> after == before && run_after.stage == CloseStage::Retry && (
        run_after.report matches Some(report) && report.phase == run.first->0.phase
            && report.diagnostic == run.first->0.diagnostic && report.resource_id
            == run.first->0.resource_id && report.task_id == run.first->0.task_id),
{
}

/// The second try tells the report that the first one wrote, with the time of the last event where
/// it has none of its own; whatever comes of it, production ends and the outcome is saved.
pub proof fn law_second_try_ends_the_close(
    before: RuntimeModel,
    run: RunModel,
    reply: CloseReply,
    now_ns: Option<u64>,
    after: RuntimeModel,
    run_after: RunModel,
    action: CloseAction,
)
    requires
        run.stage == CloseStage::Retry,
        run.report is Some,
        close_step(before, run, reply, now_ns, after, run_after, action),
    ensures
        after.state == RuntimeState::CloseFailed,
        after.outcome == Some(OutcomeModel::Failed(run.report->0)),
        after.hub.closed,
        after.close_owner is None,
        run_after.stage == CloseStage::Done,
        action matches CloseAction::Done(outcome) && outcome@ == OutcomeModel::Failed(
            run.report->0,
        ),
        !before.hub.closed && before.hub.next_sequence < u64::MAX && now_ns is Some ==> exists|
            draft: EventDraft,
        |
            {
                &&& #[trigger] before.hub.finished(now_ns->0, draft) == after.hub
                &&& draft.code == "runtime.close_failed"
                &&& draft.resource_id == run.report->0.resource_id
                &&& draft.detail matches Some(detail) && detail@ == run.report->0.diagnostic
            },
        !before.hub.closed && before.hub.next_sequence < u64::MAX && now_ns is None ==> exists|
            draft: EventDraft,
        |
            {
                &&& #[trigger] before.hub.finished(before.hub.last_timestamp_ns, draft) == after.hub
                &&& draft.code == "runtime.close_failed"
                &&& draft.resource_id == run.report->0.resource_id
                &&& draft.detail matches Some(detail) && detail@ == run.report->0.diagnostic
            },
{
}

/// A failed close cancels the root before anything else, and then stops the worker.
pub proof fn law_failed_close_cancels_the_root(
    before: RuntimeModel,
    run: RunModel,
    reply: CloseReply,
    now_ns: Option<u64>,
    after: RuntimeModel,
    run_after: RunModel,
    action: CloseAction,
)
    requires
        before.valid(),
        run.stage == CloseStage::Contain,
        close_step(before, run, reply, now_ns, after, run_after, action),
    ensures
        after.tree[before.root.node as int].cancelled
            || !before.tree[before.root.node as int].active,
        run_after.stage == CloseStage::ContainHooks,
        run_after.first == run.first,
        after.operations == before.operations,
        after.hub == before.hub,
{
    let node = before.root.node as int;
    if before.tree[node].active && !before.tree[node].cancelled {
        assert(crate::cancellation::reached(before.tree, node, node));
    }
}

/// A panic in a phase of the work is a failure of that phase, and has the close contained; one
/// while it is contained goes on to the next step of that, and keeps the failure that is to be
/// told.
pub proof fn law_panics_do_not_stop_a_close(run: RunModel)
    ensures
        run.stage == CloseStage::Contain || run.stage == CloseStage::ContainHooks ==> panicked(
            run,
        ).stage == CloseStage::ContainWorker && panicked(run).first == run.first,
        run.stage == CloseStage::ContainWorker || run.stage == CloseStage::ContainReply
            ==> panicked(run).stage == CloseStage::Report && panicked(run).first == run.first,
        run.stage == CloseStage::Report || run.stage == CloseStage::Retry || run.stage
            == CloseStage::Done ==> panicked(run) == run,
        run.stage == CloseStage::Start || run.stage == CloseStage::RootHooks || run.stage
            == CloseStage::RequestCancel || run.stage == CloseStage::RequestHooks || run.stage
            == CloseStage::Resources || run.stage == CloseStage::CloseResource || run.stage
            == CloseStage::ResourceReply || run.stage == CloseStage::JoinTask || run.stage
            == CloseStage::TaskReply || run.stage == CloseStage::Finalize || run.stage
            == CloseStage::FinalizeHooks || run.stage == CloseStage::Settle || run.stage
            == CloseStage::StopWorker || run.stage == CloseStage::WorkerReply || run.stage
            == CloseStage::Converge || run.stage == CloseStage::FinalEvent ==> panicked(run).stage
            == CloseStage::Contain && (panicked(run).first matches Some(failure) && failure.phase
            == run.phase && failure.resource_id is None && failure.task_id is None),
{
}

proof fn lemma_prefix(runtime: RuntimeModel, hooks: Seq<u64>, first: int)
    requires
        0 <= first <= hooks.len(),
        forall|i: int| 0 <= i < first ==> runtime.target(#[trigger] hooks[i]) is Operation,
        first < hooks.len() ==> runtime.target(hooks[first]) is Caller,
    ensures
        runtime.operation_prefix(hooks) == first,
    decreases first,
{
    if first > 0 {
        let rest = hooks.skip(1);
        assert(runtime.target(hooks[0]) is Operation);
        assert forall|i: int| 0 <= i < first - 1 implies runtime.target(#[trigger] rest[i])
            is Operation by {
            assert(rest[i] == hooks[i + 1]);
        }
        lemma_prefix(runtime, rest, first - 1);
    }
}

/// A wave of hooks goes on where it stopped: the callbacks of callers are handed out one at a time,
/// in their order, and the hooks up to and with each one are done. Without a callback left the wave
/// is done.
pub proof fn law_callbacks_are_handed_out_in_order(
    before: RuntimeModel,
    run: RunModel,
    reply: CloseReply,
    now_ns: Option<u64>,
    after: RuntimeModel,
    run_after: RunModel,
    action: CloseAction,
    first: int,
)
    requires
        run.stage == CloseStage::RootHooks || run.stage == CloseStage::RequestHooks || run.stage
            == CloseStage::ContainHooks || run.stage == CloseStage::FinalizeHooks,
        close_step(before, run, reply, now_ns, after, run_after, action),
        0 <= first <= run.hooks.len(),
        forall|i: int| 0 <= i < first ==> before.target(#[trigger] run.hooks[i]) is Operation,
        first < run.hooks.len() ==> before.target(run.hooks[first]) is Caller,
    ensures
        first < run.hooks.len() ==> {
            &&& action matches CloseAction::RunHook(callback) && before.target(run.hooks[first])
                == HookTarget::Caller(callback)
            &&& run_after.hooks == run.hooks.skip(first + 1)
            &&& run_after.stage == run.stage
            &&& run_after.first == run.first
        },
        first == run.hooks.len() ==> !(action is RunHook) && run_after.hooks.len() == 0
            && run_after.stage == match run.stage {
            CloseStage::RootHooks => CloseStage::RequestCancel,
            CloseStage::RequestHooks => CloseStage::RequestCancel,
            CloseStage::ContainHooks => CloseStage::ContainWorker,
            _ => if run.settles {
                CloseStage::Settle
            } else {
                CloseStage::Finalize
            },
        },
{
    lemma_prefix(before, run.hooks, first);
}

/// The operations at the front of a wave hear of it, one after the other: what hears first is the
/// first one.
pub proof fn law_operations_hear_in_order(
    runtime: RuntimeModel,
    hooks: Seq<u64>,
    now_ns: Option<u64>,
)
    requires
        hooks.len() > 0,
    ensures
        runtime.target(hooks[0]) matches HookTarget::Operation(slot) ==> runtime.delivered(
            hooks,
            now_ns,
        ) == runtime.parent_closed(slot as int, now_ns).delivered(hooks.skip(1), now_ns),
        runtime.target(hooks[0]) is Caller ==> runtime.delivered(hooks, now_ns) == runtime,
        runtime.delivered(Seq::<u64>::empty(), now_ns) == runtime,
{
}

/// Once its hooks are through, an operation that close ends by itself is committed with its cause
/// of cancellation, without any cleanup to fail it; one that supervision settles is handed out to
/// be cleaned up, and committed with what came of that. Then the next operation has its turn.
pub proof fn law_ended_operations_are_committed(
    before: RuntimeModel,
    run: RunModel,
    reply: CloseReply,
    now_ns: Option<u64>,
    after: RuntimeModel,
    run_after: RunModel,
    action: CloseAction,
)
    requires
        run.stage == CloseStage::FinalizeHooks || run.stage == CloseStage::Settle,
        run.stage == CloseStage::FinalizeHooks ==> run.hooks.len() == 0,
        run.next < run.operations.len() <= usize::MAX,
        run.operations[run.next as int] < before.operations.len(),
        close_step(before, run, reply, now_ns, after, run_after, action),
    ensures
        ({
            let slot = run.operations[run.next as int] as int;
            let old = before.operations[slot];
            let new = after.operations[slot];
            let commits = run.stage == CloseStage::FinalizeHooks && !run.settles || run.stage
                == CloseStage::Settle && reply is Settled;
            &&& commits ==> run_after.stage == CloseStage::Finalize && run_after.next == run.next
                + 1 && run_after.first == run.first
            &&& !commits ==> after == before && run_after.next == run.next && run_after.stage
                == CloseStage::Settle && (action matches CloseAction::Settle(handle) && handle.slot
                == slot && handle.id == old.id && handle.runtime == before.id)
            &&& run.stage == CloseStage::FinalizeHooks && !run.settles ==> (
            old.finishing matches Some(transaction) ==> (
            transaction.primary matches PrimaryModel::Cancellation(reason) ==> new.state
                == OperationState::Cancelled && new.error == Some(
                crate::operation::cancellation_error_model(reason),
            ) && !new.terminal_in_progress))
            &&& commits && old.finishing is Some ==> (new.state == OperationState::Succeeded
                || new.state == OperationState::Failed || new.state == OperationState::Cancelled)
            &&& run.stage == CloseStage::Settle && (
            reply matches CloseReply::Settled(cleanup, panicked_observer) && old.finishing is Some
                && !cleanup@.domain_failed && cleanup@.error is None && !panicked_observer) ==> (
            old.finishing->0.primary matches PrimaryModel::Success(value) ==> new.state
                == OperationState::Succeeded && new.result == Some(value))
            &&& commits && old.finishing is None ==> after == before
        }),
{
    assert(before.first_callback(run.hooks) is None || run.hooks.len() > 0);
}

} // verus!
