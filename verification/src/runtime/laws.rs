//! What a Runtime promises across calls.

use crate::cancellation::{
    cancel_order, descends_live, law_cancel_reaches_every_live_descendant,
    law_reached_token_releases_its_hooks, reached, released_hooks, tree_valid, with_child,
    NodeModel,
};
use crate::operation::{
    terminal, CancellationReason, CleanupModel, OperationModel, OwnerModel,
};
use crate::model::{ResourceId, TaskId};
use crate::runtime::close::{
    close_step, reports, CloseAction, CloseReply, CloseStage, RunModel,
};
use crate::runtime::{
    active_operations, without_resource, HookTarget, OutcomeModel, RuntimeModel,
    RuntimeState, SupervisedTaskOutcome,
};
use vstd::prelude::*;

verus! {

/// Whether an operation knows that it is to stop, or is about to end.
pub open spec fn has_heard(operation: OperationModel) -> bool {
    terminal(operation.state) || operation.terminal_in_progress || operation.cancellation_reason
        is Some
}

impl RuntimeModel {
    /// The Runtime after a whole wave was delivered; what the caller's callbacks do is not part of
    /// it.
    pub open spec fn wave_delivered(self, hooks: Seq<u64>, now_ns: Option<u64>) -> RuntimeModel
        decreases hooks.len(),
    {
        if hooks.len() == 0 {
            self
        } else {
            let before = self.wave_delivered(hooks.drop_last(), now_ns);
            match self.target(hooks.last()) {
                HookTarget::Caller(callback) => before,
                HookTarget::Operation(slot) => before.parent_closed(slot as int, now_ns),
            }
        }
    }
}

proof fn lemma_wave_delivered(runtime: RuntimeModel, hooks: Seq<u64>, now_ns: Option<u64>)
    requires
        runtime.valid(),
    ensures
        runtime.wave_delivered(hooks, now_ns).operations.len() == runtime.operations.len(),
        forall|slot: int|
            #![trigger runtime.wave_delivered(hooks, now_ns).operations[slot]]
            0 <= slot < runtime.operations.len() && has_heard(runtime.operations[slot])
                ==> has_heard(runtime.wave_delivered(hooks, now_ns).operations[slot]),
        forall|slot: int|
            #![trigger runtime.wave_delivered(hooks, now_ns).operations[slot]]
            0 <= slot < runtime.operations.len() ==> runtime.wave_delivered(
                hooks,
                now_ns,
            ).operations[slot].valid(),
        forall|i: int|
            #![trigger hooks[i]]
            0 <= i < hooks.len() ==> (runtime.target(hooks[i]) matches HookTarget::Operation(slot)
                ==> has_heard(runtime.wave_delivered(hooks, now_ns).operations[slot as int])),
    decreases hooks.len(),
{
    if hooks.len() > 0 {
        let rest = hooks.drop_last();
        lemma_wave_delivered(runtime, rest, now_ns);
        let before = runtime.wave_delivered(rest, now_ns);
        let after = runtime.wave_delivered(hooks, now_ns);
        if let HookTarget::Operation(last) = runtime.target(hooks.last()) {
            assert(last < runtime.operations.len()) by {
                assert(runtime.hooks[hooks.last() as int] is Operation);
            }
            let operation = before.operations[last as int];
            assert(operation.valid());
            assert(after.operations[last as int] == operation.cancel_requested(
                CancellationReason::ParentClose,
            ));
            assert forall|slot: int|
                #![trigger after.operations[slot]]
                0 <= slot < runtime.operations.len() implies (has_heard(before.operations[slot])
                ==> has_heard(after.operations[slot])) && after.operations[slot].valid() by {
                if slot != last {
                    assert(after.operations[slot] == before.operations[slot]);
                }
            }
        }
        assert forall|i: int| #![trigger hooks[i]] 0 <= i < hooks.len() implies (runtime.target(
            hooks[i],
        ) matches HookTarget::Operation(slot) ==> has_heard(after.operations[slot as int])) by {
            if i < rest.len() {
                assert(rest[i] == hooks[i]);
                if let HookTarget::Operation(slot) = runtime.target(hooks[i]) {
                    assert(has_heard(before.operations[slot as int]));
                    assert(slot < runtime.operations.len()) by {
                        assert(runtime.hooks[hooks[i] as int] is Operation);
                    }
                    assert(has_heard(after.operations[slot as int]));
                }
            }
        }
    }
}

/// An operation listens to its own token: once the hooks of a cancellation that reaches the token
/// are delivered, the operation has heard of it.
pub proof fn law_cancellation_reaches_operations(
    runtime: RuntimeModel,
    id: int,
    slot: usize,
    now_ns: Option<u64>,
)
    requires
        runtime.valid(),
        slot < runtime.operations.len(),
        reached(runtime.tree, id, runtime.operations[slot as int].token.node as int),
    ensures
        has_heard(
            runtime.wave_delivered(
                released_hooks(runtime.tree, cancel_order(runtime.tree, id)),
                now_ns,
            ).operations[slot as int],
        ),
{
    let node = runtime.operations[slot as int].token.node as int;
    let wave = released_hooks(runtime.tree, cancel_order(runtime.tree, id));
    assert(runtime.operations[slot as int].valid());
    assert(runtime.listens(slot as int));
    let hook = runtime.tree[node].hooks[0].hook;
    law_reached_token_releases_its_hooks(runtime.tree, id, node, 0);
    lemma_wave_delivered(runtime, wave, now_ns);
    let i = choose|i: int| 0 <= i < wave.len() && wave[i] == hook;
    assert(runtime.target(wave[i]) == HookTarget::Operation(slot));
}

/// A new operation listens from the start, and every cancellation that reaches its parent reaches
/// it.
pub proof fn law_new_operation_listens(
    runtime: RuntimeModel,
    parent: usize,
    deadline_ns: Option<u64>,
    owner: Option<OwnerModel>,
    ids: int,
    id: int,
)
    requires
        runtime.valid(),
        parent < runtime.tree.len(),
        runtime.tree[parent as int].is_open(),
        runtime.tree.len() < usize::MAX,
        runtime.operations.len() <= usize::MAX,
        runtime.hooks.len() <= u64::MAX,
        reached(runtime.tree, id, parent as int),
    ensures
        ({
            let after = runtime.created(parent, deadline_ns, owner, ids);
            let node = runtime.tree.len() as int;
            &&& after.operations.last().token.node == node
            &&& reached(after.tree, id, node)
            &&& after.listens(runtime.operations.len() as int)
        }),
{
    let after = runtime.created(parent, deadline_ns, owner, ids);
    let node = runtime.tree.len() as int;
    let child = with_child(runtime.tree, parent);
    lemma_reached_survives_a_child(runtime.tree, parent, id, parent as int);
    assert(child[node].is_open());
    assert(reached(child, id, node));
    assert(child[node].hooks.len() == 0);
    assert(crate::cancellation::kept_hooks(child[node].hooks).len() == 0);
    lemma_reached_ignores_hooks(child, after.tree, id, node);
}

proof fn lemma_reached_survives_a_child(tree: Seq<NodeModel>, parent: usize, id: int, n: int)
    requires
        tree_valid(tree),
        parent < tree.len(),
        tree.len() < usize::MAX,
        reached(tree, id, n),
    ensures
        reached(with_child(tree, parent), id, n),
    decreases n,
{
    let after = with_child(tree, parent);
    assert(after[n].is_open() == tree[n].is_open());
    if n != id {
        lemma_reached_survives_a_child(tree, parent, id, tree[n].parent->0 as int);
    }
}

proof fn lemma_reached_ignores_hooks(
    tree: Seq<NodeModel>,
    after: Seq<NodeModel>,
    id: int,
    n: int,
)
    requires
        tree.len() == after.len(),
        forall|i: int|
            #![trigger after[i]]
            0 <= i < tree.len() ==> after[i].active == tree[i].active && after[i].cancelled
                == tree[i].cancelled && after[i].live == tree[i].live && after[i].parent
                == tree[i].parent,
        reached(tree, id, n),
    ensures
        reached(after, id, n),
    decreases n,
{
    assert(after[n].is_open());
    if n != id {
        lemma_reached_ignores_hooks(tree, after, id, tree[n].parent->0 as int);
    }
}

/// Cancelling the root of a Runtime cancels every live token below it.
pub proof fn law_close_cancels_child_tokens(runtime: RuntimeModel, n: int)
    requires
        runtime.valid(),
        descends_live(runtime.tree, runtime.root.node as int, n),
    ensures
        runtime.root_cancelled().tree[n].cancelled,
{
    law_cancel_reaches_every_live_descendant(runtime.tree, runtime.root.node as int, n);
}

proof fn lemma_active_operations_update(
    operations: Seq<OperationModel>,
    slot: int,
    operation: OperationModel,
)
    requires
        0 <= slot < operations.len(),
    ensures
        active_operations(operations.update(slot, operation)) == active_operations(operations) + (
        if terminal(operation.state) {
            0int
        } else {
            1int
        }) - (if terminal(operations[slot].state) {
            0int
        } else {
            1int
        }),
    decreases operations.len(),
{
    let after = operations.update(slot, operation);
    if slot == operations.len() - 1 {
        assert(after.drop_last() =~= operations.drop_last());
    } else {
        lemma_active_operations_update(operations.drop_last(), slot, operation);
        assert(after.drop_last() =~= operations.drop_last().update(slot, operation));
    }
}

/// A commit ends the supervision of exactly one operation, in the same step in which its terminal
/// state becomes visible.
pub proof fn law_commit_ends_supervision(
    runtime: RuntimeModel,
    slot: int,
    cleanup: CleanupModel,
    observer_panicked: bool,
    now_ns: Option<u64>,
)
    requires
        runtime.valid(),
        0 <= slot < runtime.operations.len(),
        runtime.operations[slot].finishing is Some,
        cleanup.valid(),
    ensures
        ({
            let after = runtime.put(
                slot,
                runtime.operations[slot].committed(cleanup, observer_panicked),
                true,
                now_ns,
            );
            &&& terminal(after.operations[slot].state)
            &&& active_operations(after.operations) == active_operations(runtime.operations) - 1
        }),
{
    let operation = runtime.operations[slot];
    let committed = operation.committed(cleanup, observer_panicked);
    assert(operation.valid());
    lemma_active_operations_update(runtime.operations, slot, committed);
}

/// Unregistering a resource twice is the same as once.
pub proof fn law_unregister_is_idempotent(resources: Seq<ResourceId>, id: ResourceId)
    ensures
        without_resource(without_resource(resources, id), id) == without_resource(resources, id),
        !without_resource(resources, id).contains(id),
    decreases resources.len(),
{
    reveal(Seq::filter);
    if resources.len() > 0 {
        let rest = resources.drop_last();
        let last = resources.last();
        let before = without_resource(rest, id);
        law_unregister_is_idempotent(rest, id);
        if last != id {
            let all = before.push(last);
            assert(without_resource(resources, id) == all);
            assert(all.drop_last() =~= before);
            assert(all.last() == last);
            assert(without_resource(all, id) == without_resource(before, id).push(last));
            assert forall|k: int| 0 <= k < all.len() implies (#[trigger] all[k]) != id by {
                if k < before.len() {
                    assert(before[k] == all[k]);
                    assert(before.contains(before[k]));
                }
            }
        }
    }
}

/// A task that was joined left the registry for good, and a panic of its body is remembered until
/// close reports it.
pub proof fn law_joined_task_is_final(runtime: RuntimeModel, slot: int)
    requires
        0 <= slot < runtime.tasks.len(),
    ensures
        !runtime.task_joined(slot).tasks[slot].life.registry_linked,
        runtime.tasks[slot].life.body_outcome == Some(SupervisedTaskOutcome::Panicked)
            ==> runtime.task_joined(slot).failures.contains(runtime.tasks[slot].id)
            && runtime.task_joined(slot).tasks[slot].life.panic_diagnostic_durable,
        forall|id: TaskId|
            runtime.failures.contains(id) ==> #[trigger] runtime.task_joined(
                slot,
            ).failures.contains(id),
{
    let task = runtime.tasks[slot];
    let after = runtime.task_joined(slot);
    let panicked = task.life.body_outcome == Some(SupervisedTaskOutcome::Panicked);
    if panicked && !runtime.failures.contains(task.id) {
        assert(after.failures[runtime.failures.len() as int] == task.id);
        assert forall|id: TaskId| runtime.failures.contains(id) implies #[trigger] runtime.task_joined(
            slot,
        ).failures.contains(id) by {
            let m = choose|m: int| 0 <= m < runtime.failures.len() && runtime.failures[m] == id;
            assert(after.failures[m] == id);
        }
    }
}

/// The first failure of a close is the one that it reports: no later step replaces it.
pub proof fn law_first_close_failure_is_kept(
    before: RuntimeModel,
    run: RunModel,
    reply: CloseReply,
    now_ns: Option<u64>,
    after: RuntimeModel,
    run_after: RunModel,
    action: CloseAction,
)
    requires
        close_step(before, run, reply, now_ns, after, run_after, action),
        run.stage != CloseStage::Start,
        run.stage != CloseStage::FinalEvent,
        run.first is Some,
    ensures
        run_after.first == run.first,
{
}

/// A close gets to its final event exactly when nothing failed and nothing is supervised any more.
pub proof fn law_final_event_needs_convergence(
    before: RuntimeModel,
    run: RunModel,
    reply: CloseReply,
    now_ns: Option<u64>,
    after: RuntimeModel,
    run_after: RunModel,
    action: CloseAction,
)
    requires
        close_step(before, run, reply, now_ns, after, run_after, action),
        run.stage == CloseStage::Converge,
    ensures
        run_after.stage == CloseStage::FinalEvent <==> before.converged() && run.first is None
            && run.operation is None,
        run_after.stage != CloseStage::FinalEvent ==> run_after.stage == CloseStage::Contain
            && run_after.first is Some,
{
}

/// A close that succeeds does so with its final event; one that fails tells of its first failure, or
/// of the report that it had written of it.
pub proof fn law_close_outcome_tells_what_happened(
    before: RuntimeModel,
    run: RunModel,
    reply: CloseReply,
    now_ns: Option<u64>,
    after: RuntimeModel,
    run_after: RunModel,
    action: CloseAction,
)
    requires
        before.state == RuntimeState::Closing,
        before.outcome is None,
        run.stage != CloseStage::Done,
        close_step(before, run, reply, now_ns, after, run_after, action),
    ensures
        after.outcome == Some(OutcomeModel::Closed) ==> run.stage == CloseStage::FinalEvent
            && after.state == RuntimeState::Closed && after.hub.closed,
        after.outcome matches Some(OutcomeModel::Failed(report)) ==> after.state
            == RuntimeState::CloseFailed && after.hub.closed && if run.stage == CloseStage::Report {
            reports(before, run.first->0, report)
        } else {
            run.stage == CloseStage::Retry && report == run.report->0
        },
{
    if run.stage == CloseStage::RootHooks || run.stage == CloseStage::RequestHooks || run.stage
        == CloseStage::ContainHooks || run.stage == CloseStage::FinalizeHooks {
        lemma_delivered_keeps_outcome(before, run.hooks, now_ns);
    }
}

/// Close saves its outcome once: a saved outcome never changes, and it is saved only after event
/// production has ended. No step admits anything again or hands the close to another caller.
pub proof fn law_close_outcome_is_saved_once(
    before: RuntimeModel,
    run: RunModel,
    reply: CloseReply,
    now_ns: Option<u64>,
    after: RuntimeModel,
    run_after: RunModel,
    action: CloseAction,
)
    requires
        before.state == RuntimeState::Closing && before.outcome is None || run.stage
            == CloseStage::Done && before.state != RuntimeState::Active && before.outcome is Some,
        close_step(before, run, reply, now_ns, after, run_after, action),
    ensures
        before.outcome is Some ==> after == before,
        before.outcome is None && after.outcome is Some ==> after.hub.closed && run_after.stage
            == CloseStage::Done && (action matches CloseAction::Done(outcome) && Some(outcome@)
            == after.outcome),
        after.state != RuntimeState::Active,
        after.closing == before.closing,
{
    if run.stage == CloseStage::RootHooks || run.stage == CloseStage::RequestHooks || run.stage
        == CloseStage::ContainHooks || run.stage == CloseStage::FinalizeHooks {
        lemma_delivered_keeps_outcome(before, run.hooks, now_ns);
    }
}

proof fn lemma_delivered_keeps_outcome(
    runtime: RuntimeModel,
    hooks: Seq<u64>,
    now_ns: Option<u64>,
)
    ensures
        runtime.delivered(hooks, now_ns).outcome == runtime.outcome,
        runtime.delivered(hooks, now_ns).state == runtime.state,
        runtime.delivered(hooks, now_ns).closing == runtime.closing,
    decreases hooks.len(),
{
    if hooks.len() > 0 {
        if let HookTarget::Operation(slot) = runtime.target(hooks[0]) {
            lemma_delivered_keeps_outcome(
                runtime.parent_closed(slot as int, now_ns),
                hooks.skip(1),
                now_ns,
            );
        }
    }
}

/// Where a running close stands among its phases; later phases come lower.
pub open spec fn phase_rank(stage: CloseStage) -> int {
    match stage {
        CloseStage::Start => 13,
        CloseStage::RootHooks => 12,
        CloseStage::RequestCancel | CloseStage::RequestHooks => 11,
        CloseStage::Resources => 10,
        CloseStage::CloseResource | CloseStage::ResourceReply => 9,
        CloseStage::JoinTask | CloseStage::TaskReply => 8,
        CloseStage::Finalize | CloseStage::FinalizeHooks | CloseStage::Settle => 7,
        CloseStage::StopWorker | CloseStage::WorkerReply => 6,
        CloseStage::Converge | CloseStage::FinalEvent => 5,
        CloseStage::Contain => 4,
        CloseStage::ContainHooks => 3,
        CloseStage::ContainWorker | CloseStage::ContainReply => 2,
        CloseStage::Report | CloseStage::Retry => 1,
        CloseStage::Done => 0,
    }
}

/// How many items the current phase still has to look at.
pub open spec fn items_left(run: RunModel) -> int {
    match run.stage {
        CloseStage::RequestCancel | CloseStage::RequestHooks => run.operations.len() - run.next,
        CloseStage::CloseResource | CloseStage::ResourceReply => run.resources.len() - run.next,
        CloseStage::JoinTask | CloseStage::TaskReply => run.tasks.len() - run.next,
        CloseStage::Finalize
        | CloseStage::FinalizeHooks
        | CloseStage::Settle => run.operations.len() - run.next,
        _ => 0,
    }
}

/// Where a running close stands within one item.
pub open spec fn item_rank(stage: CloseStage) -> int {
    match stage {
        CloseStage::RequestHooks => 1,
        CloseStage::CloseResource | CloseStage::JoinTask | CloseStage::StopWorker => 1,
        CloseStage::ContainWorker | CloseStage::Report | CloseStage::Converge => 1,
        CloseStage::Finalize => 2,
        CloseStage::FinalizeHooks => 1,
        _ => 0,
    }
}

/// Whether a close came closer to its end.
pub open spec fn progressed(run: RunModel, run_after: RunModel) -> bool {
    let phase = phase_rank(run.stage);
    let items = items_left(run);
    let item = item_rank(run.stage);
    let phase_after = phase_rank(run_after.stage);
    let items_after = items_left(run_after);
    let item_after = item_rank(run_after.stage);
    ||| phase_after < phase
    ||| phase_after == phase && 0 <= items_after < items
    ||| phase_after == phase && items_after == items && item_after < item
    ||| phase_after == phase && items_after == items && item_after == item
        && run_after.hooks.len() < run.hooks.len()
}

/// Close does not go round in circles: every step comes closer to the end, but for one that waits
/// for its answer again.
#[verifier::rlimit(30)]
#[verifier::spinoff_prover]
pub proof fn law_close_makes_progress(
    before: RuntimeModel,
    run: RunModel,
    reply: CloseReply,
    now_ns: Option<u64>,
    after: RuntimeModel,
    run_after: RunModel,
    action: CloseAction,
)
    requires
        close_step(before, run, reply, now_ns, after, run_after, action),
        run.stage == CloseStage::ResourceReply ==> run.next < run.resources.len() <= usize::MAX,
        run.stage == CloseStage::TaskReply ==> run.next < run.tasks.len() <= usize::MAX,
        run.stage == CloseStage::FinalizeHooks || run.stage == CloseStage::Settle ==> run.next
            < run.operations.len(),
        run.operations.len() <= usize::MAX,
    ensures
        run_after == run || progressed(run, run_after),
        run_after == run ==> !(action is Continue) || run.stage == CloseStage::Done,
{
    match run.stage {
        CloseStage::RootHooks | CloseStage::RequestHooks | CloseStage::ContainHooks => {
            lemma_hooks_progress(
                before,
                run,
                reply,
                now_ns,
                after,
                run_after,
                action,
            );
        },
        CloseStage::FinalizeHooks => {
            lemma_finalization_hooks_progress(
                before,
                run,
                reply,
                now_ns,
                after,
                run_after,
                action,
            );
        },
        CloseStage::Finalize | CloseStage::Settle => {
            lemma_finalization_progress(
                before,
                run,
                reply,
                now_ns,
                after,
                run_after,
                action,
            );
        },
        CloseStage::Start | CloseStage::RequestCancel | CloseStage::Resources => {
            lemma_request_progress(
                before,
                run,
                reply,
                now_ns,
                after,
                run_after,
                action,
            );
        },
        CloseStage::CloseResource | CloseStage::ResourceReply => {
            lemma_resource_progress(
                before,
                run,
                reply,
                now_ns,
                after,
                run_after,
                action,
            );
        },
        CloseStage::JoinTask | CloseStage::TaskReply => {
            lemma_task_progress(
                before,
                run,
                reply,
                now_ns,
                after,
                run_after,
                action,
            );
        },
        _ => {
            lemma_ending_progress(
                before,
                run,
                reply,
                now_ns,
                after,
                run_after,
                action,
            );
        },
    }
}

#[verifier::rlimit(30)]
#[verifier::spinoff_prover]
proof fn lemma_hooks_progress(
    before: RuntimeModel,
    run: RunModel,
    reply: CloseReply,
    now_ns: Option<u64>,
    after: RuntimeModel,
    run_after: RunModel,
    action: CloseAction,
)
    requires
        run.stage == CloseStage::RootHooks || run.stage == CloseStage::RequestHooks || run.stage == CloseStage::ContainHooks,
        close_step(before, run, reply, now_ns, after, run_after, action),
    ensures
        run_after == run || progressed(run, run_after),
        run_after == run ==> !(action is Continue) || run.stage == CloseStage::Done,
{
    lemma_prefix_is_bounded(before, run.hooks);
    if let Some(callback) = before.first_callback(run.hooks) {
        assert(run_after.hooks.len() < run.hooks.len());
    }
}

#[verifier::rlimit(30)]
#[verifier::spinoff_prover]
proof fn lemma_finalization_hooks_progress(
    before: RuntimeModel,
    run: RunModel,
    reply: CloseReply,
    now_ns: Option<u64>,
    after: RuntimeModel,
    run_after: RunModel,
    action: CloseAction,
)
    requires
        run.stage == CloseStage::FinalizeHooks,
        close_step(before, run, reply, now_ns, after, run_after, action),
        run.next < run.operations.len() <= usize::MAX,
    ensures
        run_after == run || progressed(run, run_after),
        run_after == run ==> !(action is Continue) || run.stage == CloseStage::Done,
{
    lemma_prefix_is_bounded(before, run.hooks);
    if let Some(callback) = before.first_callback(run.hooks) {
        assert(run_after.hooks.len() < run.hooks.len());
    }
}

#[verifier::rlimit(30)]
#[verifier::spinoff_prover]
proof fn lemma_finalization_progress(
    before: RuntimeModel,
    run: RunModel,
    reply: CloseReply,
    now_ns: Option<u64>,
    after: RuntimeModel,
    run_after: RunModel,
    action: CloseAction,
)
    requires
        run.stage == CloseStage::Finalize || run.stage == CloseStage::Settle,
        close_step(before, run, reply, now_ns, after, run_after, action),
        run.stage == CloseStage::Settle ==> run.next < run.operations.len(),
        run.operations.len() <= usize::MAX,
    ensures
        run_after == run || progressed(run, run_after),
        run_after == run ==> !(action is Continue) || run.stage == CloseStage::Done,
{
}

#[verifier::rlimit(30)]
#[verifier::spinoff_prover]
proof fn lemma_request_progress(
    before: RuntimeModel,
    run: RunModel,
    reply: CloseReply,
    now_ns: Option<u64>,
    after: RuntimeModel,
    run_after: RunModel,
    action: CloseAction,
)
    requires
        run.stage == CloseStage::Start || run.stage == CloseStage::RequestCancel || run.stage == CloseStage::Resources,
        close_step(before, run, reply, now_ns, after, run_after, action),
        run.operations.len() <= usize::MAX,
    ensures
        run_after == run || progressed(run, run_after),
        run_after == run ==> !(action is Continue) || run.stage == CloseStage::Done,
{
}

#[verifier::rlimit(30)]
#[verifier::spinoff_prover]
proof fn lemma_resource_progress(
    before: RuntimeModel,
    run: RunModel,
    reply: CloseReply,
    now_ns: Option<u64>,
    after: RuntimeModel,
    run_after: RunModel,
    action: CloseAction,
)
    requires
        run.stage == CloseStage::CloseResource || run.stage == CloseStage::ResourceReply,
        close_step(before, run, reply, now_ns, after, run_after, action),
        run.stage == CloseStage::ResourceReply ==> run.next < run.resources.len() <= usize::MAX,
    ensures
        run_after == run || progressed(run, run_after),
        run_after == run ==> !(action is Continue) || run.stage == CloseStage::Done,
{
}

#[verifier::rlimit(30)]
#[verifier::spinoff_prover]
proof fn lemma_task_progress(
    before: RuntimeModel,
    run: RunModel,
    reply: CloseReply,
    now_ns: Option<u64>,
    after: RuntimeModel,
    run_after: RunModel,
    action: CloseAction,
)
    requires
        run.stage == CloseStage::JoinTask || run.stage == CloseStage::TaskReply,
        close_step(before, run, reply, now_ns, after, run_after, action),
        run.stage == CloseStage::TaskReply ==> run.next < run.tasks.len() <= usize::MAX,
    ensures
        run_after == run || progressed(run, run_after),
        run_after == run ==> !(action is Continue) || run.stage == CloseStage::Done,
{
}

#[verifier::rlimit(30)]
#[verifier::spinoff_prover]
proof fn lemma_ending_progress(
    before: RuntimeModel,
    run: RunModel,
    reply: CloseReply,
    now_ns: Option<u64>,
    after: RuntimeModel,
    run_after: RunModel,
    action: CloseAction,
)
    requires
        phase_rank(run.stage) <= 6 && run.stage != CloseStage::ContainHooks,
        close_step(before, run, reply, now_ns, after, run_after, action),
    ensures
        run_after == run || progressed(run, run_after),
        run_after == run ==> !(action is Continue) || run.stage == CloseStage::Done,
{
}

proof fn lemma_prefix_is_bounded(runtime: RuntimeModel, hooks: Seq<u64>)
    ensures
        runtime.operation_prefix(hooks) <= hooks.len(),
    decreases hooks.len(),
{
    if hooks.len() > 0 {
        lemma_prefix_is_bounded(runtime, hooks.skip(1));
    }
}

/// A Runtime that stopped admitting work never admits any again, whoever closes it.
pub proof fn law_admission_never_reopens(
    runtime: RuntimeModel,
    thread: u64,
    outcome: OutcomeModel,
)
    ensures
        runtime.sealed().state != RuntimeState::Active,
        runtime.close_begun(thread).state != RuntimeState::Active,
        runtime.close_completed(outcome).state != RuntimeState::Active,
{
}

} // verus!
