//! Runtime: the root owner of operations, resources, tasks, events, deadlines and cancellation.
//!
//! All state is plain data behind one exclusive borrow. Work that only a caller can do, such as
//! running a hook or a resource's close callback, is handed out as data, and what came of it is
//! handed back. A clock reading that could not be taken is `None`.

pub mod calls;
pub mod close;
pub mod course;
pub mod laws;
pub mod phases;
pub mod settlement;
pub mod sweep;
pub mod task;

use crate::cancellation::{
    cancel_order, cancelled_tree, dropped_hooks, ended_tree, fresh_node, hook_admission,
    lemma_first_hook_is_kept, released_hooks, tree_valid, with_child, with_hook, without_scope,
    CancelHookEntry, CancellationHookRegistration, CancellationPropagation, CancellationToken,
    CancellationTree, HookAdmission, NodeModel,
};
use crate::clock::DeadlineId;
use crate::concurrency::{ArbiterModel, TaskLifecycleState, TaskModel};
use crate::deadline::{
    fired_at, next_target_of, CommitFollowUp, DeadlineAdmission, DeadlineNotice,
    DeadlineRegistration, DeadlineResolutionState, DeadlineScheduler, PendingDeadline,
    SchedulerModel,
};
use crate::event::{event_of, Event, EventDraft, SubscriptionOptions};
use crate::event_hub::{events_closed_model, EventHub, EventSubscription, HubModel};
use crate::model::{
    EasyConError, ErrorCode, ErrorDomain, ErrorModel, OperationId, ResourceId, RuntimeId, TaskId,
};
use crate::operation::{
    ending_discards, ending_hooks, state_draft, state_draft_of, terminal, CancellationReason,
    LegacyStart, LegacyTerminalRequest, OperationInner, OperationModel, OperationSnapshot,
    OperationValue, OwnerModel, PrimaryModel, RequestModel, SettledCleanup, SettlementOwnerMode,
    TransitionOutcome, WaitResult,
};
use crate::wait::{idle_look, Look, WaitTimeout};
use vstd::prelude::*;

verus! {

/// Root lifecycle state.
#[derive(Clone, Copy, Debug, PartialEq, Eq, Structural)]
pub enum RuntimeState {
    /// Accepting new operations and resources.
    Active,
    /// Rejecting admission while supervised children stop.
    Closing,
    /// All supervised task, resource, and operation registries are empty.
    Closed,
    /// Deterministic close stopped at a saved, diagnosable failure.
    CloseFailed,
}

/// Counters of what a Runtime supervises.
#[derive(Clone, Copy, Debug, PartialEq, Eq, Structural)]
pub struct RuntimeCounts {
    /// Non-terminal operations still supervised by the Runtime.
    pub active_operations: usize,
    /// Active resources registered for deterministic close.
    pub active_resources: usize,
    /// Registered tasks.
    pub active_tasks: usize,
}

/// Stable phase identifying where deterministic close stopped.
#[derive(Clone, Copy, Debug, PartialEq, Eq, Structural)]
pub enum ClosePhase {
    /// Closing notification or root cancellation setup.
    Start,
    /// Runtime-owned resource cleanup.
    ResourceCleanup,
    /// Ordinary supervised task join.
    TaskJoin,
    /// Fallback terminal completion after owners exited.
    OperationFinalization,
    /// Runtime-internal task shutdown and join.
    InternalTaskJoin,
    /// Final registry convergence check.
    RegistryConvergence,
    /// Final event publication and producer close.
    FinalEvent,
}

/// Saved diagnostic for an unrecoverable deterministic-close failure.
#[derive(Debug)]
pub struct CloseReport {
    /// Phase that produced the primary failure.
    pub phase: ClosePhase,
    /// Stable diagnostic suitable for logs and binding error translation.
    pub diagnostic: String,
    /// Resource associated with the failure, when applicable.
    pub resource_id: Option<ResourceId>,
    /// Task associated with the failure, when applicable.
    pub task_id: Option<TaskId>,
    /// Registry counts captured after failure containment.
    pub counts: RuntimeCounts,
}

/// A close report, as plain values.
#[verifier::ext_equal]
pub struct ReportModel {
    pub phase: ClosePhase,
    pub diagnostic: Seq<char>,
    pub resource_id: Option<ResourceId>,
    pub task_id: Option<TaskId>,
    pub counts: RuntimeCounts,
}

impl View for CloseReport {
    type V = ReportModel;

    open spec fn view(&self) -> ReportModel {
        ReportModel {
            phase: self.phase,
            diagnostic: self.diagnostic@,
            resource_id: self.resource_id,
            task_id: self.task_id,
            counts: self.counts,
        }
    }
}

impl Clone for CloseReport {
    fn clone(&self) -> (copy: Self)
        ensures
            copy == *self,
    {
        CloseReport {
            phase: self.phase,
            diagnostic: self.diagnostic.clone(),
            resource_id: self.resource_id,
            task_id: self.task_id,
            counts: self.counts,
        }
    }
}

/// Saved result returned to every concurrent and later close caller.
#[derive(Debug)]
pub enum CloseOutcome {
    /// Deterministic close completed and all registries converged.
    Closed,
    /// Deterministic close stopped with one saved diagnostic report.
    Failed(CloseReport),
}

/// A close outcome, as plain values.
#[verifier::ext_equal]
pub enum OutcomeModel {
    Closed,
    Failed(ReportModel),
}

impl View for CloseOutcome {
    type V = OutcomeModel;

    open spec fn view(&self) -> OutcomeModel {
        match self {
            CloseOutcome::Closed => OutcomeModel::Closed,
            CloseOutcome::Failed(report) => OutcomeModel::Failed(report@),
        }
    }
}

impl Clone for CloseOutcome {
    fn clone(&self) -> (copy: Self)
        ensures
            copy == *self,
    {
        match self {
            CloseOutcome::Closed => CloseOutcome::Closed,
            CloseOutcome::Failed(report) => CloseOutcome::Failed(report.clone()),
        }
    }
}

/// Saved result of one supervised task body.
#[derive(Clone, Copy, Debug, PartialEq, Eq, Structural)]
pub enum SupervisedTaskOutcome {
    /// The task body returned normally.
    Completed,
    /// The Runtime boundary caught a panic from the task body.
    Panicked,
}

/// One registered task.
pub struct TaskRecord {
    /// Runtime-local task identifier.
    pub id: TaskId,
    /// The thread that runs the task.
    pub owner: Option<u64>,
    /// The task's life.
    pub lifecycle: TaskLifecycleState<SupervisedTaskOutcome>,
}

/// One registered task, as plain values.
#[verifier::ext_equal]
pub struct TaskRecordModel {
    pub id: TaskId,
    pub owner: Option<u64>,
    pub life: TaskModel<SupervisedTaskOutcome>,
}

impl View for TaskRecord {
    type V = TaskRecordModel;

    open spec fn view(&self) -> TaskRecordModel {
        TaskRecordModel { id: self.id, owner: self.owner, life: self.lifecycle@ }
    }
}

/// What a hook of the Runtime's cancellation tree wakes.
#[derive(Clone, Copy, Debug, PartialEq, Eq, Structural)]
pub enum HookTarget {
    /// The operation in this place.
    Operation(usize),
    /// A callback that only the caller knows.
    Caller(u64),
}

/// A token together with the Runtime whose tree holds it.
#[derive(Clone, Copy, Debug)]
pub struct RuntimeToken {
    pub owner: Option<RuntimeId>,
    pub token: CancellationToken,
}

/// Handle of one operation.
#[derive(Clone, Copy, Debug)]
pub struct Operation {
    /// The Runtime that supervises the operation.
    pub runtime: RuntimeId,
    /// The operation's place in that Runtime.
    pub slot: usize,
    /// Runtime-local operation identifier.
    pub id: OperationId,
}

/// The one authority that may settle an owned operation.
#[derive(Debug)]
pub struct OperationSettlementOwner {
    /// The operation it settles.
    pub operation: Operation,
    /// Identity of the authority.
    pub owner_id: u64,
}

/// RAII-style registration of an active resource, to be removed after it has really closed.
#[derive(Clone, Copy, Debug)]
pub struct ResourceRegistration {
    /// The Runtime that supervises the resource.
    pub runtime: RuntimeId,
    /// Runtime-local resource identifier.
    pub id: ResourceId,
}

/// Hooks that a sealed part of the tree set free, still to be delivered in order.
pub struct HookWave {
    /// Every hook of the wave.
    pub hooks: Vec<u64>,
    /// Hooks to be dropped without running.
    pub discarded: Vec<u64>,
    /// How many hooks were delivered.
    pub next: usize,
}

impl View for HookWave {
    type V = Seq<u64>;

    /// The hooks that are still to be delivered.
    open spec fn view(&self) -> Seq<u64> {
        self.hooks@.skip(self.next as int)
    }
}

impl HookWave {
    /// What every wave satisfies.
    pub open spec fn valid(&self) -> bool {
        self.next <= self.hooks@.len()
    }

    /// Creates a wave without hooks.
    pub fn empty() -> (wave: Self)
        ensures
            wave.valid(),
            wave@ == Seq::<u64>::empty(),
            wave.discarded@ == Seq::<u64>::empty(),
    {
        let wave = HookWave { hooks: Vec::new(), discarded: Vec::new(), next: 0 };
        assert(wave@ =~= Seq::<u64>::empty());
        wave
    }

    /// Creates the wave of a propagation.
    pub fn of(propagation: CancellationPropagation) -> (wave: Self)
        ensures
            wave.valid(),
            wave@ == propagation.hooks@,
            wave.discarded@ == propagation.discarded@,
    {
        let wave = HookWave {
            hooks: propagation.hooks,
            discarded: propagation.discarded,
            next: 0,
        };
        assert(wave@ =~= propagation.hooks@);
        wave
    }
}

/// State of a Runtime, as plain values.
#[verifier::ext_equal]
pub struct RuntimeModel {
    pub id: RuntimeId,
    pub state: RuntimeState,
    /// Whether a caller runs deterministic close.
    pub closing: bool,
    /// The thread that runs deterministic close.
    pub close_owner: Option<u64>,
    pub outcome: Option<OutcomeModel>,
    /// Owning handles.
    pub handles: usize,
    pub next_id: u64,
    pub tree: Seq<NodeModel>,
    pub root: CancellationToken,
    pub hooks: Seq<HookTarget>,
    pub hub: HubModel,
    /// Every operation, in the order of creation. An operation is supervised until it ends.
    pub operations: Seq<OperationModel>,
    /// Registered resources, in the order of registration.
    pub resources: Seq<ResourceId>,
    /// Every task, in the order of registration. A task is registered until it is joined.
    pub tasks: Seq<TaskRecordModel>,
    /// Tasks whose body panicked, in the order in which they were joined.
    pub failures: Seq<TaskId>,
    pub deadline_task: TaskId,
    /// Whether the deadline worker was not stopped yet.
    pub worker_running: bool,
    pub scheduler: SchedulerModel,
}

/// The views of a list of operations.
pub open spec fn operation_models(operations: Seq<OperationInner>) -> Seq<OperationModel> {
    operations.map_values(|operation: OperationInner| operation@)
}

/// The views of a list of tasks.
pub open spec fn task_models(tasks: Seq<TaskRecord>) -> Seq<TaskRecordModel> {
    tasks.map_values(|task: TaskRecord| task@)
}

/// The view of an optional outcome.
pub open spec fn outcome_model(outcome: Option<CloseOutcome>) -> Option<OutcomeModel> {
    match outcome {
        Some(outcome) => Some(outcome@),
        None => None,
    }
}

/// How many operations have not ended.
pub open spec fn active_operations(operations: Seq<OperationModel>) -> nat
    decreases operations.len(),
{
    if operations.len() == 0 {
        0
    } else {
        active_operations(operations.drop_last()) + if terminal(operations.last().state) {
            0nat
        } else {
            1nat
        }
    }
}

/// How many tasks are registered.
pub open spec fn active_tasks(tasks: Seq<TaskRecordModel>) -> nat
    decreases tasks.len(),
{
    if tasks.len() == 0 {
        0
    } else {
        active_tasks(tasks.drop_last()) + if tasks.last().life.registry_linked {
            1nat
        } else {
            0nat
        }
    }
}

/// Event production after an isolated attempt to announce something: nothing is published once
/// production ended, without a clock reading, or without a sequence number left.
pub open spec fn announced(hub: HubModel, now_ns: Option<u64>, draft: EventDraft) -> HubModel {
    if now_ns is Some && !hub.closed && hub.next_sequence < u64::MAX {
        hub.published(now_ns->0, draft)
    } else {
        hub
    }
}

impl RuntimeModel {
    /// What every Runtime satisfies.
    pub open spec fn valid(self) -> bool {
        &&& tree_valid(self.tree)
        &&& self.root.node < self.tree.len()
        &&& self.hub.valid()
        &&& self.scheduler.valid()
        &&& self.scheduler.has_orders()
        &&& self.next_id >= 1
        &&& self.operations_valid()
        &&& self.registries_valid()
        &&& self.outcome is Some <==> self.state == RuntimeState::Closed || self.state
            == RuntimeState::CloseFailed
        &&& self.state == RuntimeState::Closed <==> self.outcome == Some(OutcomeModel::Closed)
        &&& self.state == RuntimeState::Active <==> self.scheduler.admission_open
        &&& self.state == RuntimeState::Active ==> !self.closing
        &&& self.close_owner is Some ==> self.closing
    }

    /// Whether an operation hears of a cancellation: while its token is open, the token's first
    /// hook is the operation's own.
    pub open spec fn listens(self, slot: int) -> bool {
        let token = self.tree[self.operations[slot].token.node as int];
        token.is_open() ==> {
            &&& token.hooks.len() > 0
            &&& token.hooks[0].active
            &&& token.hooks[0].scope is None
            &&& self.target(token.hooks[0].hook) == HookTarget::Operation(slot as usize)
        }
    }

    /// What the operations satisfy: each is valid, holds a token of the tree and listens to it, and
    /// was numbered after those before it.
    pub open spec fn operations_valid(self) -> bool {
        &&& forall|k: int|
            #![trigger self.operations[k]]
            0 <= k < self.operations.len() ==> self.operations[k].valid()
                && self.operations[k].token.node < self.tree.len() && self.operations[k].id.0
                < self.next_id && self.listens(k)
        &&& forall|j: int, k: int|
            #![trigger self.operations[j], self.operations[k]]
            0 <= j < k < self.operations.len() ==> self.operations[j].id.0
                < self.operations[k].id.0
        &&& forall|h: int|
            0 <= h < self.hooks.len() ==> ((#[trigger] self.hooks[h]) matches HookTarget::Operation(
                slot,
            ) ==> slot < self.operations.len())
    }

    /// What resources and tasks satisfy: each was numbered after those before it, and the deadline
    /// worker is the first task.
    pub open spec fn registries_valid(self) -> bool {
        &&& forall|k: int|
            0 <= k < self.resources.len() ==> (#[trigger] self.resources[k]).0 < self.next_id
        &&& forall|j: int, k: int|
            #![trigger self.resources[j], self.resources[k]]
            0 <= j < k < self.resources.len() ==> self.resources[j].0 < self.resources[k].0
        &&& forall|k: int|
            0 <= k < self.tasks.len() ==> (#[trigger] self.tasks[k]).id.0 < self.next_id
                && self.tasks[k].life.valid()
        &&& forall|j: int, k: int|
            #![trigger self.tasks[j], self.tasks[k]]
            0 <= j < k < self.tasks.len() ==> self.tasks[j].id.0 < self.tasks[k].id.0
        &&& self.tasks.len() > 0
        &&& self.tasks[0].id == self.deadline_task
    }

    /// A Runtime that just started: it supervises its deadline worker alone.
    pub open spec fn initial(id: RuntimeId) -> RuntimeModel {
        RuntimeModel {
            id,
            state: RuntimeState::Active,
            closing: false,
            close_owner: None,
            outcome: None,
            handles: 1,
            next_id: 2,
            tree: seq![fresh_node(Some(id), None)],
            root: CancellationToken { node: 0 },
            hooks: seq![],
            hub: HubModel::initial(),
            operations: seq![],
            resources: seq![],
            tasks: seq![
                TaskRecordModel { id: TaskId(1), owner: None, life: TaskModel::initial() },
            ],
            failures: seq![],
            deadline_task: TaskId(1),
            worker_running: true,
            scheduler: SchedulerModel {
                next_order: 1,
                admission_open: true,
                pending: seq![],
                entries: seq![],
                signals: seq![],
            },
        }
    }

    /// What a hook wakes.
    pub open spec fn target(self, hook: u64) -> HookTarget {
        if hook < self.hooks.len() {
            self.hooks[hook as int]
        } else {
            HookTarget::Caller(hook)
        }
    }

    /// The Runtime after an operation changed, and its new state was announced where asked.
    pub open spec fn put(
        self,
        slot: int,
        operation: OperationModel,
        announce: bool,
        now_ns: Option<u64>,
    ) -> RuntimeModel {
        RuntimeModel {
            operations: self.operations.update(slot, operation),
            hub: if announce {
                announced(self.hub, now_ns, state_draft_of(operation.state, operation.id))
            } else {
                self.hub
            },
            ..self
        }
    }

    /// The Runtime after an operation learned that its token was cancelled from above.
    pub open spec fn parent_closed(self, slot: int, now_ns: Option<u64>) -> RuntimeModel {
        let operation = self.operations[slot];
        let after = operation.cancel_requested(CancellationReason::ParentClose);
        self.put(slot, after, after.state != operation.state, now_ns)
    }

    /// The Runtime after the operations' hooks at the front of a wave were delivered.
    pub open spec fn delivered(self, hooks: Seq<u64>, now_ns: Option<u64>) -> RuntimeModel
        decreases hooks.len(),
    {
        if hooks.len() == 0 {
            self
        } else {
            match self.target(hooks[0]) {
                HookTarget::Caller(callback) => self,
                HookTarget::Operation(slot) => self.parent_closed(slot as int, now_ns).delivered(
                    hooks.skip(1),
                    now_ns,
                ),
            }
        }
    }

    /// How many hooks at the front of a wave belong to operations.
    pub open spec fn operation_prefix(self, hooks: Seq<u64>) -> nat
        decreases hooks.len(),
    {
        if hooks.len() == 0 || self.target(hooks[0]) is Caller {
            0
        } else {
            1 + self.operation_prefix(hooks.skip(1))
        }
    }

    /// The caller's callback behind the operations' hooks of a wave, if any is left.
    pub open spec fn first_callback(self, hooks: Seq<u64>) -> Option<u64> {
        let prefix = self.operation_prefix(hooks);
        if prefix < hooks.len() {
            Some(self.target(hooks[prefix as int])->Caller_0)
        } else {
            None
        }
    }

    /// The Runtime after an operation was created below token `parent`; creating it used `ids`
    /// identifiers, the first for the operation. The operation hears of a cancellation from above
    /// through a hook on its own token.
    pub open spec fn created(
        self,
        parent: usize,
        deadline_ns: Option<u64>,
        owner: Option<OwnerModel>,
        ids: int,
    ) -> RuntimeModel {
        let token = CancellationToken { node: self.tree.len() as usize };
        let hook = CancelHookEntry { hook: self.hooks.len() as u64, scope: None, active: true };
        RuntimeModel {
            next_id: (self.next_id + ids) as u64,
            tree: with_hook(with_child(self.tree, parent), token.node as int, hook),
            hooks: self.hooks.push(HookTarget::Operation(self.operations.len() as usize)),
            operations: self.operations.push(
                OperationModel::initial(OperationId(self.next_id), token, deadline_ns, owner),
            ),
            ..self
        }
    }

    /// Whether an operation below this token is admitted.
    pub open spec fn admits(self, parent: RuntimeToken) -> bool {
        self.state == RuntimeState::Active && parent.owner == Some(self.id)
            && self.tree[parent.token.node as int].is_open()
    }

    /// Why an operation below this token is refused: the state comes first, the owner next.
    pub open spec fn refusal(self, parent: RuntimeToken) -> ErrorModel {
        if self.state != RuntimeState::Active {
            closing_model()
        } else if parent.owner != Some(self.id) {
            invalid_model("operation cancellation parent belongs to a different Runtime"@)
        } else {
            invalid_model("operation cancellation parent is no longer active"@)
        }
    }

    /// Whether a handle names one of the Runtime's operations.
    pub open spec fn owns(self, operation: Operation) -> bool {
        operation.runtime == self.id && operation.slot < self.operations.len()
            && self.operations[operation.slot as int].id == operation.id
    }

    /// The operation that a handle names.
    pub open spec fn at(self, operation: Operation) -> OperationModel {
        self.operations[operation.slot as int]
    }

    /// The Runtime after its root was cancelled.
    pub open spec fn root_cancelled(self) -> RuntimeModel {
        RuntimeModel { tree: cancelled_tree(self.tree, self.root.node as int), ..self }
    }

    /// The hooks that cancelling the root runs.
    pub open spec fn root_hooks(self) -> Seq<u64> {
        released_hooks(self.tree, cancel_order(self.tree, self.root.node as int))
    }

    /// The hooks that cancelling the root drops.
    pub open spec fn root_discards(self) -> Seq<u64> {
        dropped_hooks(self.tree, cancel_order(self.tree, self.root.node as int))
    }

    /// The Runtime after it stopped to admit anything.
    pub open spec fn sealed(self) -> RuntimeModel {
        RuntimeModel {
            state: RuntimeState::Closing,
            scheduler: SchedulerModel { admission_open: false, ..self.scheduler },
            ..self
        }
    }

    /// The Runtime after cancellation of an operation was requested. An applied request seals the
    /// operation's token; without a settlement owner the operation also starts to cancel in public.
    pub open spec fn cancel_requested(
        self,
        slot: int,
        reason: CancellationReason,
        now_ns: Option<u64>,
    ) -> RuntimeModel {
        let operation = self.operations[slot];
        let applied = operation.cancel_outcome() == TransitionOutcome::Applied;
        RuntimeModel {
            tree: if applied {
                cancelled_tree(self.tree, operation.token.node as int)
            } else {
                self.tree
            },
            ..self.put(
                slot,
                operation.cancel_requested(reason),
                applied && operation.owner is None,
                now_ns,
            )
        }
    }

    /// The Runtime after a caller cancelled an operation.
    pub open spec fn caller_cancelled(self, slot: int, now_ns: Option<u64>) -> RuntimeModel {
        self.cancel_requested(slot, CancellationReason::Requested, now_ns)
    }

    /// Why a subscription is refused; none where it is admitted.
    pub open spec fn subscription_refusal(self, options: SubscriptionOptions) -> Option<
        ErrorModel,
    > {
        if options.capacity == 0 {
            Some(invalid_model("event subscription capacity must be non-zero"@))
        } else if self.state != RuntimeState::Active {
            Some(closing_model())
        } else {
            None
        }
    }

    /// Why a resource is refused; none where it is admitted.
    pub open spec fn resource_refusal(self) -> Option<ErrorModel> {
        if self.state != RuntimeState::Active {
            Some(closing_model())
        } else {
            None
        }
    }

    /// The Runtime after a resource was registered.
    pub open spec fn resource_registered(self) -> RuntimeModel {
        RuntimeModel {
            next_id: (self.next_id + 1) as u64,
            resources: self.resources.push(ResourceId(self.next_id)),
            ..self
        }
    }

    /// The Runtime after the elapsed deadline of an operation was enforced.
    pub open spec fn deadline_enforced(self, slot: int, now_ns: Option<u64>) -> RuntimeModel {
        self.cancel_requested(slot, CancellationReason::Deadline, now_ns)
    }

    /// The hooks that requesting cancellation of an operation runs.
    pub open spec fn cancel_hooks(self, slot: int) -> Seq<u64> {
        let operation = self.operations[slot];
        if operation.cancel_outcome() == TransitionOutcome::Applied {
            released_hooks(self.tree, cancel_order(self.tree, operation.token.node as int))
        } else {
            seq![]
        }
    }

    /// The hooks that requesting cancellation of an operation drops.
    pub open spec fn cancel_discards(self, slot: int) -> Seq<u64> {
        let operation = self.operations[slot];
        if operation.cancel_outcome() == TransitionOutcome::Applied {
            dropped_hooks(self.tree, cancel_order(self.tree, operation.token.node as int))
        } else {
            seq![]
        }
    }

    /// The Runtime after an operation started to end with `operation`: its token admits nothing
    /// more.
    pub open spec fn ending(self, slot: int, operation: OperationModel) -> RuntimeModel {
        RuntimeModel {
            tree: ended_tree(self.tree, operation.token.node as int),
            ..self.put(slot, operation, false, None)
        }
    }

    /// Whether an answer to a terminal request, its hooks included, is the one that is due.
    pub open spec fn starts(
        self,
        slot: int,
        begins: bool,
        operation: OperationModel,
        start: FinishStart,
        after: RuntimeModel,
    ) -> bool {
        let before = self.operations[slot];
        let id = before.token.node as int;
        &&& start is Begun <==> begins
        &&& start matches FinishStart::Rejected(outcome) ==> outcome == if terminal(before.state) {
            TransitionOutcome::AlreadyTerminal
        } else {
            TransitionOutcome::Invalid
        }
        &&& start matches FinishStart::Begun(wave) ==> wave.valid() && wave@ == ending_hooks(
            self.tree,
            id,
        ) && wave.discarded@ == ending_discards(self.tree, id)
        &&& after == if begins {
            self.ending(slot, operation)
        } else {
            self
        }
    }

    /// How much the Runtime supervises.
    pub open spec fn supervises(self, counts: RuntimeCounts) -> bool {
        &&& counts.active_operations == active_operations(self.operations)
        &&& counts.active_resources == self.resources.len()
        &&& counts.active_tasks == active_tasks(self.tasks)
    }

    /// What every call but the steps of close keeps to once admission has ended: state and outcome
    /// stand, nothing new is supervised, and what has ended stays ended.
    pub open spec fn carries_over(self, after: RuntimeModel) -> bool {
        self.state != RuntimeState::Active ==> {
            &&& after.state == self.state
            &&& after.outcome == self.outcome
            &&& self.closing ==> after.closing
            &&& after.resources.len() <= self.resources.len()
            &&& after.operations.len() == self.operations.len()
            &&& forall|k: int|
                0 <= k < self.operations.len() && terminal(self.operations[k].state) ==> terminal(
                    (#[trigger] after.operations[k]).state,
                )
            &&& after.tasks.len() == self.tasks.len()
            &&& forall|k: int|
                0 <= k < self.tasks.len() && !self.tasks[k].life.registry_linked
                    ==> !(#[trigger] after.tasks[k]).life.registry_linked
        }
    }

    /// Whether nothing is supervised any more.
    pub open spec fn converged(self) -> bool {
        active_operations(self.operations) == 0 && self.resources.len() == 0 && active_tasks(
            self.tasks,
        ) == 0
    }
}

/// Root owner of operations, resources, tasks, events, and cancellation.
///
/// Deterministic cleanup is [`crate::close`]. Releasing the final owning handle only rejects
/// admission and requests root cancellation.
pub struct Runtime {
    id: RuntimeId,
    state: RuntimeState,
    closing: bool,
    close_owner: Option<u64>,
    outcome: Option<CloseOutcome>,
    handles: usize,
    next_id: u64,
    tree: CancellationTree,
    root: CancellationToken,
    hooks: Vec<HookTarget>,
    hub: EventHub,
    operations: Vec<OperationInner>,
    resources: Vec<ResourceId>,
    tasks: Vec<TaskRecord>,
    failures: Vec<TaskId>,
    deadline_task: TaskId,
    worker_running: bool,
    scheduler: DeadlineScheduler,
}

impl View for Runtime {
    type V = RuntimeModel;

    closed spec fn view(&self) -> RuntimeModel {
        RuntimeModel {
            id: self.id,
            state: self.state,
            closing: self.closing,
            close_owner: self.close_owner,
            outcome: outcome_model(self.outcome),
            handles: self.handles,
            next_id: self.next_id,
            tree: self.tree@,
            root: self.root,
            hooks: self.hooks@,
            hub: self.hub@,
            operations: operation_models(self.operations@),
            resources: self.resources@,
            tasks: task_models(self.tasks@),
            failures: self.failures@,
            deadline_task: self.deadline_task,
            worker_running: self.worker_running,
            scheduler: self.scheduler@,
        }
    }
}

/// The error of an admission that came too late.
pub open spec fn closing_model() -> ErrorModel {
    ErrorModel {
        domain: ErrorDomain::Runtime,
        code: ErrorCode::RuntimeClosing,
        message: "Runtime is closing or closed"@,
    }
}

/// A validation error.
pub open spec fn invalid_model(message: Seq<char>) -> ErrorModel {
    ErrorModel { domain: ErrorDomain::Validation, code: ErrorCode::InvalidArgument, message }
}

/// Refuses admission once a Runtime is closing or closed.
pub fn ensure_active(state: RuntimeState) -> (admitted: Result<(), EasyConError>)
    ensures
        admitted is Ok <==> state == RuntimeState::Active,
        admitted matches Err(error) ==> error@ == closing_model(),
{
    if state == RuntimeState::Active {
        Ok(())
    } else {
        Err(
            EasyConError::new(
                ErrorDomain::Runtime,
                ErrorCode::RuntimeClosing,
                "Runtime is closing or closed",
            ),
        )
    }
}

impl Runtime {
    /// The invariants of the parts that are not plain values.
    pub closed spec fn intact(&self) -> bool {
        self.tree.valid() && self.hub.valid()
    }

    /// The Runtime's invariant.
    pub open spec fn valid(&self) -> bool {
        self.intact() && self@.valid()
    }

    /// How many scoped hooks were registered.
    pub closed spec fn scopes(&self) -> u64 {
        self.tree.scopes()
    }

    /// Creates an active Runtime, its deadline worker registered and not started.
    pub fn new(id: RuntimeId) -> (runtime: Self)
        ensures
            runtime.valid(),
            runtime@ == RuntimeModel::initial(id),
    {
        let mut tree = CancellationTree::new();
        let root = CancellationToken::root_for_runtime(&mut tree, id);
        let mut tasks: Vec<TaskRecord> = Vec::new();
        tasks.push(
            TaskRecord { id: TaskId(1), owner: None, lifecycle: TaskLifecycleState::registered() },
        );
        let runtime = Runtime {
            id,
            state: RuntimeState::Active,
            closing: false,
            close_owner: None,
            outcome: None,
            handles: 1,
            next_id: 2,
            tree,
            root,
            hooks: Vec::new(),
            hub: EventHub::new(),
            operations: Vec::new(),
            resources: Vec::new(),
            tasks,
            failures: Vec::new(),
            deadline_task: TaskId(1),
            worker_running: true,
            scheduler: DeadlineScheduler::new(),
        };
        assert(runtime@ =~= RuntimeModel::initial(id));
        runtime
    }

    /// Returns the Runtime's identifier.
    pub fn id(&self) -> (id: RuntimeId)
        ensures
            id == self@.id,
    {
        self.id
    }

    /// Returns the authoritative lifecycle state.
    pub fn state(&self) -> (state: RuntimeState)
        ensures
            state == self@.state,
    {
        self.state
    }

    fn allocate_id(&mut self) -> (id: u64)
        requires
            old(self).valid(),
            old(self)@.next_id < u64::MAX,
        ensures
            final(self).valid(),
            final(self).scopes() == old(self).scopes(),
            id == old(self)@.next_id,
            final(self)@ == (RuntimeModel { next_id: (id + 1) as u64, ..old(self)@ }),
    {
        let id: u64 = self.next_id;
        self.next_id = id + 1;
        id
    }

    /// Announces a state of an operation, where that is possible.
    fn announce(&mut self, now_ns: Option<u64>, draft: EventDraft)
        requires
            old(self).valid(),
        ensures
            final(self).valid(),
            final(self).scopes() == old(self).scopes(),
            final(self)@ == (RuntimeModel {
                hub: announced(old(self)@.hub, now_ns, draft),
                ..old(self)@
            }),
    {
        if let Some(now_ns) = now_ns {
            if self.hub.sequences_left() {
                let _ = self.hub.try_publish_event(now_ns, draft);
            }
        }
    }

    /// Publishes typed domain data to all matching subscriptions.
    ///
    /// Fails with [`ErrorCode::RuntimeClosing`] after the final Runtime event closed production.
    pub fn publish(&mut self, now_ns: u64, draft: EventDraft) -> (published: Result<
        Event,
        EasyConError,
    >)
        requires
            old(self).valid(),
            old(self)@.hub.next_sequence < u64::MAX,
        ensures
            final(self).valid(),
            old(self)@.carries_over(final(self)@),
            published is Ok <==> !old(self)@.hub.closed,
            published matches Ok(event) ==> event == event_of(
                old(self)@.hub.next_sequence,
                now_ns,
                draft,
            ),
            published matches Err(error) ==> error@ == events_closed_model(),
            final(self)@ == (RuntimeModel {
                hub: announced(old(self)@.hub, Some(now_ns), draft),
                ..old(self)@
            }),
    {
        self.hub.try_publish_event(now_ns, draft)
    }
}

pub(crate) proof fn lemma_operation_update_is_valid(
    runtime: RuntimeModel,
    slot: int,
    operation: OperationModel,
)
    requires
        runtime.valid(),
        0 <= slot < runtime.operations.len(),
        operation.valid(),
        operation.id == runtime.operations[slot].id,
        operation.token == runtime.operations[slot].token,
    ensures
        (RuntimeModel {
            operations: runtime.operations.update(slot, operation),
            ..runtime
        }).valid(),
{
    let after = RuntimeModel {
        operations: runtime.operations.update(slot, operation),
        ..runtime
    };
    assert forall|k: int| #![trigger after.operations[k]]
        0 <= k < after.operations.len() implies after.operations[k].valid()
        && after.operations[k].token.node < after.tree.len() && after.operations[k].id.0
        < after.next_id by {
        assert(runtime.operations[k].id == after.operations[k].id);
    }
    assert forall|j: int, k: int| #![trigger after.operations[j], after.operations[k]]
        0 <= j < k < after.operations.len() implies after.operations[j].id.0
        < after.operations[k].id.0 by {
        assert(runtime.operations[j].id.0 < runtime.operations[k].id.0);
    }
}

proof fn lemma_delivered_carries_over(
    runtime: RuntimeModel,
    hooks: Seq<u64>,
    now_ns: Option<u64>,
)
    requires
        forall|h: int|
            0 <= h < runtime.hooks.len() ==> ((#[trigger] runtime.hooks[h])
                matches HookTarget::Operation(slot) ==> slot < runtime.operations.len()),
    ensures
        runtime.carries_over(runtime.delivered(hooks, now_ns)),
    decreases hooks.len(),
{
    if hooks.len() > 0 {
        if let HookTarget::Operation(slot) = runtime.target(hooks[0]) {
            let next = runtime.parent_closed(slot as int, now_ns);
            assert(runtime.carries_over(next));
            assert(next.hooks == runtime.hooks);
            lemma_delivered_carries_over(next, hooks.skip(1), now_ns);
            law_calls_add_up(runtime, next, next.delivered(hooks.skip(1), now_ns));
        }
    }
}

/// What holds of each call holds of any number of calls, one after the other.
pub proof fn law_calls_add_up(
    first: RuntimeModel,
    second: RuntimeModel,
    third: RuntimeModel,
)
    requires
        first.carries_over(second),
        second.carries_over(third),
    ensures
        first.carries_over(third),
{
    if first.state != RuntimeState::Active {
        assert forall|k: int|
            0 <= k < first.operations.len() && terminal(
                first.operations[k].state,
            ) implies terminal((#[trigger] third.operations[k]).state) by {
            assert(terminal(second.operations[k].state));
        }
        assert forall|k: int|
            0 <= k < first.tasks.len() && !first.tasks[k].life.registry_linked implies !(
        #[trigger] third.tasks[k]).life.registry_linked by {
            assert(!second.tasks[k].life.registry_linked);
        }
    }
}

proof fn lemma_prefix_depends_on_hooks_alone(
    one: RuntimeModel,
    other: RuntimeModel,
    hooks: Seq<u64>,
)
    requires
        one.hooks == other.hooks,
    ensures
        one.operation_prefix(hooks) == other.operation_prefix(hooks),
        one.operation_prefix(hooks) <= hooks.len(),
    decreases hooks.len(),
{
    if hooks.len() > 0 {
        lemma_prefix_depends_on_hooks_alone(one, other, hooks.skip(1));
    }
}

/// A callback on a token leaves every operation listening.
proof fn lemma_callback_leaves_listeners(
    runtime: RuntimeModel,
    id: int,
    callback: u64,
    entry: CancelHookEntry,
)
    requires
        runtime.valid(),
        0 <= id < runtime.tree.len(),
    ensures
        ({
            let after = RuntimeModel {
                hooks: runtime.hooks.push(HookTarget::Caller(callback)),
                tree: with_hook(runtime.tree, id, entry),
                ..runtime
            };
            forall|k: int|
                #![trigger after.operations[k]]
                0 <= k < after.operations.len() ==> after.listens(k)
        }),
{
    let after = RuntimeModel {
        hooks: runtime.hooks.push(HookTarget::Caller(callback)),
        tree: with_hook(runtime.tree, id, entry),
        ..runtime
    };
    assert forall|k: int| #![trigger after.operations[k]]
        0 <= k < after.operations.len() implies after.listens(k) by {
        assert(runtime.operations[k].valid());
        assert(runtime.listens(k));
        let node = runtime.operations[k].token.node as int;
        if runtime.tree[node].is_open() {
            lemma_first_hook_is_kept(runtime.tree[node].hooks);
        }
    }
}

impl Runtime {
    /// Changes one operation through `OperationInner` and announces its new state where asked.
    fn announce_operation(&mut self, slot: usize, now_ns: Option<u64>)
        requires
            old(self).valid(),
            slot < old(self)@.operations.len(),
        ensures
            final(self).valid(),
            final(self).scopes() == old(self).scopes(),
            final(self)@ == old(self)@.put(
                slot as int,
                old(self)@.operations[slot as int],
                true,
                now_ns,
            ),
    {
        let draft = state_draft(self.operations[slot].state(), self.operations[slot].id());
        self.announce(now_ns, draft);
        assert(self@.operations =~= old(self)@.operations.update(
            slot as int,
            old(self)@.operations[slot as int],
        ));
    }

    /// Tells an operation that its token was cancelled from above.
    fn close_from_parent(&mut self, slot: usize, now_ns: Option<u64>)
        requires
            old(self).valid(),
            slot < old(self)@.operations.len(),
        ensures
            final(self).valid(),
            final(self).scopes() == old(self).scopes(),
            final(self)@ == old(self)@.parent_closed(slot as int, now_ns),
    {
        let ghost before = self@;
        assert(before.operations[slot as int] == self.operations[slot as int]@);
        let operation = &mut self.operations[slot];
        let publish: bool = operation.observe_parent_close();
        proof {
            assert(self@.operations =~= before.operations.update(
                slot as int,
                before.operations[slot as int].cancel_requested(CancellationReason::ParentClose),
            ));
        }
        if publish {
            self.announce_operation(slot, now_ns);
        }
        assert(self@ =~= before.parent_closed(slot as int, now_ns));
    }

    /// Delivers the operations' hooks at the front of a wave, and returns the caller's callback
    /// that is due next. Each callback is to be run on its own, before the next call.
    pub fn next_hook(&mut self, wave: &mut HookWave, now_ns: Option<u64>) -> (callback: Option<u64>)
        requires
            old(self).valid(),
            old(wave).valid(),
        ensures
            final(self).valid(),
            old(self)@.carries_over(final(self)@),
            final(wave).valid(),
            final(self).scopes() == old(self).scopes(),
            final(self)@ == old(self)@.delivered(old(wave)@, now_ns),
            callback == old(self)@.first_callback(old(wave)@),
            callback is None ==> final(wave)@ == Seq::<u64>::empty(),
            final(wave).discarded@ == old(wave).discarded@,
            final(wave)@ == old(wave)@.skip(
                old(self)@.operation_prefix(old(wave)@) + if callback is Some {
                    1int
                } else {
                    0int
                },
            ),
    {
        let ghost start = self@;
        let ghost all = wave@;
        let ghost mut done: nat = 0;
        assert(all.skip(0) =~= all);
        while wave.next < wave.hooks.len()
            invariant
                self.valid(),
                wave.valid(),
                self.scopes() == old(self).scopes(),
                start == old(self)@,
                start.operations_valid(),
                all == old(wave)@,
                wave.hooks == old(wave).hooks,
                wave.discarded == old(wave).discarded,
                wave.next == old(wave).next + done,
                done <= all.len(),
                wave@ == all.skip(done as int),
                self@.hooks == start.hooks,
                start.delivered(all, now_ns) == self@.delivered(wave@, now_ns),
                start.operation_prefix(all) == done + self@.operation_prefix(wave@),
            decreases wave.hooks.len() - wave.next,
        {
            let ghost rest = wave@;
            let ghost here = self@;
            let hook: u64 = wave.hooks[wave.next];
            assert(rest[0] == hook);
            assert(rest.len() > 0);
            wave.next = wave.next + 1;
            assert(wave@ =~= rest.skip(1));
            assert(wave@ =~= all.skip(done as int + 1));
            let target = if hook < self.hooks.len() as u64 {
                self.hooks[hook as usize]
            } else {
                HookTarget::Caller(hook)
            };
            assert(target == here.target(hook));
            match target {
                HookTarget::Caller(callback) => {
                    assert(all[done as int] == hook);
                    assert(self@ == start.delivered(all, now_ns));
                    proof {
                        lemma_delivered_carries_over(start, all, now_ns);
                    }
                    return Some(callback);
                },
                HookTarget::Operation(slot) => {
                    self.close_from_parent(slot, now_ns);
                    proof {
                        lemma_prefix_depends_on_hooks_alone(here, self@, rest.skip(1));
                        done = done + 1;
                    }
                },
            }
        }
        assert(wave@ =~= Seq::<u64>::empty());
        assert(all.skip(all.len() as int) =~= Seq::<u64>::empty());
        proof {
            lemma_delivered_carries_over(start, all, now_ns);
        }
        None
    }

    /// Returns the callbacks that a wave drops without running them.
    pub fn dropped_callbacks(&self, wave: &HookWave) -> (callbacks: Vec<u64>)
        ensures
            callbacks@ == callbacks_of(self@, wave.discarded@),
    {
        let ghost all = wave.discarded@;
        let mut callbacks: Vec<u64> = Vec::new();
        let mut k: usize = 0;
        assert(all.take(0) =~= seq![]);
        while k < wave.discarded.len()
            invariant
                k <= wave.discarded.len(),
                all == wave.discarded@,
                callbacks@ == callbacks_of(self@, all.take(k as int)),
            decreases wave.discarded.len() - k,
        {
            let hook: u64 = wave.discarded[k];
            proof {
                assert(all.take(k + 1).drop_last() =~= all.take(k as int));
                assert(all.take(k + 1).last() == hook);
            }
            let target = if hook < self.hooks.len() as u64 {
                self.hooks[hook as usize]
            } else {
                HookTarget::Caller(hook)
            };
            if let HookTarget::Caller(callback) = target {
                callbacks.push(callback);
            }
            k += 1;
        }
        assert(all.take(k as int) =~= all);
        callbacks
    }
}

/// The caller's callbacks among a list of hooks.
pub open spec fn callbacks_of(runtime: RuntimeModel, hooks: Seq<u64>) -> Seq<u64>
    decreases hooks.len(),
{
    if hooks.len() == 0 {
        seq![]
    } else {
        match runtime.target(hooks.last()) {
            HookTarget::Caller(callback) => callbacks_of(runtime, hooks.drop_last()).push(callback),
            HookTarget::Operation(slot) => callbacks_of(runtime, hooks.drop_last()),
        }
    }
}

/// The settlement side of an operation that was just created.
pub open spec fn fresh_owner(owner_id: u64, transfer_owner_id: Option<u64>) -> OwnerModel {
    OwnerModel {
        arbiter: ArbiterModel::initial(owner_id, transfer_owner_id),
        owner_task: None,
        handoff_record: None,
        claimed: None,
    }
}

impl Runtime {
    /// Returns a child token cancelled by Runtime close.
    pub fn child_cancellation_token(&mut self) -> (token: RuntimeToken)
        requires
            old(self).valid(),
            old(self)@.tree.len() < usize::MAX,
        ensures
            final(self).valid(),
            old(self)@.carries_over(final(self)@),
            token.owner == Some(old(self)@.id),
            token.token.node == old(self)@.tree.len(),
            final(self)@ == (RuntimeModel {
                tree: if old(self)@.tree[old(self)@.root.node as int].is_open() {
                    with_child(old(self)@.tree, old(self)@.root.node)
                } else {
                    old(self)@.tree.push(
                        fresh_node(
                            old(self)@.tree[old(self)@.root.node as int].owner,
                            None,
                        ).sealed(),
                    )
                },
                ..old(self)@
            }),
    {
        self.child_token(self.root)
    }

    /// Creates a token that is cancelled with `parent`; a parent that is cancelled or has ended
    /// gives a cancelled token.
    pub fn child_token(&mut self, parent: CancellationToken) -> (token: RuntimeToken)
        requires
            old(self).valid(),
            parent.node < old(self)@.tree.len(),
            old(self)@.tree.len() < usize::MAX,
        ensures
            final(self).valid(),
            old(self)@.carries_over(final(self)@),
            token.owner == Some(old(self)@.id),
            token.token.node == old(self)@.tree.len(),
            final(self)@ == (RuntimeModel {
                tree: if old(self)@.tree[parent.node as int].is_open() {
                    with_child(old(self)@.tree, parent.node)
                } else {
                    old(self)@.tree.push(
                        fresh_node(old(self)@.tree[parent.node as int].owner, None).sealed(),
                    )
                },
                ..old(self)@
            }),
    {
        let ghost before = self@;
        let token = parent.child(&mut self.tree);
        proof {
            assert(self@.operations == before.operations);
            assert(self@.tree.len() == before.tree.len() + 1);
        }
        RuntimeToken { owner: Some(self.id), token }
    }

    /// Cancels a token and everything below it. The hooks that this sets free are delivered one by
    /// one with [`Runtime::next_hook`].
    pub fn cancel(&mut self, token: CancellationToken) -> (wave: HookWave)
        requires
            old(self).valid(),
            token.node < old(self)@.tree.len(),
        ensures
            final(self).valid(),
            old(self)@.carries_over(final(self)@),
            wave.valid(),
            final(self)@ == (RuntimeModel {
                tree: cancelled_tree(old(self)@.tree, token.node as int),
                ..old(self)@
            }),
            wave@ == released_hooks(
                old(self)@.tree,
                cancel_order(old(self)@.tree, token.node as int),
            ),
            wave.discarded@ == dropped_hooks(
                old(self)@.tree,
                cancel_order(old(self)@.tree, token.node as int),
            ),
    {
        let ghost before = self@;
        let propagation = token.cancel(&mut self.tree);
        proof {
            assert(self@.operations == before.operations);
            assert(self@.tree.len() == before.tree.len());
        }
        HookWave::of(propagation)
    }

    /// Returns how many operations, resources and tasks can still be numbered.
    pub fn ids_left(&self) -> (left: u64)
        ensures
            left == u64::MAX - self@.next_id,
    {
        u64::MAX - self.next_id
    }

    /// Returns how many tokens can still be created.
    pub fn tokens_left(&self) -> (left: usize)
        ensures
            left == usize::MAX - self@.tree.len(),
    {
        usize::MAX - self.tree.len()
    }

    /// Returns the root token; it can be the parent of any operation.
    pub fn root_token(&self) -> (token: RuntimeToken)
        ensures
            token.owner == Some(self@.id),
            token.token == self@.root,
    {
        RuntimeToken { owner: Some(self.id), token: self.root }
    }

    /// Returns whether a token is cancelled.
    pub fn is_cancelled(&self, token: CancellationToken) -> (cancelled: bool)
        requires
            token.node < self@.tree.len(),
        ensures
            cancelled == self@.tree[token.node as int].cancelled,
    {
        token.is_cancelled(&self.tree)
    }

    /// Registers a callback to run when a token is cancelled.
    pub fn on_cancel(&mut self, token: CancellationToken, callback: u64) -> (admission:
        HookAdmission)
        requires
            old(self).valid(),
            token.node < old(self)@.tree.len(),
        ensures
            final(self).valid(),
            old(self)@.carries_over(final(self)@),
            admission == hook_admission(old(self)@.tree[token.node as int]),
            final(self)@ == (RuntimeModel {
                hooks: old(self)@.hooks.push(HookTarget::Caller(callback)),
                tree: with_hook(
                    old(self)@.tree,
                    token.node as int,
                    CancelHookEntry {
                        hook: old(self)@.hooks.len() as u64,
                        scope: None,
                        active: true,
                    },
                ),
                ..old(self)@
            }),
    {
        let ghost before = self@;
        let hook: u64 = self.hooks.len() as u64;
        self.hooks.push(HookTarget::Caller(callback));
        let admission = token.on_cancel(&mut self.tree, hook);
        proof {
            lemma_callback_leaves_listeners(
                before,
                token.node as int,
                callback,
                CancelHookEntry { hook, scope: None, active: true },
            );
            assert(self@.operations == before.operations);
            assert(self@.tree.len() == before.tree.len());
        }
        admission
    }

    /// Returns whether another owning handle can be counted.
    pub fn handles_left(&self) -> (left: bool)
        ensures
            left == (self@.handles < usize::MAX),
    {
        self.handles < usize::MAX
    }

    /// Returns whether another scoped callback can be numbered.
    pub fn scopes_left(&self) -> (left: bool)
        ensures
            left == (self.scopes() < u64::MAX),
    {
        self.tree.scopes_left()
    }

    /// Registers a callback that only one blocking call uses, to run when a token is cancelled.
    pub fn on_cancel_scoped(&mut self, token: CancellationToken, callback: u64) -> (registered: (
        CancellationHookRegistration,
        HookAdmission,
    ))
        requires
            old(self).valid(),
            token.node < old(self)@.tree.len(),
            old(self).scopes() < u64::MAX,
        ensures
            final(self).valid(),
            old(self)@.carries_over(final(self)@),
            final(self).scopes() == old(self).scopes() + 1,
            registered.0.token == token,
            registered.0.scope == old(self).scopes(),
            registered.1 == hook_admission(
                old(self)@.tree[token.node as int],
            ),
            final(self)@ == (RuntimeModel {
                hooks: old(self)@.hooks.push(HookTarget::Caller(callback)),
                tree: with_hook(
                    old(self)@.tree,
                    token.node as int,
                    CancelHookEntry {
                        hook: old(self)@.hooks.len() as u64,
                        scope: Some(old(self).scopes()),
                        active: true,
                    },
                ),
                ..old(self)@
            }),
    {
        let ghost before = self@;
        let ghost scope = self.scopes();
        let hook: u64 = self.hooks.len() as u64;
        self.hooks.push(HookTarget::Caller(callback));
        let registered = token.on_cancel_scoped(&mut self.tree, hook);
        proof {
            lemma_callback_leaves_listeners(
                before,
                token.node as int,
                callback,
                CancelHookEntry { hook, scope: Some(scope), active: true },
            );
            assert(self@.operations == before.operations);
            assert(self@.tree.len() == before.tree.len());
        }
        registered
    }

    /// Ends the scope of a callback: later cancellations skip it.
    pub fn end_scope(&mut self, registration: CancellationHookRegistration)
        requires
            old(self).valid(),
            registration.token.node < old(self)@.tree.len(),
        ensures
            final(self).valid(),
            old(self)@.carries_over(final(self)@),
            final(self).scopes() == old(self).scopes(),
            final(self)@ == (RuntimeModel {
                tree: old(self)@.tree.update(
                    registration.token.node as int,
                    NodeModel {
                        hooks: without_scope(
                            old(self)@.tree[registration.token.node as int].hooks,
                            registration.scope,
                        ),
                        ..old(self)@.tree[registration.token.node as int]
                    },
                ),
                ..old(self)@
            }),
    {
        let ghost before = self@;
        registration.release(&mut self.tree);
        proof {
            assert(self@.operations == before.operations);
            assert(self@.tree.len() == before.tree.len());
        }
    }

    /// Tells whether an operation with a deadline would be admitted, before that deadline is shown
    /// to a clock. Whether the parent is still active is decided when the operation is created.
    pub fn admit_deadline(&self, parent: &RuntimeToken) -> (admitted: Result<(), EasyConError>)
        ensures
            admitted is Ok <==> self@.state == RuntimeState::Active && parent.owner == Some(self@.id),
            admitted matches Err(error) ==> error@ == self@.refusal(*parent),
    {
        if let Err(error) = ensure_active(self.state) {
            return Err(error);
        }
        let owned: bool = match parent.owner {
            Some(owner) => owner.0 == self.id.0,
            None => false,
        };
        if !owned {
            return Err(
                EasyConError::new(
                    ErrorDomain::Validation,
                    ErrorCode::InvalidArgument,
                    "operation cancellation parent belongs to a different Runtime",
                ),
            );
        }
        Ok(())
    }

    fn parent_ended() -> (error: EasyConError)
        ensures
            error@ == invalid_model("operation cancellation parent is no longer active"@),
    {
        EasyConError::new(
            ErrorDomain::Validation,
            ErrorCode::InvalidArgument,
            "operation cancellation parent is no longer active",
        )
    }

    /// Creates and supervises a pending operation.
    pub fn create_operation(&mut self, deadline_ns: Option<u64>) -> (created: Result<
        Operation,
        EasyConError,
    >)
        requires
            old(self).valid(),
            old(self)@.tree.len() < usize::MAX,
            old(self)@.next_id < u64::MAX,
        ensures
            final(self).valid(),
            old(self)@.carries_over(final(self)@),
            created is Ok <==> old(self)@.state == RuntimeState::Active && old(self)@.tree[old(
                self,
            )@.root.node as int].is_open(),
            created matches Ok(operation) ==> final(self)@ == old(self)@.created(
                old(self)@.root.node,
                deadline_ns,
                None,
                1,
            ) && final(self)@.owns(operation) && operation.slot == old(self)@.operations.len(),
            created matches Err(error) ==> final(self)@ == old(self)@ && error@ == if old(
                self,
            )@.state != RuntimeState::Active {
                closing_model()
            } else {
                invalid_model("operation cancellation parent is no longer active"@)
            },
    {
        let root = self.root_token();
        self.create_operation_with_parent(deadline_ns, &root)
    }

    /// Creates a pending operation below an active cancellation token owned by this Runtime.
    pub fn create_operation_with_parent(
        &mut self,
        deadline_ns: Option<u64>,
        parent: &RuntimeToken,
    ) -> (created: Result<Operation, EasyConError>)
        requires
            old(self).valid(),
            parent.owner == Some(old(self)@.id) ==> parent.token.node < old(self)@.tree.len(),
            old(self)@.tree.len() < usize::MAX,
            old(self)@.next_id < u64::MAX,
        ensures
            final(self).valid(),
            old(self)@.carries_over(final(self)@),
            created is Ok <==> old(self)@.admits(*parent),
            created matches Ok(operation) ==> final(self)@ == old(self)@.created(
                parent.token.node,
                deadline_ns,
                None,
                1,
            ) && final(self)@.owns(operation) && operation.slot == old(self)@.operations.len(),
            created matches Err(error) ==> final(self)@ == old(self)@ && error@ == old(
                self,
            )@.refusal(*parent),
    {
        let ghost before = self@;
        if let Err(error) = self.admit_deadline(parent) {
            return Err(error);
        }
        let token = match parent.token.try_child(&mut self.tree) {
            Some(token) => token,
            None => {
                assert(self@ =~= before);
                return Err(Self::parent_ended());
            },
        };
        let id: u64 = self.next_id;
        self.next_id = id + 1;
        let slot: usize = self.operations.len();
        let hook: u64 = self.hooks.len() as u64;
        self.hooks.push(HookTarget::Operation(slot));
        let _ = token.on_cancel(&mut self.tree, hook);
        self.operations.push(OperationInner::new(OperationId(id), token, deadline_ns));
        proof {
            assert(self@ =~= before.created(parent.token.node, deadline_ns, None, 1));
            lemma_created_is_valid(before, parent.token.node, deadline_ns, None, 1);
        }
        Ok(Operation { runtime: self.id, slot, id: OperationId(id) })
    }

    /// Creates an operation with one explicit settlement owner.
    ///
    /// Its cleanup and the observer of that cleanup stay with the caller until the operation is
    /// settled.
    pub fn create_operation_with_settlement_owner(
        &mut self,
        deadline_ns: Option<u64>,
        mode: SettlementOwnerMode,
    ) -> (created: Result<(Operation, OperationSettlementOwner), EasyConError>)
        requires
            old(self).valid(),
            old(self)@.tree.len() < usize::MAX,
            old(self)@.next_id < u64::MAX - 2,
        ensures
            final(self).valid(),
            old(self)@.carries_over(final(self)@),
            created is Ok <==> old(self)@.state == RuntimeState::Active && old(self)@.tree[old(
                self,
            )@.root.node as int].is_open(),
            created matches Ok((operation, owner)) ==> {
                let owner_id = (old(self)@.next_id + 1) as u64;
                let transfer = match mode {
                    SettlementOwnerMode::Exclusive => None,
                    SettlementOwnerMode::Transferable => Some((old(self)@.next_id + 2) as u64),
                };
                &&& final(self)@ == old(self)@.created(
                    old(self)@.root.node,
                    deadline_ns,
                    Some(fresh_owner(owner_id, transfer)),
                    if transfer is Some {
                        3
                    } else {
                        2
                    },
                )
                &&& final(self)@.owns(operation)
                &&& operation.slot == old(self)@.operations.len()
                &&& owner.operation == operation
                &&& owner.owner_id == owner_id
            },
            created matches Err(error) ==> final(self)@ == old(self)@ && error@ == if old(
                self,
            )@.state != RuntimeState::Active {
                closing_model()
            } else {
                invalid_model("operation cancellation parent is no longer active"@)
            },
    {
        let ghost before = self@;
        if let Err(error) = ensure_active(self.state) {
            return Err(error);
        }
        let token = match self.root.try_child(&mut self.tree) {
            Some(token) => token,
            None => {
                assert(self@ =~= before);
                return Err(Self::parent_ended());
            },
        };
        let id: u64 = self.next_id;
        let owner_id: u64 = id + 1;
        let transfer_owner_id: Option<u64> = match mode {
            SettlementOwnerMode::Exclusive => None,
            SettlementOwnerMode::Transferable => Some(id + 2),
        };
        self.next_id = if transfer_owner_id.is_some() {
            id + 3
        } else {
            id + 2
        };
        let slot: usize = self.operations.len();
        let hook: u64 = self.hooks.len() as u64;
        self.hooks.push(HookTarget::Operation(slot));
        let _ = token.on_cancel(&mut self.tree, hook);
        self.operations.push(
            OperationInner::new_owned(
                OperationId(id),
                token,
                deadline_ns,
                owner_id,
                transfer_owner_id,
            ),
        );
        proof {
            let owner = Some(fresh_owner(owner_id, transfer_owner_id));
            let ids: int = if transfer_owner_id is Some {
                3
            } else {
                2
            };
            assert(self@ =~= before.created(before.root.node, deadline_ns, owner, ids));
            lemma_created_is_valid(before, before.root.node, deadline_ns, owner, ids);
        }
        let operation = Operation { runtime: self.id, slot, id: OperationId(id) };
        Ok((operation, OperationSettlementOwner { operation, owner_id }))
    }
}

proof fn lemma_created_is_valid(
    runtime: RuntimeModel,
    parent: usize,
    deadline_ns: Option<u64>,
    owner: Option<OwnerModel>,
    ids: int,
)
    requires
        runtime.valid(),
        parent < runtime.tree.len(),
        runtime.tree[parent as int].is_open(),
        tree_valid(runtime.created(parent, deadline_ns, owner, ids).tree),
        runtime.tree.len() < usize::MAX,
        runtime.operations.len() <= usize::MAX,
        runtime.hooks.len() <= u64::MAX,
        1 <= ids,
        runtime.next_id + ids <= u64::MAX,
        OperationModel::initial(
            OperationId(runtime.next_id),
            CancellationToken { node: runtime.tree.len() as usize },
            deadline_ns,
            owner,
        ).valid(),
    ensures
        runtime.created(parent, deadline_ns, owner, ids).valid(),
{
    let after = runtime.created(parent, deadline_ns, owner, ids);
    assert(after.tree.len() == runtime.tree.len() + 1);
    assert forall|k: int| #![trigger after.operations[k]]
        0 <= k < after.operations.len() implies after.operations[k].valid()
        && after.operations[k].token.node < after.tree.len() && after.operations[k].id.0
        < after.next_id && after.listens(k) by {
        if k < runtime.operations.len() {
            assert(after.operations[k] == runtime.operations[k]);
            assert(runtime.listens(k));
            let node = runtime.operations[k].token.node as int;
            assert(after.tree[node].hooks == runtime.tree[node].hooks);
            assert(after.tree[node].is_open() == runtime.tree[node].is_open());
        } else {
            let node = runtime.tree.len() as int;
            assert(with_child(runtime.tree, parent)[node].hooks.len() == 0);
            assert(after.tree[node].hooks.len() == 1);
        }
    }
    assert forall|j: int, k: int| #![trigger after.operations[j], after.operations[k]]
        0 <= j < k < after.operations.len() implies after.operations[j].id.0
        < after.operations[k].id.0 by {
        assert(after.operations[j] == runtime.operations[j]);
        if k < runtime.operations.len() {
            assert(after.operations[k] == runtime.operations[k]);
        }
    }
    assert forall|h: int| 0 <= h < after.hooks.len() implies ((
    #[trigger] after.hooks[h]) matches HookTarget::Operation(slot) ==> slot
        < after.operations.len()) by {
        if h < runtime.hooks.len() {
            assert(after.hooks[h] == runtime.hooks[h]);
        }
    }
    assert forall|k: int| 0 <= k < after.tasks.len() implies (#[trigger] after.tasks[k]).id.0
        < after.next_id && after.tasks[k].life.valid() by {
        assert(after.tasks[k] == runtime.tasks[k]);
    }
    assert forall|k: int| 0 <= k < after.resources.len() implies (#[trigger] after.resources[k]).0
        < after.next_id by {
        assert(after.resources[k] == runtime.resources[k]);
    }
}

/// Handle that keeps a Runtime's storage alive.
#[derive(Debug)]
pub struct RuntimeHandle {
    /// Whether the handle owns the Runtime: the last owning handle ends admission.
    pub counts_as_owner: bool,
}

impl RuntimeHandle {
    /// Creates another handle of the same kind.
    pub fn duplicate(&self, runtime: &mut Runtime) -> (handle: Self)
        requires
            old(runtime).valid(),
            self.counts_as_owner ==> old(runtime)@.handles < usize::MAX,
        ensures
            final(runtime).valid(),
            old(runtime)@.carries_over(final(runtime)@),
            handle.counts_as_owner == self.counts_as_owner,
            final(runtime)@ == (RuntimeModel {
                handles: if self.counts_as_owner {
                    (old(runtime)@.handles + 1) as usize
                } else {
                    old(runtime)@.handles
                },
                ..old(runtime)@
            }),
    {
        if self.counts_as_owner {
            runtime.handles = runtime.handles + 1;
        }
        RuntimeHandle { counts_as_owner: self.counts_as_owner }
    }

    /// Releases the handle. The last owning one rejects later admission and cancels the root of an
    /// active Runtime; the hooks that this set free are returned.
    pub fn release(self, runtime: &mut Runtime) -> (wave: HookWave)
        requires
            old(runtime).valid(),
        ensures
            final(runtime).valid(),
            old(runtime)@.carries_over(final(runtime)@),
            wave.valid(),
            ({
                let before = old(runtime)@;
                let last = self.counts_as_owner && before.handles == 1;
                let counted = RuntimeModel {
                    handles: if self.counts_as_owner && before.handles > 0 {
                        (before.handles - 1) as usize
                    } else {
                        before.handles
                    },
                    ..before
                };
                if last && before.state == RuntimeState::Active {
                    &&& final(runtime)@ == counted.sealed().root_cancelled()
                    &&& wave@ == before.root_hooks()
                    &&& wave.discarded@ == before.root_discards()
                } else {
                    &&& final(runtime)@ == counted
                    &&& wave@ == Seq::<u64>::empty()
                    &&& wave.discarded@ == Seq::<u64>::empty()
                }
            }),
    {
        if !self.counts_as_owner || runtime.handles == 0 {
            return HookWave::empty();
        }
        let previous: usize = runtime.handles;
        runtime.handles = previous - 1;
        if previous == 1 && runtime.state == RuntimeState::Active {
            runtime.seal();
            return runtime.cancel_root();
        }
        HookWave::empty()
    }
}

impl Runtime {
    /// Ends admission.
    pub(crate) fn seal(&mut self)
        requires
            old(self).valid(),
            old(self)@.state == RuntimeState::Active,
        ensures
            final(self).valid(),
            final(self)@ == old(self)@.sealed(),
    {
        self.scheduler.seal_admission();
        self.state = RuntimeState::Closing;
    }

    /// Cancels the root token.
    pub(crate) fn cancel_root(&mut self) -> (wave: HookWave)
        requires
            old(self).valid(),
        ensures
            final(self).valid(),
            wave.valid(),
            final(self)@ == old(self)@.root_cancelled(),
            wave@ == old(self)@.root_hooks(),
            wave.discarded@ == old(self)@.root_discards(),
    {
        self.cancel(self.root)
    }

    /// Creates a handle that keeps storage alive without delaying final-handle close.
    pub fn clone_for_supervision(&self) -> (handle: RuntimeHandle)
        ensures
            !handle.counts_as_owner,
    {
        RuntimeHandle { counts_as_owner: false }
    }

    /// Creates an independent bounded pull subscription.
    pub fn subscribe(&mut self, options: SubscriptionOptions) -> (subscribed: Result<
        EventSubscription,
        EasyConError,
    >)
        requires
            old(self).valid(),
            old(self)@.hub.next_subscription < u64::MAX,
        ensures
            final(self).valid(),
            old(self)@.carries_over(final(self)@),
            subscribed is Ok <==> options.capacity != 0 && old(self)@.state == RuntimeState::Active,
            subscribed matches Ok(subscription) ==> subscription.id == old(
                self,
            )@.hub.next_subscription && final(self)@ == (RuntimeModel {
                hub: old(self)@.hub.subscribed(options),
                ..old(self)@
            }) && final(self)@.hub.knows(subscription.id),
            subscribed matches Err(error) ==> final(self)@ == old(self)@ && error@ == if
                options.capacity == 0 {
                invalid_model("event subscription capacity must be non-zero"@)
            } else {
                closing_model()
            },
            subscribed matches Err(error) ==> Some(error@) == old(self)@.subscription_refusal(
                options,
            ),
            subscribed is Ok ==> old(self)@.subscription_refusal(options) is None,
    {
        if options.capacity == 0 {
            return Err(
                EasyConError::new(
                    ErrorDomain::Validation,
                    ErrorCode::InvalidArgument,
                    "event subscription capacity must be non-zero",
                ),
            );
        }
        if let Err(error) = ensure_active(self.state) {
            return Err(error);
        }
        Ok(self.hub.subscribe(options))
    }

    /// Gives access to event production, to read, measure and release subscriptions.
    pub fn events(&mut self) -> (hub: &mut EventHub)
        requires
            old(self).valid(),
        ensures
            hub.valid(),
            hub@ == old(self)@.hub,
            final(hub).valid() ==> final(self).valid(),
            old(self)@.carries_over(final(self)@),
            final(self)@ == (RuntimeModel { hub: final(hub)@, ..old(self)@ }),
    {
        &mut self.hub
    }

    /// Gives access to the deadline schedule, to observe and disarm registrations.
    pub fn deadlines(&mut self) -> (scheduler: &mut DeadlineScheduler)
        requires
            old(self).valid(),
        ensures
            scheduler@ == old(self)@.scheduler,
            final(scheduler)@.valid() && final(scheduler)@.has_orders()
                && final(scheduler)@.admission_open == old(self)@.scheduler.admission_open
                ==> final(self).valid(),
            old(self)@.carries_over(final(self)@),
            final(self)@ == (RuntimeModel { scheduler: final(scheduler)@, ..old(self)@ }),
    {
        &mut self.scheduler
    }

    /// Registers an active resource for Runtime-owned shutdown.
    pub fn register_resource(&mut self) -> (registered: Result<ResourceRegistration, EasyConError>)
        requires
            old(self).valid(),
            old(self)@.next_id < u64::MAX,
        ensures
            final(self).valid(),
            old(self)@.carries_over(final(self)@),
            registered is Ok <==> old(self)@.state == RuntimeState::Active,
            registered matches Ok(registration) ==> registration.runtime == old(self)@.id
                && registration.id.0 == old(self)@.next_id && final(self)@ == (RuntimeModel {
                next_id: (old(self)@.next_id + 1) as u64,
                resources: old(self)@.resources.push(registration.id),
                ..old(self)@
            }),
            registered matches Err(error) ==> final(self)@ == old(self)@ && error@
                == closing_model(),
            registered is Ok ==> old(self)@.resource_refusal() is None && final(self)@ == old(
                self,
            )@.resource_registered(),
            registered matches Err(error) ==> Some(error@) == old(self)@.resource_refusal(),
    {
        if let Err(error) = ensure_active(self.state) {
            return Err(error);
        }
        let id = ResourceId(self.allocate_id());
        self.resources.push(id);
        Ok(ResourceRegistration { runtime: self.id, id })
    }

    /// Removes a resource from supervision. Calling this repeatedly is harmless.
    pub(crate) fn unregister_resource(&mut self, id: ResourceId)
        requires
            old(self).valid(),
        ensures
            final(self).valid(),
            final(self)@ == (RuntimeModel {
                resources: without_resource(old(self)@.resources, id),
                ..old(self)@
            }),
    {
        let ghost before = self@;
        let mut k: usize = 0;
        while k < self.resources.len()
            invariant
                k <= self.resources.len(),
                self.valid(),
                self@ == before,
                before == old(self)@,
                forall|j: int| 0 <= j < k ==> (#[trigger] before.resources[j]) != id,
            decreases self.resources.len() - k,
        {
            if self.resources[k].0 == id.0 {
                let _ = self.resources.remove(k);
                proof {
                    lemma_without_resource(before.resources, id, k as int);
                    assert(self@.resources =~= before.resources.remove(k as int));
                }
                return ;
            }
            k += 1;
        }
        proof {
            lemma_without_absent_resource(before.resources, id);
        }
    }

    /// Returns current supervised counts without changing lifecycle.
    pub fn counts(&self) -> (counts: RuntimeCounts)
        ensures
            self@.supervises(counts),
    {
        let ghost operations = self@.operations;
        let ghost tasks = self@.tasks;
        let mut active: usize = 0;
        let mut k: usize = 0;
        assert(operations.take(0) =~= seq![]);
        while k < self.operations.len()
            invariant
                k <= self.operations.len(),
                operations == operation_models(self.operations@),
                active <= k,
                active == active_operations(operations.take(k as int)),
            decreases self.operations.len() - k,
        {
            proof {
                assert(operations.take(k + 1).drop_last() =~= operations.take(k as int));
                assert(operations.take(k + 1).last() == self.operations[k as int]@);
            }
            if !self.operations[k].state().is_terminal() {
                active = active + 1;
            }
            k += 1;
        }
        assert(operations.take(k as int) =~= operations);
        let mut linked: usize = 0;
        let mut n: usize = 0;
        assert(tasks.take(0) =~= seq![]);
        while n < self.tasks.len()
            invariant
                n <= self.tasks.len(),
                tasks == task_models(self.tasks@),
                linked <= n,
                linked == active_tasks(tasks.take(n as int)),
            decreases self.tasks.len() - n,
        {
            proof {
                assert(tasks.take(n + 1).drop_last() =~= tasks.take(n as int));
                assert(tasks.take(n + 1).last() == self.tasks[n as int]@);
            }
            if self.tasks[n].lifecycle.registry_linked() {
                linked = linked + 1;
            }
            n += 1;
        }
        assert(tasks.take(n as int) =~= tasks);
        RuntimeCounts {
            active_operations: active,
            active_resources: self.resources.len(),
            active_tasks: linked,
        }
    }
}

impl ResourceRegistration {
    /// Returns the Runtime-local resource identifier.
    pub fn id(&self) -> (id: ResourceId)
        ensures
            id == self.id,
    {
        self.id
    }

    /// Removes the resource from supervision. Calling this repeatedly is harmless.
    pub fn unregister(&self, runtime: &mut Runtime)
        requires
            old(runtime).valid(),
            self.runtime == old(runtime)@.id,
        ensures
            final(runtime).valid(),
            old(runtime)@.carries_over(final(runtime)@),
            final(runtime)@ == (RuntimeModel {
                resources: without_resource(old(runtime)@.resources, self.id),
                ..old(runtime)@
            }),
    {
        runtime.unregister_resource(self.id);
    }
}

/// The resources but for one.
pub open spec fn without_resource(resources: Seq<ResourceId>, id: ResourceId) -> Seq<ResourceId> {
    resources.filter(|other: ResourceId| other != id)
}

proof fn lemma_without_absent_resource(resources: Seq<ResourceId>, id: ResourceId)
    requires
        forall|k: int| 0 <= k < resources.len() ==> (#[trigger] resources[k]) != id,
    ensures
        without_resource(resources, id) == resources,
    decreases resources.len(),
{
    reveal(Seq::filter);
    if resources.len() > 0 {
        lemma_without_absent_resource(resources.drop_last(), id);
        assert(resources.drop_last().push(resources.last()) =~= resources);
        assert(resources[resources.len() - 1] != id);
    }
}

proof fn lemma_without_resource(resources: Seq<ResourceId>, id: ResourceId, k: int)
    requires
        0 <= k < resources.len(),
        resources[k] == id,
        forall|i: int, j: int|
            #![trigger resources[i], resources[j]]
            0 <= i < j < resources.len() ==> resources[i].0 < resources[j].0,
    ensures
        without_resource(resources, id) == resources.remove(k),
    decreases resources.len(),
{
    reveal(Seq::filter);
    let rest = resources.drop_last();
    if k == resources.len() - 1 {
        assert forall|j: int| 0 <= j < rest.len() implies (#[trigger] rest[j]) != id by {
            assert(resources[j].0 < resources[k].0);
        }
        lemma_without_absent_resource(rest, id);
        assert(resources.remove(k) =~= rest);
    } else {
        assert(resources[k].0 < resources[resources.len() - 1].0);
        lemma_without_resource(rest, id, k);
        assert(resources.remove(k) =~= rest.remove(k).push(resources.last()));
    }
}

/// An error of a Runtime that is closing.
pub fn runtime_closing_error(message: &'static str) -> (error: EasyConError)
    ensures
        error@ == (ErrorModel {
            domain: ErrorDomain::Runtime,
            code: ErrorCode::RuntimeClosing,
            message: message@,
        }),
{
    EasyConError::new(ErrorDomain::Runtime, ErrorCode::RuntimeClosing, message)
}

/// Whether an operation has to be cancelled at `now_ns` for its deadline.
pub open spec fn is_due(operation: OperationModel, now_ns: u64) -> bool {
    !terminal(operation.state) && (operation.deadline_ns matches Some(deadline) && deadline
        <= now_ns)
}

/// Whether `due` lists exactly the operations due at `now_ns`, the earliest deadline first and the
/// older operation first among equals.
pub open spec fn lists_due(
    operations: Seq<OperationModel>,
    now_ns: u64,
    due: Seq<(u64, usize)>,
) -> bool {
    &&& forall|i: int|
        0 <= i < due.len() ==> (#[trigger] due[i]).1 < operations.len() && is_due(
            operations[due[i].1 as int],
            now_ns,
        ) && operations[due[i].1 as int].deadline_ns == Some(due[i].0)
    &&& forall|i: int, j: int|
        #![trigger due[i], due[j]]
        0 <= i < j < due.len() ==> due[i].0 < due[j].0 || (due[i].0 == due[j].0 && due[i].1
            < due[j].1)
    &&& forall|k: int|
        0 <= k < operations.len() && is_due(#[trigger] operations[k], now_ns) ==> exists|i: int|
            0 <= i < due.len() && (#[trigger] due[i]).1 == k
}

/// Whether an operation still waits for its deadline.
pub open spec fn awaits_deadline(operation: OperationModel) -> bool {
    (operation.state == crate::operation::OperationState::Pending || operation.state
        == crate::operation::OperationState::Running) && operation.deadline_ns is Some
}

/// Whether `next` is the earliest deadline that an operation still waits for.
pub open spec fn is_next_deadline(operations: Seq<OperationModel>, next: Option<u64>) -> bool {
    match next {
        None => forall|k: int|
            0 <= k < operations.len() ==> !awaits_deadline(#[trigger] operations[k]),
        Some(next) => {
            &&& exists|k: int|
                0 <= k < operations.len() && awaits_deadline(#[trigger] operations[k])
                    && operations[k].deadline_ns == Some(next)
            &&& forall|k: int|
                0 <= k < operations.len() && awaits_deadline(#[trigger] operations[k]) ==> next
                    <= operations[k].deadline_ns->0
        },
    }
}

impl Runtime {
    /// Keeps a place in the deadline schedule.
    pub fn reserve_deadline_admission(&mut self, target_ns: u64) -> (admission: Result<
        DeadlineAdmission,
        EasyConError,
    >)
        requires
            old(self).valid(),
            old(self)@.scheduler.signals.len() < u64::MAX - 1,
            old(self)@.scheduler.signals.len() < usize::MAX,
            old(self)@.scheduler.has_orders_for(
                (old(self)@.scheduler.pending.len() + old(self)@.scheduler.entries.len()
                    + 1) as int,
            ),
        ensures
            final(self).valid(),
            old(self)@.carries_over(final(self)@),
            admission is Ok <==> old(self)@.state == RuntimeState::Active,
            admission matches Ok(admission) ==> admission.target_ns == target_ns && admission.id.0
                == old(self)@.scheduler.signals.len() + 1 && final(self)@ == (RuntimeModel {
                scheduler: SchedulerModel {
                    pending: old(self)@.scheduler.pending.push(
                        PendingDeadline { target_ns, id: admission.id },
                    ),
                    signals: old(self)@.scheduler.signals.push(
                        DeadlineResolutionState { outcome: None, waker: None },
                    ),
                    ..old(self)@.scheduler
                },
                ..old(self)@
            }),
            admission matches Err(error) ==> final(self)@ == old(self)@ && error@
                == closing_model(),
    {
        if let Err(error) = ensure_active(self.state) {
            return Err(error);
        }
        match self.scheduler.reserve(target_ns) {
            Ok(admission) => Ok(admission),
            Err(()) => Err(runtime_closing_error("Runtime deadline admission is sealed")),
        }
    }

    /// Arms a reserved one-shot absolute deadline in this Runtime's clock epoch.
    pub fn register_deadline(
        &mut self,
        admission: DeadlineAdmission,
        trace_id: DeadlineId,
        now_ns: u64,
    ) -> (done: (DeadlineRegistration, CommitFollowUp))
        requires
            old(self).valid(),
        ensures
            final(self).valid(),
            old(self)@.carries_over(final(self)@),
            done.0 == (DeadlineRegistration {
                id: admission.id,
                target_ns: admission.target_ns,
            }),
            final(self)@ == (RuntimeModel { scheduler: final(self)@.scheduler, ..old(self)@ }),
            done.1 is Nothing <==> !old(self)@.scheduler.is_pending(admission.id),
            done.1 is Nothing ==> final(self)@ == old(self)@,
            done.1 is WakeWorker <==> old(self)@.scheduler.is_pending(admission.id) && now_ns
                < admission.target_ns,
            done.1 is WakeWorker ==> final(self)@.scheduler == old(self)@.scheduler.with_armed(
                admission.id,
                trace_id,
            ),
            done.1 matches CommitFollowUp::Fired(notices) ==> fired_at(
                old(self)@.scheduler.with_armed(admission.id, trace_id),
                now_ns,
                final(self)@.scheduler,
                notices@,
            ),
    {
        admission.commit(&mut self.scheduler, trace_id, now_ns)
    }

    /// Resolves the registrations that are due.
    pub fn fire_due_at(&mut self, now_ns: u64) -> (notices: Vec<DeadlineNotice>)
        requires
            old(self).valid(),
        ensures
            final(self).valid(),
            old(self)@.carries_over(final(self)@),
            final(self)@ == (RuntimeModel { scheduler: final(self)@.scheduler, ..old(self)@ }),
            fired_at(old(self)@.scheduler, now_ns, final(self)@.scheduler, notices@),
    {
        self.scheduler.fire_due_at(now_ns)
    }

    /// Lists the operations whose execution deadline has elapsed, with their deadlines, in the order
    /// in which they are to be cancelled.
    pub fn due_operations(&self, now_ns: u64) -> (due: Vec<(u64, usize)>)
        ensures
            lists_due(self@.operations, now_ns, due@),
    {
        let ghost operations = self@.operations;
        let mut due: Vec<(u64, usize)> = Vec::new();
        let mut k: usize = 0;
        assert(lists_due(operations.take(0), now_ns, due@));
        while k < self.operations.len()
            invariant
                k <= self.operations.len(),
                operations == operation_models(self.operations@),
                lists_due(operations.take(k as int), now_ns, due@),
            decreases self.operations.len() - k,
        {
            let ghost before = due@;
            let ghost operation = operations[k as int];
            assert(operation == self.operations[k as int]@);
            let deadline: Option<u64> = self.operations[k].deadline_ns();
            let ended: bool = self.operations[k].state().is_terminal();
            if let Some(deadline) = deadline {
                if !ended && deadline <= now_ns {
                    let mut place: usize = due.len();
                    while place > 0 && due[place - 1].0 > deadline
                        invariant
                            place <= due.len(),
                            due@ == before,
                            forall|i: int| place <= i < due.len() ==> (#[trigger] due@[i]).0 > deadline,
                        decreases place,
                    {
                        place = place - 1;
                    }
                    due.insert(place, (deadline, k));
                    proof {
                        lemma_due_inserted(
                            operations,
                            now_ns,
                            before,
                            k as int,
                            place as int,
                            deadline,
                        );
                    }
                }
            }
            proof {
                if !is_due(operation, now_ns) {
                    lemma_due_skipped(operations, now_ns, due@, k as int);
                }
            }
            k += 1;
        }
        assert(operations.take(k as int) =~= operations);
        due
    }

    /// Returns the earliest deadline that an operation still waits for.
    pub fn next_deadline_ns(&self) -> (next: Option<u64>)
        ensures
            is_next_deadline(self@.operations, next),
    {
        let ghost operations = self@.operations;
        let mut next: Option<u64> = None;
        let mut k: usize = 0;
        while k < self.operations.len()
            invariant
                k <= self.operations.len(),
                operations == operation_models(self.operations@),
                is_next_deadline(operations.take(k as int), next),
            decreases self.operations.len() - k,
        {
            let ghost before = operations.take(k as int);
            let ghost after = operations.take(k + 1);
            let ghost earlier = next;
            assert(operations[k as int] == self.operations[k as int]@);
            let state = self.operations[k].state();
            if state == crate::operation::OperationState::Pending || state
                == crate::operation::OperationState::Running {
                if let Some(deadline) = self.operations[k].deadline_ns() {
                    next = match next {
                        Some(next) => if next <= deadline {
                            Some(next)
                        } else {
                            Some(deadline)
                        },
                        None => Some(deadline),
                    };
                }
            }
            proof {
                assert(after[k as int] == operations[k as int]);
                assert forall|j: int| 0 <= j < k implies #[trigger] after[j] == before[j] by {}
                if earlier is Some {
                    let j = choose|j: int|
                        0 <= j < before.len() && awaits_deadline(#[trigger] before[j])
                            && before[j].deadline_ns == earlier;
                    assert(after[j] == before[j]);
                }
            }
            k += 1;
        }
        assert(operations.take(k as int) =~= operations);
        next
    }

    /// Returns the time at which the deadline worker has to look again: the earlier of the next
    /// operation deadline and the next registration.
    pub fn next_wake_ns(&self) -> (wake: Option<u64>)
        requires
            self.valid(),
        ensures
            exists|operation: Option<u64>| #[trigger]
                is_next_deadline(self@.operations, operation) && wake == earlier_of(
                    operation,
                    next_target_of(self@.scheduler),
                ),
    {
        let operation = self.next_deadline_ns();
        let registration = self.scheduler.next_target_ns();
        match (operation, registration) {
            (Some(operation), Some(registration)) => if operation <= registration {
                Some(operation)
            } else {
                Some(registration)
            },
            (Some(operation), None) => Some(operation),
            (None, Some(registration)) => Some(registration),
            (None, None) => None,
        }
    }
}

/// The earlier of two optional times.
pub open spec fn earlier_of(left: Option<u64>, right: Option<u64>) -> Option<u64> {
    match (left, right) {
        (Some(left), Some(right)) => if left <= right {
            Some(left)
        } else {
            Some(right)
        },
        (Some(left), None) => Some(left),
        (None, other) => other,
    }
}

proof fn lemma_due_skipped(
    operations: Seq<OperationModel>,
    now_ns: u64,
    due: Seq<(u64, usize)>,
    k: int,
)
    requires
        0 <= k < operations.len(),
        !is_due(operations[k], now_ns),
        lists_due(operations.take(k), now_ns, due),
    ensures
        lists_due(operations.take(k + 1), now_ns, due),
{
    let before = operations.take(k);
    let after = operations.take(k + 1);
    assert forall|i: int| 0 <= i < due.len() implies (#[trigger] due[i]).1 < after.len() && is_due(
        after[due[i].1 as int],
        now_ns,
    ) && after[due[i].1 as int].deadline_ns == Some(due[i].0) by {
        assert(after[due[i].1 as int] == before[due[i].1 as int]);
    }
    assert forall|j: int| 0 <= j < after.len() && is_due(
        #[trigger] after[j],
        now_ns,
    ) implies exists|i: int| 0 <= i < due.len() && (#[trigger] due[i]).1 == j by {
        assert(j < k);
        assert(before[j] == after[j]);
    }
}

proof fn lemma_due_inserted(
    operations: Seq<OperationModel>,
    now_ns: u64,
    due: Seq<(u64, usize)>,
    k: int,
    place: int,
    deadline: u64,
)
    requires
        0 <= k < operations.len(),
        k <= usize::MAX,
        is_due(operations[k], now_ns),
        operations[k].deadline_ns == Some(deadline),
        lists_due(operations.take(k), now_ns, due),
        0 <= place <= due.len(),
        forall|i: int| place <= i < due.len() ==> (#[trigger] due[i]).0 > deadline,
        place > 0 ==> due[place - 1].0 <= deadline,
    ensures
        lists_due(operations.take(k + 1), now_ns, due.insert(place, (deadline, k as usize))),
{
    let before = operations.take(k);
    let after = operations.take(k + 1);
    let entry = (deadline, k as usize);
    let more = due.insert(place, entry);
    assert forall|i: int| 0 <= i < more.len() implies (#[trigger] more[i]).1 < after.len()
        && is_due(after[more[i].1 as int], now_ns) && after[more[i].1 as int].deadline_ns == Some(
        more[i].0,
    ) by {
        if i < place {
            assert(more[i] == due[i]);
            assert(after[due[i].1 as int] == before[due[i].1 as int]);
        } else if i > place {
            assert(more[i] == due[i - 1]);
            assert(after[due[i - 1].1 as int] == before[due[i - 1].1 as int]);
        }
    }
    assert forall|i: int, j: int| #![trigger more[i], more[j]] 0 <= i < j < more.len() implies
        more[i].0 < more[j].0 || (more[i].0 == more[j].0 && more[i].1 < more[j].1) by {
        let old_i = if i < place {
            i
        } else {
            i - 1
        };
        let old_j = if j < place {
            j
        } else {
            j - 1
        };
        if i == place {
            assert(more[j] == due[old_j]);
        } else if j == place {
            assert(more[i] == due[old_i]);
            assert(due[old_i].1 < k);
            if old_i < place - 1 {
                assert(due[old_i].0 <= due[place - 1].0);
            }
        } else {
            assert(more[i] == due[old_i]);
            assert(more[j] == due[old_j]);
        }
    }
    assert forall|j: int| 0 <= j < after.len() && is_due(
        #[trigger] after[j],
        now_ns,
    ) implies exists|i: int| 0 <= i < more.len() && (#[trigger] more[i]).1 == j by {
        if j == k {
            assert(more[place] == entry);
        } else {
            assert(before[j] == after[j]);
            let i = choose|i: int| 0 <= i < due.len() && (#[trigger] due[i]).1 == j;
            if i < place {
                assert(more[i] == due[i]);
            } else {
                assert(more[i + 1] == due[i]);
            }
        }
    }
}

/// What a terminal request did.
pub enum FinishStart {
    /// Nothing: the answer is final.
    Rejected(TransitionOutcome),
    /// Another terminal transaction is running: the answer comes with its commit.
    Observe,
    /// A terminal transaction began: run its hooks, then cleanup, then commit.
    Begun(HookWave),
}

impl Runtime {
    /// Starts to commit a result on an operation without a settlement owner.
    fn begin_finish(&mut self, slot: usize, request: LegacyTerminalRequest) -> (start: FinishStart)
        requires
            old(self).valid(),
            slot < old(self)@.operations.len(),
        ensures
            final(self).valid(),
            ({
                let operation = old(self)@.operations[slot as int];
                &&& old(self)@.starts(
                    slot as int,
                    operation.request_begins(request@),
                    operation.begun(operation.requested_primary(request@)->0),
                    start,
                    final(self)@,
                )
                &&& start is Observe <==> !terminal(operation.state) && operation.owner is None
                    && operation.terminal_in_progress
            }),
    {
        let ghost before = self@;
        assert(before.operations[slot as int] == self.operations[slot as int]@);
        let operation = &mut self.operations[slot];
        let start = operation.begin_legacy(&mut self.tree, request);
        proof {
            let after = self.operations[slot as int]@;
            assert(self@.operations =~= before.operations.update(slot as int, after));
            assert(self@.tree.len() == before.tree.len());
            if start is Begun {
                assert(self@ =~= before.ending(slot as int, after));
            } else {
                assert(self@ =~= before);
            }
        }
        match start {
            LegacyStart::Rejected(outcome) => FinishStart::Rejected(outcome),
            LegacyStart::Observe => FinishStart::Observe,
            LegacyStart::Begun(propagation) => FinishStart::Begun(HookWave::of(propagation)),
        }
    }

    /// Starts to commit a proven cleanup failure.
    fn begin_strict_failure(&mut self, slot: usize, error: EasyConError) -> (start: FinishStart)
        requires
            old(self).valid(),
            slot < old(self)@.operations.len(),
        ensures
            final(self).valid(),
            start !is Observe,
            ({
                let operation = old(self)@.operations[slot as int];
                old(self)@.starts(
                    slot as int,
                    operation.strict_begins(),
                    operation.begun(PrimaryModel::Failure(error@)),
                    start,
                    final(self)@,
                )
            }),
    {
        let ghost before = self@;
        assert(before.operations[slot as int] == self.operations[slot as int]@);
        let operation = &mut self.operations[slot];
        let start = operation.begin_strict_cleanup_failure(&mut self.tree, error);
        proof {
            let after = self.operations[slot as int]@;
            assert(self@.operations =~= before.operations.update(slot as int, after));
            assert(self@.tree.len() == before.tree.len());
            if start is Begun {
                assert(self@ =~= before.ending(slot as int, after));
            } else {
                assert(self@ =~= before);
            }
        }
        match start {
            LegacyStart::Rejected(outcome) => FinishStart::Rejected(outcome),
            LegacyStart::Observe => FinishStart::Observe,
            LegacyStart::Begun(propagation) => FinishStart::Begun(HookWave::of(propagation)),
        }
    }

    /// Requests cancellation of an operation.
    fn request_cancel_at(
        &mut self,
        slot: usize,
        reason: CancellationReason,
        now_ns: Option<u64>,
    ) -> (request: (TransitionOutcome, HookWave))
        requires
            old(self).valid(),
            slot < old(self)@.operations.len(),
        ensures
            final(self).valid(),
            request.1.valid(),
            request.0 == old(self)@.operations[slot as int].cancel_outcome(),
            final(self)@ == old(self)@.cancel_requested(slot as int, reason, now_ns),
            request.1@ == old(self)@.cancel_hooks(slot as int),
            request.1.discarded@ == old(self)@.cancel_discards(slot as int),
    {
        let ghost before = self@;
        assert(before.operations[slot as int] == self.operations[slot as int]@);
        let operation = &mut self.operations[slot];
        let request = operation.request_cancel(&mut self.tree, reason);
        let ghost middle = self@;
        proof {
            let after = before.operations[slot as int].cancel_requested(reason);
            assert(self.operations[slot as int]@ == after);
            assert(self@.operations =~= before.operations.update(slot as int, after));
            assert(self@.tree.len() == before.tree.len());
        }
        if request.publish {
            self.announce_operation(slot, now_ns);
        }
        assert(self@ =~= before.cancel_requested(slot as int, reason, now_ns));
        match request.propagation {
            Some(propagation) => (request.outcome, HookWave::of(propagation)),
            None => (request.outcome, HookWave::empty()),
        }
    }

    /// Commits the running terminal transaction of an operation, publishes its state, and ends its
    /// supervision.
    fn commit_at(
        &mut self,
        slot: usize,
        cleanup: SettledCleanup,
        observer_panicked: bool,
        now_ns: Option<u64>,
    ) -> (outcome: TransitionOutcome)
        requires
            old(self).valid(),
            slot < old(self)@.operations.len(),
            old(self)@.operations[slot as int].finishing is Some,
            cleanup@.valid(),
        ensures
            final(self).valid(),
            outcome == old(self)@.operations[slot as int].commit_outcome(
                cleanup@,
                observer_panicked,
            ),
            final(self)@ == old(self)@.put(
                slot as int,
                old(self)@.operations[slot as int].committed(cleanup@, observer_panicked),
                true,
                now_ns,
            ),
    {
        let ghost before = self@;
        assert(before.operations[slot as int] == self.operations[slot as int]@);
        let operation = &mut self.operations[slot];
        let outcome = operation.finish_claimed_terminal(cleanup, observer_panicked);
        proof {
            let after = self.operations[slot as int]@;
            assert(self@.operations =~= before.operations.update(slot as int, after));
        }
        self.announce_operation(slot, now_ns);
        outcome
    }
}

/// Operations whose deadlines have elapsed, being cancelled one after the other.
pub struct DeadlineSweep {
    /// The operations, with their deadlines.
    pub due: Vec<(u64, usize)>,
    /// How many were looked at.
    pub next: usize,
    /// How many were cancelled by this sweep.
    pub applied: usize,
}

impl DeadlineSweep {
    /// What every sweep over a Runtime satisfies.
    pub open spec fn valid(&self, runtime: RuntimeModel) -> bool {
        &&& self.applied <= self.next <= self.due@.len()
        &&& forall|i: int|
            0 <= i < self.due@.len() ==> (#[trigger] self.due@[i]).1 < runtime.operations.len()
    }
}

impl Runtime {
    /// Starts to cancel the operations whose execution deadline has elapsed.
    pub fn sweep_deadlines(&self, now_ns: u64) -> (sweep: DeadlineSweep)
        ensures
            sweep.valid(self@),
            sweep.next == 0,
            sweep.applied == 0,
            lists_due(self@.operations, now_ns, sweep.due@),
    {
        DeadlineSweep { due: self.due_operations(now_ns), next: 0, applied: 0 }
    }

    /// Requests cancellation of the next operation of a sweep, and returns the hooks that this set
    /// free; none when the sweep is complete and `applied` is its result.
    pub fn poll_deadlines(&mut self, sweep: &mut DeadlineSweep, now_ns: Option<u64>) -> (wave:
        Option<HookWave>)
        requires
            old(self).valid(),
            old(sweep).valid(old(self)@),
        ensures
            final(self).valid(),
            old(self)@.carries_over(final(self)@),
            final(sweep).valid(final(self)@),
            final(sweep).due == old(sweep).due,
            wave is Some <==> old(sweep).next < old(sweep).due@.len(),
            wave is None ==> final(self)@ == old(self)@ && *final(sweep) == *old(sweep),
            wave matches Some(wave) ==> {
                let slot = old(sweep).due@[old(sweep).next as int].1 as int;
                &&& wave.valid()
                &&& final(sweep).next == old(sweep).next + 1
                &&& final(sweep).applied == old(sweep).applied + if old(
                    self,
                )@.operations[slot].cancel_outcome() == TransitionOutcome::Applied {
                    1int
                } else {
                    0int
                }
                &&& final(self)@ == old(self)@.cancel_requested(
                    slot,
                    CancellationReason::Deadline,
                    now_ns,
                )
                &&& final(self)@ == old(self)@.deadline_enforced(slot, now_ns)
                &&& wave@ == old(self)@.cancel_hooks(slot)
                &&& wave.discarded@ == old(self)@.cancel_discards(slot)
            },
    {
        if sweep.next == sweep.due.len() {
            return None;
        }
        let slot: usize = sweep.due[sweep.next].1;
        let (outcome, wave) = self.request_cancel_at(slot, CancellationReason::Deadline, now_ns);
        sweep.next = sweep.next + 1;
        if outcome == TransitionOutcome::Applied {
            sweep.applied = sweep.applied + 1;
        }
        Some(wave)
    }
}

impl Operation {
    /// Returns the Runtime-local operation identifier.
    pub fn id(&self) -> (id: OperationId)
        ensures
            id == self.id,
    {
        self.id
    }

    /// Returns the optional absolute execution deadline.
    pub fn deadline_ns(&self, runtime: &Runtime) -> (deadline_ns: Option<u64>)
        requires
            runtime@.owns(*self),
        ensures
            deadline_ns == runtime@.at(*self).deadline_ns,
    {
        runtime.operations[self.slot].deadline_ns()
    }

    /// Returns the cancellation token owned by this operation.
    pub fn cancellation_token(&self, runtime: &Runtime) -> (token: RuntimeToken)
        requires
            runtime@.owns(*self),
        ensures
            token.owner == Some(self.runtime),
            token.token == runtime@.at(*self).token,
    {
        RuntimeToken {
            owner: Some(self.runtime),
            token: runtime.operations[self.slot].cancellation_token(),
        }
    }

    /// Registers a wake callback for supervised work.
    pub fn on_cancel(&self, runtime: &mut Runtime, callback: u64) -> (admission: HookAdmission)
        requires
            old(runtime).valid(),
            old(runtime)@.owns(*self),
        ensures
            final(runtime).valid(),
            old(runtime)@.carries_over(final(runtime)@),
            admission == hook_admission(
                old(runtime)@.tree[old(runtime)@.at(*self).token.node as int],
            ),
            final(runtime)@ == (RuntimeModel {
                hooks: old(runtime)@.hooks.push(HookTarget::Caller(callback)),
                tree: with_hook(
                    old(runtime)@.tree,
                    old(runtime)@.at(*self).token.node as int,
                    CancelHookEntry {
                        hook: old(runtime)@.hooks.len() as u64,
                        scope: None,
                        active: true,
                    },
                ),
                ..old(runtime)@
            }),
    {
        assert(runtime@.operations[self.slot as int] == runtime.operations[self.slot as int]@);
        let token = runtime.operations[self.slot].cancellation_token();
        runtime.on_cancel(token, callback)
    }

    /// Admits a pending operation.
    pub fn start(&self, runtime: &mut Runtime, now_ns: Option<u64>) -> (outcome: TransitionOutcome)
        requires
            old(runtime).valid(),
            old(runtime)@.owns(*self),
        ensures
            final(runtime).valid(),
            old(runtime)@.carries_over(final(runtime)@),
            outcome == old(runtime)@.at(*self).start_outcome(),
            final(runtime)@ == old(runtime)@.put(
                self.slot as int,
                old(runtime)@.at(*self).started(),
                outcome == TransitionOutcome::Applied,
                now_ns,
            ),
    {
        let ghost before = runtime@;
        let slot: usize = self.slot;
        assert(before.operations[slot as int] == runtime.operations[slot as int]@);
        let operation = &mut runtime.operations[slot];
        let outcome = operation.transition_running();
        proof {
            let after = runtime.operations[slot as int]@;
            assert(runtime@.operations =~= before.operations.update(slot as int, after));
        }
        if outcome == TransitionOutcome::Applied {
            runtime.announce_operation(slot, now_ns);
        }
        assert(runtime@ =~= before.put(
            slot as int,
            before.operations[slot as int].started(),
            outcome == TransitionOutcome::Applied,
            now_ns,
        ));
        outcome
    }

    /// Idempotently requests caller cancellation.
    pub fn cancel(&self, runtime: &mut Runtime, now_ns: Option<u64>) -> (request: (
        TransitionOutcome,
        HookWave,
    ))
        requires
            old(runtime).valid(),
            old(runtime)@.owns(*self),
        ensures
            final(runtime).valid(),
            old(runtime)@.carries_over(final(runtime)@),
            request.1.valid(),
            request.0 == old(runtime)@.at(*self).cancel_outcome(),
            final(runtime)@ == old(runtime)@.cancel_requested(
                self.slot as int,
                CancellationReason::Requested,
                now_ns,
            ),
            final(runtime)@ == old(runtime)@.caller_cancelled(self.slot as int, now_ns),
            request.1@ == old(runtime)@.cancel_hooks(self.slot as int),
            request.1.discarded@ == old(runtime)@.cancel_discards(self.slot as int),
    {
        self.request_cancel(runtime, CancellationReason::Requested, now_ns)
    }

    /// Requests cancellation with an explicit core reason. The hooks that this set free are to be
    /// run next.
    pub fn request_cancel(
        &self,
        runtime: &mut Runtime,
        reason: CancellationReason,
        now_ns: Option<u64>,
    ) -> (request: (TransitionOutcome, HookWave))
        requires
            old(runtime).valid(),
            old(runtime)@.owns(*self),
        ensures
            final(runtime).valid(),
            old(runtime)@.carries_over(final(runtime)@),
            request.1.valid(),
            request.0 == old(runtime)@.at(*self).cancel_outcome(),
            final(runtime)@ == old(runtime)@.cancel_requested(self.slot as int, reason, now_ns),
            request.1@ == old(runtime)@.cancel_hooks(self.slot as int),
            request.1.discarded@ == old(runtime)@.cancel_discards(self.slot as int),
    {
        runtime.request_cancel_at(self.slot, reason, now_ns)
    }

    /// Starts to commit success, which happens once.
    pub fn succeed(&self, runtime: &mut Runtime, result: OperationValue) -> (start: FinishStart)
        requires
            old(runtime).valid(),
            old(runtime)@.owns(*self),
        ensures
            final(runtime).valid(),
            old(runtime)@.carries_over(final(runtime)@),
            self.answers(old(runtime)@, RequestModel::Success(result@), start, final(runtime)@),
    {
        runtime.begin_finish(self.slot, LegacyTerminalRequest::Execution(Ok(result)))
    }

    /// Starts to commit success after owner cleanup, which the caller runs before it commits.
    ///
    /// A cleanup panic commits an internal failure instead.
    pub fn succeed_after_cleanup(&self, runtime: &mut Runtime, result: OperationValue) -> (start:
        FinishStart)
        requires
            old(runtime).valid(),
            old(runtime)@.owns(*self),
        ensures
            final(runtime).valid(),
            old(runtime)@.carries_over(final(runtime)@),
            self.answers(old(runtime)@, RequestModel::Success(result@), start, final(runtime)@),
    {
        runtime.begin_finish(self.slot, LegacyTerminalRequest::Execution(Ok(result)))
    }

    /// Starts to commit failure, which happens once.
    pub fn fail(&self, runtime: &mut Runtime, error: EasyConError) -> (start: FinishStart)
        requires
            old(runtime).valid(),
            old(runtime)@.owns(*self),
        ensures
            final(runtime).valid(),
            old(runtime)@.carries_over(final(runtime)@),
            self.answers(old(runtime)@, RequestModel::Failure(error@), start, final(runtime)@),
    {
        runtime.begin_finish(self.slot, LegacyTerminalRequest::Execution(Err(error)))
    }

    /// Starts to commit failure after owner cleanup, which the caller runs before it commits.
    ///
    /// A cleanup panic is reported and does not replace the primary failure.
    pub fn fail_after_cleanup(&self, runtime: &mut Runtime, error: EasyConError) -> (start:
        FinishStart)
        requires
            old(runtime).valid(),
            old(runtime)@.owns(*self),
        ensures
            final(runtime).valid(),
            old(runtime)@.carries_over(final(runtime)@),
            self.answers(old(runtime)@, RequestModel::Failure(error@), start, final(runtime)@),
    {
        runtime.begin_finish(self.slot, LegacyTerminalRequest::Execution(Err(error)))
    }

    /// Starts to commit `Cancelled` after owner-specific cleanup completed.
    pub fn finish_cancelled(&self, runtime: &mut Runtime) -> (start: FinishStart)
        requires
            old(runtime).valid(),
            old(runtime)@.owns(*self),
        ensures
            final(runtime).valid(),
            old(runtime)@.carries_over(final(runtime)@),
            self.answers(old(runtime)@, RequestModel::Cancellation, start, final(runtime)@),
    {
        runtime.begin_finish(self.slot, LegacyTerminalRequest::Cancellation)
    }

    /// Starts to commit a proven cleanup failure even when cancellation was already requested.
    ///
    /// This narrow path is for resource cleanup failures whose contract requires the retained first
    /// failure to prevail over ordinary cancellation precedence.
    pub fn fail_strict_cleanup(&self, runtime: &mut Runtime, error: EasyConError) -> (start:
        FinishStart)
        requires
            old(runtime).valid(),
            old(runtime)@.owns(*self),
        ensures
            final(runtime).valid(),
            old(runtime)@.carries_over(final(runtime)@),
            start !is Observe,
            old(runtime)@.starts(
                self.slot as int,
                old(runtime)@.at(*self).strict_begins(),
                old(runtime)@.at(*self).begun(PrimaryModel::Failure(error@)),
                start,
                final(runtime)@,
            ),
    {
        runtime.begin_strict_failure(self.slot, error)
    }

    /// Commits the terminal transaction that began, with the result of its cleanup; nothing where
    /// none is running.
    pub fn commit(
        &self,
        runtime: &mut Runtime,
        cleanup: SettledCleanup,
        observer_panicked: bool,
        now_ns: Option<u64>,
    ) -> (outcome: Option<TransitionOutcome>)
        requires
            old(runtime).valid(),
            old(runtime)@.owns(*self),
            cleanup@.valid(),
        ensures
            final(runtime).valid(),
            old(runtime)@.carries_over(final(runtime)@),
            outcome is Some <==> old(runtime)@.at(*self).finishing is Some,
            outcome is None ==> final(runtime)@ == old(runtime)@,
            outcome matches Some(outcome) ==> {
                let operation = old(runtime)@.at(*self);
                &&& outcome == operation.commit_outcome(cleanup@, observer_panicked)
                &&& final(runtime)@ == old(runtime)@.put(
                    self.slot as int,
                    operation.committed(cleanup@, observer_panicked),
                    true,
                    now_ns,
                )
                &&& terminal(final(runtime)@.at(*self).state)
            },
    {
        let slot: usize = self.slot;
        assert(runtime@.operations[slot as int] == runtime.operations[slot as int]@);
        if !runtime.operations[slot].is_finishing() {
            return None;
        }
        Some(runtime.commit_at(slot, cleanup, observer_panicked, now_ns))
    }

    /// Returns authoritative state without consuming the operation.
    pub fn snapshot(&self, runtime: &Runtime) -> (snapshot: OperationSnapshot)
        requires
            runtime@.owns(*self),
        ensures
            snapshot@ == runtime@.at(*self).snapshot(),
    {
        runtime.operations[self.slot].snapshot()
    }

    /// Looks once for the terminal state on behalf of a call that waits at most `wait`; timeout
    /// never cancels this operation.
    pub fn wait(
        &self,
        runtime: &Runtime,
        wait: WaitTimeout,
        elapsed_ns: u128,
        timed_out: bool,
    ) -> (look: Look<WaitResult>)
        requires
            runtime@.owns(*self),
        ensures
            terminal(runtime@.at(*self).state) ==> (look matches Look::Done(
                WaitResult::Completed(snapshot),
            ) && snapshot@ == runtime@.at(*self).snapshot()),
            !terminal(runtime@.at(*self).state) ==> look == idle_look(
                wait,
                elapsed_ns,
                timed_out,
                WaitResult::Timeout,
            ),
    {
        runtime.operations[self.slot].wait(wait, elapsed_ns, timed_out)
    }

    /// Whether `start` is the answer to a terminal request that left the Runtime in `after`.
    pub open spec fn answers(
        self,
        before: RuntimeModel,
        request: RequestModel,
        start: FinishStart,
        after: RuntimeModel,
    ) -> bool {
        let operation = before.at(self);
        &&& before.starts(
            self.slot as int,
            operation.request_begins(request),
            operation.begun(operation.requested_primary(request)->0),
            start,
            after,
        )
        &&& start is Observe <==> !terminal(operation.state) && operation.owner is None
            && operation.terminal_in_progress
    }
}

} // verus!
