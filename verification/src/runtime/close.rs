//! Deterministic close: one caller ends everything that a Runtime supervises, in a fixed order, and
//! every caller gets the one saved outcome.
//!
//! Close alternates between decisions and work that only the caller can do. [`Runtime::advance`]
//! decides one step at a time: the caller performs the returned action, and hands the reply and a
//! fresh clock reading to the next call. No failure stops the work; the first one is reported.

use crate::concurrency::{runtime_close_rejected, TaskOwnerBinding};
use crate::deadline::{
    lists_schedule, notice_ids, DeadlineNotice, DeadlineResolution, SchedulerModel,
};
use crate::event::{EventClass, EventDraft, EventKind, Severity};
use crate::event_hub::HubModel;
use crate::model::{ResourceId, RuntimeId, TaskId};
use crate::operation::{
    ending_discards, ending_hooks, terminal, CancellationReason, CleanupModel, FallbackStart,
    OperationFallback, OperationModel, RequestModel, SettledCleanup,
};
use crate::runtime::task::SupervisedTask;
use crate::runtime::{
    announced, lemma_operation_update_is_valid, operation_models, outcome_model, CloseOutcome,
    ClosePhase, CloseReport, FinishStart, HookTarget, HookWave, Operation, OutcomeModel,
    ReportModel, Runtime, RuntimeCounts, RuntimeModel, RuntimeState, SupervisedTaskOutcome,
};
use vstd::prelude::*;

verus! {

/// Caller-local rejection that does not start or change Runtime close state.
#[derive(Clone, Copy, Debug, PartialEq, Eq, Structural)]
pub enum CloseRejection {
    /// A supervised task cannot synchronously close the Runtime that owns it.
    SupervisedTask,
    /// The deterministic close owner cannot synchronously re-enter its own Runtime close.
    CloseOwner,
}

/// What a call of close has to do.
pub enum CloseEntry {
    /// This caller runs the close.
    Run(CloseRun),
    /// Another caller runs it: wait for its outcome.
    Wait,
    /// Close has ended before.
    Finished(CloseOutcome),
}

/// One failure of deterministic close.
#[derive(Debug)]
pub struct CloseFailure {
    pub phase: ClosePhase,
    pub diagnostic: String,
    pub resource_id: Option<ResourceId>,
    pub task_id: Option<TaskId>,
}

/// One failure of deterministic close, as plain values.
#[verifier::ext_equal]
pub struct FailureModel {
    pub phase: ClosePhase,
    pub diagnostic: Seq<char>,
    pub resource_id: Option<ResourceId>,
    pub task_id: Option<TaskId>,
}

impl View for CloseFailure {
    type V = FailureModel;

    open spec fn view(&self) -> FailureModel {
        FailureModel {
            phase: self.phase,
            diagnostic: self.diagnostic@,
            resource_id: self.resource_id,
            task_id: self.task_id,
        }
    }
}

/// A failure without a resource or a task.
pub open spec fn failure_of(phase: ClosePhase, diagnostic: Seq<char>) -> FailureModel {
    FailureModel { phase, diagnostic, resource_id: None, task_id: None }
}

/// The view of an optional failure.
pub open spec fn failure_view(failure: Option<CloseFailure>) -> Option<FailureModel> {
    match failure {
        Some(failure) => Some(failure@),
        None => None,
    }
}

/// The first of two optional failures.
pub open spec fn first_of(
    first: Option<FailureModel>,
    second: Option<FailureModel>,
) -> Option<FailureModel> {
    if first is Some {
        first
    } else {
        second
    }
}

impl CloseFailure {
    /// Creates a failure.
    pub fn new(phase: ClosePhase, diagnostic: &str) -> (failure: Self)
        ensures
            failure@ == failure_of(phase, diagnostic@),
    {
        CloseFailure {
            phase,
            diagnostic: diagnostic.to_owned(),
            resource_id: None,
            task_id: None,
        }
    }

    /// Associates a resource.
    pub fn with_resource(self, resource_id: ResourceId) -> (failure: Self)
        ensures
            failure@ == (FailureModel { resource_id: Some(resource_id), ..self@ }),
    {
        let mut failure = self;
        failure.resource_id = Some(resource_id);
        failure
    }

    /// Associates a task.
    pub fn with_task(self, task_id: TaskId) -> (failure: Self)
        ensures
            failure@ == (FailureModel { task_id: Some(task_id), ..self@ }),
    {
        let mut failure = self;
        failure.task_id = Some(task_id);
        failure
    }
}

/// Where a running close stands.
#[derive(Clone, Copy, Debug, PartialEq, Eq, Structural)]
pub enum CloseStage {
    /// Announce the close and cancel the root.
    Start,
    /// Deliver the hooks of the cancelled root.
    RootHooks,
    /// Request cancellation of every live operation.
    RequestCancel,
    /// Deliver the hooks that such a request set free.
    RequestHooks,
    /// Forget the resources whose owners are gone.
    Resources,
    /// Close the live resources.
    CloseResource,
    /// Take what closing a resource came to.
    ResourceReply,
    /// Join the registered tasks.
    JoinTask,
    /// Take what joining a task came to.
    TaskReply,
    /// Settle the operations that their owners left.
    Finalize,
    /// Deliver the hooks that such a settlement set free.
    FinalizeHooks,
    /// Take what the operation's registered cleanup came to.
    Settle,
    /// Resolve the deadlines and stop the worker.
    StopWorker,
    /// Take what joining the worker came to.
    WorkerReply,
    /// See whether everything has ended.
    Converge,
    /// Publish the final event.
    FinalEvent,
    /// Cancel the root once more, after a failure.
    Contain,
    /// Deliver the hooks that this set free.
    ContainHooks,
    /// Stop the worker once more.
    ContainWorker,
    /// Take what joining the worker came to.
    ContainReply,
    /// Write the report and publish it.
    Report,
    /// Publish the report without a clock.
    Retry,
    /// The outcome is saved.
    Done,
}

/// Whether a stage deals with a failure that is to be reported.
pub open spec fn contains_failure(stage: CloseStage) -> bool {
    match stage {
        CloseStage::Contain
        | CloseStage::ContainHooks
        | CloseStage::ContainWorker
        | CloseStage::ContainReply
        | CloseStage::Report => true,
        _ => false,
    }
}

/// A running deterministic close.
pub struct CloseRun {
    pub stage: CloseStage,
    /// The phase that a panic would be reported for.
    pub phase: ClosePhase,
    /// The failure to report.
    pub first: Option<CloseFailure>,
    /// The first failure of a resource.
    pub resource: Option<CloseFailure>,
    /// The first failure of an operation.
    pub operation: Option<CloseFailure>,
    /// The operations that were live when cancellation was requested.
    pub operations: Vec<usize>,
    pub resources: Vec<ResourceId>,
    pub tasks: Vec<SupervisedTask>,
    /// How many of the current list are done.
    pub next: usize,
    pub wave: HookWave,
    /// Whether the operation in settlement has a registered cleanup.
    pub settles: bool,
    pub report: Option<CloseReport>,
}

/// A running deterministic close, as plain values.
#[verifier::ext_equal]
pub struct RunModel {
    pub stage: CloseStage,
    pub phase: ClosePhase,
    pub first: Option<FailureModel>,
    pub resource: Option<FailureModel>,
    pub operation: Option<FailureModel>,
    pub operations: Seq<usize>,
    pub resources: Seq<ResourceId>,
    pub tasks: Seq<SupervisedTask>,
    pub next: usize,
    /// The hooks that are still to be delivered.
    pub hooks: Seq<u64>,
    /// The hooks that the last cancellation dropped without running them.
    pub discarded: Seq<u64>,
    pub settles: bool,
    pub report: Option<ReportModel>,
}

/// The view of an optional report.
pub open spec fn report_view(report: Option<CloseReport>) -> Option<ReportModel> {
    match report {
        Some(report) => Some(report@),
        None => None,
    }
}

impl View for CloseRun {
    type V = RunModel;

    open spec fn view(&self) -> RunModel {
        RunModel {
            stage: self.stage,
            phase: self.phase,
            first: failure_view(self.first),
            resource: failure_view(self.resource),
            operation: failure_view(self.operation),
            operations: self.operations@,
            resources: self.resources@,
            tasks: self.tasks@,
            next: self.next,
            hooks: self.wave@,
            discarded: self.wave.discarded@,
            settles: self.settles,
            report: report_view(self.report),
        }
    }
}

impl RunModel {
    /// A close that just began.
    pub open spec fn initial() -> RunModel {
        RunModel {
            stage: CloseStage::Start,
            phase: ClosePhase::Start,
            first: None,
            resource: None,
            operation: None,
            operations: seq![],
            resources: seq![],
            tasks: seq![],
            next: 0,
            hooks: seq![],
            discarded: seq![],
            settles: false,
            report: None,
        }
    }
}

impl CloseRun {
    /// What a close that runs on `runtime` satisfies.
    pub open spec fn valid(&self, runtime: RuntimeModel) -> bool {
        &&& self.wave.valid()
        &&& forall|i: int|
            0 <= i < self.operations@.len() ==> (#[trigger] self.operations@[i])
                < runtime.operations.len()
        &&& forall|i: int|
            0 <= i < self.tasks@.len() ==> runtime.runs(#[trigger] self.tasks@[i])
        &&& self.stage == CloseStage::ResourceReply ==> self.next < self.resources@.len()
        &&& self.stage == CloseStage::TaskReply ==> self.next < self.tasks@.len()
        &&& self.stage == CloseStage::FinalizeHooks || self.stage == CloseStage::Settle
            ==> self.next < self.operations@.len()
        &&& self.stage == CloseStage::Retry ==> self.report is Some
        &&& contains_failure(self.stage) ==> self.first is Some
    }

    fn new() -> (run: Self)
        ensures
            run@ == RunModel::initial(),
            run.wave.valid(),
            forall|runtime: RuntimeModel| #[trigger] run.valid(runtime),
    {
        let run = CloseRun {
            stage: CloseStage::Start,
            phase: ClosePhase::Start,
            first: None,
            resource: None,
            operation: None,
            operations: Vec::new(),
            resources: Vec::new(),
            tasks: Vec::new(),
            next: 0,
            wave: HookWave::empty(),
            settles: false,
            report: None,
        };
        assert(run@ =~= RunModel::initial());
        run
    }
}

/// What the caller has to do before the next step.
pub enum CloseAction {
    /// Nothing.
    Continue,
    /// Run this callback.
    RunHook(u64),
    /// Name the resources whose close callback still exists.
    NameLiveResources,
    /// Close this resource.
    CloseResource(ResourceId),
    /// Join a task.
    JoinTask(SupervisedTask),
    /// Run the registered cleanup of this operation, and the observer of that cleanup.
    Settle(Operation),
    /// Wait until this operation has ended.
    Await(Operation),
    /// Tell the observers of these deadlines, shut the deadline worker down, and join it where it
    /// has not been joined.
    StopWorker(Vec<DeadlineNotice>, Option<SupervisedTask>),
    /// Close has ended with this outcome; wake those who wait for it.
    Done(CloseOutcome),
}

/// What came of the last action.
pub enum CloseReply {
    /// Nothing to report.
    Nothing,
    /// The resources whose close callback still exists.
    LiveResources(Vec<ResourceId>),
    /// The resource closed.
    ResourceClosed,
    /// The resource reported a failure.
    ResourceFailed(String),
    /// The resource's close callback panicked.
    ResourcePanicked,
    /// The task was joined.
    TaskJoined,
    /// The task is the calling task.
    TaskSelfJoin,
    /// The cleanup was settled; the flag says that its observer panicked.
    Settled(SettledCleanup, bool),
    /// The worker was joined.
    WorkerJoined(SupervisedTaskOutcome),
    /// The worker is the calling task.
    WorkerSelfJoin,
}

impl RuntimeModel {
    /// The rejection of a call of close by a thread bound as `current`.
    pub open spec fn close_rejection(
        self,
        current: Option<TaskOwnerBinding<RuntimeId, TaskId>>,
        thread: u64,
    ) -> Option<CloseRejection> {
        if current matches Some(binding) && binding.runtime == self.id {
            Some(CloseRejection::SupervisedTask)
        } else if self.close_owner == Some(thread) {
            Some(CloseRejection::CloseOwner)
        } else {
            None
        }
    }

    /// The Runtime after `thread` took over close.
    pub open spec fn close_begun(self, thread: u64) -> RuntimeModel {
        let sealed = if self.state == RuntimeState::Active {
            self.sealed()
        } else {
            self
        };
        RuntimeModel { closing: true, close_owner: Some(thread), ..sealed }
    }

    /// The Runtime after close ended with `outcome`.
    pub open spec fn close_completed(self, outcome: OutcomeModel) -> RuntimeModel {
        RuntimeModel {
            state: match outcome {
                OutcomeModel::Closed => RuntimeState::Closed,
                OutcomeModel::Failed(report) => RuntimeState::CloseFailed,
            },
            outcome: Some(outcome),
            close_owner: None,
            ..self
        }
    }
}

/// Whether a call of close by a thread bound as `current` is answered with `entered` and leaves the
/// Runtime in `after`: a rejected call changes nothing, the first one runs the close, and one that
/// finds an outcome gets it.
pub open spec fn close_entered(
    before: RuntimeModel,
    current: Option<TaskOwnerBinding<RuntimeId, TaskId>>,
    thread: u64,
    entered: Result<CloseEntry, CloseRejection>,
    after: RuntimeModel,
) -> bool {
    let rejection = before.close_rejection(current, thread);
    let runs = before.state == RuntimeState::Active || (before.state == RuntimeState::Closing
        && !before.closing);
    &&& entered is Err <==> rejection is Some
    &&& entered matches Err(reason) ==> Some(reason) == rejection
    &&& entered matches Ok(entry) ==> {
        &&& entry is Run <==> runs
        &&& entry is Finished <==> before.outcome is Some
        &&& entry matches CloseEntry::Finished(outcome) ==> Some(outcome@) == before.outcome
        &&& entry matches CloseEntry::Run(run) ==> run@ == RunModel::initial() && run.valid(after)
    }
    &&& after == if rejection is None && runs {
        before.close_begun(thread)
    } else {
        before
    }
}

impl Runtime {
    /// Idempotently enters deterministic close.
    ///
    /// Rejects, without changing anything, a call from one of this Runtime's supervised tasks and a
    /// call from the thread that runs the close.
    pub fn close(
        &mut self,
        current: Option<TaskOwnerBinding<RuntimeId, TaskId>>,
        thread: u64,
    ) -> (entered: Result<CloseEntry, CloseRejection>)
        requires
            old(self).valid(),
        ensures
            final(self).valid(),
            old(self)@.carries_over(final(self)@),
            close_entered(old(self)@, current, thread, entered, final(self)@),
    {
        if runtime_close_rejected(current, self.id) {
            return Err(CloseRejection::SupervisedTask);
        }
        let owned: bool = match self.close_owner {
            Some(owner) => owner == thread,
            None => false,
        };
        if owned {
            return Err(CloseRejection::CloseOwner);
        }
        match self.state {
            RuntimeState::Active => {
                self.seal();
                self.closing = true;
                self.close_owner = Some(thread);
                Ok(CloseEntry::Run(CloseRun::new()))
            },
            RuntimeState::Closing => {
                if self.closing {
                    return Ok(CloseEntry::Wait);
                }
                self.closing = true;
                self.close_owner = Some(thread);
                Ok(CloseEntry::Run(CloseRun::new()))
            },
            RuntimeState::Closed | RuntimeState::CloseFailed => match &self.outcome {
                Some(outcome) => Ok(CloseEntry::Finished(outcome.clone())),
                None => Ok(CloseEntry::Wait),
            },
        }
    }

    fn complete_close(&mut self, outcome: CloseOutcome)
        requires
            old(self).valid(),
            old(self)@.state == RuntimeState::Closing,
        ensures
            final(self).valid(),
            final(self)@ == old(self)@.close_completed(outcome@),
    {
        self.state = match &outcome {
            CloseOutcome::Closed => RuntimeState::Closed,
            CloseOutcome::Failed(_) => RuntimeState::CloseFailed,
        };
        self.outcome = Some(outcome);
        self.close_owner = None;
    }

    /// Returns the saved close outcome.
    pub fn saved_close_outcome(&self) -> (outcome: Option<CloseOutcome>)
        ensures
            outcome_model(outcome) == self@.outcome,
    {
        match &self.outcome {
            Some(outcome) => Some(outcome.clone()),
            None => None,
        }
    }
}

/// A critical event about the Runtime's own lifecycle.
pub open spec fn lifecycle_draft(code: &'static str, severity: Severity) -> EventDraft {
    EventDraft {
        class: EventClass::Critical,
        kind: EventKind::State,
        code,
        severity,
        operation_id: None,
        resource_id: None,
        detail: None,
    }
}

/// Whether `draft` is the warning that a resource did not close.
pub open spec fn is_resource_warning(
    draft: EventDraft,
    code: &'static str,
    resource: ResourceId,
    detail: Seq<char>,
) -> bool {
    &&& draft.class == EventClass::Critical
    &&& draft.kind == EventKind::Warning
    &&& draft.code == code
    &&& draft.severity == Severity::Error
    &&& draft.operation_id is None
    &&& draft.resource_id == Some(resource)
    &&& draft.detail matches Some(text) && text@ == detail
}

/// The operations that have not ended, in the order of creation.
pub open spec fn live_slots(operations: Seq<OperationModel>) -> Seq<usize>
    decreases operations.len(),
{
    if operations.len() == 0 {
        seq![]
    } else if terminal(operations.last().state) {
        live_slots(operations.drop_last())
    } else {
        live_slots(operations.drop_last()).push((operations.len() - 1) as usize)
    }
}

/// The registered resources whose close callback still exists.
pub open spec fn surviving(resources: Seq<ResourceId>, alive: Seq<ResourceId>) -> Seq<ResourceId> {
    resources.filter(|resource: ResourceId| alive.contains(resource))
}

/// Start: the close is announced, and the root is cancelled whether or not that worked.
pub open spec fn start_step(
    before: RuntimeModel,
    run: RunModel,
    now_ns: Option<u64>,
    after: RuntimeModel,
    run_after: RunModel,
    action: CloseAction,
) -> bool {
    let published = now_ns is Some && !before.hub.closed && before.hub.next_sequence < u64::MAX;
    &&& after == (RuntimeModel {
        hub: announced(before.hub, now_ns, lifecycle_draft("runtime.closing", Severity::Info)),
        ..before
    }).root_cancelled()
    &&& run_after == (RunModel {
        stage: CloseStage::RootHooks,
        first: if published {
            None
        } else {
            Some(failure_of(ClosePhase::Start, "Runtime closing event could not be published"@))
        },
        hooks: before.root_hooks(),
        discarded: before.root_discards(),
        ..run
    })
    &&& action is Continue
}

/// Hooks: operations hear of the cancellation, callbacks are handed out, and once none is left the
/// close goes on as `then`.
pub open spec fn hooks_step(
    before: RuntimeModel,
    run: RunModel,
    now_ns: Option<u64>,
    after: RuntimeModel,
    run_after: RunModel,
    action: CloseAction,
    then: RunModel,
) -> bool {
    &&& after == before.delivered(run.hooks, now_ns)
    &&& match before.first_callback(run.hooks) {
        Some(callback) => {
            &&& action matches CloseAction::RunHook(found) && found == callback
            &&& run_after == (RunModel {
                hooks: run.hooks.skip(before.operation_prefix(run.hooks) as int + 1),
                ..run
            })
        },
        None => action is Continue && run_after == then,
    }
}

/// Requests: every operation that was live is asked to cancel, in the order of creation.
pub open spec fn request_step(
    before: RuntimeModel,
    run: RunModel,
    now_ns: Option<u64>,
    after: RuntimeModel,
    run_after: RunModel,
    action: CloseAction,
) -> bool {
    if run.next >= run.operations.len() {
        &&& after == before
        &&& run_after == (RunModel {
            stage: CloseStage::Resources,
            phase: ClosePhase::ResourceCleanup,
            ..run
        })
        &&& action is NameLiveResources
    } else {
        let slot = run.operations[run.next as int] as int;
        let next = (run.next + 1) as usize;
        &&& action is Continue
        &&& if terminal(before.operations[slot].state) {
            after == before && run_after == (RunModel { next, ..run })
        } else {
            &&& after == before.cancel_requested(slot, CancellationReason::ParentClose, now_ns)
            &&& run_after == (RunModel {
                stage: CloseStage::RequestHooks,
                next,
                hooks: before.cancel_hooks(slot),
                discarded: before.cancel_discards(slot),
                ..run
            })
        }
    }
}

/// Resources: those whose owners are gone are forgotten, the others are to be closed.
pub open spec fn resources_step(
    before: RuntimeModel,
    run: RunModel,
    reply: CloseReply,
    after: RuntimeModel,
    run_after: RunModel,
    action: CloseAction,
) -> bool {
    match reply {
        CloseReply::LiveResources(alive) => {
            let resources = surviving(before.resources, alive@);
            &&& after == (RuntimeModel { resources, ..before })
            &&& run_after == (RunModel {
                stage: CloseStage::CloseResource,
                resources,
                next: 0,
                ..run
            })
            &&& action is Continue
        },
        _ => after == before && run_after == run && action is NameLiveResources,
    }
}

/// Resource close: one resource after the other, in the order of registration; then the tasks that
/// are registered by now.
pub open spec fn close_resource_step(
    before: RuntimeModel,
    run: RunModel,
    after: RuntimeModel,
    run_after: RunModel,
    action: CloseAction,
) -> bool {
    &&& after == before
    &&& if run.next < run.resources.len() {
        &&& run_after == (RunModel { stage: CloseStage::ResourceReply, ..run })
        &&& action matches CloseAction::CloseResource(id) && id == run.resources[run.next as int]
    } else {
        &&& before.lists_external_tasks(run_after.tasks)
        &&& run_after == (RunModel {
            stage: CloseStage::JoinTask,
            phase: ClosePhase::TaskJoin,
            first: first_of(run.first, run.resource),
            tasks: run_after.tasks,
            next: 0,
            ..run
        })
        &&& action is Continue
    }
}

/// Resource reply: the first failure of a resource is kept, and each failure is announced.
pub open spec fn resource_reply_step(
    before: RuntimeModel,
    run: RunModel,
    reply: CloseReply,
    now_ns: Option<u64>,
    after: RuntimeModel,
    run_after: RunModel,
    action: CloseAction,
) -> bool {
    let id = run.resources[run.next as int];
    let done = RunModel {
        stage: CloseStage::CloseResource,
        next: (run.next + 1) as usize,
        ..run
    };
    match reply {
        CloseReply::ResourceClosed => after == before && run_after == done && action is Continue,
        CloseReply::ResourceFailed(text) => {
            &&& exists|draft: EventDraft| #[trigger]
                is_resource_warning(draft, "runtime.resource.close_failed", id, text@) && after == (
                RuntimeModel { hub: announced(before.hub, now_ns, draft), ..before })
            &&& run_after == (RunModel {
                resource: first_of(
                    run.resource,
                    Some(
                        FailureModel {
                            resource_id: Some(id),
                            ..failure_of(ClosePhase::ResourceCleanup, text@)
                        },
                    ),
                ),
                ..done
            })
            &&& action is Continue
        },
        CloseReply::ResourcePanicked => {
            &&& exists|draft: EventDraft| #[trigger]
                is_resource_warning(
                    draft,
                    "runtime.resource.close_panicked",
                    id,
                    "ManagedResource::close panicked; registration remains supervised"@,
                ) && after == (RuntimeModel { hub: announced(before.hub, now_ns, draft), ..before })
            &&& run_after == (RunModel {
                resource: first_of(
                    run.resource,
                    Some(
                        FailureModel {
                            resource_id: Some(id),
                            ..failure_of(
                                ClosePhase::ResourceCleanup,
                                "ManagedResource::close panicked"@,
                            )
                        },
                    ),
                ),
                ..done
            })
            &&& action is Continue
        },
        _ => after == before && run_after == run && (action matches CloseAction::CloseResource(
            found,
        ) && found == id),
    }
}

/// Task join: one task after the other, in the order of registration. A body that panicked, now or
/// before, is a failure; the oldest such task is named.
pub open spec fn join_task_step(
    before: RuntimeModel,
    run: RunModel,
    after: RuntimeModel,
    run_after: RunModel,
    action: CloseAction,
) -> bool {
    &&& after == before
    &&& if run.next < run.tasks.len() {
        &&& run_after == (RunModel { stage: CloseStage::TaskReply, ..run })
        &&& action matches CloseAction::JoinTask(task) && task == run.tasks[run.next as int]
    } else {
        &&& exists|task: Option<TaskId>| #[trigger]
            before.is_first_failure(task) && run_after == (RunModel {
                stage: CloseStage::Finalize,
                phase: ClosePhase::OperationFinalization,
                first: first_of(
                    run.first,
                    match task {
                        Some(task) => Some(
                            FailureModel {
                                task_id: Some(task),
                                ..failure_of(
                                    ClosePhase::TaskJoin,
                                    "supervised task body panicked"@,
                                )
                            },
                        ),
                        None => None,
                    },
                ),
                next: 0,
                ..run
            })
        &&& action is Continue
    }
}

/// Task reply: a task that cannot be joined by the caller ends the joining.
pub open spec fn task_reply_step(
    before: RuntimeModel,
    run: RunModel,
    reply: CloseReply,
    after: RuntimeModel,
    run_after: RunModel,
    action: CloseAction,
) -> bool {
    let task = run.tasks[run.next as int];
    &&& after == before
    &&& match reply {
        CloseReply::TaskJoined => run_after == (RunModel {
            stage: CloseStage::JoinTask,
            next: (run.next + 1) as usize,
            ..run
        }) && action is Continue,
        CloseReply::TaskSelfJoin => run_after == (RunModel {
            stage: CloseStage::Finalize,
            phase: ClosePhase::OperationFinalization,
            first: first_of(
                run.first,
                Some(
                    FailureModel {
                        task_id: Some(task.id),
                        ..failure_of(
                            ClosePhase::TaskJoin,
                            "Runtime close attempted to join its calling task"@,
                        )
                    },
                ),
            ),
            next: 0,
            ..run
        }) && action is Continue,
        _ => run_after == run && (action matches CloseAction::JoinTask(found) && found == task),
    }
}

impl CloseRun {
    /// Keeps the failure to report, where none was kept before.
    fn keep_first(&mut self, failure: CloseFailure)
        ensures
            final(self)@ == (RunModel {
                first: first_of(old(self)@.first, Some(failure@)),
                ..old(self)@
            }),
            final(self).wave == old(self).wave,
            final(self).first is Some,
    {
        if self.first.is_none() {
            self.first = Some(failure);
        }
    }

    /// Keeps the first failure of a resource.
    fn keep_resource(&mut self, failure: CloseFailure)
        ensures
            final(self)@ == (RunModel {
                resource: first_of(old(self)@.resource, Some(failure@)),
                ..old(self)@
            }),
            final(self).wave == old(self).wave,
    {
        if self.resource.is_none() {
            self.resource = Some(failure);
        }
    }
}

impl Runtime {
    /// Lists the operations that have not ended.
    fn live_operations(&self) -> (slots: Vec<usize>)
        ensures
            slots@ == live_slots(self@.operations),
            forall|i: int| 0 <= i < slots@.len() ==> (#[trigger] slots@[i]) < self@.operations.len(),
    {
        let ghost operations = self@.operations;
        let mut slots: Vec<usize> = Vec::new();
        let mut k: usize = 0;
        assert(operations.take(0) =~= seq![]);
        while k < self.operations.len()
            invariant
                k <= self.operations.len(),
                operations == operation_models(self.operations@),
                slots@ == live_slots(operations.take(k as int)),
                forall|i: int| 0 <= i < slots@.len() ==> (#[trigger] slots@[i]) < k,
            decreases self.operations.len() - k,
        {
            proof {
                assert(operations.take(k + 1).drop_last() =~= operations.take(k as int));
                assert(operations.take(k + 1).last() == self.operations[k as int]@);
            }
            if !self.operations[k].state().is_terminal() {
                slots.push(k);
            }
            k += 1;
        }
        assert(operations.take(k as int) =~= operations);
        slots
    }

    fn close_start(&mut self, run: &mut CloseRun, now_ns: Option<u64>) -> (action: CloseAction)
        requires
            old(self).valid(),
            old(run).valid(old(self)@),
            old(run).stage == CloseStage::Start,
        ensures
            final(self).valid(),
            final(run).valid(final(self)@),
            start_step(old(self)@, old(run)@, now_ns, final(self)@, final(run)@, action),
    {
        let mut published: bool = false;
        if let Some(now_ns) = now_ns {
            if self.hub.sequences_left() {
                let draft = EventDraft::critical(
                    EventKind::State,
                    "runtime.closing",
                    Severity::Info,
                );
                published = self.hub.try_publish_event(now_ns, draft).is_ok();
            }
        }
        run.first = if published {
            None
        } else {
            Some(
                CloseFailure::new(
                    ClosePhase::Start,
                    "Runtime closing event could not be published",
                ),
            )
        };
        run.wave = self.cancel_root();
        run.stage = CloseStage::RootHooks;
        CloseAction::Continue
    }

    fn close_root_hooks(&mut self, run: &mut CloseRun, now_ns: Option<u64>) -> (action: CloseAction)
        requires
            old(self).valid(),
            old(run).valid(old(self)@),
            old(run).stage == CloseStage::RootHooks,
        ensures
            final(self).valid(),
            final(run).valid(final(self)@),
            hooks_step(
                old(self)@,
                old(run)@,
                now_ns,
                final(self)@,
                final(run)@,
                action,
                (RunModel {
                    stage: CloseStage::RequestCancel,
                    phase: ClosePhase::OperationFinalization,
                    operations: live_slots(final(self)@.operations),
                    next: 0,
                    hooks: seq![],
                    ..old(run)@
                }),
            ),
    {
        let ghost before = self@;
        let ghost hooks = run.wave@;
        proof {
            lemma_delivered_keeps_places(before, hooks, now_ns);
        }
        match self.next_hook(&mut run.wave, now_ns) {
            Some(callback) => CloseAction::RunHook(callback),
            None => {
                run.operations = self.live_operations();
                run.next = 0;
                run.stage = CloseStage::RequestCancel;
                run.phase = ClosePhase::OperationFinalization;
                assert(run.wave@ =~= seq![]);
                CloseAction::Continue
            },
        }
    }

    fn close_request(&mut self, run: &mut CloseRun, now_ns: Option<u64>) -> (action: CloseAction)
        requires
            old(self).valid(),
            old(run).valid(old(self)@),
            old(run).stage == CloseStage::RequestCancel,
        ensures
            final(self).valid(),
            final(run).valid(final(self)@),
            request_step(old(self)@, old(run)@, now_ns, final(self)@, final(run)@, action),
    {
        if run.next >= run.operations.len() {
            run.stage = CloseStage::Resources;
            run.phase = ClosePhase::ResourceCleanup;
            return CloseAction::NameLiveResources;
        }
        let slot: usize = run.operations[run.next];
        run.next = run.next + 1;
        assert(self@.operations[slot as int] == self.operations[slot as int]@);
        if !self.operations[slot].state().is_terminal() {
            let (_, wave) = self.request_cancel_at(slot, CancellationReason::ParentClose, now_ns);
            run.wave = wave;
            run.stage = CloseStage::RequestHooks;
        }
        CloseAction::Continue
    }

    fn close_request_hooks(&mut self, run: &mut CloseRun, now_ns: Option<u64>) -> (action:
        CloseAction)
        requires
            old(self).valid(),
            old(run).valid(old(self)@),
            old(run).stage == CloseStage::RequestHooks,
        ensures
            final(self).valid(),
            final(run).valid(final(self)@),
            hooks_step(
                old(self)@,
                old(run)@,
                now_ns,
                final(self)@,
                final(run)@,
                action,
                (RunModel { stage: CloseStage::RequestCancel, hooks: seq![], ..old(run)@ }),
            ),
    {
        let ghost before = self@;
        let ghost hooks = run.wave@;
        proof {
            lemma_delivered_keeps_places(before, hooks, now_ns);
        }
        match self.next_hook(&mut run.wave, now_ns) {
            Some(callback) => CloseAction::RunHook(callback),
            None => {
                run.stage = CloseStage::RequestCancel;
                assert(run.wave@ =~= seq![]);
                CloseAction::Continue
            },
        }
    }

    fn close_resources(&mut self, run: &mut CloseRun, reply: CloseReply) -> (action: CloseAction)
        requires
            old(self).valid(),
            old(run).valid(old(self)@),
            old(run).stage == CloseStage::Resources,
        ensures
            final(self).valid(),
            final(run).valid(final(self)@),
            resources_step(old(self)@, old(run)@, reply, final(self)@, final(run)@, action),
    {
        match reply {
            CloseReply::LiveResources(alive) => {
                let ghost before = self@;
                let all = &self.resources;
                let mut kept: Vec<ResourceId> = Vec::new();
                let mut copy: Vec<ResourceId> = Vec::new();
                let mut k: usize = 0;
                reveal(Seq::filter);
                assert(before.resources.take(0) =~= seq![]);
                while k < all.len()
                    invariant
                        k <= all.len(),
                        all@ == before.resources,
                        kept@ == surviving(before.resources.take(k as int), alive@),
                        copy@ == kept@,
                    decreases all.len() - k,
                {
                    let id = all[k];
                    proof {
                        reveal(Seq::filter);
                        assert(before.resources.take(k + 1).drop_last()
                            =~= before.resources.take(k as int));
                        assert(before.resources.take(k + 1).last() == id);
                    }
                    if contains_resource(&alive, id) {
                        kept.push(id);
                        copy.push(id);
                    }
                    k += 1;
                }
                assert(before.resources.take(k as int) =~= before.resources);
                proof {
                    lemma_surviving_stays_in_order(before.resources, alive@, before.next_id);
                }
                self.resources = kept;
                run.resources = copy;
                run.next = 0;
                run.stage = CloseStage::CloseResource;
                CloseAction::Continue
            },
            _ => CloseAction::NameLiveResources,
        }
    }

    fn close_one_resource(&mut self, run: &mut CloseRun) -> (action: CloseAction)
        requires
            old(self).valid(),
            old(run).valid(old(self)@),
            old(run).stage == CloseStage::CloseResource,
        ensures
            final(self).valid(),
            final(run).valid(final(self)@),
            close_resource_step(old(self)@, old(run)@, final(self)@, final(run)@, action),
    {
        if run.next < run.resources.len() {
            run.stage = CloseStage::ResourceReply;
            return CloseAction::CloseResource(run.resources[run.next]);
        }
        if run.first.is_none() {
            run.first = copy_failure(&run.resource);
        }
        run.tasks = self.external_tasks();
        run.next = 0;
        run.phase = ClosePhase::TaskJoin;
        run.stage = CloseStage::JoinTask;
        CloseAction::Continue
    }

    fn close_resource_reply(
        &mut self,
        run: &mut CloseRun,
        reply: CloseReply,
        now_ns: Option<u64>,
    ) -> (action: CloseAction)
        requires
            old(self).valid(),
            old(run).valid(old(self)@),
            old(run).stage == CloseStage::ResourceReply,
        ensures
            final(self).valid(),
            final(run).valid(final(self)@),
            resource_reply_step(
                old(self)@,
                old(run)@,
                reply,
                now_ns,
                final(self)@,
                final(run)@,
                action,
            ),
    {
        let id = run.resources[run.next];
        assert(run.next < run.resources.len());
        let next: usize = run.next + 1;
        match reply {
            CloseReply::ResourceClosed => {},
            CloseReply::ResourceFailed(text) => {
                run.keep_resource(
                    CloseFailure::new(ClosePhase::ResourceCleanup, text.as_str()).with_resource(id),
                );
                let draft = EventDraft::critical(
                    EventKind::Warning,
                    "runtime.resource.close_failed",
                    Severity::Error,
                ).with_resource(id).with_detail(text);
                assert(is_resource_warning(draft, "runtime.resource.close_failed", id, text@));
                self.announce(now_ns, draft);
            },
            CloseReply::ResourcePanicked => {
                run.keep_resource(
                    CloseFailure::new(
                        ClosePhase::ResourceCleanup,
                        "ManagedResource::close panicked",
                    ).with_resource(id),
                );
                let detail: String =
                    "ManagedResource::close panicked; registration remains supervised".to_owned();
                let draft = EventDraft::critical(
                    EventKind::Warning,
                    "runtime.resource.close_panicked",
                    Severity::Error,
                ).with_resource(id).with_detail(detail);
                assert(is_resource_warning(
                    draft,
                    "runtime.resource.close_panicked",
                    id,
                    "ManagedResource::close panicked; registration remains supervised"@,
                ));
                self.announce(now_ns, draft);
            },
            _ => {
                return CloseAction::CloseResource(id);
            },
        }
        run.next = next;
        run.stage = CloseStage::CloseResource;
        CloseAction::Continue
    }

    fn close_join_task(&mut self, run: &mut CloseRun) -> (action: CloseAction)
        requires
            old(self).valid(),
            old(run).valid(old(self)@),
            old(run).stage == CloseStage::JoinTask,
        ensures
            final(self).valid(),
            final(run).valid(final(self)@),
            join_task_step(old(self)@, old(run)@, final(self)@, final(run)@, action),
    {
        if run.next < run.tasks.len() {
            run.stage = CloseStage::TaskReply;
            return CloseAction::JoinTask(run.tasks[run.next]);
        }
        let failed = self.first_task_failure();
        if let Some(task) = failed {
            run.keep_first(
                CloseFailure::new(
                    ClosePhase::TaskJoin,
                    "supervised task body panicked",
                ).with_task(task),
            );
        }
        run.next = 0;
        run.phase = ClosePhase::OperationFinalization;
        run.stage = CloseStage::Finalize;
        assert(self@.is_first_failure(failed));
        CloseAction::Continue
    }

    fn close_task_reply(&mut self, run: &mut CloseRun, reply: CloseReply) -> (action: CloseAction)
        requires
            old(self).valid(),
            old(run).valid(old(self)@),
            old(run).stage == CloseStage::TaskReply,
        ensures
            final(self).valid(),
            final(run).valid(final(self)@),
            task_reply_step(old(self)@, old(run)@, reply, final(self)@, final(run)@, action),
    {
        let task = run.tasks[run.next];
        assert(run.next < run.tasks.len());
        match reply {
            CloseReply::TaskJoined => {
                run.next = run.next + 1;
                run.stage = CloseStage::JoinTask;
                CloseAction::Continue
            },
            CloseReply::TaskSelfJoin => {
                run.keep_first(
                    CloseFailure::new(
                        ClosePhase::TaskJoin,
                        "Runtime close attempted to join its calling task",
                    ).with_task(task.id),
                );
                run.next = 0;
                run.phase = ClosePhase::OperationFinalization;
                run.stage = CloseStage::Finalize;
                CloseAction::Continue
            },
            _ => CloseAction::JoinTask(task),
        }
    }
}

fn copy_failure(failure: &Option<CloseFailure>) -> (copy: Option<CloseFailure>)
    ensures
        failure_view(copy) == failure_view(*failure),
{
    match failure {
        Some(failure) => Some(
            CloseFailure {
                phase: failure.phase,
                diagnostic: failure.diagnostic.clone(),
                resource_id: failure.resource_id,
                task_id: failure.task_id,
            },
        ),
        None => None,
    }
}

fn contains_resource(resources: &Vec<ResourceId>, id: ResourceId) -> (found: bool)
    ensures
        found == resources@.contains(id),
{
    let mut k: usize = 0;
    while k < resources.len()
        invariant
            k <= resources.len(),
            forall|j: int| 0 <= j < k ==> (#[trigger] resources@[j]) != id,
        decreases resources.len() - k,
    {
        if resources[k].0 == id.0 {
            assert(resources@[k as int] == id);
            return true;
        }
        k += 1;
    }
    false
}

pub(crate) proof fn lemma_surviving_stays_in_order(
    resources: Seq<ResourceId>,
    alive: Seq<ResourceId>,
    bound: u64,
)
    requires
        forall|k: int| 0 <= k < resources.len() ==> (#[trigger] resources[k]).0 < bound,
        forall|i: int, j: int|
            #![trigger resources[i], resources[j]]
            0 <= i < j < resources.len() ==> resources[i].0 < resources[j].0,
    ensures
        forall|k: int|
            0 <= k < surviving(resources, alive).len() ==> (#[trigger] surviving(
                resources,
                alive,
            )[k]).0 < bound && resources.contains(surviving(resources, alive)[k]),
        forall|i: int, j: int|
            #![trigger surviving(resources, alive)[i], surviving(resources, alive)[j]]
            0 <= i < j < surviving(resources, alive).len() ==> surviving(resources, alive)[i].0
                < surviving(resources, alive)[j].0,
    decreases resources.len(),
{
    reveal(Seq::filter);
    if resources.len() > 0 {
        let rest = resources.drop_last();
        let last = resources.last();
        let before = surviving(rest, alive);
        let all = surviving(resources, alive);
        lemma_surviving_stays_in_order(rest, alive, bound);
        assert forall|k: int| 0 <= k < all.len() implies (#[trigger] all[k]).0 < bound
            && resources.contains(all[k]) by {
            if k < before.len() {
                assert(all[k] == before[k]);
                let m = choose|m: int| 0 <= m < rest.len() && rest[m] == before[k];
                assert(resources[m] == all[k]);
            } else {
                assert(resources[resources.len() - 1] == all[k]);
            }
        }
        assert forall|i: int, j: int| #![trigger all[i], all[j]] 0 <= i < j < all.len() implies
            all[i].0 < all[j].0 by {
            assert(all[i] == before[i]);
            if j >= before.len() {
                let m = choose|m: int| 0 <= m < rest.len() && rest[m] == before[i];
                assert(resources[m].0 < resources[resources.len() - 1].0);
            }
        }
    }
}

proof fn lemma_delivered_keeps_places(
    runtime: RuntimeModel,
    hooks: Seq<u64>,
    now_ns: Option<u64>,
)
    requires
        forall|h: int|
            0 <= h < runtime.hooks.len() ==> ((
            #[trigger] runtime.hooks[h]) matches HookTarget::Operation(slot) ==> slot
                < runtime.operations.len()),
    ensures
        runtime.delivered(hooks, now_ns).operations.len() == runtime.operations.len(),
        runtime.delivered(hooks, now_ns).tasks == runtime.tasks,
        runtime.delivered(hooks, now_ns).id == runtime.id,
        runtime.delivered(hooks, now_ns).state == runtime.state,
    decreases hooks.len(),
{
    if hooks.len() > 0 {
        match runtime.target(hooks[0]) {
            HookTarget::Caller(callback) => {},
            HookTarget::Operation(slot) => {
                lemma_delivered_keeps_places(
                    runtime.parent_closed(slot as int, now_ns),
                    hooks.skip(1),
                    now_ns,
                );
            },
        }
    }
}

/// Finalization: what an owner left is settled. Without a settlement owner the cancellation is
/// completed; with one, only evidence that it shared settles the operation, and an operation that
/// is lost is a failure where there is none yet.
pub open spec fn finalize_step(
    before: RuntimeModel,
    run: RunModel,
    now_ns: Option<u64>,
    after: RuntimeModel,
    run_after: RunModel,
    action: CloseAction,
) -> bool {
    if run.next >= run.operations.len() {
        &&& after == before
        &&& run_after == (RunModel {
            stage: CloseStage::StopWorker,
            phase: ClosePhase::InternalTaskJoin,
            ..run
        })
        &&& action is Continue
    } else {
        let slot = run.operations[run.next as int] as int;
        let operation = before.operations[slot];
        let next = (run.next + 1) as usize;
        let hooks = ending_hooks(before.tree, operation.token.node as int);
        let discarded = ending_discards(before.tree, operation.token.node as int);
        let awaits = after == before && run_after == run && (action matches CloseAction::Await(
            handle,
        ) && before.owns(handle) && handle.slot == slot);
        match operation.fallback() {
            OperationFallback::AlreadyTerminal => after == before && run_after == (RunModel {
                next,
                ..run
            }) && action is Continue,
            OperationFallback::Legacy => if operation.request_begins(RequestModel::Cancellation) {
                &&& after == before.ending(
                    slot,
                    operation.begun(operation.requested_primary(RequestModel::Cancellation)->0),
                )
                &&& run_after == (RunModel {
                    stage: CloseStage::FinalizeHooks,
                    hooks,
                    discarded,
                    settles: false,
                    ..run
                })
                &&& action is Continue
            } else if operation.terminal_in_progress {
                awaits
            } else {
                after == before && run_after == (RunModel { next, ..run }) && action is Continue
            },
            OperationFallback::Observe => awaits,
            OperationFallback::OwnershipLost => {
                &&& after == before.put(slot, operation.after_fallback(), false, None)
                &&& run_after == (RunModel {
                    next,
                    operation: if run.operation is None && run.first is None {
                        Some(
                            failure_of(
                                ClosePhase::OperationFinalization,
                                "operation settlement ownership and evidence are unavailable"@,
                            ),
                        )
                    } else {
                        run.operation
                    },
                    ..run
                })
                &&& action is Continue
            },
            OperationFallback::Settles => {
                let settling = operation.after_fallback();
                &&& after == (RuntimeModel {
                    tree: crate::cancellation::ended_tree(
                        before.tree,
                        operation.token.node as int,
                    ),
                    ..before.put(slot, settling, settling.state != operation.state, now_ns)
                })
                &&& run_after == (RunModel {
                    stage: CloseStage::FinalizeHooks,
                    hooks,
                    discarded,
                    settles: true,
                    ..run
                })
                &&& action is Continue
            },
        }
    }
}

/// The Runtime after a commit, where a terminal transaction is running.
pub open spec fn committed_at(
    runtime: RuntimeModel,
    slot: int,
    cleanup: CleanupModel,
    observer_panicked: bool,
    now_ns: Option<u64>,
) -> RuntimeModel {
    if runtime.operations[slot].finishing is Some {
        runtime.put(
            slot,
            runtime.operations[slot].committed(cleanup, observer_panicked),
            true,
            now_ns,
        )
    } else {
        runtime
    }
}

/// Finalization hooks: once they are delivered, an operation without a registered cleanup is
/// committed, and for another one that cleanup is asked for.
pub open spec fn finalize_hooks_step(
    before: RuntimeModel,
    run: RunModel,
    now_ns: Option<u64>,
    after: RuntimeModel,
    run_after: RunModel,
    action: CloseAction,
) -> bool {
    let slot = run.operations[run.next as int] as int;
    let delivered = before.delivered(run.hooks, now_ns);
    match before.first_callback(run.hooks) {
        Some(callback) => {
            &&& after == delivered
            &&& action matches CloseAction::RunHook(found) && found == callback
            &&& run_after == (RunModel {
                hooks: run.hooks.skip(before.operation_prefix(run.hooks) as int + 1),
                ..run
            })
        },
        None => if run.settles {
            &&& after == delivered
            &&& run_after == (RunModel { stage: CloseStage::Settle, hooks: seq![], ..run })
            &&& action matches CloseAction::Settle(handle) && after.owns(handle) && handle.slot
                == slot
        } else {
            &&& after == committed_at(
                delivered,
                slot,
                (CleanupModel { domain_failed: false, error: None }),
                false,
                now_ns,
            )
            &&& run_after == (RunModel {
                stage: CloseStage::Finalize,
                next: (run.next + 1) as usize,
                hooks: seq![],
                ..run
            })
            &&& action is Continue
        },
    }
}

/// Settlement: the operation is committed with what its cleanup came to.
pub open spec fn settle_step(
    before: RuntimeModel,
    run: RunModel,
    reply: CloseReply,
    now_ns: Option<u64>,
    after: RuntimeModel,
    run_after: RunModel,
    action: CloseAction,
) -> bool {
    let slot = run.operations[run.next as int] as int;
    match reply {
        CloseReply::Settled(cleanup, observer_panicked) => {
            &&& after == committed_at(before, slot, cleanup@, observer_panicked, now_ns)
            &&& run_after == (RunModel {
                stage: CloseStage::Finalize,
                next: (run.next + 1) as usize,
                ..run
            })
            &&& action is Continue
        },
        _ => after == before && run_after == run && (action matches CloseAction::Settle(handle)
            && before.owns(handle) && handle.slot == slot),
    }
}

/// The deadline schedule after the Runtime closed it: every registration is resolved, in order.
pub open spec fn schedule_closed(
    before: SchedulerModel,
    after: SchedulerModel,
    notices: Seq<DeadlineNotice>,
) -> bool {
    &&& lists_schedule(before, notices)
    &&& after == (SchedulerModel {
        admission_open: false,
        pending: seq![],
        entries: seq![],
        ..before
    }).with_resolved(notice_ids(notices), DeadlineResolution::RuntimeClosed)
}

/// Worker stop: every deadline is resolved, their observers are to be woken, and then the worker is
/// to be joined where it was not; the close goes on in stage `reply` or, with nothing to join, in
/// stage `done`.
pub open spec fn stop_worker_step(
    before: RuntimeModel,
    run: RunModel,
    after: RuntimeModel,
    run_after: RunModel,
    action: CloseAction,
    reply: CloseStage,
    done: CloseStage,
) -> bool {
    &&& after == (RuntimeModel { scheduler: after.scheduler, ..before })
    &&& run_after == (RunModel {
        stage: if before.worker_running {
            reply
        } else {
            done
        },
        ..run
    })
    &&& action matches CloseAction::StopWorker(notices, task) && {
        &&& schedule_closed(before.scheduler, after.scheduler, notices@)
        &&& task is Some <==> before.worker_running
        &&& task matches Some(task) ==> before.runs(task) && task.id == before.deadline_task
    }
}

/// The failure of a worker that could not be joined, or that panicked.
pub open spec fn worker_failure(task: TaskId, text: Seq<char>) -> FailureModel {
    FailureModel {
        task_id: Some(task),
        ..failure_of(ClosePhase::InternalTaskJoin, text)
    }
}

/// A close whose worker failed: that is the failure to report, where there is none yet.
pub open spec fn worker_failed(run: RunModel, failure: FailureModel) -> RunModel {
    RunModel {
        stage: CloseStage::Converge,
        first: if run.operation is None {
            first_of(run.first, Some(failure))
        } else {
            run.first
        },
        ..run
    }
}

/// Worker reply: the worker has ended; one that panicked is a failure, where there is none yet.
pub open spec fn worker_reply_step(
    before: RuntimeModel,
    run: RunModel,
    reply: CloseReply,
    after: RuntimeModel,
    run_after: RunModel,
    action: CloseAction,
) -> bool {
    &&& after == (RuntimeModel {
        worker_running: before.worker_running && !(reply is WorkerJoined || reply
            is WorkerSelfJoin),
        ..before
    })
    &&& match reply {
        CloseReply::WorkerJoined(SupervisedTaskOutcome::Completed) => run_after == (RunModel {
            stage: CloseStage::Converge,
            ..run
        }) && action is Continue,
        CloseReply::WorkerJoined(SupervisedTaskOutcome::Panicked) => run_after == worker_failed(
            run,
            worker_failure(before.deadline_task, "Runtime deadline task panicked"@),
        ) && action is Continue,
        CloseReply::WorkerSelfJoin => run_after == worker_failed(
            run,
            worker_failure(
                before.deadline_task,
                "Runtime deadline task attempted to join itself"@,
            ),
        ) && action is Continue,
        _ => run_after == run && (action matches CloseAction::JoinTask(task) && before.runs(task)
            && task.id == before.deadline_task),
    }
}

/// Convergence: registries that are not empty are a failure, where there is none yet; without any
/// failure the final event follows.
pub open spec fn converge_step(
    before: RuntimeModel,
    run: RunModel,
    after: RuntimeModel,
    run_after: RunModel,
    action: CloseAction,
) -> bool {
    let found = if !before.converged() && run.operation is None {
        first_of(
            run.first,
            Some(
                failure_of(
                    ClosePhase::RegistryConvergence,
                    "Runtime registries did not converge during close"@,
                ),
            ),
        )
    } else {
        run.first
    };
    let failure = first_of(found, run.operation);
    &&& after == before
    &&& run_after == if failure is Some {
        RunModel {
            stage: CloseStage::Contain,
            phase: ClosePhase::RegistryConvergence,
            first: failure,
            ..run
        }
    } else {
        RunModel { stage: CloseStage::FinalEvent, phase: ClosePhase::FinalEvent, ..run }
    }
    &&& action is Continue
}

/// Event production after an attempt to publish its final event; none where the attempt fails. A
/// clock that cannot be read is replaced by the newest timestamp where that is asked for.
pub open spec fn closed_hub(
    hub: HubModel,
    now_ns: Option<u64>,
    recover_clock: bool,
    draft: EventDraft,
) -> Option<HubModel> {
    if hub.closed {
        Some(hub)
    } else if hub.next_sequence == u64::MAX {
        None
    } else {
        match now_ns {
            Some(now_ns) => Some(hub.finished(now_ns, draft)),
            None => if recover_clock {
                Some(hub.finished(hub.last_timestamp_ns, draft))
            } else {
                None
            },
        }
    }
}

/// Final event: with it close has succeeded. A clock that cannot be read, or a sequence that is
/// used up, is a panic of this phase.
pub open spec fn final_event_step(
    before: RuntimeModel,
    run: RunModel,
    now_ns: Option<u64>,
    after: RuntimeModel,
    run_after: RunModel,
    action: CloseAction,
) -> bool {
    match closed_hub(
        before.hub,
        now_ns,
        false,
        lifecycle_draft("runtime.closed", Severity::Info),
    ) {
        Some(hub) => {
            &&& after == (RuntimeModel { hub, ..before }).close_completed(OutcomeModel::Closed)
            &&& run_after == (RunModel { stage: CloseStage::Done, ..run })
            &&& action matches CloseAction::Done(outcome) && outcome@ == OutcomeModel::Closed
        },
        None => {
            &&& after == before
            &&& run_after == (RunModel {
                stage: CloseStage::Contain,
                first: Some(failure_of(ClosePhase::FinalEvent, "Runtime close phase panicked"@)),
                ..run
            })
            &&& action is Continue
        },
    }
}

/// Containment: the root is cancelled once more.
pub open spec fn contain_step(
    before: RuntimeModel,
    run: RunModel,
    after: RuntimeModel,
    run_after: RunModel,
    action: CloseAction,
) -> bool {
    &&& after == before.root_cancelled()
    &&& run_after == (RunModel {
        stage: CloseStage::ContainHooks,
        hooks: before.root_hooks(),
        discarded: before.root_discards(),
        ..run
    })
    &&& action is Continue
}

/// Whether `draft` is the final event of a failed close.
pub open spec fn is_failure_event(draft: EventDraft, report: ReportModel) -> bool {
    &&& draft.class == EventClass::Critical
    &&& draft.kind == EventKind::State
    &&& draft.code == "runtime.close_failed"
    &&& draft.severity == Severity::Error
    &&& draft.operation_id is None
    &&& draft.resource_id == report.resource_id
    &&& draft.detail matches Some(text) && text@ == report.diagnostic
}

/// Whether `report` tells of `failure` and of what the Runtime still supervises.
pub open spec fn reports(
    runtime: RuntimeModel,
    failure: FailureModel,
    report: ReportModel,
) -> bool {
    &&& report.phase == failure.phase
    &&& report.diagnostic == failure.diagnostic
    &&& report.resource_id == failure.resource_id
    &&& report.task_id == failure.task_id
    &&& runtime.supervises(report.counts)
}

/// Report: the first failure is written down and published as the final event.
pub open spec fn report_step(
    before: RuntimeModel,
    run: RunModel,
    now_ns: Option<u64>,
    after: RuntimeModel,
    run_after: RunModel,
    action: CloseAction,
) -> bool {
    exists|report: ReportModel, draft: EventDraft|
        #![trigger reports(before, run.first->0, report), is_failure_event(draft, report)]
        {
            &&& reports(before, run.first->0, report)
            &&& is_failure_event(draft, report)
            &&& match closed_hub(before.hub, now_ns, false, draft) {
                Some(hub) => {
                    &&& after == (RuntimeModel { hub, ..before }).close_completed(
                        OutcomeModel::Failed(report),
                    )
                    &&& run_after == (RunModel { stage: CloseStage::Done, ..run })
                    &&& action matches CloseAction::Done(outcome) && outcome@
                        == OutcomeModel::Failed(report)
                },
                None => {
                    &&& after == before
                    &&& run_after == (RunModel {
                        stage: CloseStage::Retry,
                        report: Some(report),
                        ..run
                    })
                    &&& action is Continue
                },
            }
        }
}

/// Retry: the report is published with the newest timestamp where the clock fails, and where even
/// that fails production just ends.
pub open spec fn retry_step(
    before: RuntimeModel,
    run: RunModel,
    now_ns: Option<u64>,
    after: RuntimeModel,
    run_after: RunModel,
    action: CloseAction,
) -> bool {
    let report = run.report->0;
    &&& exists|draft: EventDraft| #[trigger]
        is_failure_event(draft, report) && after == (RuntimeModel {
            hub: match closed_hub(before.hub, now_ns, true, draft) {
                Some(hub) => hub,
                None => before.hub.force_closed(),
            },
            ..before
        }).close_completed(OutcomeModel::Failed(report))
    &&& run_after == (RunModel { stage: CloseStage::Done, ..run })
    &&& action matches CloseAction::Done(outcome) && outcome@ == OutcomeModel::Failed(report)
}

impl Runtime {
    fn handle_at(&self, slot: usize) -> (operation: Operation)
        requires
            slot < self@.operations.len(),
        ensures
            self@.owns(operation),
            operation.slot == slot,
    {
        Operation { runtime: self.id, slot, id: self.operations[slot].id() }
    }

    #[verifier::spinoff_prover]
    #[verifier::rlimit(30)]
    fn close_finalize(&mut self, run: &mut CloseRun, now_ns: Option<u64>) -> (action: CloseAction)
        requires
            old(self).valid(),
            old(run).valid(old(self)@),
            old(run).stage == CloseStage::Finalize,
        ensures
            final(self).valid(),
            final(run).valid(final(self)@),
            finalize_step(old(self)@, old(run)@, now_ns, final(self)@, final(run)@, action),
    {
        let ghost before = self@;
        if run.next >= run.operations.len() {
            run.stage = CloseStage::StopWorker;
            run.phase = ClosePhase::InternalTaskJoin;
            return CloseAction::Continue;
        }
        let slot: usize = run.operations[run.next];
        let next: usize = run.next + 1;
        assert(before.operations[slot as int] == self.operations[slot as int]@);
        let operation = &mut self.operations[slot];
        let start = operation.settle_after_owner_join(&mut self.tree);
        let ghost middle = self@;
        proof {
            let settling = self.operations[slot as int]@;
            assert(self@ =~= (RuntimeModel {
                operations: before.operations.update(slot as int, settling),
                tree: self@.tree,
                ..before
            }));
            assert(self@.tree.len() == before.tree.len());
            lemma_operation_update_is_valid(before, slot as int, settling);
            assert(self@.valid());
            if start is Legacy || start is AlreadyTerminal || start is Observe {
                assert(self@.operations =~= before.operations);
                assert(self@ =~= before);
            }
        }
        match start {
            FallbackStart::AlreadyTerminal => {
                run.next = next;
                CloseAction::Continue
            },
            FallbackStart::Legacy => {
                let handle = self.handle_at(slot);
                match handle.finish_cancelled(self) {
                    FinishStart::Begun(wave) => {
                        run.wave = wave;
                        run.settles = false;
                        run.stage = CloseStage::FinalizeHooks;
                        CloseAction::Continue
                    },
                    FinishStart::Observe => CloseAction::Await(handle),
                    FinishStart::Rejected(_) => {
                        run.next = next;
                        CloseAction::Continue
                    },
                }
            },
            FallbackStart::Observe => CloseAction::Await(self.handle_at(slot)),
            FallbackStart::OwnershipLost => {
                if run.operation.is_none() && run.first.is_none() {
                    run.operation = Some(
                        CloseFailure::new(
                            ClosePhase::OperationFinalization,
                            "operation settlement ownership and evidence are unavailable",
                        ),
                    );
                }
                run.next = next;
                CloseAction::Continue
            },
            FallbackStart::Begun(propagation, publish) => {
                if publish {
                    self.announce_operation(slot, now_ns);
                }
                proof {
                    let settling = before.operations[slot as int].after_fallback();
                    assert(self@ =~= (RuntimeModel {
                        tree: middle.tree,
                        ..before.put(slot as int, settling, publish, now_ns)
                    }));
                }
                run.wave = HookWave::of(propagation);
                run.settles = true;
                run.stage = CloseStage::FinalizeHooks;
                CloseAction::Continue
            },
        }
    }

    fn close_finalize_hooks(&mut self, run: &mut CloseRun, now_ns: Option<u64>) -> (action:
        CloseAction)
        requires
            old(self).valid(),
            old(run).valid(old(self)@),
            old(run).stage == CloseStage::FinalizeHooks,
        ensures
            final(self).valid(),
            final(run).valid(final(self)@),
            finalize_hooks_step(old(self)@, old(run)@, now_ns, final(self)@, final(run)@, action),
    {
        let ghost before = self@;
        let ghost hooks = run.wave@;
        proof {
            lemma_delivered_keeps_places(before, hooks, now_ns);
        }
        if let Some(callback) = self.next_hook(&mut run.wave, now_ns) {
            return CloseAction::RunHook(callback);
        }
        let slot: usize = run.operations[run.next];
        assert(run.next < run.operations.len());
        let next: usize = run.next + 1;
        let handle = self.handle_at(slot);
        if run.settles {
            run.stage = CloseStage::Settle;
            return CloseAction::Settle(handle);
        }
        let _ = handle.commit(self, SettledCleanup::none(), false, now_ns);
        run.next = next;
        run.stage = CloseStage::Finalize;
        CloseAction::Continue
    }

    fn close_settle(
        &mut self,
        run: &mut CloseRun,
        reply: CloseReply,
        now_ns: Option<u64>,
    ) -> (action: CloseAction)
        requires
            old(self).valid(),
            old(run).valid(old(self)@),
            old(run).stage == CloseStage::Settle,
            reply matches CloseReply::Settled(cleanup, observer_panicked) ==> cleanup@.valid(),
        ensures
            final(self).valid(),
            final(run).valid(final(self)@),
            settle_step(old(self)@, old(run)@, reply, now_ns, final(self)@, final(run)@, action),
    {
        let slot: usize = run.operations[run.next];
        assert(run.next < run.operations.len());
        let next: usize = run.next + 1;
        let handle = self.handle_at(slot);
        match reply {
            CloseReply::Settled(cleanup, observer_panicked) => {
                let _ = handle.commit(self, cleanup, observer_panicked, now_ns);
                run.next = next;
                run.stage = CloseStage::Finalize;
                CloseAction::Continue
            },
            _ => CloseAction::Settle(handle),
        }
    }

    fn stop_deadline_worker(
        &mut self,
        run: &mut CloseRun,
        reply: CloseStage,
        done: CloseStage,
    ) -> (action: CloseAction)
        requires
            old(self).valid(),
            old(self)@.state != RuntimeState::Active,
            old(run).valid(old(self)@),
            old(run).stage == CloseStage::StopWorker && reply == CloseStage::WorkerReply && done
                == CloseStage::Converge || old(run).stage == CloseStage::ContainWorker && reply
                == CloseStage::ContainReply && done == CloseStage::Report,
        ensures
            final(self).valid(),
            final(run).valid(final(self)@),
            stop_worker_step(
                old(self)@,
                old(run)@,
                final(self)@,
                final(run)@,
                action,
                reply,
                done,
            ),
    {
        let ghost before = self@;
        let notices = self.scheduler.drain_runtime_closed();
        assert(!self@.scheduler.admission_open);
        assert(self@ =~= (RuntimeModel { scheduler: self@.scheduler, ..before }));
        let task: Option<SupervisedTask> = if self.worker_running {
            run.stage = reply;
            Some(self.deadline_task())
        } else {
            run.stage = done;
            None
        };
        CloseAction::StopWorker(notices, task)
    }

    fn close_worker_reply(&mut self, run: &mut CloseRun, reply: CloseReply) -> (action: CloseAction)
        requires
            old(self).valid(),
            old(run).valid(old(self)@),
            old(run).stage == CloseStage::WorkerReply,
        ensures
            final(self).valid(),
            final(run).valid(final(self)@),
            worker_reply_step(old(self)@, old(run)@, reply, final(self)@, final(run)@, action),
    {
        let task = self.deadline_task();
        match reply {
            CloseReply::WorkerJoined(SupervisedTaskOutcome::Completed) => {},
            CloseReply::WorkerJoined(SupervisedTaskOutcome::Panicked) => {
                if run.operation.is_none() {
                    run.keep_first(
                        CloseFailure::new(
                            ClosePhase::InternalTaskJoin,
                            "Runtime deadline task panicked",
                        ).with_task(task.id),
                    );
                }
            },
            CloseReply::WorkerSelfJoin => {
                if run.operation.is_none() {
                    run.keep_first(
                        CloseFailure::new(
                            ClosePhase::InternalTaskJoin,
                            "Runtime deadline task attempted to join itself",
                        ).with_task(task.id),
                    );
                }
            },
            _ => {
                return CloseAction::JoinTask(task);
            },
        }
        self.worker_running = false;
        run.stage = CloseStage::Converge;
        CloseAction::Continue
    }

    fn close_converge(&mut self, run: &mut CloseRun) -> (action: CloseAction)
        requires
            old(self).valid(),
            old(run).valid(old(self)@),
            old(run).stage == CloseStage::Converge,
        ensures
            final(self).valid(),
            final(run).valid(final(self)@),
            converge_step(old(self)@, old(run)@, final(self)@, final(run)@, action),
    {
        run.phase = ClosePhase::RegistryConvergence;
        let counts = self.counts();
        let converged: bool = counts.active_operations == 0 && counts.active_resources == 0
            && counts.active_tasks == 0;
        if !converged && run.operation.is_none() {
            run.keep_first(
                CloseFailure::new(
                    ClosePhase::RegistryConvergence,
                    "Runtime registries did not converge during close",
                ),
            );
        }
        if run.first.is_none() {
            run.first = copy_failure(&run.operation);
        }
        if run.first.is_some() {
            run.stage = CloseStage::Contain;
        } else {
            run.stage = CloseStage::FinalEvent;
            run.phase = ClosePhase::FinalEvent;
        }
        CloseAction::Continue
    }

    /// Publishes a final event, where that is possible.
    fn try_close_events(
        &mut self,
        draft: EventDraft,
        now_ns: Option<u64>,
        recover_clock: bool,
    ) -> (closed: bool)
        requires
            old(self).valid(),
        ensures
            final(self).valid(),
            ({
                let hub = closed_hub(old(self)@.hub, now_ns, recover_clock, draft);
                &&& closed == (hub is Some)
                &&& final(self)@ == (RuntimeModel {
                    hub: if hub is Some {
                        hub->0
                    } else {
                        old(self)@.hub
                    },
                    ..old(self)@
                })
            }),
    {
        if self.hub.is_closed() {
            return true;
        }
        if !self.hub.sequences_left() {
            return false;
        }
        self.hub.close_events(draft, now_ns, recover_clock).is_ok()
    }

    fn close_final_event(&mut self, run: &mut CloseRun, now_ns: Option<u64>) -> (action: CloseAction)
        requires
            old(self).valid(),
            old(self)@.state == RuntimeState::Closing,
            old(run).valid(old(self)@),
            old(run).stage == CloseStage::FinalEvent,
        ensures
            final(self).valid(),
            final(run).valid(final(self)@),
            final_event_step(old(self)@, old(run)@, now_ns, final(self)@, final(run)@, action),
    {
        let draft = EventDraft::critical(EventKind::State, "runtime.closed", Severity::Info);
        if self.try_close_events(draft, now_ns, false) {
            self.complete_close(CloseOutcome::Closed);
            run.stage = CloseStage::Done;
            return CloseAction::Done(CloseOutcome::Closed);
        }
        run.first = Some(
            CloseFailure::new(ClosePhase::FinalEvent, "Runtime close phase panicked"),
        );
        run.stage = CloseStage::Contain;
        CloseAction::Continue
    }

    fn close_contain(&mut self, run: &mut CloseRun) -> (action: CloseAction)
        requires
            old(self).valid(),
            old(run).valid(old(self)@),
            old(run).stage == CloseStage::Contain,
        ensures
            final(self).valid(),
            final(run).valid(final(self)@),
            contain_step(old(self)@, old(run)@, final(self)@, final(run)@, action),
    {
        run.wave = self.cancel_root();
        run.stage = CloseStage::ContainHooks;
        CloseAction::Continue
    }

    fn close_contain_hooks(&mut self, run: &mut CloseRun, now_ns: Option<u64>) -> (action:
        CloseAction)
        requires
            old(self).valid(),
            old(run).valid(old(self)@),
            old(run).stage == CloseStage::ContainHooks,
        ensures
            final(self).valid(),
            final(run).valid(final(self)@),
            hooks_step(
                old(self)@,
                old(run)@,
                now_ns,
                final(self)@,
                final(run)@,
                action,
                (RunModel { stage: CloseStage::ContainWorker, hooks: seq![], ..old(run)@ }),
            ),
    {
        let ghost before = self@;
        let ghost hooks = run.wave@;
        proof {
            lemma_delivered_keeps_places(before, hooks, now_ns);
        }
        match self.next_hook(&mut run.wave, now_ns) {
            Some(callback) => CloseAction::RunHook(callback),
            None => {
                run.stage = CloseStage::ContainWorker;
                CloseAction::Continue
            },
        }
    }

    fn failure_event(report: &CloseReport) -> (draft: EventDraft)
        ensures
            is_failure_event(draft, report@),
    {
        let draft = EventDraft::critical(
            EventKind::State,
            "runtime.close_failed",
            Severity::Error,
        ).with_detail(report.diagnostic.clone());
        match report.resource_id {
            Some(resource_id) => draft.with_resource(resource_id),
            None => draft,
        }
    }

    fn close_report(&mut self, run: &mut CloseRun, now_ns: Option<u64>) -> (action: CloseAction)
        requires
            old(self).valid(),
            old(self)@.state == RuntimeState::Closing,
            old(run).valid(old(self)@),
            old(run).stage == CloseStage::Report,
        ensures
            final(self).valid(),
            final(run).valid(final(self)@),
            report_step(old(self)@, old(run)@, now_ns, final(self)@, final(run)@, action),
    {
        let counts: RuntimeCounts = self.counts();
        let report = match &run.first {
            Some(failure) => CloseReport {
                phase: failure.phase,
                diagnostic: failure.diagnostic.clone(),
                resource_id: failure.resource_id,
                task_id: failure.task_id,
                counts,
            },
            None => CloseReport {
                phase: run.phase,
                diagnostic: "Runtime close phase panicked".to_owned(),
                resource_id: None,
                task_id: None,
                counts,
            },
        };
        assert(reports(self@, run@.first->0, report@));
        let draft = Self::failure_event(&report);
        let ghost shown = draft;
        assert(is_failure_event(shown, report@));
        if self.try_close_events(draft, now_ns, false) {
            let outcome = CloseOutcome::Failed(report);
            self.complete_close(outcome.clone());
            run.stage = CloseStage::Done;
            return CloseAction::Done(outcome);
        }
        run.report = Some(report);
        run.stage = CloseStage::Retry;
        CloseAction::Continue
    }

    fn close_retry(&mut self, run: &mut CloseRun, now_ns: Option<u64>) -> (action: CloseAction)
        requires
            old(self).valid(),
            old(self)@.state == RuntimeState::Closing,
            old(run).valid(old(self)@),
            old(run).stage == CloseStage::Retry,
        ensures
            final(self).valid(),
            final(run).valid(final(self)@),
            retry_step(old(self)@, old(run)@, now_ns, final(self)@, final(run)@, action),
    {
        run.stage = CloseStage::Done;
        match &run.report {
            Some(report) => {
                let draft = Self::failure_event(report);
                let ghost shown = draft;
                assert(is_failure_event(shown, report@));
                let outcome = CloseOutcome::Failed(report.clone());
                if !self.try_close_events(draft, now_ns, true) {
                    self.hub.force_close();
                }
                self.complete_close(outcome.clone());
                CloseAction::Done(outcome)
            },
            None => CloseAction::Continue,
        }
    }
}

/// One step of deterministic close: what `reply` and the clock reading `now_ns` make of a Runtime
/// and its running close, and what the caller has to do next.
pub open spec fn close_step(
    before: RuntimeModel,
    run: RunModel,
    reply: CloseReply,
    now_ns: Option<u64>,
    after: RuntimeModel,
    run_after: RunModel,
    action: CloseAction,
) -> bool {
    match run.stage {
        CloseStage::Start => start_step(before, run, now_ns, after, run_after, action),
        CloseStage::RootHooks => hooks_step(
            before,
            run,
            now_ns,
            after,
            run_after,
            action,
            RunModel {
                stage: CloseStage::RequestCancel,
                phase: ClosePhase::OperationFinalization,
                operations: live_slots(after.operations),
                next: 0,
                hooks: seq![],
                ..run
            },
        ),
        CloseStage::RequestCancel => request_step(before, run, now_ns, after, run_after, action),
        CloseStage::RequestHooks => hooks_step(
            before,
            run,
            now_ns,
            after,
            run_after,
            action,
            RunModel { stage: CloseStage::RequestCancel, hooks: seq![], ..run },
        ),
        CloseStage::Resources => resources_step(before, run, reply, after, run_after, action),
        CloseStage::CloseResource => close_resource_step(before, run, after, run_after, action),
        CloseStage::ResourceReply => resource_reply_step(
            before,
            run,
            reply,
            now_ns,
            after,
            run_after,
            action,
        ),
        CloseStage::JoinTask => join_task_step(before, run, after, run_after, action),
        CloseStage::TaskReply => task_reply_step(before, run, reply, after, run_after, action),
        CloseStage::Finalize => finalize_step(before, run, now_ns, after, run_after, action),
        CloseStage::FinalizeHooks => finalize_hooks_step(
            before,
            run,
            now_ns,
            after,
            run_after,
            action,
        ),
        CloseStage::Settle => settle_step(before, run, reply, now_ns, after, run_after, action),
        CloseStage::StopWorker => stop_worker_step(
            before,
            run,
            after,
            run_after,
            action,
            CloseStage::WorkerReply,
            CloseStage::Converge,
        ),
        CloseStage::WorkerReply => worker_reply_step(before, run, reply, after, run_after, action),
        CloseStage::Converge => converge_step(before, run, after, run_after, action),
        CloseStage::FinalEvent => final_event_step(before, run, now_ns, after, run_after, action),
        CloseStage::Contain => contain_step(before, run, after, run_after, action),
        CloseStage::ContainHooks => hooks_step(
            before,
            run,
            now_ns,
            after,
            run_after,
            action,
            RunModel { stage: CloseStage::ContainWorker, hooks: seq![], ..run },
        ),
        CloseStage::ContainWorker => stop_worker_step(
            before,
            run,
            after,
            run_after,
            action,
            CloseStage::ContainReply,
            CloseStage::Report,
        ),
        CloseStage::ContainReply => after == (RuntimeModel { worker_running: false, ..before })
            && run_after == (RunModel { stage: CloseStage::Report, ..run }) && action is Continue,
        CloseStage::Report => report_step(before, run, now_ns, after, run_after, action),
        CloseStage::Retry => retry_step(before, run, now_ns, after, run_after, action),
        CloseStage::Done => after == before && run_after == run && match before.outcome {
            Some(saved) => action matches CloseAction::Done(outcome) && outcome@ == saved,
            None => action is Continue,
        },
    }
}

impl Runtime {
    /// Takes one step of deterministic close: hands in what came of the last action, with a fresh
    /// clock reading, and returns the next action.
    pub fn advance(
        &mut self,
        run: &mut CloseRun,
        reply: CloseReply,
        now_ns: Option<u64>,
    ) -> (action: CloseAction)
        requires
            old(self).valid(),
            old(run).valid(old(self)@),
            old(run).stage == CloseStage::Done || old(self)@.state == RuntimeState::Closing,
            reply matches CloseReply::Settled(cleanup, observer_panicked) ==> cleanup@.valid(),
        ensures
            final(self).valid(),
            final(run).valid(final(self)@),
            final(run).stage == CloseStage::Done || final(self)@.state == RuntimeState::Closing,
            close_step(
                old(self)@,
                old(run)@,
                reply,
                now_ns,
                final(self)@,
                final(run)@,
                action,
            ),
    {
        proof {
            lemma_delivered_keeps_places(self@, run@.hooks, now_ns);
        }
        match run.stage {
            CloseStage::Start => self.close_start(run, now_ns),
            CloseStage::RootHooks => self.close_root_hooks(run, now_ns),
            CloseStage::RequestCancel => self.close_request(run, now_ns),
            CloseStage::RequestHooks => self.close_request_hooks(run, now_ns),
            CloseStage::Resources => self.close_resources(run, reply),
            CloseStage::CloseResource => self.close_one_resource(run),
            CloseStage::ResourceReply => self.close_resource_reply(run, reply, now_ns),
            CloseStage::JoinTask => self.close_join_task(run),
            CloseStage::TaskReply => self.close_task_reply(run, reply),
            CloseStage::Finalize => self.close_finalize(run, now_ns),
            CloseStage::FinalizeHooks => self.close_finalize_hooks(run, now_ns),
            CloseStage::Settle => self.close_settle(run, reply, now_ns),
            CloseStage::StopWorker => self.stop_deadline_worker(
                run,
                CloseStage::WorkerReply,
                CloseStage::Converge,
            ),
            CloseStage::WorkerReply => self.close_worker_reply(run, reply),
            CloseStage::Converge => self.close_converge(run),
            CloseStage::FinalEvent => self.close_final_event(run, now_ns),
            CloseStage::Contain => self.close_contain(run),
            CloseStage::ContainHooks => self.close_contain_hooks(run, now_ns),
            CloseStage::ContainWorker => self.stop_deadline_worker(
                run,
                CloseStage::ContainReply,
                CloseStage::Report,
            ),
            CloseStage::ContainReply => {
                self.worker_running = false;
                run.stage = CloseStage::Report;
                CloseAction::Continue
            },
            CloseStage::Report => self.close_report(run, now_ns),
            CloseStage::Retry => self.close_retry(run, now_ns),
            CloseStage::Done => match self.saved_close_outcome() {
                Some(outcome) => CloseAction::Done(outcome),
                None => CloseAction::Continue,
            },
        }
    }
}

/// A close after its running phase panicked: that is the failure to report, and containment follows.
/// Containment itself is isolated: a panic there ends the part that it interrupts, and the failure
/// to report stands.
pub open spec fn panicked(run: RunModel) -> RunModel {
    match run.stage {
        CloseStage::Contain | CloseStage::ContainHooks => RunModel {
            stage: CloseStage::ContainWorker,
            ..run
        },
        CloseStage::ContainWorker | CloseStage::ContainReply => RunModel {
            stage: CloseStage::Report,
            ..run
        },
        CloseStage::Report | CloseStage::Retry | CloseStage::Done => run,
        _ => RunModel {
            stage: CloseStage::Contain,
            first: Some(failure_of(run.phase, "Runtime close phase panicked"@)),
            ..run
        },
    }
}

impl CloseRun {
    /// Takes a panic of the running phase: the failure to report, unless one is already contained.
    pub fn phase_panicked(&mut self, runtime: &Runtime)
        requires
            old(self).valid(runtime@),
        ensures
            final(self).valid(runtime@),
            final(self)@ == panicked(old(self)@),
    {
        match self.stage {
            CloseStage::Contain | CloseStage::ContainHooks => {
                self.stage = CloseStage::ContainWorker;
            },
            CloseStage::ContainWorker | CloseStage::ContainReply => {
                self.stage = CloseStage::Report;
            },
            CloseStage::Report | CloseStage::Retry | CloseStage::Done => {},
            _ => {
                self.first = Some(CloseFailure::new(self.phase, "Runtime close phase panicked"));
                self.stage = CloseStage::Contain;
            },
        }
    }
}

} // verus!
