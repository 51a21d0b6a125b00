//! Runtime scenarios: operations, settlement, tasks, deadlines and close, each driven step by step.

use easycon::cancellation::HookAdmission;
use easycon::clock::{Clock, SystemClock, VirtualClock};
use easycon::concurrency::TaskOwnerBinding;
use easycon::deadline::{
    CommitFollowUp, DeadlineNotice, DeadlinePoll, DeadlineRegistration, DeadlineResolution,
    DeadlineWaitResult,
};
use easycon::event::{
    Event, EventClass, EventDraft, EventGap, EventKind, Severity, SubscriptionOptions,
    SubscriptionRead,
};
use easycon::event_hub::EventSubscription;
use easycon::model::{
    EasyConError, ErrorCode, ErrorDomain, OperationId, ResourceId, RuntimeId, TaskId,
};
use easycon::operation::{
    CancellationReason, CleanupRun, OperationSnapshot, OperationState, OperationValue,
    SettledCleanup, SettlementEvidence, SettlementOwnerMode, TerminalCandidate, TransitionOutcome,
    WaitResult,
};
use easycon::runtime::close::{CloseAction, CloseEntry, CloseRejection, CloseReply, CloseRun};
use easycon::runtime::settlement::{ClaimOutcome, SettleStart};
use easycon::runtime::task::{JoinStep, SupervisedTask, TaskJoinError};
use easycon::runtime::{
    ClosePhase, CloseOutcome, CloseReport, FinishStart, HookWave, Operation,
    OperationSettlementOwner, Runtime, RuntimeCounts, RuntimeHandle, RuntimeState, RuntimeToken,
    SupervisedTaskOutcome,
};
use easycon::wait::{Look, WaitStep, WaitTimeout};
use std::time::Duration;

/// One Runtime with everything that stands around it.
struct Rig {
    runtime: Runtime,
    clock: VirtualClock,
    clock_broken: bool,
    /// Callbacks that ran, in order.
    ran: Vec<u64>,
    /// Callbacks that were dropped without running.
    dropped: Vec<u64>,
    /// Wakers that were woken, in order.
    woken: Vec<u64>,
    /// Resources whose callback still exists.
    live: Vec<ResourceId>,
    closed: Vec<ResourceId>,
    panicking: Vec<ResourceId>,
    /// Resources that keep their registration.
    kept: Vec<ResourceId>,
    cleanups: Vec<OperationId>,
    worker_outcome: SupervisedTaskOutcome,
}

fn rig_at(id: u64, now_ns: u64) -> Rig {
    let mut runtime = Runtime::new(RuntimeId(id));
    let worker = runtime.deadline_task();
    runtime.task_started(&worker, 1000);
    Rig {
        runtime,
        clock: VirtualClock::new(now_ns),
        clock_broken: false,
        ran: Vec::new(),
        dropped: Vec::new(),
        woken: Vec::new(),
        live: Vec::new(),
        closed: Vec::new(),
        panicking: Vec::new(),
        kept: Vec::new(),
        cleanups: Vec::new(),
        worker_outcome: SupervisedTaskOutcome::Completed,
    }
}

fn rig() -> Rig {
    rig_at(1, 0)
}

impl Rig {
    fn now(&self) -> Option<u64> {
        if self.clock_broken {
            None
        } else {
            Some(self.clock.now_ns())
        }
    }

    fn subscribe(&mut self) -> EventSubscription {
        self.subscribe_with(SubscriptionOptions::default())
    }

    fn subscribe_with(&mut self, options: SubscriptionOptions) -> EventSubscription {
        self.runtime.subscribe(options).expect("subscribe")
    }

    fn publish(&mut self, draft: EventDraft) -> Result<Event, EasyConError> {
        let now = self.clock.now_ns();
        self.runtime.publish(now, draft)
    }

    fn read(&mut self, events: &EventSubscription) -> SubscriptionRead {
        match events.read(self.runtime.events(), WaitTimeout::Poll, 0, false) {
            Look::Done(read) => read,
            Look::Sleep(_) => panic!("a poll does not sleep"),
        }
    }

    /// Every queued event, and whether the subscription is closed.
    fn events(&mut self, events: &EventSubscription) -> (Vec<Event>, bool) {
        let mut observed = Vec::new();
        loop {
            match self.read(events) {
                SubscriptionRead::Event(event) => observed.push(event),
                SubscriptionRead::Timeout => return (observed, false),
                SubscriptionRead::Closed => return (observed, true),
            }
        }
    }

    fn codes(&mut self, events: &EventSubscription) -> (Vec<&'static str>, bool) {
        let (events, closed) = self.events(events);
        (events.into_iter().map(|event| event.code).collect(), closed)
    }

    fn terminal_events(&mut self, events: &EventSubscription, operation: &Operation) -> usize {
        self.events(events)
            .0
            .into_iter()
            .filter(|event| {
                event.kind == EventKind::Terminal && event.operation_id == Some(operation.id())
            })
            .count()
    }

    fn show_deadline(&mut self, parent: &RuntimeToken, deadline_ns: Option<u64>) {
        if let Some(deadline_ns) = deadline_ns {
            self.runtime.admit_deadline(parent).expect("deadline admitted");
            self.clock.register_deadline(deadline_ns);
        }
    }

    fn operation(&mut self, deadline_ns: Option<u64>) -> Operation {
        let root = self.runtime.root_token();
        self.show_deadline(&root, deadline_ns);
        self.runtime.create_operation(deadline_ns).expect("operation")
    }

    fn owned(&mut self, mode: SettlementOwnerMode) -> (Operation, OperationSettlementOwner) {
        self.runtime.create_operation_with_settlement_owner(None, mode).expect("owned operation")
    }

    fn start(&mut self, operation: &Operation) -> TransitionOutcome {
        let now = self.now();
        operation.start(&mut self.runtime, now)
    }

    fn drain(&mut self, mut wave: HookWave) {
        self.dropped.extend(self.runtime.dropped_callbacks(&wave));
        loop {
            let now = self.now();
            match self.runtime.next_hook(&mut wave, now) {
                Some(callback) => self.ran.push(callback),
                None => break,
            }
        }
    }

    fn commit(&mut self, operation: &Operation, cleanup: SettledCleanup) -> TransitionOutcome {
        let now = self.now();
        operation.commit(&mut self.runtime, cleanup, false, now).expect("terminal transaction")
    }

    fn finish(&mut self, operation: &Operation, start: FinishStart) -> TransitionOutcome {
        match start {
            FinishStart::Rejected(outcome) => outcome,
            FinishStart::Observe => panic!("another transaction is under way"),
            FinishStart::Begun(wave) => {
                self.drain(wave);
                self.commit(operation, SettledCleanup::none())
            }
        }
    }

    fn succeed(&mut self, operation: &Operation, value: OperationValue) -> TransitionOutcome {
        let start = operation.succeed(&mut self.runtime, value);
        self.finish(operation, start)
    }

    fn fail(&mut self, operation: &Operation, error: EasyConError) -> TransitionOutcome {
        let start = operation.fail(&mut self.runtime, error);
        self.finish(operation, start)
    }

    fn finish_cancelled(&mut self, operation: &Operation) -> TransitionOutcome {
        let start = operation.finish_cancelled(&mut self.runtime);
        self.finish(operation, start)
    }

    fn request_cancel(
        &mut self,
        operation: &Operation,
        reason: CancellationReason,
    ) -> TransitionOutcome {
        let now = self.now();
        let (outcome, wave) = operation.request_cancel(&mut self.runtime, reason, now);
        self.drain(wave);
        outcome
    }

    fn cancel(&mut self, operation: &Operation) -> TransitionOutcome {
        let now = self.now();
        let (outcome, wave) = operation.cancel(&mut self.runtime, now);
        self.drain(wave);
        outcome
    }

    fn cancel_token(&mut self, token: &RuntimeToken) {
        let wave = self.runtime.cancel(token.token);
        self.drain(wave);
    }

    fn settle(
        &mut self,
        owner: OperationSettlementOwner,
        evidence: SettlementEvidence,
        candidate: TerminalCandidate,
        run: CleanupRun,
        observer_panicked: bool,
    ) -> TransitionOutcome {
        let operation = owner.operation;
        let now = self.now();
        match owner.settle(&mut self.runtime, evidence, candidate, now) {
            SettleStart::Rejected(outcome) => outcome,
            SettleStart::Observe => panic!("another transaction is under way"),
            SettleStart::Begun(wave) => {
                self.drain(wave);
                self.cleanups.push(operation.id());
                let cleanup = SettledCleanup::settle(Ok(()), run);
                operation
                    .commit(&mut self.runtime, cleanup, observer_panicked, now)
                    .expect("terminal transaction")
            }
        }
    }

    fn snapshot(&self, operation: &Operation) -> OperationSnapshot {
        operation.snapshot(&self.runtime)
    }

    fn state(&self, operation: &Operation) -> OperationState {
        self.snapshot(operation).state
    }

    fn waits(&self, operation: &Operation) -> bool {
        match operation.wait(&self.runtime, WaitTimeout::Poll, 0, false) {
            Look::Done(WaitResult::Timeout) => true,
            Look::Done(WaitResult::Completed(_)) => false,
            Look::Sleep(_) => panic!("a poll does not sleep"),
        }
    }

    /// A task whose thread runs.
    fn spawn(&mut self) -> SupervisedTask {
        let task = self.runtime.spawn_supervised().expect("task");
        self.runtime.task_started(&task, 2000);
        task
    }

    fn spawn_owner(&mut self, owner: &OperationSettlementOwner) -> SupervisedTask {
        let task = self.runtime.spawn_operation_owner(owner).expect("owner task");
        self.runtime.task_started(&task, 3000);
        task
    }

    fn complete(&mut self, task: &SupervisedTask) {
        self.runtime.task_completed(task, SupervisedTaskOutcome::Completed);
    }

    fn panic(&mut self, task: &SupervisedTask) {
        self.runtime.task_completed(task, SupervisedTaskOutcome::Panicked);
    }

    fn join(&mut self, task: &SupervisedTask) -> Result<SupervisedTaskOutcome, TaskJoinError> {
        match task.join(&mut self.runtime, None) {
            JoinStep::Rejected(error) => Err(error),
            JoinStep::Wait => panic!("the task has not ended"),
            JoinStep::JoinThread => Ok(task.finish_join(&mut self.runtime)),
            JoinStep::Done(outcome) => Ok(outcome),
        }
    }

    /// A resource that drops its registration when it is closed.
    fn resource(&mut self) -> ResourceId {
        let registration = self.runtime.register_resource().expect("resource");
        self.live.push(registration.id());
        registration.id()
    }

    fn unregister(&mut self, id: ResourceId) {
        let registration =
            easycon::runtime::ResourceRegistration { runtime: self.runtime.id(), id };
        registration.unregister(&mut self.runtime);
    }

    fn wake(&mut self, notices: Vec<DeadlineNotice>) {
        for notice in notices {
            if let Some(waker) = notice.waker {
                self.woken.push(waker);
            }
        }
    }

    /// Tells the clock which deadlines fired, then wakes their observers.
    fn deliver(&mut self, notices: Vec<DeadlineNotice>) {
        let now = self.clock.now_ns();
        for notice in &notices {
            if let Some(trace_id) = notice.trace_id {
                self.clock.record_dispatch(trace_id, now);
            }
        }
        self.wake(notices);
    }

    fn register_deadline(&mut self, target_ns: u64) -> Result<DeadlineRegistration, EasyConError> {
        let admission = self.runtime.reserve_deadline_admission(target_ns)?;
        let trace_id = self.clock.register_deadline(target_ns);
        let now = self.clock.now_ns();
        let (registration, follow_up) = self.runtime.register_deadline(admission, trace_id, now);
        if let CommitFollowUp::Fired(notices) = follow_up {
            self.deliver(notices);
        }
        Ok(registration)
    }

    fn resolution(&mut self, registration: &DeadlineRegistration) -> Option<DeadlineResolution> {
        registration
            .signal()
            .resolution(self.runtime.deadlines())
            .map(|outcome| outcome.resolution)
    }

    fn order(&mut self, registration: &DeadlineRegistration) -> u64 {
        registration.signal().resolution(self.runtime.deadlines()).expect("resolved").order
    }

    fn disarm(&mut self, registration: &DeadlineRegistration) -> DeadlineResolution {
        let report = registration.disarm(self.runtime.deadlines());
        self.wake(report.notice.into_iter().collect());
        report.resolution
    }

    fn poll(&mut self, registration: &DeadlineRegistration, waker: u64) -> Option<DeadlineResolution> {
        let (poll, _) = registration.signal().poll_resolution(self.runtime.deadlines(), waker);
        match poll {
            DeadlinePoll::Pending => None,
            DeadlinePoll::Ready(outcome) => Some(outcome.resolution),
        }
    }

    fn poll_deadlines(&mut self) -> usize {
        let now = self.clock.now_ns();
        let mut sweep = self.runtime.sweep_deadlines(now);
        while let Some(wave) = self.runtime.poll_deadlines(&mut sweep, Some(now)) {
            self.drain(wave);
        }
        sweep.applied
    }

    /// Moves the clock, and lets the deadline worker see it.
    fn advance_to(&mut self, target_ns: u64) {
        self.clock.advance_to(target_ns);
        let notices = self.runtime.fire_due_at(target_ns);
        self.deliver(notices);
        self.poll_deadlines();
    }

    fn act(&mut self, action: CloseAction) -> Result<CloseReply, CloseOutcome> {
        Ok(match action {
            CloseAction::Continue => CloseReply::Nothing,
            CloseAction::RunHook(callback) => {
                self.ran.push(callback);
                CloseReply::Nothing
            }
            CloseAction::NameLiveResources => CloseReply::LiveResources(self.live.clone()),
            CloseAction::CloseResource(id) => {
                self.closed.push(id);
                if self.panicking.contains(&id) {
                    CloseReply::ResourcePanicked
                } else {
                    if !self.kept.contains(&id) {
                        self.unregister(id);
                    }
                    CloseReply::ResourceClosed
                }
            }
            CloseAction::JoinTask(task) => match self.join(&task) {
                Ok(_) => CloseReply::TaskJoined,
                Err(TaskJoinError::SelfJoin) => CloseReply::TaskSelfJoin,
            },
            CloseAction::Settle(operation) => {
                self.cleanups.push(operation.id());
                CloseReply::Settled(SettledCleanup::none(), false)
            }
            CloseAction::Await(_) => panic!("another transaction is under way"),
            CloseAction::StopWorker(notices, task) => {
                self.wake(notices);
                match task {
                    Some(task) => {
                        let outcome = self.worker_outcome;
                        self.runtime.task_completed(&task, outcome);
                        CloseReply::WorkerJoined(self.join(&task).expect("worker join"))
                    }
                    None => CloseReply::Nothing,
                }
            }
            CloseAction::Done(outcome) => return Err(outcome),
        })
    }

    fn run_close(&mut self, run: &mut CloseRun) -> CloseOutcome {
        let mut reply = CloseReply::Nothing;
        loop {
            let now = self.now();
            let action = self.runtime.advance(run, reply, now);
            match self.act(action) {
                Ok(next) => reply = next,
                Err(outcome) => return outcome,
            }
        }
    }

    fn close(&mut self) -> Result<CloseOutcome, CloseRejection> {
        match self.runtime.close(None, 1)? {
            CloseEntry::Run(mut run) => Ok(self.run_close(&mut run)),
            CloseEntry::Wait => panic!("another thread closes the Runtime"),
            CloseEntry::Finished(outcome) => Ok(outcome),
        }
    }

    fn close_cleanly(&mut self) {
        match self.close() {
            Ok(CloseOutcome::Closed) => {}
            other => panic!("Runtime close: {other:?}"),
        }
    }

    fn close_failure(&mut self) -> CloseReport {
        match self.close() {
            Ok(CloseOutcome::Failed(report)) => report,
            other => panic!("close cannot succeed: {other:?}"),
        }
    }
}

fn no_counts() -> RuntimeCounts {
    RuntimeCounts { active_operations: 0, active_resources: 0, active_tasks: 0 }
}

fn internal(message: &str) -> EasyConError {
    EasyConError::new(ErrorDomain::Internal, ErrorCode::Internal, message)
}

fn primary_failure() -> EasyConError {
    EasyConError::new(ErrorDomain::Validation, ErrorCode::InvalidArgument, "primary failure")
}

fn cleanup_failure() -> EasyConError {
    EasyConError::new(ErrorDomain::Runtime, ErrorCode::Internal, "cleanup failure")
}

fn same_error(left: &Option<EasyConError>, right: &EasyConError) -> bool {
    match left {
        Some(error) => error.same_as(right),
        None => false,
    }
}

fn log(code: &'static str) -> EventDraft {
    EventDraft::ordinary(EventKind::Log, code, Severity::Debug)
}

// ---- operations ----

#[test]
fn operation_commits_terminal_state_and_event_once() {
    let mut rig = rig();
    let events = rig.subscribe();
    let operation = rig.operation(None);

    assert_eq!(rig.start(&operation), TransitionOutcome::Applied);
    assert_eq!(rig.succeed(&operation, OperationValue::U64(7)), TransitionOutcome::Applied);
    assert_eq!(rig.fail(&operation, internal("too late")), TransitionOutcome::AlreadyTerminal);

    let snapshot = rig.snapshot(&operation);
    assert_eq!(snapshot.state, OperationState::Succeeded);
    assert_eq!(snapshot.result, Some(OperationValue::U64(7)));
    assert!(snapshot.error.is_none());
    assert_eq!(rig.runtime.counts().active_operations, 0);

    let (codes, _) = rig.codes(&events);
    assert_eq!(codes, ["runtime.operation.running", "runtime.operation.succeeded"]);
}

#[test]
fn terminal_discards_hook_captures_outside_state_lock_for_success_and_failure() {
    for terminal in [OperationState::Succeeded, OperationState::Failed] {
        let mut rig = rig();
        let operation = rig.operation(None);
        assert_eq!(rig.start(&operation), TransitionOutcome::Applied);
        assert_eq!(operation.on_cancel(&mut rig.runtime, 40), HookAdmission::Registered);
        assert!(matches!(
            operation.wait(&rig.runtime, WaitTimeout::Infinite, 0, false),
            Look::Sleep(WaitStep::Block)
        ));

        let start = match terminal {
            OperationState::Succeeded => {
                operation.succeed(&mut rig.runtime, OperationValue::Unit)
            }
            _ => operation.fail(&mut rig.runtime, internal("scripted failure")),
        };
        let FinishStart::Begun(wave) = start else {
            panic!("terminal transaction began");
        };
        assert_eq!(rig.runtime.dropped_callbacks(&wave), [40]);
        assert_eq!(rig.state(&operation), OperationState::Running);
        rig.drain(wave);
        assert_eq!(rig.commit(&operation, SettledCleanup::none()), TransitionOutcome::Applied);

        let snapshot = rig.snapshot(&operation);
        assert_eq!(snapshot.state, terminal);
        if terminal == OperationState::Succeeded {
            assert_eq!(snapshot.result, Some(OperationValue::Unit));
            assert!(snapshot.error.is_none());
        } else {
            assert!(snapshot.result.is_none());
            assert_eq!(snapshot.error.expect("failure error").code(), ErrorCode::Internal);
        }
        assert!(rig.ran.is_empty());
        assert_eq!(rig.dropped, [40]);
        assert_eq!(rig.runtime.counts().active_operations, 0);
        assert!(!rig.waits(&operation));
        rig.close_cleanly();
    }
}

#[test]
fn terminal_wait_observes_the_operation_already_unregistered() {
    let mut rig = rig();
    let operation = rig.operation(None);
    rig.start(&operation);
    assert!(rig.waits(&operation));

    rig.succeed(&operation, OperationValue::Unit);

    assert!(!rig.waits(&operation));
    assert_eq!(rig.runtime.counts().active_operations, 0);
    rig.close_cleanly();
}

#[test]
fn wait_timeout_does_not_cancel_operation() {
    let mut rig = rig();
    let operation = rig.operation(None);
    rig.start(&operation);

    assert!(rig.waits(&operation));
    assert_eq!(rig.state(&operation), OperationState::Running);
    let token = operation.cancellation_token(&rig.runtime);
    assert!(!rig.runtime.is_cancelled(token.token));
}

#[test]
fn runtime_owned_parent_cancels_child_operation_state() {
    let mut rig = rig();
    let parent = rig.runtime.child_cancellation_token();
    let operation =
        rig.runtime.create_operation_with_parent(None, &parent).expect("child operation");
    rig.start(&operation);

    rig.cancel_token(&parent);

    assert_eq!(rig.state(&operation), OperationState::Cancelling);
    assert_eq!(
        rig.snapshot(&operation).cancellation_reason,
        Some(CancellationReason::ParentClose)
    );
    rig.finish_cancelled(&operation);
    rig.close_cleanly();
}

#[test]
fn operation_parent_must_belong_to_the_same_runtime() {
    let mut first = rig_at(1, 0);
    let mut second = rig_at(2, 0);
    let parent = first.runtime.child_cancellation_token();

    let Err(error) = second.runtime.create_operation_with_parent(None, &parent) else {
        panic!("cross-Runtime cancellation parent must be rejected");
    };

    assert_eq!(error.domain(), ErrorDomain::Validation);
    assert_eq!(error.code(), ErrorCode::InvalidArgument);
    first.close_cleanly();
    second.close_cleanly();
}

#[test]
fn terminal_operation_token_cannot_parent_new_work() {
    let mut rig = rig();
    let parent = rig.operation(None);
    let parent_token = parent.cancellation_token(&rig.runtime);
    rig.start(&parent);
    rig.succeed(&parent, OperationValue::Unit);

    let Err(error) = rig.runtime.create_operation_with_parent(None, &parent_token) else {
        panic!("terminal operation token must not parent new work");
    };

    assert_eq!(error.domain(), ErrorDomain::Validation);
    assert_eq!(error.code(), ErrorCode::InvalidArgument);
    rig.close_cleanly();
}

#[test]
fn parent_terminal_seals_child_admission_before_owner_cleanup() {
    let mut rig = rig();
    let parent = rig.operation(None);
    let parent_token = parent.cancellation_token(&rig.runtime);
    rig.start(&parent);
    let admitted_child = rig
        .runtime
        .create_operation_with_parent(None, &parent_token)
        .expect("child admitted before parent terminal sealing");
    rig.start(&admitted_child);

    let FinishStart::Begun(wave) =
        parent.succeed_after_cleanup(&mut rig.runtime, OperationValue::Unit)
    else {
        panic!("owner cleanup started");
    };
    rig.drain(wave);
    assert_eq!(rig.state(&admitted_child), OperationState::Cancelling);
    assert_eq!(
        rig.snapshot(&admitted_child).cancellation_reason,
        Some(CancellationReason::ParentClose)
    );
    let late_child = rig.runtime.create_operation_with_parent(None, &parent_token);
    assert_eq!(rig.commit(&parent, SettledCleanup::none()), TransitionOutcome::Applied);

    let error = match late_child {
        Err(error) => error,
        Ok(_) => panic!("parent terminal transaction admitted a new child"),
    };
    assert_eq!(error.code(), ErrorCode::InvalidArgument);
    rig.close_cleanly();
}

#[test]
fn terminal_child_hook_can_observe_parent_without_deadlock() {
    let mut rig = rig();
    let operation = rig.operation(None);
    rig.start(&operation);
    let token = operation.cancellation_token(&rig.runtime);
    let child = rig.runtime.child_token(token.token);
    rig.runtime.on_cancel(child.token, 7);

    let FinishStart::Begun(mut wave) = operation.succeed(&mut rig.runtime, OperationValue::Unit)
    else {
        panic!("terminal transaction began");
    };
    assert_eq!(rig.runtime.next_hook(&mut wave, Some(0)), Some(7));
    assert_eq!(rig.state(&operation), OperationState::Running);
    assert_eq!(rig.runtime.next_hook(&mut wave, Some(0)), None);
    assert_eq!(rig.commit(&operation, SettledCleanup::none()), TransitionOutcome::Applied);
    rig.close_cleanly();
}

#[test]
fn owner_cleanup_panic_commits_diagnostic_failure_and_notifies() {
    let mut rig = rig();
    let operation = rig.operation(None);
    rig.start(&operation);

    let FinishStart::Begun(wave) =
        operation.succeed_after_cleanup(&mut rig.runtime, OperationValue::Unit)
    else {
        panic!("terminal transaction began");
    };
    rig.drain(wave);
    let cleanup = SettledCleanup::settle(Ok(()), CleanupRun::Panicked);
    rig.commit(&operation, cleanup);

    let snapshot = rig.snapshot(&operation);
    assert_eq!(snapshot.state, OperationState::Failed);
    assert_eq!(snapshot.error.expect("cleanup failure").code(), ErrorCode::Internal);
    assert!(!rig.waits(&operation));
    assert_eq!(rig.runtime.counts().active_operations, 0);
    rig.close_cleanly();
}

#[test]
fn terminal_parent_cancels_an_already_running_child_operation() {
    let mut rig = rig();
    let parent = rig.operation(None);
    let parent_token = parent.cancellation_token(&rig.runtime);
    let child =
        rig.runtime.create_operation_with_parent(None, &parent_token).expect("child operation");
    rig.start(&parent);
    rig.start(&child);

    rig.succeed(&parent, OperationValue::Unit);

    assert_eq!(rig.state(&parent), OperationState::Succeeded);
    assert_eq!(rig.state(&child), OperationState::Cancelling);
    assert_eq!(rig.snapshot(&child).cancellation_reason, Some(CancellationReason::ParentClose));
    rig.finish_cancelled(&child);
    rig.close_cleanly();
}

#[test]
fn cancel_is_idempotent_before_and_after_terminal_commit() {
    let mut rig = rig();
    let operation = rig.operation(None);
    rig.start(&operation);

    assert_eq!(rig.cancel(&operation), TransitionOutcome::Applied);
    assert_eq!(rig.cancel(&operation), TransitionOutcome::Unchanged);
    assert_eq!(rig.finish_cancelled(&operation), TransitionOutcome::Applied);
    let terminal = rig.snapshot(&operation);
    assert_eq!(rig.cancel(&operation), TransitionOutcome::AlreadyTerminal);
    let later = rig.snapshot(&operation);
    assert_eq!(later.state, terminal.state);
    assert_eq!(later.result, terminal.result);
    assert!(same_error(&later.error, &terminal.error.expect("cancellation error")));
    assert_eq!(later.cancellation_reason, terminal.cancellation_reason);
}

#[test]
fn cancelling_is_a_state_event_until_cleanup_commits_terminal() {
    let mut rig = rig();
    let events = rig.subscribe();
    let operation = rig.operation(None);

    rig.start(&operation);
    rig.cancel(&operation);
    rig.finish_cancelled(&operation);

    let (observed, _) = rig.events(&events);
    assert!(observed.iter().any(|event| {
        event.code == "runtime.operation.cancelling" && event.kind == EventKind::State
    }));
    assert!(observed.iter().all(|event| {
        event.kind != EventKind::Terminal || event.code == "runtime.operation.cancelled"
    }));
}

#[test]
fn terminal_operation_drops_obsolete_cancellation_hooks() {
    let mut rig = rig();
    let operation = rig.operation(None);
    operation.on_cancel(&mut rig.runtime, 1);
    rig.start(&operation);
    rig.succeed(&operation, OperationValue::Unit);
    assert_eq!(operation.on_cancel(&mut rig.runtime, 2), HookAdmission::Ignored);

    rig.close_cleanly();

    assert!(rig.ran.is_empty());
    assert_eq!(rig.state(&operation), OperationState::Succeeded);
}

#[test]
fn deadline_requests_cancel_but_cleanup_owns_terminal_commit() {
    let mut rig = rig();
    let operation = rig.operation(Some(50));
    rig.start(&operation);
    operation.on_cancel(&mut rig.runtime, 5);

    rig.advance_to(50);
    assert_eq!(rig.ran, [5]);
    assert_eq!(rig.poll_deadlines(), 0);
    assert_eq!(rig.clock.deadline_trace()[0].target_ns, 50);
    assert_eq!(rig.state(&operation), OperationState::Cancelling);
    assert_eq!(rig.snapshot(&operation).cancellation_reason, Some(CancellationReason::Deadline));
    assert!(rig.waits(&operation));

    assert_eq!(rig.finish_cancelled(&operation), TransitionOutcome::Applied);
    let snapshot = rig.snapshot(&operation);
    assert_eq!(snapshot.state, OperationState::Cancelled);
    assert_eq!(
        snapshot.error.expect("deadline error").code(),
        ErrorCode::DeadlineExceeded
    );
}

#[test]
fn system_clock_deadline_needs_no_external_poll() {
    let mut rig = rig();
    let mut clock = SystemClock::new();
    let deadline = clock.now_ns().saturating_add(20_000_000);
    clock.register_deadline(deadline);
    let operation = rig.runtime.create_operation(Some(deadline)).expect("operation");
    rig.start(&operation);
    operation.on_cancel(&mut rig.runtime, 5);

    while rig.ran.is_empty() {
        let now = clock.now_ns();
        let mut sweep = rig.runtime.sweep_deadlines(now);
        while let Some(wave) = rig.runtime.poll_deadlines(&mut sweep, Some(now)) {
            rig.drain(wave);
        }
        assert!(now < deadline + 2_000_000_000, "the deadline is seen in time");
    }
    assert!(clock.now_ns() >= deadline);
    assert_eq!(rig.state(&operation), OperationState::Cancelling);
    assert_eq!(rig.finish_cancelled(&operation), TransitionOutcome::Applied);
}

#[test]
fn cancel_and_success_race_has_one_terminal_path() {
    for success_first in [true, false] {
        let mut rig = rig();
        let operation = rig.operation(None);
        rig.start(&operation);
        let outcomes = if success_first {
            let success = rig.succeed(&operation, OperationValue::Unit);
            [success, rig.cancel(&operation)]
        } else {
            let cancel = rig.cancel(&operation);
            [cancel, rig.succeed(&operation, OperationValue::Unit)]
        };
        if rig.state(&operation) == OperationState::Cancelling {
            assert_eq!(rig.finish_cancelled(&operation), TransitionOutcome::Applied);
        }
        assert!(rig.state(&operation).is_terminal());
        let applied =
            outcomes.iter().filter(|outcome| **outcome == TransitionOutcome::Applied).count();
        assert_eq!(applied, 1);
    }
}

#[test]
fn a_request_during_another_transaction_observes_it() {
    let mut rig = rig();
    let operation = rig.operation(None);
    rig.start(&operation);
    let FinishStart::Begun(wave) = operation.succeed(&mut rig.runtime, OperationValue::Unit)
    else {
        panic!("terminal transaction began");
    };
    assert!(matches!(
        operation.fail(&mut rig.runtime, internal("second")),
        FinishStart::Observe
    ));
    assert_eq!(rig.cancel(&operation), TransitionOutcome::Invalid);
    rig.drain(wave);
    assert_eq!(rig.commit(&operation, SettledCleanup::none()), TransitionOutcome::Applied);
    assert_eq!(rig.state(&operation), OperationState::Succeeded);
    assert!(operation.commit(&mut rig.runtime, SettledCleanup::none(), false, None).is_none());
}

#[test]
fn strict_cleanup_failure_ends_an_operation_that_never_started() {
    let mut rig = rig();
    let operation = rig.operation(None);
    let start = operation.fail_strict_cleanup(&mut rig.runtime, cleanup_failure());
    rig.finish(&operation, start);
    let snapshot = rig.snapshot(&operation);
    assert_eq!(snapshot.state, OperationState::Failed);
    assert!(same_error(&snapshot.error, &cleanup_failure()));
}

#[test]
fn success_needs_a_running_operation() {
    let mut rig = rig();
    let operation = rig.operation(None);
    assert_eq!(rig.succeed(&operation, OperationValue::Unit), TransitionOutcome::Invalid);
    assert_eq!(rig.start(&operation), TransitionOutcome::Applied);
    assert_eq!(rig.start(&operation), TransitionOutcome::Invalid);
    assert_eq!(rig.finish_cancelled(&operation), TransitionOutcome::Invalid);
    assert_eq!(
        rig.succeed(&operation, OperationValue::Bytes(vec![1, 2])),
        TransitionOutcome::Applied
    );
    assert_eq!(rig.snapshot(&operation).result, Some(OperationValue::Bytes(vec![1, 2])));
}

// ---- events ----

#[test]
fn queue_overflow_reports_gap_without_blocking_or_changing_state() {
    let mut rig = rig();
    let subscription =
        rig.subscribe_with(SubscriptionOptions { capacity: 2, ..SubscriptionOptions::default() });
    let operation = rig.operation(None);

    rig.publish(log("test.one")).expect("publish");
    rig.clock.advance_to(1);
    rig.publish(log("test.two")).expect("publish");
    rig.clock.advance_to(2);
    rig.publish(log("test.three")).expect("publish");

    let SubscriptionRead::Event(gap) = rig.read(&subscription) else {
        panic!("expected gap event");
    };
    assert_eq!(
        gap.kind,
        EventKind::Gap(EventGap { first_sequence: 1, last_sequence: 1, dropped_count: 1 })
    );
    assert_eq!(rig.state(&operation), OperationState::Pending);
    assert_eq!(subscription.queued_len(rig.runtime.events()), 2);
}

#[test]
fn capacity_one_preserves_latest_terminal_and_query_is_authoritative() {
    let mut rig = rig();
    let subscription =
        rig.subscribe_with(SubscriptionOptions { capacity: 1, ..SubscriptionOptions::default() });
    let operation = rig.operation(None);
    rig.publish(log("test.log")).expect("publish");
    rig.start(&operation);
    rig.succeed(&operation, OperationValue::Unit);

    assert!(matches!(
        rig.read(&subscription),
        SubscriptionRead::Event(Event { kind: EventKind::Gap(_), .. })
    ));
    assert!(matches!(
        rig.read(&subscription),
        SubscriptionRead::Event(Event {
            code: "runtime.operation.succeeded",
            kind: EventKind::Terminal,
            ..
        })
    ));
    assert_eq!(rig.state(&operation), OperationState::Succeeded);
}

#[test]
fn gap_remains_between_earlier_critical_and_later_event() {
    let mut rig = rig();
    let subscription =
        rig.subscribe_with(SubscriptionOptions { capacity: 2, ..SubscriptionOptions::default() });
    rig.publish(EventDraft::critical(EventKind::State, "test.critical", Severity::Info))
        .expect("publish");
    rig.publish(log("test.dropped")).expect("publish");
    rig.publish(log("test.latest")).expect("publish");

    let (events, _) = rig.events(&subscription);
    assert_eq!(events.len(), 3);
    assert_eq!(events[0].code, "test.critical");
    assert_eq!(events[1].code, "runtime.event_gap");
    assert_eq!(events[2].code, "test.latest");
    assert!(events.windows(2).all(|pair| pair[0].sequence < pair[1].sequence));
}

#[test]
fn concurrent_publishers_enqueue_in_global_sequence_order() {
    let mut rig = rig();
    let subscription =
        rig.subscribe_with(SubscriptionOptions { capacity: 512, ..SubscriptionOptions::default() });
    for _ in 0..8 {
        for _ in 0..32 {
            rig.publish(EventDraft::ordinary(EventKind::Data, "test.concurrent", Severity::Info))
                .expect("publish");
        }
    }

    let (events, _) = rig.events(&subscription);
    assert_eq!(events.len(), 256);
    assert!(events.windows(2).all(|pair| pair[0].sequence < pair[1].sequence));
}

#[test]
fn final_runtime_event_bypasses_subscription_severity_filter() {
    let mut rig = rig();
    let events = rig.subscribe_with(SubscriptionOptions {
        minimum_severity: Severity::Error,
        ..SubscriptionOptions::default()
    });

    rig.close_cleanly();

    assert!(matches!(
        rig.read(&events),
        SubscriptionRead::Event(Event { code: "runtime.closed", .. })
    ));
    assert!(matches!(rig.read(&events), SubscriptionRead::Closed));
}

#[test]
fn subscriptions_are_independent_and_filters_are_local() {
    let mut rig = rig();
    let with_logs = rig.subscribe();
    let without_logs = rig.subscribe_with(SubscriptionOptions {
        include_logs: false,
        ..SubscriptionOptions::default()
    });

    rig.publish(EventDraft::ordinary(EventKind::Log, "test.log", Severity::Info)).expect("publish");
    rig.publish(EventDraft::critical(EventKind::Warning, "test.warning", Severity::Warning))
        .expect("publish");

    assert_eq!(with_logs.queued_len(rig.runtime.events()), 2);
    assert_eq!(without_logs.queued_len(rig.runtime.events()), 1);
    assert!(matches!(
        rig.read(&without_logs),
        SubscriptionRead::Event(Event {
            code: "test.warning",
            class: EventClass::Critical,
            ..
        })
    ));
}

#[test]
fn new_subscription_prunes_dropped_registry_history() {
    let mut rig = rig();
    for _ in 0..128 {
        let temporary = rig.subscribe();
        temporary.release(rig.runtime.events());
    }

    let live = rig.subscribe();

    assert_eq!(rig.runtime.events().subscription_count(), 1);
    live.release(rig.runtime.events());
    rig.close_cleanly();
}

#[test]
fn dropping_observer_does_not_cancel_supervision() {
    let mut rig = rig();
    let _ = rig.operation(None);

    assert_eq!(rig.runtime.counts().active_operations, 1);
    rig.close_cleanly();
    assert_eq!(rig.runtime.counts().active_operations, 0);
}

#[test]
fn an_empty_queue_is_refused() {
    let mut rig = rig();
    let error = rig
        .runtime
        .subscribe(SubscriptionOptions { capacity: 0, ..SubscriptionOptions::default() })
        .expect_err("capacity");
    assert_eq!(error.domain(), ErrorDomain::Validation);
    assert_eq!(error.code(), ErrorCode::InvalidArgument);
}

// ---- close ----

#[test]
fn resource_failure_keeps_deadline_service_until_external_owner_join() {
    let mut rig = rig();
    let registration = rig.register_deadline(10).expect("deadline");
    let task = rig.spawn();
    let resource = rig.resource();
    rig.panicking.push(resource);

    let CloseEntry::Run(mut run) = rig.runtime.close(None, 1).expect("close") else {
        panic!("close runs");
    };
    let mut reply = CloseReply::Nothing;
    loop {
        let action = rig.runtime.advance(&mut run, reply, Some(0));
        if let CloseAction::JoinTask(joined) = &action {
            assert_eq!(joined.id(), task.id());
            break;
        }
        reply = rig.act(action).expect("close goes on");
    }
    rig.advance_to(10);
    assert_eq!(rig.resolution(&registration), Some(DeadlineResolution::Fired));
    rig.complete(&task);
    assert_eq!(rig.join(&task), Ok(SupervisedTaskOutcome::Completed));
    reply = CloseReply::TaskJoined;
    let report = loop {
        let now = rig.now();
        let action = rig.runtime.advance(&mut run, reply, now);
        match rig.act(action) {
            Ok(next) => reply = next,
            Err(CloseOutcome::Failed(report)) => break report,
            Err(CloseOutcome::Closed) => panic!("resource panic cannot report Closed"),
        }
    };
    assert_eq!(report.phase, ClosePhase::ResourceCleanup);
    assert_eq!(report.resource_id, Some(resource));
    assert_eq!(rig.join(&task), Ok(SupervisedTaskOutcome::Completed));
    rig.unregister(resource);
    assert_eq!(rig.runtime.counts().active_tasks, 0);
}

#[test]
fn close_waits_for_an_already_claimed_unbound_owner() {
    let mut rig = rig();
    let (operation, owner) = rig.owned(SettlementOwnerMode::Exclusive);
    assert_eq!(rig.start(&operation), TransitionOutcome::Applied);
    let SettleStart::Begun(wave) = owner.settle(
        &mut rig.runtime,
        SettlementEvidence::EffectAccepted,
        TerminalCandidate::Success(OperationValue::Unit),
        Some(0),
    ) else {
        panic!("settlement began");
    };
    rig.drain(wave);

    let CloseEntry::Run(mut run) = rig.runtime.close(None, 1).expect("close") else {
        panic!("close runs");
    };
    let mut reply = CloseReply::Nothing;
    loop {
        let action = rig.runtime.advance(&mut run, reply, Some(0));
        if let CloseAction::Await(awaited) = &action {
            assert_eq!(awaited.id(), operation.id());
            break;
        }
        reply = rig.act(action).expect("close goes on");
    }
    // The same wait comes again as long as the cleanup runs.
    assert!(matches!(
        rig.runtime.advance(&mut run, CloseReply::Nothing, Some(0)),
        CloseAction::Await(_)
    ));

    assert_eq!(rig.commit(&operation, SettledCleanup::none()), TransitionOutcome::Applied);
    assert!(matches!(rig.run_close(&mut run), CloseOutcome::Closed));
    assert_eq!(rig.state(&operation), OperationState::Succeeded);
}

#[test]
fn resource_close_panic_does_not_unwind_and_still_joins_owner() {
    let mut rig = rig();
    let operation = rig.operation(None);
    rig.start(&operation);
    let resource = rig.resource();
    rig.panicking.push(resource);
    operation.on_cancel(&mut rig.runtime, 9);
    let owner = rig.spawn();

    let CloseEntry::Run(mut run) = rig.runtime.close(None, 1).expect("close") else {
        panic!("close runs");
    };
    let mut reply = CloseReply::Nothing;
    loop {
        let action = rig.runtime.advance(&mut run, reply, Some(0));
        if let CloseAction::JoinTask(_) = &action {
            break;
        }
        reply = rig.act(action).expect("close goes on");
    }
    assert_eq!(rig.ran, [9]);
    assert_eq!(rig.state(&operation), OperationState::Cancelling);
    rig.finish_cancelled(&operation);
    rig.complete(&owner);
    assert_eq!(rig.join(&owner), Ok(SupervisedTaskOutcome::Completed));
    reply = CloseReply::TaskJoined;
    let outcome = loop {
        let action = rig.runtime.advance(&mut run, reply, Some(0));
        match rig.act(action) {
            Ok(next) => reply = next,
            Err(outcome) => break outcome,
        }
    };
    rig.unregister(resource);

    assert!(matches!(outcome, CloseOutcome::Failed(_)));
    assert_eq!(rig.state(&operation), OperationState::Cancelled);
}

#[test]
fn close_requests_operation_cancel_before_resource_callbacks() {
    let mut rig = rig();
    let operation = rig.operation(None);
    rig.start(&operation);
    rig.resource();

    let CloseEntry::Run(mut run) = rig.runtime.close(None, 1).expect("close") else {
        panic!("close runs");
    };
    let mut saw_cancelling = false;
    let mut reply = CloseReply::Nothing;
    loop {
        let action = rig.runtime.advance(&mut run, reply, Some(0));
        if let CloseAction::CloseResource(_) = &action {
            saw_cancelling = rig.state(&operation) == OperationState::Cancelling;
        }
        match rig.act(action) {
            Ok(next) => reply = next,
            Err(_) => break,
        }
    }

    assert!(saw_cancelling);
    assert_eq!(rig.state(&operation), OperationState::Cancelled);
}

#[test]
fn resource_callback_reentrant_close_is_rejected_without_self_wait() {
    let mut rig = rig();
    rig.resource();

    let CloseEntry::Run(mut run) = rig.runtime.close(None, 1).expect("close") else {
        panic!("close runs");
    };
    let mut rejected = None;
    let mut reply = CloseReply::Nothing;
    let outcome = loop {
        let action = rig.runtime.advance(&mut run, reply, Some(0));
        if let CloseAction::CloseResource(_) = &action {
            rejected = rig.runtime.close(None, 1).err();
        }
        match rig.act(action) {
            Ok(next) => reply = next,
            Err(outcome) => break outcome,
        }
    };
    assert_eq!(rejected, Some(CloseRejection::CloseOwner));
    assert!(matches!(outcome, CloseOutcome::Closed));
    assert_eq!(rig.runtime.state(), RuntimeState::Closed);
}

#[test]
fn close_uses_runtime_id_order_for_resources_and_terminal_operations() {
    let mut rig = rig();
    let events = rig.subscribe();
    let resources: Vec<ResourceId> = (0..3).map(|_| rig.resource()).collect();
    let mut operation_ids = Vec::new();
    for _ in 0..3 {
        let operation = rig.operation(None);
        rig.start(&operation);
        operation_ids.push(operation.id());
    }

    rig.close_cleanly();

    assert_eq!(rig.closed, resources);
    let terminal_ids: Vec<OperationId> = rig
        .events(&events)
        .0
        .into_iter()
        .filter(|event| event.code == "runtime.operation.cancelled")
        .filter_map(|event| event.operation_id)
        .collect();
    assert_eq!(terminal_ids, operation_ids);
}

#[test]
fn close_prunes_a_registration_whose_weak_resource_already_expired() {
    let mut rig = rig();
    rig.resource();
    rig.live.clear();

    rig.close_cleanly();

    assert!(rig.closed.is_empty());
    assert_eq!(rig.runtime.counts().active_resources, 0);
}

#[test]
fn close_is_idempotent_drains_events_and_zeroes_registries() {
    let mut rig = rig();
    let events = rig.subscribe();
    let resource = rig.resource();
    let task = rig.spawn();
    rig.complete(&task);
    let operation = rig.operation(None);
    rig.start(&operation);

    rig.close_cleanly();
    rig.close_cleanly();

    assert_eq!(rig.closed, [resource]);
    assert_eq!(rig.runtime.state(), RuntimeState::Closed);
    assert_eq!(rig.state(&operation), OperationState::Cancelled);
    assert_eq!(rig.runtime.counts(), no_counts());

    let (codes, closed) = rig.codes(&events);
    assert!(closed, "closed queue must not return timeout");
    assert!(codes.contains(&"runtime.closed"));
    assert_eq!(codes.last(), Some(&"runtime.closed"));
    let error = rig
        .publish(EventDraft::ordinary(EventKind::Data, "test.after_close", Severity::Info))
        .expect_err("event production is closed");
    assert_eq!(error.code(), ErrorCode::RuntimeClosing);
}

#[test]
fn a_saved_outcome_is_told_to_whoever_asks_again() {
    let mut rig = rig();
    let resource = rig.resource();
    rig.panicking.push(resource);
    assert!(rig.runtime.handles_left());
    let Ok(CloseEntry::Run(mut run)) = rig.runtime.close(None, 1) else {
        panic!("the first caller runs the close");
    };
    assert!(matches!(rig.runtime.close(None, 2), Ok(CloseEntry::Wait)));
    assert!(matches!(rig.runtime.close(None, 1), Err(CloseRejection::CloseOwner)));
    let CloseOutcome::Failed(first) = rig.run_close(&mut run) else {
        panic!("a panicking resource fails the close");
    };
    let CloseOutcome::Failed(again) = rig.run_close(&mut run) else {
        panic!("the saved outcome is told again");
    };
    let later = rig.close_failure();

    assert_eq!(rig.closed, [resource], "a resource is closed once");
    for report in [again, later] {
        assert_eq!(report.phase, first.phase);
        assert_eq!(report.diagnostic, first.diagnostic);
        assert_eq!(report.resource_id, Some(resource));
        assert_eq!(report.counts, first.counts);
    }
}

#[test]
fn final_owning_drop_only_rejects_admission_and_requests_cancellation() {
    let mut rig = rig();
    let supervised = rig.runtime.clone_for_supervision();
    assert!(!supervised.counts_as_owner);
    let cancellation = rig.runtime.child_cancellation_token();
    let events = rig.subscribe();
    let operation = rig.operation(None);
    rig.start(&operation);
    let resource = rig.resource();

    let wave = RuntimeHandle { counts_as_owner: true }.release(&mut rig.runtime);
    rig.drain(wave);

    assert_eq!(rig.runtime.state(), RuntimeState::Closing);
    assert!(rig.runtime.is_cancelled(cancellation.token));
    assert_eq!(rig.state(&operation), OperationState::Cancelling);
    assert!(rig.waits(&operation));
    assert!(rig.closed.is_empty());
    assert!(!rig.runtime.events().is_closed());
    let error = match rig.runtime.create_operation(None) {
        Err(error) => error,
        Ok(_) => panic!("Drop must reject new admission synchronously"),
    };
    assert_eq!(error.code(), ErrorCode::RuntimeClosing);
    let (codes, closed) = rig.codes(&events);
    assert!(!closed, "Drop must not close event production");
    assert!(!codes.contains(&"runtime.closed"));
    assert!(!codes.contains(&"runtime.close_failed"));

    rig.close_cleanly();
    assert_eq!(rig.closed, [resource]);
    assert_eq!(rig.state(&operation), OperationState::Cancelled);
}

#[test]
fn resource_panic_saves_one_report_after_owner_terminal_and_join() {
    let mut rig = rig();
    let events = rig.subscribe();
    let operation = rig.operation(None);
    rig.start(&operation);
    operation.on_cancel(&mut rig.runtime, 3);
    let owner = rig.spawn();
    let panicking = rig.resource();
    rig.panicking.push(panicking);
    let healthy = rig.resource();

    let CloseEntry::Run(mut run) = rig.runtime.close(None, 1).expect("first caller") else {
        panic!("close runs");
    };
    assert!(matches!(rig.runtime.close(None, 2), Ok(CloseEntry::Wait)));
    let mut reply = CloseReply::Nothing;
    loop {
        let action = rig.runtime.advance(&mut run, reply, Some(0));
        if let CloseAction::JoinTask(_) = &action {
            break;
        }
        reply = rig.act(action).expect("close goes on");
    }
    assert_eq!(rig.state(&operation), OperationState::Cancelling);
    rig.finish_cancelled(&operation);
    rig.complete(&owner);
    assert_eq!(rig.join(&owner), Ok(SupervisedTaskOutcome::Completed));
    reply = CloseReply::TaskJoined;
    let report = loop {
        let action = rig.runtime.advance(&mut run, reply, Some(0));
        match rig.act(action) {
            Ok(next) => reply = next,
            Err(CloseOutcome::Failed(report)) => break report,
            Err(CloseOutcome::Closed) => panic!("resource panic cannot report Closed"),
        }
    };
    let second = match rig.runtime.close(None, 2) {
        Ok(CloseEntry::Finished(CloseOutcome::Failed(report))) => report,
        _ => panic!("the second caller sees the saved report"),
    };
    assert_eq!(report.phase, second.phase);
    assert_eq!(report.phase, ClosePhase::ResourceCleanup);
    assert_eq!(report.resource_id, Some(panicking));
    assert_eq!(report.task_id, None);
    assert_eq!(report.diagnostic, "ManagedResource::close panicked");
    assert_eq!(second.diagnostic, report.diagnostic);
    assert_eq!(
        report.counts,
        RuntimeCounts { active_operations: 0, active_resources: 1, active_tasks: 0 }
    );
    assert_eq!(rig.runtime.state(), RuntimeState::CloseFailed);
    assert_eq!(rig.closed, [panicking, healthy]);
    assert_eq!(rig.state(&operation), OperationState::Cancelled);
    assert!(!rig.waits(&operation));
    let later = rig.close_failure();
    assert_eq!(later.diagnostic, report.diagnostic);
    assert_eq!(later.counts, report.counts);
    assert_eq!(rig.closed, [panicking, healthy]);

    let (observed, closed) = rig.events(&events);
    assert!(closed, "failed close queue must be closed");
    assert!(observed.iter().any(|event| {
        event.code == "runtime.resource.close_panicked"
            && event.resource_id == Some(panicking)
            && event.severity == Severity::Error
    }));
    assert_eq!(observed.last().map(|event| event.code), Some("runtime.close_failed"));
    assert!(!observed.iter().any(|event| event.code == "runtime.closed"));
    assert_eq!(rig.join(&owner), Ok(SupervisedTaskOutcome::Completed));
    rig.unregister(panicking);
    assert_eq!(rig.runtime.counts(), no_counts());

    // The warning event of the panicked resource fails as well.
    let mut rig = rig_at(2, 0);
    let events = rig.subscribe();
    let panicking = rig.resource();
    rig.panicking.push(panicking);
    let healthy = rig.resource();
    let CloseEntry::Run(mut run) = rig.runtime.close(None, 1).expect("close") else {
        panic!("close runs");
    };
    let mut reply = CloseReply::Nothing;
    let report = loop {
        let now = match reply {
            CloseReply::ResourcePanicked => None,
            _ => Some(0),
        };
        let action = rig.runtime.advance(&mut run, reply, now);
        match rig.act(action) {
            Ok(next) => reply = next,
            Err(CloseOutcome::Failed(report)) => break report,
            Err(CloseOutcome::Closed) => {
                panic!("resource and warning event failure cannot report Closed")
            }
        }
    };
    assert_eq!(report.phase, ClosePhase::ResourceCleanup);
    assert_eq!(report.resource_id, Some(panicking));
    assert_eq!(report.diagnostic, "ManagedResource::close panicked");
    assert_eq!(
        report.counts,
        RuntimeCounts { active_operations: 0, active_resources: 1, active_tasks: 0 }
    );
    assert_eq!(rig.closed, [panicking, healthy]);
    let (codes, closed) = rig.codes(&events);
    assert!(closed, "failed close queue must be closed");
    assert_eq!(codes.last(), Some(&"runtime.close_failed"));
    assert!(!codes.contains(&"runtime.resource.close_panicked"));
    assert!(!codes.contains(&"runtime.closed"));
    rig.unregister(panicking);
    assert_eq!(rig.runtime.counts().active_resources, 0);
}

#[test]
fn deadline_task_panic_is_a_saved_close_failure() {
    let mut rig = rig();
    let events = rig.subscribe();
    rig.worker_outcome = SupervisedTaskOutcome::Panicked;
    let deadline_id = rig.runtime.deadline_task().id();

    let report = rig.close_failure();

    assert_eq!(report.phase, ClosePhase::InternalTaskJoin);
    assert_eq!(report.task_id, Some(deadline_id));
    assert_eq!(report.resource_id, None);
    assert_eq!(rig.runtime.state(), RuntimeState::CloseFailed);
    let (codes, closed) = rig.codes(&events);
    assert!(closed, "failed close queue must be closed");
    assert_eq!(codes.last(), Some(&"runtime.close_failed"));
    assert!(!codes.contains(&"runtime.closed"));
}

#[test]
fn explicit_close_can_take_ownership_after_final_owning_drop() {
    let mut rig = rig();
    let cancellation = rig.runtime.child_cancellation_token();

    let wave = RuntimeHandle { counts_as_owner: true }.release(&mut rig.runtime);
    rig.drain(wave);

    assert_eq!(rig.runtime.state(), RuntimeState::Closing);
    assert!(rig.runtime.is_cancelled(cancellation.token));
    let error = match rig.runtime.create_operation(None) {
        Err(error) => error,
        Ok(_) => panic!("final handle drop must reject admission synchronously"),
    };
    assert_eq!(error.code(), ErrorCode::RuntimeClosing);
    rig.close_cleanly();
    assert_eq!(rig.runtime.state(), RuntimeState::Closed);
}

#[test]
fn final_owning_drop_inside_a_supervised_task_is_nonblocking_and_nonfinalizing() {
    let mut rig = rig();
    let events = rig.subscribe();
    let owner = RuntimeHandle { counts_as_owner: true };
    let worker = owner.duplicate(&mut rig.runtime);
    let task = rig.spawn();

    let wave = owner.release(&mut rig.runtime);
    rig.drain(wave);
    assert_eq!(rig.runtime.state(), RuntimeState::Active);
    let wave = worker.release(&mut rig.runtime);
    rig.drain(wave);
    assert_eq!(rig.runtime.state(), RuntimeState::Closing);
    rig.complete(&task);

    assert_eq!(rig.join(&task), Ok(SupervisedTaskOutcome::Completed));
    let (codes, closed) = rig.codes(&events);
    assert!(!closed, "Drop must not finalize event production");
    assert!(!codes.contains(&"runtime.closed"));
    assert!(!codes.contains(&"runtime.close_failed"));
}

#[test]
fn dropping_a_nonfinal_runtime_handle_keeps_the_runtime_active() {
    let mut rig = rig();
    let other = RuntimeHandle { counts_as_owner: true }.duplicate(&mut rig.runtime);

    let wave = other.release(&mut rig.runtime);
    rig.drain(wave);

    assert_eq!(rig.runtime.state(), RuntimeState::Active);
    rig.close_cleanly();
}

#[test]
fn runtime_closed_follows_task_join_and_registry_convergence() {
    let mut rig = rig();
    let events = rig.subscribe();
    let task = rig.spawn();
    rig.complete(&task);

    let CloseEntry::Run(mut run) = rig.runtime.close(None, 1).expect("close") else {
        panic!("close runs");
    };
    let mut codes = Vec::new();
    let mut counts_before_final = None;
    let mut reply = CloseReply::Nothing;
    let outcome = loop {
        let before = rig.runtime.counts();
        let action = rig.runtime.advance(&mut run, reply, Some(0));
        let joined = matches!(&action, CloseAction::JoinTask(_));
        let (observed, closed) = rig.codes(&events);
        if observed.contains(&"runtime.closed") {
            counts_before_final = Some(before);
        } else {
            assert!(!closed, "RuntimeClosed was committed before task join returned");
        }
        codes.extend(observed);
        if joined {
            assert!(!codes.contains(&"runtime.closed"));
        }
        match rig.act(action) {
            Ok(next) => reply = next,
            Err(outcome) => break outcome,
        }
    };
    assert!(matches!(outcome, CloseOutcome::Closed));
    assert_eq!(counts_before_final, Some(no_counts()));
    assert_eq!(rig.join(&task), Ok(SupervisedTaskOutcome::Completed));
    assert_eq!(rig.runtime.counts(), no_counts());
    assert_eq!(codes.last(), Some(&"runtime.closed"));
    let error = rig
        .publish(EventDraft::ordinary(
            EventKind::Data,
            "test.after_runtime_closed",
            Severity::Info,
        ))
        .expect_err("post-close event production must be rejected");
    assert_eq!(error.code(), ErrorCode::RuntimeClosing);
}

#[test]
fn closing_event_failure_still_joins_external_owner_and_settles_operation() {
    let mut rig = rig_at(1, 41);
    let operation = rig.operation(None);
    assert_eq!(rig.start(&operation), TransitionOutcome::Applied);
    operation.on_cancel(&mut rig.runtime, 3);
    let owner = rig.spawn();
    let resource = rig.resource();

    rig.clock_broken = true;
    let CloseEntry::Run(mut run) = rig.runtime.close(None, 1).expect("close") else {
        panic!("close runs");
    };
    let mut reply = CloseReply::Nothing;
    loop {
        let action = rig.runtime.advance(&mut run, reply, None);
        if let CloseAction::JoinTask(task) = &action {
            assert_eq!(task.id(), owner.id());
            break;
        }
        reply = rig.act(action).expect("close goes on");
    }
    assert_eq!(rig.ran, [3]);
    assert_eq!(rig.closed, [resource]);

    let start = operation.finish_cancelled(&mut rig.runtime);
    assert_eq!(rig.finish(&operation, start), TransitionOutcome::Applied);
    rig.complete(&owner);
    assert_eq!(rig.join(&owner), Ok(SupervisedTaskOutcome::Completed));
    reply = CloseReply::TaskJoined;
    let report = loop {
        let action = rig.runtime.advance(&mut run, reply, None);
        match rig.act(action) {
            Ok(next) => reply = next,
            Err(CloseOutcome::Failed(report)) => break report,
            Err(CloseOutcome::Closed) => panic!("closing event failure cannot report Closed"),
        }
    };
    assert_eq!(report.phase, ClosePhase::Start);
    assert_eq!(rig.state(&operation), OperationState::Cancelled);
    assert_eq!(rig.runtime.counts(), no_counts());
}

#[test]
fn final_event_failure_never_exposes_runtime_closed() {
    // The clock fails for the final event alone, without and with an earlier failure.
    for with_resource in [false, true] {
        let mut rig = rig();
        let first = rig.subscribe();
        let second = rig.subscribe();
        if with_resource {
            let resource = rig.resource();
            rig.panicking.push(resource);
        }
        let CloseEntry::Run(mut run) = rig.runtime.close(None, 1).expect("close") else {
            panic!("close runs");
        };
        let mut reply = CloseReply::Nothing;
        let report = loop {
            let now = match run.stage {
                easycon::runtime::close::CloseStage::FinalEvent => None,
                easycon::runtime::close::CloseStage::Report => None,
                _ => Some(0),
            };
            let action = rig.runtime.advance(&mut run, reply, now);
            match rig.act(action) {
                Ok(next) => reply = next,
                Err(CloseOutcome::Failed(report)) => break report,
                Err(CloseOutcome::Closed) => {
                    panic!("injected final event failure cannot report Closed")
                }
            }
        };
        let expected = if with_resource {
            ClosePhase::ResourceCleanup
        } else {
            ClosePhase::FinalEvent
        };
        assert_eq!(report.phase, expected);
        let diagnostic = if with_resource {
            "ManagedResource::close panicked"
        } else {
            "Runtime close phase panicked"
        };
        assert_eq!(report.diagnostic, diagnostic);
        assert_eq!(rig.runtime.state(), RuntimeState::CloseFailed);
        for subscription in [&first, &second] {
            let (codes, closed) = rig.codes(subscription);
            assert!(closed, "failed-close subscription must be closed");
            assert_eq!(codes.last(), Some(&"runtime.close_failed"));
            assert!(!codes.contains(&"runtime.closed"));
        }
    }

    let mut rig = rig_at(1, 41);
    let first = rig.subscribe();
    let second = rig.subscribe();
    rig.publish(EventDraft::critical(
        EventKind::State,
        "test.before_clock_failure",
        Severity::Info,
    ))
    .expect("event before clock failure");
    rig.clock_broken = true;

    let report = rig.close_failure();

    assert_eq!(report.phase, ClosePhase::Start);
    assert_eq!(rig.runtime.state(), RuntimeState::CloseFailed);
    for subscription in [&first, &second] {
        let (observed, closed) = rig.events(subscription);
        assert!(closed, "failed-close subscription must be closed");
        assert_eq!(observed.last().map(|event| event.code), Some("runtime.close_failed"));
        assert_eq!(observed.last().map(|event| event.timestamp_ns), Some(41));
        assert_eq!(
            observed.iter().filter(|event| event.code == "runtime.close_failed").count(),
            1
        );
        assert!(!observed.iter().any(|event| event.code == "runtime.closed"));
    }
}

#[test]
fn concurrent_close_callers_observe_the_same_closed_state() {
    let mut rig = rig();
    let operation = rig.operation(None);
    rig.start(&operation);

    let CloseEntry::Run(mut run) = rig.runtime.close(None, 1).expect("left close") else {
        panic!("close runs");
    };
    assert!(matches!(rig.runtime.close(None, 2), Ok(CloseEntry::Wait)));
    assert!(matches!(rig.run_close(&mut run), CloseOutcome::Closed));
    assert!(matches!(
        rig.runtime.close(None, 2),
        Ok(CloseEntry::Finished(CloseOutcome::Closed))
    ));

    assert_eq!(rig.runtime.state(), RuntimeState::Closed);
    assert_eq!(rig.state(&operation), OperationState::Cancelled);
    assert_eq!(rig.runtime.counts().active_tasks, 0);
}

#[test]
fn close_waits_for_a_supervised_task_to_finish_cleanup() {
    let mut rig = rig();
    let cancellation = rig.runtime.child_cancellation_token();
    let operation = rig.operation(None);
    rig.start(&operation);
    operation.on_cancel(&mut rig.runtime, 1);
    rig.runtime.on_cancel(cancellation.token, 2);
    let task = rig.spawn();

    let CloseEntry::Run(mut run) = rig.runtime.close(None, 1).expect("close") else {
        panic!("close runs");
    };
    let mut reply = CloseReply::Nothing;
    loop {
        let action = rig.runtime.advance(&mut run, reply, Some(0));
        if let CloseAction::JoinTask(_) = &action {
            break;
        }
        reply = rig.act(action).expect("close goes on");
    }
    assert!(rig.ran.contains(&1) && rig.ran.contains(&2));
    assert_eq!(rig.state(&operation), OperationState::Cancelling);
    assert_eq!(task.join(&mut rig.runtime, None), JoinStep::Wait);
    assert_eq!(rig.state(&operation), OperationState::Cancelling);
    assert!(matches!(
        operation.wait(&rig.runtime, WaitTimeout::For(Duration::from_millis(50)), 50_000_000, true),
        Look::Done(WaitResult::Timeout)
    ));
    rig.finish_cancelled(&operation);
    rig.complete(&task);
    assert_eq!(rig.join(&task), Ok(SupervisedTaskOutcome::Completed));
    reply = CloseReply::TaskJoined;
    let outcome = loop {
        let action = rig.runtime.advance(&mut run, reply, Some(0));
        match rig.act(action) {
            Ok(next) => reply = next,
            Err(outcome) => break outcome,
        }
    };
    assert!(matches!(outcome, CloseOutcome::Closed));
    assert_eq!(rig.runtime.state(), RuntimeState::Closed);
    assert_eq!(rig.runtime.counts().active_tasks, 0);
    assert_eq!(rig.state(&operation), OperationState::Cancelled);
}

#[test]
fn a_failing_resource_is_reported_with_its_diagnostic() {
    let mut rig = rig();
    let resource = rig.resource();
    let CloseEntry::Run(mut run) = rig.runtime.close(None, 1).expect("close") else {
        panic!("close runs");
    };
    let mut reply = CloseReply::Nothing;
    let report = loop {
        let action = rig.runtime.advance(&mut run, reply, Some(0));
        if let CloseAction::CloseResource(id) = &action {
            assert_eq!(*id, resource);
            reply = CloseReply::ResourceFailed("scripted failure".to_string());
            continue;
        }
        match rig.act(action) {
            Ok(next) => reply = next,
            Err(CloseOutcome::Failed(report)) => break report,
            Err(CloseOutcome::Closed) => panic!("a failed resource cannot report Closed"),
        }
    };
    assert_eq!(report.phase, ClosePhase::ResourceCleanup);
    assert_eq!(report.resource_id, Some(resource));
    assert_eq!(rig.runtime.state(), RuntimeState::CloseFailed);
}

#[test]
fn a_resource_that_keeps_its_registration_fails_convergence() {
    let mut rig = rig();
    let resource = rig.resource();
    rig.kept.push(resource);

    let report = rig.close_failure();

    assert_eq!(report.phase, ClosePhase::RegistryConvergence);
    assert_eq!(report.counts.active_resources, 1);
    assert!(rig.runtime.saved_close_outcome().is_some());
}

// ---- tasks ----

#[test]
fn supervised_task_panic_is_caught_joined_and_saved_with_its_id() {
    let mut rig = rig();
    let task = rig.spawn();
    rig.panic(&task);
    assert_eq!(rig.join(&task), Ok(SupervisedTaskOutcome::Panicked));

    let report = rig.close_failure();

    assert_eq!(report.phase, ClosePhase::TaskJoin);
    assert_eq!(report.task_id, Some(task.id()));
    assert_eq!(report.resource_id, None);
    assert_eq!(rig.runtime.state(), RuntimeState::CloseFailed);
    assert_eq!(rig.join(&task), Ok(SupervisedTaskOutcome::Panicked));
    let later = rig.close_failure();
    assert_eq!(later.phase, report.phase);
    assert_eq!(later.task_id, report.task_id);
    assert_eq!(later.diagnostic, report.diagnostic);
}

#[test]
fn concurrent_external_join_cannot_hide_a_task_panic_from_close() {
    let mut rig = rig();
    let task = rig.spawn();
    rig.panic(&task);
    assert_eq!(task.join(&mut rig.runtime, None), JoinStep::JoinThread);
    assert_eq!(task.join(&mut rig.runtime, None), JoinStep::Wait);
    assert_eq!(task.finish_join(&mut rig.runtime), SupervisedTaskOutcome::Panicked);

    let report = rig.close_failure();

    assert_eq!(rig.join(&task), Ok(SupervisedTaskOutcome::Panicked));
    assert_eq!(report.phase, ClosePhase::TaskJoin);
    assert_eq!(report.task_id, Some(task.id()));
}

#[test]
fn task_close_without_manual_binding_does_not_self_wait() {
    let mut rig = rig();
    let task = rig.spawn();
    let binding = TaskOwnerBinding::new(rig.runtime.id(), task.id());

    assert_eq!(
        rig.runtime.close(Some(binding), 2000).err(),
        Some(CloseRejection::SupervisedTask)
    );
    assert_eq!(rig.runtime.state(), RuntimeState::Active);
    // The deadline worker is a task as well.
    assert_eq!(rig.runtime.counts().active_tasks, 2);
    rig.complete(&task);
    assert_eq!(rig.runtime.counts().active_tasks, 2);

    rig.close_cleanly();
    assert_eq!(rig.join(&task), Ok(SupervisedTaskOutcome::Completed));
    assert_eq!(rig.runtime.state(), RuntimeState::Closed);
    assert_eq!(rig.runtime.counts().active_tasks, 0);
}

#[test]
fn task_exit_destructor_close_is_rejected_before_state_change() {
    let mut rig = rig();
    let task = rig.spawn();
    rig.complete(&task);
    let binding = TaskOwnerBinding::new(rig.runtime.id(), task.id());

    assert_eq!(
        rig.runtime.close(Some(binding), 2000).err(),
        Some(CloseRejection::SupervisedTask)
    );
    assert_eq!(rig.runtime.state(), RuntimeState::Active);
    assert_eq!(rig.join(&task), Ok(SupervisedTaskOutcome::Completed));
    rig.close_cleanly();
}

#[test]
fn task_exit_destructor_cannot_join_its_own_thread() {
    let mut rig = rig();
    let task = rig.spawn();
    rig.complete(&task);
    let binding = TaskOwnerBinding::new(rig.runtime.id(), task.id());

    assert_eq!(
        task.join(&mut rig.runtime, Some(binding)),
        JoinStep::Rejected(TaskJoinError::SelfJoin)
    );
    assert_eq!(rig.runtime.state(), RuntimeState::Active);
    assert_eq!(rig.join(&task), Ok(SupervisedTaskOutcome::Completed));
    rig.close_cleanly();
}

#[test]
fn supervised_task_cannot_join_its_own_runtime_owned_handle() {
    let mut rig = rig();
    let task = rig.spawn();
    let binding = TaskOwnerBinding::new(rig.runtime.id(), task.id());

    assert_eq!(
        task.join(&mut rig.runtime, Some(binding)),
        JoinStep::Rejected(TaskJoinError::SelfJoin)
    );
    rig.complete(&task);
    assert_eq!(rig.join(&task), Ok(SupervisedTaskOutcome::Completed));
    rig.close_cleanly();
}

#[test]
fn a_task_of_another_runtime_may_close_and_join() {
    let mut rig = rig();
    let task = rig.spawn();
    rig.complete(&task);
    let other = TaskOwnerBinding::new(RuntimeId(9), TaskId(task.id().0));
    assert_eq!(task.join(&mut rig.runtime, Some(other)), JoinStep::JoinThread);
    task.finish_join(&mut rig.runtime);
    assert!(rig.runtime.close(Some(other), 7).is_ok());
}

#[test]
fn a_task_that_cannot_be_spawned_leaves_no_trace() {
    let mut rig = rig();
    let task = rig.runtime.spawn_supervised().expect("task");
    assert_eq!(rig.runtime.counts().active_tasks, 2);
    let error = rig.runtime.task_spawn_failed(&task, "no threads left");
    assert_eq!(error.domain(), ErrorDomain::Runtime);
    assert_eq!(error.code(), ErrorCode::Internal);
    assert!(error.message().contains("no threads left"));
    assert_eq!(rig.runtime.counts().active_tasks, 1);
    assert_eq!(rig.runtime.first_task_failure(), None);
    rig.close_cleanly();
}

// ---- settlement ----

#[derive(Clone, Copy, Debug)]
enum CleanupCase {
    Success,
    Failure,
    Panic,
}

#[derive(Clone, Copy, Debug)]
enum PrimaryCase {
    Success,
    Failure,
    Cancel(CancellationReason),
}

#[test]
fn legitimate_owner_runs_five_terminal_paths_with_cleanup_projection() {
    let primaries = [
        PrimaryCase::Success,
        PrimaryCase::Failure,
        PrimaryCase::Cancel(CancellationReason::Requested),
        PrimaryCase::Cancel(CancellationReason::Deadline),
        PrimaryCase::Cancel(CancellationReason::ParentClose),
    ];
    let cleanups = [CleanupCase::Success, CleanupCase::Failure, CleanupCase::Panic];

    for primary in primaries {
        for cleanup in cleanups {
            let mut rig = rig();
            let events = rig.subscribe();
            let (operation, owner) = rig.owned(SettlementOwnerMode::Exclusive);
            assert_eq!(rig.start(&operation), TransitionOutcome::Applied);

            let (evidence, candidate) = match primary {
                PrimaryCase::Success => (
                    SettlementEvidence::EffectAccepted,
                    TerminalCandidate::Success(OperationValue::Unit),
                ),
                PrimaryCase::Failure => (
                    SettlementEvidence::ExecutionFailed,
                    TerminalCandidate::Failure(primary_failure()),
                ),
                PrimaryCase::Cancel(reason) => {
                    assert_eq!(
                        rig.request_cancel(&operation, reason),
                        TransitionOutcome::Applied
                    );
                    (SettlementEvidence::NotDelivered, TerminalCandidate::Cancellation)
                }
            };
            let task = rig.spawn_owner(&owner);
            let SettleStart::Begun(wave) =
                owner.settle(&mut rig.runtime, evidence, candidate, Some(0))
            else {
                panic!("settlement began");
            };
            rig.drain(wave);
            assert!(!rig.state(&operation).is_terminal(), "{primary:?}/{cleanup:?}");
            let run = match cleanup {
                CleanupCase::Success => CleanupRun::Returned(Ok(())),
                CleanupCase::Failure => CleanupRun::Returned(Err(cleanup_failure())),
                CleanupCase::Panic => CleanupRun::Panicked,
            };
            let settled = SettledCleanup::settle(Ok(()), run);
            let observed_cleanup = settled.outcome();
            let outcome = rig.commit(&operation, settled);
            rig.complete(&task);
            assert_eq!(rig.join(&task), Ok(SupervisedTaskOutcome::Completed));

            match cleanup {
                CleanupCase::Success => {
                    assert_eq!(outcome, TransitionOutcome::Applied);
                    assert!(observed_cleanup.is_ok());
                }
                CleanupCase::Failure => {
                    assert_eq!(outcome, TransitionOutcome::CleanupFailed);
                    assert!(observed_cleanup.expect_err("failure").same_as(&cleanup_failure()));
                }
                CleanupCase::Panic => {
                    assert_eq!(outcome, TransitionOutcome::CleanupFailed);
                    let error = observed_cleanup.expect_err("panic becomes cleanup failure");
                    assert_eq!(error.domain(), ErrorDomain::Internal);
                    assert_eq!(error.code(), ErrorCode::Internal);
                }
            }

            let snapshot = rig.snapshot(&operation);
            match primary {
                PrimaryCase::Success if matches!(cleanup, CleanupCase::Success) => {
                    assert_eq!(snapshot.state, OperationState::Succeeded);
                    assert_eq!(snapshot.result, Some(OperationValue::Unit));
                }
                PrimaryCase::Success => {
                    assert_eq!(snapshot.state, OperationState::Failed);
                    assert!(snapshot.error.is_some());
                }
                PrimaryCase::Failure => {
                    assert_eq!(snapshot.state, OperationState::Failed);
                    assert!(same_error(&snapshot.error, &primary_failure()));
                }
                PrimaryCase::Cancel(reason) => {
                    assert_eq!(snapshot.state, OperationState::Cancelled);
                    assert_eq!(snapshot.cancellation_reason, Some(reason));
                    let expected = if reason == CancellationReason::Deadline {
                        ErrorCode::DeadlineExceeded
                    } else {
                        ErrorCode::Cancelled
                    };
                    assert_eq!(snapshot.error.expect("cancellation error").code(), expected);
                }
            }
            assert_eq!(rig.terminal_events(&events, &operation), 1, "{primary:?}/{cleanup:?}");
            assert_eq!(rig.runtime.counts().active_operations, 0);
            rig.close_cleanly();
        }
    }
}

#[test]
fn settlement_observer_panic_preserves_the_earlier_cleanup_error() {
    let mut rig = rig();
    let expected = cleanup_failure();
    let (operation, owner) = rig.owned(SettlementOwnerMode::Exclusive);
    assert_eq!(rig.start(&operation), TransitionOutcome::Applied);

    let outcome = rig.settle(
        owner,
        SettlementEvidence::EffectAccepted,
        TerminalCandidate::Success(OperationValue::Unit),
        CleanupRun::Returned(Err(cleanup_failure())),
        true,
    );
    assert_eq!(outcome, TransitionOutcome::CleanupFailed);
    let snapshot = rig.snapshot(&operation);
    assert_eq!(snapshot.state, OperationState::Failed);
    assert!(same_error(&snapshot.error, &expected));
    rig.close_cleanly();
}

#[test]
fn cancellation_intent_before_accepted_evidence_does_not_override_success() {
    let mut rig = rig();
    let events = rig.subscribe();
    let (operation, owner) = rig.owned(SettlementOwnerMode::Exclusive);
    assert_eq!(rig.start(&operation), TransitionOutcome::Applied);
    operation.on_cancel(&mut rig.runtime, 4);
    assert_eq!(
        rig.request_cancel(&operation, CancellationReason::Requested),
        TransitionOutcome::Applied
    );
    assert_eq!(rig.ran, [4]);
    assert_eq!(rig.state(&operation), OperationState::Running);
    assert!(rig.waits(&operation));

    let task = rig.spawn_owner(&owner);
    let SettleStart::Begun(wave) = owner.settle(
        &mut rig.runtime,
        SettlementEvidence::EffectAccepted,
        TerminalCandidate::Success(OperationValue::Unit),
        Some(0),
    ) else {
        panic!("settlement began");
    };
    rig.drain(wave);
    assert_eq!(rig.state(&operation), OperationState::Running);
    assert!(rig.waits(&operation));
    assert_eq!(rig.terminal_events(&events, &operation), 0);
    assert_eq!(
        rig.request_cancel(&operation, CancellationReason::Deadline),
        TransitionOutcome::Unchanged
    );
    assert_eq!(
        rig.snapshot(&operation).cancellation_reason,
        Some(CancellationReason::Requested)
    );

    assert_eq!(rig.commit(&operation, SettledCleanup::none()), TransitionOutcome::Applied);
    rig.complete(&task);
    assert_eq!(rig.join(&task), Ok(SupervisedTaskOutcome::Completed));
    let snapshot = rig.snapshot(&operation);
    assert_eq!(snapshot.state, OperationState::Succeeded);
    assert_eq!(snapshot.result, Some(OperationValue::Unit));
    assert_eq!(snapshot.cancellation_reason, Some(CancellationReason::Requested));
    assert_eq!(rig.terminal_events(&events, &operation), 1);
    rig.close_cleanly();
}

#[test]
fn observation_handle_cannot_claim_an_owned_operation() {
    let mut rig = rig();
    let (operation, owner) = rig.owned(SettlementOwnerMode::Exclusive);
    assert_eq!(rig.start(&operation), TransitionOutcome::Applied);
    assert_eq!(rig.succeed(&operation, OperationValue::Unit), TransitionOutcome::Invalid);
    assert_eq!(rig.state(&operation), OperationState::Running);
    let outcome = rig.settle(
        owner,
        SettlementEvidence::EffectAccepted,
        TerminalCandidate::Success(OperationValue::Unit),
        CleanupRun::Returned(Ok(())),
        false,
    );
    assert_eq!(outcome, TransitionOutcome::Applied);
    rig.close_cleanly();
}

#[test]
fn owned_success_cannot_skip_the_running_state() {
    let mut rig = rig();
    let (operation, owner) = rig.owned(SettlementOwnerMode::Exclusive);

    let outcome = rig.settle(
        owner,
        SettlementEvidence::EffectAccepted,
        TerminalCandidate::Success(OperationValue::Unit),
        CleanupRun::Returned(Ok(())),
        false,
    );
    assert_eq!(outcome, TransitionOutcome::Invalid);
    assert_eq!(rig.state(&operation), OperationState::Pending);
    assert_eq!(rig.close_failure().phase, ClosePhase::OperationFinalization);
    assert_eq!(rig.state(&operation), OperationState::Pending);
}

#[test]
fn close_handoffs_only_preheld_owner_with_shared_settlement_evidence() {
    let mut rig = rig();
    let (operation, owner) = rig.owned(SettlementOwnerMode::Transferable);
    assert_eq!(rig.start(&operation), TransitionOutcome::Applied);
    let task = rig.spawn_owner(&owner);
    assert_eq!(
        rig.request_cancel(&operation, CancellationReason::Requested),
        TransitionOutcome::Applied
    );
    assert_eq!(
        owner.record_for_handoff(
            &mut rig.runtime,
            SettlementEvidence::NotDelivered,
            TerminalCandidate::Cancellation,
        ),
        TransitionOutcome::Applied
    );
    rig.complete(&task);
    assert_eq!(rig.join(&task), Ok(SupervisedTaskOutcome::Completed));
    assert_eq!(rig.state(&operation), OperationState::Running);
    assert!(rig.waits(&operation));

    rig.close_cleanly();
    assert_eq!(rig.state(&operation), OperationState::Cancelled);
    assert_eq!(
        rig.snapshot(&operation).cancellation_reason,
        Some(CancellationReason::Requested)
    );
    assert_eq!(rig.cleanups, [operation.id()]);
}

#[test]
fn task_panic_after_shared_evidence_still_settles_before_close_failure() {
    let mut rig = rig();
    let events = rig.subscribe();
    let (operation, owner) = rig.owned(SettlementOwnerMode::Transferable);
    assert_eq!(rig.start(&operation), TransitionOutcome::Applied);
    let task = rig.spawn_owner(&owner);
    assert_eq!(
        rig.request_cancel(&operation, CancellationReason::Requested),
        TransitionOutcome::Applied
    );
    assert_eq!(
        owner.record_for_handoff(
            &mut rig.runtime,
            SettlementEvidence::NotDelivered,
            TerminalCandidate::Cancellation,
        ),
        TransitionOutcome::Applied
    );
    rig.panic(&task);

    let report = rig.close_failure();

    assert_eq!(report.phase, ClosePhase::TaskJoin);
    assert_eq!(report.task_id, Some(task.id()));
    assert_eq!(rig.join(&task), Ok(SupervisedTaskOutcome::Panicked));
    assert_eq!(rig.state(&operation), OperationState::Cancelled);
    assert_eq!(
        rig.snapshot(&operation).cancellation_reason,
        Some(CancellationReason::Requested)
    );
    assert_eq!(rig.cleanups, [operation.id()]);
    assert_eq!(rig.terminal_events(&events, &operation), 1);
    assert_eq!(rig.runtime.counts().active_operations, 0);
    assert_eq!(rig.runtime.counts().active_tasks, 0);
}

#[test]
fn task_panic_without_transfer_or_evidence_preserves_nonterminal_operation() {
    let mut rig = rig();
    let events = rig.subscribe();
    let (operation, owner) = rig.owned(SettlementOwnerMode::Exclusive);
    assert_eq!(rig.start(&operation), TransitionOutcome::Applied);
    let task = rig.spawn_owner(&owner);
    rig.panic(&task);

    let report = rig.close_failure();

    assert_eq!(report.phase, ClosePhase::TaskJoin);
    assert_eq!(report.task_id, Some(task.id()));
    assert_eq!(rig.join(&task), Ok(SupervisedTaskOutcome::Panicked));
    assert_eq!(rig.state(&operation), OperationState::Running);
    assert_eq!(
        rig.snapshot(&operation).cancellation_reason,
        Some(CancellationReason::ParentClose)
    );
    assert!(rig.waits(&operation));
    assert!(rig.cleanups.is_empty());
    assert_eq!(rig.terminal_events(&events, &operation), 0);
    assert_eq!(rig.runtime.counts().active_operations, 1);
    assert_eq!(rig.runtime.counts().active_tasks, 0);
}

#[test]
fn close_failed_preserves_nonterminal_operation_when_owner_and_evidence_are_lost() {
    let mut rig = rig();
    let events = rig.subscribe();
    let (operation, owner) = rig.owned(SettlementOwnerMode::Exclusive);
    assert_eq!(rig.start(&operation), TransitionOutcome::Applied);
    let task = rig.spawn_owner(&owner);
    rig.complete(&task);
    assert_eq!(rig.join(&task), Ok(SupervisedTaskOutcome::Completed));

    let report = rig.close_failure();

    assert_eq!(report.phase, ClosePhase::OperationFinalization);
    assert_eq!(rig.state(&operation), OperationState::Running);
    assert_eq!(
        rig.snapshot(&operation).cancellation_reason,
        Some(CancellationReason::ParentClose)
    );
    assert!(rig.waits(&operation));
    assert!(rig.cleanups.is_empty());
    assert_eq!(rig.runtime.counts().active_operations, 1);
    assert_eq!(rig.terminal_events(&events, &operation), 0);
    assert_eq!(
        report.counts,
        RuntimeCounts { active_operations: 1, active_resources: 0, active_tasks: 0 }
    );
}

#[test]
fn an_abandoned_claim_is_finished_with_the_same_winner() {
    let mut rig = rig();
    let (operation, owner) = rig.owned(SettlementOwnerMode::Exclusive);
    rig.start(&operation);
    let ClaimOutcome::Claimed(claim) = owner.claim(
        &mut rig.runtime,
        SettlementEvidence::EffectAccepted,
        TerminalCandidate::Success(OperationValue::U64(3)),
        Some(0),
    ) else {
        panic!("claimed");
    };
    claim.abandon(&mut rig.runtime);
    assert!(matches!(
        owner.claim(
            &mut rig.runtime,
            SettlementEvidence::ExecutionFailed,
            TerminalCandidate::Failure(primary_failure()),
            Some(0),
        ),
        ClaimOutcome::Observe | ClaimOutcome::Rejected
    ));
    let ClaimOutcome::Claimed(claim) = owner.claim(
        &mut rig.runtime,
        SettlementEvidence::EffectAccepted,
        TerminalCandidate::Success(OperationValue::U64(3)),
        Some(0),
    ) else {
        panic!("the same claim is taken up again");
    };
    let FinishStart::Begun(wave) = claim.finish(&mut rig.runtime) else {
        panic!("settlement began");
    };
    rig.drain(wave);
    assert_eq!(rig.commit(&operation, SettledCleanup::none()), TransitionOutcome::Applied);
    assert_eq!(rig.snapshot(&operation).result, Some(OperationValue::U64(3)));
}

#[test]
fn evidence_fixes_which_winner_is_admissible() {
    let mut rig = rig();
    let (operation, owner) = rig.owned(SettlementOwnerMode::Exclusive);
    rig.start(&operation);
    assert!(owner.belongs_to(&rig.runtime));
    assert!(matches!(
        owner.claim(
            &mut rig.runtime,
            SettlementEvidence::NotDelivered,
            TerminalCandidate::Success(OperationValue::Unit),
            Some(0),
        ),
        ClaimOutcome::Rejected
    ));
    assert!(matches!(
        owner.claim(
            &mut rig.runtime,
            SettlementEvidence::NotDelivered,
            TerminalCandidate::Cancellation,
            Some(0),
        ),
        ClaimOutcome::Rejected
    ));
    assert_eq!(rig.state(&operation), OperationState::Running);
}

// ---- deadlines ----

#[test]
fn already_due_registration_is_fired_before_return_without_registry_changes() {
    let mut rig = rig_at(1, 10);
    let before = rig.runtime.counts();

    let registration = rig.register_deadline(10).expect("deadline");

    assert_eq!(rig.resolution(&registration), Some(DeadlineResolution::Fired));
    assert_eq!(rig.runtime.counts(), before);
    rig.close_cleanly();
}

#[test]
fn virtual_clock_fires_only_after_advance_and_orders_same_target_by_id() {
    let mut rig = rig();
    let later = rig.register_deadline(30).expect("later");
    let first = rig.register_deadline(20).expect("first");
    let second = rig.register_deadline(20).expect("second");

    assert_eq!(rig.resolution(&first), None);
    assert_eq!(rig.resolution(&second), None);
    rig.advance_to(19);
    assert_eq!(rig.resolution(&first), None);

    rig.advance_to(30);
    for registration in [&first, &second, &later] {
        let signal = registration.signal();
        let look = signal.wait(
            rig.runtime.deadlines(),
            WaitTimeout::For(Duration::from_secs(5)),
            0,
            false,
        );
        assert!(matches!(
            look,
            Look::Done(DeadlineWaitResult::Resolved(outcome))
                if outcome.resolution == DeadlineResolution::Fired
        ));
    }
    assert!(first.id() < second.id());
    assert!(rig.order(&first) < rig.order(&second));
    assert!(rig.order(&second) < rig.order(&later));
    rig.close_cleanly();
}

#[test]
fn system_clock_registration_fires_without_consumer_progress() {
    let mut rig = rig();
    let mut clock = SystemClock::new();
    let target = clock.now_ns().saturating_add(20_000_000);
    let admission = rig.runtime.reserve_deadline_admission(target).expect("deadline");
    let trace_id = clock.register_deadline(target);
    let (registration, _) = rig.runtime.register_deadline(admission, trace_id, clock.now_ns());

    while rig.resolution(&registration).is_none() {
        let now = clock.now_ns();
        let notices = rig.runtime.fire_due_at(now);
        for notice in notices {
            clock.record_dispatch(notice.trace_id.expect("trace"), now);
        }
        assert!(now < target + 2_000_000_000, "the deadline fires in time");
    }
    assert_eq!(rig.resolution(&registration), Some(DeadlineResolution::Fired));
    rig.close_cleanly();
}

#[test]
fn disarm_drop_close_and_stale_entries_resolve_once() {
    let mut rig = rig();

    let disarmed = rig.register_deadline(10).expect("disarmed");
    assert_eq!(rig.disarm(&disarmed), DeadlineResolution::Disarmed);
    assert_eq!(rig.disarm(&disarmed), DeadlineResolution::Disarmed);

    let dropped = rig.register_deadline(10).expect("dropped");
    rig.disarm(&dropped);

    let fired = rig.register_deadline(10).expect("fired");
    assert!(dropped.id() < fired.id());
    rig.advance_to(10);

    assert_eq!(rig.resolution(&disarmed), Some(DeadlineResolution::Disarmed));
    assert_eq!(rig.resolution(&dropped), Some(DeadlineResolution::Disarmed));
    assert_eq!(rig.resolution(&fired), Some(DeadlineResolution::Fired));

    let closed = rig.register_deadline(20).expect("closed");
    rig.close_cleanly();
    assert_eq!(rig.resolution(&closed), Some(DeadlineResolution::RuntimeClosed));

    rig.advance_to(20);
    assert_eq!(rig.resolution(&disarmed), Some(DeadlineResolution::Disarmed));
    assert_eq!(rig.resolution(&dropped), Some(DeadlineResolution::Disarmed));
    assert_eq!(rig.resolution(&fired), Some(DeadlineResolution::Fired));
    assert_eq!(rig.resolution(&closed), Some(DeadlineResolution::RuntimeClosed));

    let error = match rig.register_deadline(30) {
        Err(error) => error,
        Ok(_) => panic!("closed Runtime accepted a deadline"),
    };
    assert_eq!(error.code(), ErrorCode::RuntimeClosing);
}

#[test]
fn fire_disarm_and_close_race_resolves_the_production_registration_once() {
    for first in 0..3 {
        let mut rig = rig();
        let registration = rig.register_deadline(10).expect("deadline");
        let expected = match first {
            0 => {
                rig.advance_to(10);
                DeadlineResolution::Fired
            }
            1 => {
                rig.disarm(&registration);
                DeadlineResolution::Disarmed
            }
            _ => {
                rig.close_cleanly();
                DeadlineResolution::RuntimeClosed
            }
        };
        if first != 0 {
            rig.advance_to(10);
        }
        let disarm_resolution = rig.disarm(&registration);
        rig.close_cleanly();
        assert_eq!(disarm_resolution, expected);
        assert_eq!(rig.resolution(&registration), Some(expected));
    }
}

#[test]
fn deadline_signal_poll_resolution_contract_is_nonblocking() {
    let mut rig = rig();
    let registration = rig.register_deadline(10).expect("deadline");

    assert_eq!(rig.poll(&registration, 1), None);
    assert_eq!(rig.disarm(&registration), DeadlineResolution::Disarmed);
    assert_eq!(rig.poll(&registration, 1), Some(DeadlineResolution::Disarmed));
    rig.close_cleanly();
}

#[test]
fn already_resolved_deadline_signal_polls_ready_without_retaining_a_waker() {
    let mut rig = rig_at(1, 10);
    let registration = rig.register_deadline(10).expect("already-due deadline");

    assert_eq!(rig.poll(&registration, 1), Some(DeadlineResolution::Fired));
    assert!(rig.woken.is_empty());
    assert_eq!(rig.poll(&registration, 1), Some(DeadlineResolution::Fired));
    assert!(rig.woken.is_empty());
    rig.close_cleanly();
    assert!(rig.woken.is_empty());
}

#[test]
fn deadline_signal_poll_resolution_deduplicates_and_replaces_wakers() {
    let mut rig = rig();

    let same = rig.register_deadline(10).expect("same waker deadline");
    assert_eq!(rig.poll(&same, 1), None);
    assert_eq!(rig.poll(&same, 1), None);
    assert!(rig.woken.is_empty());
    assert_eq!(rig.disarm(&same), DeadlineResolution::Disarmed);
    assert_eq!(rig.woken, [1]);
    assert_eq!(rig.poll(&same, 1), Some(DeadlineResolution::Disarmed));
    assert_eq!(rig.woken, [1]);

    let replacement = rig.register_deadline(20).expect("replacement deadline");
    assert_eq!(rig.poll(&replacement, 2), None);
    assert_eq!(rig.poll(&replacement, 3), None);
    assert_eq!(rig.disarm(&replacement), DeadlineResolution::Disarmed);
    assert_eq!(rig.woken, [1, 3]);
    assert_eq!(rig.poll(&replacement, 3), Some(DeadlineResolution::Disarmed));
    rig.close_cleanly();
}

#[test]
fn deadline_signal_terminal_paths_wake_one_async_observer_once() {
    let mut rig = rig();
    let disarmed = rig.register_deadline(10).expect("disarmed deadline");
    assert_eq!(rig.poll(&disarmed, 1), None);
    let dropped = rig.register_deadline(20).expect("dropped deadline");
    assert_eq!(rig.poll(&dropped, 2), None);
    let closed = rig.register_deadline(30).expect("closed deadline");
    assert_eq!(rig.poll(&closed, 3), None);

    assert_eq!(rig.disarm(&disarmed), DeadlineResolution::Disarmed);
    rig.disarm(&dropped);
    assert_eq!(rig.woken, [1, 2]);
    rig.close_cleanly();
    assert_eq!(rig.woken, [1, 2, 3]);

    assert_eq!(rig.poll(&disarmed, 1), Some(DeadlineResolution::Disarmed));
    assert_eq!(rig.poll(&dropped, 2), Some(DeadlineResolution::Disarmed));
    assert_eq!(rig.poll(&closed, 3), Some(DeadlineResolution::RuntimeClosed));
    assert_eq!(rig.woken, [1, 2, 3]);
}

#[test]
fn deadline_signal_blocking_wait_and_async_observer_can_coexist() {
    let mut rig = rig();
    let registration = rig.register_deadline(10).expect("deadline");
    let signal = registration.signal();
    let wait = WaitTimeout::For(Duration::from_secs(5));
    assert!(matches!(
        signal.wait(rig.runtime.deadlines(), wait, 0, false),
        Look::Sleep(WaitStep::BlockFor(5_000_000_000))
    ));
    assert_eq!(rig.poll(&registration, 8), None);
    rig.advance_to(10);
    assert_eq!(rig.woken, [8]);
    assert!(matches!(
        signal.wait(rig.runtime.deadlines(), wait, 1_000, false),
        Look::Done(DeadlineWaitResult::Resolved(outcome))
            if outcome.resolution == DeadlineResolution::Fired
    ));
    rig.close_cleanly();
}

#[test]
fn same_target_waker_batch_commits_before_reentrant_runtime_calls() {
    let mut rig = rig();
    let low = rig.register_deadline(10).expect("low deadline");
    let high = rig.register_deadline(10).expect("high deadline");
    assert_eq!(rig.poll(&low, 1), None);
    assert_eq!(rig.poll(&high, 2), None);

    rig.clock.advance_to(10);
    let notices = rig.runtime.fire_due_at(10);
    // Both are resolved before either waker runs.
    assert_eq!(rig.resolution(&low), Some(DeadlineResolution::Fired));
    assert_eq!(rig.resolution(&high), Some(DeadlineResolution::Fired));
    rig.deliver(notices);
    assert_eq!(rig.woken, [1, 2]);
    assert!(low.id() < high.id());
    assert!(rig.order(&low) < rig.order(&high));
    rig.close_cleanly();
}

#[test]
fn panicking_waker_notifies_same_batch_before_worker_close_failure() {
    let mut rig = rig();
    let first = rig.register_deadline(10).expect("first deadline");
    let second = rig.register_deadline(10).expect("second deadline");
    assert_eq!(rig.poll(&first, 1), None);
    assert_eq!(rig.poll(&second, 2), None);
    rig.advance_to(10);
    assert_eq!(rig.woken, [1, 2]);
    assert_eq!(rig.resolution(&first), Some(DeadlineResolution::Fired));
    assert_eq!(rig.resolution(&second), Some(DeadlineResolution::Fired));
    rig.worker_outcome = SupervisedTaskOutcome::Panicked;
    assert_eq!(rig.close_failure().phase, ClosePhase::InternalTaskJoin);
}

#[test]
fn runtime_closed_waker_panic_notifies_batch_before_close_failure() {
    let mut rig = rig();
    let first = rig.register_deadline(10).expect("first deadline");
    let second = rig.register_deadline(10).expect("second deadline");
    assert_eq!(rig.poll(&first, 1), None);
    assert_eq!(rig.poll(&second, 2), None);

    let CloseEntry::Run(mut run) = rig.runtime.close(None, 1).expect("close") else {
        panic!("close runs");
    };
    let mut panicked = false;
    let mut reply = CloseReply::Nothing;
    let outcome = loop {
        let action = rig.runtime.advance(&mut run, reply, Some(0));
        if let CloseAction::StopWorker(notices, _) = &action {
            if !panicked && !notices.is_empty() {
                panicked = true;
                // The observers are all woken; one of them panics before the worker is stopped.
                let CloseAction::StopWorker(notices, _) = action else { unreachable!() };
                rig.wake(notices);
                run.phase_panicked(&rig.runtime);
                reply = CloseReply::Nothing;
                continue;
            }
        }
        match rig.act(action) {
            Ok(next) => reply = next,
            Err(outcome) => break outcome,
        }
    };
    let CloseOutcome::Failed(report) = outcome else {
        panic!("a panicking observer fails the close");
    };
    assert_eq!(report.phase, ClosePhase::InternalTaskJoin);
    assert_eq!(report.diagnostic, "Runtime close phase panicked");
    assert_eq!(report.counts, no_counts(), "containment stops the worker");
    assert_eq!(rig.woken, [1, 2]);
    assert_eq!(rig.resolution(&first), Some(DeadlineResolution::RuntimeClosed));
    assert_eq!(rig.resolution(&second), Some(DeadlineResolution::RuntimeClosed));
}

#[test]
fn a_panic_in_containment_keeps_the_failure_to_report() {
    let mut rig = rig();
    let deadline = rig.register_deadline(10).expect("deadline");
    assert_eq!(rig.poll(&deadline, 1), None);
    let resource = rig.resource();

    let CloseEntry::Run(mut run) = rig.runtime.close(None, 1).expect("close") else {
        panic!("close runs");
    };
    let mut reply = CloseReply::Nothing;
    let outcome = loop {
        let action = rig.runtime.advance(&mut run, reply, Some(0));
        reply = match action {
            // The first panic ends the phase, the second one interrupts containment.
            CloseAction::CloseResource(id) => {
                assert_eq!(id, resource);
                run.phase_panicked(&rig.runtime);
                CloseReply::Nothing
            }
            CloseAction::StopWorker(notices, Some(_)) => {
                rig.wake(notices);
                run.phase_panicked(&rig.runtime);
                CloseReply::Nothing
            }
            action => match rig.act(action) {
                Ok(next) => next,
                Err(outcome) => break outcome,
            },
        };
    };
    let CloseOutcome::Failed(report) = outcome else {
        panic!("a panicking phase fails the close");
    };
    assert_eq!(report.phase, ClosePhase::ResourceCleanup);
    assert_eq!(report.diagnostic, "Runtime close phase panicked");
    assert_eq!(rig.resolution(&deadline), Some(DeadlineResolution::RuntimeClosed));
    // The worker was not joined, and the resource keeps its registration.
    assert_eq!((report.counts.active_tasks, report.counts.active_resources), (1, 1));
}

#[test]
fn reserved_deadline_is_resolved_by_close_that_reenters_from_clock_registration() {
    let mut rig = rig();
    let admission = rig.runtime.reserve_deadline_admission(100).expect("reserved deadline");
    rig.close_cleanly();
    let trace_id = rig.clock.register_deadline(100);
    let (registration, _) = rig.runtime.register_deadline(admission, trace_id, 0);

    assert_eq!(rig.resolution(&registration), Some(DeadlineResolution::RuntimeClosed));
    rig.close_cleanly();
}

#[test]
fn already_due_dispatch_callback_can_reenter_public_runtime_close() {
    let mut rig = rig_at(1, 10);
    let anchor = rig.register_deadline(100).expect("worker anchor deadline");
    let admission = rig.runtime.reserve_deadline_admission(10).expect("already-due deadline");
    let trace_id = rig.clock.register_deadline(10);
    let (registration, follow_up) = rig.runtime.register_deadline(admission, trace_id, 10);
    let CommitFollowUp::Fired(notices) = follow_up else {
        panic!("already due");
    };
    rig.close_cleanly();
    rig.deliver(notices);

    assert_eq!(rig.resolution(&registration), Some(DeadlineResolution::Fired));
    assert_eq!(rig.resolution(&anchor), Some(DeadlineResolution::RuntimeClosed));
    rig.close_cleanly();
}

#[test]
fn operation_deadline_constructors_release_runtime_state_before_clock_registration() {
    let mut rig = rig();
    let root = rig.runtime.root_token();
    assert!(rig.runtime.admit_deadline(&root).is_ok());
    assert_eq!(rig.runtime.state(), RuntimeState::Active);
    let operation = rig.operation(Some(100));
    assert_eq!(operation.deadline_ns(&rig.runtime), Some(100));
    let parent = rig.runtime.child_cancellation_token();
    rig.show_deadline(&parent, Some(100));
    rig.runtime.create_operation_with_parent(Some(100), &parent).expect("child operation");
    rig.close_cleanly();

    let mut rig = rig_at(2, 0);
    let root = rig.runtime.root_token();
    rig.show_deadline(&root, Some(100));
    let (operation, owner) = rig
        .runtime
        .create_operation_with_settlement_owner(Some(100), SettlementOwnerMode::Exclusive)
        .expect("owned operation");
    assert_eq!(rig.runtime.next_deadline_ns(), Some(100));
    assert_eq!(rig.runtime.next_wake_ns(), Some(100));
    assert_eq!(rig.start(&operation), TransitionOutcome::Applied);
    let outcome = rig.settle(
        owner,
        SettlementEvidence::EffectAccepted,
        TerminalCandidate::Success(OperationValue::Unit),
        CleanupRun::Returned(Ok(())),
        false,
    );
    assert_eq!(outcome, TransitionOutcome::Applied);
    rig.close_cleanly();
    let root = rig.runtime.root_token();
    assert_eq!(
        rig.runtime.admit_deadline(&root).expect_err("closed").code(),
        ErrorCode::RuntimeClosing
    );
}

#[test]
fn event_timestamp_clock_callback_can_reenter_public_runtime_subscription() {
    let mut rig = rig();
    let now = rig.clock.now_ns();
    rig.subscribe();
    let event = rig
        .runtime
        .publish(
            now,
            EventDraft::ordinary(EventKind::Data, "runtime.reentry-clock", Severity::Info),
        )
        .expect("event");
    assert_eq!(event.sequence, 1);
    rig.close_cleanly();
}

#[test]
fn register_deadline_clock_callback_can_reenter_public_runtime_admission() {
    let mut rig = rig();
    let admission = rig.runtime.reserve_deadline_admission(100).expect("outer deadline");
    let nested = rig.register_deadline(50).expect("nested deadline");
    let trace_id = rig.clock.register_deadline(100);
    let (registration, _) = rig.runtime.register_deadline(admission, trace_id, 0);

    assert!(registration.id() < nested.id());
    assert_eq!(rig.disarm(&registration), DeadlineResolution::Disarmed);
    assert_eq!(rig.disarm(&nested), DeadlineResolution::Disarmed);
    rig.close_cleanly();
}

#[test]
fn now_clock_callback_can_reenter_public_runtime_state_query() {
    let mut rig = rig();
    let admission = rig.runtime.reserve_deadline_admission(100).expect("deadline");
    let trace_id = rig.clock.register_deadline(100);
    assert_eq!(rig.runtime.state(), RuntimeState::Active);
    let (registration, _) = rig.runtime.register_deadline(admission, trace_id, 0);

    assert_eq!(rig.disarm(&registration), DeadlineResolution::Disarmed);
    rig.close_cleanly();
}

#[test]
fn scoped_callbacks_come_and_go_beside_the_operation_that_listens() {
    let mut rig = rig();
    let operation = rig.operation(None);
    rig.start(&operation);
    let token = operation.cancellation_token(&rig.runtime);
    assert!(rig.runtime.scopes_left());
    let (first, admission) = rig.runtime.on_cancel_scoped(token.token, 1);
    assert_eq!(admission, HookAdmission::Registered);
    rig.runtime.end_scope(first);
    let (second, _) = rig.runtime.on_cancel_scoped(token.token, 2);
    assert_ne!(first.scope, second.scope);

    let root = rig.runtime.root_token();
    rig.cancel_token(&root);
    assert_eq!(rig.ran, [2]);
    assert_eq!(rig.state(&operation), OperationState::Cancelling);
    assert_eq!(
        rig.snapshot(&operation).cancellation_reason,
        Some(CancellationReason::ParentClose)
    );

    let (_, late) = rig.runtime.on_cancel_scoped(token.token, 3);
    assert_eq!(late, HookAdmission::InvokeNow);
}

#[test]
fn a_child_of_a_cancelled_token_is_cancelled() {
    let mut rig = rig();
    let left = rig.runtime.tokens_left();
    let parent = rig.runtime.child_cancellation_token();
    let open = rig.runtime.child_token(parent.token);
    assert_eq!(rig.runtime.tokens_left(), left - 2);
    rig.cancel_token(&parent);
    let late = rig.runtime.child_token(parent.token);
    assert!(rig.runtime.is_cancelled(open.token));
    assert!(rig.runtime.is_cancelled(late.token));
    assert!(!rig.runtime.is_cancelled(rig.runtime.root_token().token));
    let ids = rig.runtime.ids_left();
    rig.operation(None);
    assert!(rig.runtime.ids_left() < ids);
}
