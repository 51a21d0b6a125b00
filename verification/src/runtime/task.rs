//! Supervised tasks: every task is registered before its thread runs, joined exactly once, and
//! leaves the registry only after a panic of its body is saved.

use crate::concurrency::{
    task_join_rejected, TaskHandleState, TaskLifecycleState, TaskModel, TaskOwnerBinding, TaskStep,
};
use crate::model::{EasyConError, ErrorCode, ErrorDomain, ErrorModel, RuntimeId, TaskId};
use crate::operation::{terminal, OperationModel};
use crate::runtime::{
    closing_model, ensure_active, invalid_model, lemma_operation_update_is_valid, operation_models,
    task_models,
    OperationSettlementOwner, Runtime, RuntimeModel, RuntimeState, SupervisedTaskOutcome,
    TaskRecord, TaskRecordModel,
};
use vstd::prelude::*;

verus! {

/// Rejection returned when a supervised task tries to join itself.
#[derive(Clone, Copy, Debug, PartialEq, Eq, Structural)]
pub enum TaskJoinError {
    /// The calling thread owns the task being joined.
    SelfJoin,
}

/// Observation and explicit join handle for a Runtime-owned task.
#[derive(Clone, Copy, Debug)]
pub struct SupervisedTask {
    /// The Runtime that supervises the task.
    pub runtime: RuntimeId,
    /// The task's place in that Runtime.
    pub slot: usize,
    /// Runtime-local task identifier.
    pub id: TaskId,
}

/// What a join has to do next.
#[derive(Clone, Copy, Debug, PartialEq, Eq, Structural)]
pub enum JoinStep {
    /// The caller cannot join the task.
    Rejected(TaskJoinError),
    /// The body has not ended, or another caller joins the thread: wait, then look again.
    Wait,
    /// This caller took the join handle: join the thread, then finish the join.
    JoinThread,
    /// The task was joined before.
    Done(SupervisedTaskOutcome),
}

/// The operations after a task was joined: the owner that it ran has ended, where the operation has
/// not.
pub open spec fn owners_joined(operations: Seq<OperationModel>, task: TaskId) -> Seq<OperationModel> {
    operations.map_values(
        |operation: OperationModel|
            if terminal(operation.state) {
                operation
            } else {
                operation.task_joined(task)
            },
    )
}

/// A task after its thread was joined: a panic of its body is saved before it leaves the registry.
pub open spec fn life_joined(life: TaskModel<SupervisedTaskOutcome>) -> TaskModel<
    SupervisedTaskOutcome,
> {
    let panicked = life.body_outcome == Some(SupervisedTaskOutcome::Panicked);
    TaskModel {
        handle: TaskHandleState::Joined,
        panic_diagnostic_durable: panicked,
        registry_linked: false,
        ..life
    }
}

impl RuntimeModel {
    /// Whether a handle names one of the Runtime's tasks.
    pub open spec fn runs(self, task: SupervisedTask) -> bool {
        task.runtime == self.id && task.slot < self.tasks.len()
            && self.tasks[task.slot as int].id == task.id
    }

    /// The task that a handle names.
    pub open spec fn task(self, task: SupervisedTask) -> TaskRecordModel {
        self.tasks[task.slot as int]
    }

    /// The Runtime after a task was registered.
    pub open spec fn task_registered(self) -> RuntimeModel {
        RuntimeModel {
            next_id: (self.next_id + 1) as u64,
            tasks: self.tasks.push(
                TaskRecordModel {
                    id: TaskId(self.next_id),
                    owner: None,
                    life: TaskModel::initial(),
                },
            ),
            ..self
        }
    }

    /// The Runtime after a task's life moved on.
    pub open spec fn task_stepped(
        self,
        slot: int,
        step: TaskStep<SupervisedTaskOutcome>,
    ) -> RuntimeModel {
        RuntimeModel {
            tasks: self.tasks.update(
                slot,
                TaskRecordModel { life: self.tasks[slot].life.after(step), ..self.tasks[slot] },
            ),
            ..self
        }
    }

    /// What a join by a thread bound as `current` has to do next.
    pub open spec fn join_step(
        self,
        task: SupervisedTask,
        current: Option<TaskOwnerBinding<RuntimeId, TaskId>>,
    ) -> JoinStep {
        let life = self.task(task).life;
        if current matches Some(binding) && binding.runtime == self.id && binding.task == task.id {
            JoinStep::Rejected(TaskJoinError::SelfJoin)
        } else if life.body_outcome is None || (life.registry_linked && life.handle
            != TaskHandleState::Retained) {
            JoinStep::Wait
        } else if !life.registry_linked {
            JoinStep::Done(life.body_outcome->0)
        } else {
            JoinStep::JoinThread
        }
    }

    /// The Runtime after a task's thread was joined.
    pub open spec fn task_joined(self, slot: int) -> RuntimeModel {
        let task = self.tasks[slot];
        let panicked = task.life.body_outcome == Some(SupervisedTaskOutcome::Panicked);
        RuntimeModel {
            tasks: self.tasks.update(
                slot,
                TaskRecordModel { life: life_joined(task.life), ..task },
            ),
            failures: if panicked && !self.failures.contains(task.id) {
                self.failures.push(task.id)
            } else {
                self.failures
            },
            operations: owners_joined(self.operations, task.id),
            ..self
        }
    }

    /// Whether `tasks` are the registered tasks but for the deadline worker, in order.
    pub open spec fn lists_external_tasks(self, tasks: Seq<SupervisedTask>) -> bool {
        &&& forall|i: int|
            0 <= i < tasks.len() ==> self.runs(#[trigger] tasks[i]) && self.task(
                tasks[i],
            ).life.registry_linked && tasks[i].id != self.deadline_task
        &&& forall|i: int, j: int|
            #![trigger tasks[i], tasks[j]]
            0 <= i < j < tasks.len() ==> tasks[i].slot < tasks[j].slot
        &&& forall|k: int|
            0 <= k < self.tasks.len() && (#[trigger] self.tasks[k]).life.registry_linked
                && self.tasks[k].id != self.deadline_task ==> exists|i: int|
                0 <= i < tasks.len() && (#[trigger] tasks[i]).slot == k
    }

    /// Whether `first` is the oldest task whose body panicked.
    pub open spec fn is_first_failure(self, first: Option<TaskId>) -> bool {
        match first {
            None => self.failures.len() == 0,
            Some(first) => self.failures.contains(first) && forall|k: int|
                0 <= k < self.failures.len() ==> first.0 <= (#[trigger] self.failures[k]).0,
        }
    }
}

/// An error of the Runtime about a settlement owner.
pub open spec fn binding_model(message: Seq<char>) -> ErrorModel {
    ErrorModel { domain: ErrorDomain::Runtime, code: ErrorCode::InvalidArgument, message }
}

impl Runtime {
    fn push_task(&mut self, id: TaskId) -> (task: SupervisedTask)
        requires
            old(self).valid(),
            id.0 < old(self)@.next_id,
            forall|k: int| 0 <= k < old(self)@.tasks.len() ==> (#[trigger] old(self)@.tasks[k]).id.0
                < id.0,
        ensures
            final(self).valid(),
            final(self)@ == (RuntimeModel {
                tasks: old(self)@.tasks.push(
                    TaskRecordModel { id, owner: None, life: TaskModel::initial() },
                ),
                ..old(self)@
            }),
            final(self)@.runs(task),
            task.id == id,
            task.slot == old(self)@.tasks.len(),
    {
        let ghost before = self@;
        let slot: usize = self.tasks.len();
        self.tasks.push(
            TaskRecord { id, owner: None, lifecycle: TaskLifecycleState::registered() },
        );
        proof {
            assert(self@.tasks =~= before.tasks.push(
                TaskRecordModel { id, owner: None, life: TaskModel::initial() },
            ));
        }
        SupervisedTask { runtime: self.id, slot, id }
    }

    /// Admits and registers one Runtime-owned task, before its thread is created.
    ///
    /// The thread is bound with [`Runtime::task_started`] before the task body can run.
    pub fn spawn_supervised(&mut self) -> (spawned: Result<SupervisedTask, EasyConError>)
        requires
            old(self).valid(),
            old(self)@.next_id < u64::MAX,
        ensures
            final(self).valid(),
            old(self)@.carries_over(final(self)@),
            spawned is Ok <==> old(self)@.state == RuntimeState::Active,
            spawned matches Ok(task) ==> final(self)@ == old(self)@.task_registered()
                && final(self)@.runs(task) && task.id.0 == old(self)@.next_id && task.slot == old(
                self,
            )@.tasks.len(),
            spawned matches Err(error) ==> final(self)@ == old(self)@ && error@ == closing_model(),
    {
        if let Err(error) = ensure_active(self.state) {
            return Err(error);
        }
        let id = TaskId(self.allocate_id());
        Ok(self.push_task(id))
    }

    /// Admits and registers a task that runs an explicit operation settlement owner.
    pub fn spawn_operation_owner(&mut self, owner: &OperationSettlementOwner) -> (spawned: Result<
        SupervisedTask,
        EasyConError,
    >)
        requires
            old(self).valid(),
            owner.operation.runtime == old(self)@.id ==> old(self)@.owns(owner.operation),
            old(self)@.next_id < u64::MAX,
        ensures
            final(self).valid(),
            old(self)@.carries_over(final(self)@),
            ({
                let before = old(self)@;
                let active = before.state == RuntimeState::Active;
                let belongs = owner.operation.runtime == before.id;
                let binds = before.at(owner.operation).may_bind(owner.owner_id);
                let bound = before.put(
                    owner.operation.slot as int,
                    before.at(owner.operation).bound(owner.owner_id, TaskId(before.next_id)),
                    false,
                    None,
                );
                &&& spawned is Ok <==> active && belongs && binds
                &&& spawned matches Ok(task) ==> final(self)@ == bound.task_registered()
                    && final(self)@.runs(task) && task.id.0 == before.next_id
                &&& spawned matches Err(error) ==> error@ == if !active {
                    closing_model()
                } else if !belongs {
                    invalid_model("operation settlement owner belongs to a different Runtime"@)
                } else {
                    binding_model("operation settlement owner is already bound"@)
                }
                &&& spawned is Err ==> final(self)@ == if active && belongs {
                    // The refused task has used up its identifier.
                    RuntimeModel { next_id: (before.next_id + 1) as u64, ..before }
                } else {
                    before
                }
            }),
    {
        let ghost before = self@;
        if let Err(error) = ensure_active(self.state) {
            return Err(error);
        }
        if !owner.belongs_to(self) {
            return Err(
                EasyConError::new(
                    ErrorDomain::Validation,
                    ErrorCode::InvalidArgument,
                    "operation settlement owner belongs to a different Runtime",
                ),
            );
        }
        let id = TaskId(self.allocate_id());
        let ghost numbered = self@;
        if !owner.bind_task(self, id) {
            assert(self@.operations =~= before.operations);
            return Err(
                EasyConError::new(
                    ErrorDomain::Runtime,
                    ErrorCode::InvalidArgument,
                    "operation settlement owner is already bound",
                ),
            );
        }
        Ok(self.push_task(id))
    }

    /// Binds an operation settlement owner to an already registered supervised task.
    ///
    /// This is for a resource with one long-lived lane that creates short-lived operations after the
    /// lane itself has been admitted. The binding may be performed once.
    pub fn bind_operation_settlement_owner_to_task(
        &mut self,
        owner: &OperationSettlementOwner,
        task: &SupervisedTask,
    ) -> (bound: Result<(), EasyConError>)
        requires
            old(self).valid(),
            owner.operation.runtime == old(self)@.id ==> old(self)@.owns(owner.operation),
            task.runtime == old(self)@.id ==> old(self)@.runs(*task),
        ensures
            final(self).valid(),
            old(self)@.carries_over(final(self)@),
            ({
                let before = old(self)@;
                let belong = owner.operation.runtime == before.id && task.runtime == before.id;
                let supervised = before.task(*task).life.registry_linked;
                let binds = before.at(owner.operation).may_bind(owner.owner_id);
                &&& bound is Ok <==> belong && supervised && binds
                &&& bound is Ok ==> final(self)@ == before.put(
                    owner.operation.slot as int,
                    before.at(owner.operation).bound(owner.owner_id, task.id),
                    false,
                    None,
                )
                &&& bound matches Err(error) ==> final(self)@ == before && error@ == if !belong {
                    invalid_model(
                        "operation settlement owner and supervised task must belong to this Runtime"@,
                    )
                } else if !supervised {
                    binding_model("operation settlement owner task is no longer supervised"@)
                } else {
                    binding_model("operation settlement owner is already bound"@)
                }
            }),
    {
        let ghost before = self@;
        if !owner.belongs_to(self) || task.runtime.0 != self.id.0 {
            return Err(
                EasyConError::new(
                    ErrorDomain::Validation,
                    ErrorCode::InvalidArgument,
                    "operation settlement owner and supervised task must belong to this Runtime",
                ),
            );
        }
        assert(before.tasks[task.slot as int] == self.tasks[task.slot as int]@);
        if !self.tasks[task.slot].lifecycle.registry_linked() {
            return Err(
                EasyConError::new(
                    ErrorDomain::Runtime,
                    ErrorCode::InvalidArgument,
                    "operation settlement owner task is no longer supervised",
                ),
            );
        }
        if !owner.bind_task(self, task.id) {
            assert(self@.operations =~= before.operations);
            return Err(
                EasyConError::new(
                    ErrorDomain::Runtime,
                    ErrorCode::InvalidArgument,
                    "operation settlement owner is already bound",
                ),
            );
        }
        Ok(())
    }

    /// Records the thread that runs a registered task, before the task body may start.
    pub fn task_started(&mut self, task: &SupervisedTask, thread: u64)
        requires
            old(self).valid(),
            old(self)@.runs(*task),
            old(self)@.task(*task).life.accepts(TaskStep::Bind),
        ensures
            final(self).valid(),
            old(self)@.carries_over(final(self)@),
            ({
                let bound = old(self)@.task_stepped(task.slot as int, TaskStep::Bind);
                final(self)@ == (RuntimeModel {
                    tasks: bound.tasks.update(
                        task.slot as int,
                        TaskRecordModel { owner: Some(thread), ..bound.task(*task) },
                    ),
                    ..bound
                })
            }),
    {
        let ghost before = self@;
        let slot: usize = task.slot;
        assert(before.tasks[slot as int] == self.tasks[slot as int]@);
        let record = &mut self.tasks[slot];
        record.owner = Some(thread);
        let _ = record.lifecycle.bind_owner_and_retain_handle();
        proof {
            let after = self.tasks[slot as int]@;
            assert(self@.tasks =~= before.tasks.update(slot as int, after));
            lemma_task_update_is_valid(before, slot as int, after);
            assert(self@ =~= (RuntimeModel {
                tasks: before.task_stepped(slot as int, TaskStep::Bind).tasks.update(
                    slot as int,
                    after,
                ),
                ..before
            }));
        }
    }

    /// Forgets a task whose thread could not be created, and returns the error that says so.
    pub fn task_spawn_failed(&mut self, task: &SupervisedTask, reason: &str) -> (error:
        EasyConError)
        requires
            old(self).valid(),
            old(self)@.runs(*task),
            old(self)@.task(*task).life.accepts(TaskStep::AbortSpawn),
        ensures
            final(self).valid(),
            old(self)@.carries_over(final(self)@),
            final(self)@ == old(self)@.task_stepped(task.slot as int, TaskStep::AbortSpawn),
            error@ == (ErrorModel {
                domain: ErrorDomain::Runtime,
                code: ErrorCode::Internal,
                message: "failed to spawn supervised task: "@ + reason@,
            }),
    {
        let ghost before = self@;
        let slot: usize = task.slot;
        assert(before.tasks[slot as int] == self.tasks[slot as int]@);
        let record = &mut self.tasks[slot];
        let _ = record.lifecycle.abort_spawn();
        proof {
            let after = self.tasks[slot as int]@;
            assert(self@.tasks =~= before.tasks.update(slot as int, after));
            lemma_task_update_is_valid(before, slot as int, after);
        }
        let mut message: String = "failed to spawn supervised task: ".to_owned();
        message.append(reason);
        EasyConError::new(ErrorDomain::Runtime, ErrorCode::Internal, message.as_str())
    }

    /// Forgets a task that was to run a settlement owner and whose thread could not be created: the
    /// owner has ended.
    pub fn operation_owner_spawn_failed(
        &mut self,
        task: &SupervisedTask,
        owner: &OperationSettlementOwner,
        reason: &str,
    ) -> (error: EasyConError)
        requires
            old(self).valid(),
            old(self)@.runs(*task),
            old(self)@.owns(owner.operation),
            old(self)@.task(*task).life.accepts(TaskStep::AbortSpawn),
        ensures
            final(self).valid(),
            old(self)@.carries_over(final(self)@),
            final(self)@ == old(self)@.task_stepped(
                task.slot as int,
                TaskStep::AbortSpawn,
            ).put(
                owner.operation.slot as int,
                old(self)@.at(owner.operation).task_joined(task.id),
                false,
                None,
            ),
            error@ == (ErrorModel {
                domain: ErrorDomain::Runtime,
                code: ErrorCode::Internal,
                message: "failed to spawn supervised task: "@ + reason@,
            }),
    {
        let error = self.task_spawn_failed(task, reason);
        let ghost middle = self@;
        let slot: usize = owner.operation.slot;
        assert(middle.operations[slot as int] == self.operations[slot as int]@);
        let operation = &mut self.operations[slot];
        operation.mark_owner_task_joined(task.id);
        proof {
            let after = self.operations[slot as int]@;
            assert(self@.operations =~= middle.operations.update(slot as int, after));
        }
        error
    }

    /// Records how a task body ended.
    pub fn task_completed(&mut self, task: &SupervisedTask, outcome: SupervisedTaskOutcome)
        requires
            old(self).valid(),
            old(self)@.runs(*task),
            old(self)@.task(*task).life.accepts(TaskStep::CompleteBody { outcome }),
        ensures
            final(self).valid(),
            old(self)@.carries_over(final(self)@),
            final(self)@ == old(self)@.task_stepped(
                task.slot as int,
                TaskStep::CompleteBody { outcome },
            ),
    {
        let ghost before = self@;
        let slot: usize = task.slot;
        assert(before.tasks[slot as int] == self.tasks[slot as int]@);
        let record = &mut self.tasks[slot];
        let _ = record.lifecycle.complete_body(outcome);
        proof {
            let after = self.tasks[slot as int]@;
            assert(self@.tasks =~= before.tasks.update(slot as int, after));
            lemma_task_update_is_valid(before, slot as int, after);
        }
    }

    /// Returns the deadline worker's task.
    pub fn deadline_task(&self) -> (task: SupervisedTask)
        requires
            self.valid(),
        ensures
            self@.runs(task),
            task.id == self@.deadline_task,
            task.slot == 0,
    {
        SupervisedTask { runtime: self.id, slot: 0, id: self.deadline_task }
    }

    /// Lists the registered tasks but for the deadline worker, in the order of registration.
    pub fn external_tasks(&self) -> (tasks: Vec<SupervisedTask>)
        ensures
            self@.lists_external_tasks(tasks@),
    {
        let ghost model = self@;
        let mut tasks: Vec<SupervisedTask> = Vec::new();
        let mut k: usize = 0;
        while k < self.tasks.len()
            invariant
                k <= self.tasks.len(),
                model == self@,
                model.tasks == task_models(self.tasks@),
                forall|i: int|
                    0 <= i < tasks@.len() ==> model.runs(#[trigger] tasks@[i]) && model.task(
                        tasks@[i],
                    ).life.registry_linked && tasks@[i].id != model.deadline_task
                        && tasks@[i].slot < k,
                forall|i: int, j: int|
                    #![trigger tasks@[i], tasks@[j]]
                    0 <= i < j < tasks@.len() ==> tasks@[i].slot < tasks@[j].slot,
                forall|n: int|
                    0 <= n < k && (#[trigger] model.tasks[n]).life.registry_linked
                        && model.tasks[n].id != model.deadline_task ==> exists|i: int|
                        0 <= i < tasks@.len() && (#[trigger] tasks@[i]).slot == n,
            decreases self.tasks.len() - k,
        {
            let ghost so_far = tasks@;
            assert(model.tasks[k as int] == self.tasks[k as int]@);
            let id = self.tasks[k].id;
            if self.tasks[k].lifecycle.registry_linked() && id.0 != self.deadline_task.0 {
                tasks.push(SupervisedTask { runtime: self.id, slot: k, id });
                proof {
                    assert forall|n: int|
                        0 <= n < k + 1 && (#[trigger] model.tasks[n]).life.registry_linked
                            && model.tasks[n].id != model.deadline_task implies exists|i: int|
                        0 <= i < tasks@.len() && (#[trigger] tasks@[i]).slot == n by {
                        if n < k {
                            let i = choose|i: int|
                                0 <= i < so_far.len() && (#[trigger] so_far[i]).slot == n;
                            assert(tasks@[i] == so_far[i]);
                        } else {
                            assert(tasks@[so_far.len() as int].slot == n);
                        }
                    }
                }
            }
            k += 1;
        }
        tasks
    }

    /// Returns the oldest task whose body panicked.
    pub fn first_task_failure(&self) -> (first: Option<TaskId>)
        ensures
            self@.is_first_failure(first),
    {
        if self.failures.len() == 0 {
            return None;
        }
        let mut first: TaskId = self.failures[0];
        let mut k: usize = 1;
        while k < self.failures.len()
            invariant
                1 <= k <= self.failures.len(),
                self.failures@.contains(first),
                forall|j: int| 0 <= j < k ==> first.0 <= (#[trigger] self.failures@[j]).0,
            decreases self.failures.len() - k,
        {
            if self.failures[k].0 < first.0 {
                first = self.failures[k];
            }
            k += 1;
        }
        Some(first)
    }

    fn record_failure(&mut self, id: TaskId)
        requires
            old(self).valid(),
        ensures
            final(self).valid(),
            final(self)@ == (RuntimeModel {
                failures: if old(self)@.failures.contains(id) {
                    old(self)@.failures
                } else {
                    old(self)@.failures.push(id)
                },
                ..old(self)@
            }),
    {
        let mut k: usize = 0;
        while k < self.failures.len()
            invariant
                k <= self.failures.len(),
                self.valid(),
                *self == *old(self),
                forall|j: int| 0 <= j < k ==> (#[trigger] self.failures@[j]) != id,
            decreases self.failures.len() - k,
        {
            if self.failures[k].0 == id.0 {
                assert(self@.failures[k as int] == id);
                return ;
            }
            k += 1;
        }
        self.failures.push(id);
    }

    fn mark_operation_owner_task_joined(&mut self, task: TaskId)
        requires
            old(self).valid(),
        ensures
            final(self).valid(),
            final(self)@ == (RuntimeModel {
                operations: owners_joined(old(self)@.operations, task),
                ..old(self)@
            }),
    {
        let ghost start = self@;
        let ghost joined = owners_joined(start.operations, task);
        let mut k: usize = 0;
        while k < self.operations.len()
            invariant
                k <= self.operations.len(),
                self.valid(),
                start == old(self)@,
                joined == owners_joined(start.operations, task),
                self@.operations.len() == start.operations.len(),
                self@ == (RuntimeModel { operations: self@.operations, ..start }),
                self@.operations == operation_models(self.operations@),
                forall|j: int|
                    0 <= j < self@.operations.len() ==> (#[trigger] self@.operations[j]) == if j
                        < k {
                        joined[j]
                    } else {
                        start.operations[j]
                    },
            decreases self.operations.len() - k,
        {
            let ghost here = self@;
            assert(here.operations[k as int] == self.operations[k as int]@);
            if !self.operations[k].state().is_terminal() {
                let operation = &mut self.operations[k];
                operation.mark_owner_task_joined(task);
                proof {
                    let after = self.operations[k as int]@;
                    assert(self@.operations =~= here.operations.update(k as int, after));
                    lemma_operation_update_is_valid(here, k as int, after);
                    assert(joined[k as int] == after);
                }
            }
            k += 1;
        }
        assert(self@.operations =~= joined);
    }
}

proof fn lemma_task_update_is_valid(runtime: RuntimeModel, slot: int, record: TaskRecordModel)
    requires
        runtime.valid(),
        0 <= slot < runtime.tasks.len(),
        record.id == runtime.tasks[slot].id,
        record.life.valid(),
    ensures
        (RuntimeModel { tasks: runtime.tasks.update(slot, record), ..runtime }).valid(),
{
    let after = RuntimeModel { tasks: runtime.tasks.update(slot, record), ..runtime };
    assert forall|k: int| 0 <= k < after.tasks.len() implies (#[trigger] after.tasks[k]).id.0
        < after.next_id && after.tasks[k].life.valid() by {
        assert(runtime.tasks[k].id == after.tasks[k].id);
    }
    assert forall|j: int, k: int| #![trigger after.tasks[j], after.tasks[k]]
        0 <= j < k < after.tasks.len() implies after.tasks[j].id.0 < after.tasks[k].id.0 by {
        assert(runtime.tasks[j].id.0 < runtime.tasks[k].id.0);
    }
}

impl SupervisedTask {
    /// Returns the Runtime-local task identifier.
    pub fn id(&self) -> (id: TaskId)
        ensures
            id == self.id,
    {
        self.id
    }

    /// Looks once for the task's end on behalf of a caller bound as `current`, and takes the join
    /// handle where the thread is to be joined.
    ///
    /// Rejects with [`TaskJoinError::SelfJoin`] when called by the supervised task itself.
    pub fn join(
        &self,
        runtime: &mut Runtime,
        current: Option<TaskOwnerBinding<RuntimeId, TaskId>>,
    ) -> (step: JoinStep)
        requires
            old(runtime).valid(),
            old(runtime)@.runs(*self),
        ensures
            final(runtime).valid(),
            old(runtime)@.carries_over(final(runtime)@),
            step == old(runtime)@.join_step(*self, current),
            final(runtime)@ == if step == JoinStep::JoinThread {
                old(runtime)@.task_stepped(self.slot as int, TaskStep::ClaimJoin)
            } else {
                old(runtime)@
            },
    {
        if task_join_rejected(current, self.runtime, self.id) {
            return JoinStep::Rejected(TaskJoinError::SelfJoin);
        }
        let ghost before = runtime@;
        let slot: usize = self.slot;
        assert(before.tasks[slot as int] == runtime.tasks[slot as int]@);
        let outcome = match runtime.tasks[slot].lifecycle.body_outcome() {
            Some(outcome) => outcome,
            None => {
                return JoinStep::Wait;
            },
        };
        if !runtime.tasks[slot].lifecycle.registry_linked() {
            return JoinStep::Done(outcome);
        }
        if !runtime.tasks[slot].lifecycle.join_handle_retained() {
            return JoinStep::Wait;
        }
        let record = &mut runtime.tasks[slot];
        let _ = record.lifecycle.claim_join_handle();
        proof {
            let after = runtime.tasks[slot as int]@;
            assert(runtime@.tasks =~= before.tasks.update(slot as int, after));
            lemma_task_update_is_valid(before, slot as int, after);
        }
        JoinStep::JoinThread
    }

    /// Records that the thread was joined: saves a panic of its body, unregisters the task, and tells
    /// the operations whose settlement owner it ran.
    pub fn finish_join(&self, runtime: &mut Runtime) -> (outcome: SupervisedTaskOutcome)
        requires
            old(runtime).valid(),
            old(runtime)@.runs(*self),
            old(runtime)@.task(*self).life.accepts(TaskStep::FinishJoin),
        ensures
            final(runtime).valid(),
            old(runtime)@.carries_over(final(runtime)@),
            Some(outcome) == old(runtime)@.task(*self).life.body_outcome,
            final(runtime)@ == old(runtime)@.task_joined(self.slot as int),
    {
        let ghost before = runtime@;
        let slot: usize = self.slot;
        assert(before.tasks[slot as int] == runtime.tasks[slot as int]@);
        let outcome = match runtime.tasks[slot].lifecycle.body_outcome() {
            Some(outcome) => outcome,
            None => SupervisedTaskOutcome::Panicked,
        };
        let panicked: bool = outcome == SupervisedTaskOutcome::Panicked;
        if panicked {
            runtime.record_failure(self.id);
        }
        let ghost recorded = runtime@;
        assert(recorded.tasks[slot as int] == runtime.tasks[slot as int]@);
        let record = &mut runtime.tasks[slot];
        let _ = record.lifecycle.finish_join();
        if panicked {
            let _ = record.lifecycle.persist_panic_diagnostic();
        }
        let _ = record.lifecycle.unlink_registry(panicked);
        proof {
            let after = runtime.tasks[slot as int]@;
            assert(after.life == life_joined(before.tasks[slot as int].life));
            assert(runtime@.tasks =~= recorded.tasks.update(slot as int, after));
            lemma_task_update_is_valid(recorded, slot as int, after);
        }
        runtime.mark_operation_owner_task_joined(self.id);
        outcome
    }
}

} // verus!
