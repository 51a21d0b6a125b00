//! What a whole deterministic close promises, from its first step to its saved outcome.

use crate::concurrency::TaskOwnerBinding;
use crate::model::{ResourceId, RuntimeId, TaskId};
use crate::operation::{terminal, OperationModel};
use crate::runtime::close::{
    close_entered, close_step, contains_failure, panicked, surviving, CloseAction, CloseEntry,
    CloseRejection, CloseReply, CloseStage, FailureModel, RunModel,
};
use crate::runtime::laws::{
    law_close_makes_progress, law_close_outcome_is_saved_once,
    law_close_outcome_tells_what_happened, phase_rank,
};
use crate::runtime::{
    active_operations, active_tasks, OutcomeModel, ReportModel, RuntimeModel, RuntimeState,
    TaskRecordModel,
};
use vstd::prelude::*;

verus! {

/// One step of a close: where it began, what it was told, and where it ended.
pub struct CloseRecord {
    pub before: RuntimeModel,
    pub run: RunModel,
    pub reply: CloseReply,
    pub now_ns: Option<u64>,
    pub after: RuntimeModel,
    pub run_after: RunModel,
    pub action: CloseAction,
}

impl CloseRecord {
    /// Whether the record is one step of close.
    pub open spec fn is_step(self) -> bool {
        close_step(
            self.before,
            self.run,
            self.reply,
            self.now_ns,
            self.after,
            self.run_after,
            self.action,
        )
    }

    /// Whether the record is a step that a running close takes on a valid Runtime.
    #[verifier::opaque]
    pub open spec fn is_proper(self) -> bool {
        &&& self.is_step()
        &&& self.before.valid()
        &&& stands_well(self.run)
        &&& self.before.state == RuntimeState::Closing || self.run.stage == CloseStage::Done
            && self.before.state != RuntimeState::Active
    }

    /// Whether the step asks for the close of a resource.
    pub open spec fn asks(self) -> bool {
        self.run.stage == CloseStage::CloseResource && self.run.next < self.run.resources.len()
    }

    /// Whether the step takes what the close of a resource came to.
    pub open spec fn answers(self) -> bool {
        self.run.stage == CloseStage::ResourceReply && (self.reply is ResourceClosed
            || self.reply is ResourceFailed || self.reply is ResourcePanicked)
    }

    /// The resource in question.
    pub open spec fn resource(self) -> ResourceId {
        self.run.resources[self.run.next as int]
    }
}

/// Whether a running close stands within its lists.
pub open spec fn stands_well(run: RunModel) -> bool {
    &&& run.stage == CloseStage::ResourceReply ==> run.next < run.resources.len()
    &&& run.stage == CloseStage::TaskReply ==> run.next < run.tasks.len()
    &&& run.stage == CloseStage::FinalizeHooks || run.stage == CloseStage::Settle ==> run.next
        < run.operations.len()
    &&& run.operations.len() <= usize::MAX
    &&& run.resources.len() <= usize::MAX
    &&& run.tasks.len() <= usize::MAX
}

/// Whether a close goes on as it was left, or with the panic of its phase.
pub open spec fn goes_on(left: RunModel, next: RunModel) -> bool {
    next == left || next == panicked(left)
}

/// Whether the step behind one record begins where that record left off, but for what other callers
/// did in between.
pub open spec fn follow_on(course: Seq<CloseRecord>, i: int) -> bool {
    &&& goes_on(course[i].run_after, course[i + 1].run)
    &&& course[i].after.carries_over(course[i + 1].before)
}

/// Whether records are the steps of one close, from its beginning.
pub open spec fn is_close_course(course: Seq<CloseRecord>) -> bool {
    &&& course.len() > 0 ==> course[0].run == RunModel::initial() && course[0].before.closing
    &&& forall|i: int| 0 <= i < course.len() ==> (#[trigger] course[i]).is_proper()
    &&& forall|i: int| 0 <= i < course.len() - 1 ==> #[trigger] follow_on(course, i)
}

/// How far the closing of resources has come.
spec fn resource_place(run: RunModel) -> int {
    2 * run.next + if run.stage == CloseStage::ResourceReply {
        1int
    } else {
        0int
    }
}

/// Whether one run is no earlier in the closing of resources than another.
#[verifier::opaque]
spec fn no_earlier(earlier: RunModel, later: RunModel) -> bool {
    let before = phase_rank(earlier.stage);
    let after = phase_rank(later.stage);
    &&& before <= 9 ==> after <= 9
    &&& before < 9 ==> after < 9
    &&& before == 9 && after == 9 ==> later.resources == earlier.resources && resource_place(later)
        >= resource_place(earlier)
    &&& earlier.resources.no_duplicates() ==> later.resources.no_duplicates()
}

/// Whether one run is past another in the closing of resources.
#[verifier::opaque]
spec fn has_passed(earlier: RunModel, later: RunModel) -> bool {
    phase_rank(earlier.stage) == 9 && phase_rank(later.stage) == 9 ==> resource_place(later)
        > resource_place(earlier)
}

proof fn lemma_places_chain(first: RunModel, second: RunModel, third: RunModel)
    requires
        no_earlier(first, second),
        no_earlier(second, third),
    ensures
        no_earlier(first, third),
        has_passed(first, second) ==> has_passed(first, third),
        has_passed(second, third) ==> has_passed(first, third),
{
    reveal(no_earlier);
    reveal(has_passed);
}

proof fn lemma_going_on_keeps_place(left: RunModel, next: RunModel)
    requires
        goes_on(left, next),
    ensures
        no_earlier(left, next),
{
    reveal(no_earlier);
}

proof fn lemma_surviving_are_distinct(runtime: RuntimeModel, alive: Seq<ResourceId>)
    requires
        runtime.valid(),
    ensures
        surviving(runtime.resources, alive).no_duplicates(),
{
    let kept = |resource: ResourceId| alive.contains(resource);
    assert forall|i: int, j: int|
        0 <= i < runtime.resources.len() && 0 <= j < runtime.resources.len() && i
            != j implies runtime.resources[i] != runtime.resources[j] by {
        if i < j {
            assert(runtime.resources[i].0 < runtime.resources[j].0);
        } else {
            assert(runtime.resources[j].0 < runtime.resources[i].0);
        }
    }
    assert(runtime.resources.no_duplicates());
    lemma_filter_keeps_distinct(runtime.resources, kept);
}

proof fn lemma_filter_keeps_distinct(
    resources: Seq<ResourceId>,
    kept: spec_fn(ResourceId) -> bool,
)
    requires
        resources.no_duplicates(),
    ensures
        resources.filter(kept).no_duplicates(),
        forall|k: int|
            0 <= k < resources.filter(kept).len() ==> resources.contains(
                #[trigger] resources.filter(kept)[k],
            ),
    decreases resources.len(),
{
    reveal(Seq::filter);
    if resources.len() > 0 {
        let rest = resources.drop_last();
        lemma_filter_keeps_distinct(rest, kept);
        let before = rest.filter(kept);
        let after = resources.filter(kept);
        assert forall|k: int| 0 <= k < before.len() implies resources.contains(
            #[trigger] before[k],
        ) && before[k] != resources.last() by {
            assert(rest.contains(before[k]));
            let m = choose|m: int| 0 <= m < rest.len() && rest[m] == before[k];
            assert(resources[m] == before[k]);
            assert(resources[m] != resources[resources.len() - 1]);
        }
        if kept(resources.last()) {
            assert(after == before.push(resources.last()));
            assert(resources.contains(resources[resources.len() - 1]));
        }
    }
}

#[verifier::rlimit(30)]
#[verifier::spinoff_prover]
proof fn lemma_resource_step(record: CloseRecord)
    requires
        record.is_proper(),
    ensures
        stands_well(record.run),
        no_earlier(record.run, record.run_after),
        record.asks() || record.answers() ==> has_passed(record.run, record.run_after),
{
    reveal(CloseRecord::is_proper);
    reveal(no_earlier);
    reveal(has_passed);
    law_close_makes_progress(
        record.before,
        record.run,
        record.reply,
        record.now_ns,
        record.after,
        record.run_after,
        record.action,
    );
    if record.run.stage == CloseStage::Resources {
        if let CloseReply::LiveResources(alive) = record.reply {
            lemma_surviving_are_distinct(record.before, alive@);
        }
    }
}

proof fn lemma_resource_course(course: Seq<CloseRecord>, i: int, j: int)
    requires
        is_close_course(course),
        0 <= i < j < course.len(),
    ensures
        no_earlier(course[i].run, course[j].run),
        course[i].asks() || course[i].answers() ==> has_passed(course[i].run, course[j].run),
    decreases j - i,
{
    let last = course[j - 1];
    lemma_resource_step(last);
    assert(follow_on(course, j - 1));
    lemma_going_on_keeps_place(last.run_after, course[j].run);
    lemma_places_chain(last.run, last.run_after, course[j].run);
    if i < j - 1 {
        lemma_resource_course(course, i, j - 1);
        lemma_places_chain(course[i].run, last.run, course[j].run);
    }
}

/// Each resource is closed at most once in a whole close: no two steps ask for the same one, and no
/// two take an answer for the same one.
pub proof fn law_resource_is_closed_at_most_once(course: Seq<CloseRecord>, i: int, j: int)
    requires
        is_close_course(course),
        0 <= i < j < course.len(),
        course[i].asks() && course[j].asks() || course[i].answers() && course[j].answers(),
    ensures
        course[i].resource() != course[j].resource(),
{
    reveal(no_earlier);
    reveal(has_passed);
    lemma_resource_course(course, i, j);
    lemma_resource_step(course[i]);
    lemma_resource_step(course[j]);
    if i > 0 {
        lemma_resource_course(course, 0, i);
    }
    assert(course[i].run.resources.no_duplicates());
    assert(course[i].run.next < course[j].run.next);
}

#[verifier::rlimit(30)]
#[verifier::spinoff_prover]
proof fn lemma_reaches_final_event(record: CloseRecord)
    requires
        record.is_proper(),
        record.run_after.stage == CloseStage::FinalEvent,
    ensures
        record.run.stage == CloseStage::Converge,
        record.before.converged(),
        record.after == record.before,
{
    reveal(CloseRecord::is_proper);
}

#[verifier::rlimit(30)]
#[verifier::spinoff_prover]
proof fn lemma_ends_closed(record: CloseRecord)
    requires
        record.is_proper(),
        record.before.outcome is None,
        record.after.outcome == Some(OutcomeModel::Closed),
    ensures
        record.run.stage == CloseStage::FinalEvent,
        record.after.state == RuntimeState::Closed,
        record.after.operations == record.before.operations,
        record.after.resources == record.before.resources,
        record.after.tasks == record.before.tasks,
{
    reveal(CloseRecord::is_proper);
    if record.run.stage != CloseStage::Done {
        law_close_outcome_tells_what_happened(
            record.before,
            record.run,
            record.reply,
            record.now_ns,
            record.after,
            record.run_after,
            record.action,
        );
    }
}

#[verifier::rlimit(30)]
#[verifier::spinoff_prover]
proof fn lemma_saved_outcome_is_told(record: CloseRecord)
    requires
        record.is_proper(),
        record.before.outcome is Some,
    ensures
        record.after == record.before,
        record.action matches CloseAction::Done(told) && Some(told@) == record.before.outcome,
{
    reveal(CloseRecord::is_proper);
}

#[verifier::rlimit(30)]
#[verifier::spinoff_prover]
proof fn lemma_step_admits_nothing(record: CloseRecord)
    requires
        record.is_proper(),
    ensures
        record.before.state != RuntimeState::Active,
        record.after.state != RuntimeState::Active,
        record.after.closing == record.before.closing,
{
    reveal(CloseRecord::is_proper);
    if record.before.outcome is None && record.run.stage != CloseStage::Done {
        law_close_outcome_is_saved_once(
            record.before,
            record.run,
            record.reply,
            record.now_ns,
            record.after,
            record.run_after,
            record.action,
        );
    }
}

proof fn lemma_ended_operations_stay(before: Seq<OperationModel>, after: Seq<OperationModel>)
    requires
        active_operations(before) == 0,
        after.len() == before.len(),
        forall|k: int|
            0 <= k < before.len() && terminal(before[k].state) ==> terminal(
                (#[trigger] after[k]).state,
            ),
    ensures
        active_operations(after) == 0,
    decreases before.len(),
{
    if before.len() > 0 {
        assert(terminal(before[before.len() - 1].state));
        assert(terminal(after[before.len() - 1].state));
        assert forall|k: int|
            0 <= k < before.drop_last().len() && terminal(
                before.drop_last()[k].state,
            ) implies terminal((#[trigger] after.drop_last()[k]).state) by {
            assert(after.drop_last()[k] == after[k]);
        }
        lemma_ended_operations_stay(before.drop_last(), after.drop_last());
    }
}

proof fn lemma_joined_tasks_stay(before: Seq<TaskRecordModel>, after: Seq<TaskRecordModel>)
    requires
        active_tasks(before) == 0,
        after.len() == before.len(),
        forall|k: int|
            0 <= k < before.len() && !before[k].life.registry_linked
                ==> !(#[trigger] after[k]).life.registry_linked,
    ensures
        active_tasks(after) == 0,
    decreases before.len(),
{
    if before.len() > 0 {
        assert(!before[before.len() - 1].life.registry_linked);
        assert(!after[before.len() - 1].life.registry_linked);
        assert forall|k: int|
            0 <= k < before.drop_last().len()
                && !before.drop_last()[k].life.registry_linked implies !(
        #[trigger] after.drop_last()[k]).life.registry_linked by {
            assert(after.drop_last()[k] == after[k]);
        }
        lemma_joined_tasks_stay(before.drop_last(), after.drop_last());
    }
}

/// A Runtime that supervises nothing and admits nothing stays so, whatever is called.
pub proof fn law_empty_registries_stay_empty(before: RuntimeModel, after: RuntimeModel)
    requires
        before.state != RuntimeState::Active,
        before.converged(),
        before.carries_over(after),
    ensures
        after.converged(),
{
    lemma_ended_operations_stay(before.operations, after.operations);
    lemma_joined_tasks_stay(before.tasks, after.tasks);
}

/// A close that ends as closed leaves nothing supervised, neither an operation nor a resource nor a
/// task, and the Runtime stays closed and empty, whatever is called later.
pub proof fn law_closed_means_empty_registries(
    course: Seq<CloseRecord>,
    i: int,
    later: RuntimeModel,
)
    requires
        is_close_course(course),
        0 <= i < course.len(),
        course[i].before.outcome is None,
        course[i].after.outcome == Some(OutcomeModel::Closed),
        course[i].after.carries_over(later),
    ensures
        course[i].after.converged(),
        course[i].after.state == RuntimeState::Closed,
        later.converged(),
        later.state == RuntimeState::Closed,
        later.outcome == Some(OutcomeModel::Closed),
{
    lemma_ends_closed(course[i]);
    assert(i > 0);
    assert(follow_on(course, i - 1));
    lemma_reaches_final_event(course[i - 1]);
    lemma_step_admits_nothing(course[i - 1]);
    law_empty_registries_stay_empty(course[i - 1].after, course[i].before);
    law_empty_registries_stay_empty(course[i].after, later);
}

/// Whether a close deals with a failure that is to be reported, or has dealt with it.
pub open spec fn has_failed(run: RunModel) -> bool {
    contains_failure(run.stage) || run.stage == CloseStage::Retry || run.stage == CloseStage::Done
}

#[verifier::rlimit(30)]
#[verifier::spinoff_prover]
proof fn lemma_contained_step(record: CloseRecord)
    requires
        record.is_proper(),
        has_failed(record.run),
    ensures
        has_failed(record.run_after),
        record.run_after.first == record.run.first,
        record.run_after.stage == CloseStage::Retry ==> (record.run_after.report matches Some(report)
            && tells_of(report, record.run.first->0)),
        record.before.outcome is None && record.after.outcome is Some ==> (
        record.after.outcome matches Some(OutcomeModel::Failed(report)) && (tells_of(
            report,
            record.run.first->0,
        ) || record.run.stage == CloseStage::Retry && report == record.run.report->0)),
{
    reveal(CloseRecord::is_proper);
    if record.before.outcome is None && record.run.stage != CloseStage::Done {
        law_close_outcome_is_saved_once(
            record.before,
            record.run,
            record.reply,
            record.now_ns,
            record.after,
            record.run_after,
            record.action,
        );
    }
}

/// Whether a report tells of a failure.
pub open spec fn tells_of(report: ReportModel, failure: FailureModel) -> bool {
    &&& report.phase == failure.phase
    &&& report.diagnostic == failure.diagnostic
    &&& report.resource_id == failure.resource_id
    &&& report.task_id == failure.task_id
}

proof fn lemma_contained_course(course: Seq<CloseRecord>, i: int, j: int)
    requires
        is_close_course(course),
        0 <= i <= j < course.len(),
        contains_failure(course[i].run.stage),
    ensures
        has_failed(course[j].run),
        course[j].run.first == course[i].run.first,
        course[j].run.stage == CloseStage::Retry ==> (course[j].run.report matches Some(report)
            && tells_of(report, course[i].run.first->0)),
    decreases j - i,
{
    if i < j {
        lemma_contained_course(course, i, j - 1);
        lemma_contained_step(course[j - 1]);
        assert(follow_on(course, j - 1));
    }
}

/// The failure that containment began with is the one that is reported: neither what containment
/// runs into nor a panic within it takes its place.
pub proof fn law_contained_failure_is_reported(course: Seq<CloseRecord>, i: int, j: int)
    requires
        is_close_course(course),
        0 <= i <= j < course.len(),
        contains_failure(course[i].run.stage),
        course[j].before.outcome is None,
        course[j].after.outcome is Some,
    ensures
        course[j].after.outcome matches Some(OutcomeModel::Failed(report)) && tells_of(
            report,
            course[i].run.first->0,
        ),
{
    lemma_contained_course(course, i, j);
    lemma_contained_step(course[j]);
}

/// A close saves one outcome: once it is saved, every later step of whoever runs it finds it saved
/// and answers with it.
pub proof fn law_saved_outcome_stays(
    course: Seq<CloseRecord>,
    i: int,
    j: int,
    outcome: OutcomeModel,
)
    requires
        is_close_course(course),
        0 <= i < j < course.len(),
        course[i].after.outcome == Some(outcome),
    ensures
        course[j].before.outcome == Some(outcome),
        course[j].after == course[j].before,
        course[j].action matches CloseAction::Done(told) && told@ == outcome,
    decreases j - i,
{
    assert(follow_on(course, j - 1));
    lemma_step_admits_nothing(course[j - 1]);
    if i < j - 1 {
        law_saved_outcome_stays(course, i, j - 1, outcome);
    }
    lemma_saved_outcome_is_told(course[j]);
}

proof fn lemma_close_goes_on(course: Seq<CloseRecord>, i: int)
    requires
        is_close_course(course),
        0 <= i < course.len(),
    ensures
        course[i].after.closing,
        course[i].after.state != RuntimeState::Active,
    decreases i,
{
    if i > 0 {
        lemma_close_goes_on(course, i - 1);
        assert(follow_on(course, i - 1));
    }
    lemma_step_admits_nothing(course[i]);
}

/// A Runtime is closed by one run: while it goes on and ever after, no other caller gets to run
/// the close, so what one run does once is done once in total.
pub proof fn law_close_runs_once(
    course: Seq<CloseRecord>,
    i: int,
    later: RuntimeModel,
    current: Option<TaskOwnerBinding<RuntimeId, TaskId>>,
    thread: u64,
    entered: Result<CloseEntry, CloseRejection>,
    after: RuntimeModel,
)
    requires
        is_close_course(course),
        0 <= i < course.len(),
        course[i].after.carries_over(later),
        close_entered(later, current, thread, entered, after),
    ensures
        entered is Ok ==> entered->Ok_0 !is Run,
        after == later,
{
    lemma_close_goes_on(course, i);
}

/// Everybody who closes a Runtime learns one and the same outcome: a call after it was saved, with
/// whatever calls in between, either is rejected as the caller deserves or gets that outcome, and
/// changes nothing. The state tells which outcome it is.
pub proof fn law_everyone_learns_the_saved_outcome(
    saved: RuntimeModel,
    later: RuntimeModel,
    current: Option<TaskOwnerBinding<RuntimeId, TaskId>>,
    thread: u64,
    entered: Result<CloseEntry, CloseRejection>,
    after: RuntimeModel,
)
    requires
        saved.valid(),
        saved.outcome is Some,
        saved.carries_over(later),
        later.valid(),
        close_entered(later, current, thread, entered, after),
    ensures
        after == later,
        entered is Err <==> later.close_rejection(current, thread) is Some,
        entered is Ok ==> (entered->Ok_0 matches CloseEntry::Finished(told) && Some(told@)
            == saved.outcome),
        later.state == RuntimeState::Closed <==> saved.outcome == Some(OutcomeModel::Closed),
        later.state == RuntimeState::CloseFailed <==> saved.outcome matches Some(
            OutcomeModel::Failed(_),
        ),
{
}

} // verus!
