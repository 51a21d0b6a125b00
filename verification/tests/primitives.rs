//! Tokens, clocks, deadlines, arbitration, task lifecycles and waits, each on its own.

use easycon::cancellation::{
    seal_cancelled_tree, seal_deactivated_tree, CancellationToken, CancellationTree, HookAdmission,
};
use easycon::clock::{
    reading_of, remaining_until, Clock, ClockReceiveError, DeadlineId, SystemClock, VirtualClock,
};
use easycon::concurrency::{
    admit_child_while_locked, cancellation_admission_open, claim_cancellation,
    evidence_allows_winner, runtime_close_rejected, task_join_rejected, unlink_then_notify,
    ChildAdmission, Retirement, TaskLifecycleState, TaskOwnerBinding, TerminalArbiterState,
    TerminalClaimResult, TerminalEvidenceKind, TerminalWinnerKind,
};
use easycon::deadline::{
    CommitFollowUp, DeadlineOutcome, DeadlinePoll, DeadlineRegistration, DeadlineResolution,
    DeadlineResolutionState, DeadlineScheduler,
};
use easycon::event::{
    EventDraft, EventGap, EventKind, Severity, SubscriptionInner, SubscriptionOptions, SubscriptionRead,
};
use easycon::event_hub::EventHub;
use easycon::model::{EasyConError, ErrorCode, ErrorDomain, OperationId, ResourceId, RuntimeId};
use easycon::operation::{
    cancellation_error, state_code, terminal_code, CancellationReason, OperationState,
    OperationValue, TerminalCandidate,
};
use easycon::wait::{look_again, wait_step, Look, WaitStep, WaitTimeout};
use std::time::Duration;

const TARGET_NS: u64 = 10;

// ---- cancellation ----

#[test]
fn parent_cancel_propagates_and_wakes_once() {
    let mut tree = CancellationTree::new();
    let root = CancellationToken::root(&mut tree);
    let child = root.child(&mut tree);
    let grandchild = child.child(&mut tree);
    grandchild.on_cancel(&mut tree, 1);

    let mut woken = root.cancel(&mut tree).hooks;
    woken.extend(root.cancel(&mut tree).hooks);

    assert!(root.is_cancelled(&tree));
    assert!(child.is_cancelled(&tree));
    assert!(grandchild.is_cancelled(&tree));
    assert_eq!(woken, [1]);
}

#[test]
fn child_cancel_does_not_cancel_siblings_or_parent() {
    let mut tree = CancellationTree::new();
    let root = CancellationToken::root(&mut tree);
    let left = root.child(&mut tree);
    let right = root.child(&mut tree);

    left.cancel(&mut tree);

    assert!(left.is_cancelled(&tree));
    assert!(!right.is_cancelled(&tree));
    assert!(!root.is_cancelled(&tree));
}

#[test]
fn parent_cancel_releases_live_child_history_after_propagation() {
    let mut tree = CancellationTree::new();
    let root = CancellationToken::root(&mut tree);
    let child = root.child(&mut tree);

    root.cancel(&mut tree);

    assert!(child.is_cancelled(&tree));
    assert_eq!(root.child_count(&tree), 0);
}

#[test]
fn creating_children_prunes_dropped_history() {
    let mut tree = CancellationTree::new();
    let root = CancellationToken::root(&mut tree);
    for _ in 0..128 {
        let child = root.child(&mut tree);
        child.release(&mut tree);
    }
    let live = root.child(&mut tree);

    assert_eq!(root.child_count(&tree), 1);
    assert!(!live.is_cancelled(&tree));
}

#[test]
fn dropped_scoped_hook_is_not_called() {
    let mut tree = CancellationTree::new();
    let token = CancellationToken::root(&mut tree);
    let (registration, admission) = token.on_cancel_scoped(&mut tree, 1);
    assert_eq!(admission, HookAdmission::Registered);
    registration.release(&mut tree);

    assert!(token.cancel(&mut tree).hooks.is_empty());
}

#[test]
fn repeated_scoped_hooks_prune_inactive_history() {
    let mut tree = CancellationTree::new();
    let token = CancellationToken::root(&mut tree);
    for hook in 0..128 {
        let (registration, _) = token.on_cancel_scoped(&mut tree, hook);
        registration.release(&mut tree);
    }
    token.on_cancel(&mut tree, 500);

    assert_eq!(token.hook_count(&tree), 1);
}

#[test]
fn child_created_after_parent_deactivation_is_cancelled_without_history() {
    let mut tree = CancellationTree::new();
    let root = CancellationToken::root(&mut tree);
    root.deactivate(&mut tree);

    let child = root.child(&mut tree);

    assert!(child.is_cancelled(&tree));
    assert_eq!(root.child_count(&tree), 0);
    assert!(root.try_child(&mut tree).is_none());
}

#[test]
fn hook_panic_does_not_skip_later_hooks_or_children() {
    let mut tree = CancellationTree::new();
    let root = CancellationToken::root(&mut tree);
    let child = root.child(&mut tree);
    let grandchild = child.child(&mut tree);
    root.on_cancel(&mut tree, 1);
    root.on_cancel(&mut tree, 2);
    child.on_cancel(&mut tree, 3);

    // Every hook is handed out before the first of them runs.
    let propagation = root.cancel(&mut tree);

    assert_eq!(propagation.hooks, [1, 2, 3]);
    assert!(child.is_cancelled(&tree));
    assert!(grandchild.is_cancelled(&tree));
}

#[test]
fn a_late_hook_of_a_cancelled_token_runs_at_once() {
    let mut tree = CancellationTree::new();
    let root = CancellationToken::root_for_runtime(&mut tree, RuntimeId(4));
    let child = root.child(&mut tree);
    assert_eq!(child.owner(&tree), Some(RuntimeId(4)));
    assert_eq!(child.on_cancel(&mut tree, 1), HookAdmission::Registered);
    assert_eq!(root.cancel(&mut tree).hooks, [1]);
    assert_eq!(child.on_cancel(&mut tree, 2), HookAdmission::InvokeNow);
    let ended = CancellationToken::root(&mut tree);
    ended.on_cancel(&mut tree, 7);
    let propagation = ended.deactivate(&mut tree);
    assert!(propagation.hooks.is_empty());
    assert_eq!(propagation.discarded, [7]);
    assert_eq!(ended.on_cancel(&mut tree, 3), HookAdmission::Ignored);
    assert!(!ended.is_cancelled(&tree));
    assert!(!ended.is_active(&tree));
}

#[test]
fn parent_terminal_linearizes_against_child_admission() {
    for admitted_first in [true, false] {
        let mut tree = CancellationTree::new();
        let parent = CancellationToken::root(&mut tree);
        let mut hooks = Vec::new();
        let mut discarded = Vec::new();
        let child = if admitted_first { parent.try_child(&mut tree) } else { None };
        seal_deactivated_tree(&mut tree, parent, &mut hooks, &mut discarded);
        if let Some(child) = child {
            assert!(child.is_cancelled(&tree));
        }
        assert!(parent.try_child(&mut tree).is_none());
    }
}

#[test]
fn cancellation_hook_panic_does_not_truncate_propagation() {
    let mut tree = CancellationTree::new();
    let root = CancellationToken::root(&mut tree);
    let child = root.child(&mut tree);
    for hook in [1, 2, 3] {
        root.on_cancel(&mut tree, hook);
    }

    let mut calls = Vec::new();
    for _ in 0..2 {
        let mut hooks = Vec::new();
        let mut discarded = Vec::new();
        seal_cancelled_tree(&mut tree, root, &mut hooks, &mut discarded);
        assert!(child.is_cancelled(&tree), "the tree is sealed before any hook runs");
        calls.extend(hooks);
    }

    assert!(root.is_cancelled(&tree));
    assert_eq!(calls.iter().filter(|hook| **hook == 3).count(), 1);
    assert!(child.is_cancelled(&tree));
}

#[test]
fn terminal_deactivation_defers_hook_drop_until_state_unlock() {
    let mut tree = CancellationTree::new();
    let cancellation = CancellationToken::root(&mut tree);
    cancellation.on_cancel(&mut tree, 1);

    let mut hooks = Vec::new();
    let mut discarded = Vec::new();
    seal_deactivated_tree(&mut tree, cancellation, &mut hooks, &mut discarded);

    assert!(hooks.is_empty());
    assert_eq!(discarded, [1]);
}

// ---- clocks ----

#[test]
fn virtual_clock_records_deadlines_wakes_and_dispatch() {
    let mut clock = VirtualClock::new(10);
    let later = clock.register_deadline(30);
    let earlier = clock.register_deadline(20);
    let receiver = clock.subscribe();

    clock.advance_to(20);
    assert!(receiver.try_recv(&mut clock).is_ok());
    assert_eq!(clock.wake_order(), vec![earlier]);

    clock.advance_to(30);
    clock.record_dispatch(later, 31);
    assert_eq!(clock.wake_order(), vec![earlier, later]);
    assert_eq!(clock.deadline_trace()[0].dispatched_at_ns, Some(31));
}

#[test]
fn virtual_clock_notifies_listeners_and_hooks() {
    let mut clock = VirtualClock::default();
    assert_eq!(clock.now_ns(), 0);
    assert_eq!(clock.real_wait_duration(100), None);
    let receiver = clock.subscribe();
    clock.on_change(77);
    assert_eq!(receiver.try_recv(&mut clock), Err(ClockReceiveError::Empty));
    assert_eq!(clock.advance_by(Duration::from_nanos(5)), vec![77]);
    assert_eq!(clock.now_ns(), 5);
    assert_eq!(clock.advance_by(Duration::from_nanos(1)), vec![77]);
    assert!(receiver.try_recv(&mut clock).is_ok());
    assert_eq!(receiver.try_recv(&mut clock), Err(ClockReceiveError::Empty));
    receiver.disconnect(&mut clock);
    clock.advance_to(6);
    assert_eq!(receiver.try_recv(&mut clock), Err(ClockReceiveError::Disconnected));
    assert!(clock.try_advance_by(Duration::MAX).is_none());
    assert_eq!(clock.now_ns(), 6);
    assert!(clock.try_advance_by(Duration::from_nanos(4)).is_some());
    assert_eq!(clock.now_ns(), 10);
    let late = clock.register_deadline(9);
    assert_eq!(late.get(), 1);
}

#[test]
fn advancing_in_two_steps_wakes_the_same_deadlines() {
    let mut once = VirtualClock::new(0);
    let mut twice = VirtualClock::new(0);
    for target in [30, 10, 20] {
        once.register_deadline(target);
        twice.register_deadline(target);
    }
    once.advance_to(30);
    twice.advance_to(15);
    twice.advance_to(30);
    assert_eq!(once.deadline_trace(), twice.deadline_trace());
    assert_eq!(once.wake_order(), [DeadlineId(1), DeadlineId(2), DeadlineId(3)]);
    assert_eq!(twice.wake_order(), [DeadlineId(2), DeadlineId(1), DeadlineId(3)]);
    twice.advance_to(30);
    assert_eq!(twice.wake_order().len(), 3);
    assert!(twice.has_ids_left() && twice.has_listeners_left());
}

#[test]
fn system_clock_moves_on_and_waits_for_what_is_left() {
    let mut clock = SystemClock::new();
    let first = clock.now_ns();
    while clock.now_ns() <= first {}
    assert!(clock.now_ns() > first);
    let target = clock.now_ns() + 1_000_000_000;
    let wait = clock.real_wait_duration(target).expect("a real clock waits");
    assert!(wait > Duration::ZERO && wait <= Duration::from_secs(1));
    assert_eq!(clock.real_wait_duration(0), Some(Duration::ZERO));
    let a = clock.register_deadline(1);
    let b = clock.register_deadline(1);
    assert_ne!(a, b);
    clock.record_dispatch(a, 2);
    let one = clock.subscribe();
    let two = clock.subscribe();
    assert_ne!(one, two);
    clock.on_change(5);
    assert!(clock.has_ids_left());
    assert_eq!(SystemClock::default().register_deadline(9).get(), 1);
    assert_eq!(reading_of(7), 7);
    assert_eq!(reading_of(u128::MAX), u64::MAX);
    assert_eq!(remaining_until(10, 4), Duration::from_nanos(6));
    assert_eq!(remaining_until(4, 10), Duration::ZERO);
}

// ---- waits ----

#[test]
fn a_wait_asks_for_what_is_left_of_it() {
    assert_eq!(wait_step(WaitTimeout::Poll, 0), WaitStep::Timeout);
    assert_eq!(wait_step(WaitTimeout::Infinite, u128::MAX), WaitStep::Block);
    let wait = WaitTimeout::For(Duration::from_nanos(10));
    assert_eq!(wait_step(wait, 4), WaitStep::BlockFor(6));
    assert_eq!(wait_step(wait, 10), WaitStep::BlockFor(0));
    assert_eq!(wait_step(wait, 11), WaitStep::Timeout);
    assert!(matches!(look_again(wait, 4, true, 'x'), Look::Done('x')));
    assert!(matches!(look_again(wait, 4, false, 'x'), Look::Sleep(WaitStep::BlockFor(6))));
}

// ---- deadlines ----

fn register(
    scheduler: &mut DeadlineScheduler,
    trace: u64,
    now_ns: u64,
) -> (DeadlineRegistration, CommitFollowUp) {
    let admission = scheduler.reserve(TARGET_NS).expect("registration");
    admission.commit(scheduler, DeadlineId(trace), now_ns)
}

fn outcome(
    scheduler: &DeadlineScheduler,
    registration: &DeadlineRegistration,
) -> DeadlineOutcome {
    registration.signal().resolution(scheduler).expect("deadline must resolve")
}

#[test]
fn cached_not_due_registration_cannot_be_overtaken_at_same_target() {
    let mut scheduler = DeadlineScheduler::new();
    // The first registration read the clock before it moved.
    let (first, _) = register(&mut scheduler, 1, 0);
    let (second, _) = register(&mut scheduler, 2, TARGET_NS);
    scheduler.fire_due_at(TARGET_NS);

    assert!(first.id() < second.id());
    assert!(outcome(&scheduler, &first).order < outcome(&scheduler, &second).order);
}

#[test]
fn pending_lower_id_blocks_same_target_dispatch_until_it_commits() {
    let mut scheduler = DeadlineScheduler::new();
    let first = scheduler.reserve(TARGET_NS).expect("first registration");
    let (second, _) = register(&mut scheduler, 2, TARGET_NS);
    assert_eq!(
        second.signal().resolution(&scheduler),
        None,
        "higher ID must wait for an earlier pending registration at the same target"
    );

    let (first, _) = first.commit(&mut scheduler, DeadlineId(1), 0);
    assert_eq!(scheduler.fire_due_at(TARGET_NS).len(), 2);

    assert!(first.id() < second.id());
    assert!(outcome(&scheduler, &first).order < outcome(&scheduler, &second).order);
}

#[test]
fn collected_lower_id_fire_batch_cannot_be_overtaken_by_due_registration() {
    let mut scheduler = DeadlineScheduler::new();
    let (first, _) = register(&mut scheduler, 1, 0);
    let batch = scheduler.fire_due_at(TARGET_NS);
    // The batch is not dispatched yet while the second deadline is registered.
    let (second, follow_up) = register(&mut scheduler, 2, TARGET_NS);

    assert_eq!(batch.len(), 1);
    assert_eq!(batch[0].id, first.id());
    assert!(matches!(follow_up, CommitFollowUp::Fired(notices) if notices.len() == 1));
    assert!(first.id() < second.id());
    assert!(outcome(&scheduler, &first).order < outcome(&scheduler, &second).order);
}

#[test]
fn dispatch_callback_can_reenter_due_registration_without_fire_gate() {
    let mut scheduler = DeadlineScheduler::new();
    let (outer, _) = register(&mut scheduler, 1, 0);
    let fired = scheduler.fire_due_at(TARGET_NS);
    let (nested, _) = register(&mut scheduler, 2, TARGET_NS);

    assert_eq!(fired.len(), 1);
    let outer_outcome = outcome(&scheduler, &outer);
    let nested_outcome = outcome(&scheduler, &nested);
    assert_eq!(outer_outcome.resolution, DeadlineResolution::Fired);
    assert_eq!(nested_outcome.resolution, DeadlineResolution::Fired);
    assert!(outer_outcome.order < nested_outcome.order);
}

#[test]
fn dispatch_panic_cannot_orphan_claimed_deadline_batch() {
    let mut scheduler = DeadlineScheduler::new();
    let (first, _) = register(&mut scheduler, 1, 0);
    let (second, _) = register(&mut scheduler, 2, 0);
    let batch = scheduler.fire_due_at(TARGET_NS);
    // Whatever becomes of the notices, the batch is committed.
    assert_eq!(batch.len(), 2);
    assert_eq!(first.disarm(&mut scheduler).resolution, DeadlineResolution::Fired);
    assert_eq!(second.disarm(&mut scheduler).resolution, DeadlineResolution::Fired);
    assert!(outcome(&scheduler, &first).order < outcome(&scheduler, &second).order);
}

#[test]
fn now_panic_after_trace_registration_cannot_leave_scheduler_entry() {
    let mut scheduler = DeadlineScheduler::new();
    let admission = scheduler.reserve(TARGET_NS).expect("reservation");
    scheduler.abandon_reservation(admission.id);

    assert_eq!(scheduler.next_target_ns(), None);
    assert!(scheduler.fire_due_at(TARGET_NS).is_empty());
}

#[test]
fn a_sealed_scheduler_admits_nothing() {
    let mut scheduler = DeadlineScheduler::new();
    let (armed, follow_up) = register(&mut scheduler, 1, 0);
    assert!(matches!(follow_up, CommitFollowUp::WakeWorker));
    assert_eq!(armed.target_ns(), TARGET_NS);
    assert_eq!(armed.id().get(), 1);
    assert_eq!(scheduler.next_target_ns(), Some(TARGET_NS));
    scheduler.seal_admission();
    assert!(scheduler.reserve(TARGET_NS).is_err());
    let notices = scheduler.drain_runtime_closed();
    assert_eq!(notices.len(), 1);
    assert_eq!(notices[0].trace_id, Some(DeadlineId(1)));
    assert_eq!(outcome(&scheduler, &armed).resolution, DeadlineResolution::RuntimeClosed);
}

#[test]
fn deadline_fire_disarm_and_close_resolve_exactly_once() {
    let resolutions = [
        DeadlineResolution::Fired,
        DeadlineResolution::Disarmed,
        DeadlineResolution::RuntimeClosed,
    ];
    for first in 0..3 {
        let mut state = DeadlineResolutionState::armed();
        let mut wins = 0;
        for turn in 0..3 {
            let index = (first + turn) % 3;
            let outcome =
                DeadlineOutcome { resolution: resolutions[index], order: index as u64 + 1 };
            if state.resolve(outcome) {
                wins += 1;
            }
        }
        assert_eq!(wins, 1);
        assert_eq!(state.outcome().expect("resolved").resolution, resolutions[first]);
    }
}

#[test]
fn deadline_poll_registration_linearizes_against_resolution() {
    let fired = DeadlineOutcome { resolution: DeadlineResolution::Fired, order: 1 };

    let mut state = DeadlineResolutionState::armed();
    let (poll, displaced) = state.poll_resolution(7);
    assert_eq!(poll, DeadlinePoll::Pending);
    assert_eq!(displaced, None);
    assert_eq!(state.resolve_and_take_waker(fired), Some(Some(7)));
    assert!(state.outcome().is_some());

    let mut state = DeadlineResolutionState::armed();
    assert_eq!(state.resolve_and_take_waker(fired), Some(None));
    let (poll, displaced) = state.poll_resolution(7);
    assert_eq!(poll, DeadlinePoll::Ready(fired));
    assert_eq!(displaced, Some(7), "a resolved deadline hands the candidate back");
    assert_eq!(state.resolve_and_take_waker(fired), None);
}

#[test]
fn a_seen_resolution_stays_and_ids_keep_their_order() {
    let mut scheduler = DeadlineScheduler::new();
    let (first, _) = register(&mut scheduler, 1, 0);
    let (second, _) = register(&mut scheduler, 2, 0);
    let (third, _) = register(&mut scheduler, 3, 0);
    assert!(first.id() < second.id() && second.id() < third.id());
    second.disarm(&mut scheduler);
    let seen = outcome(&scheduler, &second);
    assert_eq!(seen, DeadlineOutcome { resolution: DeadlineResolution::Disarmed, order: 1 });

    let fired = scheduler.fire_due_at(TARGET_NS);
    assert_eq!(fired.iter().map(|notice| notice.id).collect::<Vec<_>>(), [first.id(), third.id()]);
    assert_eq!((outcome(&scheduler, &first).order, outcome(&scheduler, &third).order), (2, 3));
    let (late, _) = register(&mut scheduler, 4, TARGET_NS);
    assert!(third.id() < late.id());
    assert_eq!(outcome(&scheduler, &late).order, 4);

    second.disarm(&mut scheduler);
    scheduler.seal_admission();
    assert!(scheduler.drain_runtime_closed().is_empty());
    assert_eq!(outcome(&scheduler, &second), seen);
    assert_eq!(outcome(&scheduler, &first).resolution, DeadlineResolution::Fired);
}

// ---- arbitration ----

#[test]
fn cancellation_intent_does_not_claim_before_accepted_evidence() {
    let mut state = TerminalArbiterState::new(1, None);
    assert_eq!(
        state.claim(1, TerminalEvidenceKind::EffectAccepted, TerminalWinnerKind::Success),
        TerminalClaimResult::Claimed
    );
    assert!(state.commit(1, TerminalWinnerKind::Success));
    assert_eq!(state.winner(), Some(TerminalWinnerKind::Success));
    assert!(state.committed());
}

#[test]
fn accepted_claim_is_stable_against_late_cancellation() {
    let mut state = TerminalArbiterState::new(1, None);
    assert_eq!(
        state.claim(1, TerminalEvidenceKind::EffectAccepted, TerminalWinnerKind::Success),
        TerminalClaimResult::Claimed
    );
    assert_eq!(
        state.claim(9, TerminalEvidenceKind::NotDelivered, TerminalWinnerKind::Cancellation),
        TerminalClaimResult::Observe
    );
    assert_eq!(
        state.claim(1, TerminalEvidenceKind::EffectAccepted, TerminalWinnerKind::Success),
        TerminalClaimResult::Observe
    );
    assert!(state.commit(1, TerminalWinnerKind::Success));
    assert_eq!(state.winner(), Some(TerminalWinnerKind::Success));
    assert!(state.committed());
}

#[test]
fn terminal_claim_and_commit_remain_unique() {
    for owner_first in [true, false] {
        let mut state = TerminalArbiterState::new(1, None);
        let mut claims = 0;
        for turn in 0..2 {
            if (turn == 0) == owner_first {
                let result = state.claim(
                    1,
                    TerminalEvidenceKind::EffectAccepted,
                    TerminalWinnerKind::Success,
                );
                if result == TerminalClaimResult::Claimed {
                    claims += 1;
                    assert!(state.commit(1, TerminalWinnerKind::Success));
                }
            } else {
                let result = state.claim(
                    2,
                    TerminalEvidenceKind::NotDelivered,
                    TerminalWinnerKind::Cancellation,
                );
                assert_ne!(result, TerminalClaimResult::Claimed);
            }
        }
        assert_eq!(claims, 1);
        assert_eq!(state.winner(), Some(TerminalWinnerKind::Success));
        assert!(state.committed());
        assert!(!state.commit(1, TerminalWinnerKind::Success));
    }
}

#[test]
fn terminal_handoff_requires_join_and_preheld_transfer_owner() {
    let mut state = TerminalArbiterState::new(1, Some(2));
    assert!(!state.handoff(2));
    assert!(!state.mark_primary_owner_joined(2));
    assert!(state.mark_primary_owner_joined(1));
    assert!(!state.handoff(3));
    let handoffs = (0..2).filter(|_| state.handoff(2)).count();
    assert_eq!(handoffs, 1);
    assert_eq!(
        state.claim(2, TerminalEvidenceKind::NotDelivered, TerminalWinnerKind::Cancellation),
        TerminalClaimResult::Claimed
    );
    assert!(state.commit(2, TerminalWinnerKind::Cancellation));
    assert_eq!(state.winner(), Some(TerminalWinnerKind::Cancellation));
    assert_eq!(state.primary_owner(), 1);
    assert_eq!(state.transfer_owner(), Some(2));
    assert!(state.primary_owner_joined());
}

#[test]
fn evidence_allows_only_its_own_winners() {
    let mut state = TerminalArbiterState::new(1, None);
    assert_eq!(
        state.claim(1, TerminalEvidenceKind::NotDelivered, TerminalWinnerKind::Success),
        TerminalClaimResult::RejectedEvidence
    );
    assert_eq!(
        state.claim(2, TerminalEvidenceKind::EffectAccepted, TerminalWinnerKind::Success),
        TerminalClaimResult::RejectedOwner
    );
    assert!(evidence_allows_winner(
        TerminalEvidenceKind::ExecutionFailed,
        TerminalWinnerKind::Failure
    ));
    assert!(!evidence_allows_winner(
        TerminalEvidenceKind::ExecutionFailed,
        TerminalWinnerKind::Success
    ));
}

#[derive(Clone, Copy, Debug, Eq, PartialEq)]
enum ModelTaskOutcome {
    Completed,
    Panicked,
}

fn model_supervised_task_lifecycle(outcome: ModelTaskOutcome) {
    let mut lifecycle = TaskLifecycleState::registered();
    assert!(!lifecycle.owner_bound());
    assert!(lifecycle.bind_owner_and_retain_handle());
    let owner = TaskOwnerBinding::new(1_usize, 7_usize);
    assert!(runtime_close_rejected(Some(owner), 1));
    assert!(lifecycle.complete_body(outcome));
    assert!(runtime_close_rejected(Some(owner), 1));
    assert!(task_join_rejected(Some(owner), 1, 7));
    assert!(!task_join_rejected(Some(owner), 1, 8));
    assert!(!runtime_close_rejected(Some(owner), 2));
    assert!(!runtime_close_rejected::<usize, usize>(None, 1));

    assert!(lifecycle.claim_join_handle());
    assert!(lifecycle.finish_join());
    let panic_diagnostic_required = outcome == ModelTaskOutcome::Panicked;
    if panic_diagnostic_required {
        assert!(!lifecycle.unlink_registry(true));
        assert!(lifecycle.persist_panic_diagnostic());
    }
    assert!(lifecycle.unlink_registry(panic_diagnostic_required));

    assert!(lifecycle.owner_bound());
    assert_eq!(lifecycle.body_outcome(), Some(outcome));
    assert!(lifecycle.thread_joined());
    assert!(!lifecycle.join_handle_retained());
    assert_eq!(
        lifecycle.panic_diagnostic_durable(),
        outcome == ModelTaskOutcome::Panicked
    );
    assert!(!lifecycle.registry_linked());
}

#[test]
fn supervised_task_self_close_is_rejected_through_thread_exit() {
    model_supervised_task_lifecycle(ModelTaskOutcome::Completed);
}

#[test]
fn supervised_task_panic_is_durable_before_registry_unlink() {
    model_supervised_task_lifecycle(ModelTaskOutcome::Panicked);
}

#[derive(Default)]
struct TerminalModel {
    unlink_fails: bool,
    registry_linked: bool,
    log: Vec<&'static str>,
    /// Whether the item was linked when its waiters were woken.
    seen: Option<bool>,
}

impl Retirement for TerminalModel {
    fn unlink(&mut self) -> bool {
        self.log.push("unlink");
        self.registry_linked = false;
        !self.unlink_fails
    }

    fn notify(&mut self) {
        self.log.push("notify");
        self.seen = Some(self.registry_linked);
    }
}

#[test]
fn terminal_commit_unlinks_registry_before_waiter_notification() {
    for unlink_fails in [false, true] {
        let mut item =
            TerminalModel { unlink_fails, registry_linked: true, ..TerminalModel::default() };
        assert_eq!(unlink_then_notify(&mut item), !unlink_fails);
        assert_eq!(item.log, ["unlink", "notify"]);
        assert_eq!(item.seen, Some(false));
    }
}

struct AdmissionModel {
    open: bool,
    /// Whether the parent ends while the child is linked.
    closes: bool,
    log: Vec<&'static str>,
}

impl ChildAdmission for AdmissionModel {
    fn admission_open(&mut self) -> bool {
        let ended = self.closes && !self.log.is_empty();
        self.log.push("look");
        cancellation_admission_open(self.open, ended)
    }

    fn link_child(&mut self) {
        self.log.push("link");
    }

    fn cancel_child(&mut self) {
        self.log.push("cancel");
    }
}

#[test]
fn a_child_is_linked_and_cancelled_where_admission_closed() {
    // Closed from the start, open throughout, and closed while the child is linked.
    let cases: [(bool, bool, &[&str]); 3] = [
        (false, false, &["look"]),
        (true, false, &["look", "link", "look"]),
        (true, true, &["look", "link", "look", "cancel"]),
    ];
    for (open, closes, expected) in cases {
        let mut admission = AdmissionModel { open, closes, log: Vec::new() };
        assert_eq!(admit_child_while_locked(&mut admission), open);
        assert_eq!(admission.log, expected);
    }
    assert!(claim_cancellation(false));
    assert!(!claim_cancellation(true));
    assert!(!cancellation_admission_open(true, true));
}

// ---- events ----

#[test]
fn sequences_grow_and_the_last_timestamp_is_kept() {
    let mut hub = EventHub::new();
    let first = hub
        .try_publish_event(9, EventDraft::ordinary(EventKind::Data, "a", Severity::Info))
        .expect("publish");
    let second = hub
        .try_publish_event(
            4,
            EventDraft::critical(EventKind::Warning, "b", Severity::Warning)
                .with_operation(OperationId(3))
                .with_resource(ResourceId(5))
                .with_detail("detail".to_string()),
        )
        .expect("publish");
    assert_eq!((first.sequence, second.sequence), (1, 2));
    assert_eq!(second.operation_id, Some(OperationId(3)));
    assert_eq!(second.resource_id, Some(ResourceId(5)));
    assert_eq!(second.detail, Some("detail".to_string()));
    assert_eq!((first.timestamp_ns, second.timestamp_ns), (9, 4));
    assert_eq!(hub.last_timestamp_ns(), 4);
    assert!(hub.sequences_left());
    hub.force_close();
    assert!(hub.is_closed());
    assert!(hub
        .try_publish_event(9, EventDraft::ordinary(EventKind::Data, "c", Severity::Info))
        .is_err());
}

#[test]
fn a_subscription_drains_before_it_closes() {
    let mut queue = SubscriptionInner::new(SubscriptionOptions::default());
    assert!(matches!(
        queue.read(WaitTimeout::Infinite, 0, false),
        Look::Sleep(WaitStep::Block)
    ));
    let mut hub = EventHub::new();
    let event = hub
        .try_publish_event(1, EventDraft::ordinary(EventKind::Data, "a", Severity::Info))
        .expect("publish");
    queue.enqueue(event.clone());
    assert_eq!(queue.queued_len(), 1);
    queue.close();
    assert!(matches!(
        queue.read(WaitTimeout::Poll, 0, false),
        Look::Done(SubscriptionRead::Event(read)) if read.code == "a"
    ));
    assert!(matches!(
        queue.read(WaitTimeout::Infinite, 0, false),
        Look::Done(SubscriptionRead::Closed)
    ));
    assert!(Severity::Debug.is_below(Severity::Info));
    assert!(!Severity::Error.is_below(Severity::Error));
}

#[test]
fn a_critical_event_yields_to_a_critical_one_alone() {
    let options = SubscriptionOptions { capacity: 2, ..SubscriptionOptions::default() };
    let mut queue = SubscriptionInner::new(options);
    let mut hub = EventHub::new();
    let critical = EventDraft::critical(EventKind::State, "c", Severity::Info);
    let ordinary = EventDraft::ordinary(EventKind::Data, "o", Severity::Info);
    for draft in [critical.clone(), critical.clone(), ordinary, critical] {
        queue.enqueue_accepted(hub.try_publish_event(1, draft).expect("publish"));
    }
    let mut read = Vec::new();
    while let Look::Done(SubscriptionRead::Event(event)) = queue.read(WaitTimeout::Poll, 0, false) {
        read.push((event.sequence, event.kind));
    }
    let gap = |first_sequence, last_sequence| {
        EventKind::Gap(EventGap { first_sequence, last_sequence, dropped_count: 1 })
    };
    let kinds: Vec<_> = read.iter().map(|(_, kind)| *kind).collect();
    assert_eq!(kinds, [gap(1, 1), EventKind::State, gap(3, 3), EventKind::State]);
    assert_eq!((read[1].0, read[3].0), (2, 4));
}

#[test]
fn interleaved_offers_and_reads_account_for_every_event() {
    let options = SubscriptionOptions { capacity: 2, ..SubscriptionOptions::default() };
    let mut queue = SubscriptionInner::new(options);
    let mut hub = EventHub::new();
    let mut delivered: Vec<(u64, u64, u64)> = Vec::new();
    for turn in 0..12_u64 {
        for _ in 0..turn % 4 {
            let draft = EventDraft::ordinary(EventKind::Data, "a", Severity::Info);
            let event = hub.try_publish_event(turn, draft).expect("publish");
            queue.enqueue(event);
            assert!(queue.queued_len() <= 2);
        }
        if let Look::Done(SubscriptionRead::Event(read)) = queue.read(WaitTimeout::Poll, 0, false) {
            delivered.push(match read.kind {
                EventKind::Gap(EventGap { first_sequence, last_sequence, dropped_count }) => {
                    (first_sequence, last_sequence, dropped_count)
                }
                _ => (read.sequence, read.sequence, 1),
            });
        }
    }
    queue.close();
    while let Look::Done(SubscriptionRead::Event(read)) = queue.read(WaitTimeout::Poll, 0, false) {
        delivered.push(match read.kind {
            EventKind::Gap(EventGap { first_sequence, last_sequence, dropped_count }) => {
                (first_sequence, last_sequence, dropped_count)
            }
            _ => (read.sequence, read.sequence, 1),
        });
    }

    assert!(delivered.iter().any(|(_, _, count)| *count > 1), "some events were dropped");
    assert!(delivered.windows(2).all(|pair| pair[0].1 + 1 == pair[1].0));
    assert_eq!((delivered[0].0, delivered[delivered.len() - 1].1), (1, 18));
    assert_eq!(delivered.iter().map(|(_, _, count)| count).sum::<u64>(), 18);
}

// ---- values ----

#[test]
fn codes_and_errors_name_what_they_stand_for() {
    assert_eq!(state_code(OperationState::Running), "runtime.operation.running");
    assert_eq!(state_code(OperationState::Cancelling), "runtime.operation.cancelling");
    assert_eq!(terminal_code(OperationState::Failed), "runtime.operation.failed");
    assert_eq!(
        cancellation_error(CancellationReason::Deadline).code(),
        ErrorCode::DeadlineExceeded
    );
    assert_eq!(
        cancellation_error(CancellationReason::ParentClose).code(),
        ErrorCode::Cancelled
    );
    let error = EasyConError::new(ErrorDomain::Runtime, ErrorCode::Internal, "text");
    assert_eq!(error.message(), "text");
    assert!(error.same_as(&error.clone()));
    assert!(!error.same_as(&EasyConError::new(
        ErrorDomain::Runtime,
        ErrorCode::Internal,
        "other"
    )));
    let bytes = OperationValue::Bytes(vec![1, 2, 3]);
    assert!(bytes.same_as(&bytes.clone()));
    assert!(!bytes.same_as(&OperationValue::Bytes(vec![1, 2])));
    assert!(!bytes.same_as(&OperationValue::Unit));
    assert!(TerminalCandidate::Cancellation.same_as(&TerminalCandidate::Cancellation));
}
