//! Settlement owners: the one authority that may end an owned operation, and its claims.

use crate::model::TaskId;
use crate::operation::{
    ending_discards, ending_hooks, CandidateModel, ClaimAnswer, LegacyStart, SettlementEvidence,
    TerminalCandidate, TransitionOutcome,
};
use crate::runtime::{
    FinishStart, HookWave, Operation, OperationSettlementOwner, Runtime, RuntimeModel,
};
use vstd::prelude::*;

verus! {

/// Result of an attempt to fix the winner of an owned operation.
#[derive(Debug)]
pub enum ClaimOutcome {
    /// This caller fixed the winner and owns the deferred terminal transaction.
    Claimed(OperationSettlementClaim),
    /// Another claim already fixed a winner.
    Observe,
    /// The caller or its evidence cannot claim this operation.
    Rejected,
    /// The operation had already committed a terminal state.
    Closed,
}

/// A fixed winner whose terminal transaction is still to be finished or abandoned.
#[derive(Debug)]
pub struct OperationSettlementClaim {
    /// The operation that was claimed.
    pub operation: Operation,
    /// The authority that claimed it.
    pub owner_id: u64,
}

/// What settling an owned operation did.
pub enum SettleStart {
    /// Nothing: the answer is final.
    Rejected(TransitionOutcome),
    /// Another terminal transaction fixed the winner: the answer comes with its commit.
    Observe,
    /// A terminal transaction began: run its hooks, then the registered cleanup, then commit.
    Begun(HookWave),
}

impl RuntimeModel {
    /// The Runtime after a settlement owner claimed an operation. A cancellation that won becomes
    /// the public state.
    pub open spec fn claimed(
        self,
        slot: int,
        owner_id: u64,
        evidence: SettlementEvidence,
        candidate: CandidateModel,
        now_ns: Option<u64>,
    ) -> RuntimeModel {
        let operation = self.operations[slot];
        let id = operation.token.node as int;
        let after = operation.after_claim(
            owner_id,
            evidence,
            candidate,
            ending_hooks(self.tree, id),
            ending_discards(self.tree, id),
        );
        RuntimeModel {
            tree: if operation.claim_fixes(owner_id, evidence, candidate) {
                crate::cancellation::ended_tree(self.tree, id)
            } else {
                self.tree
            },
            ..self.put(slot, after, after.state != operation.state, now_ns)
        }
    }

    /// The Runtime after a held claim started to finish.
    pub open spec fn finishing(self, slot: int, owner_id: u64) -> RuntimeModel {
        self.put(slot, self.operations[slot].after_finish_begins(owner_id), false, None)
    }
}

impl OperationSettlementOwner {
    /// Fixes the unique winner from settlement evidence without committing a terminal result.
    ///
    /// Nothing foreign runs here: the hooks that the sealed token set free wait with the claim.
    pub fn claim(
        &self,
        runtime: &mut Runtime,
        evidence: SettlementEvidence,
        candidate: TerminalCandidate,
        now_ns: Option<u64>,
    ) -> (outcome: ClaimOutcome)
        requires
            old(runtime).valid(),
            old(runtime)@.owns(self.operation),
        ensures
            final(runtime).valid(),
            old(runtime)@.carries_over(final(runtime)@),
            final(runtime)@ == old(runtime)@.claimed(
                self.operation.slot as int,
                self.owner_id,
                evidence,
                candidate@,
                now_ns,
            ),
            ({
                let answer = old(runtime)@.at(self.operation).claim_answer(
                    self.owner_id,
                    evidence,
                    candidate@,
                );
                &&& outcome is Claimed <==> answer == ClaimAnswer::Claimed
                &&& outcome is Observe <==> answer == ClaimAnswer::Observe
                &&& outcome is Rejected <==> answer == ClaimAnswer::Rejected
                &&& outcome is Closed <==> answer == ClaimAnswer::Closed
            }),
            outcome matches ClaimOutcome::Claimed(claim) ==> claim.operation == self.operation
                && claim.owner_id == self.owner_id,
    {
        let ghost before = runtime@;
        let ghost asked = candidate@;
        let slot: usize = self.operation.slot;
        assert(before.operations[slot as int] == runtime.operations[slot as int]@);
        let operation = &mut runtime.operations[slot];
        let (answer, publish) = operation.claim_owned(
            &mut runtime.tree,
            self.owner_id,
            evidence,
            candidate,
        );
        proof {
            let after = runtime.operations[slot as int]@;
            assert(runtime@.operations =~= before.operations.update(slot as int, after));
            assert(runtime@.tree.len() == before.tree.len());
        }
        if publish {
            runtime.announce_operation(slot, now_ns);
        }
        assert(runtime@ =~= before.claimed(slot as int, self.owner_id, evidence, asked, now_ns));
        match answer {
            ClaimAnswer::Claimed => ClaimOutcome::Claimed(
                OperationSettlementClaim { operation: self.operation, owner_id: self.owner_id },
            ),
            ClaimAnswer::Observe => ClaimOutcome::Observe,
            ClaimAnswer::Rejected => ClaimOutcome::Rejected,
            ClaimAnswer::Closed => ClaimOutcome::Closed,
        }
    }

    /// Claims the unique winner and starts to finish it at once.
    pub fn settle(
        self,
        runtime: &mut Runtime,
        evidence: SettlementEvidence,
        candidate: TerminalCandidate,
        now_ns: Option<u64>,
    ) -> (start: SettleStart)
        requires
            old(runtime).valid(),
            old(runtime)@.owns(self.operation),
        ensures
            final(runtime).valid(),
            old(runtime)@.carries_over(final(runtime)@),
            ({
                let slot = self.operation.slot as int;
                let answer = old(runtime)@.at(self.operation).claim_answer(
                    self.owner_id,
                    evidence,
                    candidate@,
                );
                let claimed = old(runtime)@.claimed(
                    slot,
                    self.owner_id,
                    evidence,
                    candidate@,
                    now_ns,
                );
                &&& start is Begun <==> answer == ClaimAnswer::Claimed
                &&& start is Observe <==> answer == ClaimAnswer::Observe
                &&& start matches SettleStart::Rejected(outcome) ==> outcome == if answer
                    == ClaimAnswer::Closed {
                    TransitionOutcome::AlreadyTerminal
                } else {
                    TransitionOutcome::Invalid
                }
                &&& start matches SettleStart::Begun(wave) ==> wave.valid() && wave@
                    == claimed.operations[slot].owner->0.claimed->0.held_hooks
                    && wave.discarded@
                    == claimed.operations[slot].owner->0.claimed->0.held_discarded
                &&& final(runtime)@ == if answer == ClaimAnswer::Claimed {
                    claimed.finishing(slot, self.owner_id)
                } else {
                    claimed
                }
            }),
    {
        match self.claim(runtime, evidence, candidate, now_ns) {
            ClaimOutcome::Claimed(claim) => match claim.finish(runtime) {
                FinishStart::Begun(wave) => SettleStart::Begun(wave),
                FinishStart::Rejected(outcome) => SettleStart::Rejected(outcome),
                FinishStart::Observe => SettleStart::Observe,
            },
            ClaimOutcome::Observe => SettleStart::Observe,
            ClaimOutcome::Rejected => SettleStart::Rejected(TransitionOutcome::Invalid),
            ClaimOutcome::Closed => SettleStart::Rejected(TransitionOutcome::AlreadyTerminal),
        }
    }

    /// Stores mutually exclusive evidence in the pre-registered transferable record.
    ///
    /// This does not claim a terminal winner. Supervision may consume the record only after the
    /// original owner task has been joined.
    pub fn record_for_handoff(
        &self,
        runtime: &mut Runtime,
        evidence: SettlementEvidence,
        candidate: TerminalCandidate,
    ) -> (outcome: TransitionOutcome)
        requires
            old(runtime).valid(),
            old(runtime)@.owns(self.operation),
        ensures
            final(runtime).valid(),
            old(runtime)@.carries_over(final(runtime)@),
            outcome == old(runtime)@.at(self.operation).record_outcome(
                self.owner_id,
                evidence,
                candidate@,
            ),
            final(runtime)@ == old(runtime)@.put(
                self.operation.slot as int,
                old(runtime)@.at(self.operation).recorded(self.owner_id, evidence, candidate@),
                false,
                None,
            ),
    {
        let ghost before = runtime@;
        let slot: usize = self.operation.slot;
        assert(before.operations[slot as int] == runtime.operations[slot as int]@);
        let operation = &mut runtime.operations[slot];
        let outcome = operation.record_for_handoff(self.owner_id, evidence, candidate);
        proof {
            let after = runtime.operations[slot as int]@;
            assert(runtime@.operations =~= before.operations.update(slot as int, after));
        }
        outcome
    }

    /// Returns whether this owner settles an operation of `runtime`.
    pub fn belongs_to(&self, runtime: &Runtime) -> (belongs: bool)
        ensures
            belongs == (self.operation.runtime == runtime@.id),
    {
        self.operation.runtime.0 == runtime.id.0
    }

    /// Binds this owner to the task that runs it; once only.
    pub(crate) fn bind_task(&self, runtime: &mut Runtime, task: TaskId) -> (done: bool)
        requires
            old(runtime).valid(),
            old(runtime)@.owns(self.operation),
        ensures
            final(runtime).valid(),
            done == old(runtime)@.at(self.operation).may_bind(self.owner_id),
            final(runtime)@ == old(runtime)@.put(
                self.operation.slot as int,
                old(runtime)@.at(self.operation).bound(self.owner_id, task),
                false,
                None,
            ),
    {
        let ghost before = runtime@;
        let slot: usize = self.operation.slot;
        assert(before.operations[slot as int] == runtime.operations[slot as int]@);
        let operation = &mut runtime.operations[slot];
        let done: bool = operation.bind_owner_task(self.owner_id, task);
        proof {
            let after = runtime.operations[slot as int]@;
            assert(runtime@.operations =~= before.operations.update(slot as int, after));
        }
        done
    }
}

impl OperationSettlementClaim {
    /// Starts to complete the frozen transaction after domain-specific cleanup has settled.
    ///
    /// A domain error is retained as the first cleanup failure, and the registered cleanup and its
    /// observer still run once, before [`Operation::commit`].
    pub fn finish(self, runtime: &mut Runtime) -> (start: FinishStart)
        requires
            old(runtime).valid(),
            old(runtime)@.owns(self.operation),
        ensures
            final(runtime).valid(),
            old(runtime)@.carries_over(final(runtime)@),
            start !is Observe,
            ({
                let operation = old(runtime)@.at(self.operation);
                &&& start is Begun <==> operation.finish_begins(self.owner_id)
                &&& start matches FinishStart::Rejected(outcome) ==> outcome == if
                    crate::operation::terminal(operation.state) {
                    TransitionOutcome::AlreadyTerminal
                } else {
                    TransitionOutcome::Invalid
                }
                &&& start matches FinishStart::Begun(wave) ==> wave.valid() && wave@
                    == operation.owner->0.claimed->0.held_hooks && wave.discarded@
                    == operation.owner->0.claimed->0.held_discarded
            }),
            final(runtime)@ == old(runtime)@.finishing(
                self.operation.slot as int,
                self.owner_id,
            ),
    {
        let ghost before = runtime@;
        let slot: usize = self.operation.slot;
        assert(before.operations[slot as int] == runtime.operations[slot as int]@);
        let operation = &mut runtime.operations[slot];
        let start = operation.finish_claimed(self.owner_id);
        proof {
            let after = runtime.operations[slot as int]@;
            assert(runtime@.operations =~= before.operations.update(slot as int, after));
        }
        match start {
            LegacyStart::Rejected(outcome) => FinishStart::Rejected(outcome),
            LegacyStart::Observe => FinishStart::Observe,
            LegacyStart::Begun(propagation) => FinishStart::Begun(HookWave::of(propagation)),
        }
    }

    /// Gives the claim up unfinished: its winner stays fixed, and only the same owner, with the same
    /// evidence, can take it up again. Returns whether observers are to be told.
    pub fn abandon(self, runtime: &mut Runtime) -> (notify: bool)
        requires
            old(runtime).valid(),
            old(runtime)@.owns(self.operation),
        ensures
            final(runtime).valid(),
            old(runtime)@.carries_over(final(runtime)@),
            notify == old(runtime)@.at(self.operation).abandons(self.owner_id),
            final(runtime)@ == old(runtime)@.put(
                self.operation.slot as int,
                old(runtime)@.at(self.operation).after_abandon(self.owner_id),
                false,
                None,
            ),
    {
        let ghost before = runtime@;
        let slot: usize = self.operation.slot;
        assert(before.operations[slot as int] == runtime.operations[slot as int]@);
        let operation = &mut runtime.operations[slot];
        let notify: bool = operation.abandon_claimed(self.owner_id);
        proof {
            let after = runtime.operations[slot as int]@;
            assert(runtime@.operations =~= before.operations.update(slot as int, after));
        }
        notify
    }
}

} // verus!
