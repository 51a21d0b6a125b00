//! The byte-I/O boundary: what one call is asked to do, when it is interrupted, and how its last
//! byte settles a logical write.

use crate::cancellation::{CancellationToken, CancellationTree};
use crate::model::{OperationId, ResourceId};
use crate::serial::discovery::{PortModel, SerialPortDescriptor};
use crate::serial::error::{
    error_view, plain_error, SerialError, SerialErrorKind, SerialErrorModel,
};
use vstd::prelude::*;

verus! {

/// What a logical write carries.
#[derive(Clone, Copy, Debug, PartialEq, Eq, Structural)]
pub enum WriteKind {
    /// A command that a device answers.
    Command,
    /// One report of the controller's state.
    Report,
    /// The report that releases every button.
    Neutralize,
}

/// Identity of one logical write. Each of its partial calls carries the same one.
#[derive(Clone, Copy, Debug)]
pub struct WriteContext {
    pub resource_id: ResourceId,
    pub operation_id: Option<OperationId>,
    pub sequence: u64,
    pub timestamp_ns: u64,
    /// Number of the timing record of a write that is timed directly.
    pub direct_timing: Option<u64>,
    /// Length of the whole payload.
    pub total_len: usize,
    pub kind: WriteKind,
}

impl WriteContext {
    /// Returns whether two partial calls belong to one logical write.
    pub fn same_as(&self, other: &WriteContext) -> (same: bool)
        ensures
            same == (*self == *other),
    {
        let same_operation: bool = match (self.operation_id, other.operation_id) {
            (Some(left), Some(right)) => left.0 == right.0,
            (None, None) => true,
            _ => false,
        };
        let same_timing: bool = match (self.direct_timing, other.direct_timing) {
            (Some(left), Some(right)) => left == right,
            (None, None) => true,
            _ => false,
        };
        self.resource_id.0 == other.resource_id.0 && same_operation && self.sequence
            == other.sequence && self.timestamp_ns == other.timestamp_ns && same_timing
            && self.total_len == other.total_len && self.kind == other.kind
    }
}

/// Logical purpose carried across injectable byte-I/O calls without interpreting device state.
#[derive(Clone, Copy, Debug)]
pub enum ByteIoOperation {
    /// Opening a stream for one handshake attempt.
    Open,
    /// Writing source-exact handshake bytes.
    HandshakeWrite,
    /// Reading the handshake reply.
    HandshakeRead,
    /// One partial call belonging to a Controller logical write.
    ControllerWrite(WriteContext),
    /// Reading one ACK for the current matcher generation.
    AckRead { generation: u64 },
    /// Purging bytes before a command generation starts.
    DiscardInput { write_sequence: u64 },
}

/// Final-byte settlement capability carried from the Controller transport to one byte-I/O call. It
/// is inert for partial completions.
#[derive(Clone, Copy, Debug)]
pub struct ByteIoFinalWriteSettlement {
    /// Handle of the latch that accepts the logical write.
    pub settlement: u64,
    /// Bytes of the logical write that earlier calls accepted.
    pub accepted_before: usize,
    /// Length of the logical write.
    pub total_len: usize,
}

/// Shared absolute-deadline and cancellation context for one byte-I/O call.
#[derive(Clone, Copy, Debug)]
pub struct ByteIoRequest {
    /// Logical operation at the serial/Controller boundary.
    pub operation: ByteIoOperation,
    /// Absolute deadline on the transport's clock.
    pub deadline_ns: u64,
    /// Cancellation owned by the current Controller operation.
    pub cancellation: CancellationToken,
    /// Cancellation owned by the Controller resource.
    pub resource_cancellation: CancellationToken,
    /// Final-byte latch carried only by one Controller logical write.
    pub final_write_settlement: Option<ByteIoFinalWriteSettlement>,
}

/// The failure of a call that proved that it accepted no bytes.
pub open spec fn zero_effect_error(kind: SerialErrorKind, message: Seq<char>) -> SerialErrorModel {
    SerialErrorModel { zero_effect: true, ..plain_error(kind, message) }
}

/// What interrupts a call: cancellation before its deadline.
pub open spec fn interruption_of(cancelled: bool, now_ns: u64, deadline_ns: u64) -> Option<
    SerialErrorModel,
> {
    if cancelled {
        Some(zero_effect_error(SerialErrorKind::Cancelled, "serial byte I/O was cancelled"@))
    } else if now_ns >= deadline_ns {
        Some(
            zero_effect_error(
                SerialErrorKind::DeadlineExceeded,
                "serial byte I/O deadline elapsed"@,
            ),
        )
    } else {
        None
    }
}

/// Returns the failure of a cancelled call.
pub fn cancelled_call() -> (error: SerialError)
    ensures
        forall|now_ns: u64, deadline_ns: u64|
            Some(error@) == #[trigger] interruption_of(true, now_ns, deadline_ns),
{
    SerialError::zero_effect(SerialErrorKind::Cancelled, "serial byte I/O was cancelled")
}

/// Returns the failure of a call that is not cancelled, where its deadline has elapsed.
pub fn elapsed_call(now_ns: u64, deadline_ns: u64) -> (error: Option<SerialError>)
    ensures
        error_view(error) == interruption_of(false, now_ns, deadline_ns),
{
    if now_ns >= deadline_ns {
        Some(
            SerialError::zero_effect(
                SerialErrorKind::DeadlineExceeded,
                "serial byte I/O deadline elapsed",
            ),
        )
    } else {
        None
    }
}

/// How far the settlement of a call has come.
#[derive(Clone, Copy, Debug, PartialEq, Eq, Structural)]
pub enum SettlementReply {
    /// Nothing was asked of the latch yet.
    NotAsked,
    /// The latch was asked to reserve the acceptance: whether it did.
    Reserved(bool),
    /// The latch was asked to publish the acceptance that it reserved: whether it did.
    Published(bool),
}

/// What the settlement of a call asks next.
#[derive(Clone, Copy, Debug, PartialEq, Eq, Structural)]
pub enum SettlementStep {
    /// Nothing is left to ask.
    Settled,
    /// Ask the latch with this handle to reserve the acceptance of the whole write.
    Reserve(u64),
    /// Read the clock, then ask the latch with this handle to publish the reserved acceptance.
    Publish(u64),
}

/// What the settlement of a completion asks next, or why it fails.
pub open spec fn settlement_step(
    latch: Option<ByteIoFinalWriteSettlement>,
    written: usize,
    reply: SettlementReply,
) -> Result<SettlementStep, SerialErrorModel> {
    match latch {
        None => Ok(SettlementStep::Settled),
        Some(latch) => if latch.accepted_before + written > usize::MAX {
            Err(
                plain_error(
                    SerialErrorKind::Protocol,
                    "serial final-byte settlement count overflowed"@,
                ),
            )
        } else if latch.accepted_before + written > latch.total_len {
            Err(
                plain_error(
                    SerialErrorKind::Protocol,
                    "serial backend completion exceeded its logical report length"@,
                ),
            )
        } else if latch.accepted_before + written < latch.total_len {
            Ok(SettlementStep::Settled)
        } else {
            match reply {
                SettlementReply::NotAsked => Ok(SettlementStep::Reserve(latch.settlement)),
                SettlementReply::Reserved(true) => Ok(SettlementStep::Publish(latch.settlement)),
                SettlementReply::Reserved(false) => Err(
                    plain_error(
                        SerialErrorKind::Io,
                        "serial backend rejected final-byte settlement reservation"@,
                    ),
                ),
                SettlementReply::Published(true) => Ok(SettlementStep::Settled),
                SettlementReply::Published(false) => Err(
                    plain_error(
                        SerialErrorKind::Io,
                        "serial backend could not publish final-byte settlement"@,
                    ),
                ),
            }
        },
    }
}

impl ByteIoRequest {
    /// Whether one of the request's tokens is cancelled.
    pub open spec fn cancelled_in(&self, tree: &CancellationTree) -> bool {
        tree@[self.cancellation.node as int].cancelled
            || tree@[self.resource_cancellation.node as int].cancelled
    }

    /// Returns a zero-effect cancellation or deadline failure before entering a backend call.
    pub fn interruption(&self, tree: &CancellationTree, now_ns: u64) -> (error: Option<SerialError>)
        requires
            tree.holds(self.cancellation),
            tree.holds(self.resource_cancellation),
        ensures
            error_view(error) == interruption_of(self.cancelled_in(tree), now_ns, self.deadline_ns),
    {
        if self.cancellation.is_cancelled(tree) || self.resource_cancellation.is_cancelled(tree) {
            let error = cancelled_call();
            assert(Some(error@) == interruption_of(true, now_ns, self.deadline_ns));
            Some(error)
        } else {
            elapsed_call(now_ns, self.deadline_ns)
        }
    }

    /// Attaches the final-byte settlement latch to a Controller write fragment.
    pub fn with_final_write_settlement(
        self,
        settlement: u64,
        accepted_before: usize,
        total_len: usize,
    ) -> (request: Self)
        ensures
            request == (ByteIoRequest {
                final_write_settlement: Some(
                    ByteIoFinalWriteSettlement { settlement, accepted_before, total_len },
                ),
                ..self
            }),
    {
        ByteIoRequest {
            operation: self.operation,
            deadline_ns: self.deadline_ns,
            cancellation: self.cancellation,
            resource_cancellation: self.resource_cancellation,
            final_write_settlement: Some(
                ByteIoFinalWriteSettlement { settlement, accepted_before, total_len },
            ),
        }
    }

    /// Reserves and publishes a final logical write at the backend's physical completion point, one
    /// request to the latch at a time; partial calls ask nothing.
    ///
    /// Callers begin with [`SettlementReply::NotAsked`] once they have consumed the exact count for
    /// `written`, while they still own that completion, and after releasing backend-local locks.
    /// They do what each step asks and come back with the latch's answer.
    pub fn publish_final_write_acceptance(&self, written: usize, reply: SettlementReply) -> (step:
        Result<SettlementStep, SerialError>)
        ensures
            step is Ok <==> settlement_step(self.final_write_settlement, written, reply) is Ok,
            step matches Ok(step) ==> Ok::<SettlementStep, SerialErrorModel>(step)
                == settlement_step(self.final_write_settlement, written, reply),
            step matches Err(error) ==> Err::<SettlementStep, SerialErrorModel>(error@)
                == settlement_step(self.final_write_settlement, written, reply),
    {
        let latch = match self.final_write_settlement {
            Some(latch) => latch,
            None => {
                return Ok(SettlementStep::Settled);
            },
        };
        let accepted: usize = match latch.accepted_before.checked_add(written) {
            Some(accepted) => accepted,
            None => {
                return Err(
                    SerialError::new(
                        SerialErrorKind::Protocol,
                        "serial final-byte settlement count overflowed",
                    ),
                );
            },
        };
        if accepted > latch.total_len {
            return Err(
                SerialError::new(
                    SerialErrorKind::Protocol,
                    "serial backend completion exceeded its logical report length",
                ),
            );
        }
        if accepted != latch.total_len {
            return Ok(SettlementStep::Settled);
        }
        match reply {
            SettlementReply::NotAsked => Ok(SettlementStep::Reserve(latch.settlement)),
            SettlementReply::Reserved(reserved) => if reserved {
                Ok(SettlementStep::Publish(latch.settlement))
            } else {
                Err(
                    SerialError::new(
                        SerialErrorKind::Io,
                        "serial backend rejected final-byte settlement reservation",
                    ),
                )
            },
            SettlementReply::Published(published) => if published {
                Ok(SettlementStep::Settled)
            } else {
                Err(
                    SerialError::new(
                        SerialErrorKind::Io,
                        "serial backend could not publish final-byte settlement",
                    ),
                )
            },
        }
    }
}

/// One look at what may interrupt a call, and what it showed.
pub enum LookEvent {
    /// Whether a token was cancelled.
    Token { token: CancellationToken, cancelled: bool },
    /// The time on the transport's clock.
    Time { now_ns: u64 },
}

/// Where a call learns whether it is interrupted.
///
/// Nothing is claimed of what a watch shows: [`CallWatch::looks`] only names the looks that it gave,
/// in order. It is ghost: a watch outside of verified code leaves it out.
pub trait CallWatch {
    /// The looks that the watch gave.
    closed spec fn looks(&self) -> Seq<LookEvent> {
        arbitrary()
    }

    /// Returns whether a token is cancelled.
    fn is_cancelled(&mut self, token: CancellationToken) -> (cancelled: bool)
        ensures
            final(self).looks() == old(self).looks().push(LookEvent::Token { token, cancelled }),
    ;

    /// Returns the time on the transport's clock.
    fn now_ns(&mut self) -> (now_ns: u64)
        ensures
            final(self).looks() == old(self).looks().push(LookEvent::Time { now_ns }),
    ;
}

/// Whether looks are those before a call: at its own token, at its resource's token, and at the
/// clock, up to the first token that is cancelled.
pub open spec fn call_looks(request: ByteIoRequest, looks: Seq<LookEvent>) -> bool {
    let own = |cancelled: bool| LookEvent::Token { token: request.cancellation, cancelled };
    let resource = |cancelled: bool|
        LookEvent::Token { token: request.resource_cancellation, cancelled };
    ||| looks == seq![own(true)]
    ||| looks == seq![own(false), resource(true)]
    ||| {
        &&& looks.len() == 3
        &&& looks[0] == own(false)
        &&& looks[1] == resource(false)
        &&& looks[2] is Time
    }
}

/// What interrupts a call, by the looks before it.
pub open spec fn looked_interruption(looks: Seq<LookEvent>, deadline_ns: u64) -> Option<
    SerialErrorModel,
> {
    match looks.last() {
        LookEvent::Token { .. } => interruption_of(true, 0, deadline_ns),
        LookEvent::Time { now_ns } => interruption_of(false, now_ns, deadline_ns),
    }
}

/// One call that a stream took, and what came back.
pub enum ByteIoEvent {
    /// A read into a buffer of `length` bytes, which then held `bytes`.
    Read {
        length: nat,
        request: ByteIoRequest,
        reply: Result<usize, SerialErrorModel>,
        bytes: Seq<u8>,
    },
    /// A write of `bytes`.
    Write { bytes: Seq<u8>, request: ByteIoRequest, reply: Result<usize, SerialErrorModel> },
    /// A purge of received bytes.
    Discard { request: ByteIoRequest, reply: Result<(), SerialErrorModel> },
    /// The end of the stream.
    Close,
}

/// The view of a reply.
pub open spec fn reply_view<T>(reply: Result<T, SerialError>) -> Result<T, SerialErrorModel> {
    match reply {
        Ok(value) => Ok(value),
        Err(error) => Err(error@),
    }
}

/// Open byte stream owned by exactly one Controller transport lane.
///
/// Nothing is claimed of what a stream answers: [`ByteIo::log`] only names the calls that it took,
/// in order, with the answers that it gave. It is ghost: a stream outside of verified code leaves
/// it out.
pub trait ByteIo {
    /// The calls that the stream took.
    closed spec fn log(&self) -> Seq<ByteIoEvent> {
        arbitrary()
    }

    /// Reads a non-empty prefix or returns a stable failure.
    fn read(&mut self, buffer: &mut [u8], request: ByteIoRequest) -> (reply: Result<
        usize,
        SerialError,
    >)
        ensures
            final(buffer)@.len() == old(buffer)@.len(),
            final(self).log() == old(self).log().push(
                ByteIoEvent::Read {
                    length: old(buffer)@.len(),
                    request,
                    reply: reply_view(reply),
                    bytes: final(buffer)@,
                },
            ),
    ;

    /// Writes a non-empty prefix or returns a stable failure.
    ///
    /// Implementations use [`SerialError::zero_effect`] only when they have consumed the
    /// underlying completion and proved the failed call accepted no bytes. All other errors leave
    /// framing uncertain for the Controller transport to settle.
    fn write(&mut self, buffer: &[u8], request: ByteIoRequest) -> (reply: Result<
        usize,
        SerialError,
    >)
        ensures
            final(self).log() == old(self).log().push(
                ByteIoEvent::Write { bytes: buffer@, request, reply: reply_view(reply) },
            ),
    ;

    /// Discards bytes received before a new request/response generation starts.
    fn discard_input(&mut self, request: ByteIoRequest) -> (reply: Result<(), SerialError>)
        ensures
            final(self).log() == old(self).log().push(
                ByteIoEvent::Discard { request, reply: reply_view(reply) },
            ),
    ;

    /// Interrupts pending calls and releases the stream. Repeated calls are harmless.
    fn close(&mut self)
        ensures
            final(self).log() == old(self).log().push(ByteIoEvent::Close),
    ;
}

/// One stream that a factory was asked for, and what came back.
pub struct OpenEvent {
    pub port: PortModel,
    pub baud_rate: u32,
    pub request: ByteIoRequest,
    pub failure: Option<SerialErrorModel>,
}

/// Injectable open boundary used by production Win32 and byte-level test devices.
///
/// As with [`ByteIo::log`], [`ByteIoFactory::opened`] and [`ByteIoFactory::retired`] only name what
/// the factory was asked for and what it got back.
pub trait ByteIoFactory {
    /// The streams that the factory opens.
    type Stream: ByteIo;

    /// The streams that the factory was asked for.
    closed spec fn opened(&self) -> Seq<OpenEvent> {
        arbitrary()
    }

    /// The calls that each stream took which the factory got back.
    closed spec fn retired(&self) -> Seq<Seq<ByteIoEvent>> {
        arbitrary()
    }

    /// Opens one descriptor at one explicit baud rate. The stream took no call yet.
    fn open(
        &mut self,
        port: &SerialPortDescriptor,
        baud_rate: u32,
        request: ByteIoRequest,
    ) -> (stream: Result<Self::Stream, SerialError>)
        ensures
            stream matches Ok(stream) ==> stream.log() == Seq::<ByteIoEvent>::empty(),
            final(self).opened() == old(self).opened().push(
                OpenEvent {
                    port: port@,
                    baud_rate,
                    request,
                    failure: match stream {
                        Ok(_) => None,
                        Err(error) => Some(error@),
                    },
                },
            ),
            final(self).retired() == old(self).retired(),
    ;

    /// Takes back a stream that its transport gave up.
    fn retire(&mut self, stream: Self::Stream)
        ensures
            final(self).opened() == old(self).opened(),
            final(self).retired() == old(self).retired().push(stream.log()),
    ;
}

/// Cancellation is seen before an elapsed deadline, and every interruption proves that the call it
/// came before accepted no bytes.
pub proof fn law_interruption_has_no_effect(cancelled: bool, now_ns: u64, deadline_ns: u64)
    ensures
        interruption_of(cancelled, now_ns, deadline_ns) is Some <==> cancelled || now_ns
            >= deadline_ns,
        interruption_of(cancelled, now_ns, deadline_ns) matches Some(error) ==> error.zero_effect
            && error.kind == if cancelled {
            SerialErrorKind::Cancelled
        } else {
            SerialErrorKind::DeadlineExceeded
        },
{
}

/// A partial completion asks nothing of the latch, whatever the latch would answer; a completion with
/// the last byte is published only after it was reserved.
pub proof fn law_only_the_final_byte_settles(
    latch: ByteIoFinalWriteSettlement,
    written: usize,
    reply: SettlementReply,
)
    requires
        latch.accepted_before + written <= latch.total_len,
    ensures
        latch.accepted_before + written < latch.total_len ==> settlement_step(
            Some(latch),
            written,
            reply,
        ) == Ok::<SettlementStep, SerialErrorModel>(SettlementStep::Settled),
        latch.accepted_before + written == latch.total_len ==> {
            &&& settlement_step(Some(latch), written, SettlementReply::NotAsked) == Ok::<
                SettlementStep,
                SerialErrorModel,
            >(SettlementStep::Reserve(latch.settlement))
            &&& settlement_step(Some(latch), written, reply) == Ok::<
                SettlementStep,
                SerialErrorModel,
            >(SettlementStep::Publish(latch.settlement)) <==> reply == SettlementReply::Reserved(
                true,
            )
            &&& settlement_step(Some(latch), written, reply) == Ok::<
                SettlementStep,
                SerialErrorModel,
            >(SettlementStep::Settled) <==> reply == SettlementReply::Published(true)
        },
{
}

/// A completion that reports more than its logical write has left is a broken protocol, whatever the
/// latch says; without a latch nothing is asked. A latch that refuses is a failure of I/O.
pub proof fn law_settlement_refuses_what_was_not_written(
    latch: ByteIoFinalWriteSettlement,
    written: usize,
    reply: SettlementReply,
)
    ensures
        settlement_step(None, written, reply) == Ok::<SettlementStep, SerialErrorModel>(
            SettlementStep::Settled,
        ),
        latch.accepted_before + written > latch.total_len ==> (settlement_step(
            Some(latch),
            written,
            reply,
        ) matches Err(error) && error.kind == SerialErrorKind::Protocol),
        latch.accepted_before + written == latch.total_len && (reply == SettlementReply::Reserved(
            false,
        ) || reply == SettlementReply::Published(false)) ==> (settlement_step(
            Some(latch),
            written,
            reply,
        ) matches Err(error) && error.kind == SerialErrorKind::Io),
        settlement_step(Some(latch), written, reply) is Err <==> latch.accepted_before + written
            > latch.total_len || (latch.accepted_before + written == latch.total_len && (reply
            == SettlementReply::Reserved(false) || reply == SettlementReply::Published(false))),
{
}

/// A request is cancelled with its own token and with that of its resource, and not otherwise.
pub proof fn law_either_token_cancels_a_request(request: ByteIoRequest, tree: &CancellationTree)
    ensures
        tree@[request.cancellation.node as int].cancelled ==> request.cancelled_in(tree),
        tree@[request.resource_cancellation.node as int].cancelled ==> request.cancelled_in(tree),
        request.cancelled_in(tree) ==> tree@[request.cancellation.node as int].cancelled
            || tree@[request.resource_cancellation.node as int].cancelled,
{
}

} // verus!
