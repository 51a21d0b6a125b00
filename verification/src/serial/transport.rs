//! The Controller transport over an injectable serial byte stream.

use crate::cancellation::CancellationToken;
use crate::model::OperationId;
use crate::serial::discovery::{PortModel, SerialPortDescriptor};
use crate::serial::error::{
    error_view, plain_error, SerialError, SerialErrorKind, SerialErrorModel,
};
use crate::serial::io::{
    call_looks, cancelled_call, elapsed_call, interruption_of, looked_interruption, reply_view,
    ByteIo, ByteIoEvent, ByteIoFactory, ByteIoFinalWriteSettlement, ByteIoOperation, ByteIoRequest,
    CallWatch, LookEvent, OpenEvent, WriteContext, WriteKind,
};
use vstd::prelude::*;
use vstd::slice::slice_subrange;

pub mod laws;

verus! {

/// Stable category of a transport failure.
#[derive(Clone, Copy, Debug, PartialEq, Eq, Structural)]
pub enum TransportErrorKind {
    Cancelled,
    /// The deadline of a handshake or an answer elapsed.
    Timeout,
    /// The deadline of a write elapsed.
    WriteTimeout,
    Disconnected,
    Protocol,
    Io,
}

/// The name of a category.
pub open spec fn transport_kind_name(kind: TransportErrorKind) -> &'static str {
    match kind {
        TransportErrorKind::Cancelled => "Cancelled",
        TransportErrorKind::Timeout => "Timeout",
        TransportErrorKind::WriteTimeout => "WriteTimeout",
        TransportErrorKind::Disconnected => "Disconnected",
        TransportErrorKind::Protocol => "Protocol",
        TransportErrorKind::Io => "Io",
    }
}

/// A transport failure.
#[derive(Debug)]
pub struct TransportError {
    kind: TransportErrorKind,
    message: String,
}

/// A transport failure, as plain values.
#[verifier::ext_equal]
pub struct TransportErrorModel {
    pub kind: TransportErrorKind,
    pub message: Seq<char>,
}

impl TransportErrorModel {
    /// The failure as text: its category and its message.
    pub open spec fn text(self) -> Seq<char> {
        transport_kind_name(self.kind)@ + ": "@ + self.message
    }
}

/// A failure of a category.
pub open spec fn transport_error(kind: TransportErrorKind, message: Seq<char>) -> TransportErrorModel {
    TransportErrorModel { kind, message }
}

/// The view of a result.
pub open spec fn result_view<T>(result: Result<T, TransportError>) -> Result<
    T,
    TransportErrorModel,
> {
    match result {
        Ok(value) => Ok(value),
        Err(error) => Err(error@),
    }
}

impl View for TransportError {
    type V = TransportErrorModel;

    closed spec fn view(&self) -> TransportErrorModel {
        TransportErrorModel { kind: self.kind, message: self.message@ }
    }
}

impl TransportError {
    /// Creates a failure.
    pub fn new(kind: TransportErrorKind, message: &str) -> (error: Self)
        ensures
            error@ == transport_error(kind, message@),
    {
        TransportError { kind, message: message.to_owned() }
    }

    /// Returns the stable category.
    pub fn kind(&self) -> (kind: TransportErrorKind)
        ensures
            kind == self@.kind,
    {
        self.kind
    }

    /// Returns diagnostic text.
    pub fn message(&self) -> (message: &str)
        ensures
            message@ == self@.message,
    {
        self.message.as_str()
    }

    /// Returns the failure as text.
    pub fn text(&self) -> (text: String)
        ensures
            text@ == self@.text(),
    {
        let name = match self.kind {
            TransportErrorKind::Cancelled => "Cancelled",
            TransportErrorKind::Timeout => "Timeout",
            TransportErrorKind::WriteTimeout => "WriteTimeout",
            TransportErrorKind::Disconnected => "Disconnected",
            TransportErrorKind::Protocol => "Protocol",
            TransportErrorKind::Io => "Io",
        };
        let mut text: String = name.to_owned();
        text.append(": ");
        text.append(self.message.as_str());
        text
    }
}

/// Which part of the transport a byte-I/O failure belongs to.
#[derive(Clone, Copy, Debug, PartialEq, Eq, Structural)]
pub enum IoPhase {
    /// Handshakes and answers.
    Protocol,
    /// Controller writes.
    Write,
}

/// The category that a serial failure has for a Controller.
pub open spec fn transport_kind(kind: SerialErrorKind, phase: IoPhase) -> TransportErrorKind {
    match kind {
        SerialErrorKind::Cancelled => TransportErrorKind::Cancelled,
        SerialErrorKind::DeadlineExceeded => match phase {
            IoPhase::Protocol => TransportErrorKind::Timeout,
            IoPhase::Write => TransportErrorKind::WriteTimeout,
        },
        SerialErrorKind::Disconnected => TransportErrorKind::Disconnected,
        SerialErrorKind::NotFound => TransportErrorKind::Disconnected,
        SerialErrorKind::Protocol => TransportErrorKind::Protocol,
        _ => TransportErrorKind::Io,
    }
}

/// A serial failure as a Controller sees it.
pub open spec fn mapped(error: SerialErrorModel, phase: IoPhase) -> TransportErrorModel {
    transport_error(transport_kind(error.kind, phase), error.text())
}

/// Returns a serial failure as a Controller sees it.
pub fn map_error(error: SerialError, phase: IoPhase) -> (seen: TransportError)
    ensures
        seen@ == mapped(error@, phase),
{
    let kind = match error.kind() {
        SerialErrorKind::Cancelled => TransportErrorKind::Cancelled,
        SerialErrorKind::DeadlineExceeded => match phase {
            IoPhase::Protocol => TransportErrorKind::Timeout,
            IoPhase::Write => TransportErrorKind::WriteTimeout,
        },
        SerialErrorKind::Disconnected | SerialErrorKind::NotFound => {
            TransportErrorKind::Disconnected
        },
        SerialErrorKind::Protocol => TransportErrorKind::Protocol,
        SerialErrorKind::AccessDenied
        | SerialErrorKind::PortBusy
        | SerialErrorKind::ZeroProgress
        | SerialErrorKind::InvalidPort
        | SerialErrorKind::Io
        | SerialErrorKind::UnsupportedPlatform => TransportErrorKind::Io,
    };
    let text = error.text();
    TransportError::new(kind, text.as_str())
}

/// What is wrong with the progress of a call; none where it moved at least one byte and no more
/// than it was given.
pub open spec fn progress_failure(progress: usize, remaining: usize, phase: IoPhase) -> Option<
    TransportErrorModel,
> {
    if progress == 0 {
        Some(
            mapped(
                plain_error(
                    SerialErrorKind::ZeroProgress,
                    "serial byte I/O returned zero progress"@,
                ),
                phase,
            ),
        )
    } else if progress > remaining {
        Some(
            transport_error(
                TransportErrorKind::Protocol,
                "serial byte I/O exceeded the supplied buffer"@,
            ),
        )
    } else {
        None
    }
}

/// Refuses the progress of a call that moved no byte, or more than it was given.
pub fn validate_progress(progress: usize, remaining: usize, phase: IoPhase) -> (valid: Result<
    (),
    TransportError,
>)
    ensures
        valid is Ok <==> progress_failure(progress, remaining, phase) is None,
        valid matches Err(error) ==> Some(error@) == progress_failure(progress, remaining, phase),
{
    if progress == 0 {
        return Err(
            map_error(
                SerialError::new(
                    SerialErrorKind::ZeroProgress,
                    "serial byte I/O returned zero progress",
                ),
                phase,
            ),
        );
    }
    if progress > remaining {
        return Err(
            TransportError::new(
                TransportErrorKind::Protocol,
                "serial byte I/O exceeded the supplied buffer",
            ),
        );
    }
    Ok(())
}

/// What the reply to a call that moves up to `remaining` bytes comes to.
pub open spec fn accepted(
    reply: Result<usize, SerialErrorModel>,
    remaining: usize,
    phase: IoPhase,
) -> Result<usize, TransportErrorModel> {
    match reply {
        Ok(progress) => match progress_failure(progress, remaining, phase) {
            Some(error) => Err(error),
            None => Ok(progress),
        },
        Err(error) => Err(mapped(error, phase)),
    }
}

/// Returns what the reply to a call that moves up to `remaining` bytes comes to.
pub fn accept_progress(reply: Result<usize, SerialError>, remaining: usize, phase: IoPhase) -> (
    progress: Result<usize, TransportError>)
    ensures
        result_view(progress) == accepted(reply_view(reply), remaining, phase),
{
    match reply {
        Ok(progress) => match validate_progress(progress, remaining, phase) {
            Ok(()) => Ok(progress),
            Err(error) => Err(error),
        },
        Err(error) => Err(map_error(error, phase)),
    }
}

/// Fails a call that is interrupted.
pub fn check_interruption(interruption: Option<SerialError>, phase: IoPhase) -> (passed: Result<
    (),
    TransportError,
>)
    ensures
        result_view(passed) == match error_view(interruption) {
            Some(error) => Err::<(), TransportErrorModel>(mapped(error, phase)),
            None => Ok(()),
        },
{
    match interruption {
        Some(error) => Err(map_error(error, phase)),
        None => Ok(()),
    }
}

/// The failure of a call on a port that is not open.
pub open spec fn not_open() -> TransportErrorModel {
    transport_error(TransportErrorKind::Disconnected, "serial port is not open"@)
}

fn disconnected() -> (error: TransportError)
    ensures
        error@ == not_open(),
{
    TransportError::new(TransportErrorKind::Disconnected, "serial port is not open")
}

/// What a handshake reply comes to.
pub open spec fn reply_checked(
    reply: Result<usize, SerialErrorModel>,
    byte: u8,
    expected: u8,
) -> Result<(), TransportErrorModel> {
    match accepted(reply, 1, IoPhase::Protocol) {
        Err(error) => Err(error),
        Ok(_) => if byte != expected {
            Err(
                transport_error(
                    TransportErrorKind::Protocol,
                    "serial handshake reply did not match"@,
                ),
            )
        } else {
            Ok(())
        },
    }
}

/// Returns what a handshake reply comes to.
pub fn check_reply(reply: Result<usize, SerialError>, byte: u8, expected: u8) -> (checked: Result<
    (),
    TransportError,
>)
    ensures
        result_view(checked) == reply_checked(reply_view(reply), byte, expected),
{
    match accept_progress(reply, 1, IoPhase::Protocol) {
        Err(error) => Err(error),
        Ok(_) => if byte != expected {
            Err(
                TransportError::new(
                    TransportErrorKind::Protocol,
                    "serial handshake reply did not match",
                ),
            )
        } else {
            Ok(())
        },
    }
}

/// A logical write of which a part was accepted.
#[derive(Clone, Copy, Debug)]
pub struct ActiveWrite {
    pub context: WriteContext,
    pub accepted: usize,
}

/// What a transport knows of its stream.
#[derive(Clone, Copy, Debug)]
pub struct Lane {
    /// Whether a handshake opened the stream.
    pub open: bool,
    /// The command whose old input was purged.
    pub prepared_command_sequence: Option<u64>,
    /// The logical write that is under way.
    pub active_write: Option<ActiveWrite>,
}

/// A lane without a stream.
pub open spec fn closed_lane() -> Lane {
    Lane { open: false, prepared_command_sequence: None, active_write: None }
}

/// A lane after a handshake.
pub open spec fn open_lane() -> Lane {
    Lane { open: true, prepared_command_sequence: None, active_write: None }
}

/// Why a fragment of a write is refused before anything is asked of the stream; `length` bytes of
/// it are left.
pub open spec fn write_refusal(lane: Lane, context: WriteContext, length: usize) -> Option<
    TransportErrorModel,
> {
    if context.total_len == 0 || length == 0 {
        Some(
            transport_error(
                TransportErrorKind::Protocol,
                "serial logical write must be non-empty"@,
            ),
        )
    } else if context.total_len < length {
        Some(
            transport_error(
                TransportErrorKind::Protocol,
                "serial write remainder exceeds its logical payload"@,
            ),
        )
    } else if lane.active_write is Some && (lane.active_write->0.context != context
        || lane.active_write->0.accepted != context.total_len - length) {
        Some(
            transport_error(
                TransportErrorKind::Disconnected,
                "serial partial-write continuity was lost; stream closed"@,
            ),
        )
    } else if lane.active_write is None && context.total_len != length {
        Some(
            transport_error(
                TransportErrorKind::Disconnected,
                "serial write resumed without an owned partial payload; stream closed"@,
            ),
        )
    } else {
        None
    }
}

/// The lane after a fragment was refused: a broken continuity closes it.
pub open spec fn refused_lane(lane: Lane, context: WriteContext, length: usize) -> Lane {
    if context.total_len == 0 || length == 0 || context.total_len < length {
        lane
    } else {
        closed_lane()
    }
}

/// What a failure comes to after `accepted` bytes of a logical write: once a part was accepted, it
/// closes the stream.
pub open spec fn partial_failure(accepted: usize, error: TransportErrorModel) -> TransportErrorModel {
    if accepted == 0 {
        error
    } else {
        transport_error(
            TransportErrorKind::Disconnected,
            "serial stream closed after partial-write failure: "@ + error.text(),
        )
    }
}

/// The lane after such a failure.
pub open spec fn lane_after_failure(lane: Lane, accepted: usize) -> Lane {
    if accepted == 0 {
        lane
    } else {
        closed_lane()
    }
}

/// Whether old input has to be purged before a write: once for each command.
pub open spec fn purges(lane: Lane, context: WriteContext) -> bool {
    context.kind == WriteKind::Command && lane.prepared_command_sequence != Some(context.sequence)
}

/// The lane once old input was purged for a command.
pub open spec fn purged_lane(lane: Lane, context: WriteContext) -> Lane {
    Lane { prepared_command_sequence: Some(context.sequence), ..lane }
}

/// The lane once `written` more bytes of a logical write were accepted.
pub open spec fn written_lane(lane: Lane, context: WriteContext, accepted: usize) -> Lane {
    Lane {
        active_write: if accepted == context.total_len {
            None
        } else {
            Some(ActiveWrite { context, accepted })
        },
        ..lane
    }
}

/// What comes back of a write fragment of `length` bytes: the lane and the result, for every
/// interruption and every reply of the stream. A reply that was not asked for plays no part.
pub open spec fn write_outcome(
    lane: Lane,
    context: WriteContext,
    length: usize,
    interruption: Option<SerialErrorModel>,
    purge: Result<(), SerialErrorModel>,
    reply: Result<usize, SerialErrorModel>,
) -> (Lane, Result<usize, TransportErrorModel>) {
    let offset = (context.total_len - length) as usize;
    if write_refusal(lane, context, length) is Some {
        (refused_lane(lane, context, length), Err(write_refusal(lane, context, length)->0))
    } else if interruption is Some {
        (
            lane_after_failure(lane, offset),
            Err(partial_failure(offset, mapped(interruption->0, IoPhase::Write))),
        )
    } else if !lane.open {
        (lane_after_failure(lane, offset), Err(partial_failure(offset, not_open())))
    } else if purges(lane, context) && purge is Err {
        (lane, Err(mapped(purge->Err_0, IoPhase::Write)))
    } else {
        let ready = if purges(lane, context) {
            purged_lane(lane, context)
        } else {
            lane
        };
        match accepted(reply, length, IoPhase::Write) {
            Ok(written) => (
                written_lane(ready, context, (offset + written) as usize),
                Ok(written),
            ),
            Err(error) => (
                lane_after_failure(ready, offset),
                Err(partial_failure(offset, error)),
            ),
        }
    }
}

impl Lane {
    /// Returns a lane without a stream.
    pub fn closed() -> (lane: Self)
        ensures
            lane == closed_lane(),
    {
        Lane { open: false, prepared_command_sequence: None, active_write: None }
    }

    /// Admits a fragment of a logical write, and returns how many bytes of it were accepted
    /// before.
    pub fn admit_write(&mut self, context: &WriteContext, length: usize) -> (offset: Result<
        usize,
        TransportError,
    >)
        ensures
            offset is Ok <==> write_refusal(*old(self), *context, length) is None,
            offset matches Ok(offset) ==> offset == context.total_len - length && *final(self)
                == *old(self),
            offset matches Err(error) ==> Some(error@) == write_refusal(
                *old(self),
                *context,
                length,
            ) && *final(self) == refused_lane(*old(self), *context, length),
    {
        if context.total_len == 0 || length == 0 {
            return Err(
                TransportError::new(
                    TransportErrorKind::Protocol,
                    "serial logical write must be non-empty",
                ),
            );
        }
        if context.total_len < length {
            return Err(
                TransportError::new(
                    TransportErrorKind::Protocol,
                    "serial write remainder exceeds its logical payload",
                ),
            );
        }
        let offset: usize = context.total_len - length;
        match self.active_write {
            Some(active) => {
                if !active.context.same_as(context) || active.accepted != offset {
                    *self = Lane::closed();
                    return Err(
                        TransportError::new(
                            TransportErrorKind::Disconnected,
                            "serial partial-write continuity was lost; stream closed",
                        ),
                    );
                }
            },
            None => {
                if offset != 0 {
                    *self = Lane::closed();
                    return Err(
                        TransportError::new(
                            TransportErrorKind::Disconnected,
                            "serial write resumed without an owned partial payload; stream closed",
                        ),
                    );
                }
            },
        }
        Ok(offset)
    }

    /// Closes the lane after a failure of a logical write of which a part was accepted, and returns
    /// the failure that the Controller sees.
    pub fn close_after_partial_failure(&mut self, accepted: usize, error: TransportError) -> (seen:
        TransportError)
        ensures
            seen@ == partial_failure(accepted, error@),
            *final(self) == lane_after_failure(*old(self), accepted),
    {
        if accepted == 0 {
            return error;
        }
        *self = Lane::closed();
        let mut message: String = "serial stream closed after partial-write failure: ".to_owned();
        let text = error.text();
        message.append(text.as_str());
        TransportError::new(TransportErrorKind::Disconnected, message.as_str())
    }

    /// Passes an admitted fragment on to the stream, unless it is interrupted or there is none.
    pub fn enter_write(&mut self, offset: usize, interruption: Option<SerialError>) -> (entered:
        Result<(), TransportError>)
        ensures
            entered is Ok <==> interruption is None && old(self).open,
            entered is Ok ==> *final(self) == *old(self),
            entered matches Err(error) ==> *final(self) == lane_after_failure(*old(self), offset)
                && error@ == partial_failure(
                offset,
                match interruption {
                    Some(interruption) => mapped(interruption@, IoPhase::Write),
                    None => not_open(),
                },
            ),
    {
        match check_interruption(interruption, IoPhase::Write) {
            Ok(()) => {},
            Err(error) => {
                return Err(self.close_after_partial_failure(offset, error));
            },
        }
        if !self.open {
            let error = disconnected();
            return Err(self.close_after_partial_failure(offset, error));
        }
        Ok(())
    }

    /// Returns whether old input has to be purged before a write.
    pub fn needs_purge(&self, context: &WriteContext) -> (needed: bool)
        ensures
            needed == purges(*self, *context),
    {
        if context.kind != WriteKind::Command {
            return false;
        }
        match self.prepared_command_sequence {
            Some(sequence) => sequence != context.sequence,
            None => true,
        }
    }

    /// Takes the reply to a purge.
    pub fn purged(&mut self, context: &WriteContext, reply: Result<(), SerialError>) -> (ready:
        Result<(), TransportError>)
        ensures
            result_view(ready) == match reply_view(reply) {
                Ok(_) => Ok::<(), TransportErrorModel>(()),
                Err(error) => Err(mapped(error, IoPhase::Write)),
            },
            *final(self) == if reply is Ok {
                purged_lane(*old(self), *context)
            } else {
                *old(self)
            },
    {
        match reply {
            Ok(()) => {
                self.prepared_command_sequence = Some(context.sequence);
                Ok(())
            },
            Err(error) => Err(map_error(error, IoPhase::Write)),
        }
    }

    /// Takes the reply to a write of `length` bytes, which follow `offset` accepted ones.
    pub fn written(
        &mut self,
        context: &WriteContext,
        offset: usize,
        length: usize,
        reply: Result<usize, SerialError>,
    ) -> (written: Result<usize, TransportError>)
        requires
            offset + length == context.total_len,
        ensures
            ({
                let progress = accepted(reply_view(reply), length, IoPhase::Write);
                &&& progress matches Ok(progress) ==> result_view(written) == Ok::<
                    usize,
                    TransportErrorModel,
                >(progress) && *final(self) == written_lane(
                    *old(self),
                    *context,
                    (offset + progress) as usize,
                )
                &&& progress matches Err(error) ==> result_view(written) == Err::<
                    usize,
                    TransportErrorModel,
                >(partial_failure(offset, error)) && *final(self) == lane_after_failure(
                    *old(self),
                    offset,
                )
            }),
    {
        match accept_progress(reply, length, IoPhase::Write) {
            Ok(written) => {
                let accepted: usize = offset + written;
                if accepted == context.total_len {
                    self.active_write = None;
                } else {
                    self.active_write = Some(ActiveWrite { context: *context, accepted });
                }
                Ok(written)
            },
            Err(error) => Err(self.close_after_partial_failure(offset, error)),
        }
    }
}

/// One attempt to reach a device.
pub struct HandshakeRequest {
    pub operation_id: OperationId,
    pub baud_rate: u32,
    /// Source-exact bytes of the request.
    pub request_bytes: Vec<u8>,
    pub expected_reply: u8,
    pub deadline_ns: u64,
    pub cancellation: CancellationToken,
    pub resource_cancellation: CancellationToken,
}

/// The rest of one logical write.
pub struct WriteRequest<'a> {
    pub context: WriteContext,
    /// The bytes that are left.
    pub bytes: &'a [u8],
    pub deadline_ns: u64,
    pub cancellation: CancellationToken,
    pub resource_cancellation: CancellationToken,
    /// Handle of the latch that accepts the logical write.
    pub settlement: u64,
}

/// One wait for the answer to a command.
#[derive(Clone, Copy, Debug)]
pub struct AckRequest {
    pub operation_id: OperationId,
    pub generation: u64,
    pub expected_reply: u8,
    pub deadline_ns: u64,
    pub cancellation: CancellationToken,
    pub resource_cancellation: CancellationToken,
}

/// One answer of a device.
#[derive(Clone, Copy, Debug, PartialEq, Eq, Structural)]
pub struct AckFrame {
    pub generation: u64,
    pub byte: u8,
}

/// The context of a byte-I/O call without a final-byte latch.
pub open spec fn plain_call(
    deadline_ns: u64,
    cancellation: CancellationToken,
    resource_cancellation: CancellationToken,
    operation: ByteIoOperation,
) -> ByteIoRequest {
    ByteIoRequest {
        operation,
        deadline_ns,
        cancellation,
        resource_cancellation,
        final_write_settlement: None,
    }
}

impl HandshakeRequest {
    /// The context of one of the handshake's calls.
    pub open spec fn call(&self, operation: ByteIoOperation) -> ByteIoRequest {
        plain_call(self.deadline_ns, self.cancellation, self.resource_cancellation, operation)
    }

    fn call_for(&self, operation: ByteIoOperation) -> (request: ByteIoRequest)
        ensures
            request == self.call(operation),
    {
        ByteIoRequest {
            operation,
            deadline_ns: self.deadline_ns,
            cancellation: self.cancellation,
            resource_cancellation: self.resource_cancellation,
            final_write_settlement: None,
        }
    }
}

impl WriteRequest<'_> {
    /// The context of the write: it carries the latch of the logical write.
    pub open spec fn call(&self) -> ByteIoRequest {
        ByteIoRequest {
            final_write_settlement: Some(
                ByteIoFinalWriteSettlement {
                    settlement: self.settlement,
                    accepted_before: (self.context.total_len - self.bytes@.len()) as usize,
                    total_len: self.context.total_len,
                },
            ),
            ..plain_call(
                self.deadline_ns,
                self.cancellation,
                self.resource_cancellation,
                ByteIoOperation::ControllerWrite(self.context),
            )
        }
    }

    /// The context of the purge before the write.
    pub open spec fn purge_call(&self) -> ByteIoRequest {
        plain_call(
            self.deadline_ns,
            self.cancellation,
            self.resource_cancellation,
            ByteIoOperation::DiscardInput { write_sequence: self.context.sequence },
        )
    }
}

impl AckRequest {
    /// The context of the read.
    pub open spec fn call(&self) -> ByteIoRequest {
        plain_call(
            self.deadline_ns,
            self.cancellation,
            self.resource_cancellation,
            ByteIoOperation::AckRead { generation: self.generation },
        )
    }
}

/// Whether a write fragment goes on to the stream.
pub open spec fn reaches_stream(
    lane: Lane,
    context: WriteContext,
    length: usize,
    interruption: Option<SerialErrorModel>,
) -> bool {
    write_refusal(lane, context, length) is None && interruption is None && lane.open
}

/// The calls that a write fragment makes: the purge where one is due, then one write of every byte
/// that is left.
pub open spec fn write_events(
    lane: Lane,
    request: &WriteRequest<'_>,
    purge: Result<(), SerialErrorModel>,
    reply: Result<usize, SerialErrorModel>,
) -> Seq<ByteIoEvent> {
    let write = ByteIoEvent::Write { bytes: request.bytes@, request: request.call(), reply };
    if purges(lane, request.context) {
        let discard = ByteIoEvent::Discard { request: request.purge_call(), reply: purge };
        if purge is Err {
            seq![discard]
        } else {
            seq![discard, write]
        }
    } else {
        seq![write]
    }
}

/// A transport, as plain values.
#[verifier::ext_equal]
pub struct TransportModel {
    pub lane: Lane,
    /// The calls that the open stream took.
    pub log: Seq<ByteIoEvent>,
    /// The looks that the watch gave.
    pub looks: Seq<LookEvent>,
    /// The streams that the factory was asked for.
    pub opened: Seq<OpenEvent>,
    /// The calls that each stream took which the transport gave up.
    pub retired: Seq<Seq<ByteIoEvent>>,
}

impl TransportModel {
    /// The transport after it gave up the open stream, which took `calls` in all: closing it was the
    /// last of them.
    pub open spec fn gave_up(self, calls: Seq<ByteIoEvent>) -> TransportModel {
        TransportModel {
            lane: closed_lane(),
            log: seq![],
            retired: self.retired.push(calls.push(ByteIoEvent::Close)),
            ..self
        }
    }

    /// The transport without a stream: an open one was closed, once.
    pub open spec fn closed(self) -> TransportModel {
        if self.lane.open {
            self.gave_up(self.log)
        } else {
            self
        }
    }

    /// What every transport satisfies: without a stream it knows nothing of one.
    pub open spec fn valid(self) -> bool {
        !self.lane.open ==> self.lane == closed_lane() && self.log.len() == 0
    }
}

/// The calls that the stream took once a write fragment is through with it.
pub open spec fn write_log(
    request: &WriteRequest<'_>,
    before: TransportModel,
    looks: Seq<LookEvent>,
    purge: Result<(), SerialErrorModel>,
    reply: Result<usize, SerialErrorModel>,
) -> Seq<ByteIoEvent> {
    if reaches_stream(
        before.lane,
        request.context,
        request.bytes@.len() as usize,
        looked_interruption(looks, request.deadline_ns),
    ) {
        before.log + write_events(before.lane, request, purge, reply)
    } else {
        before.log
    }
}

/// Whether a write fragment went as it does where the watch showed `looks` and the stream answered
/// so: the lane and the result that it left, and the calls that the stream took. A stream that the
/// fragment gives up takes its close behind them. The watch is asked once, unless the fragment is
/// refused.
pub open spec fn write_ran(
    request: &WriteRequest<'_>,
    before: TransportModel,
    after: TransportModel,
    result: Result<usize, TransportErrorModel>,
    looks: Seq<LookEvent>,
    purge: Result<(), SerialErrorModel>,
    reply: Result<usize, SerialErrorModel>,
) -> bool {
    let length = request.bytes@.len() as usize;
    let interruption = looked_interruption(looks, request.deadline_ns);
    let outcome = write_outcome(before.lane, request.context, length, interruption, purge, reply);
    let log = write_log(request, before, looks, purge, reply);
    let looked = TransportModel { looks: before.looks + looks, ..before };
    &&& if write_refusal(before.lane, request.context, length) is Some {
        looks.len() == 0
    } else {
        call_looks(request.call(), looks)
    }
    &&& result == outcome.1
    &&& after == if outcome.0.open {
        TransportModel { lane: outcome.0, log, ..looked }
    } else if before.lane.open {
        looked.gave_up(log)
    } else {
        looked
    }
}

/// What comes back of a wait for an answer, for every interruption and every reply of the stream.
pub open spec fn ack_outcome(
    open: bool,
    generation: u64,
    interruption: Option<SerialErrorModel>,
    reply: Result<usize, SerialErrorModel>,
    byte: u8,
) -> Result<AckFrame, TransportErrorModel> {
    if interruption is Some {
        Err(mapped(interruption->0, IoPhase::Protocol))
    } else if !open {
        Err(not_open())
    } else {
        match accepted(reply, 1, IoPhase::Protocol) {
            Ok(_) => Ok(AckFrame { generation, byte }),
            Err(error) => Err(error),
        }
    }
}

/// Returns what the reply to a read of an answer comes to.
pub fn settle_ack(generation: u64, reply: Result<usize, SerialError>, byte: u8) -> (frame: Result<
    AckFrame,
    TransportError,
>)
    ensures
        result_view(frame) == ack_outcome(true, generation, None, reply_view(reply), byte),
{
    match accept_progress(reply, 1, IoPhase::Protocol) {
        Ok(_) => Ok(AckFrame { generation, byte }),
        Err(error) => Err(error),
    }
}

/// Whether a wait for an answer went as it does where the watch showed `looks` and the stream
/// answered so.
pub open spec fn ack_ran(
    request: AckRequest,
    before: TransportModel,
    after: TransportModel,
    result: Result<AckFrame, TransportErrorModel>,
    looks: Seq<LookEvent>,
    reply: Result<usize, SerialErrorModel>,
    byte: u8,
) -> bool {
    let interruption = looked_interruption(looks, request.deadline_ns);
    &&& call_looks(request.call(), looks)
    &&& ack_outcome(before.lane.open, request.generation, interruption, reply, byte) == result
    &&& after == (TransportModel {
        log: if interruption is None && before.lane.open {
            before.log.push(
                ByteIoEvent::Read { length: 1, request: request.call(), reply, bytes: seq![byte] },
            )
        } else {
            before.log
        },
        looks: before.looks + looks,
        ..before
    })
}

/// One attempt to send the rest of a request: what the watch showed before it, and the reply.
pub struct SendCall {
    pub looks: Seq<LookEvent>,
    pub reply: Result<usize, SerialErrorModel>,
}

/// What an attempt with `remaining` bytes comes to.
pub open spec fn send_step(call: SendCall, remaining: usize, deadline_ns: u64) -> Result<
    usize,
    TransportErrorModel,
> {
    match looked_interruption(call.looks, deadline_ns) {
        Some(error) => Err(mapped(error, IoPhase::Protocol)),
        None => accepted(call.reply, remaining, IoPhase::Protocol),
    }
}

/// How many bytes of a request of `length` bytes a run of successful attempts sent; none where an
/// attempt failed, or came after the last byte.
pub open spec fn sent(length: usize, deadline_ns: u64, calls: Seq<SendCall>) -> Option<usize>
    decreases calls.len(),
{
    if calls.len() == 0 {
        Some(0)
    } else {
        match sent(length, deadline_ns, calls.drop_last()) {
            Some(before) => if before < length {
                match send_step(calls.last(), (length - before) as usize, deadline_ns) {
                    Ok(progress) => Some((before + progress) as usize),
                    Err(_) => None,
                }
            } else {
                None
            },
            None => None,
        }
    }
}

/// What sending a request came to; none where it went on.
pub open spec fn send_outcome(length: usize, deadline_ns: u64, calls: Seq<SendCall>) -> Option<
    Result<(), TransportErrorModel>,
> {
    if sent(length, deadline_ns, calls) == Some(length) {
        Some(Ok(()))
    } else if calls.len() == 0 {
        None
    } else {
        match sent(length, deadline_ns, calls.drop_last()) {
            Some(before) => if before < length {
                match send_step(calls.last(), (length - before) as usize, deadline_ns) {
                    Ok(_) => None,
                    Err(error) => Some(Err(error)),
                }
            } else {
                None
            },
            None => None,
        }
    }
}

/// The calls that sending made on the stream, each with every byte that was left. An attempt that
/// was interrupted made none.
pub open spec fn send_events(
    bytes: Seq<u8>,
    request: ByteIoRequest,
    calls: Seq<SendCall>,
) -> Seq<ByteIoEvent>
    decreases calls.len(),
{
    if calls.len() == 0 {
        seq![]
    } else {
        let before = sent(bytes.len() as usize, request.deadline_ns, calls.drop_last())->0;
        let earlier = send_events(bytes, request, calls.drop_last());
        if looked_interruption(calls.last().looks, request.deadline_ns) is Some {
            earlier
        } else {
            earlier.push(
                ByteIoEvent::Write {
                    bytes: bytes.skip(before as int),
                    request,
                    reply: calls.last().reply,
                },
            )
        }
    }
}

/// The looks that sending took at the watch; each is one at the request that is sent.
pub open spec fn send_looks(calls: Seq<SendCall>) -> Seq<LookEvent>
    decreases calls.len(),
{
    if calls.len() == 0 {
        seq![]
    } else {
        send_looks(calls.drop_last()) + calls.last().looks
    }
}

/// Whether every attempt looked at the request that it sends.
pub open spec fn sends_looked(request: ByteIoRequest, calls: Seq<SendCall>) -> bool {
    forall|k: int| 0 <= k < calls.len() ==> call_looks(request, (#[trigger] calls[k]).looks)
}

/// What the watch, the factory and the stream answered in a handshake.
pub struct HandshakeHistory {
    /// What the watch showed before the stream was opened.
    pub looks: Seq<LookEvent>,
    /// What opening the stream failed with.
    pub open_failure: Option<SerialErrorModel>,
    pub calls: Seq<SendCall>,
    pub reply: Result<usize, SerialErrorModel>,
    pub byte: u8,
}

/// What a handshake comes to, for every history; none where the history ends in its middle.
pub open spec fn handshake_outcome(request: &HandshakeRequest, history: HandshakeHistory) -> Option<
    Result<(), TransportErrorModel>,
> {
    match looked_interruption(history.looks, request.deadline_ns) {
        Some(error) => Some(Err(mapped(error, IoPhase::Protocol))),
        None => match history.open_failure {
            Some(error) => Some(Err(mapped(error, IoPhase::Protocol))),
            None => match send_outcome(
                request.request_bytes@.len() as usize,
                request.deadline_ns,
                history.calls,
            ) {
                Some(Ok(_)) => Some(
                    reply_checked(history.reply, history.byte, request.expected_reply),
                ),
                other => other,
            },
        },
    }
}

/// The calls that an opened stream took in a handshake, but for its close: the request, and where
/// all of it was sent, the read of the reply.
pub open spec fn handshake_log(request: &HandshakeRequest, history: HandshakeHistory) -> Seq<
    ByteIoEvent,
> {
    let sending = send_events(
        request.request_bytes@,
        request.call(ByteIoOperation::HandshakeWrite),
        history.calls,
    );
    if send_outcome(
        request.request_bytes@.len() as usize,
        request.deadline_ns,
        history.calls,
    ) == Some(Ok::<(), TransportErrorModel>(())) {
        sending.push(
            ByteIoEvent::Read {
                length: 1,
                request: request.call(ByteIoOperation::HandshakeRead),
                reply: history.reply,
                bytes: seq![history.byte],
            },
        )
    } else {
        sending
    }
}

/// Whether a handshake on a port went as it does with a history: its result, the calls that the
/// opened stream took, and what was asked of the watch and of the factory. The stream before it is
/// closed first; one whose handshake fails is closed behind its calls.
pub open spec fn handshake_ran(
    request: &HandshakeRequest,
    port: PortModel,
    before: TransportModel,
    after: TransportModel,
    result: Result<(), TransportErrorModel>,
    history: HandshakeHistory,
) -> bool {
    let interruption = looked_interruption(history.looks, request.deadline_ns);
    let log = handshake_log(request, history);
    let looked = TransportModel {
        looks: before.looks + history.looks + send_looks(history.calls),
        ..before.closed()
    };
    let asked = TransportModel {
        opened: before.opened.push(
            OpenEvent {
                port,
                baud_rate: request.baud_rate,
                request: request.call(ByteIoOperation::Open),
                failure: history.open_failure,
            },
        ),
        ..looked
    };
    &&& call_looks(request.call(ByteIoOperation::Open), history.looks)
    &&& sends_looked(request.call(ByteIoOperation::HandshakeWrite), history.calls)
    &&& interruption is Some || history.open_failure is Some ==> history.calls.len() == 0
    &&& handshake_outcome(request, history) == Some(result)
    &&& after == if interruption is Some {
        looked
    } else if history.open_failure is Some {
        asked
    } else if result is Ok {
        TransportModel { lane: open_lane(), log, ..asked }
    } else {
        asked.gave_up(log)
    }
}

/// Returns what interrupts a call, by what the watch shows now.
fn look<W: CallWatch>(watch: &mut W, request: &ByteIoRequest) -> (looked: (
    Option<SerialError>,
    Ghost<Seq<LookEvent>>,
))
    ensures
        call_looks(*request, looked.1@),
        error_view(looked.0) == looked_interruption(looked.1@, request.deadline_ns),
        final(watch).looks() == old(watch).looks() + looked.1@,
{
    let ghost before = watch.looks();
    let ghost own = LookEvent::Token { token: request.cancellation, cancelled: true };
    if watch.is_cancelled(request.cancellation) {
        let ghost looks = seq![own];
        let error = cancelled_call();
        proof {
            assert(watch.looks() =~= before + looks);
            assert(Some(error@) == interruption_of(true, 0, request.deadline_ns));
        }
        return (Some(error), Ghost(looks));
    }
    let ghost passed = LookEvent::Token { token: request.cancellation, cancelled: false };
    if watch.is_cancelled(request.resource_cancellation) {
        let ghost looks = seq![
            passed,
            LookEvent::Token { token: request.resource_cancellation, cancelled: true },
        ];
        let error = cancelled_call();
        proof {
            assert(watch.looks() =~= before + looks);
            assert(Some(error@) == interruption_of(true, 0, request.deadline_ns));
        }
        return (Some(error), Ghost(looks));
    }
    let now_ns: u64 = watch.now_ns();
    let ghost looks = seq![
        passed,
        LookEvent::Token { token: request.resource_cancellation, cancelled: false },
        LookEvent::Time { now_ns },
    ];
    assert(watch.looks() =~= before + looks);
    (elapsed_call(now_ns, request.deadline_ns), Ghost(looks))
}

/// Sends every byte of a request, in as many calls as the stream takes.
fn write_all<W: CallWatch, S: ByteIo>(
    watch: &mut W,
    io: &mut S,
    bytes: &Vec<u8>,
    request: ByteIoRequest,
) -> (done: (Result<(), TransportError>, Ghost<Seq<SendCall>>))
    ensures
        send_outcome(bytes@.len() as usize, request.deadline_ns, done.1@) == Some(
            result_view(done.0),
        ),
        final(io).log() == old(io).log() + send_events(bytes@, request, done.1@),
        sends_looked(request, done.1@),
        final(watch).looks() == old(watch).looks() + send_looks(done.1@),
{
    let mut written: usize = 0;
    let ghost mut calls: Seq<SendCall> = seq![];
    assert(watch.looks() =~= old(watch).looks() + send_looks(calls));
    assert(io.log() =~= old(io).log() + send_events(bytes@, request, calls));
    while written < bytes.len()
        invariant
            written <= bytes@.len(),
            sent(bytes@.len() as usize, request.deadline_ns, calls) == Some(written),
            io.log() == old(io).log() + send_events(bytes@, request, calls),
            sends_looked(request, calls),
            watch.looks() == old(watch).looks() + send_looks(calls),
        decreases bytes.len() - written,
    {
        let ghost before = calls;
        let (interruption, Ghost(looks)) = look(watch, &request);
        match check_interruption(interruption, IoPhase::Protocol) {
            Ok(()) => {},
            Err(error) => {
                let ghost call = SendCall { looks, reply: Ok(0) };
                proof {
                    calls = before.push(call);
                    assert(calls.drop_last() =~= before);
                    assert(calls.last() == call);
                    assert(watch.looks() =~= old(watch).looks() + send_looks(calls));
                }
                return (Err(error), Ghost(calls));
            },
        }
        let rest = slice_subrange(bytes.as_slice(), written, bytes.len());
        assert(rest@ =~= bytes@.skip(written as int));
        let reply = io.write(rest, request);
        let ghost call = SendCall { looks, reply: reply_view(reply) };
        proof {
            calls = before.push(call);
            assert(calls.drop_last() =~= before);
            assert(calls.last() == call);
            assert(watch.looks() =~= old(watch).looks() + send_looks(calls));
            assert(io.log() =~= old(io).log() + send_events(bytes@, request, calls));
        }
        match accept_progress(reply, bytes.len() - written, IoPhase::Protocol) {
            Ok(progress) => {
                written += progress;
            },
            Err(error) => {
                return (Err(error), Ghost(calls));
            },
        }
    }
    (Ok(()), Ghost(calls))
}

/// `ControllerTransport` adapter over an injectable serial byte stream.
pub struct SerialControllerTransport<W: CallWatch, F: ByteIoFactory> {
    watch: W,
    port: SerialPortDescriptor,
    factory: F,
    io: Option<F::Stream>,
    lane: Lane,
}

impl<W: CallWatch, F: ByteIoFactory> SerialControllerTransport<W, F> {
    /// The transport, as plain values.
    pub closed spec fn model(&self) -> TransportModel {
        TransportModel {
            lane: self.lane,
            log: match self.io {
                Some(io) => io.log(),
                None => seq![],
            },
            looks: self.watch.looks(),
            opened: self.factory.opened(),
            retired: self.factory.retired(),
        }
    }

    /// The port that was selected.
    pub closed spec fn selected(&self) -> SerialPortDescriptor {
        self.port
    }

    /// The transport holds a stream exactly while its lane is open.
    pub closed spec fn valid(&self) -> bool {
        &&& self.lane.open <==> self.io is Some
        &&& !self.lane.open ==> self.lane == closed_lane()
    }

    /// Creates a closed adapter. The first handshake opens the selected port.
    pub fn new(watch: W, port: SerialPortDescriptor, factory: F) -> (transport: Self)
        ensures
            transport.valid(),
            transport.model().valid(),
            transport.model() == (TransportModel {
                lane: closed_lane(),
                log: seq![],
                looks: watch.looks(),
                opened: factory.opened(),
                retired: factory.retired(),
            }),
            transport.selected() == port,
    {
        SerialControllerTransport { watch, port, factory, io: None, lane: Lane::closed() }
    }

    /// Returns the stable descriptor selected for this transport.
    pub fn port(&self) -> (port: &SerialPortDescriptor)
        ensures
            *port == self.selected(),
    {
        &self.port
    }

    fn close_stream(&mut self)
        ensures
            final(self).valid(),
            final(self).model() == if old(self).io is Some {
                old(self).model().gave_up(old(self).model().log)
            } else {
                TransportModel { lane: closed_lane(), ..old(self).model() }
            },
            final(self).port == old(self).port,
    {
        if let Some(stream) = self.io.take() {
            let mut stream = stream;
            stream.close();
            self.factory.retire(stream);
        }
        self.lane = Lane::closed();
    }

    /// Opens the selected port, sends the request and checks the reply. An earlier stream is closed
    /// first, and a stream whose handshake fails is closed at once.
    pub fn handshake(&mut self, request: HandshakeRequest) -> (result: Result<(), TransportError>)
        requires
            old(self).valid(),
        ensures
            final(self).valid(),
            final(self).model().valid(),
            final(self).selected() == old(self).selected(),
            exists|history: HandshakeHistory| #[trigger]
                handshake_ran(
                    &request,
                    old(self).selected()@,
                    old(self).model(),
                    final(self).model(),
                    result_view(result),
                    history,
                ),
    {
        let ghost port = self.selected()@;
        let ghost before = self.model();
        self.close_stream();
        let open_request = request.call_for(ByteIoOperation::Open);
        let (interruption, Ghost(looks)) = look(&mut self.watch, &open_request);
        let ghost mut history = HandshakeHistory {
            looks,
            open_failure: None,
            calls: seq![],
            reply: Ok(0),
            byte: 0,
        };
        match check_interruption(interruption, IoPhase::Protocol) {
            Ok(()) => {},
            Err(error) => {
                proof {
                    assert(self.model().looks =~= before.looks + history.looks + send_looks(
                        history.calls,
                    ));
                    assert(handshake_ran(
                        &request,
                        port,
                        before,
                        self.model(),
                        Err(error@),
                        history,
                    ));
                }
                return Err(error);
            },
        }
        let mut io = match self.factory.open(&self.port, request.baud_rate, open_request) {
            Ok(io) => io,
            Err(error) => {
                proof {
                    history = HandshakeHistory { open_failure: Some(error@), ..history };
                }
                let error = map_error(error, IoPhase::Protocol);
                proof {
                    assert(self.model().looks =~= before.looks + history.looks + send_looks(
                        history.calls,
                    ));
                    assert(handshake_ran(
                        &request,
                        port,
                        before,
                        self.model(),
                        Err(error@),
                        history,
                    ));
                }
                return Err(error);
            },
        };
        let (sending, Ghost(calls)) = write_all(
            &mut self.watch,
            &mut io,
            &request.request_bytes,
            request.call_for(ByteIoOperation::HandshakeWrite),
        );
        proof {
            history = HandshakeHistory { calls, ..history };
        }
        match sending {
            Ok(()) => {},
            Err(error) => {
                io.close();
                self.factory.retire(io);
                proof {
                    assert(self.model().looks =~= before.looks + history.looks + send_looks(
                        history.calls,
                    ));
                    assert(handshake_ran(
                        &request,
                        port,
                        before,
                        self.model(),
                        Err(error@),
                        history,
                    ));
                }
                return Err(error);
            },
        }
        let mut answer: Vec<u8> = vec![0];
        let reply = io.read(
            answer.as_mut_slice(),
            request.call_for(ByteIoOperation::HandshakeRead),
        );
        let byte: u8 = answer[0];
        proof {
            history = HandshakeHistory { reply: reply_view(reply), byte, ..history };
            assert(answer@ =~= seq![byte]);
        }
        match check_reply(reply, byte, request.expected_reply) {
            Ok(()) => {
                self.io = Some(io);
                self.lane.open = true;
                proof {
                    assert(self.model().log =~= handshake_log(&request, history));
                    assert(handshake_ran(
                        &request,
                        port,
                        before,
                        self.model(),
                        Ok(()),
                        history,
                    ));
                }
                Ok(())
            },
            Err(error) => {
                io.close();
                self.factory.retire(io);
                proof {
                    assert(self.model().looks =~= before.looks + history.looks + send_looks(
                        history.calls,
                    ));
                    assert(handshake_ran(
                        &request,
                        port,
                        before,
                        self.model(),
                        Err(error@),
                        history,
                    ));
                }
                Err(error)
            },
        }
    }

    /// Writes the rest of a logical write, or a part of it, and returns how many bytes were
    /// accepted.
    pub fn write(&mut self, request: WriteRequest<'_>) -> (result: Result<usize, TransportError>)
        requires
            old(self).valid(),
        ensures
            final(self).valid(),
            final(self).model().valid(),
            final(self).selected() == old(self).selected(),
            exists|
                looks: Seq<LookEvent>,
                purge: Result<(), SerialErrorModel>,
                reply: Result<usize, SerialErrorModel>,
            | #[trigger]
                write_ran(
                    &request,
                    old(self).model(),
                    final(self).model(),
                    result_view(result),
                    looks,
                    purge,
                    reply,
                ),
    {
        let ghost before = self.model();
        let length: usize = request.bytes.len();
        let offset: usize = match self.lane.admit_write(&request.context, length) {
            Ok(offset) => offset,
            Err(error) => {
                if !self.lane.open {
                    self.close_stream();
                }
                assert(self.model().looks =~= before.looks + Seq::<LookEvent>::empty());
                assert(write_ran(
                    &request,
                    before,
                    self.model(),
                    Err(error@),
                    Seq::<LookEvent>::empty(),
                    Ok(()),
                    Ok(0),
                ));
                return Err(error);
            },
        };
        let purge_request = ByteIoRequest {
            operation: ByteIoOperation::DiscardInput { write_sequence: request.context.sequence },
            deadline_ns: request.deadline_ns,
            cancellation: request.cancellation,
            resource_cancellation: request.resource_cancellation,
            final_write_settlement: None,
        };
        let write_request = ByteIoRequest {
            operation: ByteIoOperation::ControllerWrite(request.context),
            ..purge_request
        };
        let io_request = write_request.with_final_write_settlement(
            request.settlement,
            offset,
            request.context.total_len,
        );
        let (interruption, Ghost(looks)) = look(&mut self.watch, &io_request);
        match self.lane.enter_write(offset, interruption) {
            Ok(()) => {},
            Err(error) => {
                if !self.lane.open {
                    self.close_stream();
                }
                assert(write_ran(
                    &request,
                    before,
                    self.model(),
                    Err(error@),
                    looks,
                    Ok(()),
                    Ok(0),
                ));
                return Err(error);
            },
        }
        let mut io = self.io.take().unwrap();
        let ghost mut purge: Result<(), SerialErrorModel> = Ok(());
        if self.lane.needs_purge(&request.context) {
            let reply = io.discard_input(purge_request);
            proof {
                purge = reply_view(reply);
            }
            match self.lane.purged(&request.context, reply) {
                Ok(()) => {},
                Err(error) => {
                    self.io = Some(io);
                    proof {
                        assert(self.model().log =~= before.log + write_events(
                            before.lane,
                            &request,
                            purge,
                            Ok(0),
                        ));
                        assert(write_ran(
                            &request,
                            before,
                            self.model(),
                            Err(error@),
                            looks,
                            purge,
                            Ok(0),
                        ));
                    }
                    return Err(error);
                },
            }
        }
        let reply = io.write(request.bytes, io_request);
        let ghost answer = reply_view(reply);
        let ghost log = io.log();
        proof {
            assert(log =~= before.log + write_events(before.lane, &request, purge, answer));
        }
        let result = self.lane.written(&request.context, offset, length, reply);
        if self.lane.open {
            self.io = Some(io);
        } else {
            io.close();
            self.factory.retire(io);
        }
        assert(write_ran(
            &request,
            before,
            self.model(),
            result_view(result),
            looks,
            purge,
            answer,
        ));
        result
    }

    /// Reads one answer for the current matcher generation.
    pub fn wait_for_ack(&mut self, request: AckRequest) -> (result: Result<
        AckFrame,
        TransportError,
    >)
        requires
            old(self).valid(),
        ensures
            final(self).valid(),
            final(self).model().valid(),
            final(self).selected() == old(self).selected(),
            exists|looks: Seq<LookEvent>, reply: Result<usize, SerialErrorModel>, byte: u8| #[trigger]
                ack_ran(
                    request,
                    old(self).model(),
                    final(self).model(),
                    result_view(result),
                    looks,
                    reply,
                    byte,
                ),
    {
        let ghost before = self.model();
        let io_request = ByteIoRequest {
            operation: ByteIoOperation::AckRead { generation: request.generation },
            deadline_ns: request.deadline_ns,
            cancellation: request.cancellation,
            resource_cancellation: request.resource_cancellation,
            final_write_settlement: None,
        };
        let (interruption, Ghost(looks)) = look(&mut self.watch, &io_request);
        match check_interruption(interruption, IoPhase::Protocol) {
            Ok(()) => {},
            Err(error) => {
                assert(ack_ran(
                    request,
                    before,
                    self.model(),
                    Err(error@),
                    looks,
                    Ok(0),
                    0,
                ));
                return Err(error);
            },
        }
        let mut io = match self.io.take() {
            Some(io) => io,
            None => {
                let error = disconnected();
                assert(ack_ran(
                    request,
                    before,
                    self.model(),
                    Err(error@),
                    looks,
                    Ok(0),
                    0,
                ));
                return Err(error);
            },
        };
        let mut answer: Vec<u8> = vec![0];
        let reply = io.read(answer.as_mut_slice(), io_request);
        let byte: u8 = answer[0];
        self.io = Some(io);
        let ghost answered = reply_view(reply);
        let result = settle_ack(request.generation, reply, byte);
        proof {
            assert(answer@ =~= seq![byte]);
            assert(ack_ran(
                request,
                before,
                self.model(),
                result_view(result),
                looks,
                answered,
                byte,
            ));
        }
        result
    }

    /// Closes the stream. Repeated calls are harmless.
    pub fn close(&mut self)
        requires
            old(self).valid(),
        ensures
            final(self).valid(),
            final(self).model().valid(),
            final(self).model() == old(self).model().closed(),
            final(self).selected() == old(self).selected(),
    {
        self.close_stream();
    }
}

/// What a lane always holds of the write that is under way: a part of it was accepted, and where it
/// is a command, its old input was purged.
pub open spec fn lane_valid(lane: Lane) -> bool {
    lane.active_write matches Some(active) ==> {
        &&& lane.open
        &&& 0 < active.accepted < active.context.total_len
        &&& active.context.kind == WriteKind::Command ==> lane.prepared_command_sequence == Some(
            active.context.sequence,
        )
    }
}

/// Every write keeps what a lane holds, whatever the stream answers.
pub proof fn law_lane_stays_valid(
    lane: Lane,
    context: WriteContext,
    length: usize,
    interruption: Option<SerialErrorModel>,
    purge: Result<(), SerialErrorModel>,
    reply: Result<usize, SerialErrorModel>,
)
    requires
        lane_valid(lane),
    ensures
        lane_valid(write_outcome(lane, context, length, interruption, purge, reply).0),
        lane_valid(open_lane()),
        lane_valid(closed_lane()),
{
}

/// A write succeeds exactly where the stream accepts bytes of an admitted fragment that nothing
/// interrupts, and it accepts at least one byte and no more than it was given.
pub proof fn law_write_succeeds_with_progress(
    lane: Lane,
    context: WriteContext,
    length: usize,
    interruption: Option<SerialErrorModel>,
    purge: Result<(), SerialErrorModel>,
    reply: Result<usize, SerialErrorModel>,
)
    ensures
        write_outcome(lane, context, length, interruption, purge, reply).1 is Ok <==> {
            &&& reaches_stream(lane, context, length, interruption)
            &&& purges(lane, context) ==> purge is Ok
            &&& reply matches Ok(written) && 0 < written <= length
        },
        write_outcome(lane, context, length, interruption, purge, reply).1 matches Ok(written) ==>
            reply == Ok::<usize, SerialErrorModel>(written),
{
}

/// A fragment that breaks the continuity of a write loses the stream: an open one took its close
/// behind the calls before, and no write and no purge, and until a handshake opens another one even
/// a write from the start is refused by its absence.
pub proof fn law_lost_continuity_closes_the_stream_once(
    request: &WriteRequest<'_>,
    before: TransportModel,
    after: TransportModel,
    result: Result<usize, TransportErrorModel>,
    looks: Seq<LookEvent>,
    purge: Result<(), SerialErrorModel>,
    reply: Result<usize, SerialErrorModel>,
    next: WriteContext,
)
    requires
        before.valid(),
        request.bytes@.len() <= usize::MAX,
        0 < request.bytes@.len() <= request.context.total_len,
        write_refusal(before.lane, request.context, request.bytes@.len() as usize) is Some,
        write_ran(request, before, after, result, looks, purge, reply),
        next.total_len > 0,
    ensures
        result matches Err(error) && error.kind == TransportErrorKind::Disconnected,
        after == before.closed(),
        before.lane.open ==> after.retired == before.retired.push(
            before.log.push(ByteIoEvent::Close),
        ),
        write_outcome(after.lane, next, next.total_len, None, purge, reply) == (
            closed_lane(),
            Err::<usize, TransportErrorModel>(not_open()),
        ),
{
    assert(before.looks + looks =~= before.looks);
}

/// Closing twice is closing once.
pub proof fn law_close_is_idempotent(transport: TransportModel)
    ensures
        transport.closed().closed() == transport.closed(),
        transport.closed().retired.len() == transport.retired.len() + if transport.lane.open {
            1int
        } else {
            0int
        },
{
}

/// A partial write goes on with exactly the bytes that were not accepted: the same context with
/// any other remainder, or any other context, loses the stream.
pub proof fn law_partial_write_continues_exactly(
    lane: Lane,
    context: WriteContext,
    length: usize,
    interruption: Option<SerialErrorModel>,
    purge: Result<(), SerialErrorModel>,
    reply: Result<usize, SerialErrorModel>,
    next: WriteContext,
    rest: usize,
)
    requires
        write_outcome(lane, context, length, interruption, purge, reply).1 matches Ok(written)
            && written < length,
        0 < rest <= next.total_len,
    ensures
        ({
            let after = write_outcome(lane, context, length, interruption, purge, reply).0;
            let written = reply->Ok_0;
            &&& after.open
            &&& write_refusal(after, next, rest) is None <==> next == context && rest == length
                - written
            &&& write_refusal(after, next, rest) is Some ==> refused_lane(after, next, rest)
                == closed_lane()
        }),
{
}

/// Once a part of a write was accepted, its failure closes the stream.
pub proof fn law_failure_after_a_part_closes(
    lane: Lane,
    context: WriteContext,
    length: usize,
    interruption: Option<SerialErrorModel>,
    purge: Result<(), SerialErrorModel>,
    reply: Result<usize, SerialErrorModel>,
)
    requires
        lane_valid(lane),
        0 < length < context.total_len,
        write_outcome(lane, context, length, interruption, purge, reply).1 is Err,
    ensures
        write_outcome(lane, context, length, interruption, purge, reply).0 == closed_lane(),
        write_outcome(lane, context, length, interruption, purge, reply).1->Err_0.kind
            == TransportErrorKind::Disconnected,
{
}

/// A failure before any byte of a logical write was accepted leaves the stream open.
pub proof fn law_failure_without_effect_keeps_the_stream(
    lane: Lane,
    context: WriteContext,
    interruption: Option<SerialErrorModel>,
    purge: Result<(), SerialErrorModel>,
    reply: Result<usize, SerialErrorModel>,
)
    requires
        lane.active_write is None,
    ensures
        write_outcome(lane, context, context.total_len, interruption, purge, reply).0.open
            == lane.open,
{
}

/// Old input is purged once for each command: the rest of a command that was begun is not purged
/// again.
pub proof fn law_command_is_purged_once(
    lane: Lane,
    context: WriteContext,
    length: usize,
    interruption: Option<SerialErrorModel>,
    purge: Result<(), SerialErrorModel>,
    reply: Result<usize, SerialErrorModel>,
)
    requires
        write_outcome(lane, context, length, interruption, purge, reply).1 is Ok,
    ensures
        !purges(
            write_outcome(lane, context, length, interruption, purge, reply).0,
            context,
        ),
{
}

/// The bytes that a log of calls accepted.
pub open spec fn accepted_bytes(log: Seq<ByteIoEvent>) -> Seq<u8>
    decreases log.len(),
{
    if log.len() == 0 {
        seq![]
    } else {
        match log.last() {
            ByteIoEvent::Write { bytes, reply: Ok(progress), .. } => accepted_bytes(log.drop_last())
                + bytes.take(progress as int),
            _ => accepted_bytes(log.drop_last()),
        }
    }
}

pub(crate) proof fn lemma_sent_bytes(bytes: Seq<u8>, request: ByteIoRequest, calls: Seq<SendCall>)
    requires
        bytes.len() <= usize::MAX,
        sent(bytes.len() as usize, request.deadline_ns, calls) is Some,
    ensures
        ({
            let count = sent(bytes.len() as usize, request.deadline_ns, calls)->0;
            &&& count <= bytes.len()
            &&& accepted_bytes(send_events(bytes, request, calls)) == bytes.take(count as int)
        }),
    decreases calls.len(),
{
    let log = send_events(bytes, request, calls);
    if calls.len() == 0 {
        assert(accepted_bytes(log) =~= bytes.take(0));
    } else {
        lemma_sent_bytes(bytes, request, calls.drop_last());
        let before = sent(bytes.len() as usize, request.deadline_ns, calls.drop_last())->0;
        let progress = calls.last().reply->Ok_0;
        assert(log.drop_last() =~= send_events(bytes, request, calls.drop_last()));
        assert(bytes.take(before as int) + bytes.skip(before as int).take(progress as int)
            =~= bytes.take(before + progress));
    }
}

/// A successful handshake sent its request, byte for byte and nothing else, and read the reply that
/// it expects.
pub proof fn law_handshake_is_source_exact(request: &HandshakeRequest, history: HandshakeHistory)
    requires
        request.request_bytes@.len() <= usize::MAX,
        handshake_outcome(request, history) == Some(Ok::<(), TransportErrorModel>(())),
    ensures
        accepted_bytes(handshake_log(request, history)) == request.request_bytes@,
        history.reply == Ok::<usize, SerialErrorModel>(1),
        history.byte == request.expected_reply,
{
    let call = request.call(ByteIoOperation::HandshakeWrite);
    let bytes = request.request_bytes@;
    let log = handshake_log(request, history);
    lemma_sent_bytes(bytes, call, history.calls);
    assert(log.drop_last() =~= send_events(bytes, call, history.calls));
    assert(bytes.take(bytes.len() as int) =~= bytes);
}

} // verus!
