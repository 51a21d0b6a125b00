//! What the Controller transport promises of the calls that its streams take.

use crate::serial::error::{SerialErrorKind, SerialErrorModel};
use crate::serial::io::{
    call_looks, ByteIoEvent, ByteIoOperation, ByteIoRequest, LookEvent, WriteContext, WriteKind,
};
use crate::serial::discovery::PortModel;
use crate::serial::transport::{
    accepted_bytes, ack_ran, handshake_log, handshake_ran,
    mapped, not_open, partial_failure, progress_failure,
    send_events, send_outcome, sent, write_log, write_ran, AckFrame, AckRequest, ActiveWrite,
    HandshakeHistory, HandshakeRequest, IoPhase, SendCall, TransportErrorKind,
    TransportErrorModel, TransportModel, WriteRequest,
};
use vstd::prelude::*;

verus! {

/// The command for which a stream last dropped its old input, by the calls that it took.
pub open spec fn last_purge(log: Seq<ByteIoEvent>) -> Option<u64>
    decreases log.len(),
{
    if log.len() == 0 {
        None
    } else {
        match log.last() {
            ByteIoEvent::Discard { request, reply: Ok(_) } => match request.operation {
                ByteIoOperation::DiscardInput { write_sequence } => Some(write_sequence),
                _ => None,
            },
            _ => last_purge(log.drop_last()),
        }
    }
}

/// The logical write of which a stream has accepted a part and not the rest, with the bytes that it
/// accepted, by the calls that it took.
pub open spec fn unfinished_write(log: Seq<ByteIoEvent>) -> Option<(WriteContext, int)>
    decreases log.len(),
{
    if log.len() == 0 {
        None
    } else {
        match log.last() {
            ByteIoEvent::Write { bytes, request, reply } => match (request.operation, reply) {
                (ByteIoOperation::ControllerWrite(context), Ok(count)) => if 0 < count
                    < bytes.len() {
                    Some((context, context.total_len - bytes.len() + count))
                } else if count == bytes.len() {
                    None
                } else {
                    unfinished_write(log.drop_last())
                },
                _ => unfinished_write(log.drop_last()),
            },
            _ => unfinished_write(log.drop_last()),
        }
    }
}

/// Whether every write of a command came behind the purge for that very command, with no purge for
/// another one in between.
pub open spec fn commands_are_purged(log: Seq<ByteIoEvent>) -> bool {
    forall|i: int|
        0 <= i < log.len() ==> match #[trigger] log[i] {
            ByteIoEvent::Write { request, .. } => match request.operation {
                ByteIoOperation::ControllerWrite(context) => context.kind == WriteKind::Command
                    ==> last_purge(log.take(i)) == Some(context.sequence),
                _ => true,
            },
            _ => true,
        }
}

/// Whether what a transport knows of its stream is what the calls on it tell, and old input never
/// stood before a command on any of its streams.
pub open spec fn knows_its_stream(transport: TransportModel) -> bool {
    &&& transport.lane.open ==> {
        &&& transport.lane.prepared_command_sequence == last_purge(transport.log)
        &&& match transport.lane.active_write {
            Some(active) => unfinished_write(transport.log) == Some(
                (active.context, active.accepted as int),
            ),
            None => unfinished_write(transport.log) is None,
        }
        &&& commands_are_purged(transport.log)
    }
    &&& forall|k: int|
        0 <= k < transport.retired.len() ==> commands_are_purged(#[trigger] transport.retired[k])
}

proof fn lemma_purged_push(log: Seq<ByteIoEvent>, event: ByteIoEvent)
    requires
        commands_are_purged(log),
        event matches ByteIoEvent::Write { request, .. } ==> (
        request.operation matches ByteIoOperation::ControllerWrite(context) ==> (context.kind
            == WriteKind::Command ==> last_purge(log) == Some(context.sequence))),
    ensures
        commands_are_purged(log.push(event)),
{
    let more = log.push(event);
    assert forall|i: int| 0 <= i < more.len() implies match #[trigger] more[i] {
        ByteIoEvent::Write { request, .. } => match request.operation {
            ByteIoOperation::ControllerWrite(context) => context.kind == WriteKind::Command
                ==> last_purge(more.take(i)) == Some(context.sequence),
            _ => true,
        },
        _ => true,
    } by {
        if i < log.len() {
            assert(more[i] == log[i]);
            assert(more.take(i) =~= log.take(i));
        } else {
            assert(more.take(i) =~= log);
        }
    }
}

proof fn lemma_retired_push(retired: Seq<Seq<ByteIoEvent>>, log: Seq<ByteIoEvent>)
    requires
        commands_are_purged(log),
        forall|k: int| 0 <= k < retired.len() ==> commands_are_purged(#[trigger] retired[k]),
    ensures
        ({
            let more = retired.push(log.push(ByteIoEvent::Close));
            forall|k: int| 0 <= k < more.len() ==> commands_are_purged(#[trigger] more[k])
        }),
{
    lemma_purged_push(log, ByteIoEvent::Close);
}

/// The calls that the stream of a write fragment took in all, up to its close where the fragment
/// gave it up.
pub open spec fn calls_after(before: TransportModel, after: TransportModel) -> Seq<ByteIoEvent> {
    if after.lane.open {
        after.log
    } else {
        after.retired.last().drop_last()
    }
}

/// A write fragment on an open stream makes at most two calls: a purge, and the write of every byte
/// that is left, in this order. A purge is made exactly for a command other than the one that was
/// last purged for, and it names that command; a write follows it exactly where it succeeded.
pub proof fn law_every_command_purges_old_input_first(
    request: &WriteRequest<'_>,
    before: TransportModel,
    after: TransportModel,
    result: Result<usize, TransportErrorModel>,
    looks: Seq<LookEvent>,
    purge: Result<(), SerialErrorModel>,
    reply: Result<usize, SerialErrorModel>,
)
    requires
        before.valid(),
        before.lane.open,
        knows_its_stream(before),
        request.bytes@.len() <= usize::MAX,
        write_ran(request, before, after, result, looks, purge, reply),
    ensures
        ({
            let calls = calls_after(before, after);
            let old = before.log.len() as int;
            let due = request.context.kind == WriteKind::Command && last_purge(before.log) != Some(
                request.context.sequence,
            );
            &&& calls.len() >= old
            &&& calls.take(old) == before.log
            &&& calls.len() > old ==> {
                &&& due <==> calls[old] is Discard
                &&& !due ==> calls.len() == old + 1
                &&& calls[old] matches ByteIoEvent::Discard { request: call, reply: answer } ==> {
                    &&& call.operation == (ByteIoOperation::DiscardInput {
                        write_sequence: request.context.sequence,
                    })
                    &&& call.deadline_ns == request.deadline_ns
                    &&& call.cancellation == request.cancellation
                    &&& call.resource_cancellation == request.resource_cancellation
                    &&& call.final_write_settlement is None
                    &&& calls.len() == if answer is Ok {
                        old + 2
                    } else {
                        old + 1
                    }
                }
                &&& calls.last() is Discard || calls.last() is Write
                &&& calls.last() matches ByteIoEvent::Write { bytes, request: call, .. } ==> {
                    &&& bytes == request.bytes@
                    &&& call.operation == ByteIoOperation::ControllerWrite(request.context)
                    &&& call.deadline_ns == request.deadline_ns
                    &&& call.cancellation == request.cancellation
                    &&& call.resource_cancellation == request.resource_cancellation
                    &&& call.final_write_settlement matches Some(latch) && latch.settlement
                        == request.settlement && latch.total_len == request.context.total_len
                        && latch.accepted_before + request.bytes@.len()
                        == request.context.total_len
                }
            }
        }),
{
    let calls = calls_after(before, after);
    let old = before.log.len() as int;
    if !after.lane.open {
        assert(after.retired.last().drop_last() =~= calls);
    }
    assert(calls.take(old) =~= before.log);
}

/// A whole write that nothing interrupts always reaches an open stream on which no other write is
/// unfinished.
pub proof fn law_uninterrupted_write_reaches_the_stream(
    request: &WriteRequest<'_>,
    before: TransportModel,
    after: TransportModel,
    result: Result<usize, TransportErrorModel>,
    looks: Seq<LookEvent>,
    purge: Result<(), SerialErrorModel>,
    reply: Result<usize, SerialErrorModel>,
)
    requires
        before.valid(),
        before.lane.open,
        knows_its_stream(before),
        request.bytes@.len() <= usize::MAX,
        0 < request.bytes@.len() <= request.context.total_len,
        write_ran(request, before, after, result, looks, purge, reply),
        match unfinished_write(before.log) {
            Some(unfinished) => unfinished.0 == request.context && unfinished.1
                == request.context.total_len - request.bytes@.len(),
            None => request.context.total_len == request.bytes@.len(),
        },
        looks.last() matches LookEvent::Time { now_ns } && now_ns < request.deadline_ns,
    ensures
        calls_after(before, after).len() > before.log.len(),
{
}

/// A fragment that does not go on exactly where the unfinished write of its stream stopped loses
/// the stream: whatever else, nothing of it is sent, and the failure is a lost connection.
pub proof fn law_only_the_rest_of_an_unfinished_write_is_sent(
    request: &WriteRequest<'_>,
    before: TransportModel,
    after: TransportModel,
    result: Result<usize, TransportErrorModel>,
    looks: Seq<LookEvent>,
    purge: Result<(), SerialErrorModel>,
    reply: Result<usize, SerialErrorModel>,
)
    requires
        before.valid(),
        before.lane.open,
        knows_its_stream(before),
        request.bytes@.len() <= usize::MAX,
        0 < request.bytes@.len() <= request.context.total_len,
        write_ran(request, before, after, result, looks, purge, reply),
        match unfinished_write(before.log) {
            Some(unfinished) => unfinished.0 != request.context || unfinished.1
                != request.context.total_len - request.bytes@.len(),
            None => request.context.total_len != request.bytes@.len(),
        },
    ensures
        result matches Err(error) && error.kind == TransportErrorKind::Disconnected,
        !after.lane.open,
        after.retired == before.retired.push(before.log.push(ByteIoEvent::Close)),
{
}

/// A fragment without bytes, or with more bytes than its logical write has, is a misuse: nothing is
/// asked of anybody and the stream stays.
pub proof fn law_malformed_write_changes_nothing(
    request: &WriteRequest<'_>,
    before: TransportModel,
    after: TransportModel,
    result: Result<usize, TransportErrorModel>,
    looks: Seq<LookEvent>,
    purge: Result<(), SerialErrorModel>,
    reply: Result<usize, SerialErrorModel>,
)
    requires
        before.valid(),
        request.bytes@.len() <= usize::MAX,
        request.context.total_len == 0 || request.bytes@.len() == 0 || request.bytes@.len()
            > request.context.total_len,
        write_ran(request, before, after, result, looks, purge, reply),
    ensures
        result matches Err(error) && error.kind == TransportErrorKind::Protocol && error.message
            == if request.context.total_len == 0 || request.bytes@.len() == 0 {
            "serial logical write must be non-empty"@
        } else {
            "serial write remainder exceeds its logical payload"@
        },
        after == before,
{
    assert(before.looks + looks =~= before.looks);
}

/// A write says what its stream said: it succeeds with a number of bytes exactly where the last
/// call on the stream is its write, and that write accepted this number, at least one and no more
/// than it was given.
pub proof fn law_write_reports_what_the_stream_accepted(
    request: &WriteRequest<'_>,
    before: TransportModel,
    after: TransportModel,
    result: Result<usize, TransportErrorModel>,
    looks: Seq<LookEvent>,
    purge: Result<(), SerialErrorModel>,
    reply: Result<usize, SerialErrorModel>,
    count: usize,
)
    requires
        before.valid(),
        request.bytes@.len() <= usize::MAX,
        write_ran(request, before, after, result, looks, purge, reply),
    ensures
        result == Ok::<usize, TransportErrorModel>(count) <==> {
            let calls = calls_after(before, after);
            &&& before.lane.open
            &&& calls.len() > before.log.len()
            &&& calls.last() matches ByteIoEvent::Write { reply: answer, .. } && answer == Ok::<
                usize,
                SerialErrorModel,
            >(count)
            &&& 0 < count <= request.bytes@.len()
        },
        result is Ok ==> after.lane.open && after.retired == before.retired,
{
    if before.lane.open && !after.lane.open {
        assert(after.retired.last().drop_last() =~= calls_after(before, after));
    }
}

/// A cancelled or late write asks nothing of the stream. Before any part of it was accepted it
/// fails with that very cause and the stream stays; afterwards the stream is lost.
pub proof fn law_interrupted_write_asks_nothing(
    request: &WriteRequest<'_>,
    before: TransportModel,
    after: TransportModel,
    result: Result<usize, TransportErrorModel>,
    looks: Seq<LookEvent>,
    purge: Result<(), SerialErrorModel>,
    reply: Result<usize, SerialErrorModel>,
)
    requires
        before.valid(),
        request.bytes@.len() <= usize::MAX,
        0 < request.bytes@.len() <= request.context.total_len,
        write_ran(request, before, after, result, looks, purge, reply),
        looks.len() > 0,
        match looks.last() {
            LookEvent::Token { cancelled, .. } => cancelled,
            LookEvent::Time { now_ns } => now_ns >= request.deadline_ns,
        },
    ensures
        result is Err,
        request.bytes@.len() == request.context.total_len ==> {
            &&& after.lane == before.lane
            &&& after.log == before.log
            &&& after.retired == before.retired
            &&& result->Err_0.kind == match looks.last() {
                LookEvent::Token { .. } => TransportErrorKind::Cancelled,
                LookEvent::Time { .. } => TransportErrorKind::WriteTimeout,
            }
        },
        request.bytes@.len() < request.context.total_len ==> {
            &&& !after.lane.open
            &&& before.lane.open ==> after.retired == before.retired.push(
                before.log.push(ByteIoEvent::Close),
            )
            &&& result->Err_0.kind == TransportErrorKind::Disconnected
        },
{
}

/// The watch is asked before every call whose request is in order: first for the call's own token,
/// then for its resource's, then for the time, and no further than a cancelled token.
pub proof fn law_looks_stop_at_a_cancelled_token(request: ByteIoRequest, looks: Seq<LookEvent>)
    requires
        call_looks(request, looks),
    ensures
        1 <= looks.len() <= 3,
        looks[0] matches LookEvent::Token { token, .. } && token == request.cancellation,
        looks.len() > 1 ==> (looks[0] matches LookEvent::Token { cancelled, .. } && !cancelled) && (
        looks[1] matches LookEvent::Token { token, .. } && token == request.resource_cancellation),
        looks.len() == 3 <==> looks.last() is Time,
        looks.last() matches LookEvent::Token { cancelled, .. } ==> cancelled,
        looks.len() == 3 ==> (looks[1] matches LookEvent::Token { cancelled, .. } && !cancelled),
{
}

/// The category of a failure is the same for the Controller wherever it comes from: a cancellation,
/// an elapsed deadline, a device that is gone, a broken protocol, or any other failure of I/O. Its
/// text is that of the serial failure.
pub proof fn law_failures_keep_their_category(error: SerialErrorModel, phase: IoPhase)
    ensures
        error.kind == SerialErrorKind::Cancelled <==> mapped(error, phase).kind
            == TransportErrorKind::Cancelled,
        error.kind == SerialErrorKind::DeadlineExceeded && phase == IoPhase::Write <==> mapped(
            error,
            phase,
        ).kind == TransportErrorKind::WriteTimeout,
        error.kind == SerialErrorKind::DeadlineExceeded && phase == IoPhase::Protocol <==> mapped(
            error,
            phase,
        ).kind == TransportErrorKind::Timeout,
        error.kind == SerialErrorKind::Disconnected || error.kind == SerialErrorKind::NotFound
            <==> mapped(error, phase).kind == TransportErrorKind::Disconnected,
        error.kind == SerialErrorKind::Protocol <==> mapped(error, phase).kind
            == TransportErrorKind::Protocol,
        error.kind == SerialErrorKind::AccessDenied || error.kind == SerialErrorKind::PortBusy
            || error.kind == SerialErrorKind::ZeroProgress || error.kind
            == SerialErrorKind::InvalidPort || error.kind == SerialErrorKind::Io || error.kind
            == SerialErrorKind::UnsupportedPlatform <==> mapped(error, phase).kind
            == TransportErrorKind::Io,
        mapped(error, phase).message == error.text(),
{
}

/// A call has to move at least one byte, and no more than it was given: no progress is a failure of
/// I/O, too much a broken protocol.
pub proof fn law_progress_stays_within_the_buffer(progress: usize, remaining: usize, phase: IoPhase)
    ensures
        progress_failure(progress, remaining, phase) is None <==> 1 <= progress <= remaining,
        progress == 0 ==> (progress_failure(progress, remaining, phase) matches Some(error)
            && error.kind == TransportErrorKind::Io),
        progress > 0 && progress > remaining ==> (progress_failure(
            progress,
            remaining,
            phase,
        ) matches Some(error) && error.kind == TransportErrorKind::Protocol),
{
}

/// Without an accepted part a failed write shows its own cause; behind one it shows a lost
/// connection, whose text ends with that cause.
pub proof fn law_failure_behind_a_part_tells_its_cause(accepted: usize, error: TransportErrorModel)
    ensures
        accepted == 0 ==> partial_failure(accepted, error) == error,
        accepted != 0 ==> partial_failure(accepted, error).kind == TransportErrorKind::Disconnected
            && partial_failure(accepted, error).message
            == "serial stream closed after partial-write failure: "@ + error.text(),
        not_open().kind == TransportErrorKind::Disconnected,
{
}

/// A write keeps what a transport knows of its stream in step with the calls on it.
pub proof fn law_write_keeps_track_of_its_stream(
    request: &WriteRequest<'_>,
    before: TransportModel,
    after: TransportModel,
    result: Result<usize, TransportErrorModel>,
    looks: Seq<LookEvent>,
    purge: Result<(), SerialErrorModel>,
    reply: Result<usize, SerialErrorModel>,
)
    requires
        before.valid(),
        knows_its_stream(before),
        request.bytes@.len() <= usize::MAX,
        write_ran(request, before, after, result, looks, purge, reply),
    ensures
        knows_its_stream(after),
{
    if before.lane.open {
        let calls = calls_after(before, after);
        let old = before.log.len() as int;
        law_every_command_purges_old_input_first(
            request,
            before,
            after,
            result,
            looks,
            purge,
            reply,
        );
        if calls.len() > old {
            let first = before.log.push(calls[old]);
            assert(first.drop_last() =~= before.log);
            if calls[old] is Discard {
                assert(unfinished_write(first) == unfinished_write(before.log));
                assert(last_purge(first) == if calls[old]->Discard_reply is Ok {
                    Some(request.context.sequence)
                } else {
                    last_purge(before.log)
                });
            } else {
                assert(last_purge(first) == last_purge(before.log));
            }
            lemma_purged_push(before.log, calls[old]);
            if calls.len() > old + 1 {
                lemma_purged_push(first, calls[old + 1]);
                assert(calls =~= first.push(calls[old + 1]));
                assert(calls.drop_last() =~= first);
            } else {
                assert(calls =~= first);
            }
        } else {
            assert(calls =~= before.log);
        }
        assert(commands_are_purged(calls));
        if !after.lane.open {
            let log = write_log(request, before, looks, purge, reply);
            assert(log.push(ByteIoEvent::Close).drop_last() =~= log);
            assert(calls == log);
            lemma_retired_push(before.retired, calls);
        }
    }
}

/// Waiting for an answer changes nothing that a transport knows of its stream; it reads one byte.
pub proof fn law_answer_is_one_byte_of_the_stream(
    request: AckRequest,
    before: TransportModel,
    after: TransportModel,
    result: Result<AckFrame, TransportErrorModel>,
    looks: Seq<LookEvent>,
    reply: Result<usize, SerialErrorModel>,
    byte: u8,
)
    requires
        before.valid(),
        knows_its_stream(before),
        ack_ran(request, before, after, result, looks, reply, byte),
    ensures
        knows_its_stream(after),
        after.lane == before.lane,
        after.retired == before.retired,
        after.opened == before.opened,
        result is Ok ==> before.lane.open && after.log.len() == before.log.len() + 1
            && after.log.drop_last() == before.log,
        result matches Ok(frame) ==> (after.log.last() matches ByteIoEvent::Read {
            length,
            request: call,
            reply: answer,
            bytes,
        } && {
            &&& length == 1
            &&& answer == Ok::<usize, SerialErrorModel>(1)
            &&& bytes == seq![frame.byte]
            &&& frame.generation == request.generation
            &&& call.operation == (ByteIoOperation::AckRead { generation: request.generation })
            &&& call.deadline_ns == request.deadline_ns
            &&& call.cancellation == request.cancellation
            &&& call.resource_cancellation == request.resource_cancellation
            &&& call.final_write_settlement is None
        }),
        // An open stream is read unless the call is interrupted, and its byte is the answer.
        before.lane.open && (looks.last() matches LookEvent::Time { now_ns } && now_ns
            < request.deadline_ns) ==> after.log.len() == before.log.len() + 1 && (result is Ok
            <==> reply == Ok::<usize, SerialErrorModel>(1)),
        (looks.last() matches LookEvent::Token { cancelled, .. }) ==> after.log == before.log && (
        result matches Err(error) && error.kind == TransportErrorKind::Cancelled),
        (looks.last() matches LookEvent::Time { now_ns } && now_ns >= request.deadline_ns)
            ==> after.log == before.log && (result matches Err(error) && error.kind
            == TransportErrorKind::Timeout),
        !before.lane.open && (looks.last() matches LookEvent::Time { now_ns } && now_ns
            < request.deadline_ns) ==> after.log == before.log && (result matches Err(error)
            && error.kind == TransportErrorKind::Disconnected),
{
    if before.lane.open && after.log.len() > before.log.len() {
        assert(after.log.drop_last() =~= before.log);
        lemma_purged_push(before.log, after.log.last());
        assert(after.log =~= before.log.push(after.log.last()));
    }
}

/// Closing keeps what a transport knows in step: there is no stream to know anything of.
pub proof fn law_close_keeps_track_of_its_stream(before: TransportModel)
    requires
        before.valid(),
        knows_its_stream(before),
    ensures
        knows_its_stream(before.closed()),
        !before.closed().lane.open,
        before.closed().log.len() == 0,
        before.closed().looks == before.looks,
        before.closed().opened == before.opened,
        before.closed().retired == if before.lane.open {
            before.retired.push(before.log.push(ByteIoEvent::Close))
        } else {
            before.retired
        },
{
    if before.lane.open {
        lemma_retired_push(before.retired, before.log);
    }
}

proof fn lemma_sending_leaves_no_trace(
    bytes: Seq<u8>,
    request: ByteIoRequest,
    calls: Seq<SendCall>,
    k: int,
)
    requires
        request.operation == ByteIoOperation::HandshakeWrite,
        0 <= k < send_events(bytes, request, calls).len(),
    ensures
        send_events(bytes, request, calls)[k] matches ByteIoEvent::Write { request: call, .. }
            && call == request,
    decreases calls.len(),
{
    if calls.len() > 0 && k < send_events(bytes, request, calls.drop_last()).len() {
        lemma_sending_leaves_no_trace(bytes, request, calls.drop_last(), k);
    }
}

proof fn lemma_plain_log(log: Seq<ByteIoEvent>)
    requires
        forall|k: int|
            0 <= k < log.len() ==> (#[trigger] log[k]) is Read || (
            log[k] matches ByteIoEvent::Write { request, .. } && request.operation
                == ByteIoOperation::HandshakeWrite),
    ensures
        last_purge(log) is None,
        unfinished_write(log) is None,
        commands_are_purged(log),
    decreases log.len(),
{
    if log.len() > 0 {
        assert(log.last() == log[log.len() - 1]);
        let rest = log.drop_last();
        assert forall|k: int| 0 <= k < rest.len() implies (#[trigger] rest[k]) is Read || (
        rest[k] matches ByteIoEvent::Write { request, .. } && request.operation
            == ByteIoOperation::HandshakeWrite) by {
            assert(rest[k] == log[k]);
        }
        lemma_plain_log(rest);
    }
}

proof fn lemma_handshake_log(request: &HandshakeRequest, history: HandshakeHistory)
    ensures
        ({
            let log = handshake_log(request, history);
            forall|k: int|
                0 <= k < log.len() ==> (#[trigger] log[k]) is Read || (
                log[k] matches ByteIoEvent::Write { request: call, .. } && call.operation
                    == ByteIoOperation::HandshakeWrite)
        }),
{
    let log = handshake_log(request, history);
    let call = request.call(ByteIoOperation::HandshakeWrite);
    let sending = send_events(request.request_bytes@, call, history.calls);
    assert forall|k: int| 0 <= k < log.len() implies (#[trigger] log[k]) is Read || (
    log[k] matches ByteIoEvent::Write { request: call, .. } && call.operation
        == ByteIoOperation::HandshakeWrite) by {
        if k < sending.len() {
            lemma_sending_leaves_no_trace(request.request_bytes@, call, history.calls, k);
            assert(log[k] == sending[k]);
        }
    }
}

proof fn lemma_sending_goes_on(
    bytes: Seq<u8>,
    request: ByteIoRequest,
    calls: Seq<SendCall>,
    k: int,
)
    requires
        bytes.len() <= usize::MAX,
        0 <= k < send_events(bytes, request, calls).len(),
        calls.len() > 0 ==> sent(
            bytes.len() as usize,
            request.deadline_ns,
            calls.drop_last(),
        ) is Some,
    ensures
        ({
            let log = send_events(bytes, request, calls);
            &&& log[k] matches ByteIoEvent::Write { bytes: rest, request: call, .. } && {
                &&& call == request
                &&& accepted_bytes(log.take(k)) + rest == bytes
                &&& rest.len() > 0 || k == log.len() - 1
            }
        }),
    decreases calls.len(),
{
    let log = send_events(bytes, request, calls);
    let earlier = send_events(bytes, request, calls.drop_last());
    let before = sent(bytes.len() as usize, request.deadline_ns, calls.drop_last())->0;
    crate::serial::transport::lemma_sent_bytes(bytes, request, calls.drop_last());
    if k < earlier.len() {
        lemma_sending_goes_on(bytes, request, calls.drop_last(), k);
        assert(log.take(k) =~= earlier.take(k));
        if k == earlier.len() - 1 && calls.drop_last().len() > 0 {
            let sooner = sent(
                bytes.len() as usize,
                request.deadline_ns,
                calls.drop_last().drop_last(),
            );
            assert(sooner is Some && sooner->0 < bytes.len());
        }
    } else {
        assert(log.take(k) =~= earlier);
        assert(bytes.take(before as int) + bytes.skip(before as int) =~= bytes);
    }
}

/// A handshake closes the stream before it and asks for a new one, once, at the selected port and
/// with the given baud rate, unless it is interrupted; then nothing at all is asked for.
pub proof fn law_handshake_opens_one_new_stream(
    request: &HandshakeRequest,
    port: PortModel,
    before: TransportModel,
    after: TransportModel,
    result: Result<(), TransportErrorModel>,
    history: HandshakeHistory,
)
    requires
        before.valid(),
        knows_its_stream(before),
        handshake_ran(request, port, before, after, result, history),
    ensures
        knows_its_stream(after),
        // What was open is closed.
        before.lane.open ==> after.retired.len() > before.retired.len()
            && after.retired[before.retired.len() as int] == before.log.push(ByteIoEvent::Close),
        // Interrupted: nothing else happens.
        (history.looks.last() matches LookEvent::Token { .. }) ==> after.opened == before.opened
            && !after.lane.open && (result matches Err(error) && error.kind
            == TransportErrorKind::Cancelled),
        (history.looks.last() matches LookEvent::Time { now_ns } && now_ns >= request.deadline_ns)
            ==> after.opened == before.opened && !after.lane.open && (result matches Err(error)
            && error.kind == TransportErrorKind::Timeout),
        // Otherwise the port is opened once.
        (history.looks.last() matches LookEvent::Time { now_ns } && now_ns < request.deadline_ns)
            ==> {
            &&& after.opened.len() == before.opened.len() + 1
            &&& after.opened.drop_last() == before.opened
            &&& after.opened.last().port == port
            &&& after.opened.last().baud_rate == request.baud_rate
            &&& after.opened.last().request.operation == ByteIoOperation::Open
            &&& after.opened.last().request.deadline_ns == request.deadline_ns
            &&& after.opened.last().request.cancellation == request.cancellation
            &&& after.opened.last().request.resource_cancellation == request.resource_cancellation
            &&& after.opened.last().failure is Some ==> !after.lane.open && result is Err
                && after.retired.len() == before.retired.len() + if before.lane.open {
                1int
            } else {
                0int
            }
        },
        result is Ok <==> after.lane.open,
        result is Ok ==> after.lane.prepared_command_sequence is None && after.lane.active_write
            is None,
{
    let log = handshake_log(request, history);
    lemma_handshake_log(request, history);
    lemma_plain_log(log);
    law_close_keeps_track_of_its_stream(before);
    let interrupted = crate::serial::io::looked_interruption(history.looks, request.deadline_ns);
    if interrupted is None && history.open_failure is None && result is Err {
        lemma_retired_push(before.closed().retired, log);
    }
    if interrupted is None {
        assert(after.opened.drop_last() =~= before.opened);
    }
}

/// The calls of a handshake on its new stream, but for the close behind a failure.
pub open spec fn handshake_calls(after: TransportModel) -> Seq<ByteIoEvent> {
    if after.lane.open {
        after.log
    } else {
        after.retired.last().drop_last()
    }
}

/// A handshake on the stream that it opened sends its request byte for byte: each write carries
/// every byte that was not accepted before. It then reads one byte, once all was accepted and not
/// sooner, and succeeds exactly where that byte is the expected one. A stream whose handshake fails
/// is closed.
#[verifier::spinoff_prover]
#[verifier::rlimit(50)]
pub proof fn law_handshake_sends_its_request_and_reads_one_reply(
    request: &HandshakeRequest,
    port: PortModel,
    before: TransportModel,
    after: TransportModel,
    result: Result<(), TransportErrorModel>,
    history: HandshakeHistory,
)
    requires
        before.valid(),
        request.request_bytes@.len() <= usize::MAX,
        handshake_ran(request, port, before, after, result, history),
        after.opened.len() > before.opened.len(),
        after.opened.last().failure is None,
    ensures
        ({
            let calls = handshake_calls(after);
            let bytes = request.request_bytes@;
            &&& forall|k: int|
                0 <= k < calls.len() ==> match #[trigger] calls[k] {
                    ByteIoEvent::Write { bytes: rest, request: call, .. } => {
                        &&& accepted_bytes(calls.take(k)) + rest == bytes
                        &&& call.operation == ByteIoOperation::HandshakeWrite
                        &&& call.deadline_ns == request.deadline_ns
                        &&& call.cancellation == request.cancellation
                        &&& call.resource_cancellation == request.resource_cancellation
                        &&& call.final_write_settlement is None
                    },
                    ByteIoEvent::Read { length, request: call, .. } => {
                        &&& k == calls.len() - 1
                        &&& length == 1
                        &&& accepted_bytes(calls.take(k)) == bytes
                        &&& call.operation == ByteIoOperation::HandshakeRead
                        &&& call.deadline_ns == request.deadline_ns
                        &&& call.cancellation == request.cancellation
                        &&& call.resource_cancellation == request.resource_cancellation
                        &&& call.final_write_settlement is None
                    },
                    _ => false,
                }
            &&& result is Ok <==> calls.len() > 0 && (calls.last() matches ByteIoEvent::Read {
                reply,
                bytes: read,
                ..
            } && reply == Ok::<usize, SerialErrorModel>(1) && read == seq![request.expected_reply])
            &&& result is Err ==> after.retired.last().last() is Close
        }),
{
    let calls = handshake_calls(after);
    let bytes = request.request_bytes@;
    let log = handshake_log(request, history);
    let call = request.call(ByteIoOperation::HandshakeWrite);
    let sending = send_events(bytes, call, history.calls);
    let length = bytes.len() as usize;
    if !after.lane.open {
        assert(after.retired.last().drop_last() =~= log);
    }
    assert(calls == log);
    assert(send_outcome(length, request.deadline_ns, history.calls) is Some);
    if history.calls.len() > 0 {
        assert(sent(length, request.deadline_ns, history.calls.drop_last()) is Some);
    }
    if send_outcome(length, request.deadline_ns, history.calls) == Some(
        Ok::<(), TransportErrorModel>(()),
    ) {
        crate::serial::transport::lemma_sent_bytes(bytes, call, history.calls);
        assert(bytes.take(bytes.len() as int) =~= bytes);
        assert(log.take(sending.len() as int) =~= sending);
        assert(seq![history.byte][0] == history.byte);
        assert(seq![request.expected_reply][0] == request.expected_reply);
    } else if log.len() > 0 {
        lemma_sending_leaves_no_trace(bytes, call, history.calls, log.len() - 1);
    }
    assert forall|k: int| 0 <= k < calls.len() implies match #[trigger] calls[k] {
        ByteIoEvent::Write { bytes: rest, request: call, .. } => {
            &&& accepted_bytes(calls.take(k)) + rest == bytes
            &&& call.operation == ByteIoOperation::HandshakeWrite
            &&& call.deadline_ns == request.deadline_ns
            &&& call.cancellation == request.cancellation
            &&& call.resource_cancellation == request.resource_cancellation
            &&& call.final_write_settlement is None
        },
        ByteIoEvent::Read { length, request: call, .. } => {
            &&& k == calls.len() - 1
            &&& length == 1
            &&& accepted_bytes(calls.take(k)) == bytes
            &&& call.operation == ByteIoOperation::HandshakeRead
            &&& call.deadline_ns == request.deadline_ns
            &&& call.cancellation == request.cancellation
            &&& call.resource_cancellation == request.resource_cancellation
            &&& call.final_write_settlement is None
        },
        _ => false,
    } by {
        if k < sending.len() {
            lemma_sending_goes_on(bytes, call, history.calls, k);
            assert(calls[k] == sending[k]);
            assert(calls.take(k) =~= sending.take(k));
        } else {
            assert(calls.take(k) =~= sending);
        }
    }
}

proof fn lemma_calls_made(bytes: Seq<u8>, request: ByteIoRequest, calls: Seq<SendCall>)
    ensures
        send_events(bytes, request, calls).len() <= calls.len(),
    decreases calls.len(),
{
    if calls.len() > 0 {
        lemma_calls_made(bytes, request, calls.drop_last());
    }
}

/// A handshake looks for an interruption before each write. Once it is cancelled or late it writes
/// no more and reads nothing, and fails with that very cause; a write that fails ends it too, with
/// the category of the failure.
pub proof fn law_interrupted_handshake_sends_no_more(
    request: &HandshakeRequest,
    port: PortModel,
    before: TransportModel,
    after: TransportModel,
    result: Result<(), TransportErrorModel>,
    history: HandshakeHistory,
)
    requires
        before.valid(),
        request.request_bytes@.len() <= usize::MAX,
        handshake_ran(request, port, before, after, result, history),
        history.calls.len() > 0,
    ensures
        ({
            let last = history.calls.last();
            let asked = handshake_calls(after);
            &&& forall|k: int|
                #![trigger history.calls[k]]
                0 <= k < history.calls.len() ==> history.calls[k].looks.len() > 0 && (
                history.calls[k].looks[0] matches LookEvent::Token { token, .. } && token
                    == request.cancellation)
            &&& last.looks.last() is Token ==> (result matches Err(error) && error.kind
                == TransportErrorKind::Cancelled) && asked.len() < history.calls.len()
            &&& (last.looks.last() matches LookEvent::Time { now_ns } && now_ns
                >= request.deadline_ns) ==> (result matches Err(error) && error.kind
                == TransportErrorKind::Timeout) && asked.len() < history.calls.len()
            &&& (last.looks.last() matches LookEvent::Time { now_ns } && now_ns
                < request.deadline_ns) && last.reply is Err ==> (result matches Err(error)
                && error == mapped(last.reply->Err_0, IoPhase::Protocol))
        }),
{
    let bytes = request.request_bytes@;
    let call = request.call(ByteIoOperation::HandshakeWrite);
    let log = handshake_log(request, history);
    let last = history.calls[history.calls.len() - 1];
    assert(call_looks(call, last.looks));
    assert forall|k: int| #![trigger history.calls[k]] 0 <= k < history.calls.len() implies
        history.calls[k].looks.len() > 0 && (
    history.calls[k].looks[0] matches LookEvent::Token { token, .. } && token
        == request.cancellation) by {
        assert(call_looks(call, history.calls[k].looks));
    }
    lemma_calls_made(bytes, call, history.calls.drop_last());
    if result is Err {
        assert(after.retired.last().drop_last() =~= log);
    }
}

/// The failure of a stream to open, and a reply that cannot be read or is not the expected one,
/// fail a handshake: the first two with the category of the failure, the last as a broken protocol.
pub proof fn law_handshake_failures_are_told(
    request: &HandshakeRequest,
    port: PortModel,
    before: TransportModel,
    after: TransportModel,
    result: Result<(), TransportErrorModel>,
    history: HandshakeHistory,
)
    requires
        before.valid(),
        request.request_bytes@.len() <= usize::MAX,
        handshake_ran(request, port, before, after, result, history),
        history.looks.last() matches LookEvent::Time { now_ns } && now_ns < request.deadline_ns,
    ensures
        history.open_failure matches Some(failure) ==> (result matches Err(error) && error
            == mapped(failure, IoPhase::Protocol)),
        history.open_failure is None && send_outcome(
            request.request_bytes@.len() as usize,
            request.deadline_ns,
            history.calls,
        ) == Some(Ok::<(), TransportErrorModel>(())) ==> {
            &&& history.reply matches Err(failure) ==> (result matches Err(error) && error
                == mapped(failure, IoPhase::Protocol))
            &&& history.reply == Ok::<usize, SerialErrorModel>(1) && history.byte
                != request.expected_reply ==> (result matches Err(error) && error.kind
                == TransportErrorKind::Protocol)
            &&& history.reply == Ok::<usize, SerialErrorModel>(0) ==> (result matches Err(error)
                && error.kind == TransportErrorKind::Io)
        },
{
}

/// A failure is shown by its category and its message; the text of a serial failure goes into it as
/// it is.
pub proof fn law_transport_failures_are_shown(error: TransportErrorModel)
    ensures
        error.text() == (match error.kind {
            TransportErrorKind::Cancelled => "Cancelled",
            TransportErrorKind::Timeout => "Timeout",
            TransportErrorKind::WriteTimeout => "WriteTimeout",
            TransportErrorKind::Disconnected => "Disconnected",
            TransportErrorKind::Protocol => "Protocol",
            TransportErrorKind::Io => "Io",
        })@ + ": "@ + error.message,
{
}

/// A call on the stream that fails tells its failure. A purge that failed leaves the stream as it
/// was, with nothing sent. A write that failed before any part of its logical write was accepted
/// leaves the stream open too; behind an accepted part the stream is lost.
pub proof fn law_failed_calls_are_told(
    request: &WriteRequest<'_>,
    before: TransportModel,
    after: TransportModel,
    result: Result<usize, TransportErrorModel>,
    looks: Seq<LookEvent>,
    purge: Result<(), SerialErrorModel>,
    reply: Result<usize, SerialErrorModel>,
)
    requires
        before.valid(),
        before.lane.open,
        knows_its_stream(before),
        request.bytes@.len() <= usize::MAX,
        write_ran(request, before, after, result, looks, purge, reply),
        calls_after(before, after).len() > before.log.len(),
    ensures
        ({
            let last = calls_after(before, after).last();
            let whole = request.bytes@.len() == request.context.total_len;
            &&& last matches ByteIoEvent::Discard { reply: Err(failure), .. } ==> after.lane
                == before.lane && after.retired == before.retired && result == Err::<
                usize,
                TransportErrorModel,
            >(mapped(failure, IoPhase::Write))
            &&& last matches ByteIoEvent::Write { reply: Err(failure), .. } ==> {
                &&& whole ==> after.lane.open && after.retired == before.retired
                    && after.lane.active_write == before.lane.active_write && result == Err::<
                    usize,
                    TransportErrorModel,
                >(mapped(failure, IoPhase::Write))
                &&& !whole ==> !after.lane.open && after.retired.len() == before.retired.len() + 1
                    && (result matches Err(error) && error.kind
                    == TransportErrorKind::Disconnected && error.message
                    == "serial stream closed after partial-write failure: "@ + mapped(
                    failure,
                    IoPhase::Write,
                ).text())
            }
            &&& last matches ByteIoEvent::Write { reply: Ok(count), .. } ==> (whole && (count == 0
                || count > request.bytes@.len()) ==> after.lane.open && (result matches Err(error)
                && error.kind == if count == 0 {
                TransportErrorKind::Io
            } else {
                TransportErrorKind::Protocol
            }))
            &&& result matches Ok(count) ==> after.lane.active_write == if
                request.context.total_len - request.bytes@.len() + count
                == request.context.total_len {
                None
            } else {
                Some(
                    ActiveWrite {
                        context: request.context,
                        accepted: (request.context.total_len - request.bytes@.len()
                            + count) as usize,
                    },
                )
            }
        }),
{
    if !after.lane.open {
        let log = write_log(request, before, looks, purge, reply);
        assert(log.push(ByteIoEvent::Close).drop_last() =~= log);
    }
}

} // verus!
