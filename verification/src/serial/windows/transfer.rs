//! One overlapped transfer: what is asked of the system next, from the first look at the request
//! to the bytes or the error that the caller sees.

use crate::serial::error::{
    error_view, plain_error, SerialError, SerialErrorKind, SerialErrorModel,
};
use crate::serial::windows::{
    after_wait, before_wait, begin_transfer, call_name, cancel_request_error, causal_error,
    closed_error, code_error, completed_transfer, from_code, normalize_progress,
    settle_cancelled_completion, start_failure, wait_ms_of, PendingStep, TransferDirection,
    ERROR_IO_PENDING, ERROR_NOT_FOUND, ERROR_OPERATION_ABORTED, INFINITE, WAIT_FAILED,
    WAIT_OBJECT_0, WAIT_TIMEOUT,
};
use crate::wait::nanos_of;
use std::time::Duration;
use vstd::prelude::*;

verus! {

/// What a transfer needs next.
pub enum TransferStage {
    /// Look at the request and the port; nothing was handed to the system.
    Ready,
    /// Start the call with this many bytes.
    Starting(u32),
    /// The call completed at once: take its result.
    Completed,
    /// The call is pending: look at the request and the port.
    Pending,
    /// Wait for completion, interruption and close, in this order, for at most this many
    /// milliseconds.
    Waiting(u32),
    /// The call completed: take its result.
    Finishing,
    /// Request the cancellation of the call, which this error ends.
    Cancelling(SerialError),
    /// Wait for the result of the cancelled call: what its cancellation failed with, and the error
    /// that ends it.
    Settling(Option<SerialError>, SerialError),
    /// A look panicked while the call was pending: request the cancellation of the call.
    Unwinding,
    /// Wait for the result of the call whose look panicked; what it is does not matter.
    Draining,
    /// The system has let go of the buffer: resume the panic.
    Unwound,
    /// Settle a logical write that these bytes may complete.
    Publishing(usize),
    /// Return this result.
    Ended(Result<usize, SerialError>),
}

/// What came of what a stage asked for.
pub enum TransferEvent {
    /// The interruption of the request, whether the port is closed, and how long the request may
    /// wait by its clock.
    Looked(Option<SerialError>, bool, Option<Duration>),
    /// The call completed at once.
    Started,
    /// The call returned this status, and the interruption of the request.
    NotStarted(u32, Option<SerialError>),
    /// A wait returned this; the second is the status of a wait that failed.
    Waited(u32, u32),
    /// A look at the request panicked.
    Panicked,
    /// The cancellation was requested; the status where the request failed.
    CancelRequested(Option<u32>),
    /// The transferred bytes, or the status of the failed call; then the interruption of the
    /// request and whether the port is closed.
    Taken(Result<u32, u32>, Option<SerialError>, bool),
    /// The write was settled, or this failed it.
    Published(Option<SerialError>),
}

/// A stage, as plain values.
pub enum StageModel {
    Ready,
    Starting(u32),
    Completed,
    Pending,
    Waiting(u32),
    Finishing,
    Cancelling(SerialErrorModel),
    Settling(Option<SerialErrorModel>, SerialErrorModel),
    Unwinding,
    Draining,
    Unwound,
    Publishing(usize),
    Ended(Result<usize, SerialErrorModel>),
}

/// An event, as plain values.
pub enum EventModel {
    Looked(Option<SerialErrorModel>, bool, Option<u128>),
    Started,
    NotStarted(u32, Option<SerialErrorModel>),
    Waited(u32, u32),
    Panicked,
    CancelRequested(Option<u32>),
    Taken(Result<u32, u32>, Option<SerialErrorModel>, bool),
    Published(Option<SerialErrorModel>),
}

impl View for TransferStage {
    type V = StageModel;

    open spec fn view(&self) -> StageModel {
        match *self {
            TransferStage::Ready => StageModel::Ready,
            TransferStage::Starting(requested) => StageModel::Starting(requested),
            TransferStage::Completed => StageModel::Completed,
            TransferStage::Pending => StageModel::Pending,
            TransferStage::Waiting(millis) => StageModel::Waiting(millis),
            TransferStage::Finishing => StageModel::Finishing,
            TransferStage::Cancelling(error) => StageModel::Cancelling(error@),
            TransferStage::Settling(failure, error) => StageModel::Settling(
                error_view(failure),
                error@,
            ),
            TransferStage::Unwinding => StageModel::Unwinding,
            TransferStage::Draining => StageModel::Draining,
            TransferStage::Unwound => StageModel::Unwound,
            TransferStage::Publishing(bytes) => StageModel::Publishing(bytes),
            TransferStage::Ended(Ok(bytes)) => StageModel::Ended(Ok(bytes)),
            TransferStage::Ended(Err(error)) => StageModel::Ended(Err(error@)),
        }
    }
}

impl View for TransferEvent {
    type V = EventModel;

    open spec fn view(&self) -> EventModel {
        match *self {
            TransferEvent::Looked(error, closed, wait) => EventModel::Looked(
                error_view(error),
                closed,
                match wait {
                    Some(wait) => Some(nanos_of(wait)),
                    None => None,
                },
            ),
            TransferEvent::Started => EventModel::Started,
            TransferEvent::NotStarted(code, error) => EventModel::NotStarted(
                code,
                error_view(error),
            ),
            TransferEvent::Waited(status, code) => EventModel::Waited(status, code),
            TransferEvent::Panicked => EventModel::Panicked,
            TransferEvent::CancelRequested(failure) => EventModel::CancelRequested(failure),
            TransferEvent::Taken(result, error, closed) => EventModel::Taken(
                result,
                error_view(error),
                closed,
            ),
            TransferEvent::Published(failure) => EventModel::Published(error_view(failure)),
        }
    }
}

impl StageModel {
    /// Whether an event answers what the stage asks for.
    pub open spec fn expects(self, event: EventModel) -> bool {
        match self {
            StageModel::Ready => event is Looked,
            StageModel::Starting(_) => event is Started || event is NotStarted,
            StageModel::Completed => event is Taken,
            StageModel::Pending => event is Looked || event is Panicked,
            StageModel::Waiting(_) => event is Waited,
            StageModel::Finishing => event is Taken || event is Panicked,
            StageModel::Cancelling(_) => event is CancelRequested,
            StageModel::Settling(_, _) => event is Taken,
            StageModel::Unwinding => event is CancelRequested,
            StageModel::Draining => event is Taken,
            StageModel::Unwound => false,
            StageModel::Publishing(_) => event is Published,
            StageModel::Ended(_) => false,
        }
    }

    /// Whether the system holds the caller's buffer: the call was started, and its result was not
    /// taken yet.
    pub open spec fn in_flight(self) -> bool {
        self is Completed || self is Pending || self is Waiting || self is Finishing
            || self is Cancelling || self is Settling || self is Unwinding || self is Draining
    }
}

/// The stage of a completion: its bytes are settled, unless there are none.
pub open spec fn progressed(transferred: u32) -> StageModel {
    if transferred == 0 {
        StageModel::Ended(
            Err(
                plain_error(
                    SerialErrorKind::ZeroProgress,
                    "Windows serial I/O completed without byte progress"@,
                ),
            ),
        )
    } else {
        StageModel::Publishing(transferred as usize)
    }
}

/// What a stage becomes, for a transfer of `length` bytes.
pub open spec fn next_stage(
    direction: TransferDirection,
    length: usize,
    stage: StageModel,
    event: EventModel,
) -> StageModel {
    match (stage, event) {
        (StageModel::Ready, EventModel::Looked(interruption, closed, _)) => if length == 0 {
            StageModel::Ended(
                Err(
                    plain_error(
                        SerialErrorKind::InvalidPort,
                        "serial byte I/O buffer must be non-empty"@,
                    ),
                ),
            )
        } else if interruption is Some {
            StageModel::Ended(Err(interruption->0))
        } else if closed {
            StageModel::Ended(
                Err(plain_error(SerialErrorKind::Disconnected, "serial port is closed"@)),
            )
        } else if length <= u32::MAX {
            StageModel::Starting(length as u32)
        } else {
            StageModel::Starting(u32::MAX)
        },
        (StageModel::Starting(_), EventModel::Started) => StageModel::Completed,
        (StageModel::Starting(_), EventModel::NotStarted(code, interruption)) => if code
            == ERROR_IO_PENDING {
            StageModel::Pending
        } else {
            StageModel::Ended(
                Err(causal_error(code_error(call_name(direction)@, code), interruption)),
            )
        },
        (StageModel::Completed, EventModel::Taken(result, _, _)) => match result {
            Ok(transferred) => progressed(transferred),
            Err(code) => StageModel::Ended(Err(code_error(call_name(direction)@, code))),
        },
        (StageModel::Pending, EventModel::Looked(interruption, closed, wait)) => if interruption
            is Some {
            StageModel::Cancelling(interruption->0)
        } else if closed {
            StageModel::Cancelling(closed_error())
        } else {
            StageModel::Waiting(
                match wait {
                    Some(wait) => wait_ms_of(wait),
                    None => INFINITE,
                },
            )
        },
        (StageModel::Waiting(_), EventModel::Waited(status, code)) => if status == WAIT_OBJECT_0 {
            StageModel::Finishing
        } else if status == WAIT_OBJECT_0 + 1 || status == WAIT_TIMEOUT {
            StageModel::Pending
        } else if status == WAIT_OBJECT_0 + 2 {
            StageModel::Cancelling(closed_error())
        } else if status == WAIT_FAILED {
            StageModel::Cancelling(code_error("WaitForMultipleObjects(serial I/O)"@, code))
        } else {
            StageModel::Cancelling(
                plain_error(
                    SerialErrorKind::Io,
                    "WaitForMultipleObjects returned an unexpected status"@,
                ),
            )
        },
        (StageModel::Finishing, EventModel::Taken(result, interruption, closed)) => match result {
            Ok(transferred) => progressed(transferred),
            Err(code) => StageModel::Ended(
                Err(
                    causal_error(
                        code_error(call_name(direction)@, code),
                        if interruption is Some {
                            interruption
                        } else if closed {
                            Some(closed_error())
                        } else {
                            None
                        },
                    ),
                ),
            ),
        },
        (StageModel::Pending, EventModel::Panicked) | (
            StageModel::Finishing,
            EventModel::Panicked,
        ) => StageModel::Unwinding,
        (StageModel::Unwinding, EventModel::CancelRequested(_)) => StageModel::Draining,
        (StageModel::Draining, EventModel::Taken(_, _, _)) => StageModel::Unwound,
        (StageModel::Cancelling(error), EventModel::CancelRequested(failure)) =>
            StageModel::Settling(
            match failure {
                Some(code) => if code == ERROR_NOT_FOUND {
                    None
                } else {
                    Some(code_error("CancelIoEx(serial I/O)"@, code))
                },
                None => None,
            },
            error,
        ),
        (StageModel::Settling(failure, error), EventModel::Taken(result, _, _)) => match result {
            Ok(transferred) => progressed(transferred),
            Err(code) => StageModel::Ended(
                Err(
                    if code == ERROR_OPERATION_ABORTED {
                        error
                    } else if failure is Some {
                        failure->0
                    } else {
                        code_error(call_name(direction)@, code)
                    },
                ),
            ),
        },
        (StageModel::Publishing(bytes), EventModel::Published(failure)) => match failure {
            Some(error) => StageModel::Ended(Err(error)),
            None => StageModel::Ended(Ok(bytes)),
        },
        _ => stage,
    }
}

/// One transfer of a buffer.
pub struct Transfer {
    direction: TransferDirection,
    length: usize,
}

impl Transfer {
    pub closed spec fn direction(&self) -> TransferDirection {
        self.direction
    }

    pub closed spec fn length(&self) -> usize {
        self.length
    }

    /// Creates the transfer of a buffer, and its first stage.
    pub fn new(direction: TransferDirection, length: usize) -> (begun: (Self, TransferStage))
        ensures
            begun.0.direction() == direction,
            begun.0.length() == length,
            begun.1@ == StageModel::Ready,
    {
        (Transfer { direction, length }, TransferStage::Ready)
    }

    fn settle(&self, completion: Result<u32, SerialError>) -> (stage: TransferStage)
        ensures
            stage@ == match completion {
                Ok(transferred) => progressed(transferred),
                Err(error) => StageModel::Ended(Err(error@)),
            },
    {
        match completion {
            Ok(transferred) => match normalize_progress(transferred) {
                Ok(bytes) => TransferStage::Publishing(bytes),
                Err(error) => TransferStage::Ended(Err(error)),
            },
            Err(error) => TransferStage::Ended(Err(error)),
        }
    }

    fn result_of(&self, result: Result<u32, u32>) -> (completion: Result<u32, SerialError>)
        ensures
            completion is Ok <==> result is Ok,
            result matches Ok(transferred) ==> completion == Ok::<u32, SerialError>(transferred),
            result matches Err(code) ==> (completion matches Err(error) && error@ == code_error(
                call_name(self.direction())@,
                code,
            )),
    {
        match result {
            Ok(transferred) => Ok(transferred),
            Err(code) => Err(from_code(self.direction.operation_name(), code)),
        }
    }

    /// Takes the event that a stage asked for, and returns what the transfer needs next.
    pub fn advance(&self, stage: TransferStage, event: TransferEvent) -> (next: TransferStage)
        requires
            stage@.expects(event@),
        ensures
            next@ == next_stage(self.direction(), self.length(), stage@, event@),
    {
        match (stage, event) {
            (TransferStage::Ready, TransferEvent::Looked(interruption, closed, _)) => {
                match begin_transfer(self.length, interruption, closed) {
                    Ok(requested) => TransferStage::Starting(requested),
                    Err(error) => TransferStage::Ended(Err(error)),
                }
            },
            (TransferStage::Starting(_), TransferEvent::Started) => TransferStage::Completed,
            (TransferStage::Starting(_), TransferEvent::NotStarted(code, interruption)) => {
                match start_failure(self.direction, code, interruption) {
                    Some(error) => TransferStage::Ended(Err(error)),
                    None => TransferStage::Pending,
                }
            },
            (TransferStage::Completed, TransferEvent::Taken(result, _, _)) => {
                let completion = self.result_of(result);
                self.settle(completion)
            },
            (TransferStage::Pending, TransferEvent::Looked(interruption, closed, wait)) => {
                match before_wait(interruption, closed, wait) {
                    PendingStep::Wait(millis) => TransferStage::Waiting(millis),
                    PendingStep::Cancel(error) => TransferStage::Cancelling(error),
                    PendingStep::Complete => TransferStage::Finishing,
                    PendingStep::Again => TransferStage::Pending,
                }
            },
            (TransferStage::Waiting(_), TransferEvent::Waited(status, code)) => {
                match after_wait(status, code) {
                    PendingStep::Wait(millis) => TransferStage::Waiting(millis),
                    PendingStep::Cancel(error) => TransferStage::Cancelling(error),
                    PendingStep::Complete => TransferStage::Finishing,
                    PendingStep::Again => TransferStage::Pending,
                }
            },
            (TransferStage::Finishing, TransferEvent::Taken(result, interruption, closed)) => {
                let completion = completed_transfer(self.result_of(result), interruption, closed);
                self.settle(completion)
            },
            (TransferStage::Cancelling(error), TransferEvent::CancelRequested(failure)) => {
                let failure = match failure {
                    Some(code) => cancel_request_error(code),
                    None => None,
                };
                TransferStage::Settling(failure, error)
            },
            (TransferStage::Settling(failure, error), TransferEvent::Taken(result, _, _)) => {
                let completion = settle_cancelled_completion(
                    failure,
                    self.result_of(result),
                    error,
                );
                self.settle(completion)
            },
            (TransferStage::Publishing(bytes), TransferEvent::Published(failure)) => {
                match failure {
                    Some(error) => TransferStage::Ended(Err(error)),
                    None => TransferStage::Ended(Ok(bytes)),
                }
            },
            (TransferStage::Unwinding, _) => TransferStage::Draining,
            (TransferStage::Draining, _) => TransferStage::Unwound,
            _ => TransferStage::Unwinding,
        }
    }
}

/// While the system holds the buffer, only taking the result of the call releases it: no event
/// ends the transfer before.
pub proof fn law_buffer_is_held_until_the_result_is_taken(
    direction: TransferDirection,
    length: usize,
    stage: StageModel,
    event: EventModel,
)
    requires
        stage.expects(event),
        stage.in_flight(),
        event !is Taken,
    ensures
        next_stage(direction, length, stage, event).in_flight(),
{
}

/// A panic of a look is resumed once the system has let go of the buffer, and not before; whatever
/// the call came to, nothing is settled.
pub proof fn law_panic_is_resumed_after_the_buffer_is_free(
    direction: TransferDirection,
    length: usize,
    stage: StageModel,
    failure: Option<u32>,
    result: Result<u32, u32>,
    interruption: Option<SerialErrorModel>,
    closed: bool,
)
    requires
        stage.expects(EventModel::Panicked),
    ensures
        ({
            let unwinding = next_stage(direction, length, stage, EventModel::Panicked);
            let draining = next_stage(
                direction,
                length,
                unwinding,
                EventModel::CancelRequested(failure),
            );
            let unwound = next_stage(
                direction,
                length,
                draining,
                EventModel::Taken(result, interruption, closed),
            );
            &&& unwinding.in_flight() && draining.in_flight()
            &&& unwound == StageModel::Unwound
            &&& forall|event: EventModel| !unwound.expects(event)
        }),
{
}

/// Bytes that the system accepted are never lost: whatever interrupted the call, its result goes on
/// to be settled and returned as it is, but for one behind a look that panicked.
pub proof fn law_accepted_bytes_are_reported(
    direction: TransferDirection,
    length: usize,
    stage: StageModel,
    transferred: u32,
    interruption: Option<SerialErrorModel>,
    closed: bool,
)
    requires
        transferred != 0,
        stage.expects(EventModel::Taken(Ok(transferred), interruption, closed)),
        stage != StageModel::Draining,
    ensures
        next_stage(
            direction,
            length,
            stage,
            EventModel::Taken(Ok(transferred), interruption, closed),
        ) == StageModel::Publishing(transferred as usize),
        next_stage(
            direction,
            length,
            StageModel::Publishing(transferred as usize),
            EventModel::Published(None),
        ) == StageModel::Ended(Ok(transferred as usize)),
{
}

/// An interrupted or closed request never reaches the system, and a pending one is cancelled
/// whatever its clock says.
pub proof fn law_interruption_stops_a_transfer(
    direction: TransferDirection,
    length: usize,
    interruption: SerialErrorModel,
    closed: bool,
    wait: Option<u128>,
)
    requires
        length != 0,
    ensures
        next_stage(
            direction,
            length,
            StageModel::Ready,
            EventModel::Looked(Some(interruption), closed, wait),
        ) == StageModel::Ended(Err(interruption)),
        next_stage(
            direction,
            length,
            StageModel::Pending,
            EventModel::Looked(Some(interruption), closed, wait),
        ) == StageModel::Cancelling(interruption),
        next_stage(direction, length, StageModel::Ready, EventModel::Looked(None, true, wait))
            is Ended,
        next_stage(direction, length, StageModel::Pending, EventModel::Looked(None, true, wait))
            is Cancelling,
{
}

} // verus!
