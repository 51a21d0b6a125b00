//! Serial failures.

use crate::serial::text::{decimal, push_decimal};
use vstd::prelude::*;

verus! {

/// Stable serial-system failure category.
#[derive(Clone, Copy, Debug, PartialEq, Eq, Structural)]
#[non_exhaustive]
pub enum SerialErrorKind {
    /// The caller is not allowed to open the port.
    AccessDenied,
    /// Another owner has the port open exclusively.
    PortBusy,
    /// The selected system port no longer exists.
    NotFound,
    /// An open device disappeared or stopped responding as a connected device.
    Disconnected,
    /// Operation or resource cancellation interrupted I/O.
    Cancelled,
    /// The absolute I/O deadline elapsed.
    DeadlineExceeded,
    /// The backend returned success without accepting or producing any byte.
    ZeroProgress,
    /// A descriptor or port path is invalid.
    InvalidPort,
    /// A system I/O operation failed.
    Io,
    /// Bytes violated the serial protocol boundary.
    Protocol,
    /// No production implementation exists for the current target.
    UnsupportedPlatform,
}

/// The name of a category.
pub open spec fn kind_name(kind: SerialErrorKind) -> &'static str {
    match kind {
        SerialErrorKind::AccessDenied => "AccessDenied",
        SerialErrorKind::PortBusy => "PortBusy",
        SerialErrorKind::NotFound => "NotFound",
        SerialErrorKind::Disconnected => "Disconnected",
        SerialErrorKind::Cancelled => "Cancelled",
        SerialErrorKind::DeadlineExceeded => "DeadlineExceeded",
        SerialErrorKind::ZeroProgress => "ZeroProgress",
        SerialErrorKind::InvalidPort => "InvalidPort",
        SerialErrorKind::Io => "Io",
        SerialErrorKind::Protocol => "Protocol",
        SerialErrorKind::UnsupportedPlatform => "UnsupportedPlatform",
    }
}

impl SerialErrorKind {
    /// Returns the category's name.
    pub fn name(self) -> (name: &'static str)
        ensures
            name == kind_name(self),
    {
        match self {
            SerialErrorKind::AccessDenied => "AccessDenied",
            SerialErrorKind::PortBusy => "PortBusy",
            SerialErrorKind::NotFound => "NotFound",
            SerialErrorKind::Disconnected => "Disconnected",
            SerialErrorKind::Cancelled => "Cancelled",
            SerialErrorKind::DeadlineExceeded => "DeadlineExceeded",
            SerialErrorKind::ZeroProgress => "ZeroProgress",
            SerialErrorKind::InvalidPort => "InvalidPort",
            SerialErrorKind::Io => "Io",
            SerialErrorKind::Protocol => "Protocol",
            SerialErrorKind::UnsupportedPlatform => "UnsupportedPlatform",
        }
    }
}

/// Owned serial error with an optional native Windows status code.
#[derive(Debug)]
pub struct SerialError {
    kind: SerialErrorKind,
    message: String,
    os_code: Option<u32>,
    backend_proved_zero_effect: bool,
}

/// A serial error, as plain values.
#[verifier::ext_equal]
pub struct SerialErrorModel {
    pub kind: SerialErrorKind,
    pub message: Seq<char>,
    pub os_code: Option<u32>,
    /// Whether the backend proved that the failed call accepted no bytes.
    pub zero_effect: bool,
}

impl View for SerialError {
    type V = SerialErrorModel;

    closed spec fn view(&self) -> SerialErrorModel {
        SerialErrorModel {
            kind: self.kind,
            message: self.message@,
            os_code: self.os_code,
            zero_effect: self.backend_proved_zero_effect,
        }
    }
}

/// The view of an optional error.
pub open spec fn error_view(error: Option<SerialError>) -> Option<SerialErrorModel> {
    match error {
        Some(error) => Some(error@),
        None => None,
    }
}

/// An error without a platform code.
pub open spec fn plain_error(kind: SerialErrorKind, message: Seq<char>) -> SerialErrorModel {
    SerialErrorModel { kind, message, os_code: None, zero_effect: false }
}

impl SerialErrorModel {
    /// The error as text: its category, its message, and its platform code where it has one.
    pub open spec fn text(self) -> Seq<char> {
        let head = kind_name(self.kind)@ + ": "@ + self.message;
        match self.os_code {
            Some(code) => head + " (os_code="@ + decimal(code as int) + ")"@,
            None => head,
        }
    }
}

impl Clone for SerialError {
    fn clone(&self) -> (copy: Self)
        ensures
            copy == *self,
    {
        SerialError {
            kind: self.kind,
            message: self.message.clone(),
            os_code: self.os_code,
            backend_proved_zero_effect: self.backend_proved_zero_effect,
        }
    }
}

impl SerialError {
    /// Creates an error without a platform code.
    pub fn new(kind: SerialErrorKind, message: &str) -> (error: Self)
        ensures
            error@ == plain_error(kind, message@),
    {
        SerialError {
            kind,
            message: message.to_owned(),
            os_code: None,
            backend_proved_zero_effect: false,
        }
    }

    /// Creates an error after the backend proved that this byte-I/O attempt accepted no bytes.
    pub fn zero_effect(kind: SerialErrorKind, message: &str) -> (error: Self)
        ensures
            error@ == (SerialErrorModel { zero_effect: true, ..plain_error(kind, message@) }),
    {
        SerialError {
            kind,
            message: message.to_owned(),
            os_code: None,
            backend_proved_zero_effect: true,
        }
    }

    /// Creates an error carrying the exact Windows status code.
    pub fn with_os_code(kind: SerialErrorKind, message: &str, os_code: u32) -> (error: Self)
        ensures
            error@ == (SerialErrorModel { os_code: Some(os_code), ..plain_error(kind, message@) }),
    {
        SerialError {
            kind,
            message: message.to_owned(),
            os_code: Some(os_code),
            backend_proved_zero_effect: false,
        }
    }

    /// Creates an error about an invalid descriptor or port.
    pub(crate) fn invalid_port(message: &'static str) -> (error: Self)
        ensures
            error@ == plain_error(SerialErrorKind::InvalidPort, message@),
    {
        Self::new(SerialErrorKind::InvalidPort, message)
    }

    /// Returns the stable category.
    pub fn kind(&self) -> (kind: SerialErrorKind)
        ensures
            kind == self@.kind,
    {
        self.kind
    }

    /// Returns diagnostic text.
    pub fn message(&self) -> (message: &str)
        ensures
            message@ == self@.message,
    {
        self.message.as_str()
    }

    /// Returns the native status when the system supplied one.
    pub fn os_code(&self) -> (os_code: Option<u32>)
        ensures
            os_code == self@.os_code,
    {
        self.os_code
    }

    /// Returns whether the concrete backend proved this failed call accepted no bytes.
    pub fn backend_proved_zero_effect(&self) -> (proved: bool)
        ensures
            proved == self@.zero_effect,
    {
        self.backend_proved_zero_effect
    }

    /// Returns the error as text.
    pub fn text(&self) -> (text: String)
        ensures
            text@ == self@.text(),
    {
        let mut text: String = self.kind.name().to_owned();
        text.append(": ");
        text.append(self.message.as_str());
        if let Some(code) = self.os_code {
            text.append(" (os_code=");
            push_decimal(&mut text, code);
            text.append(")");
        }
        text
    }
}

/// The text of an error begins with its category, tells its message, and ends with its platform code
/// in decimal where it has one.
pub proof fn law_error_text_tells_all(error: SerialErrorModel)
    ensures
        error.os_code is None ==> error.text() == kind_name(error.kind)@ + ": "@ + error.message,
        error.os_code matches Some(code) ==> error.text() == kind_name(error.kind)@ + ": "@
            + error.message + " (os_code="@ + decimal(code as int) + ")"@,
        kind_name(SerialErrorKind::AccessDenied) == "AccessDenied",
        kind_name(SerialErrorKind::PortBusy) == "PortBusy",
        kind_name(SerialErrorKind::NotFound) == "NotFound",
        kind_name(SerialErrorKind::Disconnected) == "Disconnected",
        kind_name(SerialErrorKind::Cancelled) == "Cancelled",
        kind_name(SerialErrorKind::DeadlineExceeded) == "DeadlineExceeded",
        kind_name(SerialErrorKind::ZeroProgress) == "ZeroProgress",
        kind_name(SerialErrorKind::InvalidPort) == "InvalidPort",
        kind_name(SerialErrorKind::Io) == "Io",
        kind_name(SerialErrorKind::Protocol) == "Protocol",
        kind_name(SerialErrorKind::UnsupportedPlatform) == "UnsupportedPlatform",
{
}

} // verus!
