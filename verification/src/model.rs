//! Identifiers and errors shared by every part of the supervision core.

use vstd::prelude::*;

verus! {

/// Process-unique identity of one Runtime.
#[derive(Clone, Copy, Debug, Eq, PartialOrd, Ord, Hash)]
pub struct RuntimeId(pub u64);

/// Runtime-local identity of one operation.
#[derive(Clone, Copy, Debug, Eq, PartialOrd, Ord, Hash)]
pub struct OperationId(pub u64);

/// Runtime-local identity of one managed resource.
#[derive(Clone, Copy, Debug, Eq, PartialOrd, Ord, Hash)]
pub struct ResourceId(pub u64);

/// Runtime-local identity of one supervised task.
#[derive(Clone, Copy, Debug, Eq, PartialOrd, Ord, Hash)]
pub struct TaskId(pub u64);

impl PartialEq for RuntimeId {
    fn eq(&self, other: &Self) -> (equal: bool) {
        self.0 == other.0
    }
}

impl vstd::std_specs::cmp::PartialEqSpecImpl for RuntimeId {
    open spec fn obeys_eq_spec() -> bool {
        true
    }

    open spec fn eq_spec(&self, other: &Self) -> bool {
        self.0 == other.0
    }
}

impl PartialEq for OperationId {
    fn eq(&self, other: &Self) -> (equal: bool) {
        self.0 == other.0
    }
}

impl vstd::std_specs::cmp::PartialEqSpecImpl for OperationId {
    open spec fn obeys_eq_spec() -> bool {
        true
    }

    open spec fn eq_spec(&self, other: &Self) -> bool {
        self.0 == other.0
    }
}

impl PartialEq for ResourceId {
    fn eq(&self, other: &Self) -> (equal: bool) {
        self.0 == other.0
    }
}

impl vstd::std_specs::cmp::PartialEqSpecImpl for ResourceId {
    open spec fn obeys_eq_spec() -> bool {
        true
    }

    open spec fn eq_spec(&self, other: &Self) -> bool {
        self.0 == other.0
    }
}

impl PartialEq for TaskId {
    fn eq(&self, other: &Self) -> (equal: bool) {
        self.0 == other.0
    }
}

impl vstd::std_specs::cmp::PartialEqSpecImpl for TaskId {
    open spec fn obeys_eq_spec() -> bool {
        true
    }

    open spec fn eq_spec(&self, other: &Self) -> bool {
        self.0 == other.0
    }
}

/// Area of the system that reports an error.
#[derive(Clone, Copy, Debug, PartialEq, Eq, Structural)]
pub enum ErrorDomain {
    /// A caller-supplied value was rejected.
    Validation,
    /// The Runtime or one of its operations reported the error.
    Runtime,
    /// An invariant or a foreign callback failed.
    Internal,
}

/// Stable machine-readable error category.
#[derive(Clone, Copy, Debug, PartialEq, Eq, Structural)]
pub enum ErrorCode {
    /// The call's arguments are not acceptable.
    InvalidArgument,
    /// The Runtime no longer admits new work.
    RuntimeClosing,
    /// The work was cancelled before it took effect.
    Cancelled,
    /// The work's execution deadline elapsed.
    DeadlineExceeded,
    /// A failure that callers cannot act on.
    Internal,
}

/// What an error says, as plain values.
#[verifier::ext_equal]
pub struct ErrorModel {
    pub domain: ErrorDomain,
    pub code: ErrorCode,
    pub message: Seq<char>,
}

/// Typed error with a human-readable message.
#[derive(Debug)]
pub struct EasyConError {
    domain: ErrorDomain,
    code: ErrorCode,
    message: String,
}

impl View for EasyConError {
    type V = ErrorModel;

    closed spec fn view(&self) -> ErrorModel {
        ErrorModel { domain: self.domain, code: self.code, message: self.message@ }
    }
}

impl Clone for EasyConError {
    fn clone(&self) -> (copy: Self)
        ensures
            copy == *self,
    {
        EasyConError { domain: self.domain, code: self.code, message: self.message.clone() }
    }
}

impl EasyConError {
    /// Builds an error from its category and message.
    pub fn new(domain: ErrorDomain, code: ErrorCode, message: &str) -> (error: Self)
        ensures
            error@ == (ErrorModel { domain, code, message: message@ }),
    {
        EasyConError { domain, code, message: message.to_owned() }
    }

    /// Returns the reporting area.
    pub fn domain(&self) -> (domain: ErrorDomain)
        ensures
            domain == self@.domain,
    {
        self.domain
    }

    /// Returns the machine-readable category.
    pub fn code(&self) -> (code: ErrorCode)
        ensures
            code == self@.code,
    {
        self.code
    }

    /// Returns the human-readable message.
    pub fn message(&self) -> (message: &str)
        ensures
            message@ == self@.message,
    {
        self.message.as_str()
    }

    /// Returns whether two errors say the same thing.
    pub fn same_as(&self, other: &Self) -> (same: bool)
        ensures
            same == (self@ == other@),
    {
        let same = self.domain == other.domain && self.code == other.code && self.message
            == other.message;
        proof {
            if self@.message =~= other@.message && self@.domain == other@.domain && self@.code
                == other@.code {
                assert(self@ =~= other@);
            }
        }
        same
    }
}

} // verus!
