//! Error kinds of the storage core and the policy decisions that depend on them.

use crate::decimal::{int_text, u64_to_string};
use crate::text::{join, str_equal};
use vstd::prelude::*;
use vstd::string::*;

verus! {

/// What can go wrong while serving a request.
#[derive(Debug, PartialEq)]
pub enum Error {
    /// An I/O deadline was exceeded.
    Timeout,
    /// The placement map knows no virtual disk with this id.
    VDiskNoFound(u32),
    /// The underlying append log failed.
    StorageError(String),
    /// The key is already present in the time partition written to.
    DuplicateKey,
    /// No time partition holds the key.
    KeyNotFound,
    /// The time partition is not initialized yet.
    VDiskIsNotReady,
    /// A general transient failure.
    Failed(String),
    /// A logic violation, or a backend failure hidden from the caller.
    Internal,
}

/// The kind of an error, without the text that some kinds carry.
#[derive(Debug, Clone, Copy, PartialEq, Eq, Structural)]
pub enum ErrorKind {
    Timeout,
    VDiskNoFound,
    StorageError,
    DuplicateKey,
    KeyNotFound,
    VDiskIsNotReady,
    Failed,
    Internal,
}

impl ErrorKind {
    /// A failed write restarts the time partition unless the key was a
    /// duplicate or the partition was not ready.
    pub open spec fn write_needs_restart(self) -> bool {
        self != ErrorKind::DuplicateKey && self != ErrorKind::VDiskIsNotReady
    }

    /// A failed local write falls back to the alien area unless the key was a duplicate.
    pub open spec fn write_needs_alien(self) -> bool {
        self != ErrorKind::DuplicateKey
    }

    /// A failed read restarts the time partition unless the key was missing
    /// or the partition was not ready.
    pub open spec fn read_needs_restart(self) -> bool {
        self != ErrorKind::KeyNotFound && self != ErrorKind::VDiskIsNotReady
    }

    /// What the caller sees of a backend error: a duplicate key and a missing
    /// key are kept, anything else is `Internal`.
    pub open spec fn convert_backend(self) -> ErrorKind {
        match self {
            ErrorKind::DuplicateKey => ErrorKind::DuplicateKey,
            ErrorKind::KeyNotFound => ErrorKind::KeyNotFound,
            _ => ErrorKind::Internal,
        }
    }
}

impl Error {
    /// The kind of this error.
    pub open spec fn spec_kind(&self) -> ErrorKind {
        match self {
            Error::Timeout => ErrorKind::Timeout,
            Error::VDiskNoFound(_) => ErrorKind::VDiskNoFound,
            Error::StorageError(_) => ErrorKind::StorageError,
            Error::DuplicateKey => ErrorKind::DuplicateKey,
            Error::KeyNotFound => ErrorKind::KeyNotFound,
            Error::VDiskIsNotReady => ErrorKind::VDiskIsNotReady,
            Error::Failed(_) => ErrorKind::Failed,
            Error::Internal => ErrorKind::Internal,
        }
    }

    /// The kind of this error.
    #[verifier::when_used_as_spec(spec_kind)]
    pub fn kind(&self) -> (r: ErrorKind)
        ensures
            r == self.spec_kind(),
    {
        match self {
            Error::Timeout => ErrorKind::Timeout,
            Error::VDiskNoFound(_) => ErrorKind::VDiskNoFound,
            Error::StorageError(_) => ErrorKind::StorageError,
            Error::DuplicateKey => ErrorKind::DuplicateKey,
            Error::KeyNotFound => ErrorKind::KeyNotFound,
            Error::VDiskIsNotReady => ErrorKind::VDiskIsNotReady,
            Error::Failed(_) => ErrorKind::Failed,
            Error::Internal => ErrorKind::Internal,
        }
    }

    /// True for the errors after which the connection to a peer is dropped:
    /// a timeout and a general failure.
    pub fn is_service(&self) -> (r: bool)
        ensures
            r == (self is Timeout || self is Failed),
    {
        match self {
            Error::Timeout | Error::Failed(_) => true,
            _ => false,
        }
    }

    /// A failed write restarts the time partition unless the key was a
    /// duplicate or the partition was not ready.
    pub open spec fn write_needs_restart(&self) -> bool {
        self.spec_kind().write_needs_restart()
    }

    /// A failed local write falls back to the alien area unless the key was a duplicate.
    pub open spec fn write_needs_alien(&self) -> bool {
        self.spec_kind().write_needs_alien()
    }

    /// A failed read restarts the time partition unless the key was missing
    /// or the partition was not ready.
    pub open spec fn read_needs_restart(&self) -> bool {
        self.spec_kind().read_needs_restart()
    }

    /// What the caller sees of a backend error: a duplicate key and a missing key
    /// are kept, anything else is `Internal`.
    pub open spec fn spec_convert_backend(self) -> Error {
        match self {
            Error::DuplicateKey => Error::DuplicateKey,
            Error::KeyNotFound => Error::KeyNotFound,
            _ => Error::Internal,
        }
    }

    /// Decides whether the outcome of a write asks for a restart of the time partition.
    pub fn is_put_error_need_restart(err: Option<&Error>) -> (r: bool)
        ensures
            r == match err {
                Some(e) => e.write_needs_restart(),
                None => false,
            },
    {
        match err {
            Some(Error::DuplicateKey) | Some(Error::VDiskIsNotReady) => false,
            Some(_) => true,
            _ => false,
        }
    }

    /// Decides whether a failed local write is repeated in the alien area.
    pub fn is_put_error_need_alien(&self) -> (r: bool)
        ensures
            r == self.write_needs_alien(),
    {
        match self {
            Error::DuplicateKey => false,
            _ => true,
        }
    }

    /// Decides whether the outcome of a read asks for a restart of the time partition.
    pub fn is_get_error_need_restart(err: Option<&Error>) -> (r: bool)
        ensures
            r == match err {
                Some(e) => e.read_needs_restart(),
                None => false,
            },
    {
        match err {
            Some(Error::KeyNotFound) | Some(Error::VDiskIsNotReady) => false,
            Some(_) => true,
            _ => false,
        }
    }

    /// Hides backend errors from the caller.
    pub fn convert_backend(self) -> (r: Error)
        ensures
            r == self.spec_convert_backend(),
    {
        match self {
            Error::DuplicateKey => Error::DuplicateKey,
            Error::KeyNotFound => Error::KeyNotFound,
            _ => Error::Internal,
        }
    }

    /// The text of this error, as a message for an operator.
    pub open spec fn spec_description(&self) -> Seq<char> {
        match self {
            Error::Timeout => "Timeout"@,
            Error::VDiskNoFound(id) => "vdisk: "@ + int_text(*id as int) + " not found"@,
            Error::StorageError(text) => "backend error: "@ + text@,
            Error::DuplicateKey => "DuplicateKey"@,
            Error::KeyNotFound => "KeyNotFound"@,
            Error::VDiskIsNotReady => "VDiskIsNotReady"@,
            Error::Failed(text) => "Failed: "@ + text@,
            Error::Internal => "Internal"@,
        }
    }

    /// The text of this error, as a message for an operator.
    pub fn description(&self) -> (r: String)
        ensures
            r@ == self.spec_description(),
    {
        match self {
            Error::Timeout => String::from_str("Timeout"),
            Error::VDiskNoFound(id) => {
                let number = u64_to_string(*id as u64);
                String::from_str("vdisk: ").concat(number.as_str()).concat(" not found")
            },
            Error::StorageError(text) => join("backend error: ", text.as_str()),
            Error::DuplicateKey => String::from_str("DuplicateKey"),
            Error::KeyNotFound => String::from_str("KeyNotFound"),
            Error::VDiskIsNotReady => String::from_str("VDiskIsNotReady"),
            Error::Failed(text) => join("Failed: ", text.as_str()),
            Error::Internal => String::from_str("Internal"),
        }
    }

    /// The error for a failed exchange with a peer: a timeout when the deadline
    /// passed, else a general failure that carries the description.
    pub fn from_ping_failure(timed_out: bool, description: &str) -> (r: Error)
        ensures
            timed_out ==> r == Error::Timeout,
            !timed_out ==> (r matches Error::Failed(text) && text@ == "Ping operation failed: "@
                + description@),
    {
        if timed_out {
            Error::Timeout
        } else {
            Error::Failed(join("Ping operation failed: ", description))
        }
    }

    /// The message under which this error travels to a peer: a missing key
    /// and a duplicate key under their names, any other error under one
    /// message for all.
    pub open spec fn spec_status_message(&self) -> Seq<char> {
        match self {
            Error::KeyNotFound => "KeyNotFound"@,
            Error::DuplicateKey => "DuplicateKey"@,
            _ => "Other errors"@,
        }
    }

    /// The message under which this error travels to a peer.
    pub fn status_message(&self) -> (r: &'static str)
        ensures
            r@ == self.spec_status_message(),
    {
        match self {
            Error::KeyNotFound => "KeyNotFound",
            Error::DuplicateKey => "DuplicateKey",
            _ => "Other errors",
        }
    }

    /// The error that a peer's status stands for. `code_unknown` says that the
    /// status carries the code under which this library sends its own errors;
    /// `description` is the full text of the status.
    pub fn from_status(code_unknown: bool, message: &str, description: &str) -> (r: Error)
        ensures
            code_unknown && message@ == "KeyNotFound"@ ==> r == Error::KeyNotFound,
            code_unknown && message@ == "DuplicateKey"@ ==> r == Error::DuplicateKey,
            code_unknown && message@ != "KeyNotFound"@ && message@ != "DuplicateKey"@ ==> r
                == Error::Internal,
            !code_unknown ==> (r matches Error::Failed(text) && text@ == "grpc error: "@
                + description@),
    {
        proof {
            reveal_strlit("KeyNotFound");
            reveal_strlit("DuplicateKey");
            assert("KeyNotFound"@.len() != "DuplicateKey"@.len());
        }
        if code_unknown {
            if str_equal(message, "KeyNotFound") {
                Error::KeyNotFound
            } else if str_equal(message, "DuplicateKey") {
                Error::DuplicateKey
            } else {
                Error::Internal
            }
        } else {
            Error::Failed(join("grpc error: ", description))
        }
    }
}

/// The kind of error that a result carries, if it carries one.
pub open spec fn failure_kind<T>(r: Result<T, Error>) -> Option<ErrorKind> {
    match r {
        Ok(_) => None,
        Err(e) => Some(e.spec_kind()),
    }
}

} // verus!
