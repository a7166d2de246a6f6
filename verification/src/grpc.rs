//! Errors as they travel between nodes: as statuses of the remote call layer.

use crate::error::Error;
use vstd::prelude::*;
use vstd::string::*;

verus! {

/// A status of the remote call layer. The library carries it and reads it
/// only through the functions below.
#[verifier::external_type_specification]
#[verifier::external_body]
pub struct ExStatus(tonic::Status);

/// The number of the code under which the errors of this library travel:
/// that of an unknown error.
pub const CODE_UNKNOWN: i32 = 2;

/// The status that `tonic::Status::new` makes of the code with the given
/// number and of the given message. It has no details, no metadata and no
/// source, so the number and the message decide it.
pub uninterp spec fn status_made(code: i32, message: Seq<char>) -> tonic::Status;

/// Makes a status: calls `tonic::Status::new` with the code that
/// `tonic::Code::from` makes of the number, and with the message. The claim
/// is that the status made depends on the number and the message alone;
/// nothing is claimed of what it holds.
#[verifier::external_body]
fn new_status(code: i32, message: &str) -> (r: tonic::Status)
    ensures
        r == status_made(code, message@),
{
    tonic::Status::new(tonic::Code::from(code), message)
}

/// The number of the code of a status: calls `tonic::Status::code` and turns
/// the code into its number. Nothing is claimed of the number.
#[verifier::external_body]
fn code_of(status: &tonic::Status) -> i32 {
    i32::from(status.code())
}

/// The message of a status: calls `tonic::Status::message`. Nothing is
/// claimed of the text.
#[verifier::external_body]
fn message_of(status: &tonic::Status) -> String {
    status.message().to_string()
}

/// The full text of a status, as `tonic::Status` displays itself. Nothing is
/// claimed of the text.
#[verifier::external_body]
fn text_of(status: &tonic::Status) -> String {
    status.to_string()
}

/// The status under which an error travels to a peer: the one made of the
/// code of an unknown error and of the message of the error.
pub fn status_of_error(error: &Error) -> (r: tonic::Status)
    ensures
        r == status_made(CODE_UNKNOWN, error.spec_status_message()),
{
    new_status(CODE_UNKNOWN, error.status_message())
}

/// The error that a peer's status stands for. What it is for a given code,
/// message and text is said by `Error::from_status`; whatever the status
/// holds, it is one of these four kinds.
pub fn error_of_status(status: &tonic::Status) -> (r: Error)
    ensures
        r is KeyNotFound || r is DuplicateKey || r is Internal || r is Failed,
{
    let code = code_of(status);
    let message = message_of(status);
    let text = text_of(status);
    Error::from_status(code == CODE_UNKNOWN, message.as_str(), text.as_str())
}

} // verus!
