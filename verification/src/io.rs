//! I/O errors.
//!
//! [`std::io::Error`] stays opaque and is described by its kind and by the message that it
//! was made with.

use std::io::{Error, ErrorKind};
use vstd::prelude::*;

verus! {

/// [`std::io::Error`], opaque.
#[verifier::external_type_specification]
#[verifier::external_body]
pub struct ExIoError(std::io::Error);

/// The kinds of I/O errors that are told apart here.
#[derive(Clone, Copy, Debug, PartialEq, Eq, Structural)]
pub enum IoErrorKind {
    /// [`ErrorKind::NotFound`].
    NotFound,
    /// [`ErrorKind::InvalidInput`].
    InvalidInput,
    /// [`ErrorKind::UnexpectedEof`].
    UnexpectedEof,
    /// [`ErrorKind::StorageFull`].
    StorageFull,
    /// Any other kind.
    Other,
}

/// The kind of an I/O error.
pub uninterp spec fn io_error_kind(err: Error) -> IoErrorKind;

/// The message that an I/O error was made with, or `None` if it was not made from a text.
pub uninterp spec fn io_error_message(err: Error) -> Option<Seq<char>>;

/// Whether a text can be what an I/O error is written as.
pub open spec fn is_detail_of(err: Error, detail: Seq<char>) -> bool {
    io_error_message(err) matches Some(msg) ==> detail == msg
}

/// Tells the kind of an error with `std::io::Error::kind`.
#[verifier::external_body]
pub(crate) fn error_kind(err: &Error) -> (r: IoErrorKind)
    ensures
        r == io_error_kind(*err),
{
    match err.kind() {
        ErrorKind::NotFound => IoErrorKind::NotFound,
        ErrorKind::InvalidInput => IoErrorKind::InvalidInput,
        ErrorKind::UnexpectedEof => IoErrorKind::UnexpectedEof,
        ErrorKind::StorageFull => IoErrorKind::StorageFull,
        _ => IoErrorKind::Other,
    }
}

/// Writes an error out with the `to_string` that `std::io::Error` has from its
/// `Display`. An error that was made from a message is written as that message. How any
/// other is written is up to the operating system.
#[verifier::external_body]
pub(crate) fn error_text(err: &Error) -> (r: String)
    ensures
        is_detail_of(*err, r@),
{
    err.to_string()
}

/// Makes an error with `std::io::Error::new`, which keeps the kind and the message.
#[verifier::external_body]
pub(crate) fn new_error(kind: IoErrorKind, msg: String) -> (r: Error)
    ensures
        io_error_kind(r) == kind,
        io_error_message(r) == Some(msg@),
{
    let kind = match kind {
        IoErrorKind::NotFound => ErrorKind::NotFound,
        IoErrorKind::InvalidInput => ErrorKind::InvalidInput,
        IoErrorKind::UnexpectedEof => ErrorKind::UnexpectedEof,
        IoErrorKind::StorageFull => ErrorKind::StorageFull,
        IoErrorKind::Other => ErrorKind::Other,
    };
    Error::new(kind, msg)
}

} // verus!
