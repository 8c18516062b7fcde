//! The errors of this crate's public functions.

use crate::headers::{status_code, status_number};
use crate::io::{error_kind, error_text, io_error_kind, is_detail_of, IoErrorKind};
use crate::resource::Resource;
use http::StatusCode;
use std::io::Error;
use vstd::prelude::*;

verus! {

/// An error returned by this crate's public functions.
pub enum SerdirError {
    /// The configuration of a served directory is invalid.
    ConfigError(String),
    /// The path is a directory when it was expected to be a file.
    IsDirectory(String),
    /// The requested file was not found. May hold what to serve in its place.
    NotFound(Option<Resource>),
    /// A file could not be compressed.
    CompressionError(String, Error),
    /// The input path is invalid, for instance because it has a `..` segment.
    InvalidPath(String),
    /// An unexpected I/O error occurred.
    IOError(Error),
}

impl SerdirError {
    /// Makes a configuration error.
    pub fn config_error(msg: String) -> (r: Self)
        ensures
            r == SerdirError::ConfigError(msg),
    {
        SerdirError::ConfigError(msg)
    }

    /// Makes the error for a path that is a directory.
    pub fn is_directory(path: String) -> (r: Self)
        ensures
            r == SerdirError::IsDirectory(path),
    {
        SerdirError::IsDirectory(path)
    }

    /// Makes the error for a path at which there is nothing.
    pub fn not_found(resource: Option<Resource>) -> (r: Self)
        ensures
            r == SerdirError::NotFound(resource),
    {
        SerdirError::NotFound(resource)
    }

    /// Makes the error for a failed compression.
    pub fn compression_error(msg: String, io_err: Error) -> (r: Self)
        ensures
            r == SerdirError::CompressionError(msg, io_err),
    {
        SerdirError::CompressionError(msg, io_err)
    }

    /// Makes the error for an invalid path.
    pub fn invalid_path(msg: String) -> (r: Self)
        ensures
            r == SerdirError::InvalidPath(msg),
    {
        SerdirError::InvalidPath(msg)
    }

    /// Makes the error for an unexpected I/O error.
    pub fn io_error(err: Error) -> (r: Self)
        ensures
            r == SerdirError::IOError(err),
    {
        SerdirError::IOError(err)
    }

    /// The number of the status code most appropriate for this error.
    pub open spec fn status(self) -> u16 {
        match self {
            SerdirError::NotFound(_) => 404,
            SerdirError::IsDirectory(_) => 404,
            SerdirError::InvalidPath(_) => 400,
            SerdirError::ConfigError(_) => 500,
            SerdirError::CompressionError(_, _) => 500,
            SerdirError::IOError(_) => 500,
        }
    }

    /// Returns the HTTP status code most appropriate for this error.
    pub fn status_code(&self) -> (r: StatusCode)
        ensures
            status_number(r) == self.status(),
    {
        match self {
            SerdirError::NotFound(_) | SerdirError::IsDirectory(_) => status_code(404),
            SerdirError::InvalidPath(_) => status_code(400),
            _ => status_code(500),
        }
    }

    /// The I/O error inside, if there is one.
    pub open spec fn inner(self) -> Option<Error> {
        match self {
            SerdirError::CompressionError(_, err) => Some(err),
            SerdirError::IOError(err) => Some(err),
            _ => None,
        }
    }

    /// The text of the error, where `detail` is that of the I/O error inside.
    pub open spec fn text(self, detail: Seq<char>) -> Seq<char> {
        match self {
            SerdirError::ConfigError(msg) => "Config error: "@ + msg@,
            SerdirError::IsDirectory(path) => "Path is a directory: "@ + path@,
            SerdirError::NotFound(_) => "File not found"@,
            SerdirError::InvalidPath(msg) => "Invalid path: "@ + msg@,
            SerdirError::IOError(_) => "IO error: "@ + detail,
            SerdirError::CompressionError(msg, _) => "Compression error: "@ + msg@
                + " (I/O error: "@ + detail + ")"@,
        }
    }

    /// Writes the error out, where `detail` is the text of the I/O error inside.
    pub fn message_with(&self, detail: &str) -> (r: String)
        ensures
            r@ == self.text(detail@),
    {
        let mut s: String = String::new();
        match self {
            SerdirError::ConfigError(msg) => {
                s.append("Config error: ");
                s.append(msg.as_str());
            },
            SerdirError::IsDirectory(path) => {
                s.append("Path is a directory: ");
                s.append(path.as_str());
            },
            SerdirError::NotFound(_) => {
                s.append("File not found");
            },
            SerdirError::InvalidPath(msg) => {
                s.append("Invalid path: ");
                s.append(msg.as_str());
            },
            SerdirError::IOError(_) => {
                s.append("IO error: ");
                s.append(detail);
            },
            SerdirError::CompressionError(msg, _) => {
                s.append("Compression error: ");
                s.append(msg.as_str());
                s.append(" (I/O error: ");
                s.append(detail);
                s.append(")");
            },
        }
        assert(s@ =~= self.text(detail@));
        s
    }

    /// Writes the error out. What an I/O error inside is written as is up to the operating
    /// system, unless the error was made with a message.
    pub fn message(&self) -> (r: String)
        ensures
            match self.inner() {
                None => r@ == self.text(Seq::empty()),
                Some(err) => exists|detail: Seq<char>| #[trigger]
                    is_detail_of(err, detail) && r@ == self.text(detail),
            },
    {
        let detail = match self {
            SerdirError::CompressionError(_, err) => error_text(err),
            SerdirError::IOError(err) => error_text(err),
            _ => String::new(),
        };
        let r = self.message_with(detail.as_str());
        proof {
            if let Some(err) = self.inner() {
                assert(is_detail_of(err, detail@));
            }
        }
        r
    }

    /// Whether this is what an I/O error is reported as: an error about a missing
    /// file becomes "not found", and any other stays an I/O error.
    pub open spec fn comes_from(self, err: Error) -> bool {
        if io_error_kind(err) == IoErrorKind::NotFound {
            self == SerdirError::NotFound(None)
        } else {
            self == SerdirError::IOError(err)
        }
    }
}

impl From<Error> for SerdirError {
    fn from(err: Error) -> (r: Self) {
        if error_kind(&err) == IoErrorKind::NotFound {
            SerdirError::not_found(None)
        } else {
            SerdirError::io_error(err)
        }
    }
}

impl vstd::std_specs::convert::FromSpecImpl<Error> for SerdirError {
    open spec fn obeys_from_spec() -> bool {
        true
    }

    open spec fn from_spec(err: Error) -> Self {
        if io_error_kind(err) == IoErrorKind::NotFound {
            SerdirError::NotFound(None)
        } else {
            SerdirError::IOError(err)
        }
    }
}

/// Whether a text ends in another one, with something before it.
pub open spec fn ends_in(s: Seq<char>, tail: Seq<char>) -> bool {
    s.len() > tail.len() && s.skip(s.len() - tail.len()) == tail
}

/// An error says what it is about: its text ends in the message, in the path, or in the text of the
/// I/O error inside.
pub proof fn an_error_says_what_it_is_about(e: SerdirError, detail: Seq<char>)
    ensures
        match e {
            SerdirError::ConfigError(msg) => ends_in(e.text(detail), msg@),
            SerdirError::IsDirectory(path) => ends_in(e.text(detail), path@),
            SerdirError::InvalidPath(msg) => ends_in(e.text(detail), msg@),
            SerdirError::IOError(_) => ends_in(e.text(detail), detail),
            SerdirError::CompressionError(msg, _) => ends_in(
                e.text(detail),
                msg@ + " (I/O error: "@ + detail + ")"@,
            ),
            SerdirError::NotFound(_) => e.text(detail) == e.text(Seq::empty()),
        },
{
    reveal_strlit("Config error: ");
    reveal_strlit("Path is a directory: ");
    reveal_strlit("Invalid path: ");
    reveal_strlit("IO error: ");
    reveal_strlit("Compression error: ");
    let s = e.text(detail);
    match e {
        SerdirError::ConfigError(msg) => {
            assert(s.skip(s.len() - msg@.len()) =~= msg@);
        },
        SerdirError::IsDirectory(path) => {
            assert(s.skip(s.len() - path@.len()) =~= path@);
        },
        SerdirError::InvalidPath(msg) => {
            assert(s.skip(s.len() - msg@.len()) =~= msg@);
        },
        SerdirError::IOError(_) => {
            assert(s.skip(s.len() - detail.len()) =~= detail);
        },
        SerdirError::CompressionError(msg, _) => {
            let tail = msg@ + " (I/O error: "@ + detail + ")"@;
            assert(s.skip(s.len() - tail.len()) =~= tail);
        },
        SerdirError::NotFound(_) => {},
    }
}

/// What an I/O error is reported as: a missing file as something that is not there, and anything
/// else as an internal error that holds the I/O error.
pub proof fn only_missing_files_are_not_found(e: SerdirError, err: Error)
    requires
        e.comes_from(err),
    ensures
        e.status() == 404 <==> io_error_kind(err) == IoErrorKind::NotFound,
        e.status() != 404 ==> e.status() == 500 && e.inner() == Some(err),
{
}

} // verus!
