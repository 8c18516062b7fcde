//! What differs between platforms, and reading files.

use crate::io::{io_error_kind, io_error_message, new_error, IoErrorKind};
use crate::text::{append_decimal, decimal_chars};
use std::io::Error;
use vstd::prelude::*;

verus! {

/// A kind of platform.
#[derive(Copy, Clone, Debug, PartialEq, Eq, Structural)]
pub enum Platform {
    /// Only `/` separates the segments of a path.
    Unix,
    /// Both `/` and `\` separate the segments of a path, and a path may start with a drive.
    Windows,
}

/// What is said of a read at a position behind which there is nothing.
pub open spec fn end_of_file_text(platform: Platform, offset: u64) -> Seq<char> {
    match platform {
        Platform::Unix => "unexpected end of file"@,
        Platform::Windows => "no bytes beyond position "@ + decimal_chars(offset as nat),
    }
}

/// Takes what reading a file at a position into a buffer has given, which is at least one
/// byte, and at most what the buffer holds. If there are no bytes at the position, that is an
/// error.
pub fn read_range(
    platform: Platform,
    offset: u64,
    buf: Vec<u8>,
    bytes_read: Result<usize, Error>,
) -> (r: Result<Vec<u8>, Error>)
    requires
        bytes_read matches Ok(n) ==> n <= buf@.len(),
    ensures
        match bytes_read {
            Err(e) => r == Err::<Vec<u8>, Error>(e),
            Ok(n) => if n == 0 {
                r matches Err(e) && io_error_kind(e) == IoErrorKind::UnexpectedEof
                    && io_error_message(e) == Some(end_of_file_text(platform, offset))
            } else {
                r matches Ok(v) && v@ == buf@.take(n as int)
            },
        },
{
    match bytes_read {
        Err(e) => Err(e),
        Ok(n) => {
            if n == 0 {
                let msg = match platform {
                    Platform::Unix => String::from_str("unexpected end of file"),
                    Platform::Windows => {
                        let mut msg = String::from_str("no bytes beyond position ");
                        append_decimal(&mut msg, offset);
                        msg
                    },
                };
                return Err(new_error(IoErrorKind::UnexpectedEof, msg));
            }
            let mut chunk = buf;
            chunk.truncate(n);
            assert(chunk@ =~= buf@.take(n as int));
            Ok(chunk)
        },
    }
}

} // verus!
