//! Streams of body data that announce their length.

use crate::buffer::buffer_bytes;
use crate::text::{append_decimal, decimal_chars};
use bytes::Bytes;
use std::io::Error;
use vstd::prelude::*;

verus! {

/// An error of a stream that ended before it had yielded all announced bytes.
#[derive(Copy, Clone, Debug, PartialEq, Eq, Structural)]
pub struct StreamTooShortError {
    /// The number of missing bytes.
    pub remaining: u64,
}

impl StreamTooShortError {
    /// The text of the error.
    pub fn message(&self) -> (r: String)
        ensures
            r@ == "stream ended with "@ + decimal_chars(self.remaining as nat)
                + " bytes still expected"@,
    {
        let mut s: String = String::new();
        s.append("stream ended with ");
        append_decimal(&mut s, self.remaining);
        s.append(" bytes still expected");
        assert(s@ =~= "stream ended with "@ + decimal_chars(self.remaining as nat)
            + " bytes still expected"@);
        s
    }
}

/// An error of a stream that yielded more bytes than it had announced.
#[derive(Copy, Clone, Debug, PartialEq, Eq, Structural)]
pub struct StreamTooLongError {
    /// The number of bytes too many, as far as they have been seen.
    pub extra: u64,
}

impl StreamTooLongError {
    /// The text of the error.
    pub fn message(&self) -> (r: String)
        ensures
            r@ == "stream returned (at least) "@ + decimal_chars(self.extra as nat)
                + " bytes more than expected"@,
    {
        let mut s: String = String::new();
        s.append("stream returned (at least) ");
        append_decimal(&mut s, self.extra);
        s.append(" bytes more than expected");
        assert(s@ =~= "stream returned (at least) "@ + decimal_chars(self.extra as nat)
            + " bytes more than expected"@);
        s
    }
}

/// What can go wrong while a body is streamed.
pub enum StreamError {
    /// Reading the content failed.
    Io(Error),
    /// The content was shorter than announced.
    TooShort(StreamTooShortError),
    /// The content was longer than announced.
    TooLong(StreamTooLongError),
}

/// What a stream has to say when it is asked for its next piece.
pub enum StreamPoll {
    /// A piece of data.
    Data(Bytes),
    /// An error.
    Failed(StreamError),
    /// The stream is over.
    End,
    /// The stream waits for something to be read.
    Pending,
}

impl StreamPoll {
    /// The bytes that were handed out.
    pub open spec fn data(self) -> Seq<u8> {
        match self {
            StreamPoll::Data(d) => buffer_bytes(d),
            _ => Seq::empty(),
        }
    }
}

/// The 64-bit value of a length.
pub fn as_u64(len: usize) -> (r: u64)
    ensures
        r == len,
{
    len as u64
}

/// A stream that yields an announced number of bytes, and otherwise an error.
pub struct ExactLenStream {
    /// The number of bytes still to come.
    pub remaining: u64,
}

/// The number of bytes still to come after the wrapped stream has said `inner`.
pub open spec fn remaining_after(remaining: u64, inner: StreamPoll) -> u64 {
    match inner {
        StreamPoll::Data(d) => if buffer_bytes(d).len() <= remaining {
            (remaining - buffer_bytes(d).len()) as u64
        } else {
            0
        },
        StreamPoll::End => 0,
        _ => remaining,
    }
}

/// What the stream says after the wrapped stream has said `inner`.
pub open spec fn said_after(remaining: u64, inner: StreamPoll) -> StreamPoll {
    match inner {
        StreamPoll::Data(d) => if buffer_bytes(d).len() <= remaining {
            inner
        } else {
            StreamPoll::Failed(
                StreamError::TooLong(
                    StreamTooLongError { extra: (buffer_bytes(d).len() - remaining) as u64 },
                ),
            )
        },
        StreamPoll::End => if remaining == 0 {
            inner
        } else {
            StreamPoll::Failed(StreamError::TooShort(StreamTooShortError { remaining }))
        },
        _ => inner,
    }
}

impl ExactLenStream {
    /// A stream of `len` bytes.
    pub fn new(len: u64) -> (r: Self)
        ensures
            r.remaining == len,
    {
        ExactLenStream { remaining: len }
    }

    /// Passes on what the wrapped stream said, unless it has said too much or too
    /// little. Either error comes once; the stream counts as over from then on.
    pub fn poll_next(&mut self, inner: StreamPoll) -> (r: StreamPoll)
        ensures
            r == said_after(old(self).remaining, inner),
            final(self).remaining == remaining_after(old(self).remaining, inner),
    {
        let remaining: u64 = self.remaining;
        match inner {
            StreamPoll::Data(d) => {
                let d_len = as_u64(d.len());
                if d_len <= remaining {
                    self.remaining = remaining - d_len;
                    StreamPoll::Data(d)
                } else {
                    self.remaining = 0;
                    StreamPoll::Failed(
                        StreamError::TooLong(StreamTooLongError { extra: d_len - remaining }),
                    )
                }
            },
            StreamPoll::End => {
                if remaining != 0 {
                    self.remaining = 0;
                    StreamPoll::Failed(StreamError::TooShort(StreamTooShortError { remaining }))
                } else {
                    StreamPoll::End
                }
            },
            other => other,
        }
    }
}

/// Everything a stream of `remaining` bytes says while the wrapped stream says
/// `inner`.
pub open spec fn said(remaining: u64, inner: Seq<StreamPoll>) -> Seq<StreamPoll>
    decreases inner.len(),
{
    if inner.len() == 0 {
        Seq::empty()
    } else {
        seq![said_after(remaining, inner[0])] + said(
            remaining_after(remaining, inner[0]),
            inner.skip(1),
        )
    }
}

/// The number of bytes that were handed out in the course of a stream.
pub open spec fn total_data(polls: Seq<StreamPoll>) -> nat
    decreases polls.len(),
{
    if polls.len() == 0 {
        0
    } else {
        polls[0].data().len() + total_data(polls.skip(1))
    }
}

/// Whether none of the answers is an error.
pub open spec fn without_failure(polls: Seq<StreamPoll>) -> bool {
    forall|i: int| 0 <= i < polls.len() ==> !((#[trigger] polls[i]) is Failed)
}

/// A stream never hands out more than the announced number of bytes, and if it
/// comes to its end without an error, it has handed out exactly that number.
pub proof fn a_stream_that_ends_has_its_announced_length(len: u64, inner: Seq<StreamPoll>)
    ensures
        said(len, inner).len() == inner.len(),
        total_data(said(len, inner)) <= len,
        without_failure(said(len, inner)) && inner.len() > 0 && said(len, inner).last() is End
            ==> total_data(said(len, inner)) == len,
    decreases inner.len(),
{
    if inner.len() > 0 {
        let out = said(len, inner);
        let rest = said(remaining_after(len, inner[0]), inner.skip(1));
        a_stream_that_ends_has_its_announced_length(remaining_after(len, inner[0]), inner.skip(1));
        assert(out.skip(1) =~= rest);
        assert(out[0] == said_after(len, inner[0]));
        if without_failure(out) {
            assert forall|i: int| 0 <= i < rest.len() implies !((#[trigger] rest[i]) is Failed) by {
                assert(out[i + 1] == rest[i]);
            }
            assert(!(out[0] is Failed));
            if inner.len() == 1 {
                assert(rest =~= Seq::empty());
                assert(total_data(rest) == 0);
                assert(out.last() == out[0]);
            } else {
                assert(out.last() == rest.last());
            }
        }
    }
}

/// After an error about its length a stream counts as over: it hands out no
/// further byte, and once the wrapped stream has ended it ends without another
/// error.
pub proof fn a_length_error_fuses_the_stream(len: u64, inner: StreamPoll, next: StreamPoll)
    requires
        inner is Data || inner is End,
        said_after(len, inner) is Failed,
    ensures
        remaining_after(len, inner) == 0,
        said_after(0, StreamPoll::End) is End,
        said_after(remaining_after(len, inner), next).data().len() == 0,
{
}

/// What fits into the announced length is passed on as it is, and counted. More than that, or an
/// end before that, is an error which says by how many bytes the length was missed.
pub proof fn lengths_are_held_to(remaining: u64, inner: StreamPoll)
    ensures
        match inner {
            StreamPoll::Data(d) => if buffer_bytes(d).len() <= remaining {
                &&& said_after(remaining, inner) == inner
                &&& remaining_after(remaining, inner) + buffer_bytes(d).len() == remaining
            } else {
                &&& buffer_bytes(d).len() <= u64::MAX ==> (said_after(
                    remaining,
                    inner,
                ) matches StreamPoll::Failed(StreamError::TooLong(e)) && remaining + e.extra
                    == buffer_bytes(d).len())
                &&& said_after(remaining, inner) is Failed
            },
            StreamPoll::End => if remaining == 0 {
                said_after(remaining, inner) is End
            } else {
                said_after(remaining, inner) matches StreamPoll::Failed(StreamError::TooShort(e))
                    && e.remaining == remaining
            },
            _ => said_after(remaining, inner) == inner && remaining_after(remaining, inner)
                == remaining,
        },
{
}

} // verus!
