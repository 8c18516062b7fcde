//! Response bodies.
//!
//! A body hands out its data piece by piece. Where the content of the resource is
//! in a file, it says which part of the file it needs next, and goes on when that
//! has been read.

use crate::buffer::{buffer_bytes, buffer_from_static, buffer_from_vec};
use crate::resource::{chunk, is_chunk_read, RangeReader, ResourceContent};
use crate::stream::{
    as_u64, remaining_after, said_after, ExactLenStream, StreamError, StreamPoll,
};
use crate::text::{text, to_vec};
use bytes::Bytes;
use std::io::Error;
use std::ops::Range;
use vstd::prelude::*;

verus! {

/// Reads a range of content and holds it to an announced length.
pub struct ExactRange {
    /// Reads the range.
    pub reader: RangeReader,
    /// Counts what is still to come.
    pub s: ExactLenStream,
}

impl ExactRange {
    /// Whether `inner` is what the reader says next.
    pub open spec fn reader_says(self, read: Option<Result<Bytes, Error>>, inner: StreamPoll) -> bool {
        if self.reader.start == self.reader.end {
            inner is End
        } else {
            is_chunk_read(
                self.reader.content.bytes(),
                chunk(self.reader.start, self.reader.end),
                read,
                inner,
            )
        }
    }

    /// Whether `r` is what comes of a poll that leads from `self` to `after`.
    pub open spec fn polled(
        self,
        read: Option<Result<Bytes, Error>>,
        after: Self,
        r: StreamPoll,
    ) -> bool {
        &&& after.reader.content == self.reader.content
        &&& after.reader.end == self.reader.end
        &&& exists|inner: StreamPoll| #[trigger]
            self.reader_says(read, inner) && r == said_after(self.s.remaining, inner)
                && after.s.remaining == remaining_after(self.s.remaining, inner)
                && after.reader.start == self.reader.start + inner.data().len()
    }

    /// Hands out the next piece of the range. `read` is what reading the file has
    /// given, if it has been read.
    pub fn poll_next(&mut self, read: Option<Result<Bytes, Error>>) -> (r: StreamPoll)
        requires
            old(self).reader.start <= old(self).reader.end,
            read matches Some(Ok(d)) ==> old(self).reader.wants() matches Some(w) && buffer_bytes(
                d,
            ).len() <= w.end - w.start,
        ensures
            old(self).polled(read, *final(self), r),
            final(self).reader.start <= final(self).reader.end,
    {
        let ghost before = *self;
        let inner = self.reader.poll_next(read);
        assert(before.reader_says(read, inner));
        self.s.poll_next(inner)
    }
}

/// A range whose announced length is its length never fails on account of it:
/// what the reader says is passed on, and the count stays right.
proof fn lemma_exact_poll(
    before: ExactRange,
    read: Option<Result<Bytes, Error>>,
    after: ExactRange,
    r: StreamPoll,
)
    requires
        before.reader.start <= before.reader.end,
        before.s.remaining == before.reader.end - before.reader.start,
        read matches Some(Ok(d)) ==> before.reader.wants() matches Some(w) && buffer_bytes(d).len()
            <= w.end - w.start,
        before.polled(read, after, r),
    ensures
        before.reader_says(read, r),
        after.reader.start == before.reader.start + r.data().len(),
        after.s.remaining == after.reader.end - after.reader.start,
{
    let inner = choose|inner: StreamPoll| #[trigger]
        before.reader_says(read, inner) && r == said_after(before.s.remaining, inner)
            && after.s.remaining == remaining_after(before.s.remaining, inner)
            && after.reader.start == before.reader.start + inner.data().len();
    assert(r == inner);
}

/// The trailer after all parts of a `multipart/byteranges` body.
pub open spec fn part_trailer() -> Seq<u8> {
    text("\r\n--B--\r\n"@)
}

/// The bytes of the trailer.
pub(crate) fn trailer() -> (r: Vec<u8>)
    ensures
        r@ == part_trailer(),
        r@.len() == 9,
{
    proof {
        reveal_strlit("\r\n--B--\r\n");
        crate::text::lemma_text_ascii("\r\n--B--\r\n"@);
    }
    to_vec("\r\n--B--\r\n".as_bytes())
}

/// How far a `multipart/byteranges` body has been sent.
pub enum Phase {
    /// The header of a part comes next.
    Header(int),
    /// The content of a part comes next, from the given position on.
    Content(int, u64),
    /// The trailer comes next.
    Trailer,
    /// Nothing is left.
    Done,
}

/// The state of a `multipart/byteranges` body.
pub struct MultipartView {
    /// The content of the resource, if it is in memory.
    pub content: Option<Seq<u8>>,
    /// What precedes the content of each part.
    pub headers: Seq<Seq<u8>>,
    /// The range that each part holds.
    pub ranges: Seq<Range<u64>>,
    /// How far the body has been sent.
    pub phase: Phase,
}

/// The length of the parts from the given one on, and of the trailer.
pub open spec fn parts_len(headers: Seq<Seq<u8>>, ranges: Seq<Range<u64>>, i: int) -> nat
    decreases ranges.len() - i,
{
    if i >= ranges.len() {
        part_trailer().len()
    } else {
        headers[i].len() + (ranges[i].end - ranges[i].start) as nat + parts_len(
            headers,
            ranges,
            i + 1,
        )
    }
}

/// The parts of a content from the given one on, and the trailer.
pub open spec fn parts(
    headers: Seq<Seq<u8>>,
    ranges: Seq<Range<u64>>,
    content: Seq<u8>,
    i: int,
) -> Seq<u8>
    decreases ranges.len() - i,
{
    if i >= ranges.len() {
        part_trailer()
    } else {
        headers[i] + content.subrange(ranges[i].start as int, ranges[i].end as int) + parts(
            headers,
            ranges,
            content,
            i + 1,
        )
    }
}

/// Whether every range lies within content of the given length.
pub open spec fn ranges_fit(ranges: Seq<Range<u64>>, len: nat) -> bool {
    forall|i: int|
        0 <= i < ranges.len() ==> (#[trigger] ranges[i]).start <= ranges[i].end && ranges[i].end
            <= len
}

/// Whether every range begins no later than it ends.
pub open spec fn ranges_ordered(ranges: Seq<Range<u64>>) -> bool {
    forall|i: int| 0 <= i < ranges.len() ==> (#[trigger] ranges[i]).start <= ranges[i].end
}

/// `parts_len` is the length of `parts`.
pub proof fn lemma_parts_len(
    headers: Seq<Seq<u8>>,
    ranges: Seq<Range<u64>>,
    content: Seq<u8>,
    i: int,
)
    requires
        0 <= i,
        ranges_fit(ranges, content.len()),
    ensures
        parts(headers, ranges, content, i).len() == parts_len(headers, ranges, i),
    decreases ranges.len() - i,
{
    if i < ranges.len() {
        lemma_parts_len(headers, ranges, content, i + 1);
        assert(ranges[i].start <= ranges[i].end);
    }
}

impl MultipartView {
    /// Whether the phase is one of this body.
    pub open spec fn wf(self) -> bool {
        &&& self.headers.len() == self.ranges.len()
        &&& ranges_ordered(self.ranges)
        &&& match self.phase {
            Phase::Header(i) => 0 <= i < self.ranges.len(),
            Phase::Content(i, pos) => 0 <= i < self.ranges.len() && self.ranges[i].start <= pos
                <= self.ranges[i].end,
            _ => true,
        }
    }

    /// The phase once content that has been sent to its end is left behind.
    pub open spec fn settled(self) -> Phase {
        match self.phase {
            Phase::Content(i, pos) => if pos < self.ranges[i].end {
                self.phase
            } else if i + 1 < self.ranges.len() {
                Phase::Header(i + 1)
            } else {
                Phase::Trailer
            },
            _ => self.phase,
        }
    }

    /// The part of the file that has to be read before the body can go on.
    pub open spec fn wants(self) -> Option<Range<u64>> {
        match self.phase {
            Phase::Content(i, pos) => if self.content is None && pos < self.ranges[i].end && chunk(
                pos,
                self.ranges[i].end,
            ).end <= usize::MAX {
                Some(chunk(pos, self.ranges[i].end))
            } else {
                None
            },
            _ => None,
        }
    }

    /// Whether `r` is what comes of a poll that leads from `self` to `after`: the
    /// header of a part, a chunk of its content, or the trailer, whichever is next.
    pub open spec fn polled(
        self,
        read: Option<Result<Bytes, Error>>,
        after: Self,
        r: StreamPoll,
    ) -> bool {
        &&& after.content == self.content
        &&& after.headers == self.headers
        &&& after.ranges == self.ranges
        &&& match self.settled() {
            Phase::Header(i) => {
                &&& r matches StreamPoll::Data(d) && buffer_bytes(d) == self.headers[i]
                &&& after.phase == Phase::Content(i, self.ranges[i].start)
            },
            Phase::Content(i, pos) => {
                &&& is_chunk_read(self.content, chunk(pos, self.ranges[i].end), read, r)
                &&& after.phase == if r is Failed {
                    Phase::Done
                } else {
                    Phase::Content(i, (pos + r.data().len()) as u64)
                }
            },
            Phase::Trailer => {
                &&& r matches StreamPoll::Data(d) && buffer_bytes(d) == part_trailer()
                &&& after.phase is Done
            },
            Phase::Done => {
                &&& r is End
                &&& after.phase is Done
            },
        }
    }

    /// The number of bytes still to be sent.
    pub open spec fn left_len(self) -> nat {
        match self.phase {
            Phase::Header(i) => parts_len(self.headers, self.ranges, i),
            Phase::Content(i, pos) => (self.ranges[i].end - pos) as nat + parts_len(
                self.headers,
                self.ranges,
                i + 1,
            ),
            Phase::Trailer => part_trailer().len(),
            Phase::Done => 0,
        }
    }

    /// The bytes still to be sent, of the given content.
    pub open spec fn left(self, content: Seq<u8>) -> Seq<u8> {
        match self.phase {
            Phase::Header(i) => parts(self.headers, self.ranges, content, i),
            Phase::Content(i, pos) => content.subrange(pos as int, self.ranges[i].end as int)
                + parts(self.headers, self.ranges, content, i + 1),
            Phase::Trailer => part_trailer(),
            Phase::Done => Seq::empty(),
        }
    }
}

/// The body of a `multipart/byteranges` response.
pub struct MultipartStream {
    /// The stream of the current part, once its content has begun.
    cur: Option<ExactRange>,
    /// The current part; the trailer counts as one more.
    part: usize,
    /// Whether the header of the current part, or the trailer, has been sent.
    in_content: bool,
    part_headers: Vec<Vec<u8>>,
    ranges: Vec<Range<u64>>,
    content: ResourceContent,
    remaining: u64,
}

impl View for MultipartStream {
    type V = MultipartView;

    closed spec fn view(&self) -> MultipartView {
        MultipartView {
            content: self.content.bytes(),
            headers: self.part_headers@.map_values(|h: Vec<u8>| h@),
            ranges: self.ranges@,
            phase: if self.part < self.ranges@.len() {
                if self.in_content {
                    Phase::Content(
                        self.part as int,
                        match self.cur {
                            Some(c) => c.reader.start,
                            None => self.ranges@[self.part as int].start,
                        },
                    )
                } else {
                    Phase::Header(self.part as int)
                }
            } else if self.in_content {
                Phase::Done
            } else {
                Phase::Trailer
            },
        }
    }
}

impl MultipartStream {
    /// Whether the stream is in a consistent state, and counts right what is still to
    /// be sent.
    pub closed spec fn wf(self) -> bool {
        &&& self@.wf()
        &&& self.part <= self.ranges@.len()
        &&& self.cur matches Some(c) ==> {
            &&& self.in_content
            &&& self.part < self.ranges@.len()
            &&& self.ranges@[self.part as int].start <= c.reader.start <= c.reader.end
            &&& c.reader.end == self.ranges@[self.part as int].end
            &&& c.s.remaining == c.reader.end - c.reader.start
            &&& c.reader.content.bytes() == self.content.bytes()
        }
        &&& self.remaining == self@.left_len()
    }

    /// A body that has the given ranges of the content as its parts, each behind its
    /// header. `len` is the length of all that.
    pub fn new(
        content: ResourceContent,
        part_headers: Vec<Vec<u8>>,
        ranges: Vec<Range<u64>>,
        len: u64,
    ) -> (r: Self)
        requires
            part_headers@.len() == ranges@.len(),
            ranges_ordered(ranges@),
            len == parts_len(part_headers@.map_values(|h: Vec<u8>| h@), ranges@, 0),
        ensures
            r.wf(),
            r@.content == content.bytes(),
            r@.headers == part_headers@.map_values(|h: Vec<u8>| h@),
            r@.ranges == ranges@,
            r@.phase == (if ranges@.len() > 0 {
                Phase::Header(0)
            } else {
                Phase::Trailer
            }),
    {
        MultipartStream {
            cur: None,
            part: 0,
            in_content: false,
            part_headers,
            ranges,
            content,
            remaining: len,
        }
    }

    /// The number of bytes still to be sent.
    pub fn remaining(&self) -> (r: u64)
        requires
            self.wf(),
        ensures
            r == self@.left_len(),
    {
        self.remaining
    }

    /// The part of the file that has to be read before the body can go on.
    pub fn next_read(&self) -> (r: Option<Range<u64>>)
        requires
            self.wf(),
        ensures
            r == self@.wants(),
    {
        if !self.in_content || self.part == self.ranges.len() {
            return None;
        }
        match &self.cur {
            Some(cur) => cur.reader.next_read(),
            None => {
                let range = &self.ranges[self.part];
                let reader = RangeReader {
                    content: self.content.duplicate(),
                    start: range.start,
                    end: range.end,
                };
                reader.next_read()
            },
        }
    }

    /// Hands out the next piece of the body. `read` is what reading the file has given,
    /// if it has been read. After an error the stream is over.
    pub fn poll_next(&mut self, read: Option<Result<Bytes, Error>>) -> (r: StreamPoll)
        requires
            old(self).wf(),
            read matches Some(Ok(d)) ==> old(self)@.wants() matches Some(w) && buffer_bytes(d).len()
                <= w.end - w.start,
        ensures
            final(self).wf(),
            old(self)@.polled(read, final(self)@, r),
    {
        let n: usize = self.ranges.len();
        if self.in_content && self.part < n {
            let range = Range {
                start: self.ranges[self.part].start,
                end: self.ranges[self.part].end,
            };
            let mut cur = match self.cur.take() {
                Some(cur) => cur,
                None => ExactRange {
                    reader: RangeReader {
                        content: self.content.duplicate(),
                        start: range.start,
                        end: range.end,
                    },
                    s: ExactLenStream::new(range.end - range.start),
                },
            };
            let ghost before = cur;
            let polled = cur.poll_next(read);
            proof {
                lemma_exact_poll(before, read, cur, polled);
            }
            match polled {
                StreamPoll::Data(d) => {
                    self.remaining = self.remaining - as_u64(d.len());
                    self.cur = Some(cur);
                    return StreamPoll::Data(d);
                },
                StreamPoll::Failed(e) => {
                    // Fuse.
                    self.remaining = 0;
                    self.part = n;
                    return StreamPoll::Failed(e);
                },
                StreamPoll::Pending => {
                    self.cur = Some(cur);
                    return StreamPoll::Pending;
                },
                StreamPoll::End => {
                    self.part = self.part + 1;
                    self.in_content = false;
                },
            }
        }
        if self.part == n {
            if self.in_content {
                return StreamPoll::End;
            }
            self.in_content = true;
            let t = trailer();
            self.remaining = self.remaining - as_u64(t.len());
            return StreamPoll::Data(buffer_from_vec(t));
        }
        let header = to_vec(self.part_headers[self.part].as_slice());
        self.in_content = true;
        self.remaining = self.remaining - as_u64(header.len());
        StreamPoll::Data(buffer_from_vec(header))
    }
}

/// Whether what was read from a file is what the file holds there.
pub open spec fn is_honest(
    wanted: Option<Range<u64>>,
    read: Option<Result<Bytes, Error>>,
    file: Seq<u8>,
) -> bool {
    match read {
        Some(Ok(d)) => wanted matches Some(w) && buffer_bytes(d).len() <= w.end - w.start
            && w.start + buffer_bytes(d).len() <= file.len() && buffer_bytes(d) == file.subrange(
            w.start as int,
            w.start + buffer_bytes(d).len(),
        ),
        _ => true,
    }
}

/// The content of a resource: the bytes in memory, or else those of the file.
pub open spec fn content_or(content: Option<Seq<u8>>, file: Seq<u8>) -> Seq<u8> {
    match content {
        Some(bytes) => bytes,
        None => file,
    }
}

/// A poll of a multipart body hands out exactly the first of the bytes that were
/// still to be sent, and nothing is lost or repeated, unless it fails.
pub proof fn multipart_polls_make_up_the_body(
    before: MultipartView,
    read: Option<Result<Bytes, Error>>,
    after: MultipartView,
    r: StreamPoll,
    file: Seq<u8>,
)
    requires
        before.wf(),
        before.polled(read, after, r),
        ranges_fit(before.ranges, content_or(before.content, file).len()),
        is_honest(before.wants(), read, file),
    ensures
        after.wf(),
        before.left(content_or(before.content, file)).len() == before.left_len(),
        !(r is Failed) ==> before.left(content_or(before.content, file)) == r.data() + after.left(
            content_or(before.content, file),
        ),
        r is End ==> before.left(content_or(before.content, file)).len() == 0,
{
    let c = content_or(before.content, file);
    let n = before.ranges.len();
    if let Phase::Content(i, pos) = before.phase {
        assert(before.ranges[i].start <= before.ranges[i].end <= c.len());
        lemma_parts_len(before.headers, before.ranges, c, i + 1);
        if pos == before.ranges[i].end {
            assert(c.subrange(pos as int, pos as int) =~= Seq::empty());
            assert(before.left(c) =~= parts(before.headers, before.ranges, c, i + 1));
        }
    }
    if let Phase::Header(i) = before.phase {
        lemma_parts_len(before.headers, before.ranges, c, i);
    }
    match before.settled() {
        Phase::Header(i) => {
            let rest = parts(before.headers, before.ranges, c, i + 1);
            let part = c.subrange(before.ranges[i].start as int, before.ranges[i].end as int);
            assert(before.headers[i] + part + rest =~= before.headers[i] + (part + rest));
        },
        Phase::Content(i, pos) => {
            if !(r is Failed) {
                let end = before.ranges[i].end as int;
                let next = pos + r.data().len();
                let rest = parts(before.headers, before.ranges, c, i + 1);
                assert(r.data() =~= c.subrange(pos as int, next));
                assert(c.subrange(pos as int, end) =~= r.data() + c.subrange(next, end));
                assert(before.left(c) =~= r.data() + (c.subrange(next, end) + rest));
            }
        },
        Phase::Trailer => {
            assert(part_trailer() =~= part_trailer() + Seq::<u8>::empty());
        },
        Phase::Done => {
            assert(Seq::<u8>::empty() =~= Seq::<u8>::empty() + Seq::<u8>::empty());
        },
    }
}

/// The ways in which a body gets its data.
pub enum BodyStream {
    /// At most one piece of data, which is there already.
    Once {
        /// The piece, until it has been handed out.
        chunk: Option<Result<Bytes, StreamError>>,
    },
    /// One range of a resource.
    ExactLen {
        /// The stream of the range.
        range: ExactRange,
    },
    /// Several ranges of a resource.
    Multipart {
        /// The stream of the parts.
        parts: MultipartStream,
    },
}

impl BodyStream {
    /// Whether the stream is in a consistent state.
    pub open spec fn wf(self) -> bool {
        match self {
            BodyStream::Once { .. } => true,
            BodyStream::ExactLen { range: s } => s.reader.start <= s.reader.end,
            BodyStream::Multipart { parts: s } => s.wf(),
        }
    }

    /// The part of the file that has to be read before the stream can go on.
    pub open spec fn wants(self) -> Option<Range<u64>> {
        match self {
            BodyStream::Once { .. } => None,
            BodyStream::ExactLen { range: s } => s.reader.wants(),
            BodyStream::Multipart { parts: s } => s@.wants(),
        }
    }

    /// The announced number of bytes still to come.
    pub open spec fn announced(self) -> nat {
        match self {
            BodyStream::Once { chunk: Some(Ok(d)) } => buffer_bytes(d).len(),
            BodyStream::Once { .. } => 0,
            BodyStream::ExactLen { range: s } => s.s.remaining as nat,
            BodyStream::Multipart { parts: s } => s@.left_len(),
        }
    }

    /// Whether `r` is what comes of a poll that leads from `self` to `after`.
    pub open spec fn polled(
        self,
        read: Option<Result<Bytes, Error>>,
        after: Self,
        r: StreamPoll,
    ) -> bool {
        match self {
            BodyStream::Once { chunk } => {
                &&& after == (BodyStream::Once { chunk: None })
                &&& match chunk {
                    Some(Ok(d)) => r == StreamPoll::Data(d),
                    Some(Err(e)) => r == StreamPoll::Failed(e),
                    None => r is End,
                }
            },
            BodyStream::ExactLen { range: s } => after matches BodyStream::ExactLen { range: t } && s.polled(
                read,
                t,
                r,
            ),
            BodyStream::Multipart { parts: s } => after matches BodyStream::Multipart { parts: t }
                && s@.polled(read, t@, r),
        }
    }

    /// Hands out the next piece of data.
    pub fn poll_next(&mut self, read: Option<Result<Bytes, Error>>) -> (r: StreamPoll)
        requires
            old(self).wf(),
            read matches Some(Ok(d)) ==> old(self).wants() matches Some(w) && buffer_bytes(d).len()
                <= w.end - w.start,
        ensures
            final(self).wf(),
            old(self).polled(read, *final(self), r),
    {
        match self {
            BodyStream::Once { chunk } => match chunk.take() {
                Some(Ok(d)) => StreamPoll::Data(d),
                Some(Err(e)) => StreamPoll::Failed(e),
                None => StreamPoll::End,
            },
            BodyStream::ExactLen { range: s } => s.poll_next(read),
            BodyStream::Multipart { parts: s } => s.poll_next(read),
        }
    }
}

/// What a body will send, seen from its beginning.
pub enum BodyPlan {
    /// The given bytes.
    Fixed(Seq<u8>),
    /// A range of the content of the resource.
    Slice(int, int),
    /// Parts of the content of the resource, each behind its header, and the trailer.
    Parts(Seq<Seq<u8>>, Seq<Range<u64>>),
}

impl BodyPlan {
    /// The bytes that are sent, of the given content.
    pub open spec fn bytes(self, content: Seq<u8>) -> Seq<u8> {
        match self {
            BodyPlan::Fixed(bytes) => bytes,
            BodyPlan::Slice(start, end) => content.subrange(start, end),
            BodyPlan::Parts(headers, ranges) => parts(headers, ranges, content, 0),
        }
    }
}

/// A streaming response body.
pub struct Body {
    /// Where the data comes from.
    pub stream: BodyStream,
    /// Whether something is to be done once the body is over.
    pub on_complete: bool,
}

impl Body {
    /// Whether the body will send what the plan says, from its beginning. Content of a
    /// resource in memory is the given one.
    pub open spec fn follows(self, plan: BodyPlan, content: Option<Seq<u8>>) -> bool {
        &&& !self.on_complete
        &&& self.stream.wf()
        &&& match plan {
            BodyPlan::Fixed(bytes) => match self.stream {
                BodyStream::Once { chunk: Some(Ok(d)) } => buffer_bytes(d) == bytes,
                BodyStream::Once { chunk: None } => bytes.len() == 0,
                _ => false,
            },
            BodyPlan::Slice(start, end) => self.stream matches BodyStream::ExactLen { range: s }
                && s.reader.content.bytes() == content && s.reader.start == start && s.reader.end
                == end && s.s.remaining == end - start,
            BodyPlan::Parts(headers, ranges) => self.stream matches BodyStream::Multipart { parts: s }
                && s@.content == content && s@.headers == headers && s@.ranges == ranges
                && s@.phase == Phase::Header(0),
        }
    }

    /// Returns a body of no bytes.
    pub fn empty() -> (r: Self)
        ensures
            r.stream == (BodyStream::Once { chunk: None }),
            !r.on_complete,
            r.follows(BodyPlan::Fixed(Seq::empty()), None),
    {
        Body::new_once(None)
    }

    /// Returns a body that is at most one piece of data, or an error.
    pub fn new_once(chunk: Option<Result<Bytes, StreamError>>) -> (r: Self)
        ensures
            r.stream == (BodyStream::Once { chunk }),
            !r.on_complete,
    {
        Body { stream: BodyStream::Once { chunk }, on_complete: false }
    }

    /// Returns a body that is a range of content, announced to have `len` bytes.
    pub fn new_exact_len(len: u64, reader: RangeReader) -> (r: Self)
        requires
            reader.start <= reader.end,
        ensures
            r.stream matches BodyStream::ExactLen { range: s } && s.reader == reader && s.s.remaining
                == len,
            r.stream.wf(),
            !r.on_complete,
    {
        Body {
            stream: BodyStream::ExactLen {
                range: ExactRange { reader, s: ExactLenStream::new(len) },
            },
            on_complete: false,
        }
    }

    /// Returns a body that is several ranges of content, each behind its header. `len`
    /// is the length of all that and of the trailer.
    pub fn new_multipart(
        content: ResourceContent,
        part_headers: Vec<Vec<u8>>,
        ranges: Vec<Range<u64>>,
        len: u64,
    ) -> (r: Self)
        requires
            part_headers@.len() == ranges@.len(),
            ranges_ordered(ranges@),
            len == parts_len(part_headers@.map_values(|h: Vec<u8>| h@), ranges@, 0),
        ensures
            r.stream matches BodyStream::Multipart { parts: s } && s.wf() && s@.content == content.bytes()
                && s@.headers == part_headers@.map_values(|h: Vec<u8>| h@) && s@.ranges == ranges@
                && s@.phase == (if ranges@.len() > 0 {
                Phase::Header(0)
            } else {
                Phase::Trailer
            }),
            r.stream.wf(),
            !r.on_complete,
    {
        Body {
            stream: BodyStream::Multipart {
                parts: MultipartStream::new(content, part_headers, ranges, len),
            },
            on_complete: false,
        }
    }

    /// Asks for something to be done once the body is over.
    pub fn on_complete(self) -> (r: Self)
        ensures
            r.stream == self.stream,
            r.on_complete,
    {
        Body { stream: self.stream, on_complete: true }
    }

    /// The part of the file that has to be read before the body can go on.
    pub fn next_read(&self) -> (r: Option<Range<u64>>)
        requires
            self.stream.wf(),
        ensures
            r == self.stream.wants(),
    {
        match &self.stream {
            BodyStream::Once { .. } => None,
            BodyStream::ExactLen { range: s } => s.reader.next_read(),
            BodyStream::Multipart { parts: s } => s.next_read(),
        }
    }

    /// Hands out the next piece of the body, and says whether what was asked to be done
    /// once the body is over is to be done now. That is the case at the end and at an
    /// error, but only once.
    pub fn poll_frame(&mut self, read: Option<Result<Bytes, Error>>) -> (r: (StreamPoll, bool))
        requires
            old(self).stream.wf(),
            read matches Some(Ok(d)) ==> old(self).stream.wants() matches Some(w) && buffer_bytes(
                d,
            ).len() <= w.end - w.start,
        ensures
            final(self).stream.wf(),
            old(self).stream.polled(read, final(self).stream, r.0),
            r.1 == (old(self).on_complete && (r.0 is End || r.0 is Failed)),
            final(self).on_complete == (old(self).on_complete && !r.1),
    {
        let result = self.stream.poll_next(read);
        let is_done = match &result {
            StreamPoll::End => true,
            StreamPoll::Failed(_) => true,
            _ => false,
        };
        if is_done {
            let run = self.on_complete;
            self.on_complete = false;
            (result, run)
        } else {
            (result, false)
        }
    }

    /// Gives the body up, and says whether what was asked to be done once the body is
    /// over is to be done now.
    pub fn close(&mut self) -> (r: bool)
        ensures
            r == old(self).on_complete,
            !final(self).on_complete,
            final(self).stream == old(self).stream,
    {
        let run = self.on_complete;
        self.on_complete = false;
        run
    }

    /// The exact number of bytes still to come.
    pub fn size_hint(&self) -> (r: u64)
        requires
            self.stream.wf(),
        ensures
            r == self.stream.announced(),
    {
        match &self.stream {
            BodyStream::Once { chunk: Some(Ok(d)) } => as_u64(d.len()),
            BodyStream::Once { .. } => 0,
            BodyStream::ExactLen { range: s } => s.s.remaining,
            BodyStream::Multipart { parts: s } => s.remaining(),
        }
    }

    /// Whether the body is known to be over.
    pub fn is_end_stream(&self) -> (r: bool)
        requires
            self.stream.wf(),
        ensures
            r == (match self.stream {
                BodyStream::Once { chunk } => chunk is None,
                _ => self.stream.announced() == 0,
            }),
    {
        match &self.stream {
            BodyStream::Once { chunk } => chunk.is_none(),
            BodyStream::ExactLen { range: s } => s.s.remaining == 0,
            BodyStream::Multipart { parts: s } => s.remaining() == 0,
        }
    }
}

impl BodyStream {
    /// Whether the stream announces the number of bytes that it has, and the ranges
    /// that it sends lie within the content.
    pub open spec fn is_exact(self, file: Seq<u8>) -> bool {
        &&& self.wf()
        &&& match self {
            BodyStream::Once { .. } => true,
            BodyStream::ExactLen { range: s } => s.s.remaining == s.reader.end - s.reader.start
                && s.reader.end <= content_or(s.reader.content.bytes(), file).len(),
            BodyStream::Multipart { parts: s } => s@.wf() && ranges_fit(
                s@.ranges,
                content_or(s@.content, file).len(),
            ),
        }
    }

    /// The bytes still to be sent. Content that is not in memory is that of the file.
    pub open spec fn left(self, file: Seq<u8>) -> Seq<u8> {
        match self {
            BodyStream::Once { chunk: Some(Ok(d)) } => buffer_bytes(d),
            BodyStream::Once { .. } => Seq::empty(),
            BodyStream::ExactLen { range: s } => content_or(s.reader.content.bytes(), file).subrange(
                s.reader.start as int,
                s.reader.end as int,
            ),
            BodyStream::Multipart { parts: s } => s@.left(content_or(s@.content, file)),
        }
    }
}

/// The announced number of bytes is that of the bytes still to be sent; a poll hands
/// out exactly the first of them, and nothing is lost or repeated, unless it fails;
/// and when the end is reached, nothing is left.
pub proof fn polls_make_up_the_body(
    before: BodyStream,
    read: Option<Result<Bytes, Error>>,
    after: BodyStream,
    r: StreamPoll,
    file: Seq<u8>,
)
    requires
        before.is_exact(file),
        after.wf(),
        is_honest(before.wants(), read, file),
        before.polled(read, after, r),
    ensures
        before.left(file).len() == before.announced(),
        after.is_exact(file),
        !(r is Failed) ==> before.left(file) == r.data() + after.left(file),
        r is End ==> before.left(file).len() == 0,
{
    match before {
        BodyStream::Once { chunk } => {
            if let Some(Ok(d)) = chunk {
                assert(buffer_bytes(d) + Seq::<u8>::empty() =~= buffer_bytes(d));
            } else {
                assert(Seq::<u8>::empty() + Seq::<u8>::empty() =~= Seq::<u8>::empty());
            }
        },
        BodyStream::ExactLen { range: s } => {
            let t = after->range;
            lemma_exact_poll(s, read, t, r);
            let c = content_or(s.reader.content.bytes(), file);
            if s.reader.start < s.reader.end && !(r is Failed) {
                let start = s.reader.start as int;
                let next = start + r.data().len();
                assert(r.data() =~= c.subrange(start, next));
            }
            if !(r is Failed) {
                assert(before.left(file) =~= r.data() + after.left(file));
            }
        },
        BodyStream::Multipart { parts: s } => {
            let t = after->parts;
            multipart_polls_make_up_the_body(s@, read, t@, r, file);
        },
    }
}

/// A body that follows a plan has, at its beginning, exactly the bytes of the plan to
/// send.
pub proof fn a_plan_is_what_is_sent(body: Body, plan: BodyPlan, content: Option<Seq<u8>>, file: Seq<u8>)
    requires
        body.follows(plan, content),
    ensures
        body.stream.left(file) == plan.bytes(content_or(content, file)),
{
    match plan {
        BodyPlan::Fixed(bytes) => {
            if body.stream == (BodyStream::Once { chunk: None }) {
                assert(bytes =~= Seq::empty());
            }
        },
        _ => {},
    }
}

/// How often what was asked to be done once a body is over is done, if the body is
/// polled and then given up. `over` says of each poll whether it comes to the end or
/// to an error.
pub open spec fn completions(asked: bool, over: Seq<bool>) -> nat
    decreases over.len(),
{
    let now: nat = if asked && (over.len() == 0 || over[0]) {
        1
    } else {
        0
    };
    if over.len() == 0 {
        now
    } else {
        now + completions(asked && now == 0, over.skip(1))
    }
}

/// Whatever happens to a body, what was asked to be done once it is over is done
/// exactly once by the time it has been given up, and nothing is done unasked.
pub proof fn completion_happens_once(asked: bool, over: Seq<bool>)
    ensures
        completions(asked, over) == (if asked {
            1nat
        } else {
            0nat
        }),
    decreases over.len(),
{
    if over.len() > 0 {
        completion_happens_once(asked && !over[0], over.skip(1));
    }
}

impl From<&'static [u8]> for Body {
    fn from(value: &'static [u8]) -> (r: Self)
        ensures
            r.follows(BodyPlan::Fixed(value@), None),
    {
        Body::new_once(Some(Ok(buffer_from_static(value))))
    }
}

impl vstd::std_specs::convert::FromSpecImpl<&'static [u8]> for Body {
    open spec fn obeys_from_spec() -> bool {
        false
    }

    open spec fn from_spec(value: &'static [u8]) -> Self {
        arbitrary()
    }
}

impl From<&'static str> for Body {
    fn from(value: &'static str) -> (r: Self)
        ensures
            r.follows(BodyPlan::Fixed(text(value@)), None),
    {
        Body::new_once(Some(Ok(buffer_from_static(value.as_bytes()))))
    }
}

impl vstd::std_specs::convert::FromSpecImpl<&'static str> for Body {
    open spec fn obeys_from_spec() -> bool {
        false
    }

    open spec fn from_spec(value: &'static str) -> Self {
        arbitrary()
    }
}

impl From<Vec<u8>> for Body {
    fn from(value: Vec<u8>) -> (r: Self)
        ensures
            r.follows(BodyPlan::Fixed(value@), None),
    {
        Body::new_once(Some(Ok(buffer_from_vec(value))))
    }
}

impl vstd::std_specs::convert::FromSpecImpl<Vec<u8>> for Body {
    open spec fn obeys_from_spec() -> bool {
        false
    }

    open spec fn from_spec(value: Vec<u8>) -> Self {
        arbitrary()
    }
}

impl From<String> for Body {
    fn from(value: String) -> (r: Self)
        ensures
            r.follows(BodyPlan::Fixed(text(value@)), None),
    {
        Body::new_once(Some(Ok(buffer_from_vec(to_vec(value.as_str().as_bytes())))))
    }
}

impl vstd::std_specs::convert::FromSpecImpl<String> for Body {
    open spec fn obeys_from_spec() -> bool {
        false
    }

    open spec fn from_spec(value: String) -> Self {
        arbitrary()
    }
}

/// A body that waits for a part of a file sends nothing until that has been read. It then sends
/// what was read, and fails if that has failed.
pub proof fn a_body_waits_for_the_file(
    before: BodyStream,
    read: Option<Result<Bytes, Error>>,
    after: BodyStream,
    r: StreamPoll,
    file: Seq<u8>,
)
    requires
        before.is_exact(file),
        before.wants() is Some,
        is_honest(before.wants(), read, file),
        before.polled(read, after, r),
    ensures
        match read {
            None => r is Pending && after.left(file) == before.left(file),
            Some(Ok(d)) => r == StreamPoll::Data(d),
            Some(Err(e)) => r == StreamPoll::Failed(StreamError::Io(e)),
        },
{
    match before {
        BodyStream::Once { .. } => {},
        BodyStream::ExactLen { range: s } => {
            let t = after->range;
            lemma_exact_poll(s, read, t, r);
        },
        BodyStream::Multipart { parts: s } => {
            let t = after->parts;
            assert(s@.settled() == s@.phase);
        },
    }
}

/// A body that does not wait for a file and has bytes to send sends some at once, if it has not
/// failed before.
pub proof fn a_body_goes_on_by_itself(
    before: BodyStream,
    after: BodyStream,
    r: StreamPoll,
    file: Seq<u8>,
)
    requires
        before.is_exact(file),
        before.wants() is None,
        before.left(file).len() > 0,
        file.len() <= usize::MAX,
        match before {
            BodyStream::Once { chunk } => chunk matches Some(c) && c is Ok,
            BodyStream::ExactLen { range: s } => content_or(s.reader.content.bytes(), file).len()
                <= usize::MAX,
            BodyStream::Multipart { parts: s } => content_or(s@.content, file).len() <= usize::MAX,
        },
        before.polled(None, after, r),
    ensures
        r is Data,
{
    match before {
        BodyStream::Once { .. } => {},
        BodyStream::ExactLen { range: s } => {
            let t = after->range;
            lemma_exact_poll(s, None, t, r);
        },
        BodyStream::Multipart { parts: s } => {
            if let Phase::Content(i, pos) = s@.phase {
                assert(s@.ranges[i].end <= content_or(s@.content, file).len());
            }
        },
    }
}

/// A multipart body that has failed is over: nothing is left of it, and it says so from then on.
pub proof fn a_failed_multipart_body_is_over(
    before: MultipartView,
    read: Option<Result<Bytes, Error>>,
    after: MultipartView,
    r: StreamPoll,
    next_read: Option<Result<Bytes, Error>>,
    next: MultipartView,
    next_r: StreamPoll,
)
    requires
        before.polled(read, after, r),
        r is Failed,
        after.polled(next_read, next, next_r),
    ensures
        after.left_len() == 0,
        next_r is End,
        next.left_len() == 0,
{
}

} // verus!
