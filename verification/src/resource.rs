//! Static HTTP resources: content, response headers, and the metadata that
//! conditional requests are checked against.

use crate::buffer::{buffer_bytes, buffer_from_vec, buffer_slice, buffer_slice_ref};
use crate::etag::{etag_text, optional_value, ETag};
use crate::file_info::FileInfo;
use crate::headers::{
    all_fields, clone_map, extend_map, field_name, field_value, first_value, get_field,
    header_entries, insert_field, method_name, static_name, status_number, with_field, with_values,
    MAX_FIELD_NAMES,
};
use crate::io::{io_error_kind, io_error_message, new_error, IoErrorKind};
use crate::serving::{can_serve, is_servable, response_to, serve, Response, MAX_RESOURCE_FIELDS};
use crate::stream::{as_u64, StreamError, StreamPoll};
use crate::text::{text, to_vec};
use bytes::Bytes;
use http::{HeaderMap, HeaderName, HeaderValue, Method, StatusCode};
use std::io::Error;
use std::ops::Range;
use std::time::SystemTime;
use vstd::prelude::*;

verus! {

/// Content is read in chunks of at most this size, which is a tradeoff between
/// memory usage and the number of reads.
pub const CHUNK_SIZE: u64 = 65_536;

/// Where the content of a resource is.
pub enum ResourceContent {
    /// In a file, which whoever serves the resource holds open.
    File,
    /// In memory.
    Memory(Bytes),
}

/// The outcome of reading a range of the content, as far as it is known here.
pub enum RangeRead {
    /// The bytes of the range.
    Memory(Bytes),
    /// The bytes are to be read from the file.
    File {
        /// Where to begin.
        offset: u64,
        /// How many bytes to ask for.
        len: usize,
    },
}

/// What is wrong with a request for a range of content, if anything.
pub open spec fn range_fault(content: Option<Seq<u8>>, range: Range<u64>) -> Option<
    (IoErrorKind, Seq<char>),
> {
    if range.start > usize::MAX {
        Some((IoErrorKind::InvalidInput, "range start cannot fit in usize"@))
    } else if range.end > usize::MAX {
        Some((IoErrorKind::InvalidInput, "range end cannot fit in usize"@))
    } else if range.start > range.end {
        Some((IoErrorKind::InvalidInput, "range start is greater than range end"@))
    } else {
        match content {
            Some(bytes) if range.end > bytes.len() => Some(
                (IoErrorKind::UnexpectedEof, "range exceeds bytes length"@),
            ),
            _ => None,
        }
    }
}

/// Whether an I/O error is of the given kind and was made with the given message.
pub open spec fn is_fault(err: Error, fault: (IoErrorKind, Seq<char>)) -> bool {
    io_error_kind(err) == fault.0 && io_error_message(err) == Some(fault.1)
}

/// Makes an I/O error of the given kind and with the given message.
fn fault(kind: IoErrorKind, msg: &str) -> (r: Error)
    ensures
        is_fault(r, (kind, msg@)),
{
    new_error(kind, String::from_str(msg))
}

impl ResourceContent {
    /// The bytes, if they are in memory.
    pub open spec fn bytes(self) -> Option<Seq<u8>> {
        match self {
            ResourceContent::File => None,
            ResourceContent::Memory(b) => Some(buffer_bytes(b)),
        }
    }

    /// Another handle to the same content.
    pub fn duplicate(&self) -> (r: Self)
        ensures
            r.bytes() == self.bytes(),
    {
        match self {
            ResourceContent::File => ResourceContent::File,
            ResourceContent::Memory(b) => ResourceContent::Memory(b.clone()),
        }
    }

    /// Reads a range of the content.
    pub fn read_range(&self, range: Range<u64>) -> (r: Result<RangeRead, Error>)
        ensures
            match range_fault(self.bytes(), range) {
                Some(fault) => r matches Err(e) && is_fault(e, fault),
                None => match self.bytes() {
                    None => r == Ok::<RangeRead, Error>(
                        RangeRead::File {
                            offset: range.start,
                            len: (range.end - range.start) as usize,
                        },
                    ),
                    Some(bytes) => r matches Ok(RangeRead::Memory(b)) && buffer_bytes(b)
                        == bytes.subrange(range.start as int, range.end as int),
                },
            },
    {
        if range.start > usize::MAX as u64 {
            return Err(fault(IoErrorKind::InvalidInput, "range start cannot fit in usize"));
        }
        if range.end > usize::MAX as u64 {
            return Err(fault(IoErrorKind::InvalidInput, "range end cannot fit in usize"));
        }
        let start = range.start as usize;
        let end = range.end as usize;
        if start > end {
            return Err(fault(IoErrorKind::InvalidInput, "range start is greater than range end"));
        }
        match self {
            ResourceContent::File => Ok(RangeRead::File { offset: range.start, len: end - start }),
            ResourceContent::Memory(bytes) => {
                if end > bytes.len() {
                    return Err(fault(IoErrorKind::UnexpectedEof, "range exceeds bytes length"));
                }
                Ok(RangeRead::Memory(buffer_slice(bytes, start, end)))
            },
        }
    }
}

/// The least of two numbers.
pub open spec fn least(a: u64, b: u64) -> u64 {
    if a <= b {
        a
    } else {
        b
    }
}

/// The part of `start..end` that is read next.
pub open spec fn chunk(start: u64, end: u64) -> Range<u64> {
    Range { start, end: (start + least(CHUNK_SIZE, (end - start) as u64)) as u64 }
}

/// Whether `poll` is what comes of reading a chunk of content: the bytes, if they
/// are in memory; what the file held, once it has been read; an error, if the
/// chunk cannot be read.
pub open spec fn is_chunk_read(
    content: Option<Seq<u8>>,
    range: Range<u64>,
    read: Option<Result<Bytes, Error>>,
    poll: StreamPoll,
) -> bool {
    match range_fault(content, range) {
        Some(fault) => poll matches StreamPoll::Failed(StreamError::Io(e)) && is_fault(e, fault),
        None => match content {
            Some(bytes) => poll matches StreamPoll::Data(d) && buffer_bytes(d) == bytes.subrange(
                range.start as int,
                range.end as int,
            ),
            None => match read {
                None => poll is Pending,
                Some(Ok(d)) => poll == StreamPoll::Data(d),
                Some(Err(e)) => poll == StreamPoll::Failed(StreamError::Io(e)),
            },
        },
    }
}

/// Hands out a range of content chunk by chunk.
pub struct RangeReader {
    /// The content.
    pub content: ResourceContent,
    /// Where the next chunk begins.
    pub start: u64,
    /// Where the range ends.
    pub end: u64,
}

impl RangeReader {
    /// Whether a file has to be read before the reader can go on, and which part of
    /// it.
    pub open spec fn wants(self) -> Option<Range<u64>> {
        if self.content is File && self.start < self.end && chunk(self.start, self.end).end
            <= usize::MAX {
            Some(chunk(self.start, self.end))
        } else {
            None
        }
    }

    /// The part of the file that has to be read before the reader can go on.
    pub fn next_read(&self) -> (r: Option<Range<u64>>)
        requires
            self.start <= self.end,
        ensures
            r == self.wants(),
    {
        if self.start == self.end {
            return None;
        }
        let size: u64 = if self.end - self.start < CHUNK_SIZE {
            self.end - self.start
        } else {
            CHUNK_SIZE
        };
        let end: u64 = self.start + size;
        match self.content {
            ResourceContent::Memory(_) => None,
            ResourceContent::File => if end <= usize::MAX as u64 {
                Some(Range { start: self.start, end })
            } else {
                None
            },
        }
    }

    /// Hands out the next chunk. `read` is what reading the file has given, if it has
    /// been read.
    pub fn poll_next(&mut self, read: Option<Result<Bytes, Error>>) -> (r: StreamPoll)
        requires
            old(self).start <= old(self).end,
            read matches Some(Ok(d)) ==> old(self).wants() matches Some(w) && buffer_bytes(d).len()
                <= w.end - w.start,
        ensures
            final(self).content == old(self).content,
            final(self).end == old(self).end,
            final(self).start == old(self).start + r.data().len(),
            final(self).start <= final(self).end,
            if old(self).start == old(self).end {
                r is End
            } else {
                is_chunk_read(
                    old(self).content.bytes(),
                    chunk(old(self).start, old(self).end),
                    read,
                    r,
                )
            },
    {
        if self.start == self.end {
            return StreamPoll::End;
        }
        let size: u64 = if self.end - self.start < CHUNK_SIZE {
            self.end - self.start
        } else {
            CHUNK_SIZE
        };
        let outcome: Result<Bytes, Error> = match self.content.read_range(
            Range { start: self.start, end: self.start + size },
        ) {
            Ok(RangeRead::Memory(b)) => Ok(b),
            Ok(RangeRead::File { .. }) => match read {
                None => {
                    return StreamPoll::Pending;
                },
                Some(res) => res,
            },
            Err(e) => Err(e),
        };
        match outcome {
            Ok(d) => {
                self.start = self.start + as_u64(d.len());
                StreamPoll::Data(d)
            },
            Err(e) => StreamPoll::Failed(StreamError::Io(e)),
        }
    }
}

/// The 64-bit hash of some content, as computed by `rapidhash`.
pub uninterp spec fn rapid_hash(data: Seq<u8>) -> u64;

/// Hashes content with `rapidhash::v3::rapidhash_v3_file`, whose result depends on
/// the bytes only. It fails only where reading fails, and reading from a slice
/// does not.
#[verifier::external_body]
pub(crate) fn hash_content(data: &[u8]) -> (r: Option<u64>)
    ensures
        r == Some(rapid_hash(data@)),
{
    rapidhash::v3::rapidhash_v3_file(data).ok()
}

/// What a resource is made of.
#[verifier::ext_equal]
pub struct ResourceView {
    /// The length of the content.
    pub len: u64,
    /// The last modification time.
    pub mtime: SystemTime,
    /// The content, if it is in memory.
    pub content: Option<Seq<u8>>,
    /// The response headers.
    pub headers: Seq<(Seq<char>, Seq<Seq<u8>>)>,
    /// The entity tag, if there is one.
    pub etag: Option<ETag>,
}

impl ResourceView {
    /// Content in memory has the length of the resource.
    pub open spec fn wf(self) -> bool {
        self.content matches Some(bytes) ==> bytes.len() == self.len
    }
}

/// Builds a [`Resource`].
pub struct ResourceBuilder {
    len: u64,
    mtime: SystemTime,
    content: ResourceContent,
    headers: HeaderMap<HeaderValue>,
    etag: Option<ETag>,
}

impl View for ResourceBuilder {
    type V = ResourceView;

    closed spec fn view(&self) -> ResourceView {
        ResourceView {
            len: self.len,
            mtime: self.mtime,
            content: self.content.bytes(),
            headers: header_entries(self.headers),
            etag: self.etag,
        }
    }
}

impl ResourceBuilder {
    /// Starts a resource whose content is in a file with the given metadata. The
    /// hash is that of the content of the file.
    pub fn for_file(file_info: FileInfo, hash: Option<u64>) -> (r: Self)
        ensures
            r@ == (ResourceView {
                len: file_info.len,
                mtime: file_info.mtime,
                content: None,
                headers: Seq::empty(),
                etag: match hash {
                    Some(h) => Some(ETag(h)),
                    None => None,
                },
            }),
            r@.wf(),
    {
        ResourceBuilder {
            len: file_info.len(),
            mtime: file_info.mtime(),
            content: ResourceContent::File,
            headers: HeaderMap::new(),
            etag: match hash {
                Some(h) => Some(ETag::from(h)),
                None => None,
            },
        }
    }

    /// Starts a resource whose content is in memory. The `mtime` is used for
    /// conditional requests.
    pub fn for_bytes(bytes: Bytes, mtime: SystemTime) -> (r: Self)
        ensures
            r@ == (ResourceView {
                len: buffer_bytes(bytes).len() as u64,
                mtime,
                content: Some(buffer_bytes(bytes)),
                headers: Seq::empty(),
                etag: Some(ETag(rapid_hash(buffer_bytes(bytes)))),
            }),
            r@.wf(),
    {
        let etag = match hash_content(buffer_slice_ref(&bytes)) {
            Some(h) => Some(ETag::from(h)),
            None => None,
        };
        ResourceBuilder {
            len: as_u64(bytes.len()),
            mtime,
            content: ResourceContent::Memory(bytes),
            headers: HeaderMap::new(),
            etag,
        }
    }

    /// Starts a resource whose content is a string.
    pub fn for_str(value: &str, mtime: SystemTime) -> (r: Self)
        ensures
            r@ == (ResourceView {
                len: text(value@).len() as u64,
                mtime,
                content: Some(text(value@)),
                headers: Seq::empty(),
                etag: Some(ETag(rapid_hash(text(value@)))),
            }),
            r@.wf(),
    {
        ResourceBuilder::for_bytes(buffer_from_vec(to_vec(value.as_bytes())), mtime)
    }

    /// Adds or replaces one response header.
    pub fn header(self, name: HeaderName, value: HeaderValue) -> (r: Self)
        requires
            self@.headers.len() <= MAX_FIELD_NAMES,
        ensures
            r@ == (ResourceView {
                headers: with_field(self@.headers, field_name(name), field_value(value)),
                ..self@
            }),
    {
        let mut builder = self;
        insert_field(&mut builder.headers, name, value);
        builder
    }

    /// Sets the `Content-Type` response header.
    pub fn content_type(self, value: HeaderValue) -> (r: Self)
        requires
            self@.headers.len() <= MAX_FIELD_NAMES,
        ensures
            r@ == (ResourceView {
                headers: with_field(self@.headers, "content-type"@, field_value(value)),
                ..self@
            }),
    {
        proof {
            reveal_strlit("content-type");
        }
        self.header(static_name("content-type"), value)
    }

    /// Builds the resource.
    pub fn build(self) -> (r: Resource)
        ensures
            r@ == self@,
    {
        Resource {
            len: self.len,
            mtime: self.mtime,
            content: self.content,
            headers: self.headers,
            etag: self.etag,
        }
    }
}

/// A static HTTP resource: content, response headers, entity tag and last
/// modification time.
pub struct Resource {
    /// The length of the content in bytes.
    pub len: u64,
    /// The last modification time.
    pub mtime: SystemTime,
    /// Where the content is.
    pub content: ResourceContent,
    /// The response headers to send along when serving this resource.
    pub headers: HeaderMap<HeaderValue>,
    /// The entity tag of the content, if any.
    pub etag: Option<ETag>,
}

impl View for Resource {
    type V = ResourceView;

    open spec fn view(&self) -> ResourceView {
        ResourceView {
            len: self.len,
            mtime: self.mtime,
            content: self.content.bytes(),
            headers: header_entries(self.headers),
            etag: self.etag,
        }
    }
}

impl Resource {
    /// A resource for a file whose metadata has been read already. The headers are
    /// sent along whenever the file is served.
    pub fn for_file_with_metadata(
        file_info: FileInfo,
        headers: HeaderMap<HeaderValue>,
        etag: Option<ETag>,
    ) -> (r: Self)
        ensures
            r@ == (ResourceView {
                len: file_info.len,
                mtime: file_info.mtime,
                content: None,
                headers: header_entries(headers),
                etag,
            }),
            r@.wf(),
    {
        Resource {
            len: file_info.len(),
            mtime: file_info.mtime(),
            content: ResourceContent::File,
            headers,
            etag,
        }
    }

    /// Returns the value of the response header with the given name, if it exists.
    pub fn header(&self, name: &HeaderName) -> (r: Option<&HeaderValue>)
        ensures
            match r {
                Some(v) => first_value(self@.headers, field_name(*name)) == Some(field_value(*v)),
                None => first_value(self@.headers, field_name(*name)) is None,
            },
    {
        get_field(&self.headers, name)
    }

    /// Serves this resource as the response to a request. `now` is the time of the response.
    pub fn serve_request(
        self,
        method: &Method,
        req_hdrs: &HeaderMap<HeaderValue>,
        status: StatusCode,
        now: SystemTime,
    ) -> (r: Response)
        requires
            self@.wf(),
            self@.headers.len() <= MAX_RESOURCE_FIELDS,
            is_servable(method_name(*method), header_entries(*req_hdrs), self@, now),
        ensures
            r.is(
                response_to(
                    method_name(*method),
                    header_entries(*req_hdrs),
                    self@,
                    status_number(status),
                    now,
                ),
                self@.content,
            ),
    {
        serve(self, method, req_hdrs, status, now)
    }

    /// Serves this resource as the response to a request, unless a date would have to be
    /// written that has no HTTP form.
    pub fn try_serve_request(
        self,
        method: &Method,
        req_hdrs: &HeaderMap<HeaderValue>,
        status: StatusCode,
        now: SystemTime,
    ) -> (r: Option<Response>)
        requires
            self@.wf(),
            self@.headers.len() <= MAX_RESOURCE_FIELDS,
        ensures
            match r {
                Some(resp) => is_servable(
                    method_name(*method),
                    header_entries(*req_hdrs),
                    self@,
                    now,
                ) && resp.is(
                    response_to(
                        method_name(*method),
                        header_entries(*req_hdrs),
                        self@,
                        status_number(status),
                        now,
                    ),
                    self@.content,
                ),
                None => !is_servable(
                    method_name(*method),
                    header_entries(*req_hdrs),
                    self@,
                    now,
                ),
            },
    {
        if can_serve(&self, method, req_hdrs, now) {
            Some(self.serve_request(method, req_hdrs, status, now))
        } else {
            None
        }
    }

    /// Returns the length of the content in bytes.
    pub fn len(&self) -> (r: u64)
        ensures
            r == self@.len,
    {
        self.len
    }

    /// Returns true if the content is empty.
    pub fn is_empty(&self) -> (r: bool)
        ensures
            r == (self@.len == 0),
    {
        self.len == 0
    }

    /// Returns the last modification time.
    pub fn mtime(&self) -> (r: SystemTime)
        ensures
            r == self@.mtime,
    {
        self.mtime
    }

    /// Reads the complete content. Of content in a file, this says what to read, unless the
    /// file is empty.
    pub fn read_bytes(&self) -> (r: RangeRead)
        requires
            self@.len <= usize::MAX,
        ensures
            match self@.content {
                Some(bytes) => r matches RangeRead::Memory(b) && buffer_bytes(b) == bytes,
                None => if self@.len == 0 {
                    r matches RangeRead::Memory(b) && buffer_bytes(b).len() == 0
                } else {
                    r == (RangeRead::File { offset: 0, len: self@.len as usize })
                },
            },
    {
        match &self.content {
            ResourceContent::File => if self.len == 0 {
                RangeRead::Memory(buffer_from_vec(Vec::new()))
            } else {
                RangeRead::File { offset: 0, len: self.len as usize }
            },
            ResourceContent::Memory(bytes) => RangeRead::Memory(bytes.clone()),
        }
    }

    /// Moves the content into memory. Of content in a file, `data` is what the file
    /// holds; it is refused if it is not as long as the resource.
    pub fn with_bytes_storage(self, data: Bytes) -> (r: Result<Resource, Error>)
        ensures
            match self@.content {
                Some(_) => r matches Ok(res) && res@ == self@,
                None => if buffer_bytes(data).len() == self@.len {
                    r matches Ok(res) && res@ == (ResourceView {
                        content: Some(buffer_bytes(data)),
                        ..self@
                    })
                } else {
                    r matches Err(e) && is_fault(
                        e,
                        (IoErrorKind::UnexpectedEof, "file length has changed"@),
                    )
                },
            },
    {
        let mut resource = self;
        match resource.content {
            ResourceContent::Memory(_) => Ok(resource),
            ResourceContent::File => {
                if as_u64(data.len()) != resource.len {
                    return Err(fault(IoErrorKind::UnexpectedEof, "file length has changed"));
                }
                resource.content = ResourceContent::Memory(data);
                Ok(resource)
            },
        }
    }

    /// Reads a range of the content chunk by chunk.
    pub fn get_range(&self, range: Range<u64>) -> (r: RangeReader)
        ensures
            r.content.bytes() == self@.content,
            r.start == range.start,
            r.end == range.end,
    {
        RangeReader { content: self.content.duplicate(), start: range.start, end: range.end }
    }

    /// Adds the response headers of this resource to others.
    pub fn add_headers(&self, h: &mut HeaderMap<HeaderValue>)
        requires
            header_entries(*old(h)).len() + self@.headers.len() <= MAX_FIELD_NAMES,
        ensures
            header_entries(*final(h)) == with_values(
                header_entries(*old(h)),
                all_fields(self@.headers),
            ),
    {
        extend_map(h, &self.headers);
    }

    /// The value of the `ETag` response header, if there is one.
    pub fn etag(&self) -> (r: Option<HeaderValue>)
        ensures
            optional_value(r) == (match self@.etag {
                Some(e) => Some(etag_text(e)),
                None => None,
            }),
    {
        match self.etag {
            Some(e) => Some(HeaderValue::from(e)),
            None => None,
        }
    }

    /// The last modification time. Every resource has one.
    pub fn last_modified(&self) -> (r: Option<SystemTime>)
        ensures
            r == Some(self@.mtime),
    {
        Some(self.mtime)
    }
}

impl Clone for Resource {
    fn clone(&self) -> (r: Self)
        ensures
            r@ == self@,
    {
        Resource {
            len: self.len,
            mtime: self.mtime,
            content: self.content.duplicate(),
            headers: clone_map(&self.headers),
            etag: self.etag,
        }
    }
}

/// A range of content can be read if and only if it does not end before it begins, and lies
/// within the content, as far as that is known.
pub proof fn ranges_within_the_content_can_be_read(content: Option<Seq<u8>>, range: Range<u64>)
    requires
        range.start <= usize::MAX,
        range.end <= usize::MAX,
    ensures
        range_fault(content, range) is None <==> range.start <= range.end && (content matches Some(
            bytes,
        ) ==> range.end <= bytes.len()),
        range_fault(content, range) matches Some(fault) ==> fault.0 == (if range.start
            > range.end {
            IoErrorKind::InvalidInput
        } else {
            IoErrorKind::UnexpectedEof
        }),
{
}

/// Content is read in chunks: each begins where the last one ended, holds at least one byte and
/// at most 65536, and is cut short only by the end of the range.
pub proof fn chunks_follow_each_other(start: u64, end: u64)
    requires
        start < end,
    ensures
        chunk(start, end).start == start,
        start < chunk(start, end).end <= end,
        chunk(start, end).end - start <= 65_536,
        chunk(start, end).end < end ==> chunk(start, end).end - start == 65_536,
{
}

} // verus!
