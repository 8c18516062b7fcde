//! Serving a resource: conditional requests, range requests, and the response
//! head.

use crate::body::{parts_len, ranges_ordered, Body, BodyPlan};
use crate::clock::{
    has_http_date, http_date_seconds, http_date_text, is_http_time, is_since_epoch, not_later,
    unix_nanos, unix_seconds, unix_seconds_of,
};
use crate::etag::{
    any_match, any_match_of, etag_text, none_match, none_match_of, optional_value, strong_eq,
    strongly_equal,
};
use crate::headers::{
    all_fields, field_value, fields, first_value, get_named, header_entries, lemma_visible_text,
    lemma_with_values_concat, lemma_with_values_push, list_fields, method_name, push_field,
    same_text, static_value, status_code, status_number, value_from_bytes, with_values,
};
use crate::range::{
    are_ranges_of, borrowed_value, is_range_of, parse, ranges_lie_within_the_entity,
    requested_ranges, ResolvedRanges,
};
use crate::resource::{Resource, ResourceView};
use crate::stream::as_u64;
use crate::text::{
    all_visible, decimal, has_prefix, lemma_decimal_visible, lemma_text_ascii, lemma_visible_concat,
    push_bytes, push_decimal, starts_with, text,
};
use http::{HeaderMap, HeaderValue, Method, StatusCode};
use std::ops::Range;
use std::time::SystemTime;
use vstd::prelude::*;

verus! {

/// The most header names that a resource may have for it to be served.
pub const MAX_RESOURCE_FIELDS: usize = 6_545;

/// The second that an HTTP date stands for, as the value of a header. `None` if the
/// value is not a date.
pub open spec fn date_of(value: Seq<u8>) -> Option<nat> {
    if all_visible(value) {
        http_date_seconds(vstd::utf8::decode_utf8(value))
    } else {
        None
    }
}

/// Whether the preconditions `If-Match` and `If-Unmodified-Since` fail for a resource
/// with the given tag and modification second. An error if one cannot be understood.
pub open spec fn precondition_fails(
    etag: Option<Seq<u8>>,
    last_modified: Option<nat>,
    req: Seq<(Seq<char>, Seq<Seq<u8>>)>,
) -> Result<bool, Seq<char>> {
    match any_match_of(etag, first_value(req, "if-match"@)) {
        None => Err("Unparseable If-Match header"@),
        Some(false) => Ok(true),
        Some(true) => match (last_modified, first_value(req, "if-unmodified-since"@)) {
            (Some(m), Some(since)) => match date_of(since) {
                None => Err("Unparseable If-Unmodified-Since"@),
                Some(d) => Ok(m > d),
            },
            _ => Ok(false),
        },
    }
}

/// Whether `If-None-Match` and `If-Modified-Since` say that the client has the resource
/// already. `If-Modified-Since` counts only where `If-None-Match` says nothing. An error
/// if it cannot be understood.
pub open spec fn is_unmodified(
    etag: Option<Seq<u8>>,
    last_modified: Option<nat>,
    req: Seq<(Seq<char>, Seq<Seq<u8>>)>,
) -> Result<bool, Seq<char>> {
    match none_match_of(etag, first_value(req, "if-none-match"@)) {
        Some(no_match) => Ok(!no_match),
        None => match (last_modified, first_value(req, "if-modified-since"@)) {
            (Some(m), Some(since)) => match date_of(since) {
                None => Err("Unparseable If-Modified-Since"@),
                Some(d) => Ok(m <= d),
            },
            _ => Ok(false),
        },
    }
}

/// The second of an optional point in time.
pub open spec fn optional_second(t: Option<SystemTime>) -> Option<nat> {
    match t {
        Some(m) => Some(unix_seconds_of(m)),
        None => None,
    }
}

/// Reads a header value as an HTTP date.
fn parse_date(value: &HeaderValue) -> (r: Option<SystemTime>)
    ensures
        match r {
            Some(t) => date_of(field_value(*value)) == Some(unix_seconds_of(t)),
            None => date_of(field_value(*value)) is None,
        },
{
    match value.to_str() {
        Err(_) => None,
        Ok(s) => {
            proof {
                vstd::utf8::encode_utf8_decode_utf8(s@);
            }
            match httpdate::parse_http_date(s) {
                Ok(t) => Some(t),
                Err(_) => None,
            }
        },
    }
}

/// Evaluates the conditional headers of a request: whether a precondition fails, and
/// whether the client has the resource already.
pub fn parse_modified_hdrs(
    etag: &Option<HeaderValue>,
    req_hdrs: &HeaderMap<HeaderValue>,
    last_modified: Option<SystemTime>,
) -> (r: Result<(bool, bool), &'static str>)
    ensures
        match precondition_fails(
            optional_value(*etag),
            optional_second(last_modified),
            header_entries(*req_hdrs),
        ) {
            Err(msg) => r matches Err(m) && m@ == msg,
            Ok(failed) => match is_unmodified(
                optional_value(*etag),
                optional_second(last_modified),
                header_entries(*req_hdrs),
            ) {
                Err(msg) => r matches Err(m) && m@ == msg,
                Ok(unmodified) => r == Ok::<(bool, bool), &'static str>((failed, unmodified)),
            },
        },
{
    proof {
        reveal_strlit("if-unmodified-since");
        reveal_strlit("if-modified-since");
    }
    let matched = match any_match(etag, req_hdrs) {
        Err(e) => {
            return Err(e);
        },
        Ok(b) => b,
    };
    let precondition_failed = if !matched {
        true
    } else {
        match (last_modified, get_named(req_hdrs, "if-unmodified-since")) {
            (Some(m), Some(since)) => match parse_date(since) {
                None => {
                    return Err("Unparseable If-Unmodified-Since");
                },
                Some(d) => unix_seconds(m) > unix_seconds(d),
            },
            _ => false,
        }
    };
    let not_modified = match none_match(etag, req_hdrs) {
        Some(no_match) => !no_match,
        None => match (last_modified, get_named(req_hdrs, "if-modified-since")) {
            (Some(m), Some(since)) => match parse_date(since) {
                None => {
                    return Err("Unparseable If-Modified-Since");
                },
                Some(d) => unix_seconds(m) <= unix_seconds(d),
            },
            _ => false,
        },
    };
    Ok((precondition_failed, not_modified))
}

/// The value of a `Content-Range` header, without the unit: the first and the last
/// position, and the length of the whole.
pub open spec fn range_text(range: Range<u64>, len: u64) -> Seq<u8> {
    decimal(range.start as nat) + text("-"@) + decimal((range.end - 1) as nat) + text("/"@)
        + decimal(len as nat)
}

/// Header fields as they stand in a message, a line each.
pub open spec fn field_lines(list: Seq<(Seq<char>, Seq<u8>)>) -> Seq<u8>
    decreases list.len(),
{
    if list.len() == 0 {
        Seq::empty()
    } else {
        field_lines(list.drop_last()) + text(list.last().0) + text(": "@) + list.last().1 + text(
            "\r\n"@,
        )
    }
}

/// What precedes the content of a part: the boundary, the range, and further header
/// lines.
pub open spec fn part_header(range: Range<u64>, len: u64, lines: Seq<u8>) -> Seq<u8> {
    text("\r\n--B\r\nContent-Range: bytes "@) + range_text(range, len) + text("\r\n"@) + lines
        + text("\r\n"@)
}

/// What precedes the content of each part.
pub open spec fn part_headers(ranges: Seq<Range<u64>>, len: u64, lines: Seq<u8>) -> Seq<Seq<u8>> {
    ranges.map_values(|r: Range<u64>| part_header(r, len, lines))
}

/// An estimate of the length of a `multipart/byteranges` body, with 80 bytes for the
/// header of each part.
pub open spec fn estimate(ranges: Seq<Range<u64>>) -> nat
    decreases ranges.len(),
{
    if ranges.len() == 0 {
        0
    } else {
        estimate(ranges.drop_last()) + 80 + (ranges.last().end - ranges.last().start) as nat
    }
}

/// An estimate does not shrink when ranges are added.
proof fn lemma_estimate_prefix(ranges: Seq<Range<u64>>, n: int)
    requires
        0 <= n <= ranges.len(),
    ensures
        estimate(ranges.take(n)) <= estimate(ranges),
    decreases ranges.len() - n,
{
    if n == ranges.len() {
        assert(ranges.take(n) =~= ranges);
    } else {
        lemma_estimate_prefix(ranges, n + 1);
        assert(ranges.take(n + 1).drop_last() =~= ranges.take(n));
    }
}

/// Whether the estimated length of a multipart body is less than `len`.
fn estimated_below(ranges: &Vec<Range<u64>>, len: u64) -> (r: bool)
    requires
        ranges_ordered(ranges@),
    ensures
        r == (estimate(ranges@) < len),
{
    let mut sum: u64 = 0;
    let mut i: usize = 0;
    assert(ranges@.take(0) =~= Seq::empty());
    while i < ranges.len()
        invariant
            i <= ranges@.len(),
            ranges_ordered(ranges@),
            sum == estimate(ranges@.take(i as int)),
        decreases ranges@.len() - i,
    {
        let size: u64 = ranges[i].end - ranges[i].start;
        proof {
            lemma_estimate_prefix(ranges@, i + 1);
            assert(ranges@.take(i + 1).drop_last() =~= ranges@.take(i as int));
            assert(ranges@.take(i + 1).last() == ranges@[i as int]);
        }
        sum = match sum.checked_add(80) {
            None => {
                return false;
            },
            Some(a) => match a.checked_add(size) {
                None => {
                    return false;
                },
                Some(b) => b,
            },
        };
        i += 1;
    }
    assert(ranges@.take(i as int) =~= ranges@);
    sum < len
}

/// Writes header fields out, a line each.
fn write_field_lines(map: &HeaderMap<HeaderValue>) -> (r: Vec<u8>)
    ensures
        r@ == field_lines(all_fields(header_entries(*map))),
{
    let list = list_fields(map);
    let ghost all = all_fields(header_entries(*map));
    let mut buf: Vec<u8> = Vec::new();
    let mut i: usize = 0;
    assert(all.take(0) =~= Seq::empty());
    while i < list.len()
        invariant
            i <= list@.len(),
            all == fields(list@),
            buf@ == field_lines(all.take(i as int)),
        decreases list@.len() - i,
    {
        let ghost before = buf@;
        push_bytes(&mut buf, list[i].0.as_str().as_bytes());
        push_bytes(&mut buf, ": ".as_bytes());
        push_bytes(&mut buf, list[i].1.as_bytes());
        push_bytes(&mut buf, "\r\n".as_bytes());
        i += 1;
        proof {
            assert(all.take(i as int).drop_last() =~= all.take(i - 1));
            assert(all.take(i as int).last() == all[i - 1]);
            assert(all[i - 1] == crate::headers::field(list@[i - 1]));
        }
    }
    assert(all.take(i as int) =~= all);
    buf
}

/// Appends the text of a range to a buffer.
fn push_range(buf: &mut Vec<u8>, range: &Range<u64>, len: u64)
    requires
        range.start < range.end,
    ensures
        final(buf)@ == old(buf)@ + range_text(*range, len),
{
    push_decimal(buf, range.start);
    push_bytes(buf, "-".as_bytes());
    push_decimal(buf, range.end - 1);
    push_bytes(buf, "/".as_bytes());
    push_decimal(buf, len);
    assert(buf@ =~= old(buf)@ + range_text(*range, len));
}

/// Whether every range has at least one byte.
pub open spec fn all_nonempty(ranges: Seq<Range<u64>>) -> bool {
    forall|i: int| 0 <= i < ranges.len() ==> (#[trigger] ranges[i]).start < ranges[i].end
}

/// A multipart response that would be longer than can be announced.
pub struct MultipartLenOverflowError;

/// The parts of a `multipart/byteranges` response before the content: what precedes
/// each part, and the length of the body.
pub fn prepare_multipart(ranges: &Vec<Range<u64>>, len: u64, lines: &Vec<u8>) -> (r: Result<
    (Vec<Vec<u8>>, u64),
    MultipartLenOverflowError,
>)
    requires
        all_nonempty(ranges@),
    ensures
        match r {
            Ok((headers, total)) => {
                &&& headers@.map_values(|h: Vec<u8>| h@) == part_headers(ranges@, len, lines@)
                &&& total == parts_len(part_headers(ranges@, len, lines@), ranges@, 0)
            },
            Err(_) => parts_len(part_headers(ranges@, len, lines@), ranges@, 0) > u64::MAX,
        },
{
    let ghost all = part_headers(ranges@, len, lines@);
    let mut headers: Vec<Vec<u8>> = Vec::new();
    let mut body_len: u64 = 0;
    let mut i: usize = 0;
    while i < ranges.len()
        invariant
            i <= ranges@.len(),
            all_nonempty(ranges@),
            all == part_headers(ranges@, len, lines@),
            headers@.len() == i,
            forall|k: int| 0 <= k < i ==> (#[trigger] headers@[k])@ == all[k],
            body_len + parts_len(all, ranges@, i as int) == parts_len(all, ranges@, 0),
        decreases ranges@.len() - i,
    {
        assert(ranges@[i as int].start < ranges@[i as int].end);
        let mut buf: Vec<u8> = Vec::new();
        push_bytes(&mut buf, "\r\n--B\r\nContent-Range: bytes ".as_bytes());
        push_range(&mut buf, &ranges[i], len);
        push_bytes(&mut buf, "\r\n".as_bytes());
        push_bytes(&mut buf, lines.as_slice());
        push_bytes(&mut buf, "\r\n".as_bytes());
        assert(buf@ =~= all[i as int]);
        body_len = match body_len.checked_add(as_u64(buf.len())) {
            None => {
                return Err(MultipartLenOverflowError);
            },
            Some(l) => match l.checked_add(ranges[i].end - ranges[i].start) {
                None => {
                    return Err(MultipartLenOverflowError);
                },
                Some(l) => l,
            },
        };
        headers.push(buf);
        i += 1;
    }
    proof {
        reveal_strlit("\r\n--B--\r\n");
        lemma_text_ascii("\r\n--B--\r\n"@);
        assert(headers@.map_values(|h: Vec<u8>| h@) =~= all);
    }
    match body_len.checked_add(9) {
        None => Err(MultipartLenOverflowError),
        Some(total) => Ok((headers, total)),
    }
}

/// A response: its status, its header fields in the order in which they are added,
/// and its body.
pub struct ResponseView {
    /// The status number.
    pub status: u16,
    /// The names and values of the header fields.
    pub headers: Seq<(Seq<char>, Seq<u8>)>,
    /// What the body sends.
    pub body: BodyPlan,
}

/// A response.
pub struct Response {
    /// The status code.
    pub status: StatusCode,
    /// The header fields.
    pub headers: HeaderMap<HeaderValue>,
    /// The body.
    pub body: Body,
}

impl Response {
    /// Whether this is the response that `view` describes. Content of a resource in
    /// memory is the given one.
    pub open spec fn is(self, view: ResponseView, content: Option<Seq<u8>>) -> bool {
        &&& status_number(self.status) == view.status
        &&& header_entries(self.headers) == with_values(Seq::empty(), view.headers)
        &&& self.body.follows(view.body, content)
    }
}

/// The earlier of two points in time.
pub open spec fn earlier(a: SystemTime, b: SystemTime) -> SystemTime {
    if unix_nanos(a) <= unix_nanos(b) {
        a
    } else {
        b
    }
}

/// The HTTP date of a point in time, as the value of a header.
pub open spec fn date_value(t: SystemTime) -> Seq<u8> {
    text(http_date_text(unix_seconds_of(t)))
}

/// The text of the entity tag of a resource, if it has one.
pub open spec fn tag_of(ent: ResourceView) -> Option<Seq<u8>> {
    match ent.etag {
        Some(e) => Some(etag_text(e)),
        None => None,
    }
}

/// The header fields that every response with a resource behind it begins with. The
/// `Last-Modified` date does not exceed the `Date` (RFC 7232 section 2.2.1).
pub open spec fn validators(ent: ResourceView, now: SystemTime) -> Seq<(Seq<char>, Seq<u8>)> {
    seq![
        ("accept-ranges"@, text("bytes"@)),
        ("date"@, date_value(now)),
        ("last-modified"@, date_value(earlier(ent.mtime, now))),
    ] + match tag_of(ent) {
        Some(e) => seq![("etag"@, e)],
        None => Seq::empty(),
    }
}

/// The `Range` header of a request, unless `If-Range` says to ignore it: that is the case
/// if it names another tag than the one that the resource has now, or a date. A date never
/// matches, because the resource could have changed twice in that second.
pub open spec fn effective_range(etag: Option<Seq<u8>>, req: Seq<(Seq<char>, Seq<Seq<u8>>)>) -> Option<
    Seq<u8>,
> {
    match first_value(req, "if-range"@) {
        None => first_value(req, "range"@),
        Some(tag) => if etag matches Some(e) && strongly_equal(tag, e) {
            first_value(req, "range"@)
        } else {
            None
        },
    }
}

/// The fields that describe the content itself. A response with a part of the content
/// has them unless the client said `If-Range`, and so has them already (RFC 7233 section
/// 4.1).
pub open spec fn partial_fields(ent: ResourceView, req: Seq<(Seq<char>, Seq<Seq<u8>>)>) -> Seq<
    (Seq<char>, Seq<u8>),
> {
    if first_value(req, "if-range"@) is None {
        all_fields(ent.headers)
    } else {
        Seq::empty()
    }
}

/// A response without header fields, with a text as its body.
pub open spec fn plain(status: u16, body: Seq<char>) -> ResponseView {
    ResponseView { status, headers: Seq::empty(), body: BodyPlan::Fixed(text(body)) }
}

/// A response with the whole content.
pub open spec fn whole(ent: ResourceView, status: u16, now: SystemTime) -> ResponseView {
    ResponseView {
        status,
        headers: validators(ent, now).push(("content-length"@, decimal(ent.len as nat)))
            + all_fields(ent.headers),
        body: BodyPlan::Slice(0, ent.len as int),
    }
}

/// A response with one range of the content.
pub open spec fn one_range(
    ent: ResourceView,
    req: Seq<(Seq<char>, Seq<Seq<u8>>)>,
    range: Range<u64>,
    now: SystemTime,
) -> ResponseView {
    ResponseView {
        status: 206,
        headers: validators(ent, now).push(
            ("content-range"@, text("bytes "@) + range_text(range, ent.len)),
        ).push(("content-length"@, decimal((range.end - range.start) as nat))) + partial_fields(
            ent,
            req,
        ),
        body: BodyPlan::Slice(range.start as int, range.end as int),
    }
}

/// A response with several ranges of the content, or the refusal of one whose length
/// could not be announced.
pub open spec fn several_ranges(
    ent: ResourceView,
    req: Seq<(Seq<char>, Seq<Seq<u8>>)>,
    ranges: Seq<Range<u64>>,
    now: SystemTime,
) -> ResponseView {
    let headers = part_headers(ranges, ent.len, field_lines(partial_fields(ent, req)));
    let total = parts_len(headers, ranges, 0);
    if total > u64::MAX {
        plain(413, "Multipart response too large"@)
    } else {
        ResponseView {
            status: 206,
            headers: validators(ent, now).push(("content-length"@, decimal(total))).push(
                ("content-type"@, text("multipart/byteranges; boundary=B"@)),
            ),
            body: BodyPlan::Parts(headers, ranges),
        }
    }
}

/// The response to a request for content that the client does not have. Several ranges
/// are sent only if that is shorter than sending everything.
pub open spec fn content_response(
    ent: ResourceView,
    req: Seq<(Seq<char>, Seq<Seq<u8>>)>,
    status: u16,
    now: SystemTime,
) -> ResponseView {
    match requested_ranges(effective_range(tag_of(ent), req), ent.len) {
        None => whole(ent, status, now),
        Some(ranges) => if ranges.len() == 0 {
            ResponseView {
                status: 416,
                headers: validators(ent, now).push(
                    ("content-range"@, text("bytes */"@) + decimal(ent.len as nat)),
                ),
                body: BodyPlan::Fixed(Seq::empty()),
            }
        } else if ranges.len() == 1 {
            one_range(ent, req, ranges[0], now)
        } else if estimate(ranges) < ent.len {
            several_ranges(ent, req, ranges, now)
        } else {
            whole(ent, status, now)
        },
    }
}

/// A response with the content left out, as `HEAD` asks for.
pub open spec fn without_content(r: ResponseView) -> ResponseView {
    ResponseView {
        body: match r.body {
            BodyPlan::Fixed(bytes) => BodyPlan::Fixed(bytes),
            _ => BodyPlan::Fixed(Seq::empty()),
        },
        ..r
    }
}

/// The response to a request for a resource.
pub open spec fn response_to(
    method: Seq<char>,
    req: Seq<(Seq<char>, Seq<Seq<u8>>)>,
    ent: ResourceView,
    status: u16,
    now: SystemTime,
) -> ResponseView {
    if method != "GET"@ && method != "HEAD"@ {
        ResponseView {
            status: 405,
            headers: seq![("allow"@, text("get, head"@))],
            body: BodyPlan::Fixed(text("This resource only supports GET and HEAD."@)),
        }
    } else {
        let second = Some(unix_seconds_of(ent.mtime));
        match precondition_fails(tag_of(ent), second, req) {
            Err(msg) => plain(400, msg),
            Ok(failed) => match is_unmodified(tag_of(ent), second, req) {
                Err(msg) => plain(400, msg),
                Ok(unmodified) => if failed {
                    ResponseView {
                        status: 412,
                        headers: validators(ent, now),
                        body: BodyPlan::Fixed(text("Precondition failed"@)),
                    }
                } else if unmodified {
                    ResponseView {
                        status: 304,
                        headers: validators(ent, now),
                        body: BodyPlan::Fixed(Seq::empty()),
                    }
                } else if method == "HEAD"@ {
                    without_content(content_response(ent, req, status, now))
                } else {
                    content_response(ent, req, status, now)
                },
            },
        }
    }
}

/// Writes a point in time as the value of a header. The value can be read back.
pub fn http_date_value(t: SystemTime) -> (r: HeaderValue)
    requires
        has_http_date(t),
    ensures
        field_value(r) == date_value(t),
        date_of(date_value(t)) == Some(unix_seconds_of(t)),
{
    let s = httpdate::fmt_http_date(t);
    proof {
        lemma_visible_text(s@);
        vstd::utf8::encode_utf8_decode_utf8(s@);
    }
    value_from_bytes(s.as_str().as_bytes())
}

/// The header fields that every response with a resource behind it begins with.
fn validator_headers(ent: &Resource, now: SystemTime) -> (r: HeaderMap<HeaderValue>)
    requires
        is_datable(ent@.mtime, now),
    ensures
        header_entries(r) == with_values(Seq::empty(), validators(ent@, now)),
        header_entries(r).len() <= 4,
        date_of(date_value(earlier(ent@.mtime, now))) == Some(
            unix_seconds_of(earlier(ent@.mtime, now)),
        ),
{
    proof {
        reveal_strlit("accept-ranges");
        reveal_strlit("bytes");
        reveal_strlit("date");
        reveal_strlit("last-modified");
        reveal_strlit("etag");
    }
    let mut map: HeaderMap<HeaderValue> = HeaderMap::new();
    let ghost none: Seq<(Seq<char>, Seq<Seq<u8>>)> = Seq::empty();
    let ghost mut list: Seq<(Seq<char>, Seq<u8>)> = Seq::empty();
    push_field(&mut map, "accept-ranges", static_value("bytes"));
    proof {
        lemma_with_values_push(none, list, ("accept-ranges"@, text("bytes"@)));
        list = list.push(("accept-ranges"@, text("bytes"@)));
    }
    push_field(&mut map, "date", http_date_value(now));
    proof {
        lemma_with_values_push(none, list, ("date"@, date_value(now)));
        list = list.push(("date"@, date_value(now)));
    }
    let modified = if not_later(ent.mtime(), now) {
        ent.mtime()
    } else {
        now
    };
    push_field(&mut map, "last-modified", http_date_value(modified));
    proof {
        lemma_with_values_push(none, list, ("last-modified"@, date_value(modified)));
        list = list.push(("last-modified"@, date_value(modified)));
    }
    if let Some(e) = ent.etag() {
        let ghost tag = field_value(e);
        push_field(&mut map, "etag", e);
        proof {
            lemma_with_values_push(none, list, ("etag"@, tag));
            list = list.push(("etag"@, tag));
        }
    }
    assert(list =~= validators(ent@, now));
    map
}

/// A response without header fields, with a text as its body.
pub(crate) fn text_response(status: u16, body: &'static str) -> (r: Response)
    requires
        100 <= status <= 999,
    ensures
        forall|content: Option<Seq<u8>>| #[trigger] r.is(plain(status, body@), content),
{
    Response { status: status_code(status), headers: HeaderMap::new(), body: Body::from(body) }
}

/// The value of a header that announces a length.
fn length_value(len: u64) -> (r: HeaderValue)
    ensures
        field_value(r) == decimal(len as nat),
{
    let mut buf: Vec<u8> = Vec::new();
    push_decimal(&mut buf, len);
    proof {
        lemma_decimal_visible(len as nat);
        assert(buf@ =~= decimal(len as nat));
    }
    value_from_bytes(buf.as_slice())
}

/// The value of the `Content-Range` header of a response with one range.
fn range_value(range: &Range<u64>, len: u64) -> (r: HeaderValue)
    requires
        range.start < range.end,
    ensures
        field_value(r) == text("bytes "@) + range_text(*range, len),
{
    let mut buf: Vec<u8> = Vec::new();
    push_bytes(&mut buf, "bytes ".as_bytes());
    push_range(&mut buf, range, len);
    proof {
        reveal_strlit("bytes ");
        reveal_strlit("-");
        reveal_strlit("/");
        lemma_visible_text("bytes "@);
        lemma_visible_text("-"@);
        lemma_visible_text("/"@);
        let (a, b, c) = (
            decimal(range.start as nat),
            decimal((range.end - 1) as nat),
            decimal(len as nat),
        );
        lemma_decimal_visible(range.start as nat);
        lemma_decimal_visible((range.end - 1) as nat);
        lemma_decimal_visible(len as nat);
        lemma_visible_concat(a, text("-"@));
        lemma_visible_concat(a + text("-"@), b);
        lemma_visible_concat(a + text("-"@) + b, text("/"@));
        lemma_visible_concat(a + text("-"@) + b + text("/"@), c);
        lemma_visible_concat(text("bytes "@), range_text(*range, len));
        assert(buf@ =~= text("bytes "@) + range_text(*range, len));
    }
    value_from_bytes(buf.as_slice())
}

/// The value of the `Content-Range` header of a response that has no range to give.
fn unsatisfied_value(len: u64) -> (r: HeaderValue)
    ensures
        field_value(r) == text("bytes */"@) + decimal(len as nat),
{
    let mut buf: Vec<u8> = Vec::new();
    push_bytes(&mut buf, "bytes */".as_bytes());
    push_decimal(&mut buf, len);
    proof {
        reveal_strlit("bytes */");
        lemma_visible_text("bytes */"@);
        lemma_decimal_visible(len as nat);
        lemma_visible_concat(text("bytes */"@), decimal(len as nat));
        assert(buf@ =~= text("bytes */"@) + decimal(len as nat));
    }
    value_from_bytes(buf.as_slice())
}

/// The `Range` header of a request, unless `If-Range` says to ignore it; and whether the
/// fields that describe the content itself go with a part of it.
fn select_range<'a>(etag: &Option<HeaderValue>, req_hdrs: &'a HeaderMap<HeaderValue>) -> (r: (
    Option<&'a HeaderValue>,
    bool,
))
    requires
        optional_value(*etag) matches Some(e) ==> has_prefix(e, text("\""@)),
    ensures
        borrowed_value(r.0) == effective_range(optional_value(*etag), header_entries(*req_hdrs)),
        r.0 is Some ==> r.1 == (first_value(header_entries(*req_hdrs), "if-range"@) is None),
{
    proof {
        reveal_strlit("range");
        reveal_strlit("if-range");
    }
    let range_hdr = get_named(req_hdrs, "range");
    match get_named(req_hdrs, "if-range") {
        None => (range_hdr, true),
        Some(if_range) => {
            let if_range = if_range.as_bytes();
            if starts_with(if_range, "W/\"".as_bytes()) || starts_with(if_range, "\"".as_bytes()) {
                match etag {
                    Some(some_etag) => if strong_eq(if_range, some_etag.as_bytes()) {
                        (range_hdr, false)
                    } else {
                        (None, true)
                    },
                    None => (None, true),
                }
            } else {
                // A date. The resource could have changed twice in the supplied second, so
                // it never matches (RFC 7232 section 2.2.2).
                (None, true)
            }
        },
    }
}

/// Whether a request is for the resource as such: it is `GET` or `HEAD`, and its
/// conditional headers can be understood.
pub open spec fn is_understood(
    method: Seq<char>,
    req: Seq<(Seq<char>, Seq<Seq<u8>>)>,
    ent: ResourceView,
) -> bool {
    &&& method == "GET"@ || method == "HEAD"@
    &&& precondition_fails(tag_of(ent), Some(unix_seconds_of(ent.mtime)), req) is Ok
    &&& is_unmodified(tag_of(ent), Some(unix_seconds_of(ent.mtime)), req) is Ok
}

/// Whether the dates of a response can be written: the time of the response has an HTTP date,
/// and the modification time is not before the Unix epoch. If it is later than the response, it
/// is not written.
pub open spec fn is_datable(mtime: SystemTime, now: SystemTime) -> bool {
    unix_nanos(mtime) >= 0 && has_http_date(now)
}

/// Whether a request for a resource can be answered: the dates can be written, or none are.
pub open spec fn is_servable(
    method: Seq<char>,
    req: Seq<(Seq<char>, Seq<Seq<u8>>)>,
    ent: ResourceView,
    now: SystemTime,
) -> bool {
    is_understood(method, req, ent) ==> is_datable(ent.mtime, now)
}

/// Whether a request for a resource can be answered.
pub fn can_serve(
    ent: &Resource,
    method: &Method,
    req_hdrs: &HeaderMap<HeaderValue>,
    now: SystemTime,
) -> (r: bool)
    ensures
        r == is_servable(method_name(*method), header_entries(*req_hdrs), ent@, now),
{
    if is_http_time(now) && is_since_epoch(ent.mtime()) {
        return true;
    }
    if !same_text(method.as_str(), "GET") && !same_text(method.as_str(), "HEAD") {
        return true;
    }
    parse_modified_hdrs(&ent.etag(), req_hdrs, ent.last_modified()).is_err()
}

/// The text of an entity tag begins with a quote.
proof fn lemma_tag_is_quoted(ent: ResourceView)
    ensures
        tag_of(ent) matches Some(e) ==> has_prefix(e, text("\""@)),
{
    reveal_strlit("\"");
    lemma_text_ascii("\""@);
    if let Some(e) = tag_of(ent) {
        assert(e.take(1) =~= text("\""@));
    }
}

/// Responds with several ranges of a resource.
fn serve_several(
    ent: Resource,
    head: bool,
    map: HeaderMap<HeaderValue>,
    ranges: Vec<Range<u64>>,
    with_fields: bool,
    Ghost(req): Ghost<Seq<(Seq<char>, Seq<Seq<u8>>)>>,
    Ghost(now): Ghost<SystemTime>,
) -> (r: Response)
    requires
        header_entries(map) == with_values(Seq::empty(), validators(ent@, now)),
        header_entries(map).len() <= 4,
        ent@.headers.len() <= MAX_RESOURCE_FIELDS,
        are_ranges_of(ranges@, ent@.len),
        ranges@.len() > 0,
        with_fields == (first_value(req, "if-range"@) is None),
    ensures
        r.is(
            if head {
                without_content(several_ranges(ent@, req, ranges@, now))
            } else {
                several_ranges(ent@, req, ranges@, now)
            },
            ent@.content,
        ),
{
    proof {
        reveal_strlit("content-length");
        reveal_strlit("content-type");
        reveal_strlit("multipart/byteranges; boundary=B");
    }
    let mut map = map;
    let lines = if with_fields {
        write_field_lines(&ent.headers)
    } else {
        Vec::new()
    };
    assert(lines@ =~= field_lines(partial_fields(ent@, req)));
    assert forall|i: int| 0 <= i < ranges@.len() implies (#[trigger] ranges@[i]).start
        < ranges@[i].end by {
        assert(is_range_of(ranges@[i], ent@.len));
    }
    let (headers, total) = match prepare_multipart(&ranges, ent.len(), &lines) {
        Ok(v) => v,
        Err(_) => {
            let r = text_response(413, "Multipart response too large");
            assert(r.is(plain(413, "Multipart response too large"@), ent@.content));
            return r;
        },
    };
    push_field(&mut map, "content-length", length_value(total));
    push_field(&mut map, "content-type", static_value("multipart/byteranges; boundary=B"));
    proof {
        let none: Seq<(Seq<char>, Seq<Seq<u8>>)> = Seq::empty();
        let list = validators(ent@, now);
        let length = ("content-length"@, decimal(total as nat));
        lemma_with_values_push(none, list, length);
        lemma_with_values_push(
            none,
            list.push(length),
            ("content-type"@, text("multipart/byteranges; boundary=B"@)),
        );
        assert(ranges_ordered(ranges@)) by {
            assert forall|i: int| 0 <= i < ranges@.len() implies (#[trigger] ranges@[i]).start
                <= ranges@[i].end by {
                assert(is_range_of(ranges@[i], ent@.len));
            }
        }
    }
    assert(headers@.len() == headers@.map_values(|h: Vec<u8>| h@).len());
    let body = if head {
        Body::empty()
    } else {
        Body::new_multipart(ent.content, headers, ranges, total)
    };
    Response { status: status_code(206), headers: map, body }
}

/// Responds with one range of a resource, which may be all of it.
fn serve_one(
    ent: Resource,
    head: bool,
    map: HeaderMap<HeaderValue>,
    range: Range<u64>,
    with_fields: bool,
    status: StatusCode,
    Ghost(list): Ghost<Seq<(Seq<char>, Seq<u8>)>>,
) -> (r: Response)
    requires
        header_entries(map) == with_values(Seq::empty(), list),
        header_entries(map).len() <= 5,
        ent@.headers.len() <= MAX_RESOURCE_FIELDS,
        range.start <= range.end,
    ensures
        r.is(
            ResponseView {
                status: status_number(status),
                headers: list.push(("content-length"@, decimal((range.end - range.start) as nat)))
                    + if with_fields {
                    all_fields(ent@.headers)
                } else {
                    Seq::empty()
                },
                body: if head {
                    BodyPlan::Fixed(Seq::empty())
                } else {
                    BodyPlan::Slice(range.start as int, range.end as int)
                },
            },
            ent@.content,
        ),
{
    proof {
        reveal_strlit("content-length");
    }
    let mut map = map;
    let size: u64 = range.end - range.start;
    push_field(&mut map, "content-length", length_value(size));
    proof {
        let none: Seq<(Seq<char>, Seq<Seq<u8>>)> = Seq::empty();
        let longer = list.push(("content-length"@, decimal(size as nat)));
        lemma_with_values_push(none, list, ("content-length"@, decimal(size as nat)));
        lemma_with_values_concat(none, longer, all_fields(ent@.headers));
        assert(longer + Seq::<(Seq<char>, Seq<u8>)>::empty() =~= longer);
    }
    if with_fields {
        ent.add_headers(&mut map);
    }
    let body = if head {
        Body::empty()
    } else {
        Body::new_exact_len(size, ent.get_range(range))
    };
    Response { status, headers: map, body }
}

/// Responds to a request for content that the client does not have.
fn serve_content(
    ent: Resource,
    head: bool,
    map: HeaderMap<HeaderValue>,
    range_hdr: Option<&HeaderValue>,
    with_fields_on_range: bool,
    status: StatusCode,
    Ghost(req): Ghost<Seq<(Seq<char>, Seq<Seq<u8>>)>>,
    Ghost(now): Ghost<SystemTime>,
) -> (r: Response)
    requires
        header_entries(map) == with_values(Seq::empty(), validators(ent@, now)),
        header_entries(map).len() <= 4,
        ent@.headers.len() <= MAX_RESOURCE_FIELDS,
        borrowed_value(range_hdr) == effective_range(tag_of(ent@), req),
        range_hdr is Some ==> with_fields_on_range == (first_value(req, "if-range"@) is None),
    ensures
        r.is(
            if head {
                without_content(content_response(ent@, req, status_number(status), now))
            } else {
                content_response(ent@, req, status_number(status), now)
            },
            ent@.content,
        ),
{
    let ghost none: Seq<(Seq<char>, Seq<Seq<u8>>)> = Seq::empty();
    let ghost list = validators(ent@, now);
    let mut map = map;
    let len = ent.len();
    proof {
        reveal_strlit("content-range");
        ranges_lie_within_the_entity(borrowed_value(range_hdr), len);
    }
    match parse(range_hdr, len) {
        ResolvedRanges::Whole => {
            serve_one(ent, head, map, Range { start: 0, end: len }, true, status, Ghost(list))
        },
        ResolvedRanges::Single(range) => {
            assert(is_range_of(seq![range][0], len));
            let ghost field = ("content-range"@, text("bytes "@) + range_text(range, len));
            push_field(&mut map, "content-range", range_value(&range, len));
            proof {
                lemma_with_values_push(none, list, field);
            }
            serve_one(
                ent,
                head,
                map,
                range,
                with_fields_on_range,
                status_code(206),
                Ghost(list.push(field)),
            )
        },
        ResolvedRanges::Multiple(ranges) => {
            assert forall|i: int| 0 <= i < ranges@.len() implies (#[trigger] ranges@[i]).start
                <= ranges@[i].end by {
                assert(is_range_of(ranges@[i], len));
            }
            // Sending several ranges is worth it only if that is shorter than sending
            // everything.
            if estimated_below(&ranges, len) {
                serve_several(ent, head, map, ranges, with_fields_on_range, Ghost(req), Ghost(now))
            } else {
                serve_one(ent, head, map, Range { start: 0, end: len }, true, status, Ghost(list))
            }
        },
        ResolvedRanges::NotSatisfiable => {
            push_field(&mut map, "content-range", unsatisfied_value(len));
            proof {
                lemma_with_values_push(
                    none,
                    list,
                    ("content-range"@, text("bytes */"@) + decimal(len as nat)),
                );
            }
            Response { status: status_code(416), headers: map, body: Body::empty() }
        },
    }
}

/// Serves `GET` and `HEAD` requests for a resource, including conditional requests and
/// requests for ranges. `now` is the time of the response.
pub fn serve(
    ent: Resource,
    method: &Method,
    req_hdrs: &HeaderMap<HeaderValue>,
    status: StatusCode,
    now: SystemTime,
) -> (r: Response)
    requires
        ent@.wf(),
        ent@.headers.len() <= MAX_RESOURCE_FIELDS,
        is_servable(method_name(*method), header_entries(*req_hdrs), ent@, now),
    ensures
        r.is(
            response_to(
                method_name(*method),
                header_entries(*req_hdrs),
                ent@,
                status_number(status),
                now,
            ),
            ent@.content,
        ),
        is_understood(method_name(*method), header_entries(*req_hdrs), ent@) ==> date_of(
            date_value(earlier(ent@.mtime, now)),
        ) == Some(unix_seconds_of(earlier(ent@.mtime, now))),
{
    let head = same_text(method.as_str(), "HEAD");
    if !head && !same_text(method.as_str(), "GET") {
        proof {
            reveal_strlit("allow");
            reveal_strlit("get, head");
        }
        let mut map: HeaderMap<HeaderValue> = HeaderMap::new();
        push_field(&mut map, "allow", static_value("get, head"));
        proof {
            let field = ("allow"@, text("get, head"@));
            lemma_with_values_push(Seq::empty(), Seq::empty(), field);
            assert(Seq::empty().push(field) =~= seq![field]);
        }
        return Response {
            status: status_code(405),
            headers: map,
            body: Body::from("This resource only supports GET and HEAD."),
        };
    }
    let last_modified = ent.last_modified();
    let etag = ent.etag();
    let (precondition_failed, not_modified) = match parse_modified_hdrs(
        &etag,
        req_hdrs,
        last_modified,
    ) {
        Err(msg) => {
            let r = text_response(400, msg);
            assert(r.is(plain(400, msg@), ent@.content));
            return r;
        },
        Ok(p) => p,
    };
    proof {
        lemma_tag_is_quoted(ent@);
    }
    let (range_hdr, with_fields_on_range) = select_range(&etag, req_hdrs);
    let map = validator_headers(&ent, now);
    if precondition_failed {
        return Response {
            status: status_code(412),
            headers: map,
            body: Body::from("Precondition failed"),
        };
    }
    if not_modified {
        return Response { status: status_code(304), headers: map, body: Body::empty() };
    }
    serve_content(
        ent,
        head,
        map,
        range_hdr,
        with_fields_on_range,
        status,
        Ghost(header_entries(*req_hdrs)),
        Ghost(now),
    )
}

} // verus!
