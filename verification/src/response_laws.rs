//! What stands in a response, told by what was asked for and what the content is.

use crate::body::{
    a_plan_is_what_is_sent, content_or, lemma_parts_len, parts, parts_len, BodyPlan,
};
use crate::clock::{http_date_text, unix_nanos, unix_seconds_of};
use crate::conditional_laws::{an_unconditional_request_is_served, is_unconditional};
use crate::etag::{etag_text, etags_are_strong};
use crate::headers::{
    added_fields_can_be_looked_up, all_fields, all_have_values, entry_fields, find_entry,
    first_listed, first_value, header_entries, lemma_find_entry, lemma_find_entry_is,
    lemma_first_listed_concat, status_number,
};
use crate::laws::header_of;
use crate::range::{is_range_of, ranges_lie_within_the_entity, requested_ranges};
use crate::range_laws::{
    a_range_header_is_resolved_element_by_element, holds, is_part_for, range_header, satisfiable,
    RangeElement,
};
use crate::resource::ResourceView;
use crate::serving::{
    content_response, effective_range, estimate, field_lines, is_servable, part_header,
    part_headers, partial_fields, range_text, response_to, tag_of, validators, whole, Response,
    ResponseView,
};
use crate::text::{decimal, text, DASH, SLASH};
use std::ops::Range;
use std::time::SystemTime;
use vstd::prelude::*;

verus! {

/// Header fields as they stand in a message: a line for each, with a colon and a space between
/// its name and its value.
pub open spec fn lines_of(list: Seq<(Seq<char>, Seq<u8>)>) -> Seq<u8> {
    Seq::new(
        list.len(),
        |i: int| text(list[i].0) + text(": "@) + list[i].1 + text("\r\n"@),
    ).flatten()
}

/// The fields are written line by line.
pub proof fn each_field_is_a_line(list: Seq<(Seq<char>, Seq<u8>)>)
    ensures
        field_lines(list) == lines_of(list),
    decreases list.len(),
{
    let lines = Seq::new(
        list.len(),
        |i: int| text(list[i].0) + text(": "@) + list[i].1 + text("\r\n"@),
    );
    if list.len() > 0 {
        let shorter = list.drop_last();
        each_field_is_a_line(shorter);
        let fewer = Seq::new(
            shorter.len(),
            |i: int| text(shorter[i].0) + text(": "@) + shorter[i].1 + text("\r\n"@),
        );
        assert(lines =~= fewer.push(lines.last()));
        fewer.lemma_flatten_push(lines.last());
        assert(field_lines(list) =~= fewer.flatten() + lines.last());
    } else {
        assert(lines.flatten() =~= Seq::<u8>::empty());
    }
}

/// One part of a response with several ranges: a boundary, the range, header lines, an empty
/// line, and the bytes of the range.
pub open spec fn piece(range: Range<u64>, lines: Seq<u8>, content: Seq<u8>) -> Seq<u8> {
    text("\r\n--B\r\nContent-Range: bytes "@) + span(range, content.len()) + text("\r\n"@) + lines
        + text("\r\n"@) + content.subrange(range.start as int, range.end as int)
}

/// The first and the last position of a range, and the length of the whole.
pub open spec fn span(range: Range<u64>, len: nat) -> Seq<u8> {
    decimal(range.start as nat) + seq![DASH] + decimal((range.end - 1) as nat) + seq![SLASH]
        + decimal(len)
}

/// The body of a response with several ranges: a piece for each, in their order, and a last
/// boundary.
pub open spec fn pieces(ranges: Seq<Range<u64>>, lines: Seq<u8>, content: Seq<u8>) -> Seq<u8> {
    Seq::new(ranges.len(), |i: int| piece(ranges[i], lines, content)).flatten() + text(
        "\r\n--B--\r\n"@,
    )
}

/// The bytes of some ranges, one after the other.
pub open spec fn gathered(ranges: Seq<Range<u64>>, content: Seq<u8>) -> Seq<u8> {
    Seq::new(
        ranges.len(),
        |i: int| content.subrange(ranges[i].start as int, ranges[i].end as int),
    ).flatten()
}

/// How a dash and a slash read.
proof fn lemma_marks()
    ensures
        text("-"@) == seq![DASH],
        text("/"@) == seq![SLASH],
{
    reveal_strlit("-");
    reveal_strlit("/");
    crate::text::lemma_text_ascii("-"@);
    crate::text::lemma_text_ascii("/"@);
    assert(text("-"@) =~= seq![DASH]);
    assert(text("/"@) =~= seq![SLASH]);
}

/// The parts of a body from one on.
proof fn lemma_parts(
    ranges: Seq<Range<u64>>,
    len: u64,
    lines: Seq<u8>,
    content: Seq<u8>,
    i: int,
)
    requires
        0 <= i <= ranges.len(),
        content.len() == len,
    ensures
        parts(part_headers(ranges, len, lines), ranges, content, i) == pieces(
            ranges.skip(i),
            lines,
            content,
        ),
    decreases ranges.len() - i,
{
    let headers = part_headers(ranges, len, lines);
    let left = ranges.skip(i);
    let list = Seq::new(left.len(), |k: int| piece(left[k], lines, content));
    if i < ranges.len() {
        lemma_parts(ranges, len, lines, content, i + 1);
        lemma_marks();
        let less = ranges.skip(i + 1);
        let rest = Seq::new(less.len(), |k: int| piece(less[k], lines, content));
        assert(list.drop_first() =~= rest);
        assert(list.first() == piece(ranges[i], lines, content));
        assert(headers[i] == part_header(ranges[i], len, lines));
        let slice = content.subrange(ranges[i].start as int, ranges[i].end as int);
        assert(headers[i] + slice =~= piece(ranges[i], lines, content));
        assert(list.flatten() == list.first() + rest.flatten());
        assert(pieces(left, lines, content) =~= list.first() + pieces(less, lines, content));
    } else {
        assert(list.flatten() =~= Seq::<u8>::empty());
        assert(pieces(left, lines, content) =~= text("\r\n--B--\r\n"@));
    }
}

/// The estimate for a response with several ranges: 80 bytes for each, and their content.
proof fn lemma_estimate(ranges: Seq<Range<u64>>, content: Seq<u8>)
    requires
        forall|i: int|
            0 <= i < ranges.len() ==> (#[trigger] ranges[i]).start <= ranges[i].end
                <= content.len(),
    ensures
        estimate(ranges) == 80 * ranges.len() + gathered(ranges, content).len(),
    decreases ranges.len(),
{
    let list = Seq::new(
        ranges.len(),
        |i: int| content.subrange(ranges[i].start as int, ranges[i].end as int),
    );
    if ranges.len() > 0 {
        let shorter = ranges.drop_last();
        assert forall|i: int| 0 <= i < shorter.len() implies (#[trigger] shorter[i]).start
            <= shorter[i].end <= content.len() by {
            assert(shorter[i] == ranges[i]);
        }
        lemma_estimate(shorter, content);
        let fewer = Seq::new(
            shorter.len(),
            |i: int| content.subrange(shorter[i].start as int, shorter[i].end as int),
        );
        assert(list =~= fewer.push(list.last()));
        fewer.lemma_flatten_push(list.last());
        assert(ranges[ranges.len() - 1].start <= ranges[ranges.len() - 1].end);
    } else {
        assert(list.flatten() =~= Seq::<u8>::empty());
    }
}

/// Whether a request asks for ranges of a resource by a header made of these elements, on no
/// condition but that the resource has not changed.
pub open spec fn asks_for_ranges(
    req: Seq<(Seq<char>, Seq<Seq<u8>>)>,
    ent: ResourceView,
    parts: Seq<Seq<u8>>,
    elements: Seq<RangeElement>,
) -> bool {
    &&& is_unconditional(req)
    &&& first_value(req, "if-range"@) matches Some(sent) ==> (ent.etag matches Some(tag) && sent
        == etag_text(tag))
    &&& first_value(req, "range"@) == Some(range_header(parts))
    &&& parts.len() == elements.len() > 0
    &&& forall|i: int|
        0 <= i < parts.len() ==> (#[trigger] elements[i]).is_valid() && is_part_for(
            parts[i],
            elements[i],
        )
}

/// The fields that describe the content of a resource, for a client that does not have them.
/// One that sends `If-Range` has them.
pub open spec fn described(ent: ResourceView, req: Seq<(Seq<char>, Seq<Seq<u8>>)>) -> Seq<
    (Seq<char>, Seq<u8>),
> {
    match first_value(req, "if-range"@) {
        None => all_fields(ent.headers),
        Some(_) => Seq::empty(),
    }
}

/// Whether ranges are what those elements ask for that can be satisfied, in their order.
pub open spec fn are_asked_for(
    ranges: Seq<Range<u64>>,
    elements: Seq<RangeElement>,
    len: u64,
) -> bool {
    &&& ranges.len() == satisfiable(elements, len).len()
    &&& forall|i: int|
        0 <= i < ranges.len() ==> (#[trigger] ranges[i]).start < ranges[i].end && is_exactly(
            ranges[i],
            satisfiable(elements, len)[i],
            len,
        )
}

/// Whether a range holds what an element asks for, and nothing else.
pub open spec fn is_exactly(range: Range<u64>, e: RangeElement, len: u64) -> bool {
    forall|p: int| #[trigger] holds(range, p) <==> e.asks_for(p, len)
}

/// Ranges that hold the same positions are the same.
proof fn lemma_same_positions(a: Range<u64>, b: Range<u64>, e: RangeElement, len: u64)
    requires
        a.start < a.end,
        b.start < b.end,
        is_exactly(a, e, len),
        is_exactly(b, e, len),
    ensures
        a == b,
{
    assert(holds(a, a.start as int) && holds(b, a.start as int));
    assert(holds(b, b.start as int) && holds(a, b.start as int));
    assert(holds(a, a.end - 1) && holds(b, a.end - 1));
    assert(holds(b, b.end - 1) && holds(a, b.end - 1));
}

/// The ranges that a request asks for are those that its header is resolved to.
proof fn lemma_resolved(
    req: Seq<(Seq<char>, Seq<Seq<u8>>)>,
    ent: ResourceView,
    header: Seq<Seq<u8>>,
    elements: Seq<RangeElement>,
    ranges: Seq<Range<u64>>,
)
    requires
        asks_for_ranges(req, ent, header, elements),
        are_asked_for(ranges, elements, ent.len),
    ensures
        requested_ranges(effective_range(tag_of(ent), req), ent.len) == Some(ranges),
        forall|i: int|
            0 <= i < ranges.len() ==> (#[trigger] ranges[i]).start < ranges[i].end <= ent.len,
{
    let field = Some(range_header(header));
    if let Some(tag) = ent.etag {
        etags_are_strong(tag, tag);
    }
    a_range_header_is_resolved_element_by_element(header, elements, ent.len);
    ranges_lie_within_the_entity(field, ent.len);
    let rs = requested_ranges(field, ent.len).unwrap();
    assert forall|i: int| 0 <= i < ranges.len() implies rs[i] == ranges[i] by {
        let e = satisfiable(elements, ent.len)[i];
        assert(is_range_of(rs[i], ent.len));
        assert(is_exactly(rs[i], e, ent.len)) by {
            assert forall|p: int| #[trigger] holds(rs[i], p) <==> e.asks_for(p, ent.len) by {}
        }
        assert(ranges[i].start < ranges[i].end);
        lemma_same_positions(rs[i], ranges[i], e, ent.len);
    }
    assert(rs =~= ranges);
    assert forall|i: int| 0 <= i < ranges.len() implies (#[trigger] ranges[i]).start
        < ranges[i].end <= ent.len by {
        assert(is_range_of(rs[i], ent.len));
    }
}

/// Looking up one of the fields behind the validators.
proof fn lemma_behind_validators(
    r: ResponseView,
    ent: ResourceView,
    now: SystemTime,
    more: Seq<(Seq<char>, Seq<u8>)>,
    name: Seq<char>,
)
    requires
        r.headers == validators(ent, now) + more,
        name != "accept-ranges"@,
        name != "date"@,
        name != "last-modified"@,
        name != "etag"@,
    ensures
        header_of(r, name) == first_listed(more, name),
{
    let list = validators(ent, now);
    let l3 = list.take(3);
    let l2 = list.take(2);
    let l1 = list.take(1);
    assert(l1.drop_last() =~= Seq::<(Seq<char>, Seq<u8>)>::empty());
    assert(first_listed(l1.drop_last(), name) is None);
    assert(first_listed(l1, name) is None);
    assert(l2.drop_last() =~= l1);
    assert(first_listed(l2, name) is None);
    assert(l3.drop_last() =~= l2);
    assert(first_listed(l3, name) is None);
    if ent.etag is Some {
        assert(list.drop_last() =~= l3);
    } else {
        assert(list =~= l3);
    }
    assert(first_listed(list, name) is None);
    lemma_first_listed_concat(list, more, name);
    added_fields_can_be_looked_up(r.headers, name);
}

/// The names of the fields that responses are made of are different.
proof fn lemma_field_names()
    ensures
        "accept-ranges"@ != "date"@,
        "accept-ranges"@ != "last-modified"@,
        "accept-ranges"@ != "etag"@,
        "accept-ranges"@ != "content-range"@,
        "accept-ranges"@ != "content-length"@,
        "accept-ranges"@ != "content-type"@,
        "date"@ != "last-modified"@,
        "date"@ != "etag"@,
        "date"@ != "content-range"@,
        "date"@ != "content-length"@,
        "date"@ != "content-type"@,
        "last-modified"@ != "etag"@,
        "last-modified"@ != "content-range"@,
        "last-modified"@ != "content-length"@,
        "last-modified"@ != "content-type"@,
        "etag"@ != "content-range"@,
        "etag"@ != "content-length"@,
        "etag"@ != "content-type"@,
        "content-range"@ != "content-length"@,
        "content-range"@ != "content-type"@,
        "content-length"@ != "content-type"@,
{
    reveal_strlit("accept-ranges");
    reveal_strlit("date");
    reveal_strlit("last-modified");
    reveal_strlit("etag");
    reveal_strlit("content-range");
    reveal_strlit("content-length");
    reveal_strlit("content-type");
    assert("accept-ranges"@[0] != "last-modified"@[0]);
    assert("accept-ranges"@[0] != "content-range"@[0]);
    assert("last-modified"@[0] != "content-range"@[0]);
    assert("date"@[0] != "etag"@[0]);
    assert("content-range"@.len() == 13);
    assert("content-length"@.len() == 14);
    assert("content-type"@.len() == 12);
}

/// A request for ranges of which the resource has no byte is refused, and told how long the
/// resource is.
pub proof fn ranges_beyond_the_end_are_refused(
    req: Seq<(Seq<char>, Seq<Seq<u8>>)>,
    ent: ResourceView,
    header: Seq<Seq<u8>>,
    elements: Seq<RangeElement>,
    status: u16,
    now: SystemTime,
)
    requires
        asks_for_ranges(req, ent, header, elements),
        forall|i: int| 0 <= i < elements.len() ==> !(#[trigger] elements[i]).is_satisfiable(ent.len),
    ensures
        response_to("GET"@, req, ent, status, now).status == 416,
        header_of(response_to("GET"@, req, ent, status, now), "content-range"@) == Some(
            text("bytes */"@) + decimal(ent.len as nat),
        ),
        response_to("GET"@, req, ent, status, now).body == BodyPlan::Fixed(Seq::empty()),
{
    lemma_none_satisfiable(elements, ent.len);
    let none = Seq::<Range<u64>>::empty();
    lemma_resolved(req, ent, header, elements, none);
    an_unconditional_request_is_served(req, ent, status, now);
    lemma_field_names();
    let r = response_to("GET"@, req, ent, status, now);
    let last = ("content-range"@, text("bytes */"@) + decimal(ent.len as nat));
    assert(r.headers =~= validators(ent, now) + seq![last]);
    lemma_behind_validators(r, ent, now, seq![last], "content-range"@);
    assert(seq![last].drop_last() =~= Seq::<(Seq<char>, Seq<u8>)>::empty());
    assert(first_listed(seq![last].drop_last(), "content-range"@) is None);
}

/// None is left of elements that cannot be satisfied.
proof fn lemma_none_satisfiable(elements: Seq<RangeElement>, len: u64)
    requires
        forall|i: int| 0 <= i < elements.len() ==> !(#[trigger] elements[i]).is_satisfiable(len),
    ensures
        satisfiable(elements, len).len() == 0,
    decreases elements.len(),
{
    if elements.len() > 0 {
        let rest = elements.skip(1);
        assert(!elements[0].is_satisfiable(len));
        assert forall|i: int| 0 <= i < rest.len() implies !(#[trigger] rest[i]).is_satisfiable(
            len,
        ) by {
            assert(rest[i] == elements[i + 1]);
        }
        lemma_none_satisfiable(rest, len);
    }
}

/// A request for one range that the resource has bytes of is sent these bytes, and told which
/// ones they are.
pub proof fn one_range_is_sent_alone(
    req: Seq<(Seq<char>, Seq<Seq<u8>>)>,
    ent: ResourceView,
    header: Seq<Seq<u8>>,
    elements: Seq<RangeElement>,
    range: Range<u64>,
    status: u16,
    now: SystemTime,
    content: Seq<u8>,
)
    requires
        content.len() == ent.len,
        asks_for_ranges(req, ent, header, elements),
        are_asked_for(seq![range], elements, ent.len),
    ensures
        response_to("GET"@, req, ent, status, now).status == 206,
        response_to("GET"@, req, ent, status, now).body.bytes(content) == content.subrange(
            range.start as int,
            range.end as int,
        ),
        header_of(response_to("GET"@, req, ent, status, now), "content-range"@) == Some(
            text("bytes "@) + span(range, content.len()),
        ),
        header_of(response_to("GET"@, req, ent, status, now), "content-length"@) == Some(
            decimal((range.end - range.start) as nat),
        ),
{
    lemma_resolved(req, ent, header, elements, seq![range]);
    an_unconditional_request_is_served(req, ent, status, now);
    lemma_field_names();
    lemma_marks();
    let r = response_to("GET"@, req, ent, status, now);
    let extent = ("content-range"@, text("bytes "@) + range_text(range, ent.len));
    let length = ("content-length"@, decimal((range.end - range.start) as nat));
    let fields = partial_fields(ent, req);
    let more = seq![extent, length] + fields;
    assert(r.headers =~= validators(ent, now) + more);
    lemma_behind_validators(r, ent, now, more, "content-range"@);
    lemma_behind_validators(r, ent, now, more, "content-length"@);
    lemma_two_fields(extent, length, fields);
}

/// Looking up the first two of some fields.
proof fn lemma_two_fields(
    a: (Seq<char>, Seq<u8>),
    b: (Seq<char>, Seq<u8>),
    more: Seq<(Seq<char>, Seq<u8>)>,
)
    requires
        a.0 != b.0,
    ensures
        first_listed(seq![a, b] + more, a.0) == Some(a.1),
        first_listed(seq![a, b] + more, b.0) == Some(b.1),
{
    let two = seq![a, b];
    let one = seq![a];
    assert(two.drop_last() =~= one);
    assert(one.drop_last() =~= Seq::<(Seq<char>, Seq<u8>)>::empty());
    assert(first_listed(one.drop_last(), a.0) is None);
    assert(first_listed(one.drop_last(), b.0) is None);
    assert(first_listed(one, a.0) == Some(a.1));
    assert(first_listed(one, b.0) is None);
    lemma_first_listed_concat(two, more, a.0);
    lemma_first_listed_concat(two, more, b.0);
}

/// The length of a response with the whole content.
proof fn lemma_whole(
    r: ResponseView,
    ent: ResourceView,
    status: u16,
    now: SystemTime,
    content: Seq<u8>,
)
    requires
        r == whole(ent, status, now),
        content.len() == ent.len,
    ensures
        r.status == status,
        r.body.bytes(content) == content,
        header_of(r, "content-length"@) == Some(decimal(content.len())),
{
    lemma_field_names();
    assert(content.subrange(0, content.len() as int) =~= content);
    let length = ("content-length"@, decimal(ent.len as nat));
    let none = Seq::<(Seq<char>, Seq<u8>)>::empty();
    let fields = all_fields(ent.headers);
    assert(r.headers =~= validators(ent, now) + (seq![length] + fields));
    lemma_behind_validators(r, ent, now, seq![length] + fields, "content-length"@);
    assert(seq![length].drop_last() =~= none);
    assert(first_listed(none, "content-length"@) is None);
    lemma_first_listed_concat(seq![length], fields, "content-length"@);
}

/// Whether a `Range` header counts in bytes.
pub open spec fn is_in_bytes(field: Seq<u8>) -> bool {
    exists|set: Seq<u8>| field == #[trigger] (text("bytes="@) + set)
}

/// A request without conditions gets the whole content, with the status that was asked for, if
/// it asks for no range in bytes; or if it does so on condition that the resource has another tag than it
/// has, or none of which it could be told.
pub proof fn the_whole_content_is_sent(
    req: Seq<(Seq<char>, Seq<Seq<u8>>)>,
    ent: ResourceView,
    status: u16,
    now: SystemTime,
    content: Seq<u8>,
)
    requires
        content.len() == ent.len,
        is_unconditional(req),
        ({
            ||| first_value(req, "range"@) is None
            ||| first_value(req, "range"@) matches Some(field) && !is_in_bytes(field)
            ||| first_value(req, "if-range"@) matches Some(sent) && (ent.etag matches Some(tag)
                ==> sent != etag_text(tag))
        }),
    ensures
        response_to("GET"@, req, ent, status, now).status == status,
        response_to("GET"@, req, ent, status, now).body.bytes(content) == content,
        header_of(response_to("GET"@, req, ent, status, now), "content-length"@) == Some(
            decimal(content.len()),
        ),
{
    an_unconditional_request_is_served(req, ent, status, now);
    if let Some(field) = first_value(req, "range"@) {
        let unit = text("bytes="@);
        if crate::text::has_prefix(field, unit) {
            assert(field =~= unit + field.skip(unit.len() as int));
        }
    }
    if let Some(tag) = ent.etag {
        etags_are_strong(tag, tag);
    }
    lemma_whole(response_to("GET"@, req, ent, status, now), ent, status, now, content);
}

/// A request for several ranges is sent a part for each of them that the resource has bytes of,
/// in the order in which they were asked for, if that is worth the trouble: if 80 bytes for each
/// part, and their content, are fewer than the whole content has. If it is not, the whole content
/// is sent. A response that would be too long to be announced is refused.
pub proof fn several_ranges_are_sent_in_turn(
    req: Seq<(Seq<char>, Seq<Seq<u8>>)>,
    ent: ResourceView,
    header: Seq<Seq<u8>>,
    elements: Seq<RangeElement>,
    ranges: Seq<Range<u64>>,
    status: u16,
    now: SystemTime,
    content: Seq<u8>,
)
    requires
        content.len() == ent.len,
        asks_for_ranges(req, ent, header, elements),
        are_asked_for(ranges, elements, ent.len),
        ranges.len() >= 2,
    ensures
        ({
            let r = response_to("GET"@, req, ent, status, now);
            let sent = pieces(ranges, lines_of(described(ent, req)), content);
            if 80 * ranges.len() + gathered(ranges, content).len() >= ent.len {
                r.status == status && r.body.bytes(content) == content && header_of(
                    r,
                    "content-length"@,
                ) == Some(decimal(content.len()))
            } else if sent.len() > u64::MAX {
                r.status == 413 && r.body == BodyPlan::Fixed(text("Multipart response too large"@))
            } else {
                &&& r.status == 206
                &&& r.body.bytes(content) == sent
                &&& header_of(r, "content-length"@) == Some(decimal(sent.len()))
                &&& header_of(r, "content-type"@) == Some(
                    text("multipart/byteranges; boundary=B"@),
                )
            }
        }),
{
    lemma_resolved(req, ent, header, elements, ranges);
    an_unconditional_request_is_served(req, ent, status, now);
    lemma_field_names();
    lemma_estimate(ranges, content);
    let fields = partial_fields(ent, req);
    each_field_is_a_line(fields);
    let lines = field_lines(fields);
    let headers = part_headers(ranges, ent.len, lines);
    lemma_parts(ranges, ent.len, lines, content, 0);
    assert(ranges.skip(0) =~= ranges);
    lemma_parts_len(headers, ranges, content, 0);
    let r = response_to("GET"@, req, ent, status, now);
    assert(content.subrange(0, content.len() as int) =~= content);
    let total = parts_len(headers, ranges, 0);
    if estimate(ranges) >= ent.len {
        lemma_whole(r, ent, status, now, content);
    } else if total <= u64::MAX {
        let length = ("content-length"@, decimal(total));
        let kind = ("content-type"@, text("multipart/byteranges; boundary=B"@));
        let none = Seq::<(Seq<char>, Seq<u8>)>::empty();
        assert(r.headers =~= validators(ent, now) + (seq![length, kind] + none));
        lemma_behind_validators(r, ent, now, seq![length, kind] + none, "content-length"@);
        lemma_behind_validators(r, ent, now, seq![length, kind] + none, "content-type"@);
        lemma_two_fields(length, kind, none);
    }
}

/// Whether header fields begin with others.
spec fn begins_with(
    list: Seq<(Seq<char>, Seq<u8>)>,
    first: Seq<(Seq<char>, Seq<u8>)>,
) -> bool {
    first.len() <= list.len() && list.take(first.len() as int) == first
}

/// Fields that follow others do not change how the list begins.
proof fn lemma_begins_with(
    first: Seq<(Seq<char>, Seq<u8>)>,
    more: Seq<(Seq<char>, Seq<u8>)>,
)
    ensures
        begins_with(first + more, first),
{
    assert((first + more).take(first.len() as int) =~= first);
}

/// A response to a request for content begins with the validators.
proof fn lemma_content_begins_with_validators(
    ent: ResourceView,
    req: Seq<(Seq<char>, Seq<Seq<u8>>)>,
    status: u16,
    now: SystemTime,
)
    ensures
        content_response(ent, req, status, now).status != 413 ==> begins_with(
            content_response(ent, req, status, now).headers,
            validators(ent, now),
        ),
{
    let list = validators(ent, now);
    let r = content_response(ent, req, status, now);
    let fields = partial_fields(ent, req);
    match requested_ranges(effective_range(tag_of(ent), req), ent.len) {
        None => {
            lemma_whole_begins(ent, status, now);
        },
        Some(ranges) => if ranges.len() == 0 {
            let more = r.headers.skip(list.len() as int);
            assert(r.headers =~= list + more);
            lemma_begins_with(list, more);
        } else if ranges.len() == 1 {
            let extent = (
                "content-range"@,
                text("bytes "@) + range_text(ranges[0], ent.len),
            );
            let length = ("content-length"@, decimal((ranges[0].end - ranges[0].start) as nat));
            assert(r.headers =~= list + (seq![extent, length] + fields));
            lemma_begins_with(list, seq![extent, length] + fields);
        } else if estimate(ranges) < ent.len {
            let headers = part_headers(ranges, ent.len, field_lines(fields));
            let total = parts_len(headers, ranges, 0);
            if total <= u64::MAX {
                let length = ("content-length"@, decimal(total));
                let kind = ("content-type"@, text("multipart/byteranges; boundary=B"@));
                assert(r.headers =~= list + seq![length, kind]);
                lemma_begins_with(list, seq![length, kind]);
            }
        } else {
            lemma_whole_begins(ent, status, now);
        },
    }
}

/// A response with the whole content begins with the validators.
proof fn lemma_whole_begins(ent: ResourceView, status: u16, now: SystemTime)
    ensures
        begins_with(whole(ent, status, now).headers, validators(ent, now)),
{
    let list = validators(ent, now);
    let length = ("content-length"@, decimal(ent.len as nat));
    let more = seq![length] + all_fields(ent.headers);
    assert(whole(ent, status, now).headers =~= list + more);
    lemma_begins_with(list, more);
}

/// A response that is not a refusal begins with the validators.
proof fn lemma_begins_with_validators(
    method: Seq<char>,
    req: Seq<(Seq<char>, Seq<Seq<u8>>)>,
    ent: ResourceView,
    status: u16,
    now: SystemTime,
)
    requires
        method == "GET"@ || method == "HEAD"@,
        response_to(method, req, ent, status, now).status != 400,
        response_to(method, req, ent, status, now).status != 413,
    ensures
        begins_with(response_to(method, req, ent, status, now).headers, validators(ent, now)),
{
    let list = validators(ent, now);
    lemma_content_begins_with_validators(ent, req, status, now);
    assert(list.take(list.len() as int) =~= list);
}

/// Every response with a resource behind it tells when it was made, when the resource was last
/// modified, which tag the resource has, and that ranges of it can be asked for. A modification
/// in the future is told as the time of the response.
pub proof fn responses_tell_the_state_of_the_resource(
    method: Seq<char>,
    req: Seq<(Seq<char>, Seq<Seq<u8>>)>,
    ent: ResourceView,
    status: u16,
    now: SystemTime,
)
    requires
        method == "GET"@ || method == "HEAD"@,
        response_to(method, req, ent, status, now).status != 400,
        response_to(method, req, ent, status, now).status != 413,
    ensures
        ({
            let r = response_to(method, req, ent, status, now);
            let modified = if unix_nanos(ent.mtime) > unix_nanos(now) {
                now
            } else {
                ent.mtime
            };
            &&& header_of(r, "accept-ranges"@) == Some(text("bytes"@))
            &&& header_of(r, "date"@) == Some(text(http_date_text(unix_seconds_of(now))))
            &&& header_of(r, "last-modified"@) == Some(
                text(http_date_text(unix_seconds_of(modified))),
            )
            &&& ent.etag matches Some(tag) ==> header_of(r, "etag"@) == Some(etag_text(tag))
        }),
{
    let r = response_to(method, req, ent, status, now);
    let list = validators(ent, now);
    let n = list.len() as int;
    let more = r.headers.skip(n);
    lemma_begins_with_validators(method, req, ent, status, now);
    assert(r.headers =~= list + more);
    lemma_field_names();
    lemma_validators(ent, now);
    lemma_first_listed_concat(list, more, "accept-ranges"@);
    lemma_first_listed_concat(list, more, "date"@);
    lemma_first_listed_concat(list, more, "last-modified"@);
    lemma_first_listed_concat(list, more, "etag"@);
    added_fields_can_be_looked_up(r.headers, "accept-ranges"@);
    added_fields_can_be_looked_up(r.headers, "date"@);
    added_fields_can_be_looked_up(r.headers, "last-modified"@);
    added_fields_can_be_looked_up(r.headers, "etag"@);
}

/// Looking up the validators.
proof fn lemma_validators(ent: ResourceView, now: SystemTime)
    ensures
        ({
            let list = validators(ent, now);
            &&& first_listed(list, "accept-ranges"@) == Some(list[0].1)
            &&& first_listed(list, "date"@) == Some(list[1].1)
            &&& first_listed(list, "last-modified"@) == Some(list[2].1)
            &&& ent.etag is Some ==> first_listed(list, "etag"@) == Some(list[3].1)
        }),
{
    lemma_field_names();
    let list = validators(ent, now);
    let l3 = list.take(3);
    let l2 = list.take(2);
    let l1 = list.take(1);
    let l0 = Seq::<(Seq<char>, Seq<u8>)>::empty();
    assert(l1.drop_last() =~= l0);
    assert(l2.drop_last() =~= l1);
    assert(l3.drop_last() =~= l2);
    assert(first_listed(l0, "accept-ranges"@) is None);
    assert(first_listed(l0, "date"@) is None);
    assert(first_listed(l0, "last-modified"@) is None);
    assert(first_listed(l0, "etag"@) is None);
    assert(first_listed(l1, "accept-ranges"@) == Some(list[0].1));
    assert(first_listed(l1, "date"@) is None);
    assert(first_listed(l1, "last-modified"@) is None);
    assert(first_listed(l1, "etag"@) is None);
    assert(first_listed(l2, "accept-ranges"@) == Some(list[0].1));
    assert(first_listed(l2, "date"@) == Some(list[1].1));
    assert(first_listed(l2, "last-modified"@) is None);
    assert(first_listed(l2, "etag"@) is None);
    assert(first_listed(l3, "accept-ranges"@) == Some(list[0].1));
    assert(first_listed(l3, "date"@) == Some(list[1].1));
    assert(first_listed(l3, "last-modified"@) == Some(list[2].1));
    assert(first_listed(l3, "etag"@) is None);
    if ent.etag is Some {
        assert(list.drop_last() =~= l3);
    } else {
        assert(list =~= l3);
    }
}

/// All fields of entries are found like the entries.
proof fn lemma_all_fields(entries: Seq<(Seq<char>, Seq<Seq<u8>>)>, name: Seq<char>)
    requires
        all_have_values(entries),
    ensures
        first_listed(all_fields(entries), name) == first_value(entries, name),
    decreases entries.len(),
{
    lemma_find_entry(entries, name);
    if entries.len() > 0 {
        let shorter = entries.drop_last();
        let last = entries.last();
        assert forall|i: int| 0 <= i < shorter.len() implies (#[trigger] shorter[i]).1.len() > 0 by {
            assert(shorter[i] == entries[i]);
        }
        lemma_all_fields(shorter, name);
        lemma_find_entry(shorter, name);
        lemma_first_listed_concat(all_fields(shorter), entry_fields(last), name);
        lemma_entry_fields(last, name, last.1.len() as int);
        assert(entries[entries.len() - 1].1.len() > 0);
        assert(entry_fields(last).take(last.1.len() as int) =~= entry_fields(last));
        let k = find_entry(shorter, name);
        assert forall|j: int| 0 <= j < k implies (#[trigger] entries[j]).0 != name by {
            assert(shorter[j] == entries[j]);
        }
        if k < shorter.len() {
            assert(shorter[k] == entries[k]);
            lemma_find_entry_is(entries, name, k);
        } else if last.0 == name {
            lemma_find_entry_is(entries, name, k);
        } else {
            lemma_find_entry_is(entries, name, entries.len() as int);
        }
    }
}

/// The first of the fields of an entry.
proof fn lemma_entry_fields(entry: (Seq<char>, Seq<Seq<u8>>), name: Seq<char>, n: int)
    requires
        0 <= n <= entry.1.len(),
    ensures
        first_listed(entry_fields(entry).take(n), name) == (if n > 0 && entry.0 == name {
            Some(entry.1[0])
        } else {
            None
        }),
    decreases n,
{
    if n > 0 {
        lemma_entry_fields(entry, name, n - 1);
        assert(entry_fields(entry).take(n).drop_last() =~= entry_fields(entry).take(n - 1));
    }
}

/// A response with the whole content has the fields that describe it: each field of the resource
/// that is not one of those that the response has of its own.
pub proof fn the_whole_content_is_described(
    req: Seq<(Seq<char>, Seq<Seq<u8>>)>,
    ent: ResourceView,
    status: u16,
    now: SystemTime,
    name: Seq<char>,
)
    requires
        all_have_values(ent.headers),
        is_unconditional(req),
        first_value(req, "range"@) is None,
        name != "accept-ranges"@,
        name != "date"@,
        name != "last-modified"@,
        name != "etag"@,
        name != "content-length"@,
    ensures
        header_of(response_to("GET"@, req, ent, status, now), name) == first_value(
            ent.headers,
            name,
        ),
{
    an_unconditional_request_is_served(req, ent, status, now);
    let r = response_to("GET"@, req, ent, status, now);
    let length = ("content-length"@, decimal(ent.len as nat));
    let fields = all_fields(ent.headers);
    assert(r.headers =~= validators(ent, now) + (seq![length] + fields));
    lemma_behind_validators(r, ent, now, seq![length] + fields, name);
    assert(seq![length].drop_last() =~= Seq::<(Seq<char>, Seq<u8>)>::empty());
    assert(first_listed(seq![length].drop_last(), name) is None);
    lemma_first_listed_concat(seq![length], fields, name);
    lemma_all_fields(ent.headers, name);
}

/// A response with one range has the fields that describe the content, unless the client sends
/// `If-Range`, and so has them already.
pub proof fn a_range_is_described_once(
    req: Seq<(Seq<char>, Seq<Seq<u8>>)>,
    ent: ResourceView,
    header: Seq<Seq<u8>>,
    elements: Seq<RangeElement>,
    range: Range<u64>,
    status: u16,
    now: SystemTime,
    name: Seq<char>,
)
    requires
        all_have_values(ent.headers),
        asks_for_ranges(req, ent, header, elements),
        are_asked_for(seq![range], elements, ent.len),
        name != "accept-ranges"@,
        name != "date"@,
        name != "last-modified"@,
        name != "etag"@,
        name != "content-range"@,
        name != "content-length"@,
    ensures
        header_of(response_to("GET"@, req, ent, status, now), name) == (if first_value(
            req,
            "if-range"@,
        ) is None {
            first_value(ent.headers, name)
        } else {
            None
        }),
{
    lemma_resolved(req, ent, header, elements, seq![range]);
    an_unconditional_request_is_served(req, ent, status, now);
    let r = response_to("GET"@, req, ent, status, now);
    let extent = ("content-range"@, text("bytes "@) + range_text(range, ent.len));
    let length = ("content-length"@, decimal((range.end - range.start) as nat));
    let fields = partial_fields(ent, req);
    let two = seq![extent, length];
    let none = Seq::<(Seq<char>, Seq<u8>)>::empty();
    assert(r.headers =~= validators(ent, now) + (two + fields));
    lemma_behind_validators(r, ent, now, two + fields, name);
    assert(two.drop_last() =~= seq![extent]);
    assert(seq![extent].drop_last() =~= none);
    assert(first_listed(none, name) is None);
    assert(first_listed(seq![extent], name) is None);
    assert(first_listed(two, name) is None);
    lemma_first_listed_concat(two, fields, name);
    lemma_all_fields(ent.headers, name);
}

/// A response is what is said of it: it has the status, each field can be looked up in it, and its
/// body sends the bytes.
pub proof fn a_response_is_what_is_said_of_it(
    r: Response,
    view: ResponseView,
    content: Option<Seq<u8>>,
    file: Seq<u8>,
    name: Seq<char>,
)
    requires
        r.is(view, content),
    ensures
        status_number(r.status) == view.status,
        first_value(header_entries(r.headers), name) == header_of(view, name),
        r.body.stream.left(file) == view.body.bytes(content_or(content, file)),
{
    a_plan_is_what_is_sent(r.body, view.body, content, file);
}

/// A request can be answered unless its response would have a date that cannot be written: one
/// before the Unix epoch or after the year 9999. A request that is refused needs no date.
pub proof fn only_dates_can_stop_a_response(
    method: Seq<char>,
    req: Seq<(Seq<char>, Seq<Seq<u8>>)>,
    ent: ResourceView,
    now: SystemTime,
)
    ensures
        is_unconditional(req) ==> (is_servable("GET"@, req, ent, now) <==> 0 <= unix_nanos(ent.mtime)
            && 0 <= unix_nanos(now) < 253_402_300_800 * 1_000_000_000),
        method != "GET"@ && method != "HEAD"@ ==> is_servable(method, req, ent, now),
        0 <= unix_nanos(ent.mtime) && 0 <= unix_nanos(now) < 253_402_300_800 * 1_000_000_000
            ==> is_servable(method, req, ent, now),
{
}

} // verus!
