//! What holds of the responses to requests for a resource.

use crate::body::{lemma_parts_len, BodyPlan};
use crate::clock::{has_http_date, unix_nanos, unix_seconds_of, NANOS_PER_SECOND};
use crate::etag::{etag_text, etags_are_strong, foreign_etag_does_not_match, own_etag_matches, ETag};
use crate::headers::{
    added_fields_can_be_looked_up, all_fields, first_listed, first_value,
    lemma_first_listed_concat, with_values,
};
use crate::range::{is_range_of, ranges_lie_within_the_entity, requested_ranges};
use crate::resource::ResourceView;
use crate::serving::{
    content_response, date_of, date_value, earlier, effective_range, estimate, is_datable,
    is_unmodified, part_headers, precondition_fails, range_text, response_to, tag_of, validators,
    whole, ResponseView,
};
use crate::text::{decimal, text};
use std::time::SystemTime;
use vstd::prelude::*;

verus! {

/// The value of a header of a response.
pub open spec fn header_of(r: ResponseView, name: Seq<char>) -> Option<Seq<u8>> {
    first_value(with_values(Seq::empty(), r.headers), name)
}

/// `HEAD` is answered like `GET`, with the same status and header fields, but without
/// content.
pub proof fn head_is_get_without_content(
    req: Seq<(Seq<char>, Seq<Seq<u8>>)>,
    ent: ResourceView,
    status: u16,
    now: SystemTime,
)
    ensures
        response_to("HEAD"@, req, ent, status, now).status == response_to(
            "GET"@,
            req,
            ent,
            status,
            now,
        ).status,
        response_to("HEAD"@, req, ent, status, now).headers == response_to(
            "GET"@,
            req,
            ent,
            status,
            now,
        ).headers,
        response_to("HEAD"@, req, ent, status, now).body is Fixed,
        response_to("GET"@, req, ent, status, now).body is Fixed ==> response_to(
            "HEAD"@,
            req,
            ent,
            status,
            now,
        ) == response_to("GET"@, req, ent, status, now),
{
    reveal_strlit("HEAD");
    reveal_strlit("GET");
    assert("HEAD"@.len() != "GET"@.len());
}

/// Methods other than `GET` and `HEAD` are refused, and the response says which methods
/// there are.
pub proof fn other_methods_are_refused(
    method: Seq<char>,
    req: Seq<(Seq<char>, Seq<Seq<u8>>)>,
    ent: ResourceView,
    status: u16,
    now: SystemTime,
)
    requires
        method != "GET"@,
        method != "HEAD"@,
    ensures
        response_to(method, req, ent, status, now).status == 405,
        header_of(response_to(method, req, ent, status, now), "allow"@) == Some(
            text("get, head"@),
        ),
{
    let r = response_to(method, req, ent, status, now);
    added_fields_can_be_looked_up(r.headers, "allow"@);
    assert(r.headers.drop_last() =~= Seq::empty());
    assert(r.headers.last() == ("allow"@, text("get, head"@)));
    assert(first_listed(r.headers.drop_last(), "allow"@) is None);
}

/// Content is sent only with a status that says so: the one that was asked for, or 206.
/// A request that is refused or answered from the client's cache gets none.
pub proof fn refusals_carry_no_content(
    method: Seq<char>,
    req: Seq<(Seq<char>, Seq<Seq<u8>>)>,
    ent: ResourceView,
    status: u16,
    now: SystemTime,
)
    ensures
        !(response_to(method, req, ent, status, now).body is Fixed) ==> {
            &&& method == "GET"@
            &&& response_to(method, req, ent, status, now).status == status || response_to(
                method,
                req,
                ent,
                status,
                now,
            ).status == 206
            &&& precondition_fails(tag_of(ent), Some(unix_seconds_of(ent.mtime)), req) == Ok::<
                bool,
                Seq<char>,
            >(false)
            &&& is_unmodified(tag_of(ent), Some(unix_seconds_of(ent.mtime)), req) == Ok::<
                bool,
                Seq<char>,
            >(false)
        },
{
}

/// The names of the header fields that responses are made of differ from
/// `content-length`.
proof fn lemma_no_length_among_validators(ent: ResourceView, now: SystemTime)
    ensures
        first_listed(validators(ent, now), "content-length"@) is None,
{
    reveal_strlit("content-length");
    reveal_strlit("accept-ranges");
    reveal_strlit("date");
    reveal_strlit("last-modified");
    reveal_strlit("etag");
    let name = "content-length"@;
    let list = validators(ent, now);
    let l3 = list.take(3);
    let l2 = list.take(2);
    let l1 = list.take(1);
    let l0 = list.take(0);
    assert(l3.drop_last() =~= l2);
    assert(l2.drop_last() =~= l1);
    assert(l1.drop_last() =~= l0);
    assert(first_listed(l0, name) is None);
    assert(l1.last().0.len() == 13);
    assert(first_listed(l1, name) is None);
    assert(l2.last().0.len() == 4);
    assert(first_listed(l2, name) is None);
    assert(l3.last().0.len() == 13);
    assert(first_listed(l3, name) is None);
    match tag_of(ent) {
        Some(e) => {
            assert(list.drop_last() =~= l3);
            assert(list.last().0.len() == 4);
        },
        None => {
            assert(list =~= l3);
        },
    }
}

/// A list that ends in a length behind fields without one has that length.
proof fn lemma_length_is_found(
    list: Seq<(Seq<char>, Seq<u8>)>,
    len: nat,
    more: Seq<(Seq<char>, Seq<u8>)>,
)
    requires
        first_listed(list, "content-length"@) is None,
    ensures
        first_listed(list.push(("content-length"@, decimal(len))) + more, "content-length"@) == Some(
            decimal(len),
        ),
{
    let longer = list.push(("content-length"@, decimal(len)));
    assert(longer.drop_last() =~= list);
    lemma_first_listed_concat(longer, more, "content-length"@);
}

/// A response that sends content announces exactly the number of bytes that it sends.
pub proof fn content_length_is_the_length_of_the_body(
    method: Seq<char>,
    req: Seq<(Seq<char>, Seq<Seq<u8>>)>,
    ent: ResourceView,
    status: u16,
    now: SystemTime,
    content: Seq<u8>,
)
    requires
        content.len() == ent.len,
        !(response_to(method, req, ent, status, now).body is Fixed),
    ensures
        header_of(response_to(method, req, ent, status, now), "content-length"@) == Some(
            decimal(response_to(method, req, ent, status, now).body.bytes(content).len()),
        ),
{
    let r = response_to(method, req, ent, status, now);
    let field = effective_range(tag_of(ent), req);
    ranges_lie_within_the_entity(field, ent.len);
    lemma_no_length_among_validators(ent, now);
    added_fields_can_be_looked_up(r.headers, "content-length"@);
    reveal_strlit("content-length");
    reveal_strlit("content-range");
    reveal_strlit("content-type");
    let base = validators(ent, now);
    let none = Seq::<(Seq<char>, Seq<u8>)>::empty();
    match requested_ranges(field, ent.len) {
        None => {
            lemma_length_is_found(base, ent.len as nat, all_fields(ent.headers));
        },
        Some(ranges) => if ranges.len() == 1 {
            let range = ranges[0];
            assert(is_range_of(ranges[0], ent.len));
            let longer = base.push(("content-range"@, text("bytes "@) + range_text(range, ent.len)));
            assert(longer.drop_last() =~= base);
            assert("content-range"@.len() == 13);
            lemma_length_is_found(
                longer,
                (range.end - range.start) as nat,
                crate::serving::partial_fields(ent, req),
            );
        } else if estimate(ranges) < ent.len {
            let headers = part_headers(
                ranges,
                ent.len,
                crate::serving::field_lines(crate::serving::partial_fields(ent, req)),
            );
            assert forall|i: int| 0 <= i < ranges.len() implies (#[trigger] ranges[i]).start
                <= ranges[i].end && ranges[i].end <= content.len() by {
                assert(is_range_of(ranges[i], ent.len));
            }
            lemma_parts_len(headers, ranges, content, 0);
            let total = crate::body::parts_len(headers, ranges, 0);
            let last = ("content-type"@, text("multipart/byteranges; boundary=B"@));
            lemma_length_is_found(base, total, none.push(last));
            assert(r.headers =~= base.push(("content-length"@, decimal(total))) + none.push(last));
        } else {
            lemma_length_is_found(base, ent.len as nat, all_fields(ent.headers));
        },
    }
}

/// The `Last-Modified` date of a response does not exceed its `Date`.
pub proof fn last_modified_does_not_exceed_date(mtime: SystemTime, now: SystemTime)
    requires
        is_datable(mtime, now),
    ensures
        has_http_date(earlier(mtime, now)),
        unix_seconds_of(earlier(mtime, now)) <= unix_seconds_of(now),
        unix_seconds_of(earlier(mtime, now)) <= unix_seconds_of(mtime),
{
    lemma_seconds_are_ordered(earlier(mtime, now), now);
    lemma_seconds_are_ordered(earlier(mtime, now), mtime);
}

/// The seconds of two points in time are in the order of the points in time.
proof fn lemma_seconds_are_ordered(a: SystemTime, b: SystemTime)
    requires
        0 <= unix_nanos(a) <= unix_nanos(b),
    ensures
        unix_seconds_of(a) <= unix_seconds_of(b),
{
    vstd::arithmetic::div_mod::lemma_div_is_ordered(
        unix_nanos(a),
        unix_nanos(b),
        NANOS_PER_SECOND as int,
    );
}

/// A client that sends the tag that a resource has is told that it has the resource
/// already.
pub proof fn own_etag_is_not_modified(
    method: Seq<char>,
    req: Seq<(Seq<char>, Seq<Seq<u8>>)>,
    ent: ResourceView,
    tag: ETag,
    status: u16,
    now: SystemTime,
)
    requires
        method == "GET"@ || method == "HEAD"@,
        ent.etag == Some(tag),
        first_value(req, "if-none-match"@) == Some(etag_text(tag)),
        precondition_fails(tag_of(ent), Some(unix_seconds_of(ent.mtime)), req) == Ok::<
            bool,
            Seq<char>,
        >(false),
    ensures
        response_to(method, req, ent, status, now).status == 304,
        response_to(method, req, ent, status, now).headers == validators(ent, now),
        response_to(method, req, ent, status, now).body == BodyPlan::Fixed(Seq::empty()),
{
    own_etag_matches(tag);
}

/// A client that sends the tag of other content is sent the content, whatever else it
/// says of the time of its copy.
pub proof fn foreign_etag_is_modified(
    method: Seq<char>,
    req: Seq<(Seq<char>, Seq<Seq<u8>>)>,
    ent: ResourceView,
    tag: ETag,
    other: ETag,
    status: u16,
    now: SystemTime,
)
    requires
        method == "GET"@,
        ent.etag == Some(tag),
        tag != other,
        first_value(req, "if-none-match"@) == Some(etag_text(other)),
        precondition_fails(tag_of(ent), Some(unix_seconds_of(ent.mtime)), req) == Ok::<
            bool,
            Seq<char>,
        >(false),
    ensures
        response_to(method, req, ent, status, now) == content_response(ent, req, status, now),
{
    foreign_etag_does_not_match(tag, other);
    reveal_strlit("HEAD");
    reveal_strlit("GET");
    assert("HEAD"@.len() != "GET"@.len());
}

/// `If-Match` with the tag that a resource has lets the request through, and with the tag
/// of other content it does not.
pub proof fn if_match_guards_the_request(
    method: Seq<char>,
    req: Seq<(Seq<char>, Seq<Seq<u8>>)>,
    ent: ResourceView,
    tag: ETag,
    sent: ETag,
    status: u16,
    now: SystemTime,
)
    requires
        method == "GET"@ || method == "HEAD"@,
        ent.etag == Some(tag),
        first_value(req, "if-match"@) == Some(etag_text(sent)),
        first_value(req, "if-unmodified-since"@) is None,
        is_unmodified(tag_of(ent), Some(unix_seconds_of(ent.mtime)), req) is Ok,
        status != 412,
    ensures
        response_to(method, req, ent, status, now).status == 412 <==> sent != tag,
{
    if sent == tag {
        own_etag_matches(tag);
    } else {
        foreign_etag_does_not_match(tag, sent);
    }
}

/// Of a client that says of what time its copy is, and sends no tags, it is decided by the
/// second: it has the resource already if and only if its copy is not older.
pub proof fn if_modified_since_compares_seconds(
    method: Seq<char>,
    req: Seq<(Seq<char>, Seq<Seq<u8>>)>,
    ent: ResourceView,
    since: Seq<u8>,
    second: nat,
    status: u16,
    now: SystemTime,
)
    requires
        method == "GET"@ || method == "HEAD"@,
        first_value(req, "if-none-match"@) is None,
        first_value(req, "if-modified-since"@) == Some(since),
        date_of(since) == Some(second),
        precondition_fails(tag_of(ent), Some(unix_seconds_of(ent.mtime)), req) == Ok::<
            bool,
            Seq<char>,
        >(false),
        status != 304,
    ensures
        response_to(method, req, ent, status, now).status == 304 <==> unix_seconds_of(ent.mtime)
            <= second,
{
}

/// A client that sends back the `Last-Modified` date it was given is told that it has the
/// resource already, and a request on condition that nothing has changed since goes
/// through. This is for a resource that was not modified in the future of the response
/// that gave the date; that the date can be read back is what [`serve`] promises.
///
/// [`serve`]: crate::serving::serve
pub proof fn last_modified_can_be_sent_back(
    method: Seq<char>,
    req: Seq<(Seq<char>, Seq<Seq<u8>>)>,
    ent: ResourceView,
    given: SystemTime,
    status: u16,
    now: SystemTime,
)
    requires
        method == "GET"@ || method == "HEAD"@,
        is_datable(ent.mtime, given),
        unix_seconds_of(ent.mtime) <= unix_seconds_of(given),
        date_of(date_value(earlier(ent.mtime, given))) == Some(
            unix_seconds_of(earlier(ent.mtime, given)),
        ),
        first_value(req, "if-match"@) is None,
        first_value(req, "if-none-match"@) is None,
        status != 304,
        status != 412,
    ensures
        first_value(req, "if-unmodified-since"@) is None && first_value(req, "if-modified-since"@)
            == Some(date_value(earlier(ent.mtime, given))) ==> response_to(
            method,
            req,
            ent,
            status,
            now,
        ).status == 304,
        first_value(req, "if-modified-since"@) is None && first_value(req, "if-unmodified-since"@)
            == Some(date_value(earlier(ent.mtime, given))) ==> response_to(
            method,
            req,
            ent,
            status,
            now,
        ).status != 412,
{
    if unix_nanos(ent.mtime) > unix_nanos(given) {
        lemma_seconds_are_ordered(given, ent.mtime);
    }
}

/// `If-Range` with the tag that a resource has keeps the `Range` header in force; with any
/// other value the whole content is sent.
pub proof fn if_range_guards_the_range(
    req: Seq<(Seq<char>, Seq<Seq<u8>>)>,
    ent: ResourceView,
    tag: ETag,
    sent: Seq<u8>,
    status: u16,
    now: SystemTime,
)
    requires
        ent.etag == Some(tag),
        first_value(req, "if-range"@) == Some(sent),
    ensures
        sent == etag_text(tag) ==> effective_range(tag_of(ent), req) == first_value(req, "range"@),
        sent != etag_text(tag) ==> content_response(ent, req, status, now) == whole(ent, status, now),
{
    etags_are_strong(tag, tag);
}

/// A response with one range sends the bytes of that range, and nothing else.
pub proof fn a_single_range_is_sent_exactly(
    req: Seq<(Seq<char>, Seq<Seq<u8>>)>,
    ent: ResourceView,
    status: u16,
    now: SystemTime,
    content: Seq<u8>,
)
    requires
        content.len() == ent.len,
        requested_ranges(effective_range(tag_of(ent), req), ent.len) matches Some(rs) && rs.len()
            == 1,
    ensures
        ({
            let range = requested_ranges(effective_range(tag_of(ent), req), ent.len).unwrap()[0];
            let r = content_response(ent, req, status, now);
            &&& r.status == 206
            &&& 0 <= range.start < range.end <= content.len()
            &&& r.body.bytes(content) == content.subrange(range.start as int, range.end as int)
            &&& r.body.bytes(content).len() == range.end - range.start
        }),
{
    let rs = requested_ranges(effective_range(tag_of(ent), req), ent.len).unwrap();
    ranges_lie_within_the_entity(effective_range(tag_of(ent), req), ent.len);
    assert(is_range_of(rs[0], ent.len));
}

/// A request without a `Range` header that is not refused gets the whole content, with
/// the status that was asked for.
pub proof fn a_plain_request_gets_everything(
    req: Seq<(Seq<char>, Seq<Seq<u8>>)>,
    ent: ResourceView,
    status: u16,
    now: SystemTime,
    content: Seq<u8>,
)
    requires
        content.len() == ent.len,
        first_value(req, "range"@) is None,
    ensures
        content_response(ent, req, status, now).status == status,
        content_response(ent, req, status, now).body.bytes(content) == content,
{
    assert(content.subrange(0, content.len() as int) =~= content);
}

} // verus!
