//! How conditional requests are decided, told by what the request says and what the resource is.

use crate::body::BodyPlan;
use crate::clock::{http_date_seconds, unix_nanos, unix_seconds_of};
use crate::etag::etag_text;
use crate::etag_laws::{
    an_etag_spells_its_number, if_match_asks_for_one_of_its_tags,
    if_none_match_asks_for_none_of_its_tags, is_tag_list, weak,
};
use crate::headers::{first_value, is_visible_chars, lemma_visible_text};
use crate::resource::ResourceView;
use crate::serving::{
    content_response, date_of, is_unmodified, optional_second, precondition_fails, response_to,
};
use crate::text::text;
use std::time::SystemTime;
use vstd::prelude::*;

verus! {

/// Whether each date that a request sends as a condition is one.
pub open spec fn dates_are_understood(req: Seq<(Seq<char>, Seq<Seq<u8>>)>) -> bool {
    &&& first_value(req, "if-unmodified-since"@) matches Some(v) ==> date_of(v) is Some
    &&& first_value(req, "if-modified-since"@) matches Some(v) ==> date_of(v) is Some
}

/// Whether a request has no precondition.
pub open spec fn has_no_precondition(req: Seq<(Seq<char>, Seq<Seq<u8>>)>) -> bool {
    first_value(req, "if-match"@) is None && first_value(req, "if-unmodified-since"@) is None
}

/// Whether a request has no condition at all.
pub open spec fn is_unconditional(req: Seq<(Seq<char>, Seq<Seq<u8>>)>) -> bool {
    &&& has_no_precondition(req)
    &&& first_value(req, "if-none-match"@) is None
    &&& first_value(req, "if-modified-since"@) is None
}

/// Whether a resource was modified in a later second than that of the date that a request sends
/// as `If-Unmodified-Since`.
pub open spec fn is_modified_since(
    req: Seq<(Seq<char>, Seq<Seq<u8>>)>,
    ent: ResourceView,
) -> bool {
    first_value(req, "if-unmodified-since"@) matches Some(v) && date_of(v) matches Some(second)
        && unix_seconds_of(ent.mtime) > second
}

/// A header is read as a date by its text.
pub proof fn a_date_is_its_text(s: Seq<char>)
    requires
        is_visible_chars(s),
    ensures
        date_of(text(s)) == http_date_seconds(s),
{
    lemma_visible_text(s);
    vstd::utf8::encode_utf8_decode_utf8(s);
}

/// The second of a point in time is the one that it lies in.
pub proof fn a_point_in_time_lies_in_its_second(t: SystemTime)
    requires
        unix_nanos(t) >= 0,
    ensures
        unix_seconds_of(t) * 1_000_000_000 <= unix_nanos(t) < (unix_seconds_of(t) + 1)
            * 1_000_000_000,
        optional_second(Some(t)) == Some(unix_seconds_of(t)),
        optional_second(None) is None,
{
}

/// Without `If-Match`, or with `*`, it is `If-Unmodified-Since` alone that can make a request
/// fail: it does if and only if the resource was modified in a later second than that of the
/// date. That comes before anything that could tell the client that it has the resource already.
pub proof fn if_unmodified_since_compares_seconds(
    method: Seq<char>,
    req: Seq<(Seq<char>, Seq<Seq<u8>>)>,
    ent: ResourceView,
    status: u16,
    now: SystemTime,
)
    requires
        method == "GET"@ || method == "HEAD"@,
        first_value(req, "if-match"@) is None || first_value(req, "if-match"@) == Some(text("*"@)),
        dates_are_understood(req),
        status != 412,
    ensures
        response_to(method, req, ent, status, now).status == 412 <==> is_modified_since(req, ent),
{
}

/// With a list of tags as `If-Match`, a request fails if and only if none of them is the tag of
/// the resource, or `If-Unmodified-Since` fails as well. That comes before anything that could
/// tell the client that it has the resource already.
pub proof fn if_match_fails_without_the_tag(
    method: Seq<char>,
    req: Seq<(Seq<char>, Seq<Seq<u8>>)>,
    ent: ResourceView,
    list: Seq<u8>,
    tags: Seq<Seq<u8>>,
    status: u16,
    now: SystemTime,
)
    requires
        method == "GET"@ || method == "HEAD"@,
        first_value(req, "if-match"@) == Some(list),
        list != text("*"@),
        is_tag_list(list, tags),
        dates_are_understood(req),
        status != 412,
    ensures
        response_to(method, req, ent, status, now).status == 412 <==> is_modified_since(req, ent)
            || (ent.etag matches Some(tag) ==> !tags.contains(etag_text(tag))),
{
    if let Some(tag) = ent.etag {
        an_etag_spells_its_number(tag);
        if_match_asks_for_one_of_its_tags(crate::etag::hex(tag.0), list, tags);
    }
}

/// With a list of tags as `If-None-Match`, the client has the resource already if and only if
/// one of them is the tag of the resource, with or without the mark of weakness. A date is then
/// not looked at.
pub proof fn if_none_match_alone_decides(
    method: Seq<char>,
    req: Seq<(Seq<char>, Seq<Seq<u8>>)>,
    ent: ResourceView,
    list: Seq<u8>,
    tags: Seq<Seq<u8>>,
    status: u16,
    now: SystemTime,
)
    requires
        method == "GET"@ || method == "HEAD"@,
        has_no_precondition(req),
        first_value(req, "if-none-match"@) == Some(list),
        list != text("*"@),
        is_tag_list(list, tags),
        status != 304,
    ensures
        response_to(method, req, ent, status, now).status == 304 <==> (ent.etag matches Some(tag)
            && (tags.contains(etag_text(tag)) || tags.contains(weak(etag_text(tag))))),
        response_to(method, req, ent, status, now).status != 304 ==> response_to(
            "GET"@,
            req,
            ent,
            status,
            now,
        ) == content_response(ent, req, status, now),
{
    lemma_methods();
    if let Some(tag) = ent.etag {
        an_etag_spells_its_number(tag);
        if_none_match_asks_for_none_of_its_tags(crate::etag::hex(tag.0), list, tags);
    }
}

/// The methods are different.
proof fn lemma_methods()
    ensures
        "GET"@ != "HEAD"@,
{
    reveal_strlit("HEAD");
    reveal_strlit("GET");
    assert("HEAD"@.len() != "GET"@.len());
}

/// `*` as `If-None-Match` stands for every tag: the client has the resource already.
pub proof fn any_tag_is_not_modified(
    method: Seq<char>,
    req: Seq<(Seq<char>, Seq<Seq<u8>>)>,
    ent: ResourceView,
    status: u16,
    now: SystemTime,
)
    requires
        method == "GET"@ || method == "HEAD"@,
        has_no_precondition(req),
        first_value(req, "if-none-match"@) == Some(text("*"@)),
    ensures
        response_to(method, req, ent, status, now).status == 304,
        response_to(method, req, ent, status, now).body == BodyPlan::Fixed(Seq::empty()),
{
}

/// Without `If-None-Match`, the client has the resource already if and only if the date that it
/// sends as `If-Modified-Since` is not in an earlier second than that in which the resource was
/// modified.
pub proof fn if_modified_since_decides_without_tags(
    method: Seq<char>,
    req: Seq<(Seq<char>, Seq<Seq<u8>>)>,
    ent: ResourceView,
    since: Seq<u8>,
    second: nat,
    status: u16,
    now: SystemTime,
)
    requires
        method == "GET"@ || method == "HEAD"@,
        has_no_precondition(req),
        first_value(req, "if-none-match"@) is None,
        first_value(req, "if-modified-since"@) == Some(since),
        date_of(since) == Some(second),
        status != 304,
    ensures
        response_to(method, req, ent, status, now).status == 304 <==> unix_seconds_of(ent.mtime)
            <= second,
        response_to(method, req, ent, status, now).status != 304 ==> response_to(
            "GET"@,
            req,
            ent,
            status,
            now,
        ) == content_response(ent, req, status, now),
{
    lemma_methods();
}

/// A request without conditions is sent what it asks for.
pub proof fn an_unconditional_request_is_served(
    req: Seq<(Seq<char>, Seq<Seq<u8>>)>,
    ent: ResourceView,
    status: u16,
    now: SystemTime,
)
    requires
        is_unconditional(req),
    ensures
        response_to("GET"@, req, ent, status, now) == content_response(ent, req, status, now),
{
    lemma_methods();
}

/// A condition that is not understood is refused: a precondition that is no date or no list of
/// tags, and an `If-Modified-Since` that is no date where no `If-None-Match` takes its place.
pub proof fn conditions_that_are_not_understood_are_refused(
    method: Seq<char>,
    req: Seq<(Seq<char>, Seq<Seq<u8>>)>,
    ent: ResourceView,
    status: u16,
    now: SystemTime,
)
    requires
        method == "GET"@ || method == "HEAD"@,
        ({
            ||| first_value(req, "if-match"@) is None && (first_value(
                req,
                "if-unmodified-since"@,
            ) matches Some(v) && date_of(v) is None)
            ||| first_value(req, "if-match"@) matches Some(list) && list != text("*"@)
                && ent.etag is Some && forall|tags: Seq<Seq<u8>>| !is_tag_list(list, tags)
            ||| first_value(req, "if-none-match"@) is None && (first_value(
                req,
                "if-modified-since"@,
            ) matches Some(v) && date_of(v) is None)
        }),
    ensures
        response_to(method, req, ent, status, now).status == 400,
        response_to(method, req, ent, status, now).headers.len() == 0,
        ({
            let body = response_to(method, req, ent, status, now).body;
            ||| body == BodyPlan::Fixed(text("Unparseable If-Match header"@))
            ||| body == BodyPlan::Fixed(text("Unparseable If-Unmodified-Since"@))
            ||| body == BodyPlan::Fixed(text("Unparseable If-Modified-Since"@))
        }),
{
    if let (Some(tag), Some(list)) = (ent.etag, first_value(req, "if-match"@)) {
        if list != text("*"@) && forall|tags: Seq<Seq<u8>>| !is_tag_list(list, tags) {
            an_etag_spells_its_number(tag);
            if_match_asks_for_one_of_its_tags(crate::etag::hex(tag.0), list, Seq::empty());
        }
    }
}

/// A failed precondition is answered by saying so, and a client that has the resource already is
/// sent nothing but the state of the resource.
pub proof fn conditions_are_answered_without_content(
    method: Seq<char>,
    req: Seq<(Seq<char>, Seq<Seq<u8>>)>,
    ent: ResourceView,
    status: u16,
    now: SystemTime,
)
    requires
        method == "GET"@ || method == "HEAD"@,
        status != 412,
        status != 304,
    ensures
        response_to(method, req, ent, status, now).status == 412 ==> response_to(
            method,
            req,
            ent,
            status,
            now,
        ).body == BodyPlan::Fixed(text("Precondition failed"@)),
        response_to(method, req, ent, status, now).status == 304 ==> response_to(
            method,
            req,
            ent,
            status,
            now,
        ).body == BodyPlan::Fixed(Seq::empty()),
{
}

/// Dates do not matter to a resource of which it is not known when it was modified, and neither
/// does any other condition that is not sent.
pub proof fn missing_conditions_decide_nothing(
    etag: Option<Seq<u8>>,
    last_modified: Option<nat>,
    req: Seq<(Seq<char>, Seq<Seq<u8>>)>,
)
    ensures
        first_value(req, "if-match"@) is None && (last_modified is None || first_value(
            req,
            "if-unmodified-since"@,
        ) is None) ==> precondition_fails(etag, last_modified, req) == Ok::<bool, Seq<char>>(false),
        first_value(req, "if-none-match"@) is None && (last_modified is None || first_value(
            req,
            "if-modified-since"@,
        ) is None) ==> is_unmodified(etag, last_modified, req) == Ok::<bool, Seq<char>>(false),
{
}

} // verus!
