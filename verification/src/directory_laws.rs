//! What holds of the requests for files of a directory.

use crate::compression::{
    candidates, support_of, CompressionStrategyInner, CompressionSupport, ContentEncoding,
    MatchedFile, SearchPlan,
};
use crate::content_types::type_of;
use crate::error::SerdirError;
use crate::headers::{
    all_have_values, find_entry, first_listed, first_value, has_field, header_entries,
    lemma_find_entry, lemma_find_entry_is, status_number, with_values,
};
use crate::integration::{is_action, MiddlewareAction};
use crate::path::path_fault;
use crate::path_laws::{
    all_name, are_segments, only_unsafe_paths_are_refused, resolving_keeps_every_name,
    starts_with_a_prefix, what_follows_the_prefix_is_requested,
};
use crate::platform::Platform;
use crate::resource::Resource;
use crate::response_laws::the_whole_content_is_sent;
use crate::served_dir::{
    file_fields, is_answer, is_relative, requested_path, Lookup, Resolution, ServedDir, Stage,
};
use crate::serving::{response_to, Response};
use crate::text::{joined_by, text, BACKSLASH, COLON, SLASH};
use std::time::SystemTime;
use vstd::prelude::*;

verus! {

/// A request for names joined by `/`, with a slash in front, looks for the file of these names
/// below the directory, in the encodings that the client accepts.
pub proof fn a_request_looks_for_the_file(
    dir: ServedDir,
    segments: Seq<Seq<u8>>,
    accepted: Option<Seq<u8>>,
    r: Result<Lookup, SerdirError>,
)
    requires
        dir.strip_prefix is None,
        text(dir.dirpath@).len() > 0,
        text(dir.dirpath@).last() != SLASH,
        segments.len() > 0,
        are_segments(dir.platform, segments),
        all_name(segments),
        !joined_by(segments, SLASH).contains(0),
        !starts_with_a_prefix(dir.platform, joined_by(segments, SLASH)),
        dir.begins(seq![SLASH] + joined_by(segments, SLASH), accepted, r),
    ensures
        r matches Ok(l) && l.path@ == text(dir.dirpath@) + seq![SLASH] + joined_by(segments, SLASH)
            && l.full_path@ == l.path@ && l.stage == Stage::Requested && l.preferred == support_of(
            accepted,
        ),
{
    let p = joined_by(segments, SLASH);
    assert(segments[0].len() > 0);
    assert(p.len() > 0) by {
        if segments.len() > 1 {
            assert(p == segments[0] + seq![SLASH] + joined_by(segments.skip(1), SLASH));
        }
    }
    what_follows_the_prefix_is_requested(dir.platform, text(dir.dirpath@), Seq::empty(), p);
    only_unsafe_paths_are_refused(dir.platform, segments);
    resolving_keeps_every_name(dir.platform, text(dir.dirpath@), segments);
}

/// A request is for nothing if its path does not have the prefix that all paths have, and it is
/// refused if its path is unsafe. No file is looked for then.
pub proof fn other_requests_look_for_nothing(
    dir: ServedDir,
    path: Seq<u8>,
    accepted: Option<Seq<u8>>,
    r: Result<Lookup, SerdirError>,
)
    requires
        dir.begins(path, accepted, r),
    ensures
        dir.strip_prefix matches Some(prefix) && !crate::text::has_prefix(path, text(prefix@)) ==> (r
            matches Err(e) && e.status() == 404),
        r matches Ok(l) ==> l.full_path@ == l.path@ && l.stage == Stage::Requested,
        r matches Err(e) ==> e.status() == 404 || e.status() == 400,
        (dir.strip_prefix is None && path.contains(0)) ==> (r matches Err(e) && e.status() == 400),
{
    if let Some(prefix) = dir.strip_prefix {
        crate::served_dir::paths_without_the_prefix_are_not_served(text(prefix@), path);
    } else if path.contains(0) {
        let p = requested_path(None, path).unwrap();
        let k = choose|k: int| 0 <= k < path.len() && path[k] == 0;
        if path[0] == SLASH {
            assert(p[k - 1] == 0);
        } else {
            assert(p[k] == 0);
        }
        assert(p.contains(0));
        assert(path_fault(dir.platform, p) is Some);
    }
}

/// How far a search for a file has come.
pub open spec fn progress(stage: Stage) -> int {
    match stage {
        Stage::Requested => 0,
        Stage::Index => 1,
        Stage::NotFoundPage => 2,
    }
}

/// What is found is served: with the page that says that nothing was found, it says so; with
/// anything else, it is what was asked for.
pub proof fn what_is_found_is_served(
    dir: ServedDir,
    lookup: Lookup,
    matched: MatchedFile,
    r: Resolution,
)
    requires
        dir.resolves(lookup, Ok(matched), r),
    ensures
        lookup.stage == Stage::NotFoundPage ==> (r matches Resolution::NotFoundEntity(m) && m
            == matched),
        lookup.stage != Stage::NotFoundPage ==> (r matches Resolution::Entity(m) && m == matched),
{
}

/// A search that has found nothing goes on for the same client, and each time it has come
/// further, so that it ends. It goes on for the index page of a directory that was asked for, and
/// for the page that says that nothing was found, if either is to be served; otherwise the
/// request fails with what has gone wrong.
pub proof fn a_search_ends(dir: ServedDir, lookup: Lookup, e: SerdirError, r: Resolution)
    requires
        dir.resolves(lookup, Err(e), r),
    ensures
        match r {
            Resolution::Find(l) => {
                &&& progress(l.stage) > progress(lookup.stage)
                &&& l.preferred == lookup.preferred
                &&& l.full_path == lookup.full_path
                &&& l.stage == Stage::Index ==> e is IsDirectory && dir.append_index_html
                &&& l.stage == Stage::NotFoundPage ==> e is NotFound && (dir.not_found_path
                    matches Some(page) && l.path@ == text(page@))
            },
            Resolution::Failed(err) => err == e,
            _ => false,
        },
        r is Failed <==> !(e is IsDirectory && lookup.stage == Stage::Requested
            && dir.append_index_html) && !(e is NotFound && lookup.stage != Stage::NotFoundPage
            && dir.not_found_path is Some),
{
}

/// The index page of a directory stands in it, under the name `index.html`.
pub proof fn the_index_page_is_in_the_directory(
    dir: ServedDir,
    lookup: Lookup,
    e: SerdirError,
    r: Resolution,
)
    requires
        dir.resolves(lookup, Err(e), r),
        lookup.stage == Stage::Requested,
        e is IsDirectory,
        dir.append_index_html,
        lookup.full_path@.len() > 0,
        lookup.full_path@.last() != SLASH,
    ensures
        r matches Resolution::Find(l) && l.path@ == lookup.full_path@ + seq![SLASH] + text(
            "index.html"@,
        ),
{
    let full = lookup.full_path@;
    assert(full.push(SLASH) + text("index.html"@) =~= full + seq![SLASH] + text("index.html"@));
}

/// The strategy decides which files are tried: without compression, only the file itself; with a
/// cache, that is asked if the client takes Brotli, and otherwise the file itself is tried; with
/// compressed files beside the original ones, those that both sides support, and then the file
/// itself.
pub proof fn the_strategy_decides_what_is_tried(
    strategy: CompressionStrategyInner,
    path: Seq<u8>,
    client: CompressionSupport,
    plan: SearchPlan,
)
    requires
        strategy.is_plan(path, client, plan),
    ensures
        plan is AskCache <==> strategy is Cached && client.br,
        plan matches SearchPlan::Try(s) ==> {
            &&& s.next == 0
            &&& s.files().len() > 0
            &&& s.files().last() == (path, ContentEncoding::Identity)
            &&& !(strategy is Static) ==> s.files().len() == 1
            &&& strategy matches CompressionStrategyInner::Static(server) ==> s.files()
                == candidates(path, client, server)
        },
{
}

/// The names of the fields that a served file has are different.
proof fn lemma_field_names()
    ensures
        "content-type"@ != "content-encoding"@,
        "content-type"@ != "vary"@,
        "content-encoding"@ != "vary"@,
{
    reveal_strlit("content-type");
    reveal_strlit("content-encoding");
    reveal_strlit("vary");
    assert("content-type"@.len() == 12);
    assert("content-encoding"@.len() == 16);
    assert("vary"@.len() == 4);
}

/// A value that is added to some fields is found, unless there was one of that name.
proof fn lemma_added_field(
    entries: Seq<(Seq<char>, Seq<Seq<u8>>)>,
    list: Seq<(Seq<char>, Seq<u8>)>,
    name: Seq<char>,
)
    requires
        all_have_values(entries),
        !has_field(entries, name),
    ensures
        all_have_values(with_values(entries, list)),
        first_value(with_values(entries, list), name) == first_listed(list, name),
    decreases list.len(),
{
    if list.len() > 0 {
        let before = with_values(entries, list.drop_last());
        let after = with_values(entries, list);
        let (n, v) = list.last();
        lemma_added_field(entries, list.drop_last(), name);
        lemma_find_entry(before, n);
        lemma_find_entry(before, name);
        let i = find_entry(before, n);
        let k = find_entry(before, name);
        assert(all_have_values(after)) by {
            assert forall|j: int| 0 <= j < after.len() implies (#[trigger] after[j]).1.len() > 0 by {
                if j < before.len() && j != i {
                    assert(after[j] == before[j]);
                }
            }
        }
        assert forall|j: int| 0 <= j < k implies (#[trigger] after[j]).0 != name by {
            assert(before[j].0 != name);
            if j != i {
                assert(after[j] == before[j]);
            }
        }
        if k < before.len() {
            lemma_find_entry_is(after, name, k);
            if k == i {
                assert(after[k].1[0] == before[k].1[0]);
            } else {
                assert(after[k] == before[k]);
            }
        } else if n == name {
            lemma_find_entry_is(after, name, i);
        } else {
            assert forall|j: int| 0 <= j < after.len() implies (#[trigger] after[j]).0 != name by {
                if j < before.len() {
                    assert(before[j].0 != name);
                    if j != i {
                        assert(after[j] == before[j]);
                    }
                }
            }
            lemma_find_entry_is(after, name, after.len() as int);
        }
    }
}

/// A served file says what it is: its content type is that of its extension, or the default one;
/// it names its encoding if it is encoded; and if there is a choice of encodings, it says that it
/// depends on what the client accepts. Fields that are common to all responses come first.
pub proof fn a_served_file_says_what_it_is(
    common: Seq<(Seq<char>, Seq<Seq<u8>>)>,
    types: Seq<(Seq<char>, Seq<u8>)>,
    default_type: Seq<u8>,
    extension: Seq<u8>,
    encoding: ContentEncoding,
    varies: bool,
)
    requires
        all_have_values(common),
        !has_field(common, "content-type"@),
        !has_field(common, "content-encoding"@),
        !has_field(common, "vary"@),
    ensures
        ({
            let headers = with_values(
                common,
                file_fields(types, default_type, extension, encoding, varies),
            );
            &&& first_value(headers, "content-type"@) == Some(
                if type_of(types, extension) is Some {
                    type_of(types, extension).unwrap()
                } else {
                    default_type
                },
            )
            &&& first_value(headers, "content-encoding"@) == (match encoding {
                ContentEncoding::Gzip => Some(text("gzip"@)),
                ContentEncoding::Brotli => Some(text("br"@)),
                ContentEncoding::Zstd => Some(text("zstd"@)),
                ContentEncoding::Identity => None,
            })
            &&& first_value(headers, "vary"@) == (if varies {
                Some(text("Accept-Encoding"@))
            } else {
                None
            })
        }),
{
    let list = file_fields(types, default_type, extension, encoding, varies);
    lemma_field_names();
    lemma_added_field(common, list, "content-type"@);
    lemma_added_field(common, list, "content-encoding"@);
    lemma_added_field(common, list, "vary"@);
    let none = Seq::<(Seq<char>, Seq<u8>)>::empty();
    let one = list.take(1);
    assert(one.drop_last() =~= none);
    assert(first_listed(none, "content-type"@) is None);
    assert(first_listed(none, "content-encoding"@) is None);
    assert(first_listed(none, "vary"@) is None);
    assert(first_listed(one, "content-type"@) == Some(list[0].1));
    assert(first_listed(one, "content-encoding"@) is None);
    assert(first_listed(one, "vary"@) is None);
    if list.len() == 1 {
        assert(list =~= one);
    } else {
        let two = list.take(2);
        assert(two.drop_last() =~= one);
        assert(first_listed(two, "content-type"@) == Some(list[0].1));
        if list.len() == 2 {
            assert(list =~= two);
        } else {
            assert(list.drop_last() =~= two);
            assert(first_listed(two, "content-encoding"@) == Some(list[1].1));
            assert(first_listed(two, "vary"@) is None);
        }
    }
}

/// What a file is found as is served with status 200, and the page that says that nothing was
/// found with status 404: to a request without conditions and ranges, with the whole content.
pub proof fn the_status_says_what_was_found(
    ent: Resource,
    req: Seq<(Seq<char>, Seq<Seq<u8>>)>,
    now: SystemTime,
    found: Response,
    missing: Response,
    content: Seq<u8>,
)
    requires
        is_answer(Ok(ent), "GET"@, req, now, found),
        is_answer(Err(SerdirError::NotFound(Some(ent))), "GET"@, req, now, missing),
        crate::conditional_laws::is_unconditional(req),
        first_value(req, "range"@) is None,
        content.len() == ent@.len,
    ensures
        status_number(found.status) == 200,
        status_number(missing.status) == 404,
        response_to("GET"@, req, ent@, 404, now).body.bytes(content) == content,
{
    the_whole_content_is_sent(req, ent@, 200, now, content);
    the_whole_content_is_sent(req, ent@, 404, now, content);
}

/// A request for which there is nothing to send is answered with the status of the error, which
/// is 404 if nothing was found, 400 if the path is bad, and 500 if something has gone wrong; and
/// with no header fields.
pub proof fn failures_are_answered_by_their_status(
    e: SerdirError,
    method: Seq<char>,
    req: Seq<(Seq<char>, Seq<Seq<u8>>)>,
    now: SystemTime,
    r: Response,
)
    requires
        is_answer(Err(e), method, req, now, r),
        !(e matches SerdirError::NotFound(page) && page is Some),
    ensures
        status_number(r.status) == (match e {
            SerdirError::NotFound(_) | SerdirError::IsDirectory(_) => 404,
            SerdirError::InvalidPath(_) => 400,
            _ => 500int,
        }),
        header_entries(r.headers).len() == 0,
{
}

/// Middleware answers like the service on its own wherever something was found, or a page says
/// that nothing was. Where there is no such page, or the path is bad, it passes the request on.
/// What has gone wrong otherwise it reports as such.
pub proof fn middleware_answers_like_the_service(
    result: Result<Resource, SerdirError>,
    method: Seq<char>,
    req: Seq<(Seq<char>, Seq<Seq<u8>>)>,
    now: SystemTime,
    action: MiddlewareAction,
)
    requires
        is_action(result, method, req, now, action),
    ensures
        action is PassOn <==> (result matches Err(e) && !(e matches SerdirError::NotFound(page)
            && page is Some) && (e.status() == 404 || e.status() == 400)),
        action matches MiddlewareAction::Respond(r) ==> is_answer(result, method, req, now, r),
{
}

/// A path is relative unless it begins with a separator, or on Windows with a drive.
pub proof fn a_path_is_relative_without_a_root(path: Seq<u8>)
    ensures
        is_relative(Platform::Unix, path) <==> path.len() == 0 || path[0] != SLASH,
        is_relative(Platform::Windows, path) <==> (path.len() == 0 || (path[0] != SLASH && path[0]
            != BACKSLASH)) && !(path.len() >= 2 && (65 <= path[0] <= 90 || 97 <= path[0] <= 122)
            && path[1] == COLON),
{
}

} // verus!
