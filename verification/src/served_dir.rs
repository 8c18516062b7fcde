//! Serves files from a local directory.
//!
//! Files are opened and read by the caller. A [`ServedDir`] cleans the path of a request
//! up, says which files to look for, and makes a [`Resource`] of the one that was found.

use crate::body::Body;
use crate::compression::{
    encoding_name, support_of, BrotliLevel, CachedCompression, CachedCompressionView,
    CompressionStrategy, CompressionStrategyInner, CompressionSupport, ContentEncoding,
    MatchedFile, SearchPlan, StaticCompression,
};
use crate::content_types::{
    add_extension, builtin_list, builtin_types, encoded, extension_types, find_type, type_of,
    ExtensionList,
};
use crate::error::SerdirError;
use crate::etag::{request_field, ETag};
use crate::etag_cache::{hash_of, no_hashes, EtagCache};
use crate::eviction::is_put;
use crate::file_info::{key_words, FileInfo};
use crate::headers::{
    all_have_values, clone_map, field_name, field_value, first_value, has_field, header_entries,
    insert_field, lemma_earlier_stay_first, lemma_find_entry, lemma_with_values_push, method_name,
    push_field, reason_phrase, static_value, status_code, status_number, with_field, with_values,
};
use crate::path::{
    below, has_drive, joined, path_fault, push_segment, resolve_below, slashed, starts_with_drive,
};
use crate::platform::Platform;
use crate::resource::{Resource, ResourceView};
use crate::serving::{
    can_serve, is_servable, plain, response_to, serve, Response, MAX_RESOURCE_FIELDS,
};
use crate::text::{
    has_prefix, lemma_text_ascii, lemma_text_concat, same, starts_with, text, to_vec, BACKSLASH,
    DOT, SLASH,
};
use http::{HeaderMap, HeaderName, HeaderValue, Method, StatusCode};
use std::io::Error;
use std::time::SystemTime;
use vstd::prelude::*;
use vstd::slice::slice_subrange;

verus! {

/// The most header names that may be common to all responses: those of a resource, less the
/// three that a served file adds.
pub const MAX_COMMON_FIELDS: usize = 6_542;

/// The path of a file within a directory that a request path asks for: without the prefix
/// that is stripped from all paths, and without one leading slash. The prefix alone stands
/// for the directory itself. `None` if the path does not have the prefix.
pub open spec fn requested_path(prefix: Option<Seq<u8>>, path: Seq<u8>) -> Option<Seq<u8>> {
    match prefix {
        None => Some(without_slash(path)),
        Some(p) => if path == p {
            Some(seq![DOT])
        } else if has_prefix(path, p) {
            Some(without_slash(path.skip(p.len() as int)))
        } else {
            None
        },
    }
}

/// A path without one leading slash.
pub open spec fn without_slash(path: Seq<u8>) -> Seq<u8> {
    if path.len() > 0 && path[0] == SLASH {
        path.skip(1)
    } else {
        path
    }
}

/// The bytes of an optional string.
pub open spec fn optional_text(s: Option<String>) -> Option<Seq<u8>> {
    match s {
        Some(s) => Some(text(s@)),
        None => None,
    }
}

/// Paths with and without a leading slash are equivalent, also behind the prefix that is
/// stripped from all paths.
pub proof fn a_leading_slash_makes_no_difference(prefix: Option<Seq<u8>>, path: Seq<u8>)
    requires
        path.len() > 0,
        path[0] != SLASH,
    ensures
        match prefix {
            None => requested_path(None, seq![SLASH] + path) == requested_path(None, path),
            Some(p) => requested_path(prefix, p + seq![SLASH] + path) == requested_path(
                prefix,
                p + path,
            ),
        },
{
    assert((seq![SLASH] + path).skip(1) =~= path);
    if let Some(p) = prefix {
        let with = p + seq![SLASH] + path;
        let without = p + path;
        assert(with.take(p.len() as int) =~= p);
        assert(without.take(p.len() as int) =~= p);
        assert(with.skip(p.len() as int) =~= seq![SLASH] + path);
        assert(without.skip(p.len() as int) =~= path);
        assert(with.len() != p.len());
        assert(without.len() != p.len());
    }
}

/// There is nothing at a path without the prefix that is stripped from all paths.
pub proof fn paths_without_the_prefix_are_not_served(prefix: Seq<u8>, path: Seq<u8>)
    ensures
        requested_path(Some(prefix), path) is None <==> !has_prefix(path, prefix),
{
    assert(prefix.take(prefix.len() as int) =~= prefix);
}

/// The header fields that are common to all responses are kept: a served file adds its own
/// behind them.
pub proof fn common_fields_are_kept(
    common: Seq<(Seq<char>, Seq<Seq<u8>>)>,
    added: Seq<(Seq<char>, Seq<u8>)>,
    name: Seq<char>,
)
    requires
        all_have_values(common),
        has_field(common, name),
    ensures
        first_value(with_values(common, added), name) == first_value(common, name),
{
    lemma_earlier_stay_first(common, added, name);
}

/// Whether a path is relative on a platform: it does not start with a separator, nor, where
/// there are drives, with one.
pub open spec fn is_relative(platform: Platform, path: Seq<u8>) -> bool {
    &&& path.len() > 0 ==> slashed(platform, path[0]) != SLASH
    &&& !(platform == Platform::Windows && has_drive(platform, path))
}

/// What is being looked for in the course of serving a request.
#[derive(Copy, Clone, Debug, PartialEq, Eq, Structural)]
pub enum Stage {
    /// The file that was asked for.
    Requested,
    /// The index page of the directory that was asked for.
    Index,
    /// The page to serve when nothing is found.
    NotFoundPage,
}

/// A search for a file.
pub struct Lookup {
    /// The path that was asked for, below the directory.
    pub full_path: Vec<u8>,
    /// The path to look for now.
    pub path: Vec<u8>,
    /// The encodings that the client supports.
    pub preferred: CompressionSupport,
    /// What is being looked for.
    pub stage: Stage,
}

/// What comes of a search for a file.
pub enum Resolution {
    /// Another file has to be looked for.
    Find(Lookup),
    /// The file is to be served.
    Entity(MatchedFile),
    /// Nothing was found, and the file is to be served to say so.
    NotFoundEntity(MatchedFile),
    /// The request fails.
    Failed(SerdirError),
}

/// The resource that is served for what a request came to, if there is one.
pub open spec fn served_resource(result: Result<Resource, SerdirError>) -> Option<ResourceView> {
    match result {
        Ok(ent) => Some(ent@),
        Err(SerdirError::NotFound(Some(ent))) => Some(ent@),
        Err(_) => None,
    }
}

/// Whether the resource that is served for what a request came to, if there is one, is valid.
pub open spec fn is_valid(result: Result<Resource, SerdirError>) -> bool {
    served_resource(result) matches Some(ent) ==> ent.wf() && ent.headers.len()
        <= MAX_RESOURCE_FIELDS
}

/// Whether a request can be answered with what it came to.
pub open spec fn is_answerable(
    result: Result<Resource, SerdirError>,
    method: Seq<char>,
    req: Seq<(Seq<char>, Seq<Seq<u8>>)>,
    now: SystemTime,
) -> bool {
    served_resource(result) matches Some(ent) ==> is_servable(method, req, ent, now)
}

/// Whether a request can be answered with what it came to.
pub fn can_answer(
    result: &Result<Resource, SerdirError>,
    method: &Method,
    req_hdrs: &HeaderMap<HeaderValue>,
    now: SystemTime,
) -> (r: bool)
    ensures
        r == is_answerable(*result, method_name(*method), header_entries(*req_hdrs), now),
{
    match result {
        Ok(ent) => can_serve(ent, method, req_hdrs, now),
        Err(SerdirError::NotFound(Some(ent))) => can_serve(ent, method, req_hdrs, now),
        Err(_) => true,
    }
}

/// Whether `r` is the response to a request that came to `result`.
pub open spec fn is_answer(
    result: Result<Resource, SerdirError>,
    method: Seq<char>,
    req: Seq<(Seq<char>, Seq<Seq<u8>>)>,
    now: SystemTime,
    r: Response,
) -> bool {
    match result {
        Ok(ent) => r.is(response_to(method, req, ent@, 200, now), ent@.content),
        Err(SerdirError::NotFound(Some(ent))) => r.is(
            response_to(method, req, ent@, 404, now),
            ent@.content,
        ),
        Err(e) => r.is(plain(e.status(), reason_or_unknown(e.status())), None),
    }
}

/// The reason phrase of a status number, as the text of a response.
pub open spec fn reason_or_unknown(status: u16) -> Seq<char> {
    match reason_phrase(status) {
        Some(reason) => reason,
        None => "Unknown"@,
    }
}

/// Joins a path to a directory.
fn join_text(dir: &str, path: &str) -> (r: String)
    ensures
        text(r@) == joined(text(dir@), text(path@)),
{
    let bytes = dir.as_bytes();
    let n: usize = bytes.len();
    let mut r = String::from_str(dir);
    if n > 0 && bytes[n - 1] != SLASH {
        r.append("/");
        proof {
            reveal_strlit("/");
            lemma_text_ascii("/"@);
            lemma_text_concat(dir@, "/"@);
            assert(text("/"@) =~= seq![SLASH]);
            assert(text(r@) =~= text(dir@).push(SLASH));
        }
    }
    proof {
        lemma_text_concat(r@, path@);
    }
    r.append(path);
    assert(text(r@) =~= joined(text(dir@), text(path@)));
    r
}

/// A directory of files to serve.
///
/// The path of a request is cleaned up by stripping the configured prefix and one leading
/// slash, so that `foo` and `/foo` are equivalent. It is refused if it contains a NUL byte or
/// a `..` segment, if it is absolute, or if it starts with a Windows path prefix. What is
/// left is a relative path, which is resolved below the directory.
pub struct ServedDir {
    /// The path of the directory.
    pub dirpath: String,
    /// The platform that the directory is on.
    pub platform: Platform,
    /// How compressed files are obtained.
    pub compression_strategy: CompressionStrategyInner,
    /// A prefix that is stripped from all paths.
    pub strip_prefix: Option<String>,
    /// The content types of file extensions.
    pub known_extensions: ExtensionList,
    /// The content type of files with other extensions.
    pub default_content_type: HeaderValue,
    /// Header fields of all successful responses.
    pub common_headers: HeaderMap<HeaderValue>,
    /// Whether the index page of a directory is served for the directory.
    pub append_index_html: bool,
    /// The path of the page to serve when nothing is found.
    pub not_found_path: Option<String>,
    /// The entity tags of files that have been served.
    pub etag_cache: EtagCache,
}

/// The header fields that a served file has besides the common ones: its content type, its
/// encoding if it has one, and, if there is a choice of encodings, a note that it depends on
/// what the client accepts.
pub open spec fn file_fields(
    types: Seq<(Seq<char>, Seq<u8>)>,
    default_type: Seq<u8>,
    extension: Seq<u8>,
    encoding: ContentEncoding,
    varies: bool,
) -> Seq<(Seq<char>, Seq<u8>)> {
    seq![
        (
            "content-type"@,
            match type_of(types, extension) {
                Some(t) => t,
                None => default_type,
            },
        ),
    ] + (match encoding_name(encoding) {
        Some(name) => seq![("content-encoding"@, text(name))],
        None => Seq::empty(),
    }) + (if varies {
        seq![("vary"@, text("Accept-Encoding"@))]
    } else {
        Seq::empty()
    })
}

impl ServedDir {
    /// Whether there is room for the header fields of a file.
    pub open spec fn wf(self) -> bool {
        header_entries(self.common_headers).len() <= MAX_COMMON_FIELDS
    }

    /// Whether `r` is how serving a request for `path` begins, by a client that sends `accepted`
    /// as `Accept-Encoding`.
    pub open spec fn begins(
        self,
        path: Seq<u8>,
        accepted: Option<Seq<u8>>,
        r: Result<Lookup, SerdirError>,
    ) -> bool {
        match requested_path(optional_text(self.strip_prefix), path) {
            None => r == Err::<Lookup, SerdirError>(SerdirError::NotFound(None)),
            Some(p) => match path_fault(self.platform, p) {
                Some(msg) => r matches Err(SerdirError::InvalidPath(m)) && m@ == msg,
                None => r matches Ok(l) && l.full_path@ == below(
                    self.platform,
                    text(self.dirpath@),
                    p,
                ) && l.path@ == l.full_path@ && l.preferred == support_of(accepted) && l.stage
                    == Stage::Requested,
            },
        }
    }

    /// Whether `r` is what comes of a search for a file that has given `result`.
    pub open spec fn resolves(
        self,
        lookup: Lookup,
        result: Result<MatchedFile, SerdirError>,
        r: Resolution,
    ) -> bool {
        match result {
            Ok(matched) => r == (if lookup.stage == Stage::NotFoundPage {
                Resolution::NotFoundEntity(matched)
            } else {
                Resolution::Entity(matched)
            }),
            Err(e) => if lookup.stage == Stage::Requested && e is IsDirectory
                && self.append_index_html {
                r matches Resolution::Find(l) && l.full_path == lookup.full_path && l.path@
                    == joined(lookup.full_path@, text("index.html"@)) && l.preferred
                    == lookup.preferred && l.stage == Stage::Index
            } else if lookup.stage != Stage::NotFoundPage && e is NotFound
                && self.not_found_path is Some {
                r matches Resolution::Find(l) && l.full_path == lookup.full_path && l.path@
                    == text(self.not_found_path.unwrap()@) && l.preferred == lookup.preferred
                    && l.stage == Stage::NotFoundPage
            } else {
                r == Resolution::Failed(e)
            },
        }
    }

    /// Returns a builder for a `ServedDir` that serves files from `path`. It is an error if
    /// that is not a directory.
    pub fn builder(path: &str, is_dir: bool) -> (r: Result<ServedDirBuilder, SerdirError>)
        ensures
            if is_dir {
                r matches Ok(b) && b.is_default(path@)
            } else {
                r matches Err(SerdirError::ConfigError(msg)) && msg@ == "path is not a directory: "@
                    + path@
            },
    {
        if !is_dir {
            let msg = String::from_str("path is not a directory: ").concat(path);
            return Err(SerdirError::config_error(msg));
        }
        proof {
            reveal_strlit("application/octet-stream");
        }
        Ok(
            ServedDirBuilder {
                dirpath: String::from_str(path),
                platform: Platform::Unix,
                compression_strategy: CompressionStrategy::none(),
                strip_prefix: None,
                known_extensions: ServedDirBuilder::default_extensions(),
                default_content_type: static_value("application/octet-stream"),
                common_headers: HeaderMap::new(),
                append_index_html: false,
                not_found_path: None,
            },
        )
    }

    /// Returns the path of the directory.
    pub fn dir(&self) -> (r: &str)
        ensures
            r@ == self.dirpath@,
    {
        self.dirpath.as_str()
    }

    /// Ensures that a path is safe, and resolves it below the directory.
    pub fn validate_path(&self, path: &[u8]) -> (r: Result<Vec<u8>, SerdirError>)
        ensures
            match path_fault(self.platform, path@) {
                Some(msg) => r matches Err(SerdirError::InvalidPath(m)) && m@ == msg,
                None => r matches Ok(full) && full@ == below(
                    self.platform,
                    text(self.dirpath@),
                    path@,
                ),
            },
    {
        match resolve_below(self.platform, self.dirpath.as_str().as_bytes(), path) {
            Err(msg) => Err(SerdirError::invalid_path(String::from_str(msg))),
            Ok(full) => Ok(full),
        }
    }

    /// Begins to serve a request: cleans its path up, and says which file to look for.
    pub fn begin(&self, path: &str, req_hdrs: &HeaderMap<HeaderValue>) -> (r: Result<
        Lookup,
        SerdirError,
    >)
        ensures
            self.begins(text(path@), request_field(*req_hdrs, "accept-encoding"@), r),
    {
        let bytes = path.as_bytes();
        let dot: Vec<u8> = vec![DOT];
        assert(dot@ =~= seq![DOT]);
        let stripped: &[u8] = match &self.strip_prefix {
            None => bytes,
            Some(prefix) => {
                let p = prefix.as_str().as_bytes();
                if same(bytes, p) {
                    dot.as_slice()
                } else if starts_with(bytes, p) {
                    let rest = slice_subrange(bytes, p.len(), bytes.len());
                    assert(rest@ =~= bytes@.skip(p@.len() as int));
                    rest
                } else {
                    return Err(SerdirError::not_found(None));
                }
            },
        };
        let relative: &[u8] = if stripped.len() > 0 && stripped[0] == SLASH {
            let rest = slice_subrange(stripped, 1, stripped.len());
            assert(rest@ =~= stripped@.skip(1));
            rest
        } else {
            stripped
        };
        assert(relative@ == without_slash(stripped@));
        assert(without_slash(seq![DOT]) == seq![DOT]);
        let full_path = match self.validate_path(relative) {
            Err(e) => {
                return Err(e);
            },
            Ok(full_path) => full_path,
        };
        let preferred = CompressionSupport::detect(req_hdrs);
        let path = to_vec(full_path.as_slice());
        Ok(Lookup { full_path, path, preferred, stage: Stage::Requested })
    }

    /// Says what comes of a search for a file. For a directory, its index page may be looked
    /// for; and if nothing is found, a page to say so.
    pub fn resolve(&self, lookup: Lookup, result: Result<MatchedFile, SerdirError>) -> (r: Resolution)
        ensures
            self.resolves(lookup, result, r),
    {
        match result {
            Ok(matched) => if lookup.stage == Stage::NotFoundPage {
                Resolution::NotFoundEntity(matched)
            } else {
                Resolution::Entity(matched)
            },
            Err(e) => {
                match &e {
                    SerdirError::IsDirectory(_) => if lookup.stage == Stage::Requested
                        && self.append_index_html {
                        let mut path = to_vec(lookup.full_path.as_slice());
                        push_segment(&mut path, "index.html".as_bytes());
                        return Resolution::Find(
                            Lookup {
                                full_path: lookup.full_path,
                                path,
                                preferred: lookup.preferred,
                                stage: Stage::Index,
                            },
                        );
                    },
                    SerdirError::NotFound(_) => if lookup.stage != Stage::NotFoundPage {
                        if let Some(page) = &self.not_found_path {
                            return Resolution::Find(
                                Lookup {
                                    full_path: lookup.full_path,
                                    path: to_vec(page.as_str().as_bytes()),
                                    preferred: lookup.preferred,
                                    stage: Stage::NotFoundPage,
                                },
                            );
                        }
                    },
                    _ => {},
                }
                Resolution::Failed(e)
            },
        }
    }

    /// How to find a file at `path` for a client that supports the given encodings.
    pub fn find_file(&self, path: &[u8], preferred: CompressionSupport) -> (r: SearchPlan)
        ensures
            self.compression_strategy.is_plan(path@, preferred, r),
    {
        self.compression_strategy.find_file(path, preferred)
    }

    /// Makes a resource of a file that was found and its entity tag.
    pub fn create_entity(&self, matched: &MatchedFile, etag: Option<ETag>) -> (r: Resource)
        requires
            self.wf(),
        ensures
            r@ == (ResourceView {
                len: matched.file_info.len,
                mtime: matched.file_info.mtime,
                content: None,
                headers: with_values(
                    header_entries(self.common_headers),
                    file_fields(
                        extension_types(self.known_extensions@),
                        field_value(self.default_content_type),
                        matched.extension@,
                        matched.content_encoding,
                        !(self.compression_strategy is Off),
                    ),
                ),
                etag,
            }),
            r@.wf(),
            r@.headers.len() <= MAX_RESOURCE_FIELDS,
    {
        proof {
            reveal_strlit("content-type");
            reveal_strlit("content-encoding");
            reveal_strlit("vary");
            reveal_strlit("Accept-Encoding");
        }
        let ghost common = header_entries(self.common_headers);
        let ghost mut list: Seq<(Seq<char>, Seq<u8>)> = Seq::empty();
        let mut headers = clone_map(&self.common_headers);
        let content_type = match find_type(&self.known_extensions, matched.extension.as_slice()) {
            Some(t) => t.clone(),
            None => self.default_content_type.clone(),
        };
        proof {
            lemma_with_values_push(common, list, ("content-type"@, field_value(content_type)));
            list = list.push(("content-type"@, field_value(content_type)));
        }
        push_field(&mut headers, "content-type", content_type);
        if let Some(value) = matched.content_encoding.get_header_value() {
            proof {
                lemma_with_values_push(common, list, ("content-encoding"@, field_value(value)));
                list = list.push(("content-encoding"@, field_value(value)));
            }
            push_field(&mut headers, "content-encoding", value);
        }
        if !self.compression_strategy.is_none() {
            proof {
                lemma_with_values_push(common, list, ("vary"@, text("Accept-Encoding"@)));
                list = list.push(("vary"@, text("Accept-Encoding"@)));
            }
            push_field(&mut headers, "vary", static_value("Accept-Encoding"));
        }
        assert(list =~= file_fields(
            extension_types(self.known_extensions@),
            field_value(self.default_content_type),
            matched.extension@,
            matched.content_encoding,
            !(self.compression_strategy is Off),
        ));
        Resource::for_file_with_metadata(matched.file_info, headers, etag)
    }

    /// The entity tag of a file, if it is known. The inner `None` stands for a file that is
    /// known to have no tag.
    pub fn known_etag(&self, file_info: &FileInfo) -> (r: Option<Option<ETag>>)
        ensures
            match r {
                Some(etag) => self.etag_cache@.contains_key(key_words(*file_info))
                    && self.etag_cache@[key_words(*file_info)] == hash_of(etag),
                None => !self.etag_cache@.contains_key(key_words(*file_info)),
            },
    {
        self.etag_cache.get(file_info)
    }

    /// Takes the hash of a file whose entity tag was not known, and keeps the tag.
    pub fn calculate_etag(&mut self, file_info: FileInfo, hashed: Result<Option<u64>, Error>) -> (r:
        Result<Option<ETag>, SerdirError>)
        ensures
            match hashed {
                Err(e) => r matches Err(err) && err.comes_from(e) && *final(self) == *old(self),
                Ok(hash) => if old(self).etag_cache@.contains_key(key_words(file_info)) {
                    r matches Ok(etag) && hash_of(etag) == old(self).etag_cache@[key_words(
                        file_info,
                    )] && final(self).etag_cache@ == old(self).etag_cache@
                } else {
                    r matches Ok(etag) && hash_of(etag) == hash && is_put(
                        old(self).etag_cache@,
                        key_words(file_info),
                        hash,
                        final(self).etag_cache@,
                    )
                },
            },
            old(self).etag_cache.wf() ==> final(self).etag_cache.wf(),
            final(self).dirpath == old(self).dirpath,
            final(self).platform == old(self).platform,
            final(self).compression_strategy == old(self).compression_strategy,
            final(self).strip_prefix == old(self).strip_prefix,
            final(self).known_extensions == old(self).known_extensions,
            final(self).default_content_type == old(self).default_content_type,
            final(self).common_headers == old(self).common_headers,
            final(self).append_index_html == old(self).append_index_html,
            final(self).not_found_path == old(self).not_found_path,
    {
        match hashed {
            Err(e) => Err(SerdirError::from(e)),
            Ok(hash) => match self.etag_cache.get_or_insert(file_info, Ok(hash)) {
                Err(e) => Err(SerdirError::from(e)),
                Ok(etag) => Ok(etag),
            },
        }
    }

    /// Makes the response to a request from what it came to: a resource, a page that says
    /// that nothing was found, or just the reason why nothing is served.
    pub fn get_response(
        result: Result<Resource, SerdirError>,
        method: &Method,
        req_hdrs: &HeaderMap<HeaderValue>,
        now: SystemTime,
    ) -> (r: Response)
        requires
            is_valid(result),
            is_answerable(result, method_name(*method), header_entries(*req_hdrs), now),
        ensures
            is_answer(result, method_name(*method), header_entries(*req_hdrs), now, r),
    {
        match result {
            Ok(ent) => serve(ent, method, req_hdrs, status_code(200), now),
            Err(SerdirError::NotFound(Some(ent))) => serve(
                ent,
                method,
                req_hdrs,
                status_code(404),
                now,
            ),
            Err(e) => ServedDir::make_status_response(e.status_code()),
        }
    }

    /// Makes the response to a request from what it came to, unless a date would have to be
    /// written that has no HTTP form.
    pub fn try_get_response(
        result: Result<Resource, SerdirError>,
        method: &Method,
        req_hdrs: &HeaderMap<HeaderValue>,
        now: SystemTime,
    ) -> (r: Option<Response>)
        requires
            is_valid(result),
        ensures
            match r {
                Some(resp) => is_answerable(
                    result,
                    method_name(*method),
                    header_entries(*req_hdrs),
                    now,
                ) && is_answer(
                    result,
                    method_name(*method),
                    header_entries(*req_hdrs),
                    now,
                    resp,
                ),
                None => !is_answerable(
                    result,
                    method_name(*method),
                    header_entries(*req_hdrs),
                    now,
                ),
            },
    {
        if can_answer(&result, method, req_hdrs, now) {
            Some(ServedDir::get_response(result, method, req_hdrs, now))
        } else {
            None
        }
    }

    /// Makes a response that says nothing but its status.
    pub fn make_status_response(status: StatusCode) -> (r: Response)
        ensures
            r.is(plain(status_number(status), reason_or_unknown(status_number(status))), None),
    {
        let reason = match status.canonical_reason() {
            Some(reason) => reason,
            None => "Unknown",
        };
        Response { status, headers: HeaderMap::new(), body: Body::from(reason) }
    }

    /// A name for the way in which compressed files are obtained.
    pub fn strategy_name(&self) -> (r: &'static str)
        ensures
            r@ == (match self.compression_strategy {
                CompressionStrategyInner::Static(_) => "static"@,
                CompressionStrategyInner::Cached(_) => "cached"@,
                CompressionStrategyInner::Off => "none"@,
            }),
    {
        match self.compression_strategy {
            CompressionStrategyInner::Static(_) => "static",
            CompressionStrategyInner::Cached(_) => "cached",
            CompressionStrategyInner::Off => "none",
        }
    }
}

/// A builder for [`ServedDir`], made by [`ServedDir::builder`].
pub struct ServedDirBuilder {
    /// The path of the directory.
    pub dirpath: String,
    /// The platform that the directory is on.
    pub platform: Platform,
    /// How compressed files are obtained.
    pub compression_strategy: CompressionStrategy,
    /// A prefix that is stripped from all paths.
    pub strip_prefix: Option<String>,
    /// The content types of file extensions.
    pub known_extensions: ExtensionList,
    /// The content type of files with other extensions.
    pub default_content_type: HeaderValue,
    /// Header fields of all successful responses.
    pub common_headers: HeaderMap<HeaderValue>,
    /// Whether the index page of a directory is served for the directory.
    pub append_index_html: bool,
    /// The path of the page to serve when nothing is found.
    pub not_found_path: Option<String>,
}

impl ServedDirBuilder {
    /// Whether these are the default settings for a directory.
    pub open spec fn is_default(self, path: Seq<char>) -> bool {
        &&& self.dirpath@ == path
        &&& self.platform == Platform::Unix
        &&& self.compression_strategy.0 is Off
        &&& self.strip_prefix is None
        &&& extension_types(self.known_extensions@) == encoded(builtin_types())
        &&& field_value(self.default_content_type) == text("application/octet-stream"@)
        &&& header_entries(self.common_headers).len() == 0
        &&& !self.append_index_html
        &&& self.not_found_path is None
    }

    /// Sets how compressed files are obtained.
    pub fn compression(self, strategy: CompressionStrategy) -> (r: Self)
        ensures
            r == (ServedDirBuilder { compression_strategy: strategy, ..self }),
    {
        ServedDirBuilder { compression_strategy: strategy, ..self }
    }

    /// Looks for pre-compressed files of the given encodings.
    pub fn static_compression(self, br: bool, gzip: bool, zstd: bool) -> (r: Self)
        ensures
            r == (ServedDirBuilder {
                compression_strategy: CompressionStrategy(
                    CompressionStrategyInner::Static(CompressionSupport { gzip, br, zstd }),
                ),
                ..self
            }),
    {
        let strategy = StaticCompression::none().brotli(br).gzip(gzip).zstd(zstd);
        self.compression(CompressionStrategy::from(strategy))
    }

    /// Compresses files with Brotli when they are asked for.
    pub fn cached_compression(self, level: BrotliLevel) -> (r: Self)
        ensures
            r == (ServedDirBuilder { compression_strategy: r.compression_strategy, ..self }),
            r.compression_strategy.0 matches CompressionStrategyInner::Cached(cache) && cache@
                == crate::compression::initial_cache(
                CachedCompressionView {
                    compression_level: level.number(),
                    ..crate::compression::default_settings()
                },
            ),
    {
        let strategy = CachedCompression::new().compression_level(level.level());
        self.compression(CompressionStrategy::from(strategy))
    }

    /// Serves original files only.
    pub fn no_compression(self) -> (r: Self)
        ensures
            r == (ServedDirBuilder { compression_strategy: r.compression_strategy, ..self }),
            r.compression_strategy.0 is Off,
    {
        self.compression(CompressionStrategy::none())
    }

    /// Sets whether the index page of a directory is served for the directory. If not, there
    /// is nothing at directory paths.
    pub fn append_index_html(self, append: bool) -> (r: Self)
        ensures
            r == (ServedDirBuilder { append_index_html: append, ..self }),
    {
        ServedDirBuilder { append_index_html: append, ..self }
    }

    /// Sets the platform that the directory is on. Unless set, it is Unix.
    pub fn platform(self, platform: Platform) -> (r: Self)
        ensures
            r == (ServedDirBuilder { platform, ..self }),
    {
        ServedDirBuilder { platform, ..self }
    }

    /// Sets a prefix to strip from the request path. There is nothing at paths without it.
    pub fn strip_prefix(self, prefix: String) -> (r: Self)
        ensures
            r == (ServedDirBuilder { strip_prefix: Some(prefix), ..self }),
    {
        ServedDirBuilder { strip_prefix: Some(prefix), ..self }
    }

    /// Sets the content types of file extensions, in place of the builtin ones.
    pub fn known_extensions(self, extensions: ExtensionList) -> (r: Self)
        ensures
            r == (ServedDirBuilder { known_extensions: extensions, ..self }),
    {
        ServedDirBuilder { known_extensions: extensions, ..self }
    }

    /// Sets the content type of one file extension, which is given without a leading dot.
    pub fn known_extension(self, extension: String, content_type: HeaderValue) -> (r: Self)
        ensures
            r == (ServedDirBuilder { known_extensions: r.known_extensions, ..self }),
            extension_types(r.known_extensions@) == extension_types(self.known_extensions@).push(
                (extension@, field_value(content_type)),
            ),
    {
        let mut builder = self;
        add_extension(&mut builder.known_extensions, extension, content_type);
        builder
    }

    /// Sets the content type of files with other extensions.
    pub fn default_content_type(self, content_type: HeaderValue) -> (r: Self)
        ensures
            r == (ServedDirBuilder { default_content_type: content_type, ..self }),
    {
        ServedDirBuilder { default_content_type: content_type, ..self }
    }

    /// Adds or replaces a header field of all successful responses.
    pub fn common_header(self, name: HeaderName, value: HeaderValue) -> (r: Self)
        requires
            header_entries(self.common_headers).len() < MAX_COMMON_FIELDS,
        ensures
            r == (ServedDirBuilder { common_headers: r.common_headers, ..self }),
            header_entries(r.common_headers) == with_field(
                header_entries(self.common_headers),
                field_name(name),
                field_value(value),
            ),
            header_entries(r.common_headers).len() <= header_entries(self.common_headers).len() + 1,
    {
        let mut builder = self;
        proof {
            lemma_find_entry(header_entries(builder.common_headers), field_name(name));
        }
        insert_field(&mut builder.common_headers, name, value);
        builder
    }

    /// The path of a file below the directory.
    pub fn path_below(&self, path: &str) -> (r: String)
        ensures
            text(r@) == joined(text(self.dirpath@), text(path@)),
    {
        join_text(self.dirpath.as_str(), path)
    }

    /// Sets the path of the page to serve when nothing is found. It is relative to the
    /// directory, and has to be that of a file; `is_file` says whether it is.
    pub fn not_found_path(self, path: &str, is_file: bool) -> (r: Result<Self, SerdirError>)
        ensures
            if !is_relative(self.platform, text(path@)) {
                r matches Err(SerdirError::ConfigError(msg)) && msg@
                    == "not_found_path must be relative"@
            } else if !is_file {
                r matches Err(SerdirError::ConfigError(msg)) && text(msg@) == text(
                    "not_found_path is not a file: "@,
                ) + joined(text(self.dirpath@), text(path@))
            } else {
                r matches Ok(b) && b == (ServedDirBuilder {
                    not_found_path: b.not_found_path,
                    ..self
                }) && optional_text(b.not_found_path) == Some(
                    joined(text(self.dirpath@), text(path@)),
                )
            },
    {
        let bytes = path.as_bytes();
        let n = bytes.len();
        let windows = self.platform == Platform::Windows;
        let rooted = n > 0 && (bytes[0] == SLASH || (windows && bytes[0] == BACKSLASH));
        if rooted || (windows && starts_with_drive(self.platform, bytes)) {
            return Err(
                SerdirError::config_error(String::from_str("not_found_path must be relative")),
            );
        }
        let full_path = self.path_below(path);
        if !is_file {
            let msg = String::from_str("not_found_path is not a file: ").concat(
                full_path.as_str(),
            );
            proof {
                lemma_text_concat("not_found_path is not a file: "@, full_path@);
            }
            return Err(SerdirError::config_error(msg));
        }
        Ok(ServedDirBuilder { not_found_path: Some(full_path), ..self })
    }

    /// Builds the [`ServedDir`].
    pub fn build(self) -> (r: ServedDir)
        ensures
            r.dirpath == self.dirpath,
            r.platform == self.platform,
            r.compression_strategy == self.compression_strategy.0,
            r.strip_prefix == self.strip_prefix,
            r.known_extensions == self.known_extensions,
            r.default_content_type == self.default_content_type,
            r.common_headers == self.common_headers,
            r.append_index_html == self.append_index_html,
            r.not_found_path == self.not_found_path,
            r.etag_cache@ == no_hashes(),
            r.etag_cache.wf(),
    {
        ServedDir {
            dirpath: self.dirpath,
            platform: self.platform,
            compression_strategy: self.compression_strategy.into_inner(),
            strip_prefix: self.strip_prefix,
            known_extensions: self.known_extensions,
            default_content_type: self.default_content_type,
            common_headers: self.common_headers,
            append_index_html: self.append_index_html,
            not_found_path: self.not_found_path,
            etag_cache: EtagCache::new(),
        }
    }

    /// The builtin content types of common web file extensions.
    pub fn default_extensions() -> (r: ExtensionList)
        ensures
            extension_types(r@) == encoded(builtin_types()),
    {
        builtin_list()
    }
}

} // verus!
