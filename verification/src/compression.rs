//! Content encodings: what the client accepts, and what the server offers.

use crate::brotli_cache::{
    default_text_types, is_power_of_two, no_files, texts, BrotliCache, BrotliCacheBuilder,
    BrotliCacheView,
};
use crate::error::SerdirError;
use crate::etag::request_field;
use crate::file_info::{path_hash_of, FileInfo, FileKind};
use crate::headers::{field_value, get_named, static_value};
use crate::path::{append_extension, extension, extension_of, with_extension};
use crate::text::{
    all_visible, find_byte, find_from, has_prefix, is_digit, lemma_find_byte, lemma_text_ascii,
    numeral_value, same, split, starts_with, strip, text, to_vec, trim, COMMA, DOT, SEMICOLON, ZERO,
};
use http::{HeaderMap, HeaderValue};
use std::io::Error;
use std::time::SystemTime;
use vstd::prelude::*;
use vstd::slice::slice_subrange;

verus! {

/// Whether every byte is a decimal digit.
pub open spec fn all_digits(s: Seq<u8>) -> bool {
    forall|i: int| 0 <= i < s.len() ==> is_digit(#[trigger] s[i])
}

/// Whether every byte is `0`.
pub open spec fn all_zeros(s: Seq<u8>) -> bool {
    forall|i: int| 0 <= i < s.len() ==> #[trigger] s[i] == ZERO
}

/// The thousandths that up to three decimals stand for.
pub open spec fn thousandths(decimals: Seq<u8>) -> u16 {
    let n = numeral_value(decimals);
    if decimals.len() == 1 {
        (n * 100) as u16
    } else if decimals.len() == 2 {
        (n * 10) as u16
    } else {
        n as u16
    }
}

/// A quality value of RFC 7231 section 5.3.1, in thousandths:
///
/// ```text
/// qvalue = ( "0" [ "." 0*3DIGIT ] )
///        / ( "1" [ "." 0*3("0") ] )
/// ```
pub open spec fn qvalue(s: Seq<u8>) -> Option<u16> {
    let decimals = s.skip(2);
    if s.len() == 0 || s.len() > 5 {
        None
    } else if s.len() >= 2 && s[1] != DOT {
        None
    } else if s[0] == ZERO {
        if s.len() <= 2 {
            Some(0)
        } else if all_digits(decimals) {
            Some(thousandths(decimals))
        } else {
            None
        }
    } else if s[0] == ZERO + 1 {
        if s.len() <= 2 || all_zeros(decimals) {
            Some(1000)
        } else {
            None
        }
    } else {
        None
    }
}

/// Parses a quality value into an integer from 0 to 1000.
pub fn parse_qvalue(s: &str) -> (r: Result<u16, ()>)
    ensures
        match qvalue(text(s@)) {
            Some(q) => r == Ok::<u16, ()>(q) && q <= 1000,
            None => r == Err::<u16, ()>(()),
        },
{
    match parse_quality(s.as_bytes()) {
        Some(q) => Ok(q),
        None => Err(()),
    }
}

/// Parses a quality value.
fn parse_quality(s: &[u8]) -> (r: Option<u16>)
    ensures
        r == qvalue(s@),
        r matches Some(q) ==> q <= 1000,
{
    if s.len() == 0 || s.len() > 5 || (s.len() >= 2 && s[1] != DOT) {
        return None;
    }
    let one = s[0] == ZERO + 1;
    if s[0] != ZERO && !one {
        return None;
    }
    let ghost decimals = s@.skip(2);
    let mut value: u16 = 0;
    let mut scale: u16 = 1000;
    let mut i: usize = 2;
    assert(s@.len() > 2 ==> decimals.take(0) =~= Seq::empty());
    while i < s.len()
        invariant
            1 <= s@.len() <= 5,
            2 <= i <= 5,
            s@.len() == 1 ==> i == 2,
            s@.len() >= 2 ==> i <= s@.len(),
            decimals == s@.skip(2),
            one == (s@[0] == ZERO + 1),
            s@[0] == ZERO || one,
            s@.len() >= 2 ==> s@[1] == DOT,
            i == 2 ==> scale == 1000 && value == 0,
            i == 3 ==> scale == 100 && value <= 900,
            i == 4 ==> scale == 10 && value <= 990,
            i == 5 ==> scale == 1 && value <= 999,
            s@.len() >= 2 ==> value == numeral_value(decimals.take(i - 2)) * scale,
            forall|j: int| 0 <= j < i - 2 ==> is_digit(#[trigger] decimals[j]),
            one ==> forall|j: int| 0 <= j < i - 2 ==> #[trigger] decimals[j] == ZERO,
        decreases s@.len() - i,
    {
        let b = s[i];
        assert(decimals[i - 2] == b);
        if b < 48 || b >= 58 {
            assert(!is_digit(decimals[i - 2]));
            assert(!(decimals[i - 2] == ZERO));
            return None;
        }
        if one && b != ZERO {
            return None;
        }
        proof {
            let t = decimals.take(i - 1);
            assert(t.drop_last() =~= decimals.take(i - 2));
            assert(t.last() == b);
            let n = numeral_value(decimals.take(i - 2));
            let sc = scale as int;
            assert(n * sc == n * 10 * (sc / 10)) by (nonlinear_arith)
                requires
                    sc == 1000 || sc == 100 || sc == 10,
            ;
            assert((n * 10 + (b - 48)) * (sc / 10) == n * 10 * (sc / 10) + (b - 48) * (sc / 10))
                by (nonlinear_arith);
        }
        let digit: u16 = (b - 48) as u16;
        scale = scale / 10;
        assert(digit * scale <= 9 * scale) by (nonlinear_arith)
            requires
                digit <= 9,
        ;
        value = value + digit * scale;
        i += 1;
    }
    if s.len() > 2 {
        assert(decimals.take(i - 2) =~= decimals);
    }
    if one {
        Some(1000)
    } else {
        Some(value)
    }
}

/// Which compression encodings the client or the server supports.
#[derive(Debug, Copy, Clone, PartialEq, Eq, Structural)]
pub struct CompressionSupport {
    /// Whether gzip is supported.
    pub gzip: bool,
    /// Whether Brotli is supported.
    pub br: bool,
    /// Whether Zstandard is supported.
    pub zstd: bool,
}

impl Default for CompressionSupport {
    /// No encoding is supported.
    fn default() -> (r: Self)
        ensures
            r == (CompressionSupport { gzip: false, br: false, zstd: false }),
    {
        CompressionSupport { gzip: false, br: false, zstd: false }
    }
}

/// One item of an `Accept-Encoding` header: the name of a coding and its quality, which is
/// 1 unless stated. `None` if the item cannot be understood.
pub open spec fn coding_of(item: Seq<u8>) -> Option<(Seq<u8>, u16)> {
    let i = find_byte(item, SEMICOLON);
    if i >= item.len() {
        Some((trim(item), 1000))
    } else {
        let parameter = trim(item.skip(i + 1));
        let prefix = text("q="@);
        if has_prefix(parameter, prefix) {
            match qvalue(parameter.skip(prefix.len() as int)) {
                Some(q) => Some((trim(item.take(i)), q)),
                None => None,
            }
        } else {
            None
        }
    }
}

/// All items of an `Accept-Encoding` header, or `None` if one cannot be understood.
pub open spec fn codings_of(items: Seq<Seq<u8>>) -> Option<Seq<(Seq<u8>, u16)>>
    decreases items.len(),
{
    if items.len() == 0 {
        Some(Seq::empty())
    } else {
        match (coding_of(items[0]), codings_of(items.skip(1))) {
            (Some(c), Some(rest)) => Some(seq![c] + rest),
            _ => None,
        }
    }
}

/// The quality that is stated last for a coding, if any is.
pub open spec fn stated_quality(codings: Seq<(Seq<u8>, u16)>, name: Seq<u8>) -> Option<u16>
    decreases codings.len(),
{
    if codings.len() == 0 {
        None
    } else if codings.last().0 == name {
        Some(codings.last().1)
    } else {
        stated_quality(codings.drop_last(), name)
    }
}

/// The quality of a coding: the stated one, or else that of `*`, or else 0.
pub open spec fn quality(codings: Seq<(Seq<u8>, u16)>, name: Seq<u8>) -> u16 {
    match stated_quality(codings, name) {
        Some(q) => q,
        None => match stated_quality(codings, text("*"@)) {
            Some(q) => q,
            None => 0,
        },
    }
}

/// Whether a client that states these qualities is to be sent a coding: it accepts the
/// coding, and likes it no less than uncoded content.
pub open spec fn is_wanted(codings: Seq<(Seq<u8>, u16)>, name: Seq<u8>) -> bool {
    quality(codings, name) > 0 && quality(codings, name) >= quality(codings, text("identity"@))
}

/// The encodings that an `Accept-Encoding` header allows. Without the header, or with one
/// that cannot be understood, there are none.
pub open spec fn support_of(field: Option<Seq<u8>>) -> CompressionSupport {
    let nothing = CompressionSupport { gzip: false, br: false, zstd: false };
    match field {
        None => nothing,
        Some(v) => if !all_visible(v) {
            nothing
        } else {
            match codings_of(split(v, COMMA)) {
                None => nothing,
                Some(codings) => CompressionSupport {
                    gzip: is_wanted(codings, text("gzip"@)),
                    br: is_wanted(codings, text("br"@)),
                    zstd: is_wanted(codings, text("zstd"@)),
                },
            }
        },
    }
}

/// Parses one item of an `Accept-Encoding` header.
fn parse_coding(item: &[u8]) -> (r: Option<(&[u8], u16)>)
    ensures
        match coding_of(item@) {
            Some((name, q)) => r matches Some(c) && c.0@ == name && c.1 == q,
            None => r is None,
        },
{
    let i = find_from(item, SEMICOLON, 0);
    assert(item@.skip(0) =~= item@);
    if i == item.len() {
        return Some((strip(item), 1000));
    }
    let name = slice_subrange(item, 0, i);
    let rest = slice_subrange(item, i + 1, item.len());
    assert(name@ =~= item@.take(i as int));
    assert(rest@ =~= item@.skip(i + 1));
    let parameter = strip(rest);
    let prefix = "q=".as_bytes();
    if !starts_with(parameter, prefix) {
        return None;
    }
    let value = slice_subrange(parameter, prefix.len(), parameter.len());
    assert(value@ =~= parameter@.skip(prefix@.len() as int));
    match parse_quality(value) {
        None => None,
        Some(q) => Some((strip(name), q)),
    }
}

/// The names of the codings that are told apart are different.
proof fn lemma_coding_names()
    ensures
        text("gzip"@) != text("br"@),
        text("gzip"@) != text("zstd"@),
        text("gzip"@) != text("identity"@),
        text("gzip"@) != text("*"@),
        text("br"@) != text("zstd"@),
        text("br"@) != text("identity"@),
        text("br"@) != text("*"@),
        text("zstd"@) != text("identity"@),
        text("zstd"@) != text("*"@),
        text("identity"@) != text("*"@),
{
    reveal_strlit("gzip");
    reveal_strlit("br");
    reveal_strlit("zstd");
    reveal_strlit("identity");
    reveal_strlit("*");
    lemma_text_ascii("gzip"@);
    lemma_text_ascii("br"@);
    lemma_text_ascii("zstd"@);
    lemma_text_ascii("identity"@);
    lemma_text_ascii("*"@);
    assert(text("gzip"@)[0] != text("zstd"@)[0]);
}

/// The quality of a coding: the stated one, or else that of `*`, or else 0.
fn quality_or(stated: Option<u16>, star: Option<u16>) -> (r: u16)
    ensures
        r == (match stated {
            Some(q) => q,
            None => match star {
                Some(q) => q,
                None => 0,
            },
        }),
{
    match stated {
        Some(q) => q,
        None => match star {
            Some(q) => q,
            None => 0,
        },
    }
}

impl CompressionSupport {
    /// Returns a new `CompressionSupport` with the given settings.
    pub fn new(br: bool, gzip: bool, zstd: bool) -> (r: Self)
        ensures
            r == (CompressionSupport { gzip, br, zstd }),
    {
        CompressionSupport { gzip, br, zstd }
    }

    /// Returns true if Brotli compression is supported.
    pub fn brotli(&self) -> (r: bool)
        ensures
            r == self.br,
    {
        self.br
    }

    /// Returns true if gzip compression is supported.
    pub fn gzip(&self) -> (r: bool)
        ensures
            r == self.gzip,
    {
        self.gzip
    }

    /// Returns true if Zstandard compression is supported.
    pub fn zstd(&self) -> (r: bool)
        ensures
            r == self.zstd,
    {
        self.zstd
    }

    /// Returns the encodings to choose from when responding to a request with the given
    /// headers, by the rules of RFC 7231 section 5.3.4.
    pub fn detect(headers: &HeaderMap<HeaderValue>) -> (r: CompressionSupport)
        ensures
            r == support_of(request_field(*headers, "accept-encoding"@)),
    {
        proof {
            reveal_strlit("accept-encoding");
        }
        let v = match get_named(headers, "accept-encoding") {
            None => {
                return CompressionSupport::default();
            },
            Some(v) => match v.to_str() {
                Err(_) => {
                    return CompressionSupport::default();
                },
                Ok(s) => s.as_bytes(),
            },
        };
        let mut gzip_q: Option<u16> = None;
        let mut br_q: Option<u16> = None;
        let mut zstd_q: Option<u16> = None;
        let mut identity_q: Option<u16> = None;
        let mut star_q: Option<u16> = None;
        let mut pos: usize = 0;
        let ghost mut seen: Seq<(Seq<u8>, u16)> = Seq::empty();
        let ghost all = codings_of(split(v@, COMMA));
        assert(v@.skip(0) =~= v@);
        proof {
            if let Some(rest) = all {
                assert(seen + rest =~= rest);
            }
        }
        loop
            invariant_except_break
                all == codings_of(split(v@, COMMA)),
                support_of(request_field(*headers, "accept-encoding"@)) == (match all {
                    None => CompressionSupport { gzip: false, br: false, zstd: false },
                    Some(codings) => CompressionSupport {
                        gzip: is_wanted(codings, text("gzip"@)),
                        br: is_wanted(codings, text("br"@)),
                        zstd: is_wanted(codings, text("zstd"@)),
                    },
                }),
                pos <= v@.len(),
                all == (match codings_of(split(v@.skip(pos as int), COMMA)) {
                    None => None::<Seq<(Seq<u8>, u16)>>,
                    Some(rest) => Some(seen + rest),
                }),
                gzip_q == stated_quality(seen, text("gzip"@)),
                br_q == stated_quality(seen, text("br"@)),
                zstd_q == stated_quality(seen, text("zstd"@)),
                identity_q == stated_quality(seen, text("identity"@)),
                star_q == stated_quality(seen, text("*"@)),
            ensures
                all == Some(seen),
                gzip_q == stated_quality(seen, text("gzip"@)),
                br_q == stated_quality(seen, text("br"@)),
                zstd_q == stated_quality(seen, text("zstd"@)),
                identity_q == stated_quality(seen, text("identity"@)),
                star_q == stated_quality(seen, text("*"@)),
            decreases v@.len() - pos,
        {
            let end = find_from(v, COMMA, pos);
            let item = slice_subrange(v, pos, end);
            let ghost left = v@.skip(pos as int);
            let ghost items = split(left, COMMA);
            let ghost before = seen;
            proof {
                lemma_find_byte(left, COMMA);
                assert(item@ =~= left.take(end - pos));
                if end < v@.len() {
                    assert(left.skip(end - pos + 1) =~= v@.skip(end + 1));
                    assert(items.skip(1) =~= split(v@.skip(end + 1), COMMA));
                } else {
                    assert(item@ =~= left);
                    assert(items.skip(1) =~= Seq::<Seq<u8>>::empty());
                    assert(codings_of(items.skip(1)) == Some(Seq::<(Seq<u8>, u16)>::empty()));
                }
                assert(items[0] == item@);
            }
            let (coding, q) = match parse_coding(item) {
                None => {
                    return CompressionSupport::default();
                },
                Some(c) => c,
            };
            proof {
                lemma_coding_names();
                seen = seen.push((coding@, q));
                assert(seen.drop_last() =~= before);
                if let Some(rest) = codings_of(items.skip(1)) {
                    assert(before + (seq![(coding@, q)] + rest) =~= seen + rest);
                    if end == v@.len() {
                        assert(seen + rest =~= seen);
                    }
                }
            }
            if same(coding, "gzip".as_bytes()) {
                gzip_q = Some(q);
            } else if same(coding, "br".as_bytes()) {
                br_q = Some(q);
            } else if same(coding, "zstd".as_bytes()) {
                zstd_q = Some(q);
            } else if same(coding, "identity".as_bytes()) {
                identity_q = Some(q);
            } else if same(coding, "*".as_bytes()) {
                star_q = Some(q);
            }
            if end == v.len() {
                break;
            }
            pos = end + 1;
        }
        let gzip = quality_or(gzip_q, star_q);
        let br = quality_or(br_q, star_q);
        let zstd = quality_or(zstd_q, star_q);
        let identity = quality_or(identity_q, star_q);
        CompressionSupport {
            gzip: gzip > 0 && gzip >= identity,
            br: br > 0 && br >= identity,
            zstd: zstd > 0 && zstd >= identity,
        }
    }
}

/// How the content of a file is encoded.
#[derive(Debug, Clone, Copy, PartialEq, Eq, Structural)]
pub enum ContentEncoding {
    /// With gzip.
    Gzip,
    /// With Brotli.
    Brotli,
    /// With Zstandard.
    Zstd,
    /// Not at all.
    Identity,
}

/// The name of an encoding in a `Content-Encoding` header. Uncoded content needs none.
pub open spec fn encoding_name(encoding: ContentEncoding) -> Option<Seq<char>> {
    match encoding {
        ContentEncoding::Gzip => Some("gzip"@),
        ContentEncoding::Brotli => Some("br"@),
        ContentEncoding::Zstd => Some("zstd"@),
        ContentEncoding::Identity => None,
    }
}

impl ContentEncoding {
    /// Returns the value of the `Content-Encoding` header. If `index.html.gz` was found for
    /// a request for `index.html`, that is `gzip`. If the request was for `index.html.gz`,
    /// there is none, because the encoding is part of what was requested.
    pub fn get_header_value(&self) -> (r: Option<HeaderValue>)
        ensures
            match encoding_name(*self) {
                Some(name) => r matches Some(v) && field_value(v) == text(name),
                None => r is None,
            },
    {
        proof {
            reveal_strlit("gzip");
            reveal_strlit("br");
            reveal_strlit("zstd");
        }
        match self {
            ContentEncoding::Gzip => Some(static_value("gzip")),
            ContentEncoding::Brotli => Some(static_value("br")),
            ContentEncoding::Zstd => Some(static_value("zstd")),
            ContentEncoding::Identity => None,
        }
    }
}

/// A file that has been found and opened.
pub struct MatchedFile {
    /// The metadata of the file.
    pub file_info: FileInfo,
    /// The handle by which whoever opened the file finds it again.
    pub file: u64,
    /// How the content of the file is encoded.
    pub content_encoding: ContentEncoding,
    /// The extension of the file.
    pub extension: Vec<u8>,
}

/// What opening a file has given.
pub struct OpenedFile {
    /// The handle by which whoever opened the file finds it again.
    pub file: u64,
    /// What the file is.
    pub kind: FileKind,
    /// The length of the file in bytes.
    pub len: u64,
    /// The last modification time of the file, or why it could not be told.
    pub modified: Result<SystemTime, Error>,
}

impl MatchedFile {
    /// Takes what opening the file at `path` has given. The metadata is that of the open
    /// file, so that it fits the content even if the path comes to lead elsewhere.
    pub fn try_path(path: &str, encoding: ContentEncoding, opened: Result<OpenedFile, Error>) -> (r:
        Result<MatchedFile, SerdirError>)
        ensures
            match opened {
                Err(e) => r matches Err(err) && err.comes_from(e),
                Ok(o) => match o.kind {
                    FileKind::Directory => r matches Err(SerdirError::IsDirectory(p)) && p@
                        == path@,
                    FileKind::Other => r == Err::<MatchedFile, SerdirError>(
                        SerdirError::NotFound(None),
                    ),
                    FileKind::File => match o.modified {
                        Err(e) => r matches Err(err) && err.comes_from(e),
                        Ok(mtime) => {
                            &&& r matches Ok(m) && m.file_info == (FileInfo {
                                path_hash: path_hash_of(path@),
                                len: o.len,
                                mtime,
                            }) && m.file == o.file && m.content_encoding == encoding && m.extension@
                                == extension_of(text(path@))
                        },
                    },
                },
            },
    {
        match opened {
            Err(e) => Err(SerdirError::from(e)),
            Ok(o) => match FileInfo::open_file(path, o.kind, o.len, o.modified) {
                Err(e) => Err(e),
                Ok(file_info) => Ok(
                    MatchedFile {
                        file_info,
                        file: o.file,
                        content_encoding: encoding,
                        extension: extension(path.as_bytes()),
                    },
                ),
            },
        }
    }
}

/// Settings for the lookup of pre-compressed files.
#[derive(Debug, Copy, Clone, PartialEq, Eq, Structural)]
pub struct StaticCompression {
    /// Whether gzip (`.gz`) files are considered.
    pub gzip: bool,
    /// Whether Brotli (`.br`) files are considered.
    pub br: bool,
    /// Whether Zstandard (`.zstd`) files are considered.
    pub zstd: bool,
}

impl Default for StaticCompression {
    fn default() -> (r: Self)
        ensures
            r == (StaticCompression { gzip: false, br: false, zstd: false }),
    {
        StaticCompression { gzip: false, br: false, zstd: false }
    }
}

impl StaticCompression {
    /// Creates settings with all encodings disabled.
    pub fn new() -> (r: Self)
        ensures
            r == (StaticCompression { gzip: false, br: false, zstd: false }),
    {
        StaticCompression::default()
    }

    /// Creates settings with all encodings disabled.
    pub fn none() -> (r: Self)
        ensures
            r == (StaticCompression { gzip: false, br: false, zstd: false }),
    {
        StaticCompression::new()
    }

    /// Sets whether Brotli (`.br`) files should be considered.
    pub fn brotli(self, enabled: bool) -> (r: Self)
        ensures
            r == (StaticCompression { br: enabled, ..self }),
    {
        StaticCompression { br: enabled, ..self }
    }

    /// Sets whether gzip (`.gz`) files should be considered.
    pub fn gzip(self, enabled: bool) -> (r: Self)
        ensures
            r == (StaticCompression { gzip: enabled, ..self }),
    {
        StaticCompression { gzip: enabled, ..self }
    }

    /// Sets whether Zstandard (`.zstd`) files should be considered.
    pub fn zstd(self, enabled: bool) -> (r: Self)
        ensures
            r == (StaticCompression { zstd: enabled, ..self }),
    {
        StaticCompression { zstd: enabled, ..self }
    }
}

/// A Brotli compression level.
#[derive(Debug, Copy, Clone, PartialEq, Eq, Structural)]
pub enum BrotliLevel {
    /// Level 0, the fastest.
    L0,
    /// Level 1.
    L1,
    /// Level 2.
    L2,
    /// Level 3, the default.
    L3,
    /// Level 4.
    L4,
    /// Level 5.
    L5,
    /// Level 6.
    L6,
    /// Level 7.
    L7,
    /// Level 8.
    L8,
    /// Level 9.
    L9,
    /// Level 10.
    L10,
    /// Level 11, with the smallest output.
    L11,
}

impl BrotliLevel {
    /// The number of a level.
    pub open spec fn number(self) -> u8 {
        match self {
            BrotliLevel::L0 => 0,
            BrotliLevel::L1 => 1,
            BrotliLevel::L2 => 2,
            BrotliLevel::L3 => 3,
            BrotliLevel::L4 => 4,
            BrotliLevel::L5 => 5,
            BrotliLevel::L6 => 6,
            BrotliLevel::L7 => 7,
            BrotliLevel::L8 => 8,
            BrotliLevel::L9 => 9,
            BrotliLevel::L10 => 10,
            BrotliLevel::L11 => 11,
        }
    }

    /// Returns the number of the level, from 0 to 11.
    pub fn level(self) -> (r: u8)
        ensures
            r == self.number(),
            r <= 11,
    {
        match self {
            BrotliLevel::L0 => 0,
            BrotliLevel::L1 => 1,
            BrotliLevel::L2 => 2,
            BrotliLevel::L3 => 3,
            BrotliLevel::L4 => 4,
            BrotliLevel::L5 => 5,
            BrotliLevel::L6 => 6,
            BrotliLevel::L7 => 7,
            BrotliLevel::L8 => 8,
            BrotliLevel::L9 => 9,
            BrotliLevel::L10 => 10,
            BrotliLevel::L11 => 11,
        }
    }
}

/// What [`CachedCompression`] settings say.
pub struct CachedCompressionView {
    /// The number of items in the cache.
    pub cache_size: u16,
    /// The compression level.
    pub compression_level: u8,
    /// The file extensions to compress, or `None` for the usual text types.
    pub supported_extensions: Option<Seq<Seq<char>>>,
    /// The length of the longest file to compress.
    pub max_file_size: u64,
}

/// Settings for runtime Brotli compression and caching.
pub struct CachedCompression {
    builder: BrotliCacheBuilder,
}

impl View for CachedCompression {
    type V = CachedCompressionView;

    closed spec fn view(&self) -> CachedCompressionView {
        CachedCompressionView {
            cache_size: self.builder.cache_size,
            compression_level: self.builder.compression_level,
            supported_extensions: match self.builder.supported_extensions {
                Some(list) => Some(texts(list@)),
                None => None,
            },
            max_file_size: self.builder.max_file_size,
        }
    }
}

/// The settings unless others are made.
pub open spec fn default_settings() -> CachedCompressionView {
    CachedCompressionView {
        cache_size: 128,
        compression_level: 3,
        supported_extensions: None,
        max_file_size: u64::MAX,
    }
}

/// The state of a new cache with the given settings.
pub open spec fn initial_cache(settings: CachedCompressionView) -> BrotliCacheView {
    BrotliCacheView {
        files: no_files(),
        capacity: settings.cache_size as nat,
        quality: settings.compression_level,
        supported: match settings.supported_extensions {
            Some(list) => list,
            None => default_text_types(),
        },
        max_file_size: settings.max_file_size,
    }
}

impl CachedCompression {
    #[verifier::type_invariant]
    closed spec fn inv(self) -> bool {
        self.builder.wf()
    }

    /// Creates settings with default values.
    pub fn new() -> (r: Self)
        ensures
            r@ == default_settings(),
    {
        CachedCompression::default()
    }

    /// Sets the maximum number of items in the cache, which is a power of two and at
    /// least 4.
    pub fn max_size(self, size: u16) -> (r: Self)
        requires
            size >= 4,
            is_power_of_two(size as nat),
        ensures
            r@ == (CachedCompressionView { cache_size: size, ..self@ }),
    {
        proof {
            use_type_invariant(&self);
        }
        CachedCompression { builder: self.builder.cache_size(size) }
    }

    /// Sets the Brotli compression level, from 0 to 11.
    pub fn compression_level(self, level: u8) -> (r: Self)
        requires
            level <= 11,
        ensures
            r@ == (CachedCompressionView { compression_level: level, ..self@ }),
    {
        proof {
            use_type_invariant(&self);
        }
        CachedCompression { builder: self.builder.compression_level(level) }
    }

    /// Sets the file extensions that are eligible for compression. `None` stands for the
    /// usual text types.
    pub fn supported_extensions(self, extensions: Option<Vec<&'static str>>) -> (r: Self)
        ensures
            r@ == (CachedCompressionView {
                supported_extensions: match extensions {
                    Some(list) => Some(texts(list@)),
                    None => None,
                },
                ..self@
            }),
    {
        proof {
            use_type_invariant(&self);
        }
        CachedCompression { builder: self.builder.supported_extensions(extensions) }
    }

    /// Sets the maximum file size for compression. Larger files are served in their
    /// original form.
    pub fn max_file_size(self, size: u64) -> (r: Self)
        ensures
            r@ == (CachedCompressionView { max_file_size: size, ..self@ }),
    {
        proof {
            use_type_invariant(&self);
        }
        CachedCompression { builder: self.builder.max_file_size(size) }
    }
}

impl Default for CachedCompression {
    fn default() -> (r: Self)
        ensures
            r@ == default_settings(),
    {
        CachedCompression { builder: BrotliCacheBuilder::new() }
    }
}

/// The way in which compressed files are obtained.
pub enum CompressionStrategyInner {
    /// By looking for pre-compressed versions of a file next to it.
    Static(CompressionSupport),
    /// By compressing files when they are asked for, and keeping the result.
    Cached(BrotliCache),
    /// Not at all: only original files are served.
    Off,
}

/// The strategy used to obtain compressed files that suit a request.
pub struct CompressionStrategy(pub CompressionStrategyInner);

impl CompressionStrategy {
    /// Returns a strategy that only serves original files.
    pub fn none() -> (r: Self)
        ensures
            r.0 is Off,
    {
        CompressionStrategy(CompressionStrategyInner::Off)
    }

    /// Returns a static compression strategy with all encodings disabled.
    pub fn static_compression() -> (r: Self)
        ensures
            r.0 == CompressionStrategyInner::Static(
                CompressionSupport { gzip: false, br: false, zstd: false },
            ),
    {
        CompressionStrategy::from(StaticCompression::new())
    }

    /// Returns a strategy that compresses files with Brotli when they are asked for.
    pub fn cached_compression(cache_size: u16, compression_level: u8) -> (r: Self)
        requires
            cache_size >= 4,
            is_power_of_two(cache_size as nat),
            compression_level <= 11,
        ensures
            r.0 matches CompressionStrategyInner::Cached(cache) && cache@ == initial_cache(
                CachedCompressionView { cache_size, compression_level, ..default_settings() },
            ),
    {
        CompressionStrategy::from(
            CachedCompression::new().max_size(cache_size).compression_level(compression_level),
        )
    }

    /// Returns the way in which compressed files are obtained.
    pub fn into_inner(self) -> (r: CompressionStrategyInner)
        ensures
            r == self.0,
    {
        self.0
    }
}

impl Default for CompressionStrategy {
    fn default() -> (r: Self)
        ensures
            r.0 is Off,
    {
        CompressionStrategy::none()
    }
}

impl From<StaticCompression> for CompressionStrategy {
    fn from(value: StaticCompression) -> (r: Self) {
        CompressionStrategy(
            CompressionStrategyInner::Static(
                CompressionSupport::new(value.br, value.gzip, value.zstd),
            ),
        )
    }
}

impl vstd::std_specs::convert::FromSpecImpl<StaticCompression> for CompressionStrategy {
    open spec fn obeys_from_spec() -> bool {
        true
    }

    open spec fn from_spec(value: StaticCompression) -> Self {
        CompressionStrategy(
            CompressionStrategyInner::Static(
                CompressionSupport { gzip: value.gzip, br: value.br, zstd: value.zstd },
            ),
        )
    }
}

impl From<CachedCompression> for CompressionStrategy {
    fn from(value: CachedCompression) -> (r: Self)
        ensures
            r.0 matches CompressionStrategyInner::Cached(cache) && cache@ == initial_cache(value@),
    {
        proof {
            use_type_invariant(&value);
        }
        CompressionStrategy(CompressionStrategyInner::Cached(value.builder.build()))
    }
}

impl vstd::std_specs::convert::FromSpecImpl<CachedCompression> for CompressionStrategy {
    open spec fn obeys_from_spec() -> bool {
        false
    }

    open spec fn from_spec(value: CachedCompression) -> Self {
        arbitrary()
    }
}

/// The files to try, of those that one may be served for `path`: the compressed versions
/// that both sides support, Brotli first, then Zstandard, then gzip; and at last the file
/// itself.
pub open spec fn candidates(
    path: Seq<u8>,
    client: CompressionSupport,
    server: CompressionSupport,
) -> Seq<(Seq<u8>, ContentEncoding)> {
    (if client.br && server.br {
        seq![(with_extension(path, text("br"@)), ContentEncoding::Brotli)]
    } else {
        Seq::empty()
    }) + (if client.zstd && server.zstd {
        seq![(with_extension(path, text("zstd"@)), ContentEncoding::Zstd)]
    } else {
        Seq::empty()
    }) + (if client.gzip && server.gzip {
        seq![(with_extension(path, text("gz"@)), ContentEncoding::Gzip)]
    } else {
        Seq::empty()
    }) + seq![(path, ContentEncoding::Identity)]
}

/// A file is tried in an encoding only if both sides support it, and next to the file that was
/// asked for. That file itself is always the last to be tried.
pub proof fn only_supported_encodings_are_tried(
    path: Seq<u8>,
    client: CompressionSupport,
    server: CompressionSupport,
    i: int,
)
    requires
        0 <= i < candidates(path, client, server).len(),
    ensures
        ({
            let (tried, encoding) = candidates(path, client, server)[i];
            match encoding {
                ContentEncoding::Brotli => client.br && server.br && tried == with_extension(
                    path,
                    text("br"@),
                ),
                ContentEncoding::Zstd => client.zstd && server.zstd && tried == with_extension(
                    path,
                    text("zstd"@),
                ),
                ContentEncoding::Gzip => client.gzip && server.gzip && tried == with_extension(
                    path,
                    text("gz"@),
                ),
                ContentEncoding::Identity => tried == path,
            }
        }),
        candidates(path, client, server).last() == (path, ContentEncoding::Identity),
{
}

/// A coding that the client refuses, by giving it a quality of 0, is never sent.
pub proof fn refused_codings_are_not_sent(field: Seq<u8>, codings: Seq<(Seq<u8>, u16)>)
    requires
        codings_of(split(field, COMMA)) == Some(codings),
    ensures
        quality(codings, text("gzip"@)) == 0 ==> !support_of(Some(field)).gzip,
        quality(codings, text("br"@)) == 0 ==> !support_of(Some(field)).br,
        quality(codings, text("zstd"@)) == 0 ==> !support_of(Some(field)).zstd,
{
}

/// A search for a file that suits a request.
pub struct FileSearch {
    /// The files to try.
    pub list: Vec<(Vec<u8>, ContentEncoding)>,
    /// The one that is tried now.
    pub next: usize,
}

/// Whether a file cannot be served, but another may be tried in its place.
pub open spec fn is_passed_over(result: Result<MatchedFile, SerdirError>) -> bool {
    result matches Err(e) && (e is NotFound || e is IsDirectory)
}

/// What a search finds if trying the files from the given one on has these outcomes: the
/// first that is not passed over, or else the last.
pub open spec fn search(outcomes: Seq<Result<MatchedFile, SerdirError>>) -> Result<
    MatchedFile,
    SerdirError,
>
    recommends
        outcomes.len() > 0,
    decreases outcomes.len(),
{
    if outcomes.len() <= 1 || !is_passed_over(outcomes[0]) {
        outcomes[0]
    } else {
        search(outcomes.skip(1))
    }
}

impl FileSearch {
    /// The files to try.
    pub open spec fn files(self) -> Seq<(Seq<u8>, ContentEncoding)> {
        self.list@.map_values(|c: (Vec<u8>, ContentEncoding)| (c.0@, c.1))
    }

    /// Whether there is a file to try.
    pub open spec fn wf(self) -> bool {
        self.next < self.list@.len()
    }

    /// The path of the file to try now.
    pub fn path(&self) -> (r: &Vec<u8>)
        requires
            self.wf(),
        ensures
            r@ == self.files()[self.next as int].0,
    {
        &self.list[self.next].0
    }

    /// The encoding of the file to try now.
    pub fn encoding(&self) -> (r: ContentEncoding)
        requires
            self.wf(),
        ensures
            r == self.files()[self.next as int].1,
    {
        self.list[self.next].1
    }

    /// Takes the outcome of trying a file: what the search has come to, or `None` if the
    /// next file is to be tried.
    pub fn tried(&mut self, result: Result<MatchedFile, SerdirError>) -> (r: Option<
        Result<MatchedFile, SerdirError>,
    >)
        requires
            old(self).wf(),
        ensures
            final(self).wf(),
            final(self).list == old(self).list,
            if is_passed_over(result) && old(self).next + 1 < old(self).list@.len() {
                r is None && final(self).next == old(self).next + 1
            } else {
                r == Some(result) && final(self).next == old(self).next
            },
    {
        let passed_over = match &result {
            Err(SerdirError::NotFound(_)) => true,
            Err(SerdirError::IsDirectory(_)) => true,
            _ => false,
        };
        if passed_over && self.next < self.list.len() - 1 {
            self.next = self.next + 1;
            None
        } else {
            Some(result)
        }
    }
}

/// A search comes to what its first outcome decides, or to what the rest of the search
/// comes to: stopping at each outcome in turn finds the first that is not passed over.
pub proof fn a_search_finds_the_first_usable_file(
    outcomes: Seq<Result<MatchedFile, SerdirError>>,
    k: int,
)
    requires
        0 <= k < outcomes.len(),
        forall|i: int| 0 <= i < k ==> is_passed_over(#[trigger] outcomes[i]),
        !is_passed_over(outcomes[k]) || k == outcomes.len() - 1,
    ensures
        search(outcomes) == outcomes[k],
    decreases k,
{
    if k > 0 {
        let rest = outcomes.skip(1);
        assert(is_passed_over(outcomes[0]));
        assert forall|i: int| 0 <= i < k - 1 implies is_passed_over(#[trigger] rest[i]) by {
            assert(rest[i] == outcomes[i + 1]);
        }
        assert(rest[k - 1] == outcomes[k]);
        a_search_finds_the_first_usable_file(rest, k - 1);
    }
}

/// The search for a file: the files to try, or the Brotli cache.
pub enum SearchPlan {
    /// Try these files.
    Try(FileSearch),
    /// Ask the Brotli cache.
    AskCache,
}

impl CompressionStrategyInner {
    /// Whether only original files are served.
    pub fn is_none(&self) -> (r: bool)
        ensures
            r == (self is Off),
    {
        match self {
            CompressionStrategyInner::Off => true,
            _ => false,
        }
    }

    /// Whether `plan` is how to find a file at `path` for a client that supports the given
    /// encodings.
    pub open spec fn is_plan(
        self,
        path: Seq<u8>,
        supported: CompressionSupport,
        plan: SearchPlan,
    ) -> bool {
        match self {
            CompressionStrategyInner::Cached(_) if supported.br => plan is AskCache,
            CompressionStrategyInner::Static(server) => plan matches SearchPlan::Try(s) && s.wf()
                && s.next == 0 && s.files() == candidates(path, supported, server),
            _ => plan matches SearchPlan::Try(s) && s.wf() && s.next == 0 && s.files() == seq![
                (path, ContentEncoding::Identity),
            ],
        }
    }

    /// How to find a file at `path` for a client that supports the given encodings.
    pub fn find_file(&self, path: &[u8], supported: CompressionSupport) -> (r: SearchPlan)
        ensures
            self.is_plan(path@, supported, r),
    {
        let mut list: Vec<(Vec<u8>, ContentEncoding)> = Vec::new();
        match self {
            CompressionStrategyInner::Static(server) => {
                if supported.brotli() && server.brotli() {
                    list.push((append_extension(path, "br".as_bytes()), ContentEncoding::Brotli));
                }
                if supported.zstd() && server.zstd() {
                    list.push((append_extension(path, "zstd".as_bytes()), ContentEncoding::Zstd));
                }
                if supported.gzip() && server.gzip() {
                    list.push((append_extension(path, "gz".as_bytes()), ContentEncoding::Gzip));
                }
            },
            CompressionStrategyInner::Cached(_) => {
                if supported.brotli() {
                    return SearchPlan::AskCache;
                }
            },
            CompressionStrategyInner::Off => {},
        }
        list.push((to_vec(path), ContentEncoding::Identity));
        let search = FileSearch { list, next: 0 };
        proof {
            if let CompressionStrategyInner::Static(server) = *self {
                assert(search.files() =~= candidates(path@, supported, server));
            } else {
                assert(search.files() =~= seq![(path@, ContentEncoding::Identity)]);
            }
        }
        SearchPlan::Try(search)
    }
}

/// The levels are numbered from 0 to 11, in their order.
pub proof fn levels_are_numbered_in_order()
    ensures
        0 <= BrotliLevel::L0.number() < BrotliLevel::L1.number() < BrotliLevel::L2.number()
            < BrotliLevel::L3.number() < BrotliLevel::L4.number() < BrotliLevel::L5.number()
            < BrotliLevel::L6.number() < BrotliLevel::L7.number() < BrotliLevel::L8.number()
            < BrotliLevel::L9.number() < BrotliLevel::L10.number() < BrotliLevel::L11.number()
            <= 11,
{
}

/// A search goes on exactly where there is nothing to serve, and stops at anything else that has
/// gone wrong.
pub proof fn a_search_passes_over_what_is_not_there(result: Result<MatchedFile, SerdirError>)
    ensures
        is_passed_over(result) <==> (result matches Err(e) && e.status() == 404),
{
}

} // verus!
