//! Entity tags and the conditional-request headers that compare them.

use crate::headers::{field_value, first_value, get_named, header_entries, value_from_bytes};
use crate::text::{
    all_visible, find_byte, find_from, has_prefix, is_ows, is_visible, lemma_find_byte, same,
    starts_with, strip_start, text, trim_start, COMMA, QUOTE,
};
use http::{HeaderMap, HeaderValue};
use vstd::prelude::*;
use vstd::slice::slice_subrange;

verus! {

/// A strong HTTP entity tag: a 64-bit hash of the content it stands for.
///
/// Entity tags made here are always strong, so they can be used in range
/// requests, but a tag does not allow one encoding of a resource to stand in
/// for another.
#[derive(Hash, Eq, PartialEq, Clone, Copy, Debug, Structural)]
pub struct ETag(pub u64);

/// The character of a hexadecimal digit.
pub open spec fn hex_digit(n: u64) -> u8 {
    if n < 10 {
        (48 + n) as u8
    } else {
        (87 + n) as u8
    }
}

/// The sixteen lower-case hexadecimal digits of a number, most significant
/// first.
pub open spec fn hex(v: u64) -> Seq<u8> {
    Seq::new(16, |i: int| hex_digit((v >> ((15 - i) * 4) as u64) & 0xf))
}

/// The text of an entity tag: its hexadecimal digits in quotes.
pub open spec fn etag_text(tag: ETag) -> Seq<u8> {
    seq![QUOTE] + hex(tag.0) + seq![QUOTE]
}

impl ETag {
    /// The sixteen hexadecimal digits of the tag.
    pub fn to_bytes(self) -> (r: [u8; 16])
        ensures
            r@ == hex(self.0),
    {
        let mut buf: [u8; 16] = [0u8; 16];
        let val = self.0;
        let mut i: usize = 0;
        while i < 16
            invariant
                i <= 16,
                val == self.0,
                forall|j: int| 0 <= j < i ==> buf@[j] == hex(val)[j],
            decreases 16 - i,
        {
            let nibble: u64 = (val >> ((15 - i) * 4) as u64) & 0xf;
            assert((val >> ((15 - i) * 4) as u64) & 0xf < 16) by (bit_vector);
            buf[i] = if nibble < 10 {
                48 + nibble as u8
            } else {
                87 + nibble as u8
            };
            i += 1;
        }
        assert(buf@ =~= hex(self.0));
        buf
    }
}

impl From<ETag> for HeaderValue {
    /// The tag as the value of an `ETag` header.
    fn from(etag: ETag) -> (r: HeaderValue)
        ensures
            field_value(r) == etag_text(etag),
    {
        let digits = etag.to_bytes();
        let mut buf: Vec<u8> = Vec::new();
        buf.push(QUOTE);
        let mut i: usize = 0;
        while i < 16
            invariant
                i <= 16,
                digits@ == hex(etag.0),
                buf@ == seq![QUOTE] + hex(etag.0).take(i as int),
            decreases 16 - i,
        {
            buf.push(digits[i]);
            i += 1;
            assert(hex(etag.0).take(i as int) =~= hex(etag.0).take(i - 1).push(digits@[i - 1]));
        }
        buf.push(QUOTE);
        assert(buf@ =~= etag_text(etag));
        proof {
            lemma_etag_text_visible(etag);
        }
        value_from_bytes(buf.as_slice())
    }
}

impl vstd::std_specs::convert::FromSpecImpl<ETag> for HeaderValue {
    open spec fn obeys_from_spec() -> bool {
        false
    }

    open spec fn from_spec(etag: ETag) -> Self {
        arbitrary()
    }
}

impl From<u64> for ETag {
    /// The tag of content with the given hash.
    fn from(hash: u64) -> (r: ETag) {
        ETag(hash)
    }
}

impl vstd::std_specs::convert::FromSpecImpl<u64> for ETag {
    open spec fn obeys_from_spec() -> bool {
        true
    }

    open spec fn from_spec(hash: u64) -> Self {
        ETag(hash)
    }
}

impl From<ETag> for u64 {
    /// The hash that the tag was made of.
    fn from(etag: ETag) -> (r: u64) {
        etag.0
    }
}

impl vstd::std_specs::convert::FromSpecImpl<ETag> for u64 {
    open spec fn obeys_from_spec() -> bool {
        true
    }

    open spec fn from_spec(etag: ETag) -> Self {
        etag.0
    }
}

/// The text of a tag is visible ASCII.
proof fn lemma_etag_text_visible(tag: ETag)
    ensures
        all_visible(etag_text(tag)),
{
    assert forall|i: int| 0 <= i < 16 implies is_visible(#[trigger] hex(tag.0)[i]) by {
        let v = tag.0;
        let s = ((15 - i) * 4) as u64;
        assert((v >> s) & 0xf < 16) by (bit_vector);
    }
}

/// Equal hexadecimal digits come from equal groups of four bits.
proof fn lemma_same_nibble(x: u64, y: u64, i: int)
    requires
        0 <= i < 16,
        hex(x)[i] == hex(y)[i],
    ensures
        (x >> ((15 - i) * 4) as u64) & 0xf == (y >> ((15 - i) * 4) as u64) & 0xf,
{
    let k = ((15 - i) * 4) as u64;
    assert((x >> k) & 0xf < 16) by (bit_vector);
    assert((y >> k) & 0xf < 16) by (bit_vector);
}

/// Content with different hashes has different tags.
pub proof fn etag_text_is_injective(a: ETag, b: ETag)
    requires
        etag_text(a) == etag_text(b),
    ensures
        a == b,
{
    let x = a.0;
    let y = b.0;
    assert forall|i: int| 0 <= i < 16 implies hex(x)[i] == hex(y)[i] by {
        assert(etag_text(a)[i + 1] == hex(x)[i]);
        assert(etag_text(b)[i + 1] == hex(y)[i]);
    }
    lemma_same_nibble(x, y, 0);
    lemma_same_nibble(x, y, 1);
    lemma_same_nibble(x, y, 2);
    lemma_same_nibble(x, y, 3);
    lemma_same_nibble(x, y, 4);
    lemma_same_nibble(x, y, 5);
    lemma_same_nibble(x, y, 6);
    lemma_same_nibble(x, y, 7);
    lemma_same_nibble(x, y, 8);
    lemma_same_nibble(x, y, 9);
    lemma_same_nibble(x, y, 10);
    lemma_same_nibble(x, y, 11);
    lemma_same_nibble(x, y, 12);
    lemma_same_nibble(x, y, 13);
    lemma_same_nibble(x, y, 14);
    lemma_same_nibble(x, y, 15);
    assert(x == y) by (bit_vector)
        requires
            (x >> 60) & 0xf == (y >> 60) & 0xf,
            (x >> 56) & 0xf == (y >> 56) & 0xf,
            (x >> 52) & 0xf == (y >> 52) & 0xf,
            (x >> 48) & 0xf == (y >> 48) & 0xf,
            (x >> 44) & 0xf == (y >> 44) & 0xf,
            (x >> 40) & 0xf == (y >> 40) & 0xf,
            (x >> 36) & 0xf == (y >> 36) & 0xf,
            (x >> 32) & 0xf == (y >> 32) & 0xf,
            (x >> 28) & 0xf == (y >> 28) & 0xf,
            (x >> 24) & 0xf == (y >> 24) & 0xf,
            (x >> 20) & 0xf == (y >> 20) & 0xf,
            (x >> 16) & 0xf == (y >> 16) & 0xf,
            (x >> 12) & 0xf == (y >> 12) & 0xf,
            (x >> 8) & 0xf == (y >> 8) & 0xf,
            (x >> 4) & 0xf == (y >> 4) & 0xf,
            (x >> 0) & 0xf == (y >> 0) & 0xf,
    ;
}

/// Whether a tag carries the weakness mark `W/`.
pub open spec fn is_weak(tag: Seq<u8>) -> bool {
    has_prefix(tag, text("W/"@))
}

/// A tag without its weakness mark, if it has one.
pub open spec fn opaque_tag(tag: Seq<u8>) -> Seq<u8> {
    if is_weak(tag) {
        tag.skip(text("W/"@).len() as int)
    } else {
        tag
    }
}

/// The weak comparison of RFC 7232 section 2.3.2: the tags agree apart from
/// weakness marks.
pub open spec fn weakly_equal(a: Seq<u8>, b: Seq<u8>) -> bool {
    opaque_tag(a) == opaque_tag(b)
}

/// The strong comparison of RFC 7232 section 2.3.2: the tags agree and neither
/// is weak.
pub open spec fn strongly_equal(a: Seq<u8>, b: Seq<u8>) -> bool {
    a == b && !is_weak(a)
}

/// Weak comparison is reflexive, symmetric and transitive.
pub proof fn weak_comparison_is_an_equivalence(a: Seq<u8>, b: Seq<u8>, c: Seq<u8>)
    ensures
        weakly_equal(a, a),
        weakly_equal(a, b) == weakly_equal(b, a),
        weakly_equal(a, b) && weakly_equal(b, c) ==> weakly_equal(a, c),
{
}

/// Tags that are equal under strong comparison are equal under weak comparison,
/// and strong comparison is symmetric. No weak tag equals any tag strongly.
pub proof fn strong_comparison_refines_weak(a: Seq<u8>, b: Seq<u8>)
    ensures
        strongly_equal(a, b) ==> weakly_equal(a, b),
        strongly_equal(a, b) == strongly_equal(b, a),
        is_weak(a) ==> !strongly_equal(a, b),
{
}

/// A tag made by this crate is strong: it equals itself under strong
/// comparison, and no other tag of this crate even under weak comparison.
pub proof fn etags_are_strong(a: ETag, b: ETag)
    ensures
        strongly_equal(etag_text(a), etag_text(a)),
        strongly_equal(etag_text(a), etag_text(b)) <==> a == b,
        weakly_equal(etag_text(a), etag_text(b)) <==> a == b,
{
    reveal_strlit("W/");
    crate::text::lemma_text_ascii("W/"@);
    assert(etag_text(a).take(2)[0] == QUOTE);
    assert(etag_text(b).take(2)[0] == QUOTE);
    assert(text("W/"@)[0] == 0x57);
    if etag_text(a) == etag_text(b) {
        etag_text_is_injective(a, b);
    }
}

/// Performs weak validation of two entity tags, such as `W/"foo"` or `"bar"`,
/// as in RFC 7232 section 2.3.2.
pub fn weak_eq(a: &[u8], b: &[u8]) -> (r: bool)
    ensures
        r == weakly_equal(a@, b@),
{
    same(without_weak_mark(a), without_weak_mark(b))
}

/// Strips the weakness mark.
fn without_weak_mark(tag: &[u8]) -> (r: &[u8])
    ensures
        r@ == opaque_tag(tag@),
{
    let mark = "W/".as_bytes();
    if starts_with(tag, mark) {
        let r = slice_subrange(tag, mark.len(), tag.len());
        assert(r@ =~= opaque_tag(tag@));
        r
    } else {
        tag
    }
}

/// Performs strong validation of two entity tags, such as `W/"foo"` or `"bar"`,
/// as in RFC 7232 section 2.3.2.
pub fn strong_eq(a: &[u8], b: &[u8]) -> (r: bool)
    ensures
        r == strongly_equal(a@, b@),
{
    same(a, b) && !starts_with(a, "W/".as_bytes())
}

/// The length of the entity tag at the front of a list, or `None` if there is
/// no complete tag there. A quote within a tag cannot be escaped.
pub open spec fn tag_len(s: Seq<u8>) -> Option<int> {
    let open = if has_prefix(s, text("W/\""@)) {
        3int
    } else if has_prefix(s, text("\""@)) {
        1int
    } else {
        0int
    };
    let close = open + find_byte(s.skip(open), QUOTE);
    if open > 0 && close < s.len() {
        Some(close + 1)
    } else {
        None
    }
}

/// What follows the first `n` bytes of a list: the rest, without the separating
/// comma and the optional whitespace behind it.
pub open spec fn after_tag(s: Seq<u8>, n: int) -> Seq<u8> {
    let rest = s.skip(n);
    if rest.len() > 0 && rest[0] == COMMA {
        trim_start(rest.skip(1))
    } else {
        rest
    }
}

/// Whether the first `n` bytes of a list are all of it, or are followed by a comma.
pub open spec fn is_separated(s: Seq<u8>, n: int) -> bool {
    s.skip(n).len() == 0 || s.skip(n)[0] == COMMA
}

/// The entity tags of a list, or `None` if some part of it is not an entity tag, or two tags
/// are not separated by a comma.
pub open spec fn tag_list(s: Seq<u8>) -> Option<Seq<Seq<u8>>>
    decreases s.len(),
{
    if s.len() == 0 {
        Some(Seq::empty())
    } else {
        match tag_len(s) {
            None => None,
            Some(n) => {
                proof {
                    lemma_after_tag(s);
                }
                if is_separated(s, n) {
                    match tag_list(after_tag(s, n)) {
                        None => None,
                        Some(rest) => Some(seq![s.take(n)] + rest),
                    }
                } else {
                    None
                }
            },
        }
    }
}

/// Trimming does not make a string longer.
proof fn lemma_trim_start_len(s: Seq<u8>)
    ensures
        trim_start(s).len() <= s.len(),
    decreases s.len(),
{
    if s.len() > 0 && is_ows(s[0]) {
        lemma_trim_start_len(s.skip(1));
    }
}

/// A tag is not empty, so taking one off shortens the list.
pub proof fn lemma_after_tag(s: Seq<u8>)
    ensures
        tag_len(s) matches Some(n) ==> 0 < n <= s.len() && after_tag(s, n).len() < s.len(),
{
    if let Some(n) = tag_len(s) {
        reveal_strlit("W/\"");
        reveal_strlit("\"");
        crate::text::lemma_text_ascii("W/\""@);
        crate::text::lemma_text_ascii("\""@);
        lemma_find_byte(s.skip(3), QUOTE);
        lemma_find_byte(s.skip(1), QUOTE);
        let rest = s.skip(n);
        if rest.len() > 0 {
            lemma_trim_start_len(rest.skip(1));
        }
    }
}

/// Walks a list of entity tags that are each separated by a single comma (`1#entity-tag`,
/// with `#` as specified in RFC 7230 section 7).
pub struct List<'a> {
    /// The part of the list that has not been walked yet.
    pub remaining: &'a [u8],
    /// Whether a tag may follow here: at the beginning, and behind a comma.
    pub separated: bool,
    /// Whether the walk stopped at something that is not an entity tag, or at one that no
    /// comma precedes.
    pub corrupt: bool,
}

impl<'a> List<'a> {
    /// Starts a walk of a list.
    pub fn from(l: &'a [u8]) -> (r: List<'a>)
        ensures
            r.remaining@ == l@,
            r.separated,
            !r.corrupt,
    {
        List { remaining: l, separated: true, corrupt: false }
    }

    /// Takes the next tag off the list. `None` at the end, and where no entity
    /// tag follows, or no comma precedes it; the latter two also mark the list corrupt.
    pub fn next(&mut self) -> (r: Option<&'a [u8]>)
        ensures
            old(self).remaining@.len() == 0 ==> {
                &&& r is None
                &&& final(self).remaining@ == old(self).remaining@
                &&& final(self).separated == old(self).separated
                &&& final(self).corrupt == old(self).corrupt
            },
            old(self).remaining@.len() > 0 && !old(self).separated ==> {
                &&& r is None
                &&& final(self).remaining@ == old(self).remaining@
                &&& !final(self).separated
                &&& final(self).corrupt
            },
            old(self).remaining@.len() > 0 && old(self).separated ==> match tag_len(
                old(self).remaining@,
            ) {
                None => {
                    &&& r is None
                    &&& final(self).remaining@ == old(self).remaining@
                    &&& final(self).separated
                    &&& final(self).corrupt
                },
                Some(n) => {
                    &&& r matches Some(tag) && tag@ == old(self).remaining@.take(n)
                    &&& final(self).remaining@ == after_tag(old(self).remaining@, n)
                    &&& final(self).separated == is_separated(old(self).remaining@, n)
                    &&& final(self).corrupt == old(self).corrupt
                },
            },
    {
        let s = self.remaining;
        if s.len() == 0 {
            return None;
        }
        if !self.separated {
            self.corrupt = true;
            return None;
        }
        proof {
            reveal_strlit("W/\"");
            reveal_strlit("\"");
            crate::text::lemma_text_ascii("W/\""@);
            crate::text::lemma_text_ascii("\""@);
            lemma_find_byte(s@.skip(0), QUOTE);
        }
        let open: usize = if starts_with(s, "W/\"".as_bytes()) {
            3
        } else if starts_with(s, "\"".as_bytes()) {
            1
        } else {
            0
        };
        if open == 0 {
            self.corrupt = true;
            return None;
        }
        let end = find_from(s, QUOTE, open);
        if end == s.len() {
            self.corrupt = true;
            return None;
        }
        let tag = slice_subrange(s, 0, end + 1);
        assert(tag@ =~= s@.take(end + 1));
        let rest = slice_subrange(s, end + 1, s.len());
        assert(rest@ =~= s@.skip(end + 1));
        if rest.len() > 0 && rest[0] == COMMA {
            let tail = slice_subrange(rest, 1, rest.len());
            assert(tail@ =~= rest@.skip(1));
            self.remaining = strip_start(tail);
        } else {
            self.remaining = rest;
            self.separated = rest.len() == 0;
        }
        Some(tag)
    }
}

/// Whether two tags are equal under the strong or the weak comparison.
pub open spec fn tags_equal(a: Seq<u8>, b: Seq<u8>, strong: bool) -> bool {
    if strong {
        strongly_equal(a, b)
    } else {
        weakly_equal(a, b)
    }
}

/// Whether some tag of a list equals `etag` under the strong or the weak
/// comparison.
pub open spec fn lists_tag(tags: Seq<Seq<u8>>, etag: Seq<u8>, strong: bool) -> bool {
    exists|i: int| 0 <= i < tags.len() && tags_equal(#[trigger] tags[i], etag, strong)
}

/// Whether `If-None-Match` allows the request to go ahead. `None` means that
/// there is no such header, or one that is to be ignored.
pub open spec fn none_match_of(etag: Option<Seq<u8>>, field: Option<Seq<u8>>) -> Option<bool> {
    match field {
        None => None,
        Some(m) => if m == text("*"@) {
            Some(false)
        } else {
            match etag {
                None => Some(true),
                Some(e) => match tag_list(m) {
                    None => None,
                    Some(tags) => Some(!lists_tag(tags, e, false)),
                },
            }
        },
    }
}

/// Whether `If-Match` allows the request to go ahead, or `None` if the header
/// cannot be parsed.
pub open spec fn any_match_of(etag: Option<Seq<u8>>, field: Option<Seq<u8>>) -> Option<bool> {
    match field {
        None => Some(true),
        Some(m) => if m == text("*"@) {
            Some(true)
        } else {
            match etag {
                None => Some(false),
                Some(e) => match tag_list(m) {
                    None => None,
                    Some(tags) => Some(lists_tag(tags, e, true)),
                },
            }
        },
    }
}

/// The value of a request header, if the request has it.
pub open spec fn request_field(req_hdrs: HeaderMap<HeaderValue>, name: Seq<char>) -> Option<
    Seq<u8>,
> {
    first_value(header_entries(req_hdrs), name)
}

/// The bytes of an optional header value.
pub open spec fn optional_value(value: Option<HeaderValue>) -> Option<Seq<u8>> {
    match value {
        None => None,
        Some(v) => Some(field_value(v)),
    }
}

/// Whether some tag of a list satisfies a comparison with `etag`: `strong`
/// picks the comparison. `None` if the list is corrupt.
fn list_matches(list: &[u8], etag: &[u8], strong: bool) -> (r: Option<bool>)
    ensures
        match tag_list(list@) {
            None => r is None,
            Some(tags) => r == Some(lists_tag(tags, etag@, strong)),
        },
{
    let mut items = List::from(list);
    let mut found: bool = false;
    let ghost mut seen: Seq<Seq<u8>> = Seq::empty();
    loop
        invariant
            !items.corrupt,
            items.remaining@.len() == 0 ==> items.separated,
            tag_list(list@) == (match tag_list(items.remaining@) {
                Some(rest) if items.separated => Some(seen + rest),
                _ => None::<Seq<Seq<u8>>>,
            }),
            found == lists_tag(seen, etag@, strong),
        decreases items.remaining@.len(),
    {
        let ghost before = items.remaining@;
        proof {
            lemma_after_tag(before);
        }
        match items.next() {
            None => {
                if items.corrupt {
                    return None;
                }
                assert(seen + Seq::<Seq<u8>>::empty() =~= seen);
                return Some(found);
            },
            Some(item) => {
                let hit = if strong {
                    strong_eq(item, etag)
                } else {
                    weak_eq(item, etag)
                };
                proof {
                    let old_seen = seen;
                    seen = seen.push(item@);
                    if let Some(rest) = tag_list(items.remaining@) {
                        assert(old_seen + (seq![item@] + rest) =~= seen + rest);
                    }
                    assert(seen[old_seen.len() as int] == item@);
                    if lists_tag(old_seen, etag@, strong) {
                        let i = choose|i: int|
                            0 <= i < old_seen.len() && tags_equal(
                                #[trigger] old_seen[i],
                                etag@,
                                strong,
                            );
                        assert(seen[i] == old_seen[i]);
                    }
                    if lists_tag(seen, etag@, strong) {
                        let i = choose|i: int|
                            0 <= i < seen.len() && tags_equal(#[trigger] seen[i], etag@, strong);
                        if i < old_seen.len() {
                            assert(seen[i] == old_seen[i]);
                        }
                    }
                }
                found = found || hit;
            },
        }
    }
}

/// Compares the entity with the tags of the `If-None-Match` header: `Some(true)`
/// if no tag matches, `Some(false)` if one does, `None` if there is no such
/// header or it is corrupt.
///
/// The comparison is weak, as RFC 7232 section 3.2 requires.
pub fn none_match(etag: &Option<HeaderValue>, req_hdrs: &HeaderMap<HeaderValue>) -> (r: Option<bool>)
    ensures
        r == none_match_of(optional_value(*etag), request_field(*req_hdrs, "if-none-match"@)),
{
    proof {
        reveal_strlit("if-none-match");
    }
    let m = match get_named(req_hdrs, "if-none-match") {
        None => {
            return None;
        },
        Some(m) => m.as_bytes(),
    };
    if same(m, "*".as_bytes()) {
        return Some(false);
    }
    match etag {
        None => Some(true),
        Some(some_etag) => match list_matches(m, some_etag.as_bytes(), false) {
            None => None,
            Some(found) => Some(!found),
        },
    }
}

/// Whether the request has no `If-Match` header, or one that matches the
/// entity. The comparison is strong. An error if the header is corrupt.
pub fn any_match(etag: &Option<HeaderValue>, req_hdrs: &HeaderMap<HeaderValue>) -> (r: Result<
    bool,
    &'static str,
>)
    ensures
        match any_match_of(optional_value(*etag), request_field(*req_hdrs, "if-match"@)) {
            Some(b) => r == Ok::<bool, &'static str>(b),
            None => r matches Err(msg) && msg@ == "Unparseable If-Match header"@,
        },
{
    proof {
        reveal_strlit("if-match");
    }
    let m = match get_named(req_hdrs, "if-match") {
        None => {
            return Ok(true);
        },
        Some(m) => m.as_bytes(),
    };
    if same(m, "*".as_bytes()) {
        // The absent header and `*` differ only when there is no entity to
        // serve, and here there always is one.
        return Ok(true);
    }
    match etag {
        None => Ok(false),
        Some(some_etag) => match list_matches(m, some_etag.as_bytes(), true) {
            None => Err("Unparseable If-Match header"),
            Some(found) => Ok(found),
        },
    }
}

/// A list that is one entity tag, and nothing else, has that tag as its only
/// item.
pub proof fn own_etag_is_a_list(tag: ETag)
    ensures
        tag_list(etag_text(tag)) == Some(seq![etag_text(tag)]),
{
    let s = etag_text(tag);
    reveal_strlit("W/\"");
    reveal_strlit("\"");
    crate::text::lemma_text_ascii("W/\""@);
    crate::text::lemma_text_ascii("\""@);
    assert(s.take(3)[0] == QUOTE);
    assert(text("W/\""@)[0] == 0x57);
    assert(s.take(1) =~= text("\""@));
    let body = s.skip(1);
    assert forall|j: int| 0 <= j < 16 implies body[j] != QUOTE by {
        assert(body[j] == hex(tag.0)[j]);
        let v = tag.0;
        let k = ((15 - j) * 4) as u64;
        assert((v >> k) & 0xf < 16) by (bit_vector);
    }
    assert(body[16] == QUOTE);
    crate::text::lemma_find_byte_is(body, QUOTE, 16);
    assert(tag_len(s) == Some(18int));
    assert(s.take(18) =~= s);
    assert(after_tag(s, 18) =~= Seq::<u8>::empty());
    assert(tag_list(Seq::<u8>::empty()) == Some(Seq::<Seq<u8>>::empty()));
    assert(seq![s] + Seq::<Seq<u8>>::empty() =~= seq![s]);
}

/// A client that sends an entity's own tag back sees it recognised: the tag
/// matches in `If-None-Match` and in `If-Match`.
pub proof fn own_etag_matches(tag: ETag)
    ensures
        none_match_of(Some(etag_text(tag)), Some(etag_text(tag))) == Some(false),
        any_match_of(Some(etag_text(tag)), Some(etag_text(tag))) == Some(true),
{
    own_etag_is_a_list(tag);
    etags_are_strong(tag, tag);
    let s = etag_text(tag);
    reveal_strlit("*");
    crate::text::lemma_text_ascii("*"@);
    assert(s.len() == 18);
    assert(seq![s][0] == s);
    assert(tags_equal(seq![s][0], s, false));
    assert(tags_equal(seq![s][0], s, true));
}

/// The tag of one entity does not match an entity with another hash.
pub proof fn foreign_etag_does_not_match(tag: ETag, other: ETag)
    requires
        tag != other,
    ensures
        none_match_of(Some(etag_text(tag)), Some(etag_text(other))) == Some(true),
        any_match_of(Some(etag_text(tag)), Some(etag_text(other))) == Some(false),
{
    own_etag_is_a_list(other);
    etags_are_strong(other, tag);
    reveal_strlit("*");
    crate::text::lemma_text_ascii("*"@);
    assert(etag_text(other).len() == 18);
}

} // verus!
