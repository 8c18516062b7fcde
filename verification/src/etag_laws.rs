//! What lists of entity tags stand for, and how tags are compared.

use crate::etag::{
    after_tag, any_match_of, etag_text, hex, hex_digit, is_separated, lemma_after_tag, lists_tag,
    none_match_of, strongly_equal, tag_len, tag_list, tags_equal, weakly_equal, ETag,
};
use crate::text::{
    all_ows, find_byte, has_prefix, is_ows, lemma_find_byte, lemma_find_byte_is, lemma_text_ascii,
    text, trim_start, COMMA, QUOTE,
};
use vstd::prelude::*;

verus! {

/// A tag in quotes.
pub open spec fn quoted(inner: Seq<u8>) -> Seq<u8> {
    seq![QUOTE] + inner + seq![QUOTE]
}

/// A tag with the mark of weakness.
pub open spec fn weak(tag: Seq<u8>) -> Seq<u8> {
    text("W/"@) + tag
}

/// Whether a text is an entity tag: anything but quotes, in quotes, and maybe the mark of
/// weakness before it.
pub open spec fn is_entity_tag(t: Seq<u8>) -> bool {
    exists|inner: Seq<u8>|
        !inner.contains(QUOTE) && (t == #[trigger] quoted(inner) || t == weak(quoted(inner)))
}

/// Whether a text consists of these tags, each with a comma behind it, and maybe whitespace
/// behind that. The comma behind the last one may be missing.
pub open spec fn is_tag_list(s: Seq<u8>, tags: Seq<Seq<u8>>) -> bool
    decreases tags.len(),
{
    if tags.len() == 0 {
        s.len() == 0
    } else {
        is_entity_tag(tags[0]) && ((tags.len() == 1 && s == tags[0]) || exists|
            pad: Seq<u8>,
            rest: Seq<u8>,
        |
            #![trigger tags[0] + seq![COMMA] + pad + rest]
            s == tags[0] + seq![COMMA] + pad + rest && all_ows(pad) && (rest.len() > 0 ==> !is_ows(
                rest[0],
            )) && is_tag_list(rest, tags.skip(1)))
    }
}

/// What whitespace in front of a text is trimmed to.
proof fn lemma_trim_start_padding(pad: Seq<u8>, rest: Seq<u8>)
    requires
        all_ows(pad),
        rest.len() > 0 ==> !is_ows(rest[0]),
    ensures
        trim_start(pad + rest) == rest,
    decreases pad.len(),
{
    let all = pad + rest;
    if pad.len() > 0 {
        assert(is_ows(pad[0]));
        assert(all[0] == pad[0]);
        assert(all.skip(1) =~= pad.skip(1) + rest);
        assert forall|i: int| 0 <= i < pad.skip(1).len() implies is_ows(#[trigger] pad.skip(1)[i]) by {
            assert(pad.skip(1)[i] == pad[i + 1]);
        }
        lemma_trim_start_padding(pad.skip(1), rest);
    } else {
        assert(all =~= rest);
    }
}

/// What trimming takes away in front of a text.
proof fn lemma_trim_start_takes(s: Seq<u8>) -> (pad: Seq<u8>)
    ensures
        all_ows(pad),
        s == pad + trim_start(s),
        trim_start(s).len() > 0 ==> !is_ows(trim_start(s)[0]),
    decreases s.len(),
{
    if s.len() > 0 && is_ows(s[0]) {
        let pad = lemma_trim_start_takes(s.skip(1));
        assert(s =~= seq![s[0]] + s.skip(1));
        assert(s =~= (seq![s[0]] + pad) + trim_start(s));
        seq![s[0]] + pad
    } else {
        assert(s =~= Seq::<u8>::empty() + s);
        Seq::empty()
    }
}

/// How the marks of a tag read.
proof fn lemma_marks()
    ensures
        text("\""@) == seq![QUOTE],
        text("W/"@) == seq![0x57u8, 0x2fu8],
        text("W/\""@) == seq![0x57u8, 0x2fu8, QUOTE],
{
    reveal_strlit("\"");
    reveal_strlit("W/");
    reveal_strlit("W/\"");
    lemma_text_ascii("\""@);
    lemma_text_ascii("W/"@);
    lemma_text_ascii("W/\""@);
    assert(text("\""@) =~= seq![QUOTE]);
    assert(text("W/"@) =~= seq![0x57u8, 0x2fu8]);
    assert(text("W/\""@) =~= seq![0x57u8, 0x2fu8, QUOTE]);
}

/// The length of a tag at the front of a text.
proof fn lemma_tag_len(t: Seq<u8>, more: Seq<u8>)
    requires
        is_entity_tag(t),
    ensures
        tag_len(t + more) == Some(t.len() as int),
        t.len() > 0,
{
    lemma_marks();
    let s = t + more;
    let inner = choose|inner: Seq<u8>|
        !inner.contains(QUOTE) && (t == #[trigger] quoted(inner) || t == weak(quoted(inner)));
    let open: int = if t == quoted(inner) {
        1
    } else {
        3
    };
    if open == 1 {
        assert(s[0] == QUOTE);
        if s.len() >= 3 {
            assert(s.take(3)[0] == QUOTE);
        }
        assert(!has_prefix(s, text("W/\""@)));
        assert(s.take(1) =~= seq![QUOTE]);
    } else {
        assert(s.take(3) =~= seq![0x57u8, 0x2fu8, QUOTE]);
    }
    let body = s.skip(open);
    assert forall|j: int| 0 <= j < inner.len() implies body[j] != QUOTE by {
        assert(body[j] == inner[j]);
        assert(inner.contains(inner[j]));
    }
    assert(body[inner.len() as int] == QUOTE);
    lemma_find_byte_is(body, QUOTE, inner.len() as int);
}

/// What is found as a tag at the front of a text is one.
proof fn lemma_found_tag(s: Seq<u8>)
    ensures
        tag_len(s) matches Some(n) ==> 0 < n <= s.len() && is_entity_tag(s.take(n)),
{
    if let Some(n) = tag_len(s) {
        lemma_marks();
        let open: int = if has_prefix(s, text("W/\""@)) {
            3
        } else {
            1
        };
        lemma_find_byte(s.skip(open), QUOTE);
        let k = find_byte(s.skip(open), QUOTE);
        let inner = s.skip(open).take(k);
        assert forall|j: int| 0 <= j < inner.len() implies inner[j] != QUOTE by {
            assert(inner[j] == s.skip(open)[j]);
        }
        assert(!inner.contains(QUOTE));
        assert(s[open + k] == s.skip(open)[k]);
        if open == 3 {
            assert(s.take(3)[0] == s[0] && s.take(3)[1] == s[1] && s.take(3)[2] == s[2]);
            assert(s.take(n) =~= weak(quoted(inner)));
        } else {
            assert(s.take(1)[0] == s[0]);
            assert(s.take(n) =~= quoted(inner));
        }
    }
}

/// A list is read as its tags.
proof fn lemma_list_is_read(s: Seq<u8>, tags: Seq<Seq<u8>>)
    requires
        is_tag_list(s, tags),
    ensures
        tag_list(s) == Some(tags),
    decreases tags.len(),
{
    if tags.len() == 0 {
        assert(tags =~= Seq::<Seq<u8>>::empty());
    } else {
        let t = tags[0];
        let n = t.len() as int;
        let none = Seq::<u8>::empty();
        lemma_after_tag(s);
        if tags.len() == 1 && s == t {
            assert(s =~= t + none);
            lemma_tag_len(t, none);
            assert(s.take(n) =~= t);
            assert(after_tag(s, n) =~= none);
            assert(is_separated(s, n));
            assert(tag_list(none) == Some(Seq::<Seq<u8>>::empty()));
            assert(seq![t] + Seq::<Seq<u8>>::empty() =~= tags);
        } else {
            let (pad, rest) = choose|pad: Seq<u8>, rest: Seq<u8>|
                #![trigger tags[0] + seq![COMMA] + pad + rest]
                s == tags[0] + seq![COMMA] + pad + rest && all_ows(pad) && (rest.len() > 0
                    ==> !is_ows(rest[0])) && is_tag_list(rest, tags.skip(1));
            assert(s =~= t + (seq![COMMA] + pad + rest));
            lemma_tag_len(t, seq![COMMA] + pad + rest);
            assert(s.take(n) =~= t);
            assert(s.skip(n)[0] == COMMA);
            assert(s.skip(n).skip(1) =~= pad + rest);
            lemma_trim_start_padding(pad, rest);
            assert(after_tag(s, n) == rest);
            lemma_list_is_read(rest, tags.skip(1));
            assert(seq![t] + tags.skip(1) =~= tags);
        }
    }
}

/// What is read as a list is one.
proof fn lemma_read_is_list(s: Seq<u8>, tags: Seq<Seq<u8>>)
    requires
        tag_list(s) == Some(tags),
    ensures
        is_tag_list(s, tags),
    decreases s.len(),
{
    if s.len() > 0 {
        lemma_after_tag(s);
        lemma_found_tag(s);
        let n = tag_len(s).unwrap();
        let t = s.take(n);
        let rest = after_tag(s, n);
        let more = tag_list(rest).unwrap();
        assert(tags[0] == t);
        assert(tags.skip(1) =~= more);
        lemma_read_is_list(rest, more);
        if s.skip(n).len() == 0 {
            assert(s =~= t);
            assert(rest.len() == 0);
            assert(tag_list(rest) == Some(Seq::<Seq<u8>>::empty()));
            assert(tags.len() == 1);
        } else {
            let tail = s.skip(n);
            let pad = lemma_trim_start_takes(tail.skip(1));
            assert(is_separated(s, n));
            assert(tail =~= seq![COMMA] + tail.skip(1));
            assert(s =~= t + tail);
            assert(rest == trim_start(tail.skip(1)));
            assert(s =~= tags[0] + seq![COMMA] + pad + rest);
        }
    }
}

/// A list of entity tags is understood if and only if it consists of tags with commas between
/// them, and it then stands for these tags, all of them and in their order.
pub proof fn a_list_is_its_tags(s: Seq<u8>, tags: Seq<Seq<u8>>)
    ensures
        tag_list(s) == Some(tags) <==> is_tag_list(s, tags),
{
    if tag_list(s) == Some(tags) {
        lemma_read_is_list(s, tags);
    }
    if is_tag_list(s, tags) {
        lemma_list_is_read(s, tags);
    }
}

/// Tags are compared by what stands in quotes. Weak comparison does not look at the mark of
/// weakness; under strong comparison a tag with the mark equals none.
pub proof fn tags_are_compared_by_what_is_quoted(a: Seq<u8>, b: Seq<u8>)
    ensures
        weakly_equal(quoted(a), quoted(b)) <==> a == b,
        weakly_equal(weak(quoted(a)), quoted(b)) <==> a == b,
        weakly_equal(quoted(a), weak(quoted(b))) <==> a == b,
        weakly_equal(weak(quoted(a)), weak(quoted(b))) <==> a == b,
        strongly_equal(quoted(a), quoted(b)) <==> a == b,
        !strongly_equal(weak(quoted(a)), quoted(b)),
        !strongly_equal(quoted(a), weak(quoted(b))),
        !strongly_equal(weak(quoted(a)), weak(quoted(b))),
{
    lemma_marks();
    let mark = text("W/"@);
    let (x, y) = (quoted(a), quoted(b));
    assert(x.take(2)[0] == QUOTE);
    assert(y.take(2)[0] == QUOTE);
    assert(weak(x).take(2) =~= mark);
    assert(weak(y).take(2) =~= mark);
    assert(weak(x).skip(2) =~= x);
    assert(weak(y).skip(2) =~= y);
    assert(weak(x)[0] == 0x57);
    assert(weak(y)[0] == 0x57);
    if x == y {
        assert(a =~= x.subrange(1, x.len() - 1));
        assert(b =~= y.subrange(1, y.len() - 1));
    }
}

/// `If-Match` lets a request through if it is missing or `*`, or if the tag of the resource is
/// one of its tags. A resource without a tag matches none, and what is no list is not understood.
pub proof fn if_match_asks_for_one_of_its_tags(inner: Seq<u8>, s: Seq<u8>, tags: Seq<Seq<u8>>)
    requires
        !inner.contains(QUOTE),
        s != text("*"@),
    ensures
        any_match_of(Some(quoted(inner)), None) == Some(true),
        any_match_of(None, None) == Some(true),
        any_match_of(Some(quoted(inner)), Some(text("*"@))) == Some(true),
        any_match_of(None, Some(text("*"@))) == Some(true),
        any_match_of(None, Some(s)) == Some(false),
        is_tag_list(s, tags) ==> any_match_of(Some(quoted(inner)), Some(s)) == Some(
            tags.contains(quoted(inner)),
        ),
        (forall|list: Seq<Seq<u8>>| !is_tag_list(s, list)) ==> any_match_of(
            Some(quoted(inner)),
            Some(s),
        ) is None,
{
    let e = quoted(inner);
    lemma_strong_tag(inner);
    if is_tag_list(s, tags) {
        lemma_list_is_read(s, tags);
        if tags.contains(e) {
            let i = choose|i: int| 0 <= i < tags.len() && tags[i] == e;
            assert(tags_equal(tags[i], e, true));
        }
        if lists_tag(tags, e, true) {
            let i = choose|i: int| 0 <= i < tags.len() && tags_equal(#[trigger] tags[i], e, true);
            assert(tags[i] == e);
        }
    }
    if let Some(list) = tag_list(s) {
        lemma_read_is_list(s, list);
    }
}

/// `If-None-Match` holds a request back if it is `*`, or if the tag of the resource is one of
/// its tags, with or without the mark of weakness. It decides nothing if it is missing, or if it
/// is no list.
pub proof fn if_none_match_asks_for_none_of_its_tags(
    inner: Seq<u8>,
    s: Seq<u8>,
    tags: Seq<Seq<u8>>,
)
    requires
        !inner.contains(QUOTE),
        s != text("*"@),
    ensures
        none_match_of(Some(quoted(inner)), None) is None,
        none_match_of(None, None) is None,
        none_match_of(Some(quoted(inner)), Some(text("*"@))) == Some(false),
        none_match_of(None, Some(text("*"@))) == Some(false),
        none_match_of(None, Some(s)) == Some(true),
        is_tag_list(s, tags) ==> none_match_of(Some(quoted(inner)), Some(s)) == Some(
            !tags.contains(quoted(inner)) && !tags.contains(weak(quoted(inner))),
        ),
        (forall|list: Seq<Seq<u8>>| !is_tag_list(s, list)) ==> none_match_of(
            Some(quoted(inner)),
            Some(s),
        ) is None,
{
    let e = quoted(inner);
    if is_tag_list(s, tags) {
        lemma_list_is_read(s, tags);
        tags_are_compared_by_what_is_quoted(inner, inner);
        if tags.contains(e) {
            let i = choose|i: int| 0 <= i < tags.len() && tags[i] == e;
            assert(tags_equal(tags[i], e, false));
        }
        if tags.contains(weak(e)) {
            let i = choose|i: int| 0 <= i < tags.len() && tags[i] == weak(e);
            assert(tags_equal(tags[i], e, false));
        }
        if lists_tag(tags, e, false) {
            let i = choose|i: int| 0 <= i < tags.len() && tags_equal(#[trigger] tags[i], e, false);
            lemma_listed(s, tags, i);
            let other = choose|other: Seq<u8>|
                !other.contains(QUOTE) && (tags[i] == #[trigger] quoted(other) || tags[i] == weak(
                    quoted(other),
                ));
            tags_are_compared_by_what_is_quoted(other, inner);
        }
    }
    if let Some(list) = tag_list(s) {
        lemma_read_is_list(s, list);
    }
}

/// A tag in quotes is strong.
proof fn lemma_strong_tag(inner: Seq<u8>)
    ensures
        strongly_equal(quoted(inner), quoted(inner)),
{
    tags_are_compared_by_what_is_quoted(inner, inner);
}

/// What is in a list is an entity tag.
proof fn lemma_listed(s: Seq<u8>, tags: Seq<Seq<u8>>, i: int)
    requires
        is_tag_list(s, tags),
        0 <= i < tags.len(),
    ensures
        is_entity_tag(tags[i]),
    decreases tags.len(),
{
    if i > 0 {
        let (pad, rest) = choose|pad: Seq<u8>, rest: Seq<u8>|
            #![trigger tags[0] + seq![COMMA] + pad + rest]
            s == tags[0] + seq![COMMA] + pad + rest && all_ows(pad) && (rest.len() > 0 ==> !is_ows(
                rest[0],
            )) && is_tag_list(rest, tags.skip(1));
        lemma_listed(rest, tags.skip(1), i - 1);
        assert(tags.skip(1)[i - 1] == tags[i]);
    }
}

/// The number that a hexadecimal digit stands for: `0` to `9`, and then `a` to `f`.
pub open spec fn digit_value(c: u8) -> nat {
    if c < 58 {
        (c - 48) as nat
    } else {
        (c - 97 + 10) as nat
    }
}

/// The number that hexadecimal digits stand for, most significant digit first.
pub open spec fn hex_value(s: Seq<u8>) -> nat
    decreases s.len(),
{
    if s.len() == 0 {
        0
    } else {
        hex_value(s.drop_last()) * 16 + digit_value(s.last())
    }
}

/// A tag of the library is the number that it was made of, as sixteen lower-case hexadecimal
/// digits in quotes.
pub proof fn an_etag_spells_its_number(tag: ETag)
    ensures
        hex(tag.0).len() == 16,
        forall|i: int|
            0 <= i < 16 ==> 48 <= #[trigger] hex(tag.0)[i] < 58 || 97 <= hex(tag.0)[i] < 103,
        hex_value(hex(tag.0)) == tag.0,
        etag_text(tag) == quoted(hex(tag.0)),
        !hex(tag.0).contains(QUOTE),
{
    let v = tag.0;
    assert forall|i: int| 0 <= i < 16 implies 48 <= #[trigger] hex(v)[i] < 58 || 97 <= hex(v)[i]
        < 103 by {
        let k = ((15 - i) * 4) as u64;
        assert((v >> k) & 0xf < 16) by (bit_vector);
    }
    lemma_hex_prefix(v, 16);
    assert(hex(v).take(16) =~= hex(v));
    assert(v >> 0u64 == v) by (bit_vector);
}

/// The leading digits stand for the leading bits.
proof fn lemma_hex_prefix(v: u64, n: int)
    requires
        1 <= n <= 16,
    ensures
        hex_value(hex(v).take(n)) == v >> ((16 - n) * 4) as u64,
    decreases n,
{
    let t = hex(v).take(n);
    let k = ((16 - n) * 4) as u64;
    assert(t.drop_last() =~= hex(v).take(n - 1));
    assert(t.last() == hex_digit((v >> k) & 0xf));
    assert((v >> k) & 0xf < 16) by (bit_vector);
    if n == 1 {
        assert(hex(v).take(0) =~= Seq::<u8>::empty());
        assert(hex_value(hex(v).take(0)) == 0);
        assert(v >> 60u64 == (v >> 60u64) & 0xf) by (bit_vector);
    } else {
        lemma_hex_prefix(v, n - 1);
        let up = (k + 4) as u64;
        assert(((16 - (n - 1)) * 4) as u64 == up);
        assert(v >> k == (v >> up) * 16 + ((v >> k) & 0xf)) by (bit_vector)
            requires
                k <= 56,
                up == k + 4,
        ;
    }
}

/// A resource with a weak tag matches no list as `If-Match`, and as `If-None-Match` one that holds
/// its tag with or without the mark of weakness.
pub proof fn weak_tags_match_weakly_only(inner: Seq<u8>, s: Seq<u8>, tags: Seq<Seq<u8>>)
    requires
        !inner.contains(QUOTE),
        s != text("*"@),
        is_tag_list(s, tags),
    ensures
        any_match_of(Some(weak(quoted(inner))), Some(s)) == Some(false),
        none_match_of(Some(weak(quoted(inner))), Some(s)) == Some(
            !tags.contains(quoted(inner)) && !tags.contains(weak(quoted(inner))),
        ),
{
    let e = weak(quoted(inner));
    lemma_list_is_read(s, tags);
    tags_are_compared_by_what_is_quoted(inner, inner);
    if lists_tag(tags, e, true) {
        let i = choose|i: int| 0 <= i < tags.len() && tags_equal(#[trigger] tags[i], e, true);
        assert(tags[i] == e);
    }
    if tags.contains(quoted(inner)) {
        let i = choose|i: int| 0 <= i < tags.len() && tags[i] == quoted(inner);
        assert(tags_equal(tags[i], e, false));
    }
    if tags.contains(e) {
        let i = choose|i: int| 0 <= i < tags.len() && tags[i] == e;
        assert(tags_equal(tags[i], e, false));
    }
    if lists_tag(tags, e, false) {
        let i = choose|i: int| 0 <= i < tags.len() && tags_equal(#[trigger] tags[i], e, false);
        lemma_listed(s, tags, i);
        let other = choose|other: Seq<u8>|
            !other.contains(QUOTE) && (tags[i] == #[trigger] quoted(other) || tags[i] == weak(
                quoted(other),
            ));
        tags_are_compared_by_what_is_quoted(other, inner);
    }
}

} // verus!
