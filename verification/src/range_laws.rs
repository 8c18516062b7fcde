//! What a `Range` header stands for.
//!
//! A header is written out from what it is meant to ask for, and the ranges that it is resolved
//! to are told by the positions that they hold.

use crate::range::{position, range_set, range_spec, requested_ranges, ResolvedRanges};
use crate::text::{
    all_ows, decimal, decimal_reads_back, find_byte, is_digit, is_numeral, is_ows, joined_by,
    lemma_find_byte, lemma_find_byte_is, lemma_text_ascii, numeral_value, splitting_undoes_joining,
    text, trim, trimming_undoes_padding, COMMA, DASH,
};
use std::ops::Range;
use vstd::prelude::*;

verus! {

/// What one element of a `Range` header asks for.
pub enum RangeElement {
    /// Everything from a position on.
    From(u64),
    /// What is between two positions, both of them included.
    FromTo(u64, u64),
    /// The given number of bytes at the end.
    Last(u64),
}

impl RangeElement {
    /// Whether the element is one at all: it does not end before it begins.
    pub open spec fn is_valid(self) -> bool {
        self matches RangeElement::FromTo(first, last) ==> first <= last
    }

    /// Whether the element asks for the byte at a position, of an entity of length `len`.
    pub open spec fn asks_for(self, p: int, len: u64) -> bool {
        &&& 0 <= p < len
        &&& match self {
            RangeElement::From(first) => first <= p,
            RangeElement::FromTo(first, last) => first <= p <= last,
            RangeElement::Last(n) => len - n <= p,
        }
    }

    /// Whether the entity has a byte that the element asks for.
    pub open spec fn is_satisfiable(self, len: u64) -> bool {
        exists|p: int| self.asks_for(p, len)
    }

    /// Whether a text is how the element is written.
    pub open spec fn is_written(self, s: Seq<u8>) -> bool {
        match self {
            RangeElement::From(first) => is_open_text(s, first),
            RangeElement::FromTo(first, last) => is_closed_text(s, first, last),
            RangeElement::Last(n) => is_suffix_text(s, n),
        }
    }
}

/// Whether a text is a position and a dash.
pub open spec fn is_open_text(s: Seq<u8>, first: u64) -> bool {
    exists|a: Seq<u8>| #[trigger] is_spelled(a, first) && s == a + seq![DASH]
}

/// Whether a text is two positions with a dash between them.
pub open spec fn is_closed_text(s: Seq<u8>, first: u64, last: u64) -> bool {
    exists|a: Seq<u8>, b: Seq<u8>|
        #![trigger is_spelled(a, first), is_spelled(b, last)]
        is_spelled(a, first) && is_spelled(b, last) && s == a + seq![DASH] + b
}

/// Whether a text is a dash and a number.
pub open spec fn is_suffix_text(s: Seq<u8>, n: u64) -> bool {
    exists|b: Seq<u8>| #[trigger] is_spelled(b, n) && s == seq![DASH] + b
}

/// How the elements are written.
proof fn lemma_written(a: Seq<u8>, first: u64, b: Seq<u8>, last: u64)
    ensures
        is_spelled(a, first) ==> RangeElement::From(first).is_written(a + seq![DASH]),
        is_spelled(a, first) && is_spelled(b, last) ==> RangeElement::FromTo(
            first,
            last,
        ).is_written(a + seq![DASH] + b),
        is_spelled(b, last) ==> RangeElement::Last(last).is_written(seq![DASH] + b),
{
    if is_spelled(a, first) {
        assert(is_open_text(a + seq![DASH], first));
        if is_spelled(b, last) {
            assert(is_closed_text(a + seq![DASH] + b, first, last));
        }
    }
    if is_spelled(b, last) {
        assert(is_suffix_text(seq![DASH] + b, last));
    }
}

/// Whether a text is a numeral of a number.
pub open spec fn is_spelled(s: Seq<u8>, n: u64) -> bool {
    is_numeral(s) && numeral_value(s) == n
}

/// Whether a range holds a position.
pub open spec fn holds(r: Range<u64>, p: int) -> bool {
    r.start <= p < r.end
}

/// Those of some elements that an entity of length `len` has a byte of, in their order.
pub open spec fn satisfiable(elements: Seq<RangeElement>, len: u64) -> Seq<RangeElement>
    decreases elements.len(),
{
    if elements.len() == 0 {
        Seq::empty()
    } else if elements[0].is_satisfiable(len) {
        seq![elements[0]] + satisfiable(elements.skip(1), len)
    } else {
        satisfiable(elements.skip(1), len)
    }
}

/// A `Range` header made of parts.
pub open spec fn range_header(parts: Seq<Seq<u8>>) -> Seq<u8> {
    text("bytes="@) + joined_by(parts, COMMA)
}

/// Whether a part of a header is an element with optional whitespace around it.
pub open spec fn is_part_for(part: Seq<u8>, e: RangeElement) -> bool {
    exists|before: Seq<u8>, s: Seq<u8>, after: Seq<u8>|
        #![trigger before + s + after]
        all_ows(before) && all_ows(after) && e.is_written(s) && part == before + s + after
}

/// A numeral holds nothing but digits.
proof fn lemma_numeral_bytes(a: Seq<u8>)
    requires
        is_numeral(a),
    ensures
        !a.contains(DASH),
        !a.contains(COMMA),
        !is_ows(a[0]),
        !is_ows(a.last()),
{
    assert(is_digit(a[0]));
    assert(is_digit(a[a.len() - 1]));
    if a.contains(DASH) {
        let k = choose|k: int| 0 <= k < a.len() && a[k] == DASH;
        assert(is_digit(a[k]));
    }
    if a.contains(COMMA) {
        let k = choose|k: int| 0 <= k < a.len() && a[k] == COMMA;
        assert(is_digit(a[k]));
    }
}

/// The parts before and behind the first dash.
proof fn lemma_around_dash(a: Seq<u8>, b: Seq<u8>)
    requires
        !a.contains(DASH),
    ensures
        find_byte(a + seq![DASH] + b, DASH) == a.len(),
        (a + seq![DASH] + b).take(a.len() as int) == a,
        (a + seq![DASH] + b).skip(1 + a.len() as int) == b,
{
    let s = a + seq![DASH] + b;
    assert forall|j: int| 0 <= j < a.len() implies s[j] != DASH by {
        assert(s[j] == a[j]);
        assert(a.contains(a[j]));
    }
    lemma_find_byte_is(s, DASH, a.len() as int);
    assert(s.take(a.len() as int) =~= a);
    assert(s.skip(1 + a.len() as int) =~= b);
}

/// The range of an element holds exactly what the element asks for.
proof fn lemma_element(e: RangeElement, s: Seq<u8>, len: u64)
    requires
        e.is_valid(),
        e.is_written(s),
    ensures
        s.len() > 0,
        !s.contains(COMMA),
        !is_ows(s[0]),
        !is_ows(s.last()),
        match range_spec(s, len) {
            Some(Some(r)) => e.is_satisfiable(len) && r.start < r.end <= len && forall|p: int| #[trigger]
                holds(r, p) <==> e.asks_for(p, len),
            Some(None) => !e.is_satisfiable(len),
            None => false,
        },
{
    let none = Seq::<u8>::empty();
    match e {
        RangeElement::From(first) => {
            let a = choose|a: Seq<u8>| #[trigger] is_spelled(a, first) && s == a + seq![DASH];
            lemma_numeral_bytes(a);
            assert(s =~= a + seq![DASH] + none);
            lemma_around_dash(a, none);
            assert(!is_numeral(none));
            lemma_no_comma(a, none);
            if first < len {
                assert(e.asks_for(first as int, len));
            }
        },
        RangeElement::FromTo(first, last) => {
            let (a, b) = choose|a: Seq<u8>, b: Seq<u8>|
                #![trigger is_spelled(a, first), is_spelled(b, last)]
                is_spelled(a, first) && is_spelled(b, last) && s == a + seq![DASH] + b;
            lemma_numeral_bytes(a);
            lemma_numeral_bytes(b);
            lemma_around_dash(a, b);
            lemma_no_comma(a, b);
            assert(s.last() == b.last());
            if first < len {
                assert(e.asks_for(first as int, len));
            }
        },
        RangeElement::Last(n) => {
            let b = choose|b: Seq<u8>| #[trigger] is_spelled(b, n) && s == seq![DASH] + b;
            lemma_numeral_bytes(b);
            assert(s =~= none + seq![DASH] + b);
            lemma_around_dash(none, b);
            lemma_no_comma(none, b);
            assert(s.last() == b.last());
            if n > 0 && len > 0 {
                assert(e.asks_for(len - 1, len));
            }
        },
    }
}

/// Neither numerals nor the dash between them hold a comma.
proof fn lemma_no_comma(a: Seq<u8>, b: Seq<u8>)
    requires
        !a.contains(COMMA),
        !b.contains(COMMA),
    ensures
        !(a + seq![DASH] + b).contains(COMMA),
{
    let s = a + seq![DASH] + b;
    if s.contains(COMMA) {
        let k = choose|k: int| 0 <= k < s.len() && s[k] == COMMA;
        if k < a.len() {
            assert(a[k] == COMMA);
        } else if k > a.len() {
            assert(b[k - a.len() - 1] == COMMA);
        }
    }
}

/// A part that is an element is read as that element, and holds no comma.
proof fn lemma_part(part: Seq<u8>, e: RangeElement, len: u64)
    requires
        e.is_valid(),
        is_part_for(part, e),
    ensures
        e.is_written(trim(part)),
        !part.contains(COMMA),
{
    let (before, s, after) = choose|before: Seq<u8>, s: Seq<u8>, after: Seq<u8>|
        #![trigger before + s + after]
        all_ows(before) && all_ows(after) && e.is_written(s) && part == before + s + after;
    lemma_element(e, s, len);
    trimming_undoes_padding(before, s, after);
    if part.contains(COMMA) {
        let k = choose|k: int| 0 <= k < part.len() && part[k] == COMMA;
        if k < before.len() {
            assert(is_ows(before[k]));
        } else if k < before.len() + s.len() {
            assert(s[k - before.len()] == COMMA);
        } else {
            assert(is_ows(after[k - before.len() - s.len()]));
        }
    }
}

/// What the elements of a header resolve to.
proof fn lemma_range_set(parts: Seq<Seq<u8>>, elements: Seq<RangeElement>, len: u64)
    requires
        parts.len() == elements.len(),
        forall|i: int|
            0 <= i < parts.len() ==> (#[trigger] elements[i]).is_valid() && is_part_for(
                parts[i],
                elements[i],
            ),
    ensures
        range_set(parts, len) matches Some(rs) && rs.len() == satisfiable(elements, len).len()
            && forall|i: int, p: int|
            0 <= i < rs.len() ==> (#[trigger] holds(rs[i], p) <==> satisfiable(elements, len)[i].asks_for(
                p,
                len,
            )),
    decreases parts.len(),
{
    if parts.len() > 0 {
        let rest = elements.skip(1);
        assert(elements[0].is_valid());
        lemma_part(parts[0], elements[0], len);
        lemma_element(elements[0], trim(parts[0]), len);
        assert forall|i: int| 0 <= i < parts.skip(1).len() implies (#[trigger] rest[i]).is_valid()
            && is_part_for(parts.skip(1)[i], rest[i]) by {
            assert(rest[i] == elements[i + 1]);
        }
        lemma_range_set(parts.skip(1), rest, len);
        let rs = range_set(parts, len).unwrap();
        let more = range_set(parts.skip(1), len).unwrap();
        let wanted = satisfiable(elements, len);
        assert forall|i: int, p: int| 0 <= i < rs.len() implies (#[trigger] holds(rs[i], p)
            <==> wanted[i].asks_for(p, len)) by {
            if elements[0].is_satisfiable(len) {
                if i > 0 {
                    assert(rs[i] == more[i - 1]);
                    assert(wanted[i] == satisfiable(rest, len)[i - 1]);
                    assert(holds(more[i - 1], p) <==> satisfiable(rest, len)[i - 1].asks_for(p, len));
                }
            } else {
                assert(rs[i] == more[i]);
                assert(holds(more[i], p) <==> satisfiable(rest, len)[i].asks_for(p, len));
            }
        }
    }
}

/// A `Range` header is resolved to one range for each element that can be satisfied, in the
/// order of the elements, and each range holds exactly the positions that its element asks for.
/// Elements that cannot be satisfied are left out. There may be optional whitespace around an
/// element, and a number may have leading zeros.
pub proof fn a_range_header_is_resolved_element_by_element(
    parts: Seq<Seq<u8>>,
    elements: Seq<RangeElement>,
    len: u64,
)
    requires
        parts.len() == elements.len() > 0,
        forall|i: int|
            0 <= i < parts.len() ==> (#[trigger] elements[i]).is_valid() && is_part_for(
                parts[i],
                elements[i],
            ),
    ensures
        requested_ranges(Some(range_header(parts)), len) matches Some(rs) && rs.len() == satisfiable(
            elements,
            len,
        ).len() && forall|i: int, p: int|
            0 <= i < rs.len() ==> (#[trigger] holds(rs[i], p) <==> satisfiable(elements, len)[i].asks_for(
                p,
                len,
            )),
{
    let h = range_header(parts);
    let unit = text("bytes="@);
    assert(h.take(unit.len() as int) =~= unit);
    assert(h.skip(unit.len() as int) =~= joined_by(parts, COMMA));
    assert forall|i: int| 0 <= i < parts.len() implies !(#[trigger] parts[i]).contains(COMMA) by {
        assert(elements[i].is_valid());
        lemma_part(parts[i], elements[i], len);
    }
    splitting_undoes_joining(parts, COMMA);
    lemma_range_set(parts, elements, len);
}

/// If every element can be satisfied, none is left out.
pub proof fn every_satisfiable_element_is_resolved(elements: Seq<RangeElement>, len: u64)
    requires
        forall|i: int| 0 <= i < elements.len() ==> (#[trigger] elements[i]).is_satisfiable(len),
    ensures
        satisfiable(elements, len) == elements,
    decreases elements.len(),
{
    if elements.len() > 0 {
        assert(elements[0].is_satisfiable(len));
        let rest = elements.skip(1);
        assert forall|i: int| 0 <= i < rest.len() implies (#[trigger] rest[i]).is_satisfiable(
            len,
        ) by {
            assert(rest[i] == elements[i + 1]);
        }
        every_satisfiable_element_is_resolved(rest, len);
        assert(elements =~= seq![elements[0]] + rest);
    } else {
        assert(satisfiable(elements, len) =~= elements);
    }
}

/// The numeral of a number spells it.
proof fn lemma_decimal_spells(n: u64)
    ensures
        is_spelled(decimal(n as nat), n),
{
    decimal_reads_back(n as nat);
}

/// An element on its own is a part of a header.
proof fn lemma_bare_part(s: Seq<u8>, e: RangeElement)
    requires
        e.is_written(s),
    ensures
        is_part_for(s, e),
{
    let none = Seq::<u8>::empty();
    assert(none + s + none =~= s);
    assert(all_ows(none));
}

/// A range with a given set of positions.
proof fn lemma_same_range(r: Range<u64>, start: int, end: int)
    requires
        start < end,
        forall|p: int| #[trigger] holds(r, p) <==> start <= p < end,
    ensures
        r.start == start,
        r.end == end,
{
    assert(holds(r, start));
    assert(holds(r, end - 1));
    assert(!holds(r, start - 1));
    assert(!holds(r, end));
}

/// A header with one element resolves to what the element asks for, if the entity has a byte
/// of it.
proof fn lemma_one_element(s: Seq<u8>, e: RangeElement, len: u64, start: int, end: int)
    requires
        e.is_valid(),
        e.is_written(s),
        0 <= start < end <= len,
        forall|p: int| #[trigger] e.asks_for(p, len) <==> start <= p < end,
    ensures
        requested_ranges(Some(text("bytes="@) + s), len) == Some(
            seq![Range { start: start as u64, end: end as u64 }],
        ),
{
    let parts = seq![s];
    let elements = seq![e];
    lemma_bare_part(s, e);
    assert(range_header(parts) =~= text("bytes="@) + s);
    a_range_header_is_resolved_element_by_element(parts, elements, len);
    assert(e.asks_for(start, len));
    every_satisfiable_element_is_resolved(elements, len);
    let rs = requested_ranges(Some(range_header(parts)), len).unwrap();
    assert forall|p: int| #[trigger] holds(rs[0], p) <==> start <= p < end by {
        assert(holds(rs[0], p) <==> satisfiable(elements, len)[0].asks_for(p, len));
        assert(e.asks_for(p, len) <==> start <= p < end);
    }
    lemma_same_range(rs[0], start, end);
    assert(rs =~= seq![Range { start: start as u64, end: end as u64 }]);
}

/// `bytes=first-` is everything from a position on.
pub proof fn an_open_range_runs_to_the_end(first: u64, len: u64)
    requires
        first < len,
    ensures
        requested_ranges(Some(text("bytes="@) + decimal(first as nat) + seq![DASH]), len) == Some(
            seq![Range { start: first, end: len }],
        ),
{
    let a = decimal(first as nat);
    lemma_decimal_spells(first);
    lemma_written(a, first, a, first);
    lemma_one_element(a + seq![DASH], RangeElement::From(first), len, first as int, len as int);
    assert(text("bytes="@) + a + seq![DASH] =~= text("bytes="@) + (a + seq![DASH]));
}

/// `bytes=first-last` is what is between two positions, both of them included, as far as there
/// is any of it.
pub proof fn a_closed_range_includes_both_ends(first: u64, last: u64, len: u64)
    requires
        first <= last,
        first < len,
    ensures
        requested_ranges(
            Some(text("bytes="@) + decimal(first as nat) + seq![DASH] + decimal(last as nat)),
            len,
        ) == Some(
            seq![
                Range {
                    start: first,
                    end: if last < len {
                        (last + 1) as u64
                    } else {
                        len
                    },
                },
            ],
        ),
{
    let a = decimal(first as nat);
    let b = decimal(last as nat);
    lemma_decimal_spells(first);
    lemma_decimal_spells(last);
    let e = RangeElement::FromTo(first, last);
    lemma_written(a, first, b, last);
    let end = if last < len {
        last + 1
    } else {
        len as int
    };
    lemma_one_element(a + seq![DASH] + b, e, len, first as int, end);
    assert(text("bytes="@) + a + seq![DASH] + b =~= text("bytes="@) + (a + seq![DASH] + b));
}

/// `bytes=-n` is the last `n` bytes, or all of them if there are fewer.
pub proof fn a_suffix_range_is_at_the_end(n: u64, len: u64)
    requires
        n > 0,
        len > 0,
    ensures
        requested_ranges(Some(text("bytes="@) + seq![DASH] + decimal(n as nat)), len) == Some(
            seq![
                Range {
                    start: if n < len {
                        (len - n) as u64
                    } else {
                        0
                    },
                    end: len,
                },
            ],
        ),
{
    let b = decimal(n as nat);
    lemma_decimal_spells(n);
    let e = RangeElement::Last(n);
    lemma_written(b, n, b, n);
    let start = if n < len {
        len - n
    } else {
        0
    };
    lemma_one_element(seq![DASH] + b, e, len, start, len as int);
    assert(text("bytes="@) + seq![DASH] + b =~= text("bytes="@) + (seq![DASH] + b));
}

/// What a text that is understood as an element is.
proof fn lemma_understood_element(s: Seq<u8>, len: u64) -> (e: RangeElement)
    requires
        range_spec(s, len) is Some,
    ensures
        e.is_valid(),
        e.is_written(s),
{
    let dash = find_byte(s, DASH);
    lemma_find_byte(s, DASH);
    let a = s.take(dash);
    let b = s.skip(dash + 1);
    assert(s =~= a + seq![DASH] + b);
    if dash == 0 {
        let n = position(b).unwrap();
        assert(is_spelled(b, n));
        assert(s =~= seq![DASH] + b);
        lemma_written(b, n, b, n);
        RangeElement::Last(n)
    } else {
        let first = position(a).unwrap();
        assert(is_spelled(a, first));
        match position(b) {
            Some(last) => {
                assert(is_spelled(b, last));
                lemma_written(a, first, b, last);
                RangeElement::FromTo(first, last)
            },
            None => {
                assert(s =~= a + seq![DASH]);
                lemma_written(a, first, a, first);
                RangeElement::From(first)
            },
        }
    }
}

/// Each part of a range set that is understood is an element.
proof fn lemma_understood_set(parts: Seq<Seq<u8>>, len: u64, i: int)
    requires
        range_set(parts, len) is Some,
        0 <= i < parts.len(),
    ensures
        exists|e: RangeElement| e.is_valid() && #[trigger] e.is_written(trim(parts[i])),
    decreases parts.len(),
{
    if i == 0 {
        let e = lemma_understood_element(trim(parts[0]), len);
        assert(e.is_valid() && e.is_written(trim(parts[0])));
    } else {
        lemma_understood_set(parts.skip(1), len, i - 1);
        assert(parts.skip(1)[i - 1] == parts[i]);
    }
}

/// A `Range` header is ignored as a whole unless it is in bytes and each part of it is an
/// element: a single part that is none is enough.
pub proof fn other_range_headers_are_ignored(parts: Seq<Seq<u8>>, i: int, len: u64)
    requires
        0 <= i < parts.len(),
        forall|k: int| 0 <= k < parts.len() ==> !(#[trigger] parts[k]).contains(COMMA),
        forall|e: RangeElement| e.is_valid() ==> !(#[trigger] e.is_written(trim(parts[i]))),
    ensures
        requested_ranges(Some(range_header(parts)), len) is None,
{
    let h = range_header(parts);
    let unit = text("bytes="@);
    assert(h.skip(unit.len() as int) =~= joined_by(parts, COMMA));
    splitting_undoes_joining(parts, COMMA);
    if requested_ranges(Some(h), len) is Some {
        lemma_understood_set(parts, len, i);
    }
}

/// A `Range` header in another unit is ignored, and so is a missing one.
pub proof fn other_units_are_ignored(field: Seq<u8>, len: u64)
    requires
        field.len() < 6 || field.take(6) != text("bytes="@),
    ensures
        requested_ranges(Some(field), len) is None,
        requested_ranges(None, len) is None,
{
    reveal_strlit("bytes=");
    lemma_text_ascii("bytes="@);
}

/// What a `Range` header is parsed to has a range for each element that can be satisfied: none,
/// one or several, in the order of the elements and with exactly the positions that they ask for.
pub proof fn parsing_finds_every_range(
    parts: Seq<Seq<u8>>,
    elements: Seq<RangeElement>,
    len: u64,
    r: ResolvedRanges,
)
    requires
        parts.len() == elements.len() > 0,
        forall|i: int|
            0 <= i < parts.len() ==> (#[trigger] elements[i]).is_valid() && is_part_for(
                parts[i],
                elements[i],
            ),
        r.stands_for(requested_ranges(Some(range_header(parts)), len)),
    ensures
        match r {
            ResolvedRanges::Whole => false,
            ResolvedRanges::NotSatisfiable => satisfiable(elements, len).len() == 0,
            ResolvedRanges::Single(range) => satisfiable(elements, len).len() == 1 && forall|p: int|
                #[trigger]
                holds(range, p) <==> satisfiable(elements, len)[0].asks_for(p, len),
            ResolvedRanges::Multiple(ranges) => {
                &&& ranges@.len() == satisfiable(elements, len).len()
                &&& ranges@.len() >= 2
                &&& forall|i: int, p: int|
                    0 <= i < ranges@.len() ==> (#[trigger] holds(ranges@[i], p) <==> satisfiable(
                        elements,
                        len,
                    )[i].asks_for(p, len))
            },
        },
{
    a_range_header_is_resolved_element_by_element(parts, elements, len);
    let rs = requested_ranges(Some(range_header(parts)), len).unwrap();
    if let ResolvedRanges::Single(range) = r {
        assert(rs[0] == range);
        assert forall|p: int| #[trigger] holds(range, p) <==> satisfiable(elements, len)[0].asks_for(
            p,
            len,
        ) by {
            assert(holds(rs[0], p) <==> satisfiable(elements, len)[0].asks_for(p, len));
        }
    }
}

} // verus!
