//! The `Range` request header (RFC 7233 section 2.1).

use crate::headers::field_value;
use crate::text::{
    find_byte, find_from, has_prefix, is_numeral, lemma_find_byte, numeral_value, parse_decimal,
    split, starts_with, strip, text, trim, COMMA, DASH,
};
use http::HeaderValue;
use std::ops::Range;
use vstd::prelude::*;
use vstd::slice::slice_subrange;

verus! {

/// What a `Range` header asks for, of an entity of a known length.
pub enum ResolvedRanges {
    /// Everything: there is no `Range` header, or one that is to be ignored.
    Whole,
    /// Ranges of which the entity has no byte.
    NotSatisfiable,
    /// One range.
    Single(Range<u64>),
    /// Two or more ranges, in the order in which they were asked for.
    Multiple(Vec<Range<u64>>),
}

/// Whether `r` is a range of at least one byte of an entity of length `len`.
pub open spec fn is_range_of(r: Range<u64>, len: u64) -> bool {
    r.start < r.end <= len
}

/// Whether every range is one of at least one byte of an entity of length `len`.
pub open spec fn are_ranges_of(rs: Seq<Range<u64>>, len: u64) -> bool {
    forall|i: int| 0 <= i < rs.len() ==> is_range_of(#[trigger] rs[i], len)
}

/// The number that a numeral of at most 64 bits stands for.
pub open spec fn position(s: Seq<u8>) -> Option<u64> {
    if is_numeral(s) && numeral_value(s) <= u64::MAX {
        Some(numeral_value(s) as u64)
    } else {
        None
    }
}

/// One element of a range set. The outer `None` means that it is not a range
/// at all, the inner one that the entity has no byte of it.
///
/// An element is `first-last`, `first-` or `-suffix`. The positions of first
/// and last byte are both part of the range, a last byte beyond the entity is
/// cut off at its end, and a suffix that is longer than the entity is all of it.
pub open spec fn range_spec(s: Seq<u8>, len: u64) -> Option<Option<Range<u64>>> {
    let dash = find_byte(s, DASH);
    let before = s.take(dash);
    let after = s.skip(dash + 1);
    if dash >= s.len() {
        None
    } else if dash == 0 {
        match position(after) {
            None => None,
            Some(n) => if n == 0 || len == 0 {
                Some(None)
            } else if n >= len {
                Some(Some(Range { start: 0, end: len }))
            } else {
                Some(Some(Range { start: (len - n) as u64, end: len }))
            },
        }
    } else {
        match (position(before), position(after)) {
            (None, _) => None,
            (Some(first), None) => if after.len() > 0 {
                None
            } else if first >= len {
                Some(None)
            } else {
                Some(Some(Range { start: first, end: len }))
            },
            (Some(first), Some(last)) => if last < first {
                None
            } else if first >= len {
                Some(None)
            } else if last >= len {
                Some(Some(Range { start: first, end: len }))
            } else {
                Some(Some(Range { start: first, end: (last + 1) as u64 }))
            },
        }
    }
}

/// The satisfiable ranges of a range set, or `None` if some element is not a
/// range.
pub open spec fn range_set(specs: Seq<Seq<u8>>, len: u64) -> Option<Seq<Range<u64>>>
    decreases specs.len(),
{
    if specs.len() == 0 {
        Some(Seq::empty())
    } else {
        match (range_spec(trim(specs[0]), len), range_set(specs.skip(1), len)) {
            (Some(Some(r)), Some(rest)) => Some(seq![r] + rest),
            (Some(None), Some(rest)) => Some(rest),
            _ => None,
        }
    }
}

/// The ranges that a `Range` header asks for, or `None` if there is no such
/// header or it is to be ignored.
pub open spec fn requested_ranges(field: Option<Seq<u8>>, len: u64) -> Option<Seq<Range<u64>>> {
    match field {
        None => None,
        Some(h) => if has_prefix(h, text("bytes="@)) {
            range_set(split(h.skip(text("bytes="@).len() as int), COMMA), len)
        } else {
            None
        },
    }
}

/// The bytes of an optional header value.
pub open spec fn borrowed_value(value: Option<&HeaderValue>) -> Option<Seq<u8>> {
    match value {
        None => None,
        Some(v) => Some(field_value(*v)),
    }
}

impl ResolvedRanges {
    /// Whether this stands for the given list of ranges.
    pub open spec fn stands_for(self, ranges: Option<Seq<Range<u64>>>) -> bool {
        match ranges {
            None => self is Whole,
            Some(rs) => match self {
                ResolvedRanges::Whole => false,
                ResolvedRanges::NotSatisfiable => rs.len() == 0,
                ResolvedRanges::Single(r) => rs == seq![r],
                ResolvedRanges::Multiple(v) => rs.len() >= 2 && v@ == rs,
            },
        }
    }
}

/// Every range that a `Range` header resolves to has at least one byte and lies
/// within the entity.
pub proof fn ranges_lie_within_the_entity(field: Option<Seq<u8>>, len: u64)
    ensures
        requested_ranges(field, len) matches Some(rs) ==> are_ranges_of(rs, len),
{
    if let Some(h) = field {
        lemma_range_set_within(split(h.skip(text("bytes="@).len() as int), COMMA), len);
    }
}

proof fn lemma_range_set_within(specs: Seq<Seq<u8>>, len: u64)
    ensures
        range_set(specs, len) matches Some(rs) ==> are_ranges_of(rs, len),
    decreases specs.len(),
{
    if specs.len() > 0 {
        lemma_range_set_within(specs.skip(1), len);
    }
}

/// Parses one element of a range set.
fn parse_spec(s: &[u8], len: u64) -> (r: Option<Option<Range<u64>>>)
    ensures
        r == range_spec(s@, len),
{
    let dash = find_from(s, DASH, 0);
    assert(s@.skip(0) =~= s@);
    if dash == s.len() {
        return None;
    }
    let before = slice_subrange(s, 0, dash);
    let after = slice_subrange(s, dash + 1, s.len());
    assert(before@ =~= s@.take(dash as int));
    assert(after@ =~= s@.skip(dash + 1));
    if dash == 0 {
        return match parse_decimal(after) {
            None => None,
            Some(n) => if n == 0 || len == 0 {
                Some(None)
            } else if n >= len {
                Some(Some(Range { start: 0, end: len }))
            } else {
                Some(Some(Range { start: len - n, end: len }))
            },
        };
    }
    let first = match parse_decimal(before) {
        None => {
            return None;
        },
        Some(first) => first,
    };
    match parse_decimal(after) {
        None => if after.len() > 0 {
            None
        } else if first >= len {
            Some(None)
        } else {
            Some(Some(Range { start: first, end: len }))
        },
        Some(last) => if last < first {
            None
        } else if first >= len {
            Some(None)
        } else if last >= len {
            Some(Some(Range { start: first, end: len }))
        } else {
            Some(Some(Range { start: first, end: last + 1 }))
        },
    }
}

/// Parses a `Range` header for an entity of length `len`.
pub fn parse(range: Option<&HeaderValue>, len: u64) -> (r: ResolvedRanges)
    ensures
        r.stands_for(requested_ranges(borrowed_value(range), len)),
{
    let h = match range {
        None => {
            return ResolvedRanges::Whole;
        },
        Some(v) => v.as_bytes(),
    };
    let unit = "bytes=".as_bytes();
    if !starts_with(h, unit) {
        return ResolvedRanges::Whole;
    }
    let set = slice_subrange(h, unit.len(), h.len());
    assert(set@ =~= h@.skip(unit@.len() as int));
    let mut ranges: Vec<Range<u64>> = Vec::new();
    let mut pos: usize = 0;
    let ghost all = requested_ranges(borrowed_value(range), len);
    assert(set@.skip(0) =~= set@);
    loop
        invariant_except_break
            all == requested_ranges(borrowed_value(range), len),
            pos <= set@.len(),
            all == (match range_set(split(set@.skip(pos as int), COMMA), len) {
                None => None::<Seq<Range<u64>>>,
                Some(rest) => Some(ranges@ + rest),
            }),
        ensures
            all == Some(ranges@),
        decreases set@.len() - pos,
    {
        let end = find_from(set, COMMA, pos);
        let spec = slice_subrange(set, pos, end);
        let ghost left = set@.skip(pos as int);
        proof {
            lemma_find_byte(left, COMMA);
            assert(spec@ =~= left.take(end - pos));
            if end < set@.len() {
                assert(left.skip(end - pos + 1) =~= set@.skip(end + 1));
            }
        }
        let ghost before = ranges@;
        match parse_spec(strip(spec), len) {
            None => {
                proof {
                    assert(split(left, COMMA)[0] == spec@);
                }
                return ResolvedRanges::Whole;
            },
            Some(None) => {},
            Some(Some(r)) => {
                ranges.push(r);
            },
        }
        proof {
            let parts = split(left, COMMA);
            assert(parts[0] == spec@);
            if end < set@.len() {
                assert(parts.skip(1) =~= split(set@.skip(end + 1), COMMA));
                if let Some(rest) = range_set(split(set@.skip(end + 1), COMMA), len) {
                    if let Some(Some(r)) = range_spec(trim(spec@), len) {
                        assert(before + (seq![r] + rest) =~= ranges@ + rest);
                    }
                }
            } else {
                assert(spec@ =~= left);
                assert(parts.skip(1) =~= Seq::<Seq<u8>>::empty());
                assert(range_set(parts.skip(1), len) == Some(Seq::<Range<u64>>::empty()));
                if let Some(Some(r)) = range_spec(trim(spec@), len) {
                    assert(before + (seq![r] + Seq::<Range<u64>>::empty()) =~= ranges@);
                } else {
                    assert(before + Seq::<Range<u64>>::empty() =~= ranges@);
                }
            }
        }
        if end == set.len() {
            break;
        }
        pos = end + 1;
    }
    if ranges.len() == 0 {
        ResolvedRanges::NotSatisfiable
    } else if ranges.len() == 1 {
        let r = Range { start: ranges[0].start, end: ranges[0].end };
        assert(ranges@ =~= seq![r]);
        ResolvedRanges::Single(r)
    } else {
        ResolvedRanges::Multiple(ranges)
    }
}

} // verus!
