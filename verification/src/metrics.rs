//! What is recorded about requests. The recording itself is left to the caller.

use crate::headers::{first_value, get_named, header_entries, status_number};
use crate::text::{
    all_visible, append_decimal, decimal, decimal_chars, decimal_reads_back, is_digit, is_numeral,
    numeral_value, parse_decimal, text,
};
use http::{HeaderMap, HeaderValue, StatusCode};
use vstd::prelude::*;
use vstd::slice::slice_subrange;

verus! {

/// `+`.
pub const PLUS: u8 = 0x2b;

/// What is recorded about one request.
pub struct RequestRecord {
    /// The status number.
    pub status: String,
    /// The content type of the response.
    pub content_type: String,
    /// The encoding of the response.
    pub encoding: String,
    /// The announced length of the response.
    pub size: u64,
}

/// An amount by which a counter is increased.
pub struct CounterUpdate {
    /// The name of the counter.
    pub name: &'static str,
    /// The amount.
    pub amount: u64,
}

/// The bytes of a label: the value of a header if there is one that is visible text, or else
/// a default.
pub open spec fn label(value: Option<Seq<u8>>, default: Seq<char>) -> Seq<u8> {
    match value {
        Some(v) if all_visible(v) => v,
        _ => text(default),
    }
}

/// The length that a header announces, or 0 if it does not hold a number of 64 bits.
pub open spec fn announced_length(value: Option<Seq<u8>>) -> u64 {
    match value {
        Some(v) => {
            let digits = if v.len() > 0 && v[0] == PLUS {
                v.skip(1)
            } else {
                v
            };
            if is_numeral(digits) && numeral_value(digits) <= u64::MAX {
                numeral_value(digits) as u64
            } else {
                0
            }
        },
        None => 0,
    }
}

/// The text of a header value, or a default.
fn label_of(value: Option<&HeaderValue>, default: &'static str) -> (r: String)
    ensures
        text(r@) == label(crate::range::borrowed_value(value), default@),
{
    match value {
        Some(v) => match v.to_str() {
            Ok(s) => String::from_str(s),
            Err(_) => String::from_str(default),
        },
        None => String::from_str(default),
    }
}

/// What is recorded about a request, from the head of the response.
pub fn record_request(status: &StatusCode, headers: &HeaderMap<HeaderValue>) -> (r: RequestRecord)
    ensures
        r.status@ == decimal_chars(status_number(*status) as nat),
        text(r.content_type@) == label(
            first_value(header_entries(*headers), "content-type"@),
            "unknown"@,
        ),
        text(r.encoding@) == label(
            first_value(header_entries(*headers), "content-encoding"@),
            "identity"@,
        ),
        r.size == announced_length(first_value(header_entries(*headers), "content-length"@)),
{
    proof {
        reveal_strlit("content-type");
        reveal_strlit("content-encoding");
        reveal_strlit("content-length");
    }
    let content_type = label_of(get_named(headers, "content-type"), "unknown");
    let encoding = label_of(get_named(headers, "content-encoding"), "identity");
    let size: u64 = match get_named(headers, "content-length") {
        None => 0,
        Some(v) => {
            let bytes = v.as_bytes();
            let digits = if bytes.len() > 0 && bytes[0] == PLUS {
                let rest = slice_subrange(bytes, 1, bytes.len());
                assert(rest@ =~= bytes@.skip(1));
                rest
            } else {
                bytes
            };
            match parse_decimal(digits) {
                Some(n) => n,
                None => 0,
            }
        },
    };
    let mut status_label = String::new();
    append_decimal(&mut status_label, status.as_u16() as u64);
    assert(status_label@ =~= decimal_chars(status_number(*status) as nat));
    RequestRecord { status: status_label, content_type, encoding, size }
}

/// What is recorded about the compression of a file: its size before and after.
pub fn record_brotli_compression(before_size: u64, after_size: u64) -> (r: (
    CounterUpdate,
    CounterUpdate,
))
    ensures
        r.0.name@ == "serdir.brotli_size_before_bytes"@,
        r.0.amount == before_size,
        r.1.name@ == "serdir.brotli_size_after_bytes"@,
        r.1.amount == after_size,
{
    (
        CounterUpdate { name: "serdir.brotli_size_before_bytes", amount: before_size },
        CounterUpdate { name: "serdir.brotli_size_after_bytes", amount: after_size },
    )
}

/// What is recorded about a look into the resource cache: whether it found something.
pub fn record_cache_access(hit: bool) -> (r: CounterUpdate)
    ensures
        r.name@ == (if hit {
            "serdir.resource_cache_hits"@
        } else {
            "serdir.resource_cache_misses"@
        }),
        r.amount == 1,
{
    if hit {
        CounterUpdate { name: "serdir.resource_cache_hits", amount: 1 }
    } else {
        CounterUpdate { name: "serdir.resource_cache_misses", amount: 1 }
    }
}

/// The length that a response announces is recorded, and nothing that is no number counts as a
/// length.
pub proof fn the_announced_length_is_recorded(n: u64, other: Seq<u8>)
    requires
        other.len() == 0 || !is_digit(other.last()),
    ensures
        announced_length(Some(decimal(n as nat))) == n,
        announced_length(Some(other)) == 0,
        announced_length(None) == 0,
{
    decimal_reads_back(n as nat);
    let d = decimal(n as nat);
    assert(is_digit(d[0]));
    if other.len() > 0 {
        if other[0] == PLUS && other.len() > 1 {
            let digits = other.skip(1);
            assert(digits.last() == other.last());
            assert(!is_digit(digits[digits.len() - 1]));
        } else if other[0] == PLUS {
            assert(other.skip(1).len() == 0);
        } else {
            assert(!is_digit(other[other.len() - 1]));
        }
    }
}

/// A header of visible text is recorded as it is, and anything else as the default.
pub proof fn visible_text_is_recorded(value: Seq<u8>, default: Seq<char>)
    ensures
        all_visible(value) ==> label(Some(value), default) == value,
        !all_visible(value) ==> label(Some(value), default) == text(default),
        label(None, default) == text(default),
{
}

} // verus!
