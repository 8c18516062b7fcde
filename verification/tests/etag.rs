//! Entity tags and conditional-request headers.

use http::header::{IF_MATCH, IF_NONE_MATCH};
use http::{HeaderMap, HeaderValue};
use serdir::etag::{any_match, none_match, List};
use serdir::ETag;

#[test]
fn weak_eq() {
    assert!(serdir::etag::weak_eq(b"\"foo\"", b"\"foo\""));
    assert!(!serdir::etag::weak_eq(b"\"foo\"", b"\"bar\""));
    assert!(serdir::etag::weak_eq(b"W/\"foo\"", b"\"foo\""));
    assert!(serdir::etag::weak_eq(b"\"foo\"", b"W/\"foo\""));
    assert!(serdir::etag::weak_eq(b"W/\"foo\"", b"W/\"foo\""));
    assert!(!serdir::etag::weak_eq(b"W/\"foo\"", b"W/\"bar\""));
}

#[test]
fn strong_eq() {
    assert!(serdir::etag::strong_eq(b"\"foo\"", b"\"foo\""));
    assert!(!serdir::etag::strong_eq(b"\"foo\"", b"\"bar\""));
    assert!(!serdir::etag::strong_eq(b"W/\"foo\"", b"\"foo\""));
    assert!(!serdir::etag::strong_eq(b"\"foo\"", b"W/\"foo\""));
    assert!(!serdir::etag::strong_eq(b"W/\"foo\"", b"W/\"foo\""));
    assert!(!serdir::etag::strong_eq(b"W/\"foo\"", b"W/\"bar\""));
}

#[test]
fn empty_list() {
    let mut l = List::from(b"");
    assert_eq!(l.next(), None);
    assert!(!l.corrupt);
}

#[test]
fn nonempty_list() {
    let mut l = List::from(b"\"foo\", \tW/\"bar\",W/\"baz\"");
    assert_eq!(l.next(), Some(&b"\"foo\""[..]));
    assert_eq!(l.next(), Some(&b"W/\"bar\""[..]));
    assert_eq!(l.next(), Some(&b"W/\"baz\""[..]));
    assert_eq!(l.next(), None);
    assert!(!l.corrupt);
}

#[test]
fn comma_in_etag() {
    let mut l = List::from(b"\"foo, bar\", \"baz\"");
    assert_eq!(l.next(), Some(&b"\"foo, bar\""[..]));
    assert_eq!(l.next(), Some(&b"\"baz\""[..]));
    assert_eq!(l.next(), None);
    assert!(!l.corrupt);
}

#[test]
fn corrupt_list() {
    let mut l = List::from(b"\"foo\", bar");
    assert_eq!(l.next(), Some(&b"\"foo\""[..]));
    assert_eq!(l.next(), None);
    assert!(l.corrupt);
}

#[test]
fn unclosed_tag_is_corrupt() {
    let mut l = List::from(b"\"foo");
    assert_eq!(l.next(), None);
    assert!(l.corrupt);
    let mut l = List::from(b"W/\"");
    assert_eq!(l.next(), None);
    assert!(l.corrupt);
}

#[test]
fn etag_has_sixteen_hex_digits() {
    assert_eq!(&ETag(0x1234).to_bytes(), b"0000000000001234");
    assert_eq!(&ETag(u64::MAX).to_bytes(), b"ffffffffffffffff");
    assert_eq!(&ETag(0x0123_4567_89ab_cdef).to_bytes(), b"0123456789abcdef");
    assert_eq!(HeaderValue::from(ETag(0xabc)), "\"0000000000000abc\"");
    assert_eq!(u64::from(ETag(77)), 77);
    assert_eq!(ETag::from(77u64), ETag(77));
}

fn with(name: http::HeaderName, value: &'static str) -> HeaderMap {
    let mut h = HeaderMap::new();
    h.insert(name, HeaderValue::from_static(value));
    h
}

#[test]
fn none_match_is_weak() {
    let etag = Some(HeaderValue::from_static("\"a\""));
    assert_eq!(none_match(&etag, &HeaderMap::new()), None);
    assert_eq!(none_match(&etag, &with(IF_NONE_MATCH, "*")), Some(false));
    assert_eq!(none_match(&etag, &with(IF_NONE_MATCH, "\"b\", W/\"a\"")), Some(false));
    assert_eq!(none_match(&etag, &with(IF_NONE_MATCH, "\"b\"")), Some(true));
    assert_eq!(none_match(&etag, &with(IF_NONE_MATCH, "\"a\", b")), None);
    assert_eq!(none_match(&None, &with(IF_NONE_MATCH, "\"a\"")), Some(true));
}

#[test]
fn any_match_is_strong() {
    let etag = Some(HeaderValue::from_static("\"a\""));
    assert_eq!(any_match(&etag, &HeaderMap::new()), Ok(true));
    assert_eq!(any_match(&etag, &with(IF_MATCH, "*")), Ok(true));
    assert_eq!(any_match(&etag, &with(IF_MATCH, "\"b\", \"a\"")), Ok(true));
    assert_eq!(any_match(&etag, &with(IF_MATCH, "W/\"a\"")), Ok(false));
    assert_eq!(any_match(&None, &with(IF_MATCH, "\"a\"")), Ok(false));
    assert_eq!(
        any_match(&etag, &with(IF_MATCH, "\"a\", b")),
        Err("Unparseable If-Match header")
    );
}

#[test]
fn tags_are_separated_by_commas() {
    let mut l = List::from(b"\"foo\"\"bar\"");
    assert_eq!(l.next(), Some(&b"\"foo\""[..]));
    assert!(!l.corrupt);
    assert_eq!(l.next(), None);
    assert!(l.corrupt);

    let mut l = List::from(b"\"foo\",,\"bar\"");
    assert_eq!(l.next(), Some(&b"\"foo\""[..]));
    assert_eq!(l.next(), None);
    assert!(l.corrupt);
}
