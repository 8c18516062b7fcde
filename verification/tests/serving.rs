//! Responses to requests for a resource.

use bytes::Bytes;
use http::{header, HeaderMap, HeaderName, HeaderValue, Method, StatusCode};
use serdir::file_info::{FileInfo, FileKind};
use serdir::range::{parse, ResolvedRanges};
use serdir::resource::{Resource, ResourceBuilder};
use serdir::serving::{prepare_multipart, Response};
use serdir::stream::StreamPoll;
use serdir::{Body, ETag};
use std::time::{Duration, SystemTime};

const WITH_ETAG_BODY: &[u8] = b"01234567890123456789";
const WITHOUT_ETAG_BODY: &[u8] = b"0123456789";
const FIXED_ETAG: &str = r#""0000000000001234""#;
const MIME: &str = "text/plain";
const SOME_DATE_STR: &str = "Sun, 06 Nov 1994 08:49:37 GMT";
const LATER_DATE_STR: &str = "Sun, 06 Nov 1994 09:49:37 GMT";

fn at(secs: u64) -> SystemTime {
    SystemTime::UNIX_EPOCH + Duration::from_secs(secs)
}

fn mtime() -> SystemTime {
    at(1_700_000_000)
}

fn now() -> SystemTime {
    at(1_700_000_500)
}

fn collect_body(mut body: Body, file: &[u8]) -> Vec<u8> {
    let mut sent: Vec<u8> = Vec::new();
    loop {
        let mut poll = body.poll_frame(None).0;
        if matches!(poll, StreamPoll::Pending) {
            let wanted = body.next_read().expect("a read to wait for");
            let chunk = &file[wanted.start as usize..wanted.end as usize];
            poll = body.poll_frame(Some(Ok(Bytes::copy_from_slice(chunk)))).0;
        }
        match poll {
            StreamPoll::Data(d) => sent.extend_from_slice(&d),
            StreamPoll::End => return sent,
            _ => panic!("unexpected error"),
        }
    }
}

/// A resource whose content is in a file.
fn file_resource(content: &[u8], etag: Option<u64>) -> Resource {
    let info = FileInfo::open_file("f.txt", FileKind::File, content.len() as u64, Ok(mtime()));
    let info = match info {
        Ok(info) => info,
        Err(e) => panic!("{}", e.message()),
    };
    ResourceBuilder::for_file(info, etag)
        .content_type(HeaderValue::from_static(MIME))
        .build()
}

fn request(fields: &[(HeaderName, &str)]) -> HeaderMap {
    let mut h = HeaderMap::new();
    for (k, v) in fields {
        h.insert(k.clone(), HeaderValue::from_str(v).unwrap());
    }
    h
}

fn get(entity: &Resource, fields: &[(HeaderName, &str)]) -> Response {
    entity.clone().serve_request(&Method::GET, &request(fields), StatusCode::OK, now())
}

fn without_etag(fields: &[(HeaderName, &str)]) -> Response {
    get(&file_resource(WITHOUT_ETAG_BODY, None), fields)
}

fn with_etag(fields: &[(HeaderName, &str)]) -> Response {
    get(&file_resource(WITH_ETAG_BODY, Some(0x1234)), fields)
}

#[test]
fn serve_without_etag() {
    // Full body.
    let resp = without_etag(&[]);
    let last_modified = resp.headers.get(header::LAST_MODIFIED).unwrap().to_str().unwrap();
    let if_modified_since = httpdate::fmt_http_date(
        httpdate::parse_http_date(last_modified).unwrap() + Duration::from_secs(1),
    );
    assert_eq!(StatusCode::OK, resp.status);
    assert_eq!(resp.headers.get(header::CONTENT_TYPE).unwrap(), MIME);
    assert!(resp.headers.get(header::ETAG).is_none());
    assert!(resp.headers.get(header::CONTENT_LENGTH).is_some());
    assert_eq!(resp.headers.get(header::CONTENT_RANGE), None);
    assert_eq!(WITHOUT_ETAG_BODY, &collect_body(resp.body, WITHOUT_ETAG_BODY)[..]);

    // If-Match any should still send the full body.
    let resp = without_etag(&[(header::IF_MATCH, "*")]);
    assert_eq!(StatusCode::OK, resp.status);
    assert_eq!(resp.headers.get(header::CONTENT_TYPE).unwrap(), MIME);
    assert!(resp.headers.get(header::CONTENT_LENGTH).is_some());
    assert_eq!(resp.headers.get(header::CONTENT_RANGE), None);
    assert_eq!(WITHOUT_ETAG_BODY, &collect_body(resp.body, WITHOUT_ETAG_BODY)[..]);

    // If-Match by etag doesn't match (as this request has no etag).
    let resp = without_etag(&[(header::IF_MATCH, "\"foo\"")]);
    assert_eq!(StatusCode::PRECONDITION_FAILED, resp.status);

    // If-None-Match any.
    let resp = without_etag(&[(header::IF_NONE_MATCH, "*")]);
    assert_eq!(StatusCode::NOT_MODIFIED, resp.status);
    assert_eq!(resp.headers.get(header::CONTENT_RANGE), None);
    assert_eq!(b"", &collect_body(resp.body, WITHOUT_ETAG_BODY)[..]);

    // If-None-Match by etag doesn't match (as this request has no etag).
    let resp = without_etag(&[(header::IF_NONE_MATCH, "\"foo\"")]);
    assert_eq!(StatusCode::OK, resp.status);
    assert_eq!(resp.headers.get(header::CONTENT_TYPE).unwrap(), MIME);
    assert_eq!(resp.headers.get(header::CONTENT_RANGE), None);
    assert_eq!(WITHOUT_ETAG_BODY, &collect_body(resp.body, WITHOUT_ETAG_BODY)[..]);

    // Unmodified since supplied date.
    let resp = without_etag(&[(header::IF_MODIFIED_SINCE, &if_modified_since)]);
    assert_eq!(StatusCode::NOT_MODIFIED, resp.status);
    assert_eq!(resp.headers.get(header::CONTENT_RANGE), None);
    assert_eq!(b"", &collect_body(resp.body, WITHOUT_ETAG_BODY)[..]);

    // Range serving - basic case.
    let resp = without_etag(&[(header::RANGE, "bytes=1-3")]);
    assert_eq!(StatusCode::PARTIAL_CONTENT, resp.status);
    assert!(resp.headers.get(header::CONTENT_LENGTH).is_some());
    assert_eq!(
        resp.headers.get(header::CONTENT_RANGE).unwrap(),
        &format!("bytes 1-3/{}", WITHOUT_ETAG_BODY.len())
    );
    assert_eq!(b"123", &collect_body(resp.body, WITHOUT_ETAG_BODY)[..]);

    // Range serving - multiple ranges.
    let resp = without_etag(&[(header::RANGE, "bytes=0-1, 3-4")]);
    assert_eq!(resp.headers.get(header::CONTENT_RANGE), None);
    assert_eq!(StatusCode::OK, resp.status);
    assert!(resp.headers.get(header::CONTENT_LENGTH).is_some());
    assert_eq!(resp.headers.get(header::CONTENT_TYPE).unwrap(), MIME);
    assert_eq!(WITHOUT_ETAG_BODY, &collect_body(resp.body, WITHOUT_ETAG_BODY)[..]);

    // Range serving - not satisfiable.
    let resp = without_etag(&[(header::RANGE, "bytes=500-")]);
    assert_eq!(StatusCode::RANGE_NOT_SATISFIABLE, resp.status);
    assert_eq!(
        resp.headers.get(header::CONTENT_RANGE).unwrap(),
        &format!("bytes */{}", WITHOUT_ETAG_BODY.len())
    );
    assert_eq!(b"", &collect_body(resp.body, WITHOUT_ETAG_BODY)[..]);

    // Range serving - matching If-Range by date doesn't honor the range.
    let resp = without_etag(&[(header::RANGE, "bytes=1-3"), (header::IF_RANGE, SOME_DATE_STR)]);
    assert_eq!(StatusCode::OK, resp.status);
    assert_eq!(resp.headers.get(header::CONTENT_TYPE).unwrap(), MIME);
    assert_eq!(WITHOUT_ETAG_BODY, &collect_body(resp.body, WITHOUT_ETAG_BODY)[..]);

    // Range serving - non-matching If-Range by date ignores the range.
    let resp = without_etag(&[(header::RANGE, "bytes=1-3"), (header::IF_RANGE, LATER_DATE_STR)]);
    assert_eq!(StatusCode::OK, resp.status);
    assert_eq!(resp.headers.get(header::CONTENT_TYPE).unwrap(), MIME);
    assert_eq!(resp.headers.get(header::CONTENT_RANGE), None);
    assert_eq!(WITHOUT_ETAG_BODY, &collect_body(resp.body, WITHOUT_ETAG_BODY)[..]);

    // Range serving - this resource has no etag, so any If-Range by etag ignores the range.
    let resp = without_etag(&[(header::RANGE, "bytes=1-3"), (header::IF_RANGE, FIXED_ETAG)]);
    assert_eq!(StatusCode::OK, resp.status);
    assert_eq!(resp.headers.get(header::CONTENT_TYPE).unwrap(), MIME);
    assert_eq!(resp.headers.get(header::CONTENT_RANGE), None);
    assert_eq!(WITHOUT_ETAG_BODY, &collect_body(resp.body, WITHOUT_ETAG_BODY)[..]);
}

#[test]
fn serve_with_strong_etag() {
    // If-Match any should still send the full body.
    let resp = with_etag(&[(header::IF_MATCH, "*")]);
    assert_eq!(StatusCode::OK, resp.status);
    assert_eq!(resp.headers.get(header::CONTENT_TYPE).unwrap(), MIME);
    assert_eq!(resp.headers.get(header::ETAG).unwrap(), FIXED_ETAG);
    assert_eq!(resp.headers.get(header::CONTENT_RANGE), None);
    assert_eq!(WITH_ETAG_BODY, &collect_body(resp.body, WITH_ETAG_BODY)[..]);

    // If-Match by matching etag should send the full body.
    let resp = with_etag(&[(header::IF_MATCH, FIXED_ETAG)]);
    assert_eq!(StatusCode::OK, resp.status);
    assert_eq!(resp.headers.get(header::CONTENT_TYPE).unwrap(), MIME);
    assert_eq!(resp.headers.get(header::CONTENT_RANGE), None);
    assert_eq!(WITH_ETAG_BODY, &collect_body(resp.body, WITH_ETAG_BODY)[..]);

    // If-Match by etag which doesn't match.
    let resp = with_etag(&[(header::IF_MATCH, r#""bar""#)]);
    assert_eq!(StatusCode::PRECONDITION_FAILED, resp.status);

    // If-None-Match by etag which matches.
    let resp = with_etag(&[(header::IF_NONE_MATCH, FIXED_ETAG)]);
    assert_eq!(StatusCode::NOT_MODIFIED, resp.status);
    assert_eq!(resp.headers.get(header::CONTENT_RANGE), None);
    assert_eq!(b"", &collect_body(resp.body, WITH_ETAG_BODY)[..]);

    // If-None-Match by etag which doesn't match.
    let resp = with_etag(&[(header::IF_NONE_MATCH, r#""bar""#)]);
    assert_eq!(StatusCode::OK, resp.status);
    assert_eq!(resp.headers.get(header::CONTENT_RANGE), None);
    assert_eq!(WITH_ETAG_BODY, &collect_body(resp.body, WITH_ETAG_BODY)[..]);

    // If-None-Match by etag which doesn't match, If-Modified-Since which does.
    let resp = with_etag(&[
        (header::IF_NONE_MATCH, r#""bar""#),
        (header::IF_MODIFIED_SINCE, LATER_DATE_STR),
    ]);
    assert_eq!(StatusCode::OK, resp.status);
    assert_eq!(resp.headers.get(header::CONTENT_RANGE), None);
    assert_eq!(WITH_ETAG_BODY, &collect_body(resp.body, WITH_ETAG_BODY)[..]);

    // Range serving - If-Range matching by etag.
    let resp = with_etag(&[(header::RANGE, "bytes=1-3"), (header::IF_RANGE, FIXED_ETAG)]);
    assert_eq!(StatusCode::PARTIAL_CONTENT, resp.status);
    assert_eq!(None, resp.headers.get(header::CONTENT_TYPE));
    assert_eq!(
        resp.headers.get(header::CONTENT_RANGE).unwrap(),
        &format!("bytes 1-3/{}", WITH_ETAG_BODY.len())
    );
    assert_eq!(b"123", &collect_body(resp.body, WITH_ETAG_BODY)[..]);

    // Range serving - If-Range not matching by etag.
    let resp = with_etag(&[(header::RANGE, "bytes=1-3"), (header::IF_RANGE, r#""bar""#)]);
    assert_eq!(StatusCode::OK, resp.status);
    assert_eq!(resp.headers.get(header::CONTENT_TYPE).unwrap(), MIME);
    assert_eq!(resp.headers.get(header::CONTENT_RANGE), None);
    assert_eq!(WITH_ETAG_BODY, &collect_body(resp.body, WITH_ETAG_BODY)[..]);
}

#[test]
fn serve_with_strong_etag_multiple_ranges() {
    let resp = with_etag(&[(header::RANGE, "bytes=0-5, 10-15")]);
    // For this small file, multipart overhead exceeds full body length, so full body is sent.
    assert_eq!(StatusCode::OK, resp.status);
    assert_eq!(resp.headers.get(header::CONTENT_RANGE), None);
    assert!(resp.headers.get(header::CONTENT_LENGTH).is_some());
    assert_eq!(resp.headers.get(header::CONTENT_TYPE).unwrap(), MIME);
    assert_eq!(WITH_ETAG_BODY, &collect_body(resp.body, WITH_ETAG_BODY)[..]);
}

#[test]
fn serve_head() {
    let entity = file_resource(WITH_ETAG_BODY, Some(0x1234));
    let resp = entity.serve_request(&Method::HEAD, &HeaderMap::new(), StatusCode::OK, now());
    assert_eq!(StatusCode::OK, resp.status);
    assert_eq!(resp.headers.get(header::CONTENT_TYPE).unwrap(), MIME);
    assert_eq!(
        resp.headers.get(header::CONTENT_LENGTH).unwrap(),
        &WITH_ETAG_BODY.len().to_string()
    );
    assert_eq!(resp.headers.get(header::ETAG).unwrap(), FIXED_ETAG);
    assert_eq!(b"", &collect_body(resp.body, WITH_ETAG_BODY)[..]);
}

#[test]
fn serve_unmodified_since() {
    let resp = without_etag(&[]);
    let last_modified = resp.headers.get(header::LAST_MODIFIED).unwrap().to_str().unwrap();

    // Matching If-Unmodified-Since.
    let resp = without_etag(&[(header::IF_UNMODIFIED_SINCE, last_modified)]);
    assert_eq!(StatusCode::OK, resp.status);
    assert_eq!(WITHOUT_ETAG_BODY, &collect_body(resp.body, WITHOUT_ETAG_BODY)[..]);

    // Non-matching If-Unmodified-Since (earlier than last modified).
    let earlier = httpdate::fmt_http_date(
        httpdate::parse_http_date(last_modified).unwrap() - Duration::from_secs(10),
    );
    let resp = without_etag(&[(header::IF_UNMODIFIED_SINCE, &earlier)]);
    assert_eq!(StatusCode::PRECONDITION_FAILED, resp.status);
}

#[test]
fn serve_multipart() {
    let content = vec![0u8; 1000];
    let entity = file_resource(&content, Some(0x5678));
    let resp = get(&entity, &[(header::RANGE, "bytes=0-4, 10-14")]);
    assert_eq!(StatusCode::PARTIAL_CONTENT, resp.status);
    let content_type = resp.headers.get(header::CONTENT_TYPE).unwrap();
    assert!(content_type
        .to_str()
        .unwrap()
        .starts_with("multipart/byteranges; boundary="));

    let body = collect_body(resp.body, &content);
    // Verify it contains the boundary and parts.
    assert!(body.starts_with(b"\r\n--B\r\n"));
    let p1 = b"Content-Range: bytes 0-4/1000";
    assert!(body.windows(p1.len()).any(|w| w == p1));
    let p2 = b"Content-Range: bytes 10-14/1000";
    assert!(body.windows(p2.len()).any(|w| w == p2));
    assert!(body.ends_with(b"\r\n--B--\r\n"));
}

#[test]
fn serve_weak_etag() {
    let weak_etag = format!("W/{}", FIXED_ETAG);

    // If-None-Match with weak etag should match.
    let resp = with_etag(&[(header::IF_NONE_MATCH, &weak_etag)]);
    assert_eq!(StatusCode::NOT_MODIFIED, resp.status);

    // If-Match with weak etag should NOT match.
    let resp = with_etag(&[(header::IF_MATCH, &weak_etag)]);
    assert_eq!(StatusCode::PRECONDITION_FAILED, resp.status);

    // If-Range with weak etag should NOT match (returns 200 OK).
    let resp = with_etag(&[(header::RANGE, "bytes=0-4"), (header::IF_RANGE, &weak_etag)]);
    assert_eq!(StatusCode::OK, resp.status);
    assert_eq!(WITH_ETAG_BODY, &collect_body(resp.body, WITH_ETAG_BODY)[..]);
}

#[test]
fn serve_method_not_allowed() {
    let entity = file_resource(WITHOUT_ETAG_BODY, None);
    let resp = entity.serve_request(&Method::POST, &HeaderMap::new(), StatusCode::OK, now());
    assert_eq!(StatusCode::METHOD_NOT_ALLOWED, resp.status);
    assert_eq!(resp.headers.get(header::ALLOW).unwrap(), "get, head");
    assert_eq!(
        collect_body(resp.body, &[]),
        b"This resource only supports GET and HEAD."
    );
}

#[test]
fn serve_bad_request() {
    let resp = without_etag(&[(header::IF_MODIFIED_SINCE, "invalid date")]);
    assert_eq!(StatusCode::BAD_REQUEST, resp.status);
    assert_eq!(collect_body(resp.body, &[]), b"Unparseable If-Modified-Since");

    let resp = without_etag(&[(header::IF_UNMODIFIED_SINCE, "invalid date")]);
    assert_eq!(StatusCode::BAD_REQUEST, resp.status);
    assert_eq!(collect_body(resp.body, &[]), b"Unparseable If-Unmodified-Since");

    let resp = with_etag(&[(header::IF_MATCH, "foo")]);
    assert_eq!(StatusCode::BAD_REQUEST, resp.status);
    assert_eq!(collect_body(resp.body, &[]), b"Unparseable If-Match header");
}

#[test]
fn serve_clamped_last_modified() {
    let entity = ResourceBuilder::for_str("future", now() + Duration::from_secs(3600)).build();
    let resp = get(&entity, &[]);
    assert_eq!(StatusCode::OK, resp.status);

    let date_str = resp.headers.get(header::DATE).unwrap().to_str().unwrap();
    let last_modified_str = resp.headers.get(header::LAST_MODIFIED).unwrap().to_str().unwrap();

    let date = httpdate::parse_http_date(date_str).unwrap();
    let last_modified = httpdate::parse_http_date(last_modified_str).unwrap();

    assert!(last_modified <= date);
    assert_eq!(date_str, "Tue, 14 Nov 2023 22:21:40 GMT");
}

fn memory(content: &'static [u8]) -> Resource {
    ResourceBuilder::for_bytes(Bytes::from_static(content), mtime()).build()
}

#[test]
fn test_range_single() {
    let res = get(&memory(b"0123456789abcdef"), &[(header::RANGE, "bytes=2-5")]);
    assert_eq!(res.status, StatusCode::PARTIAL_CONTENT);
    assert_eq!(res.headers.get(header::CONTENT_RANGE).unwrap(), "bytes 2-5/16");
    assert_eq!(res.headers.get(header::CONTENT_LENGTH).unwrap(), "4");
    assert_eq!(collect_body(res.body, &[]), b"2345");
}

#[test]
fn test_range_not_satisfiable() {
    let res = get(&memory(b"0123456789abcdef"), &[(header::RANGE, "bytes=20-")]);
    assert_eq!(res.status, StatusCode::RANGE_NOT_SATISFIABLE);
    assert_eq!(res.headers.get(header::CONTENT_RANGE).unwrap(), "bytes */16");
    assert!(collect_body(res.body, &[]).is_empty());
}

#[test]
fn test_range_multipart() {
    // To trigger multipart, we need a large enough file so that the estimated multipart
    // overhead (80 bytes per range) doesn't exceed the file size.
    let entity = ResourceBuilder::for_bytes(Bytes::from(vec![0u8; 1000]), mtime()).build();
    let res = get(&entity, &[(header::RANGE, "bytes=0-9, 20-29")]);
    assert_eq!(res.status, StatusCode::PARTIAL_CONTENT);
    let content_type = res.headers.get(header::CONTENT_TYPE).unwrap().to_str().unwrap();
    assert!(content_type.starts_with("multipart/byteranges; boundary="));

    let boundary = content_type.strip_prefix("multipart/byteranges; boundary=").unwrap();
    let announced = res.headers.get(header::CONTENT_LENGTH).unwrap().to_str().unwrap();
    let body = collect_body(res.body, &[]);
    assert_eq!(announced, body.len().to_string());
    let body_str = String::from_utf8_lossy(&body);
    assert!(body_str.contains(&format!("--{}", boundary)));
    assert!(body_str.contains("Content-Range: bytes 0-9/1000"));
    assert!(body_str.contains("Content-Range: bytes 20-29/1000"));
}

#[test]
fn test_if_range_strong_etag_match() {
    let entity = memory(b"0123456789abcdef");
    let etag = entity.etag().unwrap();
    let res = get(
        &entity,
        &[(header::RANGE, "bytes=0-4"), (header::IF_RANGE, etag.to_str().unwrap())],
    );
    assert_eq!(res.status, StatusCode::PARTIAL_CONTENT);
    assert_eq!(collect_body(res.body, &[]), b"01234");
}

#[test]
fn test_if_range_strong_etag_mismatch() {
    let res = get(
        &memory(b"0123456789abcdef"),
        &[(header::RANGE, "bytes=0-4"), (header::IF_RANGE, "\"mismatch\"")],
    );
    assert_eq!(res.status, StatusCode::OK);
    assert_eq!(collect_body(res.body, &[]), b"0123456789abcdef");
}

#[test]
fn test_if_range_weak_etag() {
    let entity = memory(b"0123456789abcdef");
    let weak_etag = format!("W/{}", entity.etag().unwrap().to_str().unwrap());
    let res = get(&entity, &[(header::RANGE, "bytes=0-4"), (header::IF_RANGE, &weak_etag)]);
    assert_eq!(res.status, StatusCode::OK);
    assert_eq!(collect_body(res.body, &[]), b"0123456789abcdef");
}

#[test]
fn test_if_range_date() {
    let res = get(
        &memory(b"0123456789abcdef"),
        &[(header::RANGE, "bytes=0-4"), (header::IF_RANGE, "Fri, 31 Dec 1999 23:59:59 GMT")],
    );
    assert_eq!(res.status, StatusCode::OK);
}

#[test]
fn test_head_with_range() {
    let req = request(&[(header::RANGE, "bytes=0-4")]);
    let entity = memory(b"0123456789abcdef");
    let res = entity.serve_request(&Method::HEAD, &req, StatusCode::OK, now());
    assert_eq!(res.status, StatusCode::PARTIAL_CONTENT);
    assert_eq!(res.headers.get(header::CONTENT_LENGTH).unwrap(), "5");
    assert!(collect_body(res.body, &[]).is_empty());
}

#[test]
fn test_range_too_small_for_multipart() {
    // If file is small, multipart overhead makes it better to serve the whole file.
    let res = get(&memory(b"0123456789"), &[(header::RANGE, "bytes=0-1, 3-4")]);
    // Should be 200 OK because multipart would be > 10 bytes.
    assert_eq!(res.status, StatusCode::OK);
    assert_eq!(collect_body(res.body, &[]), b"0123456789");
}

#[test]
fn whole_response_head() {
    let entity = ResourceBuilder::for_str("hello", mtime())
        .content_type(HeaderValue::from_static("text/plain"))
        .header(HeaderName::from_static("x-extra"), HeaderValue::from_static("1"))
        .build();
    let mut entity = entity;
    entity.etag = Some(ETag(0x1234));
    let res = get(&entity, &[]);
    let fields: Vec<(&str, &str)> = res
        .headers
        .iter()
        .map(|(k, v)| (k.as_str(), v.to_str().unwrap()))
        .collect();
    assert_eq!(
        fields,
        vec![
            ("accept-ranges", "bytes"),
            ("date", "Tue, 14 Nov 2023 22:21:40 GMT"),
            ("last-modified", "Tue, 14 Nov 2023 22:13:20 GMT"),
            ("etag", "\"0000000000001234\""),
            ("content-length", "5"),
            ("content-type", "text/plain"),
            ("x-extra", "1"),
        ]
    );
}

#[test]
fn multipart_body_bytes() {
    let mut content = Vec::new();
    for i in 0..400u32 {
        content.push((b'a' + (i % 26) as u8) as u8);
    }
    let entity = ResourceBuilder::for_bytes(Bytes::from(content), mtime())
        .content_type(HeaderValue::from_static("text/plain"))
        .build();
    let res = get(&entity, &[(header::RANGE, "bytes=0-2,-2")]);
    assert_eq!(res.status, 206);
    let body = collect_body(res.body, &[]);
    let expected = "\r\n--B\r\nContent-Range: bytes 0-2/400\r\ncontent-type: text/plain\r\n\r\nabc\
                    \r\n--B\r\nContent-Range: bytes 398-399/400\r\ncontent-type: text/plain\r\n\r\nij\
                    \r\n--B--\r\n";
    assert_eq!(String::from_utf8_lossy(&body), expected);
    assert_eq!(
        res.headers.get(header::CONTENT_LENGTH).unwrap(),
        &expected.len().to_string()
    );

    // With If-Range, the client has the entity headers already.
    let etag = entity.etag().unwrap();
    let res = get(
        &entity,
        &[(header::RANGE, "bytes=0-2,-2"), (header::IF_RANGE, etag.to_str().unwrap())],
    );
    let body = collect_body(res.body, &[]);
    let expected = "\r\n--B\r\nContent-Range: bytes 0-2/400\r\n\r\nabc\
                    \r\n--B\r\nContent-Range: bytes 398-399/400\r\n\r\nij\r\n--B--\r\n";
    assert_eq!(String::from_utf8_lossy(&body), expected);

    // HEAD has the same head, and no content.
    let req = request(&[(header::RANGE, "bytes=0-2,-2")]);
    let res = entity.serve_request(&Method::HEAD, &req, StatusCode::OK, now());
    assert_eq!(res.status, 206);
    assert_eq!(
        res.headers.get(header::CONTENT_TYPE).unwrap(),
        "multipart/byteranges; boundary=B"
    );
    assert!(collect_body(res.body, &[]).is_empty());
}

#[test]
fn multipart_too_large_to_announce() {
    let info = FileInfo::open_file("f", FileKind::File, u64::MAX, Ok(mtime()));
    let info = match info {
        Ok(info) => info,
        Err(e) => panic!("{}", e.message()),
    };
    let long: String = "x".repeat(300);
    let entity = ResourceBuilder::for_file(info, None)
        .header(HeaderName::from_static("x-long"), HeaderValue::from_str(&long).unwrap())
        .build();
    let range = format!("bytes=0-{},-100", u64::MAX - 400);
    let res = get(&entity, &[(header::RANGE, &range)]);
    assert_eq!(res.status, 413);
    assert_eq!(collect_body(res.body, &[]), b"Multipart response too large");
}

#[test]
fn precondition_precedes_not_modified() {
    let res = with_etag(&[(header::IF_MATCH, "\"bar\""), (header::IF_NONE_MATCH, FIXED_ETAG)]);
    assert_eq!(res.status, 412);
    assert_eq!(collect_body(res.body, &[]), b"Precondition failed");
}

#[test]
fn last_modified_is_echoed() {
    let entity = ResourceBuilder::for_str("abc", mtime() + Duration::from_millis(700)).build();
    let res = get(&entity, &[]);
    let date = res.headers.get(header::LAST_MODIFIED).unwrap().to_str().unwrap().to_string();
    let res = get(&entity, &[(header::IF_MODIFIED_SINCE, &date)]);
    assert_eq!(res.status, 304);
    let res = get(&entity, &[(header::IF_UNMODIFIED_SINCE, &date)]);
    assert_eq!(res.status, 200);
}

#[test]
fn other_status_is_kept() {
    let entity = memory(b"gone");
    let res = entity.serve_request(&Method::GET, &HeaderMap::new(), StatusCode::NOT_FOUND, now());
    assert_eq!(res.status, 404);
    assert_eq!(collect_body(res.body, &[]), b"gone");
}

fn ranges(value: &'static str, len: u64) -> ResolvedRanges {
    parse(Some(&HeaderValue::from_static(value)), len)
}

#[test]
fn range_header_forms() {
    assert!(matches!(parse(None, 10), ResolvedRanges::Whole));
    assert!(matches!(ranges("bytes=0-4", 10), ResolvedRanges::Single(r) if r == (0..5)));
    assert!(matches!(ranges("bytes=3-", 10), ResolvedRanges::Single(r) if r == (3..10)));
    assert!(matches!(ranges("bytes=-3", 10), ResolvedRanges::Single(r) if r == (7..10)));
    assert!(matches!(ranges("bytes=-30", 10), ResolvedRanges::Single(r) if r == (0..10)));
    assert!(matches!(ranges("bytes=5-99", 10), ResolvedRanges::Single(r) if r == (5..10)));
    assert!(matches!(ranges("bytes=10-", 10), ResolvedRanges::NotSatisfiable));
    assert!(matches!(ranges("bytes=-0", 10), ResolvedRanges::NotSatisfiable));
    assert!(matches!(ranges("bytes=0-", 0), ResolvedRanges::NotSatisfiable));
    assert!(matches!(ranges("bytes=4-3", 10), ResolvedRanges::Whole));
    assert!(matches!(ranges("bytes=a-3", 10), ResolvedRanges::Whole));
    assert!(matches!(ranges("items=0-3", 10), ResolvedRanges::Whole));
    assert!(matches!(ranges("bytes=", 10), ResolvedRanges::Whole));
    assert!(matches!(
        ranges("bytes=0-0, 20-30 ,-1", 10),
        ResolvedRanges::Multiple(v) if v == vec![0..1, 9..10]
    ));
    assert!(matches!(ranges("bytes=0-0,99-", 10), ResolvedRanges::Single(r) if r == (0..1)));
}

#[test]
fn dates_without_http_form() {
    let old = SystemTime::UNIX_EPOCH - Duration::from_secs(1);
    let far = at(400_000_000_000);
    let entity = |mtime: SystemTime| {
        ResourceBuilder::for_bytes(Bytes::from_static(b"abc"), mtime).build()
    };
    let hdrs = HeaderMap::new();
    // A date before the epoch cannot be written.
    let r = entity(old).try_serve_request(&Method::GET, &hdrs, StatusCode::OK, now());
    assert!(r.is_none());
    let r = entity(mtime()).try_serve_request(&Method::GET, &hdrs, StatusCode::OK, far);
    assert!(r.is_none());
    // But where none is written, there is an answer.
    let r = entity(old).try_serve_request(&Method::PUT, &hdrs, StatusCode::OK, now());
    assert_eq!(r.unwrap().status, StatusCode::METHOD_NOT_ALLOWED);
    let mut bad = HeaderMap::new();
    bad.insert(header::IF_MATCH, HeaderValue::from_static("bad"));
    let r = entity(old).try_serve_request(&Method::GET, &bad, StatusCode::OK, now());
    assert_eq!(r.unwrap().status, StatusCode::BAD_REQUEST);
    // A modification time that is later than the response is not written.
    let r = entity(far).try_serve_request(&Method::GET, &hdrs, StatusCode::OK, now()).unwrap();
    assert_eq!(r.headers.get(header::LAST_MODIFIED), r.headers.get(header::DATE));
}

#[test]
fn multipart_ranges_need_not_end_within_the_length() {
    let lines = b"x: y\r\n".to_vec();
    let (headers, total) = prepare_multipart(&vec![5..9, 20..30], 10, &lines).ok().unwrap();
    assert_eq!(headers[1], b"\r\n--B\r\nContent-Range: bytes 20-29/10\r\nx: y\r\n\r\n");
    assert_eq!(total, (headers[0].len() + headers[1].len() + 4 + 10 + 9) as u64);
    assert!(prepare_multipart(&vec![0..u64::MAX, 0..1], 10, &Vec::new()).is_err());
}

#[test]
fn tags_without_a_comma_are_not_understood() {
    let mut hdrs = HeaderMap::new();
    hdrs.insert(header::IF_MATCH, HeaderValue::from_static("\"a\"\"b\""));
    let entity = ResourceBuilder::for_bytes(Bytes::from_static(b"abc"), mtime()).build();
    let r = entity.serve_request(&Method::GET, &hdrs, StatusCode::OK, now());
    assert_eq!(r.status, StatusCode::BAD_REQUEST);
}
