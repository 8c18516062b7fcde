//! Resources, errors and files.

use bytes::Bytes;
use http::header::{self, HeaderValue};
use http::{HeaderMap, Method, StatusCode};
use serdir::file_info::{FileInfo, FileKind};
use serdir::platform::{read_range, Platform};
use serdir::resource::{RangeRead, RangeReader, ResourceBuilder, ResourceContent};
use serdir::stream::{StreamError, StreamPoll};
use serdir::{ETag, SerdirError};
use std::io::{Error, ErrorKind};
use std::time::{Duration, SystemTime};

fn to_bytes(mut reader: RangeReader, file: &[u8]) -> Result<Vec<u8>, Error> {
    let mut all: Vec<u8> = Vec::new();
    loop {
        let read = match reader.next_read() {
            None => None,
            Some(wanted) => {
                // A file may hold less than expected.
                let end = std::cmp::min(wanted.end as usize, file.len());
                let chunk = &file[std::cmp::min(wanted.start as usize, end)..end];
                let mut buf = vec![0u8; (wanted.end - wanted.start) as usize];
                buf[..chunk.len()].copy_from_slice(chunk);
                let read = Ok(chunk.len());
                Some(read_range(Platform::Unix, wanted.start, buf, read).map(Bytes::from))
            }
        };
        match reader.poll_next(read) {
            StreamPoll::Data(d) => all.extend_from_slice(&d),
            StreamPoll::End => return Ok(all),
            StreamPoll::Failed(StreamError::Io(e)) => return Err(e),
            _ => panic!("unexpected answer"),
        }
    }
}

fn info(len: u64, mtime: SystemTime) -> FileInfo {
    match FileInfo::open_file("dir/f", FileKind::File, len, Ok(mtime)) {
        Ok(info) => info,
        Err(e) => panic!("{}", e.message()),
    }
}

#[test]
fn resource_basic() {
    let crf1 = ResourceBuilder::for_file(info(4, SystemTime::UNIX_EPOCH), None)
        .content_type(HeaderValue::from_static("text/plain"))
        .build();
    assert_eq!(4, crf1.len());
    assert_eq!(
        Some("text/plain"),
        crf1.header(&header::CONTENT_TYPE).map(|v| v.to_str().unwrap())
    );
    assert!(crf1.header(&header::CONTENT_LANGUAGE).is_none());

    // Test returning part/all of the stream.
    assert_eq!(to_bytes(crf1.get_range(0..4), b"asdf").unwrap(), b"asdf");
    assert_eq!(to_bytes(crf1.get_range(1..3), b"asdf").unwrap(), b"sd");

    let crf2 = ResourceBuilder::for_file(info(8, SystemTime::UNIX_EPOCH), None).build();
    assert_eq!(8, crf2.len());
}

#[test]
fn resource_etag() {
    let mtime = SystemTime::UNIX_EPOCH;
    let crf1 = ResourceBuilder::for_str("first value", mtime).build();
    let etag1 = crf1.etag().expect("etag1 was None");
    assert_eq!(r#""928c5c44c1689e3f""#, etag1.to_str().unwrap());

    let crf2 = ResourceBuilder::for_str("another value", mtime).build();
    let etag2 = crf2.etag().expect("etag2 was None");
    assert_eq!(r#""d712812bea51c2cf""#, etag2.to_str().unwrap());

    assert_eq!(
        Some(etag1),
        crf1.etag(),
        "CRF etag changed after file modification (should be immutable)"
    );
}

#[test]
fn resource_last_modified() {
    let t = SystemTime::UNIX_EPOCH + Duration::from_secs(50 * 60 * 60);
    let crf = ResourceBuilder::for_file(info(8, t), Some(1)).build();
    assert_eq!(Some(t), crf.last_modified());
    assert_eq!(t, crf.mtime());
    assert_eq!(crf.etag, Some(ETag(1)));
}

#[test]
fn resource_truncate_race() {
    let crf = ResourceBuilder::for_file(info(4, SystemTime::UNIX_EPOCH), None).build();
    assert_eq!(4, crf.len());
    let e = to_bytes(crf.get_range(0..4), b"asd").unwrap_err();
    assert_eq!(e.kind(), ErrorKind::UnexpectedEof);
}

#[test]
fn resource_test_serve_request() {
    let now = SystemTime::UNIX_EPOCH + Duration::from_secs(5);
    let entity = ResourceBuilder::for_str("hello world", SystemTime::UNIX_EPOCH).build();
    let mut res = entity.serve_request(&Method::GET, &HeaderMap::new(), StatusCode::OK, now);
    assert_eq!(res.status, http::StatusCode::OK);
    match res.body.poll_frame(None).0 {
        StreamPoll::Data(d) => assert_eq!(d, "hello world"),
        _ => panic!("expected data"),
    }
}

#[test]
fn for_bytes_roundtrip() {
    let mtime = SystemTime::UNIX_EPOCH + Duration::from_secs(42);
    let entity = ResourceBuilder::for_bytes(Bytes::from_static(b"hello bytes"), mtime)
        .content_type(HeaderValue::from_static("text/plain"))
        .build();
    assert_eq!(entity.len(), 11);
    assert!(!entity.is_empty());
    assert_eq!(entity.mtime(), mtime);
    match entity.read_bytes() {
        RangeRead::Memory(b) => assert_eq!(b, Bytes::from_static(b"hello bytes")),
        RangeRead::File { .. } => panic!("content is in memory"),
    }
    assert!(entity.etag().is_some());
    assert_eq!(to_bytes(entity.get_range(6..11), &[]).unwrap(), b"bytes");
}

#[test]
fn builder_content_type_sets_header() {
    let entity =
        ResourceBuilder::for_str("content", SystemTime::UNIX_EPOCH + Duration::from_secs(1))
            .content_type(HeaderValue::from_static("text/plain"))
            .build();
    assert_eq!(entity.header(&header::CONTENT_TYPE).unwrap(), "text/plain");
}

#[test]
fn builder_header_replaces() {
    let entity = ResourceBuilder::for_str("", SystemTime::UNIX_EPOCH)
        .content_type(HeaderValue::from_static("text/plain"))
        .content_type(HeaderValue::from_static("text/html"))
        .header(header::VARY, HeaderValue::from_static("x"))
        .build();
    assert!(entity.is_empty());
    assert_eq!(entity.headers.len(), 2);
    assert_eq!(entity.header(&header::CONTENT_TYPE).unwrap(), "text/html");
    let mut more = HeaderMap::new();
    more.insert(header::VARY, HeaderValue::from_static("y"));
    entity.add_headers(&mut more);
    let values: Vec<&str> =
        more.get_all(header::VARY).iter().map(|v| v.to_str().unwrap()).collect();
    assert_eq!(values, vec!["y", "x"]);
}

#[test]
fn bytes_storage() {
    let entity = ResourceBuilder::for_file(info(3, SystemTime::UNIX_EPOCH), Some(9)).build();
    assert!(matches!(entity.read_bytes(), RangeRead::File { offset: 0, len: 3 }));
    let e = entity.clone().with_bytes_storage(Bytes::from_static(b"ab")).err().unwrap();
    assert_eq!(e.kind(), ErrorKind::UnexpectedEof);
    let stored = entity.with_bytes_storage(Bytes::from_static(b"abc")).ok().unwrap();
    assert_eq!(stored.etag, Some(ETag(9)));
    assert_eq!(to_bytes(stored.get_range(0..3), &[]).unwrap(), b"abc");
    // Content in memory stays as it is.
    let again = stored.with_bytes_storage(Bytes::from_static(b"xyz")).ok().unwrap();
    assert_eq!(to_bytes(again.get_range(0..3), &[]).unwrap(), b"abc");
}

#[test]
fn empty_files_can_be_read() {
    let entity = ResourceBuilder::for_file(info(0, SystemTime::UNIX_EPOCH), None).build();
    let data = match entity.read_bytes() {
        RangeRead::Memory(data) => data,
        RangeRead::File { .. } => panic!("there is nothing to read"),
    };
    assert!(data.is_empty());
    assert!(entity.with_bytes_storage(data).ok().unwrap().is_empty());
}

#[test]
fn faulty_ranges() {
    let content = ResourceContent::Memory(Bytes::from_static(b"abc"));
    let e = content.read_range(1..4).err().unwrap();
    assert_eq!(e.kind(), ErrorKind::UnexpectedEof);
    assert_eq!(e.to_string(), "range exceeds bytes length");
    let backwards = std::ops::Range { start: 2, end: 1 };
    let e = content.read_range(backwards).err().unwrap();
    assert_eq!(e.kind(), ErrorKind::InvalidInput);
    assert_eq!(e.to_string(), "range start is greater than range end");
    assert!(matches!(content.read_range(1..3), Ok(RangeRead::Memory(b)) if b == "bc"));
    assert!(matches!(
        ResourceContent::File.read_range(1..3),
        Ok(RangeRead::File { offset: 1, len: 2 })
    ));
}

/// Reads from a file of the given content.
fn read_at(file: &[u8], chunk_size: usize, offset: usize) -> Result<Vec<u8>, Error> {
    let mut buf = vec![0u8; chunk_size];
    let start = std::cmp::min(offset, file.len());
    let end = std::cmp::min(offset + chunk_size, file.len());
    buf[..end - start].copy_from_slice(&file[start..end]);
    read_range(Platform::Unix, offset as u64, buf, Ok(end - start))
}

#[test]
fn test_read_at_middle() {
    let chunk = read_at(b"0123456789", 3, 4).unwrap();
    assert_eq!(chunk, b"456");
}

#[test]
fn test_read_at_beyond_eof() {
    let chunk = read_at(b"0123456789", 10, 8).unwrap();
    assert_eq!(chunk, b"89");
}

#[test]
fn test_read_at_entirely_beyond_eof() {
    let err = read_at(b"0123456789", 3, 10).unwrap_err();
    assert_eq!(err.kind(), std::io::ErrorKind::UnexpectedEof);
}

#[test]
fn test_read_whole() {
    let mut data = vec![0u8; 20480]; // 20KB
    for i in 0..data.len() {
        data[i] = (i * 31 % 251) as u8;
    }
    let chunk = read_at(&data, data.len(), 0).unwrap();
    assert_eq!(chunk, data);
}

#[test]
fn read_errors_pass_through() {
    let denied = Err(ErrorKind::PermissionDenied.into());
    let err = read_range(Platform::Windows, 0, vec![0u8; 4], denied).unwrap_err();
    assert_eq!(err.kind(), ErrorKind::PermissionDenied);
}

#[test]
fn the_end_of_a_file_is_told_by_the_platform() {
    let err = read_range(Platform::Unix, 1024, vec![0u8; 4], Ok(0)).unwrap_err();
    assert_eq!(err.kind(), ErrorKind::UnexpectedEof);
    assert_eq!(err.to_string(), "unexpected end of file");
    let err = read_range(Platform::Windows, 1024, vec![0u8; 4], Ok(0)).unwrap_err();
    assert_eq!(err.kind(), ErrorKind::UnexpectedEof);
    assert_eq!(err.to_string(), "no bytes beyond position 1024");
}

#[test]
fn file_info_of_other_kinds() {
    let t = SystemTime::UNIX_EPOCH;
    let r = FileInfo::open_file("d", FileKind::Directory, 0, Ok(t));
    assert!(matches!(r, Err(SerdirError::IsDirectory(p)) if p == "d"));
    let r = FileInfo::open_file("d", FileKind::Other, 0, Ok(t));
    assert!(matches!(r, Err(SerdirError::NotFound(None))));
    let r = FileInfo::open_file("d", FileKind::File, 0, Err(Error::other("no time")));
    assert!(matches!(r, Err(SerdirError::IOError(_))));
    let a = info(4, t);
    assert_eq!(a.get_hash(), info(4, t).get_hash());
    assert_ne!(a.get_hash(), info(5, t).get_hash());
    assert_ne!(a.get_hash(), info(4, t - Duration::from_nanos(1)).get_hash());
    assert_eq!(info(4, t - Duration::from_nanos(1)).words()[2..], [1, 0, 1]);
}

#[test]
fn errors_have_texts_and_statuses() {
    let e = SerdirError::config_error("bad".to_string());
    assert_eq!(e.message(), "Config error: bad");
    assert_eq!(e.status_code(), StatusCode::INTERNAL_SERVER_ERROR);
    let e = SerdirError::is_directory("a/b".to_string());
    assert_eq!(e.message(), "Path is a directory: a/b");
    assert_eq!(e.status_code(), StatusCode::NOT_FOUND);
    let e = SerdirError::not_found(None);
    assert_eq!(e.message(), "File not found");
    assert_eq!(e.status_code(), StatusCode::NOT_FOUND);
    let e = SerdirError::invalid_path("path is absolute".to_string());
    assert_eq!(e.message(), "Invalid path: path is absolute");
    assert_eq!(e.status_code(), StatusCode::BAD_REQUEST);
    let e = SerdirError::from(Error::other("broken"));
    assert_eq!(e.message(), "IO error: broken");
    assert_eq!(e.status_code(), StatusCode::INTERNAL_SERVER_ERROR);
    let e = SerdirError::from(Error::from(ErrorKind::NotFound));
    assert!(matches!(e, SerdirError::NotFound(None)));
}
