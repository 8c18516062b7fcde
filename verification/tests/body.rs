//! Streams and response bodies.

use bytes::Bytes;
use serdir::body::{Body, BodyStream};
use serdir::resource::{RangeReader, ResourceBuilder, ResourceContent, CHUNK_SIZE};
use serdir::stream::{
    ExactLenStream, StreamError, StreamPoll, StreamTooLongError, StreamTooShortError,
};
use std::io::{Error, ErrorKind};
use std::time::SystemTime;

fn data(s: &'static str) -> StreamPoll {
    StreamPoll::Data(Bytes::from_static(s.as_bytes()))
}

fn len_of(poll: StreamPoll) -> usize {
    match poll {
        StreamPoll::Data(d) => d.len(),
        _ => panic!("expected data"),
    }
}

#[test]
fn correct_exact_len_stream() {
    let mut exact_len = ExactLenStream::new(5);
    assert_eq!(exact_len.remaining, 5);
    assert_eq!(len_of(exact_len.poll_next(data("h"))), 1);
    assert_eq!(exact_len.remaining, 4);
    assert_eq!(len_of(exact_len.poll_next(data("ello"))), 4);
    assert_eq!(exact_len.remaining, 0);
    assert!(matches!(exact_len.poll_next(StreamPoll::End), StreamPoll::End)); // end of stream.
    assert!(matches!(exact_len.poll_next(StreamPoll::End), StreamPoll::End)); // fused.
}

#[test]
fn short_exact_len_stream() {
    let mut exact_len = ExactLenStream::new(10);
    assert_eq!(exact_len.remaining, 10);
    assert_eq!(len_of(exact_len.poll_next(data("hello"))), 5);
    assert_eq!(exact_len.remaining, 5);
    match exact_len.poll_next(StreamPoll::End) {
        StreamPoll::Failed(StreamError::TooShort(err)) => {
            assert_eq!(err, StreamTooShortError { remaining: 5 });
            assert_eq!(err.message(), "stream ended with 5 bytes still expected");
        }
        _ => panic!("expected an error"),
    }
    assert!(matches!(exact_len.poll_next(StreamPoll::End), StreamPoll::End)); // fused.
}

#[test]
fn long_exact_len_stream() {
    let mut exact_len = ExactLenStream::new(3);
    assert_eq!(exact_len.remaining, 3);
    assert_eq!(len_of(exact_len.poll_next(data("h"))), 1);
    assert_eq!(exact_len.remaining, 2);
    match exact_len.poll_next(data("ello")) {
        StreamPoll::Failed(StreamError::TooLong(err)) => {
            assert_eq!(err, StreamTooLongError { extra: 2 });
            assert_eq!(
                err.message(),
                "stream returned (at least) 2 bytes more than expected"
            );
        }
        _ => panic!("expected an error"),
    }
    assert!(matches!(exact_len.poll_next(StreamPoll::End), StreamPoll::End)); // fused.
}

#[test]
fn errors_pass_through_an_exact_len_stream() {
    let mut exact_len = ExactLenStream::new(3);
    let failed = StreamPoll::Failed(StreamError::Io(Error::other("broken")));
    match exact_len.poll_next(failed) {
        StreamPoll::Failed(StreamError::Io(e)) => assert_eq!(e.to_string(), "broken"),
        _ => panic!("expected an error"),
    }
    assert_eq!(exact_len.remaining, 3);
    assert!(matches!(exact_len.poll_next(StreamPoll::Pending), StreamPoll::Pending));
    assert_eq!(exact_len.remaining, 3);
}

fn five_byte_file() -> Body {
    Body::new_exact_len(5, RangeReader { content: ResourceContent::File, start: 0, end: 5 })
}

#[test]
fn on_complete_called_once_for_exact_len_body() {
    let mut body = five_byte_file().on_complete();
    let mut calls: usize = 0;

    let (frame, run) = body.poll_frame(Some(Ok(Bytes::from_static(b"he"))));
    calls += run as usize;
    assert!(matches!(frame, StreamPoll::Data(_)));
    assert_eq!(calls, 0);
    let (frame, run) = body.poll_frame(Some(Ok(Bytes::from_static(b"llo"))));
    calls += run as usize;
    assert!(matches!(frame, StreamPoll::Data(_)));
    assert_eq!(calls, 0);
    let (frame, run) = body.poll_frame(None);
    calls += run as usize;
    assert!(matches!(frame, StreamPoll::End));
    assert_eq!(calls, 1);
    let (frame, run) = body.poll_frame(None);
    calls += run as usize;
    assert!(matches!(frame, StreamPoll::End));
    assert_eq!(calls, 1);
    calls += body.close() as usize;
    assert_eq!(calls, 1);
}

fn multipart_body() -> Body {
    let entity =
        ResourceBuilder::for_bytes(Bytes::from_static(b"abcdef"), SystemTime::UNIX_EPOCH).build();
    let part_headers = vec![b"part-one\r\n".to_vec(), b"part-two\r\n".to_vec()];
    let ranges = vec![0..2, 3..6];
    let len = 10 + 10 + 2 + 3 + 9;
    Body::new_multipart(entity.content, part_headers, ranges, len)
}

#[test]
fn on_complete_called_once_for_multipart_body() {
    let mut body = multipart_body().on_complete();
    let mut calls: usize = 0;

    let (frame, run) = body.poll_frame(None);
    calls += run as usize;
    assert!(matches!(frame, StreamPoll::Data(_)));
    assert_eq!(calls, 0);
    loop {
        let (frame, run) = body.poll_frame(None);
        calls += run as usize;
        if matches!(frame, StreamPoll::End) {
            break;
        }
    }
    assert_eq!(calls, 1);
    let (frame, run) = body.poll_frame(None);
    calls += run as usize;
    assert!(matches!(frame, StreamPoll::End));
    assert_eq!(calls, 1);
}

#[test]
fn on_complete_called_once_when_exact_len_body_dropped_before_consumed() {
    let mut body = five_byte_file().on_complete();
    assert!(body.close());
    assert!(!body.close());
}

#[test]
fn on_complete_called_once_when_multipart_body_dropped_before_consumed() {
    let mut body = multipart_body().on_complete();
    assert!(body.close());
    assert!(!body.close());
}

#[test]
fn multipart_body_is_its_parts() {
    let mut body = multipart_body();
    assert_eq!(body.size_hint(), 34);
    let mut sent: Vec<u8> = Vec::new();
    let mut pieces: usize = 0;
    loop {
        match body.poll_frame(None).0 {
            StreamPoll::Data(d) => {
                sent.extend_from_slice(&d);
                pieces += 1;
                assert_eq!(body.size_hint(), 34 - sent.len() as u64);
            }
            StreamPoll::End => break,
            _ => panic!("nothing to wait for"),
        }
    }
    assert_eq!(&sent[..], b"part-one\r\nabpart-two\r\ndef\r\n--B--\r\n");
    assert_eq!(pieces, 5);
    assert!(body.is_end_stream());
}

#[test]
fn multipart_body_of_a_file_waits_for_reads() {
    let part_headers = vec![b"H".to_vec()];
    let mut body = Body::new_multipart(ResourceContent::File, part_headers, vec![2..5], 1 + 3 + 9);
    assert_eq!(body.next_read(), None);
    assert_eq!(len_of(body.poll_frame(None).0), 1);
    assert!(matches!(body.poll_frame(None).0, StreamPoll::Pending));
    assert_eq!(body.next_read(), Some(2..5));
    assert_eq!(len_of(body.poll_frame(Some(Ok(Bytes::from_static(b"cd")))).0), 2);
    assert_eq!(body.next_read(), Some(4..5));
    assert_eq!(body.size_hint(), 10);
    let failed = body.poll_frame(Some(Err(ErrorKind::UnexpectedEof.into()))).0;
    assert!(matches!(failed, StreamPoll::Failed(StreamError::Io(_))));
    // After an error the stream is over.
    assert_eq!(body.size_hint(), 0);
    assert!(matches!(body.poll_frame(None).0, StreamPoll::End));
}

#[test]
fn simple_bodies() {
    let mut body = Body::empty();
    assert!(body.is_end_stream());
    assert_eq!(body.size_hint(), 0);
    assert!(matches!(body.poll_frame(None).0, StreamPoll::End));

    for mut body in vec![
        Body::from("abc"),
        Body::from(&b"abc"[..]),
        Body::from(b"abc".to_vec()),
        Body::from("abc".to_string()),
    ] {
        assert!(!body.is_end_stream());
        assert_eq!(body.size_hint(), 3);
        assert_eq!(body.next_read(), None);
        match body.poll_frame(None).0 {
            StreamPoll::Data(d) => assert_eq!(&d[..], b"abc"),
            _ => panic!("expected data"),
        }
        assert!(body.is_end_stream());
        assert!(matches!(body.poll_frame(None).0, StreamPoll::End));
    }

    let failed = StreamError::Io(Error::other("broken"));
    let mut body = Body::new_once(Some(Err(failed))).on_complete();
    assert_eq!(body.size_hint(), 0);
    let (frame, run) = body.poll_frame(None);
    assert!(matches!(frame, StreamPoll::Failed(_)));
    assert!(run);
    assert!(matches!(body.stream, BodyStream::Once { chunk: None }));
}

#[test]
fn content_is_read_in_chunks() {
    let len = 2 * CHUNK_SIZE + 3;
    let content = Bytes::from(vec![7u8; len as usize]);
    let entity = ResourceBuilder::for_bytes(content, SystemTime::UNIX_EPOCH).build();
    let mut reader = entity.get_range(1..len);
    let mut sizes: Vec<u64> = Vec::new();
    loop {
        match reader.poll_next(None) {
            StreamPoll::Data(d) => sizes.push(d.len() as u64),
            StreamPoll::End => break,
            _ => panic!("nothing to wait for"),
        }
    }
    assert_eq!(sizes, vec![CHUNK_SIZE, CHUNK_SIZE, 2]);
}

#[test]
fn announced_length_is_enforced() {
    let content = ResourceContent::Memory(Bytes::from_static(b"hello"));
    let mut body = Body::new_exact_len(3, RangeReader { content, start: 0, end: 5 });
    assert!(matches!(
        body.poll_frame(None).0,
        StreamPoll::Failed(StreamError::TooLong(StreamTooLongError { extra: 2 }))
    ));
    let content = ResourceContent::Memory(Bytes::from_static(b"hello"));
    let mut body = Body::new_exact_len(7, RangeReader { content, start: 0, end: 5 });
    assert_eq!(len_of(body.poll_frame(None).0), 5);
    assert!(matches!(
        body.poll_frame(None).0,
        StreamPoll::Failed(StreamError::TooShort(StreamTooShortError { remaining: 2 }))
    ));
}
