//! Content encodings and compression strategies.

use brotli::enc::backward_references::BrotliEncoderMode;
use brotli::enc::BrotliEncoderParams;
use http::{header, HeaderMap, HeaderValue};
use serdir::brotli_cache::{
    BrotliCacheBuilder, BrotliEvent, BrotliMode, BrotliStep, CompressedFile,
};
use serdir::compression::{
    parse_qvalue, BrotliLevel, CachedCompression, CompressionStrategy, CompressionStrategyInner,
    CompressionSupport, ContentEncoding, MatchedFile, OpenedFile, SearchPlan, StaticCompression,
};
use serdir::error::SerdirError;
use serdir::file_info::{FileInfo, FileKind};
use std::io::{Error, ErrorKind, Read, Write};
use std::time::{Duration, SystemTime};

fn ae_hdrs(value: &'static str) -> HeaderMap {
    let mut h = HeaderMap::new();
    h.insert(header::ACCEPT_ENCODING, HeaderValue::from_static(value));
    h
}

#[test]
fn test_parse_qvalue() {
    assert_eq!(parse_qvalue("0"), Ok(0));
    assert_eq!(parse_qvalue("0."), Ok(0));
    assert_eq!(parse_qvalue("0.0"), Ok(0));
    assert_eq!(parse_qvalue("0.00"), Ok(0));
    assert_eq!(parse_qvalue("0.000"), Ok(0));
    assert_eq!(parse_qvalue("0.0000"), Err(()));
    assert_eq!(parse_qvalue("0.2"), Ok(200));
    assert_eq!(parse_qvalue("0.23"), Ok(230));
    assert_eq!(parse_qvalue("0.234"), Ok(234));
    assert_eq!(parse_qvalue("1"), Ok(1000));
    assert_eq!(parse_qvalue("1."), Ok(1000));
    assert_eq!(parse_qvalue("1.0"), Ok(1000));
    assert_eq!(parse_qvalue("1.1"), Err(()));
    assert_eq!(parse_qvalue("1.00"), Ok(1000));
    assert_eq!(parse_qvalue("1.000"), Ok(1000));
    assert_eq!(parse_qvalue("1.001"), Err(()));
    assert_eq!(parse_qvalue("1.0000"), Err(()));
    assert_eq!(parse_qvalue("2"), Err(()));
}

#[test]
fn qvalue_has_digits_only() {
    assert_eq!(parse_qvalue(""), Err(()));
    assert_eq!(parse_qvalue("0.+5"), Err(()));
    assert_eq!(parse_qvalue("0.5a"), Err(()));
    assert_eq!(parse_qvalue("00.5"), Err(()));
    assert_eq!(parse_qvalue("0,5"), Err(()));
    assert_eq!(parse_qvalue("0.999"), Ok(999));
}

#[test]
fn test_detect_compression_support() {
    // "A request without an Accept-Encoding header field implies that the
    // user agent has no preferences regarding content-codings. Although
    // this allows the server to use any content-coding in a response, it
    // does not imply that the user agent will be able to correctly process
    // all encodings." Identity seems safer; don't compress.
    let detect = CompressionSupport::detect(&header::HeaderMap::new());
    assert!(!detect.gzip());
    assert!(!detect.brotli());
    assert!(!detect.zstd());

    // "If the representation's content-coding is one of the
    // content-codings listed in the Accept-Encoding field, then it is
    // acceptable unless it is accompanied by a qvalue of 0.  (As
    // defined in Section 5.3.1, a qvalue of 0 means "not acceptable".)"
    let detect = CompressionSupport::detect(&ae_hdrs("gzip"));
    assert!(detect.gzip());
    assert!(!detect.brotli());
    assert!(!detect.zstd());

    let detect = CompressionSupport::detect(&ae_hdrs("gzip;q=0.001"));
    assert!(detect.gzip());
    assert!(!detect.brotli());
    assert!(!detect.zstd());

    let detect = CompressionSupport::detect(&ae_hdrs("br;q=0.001"));
    assert!(!detect.gzip());
    assert!(detect.brotli());
    assert!(!detect.zstd());

    let detect = CompressionSupport::detect(&ae_hdrs("zstd;q=0.001"));
    assert!(!detect.gzip());
    assert!(!detect.brotli());
    assert!(detect.zstd());

    let detect = CompressionSupport::detect(&ae_hdrs("br, gzip, zstd"));
    assert!(detect.brotli());
    assert!(detect.gzip());
    assert!(detect.zstd());

    let detect = CompressionSupport::detect(&ae_hdrs("gzip;q=0"));
    assert!(!detect.gzip());
    assert!(!detect.brotli());
    assert!(!detect.gzip());

    // "An Accept-Encoding header field with a combined field-value that is
    // empty implies that the user agent does not want any content-coding in
    // response."
    let detect = CompressionSupport::detect(&ae_hdrs(""));
    assert!(!detect.gzip());
    assert!(!detect.brotli());
    assert!(!detect.zstd());

    // The asterisk "*" symbol matches any available content-coding not
    // explicitly listed. identity is a content-coding.
    // If * is q=1000, then identity_q=1000, and neither gzip nor br is
    // strictly greater than 1000.
    let detect = CompressionSupport::detect(&ae_hdrs("*"));
    assert!(detect.gzip());
    assert!(detect.brotli());
    assert!(detect.zstd());

    let detect = CompressionSupport::detect(&ae_hdrs("gzip;q=0, *"));
    assert!(!detect.gzip());
    assert!(detect.brotli());
    assert!(detect.zstd());

    let detect = CompressionSupport::detect(&ae_hdrs("identity;q=0, *"));
    assert!(detect.gzip());
    assert!(detect.brotli());
    assert!(detect.zstd());

    // "If multiple content-codings are acceptable, then the acceptable
    // content-coding with the highest non-zero qvalue is preferred."
    let detect = CompressionSupport::detect(&ae_hdrs("identity;q=0.5, gzip;q=1.0"));
    assert!(detect.gzip());

    let detect = CompressionSupport::detect(&ae_hdrs("identity;q=1.0, gzip;q=0.5"));
    assert!(!detect.gzip());

    let detect = CompressionSupport::detect(&ae_hdrs("br;q=1.0, gzip;q=0.5, identity;q=0.1"));
    assert!(detect.brotli());
    assert!(detect.gzip());
    assert!(!detect.zstd());

    let detect = CompressionSupport::detect(&ae_hdrs("zstd;q=1.0, gzip;q=0.5, identity;q=0.1"));
    assert!(!detect.brotli());
    assert!(detect.gzip());
    assert!(detect.zstd());

    let detect = CompressionSupport::detect(&ae_hdrs("br;q=0.5, gzip;q=1.0, identity;q=0.1"));
    assert!(detect.brotli());
    assert!(detect.gzip());
    assert!(!detect.zstd());

    let detect = CompressionSupport::detect(&ae_hdrs("zstd;q=1.0, gzip;q=0.5, identity;q=0.1"));
    assert!(detect.zstd());
    assert!(detect.gzip());
    assert!(!detect.brotli());

    // "If an Accept-Encoding header field is present in a request
    // and none of the available representations for the response have a
    // content-coding that is listed as acceptable, the origin server SHOULD
    // send a response without any content-coding."
    let detect = CompressionSupport::detect(&ae_hdrs("*;q=0"));
    assert!(!detect.gzip());
    assert!(!detect.brotli());
    assert!(!detect.zstd());

    let detect = CompressionSupport::detect(&ae_hdrs("gzip;q=0.002")); // q=2
    assert!(detect.gzip());
}

#[test]
fn unparseable_accept_encoding_allows_nothing() {
    let nothing = CompressionSupport::default();
    assert_eq!(CompressionSupport::detect(&ae_hdrs("br, gzip;x=1")), nothing);
    assert_eq!(CompressionSupport::detect(&ae_hdrs("br;q=1.5")), nothing);
    assert_eq!(CompressionSupport::detect(&ae_hdrs("br;q=0.5;q=1")), nothing);
    // The last of several qualities counts.
    assert!(CompressionSupport::detect(&ae_hdrs("br;q=0, br ; q=1")).brotli());
    let mut h = HeaderMap::new();
    h.insert(header::ACCEPT_ENCODING, HeaderValue::from_bytes(b"br\xff").unwrap());
    assert_eq!(CompressionSupport::detect(&h), nothing);
}

#[test]
fn test_static_compression_into_strategy() {
    let strategy: CompressionStrategy = StaticCompression::new()
        .brotli(true)
        .gzip(false)
        .zstd(true)
        .into();
    let inner = strategy.into_inner();

    match inner {
        CompressionStrategyInner::Static(support) => {
            assert!(support.brotli());
            assert!(!support.gzip());
            assert!(support.zstd());
        }
        _ => panic!("expected static compression strategy"),
    }
}

#[test]
fn test_static_compression_constructor_disables_all_encodings() {
    let strategy = CompressionStrategy::static_compression();
    let inner = strategy.into_inner();

    match inner {
        CompressionStrategyInner::Static(support) => {
            assert!(!support.brotli());
            assert!(!support.gzip());
            assert!(!support.zstd());
        }
        _ => panic!("expected static compression strategy"),
    }
}

#[test]
fn test_cached_compression_into_strategy() {
    let strategy: CompressionStrategy = CachedCompression::new()
        .max_size(16)
        .compression_level(5)
        .into();
    let inner = strategy.into_inner();
    assert!(matches!(inner, CompressionStrategyInner::Cached(_)));
}

#[test]
fn strategies_have_levels() {
    assert!(CompressionStrategy::default().into_inner().is_none());
    assert_eq!(BrotliLevel::L0.level(), 0);
    assert_eq!(BrotliLevel::L5.level(), 5);
    assert_eq!(BrotliLevel::L11.level(), 11);
    match CompressionStrategy::cached_compression(8, 7).into_inner() {
        CompressionStrategyInner::Cached(cache) => assert_eq!(cache.quality(), 7),
        _ => panic!("expected a cache"),
    }
    let settings = CachedCompression::default().supported_extensions(Some(vec!["foo"])).max_file_size(9);
    match CompressionStrategy::from(settings).into_inner() {
        CompressionStrategyInner::Cached(cache) => {
            assert_eq!(cache.quality(), 3);
            assert!(cache.supports(b"foo"));
            assert!(!cache.supports(b"html"));
        }
        _ => panic!("expected a cache"),
    }
}

#[test]
fn encodings_have_names() {
    assert_eq!(ContentEncoding::Gzip.get_header_value().unwrap(), "gzip");
    assert_eq!(ContentEncoding::Brotli.get_header_value().unwrap(), "br");
    assert_eq!(ContentEncoding::Zstd.get_header_value().unwrap(), "zstd");
    assert!(ContentEncoding::Identity.get_header_value().is_none());
}

fn opened(kind: FileKind) -> OpenedFile {
    OpenedFile { file: 7, kind, len: 5, modified: Ok(SystemTime::UNIX_EPOCH) }
}

#[test]
fn opened_files_are_matched() {
    let m = MatchedFile::try_path("a/b.tar.gz", ContentEncoding::Gzip, Ok(opened(FileKind::File)));
    let m = match m {
        Ok(m) => m,
        Err(e) => panic!("{}", e.message()),
    };
    assert_eq!(m.file, 7);
    assert_eq!(m.file_info.len(), 5);
    assert_eq!(m.file_info.mtime(), SystemTime::UNIX_EPOCH);
    assert_eq!(m.content_encoding, ContentEncoding::Gzip);
    assert_eq!(m.extension, b"gz");

    let r = MatchedFile::try_path("a/b", ContentEncoding::Identity, Ok(opened(FileKind::Directory)));
    assert!(matches!(r, Err(SerdirError::IsDirectory(p)) if p == "a/b"));
    let r = MatchedFile::try_path("a/b", ContentEncoding::Identity, Ok(opened(FileKind::Other)));
    assert!(matches!(r, Err(SerdirError::NotFound(None))));
    let r = MatchedFile::try_path("a", ContentEncoding::Identity, Err(ErrorKind::NotFound.into()));
    assert!(matches!(r, Err(SerdirError::NotFound(None))));
    let r = MatchedFile::try_path("a", ContentEncoding::Identity, Err(Error::other("broken")));
    assert!(matches!(r, Err(SerdirError::IOError(e)) if e.to_string() == "broken"));
}

#[test]
fn candidates_come_in_order() {
    let all = CompressionSupport::new(true, true, true);
    let strategy = CompressionStrategyInner::Static(all);
    let search = match strategy.find_file(b"root/a.txt", all) {
        SearchPlan::Try(s) => s,
        SearchPlan::AskCache => panic!("no cache here"),
    };
    let paths: Vec<&[u8]> = search.list.iter().map(|c| c.0.as_slice()).collect();
    let expected: Vec<&[u8]> =
        vec![b"root/a.txt.br", b"root/a.txt.zstd", b"root/a.txt.gz", b"root/a.txt"];
    assert_eq!(paths, expected);
    assert_eq!(search.encoding(), ContentEncoding::Brotli);

    let off = CompressionStrategyInner::Off;
    match off.find_file(b"root/a.txt", all) {
        SearchPlan::Try(s) => {
            assert_eq!(s.list.len(), 1);
            assert_eq!(s.path(), b"root/a.txt");
        }
        SearchPlan::AskCache => panic!("no cache here"),
    }

    let cached = CompressionStrategy::cached_compression(4, 0).into_inner();
    assert!(matches!(cached.find_file(b"a", all), SearchPlan::AskCache));
    let no_br = CompressionSupport::new(false, true, true);
    assert!(matches!(cached.find_file(b"a", no_br), SearchPlan::Try(_)));
}

#[test]
fn a_search_stops_at_the_first_usable_file() {
    let all = CompressionSupport::new(true, true, true);
    let strategy = CompressionStrategyInner::Static(all);
    let mut search = match strategy.find_file(b"a", all) {
        SearchPlan::Try(s) => s,
        SearchPlan::AskCache => panic!("no cache here"),
    };
    assert!(search.tried(Err(SerdirError::not_found(None))).is_none());
    assert!(search.tried(Err(SerdirError::is_directory("a.zstd".to_string()))).is_none());
    assert_eq!(search.path(), b"a.gz");
    let m = MatchedFile::try_path("a.gz", search.encoding(), Ok(opened(FileKind::File)));
    assert!(matches!(search.tried(m), Some(Ok(m)) if m.content_encoding == ContentEncoding::Gzip));
    // Another error ends the search.
    let r = search.tried(Err(SerdirError::io_error(Error::other("broken"))));
    assert!(matches!(r, Some(Err(SerdirError::IOError(_)))));
    // So does the last file.
    assert!(search.tried(Err(SerdirError::not_found(None))).is_none());
    let r = search.tried(Err(SerdirError::not_found(None)));
    assert!(matches!(r, Some(Err(SerdirError::NotFound(None)))));
}

#[test]
fn test_brotli_cache_builder_defaults() {
    let builder = BrotliCacheBuilder::new();
    assert_eq!(builder.cache_size, 128);
    assert_eq!(builder.compression_level, 3);
    assert!(builder.supported_extensions.is_none());
}

#[test]
fn test_brotli_cache_builder_custom() {
    let extensions = vec!["html"];

    let builder = BrotliCacheBuilder::new()
        .cache_size(64)
        .compression_level(5)
        .supported_extensions(Some(extensions.clone()));

    assert_eq!(builder.cache_size, 64);
    assert_eq!(builder.compression_level, 5);
    assert_eq!(builder.supported_extensions.unwrap(), extensions);
}

#[test]
fn test_brotli_cache_build() {
    let cache = BrotliCacheBuilder::new()
        .cache_size(16)
        .compression_level(1)
        .build();

    assert_eq!(cache.quality(), 1);
}

fn info(path: &str, len: u64, secs: u64) -> FileInfo {
    let mtime = SystemTime::UNIX_EPOCH + Duration::from_secs(secs);
    match FileInfo::open_file(path, FileKind::File, len, Ok(mtime)) {
        Ok(info) => info,
        Err(e) => panic!("{}", e.message()),
    }
}

#[test]
fn test_simple_compression() {
    let path = "dir/test.html";
    let orig = info(path, 46, 1000);
    let mut cache = BrotliCacheBuilder::new().compression_level(1).build();

    assert!(matches!(cache.get(path, BrotliEvent::Asked), Ok(BrotliStep::Inspect)));
    match cache.get(path, BrotliEvent::Inspected(Ok(orig))) {
        Ok(BrotliStep::Compress(params)) => {
            assert_eq!(params.quality, 1);
            assert_eq!(params.mode, BrotliMode::Text);
            assert_eq!(params.size_hint, Some(46));
        }
        _ => panic!("expected compression"),
    }
    let compressed = CompressedFile {
        file: 42,
        len: 30,
        mtime: SystemTime::UNIX_EPOCH + Duration::from_secs(1001),
    };
    let matched = match cache.get(path, BrotliEvent::Compressed(orig, Ok(compressed))) {
        Ok(BrotliStep::Serve(m)) => m,
        _ => panic!("expected a file"),
    };
    assert_eq!(matched.content_encoding, ContentEncoding::Brotli);
    assert_eq!(matched.file, 42);
    assert_eq!(matched.file_info.len(), 30);
    assert_eq!(matched.extension, b"html");
    assert_ne!(matched.file_info.get_hash(), orig.get_hash());
    assert_eq!(matched.file_info.path_hash, orig.get_hash().swap_bytes());

    // The second time the cached version is returned.
    let matched2 = match cache.get(path, BrotliEvent::Inspected(Ok(orig))) {
        Ok(BrotliStep::Serve(m)) => m,
        _ => panic!("expected a file"),
    };
    assert_eq!(matched2.file, 42);
    assert_eq!(matched2.file_info.mtime(), matched.file_info.mtime());
    assert_eq!(matched2.file_info.path_hash, matched.file_info.path_hash);
    assert_eq!(matched2.extension, b"html");

    // A changed file is compressed anew.
    let changed = info(path, 46, 2000);
    let step = cache.get(path, BrotliEvent::Inspected(Ok(changed)));
    assert!(matches!(step, Ok(BrotliStep::Compress(_))));
}

#[test]
fn test_skip_compression() {
    let mut cache = BrotliCacheBuilder::new().build();
    assert!(matches!(cache.get("a/test.jpg", BrotliEvent::Asked), Ok(BrotliStep::Original)));
    assert!(matches!(cache.get("a/test", BrotliEvent::Asked), Ok(BrotliStep::Original)));
    for ext in vec![
        "html", "htm", "xhtml", "css", "js", "json", "xml", "svg", "txt", "csv", "tsv", "md",
    ] {
        assert!(cache.supports(ext.as_bytes()));
    }
    assert_eq!(cache.detect_brotli_mode(b"jpg"), BrotliMode::Generic);
}

#[test]
fn test_max_file_size() {
    let mut cache = BrotliCacheBuilder::new().max_file_size(10).build();
    let big = BrotliEvent::Inspected(Ok(info("too_big.txt", 49, 1)));
    assert!(matches!(cache.get("too_big.txt", big), Ok(BrotliStep::Original)));
    let small = BrotliEvent::Inspected(Ok(info("small.txt", 5, 1)));
    assert!(matches!(cache.get("small.txt", small), Ok(BrotliStep::Compress(_))));
}

#[test]
fn failed_compression() {
    let path = "a.txt";
    let orig = info(path, 5, 1);
    let mut cache = BrotliCacheBuilder::new().build();
    let compressed = CompressedFile { file: 1, len: 3, mtime: SystemTime::UNIX_EPOCH };
    assert!(cache.get(path, BrotliEvent::Compressed(orig, Ok(compressed))).is_ok());

    // Without room for the result, everything is given up and the original served.
    let full = BrotliEvent::Compressed(orig, Err(ErrorKind::StorageFull.into()));
    assert!(matches!(cache.get(path, full), Ok(BrotliStep::Original)));
    let step = cache.get(path, BrotliEvent::Inspected(Ok(orig)));
    assert!(matches!(step, Ok(BrotliStep::Compress(_))));

    // Other failures are reported.
    match cache.get(path, BrotliEvent::Compressed(orig, Err(Error::other("broken")))) {
        Err(e) => {
            assert_eq!(
                e.message(),
                "Compression error: Brotli compression failed for a.txt (I/O error: broken)"
            );
            assert_eq!(e.status_code(), 500);
        }
        Ok(_) => panic!("expected an error"),
    }
    let r = cache.get(path, BrotliEvent::Unreadable(Error::other("no metadata")));
    assert!(matches!(r, Err(SerdirError::IOError(_))));
    let r = cache.get(path, BrotliEvent::Inspected(Err(SerdirError::not_found(None))));
    assert!(matches!(r, Err(SerdirError::NotFound(None))));
}

#[test]
fn a_full_cache_keeps_the_newest() {
    let mut cache = BrotliCacheBuilder::new().cache_size(4).build();
    for i in 0..50u64 {
        let orig = info("a.txt", i, 1);
        let compressed = CompressedFile { file: i, len: i, mtime: SystemTime::UNIX_EPOCH };
        assert!(cache.get("a.txt", BrotliEvent::Compressed(orig, Ok(compressed))).is_ok());
        match cache.get("a.txt", BrotliEvent::Inspected(Ok(orig))) {
            Ok(BrotliStep::Serve(m)) => assert_eq!(m.file, i),
            _ => panic!("expected a file"),
        }
    }
}

#[test]
fn brotli_cache_is_bounded() {
    let mut cache = BrotliCacheBuilder::new().cache_size(4).build();
    for i in 0..50u64 {
        let file = CompressedFile { file: i, len: 1, mtime: SystemTime::UNIX_EPOCH };
        let event = BrotliEvent::Compressed(info("a.txt", i, 1), Ok(file));
        assert!(matches!(cache.get("a.txt", event), Ok(BrotliStep::Serve(m)) if m.file == i));
    }
    let kept = (0..50u64)
        .filter(|i| {
            let step = cache.get("a.txt", BrotliEvent::Inspected(Ok(info("a.txt", *i, 1))));
            matches!(step, Ok(BrotliStep::Serve(_)))
        })
        .count();
    assert!(0 < kept && kept <= 4);
}

#[test]
fn served_files_decompress_to_the_original() {
    let path = "book.txt";
    let content: Vec<u8> =
        (0..20_000u32).flat_map(|i| format!("line {} of {}\n", i, i * i % 97).into_bytes()).collect();
    let orig = info(path, content.len() as u64, 1);
    let mut sizes: Vec<usize> = Vec::new();
    for level in [0u8, 5, 9] {
        let mut cache = BrotliCacheBuilder::new().compression_level(level).build();
        assert!(matches!(cache.get(path, BrotliEvent::Asked), Ok(BrotliStep::Inspect)));
        let params = match cache.get(path, BrotliEvent::Inspected(Ok(orig))) {
            Ok(BrotliStep::Compress(params)) => params,
            _ => panic!("expected compression"),
        };
        assert_eq!(params.quality, level as i32);
        let mut encoder = BrotliEncoderParams::default();
        encoder.quality = params.quality;
        encoder.mode = match params.mode {
            BrotliMode::Text => BrotliEncoderMode::BROTLI_MODE_TEXT,
            BrotliMode::Generic => BrotliEncoderMode::BROTLI_MODE_GENERIC,
        };
        encoder.size_hint = params.size_hint.unwrap();
        let mut writer = brotli::CompressorWriter::with_params(Vec::new(), 8192, &encoder);
        writer.write_all(&content).unwrap();
        writer.flush().unwrap();
        let stored: Vec<u8> = writer.into_inner();
        sizes.push(stored.len());
        let file = CompressedFile {
            file: 7,
            len: stored.len() as u64,
            mtime: SystemTime::UNIX_EPOCH,
        };
        let events = [
            BrotliEvent::Compressed(orig, Ok(file)),
            BrotliEvent::Inspected(Ok(orig)),
        ];
        for event in events {
            let matched = match cache.get(path, event) {
                Ok(BrotliStep::Serve(matched)) => matched,
                _ => panic!("expected a file"),
            };
            assert_eq!(matched.file, 7);
            assert_eq!(matched.content_encoding, ContentEncoding::Brotli);
            assert_eq!(matched.extension, b"txt");
            assert_eq!(matched.file_info.len(), stored.len() as u64);
            let mut back: Vec<u8> = Vec::new();
            brotli::Decompressor::new(&stored[..], 4096).read_to_end(&mut back).unwrap();
            assert_eq!(back, content);
        }
    }
    // The higher the level, the smaller the output.
    assert!(sizes[0] > sizes[1]);
}
