//! Served directories, over a file system in memory.

use bytes::Bytes;
use http::{header, HeaderMap, HeaderValue, Method, StatusCode};
use serdir::brotli_cache::{BrotliEvent, BrotliStep, CompressedFile};
use serdir::compression::{
    BrotliLevel, CompressionStrategyInner, ContentEncoding, MatchedFile, OpenedFile, SearchPlan,
};
use serdir::file_info::{FileInfo, FileKind};
use serdir::integration::{try_middleware_action, MiddlewareAction};
use serdir::metrics::{record_brotli_compression, record_cache_access, record_request};
use serdir::path::{append_extension, extension, resolve_below};
use serdir::platform::Platform;
use serdir::resource::Resource;
use serdir::served_dir::{Lookup, Resolution, Stage};
use serdir::stream::StreamPoll;
use serdir::{Body, SerdirError, ServedDir, ServedDirBuilder};
use std::io::{Error, ErrorKind};
use std::time::{Duration, SystemTime};

const ROOT: &str = "/srv/www";

type Hasher = fn(&[u8]) -> Result<Option<u64>, Error>;

fn fixed_hash(_: &[u8]) -> Result<Option<u64>, Error> {
    Ok(Some(0x1234))
}

fn no_hash(_: &[u8]) -> Result<Option<u64>, Error> {
    Ok(None)
}

fn hash_error(_: &[u8]) -> Result<Option<u64>, Error> {
    Err(Error::other("hash calculation failed"))
}

fn sum_hash(data: &[u8]) -> Result<Option<u64>, Error> {
    Ok(Some(data.iter().fold(7u64, |h, b| h.wrapping_mul(31).wrapping_add(*b as u64))))
}

/// Files and directories in memory, and a served directory over them.
struct TestContext {
    files: Vec<(String, Option<Vec<u8>>)>,
    hasher: Hasher,
    hashed: usize,
}

fn mtime() -> SystemTime {
    SystemTime::UNIX_EPOCH + Duration::from_secs(1_700_000_000)
}

fn now() -> SystemTime {
    SystemTime::UNIX_EPOCH + Duration::from_secs(1_700_000_500)
}

impl TestContext {
    fn new() -> Self {
        let root = (ROOT.to_string(), None);
        TestContext { files: vec![root], hasher: sum_hash, hashed: 0 }
    }

    fn write_file(&mut self, name: &str, contents: &str) {
        self.files.push((format!("{}/{}", ROOT, name), Some(contents.as_bytes().to_vec())));
    }

    fn create_dir(&mut self, name: &str) {
        self.files.push((format!("{}/{}", ROOT, name), None));
    }

    fn remove_file(&mut self, name: &str) {
        let path = format!("{}/{}", ROOT, name);
        self.files.retain(|f| f.0 != path);
    }

    fn builder(&self) -> ServedDirBuilder {
        match ServedDir::builder(ROOT, true) {
            Ok(b) => b,
            Err(e) => panic!("{}", e.message()),
        }
    }

    fn open(&self, path: &str) -> Result<OpenedFile, Error> {
        for (i, (name, content)) in self.files.iter().enumerate() {
            if name == path {
                return Ok(OpenedFile {
                    file: i as u64,
                    kind: match content {
                        Some(_) => FileKind::File,
                        None => FileKind::Directory,
                    },
                    len: content.as_ref().map(|c| c.len()).unwrap_or(0) as u64,
                    modified: Ok(mtime()),
                });
            }
        }
        Err(ErrorKind::NotFound.into())
    }

    fn is_file(&self, path: &str) -> bool {
        matches!(self.open(path), Ok(o) if o.kind == FileKind::File)
    }

    fn content(&self, file: u64) -> &[u8] {
        self.files[file as usize].1.as_ref().expect("a file").as_slice()
    }

    fn find(&mut self, dir: &mut ServedDir, lookup: &Lookup) -> Result<MatchedFile, SerdirError> {
        match dir.find_file(&lookup.path, lookup.preferred) {
            SearchPlan::Try(mut search) => loop {
                let path = String::from_utf8(search.path().clone()).unwrap();
                let opened = MatchedFile::try_path(&path, search.encoding(), self.open(&path));
                if let Some(result) = search.tried(opened) {
                    return result;
                }
            },
            SearchPlan::AskCache => {
                let path = String::from_utf8(lookup.path.clone()).unwrap();
                self.compress(dir, &path)
            }
        }
    }

    fn compress(&mut self, dir: &mut ServedDir, path: &str) -> Result<MatchedFile, SerdirError> {
        let mut event = BrotliEvent::Asked;
        let mut info: Option<FileInfo> = None;
        loop {
            let step = match &mut dir.compression_strategy {
                CompressionStrategyInner::Cached(cache) => cache.get(path, event)?,
                _ => panic!("there is a cache"),
            };
            match step {
                BrotliStep::Serve(matched) => return Ok(matched),
                BrotliStep::Original => {
                    return MatchedFile::try_path(path, ContentEncoding::Identity, self.open(path))
                }
                BrotliStep::Inspect => {
                    let inspected = match self.open(path) {
                        Ok(o) => FileInfo::open_file(path, o.kind, o.len, o.modified),
                        Err(e) => Err(e.into()),
                    };
                    info = inspected.as_ref().ok().copied();
                    event = BrotliEvent::Inspected(inspected);
                }
                BrotliStep::Compress(params) => {
                    let squeezed = format!("level {}", params.quality).into_bytes();
                    let compressed = CompressedFile {
                        file: self.files.len() as u64,
                        len: squeezed.len() as u64,
                        mtime: mtime(),
                    };
                    self.files.push(("(compressed)".to_string(), Some(squeezed)));
                    event = BrotliEvent::Compressed(info.unwrap(), Ok(compressed));
                }
            }
        }
    }

    fn entity(&mut self, dir: &mut ServedDir, matched: MatchedFile) -> Result<Resource, SerdirError> {
        let etag = match dir.known_etag(&matched.file_info) {
            Some(etag) => etag,
            None => {
                self.hashed += 1;
                let hashed = (self.hasher)(self.content(matched.file));
                dir.calculate_etag(matched.file_info, hashed)?
            }
        };
        let content = Bytes::copy_from_slice(self.content(matched.file));
        let entity = dir.create_entity(&matched, etag);
        entity.with_bytes_storage(content).map_err(SerdirError::from)
    }

    fn get(&mut self, dir: &mut ServedDir, path: &str, hdrs: &HeaderMap) -> Result<Resource, SerdirError> {
        let mut lookup = dir.begin(path, hdrs)?;
        loop {
            let found = self.find(dir, &lookup);
            match dir.resolve(lookup, found) {
                Resolution::Find(next) => lookup = next,
                Resolution::Entity(matched) => return self.entity(dir, matched),
                Resolution::NotFoundEntity(matched) => {
                    let entity = self.entity(dir, matched)?;
                    return Err(SerdirError::not_found(Some(entity)));
                }
                Resolution::Failed(e) => return Err(e),
            }
        }
    }
}

fn text_of(mut body: Body) -> String {
    let mut sent: Vec<u8> = Vec::new();
    loop {
        match body.poll_frame(None).0 {
            StreamPoll::Data(d) => sent.extend_from_slice(&d),
            StreamPoll::End => return String::from_utf8(sent).unwrap(),
            _ => panic!("unexpected answer"),
        }
    }
}

fn body_of(entity: &Resource) -> String {
    let resp =
        entity.clone().serve_request(&Method::GET, &HeaderMap::new(), StatusCode::OK, now());
    text_of(resp.body)
}

fn ok(r: Result<Resource, SerdirError>) -> Resource {
    match r {
        Ok(e) => e,
        Err(e) => panic!("{}", e.message()),
    }
}

fn err(r: Result<Resource, SerdirError>) -> SerdirError {
    match r {
        Ok(_) => panic!("expected an error"),
        Err(e) => e,
    }
}

fn accept(value: &'static str) -> HeaderMap {
    let mut hdrs = HeaderMap::new();
    hdrs.insert(header::ACCEPT_ENCODING, HeaderValue::from_static(value));
    hdrs
}

#[test]
fn test_served_dir_get() {
    let mut context = TestContext::new();
    context.write_file("one.txt", "one");
    context.write_file("two.json", "more content");
    let mut served_dir = context.builder().build();
    let hdrs = HeaderMap::new();

    let e1 = ok(context.get(&mut served_dir, "one.txt", &hdrs));
    assert_eq!(e1.len(), 3);
    assert_eq!(e1.header(&header::CONTENT_TYPE).unwrap(), "text/plain");

    let e2 = ok(context.get(&mut served_dir, "two.json", &hdrs));
    assert_eq!(e2.len(), 12);
    assert_eq!(e2.header(&header::CONTENT_TYPE).unwrap(), "application/json");
    assert_eq!(served_dir.dir(), ROOT);
    assert_eq!(served_dir.strategy_name(), "none");
}

#[test]
fn test_served_dir_not_found() {
    let mut context = TestContext::new();
    let mut served_dir = context.builder().build();
    let e = err(context.get(&mut served_dir, "non-existent.txt", &HeaderMap::new()));
    assert!(matches!(e, SerdirError::NotFound(_)));
}

#[test]
fn test_served_dir_forbidden_paths() {
    let mut context = TestContext::new();
    let mut served_dir = context.builder().build();
    let hdrs = HeaderMap::new();

    // 1. Contains ".." in middle
    let e = err(context.get(&mut served_dir, "include/../etc/passwd", &hdrs));
    assert!(matches!(e, SerdirError::InvalidPath(msg) if msg.contains(".. segment")));

    // 2. Contains ".." at start
    let e = err(context.get(&mut served_dir, "../etc/passwd", &hdrs));
    assert!(matches!(e, SerdirError::InvalidPath(msg) if msg.contains(".. segment")));

    // 3. Contains ".." at end
    let e = err(context.get(&mut served_dir, "foo/..", &hdrs));
    assert!(matches!(e, SerdirError::InvalidPath(msg) if msg.contains(".. segment")));

    // 4. Contains null byte
    let e = err(context.get(&mut served_dir, "test\0file.txt", &hdrs));
    assert!(matches!(e, SerdirError::InvalidPath(msg) if msg.contains("NUL byte")));

    // 5. Absolute path (leading /)
    // Note: one leading slash is stripped, so we test with two.
    let e = err(context.get(&mut served_dir, "//etc/passwd", &hdrs));
    assert!(matches!(e, SerdirError::InvalidPath(msg) if msg.contains("absolute")));

    // 6. Drive letter
    let e = err(context.get(&mut served_dir, r"C:\etc\passwd", &hdrs));
    assert!(matches!(e, SerdirError::InvalidPath(msg) if msg.contains("prefix")));
    let e = err(context.get(&mut served_dir, r"\\server\share", &hdrs));
    assert!(matches!(e, SerdirError::InvalidPath(msg) if msg.contains("prefix")));

    // 7. Windows-style paths
    let mut served_dir = context.builder().platform(Platform::Windows).build();
    // Backslash as separator
    let e = err(context.get(&mut served_dir, r"foo\..\bar", &hdrs));
    assert!(matches!(e, SerdirError::InvalidPath(msg) if msg.contains(".. segment")));
    // Drive letter
    let e = err(context.get(&mut served_dir, r"C:\etc\passwd", &hdrs));
    assert!(matches!(e, SerdirError::InvalidPath(msg) if msg.contains("prefix")));
}

#[test]
fn paths_are_written_in_two_styles() {
    let mut context = TestContext::new();
    context.write_file("sub/one.txt", "one");
    let hdrs = HeaderMap::new();
    let mut windows = context.builder().platform(Platform::Windows).build();
    let e = ok(context.get(&mut windows, r"sub\.\one.txt", &hdrs));
    assert_eq!(e.len(), 3);
    for path in ["C:foo", "c:/foo", r"\/server", "///server"] {
        let e = err(context.get(&mut windows, path, &hdrs));
        assert!(matches!(e, SerdirError::InvalidPath(msg) if msg.contains("prefix")));
    }
    for path in [r"\foo", "//foo"] {
        let e = err(context.get(&mut windows, path, &hdrs));
        assert!(matches!(e, SerdirError::InvalidPath(msg) if msg.contains("absolute")));
    }
    // Elsewhere a backslash is part of a name, and so is a colon.
    let unix = context.builder().build();
    for path in [r"foo\..\bar", "C:foo"] {
        let full = unix.validate_path(path.as_bytes()).ok().unwrap();
        assert_eq!(full, [ROOT, "/", path].concat().into_bytes());
    }
}

#[test]
fn not_found_paths_are_relative() {
    let context = TestContext::new();
    assert!(context.builder().not_found_path(r"C:\404.html", true).is_ok());
    assert!(context.builder().not_found_path("/404.html", true).is_err());
    for path in [r"C:\404.html", "C:404.html", r"\404.html", "/404.html", r"\\x"] {
        let builder = context.builder().platform(Platform::Windows);
        assert!(builder.not_found_path(path, true).is_err());
    }
    let builder = context.builder().platform(Platform::Windows);
    assert!(builder.not_found_path(r"sub\404.html", true).is_ok());
}

#[test]
fn a_directory_without_index_page_gets_the_not_found_page() {
    let mut context = TestContext::new();
    context.create_dir("subdir");
    context.write_file("404.html", "nothing here");
    let builder = context.builder().append_index_html(true);
    let mut dir = match builder.not_found_path("404.html", true) {
        Ok(builder) => builder.build(),
        Err(e) => panic!("{}", e.message()),
    };
    match err(context.get(&mut dir, "/subdir", &HeaderMap::new())) {
        SerdirError::NotFound(Some(e)) => assert_eq!(e.len(), 12),
        e => panic!("{}", e.message()),
    }
}

#[test]
fn test_served_dir_strip_prefix() {
    let mut context = TestContext::new();
    context.write_file("real.txt", "real content");

    let mut served_dir = context.builder().strip_prefix("/static/".to_string()).build();
    let hdrs = HeaderMap::new();

    // Should work with the prefix
    let e = ok(context.get(&mut served_dir, "/static/real.txt", &hdrs));
    assert_eq!(body_of(&e), "real content");

    // Should fail without the prefix
    let e = err(context.get(&mut served_dir, "real.txt", &hdrs));
    assert!(matches!(e, SerdirError::NotFound(_)));

    // The prefix alone stands for the directory itself.
    let e = err(context.get(&mut served_dir, "/static/", &hdrs));
    assert!(matches!(e, SerdirError::IsDirectory(p) if p == ROOT));
}

#[test]
fn test_served_dir_content_types() {
    let mut context = TestContext::new();
    context.write_file("index.html", "html");
    context.write_file("style.css", "css");
    context.write_file("script.js", "js");
    context.write_file("image.webp", "webp");
    context.write_file("unknown.foo", "foo");
    let mut served_dir = context.builder().build();
    let hdrs = HeaderMap::new();

    for (path, expected) in vec![
        ("index.html", "text/html"),
        ("style.css", "text/css"),
        ("script.js", "text/javascript"),
        ("image.webp", "image/webp"),
        ("unknown.foo", "application/octet-stream"),
    ] {
        let e = ok(context.get(&mut served_dir, path, &hdrs));
        assert_eq!(e.header(&header::CONTENT_TYPE).unwrap(), expected);
    }
}

#[test]
fn builtin_extensions() {
    let mut context = TestContext::new();
    let mut served_dir = context.builder().build();
    let hdrs = HeaderMap::new();
    for (ext, expected) in vec![
        ("html", "text/html"),
        ("htm", "text/html"),
        ("hxt", "text/html"),
        ("css", "text/css"),
        ("js", "text/javascript"),
        ("es", "text/javascript"),
        ("ecma", "text/javascript"),
        ("jsm", "text/javascript"),
        ("jsx", "text/javascript"),
        ("png", "image/png"),
        ("apng", "image/apng"),
        ("avif", "image/avif"),
        ("gif", "image/gif"),
        ("ico", "image/x-icon"),
        ("jpeg", "image/jpeg"),
        ("jfif", "image/jpeg"),
        ("pjpeg", "image/jpeg"),
        ("pjp", "image/jpeg"),
        ("jpg", "image/jpeg"),
        ("svg", "image/svg+xml"),
        ("tiff", "image/tiff"),
        ("webp", "image/webp"),
        ("bmp", "image/bmp"),
        ("pdf", "application/pdf"),
        ("zip", "application/zip"),
        ("gz", "application/gzip"),
        ("tar", "application/tar"),
        ("bz", "application/x-bzip"),
        ("bz2", "application/x-bzip2"),
        ("xz", "application/x-xz"),
        ("csv", "text/csv"),
        ("txt", "text/plain"),
        ("text", "text/plain"),
        ("log", "text/plain"),
        ("md", "text/markdown"),
        ("markdown", "text/x-markdown"),
        ("mkd", "text/x-markdown"),
        ("mp4", "video/mp4"),
        ("webm", "video/webm"),
        ("mpeg", "video/mpeg"),
        ("mpg", "video/mpeg"),
        ("mpg4", "video/mp4"),
        ("xml", "application/xml"),
        ("json", "application/json"),
        ("yaml", "application/yaml"),
        ("yml", "application/yaml"),
        ("toml", "application/toml"),
        ("ini", "application/ini"),
        ("ics", "text/calendar"),
        ("doc", "application/msword"),
        ("docx", "application/vnd.openxmlformats-officedocument.wordprocessingml.document"),
        ("xls", "application/vnd.ms-excel"),
        ("xlsx", "application/vnd.openxmlformats-officedocument.spreadsheetml.sheet"),
        ("ppt", "application/vnd.ms-powerpoint"),
        ("pptx", "application/vnd.openxmlformats-officedocument.presentationml.presentation"),
    ] {
        let name = format!("f.{}", ext);
        context.write_file(&name, "x");
        let e = ok(context.get(&mut served_dir, &name, &hdrs));
        assert_eq!(e.header(&header::CONTENT_TYPE).unwrap(), expected);
    }
    assert_eq!(ServedDirBuilder::default_extensions().len(), 55);
}

#[test]
fn test_served_dir_common_headers() {
    let mut context = TestContext::new();
    context.write_file("one.txt", "one");
    let mut served_dir = context
        .builder()
        .common_header(header::CACHE_CONTROL, HeaderValue::from_static("public, max-age=3600"))
        .common_header(header::ACCESS_CONTROL_ALLOW_ORIGIN, HeaderValue::from_static("*"))
        .build();
    let e = ok(context.get(&mut served_dir, "one.txt", &HeaderMap::new()));
    assert_eq!(e.header(&header::CACHE_CONTROL).unwrap(), "public, max-age=3600");
    assert_eq!(e.header(&header::ACCESS_CONTROL_ALLOW_ORIGIN).unwrap(), "*");
    assert_eq!(e.header(&header::CONTENT_TYPE).unwrap(), "text/plain");
    assert_eq!(e.headers.len(), 3);
}

#[test]
fn common_headers_are_replaced() {
    let mut context = TestContext::new();
    context.write_file("one.txt", "one");
    let mut served_dir = context
        .builder()
        .common_header(header::SERVER, HeaderValue::from_static("old"))
        .common_header(header::SERVER, HeaderValue::from_static("new"))
        .build();
    let e = ok(context.get(&mut served_dir, "one.txt", &HeaderMap::new()));
    assert_eq!(e.header(&header::SERVER).unwrap(), "new");
    assert_eq!(e.headers.len(), 2);
}

#[test]
fn test_served_dir_unexpected_br_path() {
    let mut context = TestContext::new();
    // Create the raw file
    context.write_file("test.txt", "raw content");
    // Create a directory where the .br file is expected
    context.create_dir("test.txt.br");

    let mut served_dir = context.builder().static_compression(true, true, true).build();

    // Should ignore the directory and serve the raw file
    let e = ok(context.get(&mut served_dir, "test.txt", &accept("br")));
    assert!(e.header(&header::CONTENT_ENCODING).is_none());
    assert_eq!(body_of(&e), "raw content");
    assert_eq!(served_dir.strategy_name(), "static");
}

#[test]
fn test_served_dir_unexpected_gz_path() {
    let mut context = TestContext::new();
    // Create the raw file
    context.write_file("test.txt", "raw content");
    // Create a directory where the .gz file is expected
    context.create_dir("test.txt.gz");

    let mut served_dir = context.builder().static_compression(true, true, true).build();

    // Should ignore the directory and serve the raw file
    let e = ok(context.get(&mut served_dir, "test.txt", &accept("gzip")));
    assert!(e.header(&header::CONTENT_ENCODING).is_none());
    assert_eq!(body_of(&e), "raw content");
}

#[test]
fn test_served_dir_get_directory() {
    let mut context = TestContext::new();
    context.create_dir("subdir");
    let mut served_dir = context.builder().build();
    let e = err(context.get(&mut served_dir, "subdir", &HeaderMap::new()));
    match e {
        SerdirError::IsDirectory(err_path) => assert_eq!(err_path, format!("{}/subdir", ROOT)),
        _ => panic!("expected a directory"),
    }
}

#[test]
fn test_served_dir_append_index_html() {
    let mut context = TestContext::new();
    context.create_dir("subdir");
    context.write_file("subdir/index.html", "index content");

    // 1. append_index_html disabled (default)
    let mut served_dir = context.builder().build();
    let hdrs = HeaderMap::new();
    let e = err(context.get(&mut served_dir, "subdir", &hdrs));
    assert!(matches!(e, SerdirError::IsDirectory(_)));

    // 2. append_index_html enabled
    let mut served_dir = context.builder().append_index_html(true).build();
    let e = ok(context.get(&mut served_dir, "subdir", &hdrs));
    assert_eq!(body_of(&e), "index content");
    assert_eq!(e.header(&header::CONTENT_TYPE).unwrap(), "text/html");
    let e = ok(context.get(&mut served_dir, "/subdir/", &hdrs));
    assert_eq!(body_of(&e), "index content");

    // 3. append_index_html enabled, but index.html missing
    context.create_dir("empty_subdir");
    let e = err(context.get(&mut served_dir, "empty_subdir", &hdrs));
    assert!(matches!(e, SerdirError::NotFound(_)));
}

#[test]
fn test_served_dir_compression_priority() {
    let mut context = TestContext::new();
    context.write_file("test.txt", "raw content");
    context.write_file("test.txt.gz", "fake gzip content");
    context.write_file("test.txt.br", "fake brotli content");
    context.write_file("test.txt.zstd", "fake zstd content");

    let mut served_dir = context.builder().static_compression(true, true, true).build();
    let hdrs = accept("br, gzip, zstd");

    // 1. All 3 available -> Brotli used
    let e = ok(context.get(&mut served_dir, "test.txt", &hdrs));
    assert_eq!(e.header(&header::CONTENT_ENCODING).unwrap(), "br");
    assert_eq!(body_of(&e), "fake brotli content");
    assert_eq!(e.header(&header::VARY).unwrap(), "Accept-Encoding");

    // 2. Zstandard and Gzip available -> Zstandard used
    context.remove_file("test.txt.br");
    let e = ok(context.get(&mut served_dir, "test.txt", &hdrs));
    assert_eq!(e.header(&header::CONTENT_ENCODING).unwrap(), "zstd");
    assert_eq!(body_of(&e), "fake zstd content");

    // 3. Only Gzip available -> Gzip used
    context.remove_file("test.txt.zstd");
    let e = ok(context.get(&mut served_dir, "test.txt", &hdrs));
    assert_eq!(e.header(&header::CONTENT_ENCODING).unwrap(), "gzip");
    assert_eq!(body_of(&e), "fake gzip content");

    // 4. None available -> Raw used
    context.remove_file("test.txt.gz");
    let e = ok(context.get(&mut served_dir, "test.txt", &hdrs));
    assert!(e.header(&header::CONTENT_ENCODING).is_none());
    assert_eq!(body_of(&e), "raw content");
    assert_eq!(e.header(&header::VARY).unwrap(), "Accept-Encoding");
}

#[test]
fn test_served_dir_not_found_path_config() {
    let mut context = TestContext::new();
    context.write_file("404.html", "not found");
    context.create_dir("subdir");

    // 1. Successfully set relative path to file
    let builder = context.builder();
    let path = builder.path_below("404.html");
    assert_eq!(path, format!("{}/404.html", ROOT));
    assert!(builder.not_found_path("404.html", context.is_file(&path)).is_ok());

    // 2. Not a file
    let builder = context.builder();
    let path = builder.path_below("subdir");
    let r = builder.not_found_path("subdir", context.is_file(&path));
    assert!(matches!(
        r,
        Err(SerdirError::ConfigError(msg)) if msg == "not_found_path is not a file: /srv/www/subdir"
    ));

    // 3. Not relative
    let r = context.builder().not_found_path("/etc/passwd", true);
    assert!(matches!(
        r,
        Err(SerdirError::ConfigError(msg)) if msg == "not_found_path must be relative"
    ));

    // 4. Not a directory to serve
    let r = ServedDir::builder("/srv/file", false);
    assert!(matches!(
        r,
        Err(SerdirError::ConfigError(msg)) if msg == "path is not a directory: /srv/file"
    ));
}

#[test]
fn test_served_dir_static_compression_config() {
    let mut context = TestContext::new();
    context.write_file("test.txt", "raw content");
    context.write_file("test.txt.br", "fake brotli content");
    context.write_file("test.txt.gz", "fake gzip content");
    context.write_file("test.txt.zstd", "fake zstd content");
    let hdrs = accept("br, gzip, zstd");

    // 1. Only Brotli enabled
    let mut served_dir = context.builder().static_compression(true, false, false).build();
    let e = ok(context.get(&mut served_dir, "test.txt", &hdrs));
    assert_eq!(e.header(&header::CONTENT_ENCODING).unwrap(), "br");

    // 2. Only Zstandard enabled
    let mut served_dir = context.builder().static_compression(false, false, true).build();
    let e = ok(context.get(&mut served_dir, "test.txt", &hdrs));
    assert_eq!(e.header(&header::CONTENT_ENCODING).unwrap(), "zstd");

    // 3. Only Gzip enabled
    let mut served_dir = context.builder().static_compression(false, true, false).build();
    let e = ok(context.get(&mut served_dir, "test.txt", &hdrs));
    assert_eq!(e.header(&header::CONTENT_ENCODING).unwrap(), "gzip");

    // 4. None enabled (even if files exist and client supports them)
    let mut served_dir = context.builder().static_compression(false, false, false).build();
    let e = ok(context.get(&mut served_dir, "test.txt", &hdrs));
    assert!(e.header(&header::CONTENT_ENCODING).is_none());

    // 5. Both Brotli and Zstandard enabled (Brotli preferred)
    let mut served_dir = context.builder().static_compression(true, false, true).build();
    let e = ok(context.get(&mut served_dir, "test.txt", &hdrs));
    assert_eq!(e.header(&header::CONTENT_ENCODING).unwrap(), "br");

    // 6. No compression at all
    let builder = context.builder().static_compression(true, true, true).no_compression();
    let mut served_dir = builder.build();
    let e = ok(context.get(&mut served_dir, "test.txt", &hdrs));
    assert!(e.header(&header::CONTENT_ENCODING).is_none());
    assert!(e.header(&header::VARY).is_none());
}

#[test]
fn cached_compression_compresses_once() {
    let mut context = TestContext::new();
    context.write_file("test.txt", "raw content");
    context.write_file("photo.jpg", "photo");
    let mut served_dir = context.builder().cached_compression(BrotliLevel::L5).build();
    assert_eq!(served_dir.strategy_name(), "cached");

    let e = ok(context.get(&mut served_dir, "test.txt", &accept("br")));
    assert_eq!(e.header(&header::CONTENT_ENCODING).unwrap(), "br");
    assert_eq!(e.header(&header::CONTENT_TYPE).unwrap(), "text/plain");
    assert_eq!(body_of(&e), "level 5");
    let files = context.files.len();
    let e = ok(context.get(&mut served_dir, "test.txt", &accept("br")));
    assert_eq!(body_of(&e), "level 5");
    assert_eq!(context.files.len(), files);

    let e = ok(context.get(&mut served_dir, "test.txt", &accept("gzip")));
    assert_eq!(body_of(&e), "raw content");
    let e = ok(context.get(&mut served_dir, "photo.jpg", &accept("br")));
    assert_eq!(body_of(&e), "photo");
    let e = err(context.get(&mut served_dir, "missing.txt", &accept("br")));
    assert!(matches!(e, SerdirError::NotFound(None)));
}

fn with_page(context: &TestContext) -> ServedDir {
    match context.builder().not_found_path("404.html", true) {
        Ok(b) => b.build(),
        Err(e) => panic!("{}", e.message()),
    }
}

#[test]
fn test_served_dir_not_found_path_behavior() {
    let mut context = TestContext::new();
    context.write_file("404.html", "custom 404 content");
    context.write_file("exists.txt", "found");
    let mut served_dir = with_page(&context);
    let hdrs = HeaderMap::new();

    // 1. Existing file -> Ok
    let e = ok(context.get(&mut served_dir, "exists.txt", &hdrs));
    assert_eq!(body_of(&e), "found");

    // 2. Non-existent file -> NotFound(Some(entity))
    match err(context.get(&mut served_dir, "missing.txt", &hdrs)) {
        SerdirError::NotFound(Some(entity)) => {
            assert_eq!(body_of(&entity), "custom 404 content");
            assert_eq!(entity.header(&header::CONTENT_TYPE).unwrap(), "text/html");
        }
        e => panic!("expected NotFound(Some(_)), got {}", e.message()),
    }
}

#[test]
fn test_served_dir_default_hash_function_sets_etag() {
    let mut context = TestContext::new();
    context.write_file("one.txt", "one");
    let mut served_dir = context.builder().build();
    let entity = ok(context.get(&mut served_dir, "one.txt", &HeaderMap::new()));
    assert!(entity.etag.is_some());
}

#[test]
fn test_served_dir_custom_hash_function_sets_etag() {
    let mut context = TestContext::new();
    context.write_file("one.txt", "one");
    context.hasher = fixed_hash;
    let mut served_dir = context.builder().build();
    let entity = ok(context.get(&mut served_dir, "one.txt", &HeaderMap::new()));
    let etag = entity.etag.expect("etag should be present");
    let etag_val: HeaderValue = etag.into();
    assert_eq!(etag_val.to_str().unwrap(), r#""0000000000001234""#);
}

#[test]
fn test_served_dir_custom_hash_function_can_disable_etag() {
    let mut context = TestContext::new();
    context.write_file("one.txt", "one");
    context.hasher = no_hash;
    let mut served_dir = context.builder().build();
    let entity = ok(context.get(&mut served_dir, "one.txt", &HeaderMap::new()));
    assert!(entity.etag.is_none());
}

#[test]
fn test_served_dir_hash_function_error_is_propagated() {
    let mut context = TestContext::new();
    context.write_file("one.txt", "one");
    context.hasher = hash_error;
    let mut served_dir = context.builder().build();
    match err(context.get(&mut served_dir, "one.txt", &HeaderMap::new())) {
        SerdirError::IOError(inner) => {
            assert_eq!(inner.kind(), std::io::ErrorKind::Other);
            assert_eq!(inner.to_string(), "hash calculation failed");
        }
        other => panic!("expected IOError, got {}", other.message()),
    }
}

#[test]
fn test_served_dir_not_found_path_uses_custom_hash_function() {
    let mut context = TestContext::new();
    context.write_file("404.html", "custom 404 content");
    context.hasher = fixed_hash;
    let mut served_dir = with_page(&context);
    match err(context.get(&mut served_dir, "missing.txt", &HeaderMap::new())) {
        SerdirError::NotFound(Some(entity)) => {
            let etag = entity.etag.expect("etag should be present");
            let etag_val: HeaderValue = etag.into();
            assert_eq!(etag_val.to_str().unwrap(), r#""0000000000001234""#);
        }
        e => panic!("expected NotFound(Some(_)), got {}", e.message()),
    }
}

#[test]
fn test_served_dir_etag_cache_is_used() {
    let mut context = TestContext::new();
    context.write_file("test.txt", "content");
    context.hasher = fixed_hash;
    let mut served_dir = context.builder().build();
    let hdrs = HeaderMap::new();

    // First call should trigger hasher
    ok(context.get(&mut served_dir, "test.txt", &hdrs));
    assert_eq!(context.hashed, 1);

    // Second call should use cached value
    ok(context.get(&mut served_dir, "test.txt", &hdrs));
    assert_eq!(context.hashed, 1);
}

#[test]
fn test_served_dir_custom_extensions() {
    let mut context = TestContext::new();
    context.write_file("test.custom", "custom content");
    context.write_file("another.thing", "thing content");
    context.write_file("test.html", "html content");

    let custom_extensions =
        vec![("custom".to_string(), HeaderValue::from_static("text/custom"))];

    let mut served_dir = context
        .builder()
        .known_extensions(custom_extensions)
        .known_extension("thing".to_string(), HeaderValue::from_static("application/thing"))
        .build();
    let hdrs = HeaderMap::new();

    // 1. Verify known_extensions works
    let e = ok(context.get(&mut served_dir, "test.custom", &hdrs));
    assert_eq!(e.header(&header::CONTENT_TYPE).unwrap(), "text/custom");

    // 2. Verify known_extension works
    let e = ok(context.get(&mut served_dir, "another.thing", &hdrs));
    assert_eq!(e.header(&header::CONTENT_TYPE).unwrap(), "application/thing");

    // 3. Verify defaults are gone because known_extensions replaced the map
    let e = ok(context.get(&mut served_dir, "test.html", &hdrs));
    assert_eq!(e.header(&header::CONTENT_TYPE).unwrap(), "application/octet-stream");
}

#[test]
fn a_later_extension_replaces_an_earlier_one() {
    let mut context = TestContext::new();
    context.write_file("a.html", "a");
    context.write_file("b.foo", "b");
    let mut served_dir = context
        .builder()
        .known_extension("html".to_string(), HeaderValue::from_static("text/other"))
        .default_content_type(HeaderValue::from_static("text/default"))
        .build();
    let hdrs = HeaderMap::new();
    let e = ok(context.get(&mut served_dir, "a.html", &hdrs));
    assert_eq!(e.header(&header::CONTENT_TYPE).unwrap(), "text/other");
    let e = ok(context.get(&mut served_dir, "b.foo", &hdrs));
    assert_eq!(e.header(&header::CONTENT_TYPE).unwrap(), "text/default");
}

#[test]
fn paths_are_cleaned_up() {
    let context = TestContext::new();
    let served_dir = context.builder().build();
    for path in vec!["a/b.txt", "/a/b.txt", "a//b.txt", "./a/./b.txt", "a/b.txt/"] {
        match served_dir.begin(path, &accept("br")) {
            Ok(lookup) => {
                assert_eq!(lookup.path, b"/srv/www/a/b.txt");
                assert_eq!(lookup.stage, Stage::Requested);
                assert!(lookup.preferred.brotli());
            }
            Err(e) => panic!("{}", e.message()),
        }
    }
    assert_eq!(resolve_below(Platform::Unix, b"", b"a/b"), Ok(b"a/b".to_vec()));
    assert_eq!(resolve_below(Platform::Unix, b"r/", b"a"), Ok(b"r/a".to_vec()));
    assert_eq!(resolve_below(Platform::Unix, b"r", b"."), Ok(b"r".to_vec()));
    assert_eq!(resolve_below(Platform::Unix, b"r", b"a/...b"), Ok(b"r/a/...b".to_vec()));
    assert_eq!(resolve_below(Platform::Unix, b"r", b"a/.."), Err("path contains .. segment"));
    assert_eq!(resolve_below(Platform::Unix, b"r", b"/a"), Err("path is absolute"));
}

#[test]
fn extensions_of_paths() {
    assert_eq!(extension(b"a/b.tar.gz"), b"gz");
    assert_eq!(extension(b"a.b/c"), b"");
    assert_eq!(extension(b"a/.bashrc"), b"");
    assert_eq!(extension(b"a/b."), b"");
    assert_eq!(extension(b"a/.."), b"");
    assert_eq!(extension(b"a/b.c/"), b"c");
    assert_eq!(append_extension(b"a/b.html", b"br"), b"a/b.html.br");
    assert_eq!(append_extension(b"a/b/", b"gz"), b"a/b.gz");
    assert_eq!(append_extension(b"a/..", b"gz"), b"a/..");
}

fn respond(context: &mut TestContext, dir: &mut ServedDir, path: &str) -> (StatusCode, String) {
    let hdrs = HeaderMap::new();
    let result = context.get(dir, path, &hdrs);
    let resp = ServedDir::get_response(result, &Method::GET, &hdrs, now());
    (resp.status, text_of(resp.body))
}

#[test]
fn test_served_dir_service() {
    let mut context = TestContext::new();
    context.write_file("index.html", "Hello, world!");
    let mut dir = context.builder().build();
    let (status, body) = respond(&mut context, &mut dir, "/index.html");
    assert_eq!(status, StatusCode::OK);
    assert_eq!(body, "Hello, world!");
}

#[test]
fn test_not_found() {
    let mut context = TestContext::new();
    let mut dir = context.builder().build();
    let (status, body) = respond(&mut context, &mut dir, "/missing.txt");
    assert_eq!(status, StatusCode::NOT_FOUND);
    assert_eq!(body, "Not Found");
}

#[test]
fn test_directory_handling() {
    let mut context = TestContext::new();
    context.create_dir("subdir");
    let mut dir = context.builder().build();
    let (status, _) = respond(&mut context, &mut dir, "/subdir");
    assert_eq!(status, StatusCode::NOT_FOUND);
}

#[test]
fn test_hyper_service_serves_file() {
    let mut context = TestContext::new();
    context.write_file("index.html", "Hello, hyper!");
    let mut dir = context.builder().build();
    let (status, body) = respond(&mut context, &mut dir, "/index.html");
    assert_eq!(status, StatusCode::OK);
    assert_eq!(body, "Hello, hyper!");
}

#[test]
fn test_hyper_service_not_found() {
    let mut context = TestContext::new();
    let mut dir = context.builder().build();
    let (status, _) = respond(&mut context, &mut dir, "/missing.txt");
    assert_eq!(status, StatusCode::NOT_FOUND);
}

#[test]
fn test_hyper_service_directory_handling() {
    let mut context = TestContext::new();
    context.create_dir("subdir");
    let mut dir = context.builder().build();
    let (status, _) = respond(&mut context, &mut dir, "/subdir");
    assert_eq!(status, StatusCode::NOT_FOUND);
}

#[test]
fn a_slash_behind_the_prefix_makes_no_difference() {
    let context = TestContext::new();
    let dir = context.builder().strip_prefix("/static".to_string()).build();
    let with = dir.begin("/static/one.txt", &HeaderMap::new()).ok().unwrap();
    let without = dir.begin("/staticone.txt", &HeaderMap::new()).ok().unwrap();
    assert_eq!(with.path, without.path);
    let plain = context.builder().build();
    let slash = plain.begin("/one.txt", &HeaderMap::new()).ok().unwrap();
    let bare = plain.begin("one.txt", &HeaderMap::new()).ok().unwrap();
    assert_eq!(slash.path, bare.path);
    assert_eq!(slash.path, with.path);
}

#[test]
fn failures_are_reported_by_status() {
    let mut context = TestContext::new();
    context.write_file("a.txt", "a");
    context.write_file("404.html", "custom 404");
    context.hasher = hash_error;
    let mut dir = context.builder().build();
    assert_eq!(
        respond(&mut context, &mut dir, "/a.txt"),
        (StatusCode::INTERNAL_SERVER_ERROR, "Internal Server Error".to_string())
    );
    assert_eq!(
        respond(&mut context, &mut dir, "/../a.txt"),
        (StatusCode::BAD_REQUEST, "Bad Request".to_string())
    );
    context.hasher = fixed_hash;
    let mut dir = with_page(&context);
    assert_eq!(
        respond(&mut context, &mut dir, "/missing.txt"),
        (StatusCode::NOT_FOUND, "custom 404".to_string())
    );
    let resp = ServedDir::make_status_response(StatusCode::from_u16(799).unwrap());
    assert_eq!(resp.status, 799);
    assert_eq!(text_of(resp.body), "Unknown");
}

fn middleware(context: &mut TestContext, dir: &mut ServedDir, path: &str) -> Option<(u16, String)> {
    let hdrs = HeaderMap::new();
    let result = context.get(dir, path, &hdrs);
    match try_middleware_action(result, &Method::GET, &hdrs, now()) {
        Some(MiddlewareAction::Respond(resp)) => Some((resp.status.as_u16(), text_of(resp.body))),
        Some(MiddlewareAction::PassOn) => None,
        None => panic!("the dates have an HTTP form"),
    }
}

#[test]
fn test_layer_serves_file_without_fallback() {
    let mut context = TestContext::new();
    context.write_file("index.html", "Hello, layer!");
    let mut dir = context.builder().build();
    assert_eq!(
        middleware(&mut context, &mut dir, "/index.html"),
        Some((200, "Hello, layer!".to_string()))
    );
}

#[test]
fn test_layer_falls_through_on_not_found() {
    let mut context = TestContext::new();
    context.create_dir("subdir");
    let mut dir = context.builder().build();
    assert_eq!(middleware(&mut context, &mut dir, "/missing.txt"), None);
    assert_eq!(middleware(&mut context, &mut dir, "/subdir"), None);
}

#[test]
fn test_layer_falls_through_on_invalid_path() {
    let mut context = TestContext::new();
    let mut dir = context.builder().build();
    assert_eq!(middleware(&mut context, &mut dir, "/../secret.txt"), None);
}

#[test]
fn test_layer_uses_not_found_path_instead_of_fallback() {
    let mut context = TestContext::new();
    context.write_file("404.html", "custom 404");
    let mut dir = with_page(&context);
    assert_eq!(
        middleware(&mut context, &mut dir, "/missing.txt"),
        Some((404, "custom 404".to_string()))
    );
}

#[test]
fn layer_reports_internal_errors() {
    let mut context = TestContext::new();
    context.write_file("a.txt", "a");
    context.hasher = hash_error;
    let mut dir = context.builder().build();
    assert_eq!(
        middleware(&mut context, &mut dir, "/a.txt"),
        Some((500, "Internal Server Error".to_string()))
    );
}

#[test]
fn test_metrics_recorded() {
    let mut context = TestContext::new();
    context.write_file("index.html", "test file");
    let mut dir = context.builder().build();
    let hdrs = HeaderMap::new();
    let result = context.get(&mut dir, "/index.html", &hdrs);
    let resp = ServedDir::get_response(result, &Method::GET, &hdrs, now());
    let record = record_request(&resp.status, &resp.headers);
    assert_eq!(record.status, "200");
    assert_eq!(record.content_type, "text/html");
    assert_eq!(record.encoding, "identity");
    assert_eq!(record.size, 9);

    let (before, after) = record_brotli_compression(100, 40);
    assert_eq!(before.name, "serdir.brotli_size_before_bytes");
    assert_eq!(before.amount, 100);
    assert_eq!(after.name, "serdir.brotli_size_after_bytes");
    assert_eq!(after.amount, 40);
    assert_eq!(record_cache_access(true).name, "serdir.resource_cache_hits");
    assert_eq!(record_cache_access(false).name, "serdir.resource_cache_misses");
    assert_eq!(record_cache_access(true).amount, 1);
}

#[test]
fn metrics_defaults() {
    let mut hdrs = HeaderMap::new();
    let record = record_request(&StatusCode::NOT_FOUND, &hdrs);
    assert_eq!(record.status, "404");
    assert_eq!(record.content_type, "unknown");
    assert_eq!(record.size, 0);
    hdrs.insert(header::CONTENT_LENGTH, HeaderValue::from_static("12x"));
    hdrs.insert(header::CONTENT_TYPE, HeaderValue::from_bytes(b"\xff").unwrap());
    hdrs.insert(header::CONTENT_ENCODING, HeaderValue::from_static("br"));
    let record = record_request(&StatusCode::OK, &hdrs);
    assert_eq!(record.content_type, "unknown");
    assert_eq!(record.encoding, "br");
    assert_eq!(record.size, 0);
    hdrs.insert(header::CONTENT_LENGTH, HeaderValue::from_static("18446744073709551615"));
    assert_eq!(record_request(&StatusCode::OK, &hdrs).size, u64::MAX);
}
