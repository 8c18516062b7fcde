# serdir

Tools for serving directories of static files over HTTP, with proved contracts.

The library under `src/` decides: it turns the head of a request and the metadata of a file
into the head of a response and a plan for its body, says which files to look for, and keeps
the caches. Every function has a contract that [Verus](https://github.com/verus-lang/verus)
proves. What is used of other crates and of the standard library is described in a few
trusted declarations, each next to the code that uses it; `headers.rs`, `clock.rs`,
`buffer.rs` and `io.rs` hold most of them.

The crate under `app/` does the rest: it opens and reads files, compresses them, sends
responses, and offers services for hyper and tower.

- Conditional requests, range requests and multipart responses: `serving.rs`, `etag.rs`,
  `range.rs`, `body.rs`, `stream.rs`. What holds of all responses is stated in `laws.rs`.
- Paths, content types and compressed versions of files: `served_dir.rs`, `path.rs`,
  `content_types.rs`, `compression.rs`.
- Caches: `etag_cache.rs`, `brotli_cache.rs`, `resource_cache.rs`.
