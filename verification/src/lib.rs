//! Tools for serving directories of static files over HTTP.
//!
//! The library decides; whoever uses it reads and sends. It turns the head of a request and
//! the metadata of a file into the head of a response and a plan for its body, says which
//! files to look for, and keeps the caches. Opening files, reading them and sending
//! responses is left to the caller.
//!
//! - [`serving`] answers requests for a [`Resource`]: conditional requests, range requests,
//!   and the response head. [`laws`], [`conditional_laws`] and [`response_laws`] state what
//!   holds of the responses.
//! - [`body`] and [`stream`] hand out the body of a response piece by piece.
//! - [`served_dir`] maps request paths to files, with [`path`], [`content_types`] and
//!   [`compression`]. What holds of these is stated in [`directory_laws`], [`path_laws`] and
//!   [`encoding_laws`].
//! - [`etag_cache`], [`brotli_cache`] and [`resource_cache`] keep entity tags, compressed
//!   files and resources.
//! - [`etag`], [`range`] and [`text`] parse and format header values. [`etag_laws`] and
//!   [`range_laws`] state what the values stand for.
//! - [`headers`], [`clock`], [`buffer`] and [`io`] describe what is used of other crates and
//!   of the standard library.

pub mod body;
pub mod brotli_cache;
pub mod buffer;
pub mod clock;
pub mod compression;
pub mod conditional_laws;
pub mod content_types;
pub mod directory_laws;
pub mod encoding_laws;
pub mod error;
pub mod etag;
pub mod etag_cache;
pub mod etag_laws;
pub mod eviction;
pub mod file_info;
pub mod headers;
pub mod integration;
pub mod io;
pub mod laws;
pub mod metrics;
pub mod path;
pub mod path_laws;
pub mod platform;
pub mod range;
pub mod range_laws;
pub mod resource;
pub mod resource_cache;
pub mod served_dir;
pub mod response_laws;
pub mod serving;
pub mod stream;
pub mod text;

pub use crate::body::Body;
pub use crate::error::SerdirError;
pub use crate::etag::ETag;
pub use crate::resource::{Resource, ResourceBuilder};
pub use crate::served_dir::{ServedDir, ServedDirBuilder};
