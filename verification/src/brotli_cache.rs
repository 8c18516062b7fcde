//! Runtime compression with Brotli, and a cache of the compressed files.
//!
//! Compressing a file takes reading and writing files, which is left to the caller:
//! [`BrotliCache::get`] is told what has happened, and says what to do next.

use crate::compression::{ContentEncoding, MatchedFile};
use crate::error::SerdirError;
use crate::eviction::{holds_at_most, is_put};
use crate::file_info::{key_words, FileInfo};
use crate::io::{error_kind, io_error_kind, IoErrorKind};
use crate::path::{extension, extension_of};
use crate::text::{same, text, to_vec};
use fixed_cache::Cache;
use std::hash::DefaultHasher;
use std::io::Error;
use std::time::SystemTime;
use vstd::arithmetic::power2::pow2;
use vstd::bytes::{
    lemma_auto_spec_u64_to_from_le_bytes, spec_u64_from_le_bytes, spec_u64_to_le_bytes,
    u64_from_le_bytes, u64_to_le_bytes,
};
use vstd::prelude::*;
use vstd::std_specs::hash::DefaultHasherAdditionalSpecFns;

verus! {

/// A concurrent cache of compressed files: a `fixed_cache::Cache` from the metadata of the
/// original file to what is known of the compressed one.
#[verifier::external_body]
pub struct CompressedFiles {
    cache: Cache<[u64; 5], (u64, u64, SystemTime, Vec<u8>)>,
}

/// What a cache of compressed files holds. A key is the metadata of the original file; a
/// value is the handle, the length, the modification time and the extension of the
/// compressed one.
pub uninterp spec fn compressed_files(files: CompressedFiles) -> Map<
    Seq<u64>,
    (u64, u64, SystemTime, Seq<u8>),
>;

/// The size with which a cache of compressed files was made.
pub uninterp spec fn files_capacity(files: CompressedFiles) -> nat;

/// What an empty cache holds.
pub open spec fn no_files() -> Map<Seq<u64>, (u64, u64, SystemTime, Seq<u8>)> {
    Map::empty()
}

/// Whether a number is a power of two.
pub open spec fn is_power_of_two(n: nat) -> bool {
    exists|k: nat| #[trigger] pow2(k) == n
}

/// The largest size of a cache that is asked for here.
pub const MAX_FILES: usize = 65_536;

/// Makes an empty cache with `fixed_cache::Cache::new`, which panics unless the size is a
/// power of two and at least 4, and if there is no room for it in memory.
#[verifier::external_body]
fn new_files(size: usize) -> (r: CompressedFiles)
    requires
        4 <= size <= MAX_FILES,
        is_power_of_two(size as nat),
    ensures
        compressed_files(r) == no_files(),
        files_capacity(r) == size,
{
    CompressedFiles { cache: Cache::new(size, Default::default()) }
}

/// Looks a file up with `fixed_cache::Cache::get`. With the cache to itself, it finds what
/// is there; the cache stays as it is.
#[verifier::external_body]
fn get_file(files: &mut CompressedFiles, key: [u64; 5]) -> (r: Option<
    (u64, u64, SystemTime, Vec<u8>),
>)
    ensures
        compressed_files(*final(files)) == compressed_files(*old(files)),
        files_capacity(*final(files)) == files_capacity(*old(files)),
        match r {
            Some(v) => compressed_files(*old(files)).contains_key(key@) && compressed_files(
                *old(files),
            )[key@] == (v.0, v.1, v.2, v.3@),
            None => !compressed_files(*old(files)).contains_key(key@),
        },
{
    files.cache.get(&key)
}

/// Puts a file in with `fixed_cache::Cache::insert`. With the cache to itself, the file is
/// there afterwards. If the key is new, one other may have to make room for it; all others
/// stay as they are. There are never more files than the size of the cache, because it has
/// that many places, and each holds at most one.
#[verifier::external_body]
fn insert_file(
    files: &mut CompressedFiles,
    key: [u64; 5],
    value: (u64, u64, SystemTime, Vec<u8>),
)
    ensures
        is_put(
            compressed_files(*old(files)),
            key@,
            (value.0, value.1, value.2, value.3@),
            compressed_files(*final(files)),
        ),
        files_capacity(*final(files)) == files_capacity(*old(files)),
        holds_at_most(compressed_files(*final(files)), files_capacity(*final(files))),
{
    files.cache.insert(key, value)
}

/// Empties a cache with `fixed_cache::Cache::clear_slow`.
#[verifier::external_body]
fn clear_files(files: &mut CompressedFiles)
    ensures
        compressed_files(*final(files)) == no_files(),
        files_capacity(*final(files)) == files_capacity(*old(files)),
{
    files.cache.clear_slow()
}

/// The names of the extensions that are compressed unless others are chosen.
pub open spec fn default_text_types() -> Seq<Seq<char>> {
    seq![
        "html"@,
        "htm"@,
        "xhtml"@,
        "css"@,
        "js"@,
        "json"@,
        "xml"@,
        "svg"@,
        "txt"@,
        "csv"@,
        "tsv"@,
        "md"@,
    ]
}

/// The texts of a list of strings.
pub open spec fn texts(list: Seq<&'static str>) -> Seq<Seq<char>> {
    list.map_values(|s: &'static str| s@)
}

/// The extensions that are compressed unless others are chosen.
fn default_types() -> (r: Vec<&'static str>)
    ensures
        texts(r@) == default_text_types(),
{
    let r: Vec<&'static str> = vec![
        "html", "htm", "xhtml", "css", "js", "json", "xml", "svg", "txt", "csv", "tsv", "md",
    ];
    assert(texts(r@) =~= default_text_types());
    r
}

/// Builder for [`BrotliCache`].
pub struct BrotliCacheBuilder {
    /// The number of items in the cache.
    pub cache_size: u16,
    /// The compression level.
    pub compression_level: u8,
    /// The file extensions to compress, or `None` for the usual text types.
    pub supported_extensions: Option<Vec<&'static str>>,
    /// The length of the longest file to compress.
    pub max_file_size: u64,
}

impl BrotliCacheBuilder {
    /// Whether the settings are valid.
    pub open spec fn wf(self) -> bool {
        &&& self.cache_size >= 4
        &&& is_power_of_two(self.cache_size as nat)
        &&& self.compression_level <= 11
    }

    /// Returns a builder with the default settings.
    pub fn new() -> (r: Self)
        ensures
            r.cache_size == 128,
            r.compression_level == 3,
            r.supported_extensions is None,
            r.max_file_size == u64::MAX,
            r.wf(),
    {
        proof {
            vstd::arithmetic::power2::lemma2_to64();
            assert(pow2(7) == 128);
        }
        BrotliCacheBuilder {
            cache_size: 128,
            compression_level: 3,
            supported_extensions: None,
            max_file_size: u64::MAX,
        }
    }

    /// Sets the maximum number of items in the cache, which is a power of two and at
    /// least 4.
    pub fn cache_size(self, size: u16) -> (r: Self)
        requires
            size >= 4,
            is_power_of_two(size as nat),
        ensures
            r == (BrotliCacheBuilder { cache_size: size, ..self }),
    {
        BrotliCacheBuilder { cache_size: size, ..self }
    }

    /// Sets the compression level, from 0 to 11.
    pub fn compression_level(self, level: u8) -> (r: Self)
        requires
            level <= 11,
        ensures
            r == (BrotliCacheBuilder { compression_level: level, ..self }),
    {
        BrotliCacheBuilder { compression_level: level, ..self }
    }

    /// Sets the file extensions that are eligible for compression. `None` stands for the
    /// usual text types.
    pub fn supported_extensions(self, extensions: Option<Vec<&'static str>>) -> (r: Self)
        ensures
            r == (BrotliCacheBuilder { supported_extensions: extensions, ..self }),
    {
        BrotliCacheBuilder { supported_extensions: extensions, ..self }
    }

    /// Sets the maximum file size for compression. Larger files are served in their
    /// original form.
    pub fn max_file_size(self, size: u64) -> (r: Self)
        ensures
            r == (BrotliCacheBuilder { max_file_size: size, ..self }),
    {
        BrotliCacheBuilder { max_file_size: size, ..self }
    }

    /// Builds the cache.
    pub fn build(self) -> (r: BrotliCache)
        requires
            self.wf(),
        ensures
            r@ == initial(self),
    {
        BrotliCache::new(self)
    }
}

impl Default for BrotliCacheBuilder {
    fn default() -> (r: Self)
        ensures
            r.cache_size == 128,
            r.compression_level == 3,
            r.supported_extensions is None,
            r.max_file_size == u64::MAX,
            r.wf(),
    {
        BrotliCacheBuilder::new()
    }
}

/// What the compressor is told about its input.
#[derive(Copy, Clone, Debug, PartialEq, Eq, Structural)]
pub enum BrotliMode {
    /// It is text.
    Text,
    /// It may be anything.
    Generic,
}

/// How to compress a file.
#[derive(Copy, Clone, Debug, PartialEq, Eq, Structural)]
pub struct BrotliParams {
    /// The compression level.
    pub quality: i32,
    /// What the compressor is told about its input.
    pub mode: BrotliMode,
    /// The length of the input, if it fits.
    pub size_hint: Option<usize>,
}

/// A file that has been compressed.
#[derive(Copy, Clone)]
pub struct CompressedFile {
    /// The handle by which the caller finds the file again.
    pub file: u64,
    /// The length of the file.
    pub len: u64,
    /// The last modification time of the file.
    pub mtime: SystemTime,
}

/// What has happened in the course of serving a file.
pub enum BrotliEvent {
    /// The file has been asked for.
    Asked,
    /// The metadata of the file has been read, or could not be read.
    Inspected(Result<FileInfo, SerdirError>),
    /// The file with the given metadata has been compressed, or could not be compressed.
    Compressed(FileInfo, Result<CompressedFile, Error>),
    /// The file has been compressed, but its metadata could not be read.
    Unreadable(Error),
}

/// What to do next in the course of serving a file.
pub enum BrotliStep {
    /// Serve the original file.
    Original,
    /// Read the metadata of the file.
    Inspect,
    /// Compress the file.
    Compress(BrotliParams),
    /// Serve this compressed file.
    Serve(MatchedFile),
}

/// The state of a [`BrotliCache`].
#[verifier::ext_equal]
pub struct BrotliCacheView {
    /// The compressed files.
    pub files: Map<Seq<u64>, (u64, u64, SystemTime, Seq<u8>)>,
    /// The maximum number of compressed files.
    pub capacity: nat,
    /// The compression level.
    pub quality: u8,
    /// The extensions of the files to compress.
    pub supported: Seq<Seq<char>>,
    /// The length of the longest file to compress.
    pub max_file_size: u64,
}

/// The state of a new cache.
pub open spec fn initial(builder: BrotliCacheBuilder) -> BrotliCacheView {
    BrotliCacheView {
        files: no_files(),
        capacity: builder.cache_size as nat,
        quality: builder.compression_level,
        supported: match builder.supported_extensions {
            Some(list) => texts(list@),
            None => default_text_types(),
        },
        max_file_size: builder.max_file_size,
    }
}

/// A number with its eight bytes in reverse order.
pub open spec fn swapped(n: u64) -> u64 {
    spec_u64_from_le_bytes(spec_u64_to_le_bytes(n).reverse())
}

/// Reversing the bytes twice gives the number back, so that different numbers stay
/// different.
pub proof fn swapping_is_reversible(n: u64)
    ensures
        swapped(swapped(n)) == n,
{
    lemma_auto_spec_u64_to_from_le_bytes();
    let bytes = spec_u64_to_le_bytes(n);
    assert(bytes.reverse().reverse() =~= bytes);
}

/// Reverses the eight bytes of a number.
fn swap_bytes(n: u64) -> (r: u64)
    ensures
        r == swapped(n),
{
    let bytes = u64_to_le_bytes(n);
    let mut reversed: Vec<u8> = Vec::new();
    let mut i: usize = 0;
    while i < 8
        invariant
            i <= 8,
            bytes@.len() == 8,
            reversed@ == bytes@.reverse().take(i as int),
        decreases 8 - i,
    {
        reversed.push(bytes[7 - i]);
        i += 1;
        assert(reversed@ =~= bytes@.reverse().take(i as int));
    }
    assert(reversed@ =~= bytes@.reverse());
    u64_from_le_bytes(reversed.as_slice())
}

impl BrotliCacheView {
    /// Whether files with an extension are compressed.
    pub open spec fn supports(self, extension: Seq<u8>) -> bool {
        exists|i: int|
            0 <= i < self.supported.len() && text(#[trigger] self.supported[i]) == extension
    }

    /// How a file with the given extension and metadata is compressed.
    pub open spec fn params(self, extension: Seq<u8>, info: FileInfo) -> BrotliParams {
        BrotliParams {
            quality: self.quality as i32,
            mode: if self.supports(extension) {
                BrotliMode::Text
            } else {
                BrotliMode::Generic
            },
            size_hint: if info.len <= usize::MAX {
                Some(info.len as usize)
            } else {
                None
            },
        }
    }

    /// Whether `matched` stands for a compressed file in the cache. It has no path of its
    /// own; the hash of the metadata of the original, with its bytes reversed, stands in
    /// for the hash of a path.
    pub open spec fn is_match(self, info: FileInfo, matched: MatchedFile) -> bool {
        let (file, len, mtime, extension) = self.files[key_words(info)];
        &&& matched.file == file
        &&& matched.file_info == (FileInfo {
            path_hash: swapped(DefaultHasher::spec_finish(info.hash_input())),
            len,
            mtime,
        })
        &&& matched.content_encoding == ContentEncoding::Brotli
        &&& matched.extension@ == extension
    }
}

/// Whether `r` is what is to be done next in the course of serving the file at `path`, after
/// `event`, and the cache goes from `before` to `after`.
pub open spec fn is_step(
    before: BrotliCacheView,
    path: Seq<char>,
    event: BrotliEvent,
    after: BrotliCacheView,
    r: Result<BrotliStep, SerdirError>,
) -> bool {
    let extension = extension_of(text(path));
    &&& after.capacity == before.capacity
    &&& after.quality == before.quality
    &&& after.supported == before.supported
    &&& after.max_file_size == before.max_file_size
    &&& match event {
        BrotliEvent::Asked => {
            &&& after == before
            &&& r == Ok::<BrotliStep, SerdirError>(
                if before.supports(extension) {
                    BrotliStep::Inspect
                } else {
                    BrotliStep::Original
                },
            )
        },
        BrotliEvent::Inspected(Err(e)) => {
            &&& after == before
            &&& r == Err::<BrotliStep, SerdirError>(e)
        },
        BrotliEvent::Inspected(Ok(info)) => {
            &&& after == before
            &&& if info.len > before.max_file_size {
                r == Ok::<BrotliStep, SerdirError>(BrotliStep::Original)
            } else if before.files.contains_key(key_words(info)) {
                r matches Ok(BrotliStep::Serve(matched)) && before.is_match(info, matched)
            } else {
                r == Ok::<BrotliStep, SerdirError>(
                    BrotliStep::Compress(before.params(extension, info)),
                )
            }
        },
        BrotliEvent::Compressed(info, Ok(compressed)) => {
            &&& is_put(
                before.files,
                key_words(info),
                (compressed.file, compressed.len, compressed.mtime, extension),
                after.files,
            )
            &&& holds_at_most(after.files, after.capacity)
            &&& r matches Ok(BrotliStep::Serve(matched)) && after.is_match(info, matched)
        },
        BrotliEvent::Compressed(_, Err(e)) => if io_error_kind(e) == IoErrorKind::StorageFull {
            &&& after.files == no_files()
            &&& r == Ok::<BrotliStep, SerdirError>(BrotliStep::Original)
        } else {
            &&& after == before
            &&& r matches Err(SerdirError::CompressionError(msg, cause)) && msg@
                == "Brotli compression failed for "@ + path && cause == e
        },
        BrotliEvent::Unreadable(e) => {
            &&& after == before
            &&& r matches Err(err) && err.comes_from(e)
        },
    }
}

/// There are never more compressed files than the chosen number: a new cache has none, and
/// nothing that happens makes it hold more.
pub proof fn the_brotli_cache_keeps_to_its_size(
    builder: BrotliCacheBuilder,
    before: BrotliCacheView,
    path: Seq<char>,
    event: BrotliEvent,
    after: BrotliCacheView,
    r: Result<BrotliStep, SerdirError>,
)
    requires
        holds_at_most(before.files, before.capacity),
        is_step(before, path, event, after, r),
    ensures
        holds_at_most(initial(builder).files, initial(builder).capacity),
        holds_at_most(after.files, after.capacity),
{
}

/// A file of a supported extension that is not too large is served in compressed form: it is
/// found in the cache, or compressed at the chosen level and then served, under its own
/// extension and with the length of the compressed file.
pub proof fn supported_files_are_served_compressed(
    v0: BrotliCacheView,
    v1: BrotliCacheView,
    v2: BrotliCacheView,
    v3: BrotliCacheView,
    path: Seq<char>,
    info: FileInfo,
    compressed: CompressedFile,
    r1: Result<BrotliStep, SerdirError>,
    r2: Result<BrotliStep, SerdirError>,
    r3: Result<BrotliStep, SerdirError>,
)
    requires
        v0.supports(extension_of(text(path))),
        info.len <= v0.max_file_size,
        is_step(v0, path, BrotliEvent::Asked, v1, r1),
        is_step(v1, path, BrotliEvent::Inspected(Ok(info)), v2, r2),
        is_step(v2, path, BrotliEvent::Compressed(info, Ok(compressed)), v3, r3),
    ensures
        r1 == Ok::<BrotliStep, SerdirError>(BrotliStep::Inspect),
        if v0.files.contains_key(key_words(info)) {
            r2 matches Ok(BrotliStep::Serve(matched)) && matched.content_encoding
                == ContentEncoding::Brotli
        } else {
            r2 matches Ok(BrotliStep::Compress(params)) && params.quality == v0.quality
                && params.mode == BrotliMode::Text
        },
        r3 matches Ok(BrotliStep::Serve(matched)) && matched.content_encoding
            == ContentEncoding::Brotli && matched.file == compressed.file && matched.file_info.len
            == compressed.len && matched.extension@ == extension_of(text(path)),
{
}

/// A file that has just been compressed is not compressed again: the next time that it is
/// asked for, unchanged, the same compressed file is served.
pub proof fn compressed_files_are_reused(
    v0: BrotliCacheView,
    v1: BrotliCacheView,
    v2: BrotliCacheView,
    path: Seq<char>,
    info: FileInfo,
    compressed: CompressedFile,
    r1: Result<BrotliStep, SerdirError>,
    r2: Result<BrotliStep, SerdirError>,
)
    requires
        info.len <= v0.max_file_size,
        is_step(v0, path, BrotliEvent::Compressed(info, Ok(compressed)), v1, r1),
        is_step(v1, path, BrotliEvent::Inspected(Ok(info)), v2, r2),
    ensures
        r1 matches Ok(BrotliStep::Serve(first)) && r2 matches Ok(BrotliStep::Serve(second))
            && first.file == compressed.file && second.file == compressed.file && second.file_info
            == first.file_info && second.content_encoding == first.content_encoding
            && second.extension@ == first.extension@,
{
}

/// A file that has changed since it was compressed is compressed anew, unless the new
/// version is in the cache too.
pub proof fn changed_files_are_compressed_anew(
    v0: BrotliCacheView,
    v1: BrotliCacheView,
    v2: BrotliCacheView,
    path: Seq<char>,
    old_info: FileInfo,
    new_info: FileInfo,
    compressed: CompressedFile,
    r1: Result<BrotliStep, SerdirError>,
    r2: Result<BrotliStep, SerdirError>,
)
    requires
        new_info.len <= v0.max_file_size,
        key_words(new_info) != key_words(old_info),
        !v0.files.contains_key(key_words(new_info)),
        is_step(v0, path, BrotliEvent::Compressed(old_info, Ok(compressed)), v1, r1),
        is_step(v1, path, BrotliEvent::Inspected(Ok(new_info)), v2, r2),
    ensures
        r2 matches Ok(BrotliStep::Compress(_)),
{
}

/// Whether what a cache holds stands for the files that it was made of. `original` gives the
/// content of a file by its metadata, `stored` that of a compressed file by its handle, and
/// `decompress` what a compressed content decompresses to: each compressed file decompresses to
/// the content of its original, and has the length that is kept with it.
pub open spec fn is_faithful(
    files: Map<Seq<u64>, (u64, u64, SystemTime, Seq<u8>)>,
    original: Map<Seq<u64>, Seq<u8>>,
    stored: Map<u64, Seq<u8>>,
    decompress: spec_fn(Seq<u8>) -> Option<Seq<u8>>,
) -> bool {
    forall|key: Seq<u64>| #[trigger]
        files.contains_key(key) ==> decompress(stored[files[key].0]) == Some(original[key])
            && stored[files[key].0].len() == files[key].1
}

/// What is served for a file decompresses to the content of that file, whether it has just been
/// compressed or was compressed before, and whatever the compression level is. This rests on the
/// compressor alone: `decompress` undoes what it does, so that each file that it hands in
/// decompresses to the content of its original. A new cache holds nothing, and each step keeps
/// what the cache holds faithful.
pub proof fn served_files_decompress_to_the_original(
    builder: BrotliCacheBuilder,
    before: BrotliCacheView,
    path: Seq<char>,
    event: BrotliEvent,
    after: BrotliCacheView,
    r: Result<BrotliStep, SerdirError>,
    original: Map<Seq<u64>, Seq<u8>>,
    stored: Map<u64, Seq<u8>>,
    decompress: spec_fn(Seq<u8>) -> Option<Seq<u8>>,
)
    requires
        is_step(before, path, event, after, r),
        is_faithful(before.files, original, stored, decompress),
        event matches BrotliEvent::Compressed(info, Ok(compressed)) ==> decompress(
            stored[compressed.file],
        ) == Some(original[key_words(info)]) && stored[compressed.file].len() == compressed.len,
    ensures
        is_faithful(initial(builder).files, original, stored, decompress),
        is_faithful(after.files, original, stored, decompress),
        match event {
            BrotliEvent::Inspected(Ok(info)) => r matches Ok(BrotliStep::Serve(matched)) ==> {
                &&& decompress(stored[matched.file]) == Some(original[key_words(info)])
                &&& matched.content_encoding == ContentEncoding::Brotli
                &&& matched.file_info.len == stored[matched.file].len()
            },
            BrotliEvent::Compressed(info, Ok(_)) => {
                &&& r matches Ok(BrotliStep::Serve(matched)) && decompress(stored[matched.file])
                    == Some(original[key_words(info)]) && matched.content_encoding
                    == ContentEncoding::Brotli && matched.file_info.len
                    == stored[matched.file].len() && matched.extension@ == extension_of(text(path))
            },
            _ => !(r matches Ok(BrotliStep::Serve(_))),
        },
{
    if let BrotliEvent::Compressed(info, Ok(compressed)) = event {
        assert(after.files.contains_key(key_words(info)));
        assert forall|key: Seq<u64>| #[trigger] after.files.contains_key(key) implies decompress(
            stored[after.files[key].0],
        ) == Some(original[key]) && stored[after.files[key].0].len() == after.files[key].1 by {
            if key != key_words(info) {
                assert(before.files.contains_key(key));
            }
        }
    }
}

/// Creates and reuses Brotli-compressed versions of files.
pub struct BrotliCache {
    files: CompressedFiles,
    quality: u8,
    supported_extensions: Vec<&'static str>,
    max_file_size: u64,
}

impl View for BrotliCache {
    type V = BrotliCacheView;

    closed spec fn view(&self) -> BrotliCacheView {
        BrotliCacheView {
            files: compressed_files(self.files),
            capacity: files_capacity(self.files),
            quality: self.quality,
            supported: texts(self.supported_extensions@),
            max_file_size: self.max_file_size,
        }
    }
}

impl BrotliCache {
    /// Returns a builder for `BrotliCache`.
    pub fn builder() -> (r: BrotliCacheBuilder)
        ensures
            r.cache_size == 128,
            r.compression_level == 3,
            r.supported_extensions is None,
            r.max_file_size == u64::MAX,
            r.wf(),
    {
        BrotliCacheBuilder::new()
    }

    fn new(builder: BrotliCacheBuilder) -> (r: Self)
        requires
            builder.wf(),
        ensures
            r@ == initial(builder),
    {
        let supported_extensions = match builder.supported_extensions {
            Some(list) => list,
            None => default_types(),
        };
        BrotliCache {
            files: new_files(builder.cache_size as usize),
            quality: builder.compression_level,
            supported_extensions,
            max_file_size: builder.max_file_size,
        }
    }

    /// The compression level.
    pub fn quality(&self) -> (r: i32)
        ensures
            r == self@.quality,
    {
        self.quality as i32
    }

    /// Whether files with an extension are compressed.
    pub fn supports(&self, extension: &[u8]) -> (r: bool)
        ensures
            r == self@.supports(extension@),
    {
        let mut i: usize = 0;
        while i < self.supported_extensions.len()
            invariant
                i <= self.supported_extensions@.len(),
                forall|j: int| 0 <= j < i ==> text(#[trigger] self@.supported[j]) != extension@,
            decreases self.supported_extensions@.len() - i,
        {
            assert(self@.supported[i as int] == self.supported_extensions@[i as int]@);
            if same(self.supported_extensions[i].as_bytes(), extension) {
                assert(text(self@.supported[i as int]) == extension@);
                return true;
            }
            i += 1;
        }
        false
    }

    /// What the compressor is told about a file with an extension.
    pub fn detect_brotli_mode(&self, extension: &[u8]) -> (r: BrotliMode)
        ensures
            r == (if self@.supports(extension@) {
                BrotliMode::Text
            } else {
                BrotliMode::Generic
            }),
    {
        if self.supports(extension) {
            BrotliMode::Text
        } else {
            BrotliMode::Generic
        }
    }

    /// Says what to do next in the course of serving the file at `path`, after `event`.
    ///
    /// Files whose extension is not supported and files that are too large are served in
    /// their original form. If the file has been compressed before, the compressed version
    /// is served again. Otherwise the file is compressed. If there is no room for the
    /// compressed version, the cache is emptied and the original served.
    pub fn get(&mut self, path: &str, event: BrotliEvent) -> (r: Result<BrotliStep, SerdirError>)
        ensures
            is_step(old(self)@, path@, event, final(self)@, r),
    {
        let ext = extension(path.as_bytes());
        match event {
            BrotliEvent::Asked => if self.supports(ext.as_slice()) {
                Ok(BrotliStep::Inspect)
            } else {
                Ok(BrotliStep::Original)
            },
            BrotliEvent::Inspected(Err(e)) => Err(e),
            BrotliEvent::Inspected(Ok(info)) => {
                if info.len() > self.max_file_size {
                    return Ok(BrotliStep::Original);
                }
                match get_file(&mut self.files, info.words()) {
                    Some((file, len, mtime, ext)) => Ok(
                        BrotliStep::Serve(
                            MatchedFile {
                                file_info: FileInfo {
                                    path_hash: swap_bytes(info.get_hash()),
                                    len,
                                    mtime,
                                },
                                file,
                                content_encoding: ContentEncoding::Brotli,
                                extension: ext,
                            },
                        ),
                    ),
                    None => Ok(
                        BrotliStep::Compress(
                            BrotliParams {
                                quality: self.quality(),
                                mode: self.detect_brotli_mode(ext.as_slice()),
                                size_hint: if info.len() <= usize::MAX as u64 {
                                    Some(info.len() as usize)
                                } else {
                                    None
                                },
                            },
                        ),
                    ),
                }
            },
            BrotliEvent::Compressed(info, Ok(compressed)) => {
                let file_info = FileInfo {
                    path_hash: swap_bytes(info.get_hash()),
                    len: compressed.len,
                    mtime: compressed.mtime,
                };
                insert_file(
                    &mut self.files,
                    info.words(),
                    (compressed.file, compressed.len, compressed.mtime, to_vec(ext.as_slice())),
                );
                Ok(
                    BrotliStep::Serve(
                        MatchedFile {
                            file_info,
                            file: compressed.file,
                            content_encoding: ContentEncoding::Brotli,
                            extension: ext,
                        },
                    ),
                )
            },
            BrotliEvent::Compressed(_, Err(e)) => {
                if error_kind(&e) == IoErrorKind::StorageFull {
                    clear_files(&mut self.files);
                    return Ok(BrotliStep::Original);
                }
                let msg = String::from_str("Brotli compression failed for ").concat(path);
                Err(SerdirError::compression_error(msg, e))
            },
            BrotliEvent::Unreadable(e) => Err(SerdirError::from(e)),
        }
    }
}

/// A file is served in its original form if its extension is not one of those that are
/// compressed, if it is too large, or if there is no room for a compressed version. In the last
/// case the cache is emptied; otherwise nothing is changed.
pub proof fn other_files_are_served_as_they_are(
    before: BrotliCacheView,
    path: Seq<char>,
    event: BrotliEvent,
    after: BrotliCacheView,
    r: Result<BrotliStep, SerdirError>,
)
    requires
        is_step(before, path, event, after, r),
        match event {
            BrotliEvent::Asked => forall|i: int|
                0 <= i < before.supported.len() ==> text(#[trigger] before.supported[i])
                    != extension_of(text(path)),
            BrotliEvent::Inspected(Ok(info)) => info.len > before.max_file_size,
            BrotliEvent::Compressed(_, Err(e)) => io_error_kind(e) == IoErrorKind::StorageFull,
            _ => false,
        },
    ensures
        r matches Ok(step) && step is Original,
        if event is Compressed {
            after.files.dom() == Set::<Seq<u64>>::empty()
        } else {
            after.files == before.files
        },
{
}

/// What goes wrong is reported, and changes nothing: a file that cannot be inspected or read, and
/// one that cannot be compressed for another reason than a lack of room.
pub proof fn failures_are_reported(
    before: BrotliCacheView,
    path: Seq<char>,
    event: BrotliEvent,
    after: BrotliCacheView,
    r: Result<BrotliStep, SerdirError>,
)
    requires
        is_step(before, path, event, after, r),
    ensures
        match event {
            BrotliEvent::Inspected(Err(e)) => r matches Err(err) && err == e && after == before,
            BrotliEvent::Compressed(_, Err(e)) => io_error_kind(e) != IoErrorKind::StorageFull ==> (r
                matches Err(err) && err.inner() == Some(e) && err.status() == 500 && after
                == before),
            BrotliEvent::Unreadable(e) => r matches Err(err) && after == before && err.status() == (
            if io_error_kind(e) == IoErrorKind::NotFound {
                404
            } else {
                500int
            }),
            _ => r is Ok,
        },
{
}

/// The compressor is told how long the file is, if that can be told, and to compress it as text.
pub proof fn the_compressor_is_told_what_comes(
    before: BrotliCacheView,
    path: Seq<char>,
    info: FileInfo,
    after: BrotliCacheView,
    r: Result<BrotliStep, SerdirError>,
)
    requires
        is_step(before, path, BrotliEvent::Inspected(Ok(info)), after, r),
    ensures
        r matches Ok(BrotliStep::Compress(params)) ==> {
            &&& info.len <= usize::MAX ==> params.size_hint == Some(info.len as usize)
            &&& info.len > usize::MAX ==> params.size_hint is None
            &&& params.quality == before.quality
            &&& params.mode == BrotliMode::Text <==> before.supports(extension_of(text(path)))
        },
{
}

/// Reversing the bytes of a number puts each in the place of its counterpart.
pub proof fn swapping_reverses_the_bytes(n: u64, i: int)
    requires
        0 <= i < 8,
    ensures
        spec_u64_to_le_bytes(swapped(n))[i] == spec_u64_to_le_bytes(n)[7 - i],
{
    lemma_auto_spec_u64_to_from_le_bytes();
    let bytes = spec_u64_to_le_bytes(n);
    assert(bytes.reverse()[i] == bytes[7 - i]);
}

} // verus!
