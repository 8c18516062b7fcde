//! A cache of entity tags, so that a file is not hashed each time it is served.

use crate::clock::unix_nanos;
use crate::etag::ETag;
use crate::eviction::{holds_at_most, is_put};
use crate::file_info::{is_representable, key_words, key_words_tell_files_apart, FileInfo};
use sieve_cache::ShardedSieveCache;
use std::collections::hash_map::RandomState;
use std::hash::{BuildHasher, Hash};
use std::io::Error;
use vstd::prelude::*;

verus! {

/// [`sieve_cache::ShardedSieveCache`], opaque.
#[verifier::external_type_specification]
#[verifier::external_body]
#[verifier::reject_recursive_types(K)]
#[verifier::reject_recursive_types(V)]
#[verifier::reject_recursive_types(S)]
pub struct ExShardedSieveCache<K, V, S>(sieve_cache::ShardedSieveCache<K, V, S>) where
    K: Eq + Hash + Clone + Send + Sync,
    V: Send + Sync,
    S: BuildHasher + Clone,
;

/// The number of tags to keep.
pub const CACHE_SIZE: usize = 256;

/// The hash values that a cache holds, by path hash, length and modification time of the
/// file. A file may be known to have none.
pub uninterp spec fn cached_hashes(
    cache: ShardedSieveCache<[u64; 5], Option<u64>, RandomState>,
) -> Map<Seq<u64>, Option<u64>>;

/// The capacity with which a cache of hash values was made.
pub uninterp spec fn hashes_capacity(
    cache: ShardedSieveCache<[u64; 5], Option<u64>, RandomState>,
) -> nat;

/// Makes an empty cache with `sieve_cache::ShardedSieveCache::new`, which fails only if the
/// capacity is 0, or there is no room for it in memory. It spreads the capacity over 16
/// shards, each of which takes at least one value.
#[verifier::external_body]
fn new_cache(capacity: usize) -> (r: ShardedSieveCache<
    [u64; 5],
    Option<u64>,
    RandomState,
>)
    requires
        16 <= capacity <= 65_536,
    ensures
        cached_hashes(r) == no_hashes(),
        hashes_capacity(r) == capacity,
{
    ShardedSieveCache::new(capacity).expect("the capacity is not zero")
}

/// Looks a hash up with `sieve_cache::ShardedSieveCache::get`.
#[verifier::external_body]
fn get_hash(
    cache: &ShardedSieveCache<[u64; 5], Option<u64>, RandomState>,
    key: [u64; 5],
) -> (r: Option<Option<u64>>)
    ensures
        match r {
            Some(v) => cached_hashes(*cache).contains_key(key@)
                && cached_hashes(*cache)[key@] == v,
            None => !cached_hashes(*cache).contains_key(key@),
        },
{
    cache.get(&key)
}

/// Puts a hash in with `sieve_cache::ShardedSieveCache::insert`. It is there afterwards. If
/// the key is new, one other may have to make room for it; all others stay as they are. No
/// shard goes beyond its capacity.
#[verifier::external_body]
fn insert_hash(
    cache: &mut ShardedSieveCache<[u64; 5], Option<u64>, RandomState>,
    key: [u64; 5],
    value: Option<u64>,
)
    ensures
        is_put(
            cached_hashes(*old(cache)),
            key@,
            value,
            cached_hashes(*final(cache)),
        ),
        hashes_capacity(*final(cache)) == hashes_capacity(*old(cache)),
        holds_at_most(cached_hashes(*final(cache)), hashes_capacity(*final(cache))),
{
    cache.insert(key, value);
}

/// What an empty cache holds.
pub open spec fn no_hashes() -> Map<Seq<u64>, Option<u64>> {
    Map::empty()
}

/// A tag as it is kept, which is without its type.
pub open spec fn hash_of(etag: Option<ETag>) -> Option<u64> {
    match etag {
        Some(e) => Some(e.0),
        None => None,
    }
}

/// Whether `r` is the tag of a file whose content has been hashed, and the cache goes from `before`
/// to `after`: a tag that is kept already stays, and otherwise the one that is made of the hash
/// is kept. If the file could not be hashed, nothing is.
pub open spec fn is_tagged(
    before: Map<Seq<u64>, Option<u64>>,
    info: FileInfo,
    hashed: Result<Option<u64>, Error>,
    after: Map<Seq<u64>, Option<u64>>,
    r: Result<Option<ETag>, Error>,
) -> bool {
    match hashed {
        Err(e) => r == Err::<Option<ETag>, Error>(e) && after == before,
        Ok(hash) => if before.contains_key(key_words(info)) {
            r matches Ok(etag) && hash_of(etag) == before[key_words(info)] && after == before
        } else {
            r matches Ok(etag) && hash_of(etag) == hash && is_put(
                before,
                key_words(info),
                hash,
                after,
            )
        },
    }
}

/// A cache of entity tags, indexed by file metadata.
pub struct EtagCache {
    cache: ShardedSieveCache<[u64; 5], Option<u64>, RandomState>,
}

impl View for EtagCache {
    type V = Map<Seq<u64>, Option<u64>>;

    closed spec fn view(&self) -> Map<Seq<u64>, Option<u64>> {
        cached_hashes(self.cache)
    }
}

impl EtagCache {
    /// Whether the cache keeps to its size.
    pub closed spec fn wf(self) -> bool {
        hashes_capacity(self.cache) == CACHE_SIZE && holds_at_most(
            cached_hashes(self.cache),
            CACHE_SIZE as nat,
        )
    }

    /// Returns an empty cache.
    pub fn new() -> (r: Self)
        ensures
            r@ == no_hashes(),
            r.wf(),
    {
        EtagCache { cache: new_cache(CACHE_SIZE) }
    }

    /// Returns the tag of a file, if it is known. The inner `None` stands for a file that is
    /// known to have no tag.
    pub fn get(&self, info: &FileInfo) -> (r: Option<Option<ETag>>)
        ensures
            match r {
                Some(etag) => self@.contains_key(key_words(*info)) && self@[key_words(*info)] == hash_of(
                    etag,
                ),
                None => !self@.contains_key(key_words(*info)),
            },
    {
        match get_hash(&self.cache, info.words()) {
            None => None,
            Some(None) => Some(None),
            Some(Some(hash)) => Some(Some(ETag::from(hash))),
        }
    }

    /// Keeps the tag of a file.
    pub fn insert(&mut self, info: FileInfo, etag: Option<ETag>)
        ensures
            is_put(old(self)@, key_words(info), hash_of(etag), final(self)@),
            old(self).wf() ==> final(self).wf(),
    {
        let value: Option<u64> = match etag {
            Some(e) => Some(u64::from(e)),
            None => None,
        };
        insert_hash(&mut self.cache, info.words(), value);
    }

    /// Takes the hash of a file that was not known yet, and keeps the tag that is made of it.
    /// If the file could not be hashed, nothing is kept.
    pub fn get_or_insert(&mut self, info: FileInfo, hashed: Result<Option<u64>, Error>) -> (r:
        Result<Option<ETag>, Error>)
        ensures
            old(self).wf() ==> final(self).wf(),
            is_tagged(old(self)@, info, hashed, final(self)@, r),
    {
        let hash = match hashed {
            Err(e) => {
                return Err(e);
            },
            Ok(hash) => hash,
        };
        if let Some(etag) = self.get(&info) {
            return Ok(etag);
        }
        let etag: Option<ETag> = match hash {
            Some(h) => Some(ETag::from(h)),
            None => None,
        };
        self.insert(info, etag);
        Ok(etag)
    }
}

/// The cache never holds more tags than its size.
pub proof fn the_etag_cache_keeps_to_its_size(cache: EtagCache)
    requires
        cache.wf(),
    ensures
        holds_at_most(cache@, 256),
{
}

/// A tag that has been kept is found again: the file is not hashed a second time as long as
/// it stays the same.
pub proof fn kept_tags_are_found(
    before: Map<Seq<u64>, Option<u64>>,
    info: FileInfo,
    etag: Option<ETag>,
    after: Map<Seq<u64>, Option<u64>>,
)
    requires
        is_put(before, key_words(info), hash_of(etag), after),
    ensures
        after.contains_key(key_words(info)),
        after[key_words(info)] == hash_of(etag),
{
}

/// A file that has changed has another key, so that it never gets the tag of its earlier
/// content.
pub proof fn changed_files_are_not_found(
    before: Map<Seq<u64>, Option<u64>>,
    info: FileInfo,
    etag: Option<ETag>,
    after: Map<Seq<u64>, Option<u64>>,
    changed: FileInfo,
)
    requires
        is_put(before, key_words(info), hash_of(etag), after),
        changed.len != info.len || unix_nanos(changed.mtime) != unix_nanos(info.mtime),
        is_representable(info.mtime),
        is_representable(changed.mtime),
        !before.contains_key(key_words(changed)),
    ensures
        !after.contains_key(key_words(changed)),
{
    key_words_tell_files_apart(info, changed);
}

/// A tag is kept as it is: different tags, and none at all, are kept as different values.
pub proof fn tags_are_kept_apart(a: Option<ETag>, b: Option<ETag>)
    ensures
        hash_of(a) == hash_of(b) <==> a == b,
        hash_of(a) is Some <==> a is Some,
{
}

/// A file has one tag as long as it is kept: once it has been tagged, with or without a hash, it
/// has that tag whatever its content is hashed to later, and a failure to hash it changes nothing.
pub proof fn a_file_is_tagged_once(
    v0: Map<Seq<u64>, Option<u64>>,
    info: FileInfo,
    hash: Option<u64>,
    v1: Map<Seq<u64>, Option<u64>>,
    r1: Result<Option<ETag>, Error>,
    again: Result<Option<u64>, Error>,
    v2: Map<Seq<u64>, Option<u64>>,
    r2: Result<Option<ETag>, Error>,
)
    requires
        is_tagged(v0, info, Ok(hash), v1, r1),
        is_tagged(v1, info, again, v2, r2),
    ensures
        v2 == v1,
        r1 is Ok,
        again is Ok ==> r2 is Ok && r2.unwrap() == r1.unwrap(),
        again matches Err(e) ==> (r2 matches Err(err) && err == e),
        !v0.contains_key(key_words(info)) ==> r1.unwrap() == (match hash {
            Some(h) => Some(ETag(h)),
            None => None,
        }),
{
}

} // verus!
