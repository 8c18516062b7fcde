//! A cache of resource contents.
//!
//! The cache tracks the total size of the resources that it holds, and gives up others
//! when a new one makes it too large. Points in time are nanoseconds on a clock that
//! never goes back; the caller reads the clock.

use crate::compression::CompressionSupport;
use crate::etag::ETag;
use crate::eviction::{holds_at_most, is_put_in_place};
use crate::headers::{clone_map, header_entries};
use crate::resource::{Resource, ResourceContent, ResourceView};
use crate::text::{push_bytes, text};
use http::{HeaderMap, HeaderValue};
use sieve_cache::{Weigh, WeightedShardedSieveCache};
use std::time::{Duration, SystemTime};
use vstd::bytes::{
    lemma_auto_spec_u64_to_from_le_bytes, spec_u64_to_le_bytes, u64_to_le_bytes,
};
use vstd::layout::size_of;
use vstd::prelude::*;

verus! {

/// The total weight unless another is chosen: 8 MB.
pub const DEFAULT_MAX_TOTAL_WEIGHT: u64 = 8_000_000;

/// The seconds after which a resource expires unless others are chosen.
pub const DEFAULT_EXPIRATION_SECONDS: u64 = 120;

/// The most resources that are kept.
pub const FIXED_CAPACITY: usize = 128;

/// The least total weight that can be chosen.
pub const LEAST_TOTAL_WEIGHT: u64 = 16;

/// The length of a duration in nanoseconds.
pub uninterp spec fn duration_nanos(d: Duration) -> nat;

/// `std::time::Duration::from_secs` makes a duration of whole seconds.
pub assume_specification[ Duration::from_secs ](secs: u64) -> (r: Duration)
    ensures
        duration_nanos(r) == secs * 1_000_000_000,
;

/// `std::time::Duration::as_nanos` gives the number of nanoseconds.
pub assume_specification[ Duration::as_nanos ](d: &Duration) -> (r: u128)
    ensures
        r == duration_nanos(*d),
;

/// What a resource is kept under: the path that was asked for, and the encodings that the
/// client supports.
pub struct CacheKey {
    /// The path.
    pub path: String,
    /// The encodings.
    pub encodings: CompressionSupport,
}

/// The number that stands for a set of encodings.
pub open spec fn encodings_number(e: CompressionSupport) -> u64 {
    ((if e.gzip { 1int } else { 0 }) + (if e.br { 2int } else { 0 }) + (if e.zstd { 4int } else { 0 })) as u64
}

/// The bytes of a key: eight for the encodings, which is the room that they take in a
/// [`CacheKey`], and those of the path.
pub open spec fn key_bytes(path: Seq<char>, encodings: CompressionSupport) -> Seq<u8> {
    spec_u64_to_le_bytes(encodings_number(encodings)) + text(path)
}

/// Different paths and different encodings have different keys.
pub proof fn keys_are_distinct(
    path1: Seq<char>,
    encodings1: CompressionSupport,
    path2: Seq<char>,
    encodings2: CompressionSupport,
)
    ensures
        key_bytes(path1, encodings1) == key_bytes(path2, encodings2) <==> path1 == path2
            && encodings1 == encodings2,
{
    let a = key_bytes(path1, encodings1);
    let b = key_bytes(path2, encodings2);
    lemma_auto_spec_u64_to_from_le_bytes();
    if a == b {
        assert(a.take(8) =~= spec_u64_to_le_bytes(encodings_number(encodings1)));
        assert(b.take(8) =~= spec_u64_to_le_bytes(encodings_number(encodings2)));
        assert(a.skip(8) =~= text(path1));
        assert(b.skip(8) =~= text(path2));
        vstd::utf8::encode_utf8_decode_utf8(path1);
        vstd::utf8::encode_utf8_decode_utf8(path2);
    }
}

impl CacheKey {
    /// Makes a key.
    pub fn new(path: String, encodings: CompressionSupport) -> (r: Self)
        ensures
            r.path == path,
            r.encodings == encodings,
    {
        CacheKey { path, encodings }
    }

    /// The bytes of the key.
    pub fn to_bytes(&self) -> (r: Vec<u8>)
        ensures
            r@ == key_bytes(self.path@, self.encodings),
    {
        let mut flags: u64 = 0;
        if self.encodings.gzip {
            flags = flags + 1;
        }
        if self.encodings.br {
            flags = flags + 2;
        }
        if self.encodings.zstd {
            flags = flags + 4;
        }
        let mut r = u64_to_le_bytes(flags);
        push_bytes(&mut r, self.path.as_str().as_bytes());
        assert(r@ =~= key_bytes(self.path@, self.encodings));
        r
    }
}

/// A resource that is kept.
pub struct CacheValue {
    /// The length of the content in bytes.
    pub len: u64,
    /// The last modification time.
    pub mtime: SystemTime,
    /// Where the content is.
    pub content: ResourceContent,
    /// The response headers.
    pub headers: Box<HeaderMap<HeaderValue>>,
    /// The entity tag of the content, if any.
    pub etag: Option<ETag>,
    /// When the resource was put in.
    pub insert_time: u64,
}

impl CacheValue {
    /// The resource.
    pub open spec fn resource(self) -> ResourceView {
        ResourceView {
            len: self.len,
            mtime: self.mtime,
            content: self.content.bytes(),
            headers: header_entries(*self.headers),
            etag: self.etag,
        }
    }

    /// The resource, and when it was put in.
    pub open spec fn view(self) -> (ResourceView, u64) {
        (self.resource(), self.insert_time)
    }

    /// How much the resource weighs: as much as the value itself, and the content.
    pub open spec fn weight(self) -> nat {
        size_of::<CacheValue>() + self.len as nat
    }

    /// Takes a resource that is put in at a point in time.
    pub fn new(resource: Resource, now: u64) -> (r: Self)
        ensures
            r@ == (resource@, now),
    {
        CacheValue {
            len: resource.len,
            mtime: resource.mtime,
            content: resource.content,
            headers: Box::new(resource.headers),
            etag: resource.etag,
            insert_time: now,
        }
    }

    /// Gives the resource back.
    pub fn into_resource(self) -> (r: Resource)
        ensures
            r@ == self.resource(),
    {
        Resource {
            len: self.len,
            mtime: self.mtime,
            content: self.content,
            headers: *self.headers,
            etag: self.etag,
        }
    }

    /// Whether the resource was put in less than `expire_after` nanoseconds before `now`.
    pub fn is_fresh(&self, now: u64, expire_after: u128) -> (r: bool)
        ensures
            r == is_fresh_at(self.insert_time, now, expire_after as nat),
    {
        now >= self.insert_time && ((now - self.insert_time) as u128) < expire_after || now
            < self.insert_time && expire_after > 0
    }
}

/// The nanoseconds from a point in time to a later one; 0 if it is not later.
pub open spec fn elapsed(since: u64, now: u64) -> nat {
    if now >= since {
        (now - since) as nat
    } else {
        0
    }
}

/// Whether less than `expire_after` nanoseconds have gone by.
pub open spec fn is_fresh_at(since: u64, now: u64, expire_after: nat) -> bool {
    elapsed(since, now) < expire_after
}

impl Clone for CacheValue {
    fn clone(&self) -> (r: Self)
        ensures
            r@ == self@,
    {
        CacheValue {
            len: self.len,
            mtime: self.mtime,
            content: self.content.duplicate(),
            headers: Box::new(clone_map(&self.headers)),
            etag: self.etag,
            insert_time: self.insert_time,
        }
    }
}

impl Weigh for CacheValue {
    fn weigh(&self) -> (r: usize)
        ensures
            r == (if self.weight() <= usize::MAX {
                self.weight()
            } else {
                usize::MAX as nat
            }),
    {
        let stack_size: usize = std::mem::size_of::<CacheValue>();
        if self.len > usize::MAX as u64 {
            return usize::MAX;
        }
        stack_size.saturating_add(self.len as usize)
    }
}

/// A concurrent cache of resources that is bounded by weight: a
/// `sieve_cache::WeightedShardedSieveCache` from the bytes of a key to a value.
#[verifier::external_body]
pub struct CachedResources {
    cache: WeightedShardedSieveCache<Vec<u8>, CacheValue>,
}

/// What a cache of resources holds.
pub uninterp spec fn cached_resources(c: CachedResources) -> Map<Seq<u8>, (ResourceView, u64)>;

/// The weight of what a cache of resources holds.
pub uninterp spec fn cached_weight(c: CachedResources) -> nat;

/// The capacity with which a cache of resources was made.
pub uninterp spec fn resources_capacity(c: CachedResources) -> nat;

/// Whether the position at which a cache of resources looks for something to give up is one of
/// something that it holds, or there is no such position.
pub uninterp spec fn is_scannable(c: CachedResources) -> bool;

/// The weight that a cache of resources was made for.
pub uninterp spec fn resources_max_weight(c: CachedResources) -> nat;

/// Whether the weights that a cache of resources counts, of each shard and in total, have never
/// gone beyond what a `usize` holds, so that they are those of what is kept.
pub uninterp spec fn is_weighed(c: CachedResources) -> bool;

/// The shard to which each key belongs, by its hash. It stays the same as long as the cache
/// keeps its hasher, which is seeded when it is made.
pub uninterp spec fn resources_shards(c: CachedResources) -> Map<Seq<u8>, nat>;

/// The weight of a key and of a value with content of the given length.
pub open spec fn entry_weight(key: Seq<u8>, len: u64) -> nat {
    size_of::<Vec<u8>>() + key.len() + size_of::<CacheValue>() + len as nat
}

/// The weight of what is kept.
pub open spec fn held_weight(held: Map<Seq<u8>, (ResourceView, u64)>) -> nat
    decreases held.dom().len(),
    when held.dom().finite()
{
    if held.dom().len() == 0 {
        0
    } else {
        let k = held.dom().choose();
        entry_weight(k, held[k].0.len) + held_weight(held.remove(k))
    }
}

/// The part of a total that falls to a shard. What does not divide evenly falls to the first
/// shards.
pub open spec fn share(total: nat, shard: nat) -> nat {
    total / 16 + if shard < total % 16 {
        1nat
    } else {
        0nat
    }
}

/// What belongs to a shard.
pub open spec fn of_shard(
    held: Map<Seq<u8>, (ResourceView, u64)>,
    shards: Map<Seq<u8>, nat>,
    shard: nat,
) -> Map<Seq<u8>, (ResourceView, u64)> {
    Map::new(|k: Seq<u8>| held.contains_key(k) && shards[k] == shard, |k: Seq<u8>| held[k])
}

/// Whether a shard takes so much: it is no more than its capacity, and, unless it is a single
/// entry, no heavier than its part of the weight.
pub open spec fn shard_takes(
    part: Map<Seq<u8>, (ResourceView, u64)>,
    capacity: nat,
    max_weight: nat,
) -> bool {
    &&& part.dom().finite()
    &&& part.dom().len() <= capacity
    &&& part.dom().len() <= 1 || held_weight(part) <= max_weight
}

/// Whether each shard takes what belongs to it.
pub open spec fn fits(
    held: Map<Seq<u8>, (ResourceView, u64)>,
    shards: Map<Seq<u8>, nat>,
    capacity: nat,
    max_weight: nat,
) -> bool {
    forall|s: nat|
        s < 16 ==> shard_takes(
            #[trigger] of_shard(held, shards, s),
            share(capacity, s),
            share(max_weight, s),
        )
}

/// Whether all of `part` is in `held`.
pub open spec fn is_part(
    part: Map<Seq<u8>, (ResourceView, u64)>,
    held: Map<Seq<u8>, (ResourceView, u64)>,
) -> bool {
    forall|k: Seq<u8>| #[trigger]
        part.contains_key(k) ==> held.contains_key(k) && part[k] == held[k]
}

/// The weight is that of any one entry and of the rest.
proof fn lemma_weight_without(held: Map<Seq<u8>, (ResourceView, u64)>, k: Seq<u8>)
    requires
        held.dom().finite(),
        held.contains_key(k),
    ensures
        held_weight(held) == entry_weight(k, held[k].0.len) + held_weight(held.remove(k)),
    decreases held.dom().len(),
{
    let first = held.dom().choose();
    assert(held.dom().contains(k));
    assert(held.dom().len() > 0);
    assert(held.dom().contains(first));
    if first != k {
        assert(held.remove(first).dom() =~= held.dom().remove(first));
        assert(held.remove(k).dom() =~= held.dom().remove(k));
        lemma_weight_without(held.remove(first), k);
        lemma_weight_without(held.remove(k), first);
        assert(held.remove(first).remove(k) =~= held.remove(k).remove(first));
    }
}

/// Putting an entry in adds its weight.
proof fn lemma_weight_with(
    held: Map<Seq<u8>, (ResourceView, u64)>,
    k: Seq<u8>,
    value: (ResourceView, u64),
)
    requires
        held.dom().finite(),
    ensures
        held.insert(k, value).dom().finite(),
        held_weight(held.insert(k, value)) <= held_weight(held) + entry_weight(k, value.0.len),
        held_weight(held.insert(k, value)) >= entry_weight(k, value.0.len),
        !held.contains_key(k) ==> held_weight(held.insert(k, value)) == held_weight(held)
            + entry_weight(k, value.0.len),
{
    let after = held.insert(k, value);
    assert(after.dom() =~= held.dom().insert(k));
    lemma_weight_without(after, k);
    if held.contains_key(k) {
        lemma_weight_without(held, k);
        assert(after.remove(k) =~= held.remove(k));
    } else {
        assert(after.remove(k) =~= held);
    }
}

/// A part has no more entries than the whole, and weighs no more.
proof fn lemma_part_weight(
    part: Map<Seq<u8>, (ResourceView, u64)>,
    held: Map<Seq<u8>, (ResourceView, u64)>,
)
    requires
        held.dom().finite(),
        is_part(part, held),
    ensures
        part.dom().finite(),
        part.dom().len() <= held.dom().len(),
        held_weight(part) <= held_weight(held),
    decreases held.dom().len(),
{
    assert forall|k: Seq<u8>| #[trigger] part.dom().contains(k) implies held.dom().contains(k) by {
        assert(part.contains_key(k));
    }
    assert(part.dom().subset_of(held.dom()));
    vstd::set_lib::lemma_len_subset(part.dom(), held.dom());
    if held.dom().len() > 0 {
        let k = held.dom().choose();
        assert(held.dom().contains(k));
        lemma_weight_without(held, k);
        assert(held.remove(k).dom() =~= held.dom().remove(k));
        if part.contains_key(k) {
            lemma_weight_without(part, k);
            assert(is_part(part.remove(k), held.remove(k)));
            lemma_part_weight(part.remove(k), held.remove(k));
        } else {
            assert(is_part(part, held.remove(k)));
            lemma_part_weight(part, held.remove(k));
        }
    }
}

/// Where a whole fits, so does a part of it.
proof fn lemma_part_fits(
    part: Map<Seq<u8>, (ResourceView, u64)>,
    held: Map<Seq<u8>, (ResourceView, u64)>,
    shards: Map<Seq<u8>, nat>,
    capacity: nat,
    max_weight: nat,
)
    requires
        is_part(part, held),
        fits(held, shards, capacity, max_weight),
    ensures
        fits(part, shards, capacity, max_weight),
{
    assert forall|s: nat| s < 16 implies shard_takes(
        #[trigger] of_shard(part, shards, s),
        share(capacity, s),
        share(max_weight, s),
    ) by {
        let a = of_shard(part, shards, s);
        let b = of_shard(held, shards, s);
        assert(is_part(a, b)) by {
            assert forall|k: Seq<u8>| #[trigger] a.contains_key(k) implies b.contains_key(k) && a[k]
                == b[k] by {
                assert(part.contains_key(k));
            }
        }
        lemma_part_weight(a, b);
    }
}

/// Where there is room however the keys are spread, there is room in the shard of the key.
proof fn lemma_room_fits(
    held: Map<Seq<u8>, (ResourceView, u64)>,
    shards: Map<Seq<u8>, nat>,
    capacity: nat,
    max_weight: nat,
    key: Seq<u8>,
    value: (ResourceView, u64),
)
    requires
        fits(held, shards, capacity, max_weight),
        is_roomy(
            held,
            capacity,
            held_weight(held),
            max_weight,
            entry_weight(key, value.0.len),
        ),
    ensures
        fits(held.insert(key, value), shards, capacity, max_weight),
{
    let after = held.insert(key, value);
    lemma_weight_with(held, key, value);
    assert(after.dom() =~= held.dom().insert(key));
    assert forall|s: nat| s < 16 implies shard_takes(
        #[trigger] of_shard(after, shards, s),
        share(capacity, s),
        share(max_weight, s),
    ) by {
        let part = of_shard(after, shards, s);
        if s == shards[key] {
            assert(is_part(part, after));
            lemma_part_weight(part, after);
        } else {
            assert(part =~= of_shard(held, shards, s));
        }
    }
}

/// The weight of two disjoint parts is the sum of their weights.
proof fn lemma_disjoint_weight(
    a: Map<Seq<u8>, (ResourceView, u64)>,
    b: Map<Seq<u8>, (ResourceView, u64)>,
    both: Map<Seq<u8>, (ResourceView, u64)>,
)
    requires
        both.dom().finite(),
        is_part(a, both),
        is_part(b, both),
        forall|k: Seq<u8>| #[trigger]
            both.contains_key(k) ==> a.contains_key(k) != b.contains_key(k),
    ensures
        held_weight(both) == held_weight(a) + held_weight(b),
    decreases both.dom().len(),
{
    lemma_part_weight(a, both);
    lemma_part_weight(b, both);
    if both.dom().len() > 0 {
        let k = both.dom().choose();
        assert(both.dom().contains(k));
        assert(both.contains_key(k));
        lemma_weight_without(both, k);
        assert(both.remove(k).dom() =~= both.dom().remove(k));
        if a.contains_key(k) {
            lemma_weight_without(a, k);
            assert(is_part(a.remove(k), both.remove(k)));
            assert(is_part(b, both.remove(k)));
            lemma_disjoint_weight(a.remove(k), b, both.remove(k));
        } else {
            lemma_weight_without(b, k);
            assert(is_part(b.remove(k), both.remove(k)));
            assert(is_part(a, both.remove(k)));
            lemma_disjoint_weight(a, b.remove(k), both.remove(k));
        }
    }
}

/// What belongs to the first shards.
spec fn of_first_shards(
    held: Map<Seq<u8>, (ResourceView, u64)>,
    shards: Map<Seq<u8>, nat>,
    n: nat,
) -> Map<Seq<u8>, (ResourceView, u64)> {
    Map::new(|k: Seq<u8>| held.contains_key(k) && shards[k] < n, |k: Seq<u8>| held[k])
}

/// If nothing weighs more than a sixteenth of the total, what belongs to the first shards weighs
/// no more than their parts of it.
proof fn lemma_first_shards_weight(
    held: Map<Seq<u8>, (ResourceView, u64)>,
    shards: Map<Seq<u8>, nat>,
    capacity: nat,
    max_weight: nat,
    n: nat,
)
    requires
        held.dom().finite(),
        fits(held, shards, capacity, max_weight),
        all_weigh_at_most(held, max_weight / 16),
        n <= 16,
    ensures
        held_weight(of_first_shards(held, shards, n)) <= n * (max_weight / 16) + if n < max_weight
            % 16 {
            n
        } else {
            max_weight % 16
        },
    decreases n,
{
    let first = of_first_shards(held, shards, n);
    assert(is_part(first, held));
    lemma_part_weight(first, held);
    if n == 0 {
        assert(first.dom() =~= Set::empty());
    } else {
        let m = (n - 1) as nat;
        let rest = of_first_shards(held, shards, m);
        let last = of_shard(held, shards, m);
        lemma_first_shards_weight(held, shards, capacity, max_weight, m);
        lemma_disjoint_weight(rest, last, first);
        assert(shard_takes(last, share(capacity, m), share(max_weight, m)));
        assert(held_weight(last) <= share(max_weight, m)) by {
            if last.dom().len() == 1 {
                let k = last.dom().choose();
                assert(last.dom().contains(k));
                assert(held.contains_key(k));
                assert(last.remove(k).dom() =~= last.dom().remove(k));
                lemma_weight_without(last, k);
            }
        }
        assert(n * (max_weight / 16) == m * (max_weight / 16) + max_weight / 16)
            by (nonlinear_arith)
            requires
                n == m + 1,
        ;
    }
}

/// If nothing weighs more than a sixteenth of the total, the total is kept to.
proof fn lemma_total_weight(
    held: Map<Seq<u8>, (ResourceView, u64)>,
    shards: Map<Seq<u8>, nat>,
    capacity: nat,
    max_weight: nat,
)
    requires
        held.dom().finite(),
        fits(held, shards, capacity, max_weight),
        all_weigh_at_most(held, max_weight / 16),
        forall|k: Seq<u8>| #[trigger] shards[k] < 16,
    ensures
        held_weight(held) <= max_weight,
{
    lemma_first_shards_weight(held, shards, capacity, max_weight, 16);
    assert(of_first_shards(held, shards, 16) =~= held);
}

/// Whether nothing that is kept weighs more than so much.
pub open spec fn all_weigh_at_most(held: Map<Seq<u8>, (ResourceView, u64)>, n: nat) -> bool {
    forall|k: Seq<u8>| #[trigger] held.contains_key(k) ==> entry_weight(k, held[k].0.len) <= n
}

/// Whether something of weight `added` has room beside what is kept, however the keys are
/// spread: each of 16 shards takes a sixteenth of the capacity and of the weight.
pub open spec fn is_roomy(
    held: Map<Seq<u8>, (ResourceView, u64)>,
    capacity: nat,
    weight: nat,
    max_weight: nat,
    added: nat,
) -> bool {
    &&& held.dom().finite()
    &&& held.dom().len() < capacity / 16
    &&& weight + added <= max_weight / 16
}

/// What an empty cache holds.
pub open spec fn no_resources() -> Map<Seq<u8>, (ResourceView, u64)> {
    Map::empty()
}

/// Whether `after` is `before` without what is not fresh.
pub open spec fn is_cleaned(
    before: Map<Seq<u8>, (ResourceView, u64)>,
    now: u64,
    expire_after: nat,
    after: Map<Seq<u8>, (ResourceView, u64)>,
) -> bool {
    forall|k: Seq<u8>|
        {
            &&& #[trigger] after.contains_key(k) <==> before.contains_key(k) && is_fresh_at(
                before[k].1,
                now,
                expire_after,
            )
            &&& after.contains_key(k) ==> after[k] == before[k]
        }
}

/// Makes an empty cache with `sieve_cache::WeightedShardedSieveCache::new`, which fails only
/// if the capacity is 0, or there is no room for it in memory, or the weight is less than 1
/// for each of 16 shards. It spreads the capacity and the weight over the shards, each of which
/// takes at least one resource.
#[verifier::external_body]
fn new_resources(capacity: usize, max_weight: usize) -> (r: CachedResources)
    requires
        16 <= capacity <= 65_536,
        max_weight >= 16,
    ensures
        resources_capacity(r) == capacity,
        resources_max_weight(r) == max_weight,
        is_weighed(r),
        cached_resources(r) == no_resources(),
        cached_weight(r) == 0,
        is_scannable(r),
        forall|k: Seq<u8>| #[trigger] resources_shards(r)[k] < 16,
{
    CachedResources {
        cache: WeightedShardedSieveCache::new(capacity, max_weight).expect("both are large enough"),
    }
}

/// Makes an empty cache with `sieve_cache::WeightedShardedSieveCache::new_with_hasher`, which
/// fails as `new` does, and the hasher of another one, so that each key belongs to the same
/// shard as there.
#[verifier::external_body]
fn new_resources_like(c: &CachedResources, capacity: usize, max_weight: usize) -> (r:
    CachedResources)
    requires
        16 <= capacity <= 65_536,
        max_weight >= 16,
    ensures
        resources_capacity(r) == capacity,
        resources_max_weight(r) == max_weight,
        is_weighed(r),
        cached_resources(r) == no_resources(),
        cached_weight(r) == 0,
        is_scannable(r),
        resources_shards(r) == resources_shards(*c),
{
    CachedResources {
        cache: WeightedShardedSieveCache::new_with_hasher(capacity, max_weight, c.cache.hasher())
            .expect("both are large enough"),
    }
}

/// Looks a resource up with `sieve_cache::WeightedShardedSieveCache::get`.
#[verifier::external_body]
fn get_resource(c: &CachedResources, key: &Vec<u8>) -> (r: Option<CacheValue>)
    ensures
        match r {
            Some(v) => cached_resources(*c).contains_key(key@) && cached_resources(*c)[key@] == v@,
            None => !cached_resources(*c).contains_key(key@),
        },
{
    c.cache.get(key)
}

/// Puts a resource in with `sieve_cache::WeightedShardedSieveCache::insert`. It is there
/// afterwards. Only the shard of its key is touched: others of that shard may have to make room
/// for it. As long as no counter has overflowed, the weight is that of what is kept, and nothing
/// has to go if the shard takes the new entry beside what it holds; otherwise the shard gives up
/// others until it takes what is left. No shard goes beyond its capacity.
///
/// Which others go is not said. It panics if it has to make room and the position at which it
/// looks for something to give up lies past the end.
#[verifier::external_body]
fn insert_resource(c: &mut CachedResources, key: Vec<u8>, value: CacheValue)
    requires
        is_scannable(*old(c)),
    ensures
        is_scannable(*final(c)),
        resources_capacity(*final(c)) == resources_capacity(*old(c)),
        resources_max_weight(*final(c)) == resources_max_weight(*old(c)),
        resources_shards(*final(c)) == resources_shards(*old(c)),
        holds_at_most(cached_resources(*final(c)), resources_capacity(*final(c))),
        is_put_in_place(
            cached_resources(*old(c)),
            key@,
            value@,
            cached_resources(*final(c)),
        ),
        forall|k: Seq<u8>| #[trigger]
            cached_resources(*old(c)).contains_key(k) && resources_shards(*old(c))[k]
                != resources_shards(*old(c))[key@] ==> cached_resources(*final(c)).contains_key(k),
        is_weighed(*old(c)) && cached_weight(*old(c)) + entry_weight(key@, value.len) <= usize::MAX
            ==> is_weighed(*final(c)),
        is_weighed(*final(c)) ==> cached_weight(*final(c)) == held_weight(
            cached_resources(*final(c)),
        ) && fits(
            cached_resources(*final(c)),
            resources_shards(*final(c)),
            resources_capacity(*final(c)),
            resources_max_weight(*final(c)),
        ),
        is_weighed(*final(c)) && fits(
            cached_resources(*old(c)).insert(key@, value@),
            resources_shards(*old(c)),
            resources_capacity(*old(c)),
            resources_max_weight(*old(c)),
        ) ==> cached_resources(*final(c)) == cached_resources(*old(c)).insert(key@, value@),
{
    c.cache.insert(key, value);
}

/// Keeps only what is fresh, with `sieve_cache::WeightedShardedSieveCache::retain`. If
/// nothing is left, the weight is 0; and as long as no counter has overflowed, it is that of what
/// is left. The position at which the cache looks for something to give up stays where it was,
/// which may then be past the end, so nothing is said of it.
#[verifier::external_body]
fn retain_fresh(c: &mut CachedResources, now: u64, expire_after: u128)
    ensures
        is_cleaned(
            cached_resources(*old(c)),
            now,
            expire_after as nat,
            cached_resources(*final(c)),
        ),
        resources_capacity(*final(c)) == resources_capacity(*old(c)),
        resources_max_weight(*final(c)) == resources_max_weight(*old(c)),
        resources_shards(*final(c)) == resources_shards(*old(c)),
        is_weighed(*final(c)) == is_weighed(*old(c)),
        is_weighed(*final(c)) ==> cached_weight(*final(c)) == held_weight(
            cached_resources(*final(c)),
        ),
        cached_resources(*final(c)) == no_resources() ==> cached_weight(*final(c)) == 0,
{
    c.cache.retain(|_, v| v.is_fresh(now, expire_after))
}

/// Whether every resource of a list is in a cache under the key beside it.
pub open spec fn are_kept(
    list: Seq<(Vec<u8>, CacheValue)>,
    kept: Map<Seq<u8>, (ResourceView, u64)>,
) -> bool {
    forall|i: int|
        0 <= i < list.len() ==> kept.contains_key((#[trigger] list[i]).0@) && kept[list[i].0@]
            == list[i].1@
}

/// Whether a list holds every resource of a cache once.
pub open spec fn is_listing(
    list: Seq<(Vec<u8>, CacheValue)>,
    kept: Map<Seq<u8>, (ResourceView, u64)>,
) -> bool {
    &&& are_kept(list, kept)
    &&& forall|k: Seq<u8>| #[trigger]
        kept.contains_key(k) ==> exists|i: int|
            0 <= i < list.len() && (#[trigger] list[i]).0@ == k
    &&& forall|i: int, j: int|
        0 <= i < j < list.len() ==> (#[trigger] list[i]).0@ != (#[trigger] list[j]).0@
}

/// Lists what a cache holds with `sieve_cache::WeightedShardedSieveCache::entries`, each once
/// and with its key, in no particular order.
#[verifier::external_body]
fn list_resources(c: &CachedResources) -> (r: Vec<(Vec<u8>, CacheValue)>)
    ensures
        is_listing(r@, cached_resources(*c)),
{
    c.cache.entries()
}

/// `sieve_cache::WeightedShardedSieveCache::current_weight` gives the weight of what the
/// cache holds.
#[verifier::external_body]
fn weight_of(c: &CachedResources) -> (r: usize)
    ensures
        r == cached_weight(*c),
{
    c.cache.current_weight()
}

/// Settings for caching resource contents.
pub struct CacheSettings {
    /// The maximum total weight of what is kept.
    pub max_total_weight: u64,
    /// The maximum length of a resource that is kept, or `None` for a quarter of the total.
    pub max_item_weight: Option<u64>,
    /// For how long a resource is kept.
    pub expire_after: Duration,
}

impl CacheSettings {
    /// Whether the settings are valid.
    pub open spec fn wf(self) -> bool {
        self.max_total_weight >= LEAST_TOTAL_WEIGHT
    }

    /// Creates settings with default values: 8 MB in total, a quarter of that for one
    /// resource, and two minutes.
    pub fn new() -> (r: Self)
        ensures
            r.max_total_weight == 8_000_000,
            r.max_item_weight is None,
            duration_nanos(r.expire_after) == 120_000_000_000,
            r.wf(),
    {
        CacheSettings {
            max_total_weight: DEFAULT_MAX_TOTAL_WEIGHT,
            max_item_weight: None,
            expire_after: Duration::from_secs(DEFAULT_EXPIRATION_SECONDS),
        }
    }

    /// Sets the maximum total weight of all items. If the value is less than 16 bytes, it is
    /// set to 16 bytes.
    pub fn max_total_weight(self, weight: u64) -> (r: Self)
        ensures
            r == (CacheSettings {
                max_total_weight: if weight < 16 {
                    16
                } else {
                    weight
                },
                ..self
            }),
            r.wf(),
    {
        let weight: u64 = if weight < LEAST_TOTAL_WEIGHT {
            LEAST_TOTAL_WEIGHT
        } else {
            weight
        };
        CacheSettings { max_total_weight: weight, ..self }
    }

    /// Sets the maximum weight of a single item. Heavier items are silently skipped.
    pub fn max_item_weight(self, weight: u64) -> (r: Self)
        ensures
            r == (CacheSettings { max_item_weight: Some(weight), ..self }),
    {
        CacheSettings { max_item_weight: Some(weight), ..self }
    }

    /// Sets the expiration time for cached resources.
    pub fn expiration_time(self, duration: Duration) -> (r: Self)
        ensures
            r == (CacheSettings { expire_after: duration, ..self }),
    {
        CacheSettings { expire_after: duration, ..self }
    }

    /// Makes a cache with these settings.
    pub fn into_resource_cache(self) -> (r: ResourceCache)
        requires
            self.wf(),
            self.max_total_weight <= usize::MAX,
        ensures
            r@ == (ResourceCacheView {
                resources: no_resources(),
                max_item_weight: match self.max_item_weight {
                    Some(w) => w,
                    None => self.max_total_weight / 4,
                },
                expire_after: duration_nanos(self.expire_after),
                max_total_weight: self.max_total_weight as nat,
                weight: 0,
                weighed: true,
                shards: r@.shards,
            }),
            r.wf(),
    {
        let cache = new_resources(FIXED_CAPACITY, self.max_total_weight as usize);
        proof {
            assert(no_resources().dom() =~= Set::empty());
            assert forall|s: nat| s < 16 implies shard_takes(
                #[trigger] of_shard(no_resources(), resources_shards(cache), s),
                share(FIXED_CAPACITY as nat, s),
                share(self.max_total_weight as nat, s),
            ) by {
                assert(of_shard(no_resources(), resources_shards(cache), s) =~= no_resources());
            }
        }
        ResourceCache {
            cache,
            max_item_weight: match self.max_item_weight {
                Some(w) => w,
                None => self.max_total_weight / 4,
            },
            expire_after: self.expire_after,
            max_total_weight: self.max_total_weight as usize,
            cleaned: false,
        }
    }
}

impl Default for CacheSettings {
    fn default() -> (r: Self)
        ensures
            r.max_total_weight == 8_000_000,
            r.max_item_weight is None,
            duration_nanos(r.expire_after) == 120_000_000_000,
            r.wf(),
    {
        CacheSettings::new()
    }
}

/// The state of a [`ResourceCache`].
#[verifier::ext_equal]
pub struct ResourceCacheView {
    /// The resources, and when they were put in.
    pub resources: Map<Seq<u8>, (ResourceView, u64)>,
    /// The maximum length of a resource.
    pub max_item_weight: u64,
    /// The nanoseconds for which a resource is kept.
    pub expire_after: nat,
    /// The maximum total weight.
    pub max_total_weight: nat,
    /// The weight of what is kept.
    pub weight: nat,
    /// Whether the weight is exact, which it is unless it has overflowed.
    pub weighed: bool,
    /// The shard to which each key belongs.
    pub shards: Map<Seq<u8>, nat>,
}

impl ResourceCacheView {
    /// The resource that is found for a path and encodings: what is kept there, unless it has
    /// expired.
    pub open spec fn found(
        self,
        path: Seq<char>,
        encodings: CompressionSupport,
        now: u64,
    ) -> Option<ResourceView> {
        let key = key_bytes(path, encodings);
        if self.resources.contains_key(key) && elapsed(self.resources[key].1, now)
            <= self.expire_after {
            Some(self.resources[key].0)
        } else {
            None
        }
    }

    /// Whether each shard takes what belongs to it.
    pub open spec fn takes(self, held: Map<Seq<u8>, (ResourceView, u64)>) -> bool {
        fits(held, self.shards, FIXED_CAPACITY as nat, self.max_total_weight)
    }

    /// Whether something of weight `added` has room beside what is kept, however the keys are
    /// spread.
    pub open spec fn has_room(self, added: nat) -> bool {
        is_roomy(
            self.resources,
            FIXED_CAPACITY as nat,
            self.weight,
            self.max_total_weight,
            added,
        )
    }
}

/// Whether the state goes from `before` to `after` when a resource is put in: it is there
/// afterwards, and others of its shard may have gone, but none if the shard takes it beside
/// them. As long as the weight does not overflow, it is that of what is kept, and if nothing
/// weighs more than a sixteenth of the total, the total is kept to.
pub open spec fn is_inserted(
    before: ResourceCacheView,
    key: Seq<u8>,
    value: (ResourceView, u64),
    after: ResourceCacheView,
) -> bool {
    let added = entry_weight(key, value.0.len);
    &&& after.max_item_weight == before.max_item_weight
    &&& after.expire_after == before.expire_after
    &&& after.max_total_weight == before.max_total_weight
    &&& after.shards == before.shards
    &&& is_put_in_place(before.resources, key, value, after.resources)
    &&& before.weighed && before.weight + added <= usize::MAX ==> {
        &&& after.weighed
        &&& after.weight == held_weight(after.resources)
        &&& added <= after.weight <= before.weight + added
        &&& after.takes(after.resources)
        &&& forall|k: Seq<u8>| #[trigger]
            before.resources.contains_key(k) && before.shards[k] != before.shards[key]
                ==> after.resources.contains_key(k)
        &&& before.takes(before.resources.insert(key, value)) || before.has_room(added)
            ==> after.resources == before.resources.insert(key, value)
        &&& all_weigh_at_most(after.resources, after.max_total_weight / 16) ==> after.weight
            <= after.max_total_weight
    }
}

/// Moves what a cache holds into a new one, of which everything can be given up again. Each key
/// belongs to the same shard as before, so that nothing is lost.
fn rebuilt(c: &CachedResources, max_weight: usize) -> (r: CachedResources)
    requires
        max_weight >= LEAST_TOTAL_WEIGHT,
        cached_resources(*c).dom().finite(),
        is_weighed(*c) ==> cached_weight(*c) == held_weight(cached_resources(*c)) && fits(
            cached_resources(*c),
            resources_shards(*c),
            FIXED_CAPACITY as nat,
            max_weight as nat,
        ),
    ensures
        is_scannable(r),
        resources_capacity(r) == FIXED_CAPACITY,
        resources_max_weight(r) == max_weight,
        resources_shards(r) == resources_shards(*c),
        is_part(cached_resources(r), cached_resources(*c)),
        is_weighed(*c) && cached_weight(*c) <= usize::MAX ==> is_weighed(r) && cached_resources(r)
            == cached_resources(*c) && cached_weight(r) == cached_weight(*c),
{
    let mut list = list_resources(c);
    let mut r = new_resources_like(c, FIXED_CAPACITY, max_weight);
    let ghost held = cached_resources(*c);
    let ghost shards = resources_shards(*c);
    let ghost weighed = is_weighed(*c) && cached_weight(*c) <= usize::MAX;
    proof {
        assert(cached_resources(r).dom() =~= Set::empty());
    }
    while list.len() > 0
        invariant
            held == cached_resources(*c),
            shards == resources_shards(*c),
            weighed == (is_weighed(*c) && cached_weight(*c) <= usize::MAX),
            held.dom().finite(),
            weighed ==> cached_weight(*c) == held_weight(held) && fits(
                held,
                shards,
                FIXED_CAPACITY as nat,
                max_weight as nat,
            ),
            are_kept(list@, held),
            forall|i: int, j: int|
                0 <= i < j < list@.len() ==> (#[trigger] list@[i]).0@ != (#[trigger] list@[j]).0@,
            is_scannable(r),
            resources_capacity(r) == FIXED_CAPACITY,
            resources_max_weight(r) == max_weight,
            resources_shards(r) == shards,
            is_part(cached_resources(r), held),
            weighed ==> is_weighed(r) && cached_weight(r) == held_weight(cached_resources(r)),
            forall|i: int|
                0 <= i < list@.len() ==> !cached_resources(r).contains_key((#[trigger] list@[i]).0@),
            weighed ==> forall|k: Seq<u8>| #[trigger]
                held.contains_key(k) ==> cached_resources(r).contains_key(k) || exists|i: int|
                    0 <= i < list@.len() && (#[trigger] list@[i]).0@ == k,
        decreases list@.len(),
    {
        let ghost before = list@;
        let ghost kept = cached_resources(r);
        let (key, value) = list.remove(0);
        proof {
            assert(before[0] == (key, value));
            assert forall|i: int| 0 <= i < list@.len() implies #[trigger] list@[i] == before[i
                + 1] by {}
            let more = kept.insert(key@, value@);
            assert(held.contains_key(before[0].0@));
            assert(is_part(more, held));
            lemma_part_weight(kept, held);
            lemma_part_weight(more, held);
            lemma_weight_with(kept, key@, value@);
            if weighed {
                lemma_part_fits(more, held, shards, FIXED_CAPACITY as nat, max_weight as nat);
            }
        }
        insert_resource(&mut r, key, value);
        proof {
            assert forall|i: int| 0 <= i < list@.len() implies !cached_resources(r).contains_key(
                (#[trigger] list@[i]).0@,
            ) by {
                assert(list@[i] == before[i + 1]);
                assert(before[0].0@ != before[i + 1].0@);
            }
            if weighed {
                assert(cached_resources(r) == kept.insert(key@, value@));
                assert forall|k: Seq<u8>| #[trigger] held.contains_key(
                    k,
                ) implies cached_resources(r).contains_key(k) || exists|i: int|
                    0 <= i < list@.len() && (#[trigger] list@[i]).0@ == k by {
                    if !kept.contains_key(k) && k != key@ {
                        let i = choose|i: int|
                            0 <= i < before.len() && (#[trigger] before[i]).0@ == k;
                        assert(list@[i - 1] == before[i]);
                    }
                }
            }
        }
    }
    proof {
        if weighed {
            assert(cached_resources(r) =~= held);
        }
    }
    r
}

/// A cache of resources by path and encodings.
pub struct ResourceCache {
    cache: CachedResources,
    max_item_weight: u64,
    expire_after: Duration,
    max_total_weight: usize,
    /// Whether something may have been taken out of the cache since it was made.
    cleaned: bool,
}

impl View for ResourceCache {
    type V = ResourceCacheView;

    closed spec fn view(&self) -> ResourceCacheView {
        ResourceCacheView {
            resources: cached_resources(self.cache),
            max_item_weight: self.max_item_weight,
            expire_after: duration_nanos(self.expire_after),
            max_total_weight: resources_max_weight(self.cache),
            weight: cached_weight(self.cache),
            weighed: is_weighed(self.cache),
            shards: resources_shards(self.cache),
        }
    }
}

impl ResourceCache {
    /// Whether the state is consistent: the cache keeps to its size, its weight is that of what it
    /// holds unless it has overflowed, and resources can be put into it unless it has been
    /// cleaned.
    pub closed spec fn wf(self) -> bool {
        &&& resources_capacity(self.cache) == FIXED_CAPACITY
        &&& holds_at_most(cached_resources(self.cache), FIXED_CAPACITY as nat)
        &&& self.max_total_weight >= LEAST_TOTAL_WEIGHT
        &&& resources_max_weight(self.cache) == self.max_total_weight
        &&& forall|k: Seq<u8>| #[trigger] resources_shards(self.cache)[k] < 16
        &&& is_weighed(self.cache) ==> cached_weight(self.cache) == held_weight(
            cached_resources(self.cache),
        ) && fits(
            cached_resources(self.cache),
            resources_shards(self.cache),
            FIXED_CAPACITY as nat,
            self.max_total_weight as nat,
        )
        &&& !self.cleaned ==> is_scannable(self.cache)
    }

    /// Returns the resource for a path and encodings, unless it is not there or has expired.
    /// If it has, everything else that has expired is given up too.
    pub fn get(&mut self, path: &str, encodings: CompressionSupport, now: u64) -> (r: Option<Resource>)
        requires
            old(self).wf(),
        ensures
            final(self).wf(),
            final(self)@.max_item_weight == old(self)@.max_item_weight,
            final(self)@.expire_after == old(self)@.expire_after,
            final(self)@.max_total_weight == old(self)@.max_total_weight,
            final(self)@.shards == old(self)@.shards,
            old(self)@.weighed ==> final(self)@.weighed && final(self)@.weight <= old(self)@.weight,
            match r {
                Some(res) => old(self)@.found(path@, encodings, now) == Some(res@),
                None => old(self)@.found(path@, encodings, now) is None,
            },
            if r is None && old(self)@.resources.contains_key(key_bytes(path@, encodings)) {
                &&& is_cleaned(
                    old(self)@.resources,
                    now,
                    old(self)@.expire_after,
                    final(self)@.resources,
                )
                &&& final(self)@.resources == no_resources() ==> final(self)@.weight == 0
            } else {
                final(self)@ == old(self)@
            },
    {
        let key = CacheKey::new(String::from_str(path), encodings).to_bytes();
        match get_resource(&self.cache, &key) {
            None => None,
            Some(value) => {
                let age: u64 = if now >= value.insert_time {
                    now - value.insert_time
                } else {
                    0
                };
                let expire_after: u128 = self.expire_after.as_nanos();
                if age as u128 > expire_after {
                    // Take the opportunity to give up everything that has expired.
                    self.cleaned = true;
                    let ghost before = cached_resources(self.cache);
                    retain_fresh(&mut self.cache, now, expire_after);
                    proof {
                        let after = cached_resources(self.cache);
                        assert(is_part(after, before));
                        lemma_part_weight(after, before);
                        if is_weighed(self.cache) {
                            lemma_part_fits(
                                after,
                                before,
                                resources_shards(self.cache),
                                FIXED_CAPACITY as nat,
                                self.max_total_weight as nat,
                            );
                        }
                    }
                    return None;
                }
                Some(value.into_resource())
            },
        }
    }

    /// Whether a resource of the given length is kept.
    pub fn admits(&self, len: u64) -> (r: bool)
        ensures
            r == (len <= self@.max_item_weight),
    {
        len <= self.max_item_weight
    }

    /// Keeps a resource for a path and encodings, unless it is too large. Only content in
    /// memory is kept.
    pub fn insert(&mut self, path: String, encodings: CompressionSupport, resource: Resource, now: u64)
        requires
            old(self).wf(),
        ensures
            final(self).wf(),
            if resource@.len > old(self)@.max_item_weight || resource@.content is None {
                final(self)@ == old(self)@
            } else {
                is_inserted(
                    old(self)@,
                    key_bytes(path@, encodings),
                    (resource@, now),
                    final(self)@,
                )
            },
    {
        if !self.admits(resource.len()) {
            return;
        }
        match resource.content {
            ResourceContent::File => {
                return;
            },
            ResourceContent::Memory(_) => {},
        }
        let key = CacheKey::new(path, encodings).to_bytes();
        let ghost before = self@;
        let ghost value = (resource@, now);
        let ghost key_view = key@;
        if self.cleaned {
            self.cache = rebuilt(&self.cache, self.max_total_weight);
            self.cleaned = false;
        }
        let ghost held = cached_resources(self.cache);
        insert_resource(&mut self.cache, key, CacheValue::new(resource, now));
        proof {
            let added = entry_weight(key_view, value.0.len);
            if before.weighed && before.weight + added <= usize::MAX {
                assert(held == before.resources);
                lemma_weight_with(held, key_view, value);
                assert(is_part(self@.resources, held.insert(key_view, value)));
                lemma_part_weight(self@.resources, held.insert(key_view, value));
                lemma_weight_without(self@.resources, key_view);
                if before.has_room(added) {
                    lemma_room_fits(
                        held,
                        before.shards,
                        FIXED_CAPACITY as nat,
                        before.max_total_weight,
                        key_view,
                        value,
                    );
                }
                if all_weigh_at_most(self@.resources, before.max_total_weight / 16) {
                    lemma_total_weight(
                        self@.resources,
                        before.shards,
                        FIXED_CAPACITY as nat,
                        before.max_total_weight,
                    );
                }
            }
        }
    }

    /// The weight of what is kept.
    pub fn current_weight(&self) -> (r: usize)
        ensures
            r == self@.weight,
    {
        weight_of(&self.cache)
    }
}

/// The cache never holds more resources than its size.
pub proof fn the_resource_cache_keeps_to_its_size(cache: ResourceCache)
    requires
        cache.wf(),
    ensures
        holds_at_most(cache@.resources, 128),
{
}

/// A resource that has been kept is found again until it expires, under its path and encodings
/// only: whatever else is found afterwards was found before.
pub proof fn kept_resources_are_found(
    before: ResourceCacheView,
    path: Seq<char>,
    encodings: CompressionSupport,
    resource: ResourceView,
    now: u64,
    after: ResourceCacheView,
    other_path: Seq<char>,
    other_encodings: CompressionSupport,
    later: u64,
)
    requires
        is_inserted(before, key_bytes(path, encodings), (resource, now), after),
    ensures
        after.found(path, encodings, later) == (if elapsed(now, later) <= after.expire_after {
            Some(resource)
        } else {
            None
        }),
        (other_path != path || other_encodings != encodings) && after.found(
            other_path,
            other_encodings,
            later,
        ) is Some ==> before.found(other_path, other_encodings, later) == after.found(
            other_path,
            other_encodings,
            later,
        ),
{
    keys_are_distinct(path, encodings, other_path, other_encodings);
}

/// Resources are kept side by side: where there is room for one more, everything that was found
/// before is still found, but for what the new one replaces.
pub proof fn resources_are_kept_side_by_side(
    before: ResourceCacheView,
    path: Seq<char>,
    encodings: CompressionSupport,
    resource: ResourceView,
    now: u64,
    after: ResourceCacheView,
    other_path: Seq<char>,
    other_encodings: CompressionSupport,
    later: u64,
)
    requires
        is_inserted(before, key_bytes(path, encodings), (resource, now), after),
        before.weighed,
        before.weight + entry_weight(key_bytes(path, encodings), resource.len) <= usize::MAX,
        before.has_room(entry_weight(key_bytes(path, encodings), resource.len)),
        other_path != path || other_encodings != encodings,
    ensures
        after.found(other_path, other_encodings, later) == before.found(
            other_path,
            other_encodings,
            later,
        ),
{
    keys_are_distinct(path, encodings, other_path, other_encodings);
}

/// The total weight is kept to, if nothing that is kept weighs more than a sixteenth of it.
pub proof fn the_total_weight_is_kept_to(
    before: ResourceCacheView,
    key: Seq<u8>,
    value: (ResourceView, u64),
    after: ResourceCacheView,
)
    requires
        is_inserted(before, key, value, after),
        before.weighed,
        before.weight + entry_weight(key, value.0.len) <= usize::MAX,
        all_weigh_at_most(after.resources, before.max_total_weight / 16),
    ensures
        after.weighed,
        after.weight <= before.max_total_weight,
{
}

/// What has expired does not come back: once the cache has been cleaned, a resource that is
/// older than the expiration time is not found at any point in time.
pub proof fn expired_resources_are_given_up(
    before: ResourceCacheView,
    now: u64,
    after: ResourceCacheView,
    path: Seq<char>,
    encodings: CompressionSupport,
    at: u64,
)
    requires
        is_cleaned(before.resources, now, before.expire_after, after.resources),
        before.found(path, encodings, now) is None,
    ensures
        after.found(path, encodings, at) is None,
{
}

/// A resource is found as long as no more time has gone by than it is kept for, and not longer.
/// What was put in at a later time has not expired.
pub proof fn resources_expire(
    cache: ResourceCacheView,
    path: Seq<char>,
    encodings: CompressionSupport,
    resource: ResourceView,
    since: u64,
    now: u64,
)
    ensures
        cache.resources.contains_key(key_bytes(path, encodings)) && cache.resources[key_bytes(
            path,
            encodings,
        )] == (resource, since) ==> cache.found(path, encodings, now) == (if now <= since
            + cache.expire_after {
            Some(resource)
        } else {
            None
        }),
        !cache.resources.contains_key(key_bytes(path, encodings)) ==> cache.found(
            path,
            encodings,
            now,
        ) is None,
{
}

/// Cleaning the cache keeps exactly what was put in less than the expiration time ago.
pub proof fn cleaning_keeps_what_is_fresh(
    before: Map<Seq<u8>, (ResourceView, u64)>,
    now: u64,
    expire_after: nat,
    after: Map<Seq<u8>, (ResourceView, u64)>,
    key: Seq<u8>,
)
    requires
        is_cleaned(before, now, expire_after, after),
        expire_after > 0,
    ensures
        after.contains_key(key) <==> before.contains_key(key) && now < before[key].1 + expire_after,
        after.contains_key(key) ==> after[key] == before[key],
{
}

/// A resource weighs as much as its content and its key take, beside what every resource takes.
pub proof fn weight_grows_with_the_content(
    path: Seq<char>,
    encodings: CompressionSupport,
    len: u64,
    none: CompressionSupport,
)
    ensures
        entry_weight(key_bytes(path, encodings), len) == entry_weight(
            key_bytes(Seq::empty(), none),
            0,
        ) + text(path).len() + len,
{
    lemma_auto_spec_u64_to_from_le_bytes();
    assert(text(Seq::<char>::empty()) =~= Seq::<u8>::empty());
}

} // verus!
