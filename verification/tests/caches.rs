//! Caches of entity tags and resources.

use bytes::Bytes;
use serdir::compression::CompressionSupport;
use serdir::etag_cache::EtagCache;
use serdir::file_info::{FileInfo, FileKind};
use serdir::resource::{Resource, ResourceBuilder};
use serdir::resource_cache::{CacheKey, CacheSettings, CacheValue, ResourceCache};
use serdir::ETag;
use std::io::Error;
use std::time::{Duration, SystemTime};

fn resource(len: usize) -> Resource {
    ResourceBuilder::for_bytes(Bytes::from(vec![0; len]), SystemTime::now()).build()
}

#[test]
fn test_resource_cache() {
    // The keys of each cache are spread in its own way over the shards, none of which has
    // room for two of the items below. So take a cache in which the first two are apart.
    for _ in 0..64 {
        let mut cache = CacheSettings::new()
            .max_total_weight(1000)
            .max_item_weight(500)
            .into_resource_cache();
        let support = CompressionSupport::default();
        let now: u64 = 0;

        // Should be skipped (too large)
        cache.insert("large".to_string(), support, resource(600), now);
        assert!(cache.get("large", support, now).is_none());
        assert_eq!(cache.current_weight(), 0);

        // Insert first item
        cache.insert("res1".to_string(), support, resource(40), now);
        assert!(cache.get("res1", support, now).is_some());
        assert!(cache.current_weight() > 40);
        let w1 = cache.current_weight();

        // Insert second item
        cache.insert("res2".to_string(), support, resource(40), now);
        assert!(cache.get("res2", support, now).is_some());
        if cache.get("res1", support, now).is_none() {
            continue;
        }
        assert!(cache.current_weight() > w1);
        let w2 = cache.current_weight();

        // Replace second item
        cache.insert("res2".to_string(), support, resource(30), now);
        assert!(cache.current_weight() < w2);

        // Insert third item, triggering eviction
        cache.insert("res3".to_string(), support, resource(400), now);

        let w = cache.current_weight();
        assert!(w <= 1000, "Weight {} should be <= 1000 after eviction", w);

        // Test with different compression support
        let br_support = CompressionSupport::new(true, false, false);
        let res_br = resource(10);
        cache.insert("res1".to_string(), br_support, res_br.clone(), now);

        // Check that different keys are distinct
        assert!(cache.get("res1", br_support, now).is_some());
        // We don't strictly assert if the original "res1" with default support is here or not,
        // as eviction order is non-deterministic for small caches.
        return;
    }
    panic!("the first two items were never apart");
}

#[test]
fn test_resource_cache_expiration() {
    let mut cache = CacheSettings::new()
        .max_total_weight(1000)
        .expiration_time(Duration::from_millis(10))
        .max_item_weight(500)
        .into_resource_cache();
    let support = CompressionSupport::default();

    cache.insert("res".to_string(), support, resource(10), 1_000_000);
    assert!(cache.get("res", support, 1_000_000).is_some());
    assert!(cache.get("res", support, 11_000_000).is_some());
    assert!(cache.current_weight() > 0);

    assert!(cache.get("res", support, 21_000_000).is_none());
    assert_eq!(cache.current_weight(), 0);
}

#[test]
fn test_resource_cache_default_max_item_current_weight() {
    // max_total_weight = 100, default max_item_weight = 25
    let mut cache = CacheSettings::new().max_total_weight(100).into_resource_cache();
    let support = CompressionSupport::default();

    // 26 should be rejected
    cache.insert("heavy".to_string(), support, resource(26), 0);
    assert!(cache.get("heavy", support, 0).is_none());

    // 25 should be accepted
    cache.insert("ok".to_string(), support, resource(25), 0);
    assert!(cache.get("ok", support, 0).is_some());
}

#[test]
fn test_cache_settings_max_total_weight() {
    // Test that setting a valid weight works
    let settings = CacheSettings::new().max_total_weight(100);
    assert_eq!(settings.max_total_weight, 100);

    let settings = settings.max_total_weight(200);
    assert_eq!(settings.max_total_weight, 200);

    // Test that the minimum weight floor of 16 is enforced
    let settings = CacheSettings::new().max_total_weight(15);
    assert_eq!(settings.max_total_weight, 16);

    let settings = CacheSettings::new().max_total_weight(0);
    assert_eq!(settings.max_total_weight, 16);
}

#[test]
fn cache_settings_defaults() {
    let settings = CacheSettings::default();
    assert_eq!(settings.max_total_weight, 8_000_000);
    assert_eq!(settings.max_item_weight, None);
    assert_eq!(settings.expire_after, Duration::from_secs(120));
    assert!(settings.into_resource_cache().admits(2_000_000));
    assert!(!CacheSettings::new().into_resource_cache().admits(2_000_001));
}

#[test]
fn expired_entries_go_together() {
    let mut cache =
        CacheSettings::new().expiration_time(Duration::from_nanos(100)).into_resource_cache();
    let support = CompressionSupport::default();
    cache.insert("a".to_string(), support, resource(1), 0);
    cache.insert("b".to_string(), support, resource(2), 0);
    cache.insert("c".to_string(), support, resource(3), 150);
    // Looking for one that has expired gives up the other one too.
    assert!(cache.get("a", support, 200).is_none());
    assert_eq!(cache.get("c", support, 200).unwrap().len(), 3);
    assert!(cache.get("b", support, 0).is_none());
}

#[test]
fn a_cleaned_cache_takes_new_entries() {
    // With so little weight for each shard, nearly every entry has to make room for itself.
    let mut cache = CacheSettings::new()
        .max_total_weight(4_000)
        .expiration_time(Duration::from_nanos(100))
        .into_resource_cache();
    let support = CompressionSupport::default();
    for round in 0..50u64 {
        let start = round * 1_000;
        for i in 0..40u64 {
            cache.insert(format!("f{i}"), support, resource(20), start + 10 * i);
            assert_eq!(cache.get(&format!("f{i}"), support, start + 10 * i).unwrap().len(), 20);
        }
        cache.insert("old".to_string(), support, resource(1), start);
        assert!(cache.get("old", support, start + 300).is_none());
        assert!(cache.get("old", support, start).is_none());
        cache.insert("new".to_string(), support, resource(7), start + 400);
        assert_eq!(cache.get("new", support, start + 400).unwrap().len(), 7);
    }
}

#[test]
fn resources_are_kept_side_by_side() {
    let mut cache = CacheSettings::new().into_resource_cache();
    let support = CompressionSupport::default();
    let entry = |path: &str, len: usize| {
        std::mem::size_of::<CacheValue>() + std::mem::size_of::<CacheKey>() + path.len() + len
    };
    let mut weight = 0;
    for i in 0..8 {
        let path = format!("f{i}");
        cache.insert(path.clone(), support, resource(100 * i), 0);
        weight += entry(&path, 100 * i);
        assert_eq!(cache.current_weight(), weight);
    }
    for i in 0..8 {
        assert_eq!(cache.get(&format!("f{i}"), support, 0).unwrap().len(), 100 * i as u64);
    }
    // Replacing one changes the weight by the difference.
    cache.insert("f7".to_string(), support, resource(10), 0);
    assert_eq!(cache.current_weight(), weight - 690);
}

#[test]
fn the_total_weight_is_kept_to() {
    let mut cache = CacheSettings::new().max_total_weight(16_000).into_resource_cache();
    let support = CompressionSupport::default();
    for i in 0..500 {
        cache.insert(format!("f{i}"), support, resource(i), 0);
        assert!(cache.current_weight() > i && cache.current_weight() <= 16_000);
    }
    // Another limit makes another cache.
    let mut small = CacheSettings::new().max_total_weight(3_200).into_resource_cache();
    for i in 0..500 {
        small.insert(format!("f{i}"), support, resource(1), 0);
        assert!(small.current_weight() <= 3_200);
    }
}

#[test]
fn an_insert_after_a_cleaning_touches_one_shard() {
    // Each shard takes a few of these entries, so that they are spread over most shards.
    let support = CompressionSupport::default();
    for _ in 0..20 {
        let mut cache = CacheSettings::new()
            .max_total_weight(16_000)
            .expiration_time(Duration::from_nanos(100))
            .into_resource_cache();
        for i in 0..200 {
            cache.insert(format!("f{i}"), support, resource(20), 1_000);
        }
        cache.insert("old".to_string(), support, resource(1), 0);
        assert!(cache.get("old", support, 1_000).is_none());
        let found = |cache: &mut ResourceCache| -> usize {
            (0..200).filter(|i| cache.get(&format!("f{i}"), support, 1_000).is_some()).count()
        };
        let before = found(&mut cache);
        let weight = cache.current_weight();
        // The new entry is as heavy as the others, so that at most one has to go.
        cache.insert("fnew".to_string(), support, resource(20), 1_000);
        assert!(before > 16);
        assert!(found(&mut cache) + 1 >= before);
        assert!(cache.current_weight() + 10 >= weight);
    }
}

#[test]
fn resource_cache_is_bounded() {
    let mut cache = CacheSettings::new().into_resource_cache();
    let support = CompressionSupport::default();
    for i in 0..500 {
        cache.insert(format!("f{i}"), support, resource(1), 0);
    }
    let kept = (0..500).filter(|i| cache.get(&format!("f{i}"), support, 0).is_some()).count();
    assert!(0 < kept && kept <= 128);
}

#[test]
fn only_memory_is_cached() {
    let info = FileInfo::open_file("f", FileKind::File, 3, Ok(SystemTime::UNIX_EPOCH));
    let entity = match info {
        Ok(info) => ResourceBuilder::for_file(info, None).build(),
        Err(e) => panic!("{}", e.message()),
    };
    let mut cache = CacheSettings::new().into_resource_cache();
    let support = CompressionSupport::default();
    cache.insert("f".to_string(), support, entity, 0);
    assert!(cache.get("f", support, 0).is_none());
}

#[test]
fn cache_keys_differ() {
    let key = CacheKey::new("ab".to_string(), CompressionSupport::new(true, false, true));
    assert_eq!(key.to_bytes(), vec![6, 0, 0, 0, 0, 0, 0, 0, b'a', b'b']);
    let key = CacheKey::new("ab".to_string(), CompressionSupport::new(false, true, false));
    assert_eq!(key.to_bytes(), vec![1, 0, 0, 0, 0, 0, 0, 0, b'a', b'b']);
}

fn info(path: &str, len: u64) -> FileInfo {
    match FileInfo::open_file(path, FileKind::File, len, Ok(SystemTime::UNIX_EPOCH)) {
        Ok(info) => info,
        Err(e) => panic!("{}", e.message()),
    }
}

#[test]
fn etag_cache_keeps_tags() {
    let mut cache = EtagCache::new();
    let a = info("a", 1);
    let b = info("b", 1);
    assert_eq!(cache.get(&a), None);
    assert_eq!(cache.get_or_insert(a, Ok(Some(5))).unwrap(), Some(ETag(5)));
    assert_eq!(cache.get(&a), Some(Some(ETag(5))));
    assert_eq!(cache.get(&b), None);
    // What is known already takes precedence.
    assert_eq!(cache.get_or_insert(a, Ok(Some(6))).unwrap(), Some(ETag(5)));
    // A file may be known to have no tag.
    assert_eq!(cache.get_or_insert(b, Ok(None)).unwrap(), None);
    assert_eq!(cache.get(&b), Some(None));
    // A failure is not kept.
    let c = info("a", 2);
    assert!(cache.get_or_insert(c, Err(Error::other("broken"))).is_err());
    assert_eq!(cache.get(&c), None);
    cache.insert(c, Some(ETag(7)));
    assert_eq!(cache.get(&c), Some(Some(ETag(7))));
}

#[test]
fn etag_cache_is_bounded_but_keeps_the_newest() {
    let mut cache = EtagCache::new();
    for i in 0..2000u64 {
        let file = info("f", i);
        cache.insert(file, Some(ETag(i)));
        assert_eq!(cache.get(&file), Some(Some(ETag(i))));
    }
    let kept = (0..2000u64).filter(|i| cache.get(&info("f", *i)).is_some()).count();
    assert!(kept <= 256);
}
