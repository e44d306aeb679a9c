use gobby::gateway::{IdempotencyCache, MAX_ENTRIES, TTL_NANOS};

#[test]
fn record_and_get_returns_stored_value() {
    let mut cache = IdempotencyCache::new();
    cache.record("abc".to_string(), b"hello".to_vec());
    assert_eq!(cache.get("abc"), Some(b"hello".to_vec()));
}

#[test]
fn unknown_key_returns_none() {
    let mut cache = IdempotencyCache::new();
    assert!(cache.get("missing").is_none());
}

#[test]
fn replay_within_ttl_returns_recorded_reply() {
    let mut cache = IdempotencyCache::new();
    cache.record_at("k".to_string(), vec![7, 8], 1_000);
    assert_eq!(cache.get_at("k", 1_000 + TTL_NANOS), Some(vec![7, 8]));
    assert_eq!(cache.get_at("k", 0), Some(vec![7, 8]));
    assert_eq!(cache.len(), 1);
}

#[test]
fn stale_entry_is_dropped() {
    let mut cache = IdempotencyCache::default();
    cache.record_at("k".to_string(), vec![1], 5);
    assert_eq!(cache.get_at("k", 5 + TTL_NANOS + 1), None);
    assert!(cache.is_empty());
    assert_eq!(cache.get_at("k", 6), None);
}

#[test]
fn recording_again_replaces_the_reply() {
    let mut cache = IdempotencyCache::new();
    cache.record_at("k".to_string(), vec![1], 5);
    cache.record_at("k".to_string(), vec![2], 6);
    assert_eq!(cache.len(), 1);
    assert_eq!(cache.get_at("k", 7), Some(vec![2]));
}

#[test]
fn full_cache_evicts_the_oldest_entry() {
    let mut cache = IdempotencyCache::new();
    for i in 0..MAX_ENTRIES {
        cache.record_at(format!("key{}", i), vec![i as u8], 100 + i as u64);
    }
    assert_eq!(cache.len(), MAX_ENTRIES);
    cache.record_at("new".to_string(), vec![9], 5_000);
    assert_eq!(cache.len(), MAX_ENTRIES);
    assert_eq!(cache.get_at("key0", 5_000), None);
    assert_eq!(cache.get_at("key1", 5_000), Some(vec![1]));
    assert_eq!(cache.get_at("new", 5_000), Some(vec![9]));
}

#[test]
fn new_cache_is_empty() {
    let cache = IdempotencyCache::new();
    assert!(cache.is_empty());
    assert_eq!(cache.len(), 0);
}
