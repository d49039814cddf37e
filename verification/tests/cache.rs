use std::cell::Cell;
use std::sync::Arc;

use blitzortung_srv::cache::{HitRatio, ObjectCache, ServiceCache};

const SECOND: i64 = 1_000_000;
const NOW: i64 = 1_000 * SECOND;

fn ratio(cache: &ObjectCache<i64>) -> f64 {
    let HitRatio { hits, total } = cache.get_ratio();
    if total == 0 {
        0.0
    } else {
        hits as f64 / total as f64
    }
}

#[test]
fn misses_compute_and_hits_are_cached() {
    let mut cache = ObjectCache::new(60, None, None);
    let creator_count = Cell::new(0i64);
    let compute = || {
        creator_count.set(creator_count.get() + 1);
        creator_count.get()
    };
    let key = "k";

    let first = cache.get_at(key, compute, NOW);
    assert_eq!(*first, 1);
    let second = cache.get_at(key, compute, NOW + 10 * SECOND);
    assert_eq!(*second, 1);
    assert_eq!(creator_count.get(), 1);
    assert_eq!(ratio(&cache), 0.5);
    assert_eq!(cache.get_size(), 1);
}

#[test]
fn expired_entries_are_recomputed() {
    let mut cache = ObjectCache::new(20, None, None);
    let first = cache.get_at("k", || 1i64, NOW);
    assert_eq!(*first, 1);
    // after the TTL, the entry is stale even within the same second
    let second = cache.get_at("k", || 2i64, 1_020 * SECOND);
    assert_eq!(*second, 2);
}

#[test]
fn lru_size_limit_evicts_oldest() {
    // size 2: the oldest key is evicted before a new entry is inserted
    let mut cache = ObjectCache::new(60, Some(2), None);

    assert_eq!(*cache.get_at("a", || 1i64, NOW), 1);
    assert_eq!(*cache.get_at("b", || 2i64, NOW), 2);
    // touch "a", pushing it behind "b"
    assert_eq!(*cache.get_at("a", || 99i64, NOW), 1);
    // insert "c": cache full (2 >= 2) -> evict oldest ("b")
    assert_eq!(*cache.get_at("c", || 3i64, NOW), 3);
    assert_eq!(cache.get_size(), 2);
    // "b" was evicted; re-fetching it evicts the oldest ("a") again
    assert_eq!(*cache.get_at("b", || 22i64, NOW), 22);
    assert_eq!(cache.get_size(), 2);
    // "a" was evicted in turn, so it is recomputed
    assert_eq!(*cache.get_at("a", || 77i64, NOW), 77);
    assert_eq!(*cache.get_at("a", || 78i64, NOW), 77); // now cached
}

#[test]
fn cleanup_removes_expired_entries() {
    let mut cache = ObjectCache::new(20, None, Some(300 * SECOND));
    assert_eq!(*cache.get_at("k", || 1i64, NOW), 1);
    // same-second get after the cleanup period: expired removed, recompute
    let value = cache.get_at("k", || 2i64, NOW + 300 * SECOND + SECOND / 10);
    assert_eq!(*value, 2);
    assert_eq!(cache.get_size(), 1);
}

#[test]
fn get_result_does_not_cache_errors() {
    let mut cache: ObjectCache<i64> = ObjectCache::new(60, None, None);
    let result: Result<Arc<i64>, String> = cache.get_result("k", || Err("boom".to_string()), NOW);
    assert!(result.is_err());
    assert_eq!(cache.get_size(), 0);
    // a later successful production stores the value
    let ok: Result<Arc<i64>, String> = cache.get_result("k", || Ok(42), NOW);
    assert_eq!(*ok.unwrap(), 42);
    assert_eq!(cache.get_size(), 1);
    let hit: Result<Arc<i64>, String> = cache.get_result("k", || Ok(99), NOW);
    assert_eq!(*hit.unwrap(), 42);
}

#[test]
fn service_cache_selects_by_minute_offset() {
    let cache: ServiceCache<i64> = ServiceCache::new();
    assert_eq!(cache.strikes(0).get_time_to_live(), 20);
    assert_eq!(cache.strikes(-5).get_time_to_live(), 60);
    assert_eq!(cache.local_strikes(0).get_time_to_live(), 20);
    assert_eq!(cache.local_strikes(-5).get_time_to_live(), 60);
    assert_eq!(cache.global_strikes(0).get_time_to_live(), 20);
    assert_eq!(cache.histogram.get_time_to_live(), 60);
}

#[test]
fn a_stored_payload_is_found_until_it_expires() {
    let mut cache: ObjectCache<i64> = ObjectCache::new(20, None, None);
    cache.store("k", Arc::new(5), NOW);
    assert_eq!(cache.lookup("k", NOW + 19 * SECOND).map(|p| *p), Some(5));
    assert_eq!(cache.lookup("k", NOW + 20 * SECOND), None);
    assert_eq!(cache.lookup("other", NOW), None);
}

#[test]
fn storing_a_key_leaves_the_others() {
    let mut cache: ObjectCache<i64> = ObjectCache::new(20, None, None);
    cache.store("a", Arc::new(1), NOW);
    cache.store("b", Arc::new(2), NOW);
    assert_eq!(cache.lookup("a", NOW).map(|p| *p), Some(1));
    cache.store("a", Arc::new(3), NOW);
    assert_eq!(cache.lookup("a", NOW).map(|p| *p), Some(3));
    assert_eq!(cache.lookup("b", NOW).map(|p| *p), Some(2));
    assert_eq!(cache.get_size(), 2);
}

#[test]
fn a_cleanup_keeps_valid_entries() {
    let mut cache: ObjectCache<i64> = ObjectCache::new(20, None, Some(10 * SECOND));
    cache.store("old", Arc::new(1), NOW);
    cache.store("new", Arc::new(2), NOW + 15 * SECOND);
    assert_eq!(cache.lookup("new", NOW + 25 * SECOND).map(|p| *p), Some(2));
    assert_eq!(cache.get_size(), 1);
}

#[test]
fn clearing_empties_the_cache() {
    let mut cache: ObjectCache<i64> = ObjectCache::new(20, None, None);
    cache.store("a", Arc::new(1), NOW);
    cache.clear();
    assert_eq!(cache.get_size(), 0);
    assert_eq!(cache.lookup("a", NOW), None);
}

#[test]
fn mutable_selection_reaches_the_same_cache() {
    let mut cache: ServiceCache<i64> = ServiceCache::new_with_cleanup(None);
    cache.strikes_mut(0).store("k", Arc::new(1), NOW);
    cache.strikes_mut(-1).store("k", Arc::new(2), NOW);
    cache.global_strikes_mut(0).store("k", Arc::new(3), NOW);
    cache.local_strikes_mut(-1).store("k", Arc::new(4), NOW);
    assert_eq!(cache.strikes(0).get_size(), 1);
    assert_eq!(cache.strikes_mut(0).lookup("k", NOW).map(|p| *p), Some(1));
    assert_eq!(cache.strikes_mut(-7).lookup("k", NOW).map(|p| *p), Some(2));
    assert_eq!(cache.global_strikes(0).get_size(), 1);
    assert_eq!(cache.global_strikes(-1).get_size(), 0);
    assert_eq!(cache.local_strikes(0).get_size(), 0);
    assert_eq!(cache.local_strikes(-1).get_size(), 1);
}
