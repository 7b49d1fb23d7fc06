use std::time::Duration;

use taskkit::domain::tasks::{TaskId, TaskResult};
use taskkit::infrastructure::cache::{ResultCache, StoredEntry};

const SEC: u128 = 1_000_000_000;

fn result(id: &str, success: bool) -> TaskResult {
    TaskResult {
        task_id: TaskId(id.to_string()),
        success,
        output: None,
        error: None,
        duration: Duration::from_secs(1),
        timestamp: "2024-01-01T00:00:00.000Z".to_string(),
    }
}

#[test]
fn test_cache_insert_and_get() {
    let mut cache = ResultCache::new(Duration::from_secs(60));
    cache.insert("t1".to_string(), result("t1", true), 0);
    assert_eq!(cache.len(), 1);
    let got = cache.get("t1", 5 * SEC).unwrap();
    assert!(got.success);
    assert_eq!(got.task_id.0, "t1");
}

#[test]
fn test_cache_ttl_expiration() {
    let mut cache = ResultCache::new(Duration::from_millis(1));
    cache.insert("t1".to_string(), result("t1", true), 0);
    assert!(cache.get("t1", 20_000_000).is_none());
    assert!(cache.is_empty());
}

#[test]
fn test_cache_invalidate() {
    let mut cache = ResultCache::new(Duration::from_secs(60));
    cache.insert("t1".to_string(), result("t1", true), 0);
    cache.invalidate("t1");
    assert!(cache.is_empty());
}

#[test]
fn cache_entry_lives_exactly_its_ttl() {
    let mut cache = ResultCache::new(Duration::from_secs(10));
    cache.insert("a".to_string(), result("a", true), 100);
    assert!(cache.get("a", 100 + 10 * SEC).is_some());
    assert!(cache.get("a", 100 + 10 * SEC + 1).is_none());
    assert_eq!(cache.len(), 0);
}

#[test]
fn cache_insert_with_ttl_overrides_default_and_replaces() {
    let mut cache = ResultCache::new(Duration::from_secs(300));
    cache.insert("a".to_string(), result("a", false), 0);
    cache.insert_with_ttl("a".to_string(), result("a", true), Duration::from_secs(1), 0);
    assert_eq!(cache.len(), 1);
    assert!(cache.get("a", SEC).unwrap().success);
    assert!(cache.get("a", 2 * SEC).is_none());
    assert_eq!(cache.default_ttl(), Duration::from_secs(300));
}

#[test]
fn cache_clear_and_missing_keys() {
    let mut cache = ResultCache::new(Duration::from_secs(60));
    cache.insert("a".to_string(), result("a", true), 0);
    cache.insert("b".to_string(), result("b", true), 0);
    assert!(cache.get("zzz", 0).is_none());
    cache.invalidate("a");
    assert!(cache.get("b", 0).is_some());
    cache.clear();
    assert!(cache.is_empty());
}

#[test]
fn restore_keeps_young_entries_for_the_rest_of_their_lifetime() {
    let stored = vec![
        StoredEntry { key: "young".to_string(), result: result("young", true), inserted_at_secs: 1_000, ttl_secs: 300 },
        StoredEntry { key: "old".to_string(), result: result("old", true), inserted_at_secs: 100, ttl_secs: 300 },
        StoredEntry { key: "future".to_string(), result: result("future", true), inserted_at_secs: 5_000, ttl_secs: 10 },
    ];
    let clock = 1_000 * SEC;
    let mut cache = ResultCache::restore(Duration::from_secs(300), stored, 1_100, clock);
    assert_eq!(cache.len(), 2);
    // "young" is 100 s old: it comes back stored 100 s before the clock
    // with its whole 300 s lifetime, so it expires 200 s after the clock's
    // now.
    assert!(cache.get("young", clock + 200 * SEC).is_some());
    assert!(cache.get("young", clock + 200 * SEC + 1).is_none());
    assert!(cache.get("old", clock).is_none());
    assert!(cache.get("future", clock + 10 * SEC).is_some());
}

#[test]
fn snapshot_marks_entries_written_now_with_whole_second_lifetimes() {
    let mut cache = ResultCache::new(Duration::from_millis(2_500));
    cache.insert("a".to_string(), result("a", true), 0);
    let out = cache.snapshot(42);
    assert_eq!(out.len(), 1);
    assert_eq!(out[0].key, "a");
    assert_eq!(out[0].inserted_at_secs, 42);
    assert_eq!(out[0].ttl_secs, 2);
    assert!(out[0].result.success);
}

#[test]
fn restore_keeps_an_entry_past_half_its_lifetime() {
    let stored = vec![StoredEntry {
        key: "k".to_string(),
        result: result("k", true),
        inserted_at_secs: 94,
        ttl_secs: 10,
    }];
    let clock = 50 * SEC;
    let mut cache = ResultCache::restore(Duration::from_secs(300), stored, 100, clock);
    assert!(cache.get("k", clock).is_some());
    assert!(cache.get("k", clock + 4 * SEC).is_some());
    assert!(cache.get("k", clock + 4 * SEC + 1).is_none());
}

#[test]
fn restore_on_a_young_clock_gives_the_rest_of_the_lifetime() {
    let stored = vec![StoredEntry {
        key: "k".to_string(),
        result: result("k", true),
        inserted_at_secs: 94,
        ttl_secs: 10,
    }];
    let clock = 2 * SEC;
    let mut cache = ResultCache::restore(Duration::from_secs(300), stored, 100, clock);
    assert!(cache.get("k", clock + 4 * SEC).is_some());
    assert!(cache.get("k", clock + 4 * SEC + 1).is_none());
}
