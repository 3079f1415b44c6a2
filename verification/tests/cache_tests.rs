use makepad_analyzer::cache::LRUSessionCache;
use makepad_analyzer::session::Session;
use std::sync::Arc;

fn filled(capacity: usize, keys: &[&str]) -> LRUSessionCache {
    let mut cache = LRUSessionCache::new(capacity);
    for key in keys {
        cache.insert(key.to_string(), Arc::new(Session::new()));
    }
    cache
}

fn order(cache: &LRUSessionCache) -> Vec<String> {
    cache.iter().into_iter().map(|entry| entry.0).collect()
}

#[test]
fn new_cache_is_empty() {
    let mut cache = LRUSessionCache::new(3);
    assert_eq!(cache.len(), 0);
    assert_eq!(cache.capacity(), 3);
    assert!(cache.get("a").is_none());
    assert!(cache.iter().is_empty());
}

#[test]
fn insert_puts_the_newest_first() {
    let cache = filled(5, &["a", "b", "c"]);
    assert_eq!(order(&cache), vec!["c", "b", "a"]);
    assert_eq!(cache.len(), 3);
}

#[test]
fn get_below_capacity_leaves_the_order() {
    let mut cache = filled(5, &["a", "b", "c"]);
    assert!(cache.get("a").is_some());
    assert_eq!(order(&cache), vec!["c", "b", "a"]);
}

#[test]
fn get_at_capacity_refreshes() {
    let mut cache = filled(3, &["a", "b", "c"]);
    assert!(cache.get("a").is_some());
    assert_eq!(order(&cache), vec!["a", "c", "b"]);
    assert!(cache.get("missing").is_none());
    assert_eq!(order(&cache), vec!["a", "c", "b"]);
}

#[test]
fn insert_at_capacity_evicts_the_least_recently_used() {
    let mut cache = filled(3, &["a", "b", "c"]);
    cache.insert("d".to_string(), Arc::new(Session::new()));
    assert_eq!(order(&cache), vec!["d", "c", "b"]);
    assert!(cache.get("a").is_none());
    assert_eq!(cache.len(), 3);
}

#[test]
fn refreshed_key_survives_the_next_eviction() {
    let mut cache = filled(3, &["a", "b", "c"]);
    assert!(cache.get("a").is_some());
    cache.insert("d".to_string(), Arc::new(Session::new()));
    assert_eq!(order(&cache), vec!["d", "a", "c"]);
    assert!(cache.get("b").is_none());
    assert!(cache.get("a").is_some());
}

#[test]
fn insert_of_a_held_key_replaces_and_refreshes() {
    let mut cache = filled(3, &["a", "b", "c"]);
    let mut marked = Session::new();
    marked.mark_inactived();
    cache.insert("a".to_string(), Arc::new(marked));
    assert_eq!(order(&cache), vec!["a", "c", "b"]);
    assert_eq!(cache.len(), 3);
    assert!(!cache.get("a").unwrap().status());
}

#[test]
fn mark_keeps_the_session_in_place() {
    let mut cache = filled(5, &["a", "b", "c"]);
    cache.mark_session_inactived("b");
    assert_eq!(order(&cache), vec!["c", "b", "a"]);
    assert!(!cache.get("b").unwrap().status());
    assert!(cache.get("a").unwrap().status());
    cache.mark_session_inactived("missing");
    assert_eq!(cache.len(), 3);
}

#[test]
fn mark_does_not_reach_a_handle_given_out_before() {
    let mut cache = filled(5, &["a"]);
    let held = cache.get("a").unwrap();
    cache.mark_session_inactived("a");
    assert!(held.status());
    assert!(!cache.get("a").unwrap().status());
    assert_eq!(cache.collect_inactive_sessions(), vec!["a"]);
}

#[test]
fn cleanup_removes_every_inactive_session() {
    let mut cache = filled(5, &["a", "b", "c", "d"]);
    cache.mark_session_inactived("d");
    cache.mark_session_inactived("b");
    assert_eq!(cache.collect_inactive_sessions(), vec!["d", "b"]);
    cache.cleanup_sessions();
    assert_eq!(order(&cache), vec!["c", "a"]);
    assert_eq!(cache.len(), 2);
    assert!(cache.get("b").is_none());
    assert!(cache.get("d").is_none());
    cache.cleanup_sessions();
    assert_eq!(order(&cache), vec!["c", "a"]);
}

#[test]
fn cache_of_capacity_zero_holds_the_latest() {
    let mut cache = filled(0, &["a", "b"]);
    assert_eq!(order(&cache), vec!["b"]);
    assert!(cache.get("b").is_some());
}
