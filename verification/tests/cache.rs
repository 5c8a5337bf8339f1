//! The prediction cache: lookups, lazy expiry and eviction.

use rustfig::cache::PredictionCache;
use rustfig::models::{Confidence, Prediction, PredictionSource, PredictionType};

fn pred(text: &str, conf: u32) -> Prediction {
    Prediction::new(
        text.to_string(),
        PredictionType::FullCommand,
        PredictionSource::History,
        Confidence(conf),
        0,
    )
}

#[test]
fn get_returns_cached_predictions() {
    let mut cache = PredictionCache::new(10, 1000);
    cache.set("ls".to_string(), vec![pred("ls -la", 800)], 50);
    let got = cache.get("ls", 100).unwrap();
    assert_eq!(got.len(), 1);
    assert_eq!(got[0].text, "ls -la");
    assert_eq!(got[0].confidence.0, 800);
}

#[test]
fn get_misses_unknown_key() {
    let cache = PredictionCache::new(10, 1000);
    assert!(cache.get("nothing", 0).is_none());
}

#[test]
fn ttl_expiry_hides_stale_entry() {
    let mut cache = PredictionCache::new(10, 1000);
    cache.set("ls".to_string(), vec![pred("ls -la", 800)], 0);
    // age below the time-to-live: still answered
    assert!(cache.get("ls", 999).is_some());
    // the time-to-live elapsed: nothing, though never removed
    assert!(cache.get("ls", 1000).is_none());
    assert!(cache.get("ls", 5000).is_none());
}

#[test]
fn contains_tracks_liveness() {
    let mut cache = PredictionCache::new(10, 1000);
    cache.set("k".to_string(), vec![pred("x", 500)], 0);
    assert!(cache.contains("k", 500));
    assert!(!cache.contains("k", 1500));
    assert!(!cache.contains("other", 500));
}

#[test]
fn empty_list_is_never_cached() {
    let mut cache = PredictionCache::new(10, 1000);
    cache.set("k".to_string(), Vec::new(), 0);
    assert!(cache.get("k", 0).is_none());
    assert!(!cache.contains("k", 0));
}

#[test]
fn set_replaces_existing_key() {
    let mut cache = PredictionCache::new(10, 1000);
    cache.set("k".to_string(), vec![pred("old", 500)], 0);
    cache.set("k".to_string(), vec![pred("new", 600)], 100);
    let got = cache.get("k", 100).unwrap();
    assert_eq!(got.len(), 1);
    assert_eq!(got[0].text, "new");
}

#[test]
fn eviction_keeps_cache_at_capacity() {
    let mut cache = PredictionCache::new(6, 1000);
    for i in 0..6 {
        cache.set(format!("key{}", i), vec![pred("x", 500)], i);
    }
    assert_eq!(cache.entries.len(), 6);
    // one more insertion into the full cache must not exceed capacity
    cache.set("key6".to_string(), vec![pred("x", 500)], 6);
    assert!(cache.entries.len() <= 6);
    assert!(cache.get("key6", 6).is_some());
}

#[test]
fn eviction_removes_expired_before_oldest() {
    let mut cache = PredictionCache::new(3, 100);
    cache.set("old".to_string(), vec![pred("a", 500)], 0);
    cache.set("live1".to_string(), vec![pred("b", 500)], 250);
    cache.set("live2".to_string(), vec![pred("c", 500)], 280);
    // the cache is full; at instant 300 the first entry is expired and
    // goes first, so both live entries survive the insertion
    cache.set("new".to_string(), vec![pred("d", 500)], 300);
    assert!(cache.get("old", 300).is_none());
    assert!(cache.get("live1", 300).is_some());
    assert!(cache.get("live2", 300).is_some());
    assert!(cache.get("new", 300).is_some());
    assert!(cache.entries.len() <= 3);
}

#[test]
fn eviction_drops_oldest_third_when_all_live() {
    let mut cache = PredictionCache::new(3, 10000);
    cache.set("oldest".to_string(), vec![pred("a", 500)], 0);
    cache.set("mid".to_string(), vec![pred("b", 500)], 10);
    cache.set("newest".to_string(), vec![pred("c", 500)], 20);
    // all live: the oldest third (one entry) must go
    cache.set("extra".to_string(), vec![pred("d", 500)], 30);
    assert!(cache.get("oldest", 30).is_none());
    assert!(cache.get("mid", 30).is_some());
    assert!(cache.get("newest", 30).is_some());
    assert!(cache.get("extra", 30).is_some());
}

#[test]
fn update_prediction_replaces_matching_text() {
    let mut cache = PredictionCache::new(10, 1000);
    cache.set("k".to_string(), vec![pred("a", 500), pred("b", 600)], 0);
    let old = pred("b", 600);
    let newer = pred("b", 900);
    assert!(cache.update_prediction("k", &old, newer));
    let got = cache.get("k", 0).unwrap();
    assert_eq!(got[1].confidence.0, 900);
    // an unknown text changes nothing and says so
    let ghostly = pred("zzz", 100);
    assert!(!cache.update_prediction("k", &ghostly, pred("zzz", 200)));
}

#[test]
fn clear_empties_the_cache() {
    let mut cache = PredictionCache::new(10, 1000);
    cache.set("k".to_string(), vec![pred("a", 500)], 0);
    cache.clear();
    assert!(cache.get("k", 0).is_none());
    assert_eq!(cache.entries.len(), 0);
}
