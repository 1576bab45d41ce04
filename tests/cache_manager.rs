use backend::cache::{CacheManager, FetchStep};
use backend::config::CacheConfig;
use backend::error::ApiError;
use backend::schedule::complete_resync;
use backend::stats::CacheStats;
use backend::store::{glob_match, MemoryStore};

fn rate_percent(s: &CacheStats) -> f64 {
    let r = s.hit_rate();
    r.num as f64 / r.den as f64
}

#[test]
fn test_cache_stats_hit_rate() {
    let stats = CacheStats { hits: 80, misses: 20, invalidations: 5 };
    assert_eq!(rate_percent(&stats), 80.0);
}

#[test]
fn test_cache_stats_hit_rate_zero() {
    let stats = CacheStats { hits: 0, misses: 0, invalidations: 0 };
    assert_eq!(rate_percent(&stats), 0.0);
}

#[test]
fn hit_rate_ratio_and_total() {
    let stats = CacheStats { hits: 1, misses: 3, invalidations: 0 };
    let r = stats.hit_rate();
    assert_eq!((r.num, r.den), (100, 4));
    assert_eq!(stats.total_requests(), 4);
    let big = CacheStats { hits: u64::MAX, misses: u64::MAX, invalidations: 0 };
    assert_eq!(big.total_requests(), 2 * (u64::MAX as u128));
}

#[test]
fn ttl_per_cache_class() {
    let c = CacheConfig::default();
    assert_eq!(c.get_ttl("corridor"), 300);
    assert_eq!(c.get_ttl("anchor"), 600);
    assert_eq!(c.get_ttl("dashboard"), 60);
    assert_eq!(c.get_ttl("unknown"), 300);
}

#[test]
fn read_through_produces_once() {
    let mut cache = CacheManager::new(CacheConfig::default());
    let mut produced = 0;
    for t in [100u64, 150, 200] {
        let v = match cache.begin_fetch("anchor:list:50:0", t) {
            FetchStep::Cached(v) => v,
            FetchStep::Produce => {
                produced += 1;
                cache.finish_fetch("anchor:list:50:0", Ok("[1,2]".to_string()), 600, t).unwrap()
            }
        };
        assert_eq!(v, "[1,2]");
    }
    assert_eq!(produced, 1);
    let s = cache.get_stats();
    assert_eq!((s.hits, s.misses), (2, 1));
    assert!(matches!(cache.begin_fetch("anchor:list:50:0", 700), FetchStep::Produce));
}

#[test]
fn failed_producer_caches_nothing() {
    let mut cache = CacheManager::new(CacheConfig::default());
    assert!(matches!(cache.begin_fetch("k", 0), FetchStep::Produce));
    let r = cache.finish_fetch("k", Err(ApiError::InternalError("db".to_string())), 60, 0);
    assert!(matches!(r, Err(ApiError::InternalError(_))));
    assert!(matches!(cache.begin_fetch("k", 1), FetchStep::Produce));
}

#[test]
fn delete_pattern_removes_only_the_namespace() {
    let mut cache = CacheManager::new(CacheConfig::default());
    cache.set("anchor:list:50:0", "a".to_string(), 600, 0);
    cache.set("anchor:detail:1", "b".to_string(), 600, 0);
    cache.set("corridor:list:10:0:x", "c".to_string(), 300, 0);
    cache.set("dashboard:stats", "d".to_string(), 60, 0);
    cache.delete_pattern("anchor:*", 10);
    assert_eq!(cache.get_stats().invalidations, 2);
    assert_eq!(cache.get("anchor:list:50:0", 10), None);
    assert_eq!(cache.get("anchor:detail:1", 10), None);
    assert_eq!(cache.get("corridor:list:10:0:x", 10), Some("c".to_string()));
    assert_eq!(cache.get("dashboard:stats", 10), Some("d".to_string()));
}

#[test]
fn delete_counts_each_attempt() {
    let mut cache = CacheManager::new(CacheConfig::default());
    cache.set("a", "1".to_string(), 10, 0);
    cache.delete("a");
    cache.delete("missing");
    assert_eq!(cache.get_stats().invalidations, 2);
    assert_eq!(cache.get("a", 1), None);
}

#[test]
fn entries_expire_after_ttl() {
    let mut cache = CacheManager::new(CacheConfig::default());
    cache.set("dashboard:stats", "d".to_string(), 60, 1000);
    assert_eq!(cache.get("dashboard:stats", 1059), Some("d".to_string()));
    assert_eq!(cache.get("dashboard:stats", 1060), None);
}

#[test]
fn store_unavailable_is_always_a_miss() {
    let mut cache = CacheManager::without_store(CacheConfig::default());
    cache.set("k", "v".to_string(), 60, 0);
    assert_eq!(cache.get("k", 1), None);
    cache.delete("k");
    cache.delete_pattern("k*", 1);
    let s = cache.get_stats();
    assert_eq!((s.hits, s.misses, s.invalidations), (0, 1, 0));
    assert!(matches!(cache.begin_fetch("k", 2), FetchStep::Produce));
    let v = cache.finish_fetch("k", Ok("fresh".to_string()), 60, 2).unwrap();
    assert_eq!(v, "fresh");
    assert!(!cache.is_connected());
}

#[test]
fn reconnect_keeps_counters() {
    let mut cache = CacheManager::without_store(CacheConfig::default());
    assert_eq!(cache.get("k", 0), None);
    cache.replace_store(Some(MemoryStore::new()));
    assert!(cache.is_connected());
    cache.set("k", "v".to_string(), 60, 0);
    assert_eq!(cache.get("k", 1), Some("v".to_string()));
    let s = cache.get_stats();
    assert_eq!((s.hits, s.misses), (1, 1));
    cache.reset_stats();
    assert_eq!(cache.get_stats(), CacheStats { hits: 0, misses: 0, invalidations: 0 });
}

#[test]
fn failed_resync_keeps_cached_aggregates() {
    let mut cache = CacheManager::new(CacheConfig::default());
    cache.set("anchor:list:50:0", "old".to_string(), 600, 0);
    cache.set("dashboard:stats", "old".to_string(), 60, 0);
    complete_resync(&mut cache, false, 30);
    assert_eq!(cache.get("anchor:list:50:0", 30), Some("old".to_string()));
    assert_eq!(cache.get("dashboard:stats", 30), Some("old".to_string()));
    assert_eq!(cache.get("dashboard:stats", 60), None);
}

#[test]
fn successful_resync_purges_namespaces() {
    let mut cache = CacheManager::new(CacheConfig::default());
    cache.set("anchor:list:50:0", "a".to_string(), 600, 0);
    cache.set("corridor:detail:x", "c".to_string(), 600, 0);
    cache.set("dashboard:stats", "d".to_string(), 600, 0);
    cache.set("metrics:overview", "m".to_string(), 600, 0);
    cache.set("other:key", "o".to_string(), 600, 0);
    complete_resync(&mut cache, true, 30);
    assert_eq!(cache.get_stats().invalidations, 4);
    assert_eq!(cache.get("anchor:list:50:0", 30), None);
    assert_eq!(cache.get("corridor:detail:x", 30), None);
    assert_eq!(cache.get("dashboard:stats", 30), None);
    assert_eq!(cache.get("metrics:overview", 30), None);
    assert_eq!(cache.get("other:key", 30), Some("o".to_string()));
}

#[test]
fn glob_matching() {
    assert!(glob_match("anchor:*", "anchor:list:1:2"));
    assert!(glob_match("anchor:*", "anchor:"));
    assert!(!glob_match("anchor:*", "anchors"));
    assert!(glob_match("exact", "exact"));
    assert!(!glob_match("exact", "exactly"));
}
