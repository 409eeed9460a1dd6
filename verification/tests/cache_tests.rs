use json_ls::config::ServerConfig;
use json_ls::json::JsonValue;
use json_ls::schema_cache::{FetchDecision, SchemaCache};

fn small_config(ttl: u64, capacity: u64) -> ServerConfig {
    ServerConfig {
        schema_ttl_secs: ttl,
        cache_dir: None,
        schema_cache_capacity: capacity,
    }
}

fn schema_text(s: &str) -> JsonValue {
    JsonValue::Text(s.to_string())
}

#[test]
fn test_single_flight_coalesces_concurrent_fetches() {
    // With no prior entry, the first caller starts the one load; every
    // concurrent caller joins it instead of starting another.
    let mut cache = SchemaCache::new(&small_config(3600, 8));
    let url = String::from("https://example.com/a.json");
    assert!(matches!(cache.begin_get(&url, 100), FetchDecision::StartLoad));
    assert!(matches!(cache.begin_get(&url, 100), FetchDecision::InFlight));
    assert!(matches!(cache.begin_get(&url, 101), FetchDecision::InFlight));
    // A different URL is unaffected.
    let other = String::from("https://example.com/b.json");
    assert!(matches!(cache.begin_get(&other, 101), FetchDecision::StartLoad));
}

#[test]
fn test_loaded_schema_is_served_from_cache() {
    let mut cache = SchemaCache::new(&small_config(3600, 8));
    let url = String::from("https://example.com/a.json");
    assert!(matches!(cache.begin_get(&url, 100), FetchDecision::StartLoad));
    cache.finish_load_ok(&url, schema_text("payload"), 105);
    match cache.begin_get(&url, 110) {
        FetchDecision::Cached(JsonValue::Text(s)) => assert_eq!(s, "payload"),
        other => panic!("expected a cached schema, got {other:?}"),
    }
}

#[test]
fn test_ttl_expiry_reloads() {
    let mut cache = SchemaCache::new(&small_config(10, 8));
    let url = String::from("https://example.com/a.json");
    assert!(matches!(cache.begin_get(&url, 0), FetchDecision::StartLoad));
    cache.finish_load_ok(&url, schema_text("payload"), 0);
    assert!(matches!(cache.begin_get(&url, 5), FetchDecision::Cached(_)));
    // Past the TTL the entry is stale and a new load starts.
    assert!(matches!(cache.begin_get(&url, 20), FetchDecision::StartLoad));
}

#[test]
fn test_failed_load_cools_down_then_retries() {
    // Within the cooldown the next call fails fast without a load; after the
    // cooldown the failure record is cleared and the next call retries.
    let mut cache = SchemaCache::new(&small_config(3600, 8));
    let url = String::from("https://example.com/bad.json");
    assert!(matches!(cache.begin_get(&url, 0), FetchDecision::StartLoad));
    cache.finish_load_err(&url, 10);
    assert!(matches!(cache.begin_get(&url, 11), FetchDecision::Cooldown));
    assert!(matches!(cache.begin_get(&url, 69), FetchDecision::Cooldown));
    assert!(matches!(cache.begin_get(&url, 70), FetchDecision::StartLoad));
}

#[test]
fn test_lru_eviction_on_overflow() {
    let mut cache = SchemaCache::new(&small_config(3600, 2));
    let a = String::from("a");
    let b = String::from("b");
    let c = String::from("c");
    cache.begin_get(&a, 0);
    cache.finish_load_ok(&a, schema_text("a"), 0);
    cache.begin_get(&b, 1);
    cache.finish_load_ok(&b, schema_text("b"), 1);
    // Touch `a` so `b` is the least recently used.
    assert!(matches!(cache.begin_get(&a, 2), FetchDecision::Cached(_)));
    cache.begin_get(&c, 3);
    cache.finish_load_ok(&c, schema_text("c"), 3);
    // `b` was evicted; `a` and `c` are still cached.
    assert!(matches!(cache.begin_get(&a, 4), FetchDecision::Cached(_)));
    assert!(matches!(cache.begin_get(&c, 4), FetchDecision::Cached(_)));
    assert!(matches!(cache.begin_get(&b, 4), FetchDecision::StartLoad));
}

#[test]
fn test_invalidate_clears_both_caches() {
    let mut cache = SchemaCache::new(&small_config(3600, 8));
    let url = String::from("https://example.com/a.json");
    cache.begin_get(&url, 0);
    cache.finish_load_ok(&url, schema_text("payload"), 0);
    cache.invalidate(&url);
    assert!(matches!(cache.begin_get(&url, 1), FetchDecision::StartLoad));

    let bad = String::from("https://example.com/bad.json");
    cache.begin_get(&bad, 0);
    cache.finish_load_err(&bad, 0);
    cache.invalidate(&bad);
    // The cooldown record is gone too.
    assert!(matches!(cache.begin_get(&bad, 1), FetchDecision::StartLoad));
}

#[test]
fn test_default_config_bounds() {
    let config = ServerConfig::default();
    assert_eq!(config.schema_ttl_secs, 28800);
    assert_eq!(config.schema_cache_capacity, 128);
    assert!(config.cache_dir.is_none());
    assert_eq!(json_ls::config::default_ttl(), 28800);
    assert_eq!(json_ls::config::default_cache_capacity(), 128);
}
