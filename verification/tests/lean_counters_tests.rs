use std::time::Duration;
use std::path::PathBuf;
use ttt::lean::cache::{CacheStats, CacheEntry, CacheError, MemoryCacheConfig, PersistentCacheConfig, TieredCacheConfig, CacheManagerConfig};
use ttt::lean::environment::Metrics;
use ttt::lean::mathlib::DatabaseMetrics;
use ttt::lean::parallel::ParallelMetrics;

#[test]
fn test_bridge_metrics_count_translations_and_hits() {
    let mut metrics = Metrics::new();
    metrics.record_translation_start();
    metrics.record_translation_start();
    metrics.record_cache_hit();
    metrics.record_translation_complete();
    assert_eq!(metrics.translation_count(), 2);
    assert_eq!(metrics.cache_counts(), (1, 2));
}

#[test]
fn test_database_metrics_average_query_time() {
    let mut metrics = DatabaseMetrics::default();
    metrics.record_query(10);
    metrics.record_query(20);
    assert_eq!(metrics.total_queries, 2);
    assert_eq!(metrics.avg_query_time_ms, 15);
    metrics.record_cache_hit();
    metrics.record_theorem_application();
    assert_eq!((metrics.cache_hits, metrics.theorem_applications), (1, 1));
}

#[test]
fn test_cache_stats_counts_and_resets() {
    let mut stats = CacheStats::new();
    stats.record_access();
    stats.record_hit();
    stats.record_access();
    stats.record_miss();
    stats.record_insertion();
    stats.record_eviction();
    assert_eq!((stats.accesses, stats.hits, stats.misses), (2, 1, 1));
    assert_eq!((stats.insertions, stats.evictions), (1, 1));
    stats.reset();
    assert_eq!(stats.accesses + stats.hits + stats.misses + stats.insertions + stats.evictions, 0);
}

#[test]
fn test_parallel_metrics_start_at_zero() {
    let metrics = ParallelMetrics::new(4);
    assert_eq!(metrics.worker_utilization, vec![0, 0, 0, 0]);
    assert_eq!(metrics.queue_depth, 0);
}

#[test]
fn test_cache_entry_bookkeeping() {
    let mut entry = CacheEntry::new("test_value".to_string(), 100);
    assert_eq!(entry.access_count, 1);
    assert!(!entry.is_expired());
    entry.touch();
    assert_eq!(entry.access_count, 2);
    assert_eq!(entry.version, 1);
    assert!(entry.age() < Duration::from_secs(3600));
    let short = CacheEntry::with_ttl(5u32, 8, Duration::from_secs(3600));
    assert_eq!(short.ttl, Some(Duration::from_secs(3600)));
    assert!(!short.is_expired());
}

#[test]
fn test_cache_configuration_defaults() {
    let memory = MemoryCacheConfig::default();
    assert_eq!(memory.max_entries, 10000);
    assert_eq!(memory.max_memory_bytes, 256 * 1024 * 1024);
    assert_eq!(memory.default_ttl, Some(Duration::from_secs(3600)));
    let disk = PersistentCacheConfig::default();
    assert_eq!(disk.compression_level, 6);
    assert_eq!(disk.sync_interval, Duration::from_secs(300));
    let tiered = TieredCacheConfig::default();
    assert_eq!(tiered.promotion_threshold, 3);
    assert!(tiered.promotion_enabled);
    let manager = CacheManagerConfig::default();
    assert_eq!(manager.base_dir, PathBuf::from("cache"));
    assert!(!manager.warm_on_startup);
}

#[test]
fn test_cache_error_texts() {
    assert_eq!(CacheError::CacheMiss { key: "k".to_string() }.to_display_string(), "Cache miss for key: k");
    assert_eq!(CacheError::CacheFull.to_display_string(), "Cache full, eviction failed");
    assert_eq!(CacheError::InvalidKey { key: "?".to_string() }.to_display_string(), "Invalid cache key: ?");
}
