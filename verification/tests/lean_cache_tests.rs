use ttt::lean::cache::{CacheKey, CacheError, MemoryCache, MemoryCacheConfig, TieredCache, TieredCacheConfig, hex_string, same_key};
use ttt::lean::types::{LeanTerm, LeanLevel};
use ttt::kernel::{Term, Level};

fn hit_rate(hits: u64, accesses: u64) -> f64 {
    if accesses == 0 { 0.0 } else { hits as f64 / accesses as f64 }
}

#[test]
fn test_cache_key() {
    let key1 = CacheKey::Theorem("test_theorem".to_string());
    let key2 = CacheKey::TypeCheck(LeanTerm::sort(LeanLevel::zero()));

    assert_ne!(key1.to_string(), key2.to_string());
    assert!(key1.size_estimate() > 0);
}

#[test]
fn test_memory_cache() {
    let config = MemoryCacheConfig::default();
    let mut cache = MemoryCache::new(config);

    let key = CacheKey::Custom("test".to_string());
    let value = "test_value".to_string();

    cache.put(CacheKey::Custom("test".to_string()), value.clone(), 100).unwrap();
    let retrieved = cache.get(&key);
    assert_eq!(retrieved, Some(value));

    let missing_key = CacheKey::Custom("missing".to_string());
    let missing = cache.get(&missing_key);
    assert_eq!(missing, None);

    let stats = cache.stats();
    assert!(hit_rate(stats.hits, stats.accesses) > 0.0);
}

#[test]
fn test_cache_key_texts() {
    assert_eq!(CacheKey::Theorem("add_comm".to_string()).to_string(), "thm_add_comm");
    assert_eq!(CacheKey::Custom("x".to_string()).to_string(), "custom_x");
    let t = CacheKey::Translation(Term::Universe(Level(0))).to_string();
    assert!(t.starts_with("trans_"));
    assert!(t[6..].chars().all(|c| c.is_ascii_hexdigit() && !c.is_ascii_uppercase()));
    let v = CacheKey::Verification(LeanTerm::sort(LeanLevel::zero()), None, "Auto".to_string()).to_string();
    assert!(v.starts_with("verif_Auto_"));
    assert_eq!(CacheKey::Theorem("héllo".to_string()).size_estimate(), 6);
    assert_eq!(CacheKey::Custom(String::new()).size_estimate(), 0);
}

#[test]
fn test_key_sizes_follow_terms() {
    let goal = LeanTerm::sort(LeanLevel::zero());
    let one = CacheKey::TypeCheck(LeanTerm::sort(LeanLevel::zero())).size_estimate();
    let without = CacheKey::Verification(LeanTerm::sort(LeanLevel::zero()), None, "s".to_string()).size_estimate();
    let with = CacheKey::Verification(goal, Some(LeanTerm::sort(LeanLevel::zero())), "s".to_string()).size_estimate();
    assert_eq!(without, one);
    assert_eq!(with, 2 * one);
}

#[test]
fn test_hex_string() {
    assert_eq!(hex_string(0), "0");
    assert_eq!(hex_string(255), "ff");
    assert_eq!(hex_string(0x1a2b), "1a2b");
    assert_eq!(hex_string(u64::MAX), "ffffffffffffffff");
}

#[test]
fn test_same_key() {
    assert!(same_key(&CacheKey::Custom("a".to_string()), &CacheKey::Custom("a".to_string())));
    assert!(!same_key(&CacheKey::Custom("a".to_string()), &CacheKey::Theorem("a".to_string())));
    assert!(same_key(&CacheKey::Translation(Term::Var(3)), &CacheKey::Translation(Term::Var(3))));
    assert!(!same_key(&CacheKey::Translation(Term::Var(3)), &CacheKey::Translation(Term::Var(4))));
}

fn small_config(max_entries: usize, max_memory_bytes: u64) -> MemoryCacheConfig {
    let mut c = MemoryCacheConfig::default();
    c.max_entries = max_entries;
    c.max_memory_bytes = max_memory_bytes;
    c
}

#[test]
fn test_memory_cache_evicts_least_recent() {
    let mut cache = MemoryCache::new(small_config(2, 1 << 20));
    cache.put(CacheKey::Custom("a".to_string()), 1u32, 1).unwrap();
    cache.put(CacheKey::Custom("b".to_string()), 2u32, 1).unwrap();
    // touching "a" makes "b" the least recently used
    assert_eq!(cache.get(&CacheKey::Custom("a".to_string())), Some(1));
    cache.put(CacheKey::Custom("c".to_string()), 3u32, 1).unwrap();
    assert_eq!(cache.get(&CacheKey::Custom("b".to_string())), None);
    assert_eq!(cache.get(&CacheKey::Custom("a".to_string())), Some(1));
    assert_eq!(cache.get(&CacheKey::Custom("c".to_string())), Some(3));
    assert_eq!(cache.stats().evictions, 1);
    assert_eq!(cache.stats().insertions, 3);
}

#[test]
fn test_memory_cache_memory_bound() {
    // each key "k1".."k3" is 2 bytes; entries of 10 bytes; room for 30 bytes
    let mut cache = MemoryCache::new(small_config(100, 30));
    cache.put(CacheKey::Custom("k1".to_string()), 1u32, 10).unwrap();
    cache.put(CacheKey::Custom("k2".to_string()), 2u32, 10).unwrap();
    // 24 bytes held; with 10 more that is 34 > 30, so "k1" goes
    cache.put(CacheKey::Custom("k3".to_string()), 3u32, 10).unwrap();
    assert_eq!(cache.get(&CacheKey::Custom("k1".to_string())), None);
    assert_eq!(cache.get(&CacheKey::Custom("k2".to_string())), Some(2));
    assert_eq!(cache.stats().evictions, 1);
}

#[test]
fn test_memory_cache_full() {
    let mut cache = MemoryCache::new(small_config(10, 50));
    cache.put(CacheKey::Custom("a".to_string()), 1u32, 5).unwrap();
    let r = cache.put(CacheKey::Custom("big".to_string()), 2u32, 100);
    assert!(matches!(r, Err(CacheError::CacheFull)));
    // everything was let go trying to make room
    assert_eq!(cache.get(&CacheKey::Custom("a".to_string())), None);
    assert_eq!(cache.stats().evictions, 1);
}

#[test]
fn test_memory_cache_replace_remove_clear() {
    let mut cache = MemoryCache::new(small_config(4, 1 << 20));
    cache.put(CacheKey::Custom("a".to_string()), 1u32, 1).unwrap();
    cache.put(CacheKey::Custom("a".to_string()), 7u32, 1).unwrap();
    assert_eq!(cache.get(&CacheKey::Custom("a".to_string())), Some(7));
    assert_eq!(cache.remove(&CacheKey::Custom("a".to_string())), Some(7));
    assert_eq!(cache.remove(&CacheKey::Custom("a".to_string())), None);
    cache.put(CacheKey::Custom("b".to_string()), 2u32, 1).unwrap();
    cache.clear();
    assert_eq!(cache.stats().accesses, 0);
    assert_eq!(cache.get(&CacheKey::Custom("b".to_string())), None);
}

#[test]
fn test_memory_cache_lookup_expired() {
    let mut cache = MemoryCache::new(small_config(4, 1 << 20));
    cache.put(CacheKey::Custom("a".to_string()), 1u32, 1).unwrap();
    assert_eq!(cache.lookup(&CacheKey::Custom("a".to_string()), true), None);
    assert_eq!(cache.stats().misses, 1);
    assert_eq!(cache.get(&CacheKey::Custom("a".to_string())), None);
}

#[test]
fn test_tiered_cache_levels() {
    let mut cache: TieredCache<u64> = TieredCache::new(TieredCacheConfig::default());
    let key = CacheKey::Custom("k".to_string());
    // a miss in memory, then a hit on disk, which is promoted
    assert_eq!(cache.get_from_memory(&key), None);
    assert_eq!(cache.finish_get(CacheKey::Custom("k".to_string()), Some(42)), Some(42));
    assert_eq!(cache.stats().accesses, 1);
    assert_eq!(cache.stats().hits, 1);
    // now memory has it
    assert_eq!(cache.get_from_memory(&key), Some(42));
    assert_eq!(cache.stats().hits, 2);
    // a miss on both levels
    let other = CacheKey::Custom("other".to_string());
    assert_eq!(cache.get_from_memory(&other), None);
    assert_eq!(cache.finish_get(CacheKey::Custom("other".to_string()), None), None);
    assert_eq!(cache.stats().misses, 1);
    // storing counts an insertion once the disk has it
    cache.put_in_memory(CacheKey::Custom("p".to_string()), 7);
    cache.finish_put();
    assert_eq!(cache.stats().insertions, 1);
    assert_eq!(cache.get_from_memory(&CacheKey::Custom("p".to_string())), Some(7));
    cache.remove_from_memory(&CacheKey::Custom("p".to_string()));
    assert_eq!(cache.get_from_memory(&CacheKey::Custom("p".to_string())), None);
    cache.clear();
    assert_eq!(cache.stats().accesses, 0);
}

#[test]
fn test_tiered_cache_without_promotion() {
    let mut config = TieredCacheConfig::default();
    config.promotion_enabled = false;
    let mut cache: TieredCache<u64> = TieredCache::new(config);
    let key = CacheKey::Custom("k".to_string());
    assert_eq!(cache.finish_get(CacheKey::Custom("k".to_string()), Some(5)), Some(5));
    assert_eq!(cache.get_from_memory(&key), None);
}
