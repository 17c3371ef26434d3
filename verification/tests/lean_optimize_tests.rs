use ttt::kernel::Term;
use ttt::lean::types::{LeanTerm, LeanLevel, LeanName};
use ttt::lean::context::TranslationContext;
use ttt::lean::optimize::{OptimizedTranslator, PersistentCache, ContextPool, CacheStatistics, optimize_sharing};

fn numeral(n: u32) -> LeanLevel {
    let mut l = LeanLevel::Zero;
    for _ in 0..n {
        l = LeanLevel::Succ(Box::new(l));
    }
    l
}

fn placeholder() -> Box<LeanTerm> {
    Box::new(LeanTerm::Sort(LeanLevel::Zero))
}

#[test]
fn test_fast_universe_translation() {
    let translator = OptimizedTranslator::new();
    assert!(translator.fast_universe_translation(0).is_some());
    assert!(translator.fast_universe_translation(15).is_some());
    assert!(translator.fast_universe_translation(16).is_none());
}

#[test]
fn test_context_pool() {
    let mut pool = ContextPool::new(2);
    let ctx1 = pool.get();
    let ctx2 = pool.get();
    pool.return_context(ctx1);
    pool.return_context(ctx2);
    let _ctx3 = pool.get();
    let (reused, created) = pool.reuse_counts();
    let rate = if reused + created > 0 { reused as f64 / (reused + created) as f64 } else { 0.0 };
    assert!(rate > 0.0);
    assert_eq!((reused, created), (1, 2));
}

#[test]
fn test_context_pool_keeps_at_most_its_maximum() {
    let mut pool = ContextPool::new(1);
    pool.return_context(TranslationContext::new());
    pool.return_context(TranslationContext::new());
    let _a = pool.get();
    let _b = pool.get();
    assert_eq!(pool.reuse_counts(), (1, 1));
}

#[test]
fn test_fast_universe_levels_are_numerals() {
    let translator = OptimizedTranslator::new();
    assert_eq!(translator.fast_universe_translation(3), Some(numeral(3)));
    assert_eq!(translator.fast_universe_translation(0), Some(LeanLevel::Zero));
}

#[test]
fn test_optimized_translation_of_a_lambda() {
    let mut translator = OptimizedTranslator::new();
    let term = Term::lambda(Term::app(Term::var(0), Term::universe(2)));
    let lean = translator.translate_optimized(&term).unwrap();
    let expected = LeanTerm::Lambda(
        LeanName::Idx(0),
        placeholder(),
        Box::new(LeanTerm::App(
            Box::new(LeanTerm::Var(LeanName::Idx(0))),
            Box::new(LeanTerm::Sort(numeral(2))),
        )),
    );
    assert_eq!(lean, expected);
}

#[test]
fn test_optimized_translation_of_binders_and_metavariables() {
    let mut translator = OptimizedTranslator::new();
    let pi = Term::pi(Term::universe(20), Term::meta(42));
    assert_eq!(
        translator.translate_optimized(&pi).unwrap(),
        LeanTerm::Pi(
            LeanName::Idx(0),
            Box::new(LeanTerm::Sort(numeral(20))),
            Box::new(LeanTerm::Const(LeanName::String("?m42".to_string()))),
        ),
    );
    let let_term = Term::let_in(Term::var(3), Term::var(0));
    assert_eq!(
        translator.translate_optimized(&let_term).unwrap(),
        LeanTerm::Let(
            LeanName::Idx(0),
            placeholder(),
            Box::new(LeanTerm::Var(LeanName::Idx(3))),
            Box::new(LeanTerm::Var(LeanName::Idx(0))),
        ),
    );
}

#[test]
fn test_second_translation_hits_the_hot_cache() {
    let mut translator = OptimizedTranslator::new();
    let term = Term::app(Term::var(1), Term::var(2));
    let first = translator.translate_optimized(&term).unwrap();
    let hits_before = translator.cache_stats().l1_hits;
    let second = translator.translate_optimized(&term).unwrap();
    assert_eq!(first, second);
    assert_eq!(translator.cache_stats().l1_hits, hits_before + 1);
}

#[test]
fn test_cleared_caches_fall_back_to_the_persistent_level() {
    let mut translator = OptimizedTranslator::new();
    let term = Term::universe(1);
    let first = translator.translate_optimized(&term).unwrap();
    translator.clear_caches();
    assert_eq!(translator.cache_stats().evictions, 1);
    let again = translator.translate_optimized(&term).unwrap();
    assert_eq!(first, again);
    assert_eq!(translator.cache_stats().l3_hits, 1);
}

#[test]
fn test_batch_translation_keeps_the_order() {
    let mut translator = OptimizedTranslator::new();
    let terms = vec![Term::var(5), Term::universe(0), Term::meta(7)];
    let out = translator.translate_batch(&terms).unwrap();
    assert_eq!(out.len(), 3);
    assert_eq!(out[0], LeanTerm::Var(LeanName::Idx(5)));
    assert_eq!(out[1], LeanTerm::Sort(LeanLevel::Zero));
    assert_eq!(out[2], LeanTerm::Const(LeanName::String("?m7".to_string())));
    assert!(translator.memory_usage() > 0);
}

#[test]
fn test_short_variable_names_come_from_no_table() {
    let translator = OptimizedTranslator::new();
    let ctx = TranslationContext::new();
    assert!(translator.fast_var_lookup(&ctx, 0).is_none());
    assert!(translator.fast_var_lookup(&ctx, 8).is_none());
}

#[test]
fn test_persistent_cache_stops_at_its_limit() {
    let mut cache = PersistentCache::new(1);
    cache.insert(1, LeanTerm::Sort(LeanLevel::Zero));
    cache.insert(2, LeanTerm::Sort(LeanLevel::Zero));
    assert_eq!(cache.size(), 1);
    assert_eq!(cache.get(1), Some(LeanTerm::Sort(LeanLevel::Zero)));
    assert_eq!(cache.get(2), None);
}

#[test]
fn test_statistics_start_at_zero() {
    let stats = CacheStatistics::new();
    assert_eq!(stats.l1_hits, 0);
    assert_eq!(stats.evictions, 0);
    let stats = CacheStatistics::default();
    assert_eq!(stats.l3_misses, 0);
}

#[test]
fn test_sharing_copies_the_term() {
    let term = LeanTerm::Var(LeanName::Idx(2));
    assert_eq!(*optimize_sharing(&term), term);
}
