use ttt::optimize::parallel::{Task, TaskKind, TaskOutput, execute_task, execute_task_sync};
use ttt::kernel::Environment;
use ttt::kernel::{Term, Level, Value};
use ttt::kernel::subst::{Substitution, apply_substitution};
use ttt::optimize::{OptimizationConfig, PerformanceMetrics, OptimizedTTT, normalize_optimized, convertible_optimized, substitute_optimized};
use ttt::optimize::debruijn::{OptimizedIndexOps, VectorizedSubstitution};
use ttt::optimize::fusion::{SubstitutionFusion, FusionKind};
use ttt::optimize::memory::{HashConsTable, ValuePool, TermArena};
use std::sync::Arc;

#[test]
fn test_optimized_ttt_creation() {
    let ttt = OptimizedTTT::with_defaults();
    assert!(ttt.config().enable_fusion);
    assert!(ttt.config().enable_hash_consing);
}

#[test]
fn test_normalize_optimized() {
    let term = Term::universe(0);
    let result = normalize_optimized(&term);
    assert!(result.is_ok());
}

#[test]
fn test_convertible_optimized() {
    let term1 = Term::universe(0);
    let term2 = Term::universe(0);
    assert!(convertible_optimized(&term1, &term2));

    let term3 = Term::universe(1);
    assert!(!convertible_optimized(&term1, &term3));
}

#[test]
fn test_substitute_optimized() {
    let term = Term::var(0);
    let replacement = Term::universe(0);
    let subst = Substitution::single(0, replacement.clone());

    let result = substitute_optimized(&term, &subst);
    assert_eq!(result, replacement);
}

#[test]
fn test_metrics_tracking() {
    let mut ttt = OptimizedTTT::with_defaults();
    let term = Term::universe(0);

    let _ = ttt.normalize(&term);
    assert!(ttt.metrics().normalization_time_ns > 0);

    ttt.reset_metrics();
    assert_eq!(ttt.metrics().normalization_time_ns, 0);
}

#[test]
fn test_bulk_index_shifting() {
    let mut ops = OptimizedIndexOps::new();

    let indices = vec![0, 1, 2, 3, 4, 5, 6, 7, 8, 9];
    let shifted = ops.shift_indices_bulk(&indices, 2, 3);

    // Indices 0, 1 should be unchanged
    assert_eq!(shifted[0], 0);
    assert_eq!(shifted[1], 1);

    // Indices 2+ should be shifted by 3
    assert_eq!(shifted[2], 5);
    assert_eq!(shifted[3], 6);
    assert_eq!(shifted[9], 12);
}

#[test]
fn test_variable_lookup() {
    let ops = OptimizedIndexOps::new();

    // Environment size 5, index 0 should map to level 4
    assert_eq!(ops.lookup_variable_optimized(5, 0), Some(4));

    // Environment size 5, index 4 should map to level 0
    assert_eq!(ops.lookup_variable_optimized(5, 4), Some(0));

    // Out of bounds should return None
    assert_eq!(ops.lookup_variable_optimized(5, 5), None);
}

#[test]
fn test_vectorized_substitution() {
    let mut engine = VectorizedSubstitution::new();

    let term = Term::lambda(Term::var(1)); // λx.y
    let subst = Substitution::single(0, Term::universe(0));

    let result = engine.apply_vectorized(&term, &subst);

    // Should substitute free variable y (index 1 → 0 after adjustment)
    match result {
        Term::Lambda(body) => {
            assert!(body.is_universe());
        },
        _ => panic!("Expected lambda"),
    }
}

#[test]
fn test_shift_caching() {
    let mut ops = OptimizedIndexOps::new();

    let indices = vec![1, 2, 3, 4];

    // First call should be a cache miss
    let _result1 = ops.shift_with_cache(&indices, 2, 1);
    assert_eq!(ops.cache_misses, 1);

    // Second call should be a cache hit
    let _result2 = ops.shift_with_cache(&indices, 2, 1);
    assert_eq!(ops.cache_hits, 1);
}

#[test]
fn test_substitution_fusion() {
    let mut fusion = SubstitutionFusion::new();

    // Create a term: λx.λy.x
    let term = Term::lambda(Term::lambda(Term::var(1)));

    // Create two substitutions
    let s1 = Substitution::single(0, Term::universe(0));
    let s2 = Substitution::single(1, Term::universe(1));

    // Test fusion
    let result = fusion.fuse_substitutions(&term, &[s1, s2]);

    // Result should be equivalent to applying substitutions sequentially
    assert!(result.is_lambda());
}

#[test]
fn test_fusion_opportunities() {
    let fusion = SubstitutionFusion::new();

    // Create a complex term with fusion opportunities
    let term = Term::app(
        Term::lambda(Term::var(0)),
        Term::universe(0)
    );

    let opportunities = fusion.detect_fusion_opportunities(&term);
    assert!(!opportunities.is_empty());

    // Should detect beta reduction opportunity
    assert!(opportunities.iter().any(|op| op.kind == FusionKind::BetaReduction));
}

#[test]
fn test_composition_caching() {
    let mut fusion = SubstitutionFusion::new();

    let s1 = Substitution::single(0, Term::universe(0));
    let s2 = Substitution::single(1, Term::universe(1));

    // First composition should be a cache miss
    let _result1 = fusion.compose_pair(&s1, &s2);
    assert_eq!(fusion.fusion_misses, 1);

    // Second composition should be a cache hit
    let _result2 = fusion.compose_pair(&s1, &s2);
    assert_eq!(fusion.fusion_hits, 1);
}

#[test]
fn test_complexity_estimation() {
    let fusion = SubstitutionFusion::new();

    let simple = Term::var(0);
    let complex = Term::app(
        Term::lambda(Term::pi(Term::universe(0), Term::universe(1))),
        Term::universe(2)
    );

    assert!(fusion.estimate_term_complexity(&complex) > fusion.estimate_term_complexity(&simple));
}

#[test]
fn test_hash_consing() {
    let mut table = HashConsTable::new(64);

    let term1 = Term::universe(0);
    let term2 = Term::universe(0);

    let hc1 = table.hash_cons(term1);
    let hc2 = table.hash_cons(term2);

    // Should be the same canonical representation
    assert!(Arc::ptr_eq(&hc1, &hc2));

    let stats = table.stats();
    assert_eq!(stats.hits, 1);
    assert_eq!(stats.misses, 1);
}

#[test]
fn test_value_pool() {
    let mut pool = ValuePool::new(10);

    let value = Value::universe(Level(0));
    let slot = pool.allocate(value.clone());

    assert_eq!(pool.get(slot), Some(&value));

    pool.deallocate(slot);
    assert_eq!(pool.get(slot), None);

    let stats = pool.stats();
    assert_eq!(stats.total_allocations, 1);
    assert_eq!(stats.total_deallocations, 1);
}

#[test]
fn test_deep_hash_consing() {
    let mut table = HashConsTable::new(64);

    // Create two identical complex terms
    let term1 = Term::lambda(Term::app(Term::var(0), Term::universe(0)));
    let term2 = Term::lambda(Term::app(Term::var(0), Term::universe(0)));

    let hc1 = table.hash_cons_deep(term1);
    let hc2 = table.hash_cons_deep(term2);

    // Root terms should be shared
    assert!(Arc::ptr_eq(&hc1, &hc2));
}

// ---------------------------------------------------------------------
// Further cases
// ---------------------------------------------------------------------

#[test]
fn test_config_presets() {
    let low = OptimizationConfig::low_memory();
    assert!(low.enable_fusion && !low.enable_hash_consing && !low.enable_parallel);
    assert_eq!(low.arena_block_size, 1024);
    assert_eq!(low.hash_table_capacity, 256);
    assert_eq!(low.worker_threads, 1);

    let lat = OptimizationConfig::low_latency();
    assert!(lat.enable_hash_consing && !lat.enable_parallel);
    assert_eq!(lat.arena_block_size, 2048);
    assert_eq!(lat.hash_table_capacity, 512);

    let thr = OptimizationConfig::throughput();
    assert_eq!(thr.arena_block_size, 8192);
    assert_eq!(thr.hash_table_capacity, 2048);
    assert!(thr.worker_threads >= 1);

    let def = OptimizationConfig::default();
    assert_eq!(def.arena_block_size, 4096);
    assert_eq!(def.hash_table_capacity, 1024);
    assert!(def.worker_threads >= 1);
}

#[test]
fn test_metrics_merge_and_total() {
    let mut a = PerformanceMetrics::new();
    a.terms_allocated = 3;
    a.normalization_time_ns = 10;
    a.conversion_time_ns = 20;
    let mut b = PerformanceMetrics::new();
    b.terms_allocated = 4;
    b.substitution_time_ns = 5;
    a.merge(&b);
    assert_eq!(a.terms_allocated, 7);
    assert_eq!(a.total_time_ns(), 35);
    a.reset();
    assert_eq!(a.total_time_ns(), 0);
    assert_eq!(a.terms_allocated, 0);
}

#[test]
fn test_normalize_batch_and_errors() {
    let mut ttt = OptimizedTTT::for_low_latency();
    let terms = vec![Term::universe(0), Term::app(Term::universe(0), Term::universe(1)), Term::app(Term::lambda(Term::var(0)), Term::universe(2))];
    let results = ttt.normalize_batch(&terms);
    assert_eq!(results.len(), 3);
    assert_eq!(results[0], Ok(Term::universe(0)));
    assert!(results[1].is_err());
    assert_eq!(results[2], Ok(Term::universe(2)));
}

#[test]
fn test_convertible_same_object_with_hash_consing() {
    // Applying a universe does not normalize, so standard conversion says
    // no; with hash-consing on, the very same object is convertible with
    // itself.
    let term = Term::app(Term::universe(0), Term::universe(1));
    let mut with_hc = OptimizedTTT::with_defaults();
    assert!(with_hc.convertible(&term, &term));
    let mut without_hc = OptimizedTTT::for_low_memory();
    assert!(!without_hc.convertible(&term, &term));
}

#[test]
fn test_shift_negative_and_sorted() {
    let mut ops = OptimizedIndexOps::new();
    let shifted = ops.shift_indices_bulk(&[0, 1, 5], 1, -3);
    assert_eq!(shifted, vec![0, 0, 2]);
    assert_eq!(ops.bulk_operations, 0);
    let long: Vec<usize> = (0..8).collect();
    let _ = ops.shift_indices_bulk(&long, 0, 1);
    assert_eq!(ops.bulk_operations, 1);
    assert!(ops.indices_are_sorted(&[1, 2, 2, 9]));
    assert!(!ops.indices_are_sorted(&[3, 1]));
    assert!(ops.indices_are_sorted(&[]));
    assert_eq!(ops.lookup_variables_batch(3, &[0, 2, 3]), vec![Some(2), Some(0), None]);
}

#[test]
fn test_shift_cache_never_changes_a_result() {
    let mut ops = OptimizedIndexOps::new();
    assert_eq!(ops.shift_with_cache(&[1, 2, 3, 4], 2, 1), vec![1, 3, 4, 5]);
    assert_eq!(ops.shift_with_cache(&[5, 6, 7, 8], 2, 1), vec![6, 7, 8, 9]);
    assert_eq!(ops.cache_hits, 0);
    assert_eq!(ops.shift_with_cache(&[5, 6, 7, 8], 2, 1), vec![6, 7, 8, 9]);
    assert_eq!(ops.cache_hits, 1);
    ops.clear_caches();
    assert_eq!(ops.shift_with_cache(&[5, 6, 7, 8], 2, 1), vec![6, 7, 8, 9]);
    assert_eq!(ops.cache_misses, 3);
}

#[test]
fn test_vectorized_agrees_with_standard() {
    let term = Term::pi(Term::var(0), Term::app(Term::var(1), Term::var(0)));
    let subst = Substitution::single(0, Term::lambda(Term::var(1)));
    let mut engine = VectorizedSubstitution::new();
    assert_eq!(engine.apply_vectorized(&term, &subst), apply_substitution(&term, &subst));
}

#[test]
fn test_fuse_counts_and_identity_cases() {
    let mut fusion = SubstitutionFusion::new();
    let term = Term::var(0);
    assert_eq!(fusion.fuse_substitutions(&term, &[]), term);
    let s = Substitution::single(0, Term::universe(3));
    assert_eq!(fusion.fuse_substitutions(&term, &[s.clone()]), Term::universe(3));
    assert_eq!(fusion.fusion_hits + fusion.fusion_misses, 0);
    let s2 = Substitution::single(1, Term::universe(4));
    let s3 = Substitution::single(2, Term::universe(5));
    let _ = fusion.fuse_substitutions(&term, &[s, s2, s3]);
    assert_eq!(fusion.fusion_hits + fusion.fusion_misses, 2);
}

#[test]
fn test_opportunity_kinds_and_depths() {
    let fusion = SubstitutionFusion::new();
    let term = Term::let_in(Term::universe(0), Term::lambda(Term::var(0)));
    let ops = fusion.detect_fusion_opportunities(&term);
    assert_eq!(ops.len(), 2);
    assert_eq!(ops[0].kind, FusionKind::LetSubstitution);
    assert_eq!(ops[0].depth, 0);
    assert_eq!(ops[0].complexity, 3);
    assert_eq!(ops[1].kind, FusionKind::LambdaSubstitution);
    assert_eq!(ops[1].depth, 1);
    assert_eq!(ops[1].complexity, 1);
    assert_eq!(fusion.estimate_term_complexity(&term), 4);
}

#[test]
fn test_optimize_term_is_identity() {
    let mut fusion = SubstitutionFusion::new();
    let term = Term::app(Term::lambda(Term::var(0)), Term::universe(1));
    assert_eq!(fusion.optimize_term_substitutions(&term), term);
}

#[test]
fn test_hash_cons_clear_and_compact() {
    // With capacity 0 the cache keeps only the latest entry.
    let mut table = HashConsTable::new(0);
    let _ = table.hash_cons(Term::universe(1));
    let _ = table.hash_cons(Term::universe(2));
    let stats = table.stats();
    assert_eq!((stats.table_size, stats.cache_size), (2, 1));
    table.compact();
    // The first term is held by the table alone and goes; the second is
    // also in the cache and stays.
    assert_eq!(table.stats().table_size, 1);
    table.clear();
    let stats = table.stats();
    assert_eq!((stats.table_size, stats.cache_size, stats.hits, stats.misses), (0, 0, 0, 0));
}

#[test]
fn test_value_pool_reuse_and_growth() {
    let mut pool = ValuePool::new(1);
    let a = pool.allocate(Value::var(0));
    assert_eq!(a, 0);
    let b = pool.allocate(Value::var(1));
    assert_eq!(b, 1);
    assert_eq!(pool.stats().capacity, 2);
    pool.deallocate(a);
    pool.deallocate(a);
    assert_eq!(pool.stats().total_deallocations, 1);
    let c = pool.allocate(Value::var(2));
    assert_eq!(c, a);
    assert_eq!(pool.stats().used, 2);
    pool.reset();
    assert_eq!(pool.stats().capacity, 0);
}

#[test]
fn test_arena_accounting() {
    let mut arena = TermArena::new(1024);
    let stats = arena.stats();
    assert_eq!(stats.block_size, 1024);
    assert_eq!(stats.num_blocks, 1);
    assert_eq!(stats.total_allocated, 0);
    arena.reset();
    assert_eq!(arena.stats().current_block_used, 0);
}

#[test]
fn test_max_index_finding() {
    let ops = OptimizedIndexOps::new();

    // Term with variables at indices 1, 3, 7
    let term = Term::app(
        Term::lambda(Term::var(3)), // var(3) in lambda body
        Term::var(7)                // var(7) as argument
    );

    assert_eq!(ops.find_max_index_fast(&term), Some(7));
}

#[test]
fn test_index_extraction() {
    let engine = VectorizedSubstitution::new();

    let term = Term::app(
        Term::lambda(Term::var(0)),
        Term::var(5)
    );

    let indices = engine.extract_indices(&term);
    assert!(indices.contains(&0));
    assert!(indices.contains(&5));
}

#[test]
fn test_index_extraction_order() {
    let engine = VectorizedSubstitution::new();
    let term = Term::pi(Term::app(Term::var(1), Term::var(2)), Term::let_in(Term::var(3), Term::var(4)));
    assert_eq!(engine.extract_indices(&term), vec![4, 3, 2, 1]);
    let ops = OptimizedIndexOps::new();
    assert_eq!(ops.find_max_index_fast(&Term::universe(0)), None);
}

#[test]
fn test_fused_composition_applies_first_substitution_first() {
    let mut fusion = SubstitutionFusion::new();
    let t = Term::var(0);
    let s1 = Substitution::single(0, Term::var(1));
    let s2 = Substitution::single(1, Term::universe(0));
    let fused = fusion.fuse_substitutions(&t, &[s1.clone(), s2.clone()]);
    // The substitutions apply in list order: the first one, then the second.
    assert_eq!(fused, apply_substitution(&apply_substitution(&t, &s1), &s2));
    assert_eq!(fused, Term::universe(0));
    assert_ne!(fused, apply_substitution(&apply_substitution(&t, &s2), &s1));
}

#[test]
fn test_fusion_cache_never_reuses_other_substitutions() {
    let mut fusion = SubstitutionFusion::new();
    let t = Term::var(0);
    let first = fusion.fuse_substitutions(
        &t,
        &[Substitution::single(0, Term::universe(0)), Substitution::single(1, Term::universe(1))],
    );
    assert_eq!(first, Term::universe(0));
    let second = fusion.fuse_substitutions(
        &t,
        &[Substitution::single(0, Term::universe(5)), Substitution::single(1, Term::universe(6))],
    );
    assert_eq!(second, Term::universe(5));
    assert_eq!(fusion.fusion_misses, 2);
    assert_eq!(fusion.fusion_hits, 0);
}

#[test]
fn test_tasks_run_the_kernel_operations() {
    let mut fusion = SubstitutionFusion::new();
    let redex = Term::app(Term::lambda(Term::var(0)), Term::universe(0));
    let normalize = Task {
        id: 7,
        kind: TaskKind::Normalize { term: redex.clone(), env: Environment::new() },
        priority: 1,
        dependencies: vec![],
    };
    let done = execute_task(&normalize, &mut fusion);
    assert_eq!(done.task_id, 7);
    assert!(matches!(done.result, Ok(TaskOutput::NormalizedTerm(ref t)) if *t == Term::universe(0)));

    let bad = Term::app(Term::universe(0), Term::universe(1));
    let not_a_function = Task { id: 8, kind: TaskKind::Evaluate { term: bad.clone(), env: Environment::new() }, priority: 0, dependencies: vec![] };
    match execute_task(&not_a_function, &mut fusion).result {
        Err(text) => assert!(text.starts_with("Evaluation error: ")),
        Ok(_) => panic!("a universe is not a function"),
    }
    assert!(matches!(execute_task_sync(&not_a_function, &mut fusion), TaskOutput::EvaluatedValue(_)));

    let stuck = Task { id: 9, kind: TaskKind::Normalize { term: bad.clone(), env: Environment::new() }, priority: 0, dependencies: vec![] };
    assert!(matches!(execute_task_sync(&stuck, &mut fusion), TaskOutput::NormalizedTerm(ref t) if *t == bad));
    match execute_task(&stuck, &mut fusion).result {
        Err(text) => assert!(text.starts_with("Normalization error: ")),
        Ok(_) => panic!("a universe is not a function"),
    }

    let compare = Task {
        id: 10,
        kind: TaskKind::Convertible { lhs: redex, rhs: Term::universe(0), env: Environment::new() },
        priority: 0,
        dependencies: vec![],
    };
    assert!(matches!(execute_task(&compare, &mut fusion).result, Ok(TaskOutput::ConvertibilityResult(true))));

    let substitute = Task {
        id: 11,
        kind: TaskKind::ParallelSubstitution {
            term: Term::app(Term::var(0), Term::var(1)),
            substitutions: vec![Substitution::single(0, Term::universe(2))],
        },
        priority: 0,
        dependencies: vec![],
    };
    assert!(matches!(
        execute_task_sync(&substitute, &mut fusion),
        TaskOutput::SubstitutionResult(ref t) if *t == Term::app(Term::universe(2), Term::var(1))
    ));
}

#[test]
fn test_hash_consing_returns_an_equal_term() {
    let mut table = HashConsTable::new(64);
    let terms = vec![
        Term::universe(0),
        Term::universe(1),
        Term::var(0),
        Term::lambda(Term::var(0)),
        Term::app(Term::var(1), Term::universe(2)),
    ];
    for t in terms.iter() {
        assert_eq!(*table.hash_cons(t.clone()), *t);
        assert_eq!(*table.hash_cons(t.clone()), *t);
        assert_eq!(*table.hash_cons_deep(t.clone()), *t);
    }
    let a = table.hash_cons(Term::universe(0));
    let b = table.hash_cons(Term::universe(1));
    assert!(!Arc::ptr_eq(&a, &b));
}

#[test]
fn test_arena_allocation() {
    let mut arena = TermArena::new(1024);
    let val1 = arena.allocate(42u32);
    assert_eq!(*val1, 42);
    let val2 = arena.allocate(84u32);
    assert_eq!(*val2, 84);
    let stats = arena.stats();
    assert!(stats.total_allocated >= 8);
    assert_eq!(stats.num_allocations, 2);
}
