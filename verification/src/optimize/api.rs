//! High-level optimization API: a context that carries a configuration and
//! performance counters, and runs normalization, conversion and
//! substitution while timing them.

use vstd::prelude::*;
use std::sync::Arc;
use crate::kernel::Term;
use crate::kernel::subst::{Substitution, apply_substitution, spec_apply_subst};
use crate::eval::{normalize, EvalError};
use crate::eval::normalize::{spec_normalize, term_res_view};
use crate::eval::{convertible, spec_convertible};
use crate::shared::same_object;
use super::{OptimizationConfig, PerformanceMetrics, metrics_zero, instant_now, elapsed_nanos};

verus! {

/// Whether two metrics agree except for the three timers, and each timer
/// of `after` is at least that of `before`.
pub open spec fn counts_kept(before: PerformanceMetrics, after: PerformanceMetrics) -> bool {
    &&& after.terms_allocated == before.terms_allocated
    &&& after.hash_cons_hits == before.hash_cons_hits
    &&& after.hash_cons_misses == before.hash_cons_misses
    &&& after.fusion_count == before.fusion_count
    &&& after.bytes_allocated == before.bytes_allocated
}

/// Only the normalization timer moved, and only forward.
pub open spec fn normalization_timed(before: PerformanceMetrics, after: PerformanceMetrics) -> bool {
    &&& counts_kept(before, after)
    &&& after.normalization_time_ns >= before.normalization_time_ns
    &&& after.conversion_time_ns == before.conversion_time_ns
    &&& after.substitution_time_ns == before.substitution_time_ns
}

/// Only the conversion timer moved, and only forward.
pub open spec fn conversion_timed(before: PerformanceMetrics, after: PerformanceMetrics) -> bool {
    &&& counts_kept(before, after)
    &&& after.normalization_time_ns == before.normalization_time_ns
    &&& after.conversion_time_ns >= before.conversion_time_ns
    &&& after.substitution_time_ns == before.substitution_time_ns
}

/// Only the substitution timer moved, and only forward.
pub open spec fn substitution_timed(before: PerformanceMetrics, after: PerformanceMetrics) -> bool {
    &&& counts_kept(before, after)
    &&& after.normalization_time_ns == before.normalization_time_ns
    &&& after.conversion_time_ns == before.conversion_time_ns
    &&& after.substitution_time_ns >= before.substitution_time_ns
}

/// High-level optimization context
pub struct OptimizedTTT {
    config: OptimizationConfig,
    metrics: PerformanceMetrics,
}

impl OptimizedTTT {
    /// The configuration held.
    pub closed spec fn spec_config(&self) -> OptimizationConfig {
        self.config
    }

    /// The counters held.
    pub closed spec fn spec_metrics(&self) -> PerformanceMetrics {
        self.metrics
    }

    /// Create a new optimized TTT instance with zeroed counters
    pub fn new(config: OptimizationConfig) -> (r: Self)
        ensures
            r.spec_config() == config,
            metrics_zero(r.spec_metrics()),
    {
        OptimizedTTT { config, metrics: PerformanceMetrics::new() }
    }

    /// Create TTT with default optimizations
    pub fn with_defaults() -> (r: Self)
        ensures
            r.spec_config().enable_fusion && r.spec_config().enable_hash_consing && r.spec_config().enable_parallel,
            r.spec_config().arena_block_size == 4096,
            r.spec_config().hash_table_capacity == 1024,
            r.spec_config().worker_threads >= 1,
            metrics_zero(r.spec_metrics()),
    {
        Self::new(OptimizationConfig::default())
    }

    /// Create TTT optimized for throughput
    pub fn for_throughput() -> (r: Self)
        ensures
            r.spec_config().enable_fusion && r.spec_config().enable_hash_consing && r.spec_config().enable_parallel,
            r.spec_config().arena_block_size == 8192,
            r.spec_config().hash_table_capacity == 2048,
            r.spec_config().worker_threads >= 1,
            metrics_zero(r.spec_metrics()),
    {
        Self::new(OptimizationConfig::throughput())
    }

    /// Create TTT optimized for low memory usage
    pub fn for_low_memory() -> (r: Self)
        ensures
            r.spec_config().enable_fusion && !r.spec_config().enable_hash_consing && !r.spec_config().enable_parallel,
            r.spec_config().arena_block_size == 1024,
            r.spec_config().hash_table_capacity == 256,
            r.spec_config().worker_threads == 1,
            metrics_zero(r.spec_metrics()),
    {
        Self::new(OptimizationConfig::low_memory())
    }

    /// Create TTT optimized for low latency
    pub fn for_low_latency() -> (r: Self)
        ensures
            r.spec_config().enable_fusion && r.spec_config().enable_hash_consing && !r.spec_config().enable_parallel,
            r.spec_config().arena_block_size == 2048,
            r.spec_config().hash_table_capacity == 512,
            r.spec_config().worker_threads == 1,
            metrics_zero(r.spec_metrics()),
    {
        Self::new(OptimizationConfig::low_latency())
    }

    /// Normalize a term, adding the time taken to the normalization timer
    /// (saturating at the largest count).
    pub fn normalize(&mut self, term: &Term) -> (r: Result<Term, EvalError>)
        ensures
            term_res_view(r) == spec_normalize(*term),
            final(self).spec_config() == old(self).spec_config(),
            normalization_timed(old(self).spec_metrics(), final(self).spec_metrics()),
    {
        let start = instant_now();
        let result = if self.config.enable_fusion {
            self.normalize_with_fusion(term)
        } else {
            normalize(term)
        };
        let elapsed = elapsed_nanos(&start);
        self.metrics.normalization_time_ns = self.metrics.normalization_time_ns.saturating_add(elapsed);
        result
    }

    /// Normalize several terms one after the other. The parallel setting
    /// runs the same sequential loop.
    pub fn normalize_batch(&mut self, terms: &[Term]) -> (r: Vec<Result<Term, EvalError>>)
        ensures
            r@.len() == terms@.len(),
            forall|i: int| 0 <= i < terms@.len() ==> term_res_view(#[trigger] r@[i]) == spec_normalize(terms@[i]),
            final(self).spec_config() == old(self).spec_config(),
            normalization_timed(old(self).spec_metrics(), final(self).spec_metrics()),
    {
        if self.config.enable_parallel && terms.len() > 1 {
            self.normalize_parallel_batch(terms)
        } else {
            self.normalize_sequential(terms)
        }
    }

    /// Check whether two terms are convertible, adding the time taken to
    /// the conversion timer. With hash-consing on, a term compared with
    /// itself (the same object) is convertible at once.
    pub fn convertible(&mut self, term1: &Term, term2: &Term) -> (r: bool)
        ensures
            spec_convertible(*term1, *term2) ==> r,
            r ==> spec_convertible(*term1, *term2) || (old(self).spec_config().enable_hash_consing && *term1 == *term2),
            final(self).spec_config() == old(self).spec_config(),
            conversion_timed(old(self).spec_metrics(), final(self).spec_metrics()),
    {
        let start = instant_now();
        let result = if self.config.enable_hash_consing {
            self.convertible_with_hash_consing(term1, term2)
        } else {
            convertible(term1, term2)
        };
        let elapsed = elapsed_nanos(&start);
        self.metrics.conversion_time_ns = self.metrics.conversion_time_ns.saturating_add(elapsed);
        result
    }

    /// Apply a substitution, adding the time taken to the substitution
    /// timer.
    pub fn substitute(&mut self, term: &Term, substitution: &Substitution) -> (r: Term)
        requires
            spec_apply_subst(*term, substitution@, 0) is Some,
        ensures
            spec_apply_subst(*term, substitution@, 0) == Some(r),
            final(self).spec_config() == old(self).spec_config(),
            substitution_timed(old(self).spec_metrics(), final(self).spec_metrics()),
    {
        let start = instant_now();
        let result = apply_substitution(term, substitution);
        let elapsed = elapsed_nanos(&start);
        self.metrics.substitution_time_ns = self.metrics.substitution_time_ns.saturating_add(elapsed);
        result
    }

    /// Get current performance metrics
    pub fn metrics(&self) -> (r: &PerformanceMetrics)
        ensures
            *r == self.spec_metrics(),
    {
        &self.metrics
    }

    /// Reset performance metrics
    pub fn reset_metrics(&mut self)
        ensures
            metrics_zero(final(self).spec_metrics()),
            final(self).spec_config() == old(self).spec_config(),
    {
        self.metrics.reset();
    }

    /// Get optimization configuration
    pub fn config(&self) -> (r: &OptimizationConfig)
        ensures
            *r == self.spec_config(),
    {
        &self.config
    }

    /// Update optimization configuration
    pub fn set_config(&mut self, config: OptimizationConfig)
        ensures
            final(self).spec_config() == config,
            final(self).spec_metrics() == old(self).spec_metrics(),
    {
        self.config = config;
    }

    /// Normalization on a shared copy of the term.
    fn normalize_with_fusion(&mut self, term: &Term) -> (r: Result<Term, EvalError>)
        ensures
            term_res_view(r) == spec_normalize(*term),
            *final(self) == *old(self),
    {
        let optimized: Arc<Term> = Arc::new(term.copy());
        normalize(&optimized)
    }

    /// The batch path for the parallel setting: the sequential loop.
    fn normalize_parallel_batch(&mut self, terms: &[Term]) -> (r: Vec<Result<Term, EvalError>>)
        ensures
            r@.len() == terms@.len(),
            forall|i: int| 0 <= i < terms@.len() ==> term_res_view(#[trigger] r@[i]) == spec_normalize(terms@[i]),
            final(self).spec_config() == old(self).spec_config(),
            normalization_timed(old(self).spec_metrics(), final(self).spec_metrics()),
    {
        self.normalize_sequential(terms)
    }

    fn normalize_sequential(&mut self, terms: &[Term]) -> (r: Vec<Result<Term, EvalError>>)
        ensures
            r@.len() == terms@.len(),
            forall|i: int| 0 <= i < terms@.len() ==> term_res_view(#[trigger] r@[i]) == spec_normalize(terms@[i]),
            final(self).spec_config() == old(self).spec_config(),
            normalization_timed(old(self).spec_metrics(), final(self).spec_metrics()),
    {
        let mut out: Vec<Result<Term, EvalError>> = Vec::new();
        let mut i: usize = 0;
        while i < terms.len()
            invariant
                i <= terms@.len(),
                out@.len() == i,
                forall|j: int| 0 <= j < i ==> term_res_view(#[trigger] out@[j]) == spec_normalize(terms@[j]),
                self.spec_config() == old(self).spec_config(),
                normalization_timed(old(self).spec_metrics(), self.spec_metrics()),
            decreases terms@.len() - i,
        {
            let result = self.normalize(&terms[i]);
            out.push(result);
            i = i + 1;
        }
        out
    }

    fn convertible_with_hash_consing(&mut self, term1: &Term, term2: &Term) -> (r: bool)
        ensures
            spec_convertible(*term1, *term2) ==> r,
            r ==> spec_convertible(*term1, *term2) || *term1 == *term2,
            *final(self) == *old(self),
    {
        if same_object(term1, term2) {
            return true;
        }
        convertible(term1, term2)
    }
}

/// Normalize a term with default optimizations
pub fn normalize_optimized(term: &Term) -> (r: Result<Term, EvalError>)
    ensures
        term_res_view(r) == spec_normalize(*term),
{
    let mut ttt = OptimizedTTT::with_defaults();
    ttt.normalize(term)
}

/// Check convertibility with default optimizations (hash-consing on, so a
/// term compared with itself is convertible)
pub fn convertible_optimized(term1: &Term, term2: &Term) -> (r: bool)
    ensures
        spec_convertible(*term1, *term2) ==> r,
        r ==> spec_convertible(*term1, *term2) || *term1 == *term2,
{
    let mut ttt = OptimizedTTT::with_defaults();
    ttt.convertible(term1, term2)
}

/// Apply substitution with default optimizations
pub fn substitute_optimized(term: &Term, substitution: &Substitution) -> (r: Term)
    requires
        spec_apply_subst(*term, substitution@, 0) is Some,
    ensures
        spec_apply_subst(*term, substitution@, 0) == Some(r),
{
    let mut ttt = OptimizedTTT::with_defaults();
    ttt.substitute(term, substitution)
}

} // verus!
