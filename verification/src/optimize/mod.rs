//! Performance-oriented variants of the kernel operations: substitution
//! fusion, hash-consing, batched De Bruijn index operations, and the
//! configuration and counters they share.

pub mod fusion;
pub mod memory;
pub mod debruijn;
pub mod api;
pub mod parallel;

pub use api::{OptimizedTTT, normalize_optimized, convertible_optimized, substitute_optimized};



use vstd::prelude::*;
use std::time::{Duration, Instant};

verus! {

/// A point in time, taken from the monotonic clock.
#[verifier::external_type_specification]
#[verifier::external_body]
pub struct ExInstant(Instant);

/// `Instant` is `Copy`, so its `clone` returns the same instant.
pub assume_specification[ <Instant as Clone>::clone ](i: &Instant) -> (r: Instant)
    ensures
        r == *i,
;

/// Calls `std::time::Instant::now`; nothing is stated of the moment read.
#[verifier::external_body]
pub(crate) fn instant_now() -> (r: Instant) {
    Instant::now()
}

/// Calls `std::time::Instant::elapsed`: the time since `start`, which depends
/// on the clock; nothing is stated of it.
#[verifier::external_body]
pub(crate) fn instant_elapsed(start: &Instant) -> (r: Duration) {
    start.elapsed()
}

/// Calls `std::time::Duration::as_nanos`: the whole nanoseconds of a
/// duration, whose value is opaque here; nothing is stated of it.
#[verifier::external_body]
pub(crate) fn duration_as_nanos(d: &Duration) -> (r: u128) {
    d.as_nanos()
}

/// Run a computation and measure it: its result, and the nanoseconds it
/// took (cut to 64 bits; the count depends on the clock).
pub fn time_operation<T, F: FnOnce() -> T>(operation: F) -> (r: (T, u64))
    requires
        operation.requires(()),
    ensures
        operation.ensures((), r.0),
{
    let start = instant_now();
    let result = operation();
    let elapsed = elapsed_nanos(&start);
    (result, elapsed)
}

/// The nanoseconds elapsed since `start`, cut to 64 bits.
pub(crate) fn elapsed_nanos(start: &Instant) -> (r: u64) {
    let d = instant_elapsed(start);
    let n = duration_as_nanos(&d);
    n as u64
}

/// Calls `num_cpus::get`, which its documentation says always returns at
/// least 1; the count itself depends on the machine.
#[verifier::external_body]
fn cpu_count() -> (r: usize)
    ensures
        r >= 1,
{
    num_cpus::get()
}

/// Performance optimization configuration
#[derive(Clone, Debug)]
pub struct OptimizationConfig {
    /// Enable substitution fusion optimizations
    pub enable_fusion: bool,
    /// Enable hash-consing for structural sharing
    pub enable_hash_consing: bool,
    /// Enable parallel normalization
    pub enable_parallel: bool,
    /// Arena allocation block size in bytes
    pub arena_block_size: usize,
    /// Hash table initial capacity for hash-consing
    pub hash_table_capacity: usize,
    /// Number of worker threads for parallel execution
    pub worker_threads: usize,
}

impl Default for OptimizationConfig {
    /// All optimizations on, 4 KiB blocks, 1024 table slots and one worker
    /// per CPU.
    fn default() -> (r: Self)
        ensures
            r.enable_fusion && r.enable_hash_consing && r.enable_parallel,
            r.arena_block_size == 4096,
            r.hash_table_capacity == 1024,
            r.worker_threads >= 1,
    {
        OptimizationConfig {
            enable_fusion: true,
            enable_hash_consing: true,
            enable_parallel: true,
            arena_block_size: 4096,
            hash_table_capacity: 1024,
            worker_threads: cpu_count(),
        }
    }
}

impl OptimizationConfig {
    /// Create configuration optimized for throughput
    pub fn throughput() -> (r: Self)
        ensures
            r.enable_fusion && r.enable_hash_consing && r.enable_parallel,
            r.arena_block_size == 8192,
            r.hash_table_capacity == 2048,
            r.worker_threads >= 1,
    {
        OptimizationConfig {
            enable_fusion: true,
            enable_hash_consing: true,
            enable_parallel: true,
            arena_block_size: 8192,
            hash_table_capacity: 2048,
            worker_threads: cpu_count(),
        }
    }

    /// Create configuration optimized for low memory usage: no hash-consing
    /// and a single thread.
    pub fn low_memory() -> (r: Self)
        ensures
            r.enable_fusion && !r.enable_hash_consing && !r.enable_parallel,
            r.arena_block_size == 1024,
            r.hash_table_capacity == 256,
            r.worker_threads == 1,
    {
        OptimizationConfig {
            enable_fusion: true,
            enable_hash_consing: false,
            enable_parallel: false,
            arena_block_size: 1024,
            hash_table_capacity: 256,
            worker_threads: 1,
        }
    }

    /// Create configuration optimized for latency: no thread
    /// synchronization.
    pub fn low_latency() -> (r: Self)
        ensures
            r.enable_fusion && r.enable_hash_consing && !r.enable_parallel,
            r.arena_block_size == 2048,
            r.hash_table_capacity == 512,
            r.worker_threads == 1,
    {
        OptimizationConfig {
            enable_fusion: true,
            enable_hash_consing: true,
            enable_parallel: false,
            arena_block_size: 2048,
            hash_table_capacity: 512,
            worker_threads: 1,
        }
    }
}

/// Performance metrics collected during optimization
#[derive(Clone, Debug)]
pub struct PerformanceMetrics {
    /// Number of terms allocated
    pub terms_allocated: u64,
    /// Number of hash-cons hits
    pub hash_cons_hits: u64,
    /// Number of hash-cons misses
    pub hash_cons_misses: u64,
    /// Number of substitution fusions applied
    pub fusion_count: u64,
    /// Total bytes allocated
    pub bytes_allocated: u64,
    /// Time spent in normalization (nanoseconds)
    pub normalization_time_ns: u64,
    /// Time spent in conversion checking (nanoseconds)
    pub conversion_time_ns: u64,
    /// Time spent in substitution (nanoseconds)
    pub substitution_time_ns: u64,
}

/// Whether every counter is zero.
pub open spec fn metrics_zero(m: PerformanceMetrics) -> bool {
    &&& m.terms_allocated == 0
    &&& m.hash_cons_hits == 0
    &&& m.hash_cons_misses == 0
    &&& m.fusion_count == 0
    &&& m.bytes_allocated == 0
    &&& m.normalization_time_ns == 0
    &&& m.conversion_time_ns == 0
    &&& m.substitution_time_ns == 0
}

/// Whether adding the counters of `b` to those of `a` stays within 64 bits.
pub open spec fn merge_fits(a: PerformanceMetrics, b: PerformanceMetrics) -> bool {
    &&& a.terms_allocated + b.terms_allocated <= u64::MAX
    &&& a.hash_cons_hits + b.hash_cons_hits <= u64::MAX
    &&& a.hash_cons_misses + b.hash_cons_misses <= u64::MAX
    &&& a.fusion_count + b.fusion_count <= u64::MAX
    &&& a.bytes_allocated + b.bytes_allocated <= u64::MAX
    &&& a.normalization_time_ns + b.normalization_time_ns <= u64::MAX
    &&& a.conversion_time_ns + b.conversion_time_ns <= u64::MAX
    &&& a.substitution_time_ns + b.substitution_time_ns <= u64::MAX
}

/// The counters of `a` and `b` added field by field.
pub open spec fn spec_merge(a: PerformanceMetrics, b: PerformanceMetrics) -> PerformanceMetrics {
    PerformanceMetrics {
        terms_allocated: (a.terms_allocated + b.terms_allocated) as u64,
        hash_cons_hits: (a.hash_cons_hits + b.hash_cons_hits) as u64,
        hash_cons_misses: (a.hash_cons_misses + b.hash_cons_misses) as u64,
        fusion_count: (a.fusion_count + b.fusion_count) as u64,
        bytes_allocated: (a.bytes_allocated + b.bytes_allocated) as u64,
        normalization_time_ns: (a.normalization_time_ns + b.normalization_time_ns) as u64,
        conversion_time_ns: (a.conversion_time_ns + b.conversion_time_ns) as u64,
        substitution_time_ns: (a.substitution_time_ns + b.substitution_time_ns) as u64,
    }
}

impl Default for PerformanceMetrics {
    /// All counters zero
    fn default() -> (r: Self)
        ensures
            metrics_zero(r),
    {
        PerformanceMetrics {
            terms_allocated: 0,
            hash_cons_hits: 0,
            hash_cons_misses: 0,
            fusion_count: 0,
            bytes_allocated: 0,
            normalization_time_ns: 0,
            conversion_time_ns: 0,
            substitution_time_ns: 0,
        }
    }
}

impl PerformanceMetrics {
    /// Create new metrics, all zero
    pub fn new() -> (r: Self)
        ensures
            metrics_zero(r),
    {
        PerformanceMetrics::default()
    }

    /// Get total computation time in nanoseconds
    pub fn total_time_ns(&self) -> (r: u64)
        requires
            self.normalization_time_ns + self.conversion_time_ns + self.substitution_time_ns <= u64::MAX,
        ensures
            r == self.normalization_time_ns + self.conversion_time_ns + self.substitution_time_ns,
    {
        self.normalization_time_ns + self.conversion_time_ns + self.substitution_time_ns
    }

    /// Merge metrics from another instance
    pub fn merge(&mut self, other: &PerformanceMetrics)
        requires
            merge_fits(*old(self), *other),
        ensures
            *final(self) == spec_merge(*old(self), *other),
    {
        self.terms_allocated += other.terms_allocated;
        self.hash_cons_hits += other.hash_cons_hits;
        self.hash_cons_misses += other.hash_cons_misses;
        self.fusion_count += other.fusion_count;
        self.bytes_allocated += other.bytes_allocated;
        self.normalization_time_ns += other.normalization_time_ns;
        self.conversion_time_ns += other.conversion_time_ns;
        self.substitution_time_ns += other.substitution_time_ns;
    }

    /// Reset all metrics to zero
    pub fn reset(&mut self)
        ensures
            metrics_zero(*final(self)),
    {
        *self = PerformanceMetrics::default();
    }
}

} // verus!
