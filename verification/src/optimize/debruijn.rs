//! Batched De Bruijn index operations: shifting lists of indices (with a
//! cache keyed by the shift), index-to-level lookup, and a substitution
//! engine that shifts replacements through these operations.

use vstd::prelude::*;
use std::sync::Arc;
use crate::assoc::{AssocMap, Keyed};
use crate::kernel::Term;
use crate::kernel::subst::{Substitution, spec_apply_subst, spec_shift};

verus! {

/// An index shifted by `shift` when it is at least `cutoff`; a negative
/// shift that would go below zero gives zero.
pub open spec fn shift_index(i: usize, cutoff: usize, shift: isize) -> usize {
    if i >= cutoff {
        if shift >= 0 {
            (i + shift) as usize
        } else if i + shift >= 0 {
            (i + shift) as usize
        } else {
            0
        }
    } else {
        i
    }
}

/// Whether shifting `i` stays within a machine word (and the shift can be
/// negated where it must be).
pub open spec fn shift_index_ok(i: usize, cutoff: usize, shift: isize) -> bool {
    i >= cutoff ==> if shift >= 0 { i + shift <= usize::MAX } else { shift != isize::MIN }
}

/// Whether every index of a list can be shifted.
pub open spec fn shift_indices_ok(s: Seq<usize>, cutoff: usize, shift: isize) -> bool {
    forall|k: int| 0 <= k < s.len() ==> shift_index_ok(#[trigger] s[k], cutoff, shift)
}

/// Each index of a list shifted.
pub open spec fn spec_shift_indices(s: Seq<usize>, cutoff: usize, shift: isize) -> Seq<usize> {
    s.map_values(|i: usize| shift_index(i, cutoff, shift))
}

/// The level of De Bruijn index `index` in an environment of `env_size`
/// entries, if the index is bound there.
pub open spec fn spec_index_level(env_size: usize, index: usize) -> Option<usize> {
    if index < env_size {
        Some((env_size - 1 - index) as usize)
    } else {
        None
    }
}

/// The variable indices of a term in the order of a depth-first walk that
/// visits the later child of a node first (the order in which a stack of
/// pending subterms yields them).
pub open spec fn spec_extract(t: Term) -> Seq<usize>
    decreases t,
{
    match t {
        Term::Var(i) => seq![i],
        Term::Universe(_) | Term::Meta(_) => Seq::empty(),
        Term::Pi(d, c) => spec_extract(*c) + spec_extract(*d),
        Term::Lambda(b) => spec_extract(*b),
        Term::App(f, a) => spec_extract(*a) + spec_extract(*f),
        Term::Let(v, b) => spec_extract(*b) + spec_extract(*v),
    }
}

fn extract_into(term: &Term, out: &mut Vec<usize>)
    ensures
        final(out)@ == old(out)@ + spec_extract(*term),
    decreases term,
{
    let ghost start = out@;
    match term {
        Term::Var(index) => out.push(*index),
        Term::Universe(_) | Term::Meta(_) => {},
        Term::Pi(domain, codomain) => {
            extract_into(codomain, out);
            extract_into(domain, out);
        },
        Term::Lambda(body) => extract_into(body, out),
        Term::App(function, argument) => {
            extract_into(argument, out);
            extract_into(function, out);
        },
        Term::Let(binding, body) => {
            extract_into(body, out);
            extract_into(binding, out);
        },
    }
    assert(out@ =~= start + spec_extract(*term));
}

fn shift_one(index: usize, cutoff: usize, shift: isize) -> (r: usize)
    requires
        shift_index_ok(index, cutoff, shift),
    ensures
        r == shift_index(index, cutoff, shift),
{
    if index >= cutoff {
        if shift >= 0 {
            index + shift as usize
        } else {
            let abs_shift = (-shift) as usize;
            index.saturating_sub(abs_shift)
        }
    } else {
        index
    }
}

fn shift_indices_scalar(indices: &[usize], cutoff: usize, shift: isize) -> (r: Vec<usize>)
    requires
        shift_indices_ok(indices@, cutoff, shift),
    ensures
        r@ == spec_shift_indices(indices@, cutoff, shift),
{
    let mut result: Vec<usize> = Vec::new();
    let mut k: usize = 0;
    while k < indices.len()
        invariant
            k <= indices@.len(),
            shift_indices_ok(indices@, cutoff, shift),
            result@ == spec_shift_indices(indices@.subrange(0, k as int), cutoff, shift),
        decreases indices@.len() - k,
    {
        let shifted = shift_one(indices[k], cutoff, shift);
        result.push(shifted);
        k = k + 1;
        assert(result@ =~= spec_shift_indices(indices@.subrange(0, k as int), cutoff, shift));
    }
    assert(indices@.subrange(0, indices@.len() as int) =~= indices@);
    result
}

/// Batched De Bruijn index operations with a cache of shifted lists keyed
/// by `(indices, cutoff, shift)`, and counters of the work done.
#[derive(Clone, Debug)]
pub struct OptimizedIndexOps {
    /// Shifted lists cached by `(indices, cutoff, shift)`
    pub shift_cache: AssocMap<(Vec<usize>, usize, isize), Vec<usize>>,
    /// Number of batched shifts of eight or more indices
    pub bulk_operations: u64,
    /// Number of shifts answered from the cache
    pub cache_hits: u64,
    /// Number of shifts computed
    pub cache_misses: u64,
}

impl Default for OptimizedIndexOps {
    fn default() -> (r: Self)
        ensures
            r.cache() == Map::<(Seq<usize>, usize, isize), Seq<usize>>::empty(),
            r.bulk_operations == 0 && r.cache_hits == 0 && r.cache_misses == 0,
    {
        Self::new()
    }
}

impl OptimizedIndexOps {
    /// The cached lists.
    pub open spec fn cache(&self) -> Map<(Seq<usize>, usize, isize), Seq<usize>> {
        self.shift_cache.map()
    }

    /// Every cached list is the shift of the indices it is cached under.
    pub open spec fn cache_sound(&self) -> bool {
        forall|k: (Seq<usize>, usize, isize)| #[trigger] self.cache().contains_key(k)
            ==> self.cache()[k] == spec_shift_indices(k.0, k.1, k.2)
    }

    /// Create new optimized index operations
    pub fn new() -> (r: Self)
        ensures
            r.cache() == Map::<(Seq<usize>, usize, isize), Seq<usize>>::empty(),
            r.bulk_operations == 0 && r.cache_hits == 0 && r.cache_misses == 0,
    {
        OptimizedIndexOps { shift_cache: AssocMap::new(), bulk_operations: 0, cache_hits: 0, cache_misses: 0 }
    }

    /// Shift a list of indices; a list of eight or more counts as a bulk
    /// operation.
    pub fn shift_indices_bulk(&mut self, indices: &[usize], cutoff: usize, shift: isize) -> (r: Vec<usize>)
        requires
            shift_indices_ok(indices@, cutoff, shift),
            indices@.len() >= 8 ==> old(self).bulk_operations < u64::MAX,
        ensures
            r@ == spec_shift_indices(indices@, cutoff, shift),
            indices@.len() < 8 ==> *final(self) == *old(self),
            indices@.len() >= 8 ==> final(self).bulk_operations == old(self).bulk_operations + 1,
            final(self).cache() == old(self).cache(),
            final(self).cache_hits == old(self).cache_hits,
            final(self).cache_misses == old(self).cache_misses,
    {
        if indices.len() < 8 {
            return shift_indices_scalar(indices, cutoff, shift);
        }
        let result = shift_indices_scalar(indices, cutoff, shift);
        self.bulk_operations += 1;
        result
    }

    /// The level of a De Bruijn index in an environment of `env_size`
    /// entries; `None` when the index is out of bounds.
    pub fn lookup_variable_optimized(&self, env_size: usize, index: usize) -> (r: Option<usize>)
        ensures
            r == spec_index_level(env_size, index),
    {
        if index >= env_size {
            return None;
        }
        Some(env_size - 1 - index)
    }

    /// The levels of several indices.
    pub fn lookup_variables_batch(&self, env_size: usize, indices: &[usize]) -> (r: Vec<Option<usize>>)
        ensures
            r@.len() == indices@.len(),
            forall|k: int| 0 <= k < indices@.len() ==> #[trigger] r@[k] == spec_index_level(env_size, indices@[k]),
    {
        let mut out: Vec<Option<usize>> = Vec::new();
        let mut k: usize = 0;
        while k < indices.len()
            invariant
                k <= indices@.len(),
                out@.len() == k,
                forall|j: int| 0 <= j < k ==> #[trigger] out@[j] == spec_index_level(env_size, indices@[j]),
            decreases indices@.len() - k,
        {
            out.push(self.lookup_variable_optimized(env_size, indices[k]));
            k = k + 1;
        }
        out
    }

    /// The largest variable index occurring in a term (bound or free, taken
    /// literally), if any.
    pub fn find_max_index_fast(&self, term: &Term) -> (r: Option<usize>)
        ensures
            r == term.spec_max_index(),
    {
        term.max_index()
    }

    /// Whether the indices are in ascending order.
    pub fn indices_are_sorted(&self, indices: &[usize]) -> (r: bool)
        ensures
            r == forall|k: int| 0 <= k < indices@.len() - 1 ==> #[trigger] indices@[k] <= indices@[k + 1],
    {
        let mut k: usize = 1;
        while k < indices.len()
            invariant
                1 <= k,
                k <= indices@.len() || indices@.len() == 0,
                forall|j: int| 0 <= j < k - 1 && j < indices@.len() - 1 ==> #[trigger] indices@[j] <= indices@[j + 1],
            decreases indices@.len() - k,
        {
            if indices[k - 1] > indices[k] {
                return false;
            }
            k = k + 1;
        }
        true
    }

    /// Shift a list of indices through the cache: the list cached for the
    /// same indices, cutoff and shift is returned; otherwise the list is
    /// shifted, and cached when it has at most 64 entries. Either way the
    /// result is the shifted list.
    pub fn shift_with_cache(&mut self, indices: &[usize], cutoff: usize, shift: isize) -> (r: Vec<usize>)
        requires
            old(self).cache_sound(),
            shift_indices_ok(indices@, cutoff, shift),
            old(self).cache_hits < u64::MAX,
            old(self).cache_misses < u64::MAX,
            indices@.len() >= 8 ==> old(self).bulk_operations < u64::MAX,
        ensures
            final(self).cache_sound(),
            r@ == spec_shift_indices(indices@, cutoff, shift),
            ({
                let key = (indices@, cutoff, shift);
                let hit = old(self).cache().contains_key(key);
                &&& hit ==> final(self).cache() == old(self).cache()
                    && final(self).cache_hits == old(self).cache_hits + 1
                    && final(self).cache_misses == old(self).cache_misses
                    && final(self).bulk_operations == old(self).bulk_operations
                &&& !hit ==> final(self).cache() == (if indices@.len() <= 64 {
                        old(self).cache().insert(key, r@)
                    } else {
                        old(self).cache()
                    })
                    && final(self).cache_hits == old(self).cache_hits
                    && final(self).cache_misses == old(self).cache_misses + 1
                    && final(self).bulk_operations == old(self).bulk_operations + (if indices@.len() >= 8 { 1int } else { 0int })
            }),
    {
        let mut input: Vec<usize> = Vec::new();
        let mut k: usize = 0;
        while k < indices.len()
            invariant
                k <= indices@.len(),
                input@ == indices@.subrange(0, k as int),
            decreases indices@.len() - k,
        {
            input.push(indices[k]);
            k = k + 1;
        }
        assert(input@ =~= indices@);
        let cache_key: (Vec<usize>, usize, isize) = (input, cutoff, shift);
        match self.shift_cache.get(&cache_key) {
            Some(cached_pattern) => {
                let result = cached_pattern.key_copy();
                proof {
                    assert(cache_key@ == (indices@, cutoff, shift));
                    assert(old(self).cache().contains_key(cache_key@));
                    assert(result@ == spec_shift_indices(indices@, cutoff, shift));
                }
                self.cache_hits += 1;
                return result;
            },
            None => {},
        }
        self.cache_misses += 1;
        let result = if indices.len() >= 8 {
            self.shift_indices_bulk(indices, cutoff, shift)
        } else {
            shift_indices_scalar(indices, cutoff, shift)
        };
        let ghost before = self.cache();
        proof {
            assert(cache_key@ == (indices@, cutoff, shift));
        }
        if indices.len() <= 64 {
            self.shift_cache.insert(cache_key, result.key_copy());
        }
        proof {
            assert forall|k: (Seq<usize>, usize, isize)| #[trigger] self.cache().contains_key(k)
                implies self.cache()[k] == spec_shift_indices(k.0, k.1, k.2) by {
                assert(before == old(self).cache());
                if k != (indices@, cutoff, shift) {
                    assert(before.contains_key(k));
                    assert(self.cache()[k] == before[k]);
                } else {
                    assert(self.cache()[k] == result@);
                }
            }
        }
        result
    }

    /// Clear caches to free memory
    pub fn clear_caches(&mut self)
        ensures
            final(self).cache() == Map::<(Seq<usize>, usize, isize), Seq<usize>>::empty(),
            final(self).bulk_operations == old(self).bulk_operations,
            final(self).cache_hits == old(self).cache_hits,
            final(self).cache_misses == old(self).cache_misses,
    {
        self.shift_cache.clear();
    }
}

/// Substitution engine that shifts replacements through the batched index
/// operations.
#[derive(Clone, Debug)]
pub struct VectorizedSubstitution {
    index_ops: OptimizedIndexOps,
}

impl Default for VectorizedSubstitution {
    fn default() -> (r: Self) {
        Self::new()
    }
}

impl VectorizedSubstitution {
    /// Create new vectorized substitution engine
    pub fn new() -> (r: Self) {
        VectorizedSubstitution { index_ops: OptimizedIndexOps::new() }
    }

    /// Apply a substitution; the result is that of `apply_substitution`.
    pub fn apply_vectorized(&mut self, term: &Term, subst: &Substitution) -> (r: Term)
        requires
            spec_apply_subst(*term, subst@, 0) is Some,
        ensures
            spec_apply_subst(*term, subst@, 0) == Some(r),
            *final(self) == *old(self),
    {
        self.apply_vectorized_aux(term, subst, 0)
    }

    fn apply_vectorized_aux(&mut self, term: &Term, subst: &Substitution, depth: usize) -> (r: Term)
        requires
            spec_apply_subst(*term, subst@, depth) is Some,
        ensures
            spec_apply_subst(*term, subst@, depth) == Some(r),
            *final(self) == *old(self),
        decreases term,
    {
        match term {
            Term::Var(index) => {
                if *index >= depth {
                    let adjusted_index = *index - depth;
                    match subst.lookup(adjusted_index) {
                        Some(replacement) => replacement.copy(),
                        None => Term::Var(*index),
                    }
                } else {
                    Term::Var(*index)
                }
            },
            Term::Universe(level) => Term::Universe(*level),
            Term::Pi(domain, codomain) => {
                let new_domain = self.apply_vectorized_aux(domain, subst, depth);
                let shifted_subst = subst.shift(0, 1);
                let new_codomain = self.apply_vectorized_aux(codomain, &shifted_subst, depth + 1);
                Term::Pi(Arc::new(new_domain), Arc::new(new_codomain))
            },
            Term::Lambda(body) => {
                let shifted_subst = subst.shift(0, 1);
                let new_body = self.apply_vectorized_aux(body, &shifted_subst, depth + 1);
                Term::Lambda(Arc::new(new_body))
            },
            Term::App(function, argument) => {
                let new_function = self.apply_vectorized_aux(function, subst, depth);
                let new_argument = self.apply_vectorized_aux(argument, subst, depth);
                Term::App(Arc::new(new_function), Arc::new(new_argument))
            },
            Term::Let(binding, body) => {
                let new_binding = self.apply_vectorized_aux(binding, subst, depth);
                let shifted_subst = subst.shift(0, 1);
                let new_body = self.apply_vectorized_aux(body, &shifted_subst, depth + 1);
                Term::Let(Arc::new(new_binding), Arc::new(new_body))
            },
            Term::Meta(id) => Term::Meta(*id),
        }
    }

    /// All variable indices of a term, later children first.
    pub fn extract_indices(&self, term: &Term) -> (r: Vec<usize>)
        ensures
            r@ == spec_extract(*term),
    {
        let mut indices: Vec<usize> = Vec::new();
        extract_into(term, &mut indices);
        assert(indices@ =~= spec_extract(*term));
        indices
    }

    fn shift_term_vectorized(&mut self, term: &Term, cutoff: usize, shift_amount: isize) -> (r: Term)
        requires
            spec_shift(*term, cutoff, shift_amount) is Some,
        ensures
            spec_shift(*term, cutoff, shift_amount) == Some(r),
            *final(self) == *old(self),
        decreases term,
    {
        match term {
            Term::Var(index) => {
                if *index >= cutoff {
                    let indices: Vec<usize> = vec![*index];
                    assert(indices@[0] == *index);
                    let shifted = self.index_ops.shift_indices_bulk(&indices, cutoff, shift_amount);
                    Term::Var(shifted[0])
                } else {
                    Term::Var(*index)
                }
            },
            Term::Universe(level) => Term::Universe(*level),
            Term::Pi(domain, codomain) => {
                let new_domain = self.shift_term_vectorized(domain, cutoff, shift_amount);
                let new_codomain = self.shift_term_vectorized(codomain, cutoff + 1, shift_amount);
                Term::Pi(Arc::new(new_domain), Arc::new(new_codomain))
            },
            Term::Lambda(body) => {
                let new_body = self.shift_term_vectorized(body, cutoff + 1, shift_amount);
                Term::Lambda(Arc::new(new_body))
            },
            Term::App(function, argument) => {
                let new_function = self.shift_term_vectorized(function, cutoff, shift_amount);
                let new_argument = self.shift_term_vectorized(argument, cutoff, shift_amount);
                Term::App(Arc::new(new_function), Arc::new(new_argument))
            },
            Term::Let(binding, body) => {
                let new_binding = self.shift_term_vectorized(binding, cutoff, shift_amount);
                let new_body = self.shift_term_vectorized(body, cutoff + 1, shift_amount);
                Term::Let(Arc::new(new_binding), Arc::new(new_body))
            },
            Term::Meta(id) => Term::Meta(*id),
        }
    }
}

} // verus!
