//! Substitution fusion: several substitutions composed into one before a
//! single traversal, with a cache of compositions, and an analysis that
//! finds where a term would create substitutions during evaluation.

use vstd::prelude::*;
use std::sync::Arc;
use crate::assoc::{AssocMap, Keyed};
use crate::kernel::Term;
use crate::kernel::subst::{Substitution, apply_substitution, spec_apply_subst, spec_compose, compose_ok};

verus! {

/// The cache key of a pair of substitutions: the two substitutions.
pub open spec fn pair_key(s1: Seq<Option<Term>>, s2: Seq<Option<Term>>) -> (Seq<Option<Term>>, Seq<Option<Term>>) {
    (s1, s2)
}

/// Largest number of cached compositions.
pub const COMPOSITION_CACHE_LIMIT: usize = 1024;

/// One cached composition of `s1` and `s2`, `s1` applied first: the cached
/// entry for the pair if there is one, else the composition (cached while
/// the cache has room). `None` where the composition overflows.
pub open spec fn spec_compose_pair(
    cache: Map<(Seq<Option<Term>>, Seq<Option<Term>>), Seq<Option<Term>>>,
    s1: Seq<Option<Term>>,
    s2: Seq<Option<Term>>,
) -> Option<(Seq<Option<Term>>, Map<(Seq<Option<Term>>, Seq<Option<Term>>), Seq<Option<Term>>>)> {
    let key = pair_key(s1, s2);
    if cache.contains_key(key) {
        Some((cache[key], cache))
    } else if compose_ok(s2, s1) {
        let r = spec_compose(s2, s1);
        Some((r, if cache.len() < COMPOSITION_CACHE_LIMIT { cache.insert(key, r) } else { cache }))
    } else {
        None
    }
}

/// Composition of a list of substitutions by halves through the cache:
/// the result and the cache after. `None` where a composition overflows.
pub open spec fn spec_compose_all(
    cache: Map<(Seq<Option<Term>>, Seq<Option<Term>>), Seq<Option<Term>>>,
    subs: Seq<Seq<Option<Term>>>,
) -> Option<(Seq<Option<Term>>, Map<(Seq<Option<Term>>, Seq<Option<Term>>), Seq<Option<Term>>>)>
    decreases subs.len(),
{
    if subs.len() == 0 {
        Some((Seq::empty(), cache))
    } else if subs.len() == 1 {
        Some((subs[0], cache))
    } else if subs.len() == 2 {
        spec_compose_pair(cache, subs[0], subs[1])
    } else {
        let mid = subs.len() / 2;
        match spec_compose_all(cache, subs.take(mid as int)) {
            Some((left, c1)) => match spec_compose_all(c1, subs.skip(mid as int)) {
                Some((right, c2)) => spec_compose_pair(c2, left, right),
                None => None,
            },
            None => None,
        }
    }
}

/// The views of a slice of substitutions.
pub open spec fn subst_views(subs: Seq<Substitution>) -> Seq<Seq<Option<Term>>> {
    subs.map_values(|s: Substitution| s@)
}

/// The number of pairwise compositions that composing `n` substitutions
/// makes.
pub open spec fn pair_count(n: nat) -> nat {
    if n >= 2 { (n - 1) as nat } else { 0 }
}

/// Computational size of a term: its number of nodes.
pub open spec fn spec_complexity(t: Term) -> nat
    decreases t,
{
    match t {
        Term::Var(_) | Term::Universe(_) | Term::Meta(_) => 1,
        Term::Pi(d, c) => 1 + spec_complexity(*d) + spec_complexity(*c),
        Term::Lambda(b) => 1 + spec_complexity(*b),
        Term::App(f, a) => 1 + spec_complexity(*f) + spec_complexity(*a),
        Term::Let(v, b) => 1 + spec_complexity(*v) + spec_complexity(*b),
    }
}

/// Kinds of fusion opportunity
#[derive(Clone, Copy, Debug, PartialEq, Eq, Structural)]
pub enum FusionKind {
    /// Fusion in lambda substitution
    LambdaSubstitution,
    /// Fusion in beta reduction
    BetaReduction,
    /// Fusion in let substitution
    LetSubstitution,
    /// General parallel substitution
    ParallelSubstitution,
}

/// Opportunity for substitution fusion optimization
#[derive(Clone, Debug)]
pub struct FusionOpportunity {
    /// Type of fusion that can be applied
    pub kind: FusionKind,
    /// Depth in the term where opportunity occurs
    pub depth: usize,
    /// Estimated complexity reduction
    pub complexity: usize,
}

/// The opportunities of a term met at depth `depth`, in the order of a
/// left-to-right walk: a lambda below the root, an application of a lambda
/// (beta reduction) and every let.
pub open spec fn spec_opportunities(t: Term, depth: usize) -> Seq<FusionOpportunity>
    decreases t,
{
    let next = (depth + 1) as usize;
    match t {
        Term::Var(_) | Term::Universe(_) | Term::Meta(_) => Seq::empty(),
        Term::Pi(d, c) => spec_opportunities(*d, next) + spec_opportunities(*c, next),
        Term::Lambda(b) => (if depth > 0 {
            seq![FusionOpportunity { kind: FusionKind::LambdaSubstitution, depth, complexity: spec_complexity(*b) as usize }]
        } else {
            Seq::empty()
        }) + spec_opportunities(*b, next),
        Term::App(f, a) => (if *f is Lambda {
            seq![FusionOpportunity { kind: FusionKind::BetaReduction, depth, complexity: spec_complexity(t) as usize }]
        } else {
            Seq::empty()
        }) + spec_opportunities(*f, next) + spec_opportunities(*a, next),
        Term::Let(v, b) => seq![FusionOpportunity {
            kind: FusionKind::LetSubstitution,
            depth,
            complexity: (spec_complexity(*v) + spec_complexity(*b)) as usize,
        }] + spec_opportunities(*v, next) + spec_opportunities(*b, next),
    }
}

/// Substitution fusion optimizer with a cache of compositions and counters
/// of its use.
#[derive(Clone, Debug)]
pub struct SubstitutionFusion {
    /// Compositions cached by the pair of substitutions composed
    pub composition_cache: AssocMap<(Substitution, Substitution), Substitution>,
    /// Number of compositions answered from the cache
    pub fusion_hits: u64,
    /// Number of compositions computed
    pub fusion_misses: u64,
}

impl Default for SubstitutionFusion {
    fn default() -> (r: Self)
        ensures
            r.cache() == Map::<(Seq<Option<Term>>, Seq<Option<Term>>), Seq<Option<Term>>>::empty(),
            r.fusion_hits == 0 && r.fusion_misses == 0,
    {
        Self::new()
    }
}

impl SubstitutionFusion {
    /// The cached compositions.
    pub open spec fn cache(&self) -> Map<(Seq<Option<Term>>, Seq<Option<Term>>), Seq<Option<Term>>> {
        self.composition_cache.map()
    }

    /// Create a new substitution fusion optimizer
    pub fn new() -> (r: Self)
        ensures
            r.cache() == Map::<(Seq<Option<Term>>, Seq<Option<Term>>), Seq<Option<Term>>>::empty(),
            r.fusion_hits == 0 && r.fusion_misses == 0,
    {
        SubstitutionFusion { composition_cache: AssocMap::new(), fusion_hits: 0, fusion_misses: 0 }
    }

    /// Apply several substitutions, the first one first, as one: none
    /// leaves the term as it is, one is applied directly, more are composed
    /// by halves through the cache and the composition applied.
    pub fn fuse_substitutions(&mut self, term: &Term, substitutions: &[Substitution]) -> (r: Term)
        requires
            substitutions@.len() == 1 ==> spec_apply_subst(*term, substitutions@[0]@, 0) is Some,
            substitutions@.len() >= 2 ==> ({
                let fused = spec_compose_all(old(self).cache(), subst_views(substitutions@));
                fused is Some && spec_apply_subst(*term, fused.unwrap().0, 0) is Some
            }),
            old(self).fusion_hits + substitutions@.len() <= u64::MAX,
            old(self).fusion_misses + substitutions@.len() <= u64::MAX,
        ensures
            substitutions@.len() == 0 ==> r == *term && *final(self) == *old(self),
            substitutions@.len() == 1 ==> Some(r) == spec_apply_subst(*term, substitutions@[0]@, 0)
                && *final(self) == *old(self),
            substitutions@.len() >= 2 ==> ({
                let fused = spec_compose_all(old(self).cache(), subst_views(substitutions@))->0;
                &&& Some(r) == spec_apply_subst(*term, fused.0, 0)
                &&& final(self).cache() == fused.1
                &&& final(self).fusion_hits + final(self).fusion_misses
                    == old(self).fusion_hits + old(self).fusion_misses + pair_count(substitutions@.len())
                &&& final(self).fusion_hits >= old(self).fusion_hits
                &&& final(self).fusion_misses >= old(self).fusion_misses
            }),
    {
        if substitutions.len() == 0 {
            return term.copy();
        }
        if substitutions.len() == 1 {
            return apply_substitution(term, &substitutions[0]);
        }
        let fused = self.compose_substitutions(substitutions);
        apply_substitution(term, &fused)
    }

    /// Compose a list of substitutions by halves through the cache.
    pub fn compose_substitutions(&mut self, substitutions: &[Substitution]) -> (r: Substitution)
        requires
            spec_compose_all(old(self).cache(), subst_views(substitutions@)) is Some,
            old(self).fusion_hits + substitutions@.len() <= u64::MAX,
            old(self).fusion_misses + substitutions@.len() <= u64::MAX,
        ensures
            ({
                let fused = spec_compose_all(old(self).cache(), subst_views(substitutions@))->0;
                &&& r@ == fused.0
                &&& final(self).cache() == fused.1
            }),
            final(self).fusion_hits + final(self).fusion_misses
                == old(self).fusion_hits + old(self).fusion_misses + pair_count(substitutions@.len()),
            final(self).fusion_hits >= old(self).fusion_hits,
            final(self).fusion_misses >= old(self).fusion_misses,
        decreases substitutions@.len(),
    {
        let n = substitutions.len();
        if n == 0 {
            let r = Substitution::identity();
            return r;
        }
        if n == 1 {
            return substitutions[0].key_copy();
        }
        if n == 2 {
            return self.compose_pair(&substitutions[0], &substitutions[1]);
        }
        let mid = n / 2;
        let ghost views = subst_views(substitutions@);
        proof {
            assert(subst_views(substitutions@.subrange(0, mid as int)) =~= views.take(mid as int));
            assert(subst_views(substitutions@.subrange(mid as int, n as int)) =~= views.skip(mid as int));
        }
        let left = self.compose_substitutions(vstd::slice::slice_subrange(substitutions, 0, mid));
        let right = self.compose_substitutions(vstd::slice::slice_subrange(substitutions, mid, n));
        self.compose_pair(&left, &right)
    }

    /// Compose `s1` after `s2` through the cache: the cached composition for
    /// their key (the hashes of their domain sizes) if there is one, else
    /// the composition, cached while the cache holds fewer than 1024.
    pub fn compose_pair(&mut self, s1: &Substitution, s2: &Substitution) -> (r: Substitution)
        requires
            spec_compose_pair(old(self).cache(), s1@, s2@) is Some,
            old(self).fusion_hits < u64::MAX,
            old(self).fusion_misses < u64::MAX,
        ensures
            ({
                let step = spec_compose_pair(old(self).cache(), s1@, s2@)->0;
                &&& r@ == step.0
                &&& final(self).cache() == step.1
            }),
            old(self).cache().contains_key(pair_key(s1@, s2@)) ==> final(self).fusion_hits == old(self).fusion_hits + 1
                && final(self).fusion_misses == old(self).fusion_misses,
            !old(self).cache().contains_key(pair_key(s1@, s2@)) ==> final(self).fusion_misses == old(self).fusion_misses + 1
                && final(self).fusion_hits == old(self).fusion_hits,
    {
        let key: (Substitution, Substitution) = (s1.key_copy(), s2.key_copy());
        match self.composition_cache.get(&key) {
            Some(cached) => {
                let result = cached.key_copy();
                self.fusion_hits += 1;
                return result;
            },
            None => {},
        }
        self.fusion_misses += 1;
        let result = s2.compose(s1);
        if self.composition_cache.len() < COMPOSITION_CACHE_LIMIT {
            self.composition_cache.insert(key, result.key_copy());
        }
        result
    }

    /// Rebuild a term node by node; the result is the term itself.
    pub fn optimize_term_substitutions(&mut self, term: &Term) -> (r: Term)
        ensures
            r == *term,
            *final(self) == *old(self),
        decreases term,
    {
        match term {
            Term::Var(_) | Term::Universe(_) | Term::Meta(_) => term.copy(),
            Term::Pi(domain, codomain) => {
                let opt_domain = self.optimize_term_substitutions(domain);
                let opt_codomain = self.optimize_term_substitutions(codomain);
                Term::pi(opt_domain, opt_codomain)
            },
            Term::Lambda(body) => {
                let opt_body = self.optimize_term_substitutions(body);
                Term::lambda(opt_body)
            },
            Term::App(function, argument) => {
                let opt_function = self.optimize_term_substitutions(function);
                let opt_argument = self.optimize_term_substitutions(argument);
                Term::app(opt_function, opt_argument)
            },
            Term::Let(binding, body) => {
                let opt_binding = self.optimize_term_substitutions(binding);
                let opt_body = self.optimize_term_substitutions(body);
                Term::let_in(opt_binding, opt_body)
            },
        }
    }

    /// The fusion opportunities of a term.
    pub fn detect_fusion_opportunities(&self, term: &Term) -> (r: Vec<FusionOpportunity>)
        requires
            spec_complexity(*term) <= usize::MAX,
        ensures
            r@ == spec_opportunities(*term, 0),
    {
        let mut opportunities: Vec<FusionOpportunity> = Vec::new();
        self.analyze_term(term, &mut opportunities, 0);
        assert(opportunities@ =~= spec_opportunities(*term, 0));
        opportunities
    }

    fn analyze_term(&self, term: &Term, opportunities: &mut Vec<FusionOpportunity>, depth: usize)
        requires
            depth + spec_complexity(*term) <= usize::MAX,
        ensures
            final(opportunities)@ == old(opportunities)@ + spec_opportunities(*term, depth),
        decreases term,
    {
        let ghost start = opportunities@;
        match term {
            Term::Var(_) | Term::Universe(_) | Term::Meta(_) => {
                assert(opportunities@ =~= start + spec_opportunities(*term, depth));
            },
            Term::Pi(domain, codomain) => {
                self.analyze_term(domain, opportunities, depth + 1);
                self.analyze_term(codomain, opportunities, depth + 1);
                assert(opportunities@ =~= start + spec_opportunities(*term, depth));
            },
            Term::Lambda(body) => {
                if depth > 0 {
                    let complexity = self.estimate_term_complexity(body);
                    opportunities.push(FusionOpportunity { kind: FusionKind::LambdaSubstitution, depth, complexity });
                }
                self.analyze_term(body, opportunities, depth + 1);
                assert(opportunities@ =~= start + spec_opportunities(*term, depth));
            },
            Term::App(function, argument) => {
                if let Term::Lambda(_) = &**function {
                    let complexity = self.estimate_term_complexity(term);
                    opportunities.push(FusionOpportunity { kind: FusionKind::BetaReduction, depth, complexity });
                }
                self.analyze_term(function, opportunities, depth + 1);
                self.analyze_term(argument, opportunities, depth + 1);
                assert(opportunities@ =~= start + spec_opportunities(*term, depth));
            },
            Term::Let(binding, body) => {
                let complexity = self.estimate_term_complexity(binding) + self.estimate_term_complexity(body);
                opportunities.push(FusionOpportunity { kind: FusionKind::LetSubstitution, depth, complexity });
                self.analyze_term(binding, opportunities, depth + 1);
                self.analyze_term(body, opportunities, depth + 1);
                assert(opportunities@ =~= start + spec_opportunities(*term, depth));
            },
        }
    }

    /// The number of nodes of a term, as an estimate of its cost.
    pub fn estimate_term_complexity(&self, term: &Term) -> (r: usize)
        requires
            spec_complexity(*term) <= usize::MAX,
        ensures
            r == spec_complexity(*term),
        decreases term,
    {
        match term {
            Term::Var(_) | Term::Universe(_) | Term::Meta(_) => 1,
            Term::Pi(domain, codomain) => {
                1 + self.estimate_term_complexity(domain) + self.estimate_term_complexity(codomain)
            },
            Term::Lambda(body) => 1 + self.estimate_term_complexity(body),
            Term::App(function, argument) => {
                1 + self.estimate_term_complexity(function) + self.estimate_term_complexity(argument)
            },
            Term::Let(binding, body) => {
                1 + self.estimate_term_complexity(binding) + self.estimate_term_complexity(body)
            },
        }
    }

    /// Clear fusion cache (useful for memory management)
    pub fn clear_cache(&mut self)
        ensures
            final(self).cache() == Map::<(Seq<Option<Term>>, Seq<Option<Term>>), Seq<Option<Term>>>::empty(),
            final(self).fusion_hits == old(self).fusion_hits,
            final(self).fusion_misses == old(self).fusion_misses,
    {
        self.composition_cache.clear();
    }
}

} // verus!
