//! Typing environments and a universe hierarchy indexed by levels.

use vstd::prelude::*;
use std::sync::Arc;
use std::marker::PhantomData;
use crate::term::{Term, TermV, Level, spec_lshift};
use crate::shared::arc_clone;

verus! {

/// Types are terms.
pub type Type = Term;

/// The types of the variables in scope, by De Bruijn level.
#[derive(Debug, Clone)]
pub struct TypeEnv {
    bindings: Vec<Arc<Type>>,
}

impl View for TypeEnv {
    type V = Seq<TermV>;

    closed spec fn view(&self) -> Seq<TermV> {
        Seq::new(self.bindings@.len(), |i: int| self.bindings@[i]@)
    }
}

impl TypeEnv {
    /// Create an empty environment
    pub fn new() -> (r: Self)
        ensures
            r@ == Seq::<TermV>::empty(),
    {
        let r = TypeEnv { bindings: Vec::new() };
        assert(r@ =~= Seq::<TermV>::empty());
        r
    }

    /// The type of the variable at a level
    pub fn get(&self, level: Level) -> (r: Option<&Arc<Type>>)
        ensures
            r matches Some(t) ==> level < self@.len() && t@ == self@[level as int],
            r is None ==> level >= self@.len(),
    {
        if (level as usize) < self.bindings.len() {
            Some(&self.bindings[level as usize])
        } else {
            None
        }
    }

    /// Add a binding; its level is the number of bindings before (as a
    /// 32-bit number)
    pub fn extend(&mut self, ty: Arc<Type>) -> (r: Level)
        ensures
            r == old(self)@.len() as u32,
            final(self)@ == old(self)@.push(ty@),
    {
        let level = self.bindings.len() as Level;
        let ghost tv = ty@;
        self.bindings.push(ty);
        assert(self@ =~= old(self)@.push(tv));
        level
    }

    /// The number of bindings (as a 32-bit number)
    pub fn size(&self) -> (r: Level)
        ensures
            r == self@.len() as u32,
    {
        self.bindings.len() as Level
    }

    /// Shift every binding's type
    pub fn shift(&self, delta: i32, cutoff: Level) -> (r: Self)
        requires
            forall|i: int| 0 <= i < self@.len() ==> spec_lshift(#[trigger] self@[i], delta, cutoff) is Some,
        ensures
            r@.len() == self@.len(),
            forall|i: int| 0 <= i < self@.len() ==> spec_lshift(#[trigger] self@[i], delta, cutoff) == Some(r@[i]),
    {
        let mut out: Vec<Arc<Type>> = Vec::new();
        let mut i: usize = 0;
        while i < self.bindings.len()
            invariant
                i <= self.bindings@.len(),
                out@.len() == i,
                forall|k: int| 0 <= k < self@.len() ==> spec_lshift(#[trigger] self@[k], delta, cutoff) is Some,
                forall|k: int| 0 <= k < i ==> spec_lshift(self@[k], delta, cutoff) == Some((#[trigger] out@[k])@),
            decreases self.bindings@.len() - i,
        {
            assert(self@[i as int] == self.bindings@[i as int]@);
            out.push(self.bindings[i].shift(delta, cutoff));
            i = i + 1;
        }
        TypeEnv { bindings: out }
    }

    /// A copy of this environment (sharing the types)
    pub fn copy(&self) -> (r: Self)
        ensures
            r@ == self@,
    {
        let mut out: Vec<Arc<Type>> = Vec::new();
        let mut i: usize = 0;
        while i < self.bindings.len()
            invariant
                i <= self.bindings@.len(),
                out@ == self.bindings@.subrange(0, i as int),
            decreases self.bindings@.len() - i,
        {
            out.push(arc_clone(&self.bindings[i]));
            i = i + 1;
        }
        let r = TypeEnv { bindings: out };
        assert(r@ =~= self@);
        r
    }
}

impl Default for TypeEnv {
    fn default() -> (r: Self)
        ensures
            r@ == Seq::<TermV>::empty(),
    {
        TypeEnv::new()
    }
}

/// Whether a type lives in the universe of level `level`: universes below
/// it, and Π, Σ and identity types built from such types.
pub open spec fn spec_contains(level: u32, t: TermV) -> bool
    decreases t,
{
    match t {
        TermV::Universe(l) => l < level,
        TermV::Pi(_, d, c) => spec_contains(level, *d) && spec_contains(level, *c),
        TermV::Sigma(_, a, b) => spec_contains(level, *a) && spec_contains(level, *b),
        TermV::Id(ty, _, _) => spec_contains(level, *ty),
        _ => false,
    }
}

/// The universe of a given level.
pub struct Universe<const LEVEL: u32>;

impl<const LEVEL: u32> Universe<LEVEL> {
    /// Whether a type lives in this universe
    pub fn contains(ty: &Type) -> (r: bool)
        ensures
            r == spec_contains(LEVEL, ty@),
        decreases ty,
    {
        match ty {
            Term::Universe(level) => *level < LEVEL,
            Term::Pi { domain, codomain, .. } => Self::contains(domain) && Self::contains(codomain),
            Term::Sigma { first, second, .. } => Self::contains(first) && Self::contains(second),
            Term::Id { ty, .. } => Self::contains(ty),
            _ => false,
        }
    }

    /// The universe's level
    pub fn level() -> (r: u32)
        ensures
            r == LEVEL,
    {
        LEVEL
    }

    /// The universe as a term
    pub fn term() -> (r: Arc<Type>)
        ensures
            r@ == TermV::Universe(LEVEL),
    {
        Term::universe(LEVEL)
    }
}

/// The universe of level 0.
pub type Type0 = Universe<0>;
/// The universe of level 1.
pub type Type1 = Universe<1>;
/// The universe of level 2.
pub type Type2 = Universe<2>;

/// A witness for a proposition, carrying no data.
pub struct Proof<T> {
    _phantom: PhantomData<T>,
}

impl<T> Proof<T> {
    /// Create a witness
    pub fn new() -> (r: Self) {
        Proof { _phantom: PhantomData }
    }
}

impl<T> Clone for Proof<T> {
    fn clone(&self) -> (r: Self) {
        Self::new()
    }
}

impl<T> Copy for Proof<T> {}

} // verus!
