//! Core term representation using De Bruijn indices.

use vstd::prelude::*;
use std::sync::Arc;
use crate::shared::arc_clone;

verus! {

/// Universe levels for type stratification: Type₀ : Type₁ : Type₂ : ...
#[derive(Clone, Copy, Debug, PartialEq, Eq, PartialOrd, Ord, Hash, Structural)]
pub struct Level(pub u32);

impl Level {
    /// Successor level (saturating at the maximum level)
    pub fn succ(&self) -> (r: Level)
        ensures
            r.0 == if self.0 == u32::MAX { u32::MAX as int } else { self.0 + 1 },
    {
        Level(self.0.saturating_add(1))
    }

    /// Maximum of two levels
    pub fn max(&self, other: &Level) -> (r: Level)
        ensures
            r.0 == if self.0 >= other.0 { self.0 } else { other.0 },
    {
        if self.0 >= other.0 { Level(self.0) } else { Level(other.0) }
    }

    /// Check if this level is zero
    pub fn is_zero(&self) -> (r: bool)
        ensures
            r == (self.0 == 0),
    {
        self.0 == 0
    }

    /// Get the raw level value
    pub fn value(&self) -> (r: u32)
        ensures
            r == self.0,
    {
        self.0
    }
}


/// Core term structure for dependent type theory.
///
/// Variables are De Bruijn indices where 0 refers to the most recently
/// bound variable. Composite terms share their subterms through `Arc`.
#[derive(Clone, Debug, PartialEq, Eq, Hash)]
pub enum Term {
    /// Variable with De Bruijn index
    Var(usize),
    /// Type universe at given level
    Universe(Level),
    /// Dependent function type Π(x:A).B; the codomain binds index 0
    Pi(Arc<Term>, Arc<Term>),
    /// Lambda abstraction λx.e; the body binds index 0
    Lambda(Arc<Term>),
    /// Function application f x
    App(Arc<Term>, Arc<Term>),
    /// Let binding let x = e₁ in e₂; the body binds index 0
    Let(Arc<Term>, Arc<Term>),
    /// Metavariable for type inference
    Meta(usize),
}

impl View for Term {
    type V = Term;

    open spec fn view(&self) -> Term {
        *self
    }
}

/// The larger of two optional indices, where `None` means "no index".
pub open spec fn opt_max(a: Option<usize>, b: Option<usize>) -> Option<usize> {
    match (a, b) {
        (Some(x), Some(y)) => Some(if x >= y { x } else { y }),
        (Some(x), None) => Some(x),
        (None, Some(y)) => Some(y),
        (None, None) => None,
    }
}

/// The greatest free index seen from outside one more binder: index 0
/// becomes bound, the others drop by one.
pub open spec fn unbind(m: Option<usize>) -> Option<usize> {
    match m {
        Some(x) => if x == 0 { None } else { Some((x - 1) as usize) },
        None => None,
    }
}

fn unbind_exec(m: Option<usize>) -> (r: Option<usize>)
    ensures
        r == unbind(m),
{
    match m {
        Some(x) => if x == 0 { None } else { Some(x - 1) },
        None => None,
    }
}

fn opt_max_exec(a: Option<usize>, b: Option<usize>) -> (r: Option<usize>)
    ensures
        r == opt_max(a, b),
{
    match (a, b) {
        (Some(x), Some(y)) => Some(if x >= y { x } else { y }),
        (Some(x), None) => Some(x),
        (None, Some(y)) => Some(y),
        (None, None) => None,
    }
}

impl Term {
    /// The largest variable index occurring anywhere in the term (bound or
    /// free, with indices taken literally), or `None` if the term has no
    /// variable occurrence.
    pub open spec fn spec_max_index(self) -> Option<usize>
        decreases self,
    {
        match self {
            Term::Var(i) => Some(i),
            Term::Universe(_) => None,
            Term::Pi(d, c) => opt_max(d.spec_max_index(), c.spec_max_index()),
            Term::Lambda(b) => b.spec_max_index(),
            Term::App(f, a) => opt_max(f.spec_max_index(), a.spec_max_index()),
            Term::Let(v, b) => opt_max(v.spec_max_index(), b.spec_max_index()),
            Term::Meta(_) => None,
        }
    }

    /// The greatest free variable index of the term, counted from outside
    /// the term (an index under `n` binders counts `n` less, and one below
    /// `n` is bound), or `None` when no variable is free.
    pub open spec fn spec_free_max(self) -> Option<usize>
        decreases self,
    {
        match self {
            Term::Var(i) => Some(i),
            Term::Universe(_) | Term::Meta(_) => None,
            Term::Pi(d, c) => opt_max(d.spec_free_max(), unbind(c.spec_free_max())),
            Term::Lambda(b) => unbind(b.spec_free_max()),
            Term::App(f, a) => opt_max(f.spec_free_max(), a.spec_free_max()),
            Term::Let(v, b) => opt_max(v.spec_free_max(), unbind(b.spec_free_max())),
        }
    }

    /// The greatest number of binders that any subterm sits under.
    pub open spec fn spec_binder_depth(self) -> nat
        decreases self,
    {
        match self {
            Term::Var(_) | Term::Universe(_) | Term::Meta(_) => 0,
            Term::Pi(d, c) => vstd::math::max(d.spec_binder_depth() as int, c.spec_binder_depth() + 1 as int) as nat,
            Term::Lambda(b) => b.spec_binder_depth() + 1,
            Term::App(f, a) => vstd::math::max(f.spec_binder_depth() as int, a.spec_binder_depth() as int) as nat,
            Term::Let(v, b) => vstd::math::max(v.spec_binder_depth() as int, b.spec_binder_depth() + 1 as int) as nat,
        }
    }

    /// Create a variable with De Bruijn index
    pub fn var(index: usize) -> (r: Self)
        ensures
            r == Term::Var(index),
    {
        Term::Var(index)
    }

    /// Create a universe at given level
    pub fn universe(level: u32) -> (r: Self)
        ensures
            r == Term::Universe(Level(level)),
    {
        Term::Universe(Level(level))
    }

    /// Create a dependent function type Π(x:A).B
    pub fn pi(domain: Term, codomain: Term) -> (r: Self)
        ensures
            r == Term::Pi(Arc::new(domain), Arc::new(codomain)),
    {
        Term::Pi(Arc::new(domain), Arc::new(codomain))
    }

    /// Create a lambda abstraction λx.e
    pub fn lambda(body: Term) -> (r: Self)
        ensures
            r == Term::Lambda(Arc::new(body)),
    {
        Term::Lambda(Arc::new(body))
    }

    /// Create a function application f x
    pub fn app(function: Term, argument: Term) -> (r: Self)
        ensures
            r == Term::App(Arc::new(function), Arc::new(argument)),
    {
        Term::App(Arc::new(function), Arc::new(argument))
    }

    /// Create a let binding let x = e₁ in e₂
    pub fn let_in(binding: Term, body: Term) -> (r: Self)
        ensures
            r == Term::Let(Arc::new(binding), Arc::new(body)),
    {
        Term::Let(Arc::new(binding), Arc::new(body))
    }

    /// Create a metavariable
    pub fn meta(id: usize) -> (r: Self)
        ensures
            r == Term::Meta(id),
    {
        Term::Meta(id)
    }

    /// Create Type₀
    pub fn type_0() -> (r: Self)
        ensures
            r == Term::Universe(Level(0)),
    {
        Term::Universe(Level(0))
    }

    /// Create Type₁
    pub fn type_1() -> (r: Self)
        ensures
            r == Term::Universe(Level(1)),
    {
        Term::Universe(Level(0).succ())
    }

    /// Check if term is a variable
    pub fn is_var(&self) -> (r: bool)
        ensures
            r == (*self is Var),
    {
        matches!(self, Term::Var(_))
    }

    /// Check if term is a universe
    pub fn is_universe(&self) -> (r: bool)
        ensures
            r == (*self is Universe),
    {
        matches!(self, Term::Universe(_))
    }

    /// Check if term is a function type
    pub fn is_pi(&self) -> (r: bool)
        ensures
            r == (*self is Pi),
    {
        matches!(self, Term::Pi(_, _))
    }

    /// Check if term is a lambda
    pub fn is_lambda(&self) -> (r: bool)
        ensures
            r == (*self is Lambda),
    {
        matches!(self, Term::Lambda(_))
    }

    /// Check if term is an application
    pub fn is_app(&self) -> (r: bool)
        ensures
            r == (*self is App),
    {
        matches!(self, Term::App(_, _))
    }

    /// Check if term is a metavariable
    pub fn is_meta(&self) -> (r: bool)
        ensures
            r == (*self is Meta),
    {
        matches!(self, Term::Meta(_))
    }

    /// Get the maximum De Bruijn index in the term
    pub fn max_index(&self) -> (r: Option<usize>)
        ensures
            r == self.spec_max_index(),
        decreases self,
    {
        match self {
            Term::Var(i) => Some(*i),
            Term::Universe(_) => None,
            Term::Pi(dom, cod) => opt_max_exec(dom.max_index(), cod.max_index()),
            Term::Lambda(body) => body.max_index(),
            Term::App(fun, arg) => opt_max_exec(fun.max_index(), arg.max_index()),
            Term::Let(binding, body) => opt_max_exec(binding.max_index(), body.max_index()),
            Term::Meta(_) => None,
        }
    }

    /// The greatest free variable index, counted from outside the term
    pub fn free_max(&self) -> (r: Option<usize>)
        ensures
            r == self.spec_free_max(),
        decreases self,
    {
        match self {
            Term::Var(i) => Some(*i),
            Term::Universe(_) | Term::Meta(_) => None,
            Term::Pi(dom, cod) => opt_max_exec(dom.free_max(), unbind_exec(cod.free_max())),
            Term::Lambda(body) => unbind_exec(body.free_max()),
            Term::App(fun, arg) => opt_max_exec(fun.free_max(), arg.free_max()),
            Term::Let(binding, body) => opt_max_exec(binding.free_max(), unbind_exec(body.free_max())),
        }
    }

    /// Check if term is closed: no variable is free
    pub fn is_closed(&self) -> (r: bool)
        ensures
            r == (self.spec_free_max() is None),
    {
        self.free_max().is_none()
    }

    /// A copy of this term that shares its subterms
    pub fn copy(&self) -> (r: Term)
        ensures
            r == *self,
    {
        match self {
            Term::Var(i) => Term::Var(*i),
            Term::Universe(l) => Term::Universe(*l),
            Term::Pi(d, c) => Term::Pi(arc_clone(d), arc_clone(c)),
            Term::Lambda(b) => Term::Lambda(arc_clone(b)),
            Term::App(f, a) => Term::App(arc_clone(f), arc_clone(a)),
            Term::Let(v, b) => Term::Let(arc_clone(v), arc_clone(b)),
            Term::Meta(m) => Term::Meta(*m),
        }
    }

    /// Structural equality of terms
    pub fn equals(&self, other: &Term) -> (r: bool)
        ensures
            r == (*self == *other),
        decreases self,
    {
        match (self, other) {
            (Term::Var(a), Term::Var(b)) => *a == *b,
            (Term::Universe(a), Term::Universe(b)) => a.0 == b.0,
            (Term::Pi(d1, c1), Term::Pi(d2, c2)) => d1.equals(d2) && c1.equals(c2),
            (Term::Lambda(b1), Term::Lambda(b2)) => b1.equals(b2),
            (Term::App(f1, a1), Term::App(f2, a2)) => f1.equals(f2) && a1.equals(a2),
            (Term::Let(v1, b1), Term::Let(v2, b2)) => v1.equals(v2) && b1.equals(b2),
            (Term::Meta(a), Term::Meta(b)) => *a == *b,
            _ => false,
        }
    }
}

/// Whether `Var(i)` occurs anywhere in a term, under binders or not.
pub open spec fn occurs_var(t: Term, i: usize) -> bool
    decreases t,
{
    match t {
        Term::Var(j) => j == i,
        Term::Universe(_) | Term::Meta(_) => false,
        Term::Pi(d, c) => occurs_var(*d, i) || occurs_var(*c, i),
        Term::Lambda(b) => occurs_var(*b, i),
        Term::App(f, a) => occurs_var(*f, i) || occurs_var(*a, i),
        Term::Let(v, b) => occurs_var(*v, i) || occurs_var(*b, i),
    }
}

/// The largest index is the greatest `i` such that `Var(i)` occurs in the
/// term, and there is none exactly when no variable occurs.
pub proof fn lemma_max_index_occurs(t: Term)
    ensures
        t.spec_max_index() matches Some(m) ==> occurs_var(t, m),
        forall|i: usize| #[trigger] occurs_var(t, i) ==> (t.spec_max_index() matches Some(m) && i <= m),
    decreases t,
{
    match t {
        Term::Pi(d, c) => {
            lemma_max_index_occurs(d@);
            lemma_max_index_occurs(c@);
            assert forall|i: usize| #[trigger] occurs_var(t, i) implies (t.spec_max_index() matches Some(m) && i <= m) by {
                assert(occurs_var(d@, i) || occurs_var(c@, i));
            }
        },
        Term::Lambda(b) => {
            lemma_max_index_occurs(b@);
            assert forall|i: usize| #[trigger] occurs_var(t, i) implies (t.spec_max_index() matches Some(m) && i <= m) by {
                assert(occurs_var(b@, i));
            }
        },
        Term::Var(j) => {
            assert forall|i: usize| #[trigger] occurs_var(t, i) implies (t.spec_max_index() matches Some(m) && i <= m) by {
                assert(i == j);
            }
        },
        Term::App(f, a) => {
            lemma_max_index_occurs(f@);
            lemma_max_index_occurs(a@);
            assert forall|i: usize| #[trigger] occurs_var(t, i) implies (t.spec_max_index() matches Some(m) && i <= m) by {
                assert(occurs_var(f@, i) || occurs_var(a@, i));
            }
        },
        Term::Let(v, b) => {
            lemma_max_index_occurs(v@);
            lemma_max_index_occurs(b@);
            assert forall|i: usize| #[trigger] occurs_var(t, i) implies (t.spec_max_index() matches Some(m) && i <= m) by {
                assert(occurs_var(v@, i) || occurs_var(b@, i));
            }
        },
        _ => {},
    }
}

} // verus!
