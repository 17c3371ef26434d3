//! Parallel substitution on De Bruijn terms.
//!
//! A substitution maps De Bruijn indices to replacement terms. Applying it
//! walks the term, passing binders by shifting the substitution and the
//! replacements. Index arithmetic that would overflow a machine word is
//! outside every function's domain: the spec functions below return `None`
//! exactly there.

use vstd::prelude::*;
use std::sync::Arc;
use crate::kernel::term::Term;
use crate::shared::arc_clone;
use crate::assoc::Keyed;

verus! {

/// Parallel substitution mapping De Bruijn indices to terms: index `i` maps
/// to the `i`-th entry when that entry is present.
#[derive(Clone, Debug, PartialEq)]
pub struct Substitution {
    terms: Vec<Option<Arc<Term>>>,
}

/// The replacement term of an entry.
pub open spec fn entry_view(o: Option<Arc<Term>>) -> Option<Term> {
    match o {
        Some(t) => Some(*t),
        None => None,
    }
}

/// The replacement terms of a vector of entries.
pub open spec fn entries_view(v: Seq<Option<Arc<Term>>>) -> Seq<Option<Term>> {
    v.map_values(|o: Option<Arc<Term>>| entry_view(o))
}

impl View for Substitution {
    type V = Seq<Option<Term>>;

    closed spec fn view(&self) -> Seq<Option<Term>> {
        entries_view(self.terms@)
    }
}

/// The replacement for index `i`, if any.
pub open spec fn spec_lookup(s: Seq<Option<Term>>, i: int) -> Option<Term> {
    if 0 <= i < s.len() {
        s[i]
    } else {
        None
    }
}

/// Shift of the free variables (index at least `cutoff`) of a term by
/// `amount`. A negative shift that would go below zero gives index 0.
/// `None` where the index arithmetic overflows.
pub open spec fn spec_shift(t: Term, cutoff: usize, amount: isize) -> Option<Term>
    decreases t,
{
    match t {
        Term::Var(i) => if i >= cutoff {
            if amount < 0 {
                if amount == isize::MIN {
                    None
                } else if i >= -amount {
                    Some(Term::Var((i + amount) as usize))
                } else {
                    Some(Term::Var(0))
                }
            } else if i + amount <= usize::MAX {
                Some(Term::Var((i + amount) as usize))
            } else {
                None
            }
        } else {
            Some(Term::Var(i))
        },
        Term::Universe(l) => Some(Term::Universe(l)),
        Term::Pi(d, c) => if cutoff == usize::MAX {
            None
        } else {
            match (spec_shift(*d, cutoff, amount), spec_shift(*c, (cutoff + 1) as usize, amount)) {
                (Some(nd), Some(nc)) => Some(Term::Pi(Arc::new(nd), Arc::new(nc))),
                _ => None,
            }
        },
        Term::Lambda(b) => if cutoff == usize::MAX {
            None
        } else {
            match spec_shift(*b, (cutoff + 1) as usize, amount) {
                Some(nb) => Some(Term::Lambda(Arc::new(nb))),
                None => None,
            }
        },
        Term::App(f, a) => match (spec_shift(*f, cutoff, amount), spec_shift(*a, cutoff, amount)) {
            (Some(nf), Some(na)) => Some(Term::App(Arc::new(nf), Arc::new(na))),
            _ => None,
        },
        Term::Let(v, b) => if cutoff == usize::MAX {
            None
        } else {
            match (spec_shift(*v, cutoff, amount), spec_shift(*b, (cutoff + 1) as usize, amount)) {
                (Some(nv), Some(nb)) => Some(Term::Let(Arc::new(nv), Arc::new(nb))),
                _ => None,
            }
        },
        Term::Meta(m) => Some(Term::Meta(m)),
    }
}

/// Whether every replacement of a substitution can be shifted.
pub open spec fn shift_entries_ok(s: Seq<Option<Term>>, cutoff: usize, amount: isize) -> bool {
    forall|i: int| 0 <= i < s.len() && #[trigger] s[i] is Some ==> spec_shift(s[i]->0, cutoff, amount) is Some
}

/// Each replacement of a substitution shifted; `None` where a shift overflows.
pub open spec fn spec_shift_subst(s: Seq<Option<Term>>, cutoff: usize, amount: isize) -> Option<Seq<Option<Term>>> {
    if shift_entries_ok(s, cutoff, amount) {
        Some(Seq::new(s.len(), |i: int| match s[i] {
            Some(t) => spec_shift(t, cutoff, amount),
            None => None,
        }))
    } else {
        None
    }
}

/// Application of a substitution to a term under `depth` binders: a free
/// variable `i` (at least `depth`) with a replacement for `i - depth` is
/// replaced by it; under each binder the substitution's replacements are
/// shifted by one, so a replacement is shifted once per binder crossed.
/// `None` where index arithmetic overflows.
pub open spec fn spec_apply_subst(t: Term, s: Seq<Option<Term>>, depth: usize) -> Option<Term>
    decreases t,
{
    match t {
        Term::Var(i) => if i >= depth {
            match spec_lookup(s, i - depth) {
                Some(r) => Some(r),
                None => Some(Term::Var(i)),
            }
        } else {
            Some(Term::Var(i))
        },
        Term::Universe(l) => Some(Term::Universe(l)),
        Term::Pi(d, c) => match spec_shift_subst(s, 0, 1) {
            Some(ss) => if depth == usize::MAX {
                None
            } else {
                match (spec_apply_subst(*d, s, depth), spec_apply_subst(*c, ss, (depth + 1) as usize)) {
                    (Some(nd), Some(nc)) => Some(Term::Pi(Arc::new(nd), Arc::new(nc))),
                    _ => None,
                }
            },
            None => None,
        },
        Term::Lambda(b) => match spec_shift_subst(s, 0, 1) {
            Some(ss) => if depth == usize::MAX {
                None
            } else {
                match spec_apply_subst(*b, ss, (depth + 1) as usize) {
                    Some(nb) => Some(Term::Lambda(Arc::new(nb))),
                    None => None,
                }
            },
            None => None,
        },
        Term::App(f, a) => match (spec_apply_subst(*f, s, depth), spec_apply_subst(*a, s, depth)) {
            (Some(nf), Some(na)) => Some(Term::App(Arc::new(nf), Arc::new(na))),
            _ => None,
        },
        Term::Let(v, b) => match spec_shift_subst(s, 0, 1) {
            Some(ss) => if depth == usize::MAX {
                None
            } else {
                match (spec_apply_subst(*v, s, depth), spec_apply_subst(*b, ss, (depth + 1) as usize)) {
                    (Some(nv), Some(nb)) => Some(Term::Let(Arc::new(nv), Arc::new(nb))),
                    _ => None,
                }
            },
            None => None,
        },
        Term::Meta(m) => Some(Term::Meta(m)),
    }
}

/// The substitution with one entry, for `index`.
pub open spec fn spec_single(index: int, t: Term) -> Seq<Option<Term>> {
    Seq::new((index + 1) as nat, |i: int| if i == index { Some(t) } else { None })
}

/// A substitution with the entry for `index` set to `t`, padded with empty
/// entries up to `index` where it was shorter.
pub open spec fn spec_extend(s: Seq<Option<Term>>, index: int, t: Term) -> Seq<Option<Term>> {
    Seq::new(
        if index < s.len() { s.len() } else { (index + 1) as nat },
        |i: int| if i == index { Some(t) } else if i < s.len() { s[i] } else { None },
    )
}

/// The composition of `first` followed by `second`: entry `i` is `first`'s
/// replacement for `i` with `second` applied to it, or else `second`'s own
/// replacement for `i`.
pub open spec fn spec_compose(second: Seq<Option<Term>>, first: Seq<Option<Term>>) -> Seq<Option<Term>> {
    Seq::new(
        vstd::math::max(second.len() as int, first.len() as int) as nat,
        |i: int| match spec_lookup(first, i) {
            Some(r) => spec_apply_subst(r, second, 0),
            None => spec_lookup(second, i),
        },
    )
}

/// Whether every replacement of `first` can have `second` applied to it.
pub open spec fn compose_ok(second: Seq<Option<Term>>, first: Seq<Option<Term>>) -> bool {
    forall|i: int| 0 <= i < first.len() && #[trigger] first[i] is Some ==> spec_apply_subst(first[i]->0, second, 0) is Some
}

/// Whether the free variable `target` occurs in a term under `depth` binders.
pub open spec fn spec_contains(t: Term, target: int, depth: int) -> bool
    decreases t,
{
    match t {
        Term::Var(i) => i >= depth && i - depth == target,
        Term::Universe(_) | Term::Meta(_) => false,
        Term::Pi(d, c) => spec_contains(*d, target, depth) || spec_contains(*c, target, depth + 1),
        Term::Lambda(b) => spec_contains(*b, target, depth + 1),
        Term::App(f, a) => spec_contains(*f, target, depth) || spec_contains(*a, target, depth),
        Term::Let(v, b) => spec_contains(*v, target, depth) || spec_contains(*b, target, depth + 1),
    }
}

fn copy_entry(o: &Option<Arc<Term>>) -> (r: Option<Arc<Term>>)
    ensures
        r == *o,
{
    match o {
        Some(t) => Some(arc_clone(t)),
        None => None,
    }
}

fn copy_entries(v: &Vec<Option<Arc<Term>>>) -> (r: Vec<Option<Arc<Term>>>)
    ensures
        r@ == v@,
{
    let mut out: Vec<Option<Arc<Term>>> = Vec::new();
    let mut i: usize = 0;
    while i < v.len()
        invariant
            i <= v.len(),
            out@ == v@.subrange(0, i as int),
        decreases v.len() - i,
    {
        out.push(copy_entry(&v[i]));
        i = i + 1;
    }
    out
}

impl Substitution {
    /// Create an empty substitution
    pub fn empty() -> (r: Self)
        ensures
            r@ == Seq::<Option<Term>>::empty(),
    {
        let r = Substitution { terms: Vec::new() };
        assert(r@ =~= Seq::<Option<Term>>::empty());
        r
    }

    /// Create the identity substitution (the empty one)
    pub fn identity() -> (r: Self)
        ensures
            r@ == Seq::<Option<Term>>::empty(),
    {
        Substitution::empty()
    }

    /// Create a single substitution [index ↦ term]
    pub fn single(index: usize, term: Term) -> (r: Self)
        requires
            index < usize::MAX,
        ensures
            r@ == spec_single(index as int, term),
    {
        let mut terms: Vec<Option<Arc<Term>>> = Vec::new();
        let mut i: usize = 0;
        while i < index
            invariant
                i <= index,
                terms@.len() == i,
                forall|j: int| 0 <= j < i ==> terms@[j] is None,
            decreases index - i,
        {
            terms.push(None);
            i = i + 1;
        }
        terms.push(Some(Arc::new(term)));
        let r = Substitution { terms };
        assert(r@ =~= spec_single(index as int, term));
        r
    }

    /// Extend substitution with a new mapping [index ↦ term]
    pub fn extend(&self, index: usize, term: Term) -> (r: Self)
        requires
            index < usize::MAX,
        ensures
            r@ == spec_extend(self@, index as int, term),
    {
        let mut new_terms = copy_entries(&self.terms);
        while new_terms.len() <= index
            invariant
                self.terms@.len() <= new_terms@.len(),
                new_terms@.len() <= vstd::math::max(self.terms@.len() as int, index + 1),
                forall|j: int| 0 <= j < self.terms@.len() ==> new_terms@[j] == self.terms@[j],
                forall|j: int| self.terms@.len() <= j < new_terms@.len() ==> new_terms@[j] is None,
            decreases index + 1 - new_terms@.len(),
        {
            new_terms.push(None);
        }
        new_terms.set(index, Some(Arc::new(term)));
        let r = Substitution { terms: new_terms };
        assert(r@ =~= spec_extend(self@, index as int, term));
        r
    }

    /// Look up the replacement for a given index
    pub fn lookup(&self, index: usize) -> (r: Option<&Term>)
        ensures
            r matches Some(t) ==> spec_lookup(self@, index as int) == Some(*t),
            r is None ==> spec_lookup(self@, index as int) is None,
    {
        if index < self.terms.len() {
            match &self.terms[index] {
                Some(t) => Some(&**t),
                None => None,
            }
        } else {
            None
        }
    }

    /// Shift every replacement by `shift_amount` above `cutoff`; used when
    /// passing under a binder.
    pub fn shift(&self, cutoff: usize, shift_amount: isize) -> (r: Self)
        requires
            spec_shift_subst(self@, cutoff, shift_amount) is Some,
        ensures
            spec_shift_subst(self@, cutoff, shift_amount) == Some(r@),
    {
        let mut new_terms: Vec<Option<Arc<Term>>> = Vec::new();
        let mut i: usize = 0;
        while i < self.terms.len()
            invariant
                i <= self.terms@.len(),
                new_terms@.len() == i,
                shift_entries_ok(self@, cutoff, shift_amount),
                forall|j: int| 0 <= j < i ==> entry_view(#[trigger] new_terms@[j]) == match self@[j] {
                    Some(t) => spec_shift(t, cutoff, shift_amount),
                    None => None,
                },
            decreases self.terms@.len() - i,
        {
            let entry = match &self.terms[i] {
                Some(t) => {
                    assert(self@[i as int] == Some(**t));
                    Some(Arc::new(shift_term(t, cutoff, shift_amount)))
                },
                None => None,
            };
            new_terms.push(entry);
            i = i + 1;
        }
        let r = Substitution { terms: new_terms };
        assert(r@ =~= spec_shift_subst(self@, cutoff, shift_amount)->0);
        r
    }

    /// Shift as `shift`, or `None` where a replacement's index arithmetic
    /// overflows.
    pub fn try_shift(&self, cutoff: usize, shift_amount: isize) -> (r: Option<Self>)
        ensures
            match r {
                Some(s) => spec_shift_subst(self@, cutoff, shift_amount) == Some(s@),
                None => spec_shift_subst(self@, cutoff, shift_amount) is None,
            },
    {
        let mut new_terms: Vec<Option<Arc<Term>>> = Vec::new();
        let mut i: usize = 0;
        while i < self.terms.len()
            invariant
                i <= self.terms@.len(),
                new_terms@.len() == i,
                forall|j: int| 0 <= j < i && #[trigger] self@[j] is Some ==> spec_shift(self@[j]->0, cutoff, shift_amount) is Some,
                forall|j: int| 0 <= j < i ==> entry_view(#[trigger] new_terms@[j]) == match self@[j] {
                    Some(t) => spec_shift(t, cutoff, shift_amount),
                    None => None,
                },
            decreases self.terms@.len() - i,
        {
            let entry = match &self.terms[i] {
                Some(t) => {
                    assert(self@[i as int] == Some(**t));
                    match try_shift_term(t, cutoff, shift_amount) {
                        Some(n) => Some(Arc::new(n)),
                        None => {
                            assert(!shift_entries_ok(self@, cutoff, shift_amount));
                            return None;
                        },
                    }
                },
                None => None,
            };
            new_terms.push(entry);
            i = i + 1;
        }
        let r = Substitution { terms: new_terms };
        assert(shift_entries_ok(self@, cutoff, shift_amount));
        assert(r@ =~= spec_shift_subst(self@, cutoff, shift_amount)->0);
        Some(r)
    }

    /// Compose two substitutions: the result applies `other` first, then
    /// `self`, so that applying it to a variable agrees with applying
    /// `other` and then `self`.
    pub fn compose(&self, other: &Substitution) -> (r: Self)
        requires
            compose_ok(self@, other@),
        ensures
            r@ == spec_compose(self@, other@),
    {
        let max_len = if self.terms.len() >= other.terms.len() { self.terms.len() } else { other.terms.len() };
        let mut new_terms: Vec<Option<Arc<Term>>> = Vec::new();
        let mut i: usize = 0;
        while i < max_len
            invariant
                i <= max_len,
                max_len == vstd::math::max(self@.len() as int, other@.len() as int),
                new_terms@.len() == i,
                compose_ok(self@, other@),
                forall|j: int| 0 <= j < i ==> entry_view(#[trigger] new_terms@[j]) == spec_compose(self@, other@)[j],
            decreases max_len - i,
        {
            let entry = match other.lookup(i) {
                Some(replacement) => Some(Arc::new(apply_substitution(replacement, self))),
                None => match self.lookup(i) {
                    Some(replacement) => Some(Arc::new(replacement.copy())),
                    None => None,
                },
            };
            new_terms.push(entry);
            i = i + 1;
        }
        let r = Substitution { terms: new_terms };
        assert(r@ =~= spec_compose(self@, other@));
        r
    }

    /// Check if the substitution has no replacement (acts as the identity)
    pub fn is_empty(&self) -> (r: bool)
        ensures
            r == forall|i: int| 0 <= i < self@.len() ==> #[trigger] self@[i] is None,
    {
        let mut i: usize = 0;
        while i < self.terms.len()
            invariant
                i <= self.terms@.len(),
                forall|j: int| 0 <= j < i ==> #[trigger] self@[j] is None,
            decreases self.terms@.len() - i,
        {
            if self.terms[i].is_some() {
                assert(self@[i as int] is Some);
                return false;
            }
            i = i + 1;
        }
        true
    }

    /// Get the domain size of the substitution
    pub fn domain_size(&self) -> (r: usize)
        ensures
            r == self@.len(),
    {
        self.terms.len()
    }
}

impl Keyed for (Substitution, Substitution) {
    /// Whether both substitutions have the same entries.
    fn key_eq(&self, other: &Self) -> (r: bool) {
        self.0.key_eq(&other.0) && self.1.key_eq(&other.1)
    }

    /// A pair of substitutions with the same entries.
    fn key_copy(&self) -> (r: Self) {
        (self.0.key_copy(), self.1.key_copy())
    }
}

impl Keyed for Substitution {
    /// Whether two substitutions have the same entries.
    fn key_eq(&self, other: &Self) -> (r: bool) {
        if self.terms.len() != other.terms.len() {
            return false;
        }
        let mut i: usize = 0;
        while i < self.terms.len()
            invariant
                i <= self@.len(),
                self@.len() == other@.len(),
                self.terms@.len() == other.terms@.len(),
                forall|j: int| 0 <= j < i ==> self@[j] == other@[j],
            decreases self@.len() - i,
        {
            let same = match (&self.terms[i], &other.terms[i]) {
                (Some(a), Some(b)) => (**a).equals(&**b),
                (None, None) => true,
                _ => false,
            };
            if !same {
                assert(self@[i as int] != other@[i as int]);
                return false;
            }
            i = i + 1;
        }
        assert(self@ =~= other@);
        true
    }

    /// A substitution with the same entries.
    fn key_copy(&self) -> (r: Self) {
        Substitution { terms: copy_entries(&self.terms) }
    }
}

/// Apply a substitution to a term.
pub fn apply_substitution(term: &Term, subst: &Substitution) -> (r: Term)
    requires
        spec_apply_subst(*term, subst@, 0) is Some,
    ensures
        spec_apply_subst(*term, subst@, 0) == Some(r),
{
    apply_substitution_aux(term, subst, 0)
}

fn apply_substitution_aux(term: &Term, subst: &Substitution, depth: usize) -> (r: Term)
    requires
        spec_apply_subst(*term, subst@, depth) is Some,
    ensures
        spec_apply_subst(*term, subst@, depth) == Some(r),
    decreases term,
{
    match term {
        Term::Var(index) => {
            if *index >= depth {
                match subst.lookup(*index - depth) {
                    Some(replacement) => replacement.copy(),
                    None => Term::Var(*index),
                }
            } else {
                Term::Var(*index)
            }
        },
        Term::Universe(level) => Term::Universe(*level),
        Term::Pi(domain, codomain) => {
            let new_domain = apply_substitution_aux(domain, subst, depth);
            let shifted = subst.shift(0, 1);
            let new_codomain = apply_substitution_aux(codomain, &shifted, depth + 1);
            Term::Pi(Arc::new(new_domain), Arc::new(new_codomain))
        },
        Term::Lambda(body) => {
            let shifted = subst.shift(0, 1);
            let new_body = apply_substitution_aux(body, &shifted, depth + 1);
            Term::Lambda(Arc::new(new_body))
        },
        Term::App(function, argument) => {
            let new_function = apply_substitution_aux(function, subst, depth);
            let new_argument = apply_substitution_aux(argument, subst, depth);
            Term::App(Arc::new(new_function), Arc::new(new_argument))
        },
        Term::Let(binding, body) => {
            let new_binding = apply_substitution_aux(binding, subst, depth);
            let shifted = subst.shift(0, 1);
            let new_body = apply_substitution_aux(body, &shifted, depth + 1);
            Term::Let(Arc::new(new_binding), Arc::new(new_body))
        },
        Term::Meta(id) => Term::Meta(*id),
    }
}

/// Apply a substitution to a term, or `None` where index arithmetic
/// overflows.
pub fn try_apply_substitution(term: &Term, subst: &Substitution) -> (r: Option<Term>)
    ensures
        r == spec_apply_subst(*term, subst@, 0),
{
    try_apply_aux(term, subst, 0)
}

fn try_apply_aux(term: &Term, subst: &Substitution, depth: usize) -> (r: Option<Term>)
    ensures
        r == spec_apply_subst(*term, subst@, depth),
    decreases term,
{
    match term {
        Term::Var(index) => {
            if *index >= depth {
                match subst.lookup(*index - depth) {
                    Some(replacement) => Some(replacement.copy()),
                    None => Some(Term::Var(*index)),
                }
            } else {
                Some(Term::Var(*index))
            }
        },
        Term::Universe(level) => Some(Term::Universe(*level)),
        Term::Pi(domain, codomain) => {
            let shifted = match subst.try_shift(0, 1) {
                Some(s) => s,
                None => return None,
            };
            if depth == usize::MAX {
                return None;
            }
            let new_domain = try_apply_aux(domain, subst, depth);
            let new_codomain = try_apply_aux(codomain, &shifted, depth + 1);
            match (new_domain, new_codomain) {
                (Some(d), Some(c)) => Some(Term::Pi(Arc::new(d), Arc::new(c))),
                _ => None,
            }
        },
        Term::Lambda(body) => {
            let shifted = match subst.try_shift(0, 1) {
                Some(s) => s,
                None => return None,
            };
            if depth == usize::MAX {
                return None;
            }
            match try_apply_aux(body, &shifted, depth + 1) {
                Some(b) => Some(Term::Lambda(Arc::new(b))),
                None => None,
            }
        },
        Term::App(function, argument) => {
            let new_function = try_apply_aux(function, subst, depth);
            let new_argument = try_apply_aux(argument, subst, depth);
            match (new_function, new_argument) {
                (Some(f), Some(a)) => Some(Term::App(Arc::new(f), Arc::new(a))),
                _ => None,
            }
        },
        Term::Let(binding, body) => {
            let shifted = match subst.try_shift(0, 1) {
                Some(s) => s,
                None => return None,
            };
            if depth == usize::MAX {
                return None;
            }
            let new_binding = try_apply_aux(binding, subst, depth);
            let new_body = try_apply_aux(body, &shifted, depth + 1);
            match (new_binding, new_body) {
                (Some(v), Some(b)) => Some(Term::Let(Arc::new(v), Arc::new(b))),
                _ => None,
            }
        },
        Term::Meta(id) => Some(Term::Meta(*id)),
    }
}

/// Shift as `shift_term`, or `None` where index arithmetic overflows.
pub fn try_shift_term(term: &Term, cutoff: usize, shift_amount: isize) -> (r: Option<Term>)
    ensures
        r == spec_shift(*term, cutoff, shift_amount),
    decreases term,
{
    match term {
        Term::Var(index) => {
            if *index >= cutoff {
                if shift_amount < 0 {
                    if shift_amount == isize::MIN {
                        None
                    } else {
                        let abs_shift = (-shift_amount) as usize;
                        if *index >= abs_shift {
                            Some(Term::Var(*index - abs_shift))
                        } else {
                            Some(Term::Var(0))
                        }
                    }
                } else {
                    let amount = shift_amount as usize;
                    if *index <= usize::MAX - amount {
                        Some(Term::Var(*index + amount))
                    } else {
                        None
                    }
                }
            } else {
                Some(Term::Var(*index))
            }
        },
        Term::Universe(level) => Some(Term::Universe(*level)),
        Term::Pi(domain, codomain) => {
            if cutoff == usize::MAX {
                return None;
            }
            match (try_shift_term(domain, cutoff, shift_amount), try_shift_term(codomain, cutoff + 1, shift_amount)) {
                (Some(d), Some(c)) => Some(Term::Pi(Arc::new(d), Arc::new(c))),
                _ => None,
            }
        },
        Term::Lambda(body) => {
            if cutoff == usize::MAX {
                return None;
            }
            match try_shift_term(body, cutoff + 1, shift_amount) {
                Some(b) => Some(Term::Lambda(Arc::new(b))),
                None => None,
            }
        },
        Term::App(function, argument) => {
            match (try_shift_term(function, cutoff, shift_amount), try_shift_term(argument, cutoff, shift_amount)) {
                (Some(f), Some(a)) => Some(Term::App(Arc::new(f), Arc::new(a))),
                _ => None,
            }
        },
        Term::Let(binding, body) => {
            if cutoff == usize::MAX {
                return None;
            }
            match (try_shift_term(binding, cutoff, shift_amount), try_shift_term(body, cutoff + 1, shift_amount)) {
                (Some(v), Some(b)) => Some(Term::Let(Arc::new(v), Arc::new(b))),
                _ => None,
            }
        },
        Term::Meta(id) => Some(Term::Meta(*id)),
    }
}

/// Shift the free variables (index at least `cutoff`) of a term by
/// `shift_amount`.
pub fn shift_term(term: &Term, cutoff: usize, shift_amount: isize) -> (r: Term)
    requires
        spec_shift(*term, cutoff, shift_amount) is Some,
    ensures
        spec_shift(*term, cutoff, shift_amount) == Some(r),
    decreases term,
{
    match term {
        Term::Var(index) => {
            if *index >= cutoff {
                let new_index = if shift_amount < 0 {
                    let abs_shift = (-shift_amount) as usize;
                    if *index >= abs_shift {
                        *index - abs_shift
                    } else {
                        0
                    }
                } else {
                    *index + (shift_amount as usize)
                };
                Term::Var(new_index)
            } else {
                Term::Var(*index)
            }
        },
        Term::Universe(level) => Term::Universe(*level),
        Term::Pi(domain, codomain) => {
            let new_domain = shift_term(domain, cutoff, shift_amount);
            let new_codomain = shift_term(codomain, cutoff + 1, shift_amount);
            Term::Pi(Arc::new(new_domain), Arc::new(new_codomain))
        },
        Term::Lambda(body) => {
            let new_body = shift_term(body, cutoff + 1, shift_amount);
            Term::Lambda(Arc::new(new_body))
        },
        Term::App(function, argument) => {
            let new_function = shift_term(function, cutoff, shift_amount);
            let new_argument = shift_term(argument, cutoff, shift_amount);
            Term::App(Arc::new(new_function), Arc::new(new_argument))
        },
        Term::Let(binding, body) => {
            let new_binding = shift_term(binding, cutoff, shift_amount);
            let new_body = shift_term(body, cutoff + 1, shift_amount);
            Term::Let(Arc::new(new_binding), Arc::new(new_body))
        },
        Term::Meta(id) => Term::Meta(*id),
    }
}

/// Substitute the free variable `index` with `replacement`.
pub fn substitute_var(term: &Term, index: usize, replacement: &Term) -> (r: Term)
    requires
        index < usize::MAX,
        spec_apply_subst(*term, spec_single(index as int, *replacement), 0) is Some,
    ensures
        spec_apply_subst(*term, spec_single(index as int, *replacement), 0) == Some(r),
{
    let subst = Substitution::single(index, replacement.copy());
    apply_substitution(term, &subst)
}

/// Substitute the free variable 0 with `replacement`.
pub fn substitute_top(term: &Term, replacement: &Term) -> (r: Term)
    requires
        spec_apply_subst(*term, spec_single(0, *replacement), 0) is Some,
    ensures
        spec_apply_subst(*term, spec_single(0, *replacement), 0) == Some(r),
{
    substitute_var(term, 0, replacement)
}

/// Check if a term contains the free variable `index`.
pub fn contains_var(term: &Term, index: usize) -> (r: bool)
    requires
        term.spec_binder_depth() <= usize::MAX,
    ensures
        r == spec_contains(*term, index as int, 0),
{
    contains_var_aux(term, index, 0)
}

fn contains_var_aux(term: &Term, target_index: usize, depth: usize) -> (r: bool)
    requires
        depth + term.spec_binder_depth() <= usize::MAX,
    ensures
        r == spec_contains(*term, target_index as int, depth as int),
    decreases term,
{
    match term {
        Term::Var(index) => *index >= depth && (*index - depth) == target_index,
        Term::Universe(_) => false,
        Term::Pi(domain, codomain) => {
            contains_var_aux(domain, target_index, depth) || contains_var_aux(codomain, target_index, depth + 1)
        },
        Term::Lambda(body) => contains_var_aux(body, target_index, depth + 1),
        Term::App(function, argument) => {
            contains_var_aux(function, target_index, depth) || contains_var_aux(argument, target_index, depth)
        },
        Term::Let(binding, body) => {
            contains_var_aux(binding, target_index, depth) || contains_var_aux(body, target_index, depth + 1)
        },
        Term::Meta(_) => false,
    }
}

/// Whether a term has no binders (no Π, λ or let).
pub open spec fn no_binders(t: Term) -> bool
    decreases t,
{
    match t {
        Term::Var(_) | Term::Universe(_) | Term::Meta(_) => true,
        Term::App(f, a) => no_binders(*f) && no_binders(*a),
        Term::Pi(_, _) | Term::Lambda(_) | Term::Let(_, _) => false,
    }
}

/// A shift by zero, where it is defined, leaves a term as it was.
pub proof fn lemma_shift_zero(t: Term, cutoff: usize)
    requires
        spec_shift(t, cutoff, 0) is Some,
    ensures
        spec_shift(t, cutoff, 0) == Some(t),
    decreases t,
{
    match t {
        Term::Pi(d, c) => {
            lemma_shift_zero(d@, cutoff);
            lemma_shift_zero(c@, (cutoff + 1) as usize);
        },
        Term::Lambda(b) => {
            lemma_shift_zero(b@, (cutoff + 1) as usize);
        },
        Term::App(f, a) => {
            lemma_shift_zero(f@, cutoff);
            lemma_shift_zero(a@, cutoff);
        },
        Term::Let(v, b) => {
            lemma_shift_zero(v@, cutoff);
            lemma_shift_zero(b@, (cutoff + 1) as usize);
        },
        _ => {},
    }
}

/// On a term without binders, applying a composition is applying its two
/// substitutions in turn: `second.compose(first)` acts as `first`, then
/// `second`.
pub proof fn lemma_compose_applies_in_turn(t: Term, second: Seq<Option<Term>>, first: Seq<Option<Term>>)
    requires
        no_binders(t),
        compose_ok(second, first),
        spec_apply_subst(t, first, 0) is Some,
        spec_apply_subst(t, spec_compose(second, first), 0) is Some,
    ensures
        spec_apply_subst(t, spec_compose(second, first), 0)
            == spec_apply_subst(spec_apply_subst(t, first, 0).unwrap(), second, 0),
    decreases t,
{
    match t {
        Term::Var(i) => {
            match spec_lookup(first, i as int) {
                Some(r) => {
                    assert(first[i as int] is Some);
                    let q = spec_apply_subst(r, second, 0).unwrap();
                    assert(spec_lookup(spec_compose(second, first), i as int) == Some(q));
                },
                None => {
                    assert(spec_lookup(spec_compose(second, first), i as int) == spec_lookup(second, i as int));
                },
            }
        },
        Term::App(f, a) => {
            lemma_compose_applies_in_turn(f@, second, first);
            lemma_compose_applies_in_turn(a@, second, first);
        },
        _ => {},
    }
}

/// Whether a substitution has no replacement at all.
pub open spec fn no_entries(s: Seq<Option<Term>>) -> bool {
    forall|i: int| 0 <= i < s.len() ==> s[i] is None
}

/// A substitution without replacements leaves every term unchanged
/// (where the binder depth stays within a machine word).
pub proof fn lemma_empty_substitution(t: Term, s: Seq<Option<Term>>, depth: usize)
    requires
        no_entries(s),
        depth + t.spec_binder_depth() <= usize::MAX,
    ensures
        spec_apply_subst(t, s, depth) == Some(t),
    decreases t,
{
    let ss = Seq::new(s.len(), |i: int| match s[i] {
        Some(x) => spec_shift(x, 0, 1),
        None => None,
    });
    assert(shift_entries_ok(s, 0, 1));
    assert(spec_shift_subst(s, 0, 1) == Some(ss));
    assert(no_entries(ss));
    match t {
        Term::Var(i) => {
            if i >= depth {
                assert(spec_lookup(s, i - depth) is None);
            }
        },
        Term::Pi(d, c) => {
            lemma_empty_substitution(d@, s, depth);
            lemma_empty_substitution(c@, ss, (depth + 1) as usize);
        },
        Term::Lambda(b) => {
            lemma_empty_substitution(b@, ss, (depth + 1) as usize);
        },
        Term::App(f, a) => {
            lemma_empty_substitution(f@, s, depth);
            lemma_empty_substitution(a@, s, depth);
        },
        Term::Let(v, b) => {
            lemma_empty_substitution(v@, s, depth);
            lemma_empty_substitution(b@, ss, (depth + 1) as usize);
        },
        _ => {},
    }
}

/// A substitution whose replacement for each index `i` (where it has
/// one) is the variable `i + offset`: under `offset` binders, each free
/// variable it touches is mapped to itself.
pub open spec fn renames_to_itself(s: Seq<Option<Term>>, offset: int) -> bool {
    forall|i: int| 0 <= i < s.len() && #[trigger] s[i] is Some ==>
        i + offset <= usize::MAX && s[i] == Some(Term::Var((i + offset) as usize))
}

proof fn lemma_shift_renaming(s: Seq<Option<Term>>, depth: usize)
    requires
        renames_to_itself(s, depth as int),
        s.len() + depth < usize::MAX,
    ensures
        spec_shift_subst(s, 0, 1) is Some,
        spec_shift_subst(s, 0, 1)->0.len() == s.len(),
        renames_to_itself(spec_shift_subst(s, 0, 1)->0, depth + 1),
{
    assert forall|i: int| 0 <= i < s.len() && #[trigger] s[i] is Some implies spec_shift(s[i]->0, 0, 1) is Some by {
        assert(s[i] == Some(Term::Var((i + depth) as usize)));
    }
    let ss = spec_shift_subst(s, 0, 1)->0;
    assert forall|i: int| 0 <= i < ss.len() && #[trigger] ss[i] is Some implies
        i + depth + 1 <= usize::MAX && ss[i] == Some(Term::Var((i + depth + 1) as usize)) by {
        assert(s[i] == Some(Term::Var((i + depth) as usize)));
    }
}

proof fn lemma_renaming_keeps(t: Term, s: Seq<Option<Term>>, depth: usize)
    requires
        renames_to_itself(s, depth as int),
        s.len() + depth + t.spec_binder_depth() < usize::MAX,
    ensures
        spec_apply_subst(t, s, depth) == Some(t),
    decreases t,
{
    match t {
        Term::Var(j) => {
            if j >= depth && spec_lookup(s, j - depth) is Some {
                let i = j - depth;
                assert(s[i] == Some(Term::Var((i + depth) as usize)));
            }
        },
        Term::Pi(d, c) => {
            lemma_shift_renaming(s, depth);
            lemma_renaming_keeps(d@, s, depth);
            lemma_renaming_keeps(c@, spec_shift_subst(s, 0, 1)->0, (depth + 1) as usize);
        },
        Term::Lambda(b) => {
            lemma_shift_renaming(s, depth);
            lemma_renaming_keeps(b@, spec_shift_subst(s, 0, 1)->0, (depth + 1) as usize);
        },
        Term::App(f, a) => {
            lemma_renaming_keeps(f@, s, depth);
            lemma_renaming_keeps(a@, s, depth);
        },
        Term::Let(v, b) => {
            lemma_shift_renaming(s, depth);
            lemma_renaming_keeps(v@, s, depth);
            lemma_renaming_keeps(b@, spec_shift_subst(s, 0, 1)->0, (depth + 1) as usize);
        },
        _ => {},
    }
}

/// Substitution avoids capture: a substitution that replaces each free
/// variable it touches by that same variable leaves every term unchanged,
/// whatever binders (Π, λ, `let`) the term has. (A replacement that were
/// not shifted under a binder would be captured by it and change the
/// term.) Only the index width bounds the term and the substitution.
pub proof fn lemma_self_substitution(t: Term, s: Seq<Option<Term>>)
    requires
        renames_to_itself(s, 0),
        s.len() + t.spec_binder_depth() < usize::MAX,
    ensures
        spec_apply_subst(t, s, 0) == Some(t),
{
    lemma_renaming_keeps(t, s, 0);
}

/// A single substitution replaces exactly its variable: `[k := u]`
/// turns the variable `k` into `u` and leaves every other variable as it
/// is.
pub proof fn lemma_single_replaces(k: usize, u: Term, j: usize)
    ensures
        spec_apply_subst(Term::Var(k), spec_single(k as int, u), 0) == Some(u),
        j != k ==> spec_apply_subst(Term::Var(j), spec_single(k as int, u), 0) == Some(Term::Var(j)),
{
}

/// Whether every variable index written in a term is at most `bound`.
pub open spec fn indices_at_most(t: Term, bound: int) -> bool
    decreases t,
{
    match t {
        Term::Var(i) => i <= bound,
        Term::Universe(_) | Term::Meta(_) => true,
        Term::Pi(d, c) => indices_at_most(*d, bound) && indices_at_most(*c, bound),
        Term::Lambda(b) => indices_at_most(*b, bound),
        Term::App(f, a) => indices_at_most(*f, bound) && indices_at_most(*a, bound),
        Term::Let(v, b) => indices_at_most(*v, bound) && indices_at_most(*b, bound),
    }
}

/// Shifting the free variables up by `k` and then down by `k` gives the
/// term back (where no index or cutoff overflows a machine word).
pub proof fn lemma_shift_then_unshift(t: Term, cutoff: usize, k: isize)
    requires
        k > 0,
        indices_at_most(t, usize::MAX - k),
        cutoff + t.spec_binder_depth() <= usize::MAX,
    ensures
        spec_shift(t, cutoff, k) is Some,
        spec_shift(spec_shift(t, cutoff, k).unwrap(), cutoff, (-k) as isize) == Some(t),
    decreases t,
{
    match t {
        Term::Pi(d, c) => {
            lemma_shift_then_unshift(d@, cutoff, k);
            lemma_shift_then_unshift(c@, (cutoff + 1) as usize, k);
        },
        Term::Lambda(b) => {
            lemma_shift_then_unshift(b@, (cutoff + 1) as usize, k);
        },
        Term::App(f, a) => {
            lemma_shift_then_unshift(f@, cutoff, k);
            lemma_shift_then_unshift(a@, cutoff, k);
        },
        Term::Let(v, b) => {
            lemma_shift_then_unshift(v@, cutoff, k);
            lemma_shift_then_unshift(b@, (cutoff + 1) as usize, k);
        },
        _ => {},
    }
}

} // verus!
