//! Terms of the extended calculus (with Σ types, pairs and identity types),
//! using De Bruijn levels for variables.

use vstd::prelude::*;
use std::sync::Arc;
use crate::shared::arc_clone;
use crate::kernel::show::{decimal, decimal_string};

verus! {

/// De Bruijn level (or universe level).
pub type Level = u32;

/// Terms with Π, Σ and identity types.
#[derive(Debug, PartialEq, Eq)]
pub enum Term {
    /// Variable with De Bruijn level
    Var(Level),
    /// Dependent function type
    Pi {
        name: Option<String>,
        domain: Arc<Term>,
        codomain: Arc<Term>,
    },
    /// Lambda abstraction
    Lambda {
        name: Option<String>,
        body: Arc<Term>,
    },
    /// Application
    App {
        func: Arc<Term>,
        arg: Arc<Term>,
    },
    /// Dependent pair type
    Sigma {
        name: Option<String>,
        first: Arc<Term>,
        second: Arc<Term>,
    },
    /// Pair
    Pair {
        first: Arc<Term>,
        second: Arc<Term>,
    },
    /// First projection
    Fst(Arc<Term>),
    /// Second projection
    Snd(Arc<Term>),
    /// Identity type
    Id {
        ty: Arc<Term>,
        left: Arc<Term>,
        right: Arc<Term>,
    },
    /// Reflexivity proof
    Refl(Arc<Term>),
    /// Universe at a level
    Universe(Level),
}

/// Abstract terms: binder names by their text.
pub enum TermV {
    Var(u32),
    Pi(Option<Seq<char>>, Box<TermV>, Box<TermV>),
    Lambda(Option<Seq<char>>, Box<TermV>),
    App(Box<TermV>, Box<TermV>),
    Sigma(Option<Seq<char>>, Box<TermV>, Box<TermV>),
    Pair(Box<TermV>, Box<TermV>),
    Fst(Box<TermV>),
    Snd(Box<TermV>),
    Id(Box<TermV>, Box<TermV>, Box<TermV>),
    Refl(Box<TermV>),
    Universe(u32),
}

/// The text of an optional name.
pub open spec fn name_view(n: Option<String>) -> Option<Seq<char>> {
    match n {
        Some(s) => Some(s@),
        None => None,
    }
}

/// The abstract content of a term.
pub open spec fn term_view(t: Term) -> TermV
    decreases t,
{
    match t {
        Term::Var(l) => TermV::Var(l),
        Term::Pi { name, domain, codomain } => TermV::Pi(name_view(name), Box::new(term_view(*domain)), Box::new(term_view(*codomain))),
        Term::Lambda { name, body } => TermV::Lambda(name_view(name), Box::new(term_view(*body))),
        Term::App { func, arg } => TermV::App(Box::new(term_view(*func)), Box::new(term_view(*arg))),
        Term::Sigma { name, first, second } => TermV::Sigma(name_view(name), Box::new(term_view(*first)), Box::new(term_view(*second))),
        Term::Pair { first, second } => TermV::Pair(Box::new(term_view(*first)), Box::new(term_view(*second))),
        Term::Fst(p) => TermV::Fst(Box::new(term_view(*p))),
        Term::Snd(p) => TermV::Snd(Box::new(term_view(*p))),
        Term::Id { ty, left, right } => TermV::Id(Box::new(term_view(*ty)), Box::new(term_view(*left)), Box::new(term_view(*right))),
        Term::Refl(v) => TermV::Refl(Box::new(term_view(*v))),
        Term::Universe(l) => TermV::Universe(l),
    }
}

impl View for Term {
    type V = TermV;

    open spec fn view(&self) -> TermV {
        term_view(*self)
    }
}

/// Shift of the variables at or above `cutoff` by `delta`, the level taken
/// as a 32-bit signed number and the sum back as an unsigned one; `None`
/// where the signed sum or the cutoff overflows.
pub open spec fn spec_lshift(t: TermV, delta: i32, cutoff: u32) -> Option<TermV>
    decreases t,
{
    match t {
        TermV::Var(l) => if l >= cutoff {
            let s = (l as i32) + delta;
            if i32::MIN <= s <= i32::MAX { Some(TermV::Var(s as u32)) } else { None }
        } else {
            Some(t)
        },
        TermV::Pi(n, d, c) => if cutoff == u32::MAX {
            None
        } else {
            match (spec_lshift(*d, delta, cutoff), spec_lshift(*c, delta, (cutoff + 1) as u32)) {
                (Some(nd), Some(nc)) => Some(TermV::Pi(n, Box::new(nd), Box::new(nc))),
                _ => None,
            }
        },
        TermV::Lambda(n, b) => if cutoff == u32::MAX {
            None
        } else {
            match spec_lshift(*b, delta, (cutoff + 1) as u32) {
                Some(nb) => Some(TermV::Lambda(n, Box::new(nb))),
                None => None,
            }
        },
        TermV::App(f, a) => match (spec_lshift(*f, delta, cutoff), spec_lshift(*a, delta, cutoff)) {
            (Some(nf), Some(na)) => Some(TermV::App(Box::new(nf), Box::new(na))),
            _ => None,
        },
        TermV::Sigma(n, a, b) => if cutoff == u32::MAX {
            None
        } else {
            match (spec_lshift(*a, delta, cutoff), spec_lshift(*b, delta, (cutoff + 1) as u32)) {
                (Some(na), Some(nb)) => Some(TermV::Sigma(n, Box::new(na), Box::new(nb))),
                _ => None,
            }
        },
        TermV::Pair(a, b) => match (spec_lshift(*a, delta, cutoff), spec_lshift(*b, delta, cutoff)) {
            (Some(na), Some(nb)) => Some(TermV::Pair(Box::new(na), Box::new(nb))),
            _ => None,
        },
        TermV::Fst(p) => match spec_lshift(*p, delta, cutoff) {
            Some(np) => Some(TermV::Fst(Box::new(np))),
            None => None,
        },
        TermV::Snd(p) => match spec_lshift(*p, delta, cutoff) {
            Some(np) => Some(TermV::Snd(Box::new(np))),
            None => None,
        },
        TermV::Id(ty, l, r) => match (spec_lshift(*ty, delta, cutoff), spec_lshift(*l, delta, cutoff), spec_lshift(*r, delta, cutoff)) {
            (Some(nt), Some(nl), Some(nr)) => Some(TermV::Id(Box::new(nt), Box::new(nl), Box::new(nr))),
            _ => None,
        },
        TermV::Refl(v) => match spec_lshift(*v, delta, cutoff) {
            Some(nv) => Some(TermV::Refl(Box::new(nv))),
            None => None,
        },
        TermV::Universe(_) => Some(t),
    }
}

/// Substitution of the variable at `level` by `repl`; under a binder the
/// level goes up by one and the replacement is shifted by one. `None`
/// where a level or a shift overflows.
pub open spec fn spec_lsubst(t: TermV, level: u32, repl: TermV) -> Option<TermV>
    decreases t,
{
    match t {
        TermV::Var(l) => if l == level { Some(repl) } else { Some(t) },
        TermV::Pi(n, d, c) => match spec_lsubst(*d, level, repl) {
            None => None,
            Some(nd) => if level == u32::MAX {
                None
            } else {
                match spec_lshift(repl, 1, 0) {
                    None => None,
                    Some(sr) => match spec_lsubst(*c, (level + 1) as u32, sr) {
                        Some(nc) => Some(TermV::Pi(n, Box::new(nd), Box::new(nc))),
                        None => None,
                    },
                }
            },
        },
        TermV::Lambda(n, b) => if level == u32::MAX {
            None
        } else {
            match spec_lshift(repl, 1, 0) {
                None => None,
                Some(sr) => match spec_lsubst(*b, (level + 1) as u32, sr) {
                    Some(nb) => Some(TermV::Lambda(n, Box::new(nb))),
                    None => None,
                },
            }
        },
        TermV::App(f, a) => match (spec_lsubst(*f, level, repl), spec_lsubst(*a, level, repl)) {
            (Some(nf), Some(na)) => Some(TermV::App(Box::new(nf), Box::new(na))),
            _ => None,
        },
        TermV::Sigma(n, a, b) => match spec_lsubst(*a, level, repl) {
            None => None,
            Some(na) => if level == u32::MAX {
                None
            } else {
                match spec_lshift(repl, 1, 0) {
                    None => None,
                    Some(sr) => match spec_lsubst(*b, (level + 1) as u32, sr) {
                        Some(nb) => Some(TermV::Sigma(n, Box::new(na), Box::new(nb))),
                        None => None,
                    },
                }
            },
        },
        TermV::Pair(a, b) => match (spec_lsubst(*a, level, repl), spec_lsubst(*b, level, repl)) {
            (Some(na), Some(nb)) => Some(TermV::Pair(Box::new(na), Box::new(nb))),
            _ => None,
        },
        TermV::Fst(p) => match spec_lsubst(*p, level, repl) {
            Some(np) => Some(TermV::Fst(Box::new(np))),
            None => None,
        },
        TermV::Snd(p) => match spec_lsubst(*p, level, repl) {
            Some(np) => Some(TermV::Snd(Box::new(np))),
            None => None,
        },
        TermV::Id(ty, l, r) => match (spec_lsubst(*ty, level, repl), spec_lsubst(*l, level, repl), spec_lsubst(*r, level, repl)) {
            (Some(nt), Some(nl), Some(nr)) => Some(TermV::Id(Box::new(nt), Box::new(nl), Box::new(nr))),
            _ => None,
        },
        TermV::Refl(v) => match spec_lsubst(*v, level, repl) {
            Some(nv) => Some(TermV::Refl(Box::new(nv))),
            None => None,
        },
        TermV::Universe(_) => Some(t),
    }
}

fn copy_name(n: &Option<String>) -> (r: Option<String>)
    ensures
        name_view(r) == name_view(*n),
{
    match n {
        Some(s) => Some(s.clone()),
        None => None,
    }
}

fn same_name(a: &Option<String>, b: &Option<String>) -> (r: bool)
    ensures
        r == (name_view(*a) == name_view(*b)),
{
    match (a, b) {
        (Some(x), Some(y)) => *x == *y,
        (None, None) => true,
        _ => false,
    }
}

impl Term {
    /// A variable
    pub fn var(level: Level) -> (r: Arc<Self>)
        ensures
            r@ == TermV::Var(level),
    {
        Arc::new(Term::Var(level))
    }

    /// A dependent function type
    pub fn pi(name: Option<String>, domain: Arc<Term>, codomain: Arc<Term>) -> (r: Arc<Self>)
        ensures
            r@ == TermV::Pi(name_view(name), Box::new(domain@), Box::new(codomain@)),
    {
        Arc::new(Term::Pi { name, domain, codomain })
    }

    /// A lambda abstraction
    pub fn lambda(name: Option<String>, body: Arc<Term>) -> (r: Arc<Self>)
        ensures
            r@ == TermV::Lambda(name_view(name), Box::new(body@)),
    {
        Arc::new(Term::Lambda { name, body })
    }

    /// An application
    pub fn app(func: Arc<Term>, arg: Arc<Term>) -> (r: Arc<Self>)
        ensures
            r@ == TermV::App(Box::new(func@), Box::new(arg@)),
    {
        Arc::new(Term::App { func, arg })
    }

    /// A dependent pair type
    pub fn sigma(name: Option<String>, first: Arc<Term>, second: Arc<Term>) -> (r: Arc<Self>)
        ensures
            r@ == TermV::Sigma(name_view(name), Box::new(first@), Box::new(second@)),
    {
        Arc::new(Term::Sigma { name, first, second })
    }

    /// A pair
    pub fn pair(first: Arc<Term>, second: Arc<Term>) -> (r: Arc<Self>)
        ensures
            r@ == TermV::Pair(Box::new(first@), Box::new(second@)),
    {
        Arc::new(Term::Pair { first, second })
    }

    /// A first projection
    pub fn fst(term: Arc<Term>) -> (r: Arc<Self>)
        ensures
            r@ == TermV::Fst(Box::new(term@)),
    {
        Arc::new(Term::Fst(term))
    }

    /// A second projection
    pub fn snd(term: Arc<Term>) -> (r: Arc<Self>)
        ensures
            r@ == TermV::Snd(Box::new(term@)),
    {
        Arc::new(Term::Snd(term))
    }

    /// An identity type
    pub fn id(ty: Arc<Term>, left: Arc<Term>, right: Arc<Term>) -> (r: Arc<Self>)
        ensures
            r@ == TermV::Id(Box::new(ty@), Box::new(left@), Box::new(right@)),
    {
        Arc::new(Term::Id { ty, left, right })
    }

    /// A reflexivity proof
    pub fn refl(term: Arc<Term>) -> (r: Arc<Self>)
        ensures
            r@ == TermV::Refl(Box::new(term@)),
    {
        Arc::new(Term::Refl(term))
    }

    /// A universe
    pub fn universe(level: Level) -> (r: Arc<Self>)
        ensures
            r@ == TermV::Universe(level),
    {
        Arc::new(Term::Universe(level))
    }

    /// A copy of this term (sharing subterms)
    pub fn copy(&self) -> (r: Term)
        ensures
            r@ == self@,
    {
        match self {
            Term::Var(l) => Term::Var(*l),
            Term::Pi { name, domain, codomain } => Term::Pi { name: copy_name(name), domain: arc_clone(domain), codomain: arc_clone(codomain) },
            Term::Lambda { name, body } => Term::Lambda { name: copy_name(name), body: arc_clone(body) },
            Term::App { func, arg } => Term::App { func: arc_clone(func), arg: arc_clone(arg) },
            Term::Sigma { name, first, second } => Term::Sigma { name: copy_name(name), first: arc_clone(first), second: arc_clone(second) },
            Term::Pair { first, second } => Term::Pair { first: arc_clone(first), second: arc_clone(second) },
            Term::Fst(p) => Term::Fst(arc_clone(p)),
            Term::Snd(p) => Term::Snd(arc_clone(p)),
            Term::Id { ty, left, right } => Term::Id { ty: arc_clone(ty), left: arc_clone(left), right: arc_clone(right) },
            Term::Refl(v) => Term::Refl(arc_clone(v)),
            Term::Universe(l) => Term::Universe(*l),
        }
    }

    /// Structural equality, binder names included
    pub fn equals(&self, other: &Term) -> (r: bool)
        ensures
            r == (self@ == other@),
        decreases self,
    {
        match (self, other) {
            (Term::Var(a), Term::Var(b)) => *a == *b,
            (Term::Pi { name: n1, domain: d1, codomain: c1 }, Term::Pi { name: n2, domain: d2, codomain: c2 }) =>
                same_name(n1, n2) && d1.equals(d2) && c1.equals(c2),
            (Term::Lambda { name: n1, body: b1 }, Term::Lambda { name: n2, body: b2 }) => same_name(n1, n2) && b1.equals(b2),
            (Term::App { func: f1, arg: a1 }, Term::App { func: f2, arg: a2 }) => f1.equals(f2) && a1.equals(a2),
            (Term::Sigma { name: n1, first: a1, second: b1 }, Term::Sigma { name: n2, first: a2, second: b2 }) =>
                same_name(n1, n2) && a1.equals(a2) && b1.equals(b2),
            (Term::Pair { first: a1, second: b1 }, Term::Pair { first: a2, second: b2 }) => a1.equals(a2) && b1.equals(b2),
            (Term::Fst(a), Term::Fst(b)) => a.equals(b),
            (Term::Snd(a), Term::Snd(b)) => a.equals(b),
            (Term::Id { ty: t1, left: l1, right: r1 }, Term::Id { ty: t2, left: l2, right: r2 }) =>
                t1.equals(t2) && l1.equals(l2) && r1.equals(r2),
            (Term::Refl(a), Term::Refl(b)) => a.equals(b),
            (Term::Universe(a), Term::Universe(b)) => *a == *b,
            _ => false,
        }
    }

    /// Shift the variables at or above `cutoff` by `delta`
    pub fn shift(&self, delta: i32, cutoff: Level) -> (r: Arc<Term>)
        requires
            spec_lshift(self@, delta, cutoff) is Some,
        ensures
            spec_lshift(self@, delta, cutoff) == Some(r@),
        decreases self,
    {
        match self {
            Term::Var(level) => {
                if *level >= cutoff {
                    Arc::new(Term::Var((*level as i32 + delta) as Level))
                } else {
                    Arc::new(self.copy())
                }
            },
            Term::Pi { name, domain, codomain } => Term::pi(copy_name(name), domain.shift(delta, cutoff), codomain.shift(delta, cutoff + 1)),
            Term::Lambda { name, body } => Term::lambda(copy_name(name), body.shift(delta, cutoff + 1)),
            Term::App { func, arg } => Term::app(func.shift(delta, cutoff), arg.shift(delta, cutoff)),
            Term::Sigma { name, first, second } => Term::sigma(copy_name(name), first.shift(delta, cutoff), second.shift(delta, cutoff + 1)),
            Term::Pair { first, second } => Term::pair(first.shift(delta, cutoff), second.shift(delta, cutoff)),
            Term::Fst(term) => Term::fst(term.shift(delta, cutoff)),
            Term::Snd(term) => Term::snd(term.shift(delta, cutoff)),
            Term::Id { ty, left, right } => Term::id(ty.shift(delta, cutoff), left.shift(delta, cutoff), right.shift(delta, cutoff)),
            Term::Refl(term) => Term::refl(term.shift(delta, cutoff)),
            Term::Universe(_) => Arc::new(self.copy()),
        }
    }

    /// Substitute `replacement` for the variable at `level`
    pub fn subst(&self, level: Level, replacement: &Arc<Term>) -> (r: Arc<Term>)
        requires
            spec_lsubst(self@, level, replacement@) is Some,
        ensures
            spec_lsubst(self@, level, replacement@) == Some(r@),
        decreases self,
    {
        match self {
            Term::Var(var_level) => {
                if *var_level == level {
                    arc_clone(replacement)
                } else {
                    Arc::new(self.copy())
                }
            },
            Term::Pi { name, domain, codomain } => {
                let d = domain.subst(level, replacement);
                let shifted = replacement.shift(1, 0);
                Term::pi(copy_name(name), d, codomain.subst(level + 1, &shifted))
            },
            Term::Lambda { name, body } => {
                let shifted = replacement.shift(1, 0);
                Term::lambda(copy_name(name), body.subst(level + 1, &shifted))
            },
            Term::App { func, arg } => Term::app(func.subst(level, replacement), arg.subst(level, replacement)),
            Term::Sigma { name, first, second } => {
                let a = first.subst(level, replacement);
                let shifted = replacement.shift(1, 0);
                Term::sigma(copy_name(name), a, second.subst(level + 1, &shifted))
            },
            Term::Pair { first, second } => Term::pair(first.subst(level, replacement), second.subst(level, replacement)),
            Term::Fst(term) => Term::fst(term.subst(level, replacement)),
            Term::Snd(term) => Term::snd(term.subst(level, replacement)),
            Term::Id { ty, left, right } => Term::id(ty.subst(level, replacement), left.subst(level, replacement), right.subst(level, replacement)),
            Term::Refl(term) => Term::refl(term.subst(level, replacement)),
            Term::Universe(_) => Arc::new(self.copy()),
        }
    }
}

impl Clone for Term {
    fn clone(&self) -> (r: Self)
        ensures
            r@ == self@,
    {
        self.copy()
    }
}

/// The rendering of a term: levels as `#n`, named binders with their
/// names, projections as `π₁(..)` and `π₂(..)`.
pub open spec fn show_lterm(t: TermV) -> Seq<char>
    decreases t,
{
    match t {
        TermV::Var(l) => "#"@ + decimal(l as nat),
        TermV::Pi(n, d, c) => match n {
            Some(x) => "("@ + x + ": "@ + show_lterm(*d) + ") -> "@ + show_lterm(*c),
            None => show_lterm(*d) + " -> "@ + show_lterm(*c),
        },
        TermV::Lambda(n, b) => match n {
            Some(x) => "λ"@ + x + ". "@ + show_lterm(*b),
            None => "λ. "@ + show_lterm(*b),
        },
        TermV::App(f, a) => "("@ + show_lterm(*f) + " "@ + show_lterm(*a) + ")"@,
        TermV::Sigma(n, a, b) => match n {
            Some(x) => "("@ + x + ": "@ + show_lterm(*a) + ") × "@ + show_lterm(*b),
            None => show_lterm(*a) + " × "@ + show_lterm(*b),
        },
        TermV::Pair(a, b) => "("@ + show_lterm(*a) + ", "@ + show_lterm(*b) + ")"@,
        TermV::Fst(p) => "π₁("@ + show_lterm(*p) + ")"@,
        TermV::Snd(p) => "π₂("@ + show_lterm(*p) + ")"@,
        TermV::Id(ty, l, r) => show_lterm(*l) + " ≡["@ + show_lterm(*ty) + "] "@ + show_lterm(*r),
        TermV::Refl(x) => "refl("@ + show_lterm(*x) + ")"@,
        TermV::Universe(l) => "Type"@ + decimal(l as nat),
    }
}

fn concat3(a: &str, b: &String, c: &str) -> (r: String)
    ensures
        r@ == a@ + b@ + c@,
{
    let mut s = String::from_str(a);
    s.append(b.as_str());
    s.append(c);
    s
}

impl Term {
    /// Render the term.
    pub fn to_display_string(&self) -> (r: String)
        ensures
            r@ == show_lterm(self@),
        decreases self,
    {
        proof {
            reveal_strlit("#");
            reveal_strlit("(");
            reveal_strlit(": ");
            reveal_strlit(") -> ");
            reveal_strlit(" -> ");
            reveal_strlit("λ");
            reveal_strlit(". ");
            reveal_strlit("λ. ");
            reveal_strlit(" ");
            reveal_strlit(")");
            reveal_strlit(") × ");
            reveal_strlit(" × ");
            reveal_strlit(", ");
            reveal_strlit("π₁(");
            reveal_strlit("π₂(");
            reveal_strlit(" ≡[");
            reveal_strlit("] ");
            reveal_strlit("refl(");
            reveal_strlit("Type");
            reveal_strlit("");
        }
        match self {
            Term::Var(l) => {
                let mut s = String::from_str("#");
                s.append(decimal_string(*l as u64).as_str());
                s
            },
            Term::Pi { name, domain, codomain } => {
                let d = domain.to_display_string();
                let c = codomain.to_display_string();
                match name {
                    Some(x) => {
                        let mut s = concat3("(", x, ": ");
                        s.append(d.as_str());
                        s.append(") -> ");
                        s.append(c.as_str());
                        s
                    },
                    None => {
                        let mut s = concat3("", &d, " -> ");
                        s.append(c.as_str());
                        s
                    },
                }
            },
            Term::Lambda { name, body } => {
                let b = body.to_display_string();
                match name {
                    Some(x) => {
                        let mut s = concat3("λ", x, ". ");
                        s.append(b.as_str());
                        s
                    },
                    None => concat3("λ. ", &b, ""),
                }
            },
            Term::App { func, arg } => {
                let f = func.to_display_string();
                let a = arg.to_display_string();
                let mut s = concat3("(", &f, " ");
                s.append(a.as_str());
                s.append(")");
                s
            },
            Term::Sigma { name, first, second } => {
                let a = first.to_display_string();
                let b = second.to_display_string();
                match name {
                    Some(x) => {
                        let mut s = concat3("(", x, ": ");
                        s.append(a.as_str());
                        s.append(") × ");
                        s.append(b.as_str());
                        s
                    },
                    None => {
                        let mut s = concat3("", &a, " × ");
                        s.append(b.as_str());
                        s
                    },
                }
            },
            Term::Pair { first, second } => {
                let a = first.to_display_string();
                let b = second.to_display_string();
                let mut s = concat3("(", &a, ", ");
                s.append(b.as_str());
                s.append(")");
                s
            },
            Term::Fst(p) => concat3("π₁(", &p.to_display_string(), ")"),
            Term::Snd(p) => concat3("π₂(", &p.to_display_string(), ")"),
            Term::Id { ty, left, right } => {
                let t = ty.to_display_string();
                let l = left.to_display_string();
                let r = right.to_display_string();
                let mut s = concat3("", &l, " ≡[");
                s.append(t.as_str());
                s.append("] ");
                s.append(r.as_str());
                s
            },
            Term::Refl(x) => concat3("refl(", &x.to_display_string(), ")"),
            Term::Universe(l) => {
                let mut s = String::from_str("Type");
                s.append(decimal_string(*l as u64).as_str());
                s
            },
        }
    }
}

/// Whether every variable level of a term is at most `bound`.
pub open spec fn levels_at_most(t: TermV, bound: int) -> bool
    decreases t,
{
    match t {
        TermV::Var(l) => l <= bound,
        TermV::Pi(_, d, c) => levels_at_most(*d, bound) && levels_at_most(*c, bound),
        TermV::Lambda(_, b) => levels_at_most(*b, bound),
        TermV::App(f, a) => levels_at_most(*f, bound) && levels_at_most(*a, bound),
        TermV::Sigma(_, a, b) => levels_at_most(*a, bound) && levels_at_most(*b, bound),
        TermV::Pair(a, b) => levels_at_most(*a, bound) && levels_at_most(*b, bound),
        TermV::Fst(p) => levels_at_most(*p, bound),
        TermV::Snd(p) => levels_at_most(*p, bound),
        TermV::Id(ty, l, r) => levels_at_most(*ty, bound) && levels_at_most(*l, bound) && levels_at_most(*r, bound),
        TermV::Refl(v) => levels_at_most(*v, bound),
        TermV::Universe(_) => true,
    }
}

/// The nesting depth of the binders of a term.
pub open spec fn lbinder_depth(t: TermV) -> nat
    decreases t,
{
    match t {
        TermV::Var(_) | TermV::Universe(_) => 0,
        TermV::Pi(_, d, c) => vstd::math::max(lbinder_depth(*d) as int, (1 + lbinder_depth(*c)) as int) as nat,
        TermV::Lambda(_, b) => 1 + lbinder_depth(*b),
        TermV::App(f, a) => vstd::math::max(lbinder_depth(*f) as int, lbinder_depth(*a) as int) as nat,
        TermV::Sigma(_, a, b) => vstd::math::max(lbinder_depth(*a) as int, (1 + lbinder_depth(*b)) as int) as nat,
        TermV::Pair(a, b) => vstd::math::max(lbinder_depth(*a) as int, lbinder_depth(*b) as int) as nat,
        TermV::Fst(p) => lbinder_depth(*p),
        TermV::Snd(p) => lbinder_depth(*p),
        TermV::Id(ty, l, r) => vstd::math::max(
            lbinder_depth(*ty) as int,
            vstd::math::max(lbinder_depth(*l) as int, lbinder_depth(*r) as int),
        ) as nat,
        TermV::Refl(v) => lbinder_depth(*v),
    }
}

/// Shifting a term up by `delta` and back down by `delta` gives it back,
/// for levels small enough that the signed sums do not overflow.
pub proof fn lemma_shift_unshift(t: TermV, delta: i32, cutoff: u32)
    requires
        0 <= delta,
        levels_at_most(t, i32::MAX - delta),
        cutoff + lbinder_depth(t) <= u32::MAX,
    ensures
        spec_lshift(t, delta, cutoff) is Some,
        spec_lshift(spec_lshift(t, delta, cutoff)->0, (-delta) as i32, cutoff) == Some(t),
    decreases t,
{
    match t {
        TermV::Var(l) => {
            if l >= cutoff {
                assert((l as i32) == l);
                let s = (l as i32) + delta;
                assert((s as u32) as i32 == s);
            }
        },
        TermV::Pi(_, d, c) => {
            lemma_shift_unshift(*d, delta, cutoff);
            lemma_shift_unshift(*c, delta, (cutoff + 1) as u32);
        },
        TermV::Lambda(_, b) => {
            lemma_shift_unshift(*b, delta, (cutoff + 1) as u32);
        },
        TermV::App(f, a) => {
            lemma_shift_unshift(*f, delta, cutoff);
            lemma_shift_unshift(*a, delta, cutoff);
        },
        TermV::Sigma(_, a, b) => {
            lemma_shift_unshift(*a, delta, cutoff);
            lemma_shift_unshift(*b, delta, (cutoff + 1) as u32);
        },
        TermV::Pair(a, b) => {
            lemma_shift_unshift(*a, delta, cutoff);
            lemma_shift_unshift(*b, delta, cutoff);
        },
        TermV::Fst(p) => {
            lemma_shift_unshift(*p, delta, cutoff);
        },
        TermV::Snd(p) => {
            lemma_shift_unshift(*p, delta, cutoff);
        },
        TermV::Id(ty, l, r) => {
            lemma_shift_unshift(*ty, delta, cutoff);
            lemma_shift_unshift(*l, delta, cutoff);
            lemma_shift_unshift(*r, delta, cutoff);
        },
        TermV::Refl(v) => {
            lemma_shift_unshift(*v, delta, cutoff);
        },
        TermV::Universe(_) => {},
    }
}

/// Substituting a variable by another variable twice at the same level is
/// the same as once, when the replacement is not the substituted level.
pub proof fn lemma_subst_var_idempotent(v: u32, level: u32, k: u32)
    requires
        k != level,
    ensures
        spec_lsubst(TermV::Var(v), level, TermV::Var(k)) is Some,
        spec_lsubst(spec_lsubst(TermV::Var(v), level, TermV::Var(k))->0, level, TermV::Var(k))
            == spec_lsubst(TermV::Var(v), level, TermV::Var(k)),
{
}

} // verus!
