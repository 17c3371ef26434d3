//! The mathematical meaning of evaluation, quotation and conversion,
//! stated over abstract values with an explicit recursion budget.

use vstd::prelude::*;
use std::sync::Arc;
use crate::kernel::term::{Term, Level};
use crate::kernel::value::{SemVal, SemClo, seq_lookup};

verus! {

/// The recursion budget that the public entry points grant. A computation
/// that would nest deeper than this cannot run on any machine.
pub const FUEL: usize = 4294967295usize;

/// Abstract evaluation errors.
pub enum SemErr {
    UnboundVariable(usize),
    TypeMismatch(Seq<char>),
    NotAFunction(SemVal),
    LevelOverflow,
    DepthExhausted,
}

/// Evaluation of a term in an environment (outermost binder first).
///
/// A variable bound by the environment evaluates to its value; a free
/// variable with index `i` becomes the level `env.len() + i`; binders
/// become closures; applications reduce by `sem_apply`; `let` extends the
/// environment with the bound value; metavariables become neutral heads.
pub open spec fn sem_eval(t: Term, env: Seq<SemVal>, fuel: nat) -> Result<SemVal, SemErr>
    decreases fuel, 1nat,
{
    if fuel == 0 {
        Err(SemErr::DepthExhausted)
    } else {
        match t {
            Term::Var(i) => match seq_lookup(env, i as int) {
                Some(v) => Ok(v),
                None => if env.len() + i <= usize::MAX {
                    Ok(SemVal::Var((env.len() + i) as usize))
                } else {
                    Err(SemErr::LevelOverflow)
                },
            },
            Term::Universe(l) => Ok(SemVal::Universe(l)),
            Term::Pi(d, c) => match sem_eval(*d, env, (fuel - 1) as nat) {
                Ok(dv) => Ok(SemVal::Pi(Box::new(dv), SemClo { env: env, term: *c })),
                Err(e) => Err(e),
            },
            Term::Lambda(b) => Ok(SemVal::Lambda(SemClo { env: env, term: *b })),
            Term::App(f, a) => match sem_eval(*f, env, (fuel - 1) as nat) {
                Ok(fv) => match sem_eval(*a, env, (fuel - 1) as nat) {
                    Ok(av) => sem_apply(fv, av, (fuel - 1) as nat),
                    Err(e) => Err(e),
                },
                Err(e) => Err(e),
            },
            Term::Let(b, body) => match sem_eval(*b, env, (fuel - 1) as nat) {
                Ok(bv) => sem_eval(*body, env.push(bv), (fuel - 1) as nat),
                Err(e) => Err(e),
            },
            Term::Meta(id) => Ok(SemVal::Neutral(id, Seq::empty())),
        }
    }
}

/// Application of a value to an argument: β-reduction for lambdas,
/// spine extension for neutral values and variables, an error otherwise.
pub open spec fn sem_apply(f: SemVal, a: SemVal, fuel: nat) -> Result<SemVal, SemErr>
    decreases fuel, 2nat,
{
    match f {
        SemVal::Lambda(c) => sem_eval(c.term, c.env.push(a), fuel),
        SemVal::Neutral(h, sp) => Ok(SemVal::Neutral(h, sp.push(a))),
        SemVal::Var(l) => Ok(SemVal::Neutral(l, seq![a])),
        _ => Err(SemErr::NotAFunction(f)),
    }
}

/// Instantiation of a closure with a value for its bound variable.
pub open spec fn sem_instantiate(c: SemClo, v: SemVal, fuel: nat) -> Result<SemVal, SemErr> {
    sem_eval(c.term, c.env.push(v), fuel)
}

/// The De Bruijn index that a level denotes under `level` binders; levels
/// at or above the binder count are kept as they are.
pub open spec fn level_to_var(var_level: usize, level: usize) -> Term {
    if var_level < level {
        Term::Var((level - 1 - var_level) as usize)
    } else {
        Term::Var(var_level)
    }
}

/// The value a closure body takes when instantiated with a fresh variable
/// at `level`; a failed instantiation stands for that variable.
pub open spec fn sem_open(c: SemClo, level: usize, fuel: nat) -> SemVal {
    match sem_instantiate(c, SemVal::Var(level), fuel) {
        Ok(v) => v,
        Err(_) => SemVal::Var(level),
    }
}

/// Quotation of a value back to a term under `level` binders.
pub open spec fn sem_quote(v: SemVal, level: usize, fuel: nat) -> Term
    decreases fuel, 0nat,
{
    if fuel == 0 || level == usize::MAX {
        Term::Var(level)
    } else {
        match v {
            SemVal::Var(l) => level_to_var(l, level),
            SemVal::Universe(l) => Term::Universe(Level(l.0)),
            SemVal::Pi(d, c) => Term::Pi(
                Arc::new(sem_quote(*d, level, (fuel - 1) as nat)),
                Arc::new(sem_quote(sem_open(c, level, (fuel - 1) as nat), (level + 1) as usize, (fuel - 1) as nat)),
            ),
            SemVal::Lambda(c) => Term::Lambda(
                Arc::new(sem_quote(sem_open(c, level, (fuel - 1) as nat), (level + 1) as usize, (fuel - 1) as nat)),
            ),
            SemVal::Neutral(h, sp) => sem_quote_spine(level_to_var(h, level), sp, level, (fuel - 1) as nat),
        }
    }
}

/// A head term applied to the quotations of the arguments of a spine.
pub open spec fn sem_quote_spine(head: Term, args: Seq<SemVal>, level: usize, fuel: nat) -> Term
    decreases fuel, args.len(),
{
    if args.len() == 0 {
        head
    } else {
        Term::App(
            Arc::new(sem_quote_spine(head, args.drop_last(), level, fuel)),
            Arc::new(sem_quote(args.last(), level, fuel)),
        )
    }
}


/// Structural convertibility of two values under `level` binders: same
/// constructors, equal variables and universes, convertible domains and
/// codomains, convertible bodies, and neutral terms with the same head and
/// pointwise convertible spines. No η-rule.
pub open spec fn sem_conv(v1: SemVal, v2: SemVal, level: usize, fuel: nat) -> bool
    decreases fuel, 0nat,
{
    if fuel == 0 || level == usize::MAX {
        false
    } else {
        match (v1, v2) {
            (SemVal::Var(a), SemVal::Var(b)) => a == b,
            (SemVal::Universe(a), SemVal::Universe(b)) => a == b,
            (SemVal::Pi(d1, c1), SemVal::Pi(d2, c2)) =>
                sem_conv(*d1, *d2, level, (fuel - 1) as nat)
                && sem_conv(sem_open(c1, level, (fuel - 1) as nat), sem_open(c2, level, (fuel - 1) as nat), (level + 1) as usize, (fuel - 1) as nat),
            (SemVal::Lambda(c1), SemVal::Lambda(c2)) =>
                sem_conv(sem_open(c1, level, (fuel - 1) as nat), sem_open(c2, level, (fuel - 1) as nat), (level + 1) as usize, (fuel - 1) as nat),
            (SemVal::Neutral(h1, s1), SemVal::Neutral(h2, s2)) =>
                h1 == h2 && s1.len() == s2.len() && sem_conv_spine(s1, s2, level, (fuel - 1) as nat),
            _ => false,
        }
    }
}

/// Pointwise structural convertibility of two spines of equal length,
/// first argument first.
pub open spec fn sem_conv_spine(s1: Seq<SemVal>, s2: Seq<SemVal>, level: usize, fuel: nat) -> bool
    decreases fuel, s1.len(),
{
    if s1.len() == 0 {
        true
    } else {
        sem_conv(s1[0], s2[0], level, fuel) && sem_conv_spine(s1.drop_first(), s2.drop_first(), level, fuel)
    }
}

/// Pointwise η-convertibility of two spines of equal length, first
/// argument first.
pub open spec fn sem_conv_eta_spine(s1: Seq<SemVal>, s2: Seq<SemVal>, level: usize, fuel: nat) -> bool
    decreases fuel, s1.len(),
{
    if s1.len() == 0 {
        true
    } else {
        sem_conv_eta(s1[0], s2[0], level, fuel) && sem_conv_eta_spine(s1.drop_first(), s2.drop_first(), level, fuel)
    }
}

/// The value of applying `f` to the variable at `level`; a failed
/// application stands for `f` itself.
pub open spec fn sem_apply_or_self(f: SemVal, level: usize, fuel: nat) -> SemVal {
    match sem_apply(f, SemVal::Var(level), fuel) {
        Ok(v) => v,
        Err(_) => f,
    }
}

/// Convertibility with the η-rule: as `sem_conv`, but a lambda is also
/// convertible to any other value whose application to a fresh variable is
/// convertible to the lambda's body.
pub open spec fn sem_conv_eta(v1: SemVal, v2: SemVal, level: usize, fuel: nat) -> bool
    decreases fuel, 0nat,
{
    if fuel == 0 || level == usize::MAX {
        false
    } else {
        match (v1, v2) {
            (SemVal::Var(a), SemVal::Var(b)) => a == b,
            (SemVal::Universe(a), SemVal::Universe(b)) => a == b,
            (SemVal::Pi(d1, c1), SemVal::Pi(d2, c2)) =>
                sem_conv_eta(*d1, *d2, level, (fuel - 1) as nat)
                && sem_conv_eta(sem_open(c1, level, (fuel - 1) as nat), sem_open(c2, level, (fuel - 1) as nat), (level + 1) as usize, (fuel - 1) as nat),
            (SemVal::Lambda(c1), SemVal::Lambda(c2)) =>
                sem_conv_eta(sem_open(c1, level, (fuel - 1) as nat), sem_open(c2, level, (fuel - 1) as nat), (level + 1) as usize, (fuel - 1) as nat),
            (SemVal::Neutral(h1, s1), SemVal::Neutral(h2, s2)) =>
                h1 == h2 && s1.len() == s2.len() && sem_conv_eta_spine(s1, s2, level, (fuel - 1) as nat),
            (SemVal::Lambda(c), other) =>
                sem_conv_eta(sem_open(c, level, (fuel - 1) as nat), sem_apply_or_self(other, level, (fuel - 1) as nat), (level + 1) as usize, (fuel - 1) as nat),
            (other, SemVal::Lambda(c)) =>
                sem_conv_eta(sem_open(c, level, (fuel - 1) as nat), sem_apply_or_self(other, level, (fuel - 1) as nat), (level + 1) as usize, (fuel - 1) as nat),
            _ => false,
        }
    }
}


/// Π types are convertible only part by part: where two Π values are
/// convertible, their domains are convertible, and so are their codomains
/// instantiated with the fresh variable at `level`, one binder deeper.
pub proof fn lemma_conv_pi_parts(d1: SemVal, c1: SemClo, d2: SemVal, c2: SemClo, level: usize, fuel: nat, v1: SemVal, v2: SemVal)
    requires
        fuel > 0,
        sem_instantiate(c1, SemVal::Var(level), (fuel - 1) as nat) == Ok::<SemVal, SemErr>(v1),
        sem_instantiate(c2, SemVal::Var(level), (fuel - 1) as nat) == Ok::<SemVal, SemErr>(v2),
    ensures
        sem_conv_eta(SemVal::Pi(Box::new(d1), c1), SemVal::Pi(Box::new(d2), c2), level, fuel) ==> {
            &&& sem_conv_eta(d1, d2, level, (fuel - 1) as nat)
            &&& sem_conv_eta(v1, v2, (level + 1) as usize, (fuel - 1) as nat)
        },
{
}

/// Π types whose codomains are different universes are never convertible,
/// whatever their domains: `A → Type_i` and `B → Type_j` with `i != j`.
pub proof fn lemma_conv_pi_codomain(d1: SemVal, e1: Seq<SemVal>, i: Level, d2: SemVal, e2: Seq<SemVal>, j: Level, level: usize, fuel: nat)
    requires
        i != j,
    ensures
        !sem_conv_eta(
            SemVal::Pi(Box::new(d1), SemClo { env: e1, term: Term::Universe(i) }),
            SemVal::Pi(Box::new(d2), SemClo { env: e2, term: Term::Universe(j) }),
            level,
            fuel,
        ),
{
    if fuel > 0 && level < usize::MAX {
        let f = (fuel - 1) as nat;
        let c1 = SemClo { env: e1, term: Term::Universe(i) };
        let c2 = SemClo { env: e2, term: Term::Universe(j) };
        if f > 0 {
            assert(sem_open(c1, level, f) == SemVal::Universe(i));
            assert(sem_open(c2, level, f) == SemVal::Universe(j));
            assert(!sem_conv_eta(SemVal::Universe(i), SemVal::Universe(j), (level + 1) as usize, f));
        } else {
            assert(!sem_conv_eta(sem_open(c1, level, f), sem_open(c2, level, f), (level + 1) as usize, f));
        }
    }
}


/// Universes are convertible exactly when their levels agree, and rigid
/// variables exactly when they are the same variable (with any budget
/// left and below the largest level).
pub proof fn lemma_conv_atoms(i: Level, j: Level, a: usize, b: usize, level: usize, fuel: nat)
    requires
        fuel > 0,
        level < usize::MAX,
    ensures
        sem_conv_eta(SemVal::Universe(i), SemVal::Universe(j), level, fuel) <==> i == j,
        sem_conv_eta(SemVal::Var(a), SemVal::Var(b), level, fuel) <==> a == b,
        !sem_conv_eta(SemVal::Var(a), SemVal::Universe(i), level, fuel),
{
}

} // verus!
