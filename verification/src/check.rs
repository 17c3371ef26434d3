//! Bidirectional type checking for the calculus with Σ and identity types,
//! with a bound on universe levels.

use vstd::prelude::*;
use std::sync::Arc;
use crate::term::{Term, TermV, Level, spec_lsubst, show_lterm};
use crate::kernel::show::{decimal, decimal_string};
use crate::types::{Type, TypeEnv};
use crate::arena::Arena;
use crate::shared::arc_clone;

verus! {

/// Type errors
#[derive(Debug, Clone, PartialEq, Eq)]
pub enum TypeError {
    /// Variable level out of the environment
    UnboundVariable(Level),
    /// The inferred type differs from the expected one
    TypeMismatch {
        expected: Arc<Type>,
        found: Arc<Type>,
    },
    /// The type cannot be synthesized (or a type is not a universe)
    CannotInfer(Arc<Term>),
    /// A universe level at or above the bound
    InvalidUniverse(Level, Level),
    /// A non-function was applied
    NotAFunction(Arc<Type>),
    /// A non-pair was projected
    NotAPair(Arc<Type>),
    /// An ill-formed equality
    InvalidEquality {
        left: Arc<Term>,
        right: Arc<Term>,
        ty: Arc<Type>,
    },
}

/// Abstract type errors.
pub enum TypeErrorV {
    UnboundVariable(u32),
    TypeMismatch(TermV, TermV),
    CannotInfer(TermV),
    InvalidUniverse(u32, u32),
    NotAFunction(TermV),
    NotAPair(TermV),
    InvalidEquality(TermV, TermV, TermV),
}

impl View for TypeError {
    type V = TypeErrorV;

    open spec fn view(&self) -> TypeErrorV {
        match *self {
            TypeError::UnboundVariable(l) => TypeErrorV::UnboundVariable(l),
            TypeError::TypeMismatch { expected, found } => TypeErrorV::TypeMismatch(expected@, found@),
            TypeError::CannotInfer(t) => TypeErrorV::CannotInfer(t@),
            TypeError::InvalidUniverse(a, b) => TypeErrorV::InvalidUniverse(a, b),
            TypeError::NotAFunction(t) => TypeErrorV::NotAFunction(t@),
            TypeError::NotAPair(t) => TypeErrorV::NotAPair(t@),
            TypeError::InvalidEquality { left, right, ty } => TypeErrorV::InvalidEquality(left@, right@, ty@),
        }
    }
}

/// The text a type error is shown as.
pub open spec fn type_error_text(e: TypeErrorV) -> Seq<char> {
    match e {
        TypeErrorV::UnboundVariable(l) => "Unbound variable: #"@ + decimal(l as nat),
        TypeErrorV::TypeMismatch(e, f) => "Type mismatch: expected "@ + show_lterm(e) + ", found "@ + show_lterm(f),
        TypeErrorV::CannotInfer(t) => "Cannot infer type for: "@ + show_lterm(t),
        TypeErrorV::InvalidUniverse(l, m) => "Invalid universe level "@ + decimal(l as nat) + " (max: "@ + decimal(m as nat) + ")"@,
        TypeErrorV::NotAFunction(t) => "Cannot apply to non-function type: "@ + show_lterm(t),
        TypeErrorV::NotAPair(t) => "Cannot project from non-pair type: "@ + show_lterm(t),
        TypeErrorV::InvalidEquality(l, r, t) => "Invalid equality: "@ + show_lterm(l) + " ≡["@ + show_lterm(t) + "] "@ + show_lterm(r),
    }
}

impl TypeError {
    /// The text the error is shown as
    pub fn to_display_string(&self) -> (r: String)
        ensures
            r@ == type_error_text(self@),
    {
        proof {
            reveal_strlit("Unbound variable: #");
            reveal_strlit("Type mismatch: expected ");
            reveal_strlit(", found ");
            reveal_strlit("Cannot infer type for: ");
            reveal_strlit("Invalid universe level ");
            reveal_strlit(" (max: ");
            reveal_strlit(")");
            reveal_strlit("Cannot apply to non-function type: ");
            reveal_strlit("Cannot project from non-pair type: ");
            reveal_strlit("Invalid equality: ");
            reveal_strlit(" ≡[");
            reveal_strlit("] ");
        }
        match self {
            TypeError::UnboundVariable(l) => {
                let mut s = String::from_str("Unbound variable: #");
                s.append(decimal_string(*l as u64).as_str());
                s
            },
            TypeError::TypeMismatch { expected, found } => {
                let mut s = String::from_str("Type mismatch: expected ");
                s.append(expected.to_display_string().as_str());
                s.append(", found ");
                s.append(found.to_display_string().as_str());
                s
            },
            TypeError::CannotInfer(t) => {
                let mut s = String::from_str("Cannot infer type for: ");
                s.append(t.to_display_string().as_str());
                s
            },
            TypeError::InvalidUniverse(l, m) => {
                let mut s = String::from_str("Invalid universe level ");
                s.append(decimal_string(*l as u64).as_str());
                s.append(" (max: ");
                s.append(decimal_string(*m as u64).as_str());
                s.append(")");
                s
            },
            TypeError::NotAFunction(t) => {
                let mut s = String::from_str("Cannot apply to non-function type: ");
                s.append(t.to_display_string().as_str());
                s
            },
            TypeError::NotAPair(t) => {
                let mut s = String::from_str("Cannot project from non-pair type: ");
                s.append(t.to_display_string().as_str());
                s
            },
            TypeError::InvalidEquality { left, right, ty } => {
                let mut s = String::from_str("Invalid equality: ");
                s.append(left.to_display_string().as_str());
                s.append(" ≡[");
                s.append(ty.to_display_string().as_str());
                s.append("] ");
                s.append(right.to_display_string().as_str());
                s
            },
        }
    }
}

/// Result of checking: a type, or an error
pub type CheckResult<T> = Result<Arc<T>, TypeError>;

/// The abstract content of a checking result.
pub open spec fn lres_view(r: CheckResult<Type>) -> Result<TermV, TypeErrorV> {
    match r {
        Ok(t) => Ok(t@),
        Err(e) => Err(e@),
    }
}

/// The level of a type that should be a universe.
pub open spec fn spec_universe_of(t: TermV) -> Result<u32, TypeErrorV> {
    match t {
        TermV::Universe(l) => Ok(l),
        _ => Err(TypeErrorV::CannotInfer(t)),
    }
}

/// The universe of the larger of two levels, if within the bound.
pub open spec fn spec_bounded_universe(a: u32, b: u32, max: u32) -> Result<TermV, TypeErrorV> {
    let l = if a >= b { a } else { b };
    if l > max { Err(TypeErrorV::InvalidUniverse(l, max)) } else { Ok(TermV::Universe(l)) }
}

/// Type synthesis; `None` where substitution overflows.
pub open spec fn spec_linfer(env: Seq<TermV>, t: TermV, max: u32) -> Option<Result<TermV, TypeErrorV>>
    decreases t, 0nat,
{
    match t {
        TermV::Var(l) => if l < env.len() { Some(Ok(env[l as int])) } else { Some(Err(TypeErrorV::UnboundVariable(l))) },
        TermV::Pi(_, d, c) => match spec_linfer(env, *d, max) {
            None => None,
            Some(Err(e)) => Some(Err(e)),
            Some(Ok(dt)) => match spec_linfer(env.push(*d), *c, max) {
                None => None,
                Some(Err(e)) => Some(Err(e)),
                Some(Ok(ct)) => match (spec_universe_of(dt), spec_universe_of(ct)) {
                    (Err(e), _) => Some(Err(e)),
                    (Ok(_), Err(e)) => Some(Err(e)),
                    (Ok(a), Ok(b)) => Some(spec_bounded_universe(a, b, max)),
                },
            },
        },
        TermV::Lambda(_, _) => Some(Err(TypeErrorV::CannotInfer(t))),
        TermV::App(f, a) => match spec_linfer(env, *f, max) {
            None => None,
            Some(Err(e)) => Some(Err(e)),
            Some(Ok(ft)) => match ft {
                TermV::Pi(_, dom, cod) => match spec_lcheck(env, *a, *dom, max) {
                    None => None,
                    Some(Err(e)) => Some(Err(e)),
                    Some(Ok(_)) => match spec_lsubst(*cod, 0, *a) {
                        Some(r) => Some(Ok(r)),
                        None => None,
                    },
                },
                _ => Some(Err(TypeErrorV::NotAFunction(ft))),
            },
        },
        TermV::Sigma(_, a, b) => match spec_linfer(env, *a, max) {
            None => None,
            Some(Err(e)) => Some(Err(e)),
            Some(Ok(at)) => match spec_linfer(env.push(*a), *b, max) {
                None => None,
                Some(Err(e)) => Some(Err(e)),
                Some(Ok(bt)) => match (spec_universe_of(at), spec_universe_of(bt)) {
                    (Err(e), _) => Some(Err(e)),
                    (Ok(_), Err(e)) => Some(Err(e)),
                    (Ok(x), Ok(y)) => Some(spec_bounded_universe(x, y, max)),
                },
            },
        },
        TermV::Pair(_, _) => Some(Err(TypeErrorV::CannotInfer(t))),
        TermV::Fst(p) => match spec_linfer(env, *p, max) {
            None => None,
            Some(Err(e)) => Some(Err(e)),
            Some(Ok(pt)) => match pt {
                TermV::Sigma(_, first, _) => Some(Ok(*first)),
                _ => Some(Err(TypeErrorV::NotAPair(pt))),
            },
        },
        TermV::Snd(p) => match spec_linfer(env, *p, max) {
            None => None,
            Some(Err(e)) => Some(Err(e)),
            Some(Ok(pt)) => match pt {
                TermV::Sigma(_, _, second) => match spec_lsubst(*second, 0, TermV::Fst(p)) {
                    Some(r) => Some(Ok(r)),
                    None => None,
                },
                _ => Some(Err(TypeErrorV::NotAPair(pt))),
            },
        },
        TermV::Id(ty, _, _) => match spec_linfer(env, *ty, max) {
            None => None,
            Some(Err(e)) => Some(Err(e)),
            Some(Ok(tt)) => match spec_universe_of(tt) {
                Err(e) => Some(Err(e)),
                Ok(l) => if l > max { Some(Err(TypeErrorV::InvalidUniverse(l, max))) } else { Some(Ok(TermV::Universe(l))) },
            },
        },
        TermV::Refl(v) => match spec_linfer(env, *v, max) {
            None => None,
            Some(Err(e)) => Some(Err(e)),
            Some(Ok(ty)) => Some(Ok(TermV::Id(Box::new(ty), v, v))),
        },
        TermV::Universe(l) => if l >= max {
            Some(Err(TypeErrorV::InvalidUniverse(l, max)))
        } else {
            Some(Ok(TermV::Universe((l + 1) as u32)))
        },
    }
}

/// Type checking against an expected type; `None` where substitution
/// overflows.
pub open spec fn spec_lcheck(env: Seq<TermV>, t: TermV, expected: TermV, max: u32) -> Option<Result<TermV, TypeErrorV>>
    decreases t, 1nat,
{
    match (t, expected) {
        (TermV::Lambda(_, body), TermV::Pi(_, d, c)) => match spec_lcheck(env.push(*d), *body, *c, max) {
            None => None,
            Some(Err(e)) => Some(Err(e)),
            Some(Ok(_)) => Some(Ok(expected)),
        },
        (TermV::Pair(a, b), TermV::Sigma(_, ea, eb)) => match spec_lcheck(env, *a, *ea, max) {
            None => None,
            Some(Err(e)) => Some(Err(e)),
            Some(Ok(_)) => match spec_lcheck(env, *b, *eb, max) {
                None => None,
                Some(Err(e)) => Some(Err(e)),
                Some(Ok(_)) => Some(Ok(expected)),
            },
        },
        _ => match spec_linfer(env, t, max) {
            None => None,
            Some(Err(e)) => Some(Err(e)),
            Some(Ok(inferred)) => if inferred == expected {
                Some(Ok(expected))
            } else {
                Some(Err(TypeErrorV::TypeMismatch(expected, inferred)))
            },
        },
    }
}

/// Checking succeeds only with the expected type itself; outside the two
/// checking rules (a lambda against a Π-type, a pair against a Σ-type) it
/// infers the term's type, answers with the expected type when the two are
/// equal, and reports the mismatch otherwise.
pub proof fn lemma_check_shape(env: Seq<TermV>, t: TermV, expected: TermV, max: u32)
    ensures
        spec_lcheck(env, t, expected, max) matches Some(Ok(r)) ==> r == expected,
        !(t is Lambda && expected is Pi) && !(t is Pair && expected is Sigma) ==>
            spec_lcheck(env, t, expected, max) == match spec_linfer(env, t, max) {
                None => None,
                Some(Err(e)) => Some(Err(e)),
                Some(Ok(inferred)) => if inferred == expected {
                    Some(Ok::<TermV, TypeErrorV>(expected))
                } else {
                    Some(Err(TypeErrorV::TypeMismatch(expected, inferred)))
                },
            },
{
}

/// Type checker with a bound on universe levels.
pub struct TypeChecker {
    arena: Arena,
    max_universe: Level,
}

impl TypeChecker {
    /// The bound on universe levels.
    pub closed spec fn spec_max(&self) -> u32 {
        self.max_universe
    }

    /// Create a checker with a bound on universe levels
    pub fn new(max_universe: Level) -> (r: Self)
        ensures
            r.spec_max() == max_universe,
    {
        TypeChecker { arena: Arena::new(), max_universe }
    }

    /// Synthesize the type of a term
    pub fn infer(&mut self, env: &TypeEnv, term: &Arc<Term>) -> (r: CheckResult<Type>)
        requires
            spec_linfer(env@, term@, old(self).spec_max()) is Some,
        ensures
            spec_linfer(env@, term@, old(self).spec_max()) == Some(lres_view(r)),
            final(self).spec_max() == old(self).spec_max(),
        decreases term@, 0nat,
    {
        match &**term {
            Term::Var(level) => match env.get(*level) {
                Some(t) => Ok(arc_clone(t)),
                None => Err(TypeError::UnboundVariable(*level)),
            },
            Term::Pi { domain, codomain, .. } => {
                let domain_ty = match self.infer(env, domain) {
                    Ok(t) => t,
                    Err(e) => return Err(e),
                };
                let mut env_ext = env.copy();
                let _ = env_ext.extend(arc_clone(domain));
                let codomain_ty = match self.infer(&env_ext, codomain) {
                    Ok(t) => t,
                    Err(e) => return Err(e),
                };
                let domain_level = match get_universe_level(&domain_ty) {
                    Ok(l) => l,
                    Err(e) => return Err(e),
                };
                let codomain_level = match get_universe_level(&codomain_ty) {
                    Ok(l) => l,
                    Err(e) => return Err(e),
                };
                let result_level = if domain_level >= codomain_level { domain_level } else { codomain_level };
                if result_level > self.max_universe {
                    return Err(TypeError::InvalidUniverse(result_level, self.max_universe));
                }
                Ok(Term::universe(result_level))
            },
            Term::Lambda { .. } => Err(TypeError::CannotInfer(arc_clone(term))),
            Term::App { func, arg } => {
                let func_ty = match self.infer(env, func) {
                    Ok(t) => t,
                    Err(e) => return Err(e),
                };
                match &*func_ty {
                    Term::Pi { domain, codomain, .. } => {
                        match self.check(env, arg, domain) {
                            Ok(_) => {},
                            Err(e) => return Err(e),
                        }
                        Ok(codomain.subst(0, arg))
                    },
                    _ => Err(TypeError::NotAFunction(func_ty)),
                }
            },
            Term::Sigma { first, second, .. } => {
                let first_ty = match self.infer(env, first) {
                    Ok(t) => t,
                    Err(e) => return Err(e),
                };
                let mut env_ext = env.copy();
                let _ = env_ext.extend(arc_clone(first));
                let second_ty = match self.infer(&env_ext, second) {
                    Ok(t) => t,
                    Err(e) => return Err(e),
                };
                let first_level = match get_universe_level(&first_ty) {
                    Ok(l) => l,
                    Err(e) => return Err(e),
                };
                let second_level = match get_universe_level(&second_ty) {
                    Ok(l) => l,
                    Err(e) => return Err(e),
                };
                let result_level = if first_level >= second_level { first_level } else { second_level };
                if result_level > self.max_universe {
                    return Err(TypeError::InvalidUniverse(result_level, self.max_universe));
                }
                Ok(Term::universe(result_level))
            },
            Term::Pair { .. } => Err(TypeError::CannotInfer(arc_clone(term))),
            Term::Fst(pair) => {
                let pair_ty = match self.infer(env, pair) {
                    Ok(t) => t,
                    Err(e) => return Err(e),
                };
                match &*pair_ty {
                    Term::Sigma { first, .. } => Ok(arc_clone(first)),
                    _ => Err(TypeError::NotAPair(pair_ty)),
                }
            },
            Term::Snd(pair) => {
                let pair_ty = match self.infer(env, pair) {
                    Ok(t) => t,
                    Err(e) => return Err(e),
                };
                match &*pair_ty {
                    Term::Sigma { second, .. } => {
                        let fst_val = Term::fst(arc_clone(pair));
                        Ok(second.subst(0, &fst_val))
                    },
                    _ => Err(TypeError::NotAPair(pair_ty)),
                }
            },
            Term::Id { ty, .. } => {
                let ty_ty = match self.infer(env, ty) {
                    Ok(t) => t,
                    Err(e) => return Err(e),
                };
                let level = match get_universe_level(&ty_ty) {
                    Ok(l) => l,
                    Err(e) => return Err(e),
                };
                if level > self.max_universe {
                    return Err(TypeError::InvalidUniverse(level, self.max_universe));
                }
                Ok(Term::universe(level))
            },
            Term::Refl(value) => {
                let ty = match self.infer(env, value) {
                    Ok(t) => t,
                    Err(e) => return Err(e),
                };
                Ok(Term::id(ty, arc_clone(value), arc_clone(value)))
            },
            Term::Universe(level) => {
                if *level >= self.max_universe {
                    Err(TypeError::InvalidUniverse(*level, self.max_universe))
                } else {
                    Ok(Term::universe(*level + 1))
                }
            },
        }
    }

    /// Check a term against an expected type; the expected type is returned
    pub fn check(&mut self, env: &TypeEnv, term: &Arc<Term>, expected: &Arc<Type>) -> (r: CheckResult<Type>)
        requires
            spec_lcheck(env@, term@, expected@, old(self).spec_max()) is Some,
        ensures
            spec_lcheck(env@, term@, expected@, old(self).spec_max()) == Some(lres_view(r)),
            final(self).spec_max() == old(self).spec_max(),
        decreases term@, 1nat,
    {
        if let (Term::Lambda { body, .. }, Term::Pi { domain, codomain, .. }) = (&**term, &**expected) {
            let mut env_ext = env.copy();
            let _ = env_ext.extend(arc_clone(domain));
            match self.check(&env_ext, body, codomain) {
                Ok(_) => {},
                Err(e) => return Err(e),
            }
            return Ok(arc_clone(expected));
        }
        if let (Term::Pair { first, second }, Term::Sigma { first: exp_first, second: exp_second, .. }) = (&**term, &**expected) {
            match self.check(env, first, exp_first) {
                Ok(_) => {},
                Err(e) => return Err(e),
            }
            match self.check(env, second, exp_second) {
                Ok(_) => {},
                Err(e) => return Err(e),
            }
            return Ok(arc_clone(expected));
        }
        let inferred = match self.infer(env, term) {
            Ok(t) => t,
            Err(e) => return Err(e),
        };
        if type_equal(&inferred, expected) {
            Ok(arc_clone(expected))
        } else {
            Err(TypeError::TypeMismatch { expected: arc_clone(expected), found: inferred })
        }
    }
}

fn type_equal(ty1: &Arc<Type>, ty2: &Arc<Type>) -> (r: bool)
    ensures
        r == (ty1@ == ty2@),
{
    ty1.equals(ty2)
}

fn get_universe_level(ty: &Arc<Type>) -> (r: Result<Level, TypeError>)
    ensures
        match r {
            Ok(l) => Ok::<u32, TypeErrorV>(l),
            Err(e) => Err(e@),
        } == spec_universe_of(ty@),
{
    match &**ty {
        Term::Universe(level) => Ok(*level),
        _ => Err(TypeError::CannotInfer(arc_clone(ty))),
    }
}


/// Projections take their types from the pair's Σ type: where
/// `p : Σ(x:A).B`, `fst p : A` and `snd p : B[x := fst p]`.
pub proof fn lemma_projection_types(env: Seq<TermV>, p: TermV, max: u32, n: Option<Seq<char>>, a: TermV, b: TermV)
    requires
        spec_linfer(env, p, max) == Some(Ok::<TermV, TypeErrorV>(TermV::Sigma(n, Box::new(a), Box::new(b)))),
    ensures
        spec_linfer(env, TermV::Fst(Box::new(p)), max) == Some(Ok::<TermV, TypeErrorV>(a)),
        spec_lsubst(b, 0, TermV::Fst(Box::new(p))) matches Some(r)
            ==> spec_linfer(env, TermV::Snd(Box::new(p)), max) == Some(Ok::<TermV, TypeErrorV>(r)),
{
}


/// Π and Σ types live in the larger universe of their parts: where the
/// first part has type `Type_a` and the second (with the first bound) has
/// type `Type_b`, the type formed has type `Type_l` with `l` at least `a`
/// and `b` and equal to one of them; it is refused exactly when that
/// level is beyond the bound.
pub proof fn lemma_formation_universe(env: Seq<TermV>, n: Option<Seq<char>>, d: TermV, c: TermV, max: u32, a: u32, b: u32)
    requires
        spec_linfer(env, d, max) == Some(Ok::<TermV, TypeErrorV>(TermV::Universe(a))),
        spec_linfer(env.push(d), c, max) == Some(Ok::<TermV, TypeErrorV>(TermV::Universe(b))),
    ensures
        spec_linfer(env, TermV::Pi(n, Box::new(d), Box::new(c)), max) == spec_linfer(env, TermV::Sigma(n, Box::new(d), Box::new(c)), max),
        spec_linfer(env, TermV::Pi(n, Box::new(d), Box::new(c)), max) matches Some(Ok(TermV::Universe(l)))
            ==> l >= a && l >= b && (l == a || l == b),
        spec_linfer(env, TermV::Pi(n, Box::new(d), Box::new(c)), max) is Some,
        (spec_linfer(env, TermV::Pi(n, Box::new(d), Box::new(c)), max)->0 is Ok) <==> (a <= max && b <= max),
        spec_linfer(env, TermV::Pi(n, Box::new(d), Box::new(c)), max)->0 is Ok
            ==> spec_linfer(env, TermV::Pi(n, Box::new(d), Box::new(c)), max)->0->Ok_0 is Universe,
{
}

} // verus!
