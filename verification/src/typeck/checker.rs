//! Bidirectional type checking: type synthesis and type checking with a
//! constraint solver for metavariables.

use vstd::prelude::*;
use crate::kernel::{Term, Value, Level};
use std::rc::Rc;
use std::sync::Arc;
use crate::kernel::value::{SemVal, SemClo, seq_view};
use crate::kernel::show::show_value;
use crate::eval::{EvalResult, normalize, evaluate};
use crate::eval::semantics::{FUEL, SemErr, sem_eval, sem_instantiate, sem_conv_eta};
use crate::eval::normalize::spec_normalize;
use crate::eval::convertible_values;
use crate::eval::apply::instantiate_closure;
use super::context::{Context, ctx_lookup, types_of};
use super::constraints::{Constraint, ConstraintSolver, MetaSubstitution, SemConstraint, SolverView, sem_solve, sem_subst_apply};
use super::{CheckError, CheckResult, SemCheckErr, cres_view};

verus! {

/// A typing context as a sequence of named types, outermost first.
pub type CtxView = Seq<(Seq<char>, SemVal)>;

/// The message for a universe whose level has no successor.
pub open spec fn level_overflow_msg() -> Seq<char> {
    "Universe level overflow"@
}

/// The larger of two universe levels.
pub open spec fn level_max(a: Level, b: Level) -> Level {
    Level(if a.0 >= b.0 { a.0 } else { b.0 })
}

/// The number of metavariable occurrences in a term.
pub open spec fn meta_count(t: Term) -> nat
    decreases t,
{
    match t {
        Term::Var(_) | Term::Universe(_) => 0,
        Term::Pi(d, c) => meta_count(*d) + meta_count(*c),
        Term::Lambda(b) => meta_count(*b),
        Term::App(f, a) => meta_count(*f) + meta_count(*a),
        Term::Let(v, b) => meta_count(*v) + meta_count(*b),
        Term::Meta(_) => 1,
    }
}

/// The message for a type that should have been a universe.
pub open spec fn not_universe_msg(v: SemVal) -> Seq<char> {
    "Expected universe, got "@ + show_value(v)
}

/// The level of a type that should be a universe.
pub open spec fn spec_universe_level(v: SemVal) -> Result<Level, SemCheckErr> {
    match v {
        SemVal::Universe(l) => Ok(l),
        _ => Err(SemCheckErr::InvalidLevel(not_universe_msg(v))),
    }
}

/// Checking that an inferred type is convertible to the expected one: by
/// η-conversion under `level` binders, or else by pushing an equation and
/// solving the pending constraints.
pub open spec fn spec_check_convertible(actual: SemVal, expected: SemVal, level: usize, st: SolverView) -> (Result<(), SemCheckErr>, SolverView) {
    if sem_conv_eta(actual, expected, level, (usize::MAX - level) as nat) {
        (Ok(()), st)
    } else {
        let solved = sem_solve(st.constraints.push(SemConstraint::Equal(actual, expected)), st.subst);
        let st2 = SolverView { constraints: solved.1, subst: solved.2, next: st.next };
        match solved.0 {
            Ok(_) => (Ok(()), st2),
            Err(_) => (Err(SemCheckErr::TypeMismatch(expected, actual, Term::Var(0))), st2),
        }
    }
}

/// Checking a term against a type: a lambda against a Pi type checks its
/// body against the codomain instantiated with a fresh variable; anything
/// else has its type inferred and compared with the expected one.
pub open spec fn spec_check(t: Term, expected: SemVal, ctx: CtxView, st: SolverView) -> (Result<(), SemCheckErr>, SolverView)
    decreases t, 1nat,
{
    match (t, expected) {
        (Term::Lambda(body), SemVal::Pi(d, c)) => match sem_instantiate(c, SemVal::Var(ctx.len() as usize), FUEL as nat) {
            Ok(bt) => spec_check(*body, bt, ctx.push(("_"@, *d)), st),
            Err(_) => (Err(SemCheckErr::CannotInfer(t)), st),
        },
        _ => {
            let inferred = spec_infer(t, ctx, st);
            match inferred.0 {
                Ok(ty) => spec_check_convertible(ty, expected, ctx.len() as usize, inferred.1),
                Err(e) => (Err(e), inferred.1),
            }
        },
    }
}

/// Type synthesis: variables from the context, `Type_i : Type_{i+1}`, a Pi
/// type in the larger universe of its domain and codomain, an application
/// at its function's codomain instantiated with the argument, a `let` at
/// the type of its body, a metavariable at a fresh metavariable type.
/// Lambdas cannot be synthesized.
pub open spec fn spec_infer(t: Term, ctx: CtxView, st: SolverView) -> (Result<SemVal, SemCheckErr>, SolverView)
    decreases t, 0nat,
{
    match t {
        Term::Var(i) => match ctx_lookup(ctx, i as int) {
            Some(e) => (Ok(e.1), st),
            None => (Err(SemCheckErr::UnboundVariable(i)), st),
        },
        Term::Universe(l) => if l.0 == u32::MAX {
            (Err(SemCheckErr::InvalidLevel(level_overflow_msg())), st)
        } else {
            (Ok(SemVal::Universe(Level((l.0 + 1) as u32))), st)
        },
        Term::Pi(d, c) => {
            let r1 = spec_infer(*d, ctx, st);
            match r1.0 {
                Err(e) => (Err(e), r1.1),
                Ok(dt) => match spec_universe_level(dt) {
                    Err(e) => (Err(e), r1.1),
                    Ok(dl) => match sem_eval(*d, types_of(ctx), FUEL as nat) {
                        Err(_) => (Err(SemCheckErr::CannotInfer(t)), r1.1),
                        Ok(dv) => {
                            let r2 = spec_infer(*c, ctx.push(("_"@, dv)), r1.1);
                            match r2.0 {
                                Err(e) => (Err(e), r2.1),
                                Ok(ct) => match spec_universe_level(ct) {
                                    Err(e) => (Err(e), r2.1),
                                    Ok(cl) => (Ok(SemVal::Universe(level_max(dl, cl))), r2.1),
                                },
                            }
                        },
                    },
                },
            }
        },
        Term::App(f, a) => {
            let r1 = spec_infer(*f, ctx, st);
            match r1.0 {
                Err(e) => (Err(e), r1.1),
                Ok(ft) => match ft {
                    SemVal::Pi(dom, cod) => {
                        let r2 = spec_check(*a, *dom, ctx, r1.1);
                        match r2.0 {
                            Err(e) => (Err(e), r2.1),
                            Ok(_) => match sem_eval(*a, types_of(ctx), FUEL as nat) {
                                Err(_) => (Err(SemCheckErr::CannotInfer(t)), r2.1),
                                Ok(av) => match sem_instantiate(cod, av, FUEL as nat) {
                                    Ok(rt) => (Ok(rt), r2.1),
                                    Err(_) => (Err(SemCheckErr::CannotInfer(t)), r2.1),
                                },
                            },
                        }
                    },
                    _ => (Err(SemCheckErr::NotAFunction(ft, *a)), r1.1),
                },
            }
        },
        Term::Let(b, body) => {
            let r1 = spec_infer(*b, ctx, st);
            match r1.0 {
                Err(e) => (Err(e), r1.1),
                Ok(bt) => match sem_eval(*b, types_of(ctx), FUEL as nat) {
                    Err(_) => (Err(SemCheckErr::CannotInfer(t)), r1.1),
                    Ok(_) => spec_infer(*body, ctx.push(("_"@, bt)), r1.1),
                },
            }
        },
        Term::Meta(_) => (
            Ok(SemVal::Neutral(st.next, Seq::empty())),
            SolverView { constraints: st.constraints, subst: st.subst, next: (st.next + 1) as usize },
        ),
        Term::Lambda(_) => (Err(SemCheckErr::CannotInfer(t)), st),
    }
}

/// The universe hierarchy: in any context and solver state, `Type_i`
/// checks against `Type_{i+1}` and not against `Type_i`; every universe
/// that has a type is typed by a strictly higher universe, and the largest
/// level has none (no `Type : Type`).
pub proof fn lemma_universe_hierarchy(i: u32, ctx: CtxView, st: SolverView)
    requires
        ctx.len() < usize::MAX,
    ensures
        i < u32::MAX ==> spec_check(Term::Universe(Level(i)), SemVal::Universe(Level((i + 1) as u32)), ctx, st).0 is Ok,
        spec_check(Term::Universe(Level(i)), SemVal::Universe(Level(i)), ctx, st).0 is Err,
        i < u32::MAX ==> spec_infer(Term::Universe(Level(i)), ctx, st).0 == Ok::<SemVal, SemCheckErr>(SemVal::Universe(Level((i + 1) as u32))),
        spec_infer(Term::Universe(Level(i)), ctx, st).0 matches Ok(SemVal::Universe(j)) ==> j.0 > i,
        spec_infer(Term::Universe(Level(i)), ctx, st).0 is Ok || i == u32::MAX,
        i == u32::MAX ==> spec_infer(Term::Universe(Level(i)), ctx, st).0 is Err,
{
    if i < u32::MAX {
        let level = ctx.len() as usize;
        let up = SemVal::Universe(Level((i + 1) as u32));
        let same = SemVal::Universe(Level(i));
        assert(sem_conv_eta(up, up, level, (usize::MAX - level) as nat));
        assert(!sem_conv_eta(up, same, level, (usize::MAX - level) as nat));
        let cs = st.constraints.push(SemConstraint::Equal(up, same));
        assert(cs.drop_last() =~= st.constraints);
        assert(sem_subst_apply(st.subst, up) == up);
        assert(sem_subst_apply(st.subst, same) == same);
        assert(sem_solve(cs, st.subst).0 is Err);
    }
}

/// A Π type lives in the larger universe of its parts: where the domain
/// `d` has type `Type_j` and (in the context extended with `d`'s value)
/// the codomain `c` has type `Type_k`, the Π type has type `Type_l` with
/// `l` at least `j` and at least `k`, and equal to one of them.
pub proof fn lemma_pi_universe(d: Term, c: Term, ctx: CtxView, st: SolverView, j: Level, k: Level)
    requires
        spec_infer(d, ctx, st).0 == Ok::<SemVal, SemCheckErr>(SemVal::Universe(j)),
        sem_eval(d, types_of(ctx), FUEL as nat) is Ok,
        spec_infer(c, ctx.push(("_"@, sem_eval(d, types_of(ctx), FUEL as nat)->Ok_0)), spec_infer(d, ctx, st).1).0
            == Ok::<SemVal, SemCheckErr>(SemVal::Universe(k)),
    ensures
        spec_infer(Term::Pi(Arc::new(d), Arc::new(c)), ctx, st).0 matches Ok(SemVal::Universe(l))
            && l.0 >= j.0 && l.0 >= k.0 && (l == j || l == k),
{
}

/// A variable has the type its binding gives it, counting bindings from
/// the innermost; an application of `f : Π(x:A).B` to an argument that
/// checks against `A` has type `B` instantiated with the argument's value
/// (not `A`, nor `B` at another value).
pub proof fn lemma_var_and_app_types(
    i: usize,
    f: Term,
    a: Term,
    ctx: CtxView,
    st: SolverView,
    dom: SemVal,
    cod: SemClo,
    av: SemVal,
)
    requires
        spec_infer(f, ctx, st).0 == Ok::<SemVal, SemCheckErr>(SemVal::Pi(Box::new(dom), cod)),
        spec_check(a, dom, ctx, spec_infer(f, ctx, st).1).0 is Ok,
        sem_eval(a, types_of(ctx), FUEL as nat) == Ok::<SemVal, SemErr>(av),
        sem_instantiate(cod, av, FUEL as nat) is Ok,
    ensures
        i < ctx.len() ==> spec_infer(Term::Var(i), ctx, st).0 == Ok::<SemVal, SemCheckErr>(ctx[ctx.len() - 1 - i].1),
        i >= ctx.len() ==> spec_infer(Term::Var(i), ctx, st).0 is Err,
        spec_infer(Term::App(Arc::new(f), Arc::new(a)), ctx, st).0
            == Ok::<SemVal, SemCheckErr>(sem_instantiate(cod, av, FUEL as nat)->Ok_0),
{
}

/// Bidirectional type checker with a constraint solver.
#[derive(Debug)]
pub struct TypeChecker {
    solver: ConstraintSolver,
}

impl View for TypeChecker {
    type V = SolverView;

    closed spec fn view(&self) -> SolverView {
        self.solver@
    }
}

impl TypeChecker {
    /// Create a new type checker with a fresh solver
    pub fn new() -> (r: Self)
        ensures
            r@.constraints == Seq::<SemConstraint>::empty(),
            r@.subst == Map::<usize, SemVal>::empty(),
            r@.next == 0,
    {
        TypeChecker { solver: ConstraintSolver::new() }
    }

    /// Check a term against an expected type
    pub fn check(&mut self, term: &Term, expected_type: &Value, context: &Context) -> (r: CheckResult<()>)
        requires
            old(self)@.next + meta_count(*term) <= usize::MAX,
        ensures
            (cres_view(r), final(self)@) == spec_check(*term, expected_type@, context@, old(self)@),
            final(self)@.next <= old(self)@.next + meta_count(*term),
        decreases *term, 1nat,
    {
        if let (Term::Lambda(body), Value::Pi(domain, codomain)) = (term, expected_type) {
            let extended_context = context.extend_anonymous((**domain).copy());
            let fresh_var = Value::var(context.len());
            match instantiate_closure(codomain, fresh_var) {
                Ok(body_type) => {
                    return self.check(body, &body_type, &extended_context);
                },
                Err(_) => {
                    return Err(CheckError::CannotInfer(term.copy()));
                },
            }
        }
        let inferred_type = self.infer(term, context);
        match inferred_type {
            Ok(ty) => self.check_convertible(&ty, expected_type, context),
            Err(e) => Err(e),
        }
    }

    /// Synthesize the type of a term
    pub fn infer(&mut self, term: &Term, context: &Context) -> (r: CheckResult<Value>)
        requires
            old(self)@.next + meta_count(*term) <= usize::MAX,
        ensures
            (match r {
                Ok(v) => Ok(v@),
                Err(e) => Err(e@),
            }, final(self)@) == spec_infer(*term, context@, old(self)@),
            final(self)@.next <= old(self)@.next + meta_count(*term),
        decreases *term, 0nat,
    {
        match term {
            Term::Var(index) => {
                match context.lookup_type(*index) {
                    Some(typ) => Ok(typ.copy()),
                    None => Err(CheckError::UnboundVariable(*index)),
                }
            },
            Term::Universe(level) => {
                if level.value() == u32::MAX {
                    proof { reveal_strlit("Universe level overflow"); }
                    Err(CheckError::InvalidLevel(String::from_str("Universe level overflow")))
                } else {
                    Ok(Value::universe(level.succ()))
                }
            },
            Term::Pi(domain, codomain) => {
                let domain_type = match self.infer(domain, context) {
                    Ok(t) => t,
                    Err(e) => return Err(e),
                };
                let domain_level = match extract_universe_level(&domain_type) {
                    Ok(l) => l,
                    Err(e) => return Err(e),
                };
                let domain_value = match evaluate(domain, context.environment()) {
                    Ok(v) => v,
                    Err(_) => return Err(CheckError::CannotInfer(term.copy())),
                };
                let extended_context = context.extend_anonymous(domain_value);
                let codomain_type = match self.infer(codomain, &extended_context) {
                    Ok(t) => t,
                    Err(e) => return Err(e),
                };
                let codomain_level = match extract_universe_level(&codomain_type) {
                    Ok(l) => l,
                    Err(e) => return Err(e),
                };
                Ok(Value::universe(Level::max(&domain_level, &codomain_level)))
            },
            Term::App(function, argument) => {
                let function_type = match self.infer(function, context) {
                    Ok(t) => t,
                    Err(e) => return Err(e),
                };
                match function_type {
                    Value::Pi(domain, codomain) => {
                        match self.check(argument, &domain, context) {
                            Ok(_) => {},
                            Err(e) => return Err(e),
                        }
                        let argument_value = match evaluate(argument, context.environment()) {
                            Ok(v) => v,
                            Err(_) => return Err(CheckError::CannotInfer(term.copy())),
                        };
                        match instantiate_closure(&codomain, argument_value) {
                            Ok(result_type) => Ok(result_type),
                            Err(_) => Err(CheckError::CannotInfer(term.copy())),
                        }
                    },
                    _ => Err(CheckError::NotAFunction { function_type, argument: (**argument).copy() }),
                }
            },
            Term::Let(binding, body) => {
                let binding_type = match self.infer(binding, context) {
                    Ok(t) => t,
                    Err(e) => return Err(e),
                };
                match evaluate(binding, context.environment()) {
                    Ok(_) => {},
                    Err(_) => return Err(CheckError::CannotInfer(term.copy())),
                }
                let extended_context = context.extend_anonymous(binding_type);
                self.infer(body, &extended_context)
            },
            Term::Meta(_) => {
                let type_meta = self.solver.fresh_meta();
                let spine: Vec<Rc<Value>> = Vec::new();
                assert(seq_view(spine@) =~= Seq::<SemVal>::empty());
                Ok(Value::neutral(type_meta, spine))
            },
            Term::Lambda(_) => Err(CheckError::CannotInfer(term.copy())),
        }
    }

    fn check_convertible(&mut self, actual: &Value, expected: &Value, context: &Context) -> (r: CheckResult<()>)
        ensures
            (cres_view(r), final(self)@) == spec_check_convertible(actual@, expected@, context@.len() as usize, old(self)@),
    {
        if convertible_values(actual, expected, context.len()) {
            Ok(())
        } else {
            self.solver.add_constraint(Constraint::Equal(actual.copy(), expected.copy()));
            if self.solver.solve().is_ok() {
                Ok(())
            } else {
                Err(CheckError::TypeMismatch { expected: expected.copy(), actual: actual.copy(), term: Term::var(0) })
            }
        }
    }

    /// The solver's substitution of metavariables
    pub fn substitution(&self) -> (r: &MetaSubstitution)
        ensures
            r@ == self@.subst,
    {
        self.solver.substitution()
    }

    /// Solve the pending constraints
    pub fn solve_constraints(&mut self) -> (r: CheckResult<()>)
        ensures
            match sem_solve(old(self)@.constraints, old(self)@.subst) {
                (res, cs, m) => final(self)@ == (SolverView { constraints: cs, subst: m, next: old(self)@.next })
                    && cres_view(r) == match res {
                        Ok(_) => Ok::<(), SemCheckErr>(()),
                        Err(e) => Err(SemCheckErr::ConstraintError(e)),
                    },
            },
    {
        match self.solver.solve() {
            Ok(_) => Ok(()),
            Err(e) => Err(CheckError::ConstraintError(e)),
        }
    }

    /// Check if no constraint is pending
    pub fn is_solved(&self) -> (r: bool)
        ensures
            r == (self@.constraints.len() == 0),
    {
        self.solver.is_solved()
    }
}

impl Default for TypeChecker {
    fn default() -> (r: Self)
        ensures
            r@.constraints == Seq::<SemConstraint>::empty(),
            r@.subst == Map::<usize, SemVal>::empty(),
            r@.next == 0,
    {
        TypeChecker::new()
    }
}

/// The universe level of a type, or an error naming the type.
fn extract_universe_level(value: &Value) -> (r: CheckResult<Level>)
    ensures
        match r {
            Ok(l) => Ok::<Level, SemCheckErr>(l),
            Err(e) => Err(e@),
        } == spec_universe_level(value@),
{
    match value {
        Value::Universe(level) => Ok(*level),
        _ => {
            let mut msg = String::from_str("Expected universe, got ");
            msg.append(value.to_display_string().as_str());
            Err(CheckError::InvalidLevel(msg))
        },
    }
}

/// Check a term against a type with a fresh checker
pub fn check_term(term: &Term, expected_type: &Value, context: &Context) -> (r: CheckResult<()>)
    requires
        meta_count(*term) <= usize::MAX,
    ensures
        cres_view(r) == spec_check(*term, expected_type@, context@, fresh_solver()).0,
{
    let mut checker = TypeChecker::new();
    checker.check(term, expected_type, context)
}

/// The state of a fresh solver.
pub open spec fn fresh_solver() -> SolverView {
    SolverView { constraints: Seq::empty(), subst: Map::empty(), next: 0 }
}

/// Synthesize the type of a term with a fresh checker
pub fn infer_type(term: &Term, context: &Context) -> (r: CheckResult<Value>)
    requires
        meta_count(*term) <= usize::MAX,
    ensures
        match r {
            Ok(v) => Ok(v@),
            Err(e) => Err(e@),
        } == spec_infer(*term, context@, fresh_solver()).0,
{
    let mut checker = TypeChecker::new();
    checker.infer(term, context)
}

/// What elaboration gives: the type inferred, the constraints solved, the
/// substitution applied to the type, and the term normalized.
pub open spec fn spec_elaborate(t: Term, ctx: CtxView) -> Result<(Term, SemVal), SemCheckErr> {
    let inferred = spec_infer(t, ctx, fresh_solver());
    match inferred.0 {
        Err(e) => Err(e),
        Ok(ty) => {
            let solved = sem_solve(inferred.1.constraints, inferred.1.subst);
            match solved.0 {
                Err(e) => Err(SemCheckErr::ConstraintError(e)),
                Ok(_) => match spec_normalize(t) {
                    Ok(n) => Ok((n, sem_subst_apply(solved.2, ty))),
                    Err(_) => Err(SemCheckErr::CannotInfer(t)),
                },
            }
        },
    }
}

/// Infer a term's type, solve the constraints, and return the normalized
/// term with its type under the final substitution.
pub fn elaborate(term: &Term, context: &Context) -> (r: CheckResult<(Term, Value)>)
    requires
        meta_count(*term) <= usize::MAX,
    ensures
        match r {
            Ok(p) => Ok((p.0, p.1@)),
            Err(e) => Err(e@),
        } == spec_elaborate(*term, context@),
{
    let mut checker = TypeChecker::new();
    let typ = match checker.infer(term, context) {
        Ok(t) => t,
        Err(e) => return Err(e),
    };
    match checker.solve_constraints() {
        Ok(_) => {},
        Err(e) => return Err(e),
    }
    let normalized_type = checker.substitution().apply_to_value(&typ);
    let normalized_term: EvalResult<Term> = normalize(term);
    match normalized_term {
        Ok(t) => Ok((t, normalized_type)),
        Err(_) => Err(CheckError::CannotInfer(term.copy())),
    }
}

/// What checking a definition gives: with an annotation, the annotation
/// must be a type, evaluate, and the term must check against its value;
/// without, the term's type is inferred. Then the constraints are solved,
/// the term evaluated, and the substitution applied to value and type.
pub open spec fn spec_check_definition(t: Term, ann: Option<Term>, ctx: CtxView) -> Result<(SemVal, SemVal), SemCheckErr> {
    let typed: (Result<SemVal, SemCheckErr>, SolverView) = match ann {
        Some(a) => {
            let r1 = spec_infer(a, ctx, fresh_solver());
            match r1.0 {
                Err(e) => (Err(e), r1.1),
                Ok(tt) => match spec_universe_level(tt) {
                    Err(e) => (Err(e), r1.1),
                    Ok(_) => match sem_eval(a, types_of(ctx), FUEL as nat) {
                        Err(_) => (Err(SemCheckErr::CannotInfer(a)), r1.1),
                        Ok(expected) => {
                            let r2 = spec_check(t, expected, ctx, r1.1);
                            match r2.0 {
                                Err(e) => (Err(e), r2.1),
                                Ok(_) => (Ok(expected), r2.1),
                            }
                        },
                    },
                },
            }
        },
        None => spec_infer(t, ctx, fresh_solver()),
    };
    match typed.0 {
        Err(e) => Err(e),
        Ok(ty) => {
            let solved = sem_solve(typed.1.constraints, typed.1.subst);
            match solved.0 {
                Err(e) => Err(SemCheckErr::ConstraintError(e)),
                Ok(_) => match sem_eval(t, types_of(ctx), FUEL as nat) {
                    Err(_) => Err(SemCheckErr::CannotInfer(t)),
                    Ok(v) => Ok((sem_subst_apply(solved.2, v), sem_subst_apply(solved.2, ty))),
                },
            }
        },
    }
}

/// Check a definition, with or without a type annotation, and return its
/// value and type under the final substitution.
pub fn check_definition(name: &str, term: &Term, typ: Option<&Term>, context: &Context) -> (r: CheckResult<(Value, Value)>)
    requires
        meta_count(*term) <= usize::MAX,
        typ matches Some(a) ==> meta_count(*a) + meta_count(*term) <= usize::MAX,
    ensures
        match r {
            Ok(p) => Ok((p.0@, p.1@)),
            Err(e) => Err(e@),
        } == spec_check_definition(*term, match typ {
            Some(a) => Some(*a),
            None => None,
        }, context@),
{
    let mut checker = TypeChecker::new();
    let term_type = match typ {
        Some(type_annotation) => {
            let type_type = match checker.infer(type_annotation, context) {
                Ok(t) => t,
                Err(e) => return Err(e),
            };
            match extract_universe_level(&type_type) {
                Ok(_) => {},
                Err(e) => return Err(e),
            }
            let expected_type = match evaluate(type_annotation, context.environment()) {
                Ok(v) => v,
                Err(_) => return Err(CheckError::CannotInfer(type_annotation.copy())),
            };
            match checker.check(term, &expected_type, context) {
                Ok(_) => {},
                Err(e) => return Err(e),
            }
            expected_type
        },
        None => match checker.infer(term, context) {
            Ok(t) => t,
            Err(e) => return Err(e),
        },
    };
    match checker.solve_constraints() {
        Ok(_) => {},
        Err(e) => return Err(e),
    }
    let term_value = match evaluate(term, context.environment()) {
        Ok(v) => v,
        Err(_) => return Err(CheckError::CannotInfer(term.copy())),
    };
    let subst = checker.substitution();
    let final_type = subst.apply_to_value(&term_type);
    let final_value = subst.apply_to_value(&term_value);
    Ok((final_value, final_type))
}

} // verus!
