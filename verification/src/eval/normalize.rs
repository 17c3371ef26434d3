//! Term normalization and evaluation.

use vstd::prelude::*;
use std::sync::Arc;
use crate::kernel::{Term, Value, Environment, Closure};
use crate::kernel::value::{SemVal, SemClo, Neutral, seq_view, seq_lookup};
use super::semantics::{FUEL, SemErr, sem_eval, sem_apply, sem_instantiate, level_to_var, sem_open, sem_quote, sem_quote_spine, sem_conv, sem_apply_or_self, sem_conv_eta};
use super::{EvalError, EvalResult, res_view};
use super::quotation::quote;

verus! {

broadcast use crate::kernel::value::lemma_seq_view;

/// Evaluation with an explicit recursion budget.
pub fn evaluate_fuel(term: &Term, env: &Environment, fuel: usize) -> (r: EvalResult<Value>)
    ensures
        res_view(r) == sem_eval(*term, env@, fuel as nat),
    decreases fuel, 1nat,
{
    if fuel == 0 {
        return Err(EvalError::DepthExhausted);
    }
    match term {
        Term::Var(index) => {
            match env.lookup(*index) {
                Some(value) => Ok(value.copy()),
                None => {
                    let len = env.len();
                    if len <= usize::MAX - *index {
                        Ok(Value::var(len + *index))
                    } else {
                        Err(EvalError::LevelOverflow)
                    }
                },
            }
        },
        Term::Universe(level) => Ok(Value::universe(*level)),
        Term::Pi(domain, codomain) => {
            let domain_val = evaluate_fuel(domain, env, fuel - 1)?;
            let closure = Closure::new(env.copy(), codomain.copy());
            Ok(Value::pi(domain_val, closure))
        },
        Term::Lambda(body) => {
            let closure = Closure::new(env.copy(), body.copy());
            Ok(Value::lambda(closure))
        },
        Term::App(function, argument) => {
            let function_val = evaluate_fuel(function, env, fuel - 1)?;
            let argument_val = evaluate_fuel(argument, env, fuel - 1)?;
            apply_fuel(function_val, argument_val, fuel - 1)
        },
        Term::Let(binding, body) => {
            let binding_val = evaluate_fuel(binding, env, fuel - 1)?;
            let extended_env = env.extend(binding_val);
            evaluate_fuel(body, &extended_env, fuel - 1)
        },
        Term::Meta(id) => {
            let spine: Vec<std::rc::Rc<Value>> = Vec::new();
            assert(seq_view(spine@) =~= Seq::<SemVal>::empty());
            Ok(Value::neutral(*id, spine))
        },
    }
}

/// Application with an explicit recursion budget.
pub fn apply_fuel(function: Value, argument: Value, fuel: usize) -> (r: EvalResult<Value>)
    ensures
        res_view(r) == sem_apply(function@, argument@, fuel as nat),
    decreases fuel, 3nat,
{
    match function {
        Value::Lambda(closure) => instantiate_fuel(&closure, argument, fuel),
        Value::Neutral(neutral) => {
            let applied = neutral.apply(argument);
            Ok(Value::Neutral(applied))
        },
        Value::Var(level) => {
            let neutral = Neutral::new(level).apply(argument);
            proof {
                assert(neutral@.1 =~= seq![argument@]);
            }
            Ok(Value::Neutral(neutral))
        },
        _ => Err(EvalError::NotAFunction(function)),
    }
}

/// Closure instantiation with an explicit recursion budget.
pub fn instantiate_fuel(closure: &Closure, value: Value, fuel: usize) -> (r: EvalResult<Value>)
    ensures
        res_view(r) == sem_instantiate(closure@, value@, fuel as nat),
    decreases fuel, 2nat,
{
    let extended_env = closure.env.extend(value);
    evaluate_fuel(&closure.term, &extended_env, fuel)
}

/// The normal form of a closed term: evaluation in the empty environment
/// followed by quotation at level 0.
pub open spec fn spec_normalize(term: Term) -> Result<Term, SemErr> {
    match sem_eval(term, Seq::empty(), FUEL as nat) {
        Ok(v) => Ok(sem_quote(v, 0, usize::MAX as nat)),
        Err(e) => Err(e),
    }
}

/// The abstract content of a normalization result.
pub open spec fn term_res_view(r: EvalResult<Term>) -> Result<Term, SemErr> {
    match r {
        Ok(t) => Ok(t),
        Err(e) => Err(e@),
    }
}

/// Normalize a closed term to its canonical form
pub fn normalize(term: &Term) -> (r: EvalResult<Term>)
    ensures
        term_res_view(r) == spec_normalize(*term),
{
    let env = Environment::new();
    let value = evaluate(term, &env)?;
    Ok(quote(&value, 0))
}

/// Normalize a term in a given environment, quoting under as many binders
/// as the environment has entries.
pub fn normalize_in_env(term: &Term, env: &Environment) -> (r: EvalResult<Term>)
    ensures
        term_res_view(r) == match sem_eval(*term, env@, FUEL as nat) {
            Ok(v) => Ok(sem_quote(v, env@.len() as usize, (usize::MAX - env@.len()) as nat)),
            Err(e) => Err(e),
        },
{
    let value = evaluate(term, env)?;
    Ok(quote(&value, env.len()))
}

/// Evaluate to weak-head normal form only
pub fn weak_head_normalize(term: &Term, env: &Environment) -> (r: EvalResult<Value>)
    ensures
        res_view(r) == sem_eval(*term, env@, FUEL as nat),
{
    evaluate(term, env)
}

/// Evaluate a term to a value in the given environment
pub fn evaluate(term: &Term, env: &Environment) -> (r: EvalResult<Value>)
    ensures
        res_view(r) == sem_eval(*term, env@, FUEL as nat),
{
    evaluate_fuel(term, env, FUEL)
}

/// The forced form of a value: the domain of a Π-type is forced, every
/// other value is kept.
pub open spec fn sem_force(v: SemVal) -> SemVal
    decreases v,
{
    match v {
        SemVal::Pi(d, c) => SemVal::Pi(Box::new(sem_force(*d)), c),
        _ => v,
    }
}

/// Force evaluation of a value; this never fails.
pub fn force_value(value: &Value) -> (r: EvalResult<Value>)
    ensures
        r matches Ok(v) && v@ == sem_force(value@),
    decreases value,
{
    match value {
        Value::Var(_) | Value::Universe(_) | Value::Neutral(_) => Ok(value.copy()),
        Value::Pi(domain, codomain) => {
            let forced_domain = force_value(domain)?;
            Ok(Value::pi(forced_domain, codomain.copy()))
        },
        Value::Lambda(_) => Ok(value.copy()),
    }
}

/// Unfold a closure by applying it to a fresh variable at `var_level`
pub fn unfold_closure(closure: &Closure, var_level: usize) -> (r: EvalResult<Value>)
    ensures
        res_view(r) == sem_instantiate(closure@, SemVal::Var(var_level), FUEL as nat),
{
    let var = Value::var(var_level);
    super::instantiate_closure(closure, var)
}

/// Every value is in normal form: evaluation only produces canonical forms.
pub fn is_normal(value: &Value) -> (r: bool)
    ensures
        r,
    decreases value,
{
    match value {
        Value::Var(_) | Value::Universe(_) => true,
        Value::Pi(domain, _) => is_normal(domain),
        Value::Lambda(_) => true,
        Value::Neutral(_) => true,
    }
}

/// The value of a closed term together with its quoted normal form
pub fn debug_normalize(term: &Term) -> (r: EvalResult<(Value, Term)>)
    ensures
        match (r, sem_eval(*term, Seq::empty(), FUEL as nat)) {
            (Ok(p), Ok(v)) => p.0@ == v && p.1 == sem_quote(v, 0, usize::MAX as nat),
            (Err(e), Err(e2)) => e@ == e2,
            _ => false,
        },
{
    let env = Environment::new();
    let value = evaluate(term, &env)?;
    let normal_term = quote(&value, 0);
    Ok((value, normal_term))
}

// ---------------------------------------------------------------------
// Terms in normal form
// ---------------------------------------------------------------------

/// The nesting depth of a term: a leaf counts one.
pub open spec fn term_depth(t: Term) -> nat
    decreases t,
{
    match t {
        Term::Var(_) | Term::Universe(_) | Term::Meta(_) => 1,
        Term::Pi(d, c) => 1 + if term_depth(*d) >= term_depth(*c) { term_depth(*d) } else { term_depth(*c) },
        Term::Lambda(b) => 1 + term_depth(*b),
        Term::App(f, a) => 1 + if term_depth(*f) >= term_depth(*a) { term_depth(*f) } else { term_depth(*a) },
        Term::Let(v, b) => 1 + if term_depth(*v) >= term_depth(*b) { term_depth(*v) } else { term_depth(*b) },
    }
}

/// A neutral term under `l` binders: a bound variable applied to terms in
/// normal form.
pub open spec fn is_neutral_form(t: Term, l: nat) -> bool
    decreases t, 0nat,
{
    match t {
        Term::Var(i) => i < l,
        Term::App(f, a) => is_neutral_form(*f, l) && is_normal_form(*a, l),
        _ => false,
    }
}

/// A term in normal form under `l` binders: a universe, a Π-type or a
/// lambda whose parts are in normal form, or a neutral term. It has no
/// redex, no `let`, no metavariable and no free variable.
pub open spec fn is_normal_form(t: Term, l: nat) -> bool
    decreases t, 1nat,
{
    match t {
        Term::Universe(_) => true,
        Term::Lambda(b) => is_normal_form(*b, l + 1),
        Term::Pi(d, c) => is_normal_form(*d, l) && is_normal_form(*c, l + 1),
        _ => is_neutral_form(t, l),
    }
}

/// The environment that binds the first `l` variables to themselves,
/// outermost first.
pub open spec fn var_env(l: nat) -> Seq<SemVal> {
    Seq::new(l, |i: int| SemVal::Var(i as usize))
}

/// A neutral term evaluates, in the environment of its own variables, to
/// its head variable's level, or to a neutral value whose spine quotes back
/// to the term's arguments.
proof fn lemma_eval_neutral_form(t: Term, l: nat, fuel: nat, g: nat)
    requires
        is_neutral_form(t, l),
        fuel >= term_depth(t),
        g >= term_depth(t),
        l + term_depth(t) < usize::MAX,
    ensures
        sem_eval(t, var_env(l), fuel) matches Ok(v) && match v {
            SemVal::Var(h) => h < l && level_to_var(h, l as usize) == t,
            SemVal::Neutral(h, sp) => h < l && sem_quote_spine(level_to_var(h, l as usize), sp, l as usize, g) == t,
            _ => false,
        },
    decreases t, 0nat,
{
    match t {
        Term::Var(i) => {
            assert(seq_lookup(var_env(l), i as int) == Some(SemVal::Var((l - 1 - i) as usize)));
        },
        Term::App(f, a) => {
            lemma_eval_neutral_form(f@, l, (fuel - 1) as nat, g);
            lemma_eval_normal_form(a@, l, (fuel - 1) as nat, g);
            let fv = sem_eval(f@, var_env(l), (fuel - 1) as nat)->Ok_0;
            let av = sem_eval(a@, var_env(l), (fuel - 1) as nat)->Ok_0;
            assert(sem_eval(t, var_env(l), fuel) == sem_apply(fv, av, (fuel - 1) as nat));
            match fv {
                SemVal::Var(h) => {
                    assert(seq![av].drop_last() =~= Seq::<SemVal>::empty());
                    assert(seq![av].last() == av);
                    assert(sem_quote_spine(level_to_var(h, l as usize), Seq::<SemVal>::empty(), l as usize, g)
                        == level_to_var(h, l as usize));
                    assert(sem_quote_spine(level_to_var(h, l as usize), seq![av].drop_last(), l as usize, g)
                        == level_to_var(h, l as usize));
                    assert(sem_quote_spine(level_to_var(h, l as usize), seq![av], l as usize, g)
                        == Term::App(Arc::new(level_to_var(h, l as usize)), Arc::new(sem_quote(av, l as usize, g))));
                },
                SemVal::Neutral(h, sp) => {
                    assert(sp.push(av).drop_last() =~= sp);
                    assert(sp.push(av).last() == av);
                },
                _ => {},
            }
        },
        _ => {},
    }
}

/// A term in normal form evaluates, in the environment of its own
/// variables, to a value that quotes back to the term.
proof fn lemma_eval_normal_form(t: Term, l: nat, fuel: nat, g: nat)
    requires
        is_normal_form(t, l),
        fuel >= term_depth(t),
        g > term_depth(t),
        l + term_depth(t) < usize::MAX,
    ensures
        sem_eval(t, var_env(l), fuel) matches Ok(v) && sem_quote(v, l as usize, g) == t,
    decreases t, 1nat,
{
    match t {
        Term::Universe(u) => {},
        Term::Lambda(b) => {
            assert(var_env(l).push(SemVal::Var(l as usize)) =~= var_env(l + 1));
            lemma_eval_normal_form(b@, l + 1, (g - 1) as nat, (g - 1) as nat);
        },
        Term::Pi(d, c) => {
            lemma_eval_normal_form(d@, l, (fuel - 1) as nat, (g - 1) as nat);
            assert(var_env(l).push(SemVal::Var(l as usize)) =~= var_env(l + 1));
            lemma_eval_normal_form(c@, l + 1, (g - 1) as nat, (g - 1) as nat);
        },
        _ => {
            lemma_eval_neutral_form(t, l, fuel, (g - 1) as nat);
        },
    }
}

/// A closed term already in normal form normalizes to itself (for terms
/// less deep than the evaluation fuel).
pub proof fn lemma_normal_form_normalizes_to_itself(t: Term)
    requires
        is_normal_form(t, 0),
        term_depth(t) < FUEL,
    ensures
        spec_normalize(t) == Ok::<Term, SemErr>(t),
{
    assert(var_env(0) =~= Seq::<SemVal>::empty());
    lemma_eval_normal_form(t, 0, FUEL as nat, usize::MAX as nat);
}

/// A term whose free variables all have index below `n`, with no
/// metavariable.
pub open spec fn scoped(t: Term, n: nat) -> bool
    decreases t,
{
    match t {
        Term::Var(i) => i < n,
        Term::Universe(_) => true,
        Term::Meta(_) => false,
        Term::Pi(d, c) => scoped(*d, n) && scoped(*c, n + 1),
        Term::Lambda(b) => scoped(*b, n + 1),
        Term::App(f, a) => scoped(*f, n) && scoped(*a, n),
        Term::Let(v, b) => scoped(*v, n) && scoped(*b, n + 1),
    }
}

/// A value that mentions only the levels below `l`: closures hold such
/// values and terms scoped by their environment.
pub open spec fn value_scoped(v: SemVal, l: nat) -> bool
    decreases v,
{
    match v {
        SemVal::Var(x) => x < l,
        SemVal::Universe(_) => true,
        SemVal::Pi(d, c) => value_scoped(*d, l) && scoped(c.term, c.env.len() + 1)
            && forall|i: int| 0 <= i < c.env.len() ==> value_scoped(#[trigger] c.env[i], l),
        SemVal::Lambda(c) => scoped(c.term, c.env.len() + 1)
            && forall|i: int| 0 <= i < c.env.len() ==> value_scoped(#[trigger] c.env[i], l),
        SemVal::Neutral(h, sp) => h < l && forall|i: int| 0 <= i < sp.len() ==> value_scoped(#[trigger] sp[i], l),
    }
}

/// Mentioning only levels below `l` implies mentioning only levels below
/// any larger bound.
proof fn lemma_value_scoped_grows(v: SemVal, l: nat, m: nat)
    requires
        value_scoped(v, l),
        l <= m,
    ensures
        value_scoped(v, m),
    decreases v,
{
    match v {
        SemVal::Pi(d, c) => {
            lemma_value_scoped_grows(*d, l, m);
            assert forall|i: int| 0 <= i < c.env.len() implies value_scoped(#[trigger] c.env[i], m) by {
                lemma_value_scoped_grows(c.env[i], l, m);
            }
        },
        SemVal::Lambda(c) => {
            assert forall|i: int| 0 <= i < c.env.len() implies value_scoped(#[trigger] c.env[i], m) by {
                lemma_value_scoped_grows(c.env[i], l, m);
            }
        },
        SemVal::Neutral(h, sp) => {
            assert forall|i: int| 0 <= i < sp.len() implies value_scoped(#[trigger] sp[i], m) by {
                lemma_value_scoped_grows(sp[i], l, m);
            }
        },
        _ => {},
    }
}

/// Evaluating a scoped term in an environment of values that mention only
/// levels below `l` gives such a value, when it succeeds.
proof fn lemma_eval_scoped(t: Term, env: Seq<SemVal>, fuel: nat, l: nat)
    requires
        scoped(t, env.len()),
        forall|i: int| 0 <= i < env.len() ==> value_scoped(#[trigger] env[i], l),
    ensures
        sem_eval(t, env, fuel) matches Ok(v) ==> value_scoped(v, l),
    decreases fuel, 1nat,
{
    if fuel > 0 {
        let f = (fuel - 1) as nat;
        match t {
            Term::Var(i) => {
                assert(value_scoped(env[env.len() - 1 - i], l));
            },
            Term::Pi(d, c) => {
                lemma_eval_scoped(d@, env, f, l);
            },
            Term::App(fun, arg) => {
                lemma_eval_scoped(fun@, env, f, l);
                lemma_eval_scoped(arg@, env, f, l);
                if let (Ok(fv), Ok(av)) = (sem_eval(fun@, env, f), sem_eval(arg@, env, f)) {
                    lemma_apply_scoped(fv, av, f, l);
                }
            },
            Term::Let(b, body) => {
                lemma_eval_scoped(b@, env, f, l);
                if let Ok(bv) = sem_eval(b@, env, f) {
                    assert forall|i: int| 0 <= i < env.push(bv).len() implies value_scoped(#[trigger] env.push(bv)[i], l) by {
                        if i < env.len() {
                            assert(env.push(bv)[i] == env[i]);
                        }
                    }
                    lemma_eval_scoped(body@, env.push(bv), f, l);
                }
            },
            _ => {},
        }
    }
}

/// Applying a value that mentions only levels below `l` to another such
/// value gives such a value, when it succeeds.
proof fn lemma_apply_scoped(fv: SemVal, av: SemVal, fuel: nat, l: nat)
    requires
        value_scoped(fv, l),
        value_scoped(av, l),
    ensures
        sem_apply(fv, av, fuel) matches Ok(v) ==> value_scoped(v, l),
    decreases fuel, 2nat,
{
    match fv {
        SemVal::Lambda(c) => {
            assert forall|i: int| 0 <= i < c.env.push(av).len() implies value_scoped(#[trigger] c.env.push(av)[i], l) by {
                if i < c.env.len() {
                    assert(c.env.push(av)[i] == c.env[i]);
                }
            }
            lemma_eval_scoped(c.term, c.env.push(av), fuel, l);
        },
        SemVal::Neutral(h, sp) => {
            assert forall|i: int| 0 <= i < sp.push(av).len() implies value_scoped(#[trigger] sp.push(av)[i], l) by {
                if i < sp.len() {
                    assert(sp.push(av)[i] == sp[i]);
                }
            }
        },
        SemVal::Var(x) => {
            assert forall|i: int| 0 <= i < seq![av].len() implies value_scoped(#[trigger] seq![av][i], l) by {
                assert(seq![av][i] == av);
            }
        },
        _ => {},
    }
}

/// Opening a closure of a scoped value at level `l` gives a value that
/// mentions only levels below `l + 1`.
proof fn lemma_open_scoped(c: SemClo, l: nat, fuel: nat)
    requires
        scoped(c.term, c.env.len() + 1),
        forall|i: int| 0 <= i < c.env.len() ==> value_scoped(#[trigger] c.env[i], l),
        l < usize::MAX,
    ensures
        value_scoped(sem_open(c, l as usize, fuel), l + 1),
{
    let env = c.env.push(SemVal::Var(l as usize));
    assert forall|i: int| 0 <= i < env.len() implies value_scoped(#[trigger] env[i], l + 1) by {
        if i < c.env.len() {
            assert(env[i] == c.env[i]);
            lemma_value_scoped_grows(c.env[i], l, l + 1);
        }
    }
    lemma_eval_scoped(c.term, env, fuel, l + 1);
}

/// Quoting a value that mentions only levels below `l` gives a term in
/// normal form under `l` binders, unless the quotation ran out of fuel,
/// which leaves a term at least as deep as the fuel it had.
proof fn lemma_quote_normal(v: SemVal, l: nat, g: nat)
    requires
        value_scoped(v, l),
        l + g <= usize::MAX,
    ensures
        is_normal_form(sem_quote(v, l as usize, g), l) || term_depth(sem_quote(v, l as usize, g)) >= g,
    decreases g, 0nat, 0nat,
{
    if g > 0 {
        let f = (g - 1) as nat;
        match v {
            SemVal::Var(x) => {
                assert(sem_quote(v, l as usize, g) == Term::Var((l - 1 - x) as usize));
                assert(is_neutral_form(Term::Var((l - 1 - x) as usize), l));
                assert(is_normal_form(sem_quote(v, l as usize, g), l) || term_depth(sem_quote(v, l as usize, g)) >= g);
            },
            SemVal::Universe(u) => {
                assert(is_normal_form(sem_quote(v, l as usize, g), l) || term_depth(sem_quote(v, l as usize, g)) >= g);
            },
            SemVal::Pi(d, c) => {
                lemma_quote_normal(*d, l, f);
                lemma_open_scoped(c, l, f);
                lemma_quote_normal(sem_open(c, l as usize, f), l + 1, f);
                let qd = sem_quote(*d, l as usize, f);
                let qc = sem_quote(sem_open(c, l as usize, f), (l + 1) as usize, f);
                assert(sem_quote(v, l as usize, g) == Term::Pi(Arc::new(qd), Arc::new(qc)));
                assert(is_normal_form(sem_quote(v, l as usize, g), l) || term_depth(sem_quote(v, l as usize, g)) >= g);
            },
            SemVal::Lambda(c) => {
                lemma_open_scoped(c, l, f);
                lemma_quote_normal(sem_open(c, l as usize, f), l + 1, f);
                let qb = sem_quote(sem_open(c, l as usize, f), (l + 1) as usize, f);
                assert(sem_quote(v, l as usize, g) == Term::Lambda(Arc::new(qb)));
                assert(is_normal_form(sem_quote(v, l as usize, g), l) || term_depth(sem_quote(v, l as usize, g)) >= g);
            },
            SemVal::Neutral(h, sp) => {
                lemma_quote_spine_neutral(h, sp, l, f);
                assert(sem_quote(v, l as usize, g) == sem_quote_spine(level_to_var(h, l as usize), sp, l as usize, f));
                assert(is_normal_form(sem_quote(v, l as usize, g), l) || term_depth(sem_quote(v, l as usize, g)) >= g);
            },
        }
    }
}

/// Quoting a neutral value's spine under its head gives a neutral term,
/// unless the quotation ran out of fuel.
proof fn lemma_quote_spine_neutral(h: usize, sp: Seq<SemVal>, l: nat, g: nat)
    requires
        h < l,
        forall|i: int| 0 <= i < sp.len() ==> value_scoped(#[trigger] sp[i], l),
        l + g < usize::MAX,
    ensures
        is_neutral_form(sem_quote_spine(level_to_var(h, l as usize), sp, l as usize, g), l)
            || term_depth(sem_quote_spine(level_to_var(h, l as usize), sp, l as usize, g)) > g,
    decreases g, 1nat, sp.len(),
{
    if sp.len() > 0 {
        assert forall|i: int| 0 <= i < sp.drop_last().len() implies value_scoped(#[trigger] sp.drop_last()[i], l) by {
            assert(sp.drop_last()[i] == sp[i]);
        }
        lemma_quote_spine_neutral(h, sp.drop_last(), l, g);
        assert(value_scoped(sp[sp.len() - 1], l));
        lemma_quote_normal(sp.last(), l, g);
    }
}

/// Normalizing a closed term without metavariables gives a term that
/// normalizes to itself, when that term is less deep than the evaluation
/// fuel.
pub proof fn lemma_normalize_idempotent(t: Term)
    requires
        scoped(t, 0),
        spec_normalize(t) is Ok,
        term_depth(spec_normalize(t)->Ok_0) < FUEL,
    ensures
        spec_normalize(spec_normalize(t)->Ok_0) == spec_normalize(t),
{
    let v = sem_eval(t, Seq::empty(), FUEL as nat)->Ok_0;
    lemma_eval_scoped(t, Seq::empty(), FUEL as nat, 0);
    lemma_quote_normal(v, 0, usize::MAX as nat);
    lemma_normal_form_normalizes_to_itself(spec_normalize(t)->Ok_0);
}

} // verus!
