//! Quotation: converting values back to terms.

use vstd::prelude::*;
use crate::kernel::{Term, Value};
use crate::kernel::value::{SemVal, Neutral, seq_view};
use super::semantics::{FUEL, SemErr, sem_eval, sem_apply, sem_instantiate, level_to_var, sem_open, sem_quote, sem_quote_spine, sem_conv, sem_apply_or_self, sem_conv_eta};
use super::{open_closure, apply_or_self};

verus! {

broadcast use crate::kernel::value::lemma_seq_view;

fn level_to_var_exec(var_level: usize, level: usize) -> (r: Term)
    ensures
        r == level_to_var(var_level, level),
{
    if var_level < level {
        Term::var(level - 1 - var_level)
    } else {
        Term::var(var_level)
    }
}

/// Quotation with an explicit recursion budget.
pub fn quote_fuel(value: &Value, level: usize, fuel: usize) -> (r: Term)
    requires
        level + fuel <= usize::MAX,
    ensures
        r == sem_quote(value@, level, fuel as nat),
    decreases fuel, 0nat,
{
    if fuel == 0 {
        return Term::var(level);
    }
    match value {
        Value::Var(var_level) => level_to_var_exec(*var_level, level),
        Value::Universe(univ_level) => Term::universe(univ_level.value()),
        Value::Pi(domain, codomain) => {
            let domain_term = quote_fuel(domain, level, fuel - 1);
            let codomain_value = open_closure(codomain, level, fuel - 1);
            let codomain_term = quote_fuel(&codomain_value, level + 1, fuel - 1);
            Term::pi(domain_term, codomain_term)
        },
        Value::Lambda(closure) => {
            let body_value = open_closure(closure, level, fuel - 1);
            let body_term = quote_fuel(&body_value, level + 1, fuel - 1);
            Term::lambda(body_term)
        },
        Value::Neutral(neutral) => quote_neutral_fuel(neutral, level, fuel - 1),
    }
}

fn quote_neutral_fuel(neutral: &Neutral, level: usize, fuel: usize) -> (r: Term)
    requires
        level + fuel <= usize::MAX,
    ensures
        r == sem_quote_spine(level_to_var(neutral.head, level), seq_view(neutral.spine@), level, fuel as nat),
    decreases fuel, 1nat,
{
    let ghost args = seq_view(neutral.spine@);
    let ghost head = level_to_var(neutral.head, level);
    let mut acc = level_to_var_exec(neutral.head, level);
    let mut i: usize = 0;
    while i < neutral.spine.len()
        invariant
            i <= neutral.spine@.len(),
            args == seq_view(neutral.spine@),
            level + fuel <= usize::MAX,
            acc == sem_quote_spine(head, args.take(i as int), level, fuel as nat),
        decreases neutral.spine@.len() - i,
    {
        let arg_term = quote_fuel(&neutral.spine[i], level, fuel);
        proof {
            assert(args.take(i + 1).drop_last() =~= args.take(i as int));
        }
        acc = Term::app(acc, arg_term);
        i = i + 1;
    }
    proof {
        assert(args.take(neutral.spine@.len() as int) =~= args);
    }
    acc
}

/// Quote a value back to a normal term under `level` binders
pub fn quote(value: &Value, level: usize) -> (r: Term)
    ensures
        r == sem_quote(value@, level, (usize::MAX - level) as nat),
{
    quote_fuel(value, level, usize::MAX - level)
}

/// Quote a neutral value back to a term: its head applied to the
/// quotations of its arguments.
pub fn quote_neutral(neutral: &Neutral, level: usize) -> (r: Term)
    ensures
        r == sem_quote_spine(level_to_var(neutral.head, level), seq_view(neutral.spine@), level, (usize::MAX - level) as nat),
{
    quote_neutral_fuel(neutral, level, usize::MAX - level)
}

/// η-expanded quotation: at a Π-type the value is applied to a fresh
/// variable and quoted under a lambda at the instantiated codomain.
pub open spec fn sem_quote_eta(v: SemVal, ty: SemVal, level: usize, fuel: nat) -> Term
    decreases fuel,
{
    if fuel == 0 || level == usize::MAX {
        Term::Var(level)
    } else {
        match ty {
            SemVal::Pi(_, c) => Term::Lambda(std::sync::Arc::new(sem_quote_eta(
                sem_apply_or_self(v, level, (fuel - 1) as nat),
                sem_open(c, level, (fuel - 1) as nat),
                (level + 1) as usize,
                (fuel - 1) as nat,
            ))),
            _ => sem_quote(v, level, (usize::MAX - level) as nat),
        }
    }
}

fn quote_eta_fuel(value: &Value, value_type: &Value, level: usize, fuel: usize) -> (r: Term)
    requires
        level + fuel <= usize::MAX,
    ensures
        r == sem_quote_eta(value@, value_type@, level, fuel as nat),
    decreases fuel,
{
    if fuel == 0 {
        return Term::var(level);
    }
    match value_type {
        Value::Pi(_domain, codomain) => {
            let applied = apply_or_self(value, level, fuel - 1);
            let codomain_type = open_closure(codomain, level, fuel - 1);
            let body_term = quote_eta_fuel(&applied, &codomain_type, level + 1, fuel - 1);
            Term::lambda(body_term)
        },
        _ => quote(value, level),
    }
}

/// Quote with η-expansion for function types
pub fn quote_eta(value: &Value, value_type: &Value, level: usize) -> (r: Term)
    ensures
        r == sem_quote_eta(value@, value_type@, level, (usize::MAX - level) as nat),
{
    quote_eta_fuel(value, value_type, level, usize::MAX - level)
}

/// Quote a value; the names are not used by the quotation.
pub fn quote_with_names(value: &Value, level: usize, names: &[String]) -> (r: Term)
    ensures
        r == sem_quote(value@, level, (usize::MAX - level) as nat),
{
    quote(value, level)
}

/// Force a value and quote it.
pub fn normalize_quote(value: &Value, level: usize) -> (r: Term)
    ensures
        r == sem_quote(super::normalize::sem_force(value@), level, (usize::MAX - level) as nat),
{
    let normalized = match super::normalize::force_value(value) {
        Ok(v) => v,
        Err(_) => value.copy(),
    };
    quote(&normalized, level)
}

/// Whether a term is in η-long form at a type: at a Π-type it must be a
/// lambda; at any other type every term is.
pub open spec fn spec_is_eta_long(term: Term, ty: SemVal) -> bool {
    match ty {
        SemVal::Pi(_, _) => term is Lambda,
        _ => true,
    }
}

/// Check if a quoted term is in η-long form at the given type
pub fn is_eta_long(term: &Term, term_type: &Value) -> (r: bool)
    ensures
        r == spec_is_eta_long(*term, term_type@),
{
    match (term, term_type) {
        (Term::Lambda(_), Value::Pi(_, _)) => true,
        (_, Value::Pi(_, _)) => false,
        _ => true,
    }
}

/// η-expanded quotation at a Π-type gives a lambda, so its result is in
/// η-long form at that type.
pub proof fn lemma_quote_eta_long(v: SemVal, ty: SemVal, level: usize)
    requires
        level < usize::MAX,
    ensures
        ty is Pi ==> sem_quote_eta(v, ty, level, (usize::MAX - level) as nat) is Lambda,
        spec_is_eta_long(sem_quote_eta(v, ty, level, (usize::MAX - level) as nat), ty),
{
}

} // verus!
