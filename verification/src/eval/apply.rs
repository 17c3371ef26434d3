//! Function application and closure instantiation.

use vstd::prelude::*;
use crate::kernel::{Value, Closure};
use crate::kernel::value::SemVal;
use super::semantics::{FUEL, SemErr, sem_eval, sem_apply, sem_instantiate, level_to_var, sem_open, sem_quote, sem_quote_spine, sem_conv, sem_apply_or_self, sem_conv_eta};
use super::{EvalError, EvalResult, res_view};
use super::normalize::{apply_fuel, instantiate_fuel};

verus! {

/// Apply a value to another value: β-reduction for lambdas, spine
/// extension for neutral values and variables, an error otherwise.
pub fn apply_value(function: Value, argument: Value) -> (r: EvalResult<Value>)
    ensures
        res_view(r) == sem_apply(function@, argument@, FUEL as nat),
{
    apply_fuel(function, argument, FUEL)
}

/// What applying a value gives, by the shape of the function: a variable
/// becomes a neutral value with the argument as its one-argument spine, a
/// neutral value gets the argument added to its spine, a lambda is
/// instantiated with the argument, and a universe or a Π-type is refused as
/// no function.
pub proof fn lemma_apply_value_cases(f: SemVal, a: SemVal)
    ensures
        f matches SemVal::Var(l) ==> sem_apply(f, a, FUEL as nat) == Ok::<SemVal, SemErr>(SemVal::Neutral(l, seq![a])),
        f matches SemVal::Neutral(h, sp) ==> sem_apply(f, a, FUEL as nat) == Ok::<SemVal, SemErr>(SemVal::Neutral(h, sp.push(a))),
        f matches SemVal::Lambda(c) ==> sem_apply(f, a, FUEL as nat) == sem_instantiate(c, a, FUEL as nat),
        (f is Universe || f is Pi) ==> sem_apply(f, a, FUEL as nat) == Err::<SemVal, SemErr>(SemErr::NotAFunction(f)),
{
}

/// Instantiate a closure by evaluating its body in its environment
/// extended with `value`.
pub fn instantiate_closure(closure: &Closure, value: Value) -> (r: EvalResult<Value>)
    ensures
        res_view(r) == sem_instantiate(closure@, value@, FUEL as nat),
{
    instantiate_fuel(closure, value, FUEL)
}

/// Application of a value to a sequence of arguments in turn, first
/// argument first, stopping at the first error.
pub open spec fn sem_apply_spine(f: SemVal, args: Seq<SemVal>) -> Result<SemVal, SemErr>
    decreases args.len(),
{
    if args.len() == 0 {
        Ok(f)
    } else {
        match sem_apply(f, args[0], FUEL as nat) {
            Ok(g) => sem_apply_spine(g, args.drop_first()),
            Err(e) => Err(e),
        }
    }
}

/// Apply multiple arguments to a value, one after another.
pub fn apply_spine(function: Value, arguments: Vec<Value>) -> (r: EvalResult<Value>)
    ensures
        res_view(r) == sem_apply_spine(function@, arguments@.map_values(|v: Value| v@)),
{
    let ghost args = arguments@.map_values(|v: Value| v@);
    let ghost f0 = function@;
    let mut current = function;
    let mut i: usize = 0;
    assert(args.skip(0) =~= args);
    while i < arguments.len()
        invariant
            i <= arguments@.len(),
            args == arguments@.map_values(|v: Value| v@),
            f0 == function@,
            sem_apply_spine(f0, args) == sem_apply_spine(current@, args.skip(i as int)),
        decreases arguments@.len() - i,
    {
        proof {
            assert(args.skip(i as int).drop_first() =~= args.skip(i + 1));
            assert(args.skip(i as int)[0] == args[i as int]);
            assert(args[i as int] == arguments@[i as int]@);
        }
        let ghost before = current@;
        assert(sem_apply_spine(f0, args) == sem_apply_spine(before, args.skip(i as int)));
        let next = apply_value(current, arguments[i].copy());
        match next {
            Ok(v) => {
                current = v;
            },
            Err(e) => {
                proof {
                    assert(args.skip(i as int).len() > 0);
                    assert(sem_apply(before, args[i as int], FUEL as nat) == Err::<SemVal, SemErr>(e@));
                    assert(args.skip(i as int)[0] == args[i as int]);
                    assert(sem_apply_spine(before, args.skip(i as int)) == Err::<SemVal, SemErr>(e@));
                    assert(res_view(Err::<Value, EvalError>(e)) == Err::<SemVal, SemErr>(e@));
                    assert(sem_apply_spine(f0, args) == Err::<SemVal, SemErr>(e@));
                }
                return Err(e);
            },
        }
        i = i + 1;
    }
    proof {
        assert(args.skip(arguments@.len() as int) =~= Seq::<SemVal>::empty());
    }
    Ok(current)
}

/// Whether a value can be applied: lambdas, neutral values and variables.
pub open spec fn spec_is_applicable(v: SemVal) -> bool {
    v is Lambda || v is Neutral || v is Var
}

/// Check if a value can be applied (is a function-like value)
pub fn is_applicable(value: &Value) -> (r: bool)
    ensures
        r == spec_is_applicable(value@),
{
    matches!(value, Value::Lambda(_) | Value::Neutral(_) | Value::Var(_))
}

/// Apply a value to an argument that is computed only when the function
/// can be applied.
pub fn apply_lazy(function: Value, argument_thunk: impl FnOnce() -> EvalResult<Value>) -> (r: EvalResult<Value>)
    requires
        argument_thunk.requires(()),
    ensures
        spec_is_applicable(function@) ==> exists|a: EvalResult<Value>|
            argument_thunk.ensures((), a) && res_view(r) == match a {
                Ok(v) => sem_apply(function@, v@, FUEL as nat),
                Err(e) => Err(e@),
            },
        !spec_is_applicable(function@) ==> res_view(r) == Err::<SemVal, SemErr>(SemErr::NotAFunction(function@)),
{
    if is_applicable(&function) {
        let a = argument_thunk();
        match a {
            Ok(arg_value) => apply_value(function, arg_value),
            Err(e) => Err(e),
        }
    } else {
        Err(EvalError::NotAFunction(function))
    }
}

/// Project a field from a record value; records are not part of the
/// theory, so this always fails.
pub fn project_field(_record: Value, _field: &str) -> (r: EvalResult<Value>)
    ensures
        r matches Err(EvalError::TypeMismatch(s)) && s@ == "Records not yet implemented"@,
{
    Err(EvalError::TypeMismatch(String::from_str("Records not yet implemented")))
}

/// Eliminate a sum type value; sum types are not part of the theory, so
/// this always fails.
pub fn case_split(_scrutinee: Value, _cases: Vec<(String, Closure)>) -> (r: EvalResult<Value>)
    ensures
        r matches Err(EvalError::TypeMismatch(s)) && s@ == "Sum types not yet implemented"@,
{
    Err(EvalError::TypeMismatch(String::from_str("Sum types not yet implemented")))
}

} // verus!
