//! Normalization by evaluation: evaluation, quotation, application and
//! conversion checking.

pub mod semantics;
pub mod normalize;
pub mod quotation;
pub mod apply;
pub mod convert;

pub use normalize::{normalize, normalize_in_env, weak_head_normalize, evaluate};
pub use quotation::{quote, quote_neutral};
pub use apply::{apply_value, instantiate_closure};
pub use convert::{convertible_with_type, convertible_structural, definitionally_equal};

use vstd::prelude::*;
use crate::kernel::{Term, Value, Environment};
use crate::kernel::value::{SemVal, seq_view};
use crate::kernel::show::{show_value, decimal, decimal_string};
use self::semantics::{FUEL, SemErr, sem_eval, sem_open, sem_conv, sem_apply_or_self, sem_conv_eta, sem_conv_eta_spine};
use self::normalize::{evaluate_fuel, apply_fuel, instantiate_fuel};

verus! {

broadcast use crate::kernel::value::lemma_seq_view;

/// Error types for evaluation
#[derive(Debug, Clone, PartialEq)]
pub enum EvalError {
    /// Variable not found in environment
    UnboundVariable(usize),
    /// Type mismatch during application
    TypeMismatch(String),
    /// Attempted to apply non-function
    NotAFunction(Value),
    /// A universe or De Bruijn level does not fit in a machine word
    LevelOverflow,
    /// Evaluation nested deeper than the recursion budget allows
    DepthExhausted,
}

/// Result of evaluation
pub type EvalResult<T> = Result<T, EvalError>;

impl View for EvalError {
    type V = SemErr;

    open spec fn view(&self) -> SemErr {
        match *self {
            EvalError::UnboundVariable(i) => SemErr::UnboundVariable(i),
            EvalError::TypeMismatch(s) => SemErr::TypeMismatch(s@),
            EvalError::NotAFunction(v) => SemErr::NotAFunction(v@),
            EvalError::LevelOverflow => SemErr::LevelOverflow,
            EvalError::DepthExhausted => SemErr::DepthExhausted,
        }
    }
}

/// The text an evaluation error is shown as.
pub open spec fn eval_error_text(e: SemErr) -> Seq<char> {
    match e {
        SemErr::UnboundVariable(i) => "Unbound variable: #"@ + decimal(i as nat),
        SemErr::TypeMismatch(m) => "Type mismatch: "@ + m,
        SemErr::NotAFunction(v) => "Not a function: "@ + show_value(v),
        SemErr::LevelOverflow => "Universe level overflow"@,
        SemErr::DepthExhausted => "Evaluation depth exhausted"@,
    }
}

impl EvalError {
    /// The text the error is shown as
    pub fn to_display_string(&self) -> (r: String)
        ensures
            r@ == eval_error_text(self@),
    {
        match self {
            EvalError::UnboundVariable(index) => {
                let mut s = String::from_str("Unbound variable: #");
                s.append(decimal_string(*index as u64).as_str());
                proof { reveal_strlit("Unbound variable: #"); }
                s
            },
            EvalError::TypeMismatch(msg) => {
                let mut s = String::from_str("Type mismatch: ");
                s.append(msg.as_str());
                proof { reveal_strlit("Type mismatch: "); }
                s
            },
            EvalError::NotAFunction(value) => {
                let mut s = String::from_str("Not a function: ");
                s.append(value.to_display_string().as_str());
                proof { reveal_strlit("Not a function: "); }
                s
            },
            EvalError::LevelOverflow => {
                proof { reveal_strlit("Universe level overflow"); }
                String::from_str("Universe level overflow")
            },
            EvalError::DepthExhausted => {
                proof { reveal_strlit("Evaluation depth exhausted"); }
                String::from_str("Evaluation depth exhausted")
            },
        }
    }
}

/// The abstract content of an evaluation result.
pub open spec fn res_view(r: EvalResult<Value>) -> Result<SemVal, SemErr> {
    match r {
        Ok(v) => Ok(v@),
        Err(e) => Err(e@),
    }
}

/// Whether two closed terms are convertible: both normalize, their normal
/// forms evaluate, and the results are structurally convertible.
pub open spec fn spec_convertible(term1: Term, term2: Term) -> bool {
    match (normalize::spec_normalize(term1), normalize::spec_normalize(term2)) {
        (Ok(n1), Ok(n2)) => match (sem_eval(n1, Seq::empty(), FUEL as nat), sem_eval(n2, Seq::empty(), FUEL as nat)) {
            (Ok(v1), Ok(v2)) => sem_conv(v1, v2, 0, usize::MAX as nat),
            _ => false,
        },
        _ => false,
    }
}

/// Compatibility wrapper: normalize both terms, evaluate the normal forms
/// and check structural convertibility.
pub fn convertible(term1: &Term, term2: &Term) -> (r: bool)
    ensures
        r == spec_convertible(*term1, *term2),
{
    let n1 = normalize(term1);
    let n2 = normalize(term2);
    match (n1, n2) {
        (Ok(t1), Ok(t2)) => {
            let e1 = Environment::new();
            let e2 = Environment::new();
            match (evaluate(&t1, &e1), evaluate(&t2, &e2)) {
                (Ok(v1), Ok(v2)) => convertible_structural(&v1, &v2, 0),
                _ => false,
            }
        },
        _ => false,
    }
}

/// Check if two values are convertible (definitionally equal), with the
/// η-rule for functions.
pub fn convertible_values(val1: &Value, val2: &Value, level: usize) -> (r: bool)
    ensures
        r == sem_conv_eta(val1@, val2@, level, (usize::MAX - level) as nat),
{
    convertible_aux(val1, val2, level, usize::MAX - level)
}

fn convertible_aux(val1: &Value, val2: &Value, level: usize, fuel: usize) -> (r: bool)
    requires
        level + fuel <= usize::MAX,
    ensures
        r == sem_conv_eta(val1@, val2@, level, fuel as nat),
    decreases fuel,
{
    if fuel == 0 {
        return false;
    }
    assert(level < usize::MAX);
    match (val1, val2) {
        (Value::Var(l1), Value::Var(l2)) => {
            assert(val1@ == SemVal::Var(*l1));
            assert(sem_conv_eta(val1@, val2@, level, fuel as nat) == (*l1 == *l2));
            *l1 == *l2
        },
        (Value::Universe(level1), Value::Universe(level2)) => *level1 == *level2,
        (Value::Pi(dom1, cod1), Value::Pi(dom2, cod2)) => {
            assert(val1@ == SemVal::Pi(Box::new((**dom1)@), cod1@));
            assert(level < usize::MAX);
            let b = convertible_aux(dom1, dom2, level, fuel - 1);
            assert(b == sem_conv_eta((**dom1)@, (**dom2)@, level, (fuel - 1) as nat));
            if !b {
                assert(!sem_conv_eta(val1@, val2@, level, fuel as nat));
                return false;
            }
            let cod1_inst = open_closure(cod1, level, fuel - 1);
            let cod2_inst = open_closure(cod2, level, fuel - 1);
            let res = convertible_aux(&cod1_inst, &cod2_inst, level + 1, fuel - 1);
            assert(res == sem_conv_eta(val1@, val2@, level, fuel as nat));
            res
        },
        (Value::Lambda(closure1), Value::Lambda(closure2)) => {
            let body1 = open_closure(closure1, level, fuel - 1);
            let body2 = open_closure(closure2, level, fuel - 1);
            let res = convertible_aux(&body1, &body2, level + 1, fuel - 1);
            assert(res == sem_conv_eta(val1@, val2@, level, fuel as nat));
            res
        },
        (Value::Neutral(n1), Value::Neutral(n2)) => {
            let ghost s1 = seq_view(n1.spine@);
            let ghost s2 = seq_view(n2.spine@);
            assert(val1@ == SemVal::Neutral(n1.head, s1));
            assert(val2@ == SemVal::Neutral(n2.head, s2));
            if n1.head != n2.head || n1.spine.len() != n2.spine.len() {
                return false;
            }
            let mut i: usize = 0;
            assert(s1.skip(0) =~= s1);
            assert(s2.skip(0) =~= s2);
            while i < n1.spine.len()
                invariant
                    i <= n1.spine@.len(),
                    n1.spine@.len() == n2.spine@.len(),
                    s1 == seq_view(n1.spine@),
                    s2 == seq_view(n2.spine@),
                    val1@ == SemVal::Neutral(n1.head, s1),
                    val2@ == SemVal::Neutral(n2.head, s2),
                    n1.head == n2.head,
                    level + fuel <= usize::MAX,
                    fuel > 0,
                    sem_conv_eta_spine(s1, s2, level, (fuel - 1) as nat) == sem_conv_eta_spine(s1.skip(i as int), s2.skip(i as int), level, (fuel - 1) as nat),
                decreases n1.spine@.len() - i,
            {
                assert(s1[i as int] == (*n1.spine@[i as int])@);
                assert(s2[i as int] == (*n2.spine@[i as int])@);
                assert(s1.skip(i as int)[0] == s1[i as int]);
                assert(s2.skip(i as int)[0] == s2[i as int]);
                assert(s1.skip(i as int).drop_first() =~= s1.skip(i + 1));
                assert(s2.skip(i as int).drop_first() =~= s2.skip(i + 1));
                if !convertible_aux(&n1.spine[i], &n2.spine[i], level, fuel - 1) {
                    return false;
                }
                i = i + 1;
            }
            assert(s1.skip(i as int) =~= Seq::<SemVal>::empty());
            true
        },
        (Value::Lambda(closure), other) => {
            let body = open_closure(closure, level, fuel - 1);
            let other_applied = apply_or_self(other, level, fuel - 1);
            let res = convertible_aux(&body, &other_applied, level + 1, fuel - 1);
            assert(res == sem_conv_eta(val1@, val2@, level, fuel as nat));
            res
        },
        (other, Value::Lambda(closure)) => {
            let body = open_closure(closure, level, fuel - 1);
            let other_applied = apply_or_self(other, level, fuel - 1);
            let res = convertible_aux(&body, &other_applied, level + 1, fuel - 1);
            assert(res == sem_conv_eta(val1@, val2@, level, fuel as nat));
            res
        },
        _ => {
            assert(!sem_conv_eta(val1@, val2@, level, fuel as nat));
            false
        },
    }
}

/// Instantiate a closure with the variable at `level`; a failed
/// instantiation stands for that variable.
pub fn open_closure(closure: &crate::kernel::Closure, level: usize, fuel: usize) -> (r: Value)
    ensures
        r@ == sem_open(closure@, level, fuel as nat),
{
    match instantiate_fuel(closure, Value::var(level), fuel) {
        Ok(v) => v,
        Err(_) => Value::var(level),
    }
}

/// Apply a value to the variable at `level`; a failed application stands
/// for the value itself.
pub fn apply_or_self(value: &Value, level: usize, fuel: usize) -> (r: Value)
    ensures
        r@ == sem_apply_or_self(value@, level, fuel as nat),
{
    match apply_fuel(value.copy(), Value::var(level), fuel) {
        Ok(v) => v,
        Err(_) => value.copy(),
    }
}

} // verus!
