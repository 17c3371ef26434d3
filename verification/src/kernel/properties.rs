//! Run-time checks of metatheoretic properties on given terms:
//! substitution lemma, type preservation, subject reduction,
//! Church-Rosser, canonicity, weak normalization and universe consistency.

use vstd::prelude::*;
use crate::kernel::term::{Term, Level};
use crate::kernel::value::{Value, SemVal};
use crate::kernel::subst::{Substitution, apply_substitution, spec_apply_subst, spec_single};
use crate::kernel::show::{show_term, decimal, decimal_string};
use crate::shared::debug_text;
use crate::eval::{normalize, evaluate, EvalResult};
use crate::eval::normalize::spec_normalize;
use crate::eval::semantics::{FUEL, sem_eval};
use crate::typeck::{Context, check_term, cres_view};
use crate::typeck::context::types_of;
use crate::typeck::checker::{spec_check, fresh_solver, meta_count, CtxView};

verus! {

/// Errors of property checks
#[derive(Debug, Clone, PartialEq)]
pub enum PropertyError {
    /// The substitution lemma failed
    SubstitutionLemma(String),
    /// Type preservation failed
    TypePreservation(String),
    /// Church-Rosser failed
    ChurchRosser(String),
    /// Subject reduction failed
    SubjectReduction(String),
    /// Canonicity failed
    Canonicity(String),
    /// Evaluation failed
    EvalError(String),
    /// Type checking failed
    TypeError(String),
}

/// The text a property error is shown as.
pub open spec fn property_error_text(e: PropertyError) -> Seq<char> {
    match e {
        PropertyError::SubstitutionLemma(m) => "Substitution lemma: "@ + m@,
        PropertyError::TypePreservation(m) => "Type preservation: "@ + m@,
        PropertyError::ChurchRosser(m) => "Church-Rosser: "@ + m@,
        PropertyError::SubjectReduction(m) => "Subject reduction: "@ + m@,
        PropertyError::Canonicity(m) => "Canonicity: "@ + m@,
        PropertyError::EvalError(m) => "Evaluation error: "@ + m@,
        PropertyError::TypeError(m) => "Type error: "@ + m@,
    }
}

fn with_prefix(prefix: &str, msg: &String) -> (r: String)
    ensures
        r@ == prefix@ + msg@,
{
    let mut s = String::from_str(prefix);
    s.append(msg.as_str());
    s
}

impl PropertyError {
    /// The text the error is shown as
    pub fn to_display_string(&self) -> (r: String)
        ensures
            r@ == property_error_text(*self),
    {
        match self {
            PropertyError::SubstitutionLemma(m) => {
                proof { reveal_strlit("Substitution lemma: "); }
                with_prefix("Substitution lemma: ", m)
            },
            PropertyError::TypePreservation(m) => {
                proof { reveal_strlit("Type preservation: "); }
                with_prefix("Type preservation: ", m)
            },
            PropertyError::ChurchRosser(m) => {
                proof { reveal_strlit("Church-Rosser: "); }
                with_prefix("Church-Rosser: ", m)
            },
            PropertyError::SubjectReduction(m) => {
                proof { reveal_strlit("Subject reduction: "); }
                with_prefix("Subject reduction: ", m)
            },
            PropertyError::Canonicity(m) => {
                proof { reveal_strlit("Canonicity: "); }
                with_prefix("Canonicity: ", m)
            },
            PropertyError::EvalError(m) => {
                proof { reveal_strlit("Evaluation error: "); }
                with_prefix("Evaluation error: ", m)
            },
            PropertyError::TypeError(m) => {
                proof { reveal_strlit("Type error: "); }
                with_prefix("Type error: ", m)
            },
        }
    }
}

/// Result of a property check
pub type PropertyResult = Result<(), PropertyError>;

/// The rendering of a term with no names for its free variables.
pub open spec fn show(t: Term) -> Seq<char> {
    show_term(t, Seq::empty())
}

/// Both sides of the substitution lemma
/// `t[i := s][j := r] = t[j' := r][i := s[j := r]]`, where `j'` is `j + 1`
/// when `j >= i` and `j` otherwise; `None` where index arithmetic
/// overflows.
pub open spec fn subst_lemma_sides(t: Term, i: usize, j: usize, s: Term, r: Term) -> Option<(Term, Term)> {
    let adjusted: int = if j >= i { j + 1 } else { j as int };
    if i >= usize::MAX || adjusted >= usize::MAX {
        None
    } else {
        match spec_apply_subst(t, spec_single(i as int, s), 0) {
            None => None,
            Some(mid) => match spec_apply_subst(mid, spec_single(j as int, r), 0) {
                None => None,
                Some(left) => match spec_apply_subst(t, spec_single(adjusted, r), 0) {
                    None => None,
                    Some(ts) => match spec_apply_subst(s, spec_single(j as int, r), 0) {
                        None => None,
                        Some(ss) => match spec_apply_subst(ts, spec_single(i as int, ss), 0) {
                            None => None,
                            Some(right) => Some((left, right)),
                        },
                    },
                },
            },
        }
    }
}

fn substitute_var(term: &Term, index: usize, replacement: &Term) -> (r: Term)
    requires
        index < usize::MAX,
        spec_apply_subst(*term, spec_single(index as int, *replacement), 0) is Some,
    ensures
        spec_apply_subst(*term, spec_single(index as int, *replacement), 0) == Some(r),
{
    let subst = Substitution::single(index, replacement.copy());
    apply_substitution(term, &subst)
}

/// Check the substitution lemma on given terms and indices.
pub fn verify_substitution_lemma(term: &Term, i: usize, j: usize, s: &Term, r: &Term) -> (res: PropertyResult)
    requires
        subst_lemma_sides(*term, i, j, *s, *r) is Some,
    ensures
        match subst_lemma_sides(*term, i, j, *s, *r) {
            Some((left, right)) => if left == right {
                res is Ok
            } else {
                res matches Err(PropertyError::SubstitutionLemma(m))
                    && m@ == "Substitution lemma failed for term "@ + show(*term) + ": "@ + show(left) + " ≠ "@ + show(right)
            },
            None => false,
        },
{
    let intermediate = substitute_var(term, i, s);
    let left_result = substitute_var(&intermediate, j, r);
    let adjusted_j = if j >= i { j + 1 } else { j };
    let term_subst = substitute_var(term, adjusted_j, r);
    let s_subst = substitute_var(s, j, r);
    let right_result = substitute_var(&term_subst, i, &s_subst);
    if left_result.equals(&right_result) {
        Ok(())
    } else {
        let mut m = String::from_str("Substitution lemma failed for term ");
        m.append(term.to_display_string().as_str());
        m.append(": ");
        m.append(left_result.to_display_string().as_str());
        m.append(" ≠ ");
        m.append(right_result.to_display_string().as_str());
        proof {
            reveal_strlit("Substitution lemma failed for term ");
            reveal_strlit(": ");
            reveal_strlit(" ≠ ");
        }
        Err(PropertyError::SubstitutionLemma(m))
    }
}

/// The type of a term after substituting in it, when its type is a
/// universe: the universe as a term, substituted, and evaluated.
pub open spec fn preserved_type(ctx: CtxView, term_type: SemVal, var_index: usize, substitute: Term) -> Option<Result<SemVal, ()>> {
    match term_type {
        SemVal::Universe(l) => match spec_apply_subst(Term::Universe(Level(l.0)), spec_single(var_index as int, substitute), 0) {
            Some(t) => match sem_eval(t, types_of(ctx), FUEL as nat) {
                Ok(v) => Some(Ok(v)),
                Err(_) => Some(Err(())),
            },
            None => None,
        },
        _ => None,
    }
}

/// Whether type preservation under substitution holds on given inputs:
/// the term checks in the context extended with the substitute's type, the
/// substitute checks, the term's type is a universe, and the substituted
/// term checks against the substituted type.
pub open spec fn spec_type_preserved(ctx: CtxView, term: Term, term_type: SemVal, var_index: usize, substitute: Term, substitute_type: SemVal) -> bool {
    &&& spec_check(term, term_type, ctx.push(("x"@, substitute_type)), fresh_solver()).0 is Ok
    &&& spec_check(substitute, substitute_type, ctx, fresh_solver()).0 is Ok
    &&& term_type is Universe
    &&& preserved_type(ctx, term_type, var_index, substitute) matches Some(Ok(ty))
    &&& spec_apply_subst(term, spec_single(var_index as int, substitute), 0) matches Some(st)
    &&& spec_check(st, ty, ctx, fresh_solver()).0 is Ok
}

/// Check type preservation under substitution on given inputs.
pub fn verify_type_preservation_substitution(
    context: &Context,
    term: &Term,
    term_type: &Value,
    var_index: usize,
    substitute: &Term,
    substitute_type: &Value,
) -> (res: PropertyResult)
    requires
        var_index < usize::MAX,
        meta_count(*term) <= usize::MAX,
        meta_count(*substitute) <= usize::MAX,
        spec_apply_subst(*term, spec_single(var_index as int, *substitute), 0) matches Some(st) && meta_count(st) <= usize::MAX,
        term_type@ is Universe ==> preserved_type(context@, term_type@, var_index, *substitute) is Some,
    ensures
        res is Ok <==> spec_type_preserved(context@, *term, term_type@, var_index, *substitute, substitute_type@),
        res matches Err(e) ==> e is TypePreservation,
        (spec_check(*term, term_type@, context@.push(("x"@, substitute_type@)), fresh_solver()).0 is Ok
            && spec_check(*substitute, substitute_type@, context@, fresh_solver()).0 is Ok
            && !(term_type@ is Universe)) ==> (res matches Err(PropertyError::TypePreservation(m))
                && m@ == "Cannot convert value type back to term for substitution"@),
{
    let x = String::from_str("x");
    proof { reveal_strlit("x"); }
    let extended_context = context.extend(x, substitute_type.copy());
    match check_term(term, term_type, &extended_context) {
        Ok(_) => {},
        Err(e) => {
            let mut m = String::from_str("Original judgment failed: ");
            m.append(debug_text(&e).as_str());
            return Err(PropertyError::TypePreservation(m));
        },
    }
    match check_term(substitute, substitute_type, context) {
        Ok(_) => {},
        Err(e) => {
            let mut m = String::from_str("Substitute judgment failed: ");
            m.append(debug_text(&e).as_str());
            return Err(PropertyError::TypePreservation(m));
        },
    }
    let substituted_term = substitute_var(term, var_index, substitute);
    let type_term = match term_type {
        Value::Universe(level) => Term::universe(level.value()),
        _ => {
            proof { reveal_strlit("Cannot convert value type back to term for substitution"); }
            return Err(PropertyError::TypePreservation(String::from_str("Cannot convert value type back to term for substitution")));
        },
    };
    let substituted_type_term = substitute_var(&type_term, var_index, substitute);
    let substituted_type = match evaluate(&substituted_type_term, context.environment()) {
        Ok(v) => v,
        Err(e) => {
            let mut m = String::from_str("Evaluation error: ");
            m.append(debug_text(&e).as_str());
            return Err(PropertyError::TypePreservation(m));
        },
    };
    match check_term(&substituted_term, &substituted_type, context) {
        Ok(_) => Ok(()),
        Err(e) => {
            let mut m = String::from_str("Final judgment failed: ");
            m.append(debug_text(&e).as_str());
            Err(PropertyError::TypePreservation(m))
        },
    }
}

/// Check subject reduction on given terms: both the term and its reduct
/// check against the type.
pub fn verify_subject_reduction(context: &Context, term: &Term, reduced_term: &Term, typ: &Value) -> (res: PropertyResult)
    requires
        meta_count(*term) <= usize::MAX,
        meta_count(*reduced_term) <= usize::MAX,
    ensures
        res is Ok <==> (spec_check(*term, typ@, context@, fresh_solver()).0 is Ok
            && spec_check(*reduced_term, typ@, context@, fresh_solver()).0 is Ok),
        res matches Err(e) ==> e is SubjectReduction,
{
    match check_term(term, typ, context) {
        Ok(_) => {},
        Err(e) => {
            let mut m = String::from_str("Original term type check failed: ");
            m.append(debug_text(&e).as_str());
            return Err(PropertyError::SubjectReduction(m));
        },
    }
    match check_term(reduced_term, typ, context) {
        Ok(_) => Ok(()),
        Err(e) => {
            let mut m = String::from_str("Reduced term type check failed: ");
            m.append(debug_text(&e).as_str());
            Err(PropertyError::SubjectReduction(m))
        },
    }
}

/// Check the Church-Rosser property on two reducts: they normalize to the
/// same term.
pub fn verify_church_rosser(term: &Term, reduction1: &Term, reduction2: &Term) -> (res: PropertyResult)
    ensures
        match (spec_normalize(*reduction1), spec_normalize(*reduction2)) {
            (Ok(n1), Ok(n2)) => if n1 == n2 {
                res is Ok
            } else {
                res matches Err(PropertyError::ChurchRosser(m)) && m@ == "Church-Rosser failed: "@ + show(*reduction1) + " and "@
                    + show(*reduction2) + " normalize to different terms: "@ + show(n1) + " vs "@ + show(n2)
            },
            _ => res matches Err(PropertyError::ChurchRosser(_)),
        },
{
    let norm1 = match normalize(reduction1) {
        Ok(t) => t,
        Err(e) => {
            let mut m = String::from_str("Normalization 1 failed: ");
            m.append(debug_text(&e).as_str());
            return Err(PropertyError::ChurchRosser(m));
        },
    };
    let norm2 = match normalize(reduction2) {
        Ok(t) => t,
        Err(e) => {
            let mut m = String::from_str("Normalization 2 failed: ");
            m.append(debug_text(&e).as_str());
            return Err(PropertyError::ChurchRosser(m));
        },
    };
    if norm1.equals(&norm2) {
        Ok(())
    } else {
        let mut m = String::from_str("Church-Rosser failed: ");
        m.append(reduction1.to_display_string().as_str());
        m.append(" and ");
        m.append(reduction2.to_display_string().as_str());
        m.append(" normalize to different terms: ");
        m.append(norm1.to_display_string().as_str());
        m.append(" vs ");
        m.append(norm2.to_display_string().as_str());
        proof {
            reveal_strlit("Church-Rosser failed: ");
            reveal_strlit(" and ");
            reveal_strlit(" normalize to different terms: ");
            reveal_strlit(" vs ");
        }
        Err(PropertyError::ChurchRosser(m))
    }
}

/// Check canonicity: a closed term whose type is a universe normalizes to
/// a universe.
pub fn verify_canonicity(term: &Term, typ: &Value) -> (res: PropertyResult)
    ensures
        if term.spec_free_max() is Some {
            res matches Err(PropertyError::Canonicity(m)) && m@ == "Term is not closed"@
        } else {
            match spec_normalize(*term) {
                Ok(n) => if typ@ is Universe && !(n is Universe) {
                    res matches Err(PropertyError::Canonicity(m))
                        && m@ == "Universe term "@ + show(*term) + " did not normalize to universe: "@ + show(n)
                } else {
                    res is Ok
                },
                Err(_) => res matches Err(PropertyError::Canonicity(_)),
            }
        },
{
    if !term.is_closed() {
        proof { reveal_strlit("Term is not closed"); }
        return Err(PropertyError::Canonicity(String::from_str("Term is not closed")));
    }
    let normalized: EvalResult<Term> = normalize(term);
    let normalized = match normalized {
        Ok(t) => t,
        Err(e) => {
            let mut m = String::from_str("Normalization failed: ");
            m.append(debug_text(&e).as_str());
            return Err(PropertyError::Canonicity(m));
        },
    };
    match typ {
        Value::Universe(_) => {
            if normalized.is_universe() {
                Ok(())
            } else {
                let mut m = String::from_str("Universe term ");
                m.append(term.to_display_string().as_str());
                m.append(" did not normalize to universe: ");
                m.append(normalized.to_display_string().as_str());
                proof {
                    reveal_strlit("Universe term ");
                    reveal_strlit(" did not normalize to universe: ");
                }
                Err(PropertyError::Canonicity(m))
            }
        },
        _ => Ok(()),
    }
}

/// The outcome of repeated normalization with `steps` steps left: `Ok`
/// when a normal form is reached (normalizing gives the term back),
/// `Err(true)` when the steps run out, `Err(false)` when normalization
/// fails.
pub open spec fn sem_weak_norm(current: Term, steps: nat) -> Result<(), bool>
    decreases steps,
{
    if steps == 0 {
        Err(true)
    } else {
        match spec_normalize(current) {
            Ok(n) => if n == current { Ok(()) } else { sem_weak_norm(n, (steps - 1) as nat) },
            Err(_) => Err(false),
        }
    }
}

/// Check weak normalization: normalizing repeatedly reaches a fixed point
/// within `max_steps` steps.
pub fn verify_weak_normalization(term: &Term, max_steps: usize) -> (res: PropertyResult)
    ensures
        res is Ok <==> sem_weak_norm(*term, max_steps as nat) is Ok,
        res matches Err(e) ==> e is EvalError,
        sem_weak_norm(*term, max_steps as nat) == Err::<(), bool>(true) ==> (res matches Err(PropertyError::EvalError(m))
            && m@ == "Normalization did not terminate within "@ + decimal(max_steps as nat) + " steps"@),
{
    let mut current = term.copy();
    let mut steps: usize = 0;
    while steps < max_steps
        invariant
            steps <= max_steps,
            sem_weak_norm(*term, max_steps as nat) == sem_weak_norm(current, (max_steps - steps) as nat),
        decreases max_steps - steps,
    {
        let normalized: EvalResult<Term> = normalize(&current);
        match normalized {
            Ok(n) => {
                if n.equals(&current) {
                    return Ok(());
                }
                current = n;
                steps = steps + 1;
            },
            Err(e) => {
                let mut m = String::from_str("Normalization error: ");
                m.append(debug_text(&e).as_str());
                return Err(PropertyError::EvalError(m));
            },
        }
    }
    let mut m = String::from_str("Normalization did not terminate within ");
    m.append(decimal_string(max_steps as u64).as_str());
    m.append(" steps");
    proof {
        reveal_strlit("Normalization did not terminate within ");
        reveal_strlit(" steps");
    }
    Err(PropertyError::EvalError(m))
}

/// Check universe consistency: `Type_i : Type_{i+1}` for `i` below ten,
/// and `Type_0 : Type_0` is rejected.
pub fn verify_universe_consistency() -> (res: PropertyResult)
    ensures
        res is Ok <==> (forall|i: u32| i < 10 ==> #[trigger] spec_check(Term::Universe(Level(i)), SemVal::Universe(Level((i + 1) as u32)), Seq::empty(), fresh_solver()).0 is Ok)
            && spec_check(Term::Universe(Level(0)), SemVal::Universe(Level(0)), Seq::empty(), fresh_solver()).0 is Err,
        res matches Err(e) ==> e is TypeError,
{
    let mut i: u32 = 0;
    while i < 10
        invariant
            i <= 10,
            forall|k: u32| k < i ==> #[trigger] spec_check(Term::Universe(Level(k)), SemVal::Universe(Level((k + 1) as u32)), Seq::empty(), fresh_solver()).0 is Ok,
        decreases 10 - i,
    {
        let universe_i = Term::universe(i);
        let universe_i_plus_1 = Value::universe(Level(i + 1));
        let context = Context::empty();
        match check_term(&universe_i, &universe_i_plus_1, &context) {
            Ok(_) => {},
            Err(e) => {
                let mut m = String::from_str("Universe hierarchy broken at level ");
                m.append(decimal_string(i as u64).as_str());
                m.append(": ");
                m.append(debug_text(&e).as_str());
                return Err(PropertyError::TypeError(m));
            },
        }
        i = i + 1;
    }
    let type0 = Term::universe(0);
    let type0_val = Value::universe(Level(0));
    let context = Context::empty();
    if check_term(&type0, &type0_val, &context).is_ok() {
        proof { reveal_strlit("Universe is self-typing (Russell's paradox)"); }
        return Err(PropertyError::TypeError(String::from_str("Universe is self-typing (Russell's paradox)")));
    }
    Ok(())
}

/// Run every property check on sample inputs: three instances of the
/// substitution lemma, Church-Rosser on a β-redex, canonicity of `Type_0`,
/// weak normalization of `Type_0`, and universe consistency.
pub fn verify_all_properties() -> (r: Vec<PropertyResult>)
    ensures
        r@.len() == 7,
{
    let mut results: Vec<PropertyResult> = Vec::new();
    proof {
        reveal_with_fuel(spec_apply_subst, 3);
        reveal_with_fuel(crate::kernel::subst::spec_shift, 3);
    }
    let t1 = Term::var(0);
    let s1 = Term::universe(0);
    let r1 = Term::var(1);
    assert(subst_lemma_sides(t1, 0, 1, s1, r1) is Some) by {
        assert(spec_apply_subst(t1, spec_single(0, s1), 0) == Some(s1));
        assert(spec_apply_subst(s1, spec_single(1, r1), 0) == Some(s1));
        assert(spec_apply_subst(t1, spec_single(2, r1), 0) == Some(t1));
        assert(spec_apply_subst(t1, spec_single(0, s1), 0) == Some(s1));
    }
    results.push(verify_substitution_lemma(&t1, 0, 1, &s1, &r1));
    let t2 = Term::lambda(Term::var(0));
    let s2 = Term::universe(0);
    let r2 = Term::var(0);
    assert(subst_lemma_sides(t2, 1, 0, s2, r2) is Some) by {
        let v0 = Term::Var(0);
        assert(crate::kernel::subst::spec_shift_subst(spec_single(1, s2), 0, 1) is Some);
        assert(crate::kernel::subst::spec_shift_subst(spec_single(0, r2), 0, 1) is Some) by {
            assert(crate::kernel::subst::spec_shift(r2, 0, 1) is Some);
        }
        assert(spec_apply_subst(t2, spec_single(1, s2), 0) == Some(t2));
        assert(spec_apply_subst(t2, spec_single(0, r2), 0) == Some(t2));
        assert(spec_apply_subst(s2, spec_single(0, r2), 0) == Some(s2));
        assert(crate::kernel::subst::spec_shift_subst(spec_single(1, s2), 0, 1) is Some);
    }
    results.push(verify_substitution_lemma(&t2, 1, 0, &s2, &r2));
    let t3 = Term::app(Term::var(0), Term::var(1));
    let s3 = Term::universe(0);
    let r3 = Term::var(2);
    assert(subst_lemma_sides(t3, 0, 1, s3, r3) is Some) by {
        assert(spec_apply_subst(Term::Var(0), spec_single(0, s3), 0) == Some(s3));
        assert(spec_apply_subst(Term::Var(1), spec_single(0, s3), 0) == Some(Term::Var(1)));
        let mid = spec_apply_subst(t3, spec_single(0, s3), 0)->0;
        assert(spec_apply_subst(s3, spec_single(1, r3), 0) == Some(s3));
        assert(spec_apply_subst(Term::Var(1), spec_single(1, r3), 0) == Some(r3));
        assert(spec_apply_subst(mid, spec_single(1, r3), 0) is Some);
        assert(spec_apply_subst(Term::Var(0), spec_single(2, r3), 0) == Some(Term::Var(0)));
        assert(spec_apply_subst(Term::Var(1), spec_single(2, r3), 0) == Some(Term::Var(1)));
        assert(spec_apply_subst(t3, spec_single(2, r3), 0) == Some(t3));
        assert(spec_apply_subst(t3, spec_single(0, s3), 0) is Some);
    }
    results.push(verify_substitution_lemma(&t3, 0, 1, &s3, &r3));
    let identity = Term::lambda(Term::var(0));
    let arg = Term::universe(0);
    let app = Term::app(identity, arg.copy());
    results.push(verify_church_rosser(&app, &arg, &arg));
    let type0 = Term::universe(0);
    let type1_val = Value::universe(Level(1));
    results.push(verify_canonicity(&type0, &type1_val));
    results.push(verify_weak_normalization(&type0, 100));
    results.push(verify_universe_consistency());
    results
}

} // verus!
