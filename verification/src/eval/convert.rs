//! Conversion checking, structural and type-directed.

use vstd::prelude::*;
use crate::kernel::{Value, Level, Neutral, Closure};
use crate::kernel::value::{SemVal, SemClo, seq_view};
use super::semantics::{sem_instantiate, sem_open, sem_conv, sem_conv_spine, sem_apply_or_self};
use super::{open_closure, apply_or_self};
use super::normalize::instantiate_fuel;
use crate::shared::same_object;

verus! {

broadcast use crate::kernel::value::lemma_seq_view;

/// The value a closure takes on the variable at `level`, or `default`
/// when the instantiation fails.
pub open spec fn sem_open_or(c: SemClo, level: usize, fuel: nat, default: SemVal) -> SemVal {
    match sem_instantiate(c, SemVal::Var(level), fuel) {
        Ok(v) => v,
        Err(_) => default,
    }
}

/// Type-directed convertibility: at a Π-type both sides are compared
/// after application to a fresh variable (η), at any other type
/// structurally.
pub open spec fn sem_conv_typed(v1: SemVal, v2: SemVal, ty: SemVal, level: usize, fuel: nat) -> bool
    decreases fuel,
{
    if fuel == 0 || level == usize::MAX {
        false
    } else {
        match ty {
            SemVal::Pi(_, cod) => {
                let f = (fuel - 1) as nat;
                let cod_ty = sem_open(cod, level, f);
                match (v1, v2) {
                    (SemVal::Lambda(b1), SemVal::Lambda(b2)) =>
                        match (sem_instantiate(b1, SemVal::Var(level), f), sem_instantiate(b2, SemVal::Var(level), f)) {
                            (Ok(x1), Ok(x2)) => sem_conv_typed(x1, x2, cod_ty, (level + 1) as usize, f),
                            _ => false,
                        },
                    (SemVal::Lambda(b), other) =>
                        sem_conv_typed(sem_open_or(b, level, f, v1), sem_apply_or_self(other, level, f), cod_ty, (level + 1) as usize, f),
                    (other, SemVal::Lambda(b)) =>
                        sem_conv_typed(sem_open_or(b, level, f, v2), sem_apply_or_self(other, level, f), cod_ty, (level + 1) as usize, f),
                    _ => sem_conv_typed(sem_apply_or_self(v1, level, f), sem_apply_or_self(v2, level, f), cod_ty, (level + 1) as usize, f),
                }
            },
            _ => sem_conv(v1, v2, level, (usize::MAX - level) as nat),
        }
    }
}

fn convertible_with_type_fuel(val1: &Value, val2: &Value, typ: &Value, level: usize, fuel: usize) -> (r: bool)
    requires
        level + fuel <= usize::MAX,
    ensures
        r == sem_conv_typed(val1@, val2@, typ@, level, fuel as nat),
    decreases fuel,
{
    if fuel == 0 {
        return false;
    }
    match typ {
        Value::Pi(_domain, codomain) => {
            let f = fuel - 1;
            let codomain_type = open_closure(codomain, level, f);
            match (val1, val2) {
                (Value::Lambda(body1), Value::Lambda(body2)) => {
                    let result1 = instantiate_fuel(body1, Value::var(level), f);
                    let result2 = instantiate_fuel(body2, Value::var(level), f);
                    match (result1, result2) {
                        (Ok(v1), Ok(v2)) => convertible_with_type_fuel(&v1, &v2, &codomain_type, level + 1, f),
                        _ => false,
                    }
                },
                (Value::Lambda(body), other) => {
                    let other_applied = apply_or_self(other, level, f);
                    let lambda_applied = match instantiate_fuel(body, Value::var(level), f) {
                        Ok(v) => v,
                        Err(_) => val1.copy(),
                    };
                    convertible_with_type_fuel(&lambda_applied, &other_applied, &codomain_type, level + 1, f)
                },
                (other, Value::Lambda(body)) => {
                    let other_applied = apply_or_self(other, level, f);
                    let lambda_applied = match instantiate_fuel(body, Value::var(level), f) {
                        Ok(v) => v,
                        Err(_) => val2.copy(),
                    };
                    convertible_with_type_fuel(&lambda_applied, &other_applied, &codomain_type, level + 1, f)
                },
                _ => {
                    let app1 = apply_or_self(val1, level, f);
                    let app2 = apply_or_self(val2, level, f);
                    convertible_with_type_fuel(&app1, &app2, &codomain_type, level + 1, f)
                },
            }
        },
        _ => convertible_structural(val1, val2, level),
    }
}

/// Conversion checking with η-equality at function types
pub fn convertible_with_type(val1: &Value, val2: &Value, typ: &Value, level: usize) -> (r: bool)
    ensures
        r == sem_conv_typed(val1@, val2@, typ@, level, (usize::MAX - level) as nat),
{
    convertible_with_type_fuel(val1, val2, typ, level, usize::MAX - level)
}

fn convertible_structural_fuel(val1: &Value, val2: &Value, level: usize, fuel: usize) -> (r: bool)
    requires
        level + fuel <= usize::MAX,
    ensures
        r == sem_conv(val1@, val2@, level, fuel as nat),
    decreases fuel,
{
    if fuel == 0 {
        return false;
    }
    assert(level < usize::MAX);
    match (val1, val2) {
        (Value::Var(l1), Value::Var(l2)) => *l1 == *l2,
        (Value::Universe(level1), Value::Universe(level2)) => *level1 == *level2,
        (Value::Pi(dom1, cod1), Value::Pi(dom2, cod2)) => {
            if !convertible_structural_fuel(dom1, dom2, level, fuel - 1) {
                return false;
            }
            let cod1_inst = open_closure(cod1, level, fuel - 1);
            let cod2_inst = open_closure(cod2, level, fuel - 1);
            convertible_structural_fuel(&cod1_inst, &cod2_inst, level + 1, fuel - 1)
        },
        (Value::Lambda(body1), Value::Lambda(body2)) => {
            let body1_inst = open_closure(body1, level, fuel - 1);
            let body2_inst = open_closure(body2, level, fuel - 1);
            convertible_structural_fuel(&body1_inst, &body2_inst, level + 1, fuel - 1)
        },
        (Value::Neutral(n1), Value::Neutral(n2)) => {
            let ghost s1 = seq_view(n1.spine@);
            let ghost s2 = seq_view(n2.spine@);
            assert(val1@ == SemVal::Neutral(n1.head, s1));
            assert(val2@ == SemVal::Neutral(n2.head, s2));
            if n1.head != n2.head || n1.spine.len() != n2.spine.len() {
                return false;
            }
            let mut i: usize = 0;
            assert(s1.skip(0) =~= s1);
            assert(s2.skip(0) =~= s2);
            while i < n1.spine.len()
                invariant
                    i <= n1.spine@.len(),
                    n1.spine@.len() == n2.spine@.len(),
                    s1 == seq_view(n1.spine@),
                    s2 == seq_view(n2.spine@),
                    val1@ == SemVal::Neutral(n1.head, s1),
                    val2@ == SemVal::Neutral(n2.head, s2),
                    n1.head == n2.head,
                    level + fuel <= usize::MAX,
                    fuel > 0,
                    sem_conv_spine(s1, s2, level, (fuel - 1) as nat) == sem_conv_spine(s1.skip(i as int), s2.skip(i as int), level, (fuel - 1) as nat),
                decreases n1.spine@.len() - i,
            {
                assert(s1[i as int] == (*n1.spine@[i as int])@);
                assert(s2[i as int] == (*n2.spine@[i as int])@);
                assert(s1.skip(i as int)[0] == s1[i as int]);
                assert(s2.skip(i as int)[0] == s2[i as int]);
                assert(s1.skip(i as int).drop_first() =~= s1.skip(i + 1));
                assert(s2.skip(i as int).drop_first() =~= s2.skip(i + 1));
                if !convertible_structural_fuel(&n1.spine[i], &n2.spine[i], level, fuel - 1) {
                    return false;
                }
                i = i + 1;
            }
            assert(s1.skip(i as int) =~= Seq::<SemVal>::empty());
            true
        },
        _ => false,
    }
}

/// Structural convertibility does not depend on the order of its two
/// values.
pub proof fn lemma_conv_symmetric(v1: SemVal, v2: SemVal, level: usize, fuel: nat)
    ensures
        sem_conv(v1, v2, level, fuel) == sem_conv(v2, v1, level, fuel),
    decreases fuel, 0nat, 0nat,
{
    if fuel > 0 && level < usize::MAX {
        let f = (fuel - 1) as nat;
        match (v1, v2) {
            (SemVal::Pi(d1, c1), SemVal::Pi(d2, c2)) => {
                lemma_conv_symmetric(*d1, *d2, level, f);
                lemma_conv_symmetric(sem_open(c1, level, f), sem_open(c2, level, f), (level + 1) as usize, f);
            },
            (SemVal::Lambda(c1), SemVal::Lambda(c2)) => {
                lemma_conv_symmetric(sem_open(c1, level, f), sem_open(c2, level, f), (level + 1) as usize, f);
            },
            (SemVal::Neutral(h1, s1), SemVal::Neutral(h2, s2)) => {
                if s1.len() == s2.len() {
                    lemma_conv_spine_symmetric(s1, s2, level, f);
                }
            },
            _ => {},
        }
    }
}

/// Pointwise structural convertibility of two spines does not depend on
/// their order.
pub proof fn lemma_conv_spine_symmetric(s1: Seq<SemVal>, s2: Seq<SemVal>, level: usize, fuel: nat)
    requires
        s1.len() == s2.len(),
    ensures
        sem_conv_spine(s1, s2, level, fuel) == sem_conv_spine(s2, s1, level, fuel),
    decreases fuel, 1nat, s1.len(),
{
    if s1.len() > 0 {
        lemma_conv_symmetric(s1[0], s2[0], level, fuel);
        lemma_conv_spine_symmetric(s1.drop_first(), s2.drop_first(), level, fuel);
    }
}

/// Whether comparing `v` with itself runs to the end within `fuel` steps
/// at binder depth `level`: each closure opened along the way, and each
/// spine argument, is compared with the fuel that is left.
pub open spec fn conv_fuel_suffices(v: SemVal, level: usize, fuel: nat) -> bool
    decreases fuel, 0nat,
{
    if fuel == 0 || level == usize::MAX {
        false
    } else {
        match v {
            SemVal::Pi(d, c) => conv_fuel_suffices(*d, level, (fuel - 1) as nat)
                && conv_fuel_suffices(sem_open(c, level, (fuel - 1) as nat), (level + 1) as usize, (fuel - 1) as nat),
            SemVal::Lambda(c) => conv_fuel_suffices(sem_open(c, level, (fuel - 1) as nat), (level + 1) as usize, (fuel - 1) as nat),
            SemVal::Neutral(_, sp) => conv_fuel_suffices_spine(sp, level, (fuel - 1) as nat),
            _ => true,
        }
    }
}

/// Whether comparing each argument of a spine with itself runs to the end
/// within `fuel` steps.
pub open spec fn conv_fuel_suffices_spine(s: Seq<SemVal>, level: usize, fuel: nat) -> bool
    decreases fuel, s.len(),
{
    if s.len() == 0 {
        true
    } else {
        conv_fuel_suffices(s[0], level, fuel) && conv_fuel_suffices_spine(s.drop_first(), level, fuel)
    }
}

/// Structural convertibility is reflexive wherever the comparison runs to
/// the end within its fuel.
pub proof fn lemma_conv_reflexive(v: SemVal, level: usize, fuel: nat)
    requires
        conv_fuel_suffices(v, level, fuel),
    ensures
        sem_conv(v, v, level, fuel),
    decreases fuel, 0nat, 0nat,
{
    let f = (fuel - 1) as nat;
    match v {
        SemVal::Pi(d, c) => {
            lemma_conv_reflexive(*d, level, f);
            lemma_conv_reflexive(sem_open(c, level, f), (level + 1) as usize, f);
        },
        SemVal::Lambda(c) => {
            lemma_conv_reflexive(sem_open(c, level, f), (level + 1) as usize, f);
        },
        SemVal::Neutral(_, sp) => {
            lemma_conv_spine_reflexive(sp, level, f);
        },
        _ => {},
    }
}

/// A spine is pointwise convertible with itself when each argument is
/// compared within the fuel.
proof fn lemma_conv_spine_reflexive(s: Seq<SemVal>, level: usize, fuel: nat)
    requires
        conv_fuel_suffices_spine(s, level, fuel),
    ensures
        sem_conv_spine(s, s, level, fuel),
    decreases fuel, 1nat, s.len(),
{
    if s.len() > 0 {
        lemma_conv_reflexive(s[0], level, fuel);
        lemma_conv_spine_reflexive(s.drop_first(), level, fuel);
    }
}

/// Structural convertibility without type information (no η-rule)
pub fn convertible_structural(val1: &Value, val2: &Value, level: usize) -> (r: bool)
    ensures
        r == sem_conv(val1@, val2@, level, (usize::MAX - level) as nat),
{
    convertible_structural_fuel(val1, val2, level, usize::MAX - level)
}

/// Whether two neutral values have the same head, spines of the same
/// length, and pointwise structurally convertible arguments.
pub open spec fn sem_conv_neutral(n1: (usize, Seq<SemVal>), n2: (usize, Seq<SemVal>), level: usize) -> bool {
    n1.0 == n2.0 && n1.1.len() == n2.1.len()
    && forall|i: int| 0 <= i < n1.1.len() ==> #[trigger] sem_conv(n1.1[i], n2.1[i], level, (usize::MAX - level) as nat)
}

/// Check convertibility of neutral terms
pub fn convertible_neutral(n1: &Neutral, n2: &Neutral, level: usize) -> (r: bool)
    ensures
        r == sem_conv_neutral(n1@, n2@, level),
{
    if n1.head != n2.head || n1.spine.len() != n2.spine.len() {
        return false;
    }
    let ghost s1 = seq_view(n1.spine@);
    let ghost s2 = seq_view(n2.spine@);
    let mut i: usize = 0;
    while i < n1.spine.len()
        invariant
            i <= n1.spine@.len(),
            n1.spine@.len() == n2.spine@.len(),
            n1.head == n2.head,
            s1 == seq_view(n1.spine@),
            s2 == seq_view(n2.spine@),
            forall|j: int| 0 <= j < i ==> #[trigger] sem_conv(s1[j], s2[j], level, (usize::MAX - level) as nat),
        decreases n1.spine@.len() - i,
    {
        assert(s1[i as int] == (*n1.spine@[i as int])@);
        assert(s2[i as int] == (*n2.spine@[i as int])@);
        if !convertible_structural(&n1.spine[i], &n2.spine[i], level) {
            return false;
        }
        i = i + 1;
    }
    true
}

/// Weak-head convertibility where lambda pairs count as `lam`: equal
/// variables and universes, convertible Π domains, and neutral terms with
/// the same head and pointwise convertible spines.
pub open spec fn sem_whnf(v1: SemVal, v2: SemVal, lam: bool, fuel: nat) -> bool
    decreases fuel, 0nat,
{
    if fuel == 0 {
        false
    } else {
        match (v1, v2) {
            (SemVal::Var(a), SemVal::Var(b)) => a == b,
            (SemVal::Universe(a), SemVal::Universe(b)) => a == b,
            (SemVal::Pi(d1, _), SemVal::Pi(d2, _)) => sem_whnf(*d1, *d2, lam, (fuel - 1) as nat),
            (SemVal::Lambda(_), SemVal::Lambda(_)) => lam,
            (SemVal::Neutral(h1, s1), SemVal::Neutral(h2, s2)) =>
                h1 == h2 && s1.len() == s2.len() && sem_whnf_spine(s1, s2, lam, (fuel - 1) as nat),
            _ => false,
        }
    }
}

/// Pointwise weak-head convertibility of two spines of equal length.
pub open spec fn sem_whnf_spine(s1: Seq<SemVal>, s2: Seq<SemVal>, lam: bool, fuel: nat) -> bool
    decreases fuel, s1.len(),
{
    if s1.len() == 0 {
        true
    } else {
        sem_whnf(s1[0], s2[0], lam, fuel) && sem_whnf_spine(s1.drop_first(), s2.drop_first(), lam, fuel)
    }
}

fn convertible_whnf_fuel(val1: &Value, val2: &Value, fuel: usize) -> (r: bool)
    ensures
        sem_whnf(val1@, val2@, false, fuel as nat) ==> r,
        r ==> sem_whnf(val1@, val2@, true, fuel as nat),
        (val1@ is Lambda && r) ==> val1 == val2,
    decreases fuel,
{
    if fuel == 0 {
        return false;
    }
    match (val1, val2) {
        (Value::Var(l1), Value::Var(l2)) => *l1 == *l2,
        (Value::Universe(l1), Value::Universe(l2)) => *l1 == *l2,
        (Value::Pi(dom1, _), Value::Pi(dom2, _)) => convertible_whnf_fuel(dom1, dom2, fuel - 1),
        (Value::Lambda(_), Value::Lambda(_)) => same_object(val1, val2),
        (Value::Neutral(n1), Value::Neutral(n2)) => {
            let ghost s1 = seq_view(n1.spine@);
            let ghost s2 = seq_view(n2.spine@);
            assert(val1@ == SemVal::Neutral(n1.head, s1));
            assert(val2@ == SemVal::Neutral(n2.head, s2));
            if n1.head != n2.head || n1.spine.len() != n2.spine.len() {
                return false;
            }
            let mut i: usize = 0;
            assert(s1.skip(0) =~= s1);
            assert(s2.skip(0) =~= s2);
            while i < n1.spine.len()
                invariant
                    i <= n1.spine@.len(),
                    n1.spine@.len() == n2.spine@.len(),
                    s1 == seq_view(n1.spine@),
                    s2 == seq_view(n2.spine@),
                    val1@ == SemVal::Neutral(n1.head, s1),
                    val2@ == SemVal::Neutral(n2.head, s2),
                    n1.head == n2.head,
                    fuel > 0,
                    sem_whnf_spine(s1, s2, true, (fuel - 1) as nat) <== sem_whnf_spine(s1.skip(i as int), s2.skip(i as int), true, (fuel - 1) as nat),
                    sem_whnf_spine(s1.skip(i as int), s2.skip(i as int), false, (fuel - 1) as nat) <== sem_whnf_spine(s1, s2, false, (fuel - 1) as nat),
                decreases n1.spine@.len() - i,
            {
                assert(s1[i as int] == (*n1.spine@[i as int])@);
                assert(s2[i as int] == (*n2.spine@[i as int])@);
                assert(s1.skip(i as int)[0] == s1[i as int]);
                assert(s2.skip(i as int)[0] == s2[i as int]);
                assert(s1.skip(i as int).drop_first() =~= s1.skip(i + 1));
                assert(s2.skip(i as int).drop_first() =~= s2.skip(i + 1));
                if !convertible_whnf_fuel(&n1.spine[i], &n2.spine[i], fuel - 1) {
                    return false;
                }
                i = i + 1;
            }
            assert(s1.skip(i as int) =~= Seq::<SemVal>::empty());
            true
        },
        _ => false,
    }
}

/// Weak-head convertibility (does not look inside lambdas): two lambdas
/// count as equal only when they are the same object in memory, which
/// `sem_whnf` brackets by counting lambda pairs as unequal (lower bound)
/// and as equal (upper bound).
pub fn convertible_whnf(val1: &Value, val2: &Value) -> (r: bool)
    ensures
        sem_whnf(val1@, val2@, false, usize::MAX as nat) ==> r,
        r ==> sem_whnf(val1@, val2@, true, usize::MAX as nat),
        (val1@ is Lambda && r) ==> val1 == val2,
{
    convertible_whnf_fuel(val1, val2, usize::MAX)
}

/// Definitional equality: type-directed when a type is given,
/// structural otherwise.
pub fn definitionally_equal(val1: &Value, val2: &Value, typ: Option<&Value>, level: usize) -> (r: bool)
    ensures
        r == match typ {
            Some(t) => sem_conv_typed(val1@, val2@, t@, level, (usize::MAX - level) as nat),
            None => sem_conv(val1@, val2@, level, (usize::MAX - level) as nat),
        },
{
    match typ {
        Some(t) => convertible_with_type(val1, val2, t, level),
        None => convertible_structural(val1, val2, level),
    }
}

/// Check if two types are convertible (structural equality suffices)
pub fn types_convertible(typ1: &Value, typ2: &Value, level: usize) -> (r: bool)
    ensures
        r == sem_conv(typ1@, typ2@, level, (usize::MAX - level) as nat),
{
    convertible_structural(typ1, typ2, level)
}

/// Universe level of a type that is a universe
pub fn universe_level(typ: &Value) -> (r: Option<Level>)
    ensures
        r == match *typ {
            Value::Universe(l) => Some(l),
            _ => None,
        },
{
    match typ {
        Value::Universe(level) => Some(*level),
        _ => None,
    }
}

/// Check if a value is a universe
pub fn is_type(val: &Value) -> (r: bool)
    ensures
        r == (*val is Universe),
{
    universe_level(val).is_some()
}

/// Comparison with explicit variance information
#[derive(Debug, Clone, Copy, PartialEq, Eq)]
pub enum Variance {
    /// Covariant position
    Covariant,
    /// Contravariant position
    Contravariant,
    /// Invariant position
    Invariant,
}

/// Convert with variance information; every variance compares
/// structurally, as the theory has no subtyping.
pub fn convertible_with_variance(val1: &Value, val2: &Value, variance: Variance, level: usize) -> (r: bool)
    ensures
        r == sem_conv(val1@, val2@, level, (usize::MAX - level) as nat),
{
    match variance {
        Variance::Invariant => convertible_structural(val1, val2, level),
        Variance::Covariant | Variance::Contravariant => convertible_structural(val1, val2, level),
    }
}

/// Quotient type equality; the theory has no quotient types, so no two
/// values are quotient-equal.
pub fn quotient_equal(_val1: &Value, _val2: &Value, _equivalence_relation: &Value, _level: usize) -> (r: bool)
    ensures
        !r,
{
    false
}

} // verus!
