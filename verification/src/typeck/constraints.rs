//! Constraint solving and unification of metavariables.
//!
//! A solver keeps a stack of constraints and a substitution from
//! metavariables to values. Solving pops constraints one at a time:
//! an equation is unified (which may push one assignment), an instance
//! constraint becomes an equation, and an assignment is recorded after an
//! occurs check.

use vstd::prelude::*;
use std::collections::HashMap;
use std::rc::Rc;
use crate::kernel::{Value, Level};
use crate::kernel::value::{SemVal, seq_view};
use crate::eval::semantics::{FUEL, sem_apply};
use crate::eval::apply::apply_value;

verus! {

broadcast use {crate::kernel::value::lemma_seq_view, vstd::std_specs::hash::group_hash_axioms};

/// Constraints between values.
#[derive(Clone, Debug, PartialEq)]
pub enum Constraint {
    /// The two values must be equal
    Equal(Value, Value),
    /// The value must be an instance of the type (solved as an equation)
    Instance(Value, Value),
    /// The metavariable is assigned the value
    Assign(usize, Value),
}

/// Abstract constraints.
pub enum SemConstraint {
    Equal(SemVal, SemVal),
    Instance(SemVal, SemVal),
    Assign(usize, SemVal),
}

impl View for Constraint {
    type V = SemConstraint;

    open spec fn view(&self) -> SemConstraint {
        match *self {
            Constraint::Equal(a, b) => SemConstraint::Equal(a@, b@),
            Constraint::Instance(a, b) => SemConstraint::Instance(a@, b@),
            Constraint::Assign(m, v) => SemConstraint::Assign(m, v@),
        }
    }
}

/// Errors of unification.
#[derive(Debug, Clone, PartialEq)]
pub enum UnificationError {
    /// Values built by different constructors
    ConstructorMismatch(Value, Value),
    /// A metavariable would be assigned a value mentioning it
    OccursCheck(usize, Value),
    /// Different universe levels
    LevelMismatch(Level, Level),
    /// Different rigid heads
    RigidMismatch(Value, Value),
    /// A constraint that cannot be solved (also: unification nested deeper
    /// than the recursion budget)
    CannotSolve(Constraint),
    /// Reference to an unknown metavariable
    MetavarNotFound(usize),
}

/// Abstract unification errors.
pub enum SemUErr {
    ConstructorMismatch(SemVal, SemVal),
    OccursCheck(usize, SemVal),
    LevelMismatch(Level, Level),
    RigidMismatch(SemVal, SemVal),
    CannotSolve(SemConstraint),
    MetavarNotFound(usize),
}

impl View for UnificationError {
    type V = SemUErr;

    open spec fn view(&self) -> SemUErr {
        match *self {
            UnificationError::ConstructorMismatch(a, b) => SemUErr::ConstructorMismatch(a@, b@),
            UnificationError::OccursCheck(m, v) => SemUErr::OccursCheck(m, v@),
            UnificationError::LevelMismatch(a, b) => SemUErr::LevelMismatch(a, b),
            UnificationError::RigidMismatch(a, b) => SemUErr::RigidMismatch(a@, b@),
            UnificationError::CannotSolve(c) => SemUErr::CannotSolve(c@),
            UnificationError::MetavarNotFound(m) => SemUErr::MetavarNotFound(m),
        }
    }
}

/// The abstract content of a unification result.
pub open spec fn ures_view(r: Result<(), UnificationError>) -> Result<(), SemUErr> {
    match r {
        Ok(_) => Ok(()),
        Err(e) => Err(e@),
    }
}

/// The abstract contents of a sequence of constraints.
pub open spec fn constraints_view(s: Seq<Constraint>) -> Seq<SemConstraint> {
    Seq::new(s.len(), |i: int| s[i]@)
}

/// Application of a metavariable substitution to a value: an assigned
/// metavariable at the head of a neutral value is replaced by its value
/// applied to the (substituted) arguments in turn, where a failed
/// application starts over from the original value; other neutral values
/// have their arguments substituted; Pi types have their domain
/// substituted; everything else is left as it is.
pub open spec fn sem_subst_apply(m: Map<usize, SemVal>, v: SemVal) -> SemVal
    decreases v,
{
    match v {
        SemVal::Pi(d, c) => SemVal::Pi(Box::new(sem_subst_apply(m, *d)), c),
        SemVal::Neutral(h, sp) => if m.contains_key(h) {
            sem_subst_fold(m, m[h], sp, v)
        } else {
            SemVal::Neutral(h, sem_subst_spine(m, sp))
        },
        _ => v,
    }
}

/// The value `acc` applied to the substituted arguments in turn, first
/// argument first; a failed application continues from `orig`.
pub open spec fn sem_subst_fold(m: Map<usize, SemVal>, acc: SemVal, args: Seq<SemVal>, orig: SemVal) -> SemVal
    decreases args,
{
    if args.len() == 0 {
        acc
    } else {
        let next = match sem_apply(acc, sem_subst_apply(m, args[0]), FUEL as nat) {
            Ok(r) => r,
            Err(_) => orig,
        };
        sem_subst_fold(m, next, args.drop_first(), orig)
    }
}

/// The substitution applied to each argument of a spine.
pub open spec fn sem_subst_spine(m: Map<usize, SemVal>, args: Seq<SemVal>) -> Seq<SemVal>
    decreases args,
{
    if args.len() == 0 {
        Seq::empty()
    } else {
        sem_subst_spine(m, args.drop_last()).push(sem_subst_apply(m, args.last()))
    }
}

/// The empty metavariable substitution leaves every value as it is.
pub proof fn lemma_empty_subst_apply(v: SemVal)
    ensures
        sem_subst_apply(Map::empty(), v) == v,
    decreases v,
{
    match v {
        SemVal::Pi(d, _) => {
            lemma_empty_subst_apply(*d);
        },
        SemVal::Neutral(_, sp) => {
            lemma_empty_subst_spine(sp);
        },
        _ => {},
    }
}

proof fn lemma_empty_subst_spine(sp: Seq<SemVal>)
    ensures
        sem_subst_spine(Map::empty(), sp) == sp,
    decreases sp,
{
    if sp.len() > 0 {
        lemma_empty_subst_spine(sp.drop_last());
        lemma_empty_subst_apply(sp.last());
        assert(sem_subst_spine(Map::empty(), sp) =~= sp);
    }
}

/// Whether a metavariable occurs as a neutral head in a value (looking
/// into Pi domains and spines, not into closures).
pub open spec fn sem_occurs(id: usize, v: SemVal) -> bool
    decreases v,
{
    match v {
        SemVal::Pi(d, _) => sem_occurs(id, *d),
        SemVal::Neutral(h, sp) => h == id || sem_occurs_any(id, sp),
        _ => false,
    }
}

/// Whether a metavariable occurs in some argument of a spine.
pub open spec fn sem_occurs_any(id: usize, args: Seq<SemVal>) -> bool
    decreases args,
{
    if args.len() == 0 {
        false
    } else {
        sem_occurs_any(id, args.drop_last()) || sem_occurs(id, args.last())
    }
}

/// Whether a value is a neutral value with no argument (a bare
/// metavariable or variable head).
pub open spec fn is_bare_neutral(v: SemVal) -> bool {
    v matches SemVal::Neutral(_, sp) && sp.len() == 0
}

/// Unification of two values under a substitution, after applying the
/// substitution to both: equal variables and equal universes unify, Pi
/// types unify when their domains do, and a bare neutral value is assigned
/// the other side (two bare neutral values: the smaller head is assigned
/// a variable at the larger). The result is the assignment to be recorded,
/// if any.
pub open spec fn sem_unify(m: Map<usize, SemVal>, v1: SemVal, v2: SemVal, fuel: nat) -> Result<Option<(usize, SemVal)>, SemUErr>
    decreases fuel,
{
    if fuel == 0 {
        Err(SemUErr::CannotSolve(SemConstraint::Equal(v1, v2)))
    } else {
        match sem_unify_step(sem_subst_apply(m, v1), sem_subst_apply(m, v2)) {
            SemStep::Done => Ok(None),
            SemStep::Fail(e) => Err(e),
            SemStep::Recurse(x, y) => sem_unify(m, x, y, (fuel - 1) as nat),
            SemStep::Push(id, v) => Ok(Some((id, v))),
        }
    }
}

/// What unification does with two values after substitution.
pub enum SemStep {
    Done,
    Fail(SemUErr),
    Recurse(SemVal, SemVal),
    Push(usize, SemVal),
}

/// The unification step for two substituted values.
pub open spec fn sem_unify_step(a: SemVal, b: SemVal) -> SemStep {
    if a matches SemVal::Var(l1) && b matches SemVal::Var(l2) && l1 == l2 {
        SemStep::Done
    } else if a is Universe && b is Universe {
        let (l1, l2) = (a->Universe_0, b->Universe_0);
        if l1 == l2 { SemStep::Done } else { SemStep::Fail(SemUErr::LevelMismatch(l1, l2)) }
    } else if a is Pi && b is Pi {
        SemStep::Recurse(*a->Pi_0, *b->Pi_0)
    } else if is_bare_neutral(a) && is_bare_neutral(b) {
        let (h1, h2) = (a->Neutral_0, b->Neutral_0);
        if h1 < h2 {
            SemStep::Push(h1, SemVal::Var(h2))
        } else if h2 < h1 {
            SemStep::Push(h2, SemVal::Var(h1))
        } else {
            SemStep::Done
        }
    } else if is_bare_neutral(a) {
        SemStep::Push(a->Neutral_0, b)
    } else if is_bare_neutral(b) {
        SemStep::Push(b->Neutral_0, a)
    } else {
        SemStep::Fail(SemUErr::ConstructorMismatch(a, b))
    }
}

/// One solving step: the effect of solving constraint `c` with the rest
/// of the stack `rest` and substitution `m`.
pub open spec fn sem_step(rest: Seq<SemConstraint>, m: Map<usize, SemVal>, c: SemConstraint) -> (Result<(), SemUErr>, Seq<SemConstraint>, Map<usize, SemVal>) {
    match c {
        SemConstraint::Equal(a, b) => match sem_unify(m, a, b, FUEL as nat) {
            Ok(None) => (Ok(()), rest, m),
            Ok(Some((id, v))) => (Ok(()), rest.push(SemConstraint::Assign(id, v)), m),
            Err(e) => (Err(e), rest, m),
        },
        SemConstraint::Instance(a, b) => (Ok(()), rest.push(SemConstraint::Equal(a, b)), m),
        SemConstraint::Assign(id, v) => if sem_occurs(id, v) {
            (Err(SemUErr::OccursCheck(id, v)), rest, m)
        } else {
            (Ok(()), rest, m.insert(id, v))
        },
    }
}

/// The work left in a constraint: an instance constraint becomes an
/// equation, which becomes at most one assignment.
pub open spec fn constraint_weight(c: SemConstraint) -> nat {
    match c {
        SemConstraint::Instance(_, _) => 3,
        SemConstraint::Equal(_, _) => 2,
        SemConstraint::Assign(_, _) => 1,
    }
}

/// The work left in a stack of constraints.
pub open spec fn stack_weight(cs: Seq<SemConstraint>) -> nat
    decreases cs.len(),
{
    if cs.len() == 0 {
        0
    } else {
        stack_weight(cs.drop_last()) + constraint_weight(cs.last())
    }
}

/// Pushing a constraint adds its weight.
pub proof fn lemma_weight_push(cs: Seq<SemConstraint>, c: SemConstraint)
    ensures
        stack_weight(cs.push(c)) == stack_weight(cs) + constraint_weight(c),
{
    assert(cs.push(c).drop_last() =~= cs);
}

/// A solving step leaves less work than it took.
pub proof fn lemma_step_weight(rest: Seq<SemConstraint>, m: Map<usize, SemVal>, c: SemConstraint)
    ensures
        stack_weight(sem_step(rest, m, c).1) < stack_weight(rest) + constraint_weight(c),
{
    match c {
        SemConstraint::Equal(a, b) => {
            if let Ok(Some((id, v))) = sem_unify(m, a, b, FUEL as nat) {
                lemma_weight_push(rest, SemConstraint::Assign(id, v));
            }
        },
        SemConstraint::Instance(a, b) => {
            lemma_weight_push(rest, SemConstraint::Equal(a, b));
        },
        SemConstraint::Assign(_, _) => {},
    }
}

/// Solving a stack of constraints: steps are taken from the top of the
/// stack until it is empty or a step fails. The result, the remaining
/// stack and the final substitution.
pub open spec fn sem_solve(cs: Seq<SemConstraint>, m: Map<usize, SemVal>) -> (Result<(), SemUErr>, Seq<SemConstraint>, Map<usize, SemVal>)
    decreases stack_weight(cs),
{
    if cs.len() == 0 {
        (Ok(()), cs, m)
    } else {
        let step = sem_step(cs.drop_last(), m, cs.last());
        proof {
            lemma_step_weight(cs.drop_last(), m, cs.last());
        }
        match step.0 {
            Ok(_) => sem_solve(step.1, step.2),
            Err(e) => (Err(e), step.1, step.2),
        }
    }
}

/// Rigid variables unify only with themselves: solving the single
/// equation `Var(a) = Var(b)`, under any metavariable assignments,
/// succeeds exactly when `a == b`, and otherwise fails with a constructor
/// mismatch between the two variables.
pub proof fn lemma_rigid_variables_unify(a: usize, b: usize, m: Map<usize, SemVal>)
    ensures
        sem_solve(seq![SemConstraint::Equal(SemVal::Var(a), SemVal::Var(b))], m).0 is Ok <==> a == b,
        a != b ==> sem_solve(seq![SemConstraint::Equal(SemVal::Var(a), SemVal::Var(b))], m).0
            == Err::<(), SemUErr>(SemUErr::ConstructorMismatch(SemVal::Var(a), SemVal::Var(b))),
{
    let cs = seq![SemConstraint::Equal(SemVal::Var(a), SemVal::Var(b))];
    assert(cs.drop_last() =~= Seq::<SemConstraint>::empty());
    assert(sem_subst_apply(m, SemVal::Var(a)) == SemVal::Var(a));
    assert(sem_subst_apply(m, SemVal::Var(b)) == SemVal::Var(b));
    let step = sem_step(cs.drop_last(), m, cs.last());
    if a == b {
        assert(step.1 =~= Seq::<SemConstraint>::empty());
        assert(sem_solve(step.1, step.2).0 is Ok);
    }
}

/// Universes unify only at the same level: solving `Type_i = Type_j`
/// succeeds exactly when `i == j`, and otherwise fails with a level
/// mismatch; a rigid variable never unifies with a universe.
pub proof fn lemma_universes_unify(i: Level, j: Level, x: usize, m: Map<usize, SemVal>)
    ensures
        sem_solve(seq![SemConstraint::Equal(SemVal::Universe(i), SemVal::Universe(j))], m).0 is Ok <==> i == j,
        i != j ==> sem_solve(seq![SemConstraint::Equal(SemVal::Universe(i), SemVal::Universe(j))], m).0
            == Err::<(), SemUErr>(SemUErr::LevelMismatch(i, j)),
        sem_solve(seq![SemConstraint::Equal(SemVal::Var(x), SemVal::Universe(i))], m).0 is Err,
{
    let cs = seq![SemConstraint::Equal(SemVal::Universe(i), SemVal::Universe(j))];
    assert(cs.drop_last() =~= Seq::<SemConstraint>::empty());
    assert(sem_subst_apply(m, SemVal::Universe(i)) == SemVal::Universe(i));
    assert(sem_subst_apply(m, SemVal::Universe(j)) == SemVal::Universe(j));
    assert(sem_subst_apply(m, SemVal::Var(x)) == SemVal::Var(x));
    let step = sem_step(cs.drop_last(), m, cs.last());
    if i == j {
        assert(step.1 =~= Seq::<SemConstraint>::empty());
        assert(sem_solve(step.1, step.2).0 is Ok);
    }
    let cs2 = seq![SemConstraint::Equal(SemVal::Var(x), SemVal::Universe(i))];
    assert(cs2.drop_last() =~= Seq::<SemConstraint>::empty());
}

/// Substitution of metavariables by values.
#[derive(Clone, Debug)]
pub struct MetaSubstitution {
    assignments: HashMap<usize, Value>,
}

impl View for MetaSubstitution {
    type V = Map<usize, SemVal>;

    closed spec fn view(&self) -> Map<usize, SemVal> {
        self.assignments@.map_values(|v: Value| v@)
    }
}

/// The abstract state of a solver.
pub struct SolverView {
    /// The stack of pending constraints, top last
    pub constraints: Seq<SemConstraint>,
    /// The metavariable assignments
    pub subst: Map<usize, SemVal>,
    /// The next fresh metavariable
    pub next: usize,
}

/// Constraint solver for unification.
#[derive(Debug)]
pub struct ConstraintSolver {
    constraints: Vec<Constraint>,
    substitution: MetaSubstitution,
    next_meta_id: usize,
}

impl View for ConstraintSolver {
    type V = SolverView;

    closed spec fn view(&self) -> SolverView {
        SolverView {
            constraints: constraints_view(self.constraints@),
            subst: self.substitution@,
            next: self.next_meta_id,
        }
    }
}

enum UnifyStep {
    Done,
    Fail(UnificationError),
    Recurse(Value, Value),
    Push(usize, Value),
}

fn unify_step(v1: &Value, v2: &Value) -> (r: UnifyStep)
    ensures
        match sem_unify_step(v1@, v2@) {
            SemStep::Done => r is Done,
            SemStep::Fail(e) => r matches UnifyStep::Fail(x) && x@ == e,
            SemStep::Recurse(x, y) => r matches UnifyStep::Recurse(a, b) && a@ == x && b@ == y,
            SemStep::Push(id, v) => r matches UnifyStep::Push(i, w) && i == id && w@ == v,
        },
{
    if let (Value::Var(l1), Value::Var(l2)) = (v1, v2) {
        if *l1 == *l2 {
            return UnifyStep::Done;
        }
    }
    if let (Value::Universe(a), Value::Universe(b)) = (v1, v2) {
        if a.0 == b.0 {
            return UnifyStep::Done;
        } else {
            return UnifyStep::Fail(UnificationError::LevelMismatch(*a, *b));
        }
    }
    if let (Value::Pi(d1, _), Value::Pi(d2, _)) = (v1, v2) {
        return UnifyStep::Recurse((**d1).copy(), (**d2).copy());
    }
    let head1 = bare_head(v1);
    let head2 = bare_head(v2);
    match (head1, head2) {
        (Some(h1), Some(h2)) => {
            if h1 < h2 {
                UnifyStep::Push(h1, Value::var(h2))
            } else if h2 < h1 {
                UnifyStep::Push(h2, Value::var(h1))
            } else {
                UnifyStep::Done
            }
        },
        (Some(h1), None) => UnifyStep::Push(h1, v2.copy()),
        (None, Some(h2)) => UnifyStep::Push(h2, v1.copy()),
        (None, None) => UnifyStep::Fail(UnificationError::ConstructorMismatch(v1.copy(), v2.copy())),
    }
}

fn bare_head(v: &Value) -> (r: Option<usize>)
    ensures
        r is Some <==> is_bare_neutral(v@),
        r matches Some(h) ==> v@->Neutral_0 == h,
{
    match v {
        Value::Neutral(n) => {
            assert(v@ == SemVal::Neutral(n.head, seq_view(n.spine@)));
            assert(seq_view(n.spine@).len() == n.spine@.len());
            if n.spine.len() == 0 { Some(n.head) } else { None }
        },
        _ => None,
    }
}

impl MetaSubstitution {
    /// Create an empty substitution
    pub fn new() -> (r: Self)
        ensures
            r@ == Map::<usize, SemVal>::empty(),
    {
        let r = MetaSubstitution { assignments: HashMap::new() };
        assert(r@ =~= Map::<usize, SemVal>::empty());
        r
    }

    /// Assign a value to a metavariable (replacing any earlier assignment)
    pub fn assign(&mut self, meta_id: usize, value: Value)
        ensures
            final(self)@ == old(self)@.insert(meta_id, value@),
    {
        let ghost vv = value@;
        self.assignments.insert(meta_id, value);
        assert(self@ =~= old(self)@.insert(meta_id, vv));
    }

    /// Look up the assignment of a metavariable
    pub fn lookup(&self, meta_id: usize) -> (r: Option<&Value>)
        ensures
            r matches Some(v) ==> self@.contains_key(meta_id) && v@ == self@[meta_id],
            r is None ==> !self@.contains_key(meta_id),
    {
        self.assignments.get(&meta_id)
    }

    /// Check if a metavariable is assigned
    pub fn is_assigned(&self, meta_id: usize) -> (r: bool)
        ensures
            r == self@.contains_key(meta_id),
    {
        self.assignments.contains_key(&meta_id)
    }

    /// Apply the substitution to a value
    pub fn apply_to_value(&self, value: &Value) -> (r: Value)
        ensures
            r@ == sem_subst_apply(self@, value@),
        decreases value,
    {
        match value {
            Value::Var(l) => Value::Var(*l),
            Value::Universe(l) => Value::Universe(*l),
            Value::Pi(domain, codomain) => {
                let new_domain = self.apply_to_value(domain);
                Value::pi(new_domain, codomain.copy())
            },
            Value::Lambda(_) => value.copy(),
            Value::Neutral(neutral) => {
                let ghost m = self@;
                let ghost sp = seq_view(neutral.spine@);
                match self.lookup(neutral.head) {
                    Some(assigned) => {
                        let mut result = assigned.copy();
                        let mut i: usize = 0;
                        assert(sp.skip(0) =~= sp);
                        while i < neutral.spine.len()
                            invariant
                                i <= neutral.spine@.len(),
                                m == self@,
                                sp == seq_view(neutral.spine@),
                                *value is Neutral && value->0 == *neutral,
                                m.contains_key(neutral.head),
                                sem_subst_fold(m, m[neutral.head], sp, value@)
                                    == sem_subst_fold(m, result@, sp.skip(i as int), value@),
                            decreases neutral.spine@.len() - i,
                        {
                            proof {
                                assert(decreases_to!(*value => value->0));
                                assert(decreases_to!(value->0 => value->0.spine));
                                assert(decreases_to!(value->0.spine => value->0.spine@));
                                assert(decreases_to!(value->0.spine@ => value->0.spine@[i as int]));
                                assert(sp.skip(i as int)[0] == sp[i as int]);
                                assert(sp.skip(i as int).drop_first() =~= sp.skip(i + 1));
                            }
                            let arg = self.apply_to_value(&neutral.spine[i]);
                            result = match apply_value(result, arg) {
                                Ok(v) => v,
                                Err(_) => value.copy(),
                            };
                            i = i + 1;
                        }
                        assert(sp.skip(sp.len() as int) =~= Seq::<SemVal>::empty());
                        result
                    },
                    None => {
                        let mut new_spine: Vec<Rc<Value>> = Vec::new();
                        let mut i: usize = 0;
                        while i < neutral.spine.len()
                            invariant
                                i <= neutral.spine@.len(),
                                m == self@,
                                sp == seq_view(neutral.spine@),
                                *value is Neutral && value->0 == *neutral,
                                seq_view(new_spine@) == sem_subst_spine(m, sp.subrange(0, i as int)),
                            decreases neutral.spine@.len() - i,
                        {
                            proof {
                                assert(decreases_to!(*value => value->0));
                                assert(decreases_to!(value->0 => value->0.spine));
                                assert(decreases_to!(value->0.spine => value->0.spine@));
                                assert(decreases_to!(value->0.spine@ => value->0.spine@[i as int]));
                            }
                            let arg = self.apply_to_value(&neutral.spine[i]);
                            let ghost before = new_spine@;
                            new_spine.push(Rc::new(arg));
                            proof {
                                assert(sp.subrange(0, i + 1).drop_last() =~= sp.subrange(0, i as int));
                                assert(seq_view(new_spine@) =~= seq_view(before).push(arg@));
                            }
                            i = i + 1;
                        }
                        assert(sp.subrange(0, sp.len() as int) =~= sp);
                        Value::neutral(neutral.head, new_spine)
                    },
                }
            },
        }
    }

    /// All assignments
    pub fn assignments(&self) -> (r: &HashMap<usize, Value>)
        ensures
            r@.map_values(|v: Value| v@) == self@,
    {
        &self.assignments
    }

    /// Check if no metavariable is assigned
    pub fn is_empty(&self) -> (r: bool)
        ensures
            r == (self@.dom() == Set::<usize>::empty()),
    {
        let r = self.assignments.is_empty();
        assert(self@.dom() =~= self.assignments@.dom());
        r
    }

    /// A copy of this substitution
    pub fn copy(&self) -> (r: Self)
        ensures
            r@ == self@,
    {
        MetaSubstitution { assignments: self.assignments.clone() }
    }
}

impl Default for MetaSubstitution {
    fn default() -> (r: Self)
        ensures
            r@ == Map::<usize, SemVal>::empty(),
    {
        MetaSubstitution::new()
    }
}

impl ConstraintSolver {
    /// Create a new solver with no constraint and no assignment
    pub fn new() -> (r: Self)
        ensures
            r@.constraints == Seq::<SemConstraint>::empty(),
            r@.subst == Map::<usize, SemVal>::empty(),
            r@.next == 0,
    {
        let r = ConstraintSolver { constraints: Vec::new(), substitution: MetaSubstitution::new(), next_meta_id: 0 };
        assert(constraints_view(r.constraints@) =~= Seq::<SemConstraint>::empty());
        r
    }

    /// Generate a fresh metavariable
    pub fn fresh_meta(&mut self) -> (r: usize)
        requires
            old(self)@.next < usize::MAX,
        ensures
            r == old(self)@.next,
            final(self)@.next == old(self)@.next + 1,
            final(self)@.constraints == old(self)@.constraints,
            final(self)@.subst == old(self)@.subst,
    {
        let id = self.next_meta_id;
        self.next_meta_id = self.next_meta_id + 1;
        id
    }

    /// Push a constraint on the stack
    pub fn add_constraint(&mut self, constraint: Constraint)
        ensures
            final(self)@.constraints == old(self)@.constraints.push(constraint@),
            final(self)@.subst == old(self)@.subst,
            final(self)@.next == old(self)@.next,
    {
        let ghost cv = constraint@;
        self.constraints.push(constraint);
        assert(constraints_view(self.constraints@) =~= constraints_view(old(self).constraints@).push(cv));
    }

    /// Solve the constraints, from the top of the stack, until none is
    /// left or one fails.
    pub fn solve(&mut self) -> (r: Result<(), UnificationError>)
        ensures
            (ures_view(r), final(self)@.constraints, final(self)@.subst) == sem_solve(old(self)@.constraints, old(self)@.subst),
            final(self)@.next == old(self)@.next,
    {
        while self.constraints.len() > 0
            invariant
                sem_solve(old(self)@.constraints, old(self)@.subst) == sem_solve(self@.constraints, self@.subst),
                self@.next == old(self)@.next,
            decreases stack_weight(self@.constraints),
        {
            let ghost cs = self@.constraints;
            let ghost m = self@.subst;
            let c = self.constraints.pop().unwrap();
            proof {
                assert(self@.constraints =~= cs.drop_last());
                assert(c@ == cs.last());
                lemma_step_weight(cs.drop_last(), m, cs.last());
            }
            let r = self.solve_constraint(c);
            if r.is_err() {
                return r;
            }
        }
        Ok(())
    }

    fn solve_constraint(&mut self, constraint: Constraint) -> (r: Result<(), UnificationError>)
        ensures
            (ures_view(r), final(self)@.constraints, final(self)@.subst) == sem_step(old(self)@.constraints, old(self)@.subst, constraint@),
            final(self)@.next == old(self)@.next,
    {
        match constraint {
            Constraint::Equal(val1, val2) => self.unify(val1, val2, FUEL),
            Constraint::Instance(value, typ) => {
                self.add_constraint(Constraint::Equal(value, typ));
                Ok(())
            },
            Constraint::Assign(meta_id, value) => {
                if self.occurs_check(meta_id, &value) {
                    return Err(UnificationError::OccursCheck(meta_id, value));
                }
                self.substitution.assign(meta_id, value);
                Ok(())
            },
        }
    }

    fn unify(&mut self, val1: Value, val2: Value, fuel: usize) -> (r: Result<(), UnificationError>)
        ensures
            final(self)@.subst == old(self)@.subst,
            final(self)@.next == old(self)@.next,
            match sem_unify(old(self)@.subst, val1@, val2@, fuel as nat) {
                Ok(None) => r is Ok && final(self)@.constraints == old(self)@.constraints,
                Ok(Some((id, v))) => r is Ok && final(self)@.constraints == old(self)@.constraints.push(SemConstraint::Assign(id, v)),
                Err(e) => r matches Err(x) && x@ == e && final(self)@.constraints == old(self)@.constraints,
            },
        decreases fuel,
    {
        if fuel == 0 {
            return Err(UnificationError::CannotSolve(Constraint::Equal(val1, val2)));
        }
        let v1 = self.substitution.apply_to_value(&val1);
        let v2 = self.substitution.apply_to_value(&val2);
        match unify_step(&v1, &v2) {
            UnifyStep::Done => Ok(()),
            UnifyStep::Fail(e) => Err(e),
            UnifyStep::Recurse(a, b) => self.unify(a, b, fuel - 1),
            UnifyStep::Push(id, v) => {
                self.add_constraint(Constraint::Assign(id, v));
                Ok(())
            },
        }
    }

    /// Whether a metavariable occurs as a neutral head in a value (looking
    /// into Pi domains and spines, not into closures)
    pub fn occurs_check(&self, meta_id: usize, value: &Value) -> (r: bool)
        ensures
            r == sem_occurs(meta_id, value@),
        decreases value,
    {
        match value {
            Value::Var(_) | Value::Universe(_) | Value::Lambda(_) => false,
            Value::Pi(domain, _) => self.occurs_check(meta_id, domain),
            Value::Neutral(neutral) => {
                if neutral.head == meta_id {
                    return true;
                }
                let ghost sp = seq_view(neutral.spine@);
                let mut i: usize = 0;
                while i < neutral.spine.len()
                    invariant
                        i <= neutral.spine@.len(),
                        sp == seq_view(neutral.spine@),
                        *value is Neutral && value->0 == *neutral,
                        !sem_occurs_any(meta_id, sp.subrange(0, i as int)),
                    decreases neutral.spine@.len() - i,
                {
                    proof {
                        assert(decreases_to!(*value => value->0));
                        assert(decreases_to!(value->0 => value->0.spine));
                        assert(decreases_to!(value->0.spine => value->0.spine@));
                        assert(decreases_to!(value->0.spine@ => value->0.spine@[i as int]));
                        assert(sp.subrange(0, i + 1).drop_last() =~= sp.subrange(0, i as int));
                    }
                    if self.occurs_check(meta_id, &neutral.spine[i]) {
                        proof {
                            lemma_occurs_any_prefix(meta_id, sp, i as int + 1);
                        }
                        return true;
                    }
                    i = i + 1;
                }
                assert(sp.subrange(0, sp.len() as int) =~= sp);
                false
            },
        }
    }

    /// The current substitution
    pub fn substitution(&self) -> (r: &MetaSubstitution)
        ensures
            r@ == self@.subst,
    {
        &self.substitution
    }

    /// Mutable access to the metavariable assignments; whatever the caller
    /// leaves there is the solver's afterwards
    pub fn substitution_mut(&mut self) -> (r: &mut MetaSubstitution)
        ensures
            r@ == old(self)@.subst,
            final(self)@ == (SolverView { subst: final(r)@, ..old(self)@ }),
    {
        &mut self.substitution
    }

    /// Check if no constraint is pending
    pub fn is_solved(&self) -> (r: bool)
        ensures
            r == (self@.constraints.len() == 0),
    {
        self.constraints.len() == 0
    }

    /// The pending constraints, bottom of the stack first
    pub fn constraints(&self) -> (r: &[Constraint])
        ensures
            constraints_view(r@) == self@.constraints,
    {
        self.constraints.as_slice()
    }
}

proof fn lemma_occurs_any_prefix(id: usize, sp: Seq<SemVal>, k: int)
    requires
        0 < k <= sp.len(),
        sem_occurs_any(id, sp.subrange(0, k)),
    ensures
        sem_occurs_any(id, sp),
    decreases sp.len() - k,
{
    if k < sp.len() {
        assert(sp.subrange(0, k + 1).drop_last() =~= sp.subrange(0, k));
        lemma_occurs_any_prefix(id, sp, k + 1);
    } else {
        assert(sp.subrange(0, k) =~= sp);
    }
}

impl Default for ConstraintSolver {
    fn default() -> (r: Self)
        ensures
            r@.constraints == Seq::<SemConstraint>::empty(),
            r@.subst == Map::<usize, SemVal>::empty(),
            r@.next == 0,
    {
        ConstraintSolver::new()
    }
}

} // verus!
