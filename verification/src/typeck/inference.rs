//! Metavariable generation, inference contexts, skolems and constraint
//! generation.

use vstd::prelude::*;
use std::rc::Rc;
use crate::kernel::{Term, Value};
use crate::kernel::value::{SemVal, seq_view};
use super::context::{Context, CtxEntries};
use super::constraints::{Constraint, ConstraintSolver, SemConstraint, SolverView, constraints_view};
use super::checker::{spec_infer, fresh_solver, meta_count};
use super::{CheckResult, TypeChecker};

verus! {

broadcast use crate::kernel::value::lemma_seq_view;

/// Generator of fresh metavariable identifiers, counting up from zero.
#[derive(Debug)]
pub struct MetavarGenerator {
    next_id: usize,
}

impl MetavarGenerator {
    /// The next identifier to be handed out.
    pub closed spec fn spec_next(&self) -> usize {
        self.next_id
    }

    /// Create a generator starting at zero
    pub fn new() -> (r: Self)
        ensures
            r.spec_next() == 0,
    {
        MetavarGenerator { next_id: 0 }
    }

    /// Hand out the next identifier
    pub fn fresh(&mut self) -> (r: usize)
        requires
            old(self).spec_next() < usize::MAX,
        ensures
            r == old(self).spec_next(),
            final(self).spec_next() == old(self).spec_next() + 1,
    {
        let id = self.next_id;
        self.next_id = self.next_id + 1;
        id
    }

    /// Start again from zero
    pub fn reset(&mut self)
        ensures
            final(self).spec_next() == 0,
    {
        self.next_id = 0;
    }

    /// The next identifier to be handed out
    pub fn current_id(&self) -> (r: usize)
        ensures
            r == self.spec_next(),
    {
        self.next_id
    }
}

impl Default for MetavarGenerator {
    fn default() -> (r: Self)
        ensures
            r.spec_next() == 0,
    {
        MetavarGenerator::new()
    }
}

/// A metavariable term for a given identifier.
pub fn meta_term(id: usize) -> (r: Term)
    ensures
        r == Term::Meta(id),
{
    Term::meta(id)
}

/// A metavariable type (a neutral value with no argument) for a given
/// identifier.
pub fn meta_type(id: usize) -> (r: Value)
    ensures
        r@ == SemVal::Neutral(id, Seq::empty()),
{
    let spine: Vec<Rc<Value>> = Vec::new();
    assert(seq_view(spine@) =~= Seq::<SemVal>::empty());
    Value::neutral(id, spine)
}

/// Inference context: a typing context, the types of the metavariables
/// introduced so far, and a solver shared between copies.
#[derive(Debug, Clone)]
pub struct InferenceContext {
    base_context: Context,
    metavar_types: Vec<Value>,
    solver: Rc<ConstraintSolver>,
}

impl InferenceContext {
    /// The typing context's bindings.
    pub closed spec fn spec_context(&self) -> CtxEntries {
        self.base_context@
    }

    /// The metavariables' types, by identifier.
    pub closed spec fn spec_metavars(&self) -> Seq<SemVal> {
        seq_view_values(self.metavar_types@)
    }

    /// The shared solver's state.
    pub closed spec fn spec_solver(&self) -> SolverView {
        self.solver@
    }

    /// Create an inference context over a typing context
    pub fn new(base_context: Context) -> (r: Self)
        ensures
            r.spec_context() == base_context@,
            r.spec_metavars() == Seq::<SemVal>::empty(),
            r.spec_solver() == fresh_solver(),
    {
        let metavar_types: Vec<Value> = Vec::new();
        assert(seq_view_values(metavar_types@) =~= Seq::<SemVal>::empty());
        let solver = ConstraintSolver::new();
        assert(solver@ == fresh_solver());
        InferenceContext { base_context, metavar_types, solver: Rc::new(solver) }
    }

    /// Extend the typing context with a binding, sharing the solver
    pub fn extend(&self, name: String, typ: Value) -> (r: Self)
        ensures
            r.spec_context() == self.spec_context().push((name@, typ@)),
            r.spec_metavars() == self.spec_metavars(),
            r.spec_solver() == self.spec_solver(),
    {
        InferenceContext {
            base_context: self.base_context.extend(name, typ),
            metavar_types: copy_values(&self.metavar_types),
            solver: crate::shared::rc_clone(&self.solver),
        }
    }

    /// Introduce a metavariable of the given type; its identifier is the
    /// number introduced before
    pub fn add_metavar(&mut self, typ: Value) -> (r: usize)
        ensures
            r == old(self).spec_metavars().len(),
            final(self).spec_metavars() == old(self).spec_metavars().push(typ@),
            final(self).spec_context() == old(self).spec_context(),
            final(self).spec_solver() == old(self).spec_solver(),
    {
        let id = self.metavar_types.len();
        let ghost tv = typ@;
        self.metavar_types.push(typ);
        assert(seq_view_values(self.metavar_types@) =~= seq_view_values(old(self).metavar_types@).push(tv));
        id
    }

    /// The type of a metavariable, if introduced
    pub fn metavar_type(&self, id: usize) -> (r: Option<&Value>)
        ensures
            r matches Some(v) ==> id < self.spec_metavars().len() && v@ == self.spec_metavars()[id as int],
            r is None ==> id >= self.spec_metavars().len(),
    {
        if id < self.metavar_types.len() {
            Some(&self.metavar_types[id])
        } else {
            None
        }
    }

    /// The typing context
    pub fn context(&self) -> (r: &Context)
        ensures
            r@ == self.spec_context(),
    {
        &self.base_context
    }

    /// The shared solver
    pub fn solver(&self) -> (r: Rc<ConstraintSolver>)
        ensures
            r@ == self.spec_solver(),
    {
        crate::shared::rc_clone(&self.solver)
    }

    /// A copy of the typing context
    pub fn to_context(&self) -> (r: Context)
        ensures
            r@ == self.spec_context(),
    {
        self.base_context.copy()
    }
}

/// The abstract contents of a vector of values.
pub open spec fn seq_view_values(s: Seq<Value>) -> Seq<SemVal> {
    Seq::new(s.len(), |i: int| s[i]@)
}

fn copy_values(v: &Vec<Value>) -> (r: Vec<Value>)
    ensures
        seq_view_values(r@) == seq_view_values(v@),
{
    let mut out: Vec<Value> = Vec::new();
    let mut i: usize = 0;
    while i < v.len()
        invariant
            i <= v@.len(),
            out@.len() == i,
            forall|j: int| 0 <= j < i ==> (#[trigger] out@[j])@ == v@[j]@,
        decreases v@.len() - i,
    {
        out.push(v[i].copy());
        i = i + 1;
    }
    assert(seq_view_values(out@) =~= seq_view_values(v@));
    out
}

/// Inference of implicit arguments.
#[derive(Debug)]
pub struct ImplicitInference {
    context: InferenceContext,
}

impl ImplicitInference {
    /// The inference context.
    pub closed spec fn spec_inference_context(&self) -> InferenceContext {
        self.context
    }

    /// Create an implicit-argument inferencer over a typing context
    pub fn new(context: Context) -> (r: Self)
        ensures
            r.spec_inference_context().spec_context() == context@,
            r.spec_inference_context().spec_metavars() == Seq::<SemVal>::empty(),
    {
        ImplicitInference { context: InferenceContext::new(context) }
    }

    /// Infer the implicit arguments of a function type: there is no
    /// implicit-argument syntax, so none are inserted and the type is
    /// returned as it is.
    pub fn infer_implicit_args(&mut self, function_type: &Value, explicit_args: &[Term]) -> (r: CheckResult<(Vec<Term>, Value)>)
        ensures
            r matches Ok(p) && p.0@.len() == 0 && p.1@ == function_type@,
            final(self).spec_inference_context() == old(self).spec_inference_context(),
    {
        let implicit_args: Vec<Term> = Vec::new();
        Ok((implicit_args, function_type.copy()))
    }

    /// Infer the type of a term with a fresh type checker
    pub fn infer_with_holes(&mut self, term: &Term) -> (r: CheckResult<(Term, Value)>)
        requires
            meta_count(*term) <= usize::MAX,
        ensures
            match r {
                Ok(p) => p.0 == *term && Ok::<SemVal, super::SemCheckErr>(p.1@) == spec_infer(*term, old(self).spec_inference_context().spec_context(), fresh_solver()).0,
                Err(e) => Err::<SemVal, super::SemCheckErr>(e@) == spec_infer(*term, old(self).spec_inference_context().spec_context(), fresh_solver()).0,
            },
            final(self).spec_inference_context() == old(self).spec_inference_context(),
    {
        let mut checker = TypeChecker::new();
        match checker.infer(term, self.context.context()) {
            Ok(typ) => Ok((term.copy(), typ)),
            Err(e) => Err(e),
        }
    }

    /// The inference context
    pub fn context(&self) -> (r: &InferenceContext)
        ensures
            *r == self.spec_inference_context(),
    {
        &self.context
    }

    /// Extend the typing context with a binding
    pub fn extend(&mut self, name: String, typ: Value)
        ensures
            final(self).spec_inference_context().spec_context() == old(self).spec_inference_context().spec_context().push((name@, typ@)),
            final(self).spec_inference_context().spec_metavars() == old(self).spec_inference_context().spec_metavars(),
    {
        self.context = self.context.extend(name, typ);
    }
}

/// Whether a value mentions a skolem, that is a variable level below
/// `max_level` (looking into Pi domains and spines, not closures).
pub open spec fn sem_contains_skolem(v: SemVal, max_level: usize) -> bool
    decreases v,
{
    match v {
        SemVal::Var(l) => l < max_level,
        SemVal::Pi(d, _) => sem_contains_skolem(*d, max_level),
        SemVal::Neutral(h, sp) => h < max_level || sem_any_skolem(sp, max_level),
        _ => false,
    }
}

/// Whether some argument of a spine mentions a skolem.
pub open spec fn sem_any_skolem(sp: Seq<SemVal>, max_level: usize) -> bool
    decreases sp,
{
    if sp.len() == 0 {
        false
    } else {
        sem_any_skolem(sp.drop_last(), max_level) || sem_contains_skolem(sp.last(), max_level)
    }
}

proof fn lemma_any_skolem_prefix(sp: Seq<SemVal>, max_level: usize, k: int)
    requires
        0 < k <= sp.len(),
        sem_any_skolem(sp.subrange(0, k), max_level),
    ensures
        sem_any_skolem(sp, max_level),
    decreases sp.len() - k,
{
    if k < sp.len() {
        assert(sp.subrange(0, k + 1).drop_last() =~= sp.subrange(0, k));
        lemma_any_skolem_prefix(sp, max_level, k + 1);
    } else {
        assert(sp.subrange(0, k) =~= sp);
    }
}

/// Skolem constants for polymorphic inference: each introduced skolem is a
/// variable at the next level.
#[derive(Debug)]
pub struct PolymorphicInference {
    skolems: Vec<(String, Value)>,
}

impl PolymorphicInference {
    /// The skolems introduced, in order, with their names and types.
    pub closed spec fn spec_skolems(&self) -> Seq<(Seq<char>, SemVal)> {
        Seq::new(self.skolems@.len(), |i: int| (self.skolems@[i].0@, self.skolems@[i].1@))
    }

    /// Create an inferencer with no skolem
    pub fn new() -> (r: Self)
        ensures
            r.spec_skolems() == Seq::<(Seq<char>, SemVal)>::empty(),
    {
        let r = PolymorphicInference { skolems: Vec::new() };
        assert(r.spec_skolems() =~= Seq::<(Seq<char>, SemVal)>::empty());
        r
    }

    /// Introduce a skolem; it is the variable at the number of skolems
    /// introduced before
    pub fn introduce_skolem(&mut self, name: String, typ: Value) -> (r: Value)
        ensures
            r@ == SemVal::Var(old(self).spec_skolems().len() as usize),
            final(self).spec_skolems() == old(self).spec_skolems().push((name@, typ@)),
    {
        let level = self.skolems.len();
        let ghost entry = (name@, typ@);
        self.skolems.push((name, typ));
        assert(self.spec_skolems() =~= old(self).spec_skolems().push(entry));
        Value::var(level)
    }

    /// Whether a type mentions one of the skolems
    pub fn escapes_scope(&self, typ: &Value) -> (r: bool)
        ensures
            r == sem_contains_skolem(typ@, self.spec_skolems().len() as usize),
    {
        contains_skolem(typ, self.skolems.len())
    }

    /// The skolems introduced, in order
    pub fn skolems(&self) -> (r: &[(String, Value)])
        ensures
            Seq::new(r@.len(), |i: int| (r@[i].0@, r@[i].1@)) == self.spec_skolems(),
    {
        self.skolems.as_slice()
    }

    /// Forget all skolems
    pub fn clear(&mut self)
        ensures
            final(self).spec_skolems() == Seq::<(Seq<char>, SemVal)>::empty(),
    {
        self.skolems.clear();
        assert(self.spec_skolems() =~= Seq::<(Seq<char>, SemVal)>::empty());
    }
}

impl Default for PolymorphicInference {
    fn default() -> (r: Self)
        ensures
            r.spec_skolems() == Seq::<(Seq<char>, SemVal)>::empty(),
    {
        PolymorphicInference::new()
    }
}

fn contains_skolem(value: &Value, max_level: usize) -> (r: bool)
    ensures
        r == sem_contains_skolem(value@, max_level),
    decreases value,
{
    match value {
        Value::Var(level) => *level < max_level,
        Value::Universe(_) | Value::Lambda(_) => false,
        Value::Pi(domain, _) => contains_skolem(domain, max_level),
        Value::Neutral(neutral) => {
            if neutral.head < max_level {
                return true;
            }
            let ghost sp = seq_view(neutral.spine@);
            let mut i: usize = 0;
            while i < neutral.spine.len()
                invariant
                    i <= neutral.spine@.len(),
                    sp == seq_view(neutral.spine@),
                    *value is Neutral && value->0 == *neutral,
                    !sem_any_skolem(sp.subrange(0, i as int), max_level),
                decreases neutral.spine@.len() - i,
            {
                proof {
                    assert(decreases_to!(*value => value->0));
                    assert(decreases_to!(value->0 => value->0.spine));
                    assert(decreases_to!(value->0.spine => value->0.spine@));
                    assert(decreases_to!(value->0.spine@ => value->0.spine@[i as int]));
                    assert(sp.subrange(0, i + 1).drop_last() =~= sp.subrange(0, i as int));
                }
                if contains_skolem(&neutral.spine[i], max_level) {
                    proof {
                        lemma_any_skolem_prefix(sp, max_level, i as int + 1);
                    }
                    return true;
                }
                i = i + 1;
            }
            assert(sp.subrange(0, sp.len() as int) =~= sp);
            false
        },
    }
}

/// Collector of constraints.
pub struct ConstraintGenerator {
    constraints: Vec<Constraint>,
}

impl ConstraintGenerator {
    /// The constraints collected, in order.
    pub closed spec fn spec_constraints(&self) -> Seq<SemConstraint> {
        constraints_view(self.constraints@)
    }

    /// Create a generator with no constraint
    pub fn new() -> (r: Self)
        ensures
            r.spec_constraints() == Seq::<SemConstraint>::empty(),
    {
        let r = ConstraintGenerator { constraints: Vec::new() };
        assert(r.spec_constraints() =~= Seq::<SemConstraint>::empty());
        r
    }

    /// Collect an equation
    pub fn equal(&mut self, val1: Value, val2: Value)
        ensures
            final(self).spec_constraints() == old(self).spec_constraints().push(SemConstraint::Equal(val1@, val2@)),
    {
        self.push(Constraint::Equal(val1, val2));
    }

    /// Collect an instance constraint
    pub fn instance(&mut self, value: Value, typ: Value)
        ensures
            final(self).spec_constraints() == old(self).spec_constraints().push(SemConstraint::Instance(value@, typ@)),
    {
        self.push(Constraint::Instance(value, typ));
    }

    /// Collect an assignment
    pub fn assign(&mut self, meta_id: usize, value: Value)
        ensures
            final(self).spec_constraints() == old(self).spec_constraints().push(SemConstraint::Assign(meta_id, value@)),
    {
        self.push(Constraint::Assign(meta_id, value));
    }

    fn push(&mut self, c: Constraint)
        ensures
            final(self).spec_constraints() == old(self).spec_constraints().push(c@),
    {
        let ghost cv = c@;
        self.constraints.push(c);
        assert(self.spec_constraints() =~= old(self).spec_constraints().push(cv));
    }

    /// The constraints collected, in order
    pub fn constraints(&self) -> (r: &[Constraint])
        ensures
            constraints_view(r@) == self.spec_constraints(),
    {
        self.constraints.as_slice()
    }

    /// Hand out the constraints collected, leaving none
    pub fn take_constraints(&mut self) -> (r: Vec<Constraint>)
        ensures
            constraints_view(r@) == old(self).spec_constraints(),
            final(self).spec_constraints() == Seq::<SemConstraint>::empty(),
    {
        let mut out: Vec<Constraint> = Vec::new();
        std::mem::swap(&mut out, &mut self.constraints);
        assert(self.spec_constraints() =~= Seq::<SemConstraint>::empty());
        out
    }

    /// Forget the constraints collected
    pub fn clear(&mut self)
        ensures
            final(self).spec_constraints() == Seq::<SemConstraint>::empty(),
    {
        self.constraints.clear();
        assert(self.spec_constraints() =~= Seq::<SemConstraint>::empty());
    }
}

impl Default for ConstraintGenerator {
    fn default() -> (r: Self)
        ensures
            r.spec_constraints() == Seq::<SemConstraint>::empty(),
    {
        ConstraintGenerator::new()
    }
}

} // verus!
