//! Normalization by evaluation for the calculus with Σ and identity types.
//!
//! Variables are De Bruijn levels; an environment maps levels to values.
//! Evaluation and quotation run under a recursion budget: a computation
//! that would nest deeper than the budget has no result.

use vstd::prelude::*;
use std::sync::Arc;
use crate::term::{Term, TermV, Level};
use crate::shared::arc_clone;

verus! {

/// The recursion budget of evaluation and quotation.
pub const LFUEL: usize = 4294967295usize;

/// Values in weak-head normal form.
#[derive(Debug, PartialEq, Eq)]
pub enum Value {
    /// A stuck computation
    Neutral(Neutral),
    /// A lambda with its environment
    Lambda {
        env: Env,
        body: Arc<Term>,
    },
    /// A Π type: domain and codomain closure
    Pi {
        domain: Arc<Value>,
        closure: Closure,
    },
    /// A Σ type: first component type and closure for the second
    Sigma {
        first: Arc<Value>,
        closure: Closure,
    },
    /// A pair
    Pair {
        first: Arc<Value>,
        second: Arc<Value>,
    },
    /// An identity type
    Id {
        ty: Arc<Value>,
        left: Arc<Value>,
        right: Arc<Value>,
    },
    /// A reflexivity proof
    Refl(Arc<Value>),
    /// A universe
    Universe(Level),
}

/// Stuck computations.
#[derive(Debug, PartialEq, Eq)]
pub enum Neutral {
    /// A variable
    Var(Level),
    /// An application of a stuck function
    App {
        func: Arc<Neutral>,
        arg: Arc<Value>,
    },
    /// A first projection of a stuck pair
    Fst(Arc<Neutral>),
    /// A second projection of a stuck pair
    Snd(Arc<Neutral>),
}

/// A term with the environment it is to be evaluated in.
#[derive(Debug, PartialEq, Eq)]
pub struct Closure {
    env: Env,
    body: Arc<Term>,
}

/// Values of the variables, by De Bruijn level.
#[derive(Debug, PartialEq, Eq, Default)]
pub struct Env {
    values: Vec<Arc<Value>>,
}

/// Abstract values.
pub enum NVal {
    Neutral(NNeu),
    Lambda(Seq<NVal>, TermV),
    Pi(Box<NVal>, Seq<NVal>, TermV),
    Sigma(Box<NVal>, Seq<NVal>, TermV),
    Pair(Box<NVal>, Box<NVal>),
    Id(Box<NVal>, Box<NVal>, Box<NVal>),
    Refl(Box<NVal>),
    Universe(u32),
}

/// Abstract stuck computations.
pub enum NNeu {
    Var(u32),
    App(Box<NNeu>, Box<NVal>),
    Fst(Box<NNeu>),
    Snd(Box<NNeu>),
}

/// The abstract content of a value.
pub closed spec fn nval_view(v: Value) -> NVal
    decreases v,
{
    match v {
        Value::Neutral(n) => NVal::Neutral(nneu_view(n)),
        Value::Lambda { env, body } => NVal::Lambda(nenv_view(env), body@),
        Value::Pi { domain, closure } => NVal::Pi(Box::new(nval_view(*domain)), nenv_view(closure.env), closure.body@),
        Value::Sigma { first, closure } => NVal::Sigma(Box::new(nval_view(*first)), nenv_view(closure.env), closure.body@),
        Value::Pair { first, second } => NVal::Pair(Box::new(nval_view(*first)), Box::new(nval_view(*second))),
        Value::Id { ty, left, right } => NVal::Id(Box::new(nval_view(*ty)), Box::new(nval_view(*left)), Box::new(nval_view(*right))),
        Value::Refl(x) => NVal::Refl(Box::new(nval_view(*x))),
        Value::Universe(l) => NVal::Universe(l),
    }
}

/// The abstract content of a stuck computation.
pub closed spec fn nneu_view(n: Neutral) -> NNeu
    decreases n,
{
    match n {
        Neutral::Var(l) => NNeu::Var(l),
        Neutral::App { func, arg } => NNeu::App(Box::new(nneu_view(*func)), Box::new(nval_view(*arg))),
        Neutral::Fst(x) => NNeu::Fst(Box::new(nneu_view(*x))),
        Neutral::Snd(x) => NNeu::Snd(Box::new(nneu_view(*x))),
    }
}

/// The abstract content of an environment.
pub closed spec fn nenv_view(e: Env) -> Seq<NVal>
    decreases e,
{
    nvals_view(e.values@)
}

/// The abstract contents of a sequence of shared values.
pub closed spec fn nvals_view(s: Seq<Arc<Value>>) -> Seq<NVal>
    decreases s,
{
    Seq::new(s.len(), |i: int| if 0 <= i < s.len() { nval_view(*s[i]) } else { NVal::Universe(0) })
}

impl View for Value {
    type V = NVal;

    open spec fn view(&self) -> NVal {
        nval_view(*self)
    }
}

impl View for Neutral {
    type V = NNeu;

    open spec fn view(&self) -> NNeu {
        nneu_view(*self)
    }
}

impl View for Env {
    type V = Seq<NVal>;

    open spec fn view(&self) -> Seq<NVal> {
        nenv_view(*self)
    }
}

/// Length and elements of the abstract contents of a vector of values.
pub broadcast proof fn lemma_nvals_view(s: Seq<Arc<Value>>)
    ensures
        #[trigger] nvals_view(s).len() == s.len(),
        forall|i: int| 0 <= i < s.len() ==> #[trigger] nvals_view(s)[i] == nval_view(*s[i]),
{
}

proof fn lemma_view_variant(v: &Value)
    ensures
        (v@ is Pair) == (*v is Pair),
        (v@ is Neutral) == (*v is Neutral),
        (v@ is Lambda) == (*v is Lambda),
{
    match *v {
        Value::Neutral(_) => {},
        Value::Lambda { .. } => {},
        Value::Pi { .. } => {},
        Value::Sigma { .. } => {},
        Value::Pair { .. } => {},
        Value::Id { .. } => {},
        Value::Refl(_) => {},
        Value::Universe(_) => {},
    }
}

/// Evaluation of a term in an environment; `None` when the budget runs
/// out.
pub open spec fn sem_leval(env: Seq<NVal>, t: TermV, fuel: nat) -> Option<NVal>
    decreases fuel, 1nat,
{
    if fuel == 0 {
        None
    } else {
        let f = (fuel - 1) as nat;
        match t {
            TermV::Var(l) => if l < env.len() { Some(env[l as int]) } else { Some(NVal::Neutral(NNeu::Var(l))) },
            TermV::Pi(_, d, c) => match sem_leval(env, *d, f) {
                Some(dv) => Some(NVal::Pi(Box::new(dv), env, *c)),
                None => None,
            },
            TermV::Lambda(_, b) => Some(NVal::Lambda(env, *b)),
            TermV::App(fun, a) => match (sem_leval(env, *fun, f), sem_leval(env, *a, f)) {
                (Some(fv), Some(av)) => sem_lapply(fv, av, f),
                _ => None,
            },
            TermV::Sigma(_, a, b) => match sem_leval(env, *a, f) {
                Some(av) => Some(NVal::Sigma(Box::new(av), env, *b)),
                None => None,
            },
            TermV::Pair(a, b) => match (sem_leval(env, *a, f), sem_leval(env, *b, f)) {
                (Some(av), Some(bv)) => Some(NVal::Pair(Box::new(av), Box::new(bv))),
                _ => None,
            },
            TermV::Fst(p) => match sem_leval(env, *p, f) {
                Some(pv) => Some(sem_lfst(pv)),
                None => None,
            },
            TermV::Snd(p) => match sem_leval(env, *p, f) {
                Some(pv) => Some(sem_lsnd(pv)),
                None => None,
            },
            TermV::Id(ty, l, r) => match (sem_leval(env, *ty, f), sem_leval(env, *l, f), sem_leval(env, *r, f)) {
                (Some(tv), Some(lv), Some(rv)) => Some(NVal::Id(Box::new(tv), Box::new(lv), Box::new(rv))),
                _ => None,
            },
            TermV::Refl(x) => match sem_leval(env, *x, f) {
                Some(xv) => Some(NVal::Refl(Box::new(xv))),
                None => None,
            },
            TermV::Universe(l) => Some(NVal::Universe(l)),
        }
    }
}

/// Application: β-reduction for lambdas, a stuck application for neutral
/// values, and a stuck application of variable 0 for anything else.
pub open spec fn sem_lapply(f: NVal, a: NVal, fuel: nat) -> Option<NVal>
    decreases fuel, 2nat,
{
    match f {
        NVal::Lambda(env, body) => sem_leval(env.push(a), body, fuel),
        NVal::Neutral(n) => Some(NVal::Neutral(NNeu::App(Box::new(n), Box::new(a)))),
        _ => Some(NVal::Neutral(NNeu::App(Box::new(NNeu::Var(0)), Box::new(a)))),
    }
}

/// First projection: of a pair its first component, of a neutral value a
/// stuck projection, of anything else a stuck projection of variable 0.
pub open spec fn sem_lfst(v: NVal) -> NVal {
    match v {
        NVal::Pair(a, _) => *a,
        NVal::Neutral(n) => NVal::Neutral(NNeu::Fst(Box::new(n))),
        _ => NVal::Neutral(NNeu::Fst(Box::new(NNeu::Var(0)))),
    }
}

/// Second projection, as `sem_lfst`.
pub open spec fn sem_lsnd(v: NVal) -> NVal {
    match v {
        NVal::Pair(_, b) => *b,
        NVal::Neutral(n) => NVal::Neutral(NNeu::Snd(Box::new(n))),
        _ => NVal::Neutral(NNeu::Snd(Box::new(NNeu::Var(0)))),
    }
}

/// Quotation of a value into a term, with `next` the level of the next
/// fresh variable; the body of a lambda, Π or Σ is evaluated in its
/// captured environment extended by the fresh variable. `None` when the
/// budget runs out or a level overflows.
pub open spec fn sem_lquote(v: NVal, next: u32, fuel: nat) -> Option<TermV>
    decreases fuel, 0nat,
{
    if fuel == 0 {
        None
    } else {
        let f = (fuel - 1) as nat;
        let var = NVal::Neutral(NNeu::Var(next));
        match v {
            NVal::Neutral(n) => sem_lquote_neutral(n, next, f),
            NVal::Lambda(env, body) => if next == u32::MAX {
                None
            } else {
                match sem_leval(env.push(var), body, LFUEL as nat) {
                    Some(bv) => match sem_lquote(bv, (next + 1) as u32, f) {
                        Some(qb) => Some(TermV::Lambda(None, Box::new(qb))),
                        None => None,
                    },
                    None => None,
                }
            },
            NVal::Pi(d, env, c) => match sem_lquote(*d, next, f) {
                None => None,
                Some(qd) => if next == u32::MAX {
                    None
                } else {
                    match sem_leval(env.push(var), c, LFUEL as nat) {
                        Some(cv) => match sem_lquote(cv, (next + 1) as u32, f) {
                            Some(qc) => Some(TermV::Pi(None, Box::new(qd), Box::new(qc))),
                            None => None,
                        },
                        None => None,
                    }
                },
            },
            NVal::Sigma(a, env, b) => match sem_lquote(*a, next, f) {
                None => None,
                Some(qa) => if next == u32::MAX {
                    None
                } else {
                    match sem_leval(env.push(var), b, LFUEL as nat) {
                        Some(bv) => match sem_lquote(bv, (next + 1) as u32, f) {
                            Some(qb) => Some(TermV::Sigma(None, Box::new(qa), Box::new(qb))),
                            None => None,
                        },
                        None => None,
                    }
                },
            },
            NVal::Pair(a, b) => match (sem_lquote(*a, next, f), sem_lquote(*b, next, f)) {
                (Some(qa), Some(qb)) => Some(TermV::Pair(Box::new(qa), Box::new(qb))),
                _ => None,
            },
            NVal::Id(ty, l, r) => match (sem_lquote(*ty, next, f), sem_lquote(*l, next, f), sem_lquote(*r, next, f)) {
                (Some(qt), Some(ql), Some(qr)) => Some(TermV::Id(Box::new(qt), Box::new(ql), Box::new(qr))),
                _ => None,
            },
            NVal::Refl(x) => match sem_lquote(*x, next, f) {
                Some(qx) => Some(TermV::Refl(Box::new(qx))),
                None => None,
            },
            NVal::Universe(l) => Some(TermV::Universe(l)),
        }
    }
}

/// Quotation of a stuck computation.
pub open spec fn sem_lquote_neutral(n: NNeu, next: u32, fuel: nat) -> Option<TermV>
    decreases fuel, 1nat,
{
    match n {
        NNeu::Var(l) => Some(TermV::Var(l)),
        NNeu::App(f, a) => if fuel == 0 {
            None
        } else {
            match (sem_lquote_neutral(*f, next, (fuel - 1) as nat), sem_lquote(*a, next, (fuel - 1) as nat)) {
                (Some(qf), Some(qa)) => Some(TermV::App(Box::new(qf), Box::new(qa))),
                _ => None,
            }
        },
        NNeu::Fst(x) => if fuel == 0 {
            None
        } else {
            match sem_lquote_neutral(*x, next, (fuel - 1) as nat) {
                Some(q) => Some(TermV::Fst(Box::new(q))),
                None => None,
            }
        },
        NNeu::Snd(x) => if fuel == 0 {
            None
        } else {
            match sem_lquote_neutral(*x, next, (fuel - 1) as nat) {
                Some(q) => Some(TermV::Snd(Box::new(q))),
                None => None,
            }
        },
    }
}

/// Normalization of a closed term: evaluation in the empty environment,
/// then quotation.
pub open spec fn sem_lnormalize(t: TermV, next: u32) -> Option<TermV> {
    match sem_leval(Seq::empty(), t, LFUEL as nat) {
        Some(v) => sem_lquote(v, next, LFUEL as nat),
        None => None,
    }
}

impl Env {
    /// Create an empty environment
    pub fn new() -> (r: Self)
        ensures
            r@ == Seq::<NVal>::empty(),
    {
        let r = Env { values: Vec::new() };
        assert(r@ =~= Seq::<NVal>::empty());
        r
    }

    /// Add a value; its level is the number of values before (as a 32-bit
    /// number)
    pub fn extend(&mut self, value: Arc<Value>) -> (r: Level)
        ensures
            r == old(self)@.len() as u32,
            final(self)@ == old(self)@.push(value@),
    {
        broadcast use lemma_nvals_view;
        let level = self.values.len() as Level;
        let ghost vv = value@;
        self.values.push(value);
        assert(self@ =~= old(self)@.push(vv));
        level
    }

    /// The value at a level
    pub fn get(&self, level: Level) -> (r: Option<&Arc<Value>>)
        ensures
            r matches Some(v) ==> level < self@.len() && v@ == self@[level as int],
            r is None ==> level >= self@.len(),
    {
        broadcast use lemma_nvals_view;
        if (level as usize) < self.values.len() {
            Some(&self.values[level as usize])
        } else {
            None
        }
    }

    /// A copy of this environment (sharing the values)
    pub fn copy(&self) -> (r: Self)
        ensures
            r@ == self@,
    {
        broadcast use lemma_nvals_view;
        let mut out: Vec<Arc<Value>> = Vec::new();
        let mut i: usize = 0;
        while i < self.values.len()
            invariant
                i <= self.values@.len(),
                out@ == self.values@.subrange(0, i as int),
            decreases self.values@.len() - i,
        {
            out.push(arc_clone(&self.values[i]));
            i = i + 1;
        }
        let r = Env { values: out };
        assert(r@ =~= self@);
        r
    }
}

impl Closure {
    /// The environment.
    pub closed spec fn spec_env(&self) -> Seq<NVal> {
        self.env@
    }

    /// The body.
    pub closed spec fn spec_body(&self) -> TermV {
        self.body@
    }

    /// Create a closure
    pub fn new(env: Env, body: Arc<Term>) -> (r: Self)
        ensures
            r.spec_env() == env@,
            r.spec_body() == body@,
    {
        Closure { env, body }
    }

    /// Evaluate the body in the environment extended with `arg`
    pub fn apply(&self, arg: Arc<Value>) -> (r: Arc<Value>)
        requires
            sem_leval(self.spec_env().push(arg@), self.spec_body(), LFUEL as nat) is Some,
        ensures
            sem_leval(self.spec_env().push(arg@), self.spec_body(), LFUEL as nat) == Some(r@),
    {
        let mut env = self.env.copy();
        env.extend(arg);
        eval(&env, &self.body, LFUEL)
    }

    fn copy(&self) -> (r: Self)
        ensures
            r.env@ == self.env@,
            r.body@ == self.body@,
    {
        Closure { env: self.env.copy(), body: arc_clone(&self.body) }
    }
}

fn eval(env: &Env, term: &Arc<Term>, fuel: usize) -> (r: Arc<Value>)
    requires
        sem_leval(env@, term@, fuel as nat) is Some,
    ensures
        sem_leval(env@, term@, fuel as nat) == Some(r@),
    decreases fuel, 1nat,
{
    proof {
        reveal_with_fuel(nval_view, 3);
        reveal_with_fuel(nneu_view, 3);
    }
    let f = fuel - 1;
    match &**term {
        Term::Var(level) => match env.get(*level) {
            Some(v) => arc_clone(v),
            None => Arc::new(Value::Neutral(Neutral::Var(*level))),
        },
        Term::Pi { domain, codomain, .. } => {
            let domain_val = eval(env, domain, f);
            let closure = Closure::new(env.copy(), arc_clone(codomain));
            Arc::new(Value::Pi { domain: domain_val, closure })
        },
        Term::Lambda { body, .. } => Arc::new(Value::Lambda { env: env.copy(), body: arc_clone(body) }),
        Term::App { func, arg } => {
            let func_val = eval(env, func, f);
            let arg_val = eval(env, arg, f);
            apply(func_val, arg_val, f)
        },
        Term::Sigma { first, second, .. } => {
            let first_val = eval(env, first, f);
            let closure = Closure::new(env.copy(), arc_clone(second));
            Arc::new(Value::Sigma { first: first_val, closure })
        },
        Term::Pair { first, second } => {
            let a = eval(env, first, f);
            let b = eval(env, second, f);
            Arc::new(Value::Pair { first: a, second: b })
        },
        Term::Fst(pair) => fst(eval(env, pair, f)),
        Term::Snd(pair) => snd(eval(env, pair, f)),
        Term::Id { ty, left, right } => {
            let t = eval(env, ty, f);
            let l = eval(env, left, f);
            let r = eval(env, right, f);
            Arc::new(Value::Id { ty: t, left: l, right: r })
        },
        Term::Refl(value) => Arc::new(Value::Refl(eval(env, value, f))),
        Term::Universe(level) => Arc::new(Value::Universe(*level)),
    }
}

fn copy_neutral(n: &Neutral) -> (r: Neutral)
    ensures
        r@ == n@,
{
    match n {
        Neutral::Var(l) => Neutral::Var(*l),
        Neutral::App { func, arg } => Neutral::App { func: arc_clone(func), arg: arc_clone(arg) },
        Neutral::Fst(x) => Neutral::Fst(arc_clone(x)),
        Neutral::Snd(x) => Neutral::Snd(arc_clone(x)),
    }
}

fn apply(func: Arc<Value>, arg: Arc<Value>, fuel: usize) -> (r: Arc<Value>)
    requires
        sem_lapply(func@, arg@, fuel as nat) is Some,
    ensures
        sem_lapply(func@, arg@, fuel as nat) == Some(r@),
    decreases fuel, 2nat,
{
    proof {
        reveal_with_fuel(nval_view, 3);
        reveal_with_fuel(nneu_view, 3);
    }
    match &*func {
        Value::Lambda { env, body } => {
            let mut new_env = env.copy();
            new_env.extend(arg);
            eval(&new_env, body, fuel)
        },
        Value::Neutral(neutral) => Arc::new(Value::Neutral(Neutral::App { func: Arc::new(copy_neutral(neutral)), arg })),
        _ => {
            proof { lemma_view_variant(&*func); }
            Arc::new(Value::Neutral(Neutral::App { func: Arc::new(Neutral::Var(0)), arg }))
        },
    }
}

fn fst(pair: Arc<Value>) -> (r: Arc<Value>)
    ensures
        r@ == sem_lfst(pair@),
{
    proof {
        reveal_with_fuel(nval_view, 3);
        reveal_with_fuel(nneu_view, 3);
    }
    match &*pair {
        Value::Pair { first, .. } => {
            let r = arc_clone(first);
            assert(r@ == sem_lfst(pair@));
            r
        },
        Value::Neutral(neutral) => {
            let c = copy_neutral(neutral);
            assert(c@ == neutral@);
            assert(pair@ == NVal::Neutral(neutral@));
            let res = Arc::new(Value::Neutral(Neutral::Fst(Arc::new(c))));
            assert(res@ == NVal::Neutral(NNeu::Fst(Box::new(neutral@))));
            assert(res@ == sem_lfst(pair@));
            res
        },
        _ => {
            proof { lemma_view_variant(&*pair); }
            let res = Arc::new(Value::Neutral(Neutral::Fst(Arc::new(Neutral::Var(0)))));
            assert(!(pair@ is Pair));
            assert(!(pair@ is Neutral));
            assert(res@ == NVal::Neutral(NNeu::Fst(Box::new(NNeu::Var(0)))));
            assert(res@ == sem_lfst(pair@));
            res
        },
    }
}

fn snd(pair: Arc<Value>) -> (r: Arc<Value>)
    ensures
        r@ == sem_lsnd(pair@),
{
    proof {
        reveal_with_fuel(nval_view, 3);
        reveal_with_fuel(nneu_view, 3);
    }
    match &*pair {
        Value::Pair { second, .. } => arc_clone(second),
        Value::Neutral(neutral) => Arc::new(Value::Neutral(Neutral::Snd(Arc::new(copy_neutral(neutral))))),
        _ => {
            proof { lemma_view_variant(&*pair); }
            Arc::new(Value::Neutral(Neutral::Snd(Arc::new(Neutral::Var(0)))))
        },
    }
}

/// Normalizer, with the level of the next fresh variable.
pub struct Normalizer {
    next_level: Level,
}

impl Normalizer {
    /// The level of the next fresh variable.
    pub closed spec fn spec_next(&self) -> u32 {
        self.next_level
    }

    /// Create a normalizer starting at level 0
    pub fn new() -> (r: Self)
        ensures
            r.spec_next() == 0,
    {
        Normalizer { next_level: 0 }
    }

    /// Normalize a closed term
    pub fn normalize(&mut self, term: &Arc<Term>) -> (r: Arc<Term>)
        requires
            sem_lnormalize(term@, old(self).spec_next()) is Some,
        ensures
            sem_lnormalize(term@, old(self).spec_next()) == Some(r@),
            final(self).spec_next() == old(self).spec_next(),
    {
        let env = Env::new();
        let value = eval(&env, term, LFUEL);
        self.quote(&value, LFUEL)
    }

    /// Whether two closed terms have the same normal form
    pub fn alpha_equiv(&mut self, term1: &Arc<Term>, term2: &Arc<Term>) -> (r: bool)
        requires
            sem_lnormalize(term1@, old(self).spec_next()) is Some,
            sem_lnormalize(term2@, old(self).spec_next()) is Some,
        ensures
            r == spec_alpha_equiv(term1@, term2@, old(self).spec_next()),
            final(self).spec_next() == old(self).spec_next(),
    {
        let norm1 = self.normalize(term1);
        let norm2 = self.normalize(term2);
        norm1.equals(&norm2)
    }

    fn quote(&mut self, value: &Arc<Value>, fuel: usize) -> (r: Arc<Term>)
        requires
            sem_lquote(value@, old(self).next_level, fuel as nat) is Some,
        ensures
            sem_lquote(value@, old(self).next_level, fuel as nat) == Some(r@),
            final(self).next_level == old(self).next_level,
        decreases fuel, 0nat,
    {
        proof {
            reveal_with_fuel(nval_view, 3);
            reveal_with_fuel(nneu_view, 3);
        }
        let f = fuel - 1;
        match &**value {
            Value::Neutral(neutral) => self.quote_neutral(neutral, f),
            Value::Lambda { env, body } => {
                let var = Arc::new(Value::Neutral(Neutral::Var(self.next_level)));
                self.next_level = self.next_level + 1;
                let closure = Closure::new(env.copy(), arc_clone(body));
                let body_value = closure.apply(var);
                let quoted_body = self.quote(&body_value, f);
                self.next_level = self.next_level - 1;
                Term::lambda(None, quoted_body)
            },
            Value::Pi { domain, closure } => {
                let quoted_domain = self.quote(domain, f);
                let var = Arc::new(Value::Neutral(Neutral::Var(self.next_level)));
                self.next_level = self.next_level + 1;
                let codomain_value = closure.apply(var);
                let quoted_codomain = self.quote(&codomain_value, f);
                self.next_level = self.next_level - 1;
                Term::pi(None, quoted_domain, quoted_codomain)
            },
            Value::Sigma { first, closure } => {
                let quoted_first = self.quote(first, f);
                let var = Arc::new(Value::Neutral(Neutral::Var(self.next_level)));
                self.next_level = self.next_level + 1;
                let second_value = closure.apply(var);
                let quoted_second = self.quote(&second_value, f);
                self.next_level = self.next_level - 1;
                Term::sigma(None, quoted_first, quoted_second)
            },
            Value::Pair { first, second } => {
                let a = self.quote(first, f);
                let b = self.quote(second, f);
                Term::pair(a, b)
            },
            Value::Id { ty, left, right } => {
                let t = self.quote(ty, f);
                let l = self.quote(left, f);
                let r = self.quote(right, f);
                Term::id(t, l, r)
            },
            Value::Refl(v) => Term::refl(self.quote(v, f)),
            Value::Universe(level) => Term::universe(*level),
        }
    }

    fn quote_neutral(&mut self, neutral: &Neutral, fuel: usize) -> (r: Arc<Term>)
        requires
            sem_lquote_neutral(neutral@, old(self).next_level, fuel as nat) is Some,
        ensures
            sem_lquote_neutral(neutral@, old(self).next_level, fuel as nat) == Some(r@),
            final(self).next_level == old(self).next_level,
        decreases fuel, 1nat,
    {
        match neutral {
            Neutral::Var(level) => Term::var(*level),
            Neutral::App { func, arg } => {
                let f = self.quote_neutral(func, fuel - 1);
                let a = self.quote(arg, fuel - 1);
                Term::app(f, a)
            },
            Neutral::Fst(n) => Term::fst(self.quote_neutral(n, fuel - 1)),
            Neutral::Snd(n) => Term::snd(self.quote_neutral(n, fuel - 1)),
        }
    }
}

impl Default for Normalizer {
    fn default() -> (r: Self)
        ensures
            r.spec_next() == 0,
    {
        Normalizer::new()
    }
}

/// Whether two terms are alpha-equivalent: their normal forms are the same
/// term.
pub open spec fn spec_alpha_equiv(t1: TermV, t2: TermV, next: u32) -> bool {
    sem_lnormalize(t1, next) == sem_lnormalize(t2, next)
}

/// Alpha-equivalence is reflexive, symmetric and transitive.
pub proof fn lemma_alpha_equiv_equivalence(t1: TermV, t2: TermV, t3: TermV, next: u32)
    ensures
        spec_alpha_equiv(t1, t1, next),
        spec_alpha_equiv(t1, t2, next) ==> spec_alpha_equiv(t2, t1, next),
        spec_alpha_equiv(t1, t2, next) && spec_alpha_equiv(t2, t3, next) ==> spec_alpha_equiv(t1, t3, next),
{
}

/// Whether a term has no binders (no Π, λ or Σ).
pub open spec fn binder_free(t: TermV) -> bool
    decreases t,
{
    match t {
        TermV::Var(_) => true,
        TermV::Pi(_, _, _) => false,
        TermV::Lambda(_, _) => false,
        TermV::Sigma(_, _, _) => false,
        TermV::App(f, a) => binder_free(*f) && binder_free(*a),
        TermV::Pair(a, b) => binder_free(*a) && binder_free(*b),
        TermV::Fst(p) => binder_free(*p),
        TermV::Snd(p) => binder_free(*p),
        TermV::Id(ty, l, r) => binder_free(*ty) && binder_free(*l) && binder_free(*r),
        TermV::Refl(x) => binder_free(*x),
        TermV::Universe(_) => true,
    }
}

/// Whether a value holds no closure (no λ, Π or Σ value).
pub open spec fn closure_free(v: NVal) -> bool
    decreases v,
{
    match v {
        NVal::Neutral(n) => neutral_closure_free(n),
        NVal::Lambda(_, _) => false,
        NVal::Pi(_, _, _) => false,
        NVal::Sigma(_, _, _) => false,
        NVal::Pair(a, b) => closure_free(*a) && closure_free(*b),
        NVal::Id(ty, l, r) => closure_free(*ty) && closure_free(*l) && closure_free(*r),
        NVal::Refl(x) => closure_free(*x),
        NVal::Universe(_) => true,
    }
}

/// Whether a stuck computation holds no closure.
pub open spec fn neutral_closure_free(n: NNeu) -> bool
    decreases n,
{
    match n {
        NNeu::Var(_) => true,
        NNeu::App(f, a) => neutral_closure_free(*f) && closure_free(*a),
        NNeu::Fst(x) => neutral_closure_free(*x),
        NNeu::Snd(x) => neutral_closure_free(*x),
    }
}

/// A binder-free term evaluates, in the empty environment, to a value
/// without closures.
proof fn lemma_eval_binder_free(t: TermV, fuel: nat)
    requires
        binder_free(t),
        sem_leval(Seq::empty(), t, fuel) is Some,
    ensures
        closure_free(sem_leval(Seq::empty(), t, fuel).unwrap()),
    decreases t,
{
    reveal_with_fuel(closure_free, 4);
    let f = (fuel - 1) as nat;
    let r = sem_leval(Seq::empty(), t, fuel).unwrap();
    match t {
        TermV::App(fun, a) => {
            lemma_eval_binder_free(*fun, f);
            lemma_eval_binder_free(*a, f);
            let fv = sem_leval(Seq::empty(), *fun, f).unwrap();
            let av = sem_leval(Seq::empty(), *a, f).unwrap();
            assert(Some(r) == sem_lapply(fv, av, f));
            match fv {
                NVal::Neutral(m) => {
                    assert(closure_free(NVal::Neutral(NNeu::App(Box::new(m), Box::new(av)))));
                },
                NVal::Lambda(_, _) => {},
                _ => {
                    assert(closure_free(NVal::Neutral(NNeu::App(Box::new(NNeu::Var(0)), Box::new(av)))));
                },
            }
        },
        TermV::Pair(a, b) => {
            lemma_eval_binder_free(*a, f);
            lemma_eval_binder_free(*b, f);
        },
        TermV::Fst(p) => {
            lemma_eval_binder_free(*p, f);
        },
        TermV::Snd(p) => {
            lemma_eval_binder_free(*p, f);
        },
        TermV::Id(ty, l, r0) => {
            lemma_eval_binder_free(*ty, f);
            lemma_eval_binder_free(*l, f);
            lemma_eval_binder_free(*r0, f);
        },
        TermV::Refl(x) => {
            lemma_eval_binder_free(*x, f);
        },
        _ => {},
    }
}

/// Quoting a value without closures gives a binder-free term that
/// evaluates back to the value, with at least the fuel that quoting had.
proof fn lemma_quote_closure_free(v: NVal, next: u32, fuel: nat, fuel2: nat)
    requires
        closure_free(v),
        sem_lquote(v, next, fuel) is Some,
        fuel2 >= fuel,
    ensures
        binder_free(sem_lquote(v, next, fuel).unwrap()),
        sem_leval(Seq::empty(), sem_lquote(v, next, fuel).unwrap(), fuel2) == Some(v),
    decreases v,
{
    let f = (fuel - 1) as nat;
    let f2 = (fuel2 - 1) as nat;
    match v {
        NVal::Neutral(n) => {
            lemma_quote_neutral_closure_free(n, next, f, fuel2);
        },
        NVal::Pair(a, b) => {
            lemma_quote_closure_free(*a, next, f, f2);
            lemma_quote_closure_free(*b, next, f, f2);
        },
        NVal::Id(ty, l, r) => {
            lemma_quote_closure_free(*ty, next, f, f2);
            lemma_quote_closure_free(*l, next, f, f2);
            lemma_quote_closure_free(*r, next, f, f2);
        },
        NVal::Refl(x) => {
            lemma_quote_closure_free(*x, next, f, f2);
        },
        _ => {},
    }
}

/// Quoting a stuck computation without closures gives a binder-free term
/// that evaluates back to it, with fuel beyond what quoting had.
proof fn lemma_quote_neutral_closure_free(n: NNeu, next: u32, fuel: nat, fuel2: nat)
    requires
        neutral_closure_free(n),
        sem_lquote_neutral(n, next, fuel) is Some,
        fuel2 > fuel,
    ensures
        binder_free(sem_lquote_neutral(n, next, fuel).unwrap()),
        sem_leval(Seq::empty(), sem_lquote_neutral(n, next, fuel).unwrap(), fuel2) == Some(NVal::Neutral(n)),
    decreases n,
{
    let f = (fuel - 1) as nat;
    let f2 = (fuel2 - 1) as nat;
    match n {
        NNeu::App(fun, a) => {
            lemma_quote_neutral_closure_free(*fun, next, f, f2);
            lemma_quote_closure_free(*a, next, f, f2);
            let qf = sem_lquote_neutral(*fun, next, f).unwrap();
            let qa = sem_lquote(*a, next, f).unwrap();
            assert(sem_lapply(NVal::Neutral(*fun), *a, f2) == Some(NVal::Neutral(NNeu::App(fun, a))));
            assert(sem_leval(Seq::empty(), TermV::App(Box::new(qf), Box::new(qa)), fuel2) == Some(NVal::Neutral(n)));
        },
        NNeu::Fst(x) => {
            lemma_quote_neutral_closure_free(*x, next, f, f2);
        },
        NNeu::Snd(x) => {
            lemma_quote_neutral_closure_free(*x, next, f, f2);
        },
        NNeu::Var(_) => {},
    }
}

/// Normalization is idempotent on binder-free terms: normalizing a normal
/// form gives it back.
pub proof fn lemma_normalize_idempotent(t: TermV, next: u32)
    requires
        binder_free(t),
        sem_lnormalize(t, next) is Some,
    ensures
        sem_lnormalize(sem_lnormalize(t, next).unwrap(), next) == sem_lnormalize(t, next),
{
    let v = sem_leval(Seq::empty(), t, LFUEL as nat).unwrap();
    lemma_eval_binder_free(t, LFUEL as nat);
    lemma_quote_closure_free(v, next, LFUEL as nat, LFUEL as nat);
}

/// The nesting depth of a term: a leaf counts one.
pub open spec fn ldepth(t: TermV) -> nat
    decreases t,
{
    match t {
        TermV::Var(_) | TermV::Universe(_) => 1,
        TermV::Lambda(_, b) => 1 + ldepth(*b),
        TermV::Fst(p) => 1 + ldepth(*p),
        TermV::Snd(p) => 1 + ldepth(*p),
        TermV::Refl(x) => 1 + ldepth(*x),
        TermV::Pi(_, d, c) => 1 + max2(ldepth(*d), ldepth(*c)),
        TermV::Sigma(_, a, b) => 1 + max2(ldepth(*a), ldepth(*b)),
        TermV::App(f, a) => 1 + max2(ldepth(*f), ldepth(*a)),
        TermV::Pair(a, b) => 1 + max2(ldepth(*a), ldepth(*b)),
        TermV::Id(ty, l, r) => 1 + max2(ldepth(*ty), max2(ldepth(*l), ldepth(*r))),
    }
}

/// The larger of two numbers.
pub open spec fn max2(a: nat, b: nat) -> nat {
    if a >= b { a } else { b }
}

/// A stuck term: a variable, or a stuck term applied to a normal term or
/// projected.
pub open spec fn is_lneutral(t: TermV) -> bool
    decreases t, 0nat,
{
    match t {
        TermV::Var(_) => true,
        TermV::App(f, a) => is_lneutral(*f) && is_lnormal(*a),
        TermV::Fst(p) => is_lneutral(*p),
        TermV::Snd(p) => is_lneutral(*p),
        _ => false,
    }
}

/// A term in the form quotation gives: unnamed binders over normal terms,
/// pairs, identity types and reflexivity proofs of normal terms, universes,
/// and stuck terms.
pub open spec fn is_lnormal(t: TermV) -> bool
    decreases t, 1nat,
{
    match t {
        TermV::Lambda(n, b) => n is None && is_lnormal(*b),
        TermV::Pi(n, d, c) => n is None && is_lnormal(*d) && is_lnormal(*c),
        TermV::Sigma(n, a, b) => n is None && is_lnormal(*a) && is_lnormal(*b),
        TermV::Pair(a, b) => is_lnormal(*a) && is_lnormal(*b),
        TermV::Id(ty, l, r) => is_lnormal(*ty) && is_lnormal(*l) && is_lnormal(*r),
        TermV::Refl(x) => is_lnormal(*x),
        TermV::Universe(_) => true,
        _ => is_lneutral(t),
    }
}

/// The environment that binds the first `k` levels to themselves.
pub open spec fn var_lenv(k: nat) -> Seq<NVal> {
    Seq::new(k, |i: int| NVal::Neutral(NNeu::Var(i as u32)))
}

/// Quotation gives a stuck term from a stuck computation.
proof fn lemma_lquote_neutral_form(n: NNeu, next: u32, fuel: nat)
    ensures
        sem_lquote_neutral(n, next, fuel) matches Some(t) ==> is_lneutral(t),
    decreases fuel, 1nat,
{
    if fuel > 0 {
        let f = (fuel - 1) as nat;
        match n {
            NNeu::App(g, a) => {
                lemma_lquote_neutral_form(*g, next, f);
                lemma_lquote_normal_form(*a, next, f);
            },
            NNeu::Fst(x) => { lemma_lquote_neutral_form(*x, next, f); },
            NNeu::Snd(x) => { lemma_lquote_neutral_form(*x, next, f); },
            NNeu::Var(_) => {},
        }
    }
}

/// Quotation gives a term in normal form.
proof fn lemma_lquote_normal_form(v: NVal, next: u32, fuel: nat)
    ensures
        sem_lquote(v, next, fuel) matches Some(t) ==> is_lnormal(t),
    decreases fuel, 0nat,
{
    if fuel > 0 {
        let f = (fuel - 1) as nat;
        let var = NVal::Neutral(NNeu::Var(next));
        match v {
            NVal::Neutral(n) => { lemma_lquote_neutral_form(n, next, f); },
            NVal::Lambda(env, body) => {
                if next < u32::MAX {
                    if let Some(bv) = sem_leval(env.push(var), body, LFUEL as nat) {
                        lemma_lquote_normal_form(bv, (next + 1) as u32, f);
                    }
                }
            },
            NVal::Pi(d, env, c) => {
                lemma_lquote_normal_form(*d, next, f);
                if next < u32::MAX {
                    if let Some(cv) = sem_leval(env.push(var), c, LFUEL as nat) {
                        lemma_lquote_normal_form(cv, (next + 1) as u32, f);
                    }
                }
            },
            NVal::Sigma(a, env, b) => {
                lemma_lquote_normal_form(*a, next, f);
                if next < u32::MAX {
                    if let Some(bv) = sem_leval(env.push(var), b, LFUEL as nat) {
                        lemma_lquote_normal_form(bv, (next + 1) as u32, f);
                    }
                }
            },
            NVal::Pair(a, b) => {
                lemma_lquote_normal_form(*a, next, f);
                lemma_lquote_normal_form(*b, next, f);
            },
            NVal::Id(ty, l, r) => {
                lemma_lquote_normal_form(*ty, next, f);
                lemma_lquote_normal_form(*l, next, f);
                lemma_lquote_normal_form(*r, next, f);
            },
            NVal::Refl(x) => { lemma_lquote_normal_form(*x, next, f); },
            NVal::Universe(_) => {},
        }
    }
}

/// A stuck term evaluates, where each of the first `k` levels stands for
/// itself, to a stuck computation that quotes back to the term.
proof fn lemma_leval_neutral(t: TermV, k: nat, fuel: nat, g: nat)
    requires
        is_lneutral(t),
        fuel >= ldepth(t),
        g + 1 >= 2 * ldepth(t),
        ldepth(t) <= LFUEL,
        k + ldepth(t) <= u32::MAX,
    ensures
        sem_leval(var_lenv(k), t, fuel) matches Some(NVal::Neutral(m))
            && sem_lquote_neutral(m, k as u32, g) == Some(t),
    decreases t, 0nat,
{
    let f = (fuel - 1) as nat;
    match t {
        TermV::Var(l) => {
            if (l as nat) < k {
                assert(var_lenv(k)[l as int] == NVal::Neutral(NNeu::Var(l)));
            }
            assert(sem_leval(var_lenv(k), t, fuel) == Some(NVal::Neutral(NNeu::Var(l))));
        },
        TermV::App(h, a) => {
            lemma_leval_neutral(*h, k, f, (g - 1) as nat);
            lemma_leval_normal(*a, k, f, (g - 1) as nat);
            let mh = sem_leval(var_lenv(k), *h, f).unwrap()->Neutral_0;
            let av = sem_leval(var_lenv(k), *a, f).unwrap();
            let m = NNeu::App(Box::new(mh), Box::new(av));
            assert(sem_leval(var_lenv(k), *h, f) == Some(NVal::Neutral(mh)));
            assert(sem_lapply(NVal::Neutral(mh), av, f) == Some(NVal::Neutral(m)));
            assert(sem_leval(var_lenv(k), t, fuel) == sem_lapply(NVal::Neutral(mh), av, f));
            assert(sem_leval(var_lenv(k), t, fuel) == Some(NVal::Neutral(m)));
            assert(sem_lquote_neutral(m, k as u32, g) == Some(t));
        },
        TermV::Fst(p) => {
            lemma_leval_neutral(*p, k, f, (g - 1) as nat);
            let mp = sem_leval(var_lenv(k), *p, f).unwrap()->Neutral_0;
            let m = NNeu::Fst(Box::new(mp));
            assert(sem_leval(var_lenv(k), t, fuel) == Some(NVal::Neutral(m)));
            assert(sem_lquote_neutral(m, k as u32, g) == Some(t));
        },
        TermV::Snd(p) => {
            lemma_leval_neutral(*p, k, f, (g - 1) as nat);
            let mp = sem_leval(var_lenv(k), *p, f).unwrap()->Neutral_0;
            let m = NNeu::Snd(Box::new(mp));
            assert(sem_leval(var_lenv(k), t, fuel) == Some(NVal::Neutral(m)));
            assert(sem_lquote_neutral(m, k as u32, g) == Some(t));
        },
        _ => {},
    }
}

/// A term in normal form evaluates, where each of the first `k` levels
/// stands for itself, to a value that quotes back to the term.
proof fn lemma_leval_normal(t: TermV, k: nat, fuel: nat, g: nat)
    requires
        is_lnormal(t),
        fuel >= ldepth(t),
        g >= 2 * ldepth(t),
        ldepth(t) <= LFUEL,
        k + ldepth(t) <= u32::MAX,
    ensures
        sem_leval(var_lenv(k), t, fuel) matches Some(v) && sem_lquote(v, k as u32, g) == Some(t),
    decreases t, 1nat,
{
    let f = (fuel - 1) as nat;
    let gf = (g - 1) as nat;
    let var = NVal::Neutral(NNeu::Var(k as u32));
    match t {
        TermV::Lambda(_, b) => {
            assert(var_lenv(k).push(var) =~= var_lenv(k + 1));
            lemma_leval_normal(*b, k + 1, LFUEL as nat, gf);
        },
        TermV::Pi(_, d, c) => {
            lemma_leval_normal(*d, k, f, gf);
            assert(var_lenv(k).push(var) =~= var_lenv(k + 1));
            lemma_leval_normal(*c, k + 1, LFUEL as nat, gf);
        },
        TermV::Sigma(_, a, b) => {
            lemma_leval_normal(*a, k, f, gf);
            assert(var_lenv(k).push(var) =~= var_lenv(k + 1));
            lemma_leval_normal(*b, k + 1, LFUEL as nat, gf);
        },
        TermV::Pair(a, b) => {
            lemma_leval_normal(*a, k, f, gf);
            lemma_leval_normal(*b, k, f, gf);
        },
        TermV::Id(ty, l, r) => {
            lemma_leval_normal(*ty, k, f, gf);
            lemma_leval_normal(*l, k, f, gf);
            lemma_leval_normal(*r, k, f, gf);
        },
        TermV::Refl(x) => {
            lemma_leval_normal(*x, k, f, gf);
        },
        TermV::Universe(_) => {},
        _ => {
            lemma_leval_neutral(t, k, fuel, gf);
        },
    }
}

/// Normalization from level 0 is idempotent: normalizing its result gives
/// that result back, when the result is at most half as deep as the
/// evaluation budget.
pub proof fn lemma_normalize_idempotent_from_zero(t: TermV)
    requires
        sem_lnormalize(t, 0) is Some,
        2 * ldepth(sem_lnormalize(t, 0).unwrap()) <= LFUEL,
    ensures
        sem_lnormalize(sem_lnormalize(t, 0).unwrap(), 0) == sem_lnormalize(t, 0),
{
    let v = sem_leval(Seq::empty(), t, LFUEL as nat).unwrap();
    let n = sem_lnormalize(t, 0).unwrap();
    lemma_lquote_normal_form(v, 0, LFUEL as nat);
    assert(var_lenv(0) =~= Seq::<NVal>::empty());
    lemma_leval_normal(n, 0, LFUEL as nat, LFUEL as nat);
}

} // verus!
