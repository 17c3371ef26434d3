//! Semantic domain for normalization by evaluation.

use vstd::prelude::*;
use std::rc::Rc;
use crate::kernel::term::{Term, Level};
use crate::shared::rc_clone;

verus! {

/// Semantic values: terms in weak-head normal form, with closures for
/// the bodies of binders.
#[derive(Clone, Debug, PartialEq)]
pub enum Value {
    /// Variable that could not be reduced further (a De Bruijn level)
    Var(usize),
    /// Universe value at given level
    Universe(Level),
    /// Dependent function type value: evaluated domain, codomain closure
    Pi(Rc<Value>, Closure),
    /// Lambda function value
    Lambda(Closure),
    /// A head variable applied to a spine of arguments
    Neutral(Neutral),
}

/// A term paired with the environment it is to be evaluated in.
#[derive(Clone, Debug, PartialEq)]
pub struct Closure {
    /// Environment mapping De Bruijn indices to values
    pub env: Environment,
    /// Term to be evaluated in the environment
    pub term: Rc<Term>,
}

/// Environment for variable lookup: the values of the enclosing binders,
/// outermost first.
#[derive(Clone, Debug, PartialEq, Default)]
pub struct Environment {
    values: Vec<Rc<Value>>,
}

/// A head variable (De Bruijn level) applied to a spine of arguments.
#[derive(Clone, Debug, PartialEq)]
pub struct Neutral {
    /// The head variable (De Bruijn level)
    pub head: usize,
    /// Spine of applications, first argument first
    pub spine: Vec<Rc<Value>>,
}

/// Abstract semantic value: the mathematical content of a `Value`, with
/// environments and spines as sequences.
pub enum SemVal {
    Var(usize),
    Universe(Level),
    Pi(Box<SemVal>, SemClo),
    Lambda(SemClo),
    Neutral(usize, Seq<SemVal>),
}

/// Abstract closure: an environment (outermost binder first) and a term.
pub struct SemClo {
    pub env: Seq<SemVal>,
    pub term: Term,
}

/// The abstract content of a value.
pub open spec fn value_view(v: Value) -> SemVal
    decreases v,
{
    match v {
        Value::Var(l) => SemVal::Var(l),
        Value::Universe(l) => SemVal::Universe(l),
        Value::Pi(d, c) => SemVal::Pi(Box::new(value_view(*d)), SemClo { env: env_view(c.env), term: *c.term }),
        Value::Lambda(c) => SemVal::Lambda(SemClo { env: env_view(c.env), term: *c.term }),
        Value::Neutral(n) => SemVal::Neutral(n.head, seq_view(n.spine@)),
    }
}

/// The abstract contents of a sequence of shared values.
pub open spec fn seq_view(s: Seq<Rc<Value>>) -> Seq<SemVal>
    decreases s,
{
    Seq::new(s.len(), |i: int| if 0 <= i < s.len() { value_view(*s[i]) } else { SemVal::Var(0) })
}

/// The abstract contents of an environment, outermost binder first.
pub closed spec fn env_view(e: Environment) -> Seq<SemVal>
    decreases e,
{
    seq_view(e.values@)
}

impl View for Value {
    type V = SemVal;

    open spec fn view(&self) -> SemVal {
        value_view(*self)
    }
}

impl View for Closure {
    type V = SemClo;

    open spec fn view(&self) -> SemClo {
        SemClo { env: env_view(self.env), term: *self.term }
    }
}

impl View for Environment {
    type V = Seq<SemVal>;

    open spec fn view(&self) -> Seq<SemVal> {
        env_view(*self)
    }
}

impl View for Neutral {
    type V = (usize, Seq<SemVal>);

    open spec fn view(&self) -> (usize, Seq<SemVal>) {
        (self.head, seq_view(self.spine@))
    }
}

/// A copy of a vector of shared values, sharing the values.
pub fn copy_rc_vec(v: &Vec<Rc<Value>>) -> (r: Vec<Rc<Value>>)
    ensures
        r@ == v@,
{
    let mut out: Vec<Rc<Value>> = Vec::new();
    let mut i: usize = 0;
    while i < v.len()
        invariant
            i <= v.len(),
            out@ == v@.subrange(0, i as int),
        decreases v.len() - i,
    {
        out.push(rc_clone(&v[i]));
        i = i + 1;
    }
    out
}

/// The value that De Bruijn index `index` refers to in an environment
/// (outermost binder first), if in range.
pub open spec fn seq_lookup(env: Seq<SemVal>, index: int) -> Option<SemVal> {
    if 0 <= index < env.len() {
        Some(env[env.len() - 1 - index])
    } else {
        None
    }
}

/// Length and elements of the abstract contents of a vector of values.
pub broadcast proof fn lemma_seq_view(s: Seq<Rc<Value>>)
    ensures
        #[trigger] seq_view(s).len() == s.len(),
        forall|i: int| 0 <= i < s.len() ==> #[trigger] seq_view(s)[i] == value_view(*s[i]),
{
}

/// Extending an environment puts the new value at index 0, moves every
/// earlier value up by one and grows the environment by one.
pub proof fn lemma_extend_lookup(env: Seq<SemVal>, v: SemVal, i: int)
    requires
        0 <= i,
    ensures
        env.push(v).len() == env.len() + 1,
        seq_lookup(env.push(v), 0) == Some(v),
        seq_lookup(env.push(v), i + 1) == seq_lookup(env, i),
{
    let e = env.push(v);
    if i < env.len() {
        assert(e[e.len() - 1 - (i + 1)] == env[env.len() - 1 - i]);
    }
}

proof fn lemma_seq_view_push(s: Seq<Rc<Value>>, v: Rc<Value>)
    ensures
        seq_view(s.push(v)) == seq_view(s).push(value_view(*v)),
{
    assert(seq_view(s.push(v)) =~= seq_view(s).push(value_view(*v)));
}

impl Environment {
    /// Create a new empty environment
    pub fn new() -> (r: Self)
        ensures
            r@ == Seq::<SemVal>::empty(),
    {
        let r = Environment { values: Vec::new() };
        assert(r@ =~= Seq::<SemVal>::empty()) by {
            reveal(env_view);
        }
        r
    }

    /// Get the length of the environment
    pub fn len(&self) -> (r: usize)
        ensures
            r == self@.len(),
    {
        proof {
            reveal(env_view);
        }
        self.values.len()
    }

    /// Check if environment is empty
    pub fn is_empty(&self) -> (r: bool)
        ensures
            r == (self@.len() == 0),
    {
        proof {
            reveal(env_view);
        }
        self.values.len() == 0
    }

    /// Extend environment with a new value, which becomes index 0.
    pub fn extend(&self, value: Value) -> (r: Self)
        ensures
            r@ == self@.push(value@),
    {
        let mut new_values = copy_rc_vec(&self.values);
        let ghost old_values = new_values@;
        new_values.push(Rc::new(value));
        let r = Environment { values: new_values };
        proof {
            reveal(env_view);
            lemma_seq_view_push(old_values, Rc::new(value));
        }
        r
    }

    /// Lookup a value by De Bruijn index (0 is the most recent binding).
    pub fn lookup(&self, index: usize) -> (r: Option<&Value>)
        ensures
            r matches Some(v) ==> seq_lookup(self@, index as int) == Some(v@),
            r is None ==> seq_lookup(self@, index as int) is None,
    {
        proof {
            reveal(env_view);
        }
        if index < self.values.len() {
            let level = self.values.len() - 1 - index;
            Some(&*self.values[level])
        } else {
            None
        }
    }

    /// Convert De Bruijn index to level
    pub fn index_to_level(&self, index: usize) -> (r: Option<usize>)
        ensures
            r == if index < self@.len() { Some((self@.len() - 1 - index) as usize) } else { None },
    {
        proof {
            reveal(env_view);
        }
        if index < self.values.len() {
            Some(self.values.len() - 1 - index)
        } else {
            None
        }
    }

    /// Get all values as a slice
    pub fn values(&self) -> (r: &[Rc<Value>])
        ensures
            seq_view(r@) == self@,
    {
        proof {
            reveal(env_view);
        }
        self.values.as_slice()
    }

    /// A copy of this environment sharing its values
    pub fn copy(&self) -> (r: Environment)
        ensures
            r@ == self@,
    {
        proof {
            reveal(env_view);
        }
        Environment { values: copy_rc_vec(&self.values) }
    }
}

impl Value {
    /// Create a variable value at given level
    pub fn var(level: usize) -> (r: Self)
        ensures
            r == Value::Var(level),
            r@ == SemVal::Var(level),
    {
        Value::Var(level)
    }

    /// Create a universe value
    pub fn universe(level: Level) -> (r: Self)
        ensures
            r == Value::Universe(level),
            r@ == SemVal::Universe(level),
    {
        Value::Universe(level)
    }

    /// Create a Pi type value
    pub fn pi(domain: Value, codomain: Closure) -> (r: Self)
        ensures
            r@ == SemVal::Pi(Box::new(domain@), codomain@),
    {
        Value::Pi(Rc::new(domain), codomain)
    }

    /// Create a lambda value
    pub fn lambda(closure: Closure) -> (r: Self)
        ensures
            r@ == SemVal::Lambda(closure@),
    {
        Value::Lambda(closure)
    }

    /// Create a neutral value
    pub fn neutral(head: usize, spine: Vec<Rc<Value>>) -> (r: Self)
        ensures
            r@ == SemVal::Neutral(head, seq_view(spine@)),
    {
        Value::Neutral(Neutral { head, spine })
    }

    /// Check if value is in weak-head normal form (every value is)
    pub fn is_whnf(&self) -> (r: bool)
        ensures
            r,
    {
        match self {
            Value::Var(_) | Value::Universe(_) | Value::Pi(_, _) | Value::Lambda(_) => true,
            Value::Neutral(_) => true,
        }
    }

    /// Check if value is a universe
    pub fn is_universe(&self) -> (r: bool)
        ensures
            r == (*self is Universe),
    {
        matches!(self, Value::Universe(_))
    }

    /// Check if value is a Pi type
    pub fn is_pi(&self) -> (r: bool)
        ensures
            r == (*self is Pi),
    {
        matches!(self, Value::Pi(_, _))
    }

    /// Check if value is a lambda
    pub fn is_lambda(&self) -> (r: bool)
        ensures
            r == (*self is Lambda),
    {
        matches!(self, Value::Lambda(_))
    }

    /// Extract universe level if this is a universe
    pub fn as_universe(&self) -> (r: Option<&Level>)
        ensures
            r == match *self {
                Value::Universe(l) => Some(&l),
                _ => None,
            },
    {
        match self {
            Value::Universe(level) => Some(level),
            _ => None,
        }
    }

    /// Extract Pi type components if this is a Pi type
    pub fn as_pi(&self) -> (r: Option<(&Value, &Closure)>)
        ensures
            match *self {
                Value::Pi(d, c) => r matches Some(p) && *p.0 == *d && *p.1 == c,
                _ => r is None,
            },
    {
        match self {
            Value::Pi(domain, codomain) => Some((&**domain, codomain)),
            _ => None,
        }
    }

    /// Extract lambda closure if this is a lambda
    pub fn as_lambda(&self) -> (r: Option<&Closure>)
        ensures
            match *self {
                Value::Lambda(c) => r matches Some(p) && *p == c,
                _ => r is None,
            },
    {
        match self {
            Value::Lambda(closure) => Some(closure),
            _ => None,
        }
    }

    /// A copy of this value sharing its parts
    pub fn copy(&self) -> (r: Value)
        ensures
            r@ == self@,
    {
        match self {
            Value::Var(l) => Value::Var(*l),
            Value::Universe(l) => Value::Universe(*l),
            Value::Pi(d, c) => Value::Pi(rc_clone(d), c.copy()),
            Value::Lambda(c) => Value::Lambda(c.copy()),
            Value::Neutral(n) => Value::Neutral(n.copy()),
        }
    }
}

impl Closure {
    /// Create a new closure
    pub fn new(env: Environment, term: Term) -> (r: Self)
        ensures
            r@ == (SemClo { env: env@, term: term }),
    {
        Closure { env, term: Rc::new(term) }
    }

    /// Create a closure with empty environment
    pub fn empty(term: Term) -> (r: Self)
        ensures
            r@ == (SemClo { env: Seq::empty(), term: term }),
    {
        Closure { env: Environment::new(), term: Rc::new(term) }
    }

    /// Extend closure environment with a new value
    pub fn extend(&self, value: Value) -> (r: Self)
        ensures
            r@ == (SemClo { env: self@.env.push(value@), term: self@.term }),
    {
        Closure { env: self.env.extend(value), term: rc_clone(&self.term) }
    }

    /// A copy of this closure sharing its parts
    pub fn copy(&self) -> (r: Closure)
        ensures
            r@ == self@,
    {
        Closure { env: self.env.copy(), term: rc_clone(&self.term) }
    }
}

impl Neutral {
    /// Create a new neutral term with no arguments
    pub fn new(head: usize) -> (r: Self)
        ensures
            r.head == head,
            r.spine@.len() == 0,
            r@ == (head, Seq::<SemVal>::empty()),
    {
        let r = Neutral { head, spine: Vec::new() };
        assert(seq_view(r.spine@) =~= Seq::<SemVal>::empty());
        r
    }

    /// Apply an argument to the neutral term
    pub fn apply(&self, arg: Value) -> (r: Self)
        ensures
            r.head == self.head,
            r.spine@.len() == self.spine@.len() + 1,
            r@ == (self.head, self@.1.push(arg@)),
    {
        let mut new_spine = copy_rc_vec(&self.spine);
        let ghost old_spine = new_spine@;
        new_spine.push(Rc::new(arg));
        proof {
            lemma_seq_view_push(old_spine, Rc::new(arg));
        }
        Neutral { head: self.head, spine: new_spine }
    }

    /// Get the number of arguments applied
    pub fn arity(&self) -> (r: usize)
        ensures
            r == self.spine@.len(),
            r == self@.1.len(),
    {
        self.spine.len()
    }

    /// Check if neutral has no arguments
    pub fn is_variable(&self) -> (r: bool)
        ensures
            r == (self.spine@.len() == 0),
    {
        self.spine.len() == 0
    }

    /// A copy of this neutral sharing its arguments
    pub fn copy(&self) -> (r: Neutral)
        ensures
            r@ == self@,
            r.head == self.head,
            r.spine@ == self.spine@,
    {
        Neutral { head: self.head, spine: copy_rc_vec(&self.spine) }
    }
}

} // verus!
