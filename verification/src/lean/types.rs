//! Lean terms, universe levels and names.

use vstd::prelude::*;
use crate::kernel::show::{decimal, decimal_string};

verus! {

/// Lean terms with named variables.
#[derive(Debug, PartialEq, Eq, Hash)]
pub enum LeanTerm {
    /// Variable reference
    Var(LeanName),
    /// Universe sort
    Sort(LeanLevel),
    /// Constant reference
    Const(LeanName),
    /// Application
    App(Box<LeanTerm>, Box<LeanTerm>),
    /// Lambda abstraction with binder name and type
    Lambda(LeanName, Box<LeanTerm>, Box<LeanTerm>),
    /// Dependent function type with binder name
    Pi(LeanName, Box<LeanTerm>, Box<LeanTerm>),
    /// Let binding with name, type, value and body
    Let(LeanName, Box<LeanTerm>, Box<LeanTerm>, Box<LeanTerm>),
}

/// Lean universe levels.
#[derive(Debug, PartialEq, Eq, Hash)]
pub enum LeanLevel {
    /// Level zero
    Zero,
    /// Successor level
    Succ(Box<LeanLevel>),
    /// Maximum of two levels
    Max(Box<LeanLevel>, Box<LeanLevel>),
    /// Impredicative maximum
    IMax(Box<LeanLevel>, Box<LeanLevel>),
    /// Level parameter
    Param(LeanName),
}

/// Lean names.
#[derive(Debug, Clone, PartialEq, Eq, Hash)]
pub enum LeanName {
    /// A textual name
    String(String),
    /// A numbered symbol
    Symbol(usize),
    /// A numbered variable
    Idx(usize),
}

/// Abstract names.
pub enum SemName {
    Str(Seq<char>),
    Symbol(usize),
    Idx(usize),
}

/// Abstract levels.
pub enum SemLevel {
    Zero,
    Succ(Box<SemLevel>),
    Max(Box<SemLevel>, Box<SemLevel>),
    IMax(Box<SemLevel>, Box<SemLevel>),
    Param(SemName),
}

/// Abstract Lean terms.
pub enum SemLean {
    Var(SemName),
    Sort(SemLevel),
    Const(SemName),
    App(Box<SemLean>, Box<SemLean>),
    Lambda(SemName, Box<SemLean>, Box<SemLean>),
    Pi(SemName, Box<SemLean>, Box<SemLean>),
    Let(SemName, Box<SemLean>, Box<SemLean>, Box<SemLean>),
}

impl View for LeanName {
    type V = SemName;

    open spec fn view(&self) -> SemName {
        match *self {
            LeanName::String(s) => SemName::Str(s@),
            LeanName::Symbol(i) => SemName::Symbol(i),
            LeanName::Idx(i) => SemName::Idx(i),
        }
    }
}

/// The abstract content of a level.
pub open spec fn level_view(l: LeanLevel) -> SemLevel
    decreases l,
{
    match l {
        LeanLevel::Zero => SemLevel::Zero,
        LeanLevel::Succ(x) => SemLevel::Succ(Box::new(level_view(*x))),
        LeanLevel::Max(a, b) => SemLevel::Max(Box::new(level_view(*a)), Box::new(level_view(*b))),
        LeanLevel::IMax(a, b) => SemLevel::IMax(Box::new(level_view(*a)), Box::new(level_view(*b))),
        LeanLevel::Param(n) => SemLevel::Param(n@),
    }
}

impl View for LeanLevel {
    type V = SemLevel;

    open spec fn view(&self) -> SemLevel {
        level_view(*self)
    }
}

/// The abstract content of a term.
pub open spec fn lean_view(t: LeanTerm) -> SemLean
    decreases t,
{
    match t {
        LeanTerm::Var(n) => SemLean::Var(n@),
        LeanTerm::Sort(l) => SemLean::Sort(l@),
        LeanTerm::Const(n) => SemLean::Const(n@),
        LeanTerm::App(f, a) => SemLean::App(Box::new(lean_view(*f)), Box::new(lean_view(*a))),
        LeanTerm::Lambda(n, ty, b) => SemLean::Lambda(n@, Box::new(lean_view(*ty)), Box::new(lean_view(*b))),
        LeanTerm::Pi(n, d, c) => SemLean::Pi(n@, Box::new(lean_view(*d)), Box::new(lean_view(*c))),
        LeanTerm::Let(n, ty, v, b) => SemLean::Let(n@, Box::new(lean_view(*ty)), Box::new(lean_view(*v)), Box::new(lean_view(*b))),
    }
}

impl View for LeanTerm {
    type V = SemLean;

    open spec fn view(&self) -> SemLean {
        lean_view(*self)
    }
}

/// The text of a name: its string, or `symbol_` or `var_` and its number.
pub open spec fn name_text(n: SemName) -> Seq<char> {
    match n {
        SemName::Str(s) => s,
        SemName::Symbol(i) => "symbol_"@ + decimal(i as nat),
        SemName::Idx(i) => "var_"@ + decimal(i as nat),
    }
}

impl LeanName {
    /// A textual name
    pub fn new(name: &str) -> (r: Self)
        ensures
            r@ == SemName::Str(name@),
    {
        LeanName::String(String::from_str(name))
    }

    /// A numbered symbol
    pub fn symbol(id: usize) -> (r: Self)
        ensures
            r@ == SemName::Symbol(id),
    {
        LeanName::Symbol(id)
    }

    /// A numbered variable
    pub fn idx(index: usize) -> (r: Self)
        ensures
            r@ == SemName::Idx(index),
    {
        LeanName::Idx(index)
    }

    /// The name's text
    pub fn as_str(&self) -> (r: String)
        ensures
            r@ == name_text(self@),
    {
        match self {
            LeanName::String(s) => s.clone(),
            LeanName::Symbol(id) => {
                let mut s = String::from_str("symbol_");
                s.append(decimal_string(*id as u64).as_str());
                proof { reveal_strlit("symbol_"); }
                s
            },
            LeanName::Idx(idx) => {
                let mut s = String::from_str("var_");
                s.append(decimal_string(*idx as u64).as_str());
                proof { reveal_strlit("var_"); }
                s
            },
        }
    }

    /// The name's text
    pub fn to_string(&self) -> (r: String)
        ensures
            r@ == name_text(self@),
    {
        self.as_str()
    }

    /// Whether this is the textual name `_`
    pub fn is_anonymous(&self) -> (r: bool)
        ensures
            r == (self@ == SemName::Str("_"@)),
    {
        match self {
            LeanName::String(s) => {
                let underscore = String::from_str("_");
                *s == underscore
            },
            _ => false,
        }
    }

    /// Whether this is a numbered symbol
    pub fn is_symbol(&self) -> (r: bool)
        ensures
            r == (self@ is Symbol),
    {
        matches!(self, LeanName::Symbol(_))
    }

    /// Whether this is a numbered variable
    pub fn is_idx(&self) -> (r: bool)
        ensures
            r == (self@ is Idx),
    {
        matches!(self, LeanName::Idx(_))
    }

    /// Equality of names
    pub fn same(&self, other: &LeanName) -> (r: bool)
        ensures
            r == (self@ == other@),
    {
        match (self, other) {
            (LeanName::String(a), LeanName::String(b)) => *a == *b,
            (LeanName::Symbol(a), LeanName::Symbol(b)) => *a == *b,
            (LeanName::Idx(a), LeanName::Idx(b)) => *a == *b,
            _ => false,
        }
    }

    /// A copy of this name
    pub fn copy(&self) -> (r: Self)
        ensures
            r@ == self@,
    {
        match self {
            LeanName::String(s) => LeanName::String(s.clone()),
            LeanName::Symbol(i) => LeanName::Symbol(*i),
            LeanName::Idx(i) => LeanName::Idx(*i),
        }
    }
}

/// The level `succ^n(0)`.
pub open spec fn spec_from_nat(n: nat) -> SemLevel
    decreases n,
{
    if n == 0 {
        SemLevel::Zero
    } else {
        SemLevel::Succ(Box::new(spec_from_nat((n - 1) as nat)))
    }
}

/// The number a level of the form `succ^n(0)` stands for.
pub open spec fn spec_to_nat(l: SemLevel) -> Option<nat>
    decreases l,
{
    match l {
        SemLevel::Zero => Some(0),
        SemLevel::Succ(x) => match spec_to_nat(*x) {
            Some(n) => Some(n + 1),
            None => None,
        },
        _ => None,
    }
}

/// Reading back the level `succ^k(0)` gives `k`: `to_nat` undoes
/// `from_nat`.
pub proof fn lemma_to_nat_from_nat(k: nat)
    ensures
        spec_to_nat(spec_from_nat(k)) == Some(k),
    decreases k,
{
    if k > 0 {
        lemma_to_nat_from_nat((k - 1) as nat);
    }
}


impl LeanLevel {
    /// Level zero
    pub fn zero() -> (r: Self)
        ensures
            r@ == SemLevel::Zero,
    {
        LeanLevel::Zero
    }

    /// The successor of a level
    pub fn succ(level: LeanLevel) -> (r: Self)
        ensures
            r@ == SemLevel::Succ(Box::new(level@)),
    {
        LeanLevel::Succ(Box::new(level))
    }

    /// The level `succ^n(0)`
    pub fn from_nat(n: u32) -> (r: Self)
        ensures
            r@ == spec_from_nat(n as nat),
    {
        let mut level = LeanLevel::Zero;
        let mut i: u32 = 0;
        while i < n
            invariant
                i <= n,
                level@ == spec_from_nat(i as nat),
            decreases n - i,
        {
            level = LeanLevel::Succ(Box::new(level));
            i = i + 1;
        }
        level
    }

    /// The maximum of two levels
    pub fn max(l1: LeanLevel, l2: LeanLevel) -> (r: Self)
        ensures
            r@ == SemLevel::Max(Box::new(l1@), Box::new(l2@)),
    {
        LeanLevel::Max(Box::new(l1), Box::new(l2))
    }

    /// A level parameter
    pub fn param(name: LeanName) -> (r: Self)
        ensures
            r@ == SemLevel::Param(name@),
    {
        LeanLevel::Param(name)
    }

    /// The impredicative maximum of two levels
    pub fn imax(l1: LeanLevel, l2: LeanLevel) -> (r: Self)
        ensures
            r@ == SemLevel::IMax(Box::new(l1@), Box::new(l2@)),
    {
        LeanLevel::IMax(Box::new(l1), Box::new(l2))
    }

    /// The number a level of the form `succ^n(0)` stands for
    pub fn to_nat(&self) -> (r: Option<u32>)
        requires
            spec_to_nat(self@) matches Some(n) ==> n <= u32::MAX,
        ensures
            match spec_to_nat(self@) {
                Some(n) => r == Some(n as u32),
                None => r is None,
            },
        decreases self,
    {
        match self {
            LeanLevel::Zero => Some(0),
            LeanLevel::Succ(level) => match level.to_nat() {
                Some(n) => Some(n + 1),
                None => None,
            },
            _ => None,
        }
    }

    /// Equality of levels
    pub fn same(&self, other: &LeanLevel) -> (r: bool)
        ensures
            r == (self@ == other@),
        decreases self,
    {
        match (self, other) {
            (LeanLevel::Zero, LeanLevel::Zero) => true,
            (LeanLevel::Succ(a), LeanLevel::Succ(b)) => a.same(b),
            (LeanLevel::Max(a1, a2), LeanLevel::Max(b1, b2)) => a1.same(b1) && a2.same(b2),
            (LeanLevel::IMax(a1, a2), LeanLevel::IMax(b1, b2)) => a1.same(b1) && a2.same(b2),
            (LeanLevel::Param(a), LeanLevel::Param(b)) => a.same(b),
            _ => false,
        }
    }

    /// Whether this is level zero
    pub fn is_zero(&self) -> (r: bool)
        ensures
            r == (self@ is Zero),
    {
        matches!(self, LeanLevel::Zero)
    }

    /// A copy of this level
    pub fn copy(&self) -> (r: Self)
        ensures
            r@ == self@,
        decreases self,
    {
        match self {
            LeanLevel::Zero => LeanLevel::Zero,
            LeanLevel::Succ(x) => LeanLevel::Succ(Box::new(x.copy())),
            LeanLevel::Max(a, b) => LeanLevel::Max(Box::new(a.copy()), Box::new(b.copy())),
            LeanLevel::IMax(a, b) => LeanLevel::IMax(Box::new(a.copy()), Box::new(b.copy())),
            LeanLevel::Param(n) => LeanLevel::Param(n.copy()),
        }
    }
}

impl Clone for LeanLevel {
    fn clone(&self) -> (r: Self)
        ensures
            r@ == self@,
    {
        self.copy()
    }
}

/// The free variables of a term under a set of bound names.
pub open spec fn spec_free_vars(t: SemLean, bound: Set<SemName>) -> Set<SemName>
    decreases t,
{
    match t {
        SemLean::Var(n) => if bound.contains(n) { Set::empty() } else { set![n] },
        SemLean::Sort(_) | SemLean::Const(_) => Set::empty(),
        SemLean::App(f, a) => spec_free_vars(*f, bound) + spec_free_vars(*a, bound),
        SemLean::Lambda(n, ty, b) => spec_free_vars(*ty, bound) + spec_free_vars(*b, bound.insert(n)),
        SemLean::Pi(n, ty, b) => spec_free_vars(*ty, bound) + spec_free_vars(*b, bound.insert(n)),
        SemLean::Let(n, ty, v, b) => spec_free_vars(*ty, bound) + spec_free_vars(*v, bound) + spec_free_vars(*b, bound.insert(n)),
    }
}

/// Substitution of a variable by a term, where not shadowed: a variable
/// occurrence with the name, not bound, is replaced; the body of a binder
/// with the same name is left as it is.
pub open spec fn spec_lean_subst(t: SemLean, var: SemName, repl: SemLean, bound: Set<SemName>) -> SemLean
    decreases t,
{
    match t {
        SemLean::Var(n) => if n == var && !bound.contains(n) { repl } else { t },
        SemLean::Sort(_) | SemLean::Const(_) => t,
        SemLean::App(f, a) => SemLean::App(
            Box::new(spec_lean_subst(*f, var, repl, bound)),
            Box::new(spec_lean_subst(*a, var, repl, bound)),
        ),
        SemLean::Lambda(n, ty, b) => if n == var {
            SemLean::Lambda(n, Box::new(spec_lean_subst(*ty, var, repl, bound)), b)
        } else {
            SemLean::Lambda(n, Box::new(spec_lean_subst(*ty, var, repl, bound)), Box::new(spec_lean_subst(*b, var, repl, bound.insert(n))))
        },
        SemLean::Pi(n, d, c) => if n == var {
            SemLean::Pi(n, Box::new(spec_lean_subst(*d, var, repl, bound)), c)
        } else {
            SemLean::Pi(n, Box::new(spec_lean_subst(*d, var, repl, bound)), Box::new(spec_lean_subst(*c, var, repl, bound.insert(n))))
        },
        SemLean::Let(n, ty, v, b) => if n == var {
            SemLean::Let(n, Box::new(spec_lean_subst(*ty, var, repl, bound)), Box::new(spec_lean_subst(*v, var, repl, bound)), b)
        } else {
            SemLean::Let(
                n,
                Box::new(spec_lean_subst(*ty, var, repl, bound)),
                Box::new(spec_lean_subst(*v, var, repl, bound)),
                Box::new(spec_lean_subst(*b, var, repl, bound.insert(n))),
            )
        },
    }
}

/// The set of names in a vector.
pub open spec fn name_set(v: Seq<LeanName>) -> Set<SemName> {
    Set::new(|n: SemName| exists|i: int| 0 <= i < v.len() && #[trigger] v[i]@ == n)
}

/// Whether the names in a vector are pairwise different.
pub open spec fn names_distinct(v: Seq<LeanName>) -> bool {
    forall|i: int, j: int| 0 <= i < j < v.len() ==> #[trigger] v[i]@ != #[trigger] v[j]@
}

fn contains_name(v: &Vec<LeanName>, n: &LeanName) -> (r: bool)
    ensures
        r == name_set(v@).contains(n@),
{
    let mut i: usize = 0;
    while i < v.len()
        invariant
            i <= v@.len(),
            forall|j: int| 0 <= j < i ==> v@[j]@ != n@,
        decreases v@.len() - i,
    {
        if v[i].same(n) {
            return true;
        }
        i = i + 1;
    }
    false
}

fn copy_names(v: &Vec<LeanName>) -> (r: Vec<LeanName>)
    ensures
        r@.len() == v@.len(),
        forall|i: int| 0 <= i < v@.len() ==> (#[trigger] r@[i])@ == v@[i]@,
        name_set(r@) == name_set(v@),
{
    let mut out: Vec<LeanName> = Vec::new();
    let mut i: usize = 0;
    while i < v.len()
        invariant
            i <= v@.len(),
            out@.len() == i,
            forall|j: int| 0 <= j < i ==> (#[trigger] out@[j])@ == v@[j]@,
        decreases v@.len() - i,
    {
        out.push(v[i].copy());
        i = i + 1;
    }
    assert(name_set(out@) =~= name_set(v@)) by {
        assert forall|n: SemName| name_set(out@).contains(n) implies name_set(v@).contains(n) by {
            let i = choose|i: int| 0 <= i < out@.len() && #[trigger] out@[i]@ == n;
            assert(v@[i]@ == n);
        }
        assert forall|n: SemName| name_set(v@).contains(n) implies name_set(out@).contains(n) by {
            let i = choose|i: int| 0 <= i < v@.len() && #[trigger] v@[i]@ == n;
            assert(out@[i]@ == n);
        }
    }
    out
}

fn push_name(v: &mut Vec<LeanName>, n: LeanName)
    ensures
        final(v)@ == old(v)@.push(n),
        name_set(final(v)@) == name_set(old(v)@).insert(n@),
{
    let ghost nv = n@;
    v.push(n);
    assert(name_set(v@) =~= name_set(old(v)@).insert(nv)) by {
        assert forall|x: SemName| name_set(v@).contains(x) implies name_set(old(v)@).insert(nv).contains(x) by {
            let i = choose|i: int| 0 <= i < v@.len() && #[trigger] v@[i]@ == x;
            if i < old(v)@.len() {
                assert(old(v)@[i]@ == x);
            }
        }
        assert forall|x: SemName| name_set(old(v)@).insert(nv).contains(x) implies name_set(v@).contains(x) by {
            if x == nv {
                assert(v@[old(v)@.len() as int]@ == x);
            } else {
                let i = choose|i: int| 0 <= i < old(v)@.len() && #[trigger] old(v)@[i]@ == x;
                assert(v@[i]@ == x);
            }
        }
    }
}

/// Add a name unless present.
fn add_unique(v: &mut Vec<LeanName>, n: LeanName)
    requires
        names_distinct(old(v)@),
    ensures
        names_distinct(final(v)@),
        name_set(final(v)@) == name_set(old(v)@).insert(n@),
{
    if !contains_name(v, &n) {
        let ghost nv = n@;
        push_name(v, n);
        assert forall|i: int, j: int| 0 <= i < j < v@.len() implies #[trigger] v@[i]@ != #[trigger] v@[j]@ by {
            if j == v@.len() - 1 {
                assert(old(v)@[i]@ == v@[i]@);
                if v@[i]@ == nv {
                    assert(name_set(old(v)@).contains(nv));
                }
            } else {
                assert(old(v)@[i] == v@[i] && old(v)@[j] == v@[j]);
            }
        }
    } else {
        assert(name_set(old(v)@).insert(n@) =~= name_set(old(v)@));
    }
}

/// Add every name of `other` unless present.
fn union_into(v: &mut Vec<LeanName>, other: Vec<LeanName>)
    requires
        names_distinct(old(v)@),
    ensures
        names_distinct(final(v)@),
        name_set(final(v)@) == name_set(old(v)@) + name_set(other@),
{
    let mut i: usize = 0;
    while i < other.len()
        invariant
            i <= other@.len(),
            names_distinct(v@),
            name_set(v@) == name_set(old(v)@) + name_set(other@.subrange(0, i as int)),
        decreases other@.len() - i,
    {
        add_unique(v, other[i].copy());
        proof {
            let a = name_set(other@.subrange(0, i + 1));
            let b = name_set(other@.subrange(0, i as int)).insert(other@[i as int]@);
            assert(a =~= b) by {
                assert forall|x: SemName| a.contains(x) implies b.contains(x) by {
                    let k = choose|k: int| 0 <= k < i + 1 && #[trigger] other@.subrange(0, i + 1)[k]@ == x;
                    if k < i {
                        assert(other@.subrange(0, i as int)[k]@ == x);
                    }
                }
                assert forall|x: SemName| b.contains(x) implies a.contains(x) by {
                    if x == other@[i as int]@ {
                        assert(other@.subrange(0, i + 1)[i as int]@ == x);
                    } else {
                        let k = choose|k: int| 0 <= k < i && #[trigger] other@.subrange(0, i as int)[k]@ == x;
                        assert(other@.subrange(0, i + 1)[k]@ == x);
                    }
                }
            }
            assert(name_set(v@) =~= name_set(old(v)@) + a);
        }
        i = i + 1;
    }
    assert(other@.subrange(0, other@.len() as int) =~= other@);
}

impl LeanTerm {
    /// A variable
    pub fn var(name: LeanName) -> (r: Self)
        ensures
            r@ == SemLean::Var(name@),
    {
        LeanTerm::Var(name)
    }

    /// A sort
    pub fn sort(level: LeanLevel) -> (r: Self)
        ensures
            r@ == SemLean::Sort(level@),
    {
        LeanTerm::Sort(level)
    }

    /// A constant
    pub fn const_(name: LeanName) -> (r: Self)
        ensures
            r@ == SemLean::Const(name@),
    {
        LeanTerm::Const(name)
    }

    /// An application
    pub fn app(func: LeanTerm, arg: LeanTerm) -> (r: Self)
        ensures
            r@ == SemLean::App(Box::new(func@), Box::new(arg@)),
    {
        LeanTerm::App(Box::new(func), Box::new(arg))
    }

    /// A lambda abstraction
    pub fn lambda(name: LeanName, ty: LeanTerm, body: LeanTerm) -> (r: Self)
        ensures
            r@ == SemLean::Lambda(name@, Box::new(ty@), Box::new(body@)),
    {
        LeanTerm::Lambda(name, Box::new(ty), Box::new(body))
    }

    /// A dependent function type
    pub fn pi(name: LeanName, domain: LeanTerm, codomain: LeanTerm) -> (r: Self)
        ensures
            r@ == SemLean::Pi(name@, Box::new(domain@), Box::new(codomain@)),
    {
        LeanTerm::Pi(name, Box::new(domain), Box::new(codomain))
    }

    /// A let binding
    pub fn let_in(name: LeanName, ty: LeanTerm, value: LeanTerm, body: LeanTerm) -> (r: Self)
        ensures
            r@ == SemLean::Let(name@, Box::new(ty@), Box::new(value@), Box::new(body@)),
    {
        LeanTerm::Let(name, Box::new(ty), Box::new(value), Box::new(body))
    }

    /// Equality of terms
    pub fn same(&self, other: &LeanTerm) -> (r: bool)
        ensures
            r == (self@ == other@),
        decreases self,
    {
        match (self, other) {
            (LeanTerm::Var(a), LeanTerm::Var(b)) => a.same(b),
            (LeanTerm::Sort(a), LeanTerm::Sort(b)) => a.same(b),
            (LeanTerm::Const(a), LeanTerm::Const(b)) => a.same(b),
            (LeanTerm::App(f1, a1), LeanTerm::App(f2, a2)) => f1.same(f2) && a1.same(a2),
            (LeanTerm::Lambda(n1, t1, b1), LeanTerm::Lambda(n2, t2, b2)) => n1.same(n2) && t1.same(t2) && b1.same(b2),
            (LeanTerm::Pi(n1, d1, c1), LeanTerm::Pi(n2, d2, c2)) => n1.same(n2) && d1.same(d2) && c1.same(c2),
            (LeanTerm::Let(n1, t1, v1, b1), LeanTerm::Let(n2, t2, v2, b2)) => {
                n1.same(n2) && t1.same(t2) && v1.same(v2) && b1.same(b2)
            },
            _ => false,
        }
    }

    /// Whether this is a sort
    pub fn is_sort(&self) -> (r: bool)
        ensures
            r == (self@ is Sort),
    {
        matches!(self, LeanTerm::Sort(_))
    }

    /// Whether this is a variable
    pub fn is_var(&self) -> (r: bool)
        ensures
            r == (self@ is Var),
    {
        matches!(self, LeanTerm::Var(_))
    }

    /// Whether this is a constant
    pub fn is_const(&self) -> (r: bool)
        ensures
            r == (self@ is Const),
    {
        matches!(self, LeanTerm::Const(_))
    }

    /// Whether this is an application
    pub fn is_app(&self) -> (r: bool)
        ensures
            r == (self@ is App),
    {
        matches!(self, LeanTerm::App(_, _))
    }

    /// Whether this is a lambda
    pub fn is_lambda(&self) -> (r: bool)
        ensures
            r == (self@ is Lambda),
    {
        matches!(self, LeanTerm::Lambda(_, _, _))
    }

    /// Whether this is a Pi type
    pub fn is_pi(&self) -> (r: bool)
        ensures
            r == (self@ is Pi),
    {
        matches!(self, LeanTerm::Pi(_, _, _))
    }

    /// A copy of this term
    pub fn copy(&self) -> (r: Self)
        ensures
            r@ == self@,
        decreases self,
    {
        match self {
            LeanTerm::Var(n) => LeanTerm::Var(n.copy()),
            LeanTerm::Sort(l) => LeanTerm::Sort(l.copy()),
            LeanTerm::Const(n) => LeanTerm::Const(n.copy()),
            LeanTerm::App(f, a) => LeanTerm::App(Box::new(f.copy()), Box::new(a.copy())),
            LeanTerm::Lambda(n, t, b) => LeanTerm::Lambda(n.copy(), Box::new(t.copy()), Box::new(b.copy())),
            LeanTerm::Pi(n, d, c) => LeanTerm::Pi(n.copy(), Box::new(d.copy()), Box::new(c.copy())),
            LeanTerm::Let(n, t, v, b) => LeanTerm::Let(n.copy(), Box::new(t.copy()), Box::new(v.copy()), Box::new(b.copy())),
        }
    }

    /// The free variables of the term, each once
    pub fn free_vars(&self) -> (r: Vec<LeanName>)
        ensures
            name_set(r@) == spec_free_vars(self@, Set::empty()),
            names_distinct(r@),
    {
        let bound: Vec<LeanName> = Vec::new();
        assert(name_set(bound@) =~= Set::<SemName>::empty());
        self.free_vars_impl(&bound)
    }

    fn free_vars_impl(&self, bound: &Vec<LeanName>) -> (r: Vec<LeanName>)
        ensures
            name_set(r@) == spec_free_vars(self@, name_set(bound@)),
            names_distinct(r@),
        decreases self,
    {
        match self {
            LeanTerm::Var(name) => {
                let mut vars: Vec<LeanName> = Vec::new();
                if !contains_name(bound, name) {
                    assert(name_set(vars@) =~= Set::<SemName>::empty());
                    push_name(&mut vars, name.copy());
                    assert(name_set(vars@) =~= set![name@]);
                } else {
                    assert(name_set(vars@) =~= Set::<SemName>::empty());
                }
                vars
            },
            LeanTerm::Sort(_) | LeanTerm::Const(_) => {
                let vars: Vec<LeanName> = Vec::new();
                assert(name_set(vars@) =~= Set::<SemName>::empty());
                vars
            },
            LeanTerm::App(f, x) => {
                let mut vars = f.free_vars_impl(bound);
                union_into(&mut vars, x.free_vars_impl(bound));
                vars
            },
            LeanTerm::Lambda(name, ty, body) | LeanTerm::Pi(name, ty, body) => {
                let mut vars = ty.free_vars_impl(bound);
                let mut new_bound = copy_names(bound);
                push_name(&mut new_bound, name.copy());
                union_into(&mut vars, body.free_vars_impl(&new_bound));
                vars
            },
            LeanTerm::Let(name, ty, val, body) => {
                let mut vars = ty.free_vars_impl(bound);
                union_into(&mut vars, val.free_vars_impl(bound));
                let mut new_bound = copy_names(bound);
                push_name(&mut new_bound, name.copy());
                union_into(&mut vars, body.free_vars_impl(&new_bound));
                vars
            },
        }
    }

    /// Substitute a variable by a term where it is free
    pub fn substitute(&self, var: &LeanName, replacement: &LeanTerm) -> (r: LeanTerm)
        ensures
            r@ == spec_lean_subst(self@, var@, replacement@, Set::empty()),
    {
        let bound: Vec<LeanName> = Vec::new();
        assert(name_set(bound@) =~= Set::<SemName>::empty());
        self.substitute_impl(var, replacement, &bound)
    }

    fn substitute_impl(&self, var: &LeanName, replacement: &LeanTerm, bound: &Vec<LeanName>) -> (r: LeanTerm)
        ensures
            r@ == spec_lean_subst(self@, var@, replacement@, name_set(bound@)),
        decreases self,
    {
        match self {
            LeanTerm::Var(name) => {
                if name.same(var) && !contains_name(bound, name) {
                    replacement.copy()
                } else {
                    self.copy()
                }
            },
            LeanTerm::Sort(_) | LeanTerm::Const(_) => self.copy(),
            LeanTerm::App(f, x) => LeanTerm::App(
                Box::new(f.substitute_impl(var, replacement, bound)),
                Box::new(x.substitute_impl(var, replacement, bound)),
            ),
            LeanTerm::Lambda(name, ty, body) => {
                let new_ty = ty.substitute_impl(var, replacement, bound);
                if name.same(var) {
                    LeanTerm::Lambda(name.copy(), Box::new(new_ty), Box::new(body.copy()))
                } else {
                    let mut new_bound = copy_names(bound);
                    push_name(&mut new_bound, name.copy());
                    let new_body = body.substitute_impl(var, replacement, &new_bound);
                    LeanTerm::Lambda(name.copy(), Box::new(new_ty), Box::new(new_body))
                }
            },
            LeanTerm::Pi(name, dom, cod) => {
                let new_dom = dom.substitute_impl(var, replacement, bound);
                if name.same(var) {
                    LeanTerm::Pi(name.copy(), Box::new(new_dom), Box::new(cod.copy()))
                } else {
                    let mut new_bound = copy_names(bound);
                    push_name(&mut new_bound, name.copy());
                    let new_cod = cod.substitute_impl(var, replacement, &new_bound);
                    LeanTerm::Pi(name.copy(), Box::new(new_dom), Box::new(new_cod))
                }
            },
            LeanTerm::Let(name, ty, val, body) => {
                let new_ty = ty.substitute_impl(var, replacement, bound);
                let new_val = val.substitute_impl(var, replacement, bound);
                if name.same(var) {
                    LeanTerm::Let(name.copy(), Box::new(new_ty), Box::new(new_val), Box::new(body.copy()))
                } else {
                    let mut new_bound = copy_names(bound);
                    push_name(&mut new_bound, name.copy());
                    let new_body = body.substitute_impl(var, replacement, &new_bound);
                    LeanTerm::Let(name.copy(), Box::new(new_ty), Box::new(new_val), Box::new(new_body))
                }
            },
        }
    }
}

impl Clone for LeanTerm {
    fn clone(&self) -> (r: Self)
        ensures
            r@ == self@,
    {
        self.copy()
    }
}

/// Whether showing a level needs no number beyond 32 bits: every
/// successor chain that is a numeral fits.
pub open spec fn level_display_ok(l: SemLevel) -> bool
    decreases l,
{
    match l {
        SemLevel::Succ(x) => match spec_to_nat(l) {
            Some(n) => n <= u32::MAX,
            None => level_display_ok(*x),
        },
        SemLevel::Max(a, b) => level_display_ok(*a) && level_display_ok(*b),
        SemLevel::IMax(a, b) => level_display_ok(*a) && level_display_ok(*b),
        _ => true,
    }
}

/// The text a level is shown as: a numeral as its number, otherwise
/// `succ(..)`, `max(.., ..)`, `imax(.., ..)` or the parameter's name.
pub open spec fn level_text(l: SemLevel) -> Seq<char>
    decreases l,
{
    match l {
        SemLevel::Zero => "0"@,
        SemLevel::Succ(x) => match spec_to_nat(l) {
            Some(n) => decimal(n),
            None => "succ("@ + level_text(*x) + ")"@,
        },
        SemLevel::Max(a, b) => "max("@ + level_text(*a) + ", "@ + level_text(*b) + ")"@,
        SemLevel::IMax(a, b) => "imax("@ + level_text(*a) + ", "@ + level_text(*b) + ")"@,
        SemLevel::Param(n) => name_text(n),
    }
}

/// Whether every level in a term can be shown.
pub open spec fn lean_display_ok(t: SemLean) -> bool
    decreases t,
{
    match t {
        SemLean::Sort(l) => level_display_ok(l),
        SemLean::App(f, a) => lean_display_ok(*f) && lean_display_ok(*a),
        SemLean::Lambda(_, ty, b) => lean_display_ok(*ty) && lean_display_ok(*b),
        SemLean::Pi(_, d, c) => lean_display_ok(*d) && lean_display_ok(*c),
        SemLean::Let(_, ty, v, b) => lean_display_ok(*ty) && lean_display_ok(*v) && lean_display_ok(*b),
        _ => true,
    }
}

/// The text a term is shown as.
pub open spec fn lean_text(t: SemLean) -> Seq<char>
    decreases t,
{
    match t {
        SemLean::Var(n) => name_text(n),
        SemLean::Sort(l) => "Sort "@ + level_text(l),
        SemLean::Const(n) => name_text(n),
        SemLean::App(f, a) => "("@ + lean_text(*f) + " "@ + lean_text(*a) + ")"@,
        SemLean::Lambda(n, ty, b) => "(λ "@ + name_text(n) + " : "@ + lean_text(*ty) + ", "@ + lean_text(*b) + ")"@,
        SemLean::Pi(n, d, c) => "(Π "@ + name_text(n) + " : "@ + lean_text(*d) + ", "@ + lean_text(*c) + ")"@,
        SemLean::Let(n, ty, v, b) => "(let "@ + name_text(n) + " : "@ + lean_text(*ty) + " := "@ + lean_text(*v)
            + " in "@ + lean_text(*b) + ")"@,
    }
}

impl LeanLevel {
    /// The text the level is shown as
    pub fn to_display_string(&self) -> (r: String)
        requires
            level_display_ok(self@),
        ensures
            r@ == level_text(self@),
        decreases self,
    {
        match self {
            LeanLevel::Zero => {
                proof { reveal_strlit("0"); }
                String::from_str("0")
            },
            LeanLevel::Succ(level) => {
                match self.to_nat() {
                    Some(n) => decimal_string(n as u64),
                    None => {
                        let mut s = String::from_str("succ(");
                        s.append(level.to_display_string().as_str());
                        s.append(")");
                        proof {
                            reveal_strlit("succ(");
                            reveal_strlit(")");
                        }
                        s
                    },
                }
            },
            LeanLevel::Max(a, b) => {
                let mut s = String::from_str("max(");
                s.append(a.to_display_string().as_str());
                s.append(", ");
                s.append(b.to_display_string().as_str());
                s.append(")");
                proof {
                    reveal_strlit("max(");
                    reveal_strlit(", ");
                    reveal_strlit(")");
                }
                s
            },
            LeanLevel::IMax(a, b) => {
                let mut s = String::from_str("imax(");
                s.append(a.to_display_string().as_str());
                s.append(", ");
                s.append(b.to_display_string().as_str());
                s.append(")");
                proof {
                    reveal_strlit("imax(");
                    reveal_strlit(", ");
                    reveal_strlit(")");
                }
                s
            },
            LeanLevel::Param(name) => name.to_string(),
        }
    }
}

impl LeanTerm {
    /// The text the term is shown as
    pub fn to_display_string(&self) -> (r: String)
        requires
            lean_display_ok(self@),
        ensures
            r@ == lean_text(self@),
        decreases self,
    {
        match self {
            LeanTerm::Var(name) => name.to_string(),
            LeanTerm::Sort(level) => {
                let mut s = String::from_str("Sort ");
                s.append(level.to_display_string().as_str());
                proof { reveal_strlit("Sort "); }
                s
            },
            LeanTerm::Const(name) => name.to_string(),
            LeanTerm::App(f, a) => {
                let mut s = String::from_str("(");
                s.append(f.to_display_string().as_str());
                s.append(" ");
                s.append(a.to_display_string().as_str());
                s.append(")");
                proof {
                    reveal_strlit("(");
                    reveal_strlit(" ");
                    reveal_strlit(")");
                }
                s
            },
            LeanTerm::Lambda(name, ty, body) => {
                let mut s = String::from_str("(λ ");
                s.append(name.to_string().as_str());
                s.append(" : ");
                s.append(ty.to_display_string().as_str());
                s.append(", ");
                s.append(body.to_display_string().as_str());
                s.append(")");
                proof {
                    reveal_strlit("(λ ");
                    reveal_strlit(" : ");
                    reveal_strlit(", ");
                    reveal_strlit(")");
                }
                s
            },
            LeanTerm::Pi(name, d, c) => {
                let mut s = String::from_str("(Π ");
                s.append(name.to_string().as_str());
                s.append(" : ");
                s.append(d.to_display_string().as_str());
                s.append(", ");
                s.append(c.to_display_string().as_str());
                s.append(")");
                proof {
                    reveal_strlit("(Π ");
                    reveal_strlit(" : ");
                    reveal_strlit(", ");
                    reveal_strlit(")");
                }
                s
            },
            LeanTerm::Let(name, ty, v, body) => {
                let mut s = String::from_str("(let ");
                s.append(name.to_string().as_str());
                s.append(" : ");
                s.append(ty.to_display_string().as_str());
                s.append(" := ");
                s.append(v.to_display_string().as_str());
                s.append(" in ");
                s.append(body.to_display_string().as_str());
                s.append(")");
                proof {
                    reveal_strlit("(let ");
                    reveal_strlit(" : ");
                    reveal_strlit(" := ");
                    reveal_strlit(" in ");
                    reveal_strlit(")");
                }
                s
            },
        }
    }
}

} // verus!
