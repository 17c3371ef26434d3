//! Named variables, for interoperation with systems that name their
//! binders.

use vstd::prelude::*;
use crate::kernel::show::{decimal, decimal_string, digit_char, join_comma};
use vstd::set_lib::{set_int_range, lemma_int_range, lemma_map_size, lemma_len_subset};

verus! {

/// A variable name: a user-given string, or a generated one with a unique
/// number.
#[derive(Clone, Debug, PartialEq, Eq, Hash)]
pub struct Name {
    name: String,
    id: Option<u64>,
}

impl View for Name {
    type V = (Seq<char>, Option<u64>);

    closed spec fn view(&self) -> (Seq<char>, Option<u64>) {
        (self.name@, self.id)
    }
}

/// The text of a name with its unique number, if any, after `#`.
pub open spec fn spec_unique_id(n: (Seq<char>, Option<u64>)) -> Seq<char> {
    match n.1 {
        Some(id) => n.0 + "#"@ + decimal(id as nat),
        None => n.0,
    }
}

impl Name {
    /// A user-provided name
    pub fn user(name: &str) -> (r: Self)
        ensures
            r@ == (name@, None::<u64>),
    {
        Name { name: String::from_str(name), id: None }
    }

    /// A generated name with the given unique number
    pub fn generated(hint: &str, id: u64) -> (r: Self)
        ensures
            r@ == (hint@, Some(id)),
    {
        Name { name: String::from_str(hint), id: Some(id) }
    }

    /// The name's text
    pub fn as_str(&self) -> (r: &str)
        ensures
            r@ == self@.0,
    {
        self.name.as_str()
    }

    /// Whether this name was generated
    pub fn is_generated(&self) -> (r: bool)
        ensures
            r == (self@.1 is Some),
    {
        self.id.is_some()
    }

    /// Whether this name is `_`
    pub fn is_anonymous(&self) -> (r: bool)
        ensures
            r == (self@.0 == "_"@),
    {
        let underscore = String::from_str("_");
        self.name == underscore
    }

    /// A string that tells generated names apart: the text, and `#` and the
    /// number if generated
    pub fn unique_id(&self) -> (r: String)
        ensures
            r@ == spec_unique_id(self@),
    {
        match self.id {
            Some(id) => {
                let mut s = self.name.clone();
                s.append("#");
                s.append(decimal_string(id).as_str());
                proof { reveal_strlit("#"); }
                s
            },
            None => self.name.clone(),
        }
    }

    /// Equality of names: same text and same number
    pub fn same(&self, other: &Name) -> (r: bool)
        ensures
            r == (self@ == other@),
    {
        self.name == other.name && match (self.id, other.id) {
            (Some(a), Some(b)) => a == b,
            (None, None) => true,
            _ => false,
        }
    }

    /// A copy of this name
    pub fn copy(&self) -> (r: Self)
        ensures
            r@ == self@,
    {
        Name { name: self.name.clone(), id: self.id }
    }
}

/// The index of the innermost binding of a name, if any.
pub open spec fn spec_name_lookup(names: Seq<(Seq<char>, Option<u64>)>, name: (Seq<char>, Option<u64>)) -> Option<usize>
    decreases names.len(),
{
    if names.len() == 0 {
        None
    } else if names.last() == name {
        Some(0)
    } else {
        match spec_name_lookup(names.drop_last(), name) {
            Some(i) => Some((i + 1) as usize),
            None => None,
        }
    }
}

proof fn lemma_name_lookup_bound(names: Seq<(Seq<char>, Option<u64>)>, name: (Seq<char>, Option<u64>))
    ensures
        spec_name_lookup(names, name) matches Some(k) ==> k < names.len(),
        spec_name_lookup(names, name) is None <==> !names.contains(name),
    decreases names.len(),
{
    if names.len() > 0 {
        lemma_name_lookup_bound(names.drop_last(), name);
        if names.last() != name && names.contains(name) {
            let j = choose|j: int| 0 <= j < names.len() && names[j] == name;
            assert(names.drop_last()[j] == name);
        }
        if names.drop_last().contains(name) {
            let j = choose|j: int| 0 <= j < names.drop_last().len() && names.drop_last()[j] == name;
            assert(names[j] == name);
        }
        if names.last() == name {
            assert(names[names.len() - 1] == name);
        }
    }
}


/// A lookup finds the innermost binding of a name: the index it gives
/// names that binding, no binding nearer to the inside has the name, it
/// finds nothing exactly when the name is not bound, and a name just bound
/// is found at index 0 (for contexts shorter than `usize::MAX`, the most
/// a context can hold and still take one more binding).
pub proof fn lemma_lookup_finds_innermost(names: Seq<(Seq<char>, Option<u64>)>, name: (Seq<char>, Option<u64>))
    requires
        names.len() < usize::MAX,
    ensures
        spec_name_lookup(names, name) matches Some(i) ==> {
            &&& i < names.len()
            &&& names[names.len() - 1 - i] == name
            &&& forall|j: int| 0 <= j < i ==> #[trigger] names[names.len() - 1 - j] != name
        },
        spec_name_lookup(names, name) is None <==> !names.contains(name),
        spec_name_lookup(names.push(name), name) == Some(0usize),
    decreases names.len(),
{
    lemma_name_lookup_bound(names, name);
    assert(names.push(name).last() == name);
    if names.len() > 0 && names.last() == name {
        assert(names[names.len() - 1 - 0] == name);
    }
    if names.len() > 0 && names.last() != name {
        let rest = names.drop_last();
        lemma_lookup_finds_innermost(rest, name);
        if let Some(k) = spec_name_lookup(rest, name) {
            assert(spec_name_lookup(names, name) == Some((k + 1) as usize));
            assert(rest[rest.len() - 1 - k] == names[names.len() - 1 - (k + 1)]);
            assert(names[names.len() - 1 - (k + 1)] == name);
            assert forall|j: int| 0 <= j < k + 1 implies #[trigger] names[names.len() - 1 - j] != name by {
                if j > 0 {
                    assert(names[names.len() - 1 - j] == rest[rest.len() - 1 - (j - 1)]);
                } else {
                    assert(names[names.len() - 1 - j] == names.last());
                }
            }
        }
    }
}

/// The name `hint_c` tried for counter `c`.
pub open spec fn suffixed(hint: Seq<char>, c: nat) -> (Seq<char>, Option<u64>) {
    (hint + "_"@ + decimal(c), None)
}

proof fn lemma_digit_injective(a: nat, b: nat)
    requires
        a < 10,
        b < 10,
        digit_char(a) == digit_char(b),
    ensures
        a == b,
{
}

proof fn lemma_decimal_len(n: nat)
    ensures
        decimal(n).len() >= 1,
        n >= 10 ==> decimal(n).len() >= 2,
    decreases n,
{
    if n >= 10 {
        lemma_decimal_len(n / 10);
    }
}

proof fn lemma_decimal_injective(a: nat, b: nat)
    requires
        decimal(a) == decimal(b),
    ensures
        a == b,
    decreases a,
{
    lemma_decimal_len(a);
    lemma_decimal_len(b);
    if a < 10 && b < 10 {
        assert(decimal(a)[0] == digit_char(a));
        assert(decimal(b)[0] == digit_char(b));
        lemma_digit_injective(a, b);
    } else if a >= 10 && b >= 10 {
        assert(decimal(a).last() == digit_char(a % 10));
        assert(decimal(b).last() == digit_char(b % 10));
        lemma_digit_injective(a % 10, b % 10);
        assert(decimal(a).drop_last() =~= decimal(a / 10));
        assert(decimal(b).drop_last() =~= decimal(b / 10));
        lemma_decimal_injective(a / 10, b / 10);
    }
}

proof fn lemma_suffixed_injective(hint: Seq<char>, a: nat, b: nat)
    requires
        suffixed(hint, a) == suffixed(hint, b),
    ensures
        a == b,
{
    let p = hint + "_"@;
    assert((p + decimal(a)).subrange(p.len() as int, (p + decimal(a)).len() as int) =~= decimal(a));
    assert((p + decimal(b)).subrange(p.len() as int, (p + decimal(b)).len() as int) =~= decimal(b));
    lemma_decimal_injective(a, b);
}

proof fn lemma_some_suffix_free(names: Seq<(Seq<char>, Option<u64>)>, hint: Seq<char>)
    ensures
        exists|c: nat| 1 <= c <= names.len() + 1 && !names.contains(#[trigger] suffixed(hint, c)),
{
    if forall|c: nat| 1 <= c <= names.len() + 1 ==> names.contains(#[trigger] suffixed(hint, c)) {
        let x = set_int_range(1, names.len() + 2 as int);
        lemma_int_range(1, names.len() + 2 as int);
        let f = |c: int| suffixed(hint, c as nat);
        assert(vstd::relations::injective_on(f, x)) by {
            assert forall|a: int, b: int| x.contains(a) && x.contains(b) && #[trigger] f(a) == #[trigger] f(b) implies a == b by {
                lemma_suffixed_injective(hint, a as nat, b as nat);
            }
        }
        let y = x.map(f);
        lemma_map_size(x, y, f);
        assert(y.subset_of(names.to_set())) by {
            assert forall|v| y.contains(v) implies names.to_set().contains(v) by {
                let c = choose|c: int| x.contains(c) && f(c) == v;
                assert(names.contains(suffixed(hint, c as nat)));
            }
        }
        names.lemma_cardinality_of_set();
        vstd::seq_lib::seq_to_set_is_finite(names);
        lemma_len_subset(y, names.to_set());
        assert(false);
    }
}

fn suffixed_name(hint: &str, counter: usize) -> (r: Name)
    ensures
        r@ == suffixed(hint@, counter as nat),
{
    let mut s = String::from_str(hint);
    s.append("_");
    s.append(decimal_string(counter as u64).as_str());
    proof { reveal_strlit("_"); }
    Name::user(s.as_str())
}

/// Names bound in scope, outermost first, for converting between names
/// and De Bruijn indices.
#[derive(Clone, Debug, Default)]
pub struct NameContext {
    names: Vec<Name>,
}

impl View for NameContext {
    type V = Seq<(Seq<char>, Option<u64>)>;

    closed spec fn view(&self) -> Seq<(Seq<char>, Option<u64>)> {
        Seq::new(self.names@.len(), |i: int| self.names@[i]@)
    }
}

impl NameContext {
    /// Create an empty context
    pub fn new() -> (r: Self)
        ensures
            r@ == Seq::<(Seq<char>, Option<u64>)>::empty(),
    {
        let r = NameContext { names: Vec::new() };
        assert(r@ =~= Seq::<(Seq<char>, Option<u64>)>::empty());
        r
    }

    /// Bind a name, which becomes index 0
    pub fn bind(&self, name: Name) -> (r: Self)
        ensures
            r@ == self@.push(name@),
    {
        let mut new_names: Vec<Name> = Vec::new();
        let mut i: usize = 0;
        while i < self.names.len()
            invariant
                i <= self.names@.len(),
                new_names@.len() == i,
                forall|j: int| 0 <= j < i ==> (#[trigger] new_names@[j])@ == self.names@[j]@,
            decreases self.names@.len() - i,
        {
            new_names.push(self.names[i].copy());
            i = i + 1;
        }
        let ghost nv = name@;
        new_names.push(name);
        let r = NameContext { names: new_names };
        assert(r@ =~= self@.push(nv));
        r
    }

    /// The De Bruijn index of the innermost binding of a name
    pub fn lookup(&self, name: &Name) -> (r: Option<usize>)
        ensures
            r == spec_name_lookup(self@, name@),
    {
        let n = self.names.len();
        let mut i: usize = 0;
        assert(self@.subrange(0, n as int) =~= self@);
        while i < n
            invariant
                i <= n,
                n == self@.len(),
                spec_name_lookup(self@, name@) == match spec_name_lookup(self@.subrange(0, n - i), name@) {
                    Some(k) => Some((k + i) as usize),
                    None => None,
                },
            decreases n - i,
        {
            let ghost pre = self@.subrange(0, n - i);
            proof {
                assert(pre.last() == self@[n - 1 - i]);
                assert(pre.drop_last() =~= self@.subrange(0, n - i - 1));
                lemma_name_lookup_bound(pre.drop_last(), name@);
            }
            if self.names[n - 1 - i].same(name) {
                return Some(i);
            }
            i = i + 1;
        }
        assert(self@.subrange(0, 0) =~= Seq::<(Seq<char>, Option<u64>)>::empty());
        None
    }

    /// A name based on `hint` that is not bound: `hint` itself if free,
    /// else `hint_c` for the least counter `c` from 1 that gives a free name
    pub fn fresh_name(&self, hint: &str) -> (r: Name)
        requires
            self@.len() < usize::MAX,
        ensures
            !self@.contains(r@),
            !self@.contains((hint@, None::<u64>)) ==> r@ == (hint@, None::<u64>),
            self@.contains((hint@, None::<u64>)) ==> exists|c: nat| c >= 1 && r@ == suffixed(hint@, c)
                && forall|c2: nat| 1 <= c2 < c ==> self@.contains(#[trigger] suffixed(hint@, c2)),
    {
        let candidate = Name::user(hint);
        proof {
            lemma_name_lookup_bound(self@, candidate@);
        }
        if self.lookup(&candidate).is_none() {
            return candidate;
        }
        let n = self.names.len();
        let mut counter: usize = 1;
        while counter <= n
            invariant
                1 <= counter <= n + 1,
                n == self@.len(),
                n < usize::MAX,
                self@.contains((hint@, None::<u64>)),
                forall|c2: nat| 1 <= c2 < counter ==> self@.contains(#[trigger] suffixed(hint@, c2)),
            decreases n + 1 - counter,
        {
            let attempt = suffixed_name(hint, counter);
            proof {
                lemma_name_lookup_bound(self@, attempt@);
            }
            if self.lookup(&attempt).is_none() {
                return attempt;
            }
            counter = counter + 1;
        }
        let attempt = suffixed_name(hint, counter);
        proof {
            lemma_name_lookup_bound(self@, attempt@);
            lemma_some_suffix_free(self@, hint@);
        }
        if self.lookup(&attempt).is_none() {
            return attempt;
        }
        proof {
            let c = choose|c: nat| 1 <= c <= self@.len() + 1 && !self@.contains(#[trigger] suffixed(hint@, c));
            assert(c <= counter);
            if c < counter {
                assert(self@.contains(suffixed(hint@, c)));
            }
        }
        attempt
    }

    /// The name bound at a De Bruijn index
    pub fn name_at(&self, index: usize) -> (r: Option<&Name>)
        ensures
            r matches Some(n) ==> index < self@.len() && n@ == self@[self@.len() - 1 - index],
            r is None ==> index >= self@.len(),
    {
        if index < self.names.len() {
            let pos = self.names.len() - 1 - index;
            Some(&self.names[pos])
        } else {
            None
        }
    }

    /// The number of bindings
    pub fn depth(&self) -> (r: usize)
        ensures
            r == self@.len(),
    {
        self.names.len()
    }

    /// Whether no name is bound
    pub fn is_empty(&self) -> (r: bool)
        ensures
            r == (self@.len() == 0),
    {
        self.names.len() == 0
    }

    /// The bound names, outermost first
    pub fn names(&self) -> (r: &[Name])
        ensures
            Seq::new(r@.len(), |i: int| r@[i]@) == self@,
    {
        self.names.as_slice()
    }
}

/// The unique renderings of a list of names.
pub open spec fn show_names(ns: Seq<(Seq<char>, Option<u64>)>) -> Seq<Seq<char>> {
    ns.map_values(|n: (Seq<char>, Option<u64>)| spec_unique_id(n))
}

impl Name {
    /// Render the name: its text, with `#` and its number if generated.
    pub fn to_display_string(&self) -> (r: String)
        ensures
            r@ == spec_unique_id(self@),
    {
        self.unique_id()
    }
}

impl NameContext {
    /// Render the names in scope as `[a, b, ...]`, outermost first.
    pub fn to_display_string(&self) -> (r: String)
        ensures
            r@ == "["@ + join_comma(show_names(self@)) + "]"@,
    {
        let names = self.names();
        let ghost items = show_names(self@);
        let mut s = String::from_str("[");
        proof {
            reveal_strlit("[");
            reveal_strlit(", ");
            reveal_strlit("]");
            assert(items.take(0) =~= Seq::<Seq<char>>::empty());
        }
        let mut i: usize = 0;
        while i < names.len()
            invariant
                i <= names@.len(),
                Seq::new(names@.len(), |k: int| names@[k]@) == self@,
                items == show_names(self@),
                s@ == "["@ + join_comma(items.take(i as int)),
            decreases names@.len() - i,
        {
            if i > 0 {
                s.append(", ");
            }
            let text = names[i].unique_id();
            s.append(text.as_str());
            proof {
                let t = items.take(i + 1);
                assert(t.drop_last() =~= items.take(i as int));
                assert(self@[i as int] == names@[i as int]@);
                assert(t.last() == spec_unique_id(names@[i as int]@));
                if i == 0 {
                    assert(t =~= seq![spec_unique_id(names@[0]@)]);
                }
            }
            i = i + 1;
        }
        assert(items.take(names@.len() as int) =~= items);
        s.append("]");
        s
    }
}

} // verus!
