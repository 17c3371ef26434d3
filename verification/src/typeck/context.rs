//! Typing contexts for bidirectional type checking.

use vstd::prelude::*;
use crate::kernel::{Value, Environment};
use crate::kernel::value::{SemVal, seq_lookup};

verus! {

broadcast use crate::kernel::value::lemma_seq_view;

/// The abstract content of a context: named types, outermost first.
pub type CtxEntries = Seq<(Seq<char>, SemVal)>;

/// A named binding of a type in a context.
#[derive(Clone, Debug, PartialEq)]
pub struct ContextEntry {
    /// The variable's name (for printing)
    pub name: String,
    /// The variable's type
    pub typ: Value,
}

/// The abstract content of an entry: its name and its type.
pub open spec fn entry_view(e: ContextEntry) -> (Seq<char>, SemVal) {
    (e.name@, e.typ@)
}

/// The abstract content of a sequence of entries, outermost first.
pub open spec fn entries_view(s: Seq<ContextEntry>) -> Seq<(Seq<char>, SemVal)> {
    Seq::new(s.len(), |i: int| entry_view(s[i]))
}

/// The types of a sequence of entry views.
pub open spec fn types_of(s: Seq<(Seq<char>, SemVal)>) -> Seq<SemVal> {
    Seq::new(s.len(), |i: int| s[i].1)
}

/// The entry that De Bruijn index `index` refers to, if in range.
pub open spec fn ctx_lookup(s: Seq<(Seq<char>, SemVal)>, index: int) -> Option<(Seq<char>, SemVal)> {
    if 0 <= index < s.len() {
        Some(s[s.len() - 1 - index])
    } else {
        None
    }
}

/// The index of the innermost entry with the given name, if any.
pub open spec fn find_name(s: Seq<(Seq<char>, SemVal)>, name: Seq<char>) -> Option<usize>
    decreases s.len(),
{
    if s.len() == 0 {
        None
    } else if s.last().0 == name {
        Some(0)
    } else {
        match find_name(s.drop_last(), name) {
            Some(i) => Some((i + 1) as usize),
            None => None,
        }
    }
}

/// Extending a context puts the new binding at index 0, moves every
/// earlier binding up by one and grows the context by one.
pub proof fn lemma_extend_lookup(c: Seq<(Seq<char>, SemVal)>, name: Seq<char>, typ: SemVal, i: int)
    requires
        0 <= i,
    ensures
        c.push((name, typ)).len() == c.len() + 1,
        ctx_lookup(c.push((name, typ)), 0) == Some((name, typ)),
        ctx_lookup(c.push((name, typ)), i + 1) == ctx_lookup(c, i),
{
    let d = c.push((name, typ));
    if i < c.len() {
        assert(d[d.len() - 1 - (i + 1)] == c[c.len() - 1 - i]);
    }
}

/// Looking a name up finds the innermost binding of it: the binding at
/// the index found has that name and no binding inside it does; there is
/// none exactly when no binding has the name.
pub proof fn lemma_find_name_innermost(s: Seq<(Seq<char>, SemVal)>, name: Seq<char>)
    requires
        s.len() <= usize::MAX,
    ensures
        find_name(s, name) matches Some(i) ==> {
            &&& i < s.len()
            &&& s[s.len() - 1 - i].0 == name
            &&& forall|j: int| 0 <= j < i ==> #[trigger] s[s.len() - 1 - j].0 != name
        },
        find_name(s, name) is None <==> !(exists|k: int| 0 <= k < s.len() && #[trigger] s[k].0 == name),
    decreases s.len(),
{
    lemma_find_name_bound(s, name);
    if s.len() > 0 {
        let rest = s.drop_last();
        lemma_find_name_innermost(rest, name);
        lemma_find_name_bound(rest, name);
        if s.last().0 == name {
            assert(find_name(s, name) == Some(0usize));
            assert(s[s.len() - 1 - 0].0 == name);
        } else {
            if let Some(k) = find_name(rest, name) {
                assert(find_name(s, name) == Some((k + 1) as usize));
                assert(rest[rest.len() - 1 - k] == s[s.len() - 1 - (k + 1)]);
                assert(s[s.len() - 1 - (k + 1)].0 == name);
                assert forall|j: int| 0 <= j < k + 1 implies #[trigger] s[s.len() - 1 - j].0 != name by {
                    if j > 0 {
                        assert(s[s.len() - 1 - j] == rest[rest.len() - 1 - (j - 1)]);
                        assert(rest[rest.len() - 1 - (j - 1)].0 != name);
                    } else {
                        assert(s[s.len() - 1 - j] == s.last());
                    }
                }
            } else {
                assert forall|k: int| 0 <= k < s.len() implies #[trigger] s[k].0 != name by {
                    if k < s.len() - 1 {
                        assert(s[k] == rest[k]);
                    }
                }
            }
        }
    }
}

proof fn lemma_find_name_bound(s: Seq<(Seq<char>, SemVal)>, name: Seq<char>)
    ensures
        find_name(s, name) matches Some(k) ==> k < s.len(),
    decreases s.len(),
{
    if s.len() > 0 {
        lemma_find_name_bound(s.drop_last(), name);
    }
}

/// Typing context: the bindings in scope, outermost first, together with
/// an environment that holds each binding's type as its value.
#[derive(Debug, PartialEq)]
pub struct Context {
    entries: Vec<ContextEntry>,
    environment: Environment,
}

impl View for Context {
    type V = Seq<(Seq<char>, SemVal)>;

    closed spec fn view(&self) -> Seq<(Seq<char>, SemVal)> {
        entries_view(self.entries@)
    }
}

impl ContextEntry {
    /// Create a new context entry
    pub fn new(name: String, typ: Value) -> (r: Self)
        ensures
            r.name == name,
            r.typ == typ,
            entry_view(r) == (name@, typ@),
    {
        ContextEntry { name, typ }
    }

    /// Create an anonymous context entry, named `_`
    pub fn anonymous(typ: Value) -> (r: Self)
        ensures
            entry_view(r) == ("_"@, typ@),
    {
        ContextEntry::new(String::from_str("_"), typ)
    }

    /// A copy of this entry
    pub fn copy(&self) -> (r: Self)
        ensures
            entry_view(r) == entry_view(*self),
    {
        ContextEntry { name: self.name.clone(), typ: self.typ.copy() }
    }
}

fn copy_entries(v: &Vec<ContextEntry>) -> (r: Vec<ContextEntry>)
    ensures
        entries_view(r@) == entries_view(v@),
{
    let mut out: Vec<ContextEntry> = Vec::new();
    let mut i: usize = 0;
    while i < v.len()
        invariant
            i <= v.len(),
            out@.len() == i,
            forall|j: int| 0 <= j < i ==> entry_view(#[trigger] out@[j]) == entry_view(v@[j]),
        decreases v.len() - i,
    {
        out.push(v[i].copy());
        i = i + 1;
    }
    assert(entries_view(out@) =~= entries_view(v@));
    out
}

impl Context {
    #[verifier::type_invariant]
    spec fn wf(self) -> bool {
        self.environment@ == types_of(entries_view(self.entries@))
    }

    /// Create an empty context
    pub fn empty() -> (r: Self)
        ensures
            r@ == Seq::<(Seq<char>, SemVal)>::empty(),
    {
        let environment = Environment::new();
        let entries: Vec<ContextEntry> = Vec::new();
        assert(entries_view(entries@) =~= Seq::<(Seq<char>, SemVal)>::empty());
        assert(types_of(entries_view(entries@)) =~= Seq::<SemVal>::empty());
        Context { entries, environment }
    }

    /// Get the number of bindings
    pub fn len(&self) -> (r: usize)
        ensures
            r == self@.len(),
    {
        self.entries.len()
    }

    /// Check if the context has no binding
    pub fn is_empty(&self) -> (r: bool)
        ensures
            r == (self@.len() == 0),
    {
        self.entries.len() == 0
    }

    /// Extend the context with a new binding, which becomes index 0
    pub fn extend(&self, name: String, typ: Value) -> (r: Self)
        ensures
            r@ == self@.push((name@, typ@)),
    {
        proof {
            use_type_invariant(self);
        }
        let ghost tv = typ@;
        let new_environment = self.environment.extend(typ.copy());
        let mut new_entries = copy_entries(&self.entries);
        new_entries.push(ContextEntry::new(name, typ));
        proof {
            assert(entries_view(new_entries@) =~= entries_view(self.entries@).push((name@, tv)));
            assert(types_of(entries_view(new_entries@)) =~= types_of(entries_view(self.entries@)).push(tv));
        }
        Context { entries: new_entries, environment: new_environment }
    }

    /// Extend the context with an anonymous binding, named `_`
    pub fn extend_anonymous(&self, typ: Value) -> (r: Self)
        ensures
            r@ == self@.push(("_"@, typ@)),
    {
        self.extend(String::from_str("_"), typ)
    }

    /// Look up the type of a variable by De Bruijn index
    pub fn lookup_type(&self, index: usize) -> (r: Option<&Value>)
        ensures
            r matches Some(v) ==> ctx_lookup(self@, index as int) matches Some(e) && v@ == e.1,
            r is None ==> ctx_lookup(self@, index as int) is None,
    {
        if index < self.entries.len() {
            let entry_index = self.entries.len() - 1 - index;
            Some(&self.entries[entry_index].typ)
        } else {
            None
        }
    }

    /// Look up the name of a variable by De Bruijn index
    pub fn lookup_name(&self, index: usize) -> (r: Option<&String>)
        ensures
            r matches Some(n) ==> ctx_lookup(self@, index as int) matches Some(e) && n@ == e.0,
            r is None ==> ctx_lookup(self@, index as int) is None,
    {
        if index < self.entries.len() {
            let entry_index = self.entries.len() - 1 - index;
            Some(&self.entries[entry_index].name)
        } else {
            None
        }
    }

    /// Look up the value of a variable by De Bruijn index in the
    /// context's environment (which holds the variable's type)
    pub fn lookup_value(&self, index: usize) -> (r: Option<&Value>)
        ensures
            r matches Some(v) ==> ctx_lookup(self@, index as int) matches Some(e) && v@ == e.1,
            r is None ==> ctx_lookup(self@, index as int) is None,
    {
        proof {
            use_type_invariant(self);
        }
        self.environment.lookup(index)
    }

    /// The context's environment
    pub fn environment(&self) -> (r: &Environment)
        ensures
            r@ == types_of(self@),
    {
        proof {
            use_type_invariant(self);
        }
        &self.environment
    }

    /// Convert a De Bruijn index to a level
    pub fn index_to_level(&self, index: usize) -> (r: Option<usize>)
        ensures
            r == if index < self@.len() { Some((self@.len() - 1 - index) as usize) } else { None },
    {
        if index < self.len() {
            Some(self.len() - 1 - index)
        } else {
            None
        }
    }

    /// Convert a De Bruijn level to an index
    pub fn level_to_index(&self, level: usize) -> (r: Option<usize>)
        ensures
            r == if level < self@.len() { Some((self@.len() - 1 - level) as usize) } else { None },
    {
        if level < self.len() {
            Some(self.len() - 1 - level)
        } else {
            None
        }
    }

    /// All entries, outermost first
    pub fn entries(&self) -> (r: &[ContextEntry])
        ensures
            entries_view(r@) == self@,
    {
        self.entries.as_slice()
    }

    /// A fresh variable, at the level just past the context
    pub fn fresh_var(&self) -> (r: Value)
        ensures
            r@ == SemVal::Var(self@.len() as usize),
    {
        Value::var(self.len())
    }

    /// Extend the context with several bindings, in order
    pub fn extend_many(&self, bindings: Vec<(String, Value)>) -> (r: Self)
        ensures
            r@ == self@ + Seq::new(bindings@.len(), |i: int| (bindings@[i].0@, bindings@[i].1@)),
    {
        let mut ctx = self.copy();
        let mut i: usize = 0;
        while i < bindings.len()
            invariant
                i <= bindings@.len(),
                ctx@ == self@ + Seq::new(i as nat, |k: int| (bindings@[k].0@, bindings@[k].1@)),
            decreases bindings@.len() - i,
        {
            let binding = &bindings[i];
            ctx = ctx.extend(binding.0.clone(), binding.1.copy());
            proof {
                assert(ctx@ =~= self@ + Seq::new((i + 1) as nat, |k: int| (bindings@[k].0@, bindings@[k].1@)));
            }
            i = i + 1;
        }
        ctx
    }

    /// Check whether some binding has the given name
    pub fn contains_name(&self, name: &str) -> (r: bool)
        ensures
            r == exists|i: int| 0 <= i < self@.len() && #[trigger] self@[i].0 == name@,
    {
        let target = String::from_str(name);
        let mut i: usize = 0;
        while i < self.entries.len()
            invariant
                i <= self.entries@.len(),
                target@ == name@,
                forall|j: int| 0 <= j < i ==> #[trigger] self@[j].0 != name@,
            decreases self.entries@.len() - i,
        {
            if self.entries[i].name == target {
                assert(self@[i as int].0 == name@);
                return true;
            }
            i = i + 1;
        }
        false
    }

    /// The De Bruijn index of the innermost binding with the given name
    pub fn find_by_name(&self, name: &str) -> (r: Option<usize>)
        ensures
            r == find_name(self@, name@),
    {
        let target = String::from_str(name);
        let n = self.entries.len();
        let mut i: usize = 0;
        assert(self@.subrange(0, n as int) =~= self@);
        while i < n
            invariant
                i <= n,
                n == self@.len(),
                target@ == name@,
                find_name(self@, name@) == match find_name(self@.subrange(0, n - i), name@) {
                    Some(k) => Some((k + i) as usize),
                    None => None,
                },
            decreases n - i,
        {
            let ghost pre = self@.subrange(0, n - i);
            proof {
                assert(pre.last() == self@[n - 1 - i]);
                assert(pre.drop_last() =~= self@.subrange(0, n - i - 1));
            }
            if self.entries[n - 1 - i].name == target {
                return Some(i);
            }
            proof {
                assert(self@[n - 1 - i].0 == self.entries@[n - 1 - i].name@);
                assert(pre.last().0 != name@);
                lemma_find_name_bound(pre.drop_last(), name@);
                assert(find_name(pre, name@) == match find_name(pre.drop_last(), name@) {
                    Some(k) => Some((k + 1) as usize),
                    None => None,
                });
            }
            i = i + 1;
        }
        proof {
            assert(self@.subrange(0, 0) =~= Seq::<(Seq<char>, SemVal)>::empty());
        }
        None
    }

    /// A copy of this context
    pub fn copy(&self) -> (r: Self)
        ensures
            r@ == self@,
    {
        proof {
            use_type_invariant(self);
        }
        Context { entries: copy_entries(&self.entries), environment: self.environment.copy() }
    }
}

impl Clone for Context {
    fn clone(&self) -> (r: Self)
        ensures
            r@ == self@,
    {
        self.copy()
    }
}

/// A context extended by local bindings without copying the base.
#[derive(Clone, Debug)]
pub struct LocalContext<'a> {
    base: &'a Context,
    extensions: Vec<ContextEntry>,
    extension_values: Vec<Value>,
}

impl<'a> LocalContext<'a> {
    /// The base context's bindings followed by the local ones.
    pub closed spec fn spec_view(&self) -> Seq<(Seq<char>, SemVal)> {
        self.base@ + entries_view(self.extensions@)
    }

    /// The base context.
    pub closed spec fn spec_base(&self) -> Context {
        *self.base
    }

    /// The local bindings.
    pub closed spec fn spec_extensions(&self) -> Seq<(Seq<char>, SemVal)> {
        entries_view(self.extensions@)
    }

    /// Create a local context over a base context
    pub fn new(base: &'a Context) -> (r: Self)
        ensures
            r.spec_base() == *base,
            r.spec_extensions() == Seq::<(Seq<char>, SemVal)>::empty(),
            r.spec_view() == base@,
    {
        let r = LocalContext { base, extensions: Vec::new(), extension_values: Vec::new() };
        assert(entries_view(r.extensions@) =~= Seq::<(Seq<char>, SemVal)>::empty());
        assert(r.spec_view() =~= base@);
        r
    }

    /// Extend with a local binding, which becomes index 0
    pub fn extend(&mut self, name: String, typ: Value)
        ensures
            final(self).spec_base() == old(self).spec_base(),
            final(self).spec_extensions() == old(self).spec_extensions().push((name@, typ@)),
            final(self).spec_view() == old(self).spec_view().push((name@, typ@)),
    {
        let ghost tv = typ@;
        self.extension_values.push(typ.copy());
        self.extensions.push(ContextEntry::new(name, typ));
        proof {
            assert(entries_view(self.extensions@) =~= entries_view(old(self).extensions@).push((name@, tv)));
            assert(self.spec_view() =~= old(self).spec_view().push((name@, tv)));
        }
    }

    /// Extend with an anonymous local binding, named `_`
    pub fn extend_anonymous(&mut self, typ: Value)
        ensures
            final(self).spec_base() == old(self).spec_base(),
            final(self).spec_view() == old(self).spec_view().push(("_"@, typ@)),
    {
        self.extend(String::from_str("_"), typ);
    }

    /// The number of bindings, base and local
    pub fn len(&self) -> (r: usize)
        requires
            self.spec_view().len() <= usize::MAX,
        ensures
            r == self.spec_view().len(),
    {
        self.base.len() + self.extensions.len()
    }

    /// Look up the type of a variable by De Bruijn index
    pub fn lookup_type(&self, index: usize) -> (r: Option<&Value>)
        ensures
            r matches Some(v) ==> ctx_lookup(self.spec_view(), index as int) matches Some(e) && v@ == e.1,
            r is None ==> ctx_lookup(self.spec_view(), index as int) is None,
    {
        if index < self.extensions.len() {
            let ext_index = self.extensions.len() - 1 - index;
            Some(&self.extensions[ext_index].typ)
        } else {
            self.base.lookup_type(index - self.extensions.len())
        }
    }

    /// Look up the name of a variable by De Bruijn index
    pub fn lookup_name(&self, index: usize) -> (r: Option<&String>)
        ensures
            r matches Some(n) ==> ctx_lookup(self.spec_view(), index as int) matches Some(e) && n@ == e.0,
            r is None ==> ctx_lookup(self.spec_view(), index as int) is None,
    {
        if index < self.extensions.len() {
            let ext_index = self.extensions.len() - 1 - index;
            Some(&self.extensions[ext_index].name)
        } else {
            self.base.lookup_name(index - self.extensions.len())
        }
    }

    /// The base context extended by every local binding
    pub fn to_context(&self) -> (r: Context)
        ensures
            r@ == self.spec_view(),
    {
        let mut ctx = self.base.copy();
        let mut i: usize = 0;
        while i < self.extensions.len()
            invariant
                i <= self.extensions@.len(),
                ctx@ == self.base@ + entries_view(self.extensions@.subrange(0, i as int)),
            decreases self.extensions@.len() - i,
        {
            let entry = &self.extensions[i];
            ctx = ctx.extend(entry.name.clone(), entry.typ.copy());
            proof {
                assert(entries_view(self.extensions@.subrange(0, i + 1)) =~= entries_view(self.extensions@.subrange(0, i as int)).push(entry_view(self.extensions@[i as int])));
            }
            i = i + 1;
        }
        assert(self.extensions@.subrange(0, self.extensions@.len() as int) =~= self.extensions@);
        ctx
    }

    /// The base context
    pub fn base(&self) -> (r: &Context)
        ensures
            *r == self.spec_base(),
    {
        self.base
    }

    /// The local bindings, outermost first
    pub fn extensions(&self) -> (r: &[ContextEntry])
        ensures
            entries_view(r@) == self.spec_extensions(),
    {
        self.extensions.as_slice()
    }
}

} // verus!
