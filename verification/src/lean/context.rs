//! The context of a translation between De Bruijn terms and named Lean
//! terms: binder names in scope, the names given to them on the Lean side,
//! and the Lean universe levels known.

use vstd::prelude::*;
use std::collections::HashMap;
use crate::assoc::AssocMap;
use crate::kernel::name::{Name, NameContext, spec_unique_id, spec_name_lookup};
use crate::kernel::show::{decimal, decimal_string};
use super::types::{LeanName, LeanLevel, SemName, SemLevel, spec_from_nat, name_text};
use super::error::{LeanError, LeanResult, SemLeanErr};

verus! {

broadcast use vstd::std_specs::hash::group_hash_axioms;

/// The abstract content of a name.
pub type NameV = (Seq<char>, Option<u64>);

/// The Lean levels known from the start: `0` to `19`.
pub open spec fn initial_levels() -> Map<u32, SemLevel> {
    Map::new(|k: u32| k < 20, |k: u32| spec_from_nat(k as nat))
}

/// The fresh Lean name `hint_n`.
pub open spec fn numbered(hint: Seq<char>, n: nat) -> SemName {
    SemName::Str(hint + "_"@ + decimal(n))
}

/// The abstract state of a translation context.
pub struct CtxState {
    pub names: Map<NameV, SemName>,
    pub reverse: Map<SemName, NameV>,
    pub levels: Map<u32, SemLevel>,
    pub depth: usize,
    pub counter: usize,
    pub scope: Seq<NameV>,
}

/// The abstract content of a result of the Lean integration.
pub open spec fn lres<T: View>(r: LeanResult<T>) -> Result<T::V, SemLeanErr> {
    match r {
        Ok(v) => Ok(v@),
        Err(e) => Err(e@),
    }
}

/// Entering a binder named `n`: the Lean name chosen for it and the state
/// after.
pub open spec fn spec_enter(st: CtxState, n: NameV) -> (SemName, CtxState) {
    let anon = n.0 == "_"@;
    let taken = st.reverse.contains_key(SemName::Str(n.0));
    let lean = if anon {
        numbered("_anon"@, (st.counter + 1) as nat)
    } else if taken {
        numbered(n.0, (st.counter + 1) as nat)
    } else {
        SemName::Str(n.0)
    };
    (lean, CtxState {
        names: st.names.insert(n, lean),
        reverse: st.reverse.insert(lean, n),
        levels: st.levels,
        depth: (st.depth + 1) as usize,
        counter: if anon || taken { (st.counter + 1) as usize } else { st.counter },
        scope: st.scope.push(n),
    })
}

/// The state after exiting the innermost binder.
pub open spec fn spec_exit(st: CtxState) -> CtxState {
    if st.depth == 0 {
        st
    } else if st.scope.len() == 0 {
        CtxState { depth: (st.depth - 1) as usize, ..st }
    } else {
        let last = st.scope.last();
        CtxState {
            names: st.names.remove(last),
            reverse: if st.names.contains_key(last) { st.reverse.remove(st.names[last]) } else { st.reverse },
            levels: st.levels,
            depth: (st.depth - 1) as usize,
            counter: st.counter,
            scope: st.scope.drop_last(),
        }
    }
}

/// The Lean name of the variable at a De Bruijn index.
pub open spec fn spec_debruijn(st: CtxState, index: usize) -> Result<SemName, SemLeanErr> {
    if index < st.scope.len() {
        let n = st.scope[st.scope.len() - 1 - index];
        if st.names.contains_key(n) {
            Ok(st.names[n])
        } else {
            Err(SemLeanErr::NameResolution("No Lean name mapping for TTT name: "@ + spec_unique_id(n)))
        }
    } else {
        Err(SemLeanErr::NameResolution(
            "De Bruijn index "@ + decimal(index as nat) + " out of bounds (depth: "@ + decimal(st.scope.len()) + ")"@,
        ))
    }
}

/// The De Bruijn index of the variable behind a Lean name.
pub open spec fn spec_lean_index(st: CtxState, l: SemName) -> Result<usize, SemLeanErr> {
    if st.reverse.contains_key(l) {
        let n = st.reverse[l];
        match spec_name_lookup(st.scope, n) {
            Some(i) => Ok(i),
            None => Err(SemLeanErr::NameResolution("TTT name "@ + spec_unique_id(n) + " not found in context"@)),
        }
    } else {
        Err(SemLeanErr::NameResolution("No TTT name mapping for Lean name: "@ + name_text(l)))
    }
}

/// The Lean level for a universe level.
pub open spec fn spec_level_lookup(st: CtxState, level: u32) -> Result<SemLevel, SemLeanErr> {
    if st.levels.contains_key(level) {
        Ok(st.levels[level])
    } else {
        Err(SemLeanErr::UniverseLevel(level))
    }
}

/// Translation context between De Bruijn terms and Lean terms.
#[derive(Debug, Clone)]
pub struct TranslationContext {
    name_map: AssocMap<Name, LeanName>,
    reverse_name_map: AssocMap<LeanName, Name>,
    level_map: HashMap<u32, LeanLevel>,
    binding_depth: usize,
    fresh_counter: usize,
    name_context: NameContext,
}

impl TranslationContext {
    /// The Lean name given to each name.
    pub closed spec fn spec_names(&self) -> Map<NameV, SemName> {
        self.name_map.map()
    }

    /// The name behind each Lean name.
    pub closed spec fn spec_reverse(&self) -> Map<SemName, NameV> {
        self.reverse_name_map.map()
    }

    /// The Lean levels known, by number.
    pub closed spec fn spec_levels(&self) -> Map<u32, SemLevel> {
        self.level_map@.map_values(|l: LeanLevel| l@)
    }

    /// The number of binders entered and not exited.
    pub closed spec fn spec_depth(&self) -> usize {
        self.binding_depth
    }

    /// The number of fresh names generated.
    pub closed spec fn spec_counter(&self) -> usize {
        self.fresh_counter
    }

    /// The names in scope, outermost first.
    pub closed spec fn spec_scope(&self) -> Seq<NameV> {
        self.name_context@
    }

    /// The abstract state.
    pub open spec fn state(&self) -> CtxState {
        CtxState {
            names: self.spec_names(),
            reverse: self.spec_reverse(),
            levels: self.spec_levels(),
            depth: self.spec_depth(),
            counter: self.spec_counter(),
            scope: self.spec_scope(),
        }
    }

    /// The state of a new context.
    pub open spec fn new_state() -> CtxState {
        CtxState {
            names: Map::empty(),
            reverse: Map::empty(),
            levels: initial_levels(),
            depth: 0,
            counter: 0,
            scope: Seq::empty(),
        }
    }

    /// Create a context with no binder and levels `0` to `19`
    pub fn new() -> (r: Self)
        ensures
            r.state() == Self::new_state(),
            r.spec_names() == Map::<NameV, SemName>::empty(),
            r.spec_reverse() == Map::<SemName, NameV>::empty(),
            r.spec_levels() == initial_levels(),
            r.spec_depth() == 0,
            r.spec_counter() == 0,
            r.spec_scope() == Seq::<NameV>::empty(),
    {
        TranslationContext {
            name_map: AssocMap::new(),
            reverse_name_map: AssocMap::new(),
            level_map: init_universe_levels(),
            binding_depth: 0,
            fresh_counter: 0,
            name_context: NameContext::new(),
        }
    }

    /// Generate a fresh Lean name `hint_n` from the next counter value
    pub fn fresh_name(&mut self, hint: &str) -> (r: LeanName)
        requires
            old(self).spec_counter() < usize::MAX,
        ensures
            final(self).spec_counter() == old(self).spec_counter() + 1,
            r@ == numbered(hint@, final(self).spec_counter() as nat),
            final(self).spec_names() == old(self).spec_names(),
            final(self).spec_reverse() == old(self).spec_reverse(),
            final(self).spec_levels() == old(self).spec_levels(),
            final(self).spec_depth() == old(self).spec_depth(),
            final(self).spec_scope() == old(self).spec_scope(),
    {
        self.fresh_counter = self.fresh_counter + 1;
        let mut s = String::from_str(hint);
        s.append("_");
        s.append(decimal_string(self.fresh_counter as u64).as_str());
        proof { reveal_strlit("_"); }
        LeanName::new(s.as_str())
    }

    /// Enter a binder: choose its Lean name (a fresh `_anon_n` for `_`, a
    /// fresh `x_n` if the name `x` is taken on the Lean side, else `x`),
    /// record the mapping both ways, and bring the name into scope
    pub fn enter_binder(&mut self, ttt_name: Name) -> (r: LeanName)
        requires
            old(self).spec_depth() < usize::MAX,
            old(self).spec_counter() < usize::MAX,
        ensures
            final(self).spec_depth() == old(self).spec_depth() + 1,
            r@ == (if ttt_name@.0 == "_"@ {
                numbered("_anon"@, (old(self).spec_counter() + 1) as nat)
            } else if old(self).spec_reverse().contains_key(SemName::Str(ttt_name@.0)) {
                numbered(ttt_name@.0, (old(self).spec_counter() + 1) as nat)
            } else {
                SemName::Str(ttt_name@.0)
            }),
            final(self).spec_counter() == if ttt_name@.0 == "_"@ || old(self).spec_reverse().contains_key(SemName::Str(ttt_name@.0)) {
                old(self).spec_counter() + 1
            } else {
                old(self).spec_counter() as int
            },
            final(self).spec_names() == old(self).spec_names().insert(ttt_name@, r@),
            final(self).spec_reverse() == old(self).spec_reverse().insert(r@, ttt_name@),
            final(self).spec_levels() == old(self).spec_levels(),
            final(self).spec_scope() == old(self).spec_scope().push(ttt_name@),
            (r@, final(self).state()) == spec_enter(old(self).state(), ttt_name@),
    {
        self.binding_depth = self.binding_depth + 1;
        let lean_name = if ttt_name.is_anonymous() {
            let n = self.fresh_name("_anon");
            proof { reveal_strlit("_anon"); }
            n
        } else {
            let hint = ttt_name.as_str();
            let plain = LeanName::new(hint);
            if self.reverse_name_map.contains_key(&plain) {
                self.fresh_name(hint)
            } else {
                plain
            }
        };
        self.name_map.insert(ttt_name.copy(), lean_name.copy());
        self.reverse_name_map.insert(lean_name.copy(), ttt_name.copy());
        self.name_context = self.name_context.bind(ttt_name);
        lean_name
    }

    /// Exit the innermost binder: forget its mappings both ways and take
    /// its name out of scope (nothing happens when no binder was entered)
    pub fn exit_binder(&mut self)
        ensures
            old(self).spec_depth() == 0 ==> final(self).spec_depth() == 0
                && final(self).spec_names() == old(self).spec_names()
                && final(self).spec_reverse() == old(self).spec_reverse()
                && final(self).spec_scope() == old(self).spec_scope(),
            old(self).spec_depth() > 0 ==> final(self).spec_depth() == old(self).spec_depth() - 1
                && (old(self).spec_scope().len() == 0 ==> final(self).spec_names() == old(self).spec_names()
                    && final(self).spec_reverse() == old(self).spec_reverse()
                    && final(self).spec_scope() == old(self).spec_scope())
                && (old(self).spec_scope().len() > 0 ==> {
                    let last = old(self).spec_scope().last();
                    &&& final(self).spec_names() == old(self).spec_names().remove(last)
                    &&& final(self).spec_reverse() == if old(self).spec_names().contains_key(last) {
                        old(self).spec_reverse().remove(old(self).spec_names()[last])
                    } else {
                        old(self).spec_reverse()
                    }
                    &&& final(self).spec_scope() == old(self).spec_scope().drop_last()
                }),
            final(self).spec_counter() == old(self).spec_counter(),
            final(self).spec_levels() == old(self).spec_levels(),
            final(self).state() == spec_exit(old(self).state()),
    {
        if self.binding_depth > 0 {
            self.binding_depth = self.binding_depth - 1;
            let names = self.name_context.names();
            let n = names.len();
            if n > 0 {
                let last = names[n - 1].copy();
                proof {
                    assert(last@ == self.spec_scope().last());
                }
                match self.name_map.remove(&last) {
                    Some(lean_name) => {
                        self.reverse_name_map.remove(&lean_name);
                    },
                    None => {},
                }
                let mut new_context = NameContext::new();
                let mut i: usize = 0;
                while i < n - 1
                    invariant
                        i <= n - 1,
                        n == old(self).spec_scope().len(),
                        names@.len() == n,
                        Seq::new(names@.len(), |j: int| names@[j]@) == old(self).spec_scope(),
                        new_context@ == old(self).spec_scope().subrange(0, i as int),
                    decreases n - 1 - i,
                {
                    new_context = new_context.bind(names[i].copy());
                    proof {
                        assert(new_context@ =~= old(self).spec_scope().subrange(0, i + 1));
                    }
                    i = i + 1;
                }
                assert(new_context@ =~= old(self).spec_scope().drop_last());
                self.name_context = new_context;
            }
        }
    }

    /// The Lean name given to a name
    pub fn lookup_name(&self, ttt_name: &Name) -> (r: Option<&LeanName>)
        ensures
            r matches Some(l) ==> self.spec_names().contains_key(ttt_name@) && l@ == self.spec_names()[ttt_name@],
            r is None ==> !self.spec_names().contains_key(ttt_name@),
    {
        self.name_map.get(ttt_name)
    }

    /// The name behind a Lean name
    pub fn reverse_lookup_name(&self, lean_name: &LeanName) -> (r: Option<&Name>)
        ensures
            r matches Some(n) ==> self.spec_reverse().contains_key(lean_name@) && n@ == self.spec_reverse()[lean_name@],
            r is None ==> !self.spec_reverse().contains_key(lean_name@),
    {
        self.reverse_name_map.get(lean_name)
    }

    /// The Lean name of the variable at a De Bruijn index
    pub fn debruijn_to_lean(&self, index: usize) -> (r: LeanResult<LeanName>)
        ensures
            lres(r) == spec_debruijn(self.state(), index),
            index < self.spec_scope().len() ==> {
                let n = self.spec_scope()[self.spec_scope().len() - 1 - index];
                if self.spec_names().contains_key(n) {
                    r matches Ok(l) && l@ == self.spec_names()[n]
                } else {
                    r matches Err(LeanError::NameResolution(m)) && m@ == "No Lean name mapping for TTT name: "@ + spec_unique_id(n)
                }
            },
            index >= self.spec_scope().len() ==> (r matches Err(LeanError::NameResolution(m))
                && m@ == "De Bruijn index "@ + decimal(index as nat) + " out of bounds (depth: "@ + decimal(self.spec_scope().len()) + ")"@),
    {
        match self.name_context.name_at(index) {
            Some(ttt_name) => match self.lookup_name(ttt_name) {
                Some(lean_name) => Ok(lean_name.copy()),
                None => {
                    let mut m = String::from_str("No Lean name mapping for TTT name: ");
                    m.append(ttt_name.unique_id().as_str());
                    proof { reveal_strlit("No Lean name mapping for TTT name: "); }
                    Err(LeanError::name_resolution(m))
                },
            },
            None => {
                let mut m = String::from_str("De Bruijn index ");
                m.append(decimal_string(index as u64).as_str());
                m.append(" out of bounds (depth: ");
                m.append(decimal_string(self.name_context.depth() as u64).as_str());
                m.append(")");
                proof {
                    reveal_strlit("De Bruijn index ");
                    reveal_strlit(" out of bounds (depth: ");
                    reveal_strlit(")");
                }
                Err(LeanError::name_resolution(m))
            },
        }
    }

    /// The De Bruijn index of the variable behind a Lean name
    pub fn lean_to_debruijn(&self, lean_name: &LeanName) -> (r: LeanResult<usize>)
        ensures
            lres(r) == spec_lean_index(self.state(), lean_name@),
            self.spec_reverse().contains_key(lean_name@) ==> {
                let n = self.spec_reverse()[lean_name@];
                match spec_name_lookup(self.spec_scope(), n) {
                    Some(i) => r == Ok::<usize, LeanError>(i),
                    None => r matches Err(LeanError::NameResolution(m)) && m@ == "TTT name "@ + spec_unique_id(n) + " not found in context"@,
                }
            },
            !self.spec_reverse().contains_key(lean_name@) ==> (r matches Err(LeanError::NameResolution(m))
                && m@ == "No TTT name mapping for Lean name: "@ + name_text(lean_name@)),
    {
        match self.reverse_lookup_name(lean_name) {
            Some(ttt_name) => match self.name_context.lookup(ttt_name) {
                Some(index) => Ok(index),
                None => {
                    let mut m = String::from_str("TTT name ");
                    m.append(ttt_name.unique_id().as_str());
                    m.append(" not found in context");
                    proof {
                        reveal_strlit("TTT name ");
                        reveal_strlit(" not found in context");
                    }
                    Err(LeanError::name_resolution(m))
                },
            },
            None => {
                let mut m = String::from_str("No TTT name mapping for Lean name: ");
                m.append(lean_name.as_str().as_str());
                proof { reveal_strlit("No TTT name mapping for Lean name: "); }
                Err(LeanError::name_resolution(m))
            },
        }
    }

    /// The Lean level for a universe level, if known
    pub fn get_universe_level(&self, level: u32) -> (r: LeanResult<LeanLevel>)
        ensures
            lres(r) == spec_level_lookup(self.state(), level),
            self.spec_levels().contains_key(level) ==> (r matches Ok(l) && l@ == self.spec_levels()[level]),
            !self.spec_levels().contains_key(level) ==> r == Err::<LeanLevel, LeanError>(LeanError::UniverseLevel(level)),
    {
        match self.level_map.get(&level) {
            Some(l) => Ok(l.copy()),
            None => Err(LeanError::UniverseLevel(level)),
        }
    }

    /// The number of binders entered and not exited
    pub fn binding_depth(&self) -> (r: usize)
        ensures
            r == self.spec_depth(),
    {
        self.binding_depth
    }

    /// The names in scope
    pub fn name_context(&self) -> (r: &NameContext)
        ensures
            r@ == self.spec_scope(),
    {
        &self.name_context
    }

    /// Run `f` inside a binder: enter it, call `f` with the context and the
    /// binder's Lean name, exit it, and return what `f` returned
    pub fn with_binder<T, F: FnOnce(&mut TranslationContext, LeanName) -> T>(&mut self, ttt_name: Name, f: F) -> (r: T)
        requires
            old(self).spec_depth() < usize::MAX,
            old(self).spec_counter() < usize::MAX,
            forall|c: &mut TranslationContext, n: LeanName| f.requires((c, n)),
        ensures
            exists|c: &mut TranslationContext, n: LeanName| {
                &&& (*c).state() == spec_enter(old(self).state(), ttt_name@).1
                &&& n@ == spec_enter(old(self).state(), ttt_name@).0
                &&& #[trigger] f.ensures((c, n), r)
                &&& final(self).state() == spec_exit((*final(c)).state())
            },
    {
        let lean_name = self.enter_binder(ttt_name);
        let result = f(self, lean_name);
        self.exit_binder();
        result
    }

    /// Record a global mapping between a name and a Lean name
    pub fn register_global(&mut self, ttt_name: Name, lean_name: LeanName)
        ensures
            final(self).spec_names() == old(self).spec_names().insert(ttt_name@, lean_name@),
            final(self).spec_reverse() == old(self).spec_reverse().insert(lean_name@, ttt_name@),
            final(self).spec_levels() == old(self).spec_levels(),
            final(self).spec_depth() == old(self).spec_depth(),
            final(self).spec_counter() == old(self).spec_counter(),
            final(self).spec_scope() == old(self).spec_scope(),
    {
        self.name_map.insert(ttt_name.copy(), lean_name.copy());
        self.reverse_name_map.insert(lean_name, ttt_name);
    }

    /// Whether a name is in scope
    pub fn is_bound(&self, ttt_name: &Name) -> (r: bool)
        ensures
            r == (spec_name_lookup(self.spec_scope(), ttt_name@) is Some),
    {
        self.name_context.lookup(ttt_name).is_some()
    }

    /// The names in scope, outermost first
    pub fn bound_names(&self) -> (r: &[Name])
        ensures
            Seq::new(r@.len(), |i: int| r@[i]@) == self.spec_scope(),
    {
        self.name_context.names()
    }

    /// Forget all mappings, binders and fresh names (the known levels stay)
    pub fn reset(&mut self)
        ensures
            final(self).spec_names() == Map::<NameV, SemName>::empty(),
            final(self).spec_reverse() == Map::<SemName, NameV>::empty(),
            final(self).spec_levels() == old(self).spec_levels(),
            final(self).spec_depth() == 0,
            final(self).spec_counter() == 0,
            final(self).spec_scope() == Seq::<NameV>::empty(),
    {
        self.name_map.clear();
        self.reverse_name_map.clear();
        self.binding_depth = 0;
        self.fresh_counter = 0;
        self.name_context = NameContext::new();
    }

    /// The Lean name of the variable at a De Bruijn index
    pub fn lookup_variable(&self, index: usize) -> (r: LeanResult<LeanName>)
        ensures
            index < self.spec_scope().len() ==> {
                let n = self.spec_scope()[self.spec_scope().len() - 1 - index];
                if self.spec_names().contains_key(n) {
                    r matches Ok(l) && l@ == self.spec_names()[n]
                } else {
                    r matches Err(LeanError::NameResolution(_))
                }
            },
            index >= self.spec_scope().len() ==> r matches Err(LeanError::NameResolution(_)),
    {
        self.debruijn_to_lean(index)
    }
}

/// The levels `0` to `19`, each mapped to its Lean level.
fn init_universe_levels() -> (r: HashMap<u32, LeanLevel>)
    ensures
        r@.map_values(|l: LeanLevel| l@) == initial_levels(),
{
    let mut m: HashMap<u32, LeanLevel> = HashMap::new();
    let mut i: u32 = 0;
    while i < 20
        invariant
            i <= 20,
            m@.map_values(|l: LeanLevel| l@) == Map::new(|k: u32| k < i, |k: u32| spec_from_nat(k as nat)),
        decreases 20 - i,
    {
        let ghost before = m@;
        let level = LeanLevel::from_nat(i);
        let ghost lv = level;
        m.insert(i, level);
        proof {
            assert(m@ == before.insert(i, lv));
            let target = Map::new(|k: u32| k < i + 1, |k: u32| spec_from_nat(k as nat));
            let prev = Map::new(|k: u32| k < i, |k: u32| spec_from_nat(k as nat));
            assert forall|k: u32| #[trigger] m@.contains_key(k) <==> target.contains_key(k) by {
                assert(before.map_values(|l: LeanLevel| l@).contains_key(k) == prev.contains_key(k));
            }
            assert forall|k: u32| m@.contains_key(k) implies #[trigger] m@[k]@ == target[k] by {
                if k != i {
                    assert(before.map_values(|l: LeanLevel| l@)[k] == prev[k]);
                }
            }
            assert(m@.map_values(|l: LeanLevel| l@) =~= target);
        }
        i = i + 1;
    }
    assert(m@.map_values(|l: LeanLevel| l@) =~= initial_levels());
    m
}

impl Default for TranslationContext {
    fn default() -> (r: Self)
        ensures
            r.spec_names() == Map::<NameV, SemName>::empty(),
            r.spec_reverse() == Map::<SemName, NameV>::empty(),
            r.spec_levels() == initial_levels(),
            r.spec_depth() == 0,
            r.spec_counter() == 0,
            r.spec_scope() == Seq::<NameV>::empty(),
    {
        TranslationContext::new()
    }
}

} // verus!
