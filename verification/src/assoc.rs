//! Small association maps for keys compared by their views.

use vstd::prelude::*;
use crate::kernel::name::Name;
use crate::lean::types::{LeanName, LeanTerm};
use crate::kernel::Term;

verus! {

/// Values that can be compared and copied by their views.
pub trait Keyed: View + Sized {
    /// Equality of views
    fn key_eq(&self, other: &Self) -> (r: bool)
        ensures
            r == (self@ == other@);

    /// A copy with the same view
    fn key_copy(&self) -> (r: Self)
        ensures
            r@ == self@;
}

impl Keyed for Name {
    fn key_eq(&self, other: &Self) -> (r: bool) {
        self.same(other)
    }

    fn key_copy(&self) -> (r: Self) {
        self.copy()
    }
}

impl Keyed for LeanName {
    fn key_eq(&self, other: &Self) -> (r: bool) {
        self.same(other)
    }

    fn key_copy(&self) -> (r: Self) {
        self.copy()
    }
}

impl Keyed for Term {
    fn key_eq(&self, other: &Self) -> (r: bool) {
        self.equals(other)
    }

    fn key_copy(&self) -> (r: Self) {
        self.copy()
    }
}

impl Keyed for LeanTerm {
    fn key_eq(&self, other: &Self) -> (r: bool) {
        self.same(other)
    }

    fn key_copy(&self) -> (r: Self) {
        self.copy()
    }
}

impl Keyed for String {
    fn key_eq(&self, other: &Self) -> (r: bool) {
        *self == *other
    }

    fn key_copy(&self) -> (r: Self) {
        String::from_str(self.as_str())
    }
}

impl Keyed for (usize, isize) {
    fn key_eq(&self, other: &Self) -> (r: bool) {
        self.0 == other.0 && self.1 == other.1
    }

    fn key_copy(&self) -> (r: Self) {
        (self.0, self.1)
    }
}

impl Keyed for (Vec<usize>, usize, isize) {
    fn key_eq(&self, other: &Self) -> (r: bool) {
        self.1 == other.1 && self.2 == other.2 && self.0.key_eq(&other.0)
    }

    fn key_copy(&self) -> (r: Self) {
        (self.0.key_copy(), self.1, self.2)
    }
}

impl Keyed for (u64, u64) {
    fn key_eq(&self, other: &Self) -> (r: bool) {
        self.0 == other.0 && self.1 == other.1
    }

    fn key_copy(&self) -> (r: Self) {
        (self.0, self.1)
    }
}

impl Keyed for Vec<usize> {
    fn key_eq(&self, other: &Self) -> (r: bool) {
        if self.len() != other.len() {
            return false;
        }
        let mut i: usize = 0;
        while i < self.len()
            invariant
                i <= self@.len(),
                self@.len() == other@.len(),
                forall|j: int| 0 <= j < i ==> self@[j] == other@[j],
            decreases self@.len() - i,
        {
            if self[i] != other[i] {
                return false;
            }
            i = i + 1;
        }
        assert(self@ =~= other@);
        true
    }

    fn key_copy(&self) -> (r: Self) {
        let mut out: Vec<usize> = Vec::new();
        let mut i: usize = 0;
        while i < self.len()
            invariant
                i <= self@.len(),
                out@ == self@.subrange(0, i as int),
            decreases self@.len() - i,
        {
            out.push(self[i]);
            i = i + 1;
            assert(out@ =~= self@.subrange(0, i as int));
        }
        assert(out@ =~= self@);
        out
    }
}

/// The map that a list of entries denotes: later entries override earlier
/// ones.
pub open spec fn assoc<K: View, V: View>(s: Seq<(K, V)>) -> Map<K::V, V::V>
    decreases s.len(),
{
    if s.len() == 0 {
        Map::empty()
    } else {
        assoc(s.drop_last()).insert(s.last().0@, s.last().1@)
    }
}

/// Whether no two entries have keys with the same view.
pub open spec fn keys_distinct<K: View, V>(s: Seq<(K, V)>) -> bool {
    forall|i: int, j: int| 0 <= i < j < s.len() ==> #[trigger] s[i].0@ != #[trigger] s[j].0@
}

/// A key is mapped exactly when some entry carries it.
pub proof fn lemma_assoc_dom<K: View, V: View>(s: Seq<(K, V)>, k: K::V)
    ensures
        assoc(s).contains_key(k) <==> exists|i: int| 0 <= i < s.len() && #[trigger] s[i].0@ == k,
    decreases s.len(),
{
    if s.len() > 0 {
        lemma_assoc_dom(s.drop_last(), k);
        if assoc(s.drop_last()).contains_key(k) {
            let i = choose|i: int| 0 <= i < s.drop_last().len() && #[trigger] s.drop_last()[i].0@ == k;
            assert(s[i].0@ == k);
        }
        if exists|i: int| 0 <= i < s.len() && #[trigger] s[i].0@ == k {
            let i = choose|i: int| 0 <= i < s.len() && #[trigger] s[i].0@ == k;
            if i < s.len() - 1 {
                assert(s.drop_last()[i].0@ == k);
            }
        }
    }
}

/// With distinct keys, the map has one key per entry.
pub proof fn lemma_assoc_len<K: View, V: View>(s: Seq<(K, V)>)
    requires
        keys_distinct(s),
    ensures
        assoc(s).dom().finite(),
        assoc(s).len() == s.len(),
    decreases s.len(),
{
    if s.len() > 0 {
        let p = s.drop_last();
        assert(keys_distinct(p)) by {
            assert forall|i: int, j: int| 0 <= i < j < p.len() implies #[trigger] p[i].0@ != #[trigger] p[j].0@ by {
                assert(p[i] == s[i] && p[j] == s[j]);
            }
        }
        lemma_assoc_len(p);
        lemma_assoc_dom(p, s.last().0@);
        if assoc(p).contains_key(s.last().0@) {
            let i = choose|i: int| 0 <= i < p.len() && #[trigger] p[i].0@ == s.last().0@;
            assert(s[i].0@ == s[s.len() - 1].0@);
        }
    }
}

/// A map from keys to values kept as a list of entries with distinct keys.
#[derive(Debug)]
pub struct AssocMap<K: View, V> {
    entries: Vec<(K, V)>,
}

impl<K: View, V> AssocMap<K, V> {
    #[verifier::type_invariant]
    spec fn distinct(self) -> bool {
        keys_distinct(self.entries@)
    }
}

impl<K: Keyed, V: Keyed> Clone for AssocMap<K, V> {
    fn clone(&self) -> (r: Self)
        ensures
            r.map() == self.map(),
    {
        proof { use_type_invariant(self); }
        let mut copied: Vec<(K, V)> = Vec::new();
        let mut i: usize = 0;
        while i < self.entries.len()
            invariant
                i <= self.entries@.len(),
                copied@.len() == i,
                keys_distinct(self.entries@),
                forall|j: int| 0 <= j < i ==> (#[trigger] copied@[j]).0@ == self.entries@[j].0@
                    && copied@[j].1@ == self.entries@[j].1@,
            decreases self.entries@.len() - i,
        {
            let entry = &self.entries[i];
            copied.push((entry.0.key_copy(), entry.1.key_copy()));
            i = i + 1;
        }
        proof {
            assert(keys_distinct(copied@)) by {
                assert forall|a: int, b: int| 0 <= a < b < copied@.len() implies #[trigger] copied@[a].0@ != #[trigger] copied@[b].0@ by {
                    assert(self.entries@[a].0@ != self.entries@[b].0@);
                }
            }
            lemma_assoc_same(copied@, self.entries@);
        }
        AssocMap { entries: copied }
    }
}

/// Lists of entries with the same views denote the same map.
pub proof fn lemma_assoc_same<K: View, V: View>(a: Seq<(K, V)>, b: Seq<(K, V)>)
    requires
        a.len() == b.len(),
        forall|j: int| 0 <= j < a.len() ==> (#[trigger] a[j]).0@ == b[j].0@ && a[j].1@ == b[j].1@,
    ensures
        assoc(a) == assoc(b),
    decreases a.len(),
{
    if a.len() > 0 {
        lemma_assoc_same(a.drop_last(), b.drop_last());
        assert(a.last().0@ == b.last().0@);
    }
}

impl<K: Keyed, V: Keyed> AssocMap<K, V> {
    /// The map denoted.
    pub closed spec fn map(&self) -> Map<K::V, V::V> {
        assoc(self.entries@)
    }

    /// An empty map
    pub fn new() -> (r: Self)
        ensures
            r.map() == Map::<K::V, V::V>::empty(),
    {
        AssocMap { entries: Vec::new() }
    }

    /// Map a key to a value, replacing any earlier value
    pub fn insert(&mut self, k: K, v: V)
        ensures
            final(self).map() == old(self).map().insert(k@, v@),
    {
        let _ = self.remove(&k);
        proof {
            use_type_invariant(&*self);
            lemma_assoc_dom(self.entries@, k@);
        }
        let ghost before = self.entries@;
        let ghost kv = k@;
        let ghost vv = v@;
        let mut entries = Vec::new();
        std::mem::swap(&mut entries, &mut self.entries);
        entries.push((k, v));
        proof {
            assert(entries@.drop_last() =~= before);
            assert(keys_distinct(entries@)) by {
                assert forall|i: int, j: int| 0 <= i < j < entries@.len() implies #[trigger] entries@[i].0@ != #[trigger] entries@[j].0@ by {
                    if j == entries@.len() - 1 {
                        assert(before[i].0@ == entries@[i].0@);
                    } else {
                        assert(before[i] == entries@[i] && before[j] == entries@[j]);
                    }
                }
            }
            assert(assoc(entries@) == assoc(before).insert(kv, vv));
        }
        self.entries = entries;
    }

    /// The number of keys mapped
    pub fn len(&self) -> (r: usize)
        ensures
            r == self.map().len(),
            self.map().dom().finite(),
    {
        proof {
            use_type_invariant(self);
            lemma_assoc_len(self.entries@);
        }
        self.entries.len()
    }

    /// The value a key maps to
    pub fn get(&self, k: &K) -> (r: Option<&V>)
        ensures
            r matches Some(v) ==> self.map().contains_key(k@) && v@ == self.map()[k@],
            r is None ==> !self.map().contains_key(k@),
    {
        let n = self.entries.len();
        let ghost s = self.entries@;
        let mut i: usize = 0;
        assert(s.subrange(0, n as int) =~= s);
        while i < n
            invariant
                i <= n,
                n == s.len(),
                s == self.entries@,
                assoc(s).contains_key(k@) == assoc(s.subrange(0, n - i)).contains_key(k@),
                assoc(s).contains_key(k@) ==> assoc(s)[k@] == assoc(s.subrange(0, n - i))[k@],
            decreases n - i,
        {
            let ghost sub = s.subrange(0, n - i);
            proof {
                assert(sub.drop_last() =~= s.subrange(0, n - i - 1));
                assert(sub.last() == s[n - 1 - i]);
            }
            let entry = &self.entries[n - 1 - i];
            if entry.0.key_eq(k) {
                return Some(&entry.1);
            }
            i = i + 1;
        }
        assert(s.subrange(0, 0) =~= Seq::<(K, V)>::empty());
        None
    }

    /// Whether a key is mapped
    pub fn contains_key(&self, k: &K) -> (r: bool)
        ensures
            r == self.map().contains_key(k@),
    {
        self.get(k).is_some()
    }

    /// Unmap a key, returning the value it mapped to
    pub fn remove(&mut self, k: &K) -> (r: Option<V>)
        ensures
            final(self).map() == old(self).map().remove(k@),
            r matches Some(v) ==> old(self).map().contains_key(k@) && v@ == old(self).map()[k@],
            r is None ==> !old(self).map().contains_key(k@),
    {
        let result = match self.get(k) {
            Some(v) => Some(v.key_copy()),
            None => None,
        };
        proof { use_type_invariant(&*self); }
        let ghost s = self.entries@;
        let mut kept: Vec<(K, V)> = Vec::new();
        let mut i: usize = 0;
        assert(assoc(kept@) =~= assoc(s.subrange(0, 0)).remove(k@));
        while i < self.entries.len()
            invariant
                i <= s.len(),
                s == self.entries@,
                keys_distinct(s),
                keys_distinct(kept@),
                forall|a: int| 0 <= a < kept@.len() ==> exists|b: int| 0 <= b < i && (#[trigger] kept@[a]).0@ == s[b].0@,
                assoc(kept@) == assoc(s.subrange(0, i as int)).remove(k@),
            decreases s.len() - i,
        {
            let entry = &self.entries[i];
            proof {
                assert(s.subrange(0, i + 1).drop_last() =~= s.subrange(0, i as int));
            }
            if !entry.0.key_eq(k) {
                let ghost before = kept@;
                kept.push((entry.0.key_copy(), entry.1.key_copy()));
                proof {
                    assert(kept@.drop_last() =~= before);
                    assert(assoc(kept@) =~= assoc(s.subrange(0, i + 1)).remove(k@));
                    assert forall|a: int| 0 <= a < kept@.len() implies exists|b: int| 0 <= b < i + 1 && (#[trigger] kept@[a]).0@ == s[b].0@ by {
                        if a < before.len() {
                            assert(kept@[a] == before[a]);
                            let b = choose|b: int| 0 <= b < i && before[a].0@ == s[b].0@;
                            assert(kept@[a].0@ == s[b].0@);
                        } else {
                            assert(kept@[a].0@ == s[i as int].0@);
                        }
                    }
                    assert(keys_distinct(kept@)) by {
                        assert forall|x: int, y: int| 0 <= x < y < kept@.len() implies #[trigger] kept@[x].0@ != #[trigger] kept@[y].0@ by {
                            if y == kept@.len() - 1 {
                                assert(kept@[x] == before[x]);
                                let b = choose|b: int| 0 <= b < i && before[x].0@ == s[b].0@;
                                assert(s[b].0@ != s[i as int].0@);
                            } else {
                                assert(kept@[x] == before[x] && kept@[y] == before[y]);
                            }
                        }
                    }
                }
            } else {
                proof {
                    assert(assoc(kept@) =~= assoc(s.subrange(0, i + 1)).remove(k@));
                }
            }
            i = i + 1;
        }
        assert(s.subrange(0, s.len() as int) =~= s);
        self.entries = kept;
        result
    }

    /// Unmap every key
    pub fn clear(&mut self)
        ensures
            final(self).map() == Map::<K::V, V::V>::empty(),
    {
        self.entries = Vec::new();
    }
}

} // verus!
