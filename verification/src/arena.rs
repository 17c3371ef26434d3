//! Interning of terms: equal terms share one handle.

use vstd::prelude::*;
use std::sync::Arc;
use crate::term::{Term, TermV};
use crate::shared::arc_clone;

verus! {

/// A store of interned terms.
#[derive(Debug, Default)]
pub struct Arena {
    terms: Vec<Arc<Term>>,
}

/// A handle to an interned term.
#[derive(Debug, Clone, PartialEq, Eq, Hash)]
pub struct TermHandle {
    id: usize,
}

impl TermHandle {
    /// The position of the term the handle refers to.
    pub closed spec fn spec_id(&self) -> usize {
        self.id
    }
}

impl View for Arena {
    type V = Seq<TermV>;

    closed spec fn view(&self) -> Seq<TermV> {
        Seq::new(self.terms@.len(), |i: int| self.terms@[i]@)
    }
}

impl Arena {
    /// Create an empty arena
    pub fn new() -> (r: Self)
        ensures
            r@ == Seq::<TermV>::empty(),
    {
        let r = Arena { terms: Vec::new() };
        assert(r@ =~= Seq::<TermV>::empty());
        r
    }

    /// Intern a term: the handle of the first equal term stored, or a new
    /// handle for the term, stored last
    pub fn intern(&mut self, term: Term) -> (r: TermHandle)
        ensures
            (exists|j: int| 0 <= j < old(self)@.len() && old(self)@[j] == term@) ==> {
                &&& final(self)@ == old(self)@
                &&& r.spec_id() < old(self)@.len()
                &&& old(self)@[r.spec_id() as int] == term@
                &&& forall|k: int| 0 <= k < r.spec_id() ==> old(self)@[k] != term@
            },
            !(exists|j: int| 0 <= j < old(self)@.len() && old(self)@[j] == term@) ==> {
                &&& final(self)@ == old(self)@.push(term@)
                &&& r.spec_id() == old(self)@.len()
            },
    {
        let arc_term = Arc::new(term);
        let mut id: usize = 0;
        while id < self.terms.len()
            invariant
                id <= self.terms@.len(),
                self@ == old(self)@,
                arc_term@ == term@,
                forall|k: int| 0 <= k < id ==> self@[k] != term@,
            decreases self.terms@.len() - id,
        {
            if self.terms[id].equals(&arc_term) {
                assert(old(self)@[id as int] == term@);
                return TermHandle { id };
            }
            id = id + 1;
        }
        let id = self.terms.len();
        let ghost tv = arc_term@;
        self.terms.push(arc_term);
        assert(self@ =~= old(self)@.push(tv));
        TermHandle { id }
    }

    /// The term a handle refers to
    pub fn get(&self, handle: &TermHandle) -> (r: Option<&Arc<Term>>)
        ensures
            r matches Some(t) ==> handle.spec_id() < self@.len() && t@ == self@[handle.spec_id() as int],
            r is None ==> handle.spec_id() >= self@.len(),
    {
        if handle.id < self.terms.len() {
            Some(&self.terms[handle.id])
        } else {
            None
        }
    }

    /// A shared pointer to the term a handle refers to
    pub fn get_arc(&self, handle: &TermHandle) -> (r: Option<Arc<Term>>)
        ensures
            r matches Some(t) ==> handle.spec_id() < self@.len() && t@ == self@[handle.spec_id() as int],
            r is None ==> handle.spec_id() >= self@.len(),
    {
        match self.get(handle) {
            Some(t) => Some(arc_clone(t)),
            None => None,
        }
    }

    /// The number of terms stored
    pub fn len(&self) -> (r: usize)
        ensures
            r == self@.len(),
    {
        self.terms.len()
    }

    /// Whether no term is stored
    pub fn is_empty(&self) -> (r: bool)
        ensures
            r == (self@.len() == 0),
    {
        self.terms.len() == 0
    }

    /// Forget every term
    pub fn clear(&mut self)
        ensures
            final(self)@ == Seq::<TermV>::empty(),
    {
        self.terms.clear();
        assert(self@ =~= Seq::<TermV>::empty());
    }

    /// The terms stored, in order
    pub fn terms(&self) -> (r: &[Arc<Term>])
        ensures
            Seq::new(r@.len(), |i: int| r@[i]@) == self@,
    {
        self.terms.as_slice()
    }
}

} // verus!
