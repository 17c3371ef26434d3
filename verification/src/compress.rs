//! Type-directed compression of terms: variables, universes, applications
//! and projections are stored inline; other terms are stored by reference
//! to a shared table.

use vstd::prelude::*;
use std::sync::Arc;
use std::marker::PhantomData;
use crate::term::{Term, TermV};
use crate::shared::arc_clone;

verus! {

/// Terms that compress to a representation `R` with a proof object.
pub trait TypeCompressible<R>: Sized {
    /// The proof that a compression is valid
    type Proof;

    /// Compress a value of the given type
    fn compress(&self, ty: &Arc<Term>) -> (R, Self::Proof);

    /// Decompress a value of the given type
    fn decompress(compressed: R, proof: Self::Proof, ty: &Arc<Term>) -> Self;
}

/// A table of shared terms.
#[derive(Debug, Default)]
pub struct CompressionContext {
    shared: Vec<Arc<Term>>,
}

impl View for CompressionContext {
    type V = Seq<TermV>;

    closed spec fn view(&self) -> Seq<TermV> {
        Seq::new(self.shared@.len(), |i: int| self.shared@[i]@)
    }
}

impl CompressionContext {
    /// Create an empty table
    pub fn new() -> (r: Self)
        ensures
            r@ == Seq::<TermV>::empty(),
    {
        let r = CompressionContext { shared: Vec::new() };
        assert(r@ =~= Seq::<TermV>::empty());
        r
    }

    /// The index of the first equal term in the table, or the index of the
    /// term added last
    pub fn intern(&mut self, term: Arc<Term>) -> (r: usize)
        ensures
            (exists|j: int| 0 <= j < old(self)@.len() && old(self)@[j] == term@) ==> {
                &&& final(self)@ == old(self)@
                &&& r < old(self)@.len()
                &&& old(self)@[r as int] == term@
                &&& forall|k: int| 0 <= k < r ==> old(self)@[k] != term@
            },
            !(exists|j: int| 0 <= j < old(self)@.len() && old(self)@[j] == term@) ==> {
                &&& final(self)@ == old(self)@.push(term@)
                &&& r == old(self)@.len()
            },
    {
        let mut idx: usize = 0;
        while idx < self.shared.len()
            invariant
                idx <= self.shared@.len(),
                self@ == old(self)@,
                forall|k: int| 0 <= k < idx ==> self@[k] != term@,
            decreases self.shared@.len() - idx,
        {
            if self.shared[idx].equals(&term) {
                assert(old(self)@[idx as int] == term@);
                return idx;
            }
            idx = idx + 1;
        }
        let idx = self.shared.len();
        let ghost tv = term@;
        self.shared.push(term);
        assert(self@ =~= old(self)@.push(tv));
        idx
    }

    /// The term at an index
    pub fn get(&self, idx: usize) -> (r: Option<&Arc<Term>>)
        ensures
            r matches Some(t) ==> idx < self@.len() && t@ == self@[idx as int],
            r is None ==> idx >= self@.len(),
    {
        if idx < self.shared.len() {
            Some(&self.shared[idx])
        } else {
            None
        }
    }

    /// The number of terms in the table
    pub fn len(&self) -> (r: usize)
        ensures
            r == self@.len(),
    {
        self.shared.len()
    }

    /// Whether the table is empty
    pub fn is_empty(&self) -> (r: bool)
        ensures
            r == (self@.len() == 0),
    {
        self.shared.len() == 0
    }
}

/// A compressed term.
#[derive(Debug, PartialEq, Eq)]
pub enum CompressedTerm {
    /// Reference into a table of shared terms
    Shared(usize),
    /// Term stored inline
    Inline(CompressedInline),
}

/// Terms stored inline.
#[derive(Debug, PartialEq, Eq)]
pub enum CompressedInline {
    /// Variable
    Var(u32),
    /// Universe
    Universe(u32),
    /// Application
    App {
        func: Box<CompressedTerm>,
        arg: Box<CompressedTerm>,
    },
    /// First projection
    Fst(Box<CompressedTerm>),
    /// Second projection
    Snd(Box<CompressedTerm>),
}

impl CompressedTerm {
    /// A copy of this compressed term
    pub fn copy(&self) -> (r: Self)
        ensures
            r == *self,
        decreases self,
    {
        match self {
            CompressedTerm::Shared(i) => CompressedTerm::Shared(*i),
            CompressedTerm::Inline(inline) => CompressedTerm::Inline(match inline {
                CompressedInline::Var(l) => CompressedInline::Var(*l),
                CompressedInline::Universe(l) => CompressedInline::Universe(*l),
                CompressedInline::App { func, arg } => CompressedInline::App { func: Box::new(func.copy()), arg: Box::new(arg.copy()) },
                CompressedInline::Fst(t) => CompressedInline::Fst(Box::new(t.copy())),
                CompressedInline::Snd(t) => CompressedInline::Snd(Box::new(t.copy())),
            }),
        }
    }
}

impl Clone for CompressedTerm {
    fn clone(&self) -> (r: Self)
        ensures
            r == *self,
    {
        self.copy()
    }
}

/// A proof object for a compression, carrying no data.
pub struct CompressionProof<T> {
    _phantom: PhantomData<T>,
}

impl<T> CompressionProof<T> {
    /// Create a proof object
    pub fn new() -> (r: Self) {
        CompressionProof { _phantom: PhantomData }
    }
}

impl<T> Clone for CompressionProof<T> {
    fn clone(&self) -> (r: Self) {
        Self::new()
    }
}

impl<T> Copy for CompressionProof<T> {}

/// Compression of a term: variables, universes, applications and
/// projections inline, everything else as a reference to entry 0.
pub open spec fn spec_compress(t: TermV) -> CompressedTerm
    decreases t,
{
    match t {
        TermV::Var(l) => CompressedTerm::Inline(CompressedInline::Var(l)),
        TermV::Universe(l) => CompressedTerm::Inline(CompressedInline::Universe(l)),
        TermV::App(f, a) => CompressedTerm::Inline(CompressedInline::App {
            func: Box::new(spec_compress(*f)),
            arg: Box::new(spec_compress(*a)),
        }),
        TermV::Fst(p) => CompressedTerm::Inline(CompressedInline::Fst(Box::new(spec_compress(*p)))),
        TermV::Snd(p) => CompressedTerm::Inline(CompressedInline::Snd(Box::new(spec_compress(*p)))),
        _ => CompressedTerm::Shared(0),
    }
}

/// Decompression: inline terms rebuilt, references become variable 0.
pub open spec fn spec_decompress(c: CompressedTerm) -> TermV
    decreases c,
{
    match c {
        CompressedTerm::Inline(inline) => match inline {
            CompressedInline::Var(l) => TermV::Var(l),
            CompressedInline::Universe(l) => TermV::Universe(l),
            CompressedInline::App { func, arg } => TermV::App(Box::new(spec_decompress(*func)), Box::new(spec_decompress(*arg))),
            CompressedInline::Fst(t) => TermV::Fst(Box::new(spec_decompress(*t))),
            CompressedInline::Snd(t) => TermV::Snd(Box::new(spec_decompress(*t))),
        },
        CompressedTerm::Shared(_) => TermV::Var(0),
    }
}

/// Whether a term is built only from variables, universes, applications
/// and projections (the terms stored inline).
pub open spec fn inline_only(t: TermV) -> bool
    decreases t,
{
    match t {
        TermV::Var(_) | TermV::Universe(_) => true,
        TermV::App(f, a) => inline_only(*f) && inline_only(*a),
        TermV::Fst(p) | TermV::Snd(p) => inline_only(*p),
        _ => false,
    }
}

/// Compression loses nothing on terms stored inline: decompressing a
/// compressed term gives it back.
pub proof fn lemma_compress_roundtrip(t: TermV)
    requires
        inline_only(t),
    ensures
        spec_decompress(spec_compress(t)) == t,
    decreases t,
{
    match t {
        TermV::App(f, a) => {
            lemma_compress_roundtrip(*f);
            lemma_compress_roundtrip(*a);
        },
        TermV::Fst(p) | TermV::Snd(p) => {
            lemma_compress_roundtrip(*p);
        },
        _ => {},
    }
}

fn compress_term(t: &Term) -> (r: CompressedTerm)
    ensures
        r == spec_compress(t@),
    decreases t,
{
    match t {
        Term::Var(level) => CompressedTerm::Inline(CompressedInline::Var(*level)),
        Term::Universe(level) => CompressedTerm::Inline(CompressedInline::Universe(*level)),
        Term::App { func, arg } => CompressedTerm::Inline(CompressedInline::App {
            func: Box::new(compress_term(func)),
            arg: Box::new(compress_term(arg)),
        }),
        Term::Fst(term) => CompressedTerm::Inline(CompressedInline::Fst(Box::new(compress_term(term)))),
        Term::Snd(term) => CompressedTerm::Inline(CompressedInline::Snd(Box::new(compress_term(term)))),
        _ => CompressedTerm::Shared(0),
    }
}

fn decompress_term(c: &CompressedTerm) -> (r: Term)
    ensures
        r@ == spec_decompress(*c),
    decreases c,
{
    match c {
        CompressedTerm::Inline(inline) => match inline {
            CompressedInline::Var(level) => Term::Var(*level),
            CompressedInline::Universe(level) => Term::Universe(*level),
            CompressedInline::App { func, arg } => Term::App { func: Arc::new(decompress_term(func)), arg: Arc::new(decompress_term(arg)) },
            CompressedInline::Fst(term) => Term::Fst(Arc::new(decompress_term(term))),
            CompressedInline::Snd(term) => Term::Snd(Arc::new(decompress_term(term))),
        },
        CompressedTerm::Shared(_) => Term::Var(0),
    }
}

impl TypeCompressible<CompressedTerm> for Term {
    type Proof = CompressionProof<Term>;

    fn compress(&self, ty: &Arc<Term>) -> (r: (CompressedTerm, Self::Proof))
        ensures
            r.0 == spec_compress(self@),
    {
        (compress_term(self), CompressionProof::new())
    }

    fn decompress(compressed: CompressedTerm, proof: Self::Proof, ty: &Arc<Term>) -> (r: Self)
        ensures
            r@ == spec_decompress(compressed),
    {
        decompress_term(&compressed)
    }
}

/// A database of compressed terms.
#[derive(Debug, Default)]
pub struct CompressedDatabase {
    context: CompressionContext,
    compressed_terms: Vec<CompressedTerm>,
}

impl CompressedDatabase {
    /// The compressed terms stored, in order.
    pub closed spec fn spec_terms(&self) -> Seq<CompressedTerm> {
        self.compressed_terms@
    }

    /// Create an empty database
    pub fn new() -> (r: Self)
        ensures
            r.spec_terms() == Seq::<CompressedTerm>::empty(),
    {
        CompressedDatabase { context: CompressionContext::new(), compressed_terms: Vec::new() }
    }

    /// Compress a term and store it; returns its index
    pub fn add_term(&mut self, term: &Arc<Term>, ty: &Arc<Term>) -> (r: usize)
        ensures
            r == old(self).spec_terms().len(),
            final(self).spec_terms() == old(self).spec_terms().push(spec_compress(term@)),
    {
        let (compressed, _proof) = term.compress(ty);
        let idx = self.compressed_terms.len();
        self.compressed_terms.push(compressed);
        idx
    }

    /// The compressed term at an index
    pub fn get_compressed(&self, idx: usize) -> (r: Option<&CompressedTerm>)
        ensures
            r matches Some(c) ==> idx < self.spec_terms().len() && *c == self.spec_terms()[idx as int],
            r is None ==> idx >= self.spec_terms().len(),
    {
        if idx < self.compressed_terms.len() {
            Some(&self.compressed_terms[idx])
        } else {
            None
        }
    }

    /// The term at an index, decompressed
    pub fn decompress_term(&self, idx: usize, ty: &Arc<Term>) -> (r: Option<Term>)
        ensures
            r matches Some(t) ==> idx < self.spec_terms().len() && t@ == spec_decompress(self.spec_terms()[idx as int]),
            r is None ==> idx >= self.spec_terms().len(),
    {
        match self.get_compressed(idx) {
            Some(c) => Some(<Term as TypeCompressible<CompressedTerm>>::decompress(c.copy(), CompressionProof::new(), ty)),
            None => None,
        }
    }

    /// The number of terms stored
    pub fn len(&self) -> (r: usize)
        ensures
            r == self.spec_terms().len(),
    {
        self.compressed_terms.len()
    }

    /// Whether no term is stored
    pub fn is_empty(&self) -> (r: bool)
        ensures
            r == (self.spec_terms().len() == 0),
    {
        self.compressed_terms.len() == 0
    }
}

} // verus!
