//! Memory bookkeeping: an arena's block accounting, a hash-consing table
//! that hands out one shared copy per hash, and a pool of value slots with
//! a free list.

use vstd::prelude::*;
use std::collections::HashMap;
use std::collections::hash_map::DefaultHasher;
use std::hash::{Hash, Hasher};
use std::sync::Arc;
use crate::kernel::{Term, Value};
use super::fusion::spec_complexity;

verus! {

broadcast use vstd::std_specs::hash::group_hash_axioms;

// ---------------------------------------------------------------------
// Arena accounting
// ---------------------------------------------------------------------

/// Block accounting of an arena: blocks of `block_size` bytes, the
/// position in the current block, and totals.
#[derive(Debug)]
pub struct TermArena {
    current_block: Vec<u8>,
    current_pos: usize,
    block_size: usize,
    blocks: Vec<Vec<u8>>,
    total_allocated: usize,
    num_allocations: usize,
}

/// Arena allocation statistics
#[derive(Clone, Debug)]
pub struct ArenaStats {
    pub total_allocated: usize,
    pub num_allocations: usize,
    pub num_blocks: usize,
    pub block_size: usize,
    pub current_block_used: usize,
}

fn zero_block(size: usize) -> (r: Vec<u8>)
    ensures
        r@.len() == size,
        forall|i: int| 0 <= i < size ==> r@[i] == 0,
{
    let mut block: Vec<u8> = Vec::new();
    let mut i: usize = 0;
    while i < size
        invariant
            i <= size,
            block@.len() == i,
            forall|j: int| 0 <= j < i ==> block@[j] == 0,
        decreases size - i,
    {
        block.push(0);
        i = i + 1;
    }
    block
}

/// A position rounded up to an alignment (a power of two).
pub open spec fn align_up(pos: usize, align: usize) -> usize {
    ((pos + align - 1) as usize) & !((align - 1) as usize)
}

impl TermArena {
    /// The block size.
    pub closed spec fn spec_block_size(&self) -> usize {
        self.block_size
    }

    /// The number of stored blocks besides the current one.
    pub closed spec fn spec_old_blocks(&self) -> nat {
        self.blocks@.len()
    }

    /// The position in the current block.
    pub closed spec fn spec_position(&self) -> usize {
        self.current_pos
    }

    /// The totals: bytes and allocations.
    pub closed spec fn spec_totals(&self) -> (usize, usize) {
        (self.total_allocated, self.num_allocations)
    }

    /// Create a new arena with one zeroed block of `block_size` bytes
    pub fn new(block_size: usize) -> (r: Self)
        ensures
            r.spec_block_size() == block_size,
            r.spec_old_blocks() == 0,
            r.spec_position() == 0,
            r.spec_totals() == (0usize, 0usize),
    {
        TermArena {
            current_block: zero_block(block_size),
            current_pos: 0,
            block_size,
            blocks: Vec::new(),
            total_allocated: 0,
            num_allocations: 0,
        }
    }

    /// Get allocation statistics
    pub fn stats(&self) -> (r: ArenaStats)
        requires
            self.spec_old_blocks() + 1 <= usize::MAX,
        ensures
            r.total_allocated == self.spec_totals().0,
            r.num_allocations == self.spec_totals().1,
            r.num_blocks == self.spec_old_blocks() + 1,
            r.block_size == self.spec_block_size(),
            r.current_block_used == self.spec_position(),
    {
        ArenaStats {
            total_allocated: self.total_allocated,
            num_allocations: self.num_allocations,
            num_blocks: self.blocks.len() + 1,
            block_size: self.block_size,
            current_block_used: self.current_pos,
        }
    }

    /// Reserve room for a value: the position is rounded up to the value's
    /// alignment; when the value would not fit in the rest of the block,
    /// the block is stored and a fresh zeroed one begins, at the rounded
    /// start; the bytes and the allocation are counted. The value is handed
    /// back in an allocation of its own.
    pub fn allocate<T>(&mut self, value: T) -> (r: Box<T>)
        requires
            old(self).spec_position() + vstd::layout::align_of::<T>() <= usize::MAX,
            old(self).spec_totals().0 + vstd::layout::size_of::<T>() <= usize::MAX,
            old(self).spec_totals().1 < usize::MAX,
            align_up(old(self).spec_position(), vstd::layout::align_of::<T>() as usize)
                + vstd::layout::size_of::<T>() <= usize::MAX,
        ensures
            *r == value,
            final(self).spec_block_size() == old(self).spec_block_size(),
            final(self).spec_totals() == ((old(self).spec_totals().0 + vstd::layout::size_of::<T>()) as usize,
                (old(self).spec_totals().1 + 1) as usize),
            ({
                let align = vstd::layout::align_of::<T>() as usize;
                let size = vstd::layout::size_of::<T>();
                let aligned = align_up(old(self).spec_position(), align);
                if aligned + size > old(self).spec_block_size() {
                    &&& final(self).spec_old_blocks() == old(self).spec_old_blocks() + 1
                    &&& final(self).spec_position() == align_up(0, align) + size
                } else {
                    &&& final(self).spec_old_blocks() == old(self).spec_old_blocks()
                    &&& final(self).spec_position() == aligned + size
                }
            }),
    {
        vstd::layout::layout_for_type_is_valid::<T>();
        let size = core::mem::size_of::<T>();
        let align = core::mem::align_of::<T>();
        let aligned_pos = (self.current_pos + align - 1) & !(align - 1);
        if aligned_pos + size > self.block_size {
            let mut old_block = zero_block(self.block_size);
            std::mem::swap(&mut old_block, &mut self.current_block);
            self.blocks.push(old_block);
            self.current_pos = 0;
            let mask: usize = align - 1;
            let fresh_pos = (self.current_pos + mask) & !mask;
            assert(fresh_pos == 0) by (bit_vector)
                requires
                    fresh_pos == mask & !mask;
            self.current_pos = fresh_pos;
        } else {
            self.current_pos = aligned_pos;
        }
        self.current_pos = self.current_pos + size;
        self.total_allocated = self.total_allocated + size;
        self.num_allocations = self.num_allocations + 1;
        Box::new(value)
    }

    /// Reset arena: one zeroed block and zero totals
    pub fn reset(&mut self)
        ensures
            final(self).spec_block_size() == old(self).spec_block_size(),
            final(self).spec_old_blocks() == 0,
            final(self).spec_position() == 0,
            final(self).spec_totals() == (0usize, 0usize),
    {
        self.blocks = Vec::new();
        self.current_block = zero_block(self.block_size);
        self.current_pos = 0;
        self.total_allocated = 0;
        self.num_allocations = 0;
    }
}

// ---------------------------------------------------------------------
// Hash-consing
// ---------------------------------------------------------------------

/// The hash that std's `DefaultHasher` (as made by `DefaultHasher::new`)
/// gives a term through its derived `Hash`.
pub uninterp spec fn default_hash_term(t: Term) -> u64;

/// Hashes a term with a fresh `std::collections::hash_map::DefaultHasher`
/// (`new`, the derived `Hash::hash`, `finish`). Hashers made by `new` all
/// start from the same fixed keys, and the derived `Hash` walks the term's
/// structure, so the hash is a function of the term for a given standard
/// library; it is named, not stated.
#[verifier::external_body]
fn hash_term(term: &Term) -> (r: u64)
    ensures
        r == default_hash_term(*term),
{
    let mut hasher = DefaultHasher::new();
    term.hash(&mut hasher);
    hasher.finish()
}

/// Calls `Arc::strong_count`: how many pointers share the allocation at
/// this moment, which depends on the rest of the program; nothing is
/// stated of it.
#[verifier::external_body]
fn arc_strong_count(a: &Arc<Term>) -> (r: usize) {
    Arc::strong_count(a)
}

/// Whether a shared term is held anywhere besides the table.
fn shared_elsewhere(a: &Arc<Term>) -> (r: bool) {
    arc_strong_count(a) > 1
}

/// Calls `HashMap::retain` with a filter that keeps the terms held
/// elsewhere too; which those are depends on the rest of the program, so
/// only that no entry is added or changed is stated.
#[verifier::external_body]
fn retain_shared(m: &mut HashMap<u64, Arc<Term>>)
    ensures
        final(m)@.submap_of(old(m)@),
{
    m.retain(|_, term| shared_elsewhere(term))
}

/// The first key that iterating over the map (`keys().next()`) yields;
/// the order depends on the map's per-process hasher seed, so only that
/// the key is in the map, and that there is one when the map is not
/// empty, is stated.
#[verifier::external_body]
fn first_key(m: &HashMap<u64, Arc<Term>>) -> (r: Option<u64>)
    ensures
        r matches Some(k) ==> m@.contains_key(k),
        r is None ==> m@.dom() == Set::<u64>::empty(),
{
    m.keys().next().copied()
}

proof fn lemma_submap_trans(a: Map<u64, Arc<Term>>, b: Map<u64, Arc<Term>>, c: Map<u64, Arc<Term>>)
    requires
        a.submap_of(b),
        b.submap_of(c),
    ensures
        a.submap_of(c),
{
    assert forall|k: u64| #[trigger] a.contains_key(k) implies c.contains_key(k) && c[k] == a[k] by {
        assert(a.dom().contains(k));
        assert(b.dom().contains(k));
        assert(b[k] == a[k]);
        assert(c.dom().contains(k));
        assert(c[k] == b[k]);
    }
}

/// Whether every entry of a map is stored under the hash of its term.
pub open spec fn hash_keyed(m: Map<u64, Arc<Term>>) -> bool {
    forall|k: u64| #[trigger] m.contains_key(k) ==> default_hash_term(*m[k]) == k
}

/// The cache after adding `term` under `hash`: when it holds `limit`
/// entries or more, one of them (any) is removed first.
pub open spec fn cache_added(
    before: Map<u64, Arc<Term>>,
    after: Map<u64, Arc<Term>>,
    limit: usize,
    hash: u64,
    term: Arc<Term>,
) -> bool {
    if before.len() >= limit && before.len() > 0 {
        exists|k: u64| #[trigger] before.contains_key(k) && after == before.remove(k).insert(hash, term)
    } else {
        after == before.insert(hash, term)
    }
}

/// Hash-consing table: one canonical shared term per hash, with a smaller
/// cache in front of it.
#[derive(Debug)]
pub struct HashConsTable {
    table: HashMap<u64, Arc<Term>>,
    cache: HashMap<u64, Arc<Term>>,
    max_cache_size: usize,
    hits: u64,
    misses: u64,
}

/// Hash-consing statistics
#[derive(Clone, Debug)]
pub struct HashConsStats {
    pub table_size: usize,
    pub cache_size: usize,
    pub hits: u64,
    pub misses: u64,
}

impl HashConsTable {
    /// The canonical terms by hash.
    pub closed spec fn spec_table(&self) -> Map<u64, Arc<Term>> {
        self.table@
    }

    /// The cached terms by hash.
    pub closed spec fn spec_cache(&self) -> Map<u64, Arc<Term>> {
        self.cache@
    }

    /// The cache size at which an entry is evicted before adding one.
    pub closed spec fn spec_cache_limit(&self) -> usize {
        self.max_cache_size
    }

    /// The counts of hits and misses.
    pub closed spec fn spec_counts(&self) -> (u64, u64) {
        (self.hits, self.misses)
    }

    /// Every stored term is stored under its own hash.
    pub closed spec fn wf(&self) -> bool {
        &&& hash_keyed(self.table@)
        &&& hash_keyed(self.cache@)
        &&& self.table@.dom().finite()
        &&& self.cache@.dom().finite()
    }

    /// Create a new hash-consing table; the cache limit is a quarter of the
    /// capacity.
    pub fn new(initial_capacity: usize) -> (r: Self)
        ensures
            r.wf(),
            r.spec_table() == Map::<u64, Arc<Term>>::empty(),
            r.spec_cache() == Map::<u64, Arc<Term>>::empty(),
            r.spec_cache_limit() == initial_capacity / 4,
            r.spec_counts() == (0u64, 0u64),
    {
        HashConsTable {
            table: HashMap::with_capacity(initial_capacity),
            cache: HashMap::new(),
            max_cache_size: initial_capacity / 4,
            hits: 0,
            misses: 0,
        }
    }

    /// The canonical shared term for a term: the cached one when it is that
    /// term, else the one in the table when it is that term (then also
    /// cached), else, when no term is stored under the hash, the term
    /// itself, which becomes canonical. When another term is stored under
    /// the same hash, the term is handed back in an allocation of its own
    /// and the tables stay as they were. The result always equals the term.
    pub fn hash_cons(&mut self, term: Term) -> (r: Arc<Term>)
        requires
            old(self).wf(),
            old(self).spec_counts().0 < u64::MAX,
            old(self).spec_counts().1 < u64::MAX,
        ensures
            final(self).wf(),
            final(self).spec_cache_limit() == old(self).spec_cache_limit(),
            *r == term,
            old(self).spec_table().submap_of(final(self).spec_table()),
            ({
                let h = default_hash_term(term);
                let (hits, misses) = old(self).spec_counts();
                if old(self).spec_cache().contains_key(h) && *old(self).spec_cache()[h] == term {
                    &&& r == old(self).spec_cache()[h]
                    &&& final(self).spec_table() == old(self).spec_table()
                    &&& final(self).spec_cache() == old(self).spec_cache()
                    &&& final(self).spec_counts() == ((hits + 1) as u64, misses)
                } else if old(self).spec_table().contains_key(h) && *old(self).spec_table()[h] == term {
                    &&& r == old(self).spec_table()[h]
                    &&& final(self).spec_table() == old(self).spec_table()
                    &&& cache_added(old(self).spec_cache(), final(self).spec_cache(), old(self).spec_cache_limit(), h, r)
                    &&& final(self).spec_counts() == ((hits + 1) as u64, misses)
                } else if !old(self).spec_table().contains_key(h) {
                    &&& final(self).spec_table() == old(self).spec_table().insert(h, r)
                    &&& cache_added(old(self).spec_cache(), final(self).spec_cache(), old(self).spec_cache_limit(), h, r)
                    &&& final(self).spec_counts() == (hits, (misses + 1) as u64)
                } else {
                    &&& final(self).spec_table() == old(self).spec_table()
                    &&& final(self).spec_cache() == old(self).spec_cache()
                    &&& final(self).spec_counts() == (hits, (misses + 1) as u64)
                }
            }),
    {
        let hash = hash_term(&term);
        match self.cache.get(&hash) {
            Some(cached) => {
                if (**cached).equals(&term) {
                    let result = crate::shared::arc_clone(cached);
                    self.hits += 1;
                    return result;
                }
            },
            None => {},
        }
        let mut collision = false;
        match self.table.get(&hash) {
            Some(existing) => {
                if (**existing).equals(&term) {
                    let result = crate::shared::arc_clone(existing);
                    self.hits += 1;
                    self.add_to_cache(hash, crate::shared::arc_clone(&result));
                    return result;
                }
                collision = true;
            },
            None => {},
        }
        self.misses += 1;
        let canonical = Arc::new(term);
        if collision {
            return canonical;
        }
        self.table.insert(hash, crate::shared::arc_clone(&canonical));
        self.add_to_cache(hash, crate::shared::arc_clone(&canonical));
        canonical
    }

    /// Add a term to the cache, first evicting one entry when the cache
    /// holds its limit or more.
    fn add_to_cache(&mut self, hash: u64, term: Arc<Term>)
        requires
            hash_keyed(old(self).cache@),
            old(self).cache@.dom().finite(),
            default_hash_term(*term) == hash,
        ensures
            hash_keyed(final(self).cache@),
            final(self).cache@.dom().finite(),
            cache_added(old(self).cache@, final(self).cache@, old(self).max_cache_size, hash, term),
            final(self).table == old(self).table,
            final(self).max_cache_size == old(self).max_cache_size,
            final(self).hits == old(self).hits,
            final(self).misses == old(self).misses,
    {
        if self.cache.len() >= self.max_cache_size {
            let first = first_key(&self.cache);
            match first {
                Some(first_key) => {
                    let ghost before = self.cache@;
                    self.cache.remove(&first_key);
                    assert(before.contains_key(first_key));
                },
                None => {},
            }
        }
        self.cache.insert(hash, term);
    }

    /// Hash-cons every subterm, innermost first. Each node makes one
    /// lookup; the result equals the term.
    pub fn hash_cons_deep(&mut self, term: Term) -> (r: Arc<Term>)
        requires
            old(self).wf(),
            old(self).spec_counts().0 + old(self).spec_counts().1 + spec_complexity(term) <= u64::MAX,
        ensures
            final(self).wf(),
            final(self).spec_cache_limit() == old(self).spec_cache_limit(),
            old(self).spec_table().submap_of(final(self).spec_table()),
            final(self).spec_counts().0 + final(self).spec_counts().1
                == old(self).spec_counts().0 + old(self).spec_counts().1 + spec_complexity(term),
            final(self).spec_counts().0 >= old(self).spec_counts().0,
            final(self).spec_counts().1 >= old(self).spec_counts().1,
            *r == term,
        decreases term,
    {
        let ghost t0 = self.spec_table();
        let processed = match &term {
            Term::Var(_) | Term::Universe(_) | Term::Meta(_) => term.copy(),
            Term::Pi(domain, codomain) => {
                let hc_domain = self.hash_cons_deep(domain.copy());
                let ghost tm = self.spec_table();
                let hc_codomain = self.hash_cons_deep(codomain.copy());
                proof { lemma_submap_trans(t0, tm, self.spec_table()); }
                Term::Pi(hc_domain, hc_codomain)
            },
            Term::Lambda(body) => {
                let hc_body = self.hash_cons_deep(body.copy());
                Term::Lambda(hc_body)
            },
            Term::App(function, argument) => {
                let hc_function = self.hash_cons_deep(function.copy());
                let ghost tm = self.spec_table();
                let hc_argument = self.hash_cons_deep(argument.copy());
                proof { lemma_submap_trans(t0, tm, self.spec_table()); }
                Term::App(hc_function, hc_argument)
            },
            Term::Let(binding, body) => {
                let hc_binding = self.hash_cons_deep(binding.copy());
                let ghost tm = self.spec_table();
                let hc_body = self.hash_cons_deep(body.copy());
                proof { lemma_submap_trans(t0, tm, self.spec_table()); }
                Term::Let(hc_binding, hc_body)
            },
        };
        let ghost t1 = self.spec_table();
        let r = self.hash_cons(processed);
        proof { lemma_submap_trans(t0, t1, self.spec_table()); }
        r
    }

    /// Get hash-consing statistics
    pub fn stats(&self) -> (r: HashConsStats)
        requires
            self.wf(),
        ensures
            r.table_size == self.spec_table().len(),
            r.cache_size == self.spec_cache().len(),
            r.hits == self.spec_counts().0,
            r.misses == self.spec_counts().1,
    {
        HashConsStats {
            table_size: self.table.len(),
            cache_size: self.cache.len(),
            hits: self.hits,
            misses: self.misses,
        }
    }

    /// Clear the hash-consing table and its counts
    pub fn clear(&mut self)
        ensures
            final(self).wf(),
            final(self).spec_table() == Map::<u64, Arc<Term>>::empty(),
            final(self).spec_cache() == Map::<u64, Arc<Term>>::empty(),
            final(self).spec_cache_limit() == old(self).spec_cache_limit(),
            final(self).spec_counts() == (0u64, 0u64),
    {
        self.table.clear();
        self.cache.clear();
        self.hits = 0;
        self.misses = 0;
    }

    /// Drop the entries whose term is held nowhere else.
    pub fn compact(&mut self)
        requires
            old(self).wf(),
        ensures
            final(self).wf(),
            final(self).spec_table().submap_of(old(self).spec_table()),
            final(self).spec_cache().submap_of(old(self).spec_cache()),
            final(self).spec_cache_limit() == old(self).spec_cache_limit(),
            final(self).spec_counts() == old(self).spec_counts(),
    {
        retain_shared(&mut self.table);
        retain_shared(&mut self.cache);
        proof {
            vstd::set_lib::lemma_len_subset(self.table@.dom(), old(self).table@.dom());
            vstd::set_lib::lemma_len_subset(self.cache@.dom(), old(self).cache@.dom());
            assert forall|k: u64| #[trigger] self.table@.contains_key(k) implies default_hash_term(*self.table@[k]) == k by {
                assert(old(self).table@.contains_key(k));
            }
            assert forall|k: u64| #[trigger] self.cache@.contains_key(k) implies default_hash_term(*self.cache@[k]) == k by {
                assert(old(self).cache@.contains_key(k));
            }
        }
    }
}

// ---------------------------------------------------------------------
// Value pool
// ---------------------------------------------------------------------

/// A list of distinct slot numbers, all below `n`, has at most `n` entries.
proof fn lemma_distinct_below(s: Seq<usize>, n: usize)
    requires
        s.no_duplicates(),
        forall|i: int| 0 <= i < s.len() ==> #[trigger] s[i] < n,
    ensures
        s.len() <= n,
{
    let si = s.map_values(|x: usize| x as int);
    assert(si.no_duplicates()) by {
        assert forall|i: int, j: int| 0 <= i < si.len() && 0 <= j < si.len() && i != j implies si[i] != si[j] by {
            assert(s[i] != s[j]);
        }
    }
    si.unique_seq_to_set();
    vstd::set_lib::lemma_int_range(0, n as int);
    assert(si.to_set().subset_of(vstd::set_lib::set_int_range(0, n as int))) by {
        assert forall|x: int| #[trigger] si.to_set().contains(x) implies vstd::set_lib::set_int_range(0, n as int).contains(x) by {
            assert(si.contains(x));
            let i = choose|i: int| 0 <= i < si.len() && si[i] == x;
            assert(s[i] < n);
        }
    }
    vstd::set_lib::lemma_len_subset(si.to_set(), vstd::set_lib::set_int_range(0, n as int));
}

/// Pool of value slots: slots below `next_free` have been handed out, and
/// freed ones wait on a free list to be handed out again, most recent
/// first.
#[derive(Debug)]
pub struct ValuePool {
    pool: Vec<Option<Value>>,
    next_free: usize,
    free_list: Vec<usize>,
    total_allocations: u64,
    total_deallocations: u64,
}

/// Pool allocation statistics
#[derive(Clone, Debug)]
pub struct PoolStats {
    pub capacity: usize,
    pub used: usize,
    pub free_slots: usize,
    pub total_allocations: u64,
    pub total_deallocations: u64,
}

impl ValuePool {
    /// The slots.
    pub closed spec fn slots(&self) -> Seq<Option<Value>> {
        self.pool@
    }

    /// The first slot never handed out.
    pub closed spec fn spec_next_free(&self) -> usize {
        self.next_free
    }

    /// The freed slots, the next to reuse last.
    pub closed spec fn spec_free_list(&self) -> Seq<usize> {
        self.free_list@
    }

    /// The counts of allocations and deallocations.
    pub closed spec fn spec_counts(&self) -> (u64, u64) {
        (self.total_allocations, self.total_deallocations)
    }

    /// Slots past `next_free` are empty; freed slots are distinct, below
    /// `next_free` and empty.
    pub closed spec fn wf(&self) -> bool {
        &&& self.next_free <= self.pool@.len()
        &&& forall|i: int| self.next_free <= i < self.pool@.len() ==> #[trigger] self.pool@[i] is None
        &&& self.free_list@.no_duplicates()
        &&& forall|j: int| 0 <= j < self.free_list@.len() ==> #[trigger] self.free_list@[j] < self.next_free
            && self.pool@[self.free_list@[j] as int] is None
    }

    /// Create a new value pool of empty slots
    pub fn new(initial_capacity: usize) -> (r: Self)
        ensures
            r.wf(),
            r.slots() == Seq::new(initial_capacity as nat, |i: int| None::<Value>),
            r.spec_next_free() == 0,
            r.spec_free_list() == Seq::<usize>::empty(),
            r.spec_counts() == (0u64, 0u64),
    {
        let mut pool: Vec<Option<Value>> = Vec::new();
        let mut i: usize = 0;
        while i < initial_capacity
            invariant
                i <= initial_capacity,
                pool@.len() == i,
                forall|j: int| 0 <= j < i ==> #[trigger] pool@[j] is None,
            decreases initial_capacity - i,
        {
            pool.push(None);
            i = i + 1;
        }
        let r = ValuePool { pool, next_free: 0, free_list: Vec::new(), total_allocations: 0, total_deallocations: 0 };
        assert(r.slots() =~= Seq::new(initial_capacity as nat, |i: int| None::<Value>));
        r
    }

    /// Store a value in a slot and return the slot: the last freed slot if
    /// any, else the next unused one, else a new one past the end after the
    /// pool doubles.
    pub fn allocate(&mut self, value: Value) -> (r: usize)
        requires
            old(self).wf(),
            old(self).slots().len() > 0,
            old(self).slots().len() * 2 <= usize::MAX,
            old(self).spec_counts().0 < u64::MAX,
        ensures
            final(self).wf(),
            r < final(self).slots().len(),
            final(self).slots()[r as int] == Some(value),
            old(self).spec_free_list().len() > 0 ==> r == old(self).spec_free_list().last()
                && final(self).spec_free_list() == old(self).spec_free_list().drop_last()
                && final(self).spec_next_free() == old(self).spec_next_free()
                && final(self).slots().len() == old(self).slots().len(),
            old(self).spec_free_list().len() == 0 && old(self).spec_next_free() < old(self).slots().len() ==> r == old(self).spec_next_free()
                && final(self).spec_next_free() == old(self).spec_next_free() + 1
                && final(self).spec_free_list() == old(self).spec_free_list()
                && final(self).slots().len() == old(self).slots().len(),
            old(self).spec_free_list().len() == 0 && old(self).spec_next_free() >= old(self).slots().len() ==> r == old(self).slots().len()
                && final(self).spec_next_free() == r + 1
                && final(self).spec_free_list() == old(self).spec_free_list()
                && final(self).slots().len() == 2 * old(self).slots().len(),
            forall|i: int| 0 <= i < old(self).slots().len() && i != r ==> #[trigger] final(self).slots()[i] == old(self).slots()[i],
            forall|i: int| old(self).slots().len() <= i < final(self).slots().len() && i != r ==> #[trigger] final(self).slots()[i] is None,
            final(self).spec_counts() == ((old(self).spec_counts().0 + 1) as u64, old(self).spec_counts().1),
    {
        let slot = match self.free_list.pop() {
            Some(free_slot) => {
                proof {
                    assert(old(self).free_list@.last() == free_slot);
                    assert(self.free_list@ =~= old(self).free_list@.drop_last());
                }
                free_slot
            },
            None => {
                if self.next_free < self.pool.len() {
                    let slot = self.next_free;
                    self.next_free += 1;
                    slot
                } else {
                    let slot = self.pool.len();
                    let target = self.pool.len() * 2;
                    while self.pool.len() < target
                        invariant
                            old(self).pool@.len() <= self.pool@.len() <= target,
                            target == 2 * old(self).pool@.len(),
                            forall|i: int| 0 <= i < old(self).pool@.len() ==> #[trigger] self.pool@[i] == old(self).pool@[i],
                            forall|i: int| old(self).pool@.len() <= i < self.pool@.len() ==> #[trigger] self.pool@[i] is None,
                            self.next_free == old(self).next_free,
                            self.free_list@ == old(self).free_list@,
                            self.total_allocations == old(self).total_allocations,
                            self.total_deallocations == old(self).total_deallocations,
                        decreases target - self.pool@.len(),
                    {
                        self.pool.push(None);
                    }
                    self.next_free = slot + 1;
                    slot
                }
            },
        };
        self.pool.set(slot, Some(value));
        self.total_allocations += 1;
        proof {
            assert forall|j: int| 0 <= j < self.free_list@.len() implies #[trigger] self.free_list@[j] < self.next_free
                && self.pool@[self.free_list@[j] as int] is None by {
                assert(self.free_list@[j] == old(self).free_list@[j]);
                if old(self).free_list@.len() > 0 {
                    assert(old(self).free_list@[old(self).free_list@.len() - 1] == slot);
                    assert(self.free_list@[j] != slot);
                }
            }
        }
        slot
    }

    /// Empty a slot that holds a value and put it on the free list; any
    /// other slot number changes nothing.
    pub fn deallocate(&mut self, slot: usize)
        requires
            old(self).wf(),
            old(self).spec_counts().1 < u64::MAX,
        ensures
            final(self).wf(),
            ({
                let held = slot < old(self).slots().len() && old(self).slots()[slot as int] is Some;
                &&& held ==> final(self).slots() == old(self).slots().update(slot as int, None)
                    && final(self).spec_free_list() == old(self).spec_free_list().push(slot)
                    && final(self).spec_next_free() == old(self).spec_next_free()
                    && final(self).spec_counts() == (old(self).spec_counts().0, (old(self).spec_counts().1 + 1) as u64)
                &&& !held ==> *final(self) == *old(self)
            }),
    {
        if slot < self.pool.len() && self.pool[slot].is_some() {
            let ghost before = self.free_list@;
            self.pool.set(slot, None);
            self.free_list.push(slot);
            self.total_deallocations += 1;
            proof {
                assert(slot < self.next_free);
                assert forall|j: int| 0 <= j < before.len() implies #[trigger] before[j] != slot by {
                    assert(old(self).pool@[before[j] as int] is None);
                }
                assert(self.free_list@.no_duplicates()) by {
                    assert forall|a: int, b: int| 0 <= a < self.free_list@.len() && 0 <= b < self.free_list@.len() && a != b
                        implies self.free_list@[a] != self.free_list@[b] by {
                        if a < before.len() && b < before.len() {
                            assert(before[a] != before[b]);
                        } else if a < before.len() {
                            assert(before[a] != slot);
                        } else if b < before.len() {
                            assert(before[b] != slot);
                        }
                    }
                }
                assert forall|j: int| 0 <= j < self.free_list@.len() implies #[trigger] self.free_list@[j] < self.next_free
                    && self.pool@[self.free_list@[j] as int] is None by {
                    if j < before.len() {
                        assert(self.free_list@[j] == before[j]);
                    }
                }
            }
        }
    }

    /// The value in a slot, if any.
    pub fn get(&self, slot: usize) -> (r: Option<&Value>)
        ensures
            r matches Some(v) ==> slot < self.slots().len() && self.slots()[slot as int] == Some(*v),
            r is None ==> slot >= self.slots().len() || self.slots()[slot as int] is None,
    {
        if slot < self.pool.len() {
            match &self.pool[slot] {
                Some(v) => Some(v),
                None => None,
            }
        } else {
            None
        }
    }

    /// Get pool statistics
    pub fn stats(&self) -> (r: PoolStats)
        requires
            self.wf(),
        ensures
            r.capacity == self.slots().len(),
            r.used == self.spec_next_free() - self.spec_free_list().len(),
            r.free_slots == self.spec_free_list().len(),
            r.total_allocations == self.spec_counts().0,
            r.total_deallocations == self.spec_counts().1,
    {
        proof { lemma_distinct_below(self.free_list@, self.next_free); }
        PoolStats {
            capacity: self.pool.len(),
            used: self.next_free - self.free_list.len(),
            free_slots: self.free_list.len(),
            total_allocations: self.total_allocations,
            total_deallocations: self.total_deallocations,
        }
    }

    /// Reset the pool: no slots, no counts
    pub fn reset(&mut self)
        ensures
            final(self).wf(),
            final(self).slots() == Seq::<Option<Value>>::empty(),
            final(self).spec_next_free() == 0,
            final(self).spec_free_list() == Seq::<usize>::empty(),
            final(self).spec_counts() == (0u64, 0u64),
    {
        self.pool.clear();
        self.free_list.clear();
        self.next_free = 0;
        self.total_allocations = 0;
        self.total_deallocations = 0;
    }
}

} // verus!
