//! Translation of kernel terms into Lean terms through three levels of
//! caches keyed by a term hash: a bounded least-recently-used cache, an
//! unbounded map, and a map that stops growing at a size limit.
//!
//! Variables become numbered Lean variables, every binder is named by
//! index `0`, and lambda and let binders get the placeholder type `Sort 0`.

use vstd::prelude::*;
use std::collections::VecDeque;
use std::hash::{Hash, Hasher};
use std::num::NonZeroUsize;
use std::sync::Arc;
use ahash::{AHasher, RandomState};
use dashmap::DashMap;
use lru::LruCache;
use crate::kernel::term::Term;
use crate::kernel::show::{decimal, decimal_string};
use crate::lean::types::{LeanTerm, LeanLevel, LeanName, SemLean, SemLevel, SemName, spec_from_nat};
use crate::lean::error::LeanError;
use crate::lean::context::{TranslationContext, NameV, initial_levels};

verus! {

// ---------------------------------------------------------------------
// Outside types and the calls made on them
// ---------------------------------------------------------------------

#[verifier::external_type_specification]
#[verifier::external_body]
#[verifier::reject_recursive_types(K)]
#[verifier::reject_recursive_types(V)]
#[verifier::reject_recursive_types(S)]
pub struct ExLruCache<K, V, S>(LruCache<K, V, S>);

#[verifier::external_type_specification]
#[verifier::external_body]
#[verifier::reject_recursive_types(K)]
#[verifier::reject_recursive_types(V)]
#[verifier::reject_recursive_types(S)]
pub struct ExDashMap<K, V, S>(DashMap<K, V, S>);

#[verifier::external_type_specification]
#[verifier::external_body]
pub struct ExRandomState(RandomState);

#[verifier::external_type_specification]
#[verifier::external_body]
pub struct ExLruHasher(lru::DefaultHasher);

/// The empty map of cached terms.
pub open spec fn no_terms() -> Map<u64, SemLean> {
    Map::empty()
}

/// What a least-recently-used cache of shared terms holds, by key.
pub uninterp spec fn lru_contents(c: LruCache<u64, Arc<LeanTerm>>) -> Map<u64, SemLean>;

/// The capacity a least-recently-used cache was made with.
pub uninterp spec fn lru_capacity(c: LruCache<u64, Arc<LeanTerm>>) -> nat;

/// What a concurrent map of shared terms holds, by key.
pub uninterp spec fn shared_map_contents(m: DashMap<u64, Arc<LeanTerm>, RandomState>) -> Map<u64, SemLean>;

/// What a concurrent map of terms holds, by key.
pub uninterp spec fn term_map_contents(m: DashMap<u64, LeanTerm, RandomState>) -> Map<u64, SemLean>;

/// `lru::LruCache::new` with the given capacity: an empty cache of that
/// capacity.
#[verifier::external_body]
fn lru_new(capacity: usize) -> (r: LruCache<u64, Arc<LeanTerm>>)
    requires
        capacity > 0,
    ensures
        lru_contents(r) == no_terms(),
        lru_capacity(r) == capacity,
{
    LruCache::new(NonZeroUsize::new(capacity).unwrap())
}

/// `lru::LruCache::get`: the value held for `key`, if any (a clone of the
/// shared pointer). The entry becomes the most recently used; what the
/// cache holds does not change.
#[verifier::external_body]
fn lru_get(c: &mut LruCache<u64, Arc<LeanTerm>>, key: u64) -> (r: Option<Arc<LeanTerm>>)
    ensures
        lru_contents(*final(c)) == lru_contents(*old(c)),
        lru_capacity(*final(c)) == lru_capacity(*old(c)),
        lru_contents(*old(c)).contains_key(key) <==> r is Some,
        r matches Some(v) ==> v@ == lru_contents(*old(c))[key],
{
    match c.get(&key) {
        Some(v) => Some(Arc::clone(v)),
        None => None,
    }
}

/// `lru::LruCache::put`: `key` then holds `value`. Where the key was absent
/// and the cache was full, one other entry leaves (the least recently used
/// one).
#[verifier::external_body]
fn lru_put(c: &mut LruCache<u64, Arc<LeanTerm>>, key: u64, value: Arc<LeanTerm>)
    ensures
        lru_capacity(*final(c)) == lru_capacity(*old(c)),
        lru_contents(*old(c)).contains_key(key) || lru_contents(*old(c)).len() < lru_capacity(*old(c))
            ==> lru_contents(*final(c)) == lru_contents(*old(c)).insert(key, value@),
        !(lru_contents(*old(c)).contains_key(key) || lru_contents(*old(c)).len() < lru_capacity(*old(c)))
            ==> exists|gone: u64|
                gone != key && lru_contents(*old(c)).contains_key(gone)
                && lru_contents(*final(c)) == lru_contents(*old(c)).insert(key, value@).remove(gone),
{
    c.put(key, value);
}

/// `lru::LruCache::clear`: the cache holds nothing.
#[verifier::external_body]
fn lru_clear(c: &mut LruCache<u64, Arc<LeanTerm>>)
    ensures
        lru_contents(*final(c)) == no_terms(),
        lru_capacity(*final(c)) == lru_capacity(*old(c)),
{
    c.clear();
}

/// `lru::LruCache::len`: the number of entries.
#[verifier::external_body]
fn lru_len(c: &LruCache<u64, Arc<LeanTerm>>) -> (r: usize)
    ensures
        r == lru_contents(*c).len(),
{
    c.len()
}

/// `ahash::RandomState::new`: hashing keys drawn at random.
#[verifier::external_body]
fn random_state_new() -> (r: RandomState) {
    RandomState::new()
}

/// `dashmap::DashMap::with_capacity_and_hasher`: an empty map.
#[verifier::external_body]
fn shared_map_new(capacity: usize, hasher: RandomState) -> (r: DashMap<u64, Arc<LeanTerm>, RandomState>)
    ensures
        shared_map_contents(r) == no_terms(),
{
    DashMap::with_capacity_and_hasher(capacity, hasher)
}

/// `dashmap::DashMap::get`: the value held for `key`, if any (a clone of
/// the shared pointer).
#[verifier::external_body]
fn shared_map_get(m: &DashMap<u64, Arc<LeanTerm>, RandomState>, key: u64) -> (r: Option<Arc<LeanTerm>>)
    ensures
        shared_map_contents(*m).contains_key(key) <==> r is Some,
        r matches Some(v) ==> v@ == shared_map_contents(*m)[key],
{
    match m.get(&key) {
        Some(entry) => Some(Arc::clone(entry.value())),
        None => None,
    }
}

/// `dashmap::DashMap::insert`: `key` then holds `value`.
#[verifier::external_body]
fn shared_map_insert(m: &mut DashMap<u64, Arc<LeanTerm>, RandomState>, key: u64, value: Arc<LeanTerm>)
    ensures
        shared_map_contents(*final(m)) == shared_map_contents(*old(m)).insert(key, value@),
{
    m.insert(key, value);
}

/// `dashmap::DashMap::clear`: the map holds nothing.
#[verifier::external_body]
fn shared_map_clear(m: &mut DashMap<u64, Arc<LeanTerm>, RandomState>)
    ensures
        shared_map_contents(*final(m)) == no_terms(),
{
    m.clear();
}

/// `dashmap::DashMap::len`: the number of entries.
#[verifier::external_body]
fn shared_map_len(m: &DashMap<u64, Arc<LeanTerm>, RandomState>) -> (r: usize)
    ensures
        r == shared_map_contents(*m).len(),
{
    m.len()
}

/// `dashmap::DashMap::with_hasher`: an empty map.
#[verifier::external_body]
fn term_map_new(hasher: RandomState) -> (r: DashMap<u64, LeanTerm, RandomState>)
    ensures
        term_map_contents(r) == no_terms(),
{
    DashMap::with_hasher(hasher)
}

/// `dashmap::DashMap::get`: the value held for `key`, if any (cloned).
#[verifier::external_body]
fn term_map_get(m: &DashMap<u64, LeanTerm, RandomState>, key: u64) -> (r: Option<LeanTerm>)
    ensures
        term_map_contents(*m).contains_key(key) <==> r is Some,
        r matches Some(v) ==> v@ == term_map_contents(*m)[key],
{
    match m.get(&key) {
        Some(entry) => Some(entry.value().clone()),
        None => None,
    }
}

/// `dashmap::DashMap::insert`: `key` then holds `value`.
#[verifier::external_body]
fn term_map_insert(m: &mut DashMap<u64, LeanTerm, RandomState>, key: u64, value: LeanTerm)
    ensures
        term_map_contents(*final(m)) == term_map_contents(*old(m)).insert(key, value@),
{
    m.insert(key, value);
}

/// Hashes a term with `ahash::AHasher::default()` (through the term's
/// derived `Hash`). The hasher's keys are drawn once per process, so
/// nothing is stated of the value.
#[verifier::external_body]
fn fast_term_hash(term: &Term) -> (r: u64) {
    let mut hasher = AHasher::default();
    term.hash(&mut hasher);
    hasher.finish()
}

// ---------------------------------------------------------------------
// The translation the caches hold
// ---------------------------------------------------------------------

/// Whether a level is `succ^n(0)` for some `n`.
pub open spec fn is_numeral_level(l: SemLevel) -> bool
    decreases l,
{
    match l {
        SemLevel::Zero => true,
        SemLevel::Succ(x) => is_numeral_level(*x),
        _ => false,
    }
}

/// The Lean constant that stands for metavariable `id`: `?m` and the
/// decimal digits of `id`.
pub open spec fn meta_name(id: nat) -> SemName {
    SemName::Str("?m"@ + decimal(id))
}

/// The fast translation of a term: variables by index, universes as
/// numeral levels, every binder named by index `0`, lambda and let binders
/// typed `Sort 0`, metavariables as `?m` constants.
pub open spec fn spec_fast(t: Term) -> SemLean
    decreases t,
{
    match t {
        Term::Var(i) => SemLean::Var(SemName::Idx(i)),
        Term::Universe(l) => SemLean::Sort(spec_from_nat(l.0 as nat)),
        Term::Pi(d, c) => SemLean::Pi(SemName::Idx(0), Box::new(spec_fast(*d)), Box::new(spec_fast(*c))),
        Term::Lambda(b) => SemLean::Lambda(
            SemName::Idx(0),
            Box::new(SemLean::Sort(SemLevel::Zero)),
            Box::new(spec_fast(*b)),
        ),
        Term::App(f, a) => SemLean::App(Box::new(spec_fast(*f)), Box::new(spec_fast(*a))),
        Term::Let(v, b) => SemLean::Let(
            SemName::Idx(0),
            Box::new(SemLean::Sort(SemLevel::Zero)),
            Box::new(spec_fast(*v)),
            Box::new(spec_fast(*b)),
        ),
        Term::Meta(id) => SemLean::Const(meta_name(id as nat)),
    }
}

/// Whether a Lean term has the shape the fast translation gives: it is the
/// fast translation of some term.
pub open spec fn fast_form(v: SemLean) -> bool
    decreases v,
{
    match v {
        SemLean::Var(n) => n is Idx,
        SemLean::Sort(l) => is_numeral_level(l),
        SemLean::Const(n) => exists|id: nat| n == meta_name(id),
        SemLean::App(f, a) => fast_form(*f) && fast_form(*a),
        SemLean::Lambda(n, ty, b) => n == SemName::Idx(0) && *ty == SemLean::Sort(SemLevel::Zero) && fast_form(*b),
        SemLean::Pi(n, d, c) => n == SemName::Idx(0) && fast_form(*d) && fast_form(*c),
        SemLean::Let(n, ty, v, b) => n == SemName::Idx(0) && *ty == SemLean::Sort(SemLevel::Zero)
            && fast_form(*v) && fast_form(*b),
    }
}

/// Whether `v` is of fast form and translates the outermost constructor of
/// `t` as the fast translation does (a leaf exactly).
pub open spec fn fast_top(v: SemLean, t: Term) -> bool {
    &&& fast_form(v)
    &&& match t {
        Term::Var(_) | Term::Universe(_) | Term::Meta(_) => v == spec_fast(t),
        Term::Pi(_, _) => v is Pi,
        Term::Lambda(_) => v is Lambda,
        Term::App(_, _) => v is App,
        Term::Let(_, _) => v is Let,
    }
}

/// Whether a lookup by some hash in `memo` finds `v`.
pub open spec fn found_in(memo: Map<u64, SemLean>, v: SemLean) -> bool {
    exists|h: u64| memo.contains_key(h) && memo[h] == v
}

/// How a translation was made, level by level: found in the caches, a
/// leaf, or formed from one part or from two parts, the second looked up
/// once the log had reached the given length.
pub enum TranslationRun {
    Found,
    Leaf,
    One(Box<TranslationRun>),
    Two(int, Box<TranslationRun>, Box<TranslationRun>),
}

/// Whether the run `r` shows that `v` translates `t` all the way down,
/// where `log` lists every translation stored in the caches in order, the
/// lookup of `t` began when `lo` of them had been stored and `v` was formed
/// when `hi` had: at each level the value was found among the translations
/// stored before its own lookup began, or translates the outermost
/// constructor of its term with each part made the same way from the
/// matching subterm, looked up first to last.
pub open spec fn agrees_by(v: SemLean, t: Term, log: Seq<SemLean>, lo: int, hi: int, r: TranslationRun) -> bool
    decreases r,
{
    match r {
        TranslationRun::Found => log.take(lo).contains(v),
        TranslationRun::Leaf => fast_top(v, t) && (t is Var || t is Universe || t is Meta),
        TranslationRun::One(r1) => fast_top(v, t) && match t {
            Term::Lambda(b) => agrees_by(*v->Lambda_2, *b, log, lo, hi, *r1),
            _ => false,
        },
        TranslationRun::Two(mid, r1, r2) => fast_top(v, t) && lo <= mid <= hi && match t {
            Term::App(f, a) => agrees_by(*v->App_0, *f, log, lo, mid, *r1) && agrees_by(*v->App_1, *a, log, mid, hi, *r2),
            Term::Pi(d, c) => agrees_by(*v->Pi_1, *d, log, lo, mid, *r1) && agrees_by(*v->Pi_2, *c, log, mid, hi, *r2),
            Term::Let(x, b) => agrees_by(*v->Let_2, *x, log, lo, mid, *r1) && agrees_by(*v->Let_3, *b, log, mid, hi, *r2),
            _ => false,
        },
    }
}

/// Whether `v` translates `t` all the way down (some run shows it).
pub open spec fn agrees(v: SemLean, t: Term, log: Seq<SemLean>, lo: int, hi: int) -> bool {
    exists|r: TranslationRun| #[trigger] agrees_by(v, t, log, lo, hi, r)
}

/// What the translation of `t` through the caches gives, with the log
/// going from `lo` entries to all of `log`: a value found before the
/// lookup, or one formed from its parts and then stored last.
pub open spec fn translated_through(v: SemLean, t: Term, log: Seq<SemLean>, lo: int) -> bool {
    agrees(v, t, log, lo, lo) || (log.len() > lo && agrees(v, t, log, lo, log.len() - 1))
}

/// A run stays valid when more translations are stored later, and when
/// the moment the value was formed is taken later.
proof fn lemma_agrees_grows(v: SemLean, t: Term, log: Seq<SemLean>, log2: Seq<SemLean>, lo: int, hi: int, hi2: int, r: TranslationRun)
    requires
        agrees_by(v, t, log, lo, hi, r),
        0 <= lo <= hi <= hi2,
        hi <= log.len(),
        log.len() <= log2.len(),
        hi2 <= log2.len(),
        log2.take(log.len() as int) == log,
    ensures
        agrees_by(v, t, log2, lo, hi2, r),
    decreases r,
{
    assert forall|i: int| 0 <= i < lo implies log2.take(lo)[i] == log.take(lo)[i] by {
        assert(log2.take(log.len() as int)[i] == log2[i]);
    }
    assert(log2.take(lo) =~= log.take(lo));
    match r {
        TranslationRun::One(r1) => {
            if let Term::Lambda(b) = t {
                lemma_agrees_grows(*v->Lambda_2, b@, log, log2, lo, hi, hi2, *r1);
            }
        },
        TranslationRun::Two(mid, r1, r2) => {
            match t {
                Term::App(f, a) => {
                    lemma_agrees_grows(*v->App_0, f@, log, log2, lo, mid, mid, *r1);
                    lemma_agrees_grows(*v->App_1, a@, log, log2, mid, hi, hi2, *r2);
                },
                Term::Pi(d, c) => {
                    lemma_agrees_grows(*v->Pi_1, d@, log, log2, lo, mid, mid, *r1);
                    lemma_agrees_grows(*v->Pi_2, c@, log, log2, mid, hi, hi2, *r2);
                },
                Term::Let(x, b) => {
                    lemma_agrees_grows(*v->Let_2, x@, log, log2, lo, mid, mid, *r1);
                    lemma_agrees_grows(*v->Let_3, b@, log, log2, mid, hi, hi2, *r2);
                },
                _ => {},
            }
        },
        _ => {},
    }
}

/// What a translation through the caches gives agrees with the term up to
/// the end of the log.
proof fn lemma_through_agrees(v: SemLean, t: Term, log: Seq<SemLean>, lo: int) -> (r: TranslationRun)
    requires
        translated_through(v, t, log, lo),
        0 <= lo <= log.len(),
    ensures
        agrees_by(v, t, log, lo, log.len() as int, r),
{
    assert(log.take(log.len() as int) =~= log);
    if agrees(v, t, log, lo, lo) {
        let r = choose|r: TranslationRun| #[trigger] agrees_by(v, t, log, lo, lo, r);
        lemma_agrees_grows(v, t, log, log, lo, lo, log.len() as int, r);
        r
    } else {
        let hi = log.len() - 1;
        let r = choose|r: TranslationRun| #[trigger] agrees_by(v, t, log, lo, hi, r);
        lemma_agrees_grows(v, t, log, log, lo, log.len() - 1, log.len() as int, r);
        r
    }
}

/// A log that extends a second that extends a third extends the third.
proof fn lemma_log_extends(a: Seq<SemLean>, b: Seq<SemLean>, c: Seq<SemLean>)
    requires
        a.len() <= b.len() <= c.len(),
        b.take(a.len() as int) == a,
        c.take(b.len() as int) == b,
    ensures
        c.take(a.len() as int) == a,
{
    assert forall|i: int| 0 <= i < a.len() implies c.take(a.len() as int)[i] == a[i] by {
        assert(c.take(b.len() as int)[i] == c[i]);
        assert(b.take(a.len() as int)[i] == b[i]);
    }
    assert(c.take(a.len() as int) =~= a);
}

/// The runs of two parts translated one after the other through the
/// caches, the first from `lo` to the length of `l1`, the second from
/// there to the length of `l2`.
proof fn lemma_parts_runs(c1: SemLean, s1: Term, c2: SemLean, s2: Term, lo: int, l1: Seq<SemLean>, l2: Seq<SemLean>)
    -> (rr: (TranslationRun, TranslationRun))
    requires
        translated_through(c1, s1, l1, lo),
        translated_through(c2, s2, l2, l1.len() as int),
        0 <= lo <= l1.len() <= l2.len(),
        l2.take(l1.len() as int) == l1,
    ensures
        agrees_by(c1, s1, l2, lo, l1.len() as int, rr.0),
        agrees_by(c2, s2, l2, l1.len() as int, l2.len() as int, rr.1),
{
    let r1 = lemma_through_agrees(c1, s1, l1, lo);
    lemma_agrees_grows(c1, s1, l1, l2, lo, l1.len() as int, l1.len() as int, r1);
    let r2 = lemma_through_agrees(c2, s2, l2, l1.len() as int);
    (r1, r2)
}

/// A numeral level is of numeral form.
proof fn lemma_from_nat_numeral(n: nat)
    ensures
        is_numeral_level(spec_from_nat(n)),
    decreases n,
{
    if n > 0 {
        lemma_from_nat_numeral((n - 1) as nat);
    }
}

// ---------------------------------------------------------------------
// Counters and the size-limited cache
// ---------------------------------------------------------------------

/// Hit and miss counters of the three cache levels.
pub struct CacheStatistics {
    pub l1_hits: u64,
    pub l1_misses: u64,
    pub l2_hits: u64,
    pub l2_misses: u64,
    pub l3_hits: u64,
    pub l3_misses: u64,
    pub evictions: u64,
    pub memory_usage: usize,
}

impl CacheStatistics {
    /// All counters zero.
    pub open spec fn is_zero(&self) -> bool {
        &&& self.l1_hits == 0
        &&& self.l1_misses == 0
        &&& self.l2_hits == 0
        &&& self.l2_misses == 0
        &&& self.l3_hits == 0
        &&& self.l3_misses == 0
        &&& self.evictions == 0
        &&& self.memory_usage == 0
    }

    /// Counters starting at zero
    pub fn new() -> (r: Self)
        ensures
            r.is_zero(),
    {
        CacheStatistics {
            l1_hits: 0,
            l1_misses: 0,
            l2_hits: 0,
            l2_misses: 0,
            l3_hits: 0,
            l3_misses: 0,
            evictions: 0,
            memory_usage: 0,
        }
    }
}

impl Default for CacheStatistics {
    fn default() -> (r: Self)
        ensures
            r.is_zero(),
    {
        CacheStatistics::new()
    }
}

/// A map from term hashes to translations that takes no new entry once it
/// has taken `max_size` insertions.
pub struct PersistentCache {
    storage: DashMap<u64, LeanTerm, RandomState>,
    max_size: usize,
    current_size: usize,
}

impl PersistentCache {
    /// What the cache holds.
    pub closed spec fn spec_contents(&self) -> Map<u64, SemLean> {
        term_map_contents(self.storage)
    }

    /// The limit on insertions.
    pub closed spec fn spec_max(&self) -> usize {
        self.max_size
    }

    /// The number of insertions taken.
    pub closed spec fn spec_size(&self) -> usize {
        self.current_size
    }

    /// An empty cache with the given limit
    pub fn new(max_size: usize) -> (r: Self)
        ensures
            r.spec_contents() == no_terms(),
            r.spec_max() == max_size,
            r.spec_size() == 0,
    {
        PersistentCache { storage: term_map_new(random_state_new()), max_size, current_size: 0 }
    }

    /// The translation held for a hash
    pub fn get(&self, hash: u64) -> (r: Option<LeanTerm>)
        ensures
            self.spec_contents().contains_key(hash) <==> r is Some,
            r matches Some(v) ==> v@ == self.spec_contents()[hash],
    {
        term_map_get(&self.storage, hash)
    }

    /// Store a translation, unless the limit is reached
    pub fn insert(&mut self, hash: u64, term: LeanTerm)
        ensures
            final(self).spec_max() == old(self).spec_max(),
            old(self).spec_size() < old(self).spec_max() ==> {
                &&& final(self).spec_contents() == old(self).spec_contents().insert(hash, term@)
                &&& final(self).spec_size() == old(self).spec_size() + 1
            },
            old(self).spec_size() >= old(self).spec_max() ==> {
                &&& final(self).spec_contents() == old(self).spec_contents()
                &&& final(self).spec_size() == old(self).spec_size()
            },
    {
        if self.current_size < self.max_size {
            term_map_insert(&mut self.storage, hash, term);
            self.current_size = self.current_size + 1;
        }
    }

    /// The number of insertions taken
    pub fn size(&self) -> (r: usize)
        ensures
            r == self.spec_size(),
    {
        self.current_size
    }
}

// ---------------------------------------------------------------------
// The translator
// ---------------------------------------------------------------------

/// Translator with a hot least-recently-used cache (level 1), a large map
/// (level 2) and a size-limited map (level 3), all keyed by term hash.
pub struct OptimizedTranslator {
    l1_cache: LruCache<u64, Arc<LeanTerm>>,
    l2_cache: DashMap<u64, Arc<LeanTerm>, RandomState>,
    l3_cache: PersistentCache,
    /// Hit and miss counters
    pub stats: CacheStatistics,
    universe_cache: Vec<Option<LeanLevel>>,
    var_name_cache: Vec<Option<LeanName>>,
    /// Every translation stored in the caches, in the order stored.
    log: Ghost<Seq<SemLean>>,
}

/// The capacity of the level-1 cache.
pub const L1_CAPACITY: usize = 1000;

/// The starting capacity of the level-2 map.
pub const L2_CAPACITY: usize = 100000;

/// The insertion limit of the level-3 map.
pub const L3_LIMIT: usize = 1000000;

impl OptimizedTranslator {
    /// Well-formedness depends only on the caches' contents and the tables.
    proof fn lemma_wf_same(a: &Self, b: &Self)
        requires
            a.wf(),
            a.spec_l1() == b.spec_l1(),
            a.spec_l2() == b.spec_l2(),
            a.spec_l3().spec_contents() == b.spec_l3().spec_contents(),
            lru_capacity(a.l1_cache) == lru_capacity(b.l1_cache),
            a.universe_cache@ == b.universe_cache@,
            a.var_name_cache@ == b.var_name_cache@,
            a.log == b.log,
        ensures
            b.wf(),
    {
    }

    /// Putting into level 1 a value that level 2 holds under the same key
    /// keeps level 1 within level 2.
    proof fn lemma_l1_put(a: &Self, b: &Self, key: u64, value: SemLean)
        requires
            lru_capacity(a.l1_cache) == L1_CAPACITY,
            forall|h: u64| h != key && #[trigger] a.spec_l1().contains_key(h)
                ==> a.spec_l2().contains_key(h) && a.spec_l1()[h] == a.spec_l2()[h],
            forall|h: u64| #[trigger] a.spec_l2().contains_key(h) ==> fast_form(a.spec_l2()[h]),
            forall|h: u64| #[trigger] a.spec_l3().spec_contents().contains_key(h)
                ==> fast_form(a.spec_l3().spec_contents()[h]),
            a.universe_cache@.len() == 16,
            forall|i: int| 0 <= i < 16 ==> ((#[trigger] a.universe_cache@[i]) matches Some(l)
                && l@ == spec_from_nat(i as nat)),
            a.var_name_cache@.len() == 0,
            a.spec_l2().contains_key(key),
            a.spec_l2()[key] == value,
            b.spec_l2() == a.spec_l2(),
            b.spec_l3().spec_contents() == a.spec_l3().spec_contents(),
            lru_capacity(b.l1_cache) == lru_capacity(a.l1_cache),
            b.universe_cache@ == a.universe_cache@,
            b.var_name_cache@ == a.var_name_cache@,
            forall|h: u64| #[trigger] a.spec_l2().contains_key(h) ==> a.log@.contains(a.spec_l2()[h]),
            forall|h: u64| #[trigger] a.spec_l3().spec_contents().contains_key(h)
                ==> a.log@.contains(a.spec_l3().spec_contents()[h]),
            b.log == a.log,
            b.spec_l1() == a.spec_l1().insert(key, value) || exists|gone: u64|
                b.spec_l1() == a.spec_l1().insert(key, value).remove(gone),
        ensures
            b.wf(),
    {
        assert forall|h: u64| #[trigger] b.spec_l1().contains_key(h) implies
            b.spec_l2().contains_key(h) && b.spec_l1()[h] == b.spec_l2()[h] by {
            if h != key {
                assert(a.spec_l1().contains_key(h));
            }
        }
    }

    /// What the level-1 cache holds.
    pub closed spec fn spec_l1(&self) -> Map<u64, SemLean> {
        lru_contents(self.l1_cache)
    }

    /// The counters.
    pub closed spec fn spec_stats(&self) -> CacheStatistics {
        self.stats
    }

    /// What the level-2 map holds.
    pub closed spec fn spec_l2(&self) -> Map<u64, SemLean> {
        shared_map_contents(self.l2_cache)
    }

    /// The level-3 cache.
    pub closed spec fn spec_l3(&self) -> PersistentCache {
        self.l3_cache
    }

    /// What a lookup by hash finds: the level-2 entry, or else the level-3
    /// entry (the level-1 cache only holds level-2 entries).
    pub open spec fn spec_memo(&self) -> Map<u64, SemLean> {
        self.spec_l3().spec_contents().union_prefer_right(self.spec_l2())
    }

    /// The cache levels agree as lookups need, every cached translation is
    /// of fast form, and the fixed tables are in place.
    pub closed spec fn wf(&self) -> bool {
        &&& lru_capacity(self.l1_cache) == L1_CAPACITY
        &&& forall|h: u64| #[trigger] self.spec_l1().contains_key(h)
            ==> self.spec_l2().contains_key(h) && self.spec_l1()[h] == self.spec_l2()[h]
        &&& forall|h: u64| #[trigger] self.spec_l2().contains_key(h) ==> fast_form(self.spec_l2()[h])
        &&& forall|h: u64| #[trigger] self.spec_l3().spec_contents().contains_key(h)
            ==> fast_form(self.spec_l3().spec_contents()[h])
        &&& self.universe_cache@.len() == 16
        &&& forall|i: int| 0 <= i < 16 ==> ((#[trigger] self.universe_cache@[i]) matches Some(l)
            && l@ == spec_from_nat(i as nat))
        &&& self.var_name_cache@.len() == 0
        &&& forall|h: u64| #[trigger] self.spec_l2().contains_key(h) ==> self.log@.contains(self.spec_l2()[h])
        &&& forall|h: u64| #[trigger] self.spec_l3().spec_contents().contains_key(h)
            ==> self.log@.contains(self.spec_l3().spec_contents()[h])
    }

    /// Every translation stored in the caches so far, in the order stored.
    pub closed spec fn spec_log(&self) -> Seq<SemLean> {
        self.log@
    }

    /// Create a translator with empty caches; the levels `0` to `15` are
    /// prepared
    pub fn new() -> (r: Self)
        ensures
            r.wf(),
            r.spec_l1() == no_terms(),
            r.spec_l2() == no_terms(),
            r.spec_l3().spec_contents() == no_terms(),
            r.spec_l3().spec_max() == L3_LIMIT,
            r.spec_l3().spec_size() == 0,
            r.spec_stats().is_zero(),
    {
        let mut universe_cache: Vec<Option<LeanLevel>> = Vec::new();
        let mut previous = LeanLevel::Zero;
        universe_cache.push(Some(LeanLevel::Zero));
        let mut i: usize = 1;
        while i < 16
            invariant
                1 <= i <= 16,
                universe_cache@.len() == i,
                previous@ == spec_from_nat((i - 1) as nat),
                forall|j: int| 0 <= j < i ==> ((#[trigger] universe_cache@[j]) matches Some(l)
                    && l@ == spec_from_nat(j as nat)),
            decreases 16 - i,
        {
            let next = LeanLevel::Succ(Box::new(previous.clone()));
            universe_cache.push(Some(next.clone()));
            previous = next;
            i = i + 1;
        }
        OptimizedTranslator {
            l1_cache: lru_new(L1_CAPACITY),
            l2_cache: shared_map_new(L2_CAPACITY, random_state_new()),
            l3_cache: PersistentCache::new(L3_LIMIT),
            stats: CacheStatistics::new(),
            universe_cache,
            var_name_cache: Vec::new(),
            log: Ghost(Seq::empty()),
        }
    }

    /// The prepared Lean level for a universe level below 16
    pub fn fast_universe_translation(&self, level: u32) -> (r: Option<LeanLevel>)
        requires
            self.wf(),
        ensures
            level < 16 ==> (r matches Some(l) && l@ == spec_from_nat(level as nat)),
            level >= 16 ==> r is None,
    {
        if level < 16 {
            match &self.universe_cache[level as usize] {
                Some(l) => Some(l.clone()),
                None => None,
            }
        } else {
            None
        }
    }

    /// The Lean name of the variable at a De Bruijn index: none below 8
    /// (the table of short names is empty), else the context's name
    pub fn fast_var_lookup(&self, ctx: &TranslationContext, idx: usize) -> (r: Option<LeanName>)
        requires
            self.wf(),
        ensures
            idx < 8 ==> r is None,
            idx >= 8 ==> {
                if idx < ctx.spec_scope().len()
                    && ctx.spec_names().contains_key(ctx.spec_scope()[ctx.spec_scope().len() - 1 - idx]) {
                    r matches Some(n)
                        && n@ == ctx.spec_names()[ctx.spec_scope()[ctx.spec_scope().len() - 1 - idx]]
                } else {
                    r is None
                }
            },
    {
        if idx < 8 {
            if idx < self.var_name_cache.len() {
                match &self.var_name_cache[idx] {
                    Some(n) => Some(n.copy()),
                    None => None,
                }
            } else {
                None
            }
        } else {
            match ctx.lookup_variable(idx) {
                Ok(n) => Some(n),
                Err(_) => None,
            }
        }
    }

    /// The Lean level for a universe level: the prepared one below 16, else
    /// built by successors
    fn translate_level(&self, level: u32) -> (r: Result<LeanLevel, LeanError>)
        requires
            self.wf(),
        ensures
            r matches Ok(l) && l@ == spec_from_nat(level as nat),
    {
        match self.fast_universe_translation(level) {
            Some(cached) => Ok(cached),
            None => {
                let mut result = LeanLevel::Zero;
                let mut i: u32 = 0;
                while i < level
                    invariant
                        i <= level,
                        result@ == spec_from_nat(i as nat),
                    decreases level - i,
                {
                    result = LeanLevel::Succ(Box::new(result));
                    i = i + 1;
                }
                Ok(result)
            },
        }
    }

    /// The Lean name of a variable index
    fn intern_var_name(&self, idx: usize) -> (r: LeanName)
        ensures
            r@ == SemName::Idx(idx),
    {
        LeanName::Idx(idx)
    }

    /// Translate through the caches: the term's hash is computed and
    /// `lookup_or_translate` does the rest. The result is of fast form and
    /// is what a lookup by some hash finds afterwards; it translates the
    /// outermost constructor of `term`, or it is a translation that was
    /// cached before the call. All the way down it agrees with `term` (see
    /// `agrees`): each part was found in the caches before its own lookup,
    /// or translates the outermost constructor of the matching subterm
    /// with parts that agree in turn
    pub fn translate_optimized(&mut self, term: &Term) -> (r: Result<LeanTerm, LeanError>)
        requires
            old(self).wf(),
        ensures
            final(self).wf(),
            r matches Ok(t) && fast_form(t@),
            r matches Ok(t) && (fast_top(t@, *term) || found_in(old(self).spec_memo(), t@)),
            r matches Ok(t) && translated_through(t@, *term, final(self).spec_log(), old(self).spec_log().len() as int),
            old(self).spec_log().len() <= final(self).spec_log().len(),
            final(self).spec_log().take(old(self).spec_log().len() as int) == old(self).spec_log(),
            r matches Ok(t) && found_in(final(self).spec_memo(), t@),
            old(self).spec_memo().submap_of(final(self).spec_memo()),
            final(self).spec_l3().spec_max() == old(self).spec_l3().spec_max(),
        decreases term, 2nat,
    {
        let hash = fast_term_hash(term);
        let r = self.lookup_or_translate(term, hash);
        proof {
            let t = r->Ok_0;
            if old(self).spec_memo().contains_key(hash) {
                assert(old(self).spec_memo()[hash] == t@);
            }
            assert(final(self).spec_memo()[hash] == t@);
        }
        r
    }

    /// Look a term up by its hash in levels 1, 2 and 3 in turn, counting
    /// hits and misses; a level-2 hit is copied into level 1, a level-3 hit
    /// into levels 2 and 1. Where every level misses, the term is
    /// translated (its subterms through the caches) and stored in all
    /// three levels under `hash`
    pub fn lookup_or_translate(&mut self, term: &Term, hash: u64) -> (r: Result<LeanTerm, LeanError>)
        requires
            old(self).wf(),
        ensures
            final(self).wf(),
            r matches Ok(t) && fast_form(t@),
            old(self).spec_memo().contains_key(hash) ==> {
                &&& r matches Ok(t) && t@ == old(self).spec_memo()[hash]
                &&& final(self).spec_memo() == old(self).spec_memo()
            },
            !old(self).spec_memo().contains_key(hash) ==> {
                &&& r matches Ok(t) && fast_top(t@, *term)
                &&& r matches Ok(t) && final(self).spec_memo().contains_key(hash)
                    && final(self).spec_memo()[hash] == t@
                &&& old(self).spec_memo().submap_of(final(self).spec_memo())
            },
            old(self).spec_l1().contains_key(hash) ==> final(self).spec_stats().l1_hits
                == old(self).spec_stats().l1_hits.wrapping_add(1),
            r matches Ok(t) && translated_through(t@, *term, final(self).spec_log(), old(self).spec_log().len() as int),
            old(self).spec_log().len() <= final(self).spec_log().len(),
            final(self).spec_log().take(old(self).spec_log().len() as int) == old(self).spec_log(),
            final(self).spec_l3().spec_max() == old(self).spec_l3().spec_max(),
        decreases term, 1nat,
    {
        match lru_get(&mut self.l1_cache, hash) {
            Some(cached) => {
                self.stats.l1_hits = self.stats.l1_hits.wrapping_add(1);
                proof {
                    Self::lemma_wf_same(old(self), self);
                    assert(self.spec_l1().contains_key(hash));
                    assert(self.spec_memo()[hash] == self.spec_l2()[hash]);
                }
proof {
                    assert(self.log@.take(self.log@.len() as int) =~= self.log@);
                    assert(agrees_by(old(self).spec_memo()[hash], *term, self.log@, self.log@.len() as int, self.log@.len() as int, TranslationRun::Found));
                }
                return Ok((*cached).clone());
            },
            None => {
                self.stats.l1_misses = self.stats.l1_misses.wrapping_add(1);
            },
        }
        proof {
            Self::lemma_wf_same(old(self), self);
        }
        match shared_map_get(&self.l2_cache, hash) {
            Some(cached) => {
                self.stats.l2_hits = self.stats.l2_hits.wrapping_add(1);
                let result = (*cached).clone();
                let ghost before = *self;
                proof {
                    Self::lemma_wf_same(old(self), &before);
                }
                lru_put(&mut self.l1_cache, hash, cached);
                proof {
                    Self::lemma_l1_put(&before, self, hash, result@);
                    assert(fast_form(self.spec_l2()[hash]));
                }
proof {
                    assert(self.log@.take(self.log@.len() as int) =~= self.log@);
                    assert(agrees_by(result@, *term, self.log@, self.log@.len() as int, self.log@.len() as int, TranslationRun::Found));
                }
                return Ok(result);
            },
            None => {
                self.stats.l2_misses = self.stats.l2_misses.wrapping_add(1);
            },
        }
        proof {
            Self::lemma_wf_same(old(self), self);
            assert(!self.spec_l1().contains_key(hash));
        }
        match self.l3_cache.get(hash) {
            Some(cached) => {
                self.stats.l3_hits = self.stats.l3_hits.wrapping_add(1);
                let shared = Arc::new(cached.clone());
                let ghost start = *self;
                proof {
                    Self::lemma_wf_same(old(self), &start);
                    assert(start.spec_l3().spec_contents().contains_key(hash));
                    assert(fast_form(start.spec_l3().spec_contents()[hash]));
                }
                shared_map_insert(&mut self.l2_cache, hash, shared.clone());
                let ghost before = *self;
                proof {
                    assert forall|h: u64| #[trigger] before.spec_l1().contains_key(h) implies
                        before.spec_l2().contains_key(h) && before.spec_l1()[h] == before.spec_l2()[h] by {
                        assert(start.spec_l1().contains_key(h));
                    }
                    assert forall|h: u64| #[trigger] before.spec_l2().contains_key(h)
                        implies before.log@.contains(before.spec_l2()[h]) by {
                        if h != hash {
                            assert(start.spec_l2().contains_key(h));
                        }
                    }
                    assert(before.spec_l3() == start.spec_l3());
                    assert forall|h: u64| #[trigger] before.spec_l2().contains_key(h)
                        implies fast_form(before.spec_l2()[h]) by {
                        if h != hash {
                            assert(start.spec_l2().contains_key(h));
                        }
                    }
                    assert forall|h: u64| #[trigger] before.spec_l3().spec_contents().contains_key(h)
                        implies before.log@.contains(before.spec_l3().spec_contents()[h]) by {
                        assert(start.spec_l3().spec_contents().contains_key(h));
                    }
                    assert(before.wf());
                    assert(before.spec_memo() =~= start.spec_memo());
                }
                lru_put(&mut self.l1_cache, hash, shared);
                proof {
                    Self::lemma_l1_put(&before, self, hash, cached@);
                }
proof {
                    assert(self.log@.take(self.log@.len() as int) =~= self.log@);
                    assert(agrees_by(cached@, *term, self.log@, self.log@.len() as int, self.log@.len() as int, TranslationRun::Found));
                }
                return Ok(cached);
            },
            None => {
                self.stats.l3_misses = self.stats.l3_misses.wrapping_add(1);
            },
        }
        proof {
            Self::lemma_wf_same(old(self), self);
            assert(!self.spec_memo().contains_key(hash));
        }
        let ghost start = *self;
        let translated = match self.translate_with_optimization(term) {
            Ok(t) => t,
            Err(e) => return Err(e),
        };
        let ghost mid = *self;
        self.log = Ghost(self.log@.push(translated@));
        let shared = Arc::new(translated.clone());
        self.l3_cache.insert(hash, translated.clone());
        shared_map_insert(&mut self.l2_cache, hash, shared.clone());
        let ghost before = *self;
        proof {
            assert forall|h: u64| h != hash && #[trigger] before.spec_l1().contains_key(h) implies
                before.spec_l2().contains_key(h) && before.spec_l1()[h] == before.spec_l2()[h] by {
                assert(mid.spec_l1().contains_key(h));
            }
            assert forall|h: u64| #[trigger] before.spec_l3().spec_contents().contains_key(h)
                implies fast_form(before.spec_l3().spec_contents()[h]) by {
                if h != hash {
                    assert(mid.spec_l3().spec_contents().contains_key(h));
                }
            }
            assert forall|h: u64| #[trigger] before.spec_l2().contains_key(h)
                implies fast_form(before.spec_l2()[h]) by {
                if h != hash {
                    assert(mid.spec_l2().contains_key(h));
                }
            }
            assert(before.log@.contains(translated@)) by {
                assert(before.log@[before.log@.len() - 1] == translated@);
            }
            assert forall|h: u64| #[trigger] before.spec_l2().contains_key(h)
                implies before.log@.contains(before.spec_l2()[h]) by {
                if h != hash {
                    assert(mid.spec_l2().contains_key(h));
                    let k = choose|k: int| 0 <= k < mid.log@.len() && mid.log@[k] == mid.spec_l2()[h];
                    assert(before.log@[k] == mid.log@[k]);
                }
            }
            assert forall|h: u64| #[trigger] before.spec_l3().spec_contents().contains_key(h)
                implies before.log@.contains(before.spec_l3().spec_contents()[h]) by {
                if before.spec_l3().spec_contents()[h] != translated@ {
                    assert(mid.spec_l3().spec_contents().contains_key(h)
                        && mid.spec_l3().spec_contents()[h] == before.spec_l3().spec_contents()[h]);
                    let k = choose|k: int| 0 <= k < mid.log@.len() && mid.log@[k] == mid.spec_l3().spec_contents()[h];
                    assert(before.log@[k] == mid.log@[k]);
                }
            }
        }
        lru_put(&mut self.l1_cache, hash, shared);
        proof {
            Self::lemma_l1_put(&before, self, hash, translated@);
            assert(self.spec_memo() =~= mid.spec_memo().insert(hash, translated@)) by {
                assert(self.spec_l2() == mid.spec_l2().insert(hash, translated@));
            }
            assert(start.spec_memo().submap_of(self.spec_memo()));
            assert(mid.spec_memo().insert(hash, translated@) == self.spec_memo());
            let lo = start.log@.len() as int;
            let hi = mid.log@.len() as int;
            let run = choose|r: TranslationRun| #[trigger] agrees_by(translated@, *term, mid.log@, lo, hi, r);
            assert(self.log@.take(hi) =~= mid.log@);
            lemma_agrees_grows(translated@, *term, mid.log@, self.log@, lo, hi, hi, run);
            assert(self.log@.len() - 1 == hi);
            lemma_log_extends(start.log@, mid.log@, self.log@);
        }
        Ok(translated)
    }

    /// Translate terms one after another through the caches; each result
    /// is of fast form and is what a lookup by some hash finds afterwards
    pub fn translate_batch(&mut self, terms: &[Term]) -> (r: Result<Vec<LeanTerm>, LeanError>)
        requires
            old(self).wf(),
        ensures
            final(self).wf(),
            r matches Ok(v) && v@.len() == terms@.len(),
            r matches Ok(v) && forall|i: int| 0 <= i < v@.len() ==> fast_form(#[trigger] v@[i]@),
            r matches Ok(v) && forall|i: int| 0 <= i < v@.len() ==> found_in(final(self).spec_memo(), #[trigger] v@[i]@),
            old(self).spec_memo().submap_of(final(self).spec_memo()),
    {
        let mut out: Vec<LeanTerm> = Vec::new();
        let ghost mut keys: Seq<u64> = Seq::empty();
        let mut i: usize = 0;
        while i < terms.len()
            invariant
                self.wf(),
                i <= terms@.len(),
                out@.len() == i,
                keys.len() == i,
                forall|j: int| 0 <= j < i ==> fast_form(#[trigger] out@[j]@),
                forall|j: int| 0 <= j < i ==> self.spec_memo().contains_key(#[trigger] keys[j])
                    && self.spec_memo()[keys[j]] == out@[j]@,
                old(self).spec_memo().submap_of(self.spec_memo()),
            decreases terms@.len() - i,
        {
            let ghost before = *self;
            match self.translate_optimized(&terms[i]) {
                Ok(t) => {
                    proof {
                        vstd::map_lib::lemma_submap_of_trans(old(self).spec_memo(), before.spec_memo(), self.spec_memo());
                        let h = choose|h: u64| self.spec_memo().contains_key(h) && self.spec_memo()[h] == t@;
                        assert(found_in(self.spec_memo(), t@));
                        assert forall|j: int| 0 <= j < i implies self.spec_memo().contains_key(#[trigger] keys[j])
                            && self.spec_memo()[keys[j]] == out@[j]@ by {
                            assert(before.spec_memo().contains_key(keys[j]));
                        }
                        keys = keys.push(h);
                    }
                    out.push(t);
                },
                Err(e) => return Err(e),
            }
            i = i + 1;
        }
        proof {
            assert forall|j: int| 0 <= j < out@.len() implies found_in(self.spec_memo(), #[trigger] out@[j]@) by {
                assert(self.spec_memo().contains_key(keys[j]));
            }
        }
        Ok(out)
    }

    /// The counters
    pub fn cache_stats(&self) -> (r: &CacheStatistics)
        ensures
            *r == self.spec_stats(),
    {
        &self.stats
    }

    /// Empty levels 1 and 2 (level 3 keeps its entries) and count one
    /// eviction
    pub fn clear_caches(&mut self)
        requires
            old(self).wf(),
        ensures
            final(self).wf(),
            final(self).spec_l1() == no_terms(),
            final(self).spec_l2() == no_terms(),
            final(self).spec_l3() == old(self).spec_l3(),
            final(self).spec_memo() == old(self).spec_l3().spec_contents(),
            final(self).spec_stats().evictions == old(self).spec_stats().evictions.wrapping_add(1),
            final(self).spec_stats().l1_hits == old(self).spec_stats().l1_hits,
            final(self).spec_stats().l1_misses == old(self).spec_stats().l1_misses,
            final(self).spec_stats().l2_hits == old(self).spec_stats().l2_hits,
            final(self).spec_stats().l2_misses == old(self).spec_stats().l2_misses,
            final(self).spec_stats().l3_hits == old(self).spec_stats().l3_hits,
            final(self).spec_stats().l3_misses == old(self).spec_stats().l3_misses,
            final(self).spec_stats().memory_usage == old(self).spec_stats().memory_usage,
    {
        lru_clear(&mut self.l1_cache);
        shared_map_clear(&mut self.l2_cache);
        self.stats.evictions = self.stats.evictions.wrapping_add(1);
        proof {
            assert(self.spec_memo() =~= self.spec_l3().spec_contents());
            assert(self.spec_l3() == old(self).spec_l3());
            assert forall|h: u64| #[trigger] self.spec_l3().spec_contents().contains_key(h)
                implies fast_form(self.spec_l3().spec_contents()[h]) by {
                assert(old(self).spec_l3().spec_contents().contains_key(h));
            }
        }
    }

    /// An estimate of the memory the caches take: the entries of levels 1
    /// and 2 at the size of a key and a shared pointer, those of level 3 at
    /// the size of a key and a term
    pub fn memory_usage(&self) -> (r: usize)
        requires
            self.spec_l1().len() * vstd::layout::size_of::<(u64, Arc<LeanTerm>)>()
                + self.spec_l2().len() * vstd::layout::size_of::<(u64, Arc<LeanTerm>)>()
                + self.spec_l3().spec_size() * vstd::layout::size_of::<(u64, LeanTerm)>() <= usize::MAX,
        ensures
            r == self.spec_l1().len() * vstd::layout::size_of::<(u64, Arc<LeanTerm>)>()
                + self.spec_l2().len() * vstd::layout::size_of::<(u64, Arc<LeanTerm>)>()
                + self.spec_l3().spec_size() * vstd::layout::size_of::<(u64, LeanTerm)>(),
    {
        let shared_entry = core::mem::size_of::<(u64, Arc<LeanTerm>)>();
        let term_entry = core::mem::size_of::<(u64, LeanTerm)>();
        let l1_len = lru_len(&self.l1_cache);
        let l2_len = shared_map_len(&self.l2_cache);
        let l3_len = self.l3_cache.size();
        proof {
            assert(l1_len * shared_entry <= usize::MAX) by (nonlinear_arith)
                requires
                    l1_len * shared_entry + l2_len * shared_entry + l3_len * term_entry <= usize::MAX,
                    l2_len * shared_entry >= 0,
                    l3_len * term_entry >= 0;
            assert(l2_len * shared_entry <= usize::MAX) by (nonlinear_arith)
                requires
                    l1_len * shared_entry + l2_len * shared_entry + l3_len * term_entry <= usize::MAX,
                    l1_len * shared_entry >= 0,
                    l3_len * term_entry >= 0;
            assert(l3_len * term_entry <= usize::MAX) by (nonlinear_arith)
                requires
                    l1_len * shared_entry + l2_len * shared_entry + l3_len * term_entry <= usize::MAX,
                    l1_len * shared_entry >= 0,
                    l2_len * shared_entry >= 0;
        }
        let l1_size = l1_len * shared_entry;
        let l2_size = l2_len * shared_entry;
        let l3_size = l3_len * term_entry;
        l1_size + l2_size + l3_size
    }

    /// Translate the outermost constructor; subterms go through the caches
    fn translate_with_optimization(&mut self, term: &Term) -> (r: Result<LeanTerm, LeanError>)
        requires
            old(self).wf(),
        ensures
            final(self).wf(),
            r matches Ok(t) && fast_top(t@, *term),
            r matches Ok(t) && agrees(t@, *term, final(self).spec_log(), old(self).spec_log().len() as int,
                final(self).spec_log().len() as int),
            old(self).spec_log().len() <= final(self).spec_log().len(),
            final(self).spec_log().take(old(self).spec_log().len() as int) == old(self).spec_log(),
            old(self).spec_memo().submap_of(final(self).spec_memo()),
            final(self).spec_l3().spec_max() == old(self).spec_l3().spec_max(),
        decreases term, 0nat,
    {
        let ghost start = *self;
        match term {
            Term::Universe(level) => {
                proof { lemma_from_nat_numeral(level.0 as nat); }
                let res = match self.fast_universe_translation(level.value()) {
                    Some(lean_level) => Ok(LeanTerm::Sort(lean_level)),
                    None => match self.translate_level(level.value()) {
                        Ok(l) => Ok(LeanTerm::Sort(l)),
                        Err(e) => Err(e),
                    },
                };
                proof {
                    if res is Ok {
                        assert(agrees_by(res->Ok_0@, *term, self.log@, self.log@.len() as int, self.log@.len() as int, TranslationRun::Leaf));
                    }
                    assert(self.log@.take(self.log@.len() as int) =~= self.log@);
                }
                res
            },
            Term::Var(idx) => {
                let name = self.intern_var_name(*idx);
                let r = LeanTerm::Var(name);
                proof {
                    assert(agrees_by(r@, *term, self.log@, self.log@.len() as int, self.log@.len() as int, TranslationRun::Leaf));
                    assert(self.log@.take(self.log@.len() as int) =~= self.log@);
                }
                Ok(r)
            },
            Term::App(fun, arg) => {
                let lean_fun = self.translate_optimized(fun);
                let ghost mid = *self;
                let lean_arg = self.translate_optimized(arg);
                proof {
                    vstd::map_lib::lemma_submap_of_trans(start.spec_memo(), mid.spec_memo(), self.spec_memo());
                    lemma_log_extends(start.log@, mid.log@, self.log@);
                }
                match (lean_fun, lean_arg) {
                    (Ok(f), Ok(a)) => {
                        let r = LeanTerm::App(Box::new(f), Box::new(a));
                        proof {
                            let rr = lemma_parts_runs(f@, fun@, a@, arg@, start.log@.len() as int, mid.log@, self.log@);
                            assert(agrees_by(r@, *term, self.log@, start.log@.len() as int, self.log@.len() as int,
                                TranslationRun::Two(mid.log@.len() as int, Box::new(rr.0), Box::new(rr.1))));
                        }
                        Ok(r)
                    },
                    (Err(e), _) => Err(e),
                    (_, Err(e)) => Err(e),
                }
            },
            Term::Lambda(body) => {
                let lean_body = match self.translate_optimized(body) {
                    Ok(b) => b,
                    Err(e) => return Err(e),
                };
                let lean_name = self.intern_var_name(0);
                let placeholder_ty = LeanTerm::Sort(LeanLevel::Zero);
                assert(placeholder_ty@ == SemLean::Sort(SemLevel::Zero));
                let r = LeanTerm::Lambda(lean_name, Box::new(placeholder_ty), Box::new(lean_body));
                proof {
                    let r1 = lemma_through_agrees(lean_body@, body@, self.log@, start.log@.len() as int);
                    assert(agrees_by(r@, *term, self.log@, start.log@.len() as int, self.log@.len() as int,
                        TranslationRun::One(Box::new(r1))));
                }
                Ok(r)
            },
            Term::Pi(ty, body) => {
                let lean_ty = match self.translate_optimized(ty) {
                    Ok(t) => t,
                    Err(e) => return Err(e),
                };
                let ghost mid = *self;
                let lean_body = match self.translate_optimized(body) {
                    Ok(b) => b,
                    Err(e) => return Err(e),
                };
                proof {
                    vstd::map_lib::lemma_submap_of_trans(start.spec_memo(), mid.spec_memo(), self.spec_memo());
                    lemma_log_extends(start.log@, mid.log@, self.log@);
                }
                let lean_name = self.intern_var_name(0);
                let r = LeanTerm::Pi(lean_name, Box::new(lean_ty), Box::new(lean_body));
                proof {
                    let rr = lemma_parts_runs(lean_ty@, ty@, lean_body@, body@, start.log@.len() as int, mid.log@, self.log@);
                    assert(agrees_by(r@, *term, self.log@, start.log@.len() as int, self.log@.len() as int,
                        TranslationRun::Two(mid.log@.len() as int, Box::new(rr.0), Box::new(rr.1))));
                }
                Ok(r)
            },
            Term::Let(def, body) => {
                let lean_def = match self.translate_optimized(def) {
                    Ok(d) => d,
                    Err(e) => return Err(e),
                };
                let ghost mid = *self;
                let lean_body = match self.translate_optimized(body) {
                    Ok(b) => b,
                    Err(e) => return Err(e),
                };
                proof {
                    vstd::map_lib::lemma_submap_of_trans(start.spec_memo(), mid.spec_memo(), self.spec_memo());
                    lemma_log_extends(start.log@, mid.log@, self.log@);
                }
                let lean_name = self.intern_var_name(0);
                let placeholder_ty = LeanTerm::Sort(LeanLevel::Zero);
                assert(placeholder_ty@ == SemLean::Sort(SemLevel::Zero));
                let r = LeanTerm::Let(lean_name, Box::new(placeholder_ty), Box::new(lean_def), Box::new(lean_body));
                proof {
                    let rr = lemma_parts_runs(lean_def@, def@, lean_body@, body@, start.log@.len() as int, mid.log@, self.log@);
                    assert(agrees_by(r@, *term, self.log@, start.log@.len() as int, self.log@.len() as int,
                        TranslationRun::Two(mid.log@.len() as int, Box::new(rr.0), Box::new(rr.1))));
                }
                Ok(r)
            },
            Term::Meta(id) => {
                let mut text = String::from_str("?m");
                text.append(decimal_string(*id as u64).as_str());
                let r = LeanTerm::Const(LeanName::String(text));
                proof {
                    reveal_strlit("?m");
                    assert(fast_form(SemLean::Const(meta_name(*id as nat))));
                    assert(agrees_by(r@, *term, self.log@, self.log@.len() as int, self.log@.len() as int, TranslationRun::Leaf));
                    assert(self.log@.take(self.log@.len() as int) =~= self.log@);
                }
                Ok(r)
            },
        }
    }
}

// ---------------------------------------------------------------------
// Reuse of translation contexts, and sharing
// ---------------------------------------------------------------------

/// A pool of translation contexts handed out again after a reset.
pub struct ContextPool {
    pool: VecDeque<TranslationContext>,
    max_size: usize,
    created: usize,
    reused: usize,
}

impl ContextPool {
    /// The contexts waiting, first out first.
    pub closed spec fn spec_pool(&self) -> Seq<TranslationContext> {
        self.pool@
    }

    /// The most contexts kept.
    pub closed spec fn spec_max(&self) -> usize {
        self.max_size
    }

    /// How many contexts were made new.
    pub closed spec fn spec_created(&self) -> usize {
        self.created
    }

    /// How many contexts were handed out again.
    pub closed spec fn spec_reused(&self) -> usize {
        self.reused
    }

    /// An empty pool keeping at most `max_size` contexts
    pub fn new(max_size: usize) -> (r: Self)
        ensures
            r.spec_pool() == Seq::<TranslationContext>::empty(),
            r.spec_max() == max_size,
            r.spec_created() == 0,
            r.spec_reused() == 0,
    {
        ContextPool { pool: VecDeque::with_capacity(max_size), max_size, created: 0, reused: 0 }
    }

    /// The first waiting context, reset (it keeps its known levels), or a
    /// new one when none waits
    pub fn get(&mut self) -> (r: TranslationContext)
        ensures
            final(self).spec_max() == old(self).spec_max(),
            old(self).spec_pool().len() > 0 ==> {
                &&& final(self).spec_pool() == old(self).spec_pool().drop_first()
                &&& final(self).spec_reused() == old(self).spec_reused().wrapping_add(1)
                &&& final(self).spec_created() == old(self).spec_created()
                &&& r.spec_names() == Map::<NameV, SemName>::empty()
                &&& r.spec_reverse() == Map::<SemName, NameV>::empty()
                &&& r.spec_levels() == old(self).spec_pool()[0].spec_levels()
                &&& r.spec_depth() == 0
                &&& r.spec_counter() == 0
                &&& r.spec_scope() == Seq::<NameV>::empty()
            },
            old(self).spec_pool().len() == 0 ==> {
                &&& final(self).spec_pool() == old(self).spec_pool()
                &&& final(self).spec_created() == old(self).spec_created().wrapping_add(1)
                &&& final(self).spec_reused() == old(self).spec_reused()
                &&& r.state() == TranslationContext::new_state()
                &&& r.spec_names() == Map::<NameV, SemName>::empty()
                &&& r.spec_reverse() == Map::<SemName, NameV>::empty()
                &&& r.spec_levels() == initial_levels()
                &&& r.spec_depth() == 0
                &&& r.spec_counter() == 0
                &&& r.spec_scope() == Seq::<NameV>::empty()
            },
    {
        match self.pool.pop_front() {
            Some(mut ctx) => {
                ctx.reset();
                self.reused = self.reused.wrapping_add(1);
                ctx
            },
            None => {
                self.created = self.created.wrapping_add(1);
                TranslationContext::new()
            },
        }
    }

    /// Give a context back; it is kept while fewer than the maximum wait
    pub fn return_context(&mut self, ctx: TranslationContext)
        ensures
            final(self).spec_max() == old(self).spec_max(),
            final(self).spec_created() == old(self).spec_created(),
            final(self).spec_reused() == old(self).spec_reused(),
            old(self).spec_pool().len() < old(self).spec_max()
                ==> final(self).spec_pool() == old(self).spec_pool().push(ctx),
            old(self).spec_pool().len() >= old(self).spec_max()
                ==> final(self).spec_pool() == old(self).spec_pool(),
    {
        if self.pool.len() < self.max_size {
            self.pool.push_back(ctx);
        }
    }

    /// How many contexts were handed out again, and how many were made new
    pub fn reuse_counts(&self) -> (r: (usize, usize))
        ensures
            r == (self.spec_reused(), self.spec_created()),
    {
        (self.reused, self.created)
    }
}

/// A shared copy of a term.
pub fn optimize_sharing(term: &LeanTerm) -> (r: Arc<LeanTerm>)
    ensures
        (*r)@ == term@,
{
    Arc::new(term.clone())
}

} // verus!
