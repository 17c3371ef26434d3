//! Cache entries with their bookkeeping, access counters, errors and the
//! configuration of the cache levels.

use vstd::prelude::*;
use std::path::PathBuf;
use std::time::{Duration, SystemTime};
use std::collections::hash_map::DefaultHasher;
use std::hash::{Hash, Hasher};
use crate::lean::server::{path_from, duration_from_secs, io_error_text};
use crate::lean::types::{LeanTerm, SemLean};
use crate::kernel::Term;

verus! {

/// Cache access counters.
#[derive(Debug)]
pub struct CacheStats {
    pub accesses: u64,
    pub hits: u64,
    pub misses: u64,
    pub insertions: u64,
    pub evictions: u64,
}

impl CacheStats {
    /// Whether all counters are zero.
    pub open spec fn is_zero(&self) -> bool {
        &&& self.accesses == 0
        &&& self.hits == 0
        &&& self.misses == 0
        &&& self.insertions == 0
        &&& self.evictions == 0
    }

    /// Counters at zero
    pub fn new() -> (r: Self)
        ensures
            r.is_zero(),
    {
        CacheStats { accesses: 0, hits: 0, misses: 0, insertions: 0, evictions: 0 }
    }

    /// Count an access
    pub fn record_access(&mut self)
        ensures
            final(self).accesses == old(self).accesses.wrapping_add(1),
            final(self).hits == old(self).hits,
            final(self).misses == old(self).misses,
            final(self).insertions == old(self).insertions,
            final(self).evictions == old(self).evictions,
    {
        self.accesses = self.accesses.wrapping_add(1);
    }

    /// Count a hit
    pub fn record_hit(&mut self)
        ensures
            final(self).hits == old(self).hits.wrapping_add(1),
            final(self).accesses == old(self).accesses,
            final(self).misses == old(self).misses,
            final(self).insertions == old(self).insertions,
            final(self).evictions == old(self).evictions,
    {
        self.hits = self.hits.wrapping_add(1);
    }

    /// Count a miss
    pub fn record_miss(&mut self)
        ensures
            final(self).misses == old(self).misses.wrapping_add(1),
            final(self).accesses == old(self).accesses,
            final(self).hits == old(self).hits,
            final(self).insertions == old(self).insertions,
            final(self).evictions == old(self).evictions,
    {
        self.misses = self.misses.wrapping_add(1);
    }

    /// Count an insertion
    pub fn record_insertion(&mut self)
        ensures
            final(self).insertions == old(self).insertions.wrapping_add(1),
            final(self).accesses == old(self).accesses,
            final(self).hits == old(self).hits,
            final(self).misses == old(self).misses,
            final(self).evictions == old(self).evictions,
    {
        self.insertions = self.insertions.wrapping_add(1);
    }

    /// Count an eviction
    pub fn record_eviction(&mut self)
        ensures
            final(self).evictions == old(self).evictions.wrapping_add(1),
            final(self).accesses == old(self).accesses,
            final(self).hits == old(self).hits,
            final(self).misses == old(self).misses,
            final(self).insertions == old(self).insertions,
    {
        self.evictions = self.evictions.wrapping_add(1);
    }

    /// Set every counter back to zero
    pub fn reset(&mut self)
        ensures
            final(self).is_zero(),
    {
        self.accesses = 0;
        self.hits = 0;
        self.misses = 0;
        self.insertions = 0;
        self.evictions = 0;
    }
}

// ---------------------------------------------------------------------
// Errors
// ---------------------------------------------------------------------

/// What can go wrong with a cache.
#[derive(Debug)]
pub enum CacheError {
    /// Cache miss for a key
    CacheMiss { key: String },
    /// Serialization failed
    SerializationError { reason: String },
    /// IO error
    Io(std::io::Error),
    /// Cache corruption detected
    Corruption { reason: String },
    /// Cache full, eviction failed
    CacheFull,
    /// Invalid cache key
    InvalidKey { key: String },
}

/// The text a cache error is shown as (an IO error's own text is not
/// stated).
pub open spec fn cache_error_text(e: CacheError) -> Seq<char> {
    match e {
        CacheError::CacheMiss { key } => "Cache miss for key: "@ + key@,
        CacheError::SerializationError { reason } => "Serialization failed: "@ + reason@,
        CacheError::Io(_) => "IO error: "@,
        CacheError::Corruption { reason } => "Cache corruption detected: "@ + reason@,
        CacheError::CacheFull => "Cache full, eviction failed"@,
        CacheError::InvalidKey { key } => "Invalid cache key: "@ + key@,
    }
}

impl CacheError {
    /// The text the error is shown as; for an IO error, the prefix
    /// followed by that error's own text
    pub fn to_display_string(&self) -> (r: String)
        ensures
            !(self is Io) ==> r@ == cache_error_text(*self),
            self is Io ==> cache_error_text(*self).is_prefix_of(r@),
    {
        let (prefix, rest) = match self {
            CacheError::CacheMiss { key } => {
                proof { reveal_strlit("Cache miss for key: "); }
                ("Cache miss for key: ", key.clone())
            },
            CacheError::SerializationError { reason } => {
                proof { reveal_strlit("Serialization failed: "); }
                ("Serialization failed: ", reason.clone())
            },
            CacheError::Io(e) => {
                proof { reveal_strlit("IO error: "); }
                ("IO error: ", io_error_text(e))
            },
            CacheError::Corruption { reason } => {
                proof { reveal_strlit("Cache corruption detected: "); }
                ("Cache corruption detected: ", reason.clone())
            },
            CacheError::CacheFull => {
                proof {
                    reveal_strlit("Cache full, eviction failed");
                    reveal_strlit("");
                }
                ("Cache full, eviction failed", String::new())
            },
            CacheError::InvalidKey { key } => {
                proof { reveal_strlit("Invalid cache key: "); }
                ("Invalid cache key: ", key.clone())
            },
        };
        let mut s = String::from_str(prefix);
        s.append(rest.as_str());
        s
    }
}

// ---------------------------------------------------------------------
// Entries
// ---------------------------------------------------------------------

#[verifier::external_type_specification]
#[verifier::external_body]
pub struct ExSystemTime(SystemTime);

/// `SystemTime` is `Copy`, so its `clone` gives the same time.
pub assume_specification[ <std::time::SystemTime as Clone>::clone ](t: &SystemTime) -> (r: SystemTime)
    ensures
        r == *t,
;

/// `Duration` is `Copy`, so its `clone` gives the same duration.
pub assume_specification[ <std::time::Duration as Clone>::clone ](d: &Duration) -> (r: Duration)
    ensures
        r == *d,
;

/// `PathBuf::clone`; paths are opaque here, so nothing is stated.
pub assume_specification[ <std::path::PathBuf as Clone>::clone ](p: &PathBuf) -> (r: PathBuf);

/// `std::time::SystemTime::now`; nothing is stated of the moment read.
#[verifier::external_body]
fn system_now() -> (r: SystemTime) {
    SystemTime::now()
}

/// `std::time::SystemTime::elapsed`: the time since `t`, or none where the
/// clock went back; it depends on the clock.
#[verifier::external_body]
fn system_elapsed(t: &SystemTime) -> (r: Option<Duration>) {
    match t.elapsed() {
        Ok(d) => Some(d),
        Err(_) => None,
    }
}

/// `Duration`'s `>`; durations are opaque here, so nothing is stated.
#[verifier::external_body]
fn duration_longer(a: &Duration, b: &Duration) -> (r: bool) {
    *a > *b
}

/// `std::time::Duration::ZERO`.
#[verifier::external_body]
fn duration_zero() -> (r: Duration) {
    Duration::ZERO
}

/// A cached value with its bookkeeping.
#[derive(Debug, Clone)]
pub struct CacheEntry<T> {
    /// The cached value
    pub value: T,
    /// When the entry was created
    pub created_at: SystemTime,
    /// When the entry was last accessed
    pub last_accessed: SystemTime,
    /// How many times the entry was accessed
    pub access_count: u64,
    /// Size estimate in bytes
    pub size_bytes: u64,
    /// Time to live, if any
    pub ttl: Option<Duration>,
    /// Version for invalidation
    pub version: u32,
}

impl<T> CacheEntry<T> {
    /// A new entry, accessed once, without time to live, version 1
    pub fn new(value: T, size_bytes: u64) -> (r: Self)
        ensures
            r.value == value,
            r.access_count == 1,
            r.size_bytes == size_bytes,
            r.ttl is None,
            r.version == 1,
            r.last_accessed == r.created_at,
    {
        let now = system_now();
        CacheEntry { value, created_at: now, last_accessed: now, access_count: 1, size_bytes, ttl: None, version: 1 }
    }

    /// A new entry with a time to live
    pub fn with_ttl(value: T, size_bytes: u64, ttl: Duration) -> (r: Self)
        ensures
            r.value == value,
            r.access_count == 1,
            r.size_bytes == size_bytes,
            r.ttl == Some(ttl),
            r.version == 1,
    {
        let mut entry = Self::new(value, size_bytes);
        entry.ttl = Some(ttl);
        entry
    }

    /// Whether the entry has outlived its time to live (never without
    /// one, nor where the clock went back)
    pub fn is_expired(&self) -> (r: bool)
        ensures
            self.ttl is None ==> !r,
    {
        match &self.ttl {
            Some(ttl) => match system_elapsed(&self.created_at) {
                Some(age) => duration_longer(&age, ttl),
                None => false,
            },
            None => false,
        }
    }

    /// Count an access and take the current time as the last access
    pub fn touch(&mut self)
        requires
            old(self).access_count < u64::MAX,
        ensures
            final(self).access_count == old(self).access_count + 1,
            final(self).value == old(self).value,
            final(self).created_at == old(self).created_at,
            final(self).size_bytes == old(self).size_bytes,
            final(self).ttl == old(self).ttl,
            final(self).version == old(self).version,
    {
        self.last_accessed = system_now();
        self.access_count = self.access_count + 1;
    }

    /// The time since creation (zero where the clock went back)
    pub fn age(&self) -> (r: Duration) {
        match system_elapsed(&self.created_at) {
            Some(d) => d,
            None => duration_zero(),
        }
    }
}

// ---------------------------------------------------------------------
// Configuration
// ---------------------------------------------------------------------

/// Configuration of an in-memory cache.
#[derive(Debug, Clone)]
pub struct MemoryCacheConfig {
    /// Most entries
    pub max_entries: usize,
    /// Most memory in bytes
    pub max_memory_bytes: u64,
    /// Default time to live
    pub default_ttl: Option<Duration>,
    /// Whether eviction weighs access frequency
    pub frequency_eviction: bool,
}

impl Default for MemoryCacheConfig {
    /// 10000 entries, 256 MiB, one hour to live, frequency eviction
    fn default() -> (r: Self)
        ensures
            r.max_entries == 10000,
            r.max_memory_bytes == 256 * 1024 * 1024,
            r.default_ttl is Some,
            r.frequency_eviction,
    {
        MemoryCacheConfig {
            max_entries: 10000,
            max_memory_bytes: 256 * 1024 * 1024,
            default_ttl: Some(duration_from_secs(3600)),
            frequency_eviction: true,
        }
    }
}

/// Configuration of an on-disk cache.
#[derive(Debug, Clone)]
pub struct PersistentCacheConfig {
    /// Most disk usage in bytes
    pub max_disk_bytes: u64,
    /// Compression level (0 to 9, 0 is none)
    pub compression_level: u32,
    /// Interval between index writes
    pub sync_interval: Duration,
    /// Whether to clean up in the background
    pub background_cleanup: bool,
}

impl Default for PersistentCacheConfig {
    /// 1 GiB, compression level 6, an index write every 5 minutes,
    /// background cleanup
    fn default() -> (r: Self)
        ensures
            r.max_disk_bytes == 1024 * 1024 * 1024,
            r.compression_level == 6,
            r.background_cleanup,
    {
        PersistentCacheConfig {
            max_disk_bytes: 1024 * 1024 * 1024,
            compression_level: 6,
            sync_interval: duration_from_secs(300),
            background_cleanup: true,
        }
    }
}

/// Configuration of a two-level (memory, disk) cache.
#[derive(Debug, Clone)]
pub struct TieredCacheConfig {
    pub memory_config: MemoryCacheConfig,
    pub persistent_config: PersistentCacheConfig,
    /// Whether hits move up a level
    pub promotion_enabled: bool,
    /// Accesses before moving up to memory
    pub promotion_threshold: u64,
}

impl Default for TieredCacheConfig {
    /// The default levels, promotion after 3 accesses
    fn default() -> (r: Self)
        ensures
            r.memory_config.max_entries == 10000,
            r.memory_config.max_memory_bytes == 256 * 1024 * 1024,
            r.persistent_config.max_disk_bytes == 1024 * 1024 * 1024,
            r.persistent_config.compression_level == 6,
            r.promotion_enabled,
            r.promotion_threshold == 3,
    {
        TieredCacheConfig {
            memory_config: MemoryCacheConfig::default(),
            persistent_config: PersistentCacheConfig::default(),
            promotion_enabled: true,
            promotion_threshold: 3,
        }
    }
}

/// Configuration of the cache manager.
#[derive(Debug, Clone)]
pub struct CacheManagerConfig {
    /// Directory of all caches
    pub base_dir: PathBuf,
    /// Whether to warm the caches at startup
    pub warm_on_startup: bool,
    /// Interval between cleanups
    pub cleanup_interval: Duration,
}

impl Default for CacheManagerConfig {
    /// Directory `cache`, no warming, hourly cleanup
    fn default() -> (r: Self)
        ensures
            !r.warm_on_startup,
    {
        CacheManagerConfig {
            base_dir: path_from("cache"),
            warm_on_startup: false,
            cleanup_interval: duration_from_secs(3600),
        }
    }
}


// ---------------------------------------------------------------------
// Keys
// ---------------------------------------------------------------------

/// What a cached item is stored under.
#[derive(Debug, Hash)]
pub enum CacheKey {
    /// Translation of a term to Lean
    Translation(Term),
    /// Verification of a goal, with an optional proof hint, by the
    /// strategy of the given name
    Verification(LeanTerm, Option<LeanTerm>, String),
    /// Theorem lookup by name
    Theorem(String),
    /// Type checking of a term
    TypeCheck(LeanTerm),
    /// Normalization of a term
    Normalization(LeanTerm),
    /// Any other item, by name
    Custom(String),
}

/// A cache key as a value: terms by their views, names as text.
pub enum KeyView {
    Translation(Term),
    Verification(SemLean, Option<SemLean>, Seq<char>),
    Theorem(Seq<char>),
    TypeCheck(SemLean),
    Normalization(SemLean),
    Custom(Seq<char>),
}

/// The view of an optional term.
pub open spec fn hint_view(h: Option<LeanTerm>) -> Option<SemLean> {
    match h {
        Some(t) => Some(t@),
        None => None,
    }
}

impl View for CacheKey {
    type V = KeyView;

    open spec fn view(&self) -> KeyView {
        match self {
            CacheKey::Translation(t) => KeyView::Translation(*t),
            CacheKey::Verification(g, h, s) => KeyView::Verification(g@, hint_view(*h), s@),
            CacheKey::Theorem(n) => KeyView::Theorem(n@),
            CacheKey::TypeCheck(t) => KeyView::TypeCheck(t@),
            CacheKey::Normalization(t) => KeyView::Normalization(t@),
            CacheKey::Custom(s) => KeyView::Custom(s@),
        }
    }
}

/// A number cut off at the largest `u64`.
pub open spec fn capped(n: int) -> int {
    if n > u64::MAX { u64::MAX as int } else { n }
}

/// The estimated size of a key in bytes: the in-memory size of the term
/// it holds (twice for a goal with a hint, capped at the largest `u64`),
/// or the UTF-8 length of its name.
pub open spec fn key_size(k: KeyView) -> int {
    match k {
        KeyView::Translation(_) => vstd::layout::size_of::<Term>() as int,
        KeyView::Verification(_, hint, _) => if hint is Some {
            capped((2 * vstd::layout::size_of::<LeanTerm>()) as int)
        } else {
            vstd::layout::size_of::<LeanTerm>() as int
        },
        KeyView::Theorem(n) => vstd::utf8::encode_utf8(n).len() as usize as int,
        KeyView::TypeCheck(_) => vstd::layout::size_of::<LeanTerm>() as int,
        KeyView::Normalization(_) => vstd::layout::size_of::<LeanTerm>() as int,
        KeyView::Custom(s) => vstd::utf8::encode_utf8(s).len() as usize as int,
    }
}

/// The hash that std's `DefaultHasher` (as made by `DefaultHasher::new`)
/// gives a key through its derived `Hash`.
pub uninterp spec fn default_hash_key(k: KeyView) -> u64;

/// Hashes a key with a fresh `std::collections::hash_map::DefaultHasher`
/// (`new`, the derived `Hash::hash`, `finish`). Hashers made by `new` all
/// start from the same fixed keys and the derived `Hash` walks the key's
/// structure, so the hash is a function of the key; it is named, not
/// stated.
#[verifier::external_body]
fn hash_key(key: &CacheKey) -> (r: u64)
    ensures
        r == default_hash_key(key@),
{
    let mut hasher = DefaultHasher::new();
    key.hash(&mut hasher);
    hasher.finish()
}

/// A hexadecimal digit, in lower case.
pub open spec fn hex_char(d: nat) -> char {
    if d < 10 {
        crate::kernel::show::digit_char(d)
    } else if d == 10 { 'a' } else if d == 11 { 'b' } else if d == 12 { 'c' }
    else if d == 13 { 'd' } else if d == 14 { 'e' } else { 'f' }
}

/// The hexadecimal notation of a natural number, lower case, without
/// leading zeros.
pub open spec fn hex_text(n: nat) -> Seq<char>
    decreases n,
{
    if n < 16 {
        seq![hex_char(n)]
    } else {
        hex_text(n / 16).push(hex_char(n % 16))
    }
}

fn hex_digit_str(d: u64) -> (r: &'static str)
    requires
        d < 16,
    ensures
        r@ == seq![hex_char(d as nat)],
{
    if d < 10 {
        crate::kernel::show::digit_str(d)
    } else if d == 10 {
        proof { reveal_strlit("a"); }
        "a"
    } else if d == 11 {
        proof { reveal_strlit("b"); }
        "b"
    } else if d == 12 {
        proof { reveal_strlit("c"); }
        "c"
    } else if d == 13 {
        proof { reveal_strlit("d"); }
        "d"
    } else if d == 14 {
        proof { reveal_strlit("e"); }
        "e"
    } else {
        proof { reveal_strlit("f"); }
        "f"
    }
}

/// The hexadecimal notation of a number.
pub fn hex_string(n: u64) -> (r: String)
    ensures
        r@ == hex_text(n as nat),
    decreases n,
{
    if n < 16 {
        String::from_str(hex_digit_str(n))
    } else {
        let mut s = hex_string(n / 16);
        s.append(hex_digit_str(n % 16));
        s
    }
}

/// The text a key is stored under on disk, given the key's hash: a tag
/// for its kind, then the hash in hexadecimal (after the strategy's name
/// for a verification), or the name it holds.
pub open spec fn key_text(k: KeyView, hash: u64) -> Seq<char> {
    match k {
        KeyView::Translation(_) => "trans_"@ + hex_text(hash as nat),
        KeyView::Verification(_, _, s) => "verif_"@ + s + "_"@ + hex_text(hash as nat),
        KeyView::Theorem(n) => "thm_"@ + n,
        KeyView::TypeCheck(_) => "type_"@ + hex_text(hash as nat),
        KeyView::Normalization(_) => "norm_"@ + hex_text(hash as nat),
        KeyView::Custom(s) => "custom_"@ + s,
    }
}

fn tagged(tag: &str, rest: &str) -> (r: String)
    ensures
        r@ == tag@ + rest@,
{
    let mut s = String::from_str(tag);
    s.append(rest);
    s
}

impl CacheKey {
    /// The estimated size of the key in bytes
    pub fn size_estimate(&self) -> (r: u64)
        ensures
            r == key_size(self@),
    {
        match self {
            CacheKey::Translation(_) => {
                let u = core::mem::size_of::<Term>();
                u as u64
            },
            CacheKey::Verification(_, hint, _) => {
                let one = core::mem::size_of::<LeanTerm>() as u64;
                match hint {
                    Some(_) => one.saturating_add(one),
                    None => one,
                }
            },
            CacheKey::Theorem(name) => name.as_str().len() as u64,
            CacheKey::TypeCheck(_) => core::mem::size_of::<LeanTerm>() as u64,
            CacheKey::Normalization(_) => core::mem::size_of::<LeanTerm>() as u64,
            CacheKey::Custom(s) => s.as_str().len() as u64,
        }
    }

    /// The text the key is stored under
    pub fn to_string(&self) -> (r: String)
        ensures
            r@ == key_text(self@, default_hash_key(self@)),
    {
        match self {
            CacheKey::Translation(_) => {
                proof { reveal_strlit("trans_"); }
                let h = hex_string(hash_key(self));
                tagged("trans_", h.as_str())
            },
            CacheKey::Verification(_, _, strategy) => {
                proof {
                    reveal_strlit("verif_");
                    reveal_strlit("_");
                }
                let h = hex_string(hash_key(self));
                let mut s = tagged("verif_", strategy.as_str());
                s.append("_");
                s.append(h.as_str());
                s
            },
            CacheKey::Theorem(name) => {
                proof { reveal_strlit("thm_"); }
                tagged("thm_", name.as_str())
            },
            CacheKey::TypeCheck(_) => {
                proof { reveal_strlit("type_"); }
                let h = hex_string(hash_key(self));
                tagged("type_", h.as_str())
            },
            CacheKey::Normalization(_) => {
                proof { reveal_strlit("norm_"); }
                let h = hex_string(hash_key(self));
                tagged("norm_", h.as_str())
            },
            CacheKey::Custom(s) => {
                proof { reveal_strlit("custom_"); }
                tagged("custom_", s.as_str())
            },
        }
    }
}


// ---------------------------------------------------------------------
// In-memory cache
// ---------------------------------------------------------------------

/// Whether two keys are the same key.
pub fn same_key(a: &CacheKey, b: &CacheKey) -> (r: bool)
    ensures
        r == (a@ == b@),
{
    match (a, b) {
        (CacheKey::Translation(x), CacheKey::Translation(y)) => x.equals(y),
        (CacheKey::Verification(g1, h1, s1), CacheKey::Verification(g2, h2, s2)) => {
            let hints = match (h1, h2) {
                (Some(x), Some(y)) => x.same(y),
                (None, None) => true,
                _ => false,
            };
            g1.same(g2) && hints && *s1 == *s2
        },
        (CacheKey::Theorem(x), CacheKey::Theorem(y)) => *x == *y,
        (CacheKey::TypeCheck(x), CacheKey::TypeCheck(y)) => x.same(y),
        (CacheKey::Normalization(x), CacheKey::Normalization(y)) => x.same(y),
        (CacheKey::Custom(x), CacheKey::Custom(y)) => *x == *y,
        _ => false,
    }
}

/// A counter after `n` wrapping increments.
pub open spec fn bumped(x: u64, n: nat) -> u64
    decreases n,
{
    if n == 0 {
        x
    } else {
        bumped(x, (n - 1) as nat).wrapping_add(1)
    }
}

/// Counters `b` are counters `a` after the given numbers of accesses,
/// hits, misses, insertions and evictions.
pub open spec fn counted(a: CacheStats, b: CacheStats, acc: nat, hit: nat, miss: nat, ins: nat, ev: nat) -> bool {
    &&& b.accesses == bumped(a.accesses, acc)
    &&& b.hits == bumped(a.hits, hit)
    &&& b.misses == bumped(a.misses, miss)
    &&& b.insertions == bumped(a.insertions, ins)
    &&& b.evictions == bumped(a.evictions, ev)
}

/// A slot of the cache as a value: key, entry and use count.
pub type SlotView<T> = (KeyView, CacheEntry<T>, u64);

/// The sum of a sequence of numbers.
pub open spec fn total(s: Seq<int>) -> int
    decreases s.len(),
{
    if s.len() == 0 {
        0
    } else {
        total(s.drop_last()) + s.last()
    }
}

/// The estimated memory of each slot: its key's size and its entry's.
pub open spec fn slot_sizes<T>(s: Seq<SlotView<T>>) -> Seq<int> {
    s.map_values(|e: SlotView<T>| key_size(e.0) + e.1.size_bytes)
}

/// Whether slots `s` leave no room for an entry of `new_size` bytes: the
/// memory would exceed `max_memory`, or the slots are `max_entries` or more.
pub open spec fn over<T>(s: Seq<SlotView<T>>, new_size: u64, max_memory: u64, max_entries: usize) -> bool {
    total(slot_sizes(s)) + new_size > max_memory || s.len() >= max_entries
}

/// How many of the least recently used slots must go, from the `k`-th on,
/// before an entry of `new_size` bytes fits; none where even an empty
/// cache has no room.
pub open spec fn evictions_needed<T>(s: Seq<SlotView<T>>, new_size: u64, max_memory: u64, max_entries: usize, k: nat) -> Option<nat>
    decreases s.len() + 1 - k,
{
    if k > s.len() {
        None
    } else if !over(s.skip(k as int), new_size, max_memory, max_entries) {
        Some(k)
    } else {
        evictions_needed(s, new_size, max_memory, max_entries, k + 1)
    }
}

/// Whether a slot holds key `k`.
pub open spec fn has_key<T>(s: Seq<SlotView<T>>, k: KeyView) -> bool {
    exists|i: int| 0 <= i < s.len() && #[trigger] s[i].0 == k
}

/// The position of the slot holding key `k`.
pub open spec fn key_index<T>(s: Seq<SlotView<T>>, k: KeyView) -> int {
    choose|i: int| 0 <= i < s.len() && #[trigger] s[i].0 == k
}

/// The slots without the one holding key `k`, if any.
pub open spec fn without_key<T>(s: Seq<SlotView<T>>, k: KeyView) -> Seq<SlotView<T>> {
    if has_key(s, k) {
        s.remove(key_index(s, k))
    } else {
        s
    }
}

/// No two slots hold the same key.
pub open spec fn keys_distinct<T>(s: Seq<SlotView<T>>) -> bool {
    forall|i: int, j: int| 0 <= i < j < s.len() ==> #[trigger] s[i].0 != #[trigger] s[j].0
}

/// Entry `b` is entry `a` after one more access.
pub open spec fn touched<T>(a: CacheEntry<T>, b: CacheEntry<T>) -> bool {
    &&& b.value == a.value
    &&& b.created_at == a.created_at
    &&& b.access_count == a.access_count + 1
    &&& b.size_bytes == a.size_bytes
    &&& b.ttl == a.ttl
    &&& b.version == a.version
}

/// An in-memory cache: slots in order of use, least recently used first,
/// bounded by entry count and by estimated memory; each slot counts its
/// uses where the configuration asks for it.
pub struct MemoryCache<T> {
    slots: Vec<(CacheKey, CacheEntry<T>, u64)>,
    stats: CacheStats,
    config: MemoryCacheConfig,
}

impl<T> MemoryCache<T> {
    /// The slots, least recently used first
    pub closed spec fn spec_slots(&self) -> Seq<SlotView<T>> {
        self.slots@.map_values(|e: (CacheKey, CacheEntry<T>, u64)| (e.0@, e.1, e.2))
    }

    /// The counters
    pub closed spec fn spec_stats(&self) -> CacheStats {
        self.stats
    }

    /// The configuration
    pub closed spec fn spec_config(&self) -> MemoryCacheConfig {
        self.config
    }

    /// Keys are distinct, the entry bound is positive, and use counts are
    /// kept only where the configuration asks for them.
    pub open spec fn wf(&self) -> bool {
        &&& keys_distinct(self.spec_slots())
        &&& self.spec_config().max_entries > 0
        &&& !self.spec_config().frequency_eviction ==> forall|i: int|
            0 <= i < self.spec_slots().len() ==> #[trigger] self.spec_slots()[i].2 == 0
    }

    /// An empty cache with the given configuration
    pub fn new(config: MemoryCacheConfig) -> (r: Self)
        requires
            config.max_entries > 0,
        ensures
            r.wf(),
            r.spec_slots().len() == 0,
            r.spec_stats().is_zero(),
            r.spec_config() == config,
    {
        let r = MemoryCache { slots: Vec::new(), stats: CacheStats::new(), config };
        assert(r.spec_slots() =~= Seq::<SlotView<T>>::empty());
        r
    }

    /// The counters
    pub fn stats(&self) -> (r: &CacheStats)
        ensures
            *r == self.spec_stats(),
    {
        &self.stats
    }

    /// The position of the slot holding `key`
    fn position(&self, key: &CacheKey) -> (r: Option<usize>)
        requires
            self.wf(),
        ensures
            match r {
                Some(i) => {
                    &&& has_key(self.spec_slots(), key@)
                    &&& i == key_index(self.spec_slots(), key@)
                    &&& i < self.spec_slots().len()
                },
                None => !has_key(self.spec_slots(), key@),
            },
    {
        let mut i: usize = 0;
        while i < self.slots.len()
            invariant
                i <= self.slots.len(),
                self.wf(),
                forall|j: int| 0 <= j < i ==> #[trigger] self.spec_slots()[j].0 != key@,
            decreases self.slots.len() - i,
        {
            if same_key(&self.slots[i].0, key) {
                proof {
                    let s = self.spec_slots();
                    assert(s[i as int].0 == key@);
                    let c = key_index(s, key@);
                    assert(0 <= c < s.len() && s[c].0 == key@);
                    if c != i as int {
                        if c < i as int {
                            assert(s[c].0 != s[i as int].0);
                        } else {
                            assert(s[i as int].0 != s[c].0);
                        }
                    }
                }
                return Some(i);
            }
            i = i + 1;
        }
        proof {
            let s = self.spec_slots();
            assert forall|j: int| 0 <= j < s.len() implies #[trigger] s[j].0 != key@ by {}
        }
        None
    }

    /// Whether an entry of `new_size` bytes leaves no room
    fn should_evict(&self, new_size: u64) -> (r: bool)
        ensures
            r == over(self.spec_slots(), new_size, self.spec_config().max_memory_bytes, self.spec_config().max_entries),
    {
        let ghost sizes = slot_sizes(self.spec_slots());
        if self.slots.len() >= self.config.max_entries {
            return true;
        }
        let mut acc: u64 = 0;
        let mut i: usize = 0;
        while i < self.slots.len()
            invariant
                i <= self.slots.len(),
                sizes == slot_sizes(self.spec_slots()),
                sizes.len() == self.slots.len(),
                acc == total(sizes.take(i as int)),
            decreases self.slots.len() - i,
        {
            let item = self.slots[i].0.size_estimate();
            proof {
                assert(sizes.take(i as int + 1).drop_last() =~= sizes.take(i as int));
                assert(sizes[i as int] == key_size(self.spec_slots()[i as int].0) + self.slots@[i as int].1.size_bytes);
            }
            match acc.checked_add(item) {
                Some(a) => match a.checked_add(self.slots[i].1.size_bytes) {
                    Some(b) => {
                        acc = b;
                    },
                    None => {
                        proof { lemma_total_prefix(sizes, i as int + 1); }
                        return true;
                    },
                },
                None => {
                    proof { lemma_total_prefix(sizes, i as int + 1); }
                    return true;
                },
            }
            i = i + 1;
        }
        proof { assert(sizes.take(i as int) =~= sizes); }
        match acc.checked_add(new_size) {
            Some(sum) => sum > self.config.max_memory_bytes,
            None => true,
        }
    }
}

impl<T> MemoryCache<T> {
    /// Lets the least recently used entries go while an entry of
    /// `new_size` bytes finds no room; tells whether it found room.
    fn evict_for(&mut self, new_size: u64) -> (r: bool)
        requires
            old(self).wf(),
        ensures
            final(self).wf(),
            final(self).config == old(self).config,
            ({
                let s = old(self).spec_slots();
                let c = old(self).spec_config();
                match evictions_needed(s, new_size, c.max_memory_bytes, c.max_entries, 0) {
                    None => {
                        &&& !r
                        &&& final(self).spec_slots().len() == 0
                        &&& counted(old(self).spec_stats(), final(self).spec_stats(), 0, 0, 0, 0, s.len())
                    },
                    Some(k) => {
                        &&& r
                        &&& final(self).spec_slots() == s.skip(k as int)
                        &&& counted(old(self).spec_stats(), final(self).spec_stats(), 0, 0, 0, 0, k)
                    },
                }
            }),
    {
        let ghost s0 = self.spec_slots();
        let ghost st0 = self.stats;
        let ghost c = self.config;
        let ghost mut k: nat = 0;
        proof {
            assert(s0.skip(0) =~= s0);
        }
        while self.should_evict(new_size)
            invariant
                self.wf(),
                self.config == c,
                c == old(self).config,
                s0 == old(self).spec_slots(),
                st0 == old(self).stats,
                k <= s0.len(),
                self.spec_slots() == s0.skip(k as int),
                evictions_needed(s0, new_size, c.max_memory_bytes, c.max_entries, 0)
                    == evictions_needed(s0, new_size, c.max_memory_bytes, c.max_entries, k),
                counted(st0, self.stats, 0, 0, 0, 0, k),
            decreases self.slots.len(),
        {
            if self.slots.len() == 0 {
                proof {
                    assert(k == s0.len());
                    assert(evictions_needed(s0, new_size, c.max_memory_bytes, c.max_entries, k + 1) is None);
                }
                return false;
            }
            let ghost before = self.spec_slots();
            self.slots.remove(0);
            self.stats.record_eviction();
            proof {
                assert(self.spec_slots() =~= before.remove(0));
                assert(s0.skip(k as int + 1) =~= s0.skip(k as int).remove(0));
                k = k + 1;
                assert forall|i: int, j: int| 0 <= i < j < self.spec_slots().len() implies
                    #[trigger] self.spec_slots()[i].0 != #[trigger] self.spec_slots()[j].0 by {
                    assert(self.spec_slots()[i] == before[i + 1]);
                    assert(self.spec_slots()[j] == before[j + 1]);
                }
            }
        }
        true
    }

    /// Removes the slot holding `key`, if any.
    fn take_key(&mut self, key: &CacheKey) -> (r: Option<(CacheKey, CacheEntry<T>, u64)>)
        requires
            old(self).wf(),
        ensures
            final(self).wf(),
            final(self).config == old(self).config,
            final(self).stats == old(self).stats,
            final(self).spec_slots() == without_key(old(self).spec_slots(), key@),
            !has_key(final(self).spec_slots(), key@),
            match r {
                Some(e) => {
                    &&& has_key(old(self).spec_slots(), key@)
                    &&& (e.0@, e.1, e.2) == old(self).spec_slots()[key_index(old(self).spec_slots(), key@)]
                },
                None => !has_key(old(self).spec_slots(), key@),
            },
    {
        let ghost fit = self.spec_slots();
        let r = match self.position(key) {
            Some(i) => {
                let e = self.slots.remove(i);
                proof {
                    assert(self.spec_slots() =~= fit.remove(i as int));
                }
                Some(e)
            },
            None => None,
        };
        let ghost kept = self.spec_slots();
        proof {
            assert(!has_key(kept, key@)) by {
                if has_key(kept, key@) {
                    let j = key_index(kept, key@);
                    if has_key(fit, key@) {
                        let i = key_index(fit, key@);
                        if j < i {
                            assert(kept[j] == fit[j]);
                        } else {
                            assert(kept[j] == fit[j + 1]);
                        }
                    } else {
                        assert(kept[j] == fit[j]);
                    }
                }
            }
            assert forall|i: int, j: int| 0 <= i < j < kept.len() implies
                #[trigger] kept[i].0 != #[trigger] kept[j].0 by {
                if has_key(fit, key@) {
                    let x = key_index(fit, key@);
                    let a = if i < x { i } else { i + 1 };
                    let b = if j < x { j } else { j + 1 };
                    assert(kept[i] == fit[a]);
                    assert(kept[j] == fit[b]);
                }
            }
            assert forall|i: int| 0 <= i < kept.len() && !self.config.frequency_eviction implies
                #[trigger] kept[i].2 == 0 by {
                if has_key(fit, key@) {
                    let x = key_index(fit, key@);
                    if i < x { assert(kept[i] == fit[i]); } else { assert(kept[i] == fit[i + 1]); }
                }
            }
        }
        r
    }

    /// Stores `value` under `key`, estimated at `size_bytes` bytes, with the
    /// configured time to live. While the cache has no room for it (too
    /// many entries, or too much memory with it), the least recently used
    /// entry goes; where even an empty cache has no room, the cache ends
    /// empty and the call fails with `CacheFull`. Otherwise the entry is
    /// stored as the most recently used, in place of any entry under the
    /// same key.
    pub fn put(&mut self, key: CacheKey, value: T, size_bytes: u64) -> (r: Result<(), CacheError>)
        requires
            old(self).wf(),
        ensures
            final(self).wf(),
            final(self).spec_config() == old(self).spec_config(),
            put_result(*old(self), key@, value, size_bytes, *final(self), r),
    {
        let entry = match &self.config.default_ttl {
            Some(ttl) => CacheEntry::with_ttl(value, size_bytes, ttl.clone()),
            None => CacheEntry::new(value, size_bytes),
        };
        if !self.evict_for(size_bytes) {
            return Err(CacheError::CacheFull);
        }
        self.take_key(&key);
        let ghost kept = self.spec_slots();
        let count: u64 = if self.config.frequency_eviction { 1 } else { 0 };
        self.slots.push((key, entry, count));
        self.stats.record_insertion();
        proof {
            let f = self.spec_slots();
            assert(f =~= kept.push(f[kept.len() as int]));
            assert(f.take(kept.len() as int) =~= kept);
            assert forall|i: int, j: int| 0 <= i < j < f.len() implies
                #[trigger] f[i].0 != #[trigger] f[j].0 by {
                if j == kept.len() {
                    assert(f[i] == kept[i]);
                    assert(!has_key(kept, key@));
                    assert(kept[i].0 != key@);
                }
            }
        }
        Ok(())
    }
}

/// The slot holding `k`, if any, has room for one more access in its
/// counters.
pub open spec fn room_to_count<T>(s: Seq<SlotView<T>>, k: KeyView) -> bool {
    has_key(s, k) ==> {
        let e = s[key_index(s, k)];
        e.1.access_count < u64::MAX && e.2 < u64::MAX
    }
}

/// What a lookup of key `k` does to slots `s`, counters `st` (giving `s2`,
/// `st2`) and what it returns, given whether the entry found has expired:
/// an expired entry goes and counts as a miss; a live one is touched,
/// becomes the most recently used, counts a use where asked and a hit, and
/// a copy of its value is returned; a missing key counts as a miss.
pub open spec fn lookup_result<T: Clone>(
    s: Seq<SlotView<T>>,
    st: CacheStats,
    c: MemoryCacheConfig,
    k: KeyView,
    expired: bool,
    s2: Seq<SlotView<T>>,
    st2: CacheStats,
    r: Option<T>,
) -> bool {
    if has_key(s, k) {
        let i = key_index(s, k);
        if expired {
            &&& r is None
            &&& s2 == s.remove(i)
            &&& counted(st, st2, 1, 0, 1, 0, 0)
        } else {
            let n = s2.len() - 1;
            &&& r is Some
            &&& cloned(s[i].1.value, r->0)
            &&& s2.len() == s.len()
            &&& s2.take(n) == s.remove(i)
            &&& s2[n].0 == k
            &&& touched(s[i].1, s2[n].1)
            &&& s2[n].2 == (if c.frequency_eviction { (s[i].2 + 1) as u64 } else { s[i].2 })
            &&& counted(st, st2, 1, 1, 0, 0, 0)
        }
    } else {
        &&& r is None
        &&& s2 == s
        &&& counted(st, st2, 1, 0, 1, 0, 0)
    }
}

/// What storing `value` under key `k`, estimated at `size` bytes, does to
/// cache `a` (giving `b`) and returns: while there is no room, the least
/// recently used entry goes; where even an empty cache has no room, the
/// cache ends empty and the result is `CacheFull`; otherwise the entry is
/// stored as the most recently used, in place of any entry under `k`.
pub open spec fn put_result<T>(a: MemoryCache<T>, k: KeyView, value: T, size: u64, b: MemoryCache<T>, r: Result<(), CacheError>) -> bool {
    let s = a.spec_slots();
    let c = a.spec_config();
    match evictions_needed(s, size, c.max_memory_bytes, c.max_entries, 0) {
        None => {
            &&& r is Err && r->Err_0 is CacheFull
            &&& b.spec_slots().len() == 0
            &&& counted(a.spec_stats(), b.spec_stats(), 0, 0, 0, 0, s.len())
        },
        Some(e) => {
            let kept = without_key(s.skip(e as int), k);
            let n = b.spec_slots().len() - 1;
            &&& r is Ok
            &&& b.spec_slots().len() == kept.len() + 1
            &&& b.spec_slots().take(n) == kept
            &&& b.spec_slots()[n].0 == k
            &&& b.spec_slots()[n].1.value == value
            &&& b.spec_slots()[n].1.size_bytes == size
            &&& b.spec_slots()[n].1.ttl == c.default_ttl
            &&& b.spec_slots()[n].1.access_count == 1
            &&& b.spec_slots()[n].1.version == 1
            &&& b.spec_slots()[n].2 == (if c.frequency_eviction { 1u64 } else { 0u64 })
            &&& counted(a.spec_stats(), b.spec_stats(), 0, 0, 0, 1, e)
        },
    }
}

/// What a lookup of key `k` in cache `a` may do (giving `b`) and return,
/// whichever way the clock decides expiry; an entry without a time to
/// live never expires.
pub open spec fn get_result<T: Clone>(a: MemoryCache<T>, k: KeyView, b: MemoryCache<T>, r: Option<T>) -> bool {
    let s = a.spec_slots();
    &&& lookup_result(s, a.spec_stats(), a.spec_config(), k, true, b.spec_slots(), b.spec_stats(), r)
        || lookup_result(s, a.spec_stats(), a.spec_config(), k, false, b.spec_slots(), b.spec_stats(), r)
    &&& has_key(s, k) && s[key_index(s, k)].1.ttl is None
        ==> lookup_result(s, a.spec_stats(), a.spec_config(), k, false, b.spec_slots(), b.spec_stats(), r)
}

impl<T: Clone> MemoryCache<T> {
    /// Looks `key` up, given whether its entry (if any) has expired.
    pub fn lookup(&mut self, key: &CacheKey, expired: bool) -> (r: Option<T>)
        requires
            old(self).wf(),
            room_to_count(old(self).spec_slots(), key@),
        ensures
            final(self).wf(),
            final(self).spec_config() == old(self).spec_config(),
            lookup_result(old(self).spec_slots(), old(self).spec_stats(), old(self).spec_config(), key@, expired,
                final(self).spec_slots(), final(self).spec_stats(), r),
    {
        proof {
            lemma_bumped_once(self.stats.accesses);
            lemma_bumped_once(self.stats.hits);
            lemma_bumped_once(self.stats.misses);
        }
        self.stats.record_access();
        let ghost s = self.spec_slots();
        match self.position(key) {
            None => {
                self.stats.record_miss();
                None
            },
            Some(i) => {
                if expired {
                    self.slots.remove(i);
                    self.stats.record_miss();
                    proof {
                        let f = self.spec_slots();
                        assert(f =~= s.remove(i as int));
                        assert forall|a: int, b: int| 0 <= a < b < f.len() implies
                            #[trigger] f[a].0 != #[trigger] f[b].0 by {
                            let x = if a < i { a } else { a + 1 };
                            let y = if b < i { b } else { b + 1 };
                            assert(f[a] == s[x]);
                            assert(f[b] == s[y]);
                        }
                        assert forall|a: int| 0 <= a < f.len() && !self.config.frequency_eviction implies
                            #[trigger] f[a].2 == 0 by {
                            if a < i { assert(f[a] == s[a]); } else { assert(f[a] == s[a + 1]); }
                        }
                    }
                    None
                } else {
                    let (k, mut entry, count) = self.slots.remove(i);
                    let ghost rest = self.spec_slots();
                    entry.touch();
                    let v = entry.value.clone();
                    let count2 = if self.config.frequency_eviction { count + 1 } else { count };
                    self.slots.push((k, entry, count2));
                    self.stats.record_hit();
                    proof {
                        assert(rest =~= s.remove(i as int));
                        let f = self.spec_slots();
                        assert(f.take(rest.len() as int) =~= rest);
                        assert forall|a: int, b: int| 0 <= a < b < f.len() implies
                            #[trigger] f[a].0 != #[trigger] f[b].0 by {
                            let x = if a < i { a } else { a + 1 };
                            assert(f[a] == s[x]);
                            if b < rest.len() {
                                let y = if b < i { b } else { b + 1 };
                                assert(f[b] == s[y]);
                            } else {
                                assert(f[b].0 == s[i as int].0);
                            }
                        }
                        assert forall|a: int| 0 <= a < f.len() && !self.config.frequency_eviction implies
                            #[trigger] f[a].2 == 0 by {
                            if a < rest.len() {
                                if a < i { assert(f[a] == s[a]); } else { assert(f[a] == s[a + 1]); }
                            }
                        }
                    }
                    Some(v)
                }
            },
        }
    }

    /// Looks `key` up: an entry found is checked against the clock for
    /// expiry (never expired without a time to live), then as `lookup`.
    pub fn get(&mut self, key: &CacheKey) -> (r: Option<T>)
        requires
            old(self).wf(),
            room_to_count(old(self).spec_slots(), key@),
        ensures
            final(self).wf(),
            final(self).spec_config() == old(self).spec_config(),
            get_result(*old(self), key@, *final(self), r),
    {
        let expired = match self.position(key) {
            Some(i) => self.slots[i].1.is_expired(),
            None => false,
        };
        self.lookup(key, expired)
    }
}

impl<T> MemoryCache<T> {
    /// Removes the entry under `key`, giving back its value.
    pub fn remove(&mut self, key: &CacheKey) -> (r: Option<T>)
        requires
            old(self).wf(),
        ensures
            final(self).wf(),
            final(self).spec_config() == old(self).spec_config(),
            final(self).spec_stats() == old(self).spec_stats(),
            final(self).spec_slots() == without_key(old(self).spec_slots(), key@),
            has_key(old(self).spec_slots(), key@)
                ==> r == Some(old(self).spec_slots()[key_index(old(self).spec_slots(), key@)].1.value),
            !has_key(old(self).spec_slots(), key@) ==> r is None,
    {
        match self.take_key(key) {
            Some(e) => Some(e.1.value),
            None => None,
        }
    }

    /// Empties the cache and sets its counters back to zero.
    pub fn clear(&mut self)
        requires
            old(self).wf(),
        ensures
            final(self).wf(),
            final(self).spec_config() == old(self).spec_config(),
            final(self).spec_slots().len() == 0,
            final(self).spec_stats().is_zero(),
    {
        self.slots = Vec::new();
        self.stats.reset();
        assert(self.spec_slots() =~= Seq::<SlotView<T>>::empty());
    }
}

// ---------------------------------------------------------------------
// Two-level cache
// ---------------------------------------------------------------------

/// A two-level cache: the memory level and the counters of both levels,
/// with the decisions around the disk level, whose reads and writes the
/// caller makes and hands back.
pub struct TieredCache<T> {
    memory: MemoryCache<T>,
    promotion_enabled: bool,
    promotion_threshold: u64,
    stats: CacheStats,
}

/// The size the two-level cache gives an entry: that of the value's type.
pub open spec fn value_size<T>() -> u64 {
    vstd::layout::size_of::<T>() as u64
}

impl<T> TieredCache<T> {
    /// The memory level
    pub closed spec fn spec_memory(&self) -> MemoryCache<T> {
        self.memory
    }

    /// The counters of both levels together
    pub closed spec fn spec_stats(&self) -> CacheStats {
        self.stats
    }

    /// Whether values found on disk are stored in memory too
    pub closed spec fn spec_promotion(&self) -> bool {
        self.promotion_enabled
    }

    /// The memory level is well formed.
    pub open spec fn wf(&self) -> bool {
        self.spec_memory().wf()
    }

    /// An empty two-level cache with the given configuration
    pub fn new(config: TieredCacheConfig) -> (r: Self)
        requires
            config.memory_config.max_entries > 0,
        ensures
            r.wf(),
            r.spec_memory().spec_slots().len() == 0,
            r.spec_memory().spec_stats().is_zero(),
            r.spec_memory().spec_config() == config.memory_config,
            r.spec_stats().is_zero(),
            r.spec_promotion() == config.promotion_enabled,
    {
        let TieredCacheConfig { memory_config, persistent_config: _, promotion_enabled, promotion_threshold } = config;
        TieredCache {
            memory: MemoryCache::new(memory_config),
            promotion_enabled,
            promotion_threshold,
            stats: CacheStats::new(),
        }
    }

    /// The counters of both levels together
    pub fn stats(&self) -> (r: &CacheStats)
        ensures
            *r == self.spec_stats(),
    {
        &self.stats
    }

    /// First step of storing: the value goes to the memory level at the
    /// size of its type, whatever comes of it there; the caller then
    /// writes the disk level and, where that succeeds, calls `finish_put`.
    pub fn put_in_memory(&mut self, key: CacheKey, value: T)
        requires
            old(self).wf(),
        ensures
            final(self).wf(),
            final(self).spec_stats() == old(self).spec_stats(),
            final(self).spec_promotion() == old(self).spec_promotion(),
            exists|pr: Result<(), CacheError>|
                put_result(old(self).spec_memory(), key@, value, value_size::<T>(), final(self).spec_memory(), pr),
    {
        let size = core::mem::size_of::<T>() as u64;
        let ghost k = key@;
        let pr = self.memory.put(key, value, size);
        assert(put_result(old(self).spec_memory(), k, value, value_size::<T>(), self.memory, pr));
    }

    /// Second step of storing, once the disk level holds the value: one
    /// insertion is counted.
    pub fn finish_put(&mut self)
        requires
            old(self).wf(),
        ensures
            final(self).wf(),
            final(self).spec_memory() == old(self).spec_memory(),
            final(self).spec_promotion() == old(self).spec_promotion(),
            counted(old(self).spec_stats(), final(self).spec_stats(), 0, 0, 0, 1, 0),
    {
        proof {
            lemma_bumped_once(self.stats.insertions);
            lemma_bumped_once(self.stats.accesses);
        }
        self.stats.record_insertion();
    }

    /// Removes the entry under `key` from the memory level; the caller
    /// removes it from the disk level.
    pub fn remove_from_memory(&mut self, key: &CacheKey)
        requires
            old(self).wf(),
        ensures
            final(self).wf(),
            final(self).spec_stats() == old(self).spec_stats(),
            final(self).spec_promotion() == old(self).spec_promotion(),
            final(self).spec_memory().spec_slots() == without_key(old(self).spec_memory().spec_slots(), key@),
            final(self).spec_memory().spec_stats() == old(self).spec_memory().spec_stats(),
            final(self).spec_memory().spec_config() == old(self).spec_memory().spec_config(),
    {
        let _ = self.memory.remove(key);
    }

    /// Empties the memory level and sets the counters back to zero; the
    /// disk level is kept.
    pub fn clear(&mut self)
        requires
            old(self).wf(),
        ensures
            final(self).wf(),
            final(self).spec_memory().spec_slots().len() == 0,
            final(self).spec_memory().spec_stats().is_zero(),
            final(self).spec_memory().spec_config() == old(self).spec_memory().spec_config(),
            final(self).spec_stats().is_zero(),
            final(self).spec_promotion() == old(self).spec_promotion(),
    {
        self.memory.clear();
        self.stats.reset();
    }
}

impl<T: Clone> TieredCache<T> {
    /// First step of a lookup: counts the access and looks in the memory
    /// level, where a value found is a hit. Where none is, the caller reads
    /// the disk level and hands the outcome to `finish_get`.
    pub fn get_from_memory(&mut self, key: &CacheKey) -> (r: Option<T>)
        requires
            old(self).wf(),
            room_to_count(old(self).spec_memory().spec_slots(), key@),
        ensures
            final(self).wf(),
            final(self).spec_promotion() == old(self).spec_promotion(),
            get_result(old(self).spec_memory(), key@, final(self).spec_memory(), r),
            counted(old(self).spec_stats(), final(self).spec_stats(), 1, if r is Some { 1nat } else { 0nat }, 0, 0, 0),
    {
        proof {
            lemma_bumped_once(self.stats.accesses);
            lemma_bumped_once(self.stats.hits);
            lemma_bumped_once(self.stats.misses);
            lemma_bumped_once(self.stats.insertions);
            lemma_bumped_once(self.stats.evictions);
        }
        self.stats.record_access();
        match self.memory.get(key) {
            Some(v) => {
                self.stats.record_hit();
                Some(v)
            },
            None => None,
        }
    }

    /// Second step of a lookup that missed in memory, given what the disk
    /// level gave: a value is a hit and is returned, and where promotion is
    /// on a copy of it is stored in memory at the size of its type; nothing
    /// is a miss.
    pub fn finish_get(&mut self, key: CacheKey, from_disk: Option<T>) -> (r: Option<T>)
        requires
            old(self).wf(),
        ensures
            final(self).wf(),
            final(self).spec_promotion() == old(self).spec_promotion(),
            r == from_disk,
            from_disk is Some ==> counted(old(self).spec_stats(), final(self).spec_stats(), 0, 1, 0, 0, 0),
            from_disk is None ==> counted(old(self).spec_stats(), final(self).spec_stats(), 0, 0, 1, 0, 0)
                && final(self).spec_memory() == old(self).spec_memory(),
            from_disk is Some && old(self).spec_promotion() ==> exists|v: T, pr: Result<(), CacheError>|
                cloned(from_disk->0, v)
                && put_result(old(self).spec_memory(), key@, v, value_size::<T>(), final(self).spec_memory(), pr),
            from_disk is Some && !old(self).spec_promotion() ==> final(self).spec_memory() == old(self).spec_memory(),
    {
        proof {
            lemma_bumped_once(self.stats.accesses);
            lemma_bumped_once(self.stats.hits);
            lemma_bumped_once(self.stats.misses);
            lemma_bumped_once(self.stats.insertions);
            lemma_bumped_once(self.stats.evictions);
        }
        match from_disk {
            Some(value) => {
                if self.promotion_enabled {
                    let copy = value.clone();
                    let ghost g = copy;
                    let ghost k = key@;
                    let size = core::mem::size_of::<T>() as u64;
                    let pr = self.memory.put(key, copy, size);
                    assert(cloned(value, g) && put_result(old(self).spec_memory(), k, g, value_size::<T>(), self.memory, pr));
                }
                self.stats.record_hit();
                Some(value)
            },
            None => {
                self.stats.record_miss();
                None
            },
        }
    }
}

/// One wrapping increment.
proof fn lemma_bumped_once(x: u64)
    ensures
        bumped(x, 1) == x.wrapping_add(1),
        bumped(x, 0) == x,
{
    assert(bumped(x, 0) == x);
}

/// A prefix of a sequence of non-negative numbers sums to no more than
/// the whole.
proof fn lemma_total_prefix(s: Seq<int>, i: int)
    requires
        0 <= i <= s.len(),
        forall|j: int| 0 <= j < s.len() ==> s[j] >= 0,
    ensures
        total(s.take(i)) <= total(s),
    decreases s.len(),
{
    if i < s.len() {
        assert(s.drop_last().take(i) =~= s.take(i));
        lemma_total_prefix(s.drop_last(), i);
    } else {
        assert(s.take(i) =~= s);
    }
}

} // verus!
