//! The Lean environment's own state: a counter for fresh names.

use vstd::prelude::*;
use crate::kernel::show::{decimal, decimal_string};
use super::error::LeanResult;

verus! {

/// Lean environment state
#[derive(Debug)]
pub struct LeanEnvironment {
    fresh_counter: u64,
}

impl LeanEnvironment {
    /// The number of fresh names generated.
    pub closed spec fn spec_counter(&self) -> u64 {
        self.fresh_counter
    }

    /// Create a new Lean environment (this cannot fail)
    pub fn new() -> (r: LeanResult<Self>)
        ensures
            r matches Ok(e) && e.spec_counter() == 0,
    {
        Ok(LeanEnvironment { fresh_counter: 0 })
    }

    /// Generate the fresh variable name `hint_n` from the next counter value
    pub fn fresh_name(&mut self, hint: &str) -> (r: String)
        requires
            old(self).spec_counter() < u64::MAX,
        ensures
            final(self).spec_counter() == old(self).spec_counter() + 1,
            r@ == hint@ + "_"@ + decimal(final(self).spec_counter() as nat),
    {
        self.fresh_counter = self.fresh_counter + 1;
        let mut s = String::from_str(hint);
        s.append("_");
        s.append(decimal_string(self.fresh_counter).as_str());
        proof { reveal_strlit("_"); }
        s
    }
}

/// Translation counters of the bridge.
#[derive(Debug)]
pub struct Metrics {
    translations: u64,
    cache_hits: u64,
    total_time_ms: u64,
}

impl Metrics {
    /// Translations started.
    pub closed spec fn spec_translations(&self) -> u64 {
        self.translations
    }

    /// Translations answered from a cache.
    pub closed spec fn spec_cache_hits(&self) -> u64 {
        self.cache_hits
    }

    /// Counters at zero
    pub fn new() -> (r: Self)
        ensures
            r.spec_translations() == 0,
            r.spec_cache_hits() == 0,
    {
        Metrics { translations: 0, cache_hits: 0, total_time_ms: 0 }
    }

    /// Count a translation started
    pub fn record_translation_start(&mut self)
        ensures
            final(self).spec_translations() == old(self).spec_translations().wrapping_add(1),
            final(self).spec_cache_hits() == old(self).spec_cache_hits(),
    {
        self.translations = self.translations.wrapping_add(1);
    }

    /// Count a translation answered from a cache
    pub fn record_cache_hit(&mut self)
        ensures
            final(self).spec_cache_hits() == old(self).spec_cache_hits().wrapping_add(1),
            final(self).spec_translations() == old(self).spec_translations(),
    {
        self.cache_hits = self.cache_hits.wrapping_add(1);
    }

    /// Mark a translation complete (no time is measured)
    pub fn record_translation_complete(&mut self)
        ensures
            final(self).spec_translations() == old(self).spec_translations(),
            final(self).spec_cache_hits() == old(self).spec_cache_hits(),
    {
    }

    /// The number of translations started
    pub fn translation_count(&self) -> (r: u64)
        ensures
            r == self.spec_translations(),
    {
        self.translations
    }

    /// Translations answered from a cache, and translations started
    pub fn cache_counts(&self) -> (r: (u64, u64))
        ensures
            r == (self.spec_cache_hits(), self.spec_translations()),
    {
        (self.cache_hits, self.translations)
    }
}

} // verus!
