//! The dedup cache: remembers, for a few hours, which visitor was already
//! counted for which member and kind of visit.
//!
//! The entries live in a cache of the `r_cache` crate, which drops each of
//! them from its answers once its time is up. What the contracts below say
//! of that cache is its own word, not proved here; everything else in this
//! module is proved from it.

use crate::visitor::{make_visitor_key, visitor_key, VisitorType};
use r_cache::cache::Cache;
use std::time::Duration;
use vstd::prelude::*;

verus! {

/// Seconds for which a counted visit is remembered (four hours).
pub const DEDUP_WINDOW: u64 = 14_400;

/// Seconds that the cache gives an entry stored without a time of its own
/// (ten minutes).
pub const DEFAULT_WINDOW: u64 = 600;

/// The cache of the `r_cache` crate.
#[verifier::external_type_specification]
#[verifier::external_body]
#[verifier::reject_recursive_types(T)]
#[verifier::reject_recursive_types(V)]
pub struct ExCache<T, V>(Cache<T, V>);

/// The keys that the cache stores, whether their time is up or not.
pub uninterp spec fn stored_keys(cache: &Cache<String, ()>) -> Set<Seq<char>>;

/// Longest lifetime in seconds that this module hands to the cache: the
/// cache adds a lifetime to the current instant, and that sum must stay
/// within the range of instants.
pub const LONGEST_WINDOW: u64 = 0xffff_ffff;

/// `Cache::new`: a cache that stores nothing. `default_window` is the
/// lifetime in seconds of entries stored without one of their own.
#[verifier::external_body]
fn cache_new(default_window: u64) -> (cache: Cache<String, ()>)
    requires
        default_window <= LONGEST_WINDOW,
    ensures
        stored_keys(&cache) == Set::<Seq<char>>::empty(),
{
    Cache::new(Some(Duration::from_secs(default_window)))
}

/// `Cache::get`: the entry under `key`. The cache answers only for a key
/// that it stores, and not for one whose time is up; so an entry shows
/// that the key is stored, and no entry shows nothing.
#[verifier::external_body]
fn cache_get(cache: &Cache<String, ()>, key: &String) -> (found: Option<()>)
    ensures
        found is Some ==> stored_keys(cache).contains(key@),
{
    cache.get(key)
}

/// `Cache::set`: stores `key` for `window` seconds, in place of an earlier
/// entry under that key; the other entries stay.
#[verifier::external_body]
fn cache_store(cache: &mut Cache<String, ()>, key: String, window: u64)
    requires
        window <= LONGEST_WINDOW,
    ensures
        stored_keys(final(cache)) == stored_keys(old(cache)).insert(key@),
{
    cache.set(key, (), Some(Duration::from_secs(window)));
}

/// `Cache::clear`: drops every entry.
#[verifier::external_body]
fn cache_clear(cache: &mut Cache<String, ()>)
    ensures
        stored_keys(final(cache)) == Set::<Seq<char>>::empty(),
{
    cache.clear();
}

/// The visits counted of late, by their keys.
pub struct DedupCache {
    entries: Cache<String, ()>,
}

impl DedupCache {
    /// The keys of the visits that the cache remembers or has not yet
    /// dropped.
    pub closed spec fn keys(&self) -> Set<Seq<char>> {
        stored_keys(&self.entries)
    }

    /// An empty cache.
    pub fn new() -> (cache: DedupCache)
        ensures
            cache.keys() == Set::<Seq<char>>::empty(),
    {
        DedupCache { entries: cache_new(DEFAULT_WINDOW) }
    }

    /// Asks whether a visit is to be counted, and remembers it for the
    /// next four hours if so.
    ///
    /// The answer is `false` only for a visit whose key the cache holds; a
    /// visit that it does not hold is always counted. A visit that it
    /// holds is counted again once its time is up.
    pub fn should_count(&mut self, fingerprint: &str, member: i64, kind: VisitorType) -> (fresh:
        bool)
        ensures
            final(self).keys() == old(self).keys().insert(visitor_key(fingerprint@, member, kind)),
            !fresh ==> old(self).keys().contains(visitor_key(fingerprint@, member, kind)),
    {
        let key = make_visitor_key(fingerprint, member, kind);
        if cache_get(&self.entries, &key).is_some() {
            assert(self.keys().insert(key@) =~= self.keys());
            false
        } else {
            cache_store(&mut self.entries, key, DEDUP_WINDOW);
            true
        }
    }

    /// Forgets every visit.
    pub fn clear(&mut self)
        ensures
            final(self).keys() == Set::<Seq<char>>::empty(),
    {
        cache_clear(&mut self.entries);
    }
}

} // verus!
