//! Cache-aside layer: reads and writes through the key/value store, hit, miss
//! and invalidation accounting, and pattern invalidation. Without a store every
//! read is a miss and every write a silent no-op.
use vstd::prelude::*;
use crate::config::CacheConfig;
use crate::error::ApiError;
use crate::stats::{CacheStats, bump, bump_by};
use crate::store::{MemoryStore, StoreMap, live, matching_live, key_views};

verus! {

/// What a read of `key` at `now` finds: the value if a store is connected and
/// holds it live.
pub open spec fn lookup_spec(store: Option<StoreMap>, key: Seq<char>, now: u64) -> Option<Seq<char>> {
    match store {
        Some(m) => if live(m, key, now) {
            Some(m[key].0)
        } else {
            None
        },
        None => None,
    }
}

/// First step of a read-through: the cached value, or a request to run the producer.
pub enum FetchStep {
    Cached(String),
    Produce,
}

/// Cache manager: configuration, counters and an optional store; `None`
/// stands for a store that cannot be reached.
pub struct CacheManager {
    store: Option<MemoryStore>,
    pub config: CacheConfig,
    stats: CacheStats,
}

impl CacheManager {
    /// The store, when there is one, is well formed.
    pub closed spec fn wf(&self) -> bool {
        match self.store {
            Some(s) => s.wf(),
            None => true,
        }
    }

    /// The store's contents, or `None` when no store is connected.
    pub closed spec fn store_view(&self) -> Option<StoreMap> {
        match self.store {
            Some(s) => Some(s@),
            None => None,
        }
    }

    pub closed spec fn config_view(&self) -> CacheConfig {
        self.config
    }

    pub closed spec fn stats_view(&self) -> CacheStats {
        self.stats
    }

    /// A manager over an empty, connected store, with zeroed counters.
    pub fn new(config: CacheConfig) -> (r: CacheManager)
        ensures
            r.wf(),
            r.config_view() == config,
            r.store_view() == Some(StoreMap::empty()),
            r.stats_view() == CacheStats::zero_spec(),
    {
        CacheManager { store: Some(MemoryStore::new()), config, stats: CacheStats::zero() }
    }

    /// A manager whose store could not be reached: it runs uncached.
    pub fn without_store(config: CacheConfig) -> (r: CacheManager)
        ensures
            r.wf(),
            r.config_view() == config,
            r.store_view() is None,
            r.stats_view() == CacheStats::zero_spec(),
    {
        CacheManager { store: None, config, stats: CacheStats::zero() }
    }

    /// Puts another store in place of the current one (`None`: disconnected);
    /// the counters are kept.
    pub fn replace_store(&mut self, store: Option<MemoryStore>)
        requires
            match store {
                Some(s) => s.wf(),
                None => true,
            },
        ensures
            final(self).wf(),
            final(self).store_view() == match store {
                Some(s) => Some(s@),
                None => None::<StoreMap>,
            },
            final(self).stats_view() == old(self).stats_view(),
            final(self).config_view() == old(self).config_view(),
    {
        self.store = store;
    }

    /// Whether a store is connected.
    pub fn is_connected(&self) -> (r: bool)
        ensures
            r == (self.store_view() is Some),
    {
        self.store.is_some()
    }

    /// Reads `key` without counting it.
    pub fn lookup(&self, key: &str, now: u64) -> (r: Option<String>)
        requires
            self.wf(),
        ensures
            match r {
                Some(v) => lookup_spec(self.store_view(), key@, now) == Some(v@),
                None => lookup_spec(self.store_view(), key@, now) is None,
            },
    {
        match &self.store {
            Some(s) => s.get(key, now),
            None => None,
        }
    }

    /// Counts one read: a hit, or a miss.
    pub fn record_lookup(&mut self, hit: bool)
        ensures
            final(self).store_view() == old(self).store_view(),
            final(self).config_view() == old(self).config_view(),
            final(self).wf() == old(self).wf(),
            final(self).stats_view().invalidations == old(self).stats_view().invalidations,
            hit ==> final(self).stats_view().hits == bump(old(self).stats_view().hits, 1)
                && final(self).stats_view().misses == old(self).stats_view().misses,
            !hit ==> final(self).stats_view().misses == bump(old(self).stats_view().misses, 1)
                && final(self).stats_view().hits == old(self).stats_view().hits,
    {
        if hit {
            self.stats.hits = bump_by(self.stats.hits, 1);
        } else {
            self.stats.misses = bump_by(self.stats.misses, 1);
        }
    }

    /// Counts `n` invalidations acknowledged by a store outside this process.
    pub fn record_invalidations(&mut self, n: u64)
        ensures
            final(self).store_view() == old(self).store_view(),
            final(self).config_view() == old(self).config_view(),
            final(self).wf() == old(self).wf(),
            final(self).stats_view() == old(self).stats_view().after_invalidations(n as nat),
    {
        self.stats.invalidations = bump_by(self.stats.invalidations, n);
    }

    /// Reads `key`, counting a hit when a live value is found and a miss
    /// otherwise (absent, expired, or no store).
    pub fn get(&mut self, key: &str, now: u64) -> (r: Option<String>)
        requires
            old(self).wf(),
        ensures
            final(self).wf(),
            final(self).store_view() == old(self).store_view(),
            final(self).config_view() == old(self).config_view(),
            match r {
                Some(v) => lookup_spec(old(self).store_view(), key@, now) == Some(v@),
                None => lookup_spec(old(self).store_view(), key@, now) is None,
            },
            final(self).stats_view() == old(self).stats_view().after_lookup(r is Some),
    {
        let r = self.lookup(key, now);
        self.record_lookup(r.is_some());
        r
    }

    /// Stores `value` under `key` for `ttl_seconds`; a no-op without a store.
    pub fn set(&mut self, key: &str, value: String, ttl_seconds: usize, now: u64)
        requires
            old(self).wf(),
        ensures
            final(self).wf(),
            final(self).stats_view() == old(self).stats_view(),
            final(self).config_view() == old(self).config_view(),
            final(self).store_view() == match old(self).store_view() {
                Some(m) => Some(m.insert(key@, (value@, bump(now, ttl_seconds as nat)))),
                None => None::<StoreMap>,
            },
    {
        if let Some(mut s) = self.store.take() {
            s.setex(key, value, ttl_seconds as u64, now);
            self.store = Some(s);
        }
    }

    /// Removes `key`. With a store, the attempt counts as one invalidation
    /// whether or not the key was there; without one, nothing happens.
    pub fn delete(&mut self, key: &str)
        requires
            old(self).wf(),
        ensures
            final(self).wf(),
            final(self).config_view() == old(self).config_view(),
            match old(self).store_view() {
                Some(m) => final(self).store_view() == Some(m.remove(key@))
                    && final(self).stats_view() == old(self).stats_view().after_invalidations(1),
                None => final(self).store_view() is None
                    && final(self).stats_view() == old(self).stats_view(),
            },
    {
        if let Some(mut s) = self.store.take() {
            s.del(key);
            self.store = Some(s);
            self.stats.invalidations = bump_by(self.stats.invalidations, 1);
        }
    }

    /// Removes every live key that `pattern` matches, counting one
    /// invalidation per key removed; other keys stay as they were.
    pub fn delete_pattern(&mut self, pattern: &str, now: u64)
        requires
            old(self).wf(),
        ensures
            final(self).wf(),
            final(self).config_view() == old(self).config_view(),
            match old(self).store_view() {
                Some(m) => final(self).store_view() == Some(
                    m.remove_keys(matching_live(m, pattern@, now)),
                ) && final(self).stats_view() == old(self).stats_view().after_invalidations(
                    matching_live(m, pattern@, now).len(),
                ),
                None => final(self).store_view() is None
                    && final(self).stats_view() == old(self).stats_view(),
            },
    {
        if let Some(mut s) = self.store.take() {
            let ghost m = s@;
            let keys = s.keys_matching(pattern, now);
            let ghost kv = key_views(keys@);
            let ghost inv0 = self.stats.invalidations;
            let mut i: usize = 0;
            while i < keys.len()
                invariant
                    s.wf(),
                    i <= keys@.len(),
                    kv == key_views(keys@),
                    s@ == m.remove_keys(kv.subrange(0, i as int).to_set()),
                    self.stats.invalidations == bump(inv0, i as nat),
                    self.stats.hits == old(self).stats.hits,
                    self.stats.misses == old(self).stats.misses,
                    self.config == old(self).config,
                decreases keys@.len() - i,
            {
                s.del(keys[i].as_str());
                self.stats.invalidations = bump_by(self.stats.invalidations, 1);
                proof {
                    let s0 = kv.subrange(0, i as int);
                    let s1 = kv.subrange(0, i + 1);
                    assert forall|x: Seq<char>| #[trigger] s1.to_set().contains(x) == s0.to_set().insert(kv[i as int]).contains(x) by {
                        if s1.contains(x) {
                            let j = choose|j: int| 0 <= j < s1.len() && s1[j] == x;
                            if j < i {
                                assert(s0[j] == x);
                            }
                        }
                        if s0.contains(x) {
                            let j = choose|j: int| 0 <= j < s0.len() && s0[j] == x;
                            assert(s1[j] == x);
                        }
                        if x == kv[i as int] {
                            assert(s1[i as int] == x);
                        }
                    }
                    assert(s1.to_set() =~= s0.to_set().insert(kv[i as int]));
                    assert(m.remove_keys(kv.subrange(0, i as int).to_set()).remove(kv[i as int])
                        =~= m.remove_keys(kv.subrange(0, i + 1).to_set()));
                }
                i = i + 1;
            }
            proof {
                assert(kv.subrange(0, i as int) =~= kv);
                kv.unique_seq_to_set();
            }
            self.store = Some(s);
        }
    }

    /// The three counters, as they stand.
    pub fn get_stats(&self) -> (r: CacheStats)
        ensures
            r == self.stats_view(),
    {
        self.stats
    }

    /// Sets the three counters to zero.
    pub fn reset_stats(&mut self)
        ensures
            final(self).stats_view() == CacheStats::zero_spec(),
            final(self).store_view() == old(self).store_view(),
            final(self).config_view() == old(self).config_view(),
            final(self).wf() == old(self).wf(),
    {
        self.stats = CacheStats::zero();
    }

    /// Read-through, first step: a live cached value is returned (a hit);
    /// otherwise the caller is told to run its producer (a miss).
    pub fn begin_fetch(&mut self, key: &str, now: u64) -> (r: FetchStep)
        requires
            old(self).wf(),
        ensures
            final(self).wf(),
            final(self).store_view() == old(self).store_view(),
            final(self).config_view() == old(self).config_view(),
            match r {
                FetchStep::Cached(v) => lookup_spec(old(self).store_view(), key@, now) == Some(v@),
                FetchStep::Produce => lookup_spec(old(self).store_view(), key@, now) is None,
            },
            final(self).stats_view() == old(self).stats_view().after_lookup(r is Cached),
    {
        match self.get(key, now) {
            Some(v) => FetchStep::Cached(v),
            None => FetchStep::Produce,
        }
    }

    /// Read-through, second step: what the producer gave is stored under
    /// `key` for `ttl_seconds` and handed back; a failure is handed back and
    /// nothing is stored.
    pub fn finish_fetch(
        &mut self,
        key: &str,
        produced: Result<String, ApiError>,
        ttl_seconds: usize,
        now: u64,
    ) -> (r: Result<String, ApiError>)
        requires
            old(self).wf(),
        ensures
            final(self).wf(),
            final(self).stats_view() == old(self).stats_view(),
            final(self).config_view() == old(self).config_view(),
            r == produced,
            match produced {
                Ok(v) => final(self).store_view() == match old(self).store_view() {
                    Some(m) => Some(m.insert(key@, (v@, bump(now, ttl_seconds as nat)))),
                    None => None::<StoreMap>,
                },
                Err(_) => final(self).store_view() == old(self).store_view(),
            },
    {
        match produced {
            Ok(v) => {
                let out = v.clone();
                self.set(key, v, ttl_seconds, now);
                Ok(out)
            },
            Err(e) => Err(e),
        }
    }
}

/// A read-through on a key that is not cached asks for the producer; once its
/// value is stored, every read-through of that key before the TTL runs out
/// returns that value and does not ask for the producer again.
pub proof fn lemma_produce_once(m: StoreMap, key: Seq<char>, v: Seq<char>, ttl: usize, now: u64, later: u64)
    requires
        !live(m, key, now),
        now <= later,
        later < bump(now, ttl as nat),
    ensures
        lookup_spec(Some(m), key, now) is None,
        lookup_spec(Some(m.insert(key, (v, bump(now, ttl as nat)))), key, later) == Some(v),
{
}

/// Pattern invalidation removes every live key that the pattern matches and
/// leaves every key that it does not match as it was; the keys it removes are
/// exactly those that `delete_pattern` counts as invalidations.
pub proof fn lemma_delete_pattern_scope(m: StoreMap, pattern: Seq<char>, now: u64)
    ensures
        m.dom().difference(m.remove_keys(matching_live(m, pattern, now)).dom()) == matching_live(m, pattern, now),
        forall|k: Seq<char>| crate::store::glob_matches(pattern, k) ==> !live(
            m.remove_keys(matching_live(m, pattern, now)), k, now),
        forall|k: Seq<char>| !crate::store::glob_matches(pattern, k) ==> (
            #[trigger] m.remove_keys(matching_live(m, pattern, now)).contains_key(k) == m.contains_key(k)
            && (m.contains_key(k) ==> m.remove_keys(matching_live(m, pattern, now))[k] == m[k])),
{
    assert(m.dom().difference(m.remove_keys(matching_live(m, pattern, now)).dom()) =~= matching_live(m, pattern, now));
}

} // verus!
