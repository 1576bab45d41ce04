//! Time to live of each class of cached data.
use vstd::prelude::*;
use crate::text::str_eq;

verus! {

/// TTL that a cache class gets when it has none of its own.
pub const DEFAULT_TTL: usize = 300;

/// Time to live, in seconds, of each class of cached data.
#[derive(Debug, Clone, Copy, PartialEq, Eq, Structural)]
pub struct CacheConfig {
    pub corridor_metrics_ttl: usize,
    pub anchor_data_ttl: usize,
    pub dashboard_stats_ttl: usize,
}

impl CacheConfig {
    /// TTL of the cache class named `cache_type`: "corridor", "anchor" and
    /// "dashboard" have their own; any other name gets the default TTL.
    pub open spec fn ttl_spec(&self, cache_type: Seq<char>) -> usize {
        if cache_type == "corridor"@ {
            self.corridor_metrics_ttl
        } else if cache_type == "anchor"@ {
            self.anchor_data_ttl
        } else if cache_type == "dashboard"@ {
            self.dashboard_stats_ttl
        } else {
            DEFAULT_TTL
        }
    }

    /// TTL in seconds of the cache class named `cache_type`.
    pub fn get_ttl(&self, cache_type: &str) -> (r: usize)
        ensures
            r == self.ttl_spec(cache_type@),
    {
        if str_eq(cache_type, "corridor") {
            self.corridor_metrics_ttl
        } else if str_eq(cache_type, "anchor") {
            self.anchor_data_ttl
        } else if str_eq(cache_type, "dashboard") {
            self.dashboard_stats_ttl
        } else {
            DEFAULT_TTL
        }
    }
}

impl Default for CacheConfig {
    /// Corridor metrics 5 minutes, anchor data 10 minutes, dashboard 1 minute.
    fn default() -> (r: CacheConfig)
        ensures
            r.corridor_metrics_ttl == 300,
            r.anchor_data_ttl == 600,
            r.dashboard_stats_ttl == 60,
    {
        CacheConfig { corridor_metrics_ttl: 300, anchor_data_ttl: 600, dashboard_stats_ttl: 60 }
    }
}

} // verus!
