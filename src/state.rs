//! State shared by the request handlers and the background loops.
use vstd::prelude::*;
use crate::admission::RateLimiter;
use crate::cache::CacheManager;
use crate::schedule::CatchUp;

verus! {

/// The cache, the admission controller and the catch-up cursor.
pub struct AppState {
    pub cache: CacheManager,
    pub rate_limiter: RateLimiter,
    pub ingestion: CatchUp,
}

impl AppState {
    /// Bundles the three parts.
    pub fn new(cache: CacheManager, rate_limiter: RateLimiter, ingestion: CatchUp) -> (r: AppState)
        ensures
            r.cache == cache,
            r.rate_limiter == rate_limiter,
            r.ingestion == ingestion,
    {
        AppState { cache, rate_limiter, ingestion }
    }
}

} // verus!
