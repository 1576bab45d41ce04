//! Cache counters and the hit rate derived from them.
use vstd::prelude::*;

verus! {

/// Snapshot of the cache counters.
#[derive(Debug, Clone, Copy, PartialEq, Eq, Structural)]
pub struct CacheStats {
    pub hits: u64,
    pub misses: u64,
    pub invalidations: u64,
}

/// An exact non-negative ratio `num / den`, with `den > 0`.
#[derive(Debug, Clone, Copy, PartialEq, Eq, Structural)]
pub struct Ratio {
    pub num: u128,
    pub den: u128,
}

/// Hit rate in percent as a ratio: `100 * hits / (hits + misses)`, or `0 / 1`
/// when no lookup was made.
pub open spec fn hit_rate_spec(hits: nat, misses: nat) -> (int, int) {
    if hits + misses == 0 {
        (0, 1)
    } else {
        ((100 * hits) as int, (hits + misses) as int)
    }
}

/// Adds `n` to a counter, stopping at the largest value instead of wrapping,
/// so that counters never go backwards.
pub open spec fn bump(c: u64, n: nat) -> u64 {
    if c + n > u64::MAX as int {
        u64::MAX
    } else {
        (c + n) as u64
    }
}

/// Adds `n` to the counter `c`, stopping at `u64::MAX`.
pub fn bump_by(c: u64, n: u64) -> (r: u64)
    ensures
        r == bump(c, n as nat),
{
    if c > u64::MAX - n {
        u64::MAX
    } else {
        c + n
    }
}

impl CacheStats {
    pub open spec fn zero_spec() -> CacheStats {
        CacheStats { hits: 0, misses: 0, invalidations: 0 }
    }

    /// The counters after one read: a hit or a miss.
    pub open spec fn after_lookup(self, hit: bool) -> CacheStats {
        if hit {
            CacheStats { hits: bump(self.hits, 1), ..self }
        } else {
            CacheStats { misses: bump(self.misses, 1), ..self }
        }
    }

    /// The counters after `n` invalidations.
    pub open spec fn after_invalidations(self, n: nat) -> CacheStats {
        CacheStats { invalidations: bump(self.invalidations, n), ..self }
    }

    /// Number of reads counted.
    pub open spec fn total_spec(&self) -> nat {
        (self.hits + self.misses) as nat
    }

    /// All three counters at zero.
    pub fn zero() -> (r: CacheStats)
        ensures
            r == CacheStats::zero_spec(),
    {
        CacheStats { hits: 0, misses: 0, invalidations: 0 }
    }

    /// Number of lookups counted: `hits + misses`.
    pub fn total_requests(&self) -> (r: u128)
        ensures
            r == self.total_spec(),
    {
        self.hits as u128 + self.misses as u128
    }

    /// Hit rate in percent, as an exact ratio.
    pub fn hit_rate(&self) -> (r: Ratio)
        ensures
            (r.num as int, r.den as int) == hit_rate_spec(self.hits as nat, self.misses as nat),
            r.den > 0,
    {
        let total = self.hits as u128 + self.misses as u128;
        if total == 0 {
            Ratio { num: 0, den: 1 }
        } else {
            Ratio { num: 100 * (self.hits as u128), den: total }
        }
    }
}

} // verus!
