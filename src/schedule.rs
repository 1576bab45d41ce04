//! Decisions of the two background loops. The catch-up loop fetches bounded
//! batches of ledgers after its cursor; the resync loop recomputes aggregates
//! on a fixed period and, when that succeeds, purges the cache namespaces that
//! depend on them. The loops' waiting and I/O are left to the caller.
use vstd::prelude::*;
use crate::cache::CacheManager;
use crate::keys::{anchor_pattern, corridor_pattern, dashboard_pattern, metrics_pattern};
use crate::stats::bump;
use crate::store::{StoreMap, matching_live};

verus! {

/// Most ledgers fetched in one batch.
pub const BATCH_SIZE: u64 = 5;
/// Pause after an empty batch, in seconds.
pub const IDLE_SLEEP_SECS: u64 = 5;
/// Pause after a failed fetch or apply, in seconds.
pub const ERROR_BACKOFF_SECS: u64 = 10;
/// Period of the aggregate resync, in seconds.
pub const RESYNC_PERIOD_SECS: u64 = 300;

/// What became of one fetch-and-apply attempt.
#[derive(Debug, Clone, Copy, PartialEq, Eq, Structural)]
pub enum BatchOutcome {
    /// This many ledgers were fetched and applied (zero: caught up).
    Applied(u64),
    /// Fetching or applying failed; nothing was recorded.
    Failed,
}

/// What the catch-up loop does before its next attempt.
#[derive(Debug, Clone, Copy, PartialEq, Eq, Structural)]
pub enum Pause {
    /// Give way to other tasks, then go on at once.
    Yield,
    /// Sleep this many seconds.
    Sleep(u64),
}

/// The catch-up loop: the last ledger sequence applied.
#[derive(Debug, Clone, Copy, PartialEq, Eq, Structural)]
pub struct CatchUp {
    pub cursor: u64,
}

/// Cursor and pause after one attempt.
pub open spec fn catch_up_spec(cursor: u64, outcome: BatchOutcome) -> (u64, Pause) {
    match outcome {
        BatchOutcome::Applied(n) => if n == 0 {
            (cursor, Pause::Sleep(IDLE_SLEEP_SECS))
        } else {
            (bump(cursor, n as nat), Pause::Yield)
        },
        BatchOutcome::Failed => (cursor, Pause::Sleep(ERROR_BACKOFF_SECS)),
    }
}

/// Cursor and pauses after a run of attempts.
pub open spec fn run_catch_up(cursor: u64, outcomes: Seq<BatchOutcome>) -> (u64, Seq<Pause>)
    decreases outcomes.len(),
{
    if outcomes.len() == 0 {
        (cursor, Seq::empty())
    } else {
        let (c, ps) = run_catch_up(cursor, outcomes.drop_last());
        let (c2, p) = catch_up_spec(c, outcomes.last());
        (c2, ps.push(p))
    }
}

/// Ledgers applied over a run of attempts.
pub open spec fn applied_total(outcomes: Seq<BatchOutcome>) -> nat
    decreases outcomes.len(),
{
    if outcomes.len() == 0 {
        0
    } else {
        applied_total(outcomes.drop_last()) + match outcomes.last() {
            BatchOutcome::Applied(n) => n as nat,
            BatchOutcome::Failed => 0,
        }
    }
}

impl CatchUp {
    /// A catch-up loop whose last applied ledger is `cursor`.
    pub fn new(cursor: u64) -> (r: CatchUp)
        ensures
            r.cursor == cursor,
    {
        CatchUp { cursor }
    }

    /// The next batch to fetch: its first sequence and the most ledgers to take.
    pub fn next_batch(&self) -> (r: (u64, u64))
        requires
            self.cursor < u64::MAX,
        ensures
            r == ((self.cursor + 1) as u64, BATCH_SIZE),
    {
        (self.cursor + 1, BATCH_SIZE)
    }

    /// Takes the outcome of an attempt: the cursor moves past what was
    /// applied, never back; an empty batch means sleeping briefly, a failure
    /// backing off longer, and progress yielding without sleep.
    pub fn on_batch(&mut self, outcome: BatchOutcome) -> (r: Pause)
        ensures
            (final(self).cursor, r) == catch_up_spec(old(self).cursor, outcome),
            final(self).cursor >= old(self).cursor,
    {
        match outcome {
            BatchOutcome::Applied(n) => {
                if n == 0 {
                    Pause::Sleep(IDLE_SLEEP_SECS)
                } else {
                    self.cursor = crate::stats::bump_by(self.cursor, n);
                    Pause::Yield
                }
            },
            BatchOutcome::Failed => Pause::Sleep(ERROR_BACKOFF_SECS),
        }
    }
}

/// When every fetch comes back empty, the cursor stays where it was and the
/// loop sleeps between all attempts.
pub proof fn lemma_idle_never_advances(cursor: u64, outcomes: Seq<BatchOutcome>)
    requires
        forall|i: int| 0 <= i < outcomes.len() ==> #[trigger] outcomes[i] == BatchOutcome::Applied(0),
    ensures
        run_catch_up(cursor, outcomes).0 == cursor,
        run_catch_up(cursor, outcomes).1.len() == outcomes.len(),
        forall|i: int| 0 <= i < outcomes.len() ==> #[trigger] run_catch_up(cursor, outcomes).1[i]
            == Pause::Sleep(IDLE_SLEEP_SECS),
    decreases outcomes.len(),
{
    if outcomes.len() > 0 {
        let prev = outcomes.drop_last();
        assert forall|i: int| 0 <= i < prev.len() implies #[trigger] prev[i] == BatchOutcome::Applied(0) by {
            assert(prev[i] == outcomes[i]);
        }
        lemma_idle_never_advances(cursor, prev);
        assert(outcomes.last() == outcomes[outcomes.len() - 1]);
    }
}

/// When every batch brings ledgers, the cursor advances by exactly the number
/// applied and the loop never sleeps between batches.
pub proof fn lemma_progress_never_sleeps(cursor: u64, outcomes: Seq<BatchOutcome>)
    requires
        forall|i: int| 0 <= i < outcomes.len() ==> (#[trigger] outcomes[i] matches BatchOutcome::Applied(n) && n > 0),
        cursor + applied_total(outcomes) <= u64::MAX,
    ensures
        run_catch_up(cursor, outcomes).0 == cursor + applied_total(outcomes),
        run_catch_up(cursor, outcomes).1.len() == outcomes.len(),
        forall|i: int| 0 <= i < outcomes.len() ==> #[trigger] run_catch_up(cursor, outcomes).1[i] == Pause::Yield,
    decreases outcomes.len(),
{
    if outcomes.len() > 0 {
        let prev = outcomes.drop_last();
        assert forall|i: int| 0 <= i < prev.len() implies (#[trigger] prev[i] matches BatchOutcome::Applied(n) && n > 0) by {
            assert(prev[i] == outcomes[i]);
        }
        lemma_progress_never_sleeps(cursor, prev);
        assert(outcomes.last() == outcomes[outcomes.len() - 1]);
    }
}

/// The cache namespaces that a resync refreshes.
#[derive(Debug, Clone, Copy, PartialEq, Eq, Structural)]
pub enum Domain {
    Anchors,
    Corridors,
    Metrics,
}

/// The globs of each domain: its namespace, and for metrics also the dashboard.
pub open spec fn domain_patterns_spec(d: Domain) -> Seq<Seq<char>> {
    match d {
        Domain::Anchors => seq!["anchor:*"@],
        Domain::Corridors => seq!["corridor:*"@],
        Domain::Metrics => seq!["dashboard:*"@, "metrics:*"@],
    }
}

/// The store after removing, in order, the live keys each pattern matches.
pub open spec fn purge(m: StoreMap, patterns: Seq<Seq<char>>, now: u64) -> StoreMap
    decreases patterns.len(),
{
    if patterns.len() == 0 {
        m
    } else {
        let p = purge(m, patterns.drop_last(), now);
        p.remove_keys(matching_live(p, patterns.last(), now))
    }
}

/// The globs that cover a domain's cached data.
pub fn domain_patterns(d: Domain) -> (r: Vec<String>)
    ensures
        r@.map_values(|s: String| s@) == domain_patterns_spec(d),
{
    let r = match d {
        Domain::Anchors => vec![anchor_pattern()],
        Domain::Corridors => vec![corridor_pattern()],
        Domain::Metrics => vec![dashboard_pattern(), metrics_pattern()],
    };
    assert(r@.map_values(|s: String| s@) =~= domain_patterns_spec(d));
    r
}

/// Purges a domain's namespaces from the cache.
pub fn invalidate(cache: &mut CacheManager, d: Domain, now: u64)
    requires
        old(cache).wf(),
    ensures
        final(cache).wf(),
        final(cache).config_view() == old(cache).config_view(),
        final(cache).store_view() == match old(cache).store_view() {
            Some(m) => Some(purge(m, domain_patterns_spec(d), now)),
            None => None::<StoreMap>,
        },
        final(cache).stats_view().hits == old(cache).stats_view().hits,
        final(cache).stats_view().misses == old(cache).stats_view().misses,
        final(cache).stats_view().invalidations >= old(cache).stats_view().invalidations,
{
    let patterns = domain_patterns(d);
    let ghost ps = patterns@.map_values(|s: String| s@);
    let mut i: usize = 0;
    while i < patterns.len()
        invariant
            cache.wf(),
            i <= patterns@.len(),
            ps == patterns@.map_values(|s: String| s@),
            cache.config_view() == old(cache).config_view(),
            cache.store_view() == match old(cache).store_view() {
                Some(m) => Some(purge(m, ps.subrange(0, i as int), now)),
                None => None::<StoreMap>,
            },
            cache.stats_view().hits == old(cache).stats_view().hits,
            cache.stats_view().misses == old(cache).stats_view().misses,
            cache.stats_view().invalidations >= old(cache).stats_view().invalidations,
        decreases patterns@.len() - i,
    {
        cache.delete_pattern(patterns[i].as_str(), now);
        assert(ps.subrange(0, i + 1).drop_last() =~= ps.subrange(0, i as int));
        assert(ps[i as int] == patterns@[i as int]@);
        i = i + 1;
    }
    assert(ps.subrange(0, i as int) =~= ps);
}

/// Closes a resync cycle. After a success the anchor, corridor and metrics
/// namespaces are purged so that the next reads recompute them; after a
/// failure the cache is left exactly as it was, stale values included, until
/// their TTL runs out.
pub fn complete_resync(cache: &mut CacheManager, succeeded: bool, now: u64)
    requires
        old(cache).wf(),
    ensures
        final(cache).wf(),
        final(cache).config_view() == old(cache).config_view(),
        !succeeded ==> final(cache).store_view() == old(cache).store_view()
            && final(cache).stats_view() == old(cache).stats_view(),
        succeeded ==> final(cache).store_view() == match old(cache).store_view() {
            Some(m) => Some(purge(m, domain_patterns_spec(Domain::Anchors) + domain_patterns_spec(Domain::Corridors)
                + domain_patterns_spec(Domain::Metrics), now)),
            None => None::<StoreMap>,
        },
{
    if succeeded {
        invalidate(cache, Domain::Anchors, now);
        invalidate(cache, Domain::Corridors, now);
        invalidate(cache, Domain::Metrics, now);
        proof {
            let a = domain_patterns_spec(Domain::Anchors);
            let b = domain_patterns_spec(Domain::Corridors);
            let c = domain_patterns_spec(Domain::Metrics);
            match old(cache).store_view() {
                Some(m) => {
                    lemma_purge_concat(m, a, b, now);
                    lemma_purge_concat(m, a + b, c, now);
                },
                None => {},
            }
        }
    }
}

proof fn lemma_purge_concat(m: StoreMap, a: Seq<Seq<char>>, b: Seq<Seq<char>>, now: u64)
    ensures
        purge(m, a + b, now) == purge(purge(m, a, now), b, now),
    decreases b.len(),
{
    if b.len() == 0 {
        assert(a + b =~= a);
    } else {
        assert((a + b).drop_last() =~= a + b.drop_last());
        lemma_purge_concat(m, a, b.drop_last(), now);
    }
}

} // verus!
