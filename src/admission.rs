//! Per-endpoint admission control with fixed windows and an address
//! allow-list, counting in process memory. An endpoint with no registered
//! limit is not metered: every request to it is allowed.
use vstd::prelude::*;
use crate::text::str_eq;

verus! {

/// Limit of one endpoint: at most `requests_per_window` requests per client
/// address in each window of `window_seconds`; addresses on the allow-list are
/// never limited.
pub struct RateLimitConfig {
    pub requests_per_window: u64,
    pub window_seconds: u64,
    pub whitelist_ips: Vec<String>,
}

/// Per client address and endpoint: requests counted and the window's start.
pub type Window = (u64, u64);

/// Outcome of admission control for one request.
pub enum Decision {
    Allowed,
    Rejected,
}

/// How a request to an endpoint is metered.
pub enum Metering {
    /// No limit is registered for the endpoint.
    Unmetered,
    /// The address is on the endpoint's allow-list.
    Whitelisted,
    /// Counted against this many requests per window of this many seconds.
    Metered(u64, u64),
}

/// Decision on a request counted in a shared store: allowed while the count,
/// this request included, stays within the limit.
pub fn shared_decision(count_after_increment: u64, limit: u64) -> (r: Decision)
    ensures
        (r is Allowed) == (count_after_increment <= limit),
{
    if count_after_increment <= limit {
        Decision::Allowed
    } else {
        Decision::Rejected
    }
}


/// `client` is on the allow-list of `cfg`.
pub open spec fn whitelisted(cfg: RateLimitConfig, client: Seq<char>) -> bool {
    exists|i: int| 0 <= i < cfg.whitelist_ips@.len() && #[trigger] cfg.whitelist_ips@[i]@ == client
}

/// The window a request at `now` counts in: the current one while it has not
/// elapsed, else a fresh one starting at `now`.
pub open spec fn current_window(cfg: RateLimitConfig, cur: Option<Window>, now: u64) -> Window {
    match cur {
        Some(w) => if (now as int) < w.1 + cfg.window_seconds {
            w
        } else {
            (0, now)
        },
        None => (0, now),
    }
}

/// Outcome of one request from `client` at `now` under `cfg`, given its
/// counter `cur`: whether it is allowed, and the counter afterwards.
pub open spec fn admit_spec(cfg: RateLimitConfig, cur: Option<Window>, client: Seq<char>, now: u64) -> (bool, Option<Window>) {
    if whitelisted(cfg, client) {
        (true, cur)
    } else {
        let w = current_window(cfg, cur, now);
        if w.0 < cfg.requests_per_window {
            (true, Some(((w.0 + 1) as u64, w.1)))
        } else {
            (false, Some(w))
        }
    }
}

/// Outcomes of requests from `client` at the instants `times`, in order,
/// starting from the counter `cur`, and the counter after the last.
pub open spec fn replay(cfg: RateLimitConfig, cur: Option<Window>, client: Seq<char>, times: Seq<u64>) -> (Seq<bool>, Option<Window>)
    decreases times.len(),
{
    if times.len() == 0 {
        (Seq::empty(), cur)
    } else {
        let (outs, w) = replay(cfg, cur, client, times.drop_last());
        let (ok, w2) = admit_spec(cfg, w, client, times.last());
        (outs.push(ok), w2)
    }
}

/// In a fresh window, requests from an address that is not on the allow-list
/// are allowed up to the limit and rejected beyond it: with a limit of 100
/// the 100th is allowed and the 101st rejected.
pub proof fn lemma_quota_in_fresh_window(cfg: RateLimitConfig, client: Seq<char>, times: Seq<u64>)
    requires
        !whitelisted(cfg, client),
        times.len() > 0,
        forall|i: int| 0 <= i < times.len() ==> (#[trigger] times[i] as int) < times[0] + cfg.window_seconds,
    ensures
        replay(cfg, None, client, times).0.len() == times.len(),
        forall|i: int| 0 <= i < times.len() ==> #[trigger] replay(cfg, None, client, times).0[i] == (i < cfg.requests_per_window),
    decreases times.len(),
{
    lemma_replay_counts(cfg, client, times);
}

proof fn lemma_replay_counts(cfg: RateLimitConfig, client: Seq<char>, times: Seq<u64>)
    requires
        !whitelisted(cfg, client),
        times.len() > 0,
        forall|i: int| 0 <= i < times.len() ==> (#[trigger] times[i] as int) < times[0] + cfg.window_seconds,
    ensures
        replay(cfg, None, client, times).0.len() == times.len(),
        forall|i: int| 0 <= i < times.len() ==> #[trigger] replay(cfg, None, client, times).0[i] == (i < cfg.requests_per_window),
        replay(cfg, None, client, times).1 == Some((
            if times.len() < cfg.requests_per_window { times.len() as u64 } else { cfg.requests_per_window },
            times[0],
        )),
    decreases times.len(),
{
    let n = times.len();
    let prev = times.drop_last();
    let pr = replay(cfg, None, client, prev);
    let step = admit_spec(cfg, pr.1, client, times.last());
    assert(replay(cfg, None, client, times) == (pr.0.push(step.0), step.1));
    if n > 1 {
        assert forall|i: int| 0 <= i < prev.len() implies (#[trigger] prev[i] as int) < prev[0] + cfg.window_seconds by {
            assert(prev[i] == times[i]);
        }
        lemma_replay_counts(cfg, client, prev);
        assert(prev[0] == times[0]);
        assert(times.last() == times[n - 1]);
        let outs = replay(cfg, None, client, times).0;
        assert forall|i: int| 0 <= i < n implies #[trigger] outs[i] == (i < cfg.requests_per_window) by {
            if i < n - 1 {
                assert(outs[i] == pr.0[i]);
            }
        }
    } else {
        assert(prev.len() == 0);
        assert(pr == (Seq::<bool>::empty(), None::<Window>));
        assert(times.last() == times[0]);
    }
}

/// An address on the endpoint's allow-list is always allowed, and its
/// requests are not counted.
pub proof fn lemma_whitelisted_always_allowed(cfg: RateLimitConfig, cur: Option<Window>, client: Seq<char>, now: u64)
    requires
        whitelisted(cfg, client),
    ensures
        admit_spec(cfg, cur, client, now) == (true, cur),
{
}

/// Once the window has elapsed the counter starts over, and the next request
/// is allowed (given a limit of at least one).
pub proof fn lemma_window_reset(cfg: RateLimitConfig, count: u64, start: u64, client: Seq<char>, now: u64)
    requires
        !whitelisted(cfg, client),
        cfg.requests_per_window > 0,
        now >= start + cfg.window_seconds,
    ensures
        admit_spec(cfg, Some((count, start)), client, now) == (true, Some(((1u64, now)))),
{
}

spec fn counter_key(c: Counter) -> (Seq<char>, Seq<char>) {
    (c.endpoint@, c.client@)
}

/// Endpoint patterns are unique, and the records are exactly the map.
spec fn endpoints_wf(e: Seq<(String, RateLimitConfig)>, m: Map<Seq<char>, RateLimitConfig>) -> bool {
    &&& forall|i: int, j: int| 0 <= i < e.len() && 0 <= j < e.len() && i != j ==> e[i].0@ != e[j].0@
    &&& forall|i: int| #![trigger e[i]] 0 <= i < e.len() ==> m.contains_key(e[i].0@) && m[e[i].0@] == e[i].1
    &&& forall|k: Seq<char>| #![trigger m.contains_key(k)] m.contains_key(k) ==> exists|i: int| 0 <= i < e.len() && e[i].0@ == k
}

/// Counter keys are unique, and the records are exactly the map.
spec fn counters_wf(c: Seq<Counter>, m: Map<(Seq<char>, Seq<char>), Window>) -> bool {
    &&& forall|i: int, j: int| 0 <= i < c.len() && 0 <= j < c.len() && i != j ==> counter_key(c[i]) != counter_key(c[j])
    &&& forall|i: int| #![trigger c[i]] 0 <= i < c.len() ==> m.contains_key(counter_key(c[i]))
        && m[counter_key(c[i])] == (c[i].count, c[i].window_start)
    &&& forall|k: (Seq<char>, Seq<char>)| #![trigger m.contains_key(k)] m.contains_key(k) ==> exists|i: int|
        0 <= i < c.len() && counter_key(c[i]) == k
}

proof fn lemma_endpoints_upsert(
    e: Seq<(String, RateLimitConfig)>,
    m: Map<Seq<char>, RateLimitConfig>,
    e2: Seq<(String, RateLimitConfig)>,
    x: (String, RateLimitConfig),
    idx: int,
)
    requires
        endpoints_wf(e, m),
        (0 <= idx < e.len() && e[idx].0@ == x.0@ && e2 == e.update(idx, x)) || (idx == e.len()
            && !m.contains_key(x.0@) && e2 == e.push(x)),
    ensures
        endpoints_wf(e2, m.insert(x.0@, x.1)),
{
    let m2 = m.insert(x.0@, x.1);
    assert(e2[idx] == x);
    assert forall|i: int| 0 <= i < e2.len() && i != idx implies e2[i] == e[i] && e2[i].0@ != x.0@ by {
        if idx == e.len() {
            assert(m.contains_key(e[i].0@));
        }
    }
    assert forall|i: int, j: int| 0 <= i < e2.len() && 0 <= j < e2.len() && i != j implies e2[i].0@ != e2[j].0@ by {
        if i != idx && j != idx {
            assert(e2[i] == e[i] && e2[j] == e[j]);
        }
    }
    assert forall|k: Seq<char>| #[trigger] m2.contains_key(k) implies exists|i: int| 0 <= i < e2.len() && e2[i].0@ == k by {
        if k != x.0@ {
            let i = choose|i: int| 0 <= i < e.len() && e[i].0@ == k;
            assert(e2[i] == e[i]);
        } else {
            assert(e2[idx].0@ == k);
        }
    }
}

proof fn lemma_counters_upsert(
    c: Seq<Counter>,
    m: Map<(Seq<char>, Seq<char>), Window>,
    c2: Seq<Counter>,
    x: Counter,
    idx: int,
)
    requires
        counters_wf(c, m),
        (0 <= idx < c.len() && counter_key(c[idx]) == counter_key(x) && c2 == c.update(idx, x)) || (
        idx == c.len() && !m.contains_key(counter_key(x)) && c2 == c.push(x)),
    ensures
        counters_wf(c2, m.insert(counter_key(x), (x.count, x.window_start))),
{
    let m2 = m.insert(counter_key(x), (x.count, x.window_start));
    assert(c2[idx] == x);
    assert forall|i: int| 0 <= i < c2.len() && i != idx implies c2[i] == c[i] && counter_key(c2[i]) != counter_key(x) by {
        if idx == c.len() {
            assert(m.contains_key(counter_key(c[i])));
        }
    }
    assert forall|i: int, j: int| 0 <= i < c2.len() && 0 <= j < c2.len() && i != j implies counter_key(c2[i]) != counter_key(c2[j]) by {
        if i != idx && j != idx {
            assert(c2[i] == c[i] && c2[j] == c[j]);
        }
    }
    assert forall|k: (Seq<char>, Seq<char>)| #[trigger] m2.contains_key(k) implies exists|i: int| 0 <= i < c2.len() && counter_key(c2[i]) == k by {
        if k != counter_key(x) {
            let i = choose|i: int| 0 <= i < c.len() && counter_key(c[i]) == k;
            assert(c2[i] == c[i]);
        } else {
            assert(counter_key(c2[idx]) == k);
        }
    }
}

/// The counter of one client address on one endpoint.
pub struct Counter {
    pub endpoint: String,
    pub client: String,
    pub count: u64,
    pub window_start: u64,
}

/// Registered limits and in-process counters.
pub struct RateLimiter {
    endpoints: Vec<(String, RateLimitConfig)>,
    counters: Vec<Counter>,
    configs: Ghost<Map<Seq<char>, RateLimitConfig>>,
    windows: Ghost<Map<(Seq<char>, Seq<char>), Window>>,
}

/// Whether `client` is on the allow-list of `cfg`.
pub fn is_whitelisted(cfg: &RateLimitConfig, client: &str) -> (r: bool)
    ensures
        r == whitelisted(*cfg, client@),
{
    let mut i: usize = 0;
    while i < cfg.whitelist_ips.len()
        invariant
            i <= cfg.whitelist_ips@.len(),
            forall|j: int| 0 <= j < i ==> cfg.whitelist_ips@[j]@ != client@,
        decreases cfg.whitelist_ips@.len() - i,
    {
        if str_eq(cfg.whitelist_ips[i].as_str(), client) {
            return true;
        }
        i = i + 1;
    }
    false
}

impl RateLimiter {
    /// Patterns and counter keys are unique, and the records are exactly the views.
    pub closed spec fn wf(&self) -> bool {
        endpoints_wf(self.endpoints@, self.configs@) && counters_wf(self.counters@, self.windows@)
    }

    /// Registered limits, by endpoint pattern.
    pub closed spec fn configs_view(&self) -> Map<Seq<char>, RateLimitConfig> {
        self.configs@
    }

    /// Counters, by endpoint pattern and client address.
    pub closed spec fn windows_view(&self) -> Map<(Seq<char>, Seq<char>), Window> {
        self.windows@
    }

    /// No endpoint registered, no request counted.
    pub fn new() -> (r: RateLimiter)
        ensures
            r.wf(),
            r.configs_view() == Map::<Seq<char>, RateLimitConfig>::empty(),
            r.windows_view() == Map::<(Seq<char>, Seq<char>), Window>::empty(),
    {
        RateLimiter {
            endpoints: Vec::new(),
            counters: Vec::new(),
            configs: Ghost(Map::empty()),
            windows: Ghost(Map::empty()),
        }
    }

    fn find_endpoint(&self, pattern: &str) -> (r: Option<usize>)
        requires
            self.wf(),
        ensures
            match r {
                Some(i) => i < self.endpoints@.len() && self.endpoints@[i as int].0@ == pattern@,
                None => !self.configs@.contains_key(pattern@),
            },
    {
        let mut i: usize = 0;
        while i < self.endpoints.len()
            invariant
                self.wf(),
                i <= self.endpoints@.len(),
                forall|j: int| 0 <= j < i ==> self.endpoints@[j].0@ != pattern@,
            decreases self.endpoints@.len() - i,
        {
            if str_eq(self.endpoints[i].0.as_str(), pattern) {
                return Some(i);
            }
            i = i + 1;
        }
        None
    }

    fn find_counter(&self, endpoint: &str, client: &str) -> (r: Option<usize>)
        requires
            self.wf(),
        ensures
            match r {
                Some(i) => i < self.counters@.len() && self.counters@[i as int].endpoint@ == endpoint@
                    && self.counters@[i as int].client@ == client@,
                None => !self.windows@.contains_key((endpoint@, client@)),
            },
    {
        let mut i: usize = 0;
        while i < self.counters.len()
            invariant
                self.wf(),
                i <= self.counters@.len(),
                forall|j: int| 0 <= j < i ==> (self.counters@[j].endpoint@, self.counters@[j].client@) != (endpoint@, client@),
            decreases self.counters@.len() - i,
        {
            if str_eq(self.counters[i].endpoint.as_str(), endpoint) && str_eq(self.counters[i].client.as_str(), client) {
                return Some(i);
            }
            i = i + 1;
        }
        None
    }

    /// Installs the limit of `pattern`, replacing any earlier one; the
    /// counters are kept.
    pub fn register_endpoint(&mut self, pattern: String, config: RateLimitConfig)
        requires
            old(self).wf(),
        ensures
            final(self).wf(),
            final(self).configs_view() == old(self).configs_view().insert(pattern@, config),
            final(self).windows_view() == old(self).windows_view(),
    {
        let ghost old_e = self.endpoints@;
        let ghost new_configs = self.configs@.insert(pattern@, config);
        let ghost idx: int;
        match self.find_endpoint(pattern.as_str()) {
            Some(i) => {
                self.endpoints.set(i, (pattern, config));
                proof { idx = i as int; }
            },
            None => {
                self.endpoints.push((pattern, config));
                proof { idx = old_e.len() as int; }
            },
        }
        proof {
            lemma_endpoints_upsert(old_e, self.configs@, self.endpoints@, self.endpoints@[idx], idx);
        }
        self.configs = Ghost(new_configs);
    }

    fn put_counter(&mut self, endpoint: &str, client: &str, w: Window)
        requires
            old(self).wf(),
        ensures
            final(self).wf(),
            final(self).configs@ == old(self).configs@,
            final(self).windows@ == old(self).windows@.insert((endpoint@, client@), w),
    {
        let ghost old_c = self.counters@;
        let ghost new_windows = self.windows@.insert((endpoint@, client@), w);
        let c = Counter { endpoint: endpoint.to_string(), client: client.to_string(), count: w.0, window_start: w.1 };
        let ghost idx: int;
        match self.find_counter(endpoint, client) {
            Some(i) => {
                self.counters.set(i, c);
                proof { idx = i as int; }
            },
            None => {
                self.counters.push(c);
                proof { idx = old_c.len() as int; }
            },
        }
        proof {
            lemma_counters_upsert(old_c, self.windows@, self.counters@, self.counters@[idx], idx);
        }
        self.windows = Ghost(new_windows);
    }

    /// How requests from `client` to `endpoint` are metered.
    pub fn metering(&self, endpoint: &str, client: &str) -> (r: Metering)
        requires
            self.wf(),
        ensures
            match self.configs_view().get(endpoint@) {
                None => r is Unmetered,
                Some(cfg) => if whitelisted(cfg, client@) {
                    r is Whitelisted
                } else {
                    r == Metering::Metered(cfg.requests_per_window, cfg.window_seconds)
                },
            },
    {
        match self.find_endpoint(endpoint) {
            None => Metering::Unmetered,
            Some(i) => {
                let cfg = &self.endpoints[i].1;
                assert(self.configs@.get(endpoint@) == Some(*cfg));
                if is_whitelisted(cfg, client) {
                    Metering::Whitelisted
                } else {
                    Metering::Metered(cfg.requests_per_window, cfg.window_seconds)
                }
            },
        }
    }

    /// Decides one request from `client` to `endpoint` at `now` (seconds) and
    /// counts it. An unregistered endpoint allows everything and counts nothing.
    pub fn check(&mut self, endpoint: &str, client: &str, now: u64) -> (r: Decision)
        requires
            old(self).wf(),
        ensures
            final(self).wf(),
            final(self).configs_view() == old(self).configs_view(),
            match old(self).configs_view().get(endpoint@) {
                None => r is Allowed && final(self).windows_view() == old(self).windows_view(),
                Some(cfg) => {
                    let (ok, w) = admit_spec(cfg, old(self).windows_view().get((endpoint@, client@)), client@, now);
                    &&& (r is Allowed) == ok
                    &&& final(self).windows_view() == match w {
                        Some(w) => old(self).windows_view().insert((endpoint@, client@), w),
                        None => old(self).windows_view(),
                    }
                },
            },
    {
        let i = match self.find_endpoint(endpoint) {
            None => {
                return Decision::Allowed;
            },
            Some(i) => i,
        };
        let cfg = &self.endpoints[i].1;
        assert(self.configs@.get(endpoint@) == Some(*cfg));
        if is_whitelisted(cfg, client) {
            return Decision::Allowed;
        }
        let limit = cfg.requests_per_window;
        let window = cfg.window_seconds;
        let (count, start): (u64, u64) = match self.find_counter(endpoint, client) {
            Some(j) => {
                let c = &self.counters[j];
                assert(self.windows@.get((endpoint@, client@)) == Some((c.count, c.window_start)));
                if now >= c.window_start && now - c.window_start >= window {
                    (0, now)
                } else {
                    (c.count, c.window_start)
                }
            },
            None => (0, now),
        };
        if count < limit {
            self.put_counter(endpoint, client, (count + 1, start));
            Decision::Allowed
        } else {
            self.put_counter(endpoint, client, (count, start));
            Decision::Rejected
        }
    }
}

} // verus!
