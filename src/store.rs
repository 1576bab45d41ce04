//! In-process key/value store with per-key expiry: `GET`, `SETEX`, `DEL` and
//! `KEYS pattern`, each on an explicit clock reading in seconds.
use vstd::prelude::*;
use vstd::string::*;
use crate::text::str_eq;
use crate::stats::bump;

verus! {

/// What the store holds: per key, its value and the instant it expires.
pub type StoreMap = Map<Seq<char>, (Seq<char>, u64)>;

/// `key` holds a value that has not expired at `now`.
pub open spec fn live(m: StoreMap, key: Seq<char>, now: u64) -> bool {
    m.contains_key(key) && now < m[key].1
}

/// Namespace glob: a pattern ending in `*` matches every key that starts with
/// the rest of the pattern; any other pattern matches only itself.
pub open spec fn glob_matches(pattern: Seq<char>, key: Seq<char>) -> bool {
    if pattern.len() > 0 && pattern.last() == '*' {
        let prefix = pattern.drop_last();
        prefix.len() <= key.len() && key.subrange(0, prefix.len() as int) == prefix
    } else {
        key == pattern
    }
}

/// The live keys that `pattern` matches.
pub open spec fn matching_live(m: StoreMap, pattern: Seq<char>, now: u64) -> Set<Seq<char>> {
    m.dom().filter(|k: Seq<char>| live(m, k, now) && glob_matches(pattern, k))
}

/// Whether `key` matches the namespace glob `pattern`.
pub fn glob_match(pattern: &str, key: &str) -> (r: bool)
    ensures
        r == glob_matches(pattern@, key@),
{
    let pn = pattern.unicode_len();
    if pn > 0 && pattern.get_char(pn - 1) == '*' {
        let kn = key.unicode_len();
        if pn - 1 > kn {
            return false;
        }
        let mut i: usize = 0;
        while i < pn - 1
            invariant
                pn == pattern@.len(),
                kn == key@.len(),
                0 < pn,
                pn - 1 <= kn,
                i <= pn - 1,
                forall|j: int| 0 <= j < i ==> key@[j] == pattern@[j],
            decreases pn - 1 - i,
        {
            if key.get_char(i) != pattern.get_char(i) {
                assert(key@.subrange(0, pn - 1)[i as int] != pattern@.drop_last()[i as int]);
                return false;
            }
            i = i + 1;
        }
        assert(key@.subrange(0, pn - 1) =~= pattern@.drop_last());
        true
    } else {
        str_eq(key, pattern)
    }
}

/// The views of a sequence of strings.
pub open spec fn key_views(r: Seq<String>) -> Seq<Seq<char>> {
    r.map_values(|s: String| s@)
}

/// One stored record.
pub struct Entry {
    pub key: String,
    pub value: String,
    pub expires_at: u64,
}

/// The store: records with unique keys, and the map they stand for.
pub struct MemoryStore {
    entries: Vec<Entry>,
    contents: Ghost<StoreMap>,
}

impl View for MemoryStore {
    type V = StoreMap;

    closed spec fn view(&self) -> StoreMap {
        self.contents@
    }
}

impl MemoryStore {
    /// Keys are unique among the records, and the records are exactly what the
    /// view holds.
    pub closed spec fn wf(&self) -> bool {
        &&& self.contents@.dom().finite()
        &&& forall|i: int, j: int|
            0 <= i < self.entries@.len() && 0 <= j < self.entries@.len() && i != j
                ==> self.entries@[i].key@ != self.entries@[j].key@
        &&& forall|i: int|
            #![trigger self.entries@[i]]
            0 <= i < self.entries@.len() ==> self.contents@.contains_key(self.entries@[i].key@)
                && self.contents@[self.entries@[i].key@] == (
            self.entries@[i].value@,
            self.entries@[i].expires_at,
        )
        &&& forall|k: Seq<char>|
            #![trigger self.contents@.contains_key(k)]
            self.contents@.contains_key(k) ==> exists|i: int|
                0 <= i < self.entries@.len() && self.entries@[i].key@ == k
    }

    /// An empty store.
    pub fn new() -> (r: MemoryStore)
        ensures
            r.wf(),
            r@ == StoreMap::empty(),
    {
        MemoryStore { entries: Vec::new(), contents: Ghost(Map::empty()) }
    }

    fn find(&self, key: &str) -> (r: Option<usize>)
        requires
            self.wf(),
        ensures
            match r {
                Some(i) => i < self.entries@.len() && self.entries@[i as int].key@ == key@,
                None => !self@.contains_key(key@),
            },
    {
        let mut i: usize = 0;
        while i < self.entries.len()
            invariant
                self.wf(),
                i <= self.entries@.len(),
                forall|j: int| 0 <= j < i ==> self.entries@[j].key@ != key@,
            decreases self.entries@.len() - i,
        {
            if str_eq(self.entries[i].key.as_str(), key) {
                return Some(i);
            }
            i = i + 1;
        }
        None
    }

    /// `GET`: the value under `key` unless it is absent or expired at `now`.
    pub fn get(&self, key: &str, now: u64) -> (r: Option<String>)
        requires
            self.wf(),
        ensures
            match r {
                Some(v) => live(self@, key@, now) && v@ == self@[key@].0,
                None => !live(self@, key@, now),
            },
    {
        match self.find(key) {
            Some(i) => {
                let e = &self.entries[i];
                if now < e.expires_at {
                    Some(e.value.clone())
                } else {
                    None
                }
            },
            None => None,
        }
    }

    /// `SETEX`: stores `value` under `key` until `ttl` seconds after `now`.
    pub fn setex(&mut self, key: &str, value: String, ttl: u64, now: u64)
        requires
            old(self).wf(),
        ensures
            final(self).wf(),
            final(self)@ == old(self)@.insert(key@, (value@, bump(now, ttl as nat))),
    {
        let expires_at = crate::stats::bump_by(now, ttl);
        let ghost new_contents = self.contents@.insert(key@, (value@, expires_at));
        let entry = Entry { key: key.to_string(), value, expires_at };
        let ghost idx: int;
        match self.find(key) {
            Some(i) => {
                self.entries.set(i, entry);
                proof { idx = i as int; }
            },
            None => {
                self.entries.push(entry);
                proof { idx = self.entries@.len() - 1; }
            },
        }
        self.contents = Ghost(new_contents);
        proof {
            assert(self.entries@[idx].key@ == key@);
            assert forall|k: Seq<char>| #[trigger] self.contents@.contains_key(k) implies exists|i: int|
                0 <= i < self.entries@.len() && self.entries@[i].key@ == k by {
                if k == key@ {
                    assert(self.entries@[idx].key@ == k);
                } else {
                    assert(old(self).contents@.contains_key(k));
                    let i = choose|i: int|
                        0 <= i < old(self).entries@.len() && old(self).entries@[i].key@ == k;
                    assert(self.entries@[i] == old(self).entries@[i]);
                }
            }
        }
    }

    /// `DEL`: removes `key`; tells whether it was there.
    pub fn del(&mut self, key: &str) -> (existed: bool)
        requires
            old(self).wf(),
        ensures
            final(self).wf(),
            final(self)@ == old(self)@.remove(key@),
            existed == old(self)@.contains_key(key@),
    {
        match self.find(key) {
            Some(i) => {
                let ghost old_entries = self.entries@;
                self.entries.remove(i);
                self.contents = Ghost(self.contents@.remove(key@));
                proof {
                    assert forall|j: int| #![trigger self.entries@[j]]
                        0 <= j < self.entries@.len() implies self.entries@[j].key@ != key@ by {
                        if j < i {
                            assert(self.entries@[j] == old_entries[j]);
                        } else {
                            assert(self.entries@[j] == old_entries[j + 1]);
                        }
                    }
                    assert forall|k: Seq<char>| #[trigger] self.contents@.contains_key(k) implies exists|j: int|
                        0 <= j < self.entries@.len() && self.entries@[j].key@ == k by {
                        let j = choose|j: int|
                            0 <= j < old_entries.len() && old_entries[j].key@ == k;
                        if j < i {
                            assert(self.entries@[j] == old_entries[j]);
                        } else {
                            assert(self.entries@[j - 1] == old_entries[j]);
                        }
                    }
                    assert forall|a: int, b: int|
                        0 <= a < self.entries@.len() && 0 <= b < self.entries@.len() && a != b
                        implies self.entries@[a].key@ != self.entries@[b].key@ by {
                        let a2 = if a < i { a } else { a + 1 };
                        let b2 = if b < i { b } else { b + 1 };
                        assert(self.entries@[a] == old_entries[a2]);
                        assert(self.entries@[b] == old_entries[b2]);
                    }
                    assert forall|j: int| #![trigger self.entries@[j]]
                        0 <= j < self.entries@.len() implies self.contents@.contains_key(self.entries@[j].key@)
                        && self.contents@[self.entries@[j].key@] == (self.entries@[j].value@,
                        self.entries@[j].expires_at) by {
                        let j2 = if j < i { j } else { j + 1 };
                        assert(self.entries@[j] == old_entries[j2]);
                    }
                }
                true
            },
            None => {
                assert(self@.remove(key@) =~= self@);
                false
            },
        }
    }

    /// `KEYS pattern`: every live key that `pattern` matches, each once.
    pub fn keys_matching(&self, pattern: &str, now: u64) -> (r: Vec<String>)
        requires
            self.wf(),
        ensures
            key_views(r@).no_duplicates(),
            key_views(r@).to_set() == matching_live(self@, pattern@, now),
    {
        let mut r: Vec<String> = Vec::new();
        let mut i: usize = 0;
        while i < self.entries.len()
            invariant
                self.wf(),
                i <= self.entries@.len(),
                key_views(r@).no_duplicates(),
                forall|m: int| #![trigger r@[m]] 0 <= m < r@.len() ==> live(self@, r@[m]@, now)
                    && glob_matches(pattern@, r@[m]@)
                    && exists|j: int| 0 <= j < i && r@[m]@ == self.entries@[j].key@,
                forall|j: int| #![trigger self.entries@[j]] 0 <= j < i && live(self@, self.entries@[j].key@, now)
                    && glob_matches(pattern@, self.entries@[j].key@)
                    ==> exists|m: int| 0 <= m < r@.len() && r@[m]@ == self.entries@[j].key@,
            decreases self.entries@.len() - i,
        {
            let e = &self.entries[i];
            let ghost old_r = r@;
            assert(self.contents@[e.key@] == (e.value@, e.expires_at));
            if now < e.expires_at && glob_match(pattern, e.key.as_str()) {
                r.push(e.key.clone());
                proof {
                    assert(key_views(r@) =~= key_views(old_r).push(e.key@));
                    assert forall|m: int| 0 <= m < old_r.len() implies old_r[m]@ != e.key@ by {
                        assert(old_r[m] == r@[m]);
                        let j = choose|j: int| 0 <= j < i && r@[m]@ == self.entries@[j].key@;
                    }
                    assert(key_views(r@).no_duplicates()) by {
                        assert forall|x: int, y: int| 0 <= x < key_views(r@).len() && 0 <= y < key_views(r@).len() && x != y
                            implies key_views(r@)[x] != key_views(r@)[y] by {
                            if x < old_r.len() && y < old_r.len() {
                                assert(key_views(r@)[x] == key_views(old_r)[x]);
                                assert(key_views(r@)[y] == key_views(old_r)[y]);
                            } else if x < old_r.len() {
                                assert(key_views(r@)[x] == old_r[x]@);
                            } else {
                                assert(key_views(r@)[y] == old_r[y]@);
                            }
                        }
                    }
                    assert(r@[r@.len() - 1]@ == self.entries@[i as int].key@);
                    assert forall|j: int| #![trigger self.entries@[j]] 0 <= j < i + 1 && live(self@, self.entries@[j].key@, now)
                        && glob_matches(pattern@, self.entries@[j].key@)
                        implies exists|m: int| 0 <= m < r@.len() && r@[m]@ == self.entries@[j].key@ by {
                        if j < i {
                            let m = choose|m: int| 0 <= m < old_r.len() && old_r[m]@ == self.entries@[j].key@;
                            assert(r@[m] == old_r[m]);
                        } else {
                            assert(r@[r@.len() - 1]@ == self.entries@[j].key@);
                        }
                    }
                    assert forall|m: int| #![trigger r@[m]] 0 <= m < r@.len() implies live(self@, r@[m]@, now)
                        && glob_matches(pattern@, r@[m]@)
                        && exists|j: int| 0 <= j < i + 1 && r@[m]@ == self.entries@[j].key@ by {
                        if m < old_r.len() {
                            assert(r@[m] == old_r[m]);
                        } else {
                            assert(r@[m]@ == self.entries@[i as int].key@);
                        }
                    }
                }
            }
            i = i + 1;
        }
        proof {
            assert forall|k: Seq<char>| #[trigger] key_views(r@).to_set().contains(k) == matching_live(self@, pattern@, now).contains(k) by {
                if key_views(r@).to_set().contains(k) {
                    let m = choose|m: int| 0 <= m < key_views(r@).len() && #[trigger] key_views(r@)[m] == k;
                    assert(key_views(r@)[m] == r@[m]@);
                }
                if matching_live(self@, pattern@, now).contains(k) {
                    assert(self@.contains_key(k));
                    let j = choose|j: int| 0 <= j < self.entries@.len() && self.entries@[j].key@ == k;
                    let m = choose|m: int| 0 <= m < r@.len() && r@[m]@ == self.entries@[j].key@;
                    assert(key_views(r@)[m] == k);
                }
            }
            assert(key_views(r@).to_set() =~= matching_live(self@, pattern@, now));
        }
        r
    }
}

} // verus!
