//! The per-endpoint response cache: string-keyed, TTL-bounded, capacity-
//! bounded. `put` stamps the value as cached, inserts it, and evicts first
//! the expired entries and then the single oldest one when the capacity is
//! exceeded; `get` returns a hit only while the entry is fresh.

use vstd::prelude::*;

use crate::bird::{str_eq, QueryValue};
use crate::config::{time_in_range, CacheConfig, MAX_TIME};

verus! {

/// A key in a response cache.
pub struct CacheKey(pub String);

impl View for CacheKey {
    type V = Seq<char>;

    open spec fn view(&self) -> Seq<char> {
        self.0@
    }
}

impl CacheKey {
    /// A key from a plain string.
    pub fn new(s: &str) -> (r: Self)
        ensures
            r@ == s@,
    {
        CacheKey(s.to_owned())
    }

    /// A key from a validated query value.
    pub fn of_query(q: &QueryValue) -> (r: Self)
        ensures
            r@ == q@,
    {
        CacheKey(q.as_str().to_owned())
    }

    /// The composite key of a table/peer query: `table-peer`.
    pub fn for_table_peer(table: &QueryValue, peer: &QueryValue) -> (r: Self)
        ensures
            r@ == table@ + "-"@ + peer@,
    {
        let mut s = String::new();
        s.append(table.as_str());
        s.append("-");
        s.append(peer.as_str());
        CacheKey(s)
    }
}

/// A value the cache can hold: it can be stamped as having come from the
/// cache at a given time.
pub trait CacheValue: View + Sized {
    /// The value as it stands after being stamped at `now`.
    spec fn marked(v: Self::V, now: i64) -> Self::V;

    /// Stamp the value as cached at `now`.
    fn mark_cached(&mut self, now: i64)
        requires
            time_in_range(now),
        ensures
            final(self)@ == Self::marked(old(self)@, now),
    ;
}

// --- the spec-level cache state ---

pub open spec fn entries_view<T: View>(v: Seq<(String, i64, T)>) -> Seq<(Seq<char>, i64, T::V)> {
    v.map_values(|e: (String, i64, T)| (e.0@, e.1, e.2@))
}

/// The position of the entry stored under a key.
pub open spec fn key_idx<V>(es: Seq<(Seq<char>, i64, V)>, k: Seq<char>, i: int) -> Option<int>
    decreases es.len() - i,
{
    if !(0 <= i < es.len()) {
        None
    } else if es[i].0 == k {
        Some(i)
    } else {
        key_idx(es, k, i + 1)
    }
}

/// The stamp and value stored under a key.
pub open spec fn lookup<V>(es: Seq<(Seq<char>, i64, V)>, k: Seq<char>) -> Option<(i64, V)> {
    match key_idx(es, k, 0) {
        Some(i) => Some((es[i].1, es[i].2)),
        None => None,
    }
}

/// Insert or replace: an existing key keeps its position.
pub open spec fn spec_insert<V>(es: Seq<(Seq<char>, i64, V)>, k: Seq<char>, at: i64, v: V) -> Seq<
    (Seq<char>, i64, V),
> {
    match key_idx(es, k, 0) {
        Some(i) => es.update(i, (k, at, v)),
        None => es.push((k, at, v)),
    }
}

/// The entries from position `i` on whose age does not exceed the TTL.
pub open spec fn spec_evict_expired<V>(
    es: Seq<(Seq<char>, i64, V)>,
    now: i64,
    ttl: i64,
    i: int,
) -> Seq<(Seq<char>, i64, V)>
    decreases es.len() - i,
{
    if !(0 <= i < es.len()) {
        Seq::empty()
    } else if now - es[i].1 > ttl {
        spec_evict_expired(es, now, ttl, i + 1)
    } else {
        seq![es[i]] + spec_evict_expired(es, now, ttl, i + 1)
    }
}

/// The position of the first entry with the smallest stamp.
pub open spec fn oldest_from<V>(es: Seq<(Seq<char>, i64, V)>, i: int, best: int) -> int
    decreases es.len() - i,
{
    if !(0 <= i < es.len()) {
        best
    } else if 0 <= best < es.len() && es[i].1 < es[best].1 {
        oldest_from(es, i + 1, i)
    } else {
        oldest_from(es, i + 1, best)
    }
}

pub open spec fn spec_evict_oldest<V>(es: Seq<(Seq<char>, i64, V)>) -> Seq<(Seq<char>, i64, V)> {
    if es.len() == 0 {
        es
    } else {
        es.remove(oldest_from(es, 1, 0))
    }
}

/// What `put` does to the entries: insert the stamped value; when over
/// capacity, drop the expired entries; when still over, drop the first
/// oldest one.
pub open spec fn spec_put<V>(
    es: Seq<(Seq<char>, i64, V)>,
    k: Seq<char>,
    now: i64,
    v: V,
    max: int,
    ttl: i64,
) -> Seq<(Seq<char>, i64, V)> {
    let e1 = spec_insert(es, k, now, v);
    let e2 = if e1.len() > max {
        spec_evict_expired(e1, now, ttl, 0)
    } else {
        e1
    };
    if e2.len() > max {
        spec_evict_oldest(e2)
    } else {
        e2
    }
}

pub open spec fn keys_unique<V>(es: Seq<(Seq<char>, i64, V)>) -> bool {
    forall|i: int, j: int| 0 <= i < j < es.len() ==> es[i].0 != es[j].0
}

pub open spec fn stamps_ok<V>(es: Seq<(Seq<char>, i64, V)>) -> bool {
    forall|i: int| 0 <= i < es.len() ==> time_in_range(#[trigger] es[i].1)
}

// --- the cache itself ---

/// A response cache for one endpoint.
pub struct ResponseCache<T> {
    entries: Vec<(String, i64, T)>,
    config: CacheConfig,
}

impl<T: CacheValue> ResponseCache<T> {
    pub closed spec fn entries(&self) -> Seq<(Seq<char>, i64, T::V)> {
        entries_view(self.entries@)
    }

    pub closed spec fn max_entries(&self) -> int {
        self.config.max_entries as int
    }

    pub closed spec fn ttl(&self) -> i64 {
        self.config.ttl
    }

    /// The cache never holds more than its capacity, keys are unique, and
    /// stamps are valid timestamps.
    pub open spec fn wf(&self) -> bool {
        &&& self.entries().len() <= self.max_entries()
        &&& keys_unique(self.entries())
        &&& stamps_ok(self.entries())
        &&& 0 <= self.ttl() <= MAX_TIME
    }

    /// A new, empty cache with the given configuration.
    pub fn new(config: CacheConfig) -> (r: Self)
        requires
            0 <= config.ttl <= MAX_TIME,
        ensures
            r.wf(),
            r.entries().len() == 0,
            r.max_entries() == config.max_entries,
            r.ttl() == config.ttl,
    {
        let r = ResponseCache { entries: Vec::new(), config };
        proof {
            assert(entries_view(Seq::<(String, i64, T)>::empty()) =~= Seq::<(
                Seq<char>,
                i64,
                T::V,
            )>::empty());
        }
        r
    }

    /// The position of the entry stored under a key.
    fn find_key(&self, key: &CacheKey) -> (r: Option<usize>)
        ensures
            match r {
                Some(j) => {
                    &&& key_idx(self.entries(), key@, 0) == Some(j as int)
                    &&& j < self.entries@.len()
                    &&& self.entries()[j as int].0 == key@
                },
                None => key_idx(self.entries(), key@, 0) is None,
            },
    {
        let ghost es = self.entries();
        let mut i: usize = 0;
        while i < self.entries.len()
            invariant
                i <= self.entries@.len(),
                es == entries_view(self.entries@),
                key_idx(es, key@, 0) == key_idx(es, key@, i as int),
            decreases self.entries@.len() - i,
        {
            proof {
                assert(es[i as int] == (
                    self.entries@[i as int].0@,
                    self.entries@[i as int].1,
                    self.entries@[i as int].2@,
                ));
            }
            if str_eq(self.entries[i].0.as_str(), key.0.as_str()) {
                return Some(i);
            }
            i += 1;
        }
        None
    }

    /// Retrieve the entry stored under a key: a hit exactly when the key is
    /// present and its age does not exceed the TTL.
    pub fn get(&self, key: &CacheKey, now: i64) -> (r: Option<&T>)
        requires
            self.wf(),
            time_in_range(now),
        ensures
            match lookup(self.entries(), key@) {
                Some((at, v)) => {
                    if now - at <= self.ttl() {
                        r matches Some(x) && x@ == v
                    } else {
                        r is None
                    }
                },
                None => r is None,
            },
    {
        match self.find_key(key) {
            Some(j) => {
                proof {
                    assert(time_in_range(self.entries()[j as int].1));
                }
                let at = self.entries[j].1;
                if now - at <= self.config.ttl {
                    Some(&self.entries[j].2)
                } else {
                    None
                }
            },
            None => None,
        }
    }

    /// Insert a value under a key at the given time: the value is stamped
    /// as cached, an existing entry under the key is replaced in place, and
    /// the eviction policy keeps the cache within its capacity.
    pub fn put(&mut self, key: CacheKey, value: T, now: i64)
        requires
            old(self).wf(),
            time_in_range(now),
        ensures
            final(self).wf(),
            final(self).max_entries() == old(self).max_entries(),
            final(self).ttl() == old(self).ttl(),
            final(self).entries() == spec_put(
                old(self).entries(),
                key@,
                now,
                T::marked(value@, now),
                old(self).max_entries(),
                old(self).ttl(),
            ),
    {
        let ghost es0 = self.entries();
        let ghost v0 = value@;
        let mut stamped = value;
        stamped.mark_cached(now);
        let found = self.find_key(&key);
        match found {
            Some(j) => {
                self.entries.remove(j);
                self.entries.insert(j, (key.0, now, stamped));
                proof {
                    assert(entries_view(self.entries@) =~= es0.update(
                        j as int,
                        (key@, now, T::marked(v0, now)),
                    ));
                }
            },
            None => {
                self.entries.push((key.0, now, stamped));
                proof {
                    assert(entries_view(self.entries@) =~= es0.push((key@, now, T::marked(v0, now))));
                }
            },
        }
        let ghost e1 = self.entries();
        proof {
            lemma_insert_wf(es0, key@, now, T::marked(v0, now), self.ttl());
        }
        if self.entries.len() > self.config.max_entries {
            self.evict_expired(now);
        }
        let ghost e2 = self.entries();
        if self.entries.len() > self.config.max_entries {
            self.evict_oldest();
        }
        proof {
            assert(self.entries() == spec_put(
                es0,
                key@,
                now,
                T::marked(v0, now),
                self.max_entries(),
                self.ttl(),
            ));
        }
    }

    /// Drop every entry whose age exceeds the TTL.
    fn evict_expired(&mut self, now: i64)
        requires
            time_in_range(now),
            keys_unique(old(self).entries()),
            stamps_ok(old(self).entries()),
            0 <= old(self).ttl() <= MAX_TIME,
        ensures
            final(self).config == old(self).config,
            final(self).entries() == spec_evict_expired(
                old(self).entries(),
                now,
                old(self).ttl(),
                0,
            ),
            keys_unique(final(self).entries()),
            stamps_ok(final(self).entries()),
            final(self).entries().len() <= old(self).entries().len(),
    {
        let ghost es0 = self.entries();
        let ghost ttl = self.ttl();
        let mut i: usize = 0;
        while i < self.entries.len()
            invariant
                i <= self.entries@.len(),
                stamps_ok(entries_view(self.entries@)),
                time_in_range(now),
                0 <= ttl <= MAX_TIME,
                ttl == self.ttl(),
                self.config == old(self).config,
                entries_view(self.entries@).subrange(0, i as int) + spec_evict_expired(
                    entries_view(self.entries@),
                    now,
                    ttl,
                    i as int,
                ) =~= spec_evict_expired(es0, now, ttl, 0),
                forall|m: int|
                    0 <= m < i ==> now - (#[trigger] entries_view(self.entries@)[m]).1 <= ttl,
            decreases self.entries@.len() - i,
        {
            let ghost cur = entries_view(self.entries@);
            proof {
                assert(cur[i as int] == (
                    self.entries@[i as int].0@,
                    self.entries@[i as int].1,
                    self.entries@[i as int].2@,
                ));
                assert(time_in_range(cur[i as int].1));
            }
            let at = self.entries[i].1;
            if now - at > self.config.ttl {
                self.entries.remove(i);
                proof {
                    let cur2 = entries_view(self.entries@);
                    assert(cur2 =~= cur.remove(i as int));
                    assert(cur2.subrange(0, i as int) =~= cur.subrange(0, i as int));
                    lemma_evict_expired_shift(cur, cur2, now, ttl, i as int, i as int);
                }
            } else {
                proof {
                    assert(cur.subrange(0, i as int).push(cur[i as int]) =~= cur.subrange(
                        0,
                        i as int + 1,
                    ));
                }
                i += 1;
            }
        }
        proof {
            let cur = entries_view(self.entries@);
            assert(cur.subrange(0, cur.len() as int) =~= cur);
            assert(cur == spec_evict_expired(es0, now, ttl, 0));
            lemma_evict_expired_wf(es0, now, ttl, 0);
        }
    }

    /// Drop the first entry with the smallest stamp.
    fn evict_oldest(&mut self)
        requires
            keys_unique(old(self).entries()),
            stamps_ok(old(self).entries()),
            old(self).entries().len() >= 1,
        ensures
            final(self).config == old(self).config,
            final(self).entries() == spec_evict_oldest(old(self).entries()),
            keys_unique(final(self).entries()),
            stamps_ok(final(self).entries()),
            final(self).entries().len() == old(self).entries().len() - 1,
    {
        let ghost es = self.entries();
        let mut best: usize = 0;
        let mut i: usize = 1;
        while i < self.entries.len()
            invariant
                1 <= i <= self.entries@.len(),
                best < i,
                es == entries_view(self.entries@),
                es.len() >= 1,
                oldest_from(es, 1, 0) == oldest_from(es, i as int, best as int),
            decreases self.entries@.len() - i,
        {
            proof {
                assert(es[i as int] == (
                    self.entries@[i as int].0@,
                    self.entries@[i as int].1,
                    self.entries@[i as int].2@,
                ));
                assert(es[best as int] == (
                    self.entries@[best as int].0@,
                    self.entries@[best as int].1,
                    self.entries@[best as int].2@,
                ));
            }
            if self.entries[i].1 < self.entries[best].1 {
                best = i;
            }
            i += 1;
        }
        proof {
            lemma_oldest_in_range(es, 1, 0);
        }
        self.entries.remove(best);
        proof {
            assert(entries_view(self.entries@) =~= es.remove(oldest_from(es, 1, 0)));
            lemma_remove_wf(es, oldest_from(es, 1, 0));
        }
    }
}

// --- lemmas about the spec-level operations ---

/// Unfolds `key_idx` membership: a missing key is nowhere in the entries.
pub proof fn lemma_key_idx_none<V>(es: Seq<(Seq<char>, i64, V)>, k: Seq<char>, i: int)
    requires
        0 <= i <= es.len(),
        key_idx(es, k, i) is None,
    ensures
        forall|j: int| i <= j < es.len() ==> es[j].0 != k,
    decreases es.len() - i,
{
    if i < es.len() {
        lemma_key_idx_none(es, k, i + 1);
    }
}

proof fn lemma_insert_wf<V>(es: Seq<(Seq<char>, i64, V)>, k: Seq<char>, now: i64, v: V, ttl: i64)
    requires
        keys_unique(es),
        stamps_ok(es),
        time_in_range(now),
    ensures
        keys_unique(spec_insert(es, k, now, v)),
        stamps_ok(spec_insert(es, k, now, v)),
        spec_insert(es, k, now, v).len() <= es.len() + 1,
{
    match key_idx(es, k, 0) {
        Some(i) => {
            lemma_key_idx_props(es, k, 0);
        },
        None => {
            lemma_key_idx_none(es, k, 0);
        },
    }
}

/// A found key index is in range and holds the key.
pub proof fn lemma_key_idx_props<V>(es: Seq<(Seq<char>, i64, V)>, k: Seq<char>, i: int)
    requires
        0 <= i <= es.len(),
        key_idx(es, k, i) is Some,
    ensures
        i <= key_idx(es, k, i).unwrap() < es.len(),
        es[key_idx(es, k, i).unwrap()].0 == k,
    decreases es.len() - i,
{
    if i < es.len() && es[i].0 != k {
        lemma_key_idx_props(es, k, i + 1);
    }
}

/// A key occurs among the entries at or after position `i`.
pub open spec fn has_key_from<V>(es: Seq<(Seq<char>, i64, V)>, k: Seq<char>, i: int) -> bool
    decreases es.len() - i,
{
    if !(0 <= i < es.len()) {
        false
    } else if es[i].0 == k {
        true
    } else {
        has_key_from(es, k, i + 1)
    }
}

/// An entry's key occurs in the entries.
pub proof fn lemma_has_key_intro<V>(es: Seq<(Seq<char>, i64, V)>, k: Seq<char>, i: int, j: int)
    requires
        0 <= i <= j < es.len(),
        es[j].0 == k,
    ensures
        has_key_from(es, k, i),
    decreases j - i,
{
    if i < j {
        lemma_has_key_intro(es, k, i + 1, j);
    }
}

/// A key that occurs does so at a concrete position.
pub proof fn lemma_has_key_elim<V>(es: Seq<(Seq<char>, i64, V)>, k: Seq<char>, i: int) -> (j: int)
    requires
        0 <= i,
        has_key_from(es, k, i),
    ensures
        i <= j < es.len(),
        es[j].0 == k,
    decreases es.len() - i,
{
    if es[i].0 == k {
        i
    } else {
        lemma_has_key_elim(es, k, i + 1)
    }
}

/// Prepending one entry shifts key membership by one position.
proof fn lemma_has_key_shift<V>(x: (Seq<char>, i64, V), r: Seq<(Seq<char>, i64, V)>, k: Seq<char>, j: int)
    requires
        0 <= j <= r.len(),
    ensures
        has_key_from(seq![x] + r, k, j + 1) == has_key_from(r, k, j),
    decreases r.len() - j,
{
    let s = seq![x] + r;
    if j < r.len() {
        assert(s[j + 1] == r[j]);
        lemma_has_key_shift(x, r, k, j + 1);
    }
}

/// Every key the expiry sweep keeps was among the entries it swept.
proof fn lemma_evict_expired_keys<V>(
    es: Seq<(Seq<char>, i64, V)>,
    now: i64,
    ttl: i64,
    i: int,
    k: Seq<char>,
)
    requires
        0 <= i <= es.len(),
        has_key_from(spec_evict_expired(es, now, ttl, i), k, 0),
    ensures
        has_key_from(es, k, i),
    decreases es.len() - i,
{
    if i < es.len() {
        let r = spec_evict_expired(es, now, ttl, i);
        let r1 = spec_evict_expired(es, now, ttl, i + 1);
        if now - es[i].1 > ttl {
            lemma_evict_expired_keys(es, now, ttl, i + 1, k);
        } else {
            assert(r == seq![es[i]] + r1);
            assert(r[0] == es[i]);
            if es[i].0 == k {
            } else {
                lemma_has_key_shift(es[i], r1, k, 0);
                assert(has_key_from(r1, k, 0));
                lemma_evict_expired_keys(es, now, ttl, i + 1, k);
            }
        }
    }
}

/// The expiry sweep keeps keys unique and stamps valid, and never grows
/// the entries.
proof fn lemma_evict_expired_wf<V>(es: Seq<(Seq<char>, i64, V)>, now: i64, ttl: i64, i: int)
    requires
        0 <= i <= es.len(),
        forall|a: int, b: int| i <= a < b < es.len() ==> es[a].0 != es[b].0,
        stamps_ok(es),
    ensures
        keys_unique(spec_evict_expired(es, now, ttl, i)),
        stamps_ok(spec_evict_expired(es, now, ttl, i)),
        spec_evict_expired(es, now, ttl, i).len() <= es.len() - i,
    decreases es.len() - i,
{
    if i < es.len() {
        lemma_evict_expired_wf(es, now, ttl, i + 1);
        let r = spec_evict_expired(es, now, ttl, i);
        let r1 = spec_evict_expired(es, now, ttl, i + 1);
        if !(now - es[i].1 > ttl) {
            assert(r == seq![es[i]] + r1);
            assert forall|a: int, b: int| 0 <= a < b < r.len() implies r[a].0 != r[b].0 by {
                if a == 0 {
                    assert(r[b] == r1[b - 1]);
                    if es[i].0 == r1[b - 1].0 {
                        lemma_has_key_intro(r1, r1[b - 1].0, 0, b - 1);
                        lemma_evict_expired_keys(es, now, ttl, i + 1, es[i].0);
                        let j = lemma_has_key_elim(es, es[i].0, i + 1);
                        assert(false);
                    }
                } else {
                    assert(r[a] == r1[a - 1] && r[b] == r1[b - 1]);
                }
            }
            assert forall|m: int| 0 <= m < r.len() implies time_in_range(#[trigger] r[m].1) by {
                if m == 0 {
                    assert(r[0] == es[i]);
                    assert(time_in_range(es[i].1));
                } else {
                    assert(r[m] == r1[m - 1]);
                }
            }
        }
    }
}

/// Removing an entry before the scan position shifts the expiry sweep by
/// one: sweeping the shortened entries from `j` equals sweeping the full
/// entries from `j + 1`.
proof fn lemma_evict_expired_shift<V>(
    es: Seq<(Seq<char>, i64, V)>,
    es2: Seq<(Seq<char>, i64, V)>,
    now: i64,
    ttl: i64,
    p: int,
    j: int,
)
    requires
        0 <= p < es.len(),
        es2 == es.remove(p),
        p <= j,
    ensures
        spec_evict_expired(es2, now, ttl, j) == spec_evict_expired(es, now, ttl, j + 1),
    decreases es2.len() - j,
{
    if j < es2.len() {
        assert(es2[j] == es[j + 1]);
        lemma_evict_expired_shift(es, es2, now, ttl, p, j + 1);
    }
}

/// The oldest-entry scan stays within the entries.
proof fn lemma_oldest_in_range<V>(es: Seq<(Seq<char>, i64, V)>, i: int, best: int)
    requires
        es.len() >= 1,
        0 <= best < es.len(),
        1 <= i,
    ensures
        0 <= oldest_from(es, i, best) < es.len(),
    decreases es.len() - i,
{
    if i < es.len() {
        if es[i].1 < es[best].1 {
            lemma_oldest_in_range(es, i + 1, i);
        } else {
            lemma_oldest_in_range(es, i + 1, best);
        }
    }
}

proof fn lemma_remove_wf<V>(es: Seq<(Seq<char>, i64, V)>, i: int)
    requires
        0 <= i < es.len(),
        keys_unique(es),
        stamps_ok(es),
    ensures
        keys_unique(es.remove(i)),
        stamps_ok(es.remove(i)),
{
    let r = es.remove(i);
    assert forall|a: int, b: int| 0 <= a < b < r.len() implies r[a].0 != r[b].0 by {
        let a0 = if a < i { a } else { a + 1 };
        let b0 = if b < i { b } else { b + 1 };
        assert(r[a] == es[a0] && r[b] == es[b0]);
    }
    assert forall|m: int| 0 <= m < r.len() implies time_in_range(#[trigger] r[m].1) by {
        let m0 = if m < i { m } else { m + 1 };
        assert(r[m] == es[m0]);
    }
}

// --- the round-trip law ---

/// A found key position is the first one.
proof fn lemma_key_idx_first<V>(es: Seq<(Seq<char>, i64, V)>, k: Seq<char>, j: int)
    requires
        0 <= j,
        key_idx(es, k, j) is Some,
    ensures
        j <= key_idx(es, k, j).unwrap() < es.len(),
        es[key_idx(es, k, j).unwrap()].0 == k,
        forall|x: int| j <= x < key_idx(es, k, j).unwrap() ==> (#[trigger] es[x]).0 != k,
    decreases es.len() - j,
{
    if j < es.len() && es[j].0 != k {
        lemma_key_idx_first(es, k, j + 1);
    }
}

/// The scan finds a key at its first occurrence.
proof fn lemma_key_idx_of_first<V>(es: Seq<(Seq<char>, i64, V)>, k: Seq<char>, i: int, j: int)
    requires
        0 <= j <= i < es.len(),
        es[i].0 == k,
        forall|x: int| j <= x < i ==> (#[trigger] es[x]).0 != k,
    ensures
        key_idx(es, k, j) == Some(i),
    decreases i - j,
{
    if j < i {
        lemma_key_idx_of_first(es, k, i, j + 1);
    }
}

/// A sweep that kept every entry kept them in place.
proof fn lemma_evict_full_is_identity<V>(es: Seq<(Seq<char>, i64, V)>, now: i64, ttl: i64, i: int)
    requires
        0 <= i <= es.len(),
        spec_evict_expired(es, now, ttl, i).len() == es.len() - i,
    ensures
        spec_evict_expired(es, now, ttl, i) == es.subrange(i, es.len() as int),
    decreases es.len() - i,
{
    if i < es.len() {
        let r = spec_evict_expired(es, now, ttl, i);
        let r1 = spec_evict_expired(es, now, ttl, i + 1);
        lemma_evict_len(es, now, ttl, i + 1);
        if now - es[i].1 > ttl {
            assert(r == r1);
            assert(false);
        } else {
            lemma_evict_full_is_identity(es, now, ttl, i + 1);
            assert(r =~= es.subrange(i, es.len() as int));
        }
    } else {
        assert(spec_evict_expired(es, now, ttl, i) =~= es.subrange(i, es.len() as int));
    }
}

proof fn lemma_evict_len<V>(es: Seq<(Seq<char>, i64, V)>, now: i64, ttl: i64, i: int)
    requires
        0 <= i <= es.len(),
    ensures
        spec_evict_expired(es, now, ttl, i).len() <= es.len() - i,
    decreases es.len() - i,
{
    if i < es.len() {
        lemma_evict_len(es, now, ttl, i + 1);
    }
}

/// The lookup skips a prepended entry of another key.
proof fn lemma_key_idx_prepend<V>(
    x: (Seq<char>, i64, V),
    r: Seq<(Seq<char>, i64, V)>,
    k: Seq<char>,
    j: int,
)
    requires
        0 <= j <= r.len(),
    ensures
        key_idx(seq![x] + r, k, j + 1) == match key_idx(r, k, j) {
            Some(i) => Some(i + 1),
            None => None::<int>,
        },
    decreases r.len() - j,
{
    let s = seq![x] + r;
    if j < r.len() {
        assert(s[j + 1] == r[j]);
        lemma_key_idx_prepend(x, r, k, j + 1);
    }
}

/// A fresh, uniquely keyed entry survives the expiry sweep with its stamp
/// and value.
proof fn lemma_evict_lookup<V>(
    es: Seq<(Seq<char>, i64, V)>,
    now: i64,
    ttl: i64,
    i: int,
    p: int,
    k: Seq<char>,
)
    requires
        0 <= i <= p < es.len(),
        es[p].0 == k,
        now - es[p].1 <= ttl,
        forall|j: int| i <= j < es.len() && j != p ==> (#[trigger] es[j]).0 != k,
    ensures
        lookup(spec_evict_expired(es, now, ttl, i), k) == Some((es[p].1, es[p].2)),
    decreases es.len() - i,
{
    let r = spec_evict_expired(es, now, ttl, i);
    let r1 = spec_evict_expired(es, now, ttl, i + 1);
    if i == p {
        assert(!(now - es[i].1 > ttl));
        assert(r == seq![es[i]] + r1);
        assert(r[0] == es[p]);
        assert(key_idx(r, k, 0) == Some(0int));
    } else {
        if now - es[i].1 > ttl {
            lemma_evict_lookup(es, now, ttl, i + 1, p, k);
        } else {
            lemma_evict_lookup(es, now, ttl, i + 1, p, k);
            assert(r == seq![es[i]] + r1);
            lemma_key_idx_prepend(es[i], r1, k, 0);
            assert(r[0] == es[i]);
            assert(es[i].0 != k);
            match key_idx(r1, k, 0) {
                Some(m) => {
                    lemma_key_idx_first(r1, k, 0);
                    assert(r[m + 1] == r1[m]);
                },
                None => {
                    assert(false);
                },
            }
        }
    }
}

/// The first-oldest scan returns a position with a minimal stamp; when it
/// differs from where it started, the stamp there is strictly smaller.
proof fn lemma_oldest_props<V>(es: Seq<(Seq<char>, i64, V)>, i: int, best: int)
    requires
        1 <= i,
        0 <= best < es.len(),
    ensures
        0 <= oldest_from(es, i, best) < es.len(),
        es[oldest_from(es, i, best)].1 <= es[best].1,
        oldest_from(es, i, best) == best || es[oldest_from(es, i, best)].1 < es[best].1,
        forall|j: int| i <= j < es.len() ==> es[oldest_from(es, i, best)].1 <= (#[trigger] es[j]).1,
    decreases es.len() - i,
{
    if i < es.len() {
        if es[i].1 < es[best].1 {
            lemma_oldest_props(es, i + 1, i);
        } else {
            lemma_oldest_props(es, i + 1, best);
        }
    }
}

/// The cache round-trip law. After a `put` of value `v` under key `k` at
/// time `t`, the entry stored under `k` is exactly `(t, v)` — provided the
/// cache was well-formed with room for at least one entry, and no stored
/// stamp lies in the future. With the cache's `get` contract this means a
/// `get` within the TTL returns the value as stamped at `t`.
pub proof fn lemma_put_then_get<V>(
    es: Seq<(Seq<char>, i64, V)>,
    k: Seq<char>,
    t: i64,
    v: V,
    max: int,
    ttl: i64,
)
    requires
        keys_unique(es),
        stamps_ok(es),
        es.len() <= max,
        1 <= max,
        0 <= ttl,
        time_in_range(t),
        forall|i: int| 0 <= i < es.len() ==> (#[trigger] es[i]).1 <= t,
    ensures
        lookup(spec_put(es, k, t, v, max, ttl), k) == Some((t, v)),
{
    let e1 = spec_insert(es, k, t, v);
    match key_idx(es, k, 0) {
        Some(i) => {
            lemma_key_idx_first(es, k, 0);
            assert(e1 == es.update(i, (k, t, v)));
            assert(e1.len() == es.len());
            assert(spec_put(es, k, t, v, max, ttl) == e1);
            assert(forall|x: int| 0 <= x < i ==> (#[trigger] e1[x]).0 != k) by {
                assert(forall|x: int| 0 <= x < i ==> e1[x] == es[x]);
            }
            lemma_key_idx_of_first(e1, k, i, 0);
        },
        None => {
            lemma_key_idx_none(es, k, 0);
            assert(e1 == es.push((k, t, v)));
            let p = es.len() as int;
            assert(e1[p] == (k, t, v));
            assert(forall|j: int| 0 <= j < e1.len() && j != p ==> (#[trigger] e1[j]).0 != k) by {
                assert(forall|j: int| 0 <= j < es.len() ==> e1[j] == es[j]);
            }
            if e1.len() <= max {
                assert(spec_put(es, k, t, v, max, ttl) == e1);
                lemma_key_idx_of_first(e1, k, p, 0);
            } else {
                assert(es.len() == max);
                let e2 = spec_evict_expired(e1, t, ttl, 0);
                lemma_evict_lookup(e1, t, ttl, 0, p, k);
                if e2.len() <= max {
                    assert(spec_put(es, k, t, v, max, ttl) == e2);
                } else {
                    lemma_evict_len(e1, t, ttl, 0);
                    assert(e2.len() == e1.len());
                    lemma_evict_full_is_identity(e1, t, ttl, 0);
                    assert(e2 =~= e1);
                    let o = oldest_from(e2, 1, 0);
                    lemma_oldest_props(e2, 1, 0);
                    assert(e2.len() >= 2);
                    assert(o != p) by {
                        if o == p {
                            assert(e2[p].1 == t);
                            assert(e2[0].1 <= t);
                            assert(o != 0);
                            assert(e2[o].1 < e2[0].1);
                        }
                    }
                    let e3 = e2.remove(o);
                    assert(spec_put(es, k, t, v, max, ttl) == e3);
                    let p3 = if o < p {
                        p - 1
                    } else {
                        p
                    };
                    assert(e3[p3] == e2[p]);
                    assert(forall|j: int| 0 <= j < e3.len() && j != p3 ==> (#[trigger] e3[j]).0
                        != k) by {
                        assert(forall|j: int|
                            0 <= j < e3.len() ==> e3[j] == (if j < o {
                                e2[j]
                            } else {
                                e2[j + 1]
                            }));
                    }
                    lemma_key_idx_of_first(e3, k, p3, 0);
                }
            }
        },
    }
}

} // verus!
