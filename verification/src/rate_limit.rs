//! The fixed-window rate limiter: one bucket per client key, reset when
//! the window has elapsed, denied when the window's request budget is
//! spent. Buckets are never evicted.

use vstd::prelude::*;

use crate::bird::str_eq;
use crate::config::{time_in_range, RateLimitConfig, MAX_TIME};

verus! {

/// One client's bucket: how many checks were granted in the window that
/// started at `window_start`.
#[derive(Clone, Copy, PartialEq, Eq, Structural, Debug)]
pub struct RateLimitBucket {
    pub count: u64,
    pub window_start: i64,
}

/// What one check does to a bucket: reset and allow when the window has
/// elapsed; count and allow while the budget lasts; else deny.
pub open spec fn spec_check(b: RateLimitBucket, cfg: RateLimitConfig, now: i64) -> (
    bool,
    RateLimitBucket,
) {
    if now - b.window_start > cfg.window {
        (true, RateLimitBucket { count: 0, window_start: now })
    } else if b.count < cfg.requests {
        (true, RateLimitBucket { count: (b.count + 1) as u64, window_start: b.window_start })
    } else {
        (false, b)
    }
}

pub open spec fn buckets_view(v: Seq<(String, RateLimitBucket)>) -> Seq<(Seq<char>, RateLimitBucket)> {
    v.map_values(|p: (String, RateLimitBucket)| (p.0@, p.1))
}

/// The first bucket stored under a key.
pub open spec fn bucket_idx(bs: Seq<(Seq<char>, RateLimitBucket)>, k: Seq<char>, i: int) -> Option<
    int,
>
    decreases bs.len() - i,
{
    if !(0 <= i < bs.len()) {
        None
    } else if bs[i].0 == k {
        Some(i)
    } else {
        bucket_idx(bs, k, i + 1)
    }
}

pub open spec fn bucket_of(bs: Seq<(Seq<char>, RateLimitBucket)>, k: Seq<char>, now: i64) -> RateLimitBucket {
    match bucket_idx(bs, k, 0) {
        Some(i) => bs[i].1,
        None => RateLimitBucket { count: 0, window_start: now },
    }
}

/// The bucket map after a check stored the updated bucket.
pub open spec fn spec_store(
    bs: Seq<(Seq<char>, RateLimitBucket)>,
    k: Seq<char>,
    b: RateLimitBucket,
) -> Seq<(Seq<char>, RateLimitBucket)> {
    match bucket_idx(bs, k, 0) {
        Some(i) => bs.update(i, (k, b)),
        None => bs.push((k, b)),
    }
}

/// The per-client fixed-window rate limiter.
pub struct RateLimiter {
    config: RateLimitConfig,
    buckets: Vec<(String, RateLimitBucket)>,
}

impl RateLimiter {
    pub closed spec fn cfg(&self) -> RateLimitConfig {
        self.config
    }

    pub closed spec fn buckets(&self) -> Seq<(Seq<char>, RateLimitBucket)> {
        buckets_view(self.buckets@)
    }

    /// Every bucket's window start is a valid timestamp and its count never
    /// exceeds the budget.
    pub open spec fn wf(&self) -> bool {
        &&& 0 <= self.cfg().window <= MAX_TIME
        &&& forall|i: int|
            0 <= i < self.buckets().len() ==> time_in_range(#[trigger] self.buckets()[i].1.window_start)
                && self.buckets()[i].1.count <= self.cfg().requests
    }

    /// A new rate limiter with the given configuration and no buckets.
    pub fn new(config: RateLimitConfig) -> (r: Self)
        requires
            0 <= config.window <= MAX_TIME,
        ensures
            r.wf(),
            r.cfg() == config,
            r.buckets().len() == 0,
    {
        let r = RateLimiter { config, buckets: Vec::new() };
        proof {
            assert(buckets_view(Seq::<(String, RateLimitBucket)>::empty()) =~= Seq::<(
                Seq<char>,
                RateLimitBucket,
            )>::empty());
        }
        r
    }

    /// Check one request for a client key at the given time: the bucket is
    /// created lazily, reset after the window, counted while the budget
    /// lasts, and the verdict returned.
    pub fn check_rate_limit(&mut self, key: &str, now: i64) -> (allowed: bool)
        requires
            old(self).wf(),
            time_in_range(now),
        ensures
            final(self).wf(),
            final(self).cfg() == old(self).cfg(),
            ({
                let b = bucket_of(old(self).buckets(), key@, now);
                let (a, nb) = spec_check(b, old(self).cfg(), now);
                allowed == a && final(self).buckets() == spec_store(old(self).buckets(), key@, nb)
            }),
    {
        let ghost bs = self.buckets();
        let found = self.find_bucket(key);
        match found {
            Some(j) => {
                let b = self.buckets[j].1;
                proof {
                    assert(bs[j as int] == (self.buckets@[j as int].0@, self.buckets@[j as int].1));
                    assert(time_in_range(old(self).buckets()[j as int].1.window_start) && old(
                        self,
                    ).buckets()[j as int].1.count <= self.cfg().requests);
                }
                let (allowed, nb) = self.step(b, now);
                let k = self.buckets[j].0.clone();
                self.buckets.remove(j);
                self.buckets.insert(j, (k, nb));
                proof {
                    assert(buckets_view(self.buckets@) =~= bs.update(j as int, (key@, nb)));
                    assert forall|m: int| 0 <= m < self.buckets().len() implies time_in_range(
                        #[trigger] self.buckets()[m].1.window_start,
                    ) && self.buckets()[m].1.count <= self.cfg().requests by {
                        if m != j {
                            assert(self.buckets()[m] == bs[m]);
                            assert(time_in_range(old(self).buckets()[m].1.window_start) && old(
                                self,
                            ).buckets()[m].1.count <= self.cfg().requests);
                        }
                    }
                }
                allowed
            },
            None => {
                let b = RateLimitBucket { count: 0, window_start: now };
                let (allowed, nb) = self.step(b, now);
                self.buckets.push((key.to_owned(), nb));
                proof {
                    assert(buckets_view(self.buckets@) =~= bs.push((key@, nb)));
                    assert forall|m: int| 0 <= m < self.buckets().len() implies time_in_range(
                        #[trigger] self.buckets()[m].1.window_start,
                    ) && self.buckets()[m].1.count <= self.cfg().requests by {
                        if m < bs.len() {
                            assert(self.buckets()[m] == bs[m]);
                            assert(time_in_range(old(self).buckets()[m].1.window_start) && old(
                                self,
                            ).buckets()[m].1.count <= self.cfg().requests);
                        }
                    }
                }
                allowed
            },
        }
    }

    /// The position of a client's bucket, when one exists.
    fn find_bucket(&self, key: &str) -> (r: Option<usize>)
        ensures
            match r {
                Some(j) => {
                    &&& bucket_idx(self.buckets(), key@, 0) == Some(j as int)
                    &&& j < self.buckets@.len()
                    &&& self.buckets()[j as int].0 == key@
                },
                None => bucket_idx(self.buckets(), key@, 0) is None,
            },
    {
        let ghost bs = self.buckets();
        let mut i: usize = 0;
        while i < self.buckets.len()
            invariant
                i <= self.buckets@.len(),
                bs == buckets_view(self.buckets@),
                bucket_idx(bs, key@, 0) == bucket_idx(bs, key@, i as int),
            decreases self.buckets@.len() - i,
        {
            proof {
                assert(bs[i as int] == (self.buckets@[i as int].0@, self.buckets@[i as int].1));
            }
            if str_eq(self.buckets[i].0.as_str(), key) {
                return Some(i);
            }
            i += 1;
        }
        None
    }

    /// Apply one check to a bucket value.
    fn step(&self, b: RateLimitBucket, now: i64) -> (r: (bool, RateLimitBucket))
        requires
            time_in_range(now),
            time_in_range(b.window_start),
            0 <= self.cfg().window <= MAX_TIME,
            b.count <= self.cfg().requests,
        ensures
            r == spec_check(b, self.cfg(), now),
            r.1.count <= self.cfg().requests,
            time_in_range(r.1.window_start),
    {
        if now - b.window_start > self.config.window {
            (true, RateLimitBucket { count: 0, window_start: now })
        } else if b.count < self.config.requests {
            (true, RateLimitBucket { count: b.count + 1, window_start: b.window_start })
        } else {
            (false, b)
        }
    }
}

// --- the window law ---

/// The outcome of a sequence of checks on one bucket: the final bucket and
/// whether every check was allowed.
pub open spec fn spec_run(
    b: RateLimitBucket,
    cfg: RateLimitConfig,
    times: Seq<i64>,
    i: int,
) -> (RateLimitBucket, bool)
    decreases times.len() - i,
{
    if !(0 <= i < times.len()) {
        (b, true)
    } else {
        let (a, nb) = spec_check(b, cfg, times[i]);
        let (fb, rest) = spec_run(nb, cfg, times, i + 1);
        (fb, a && rest)
    }
}

/// While a bucket's window lasts, checks are allowed exactly as long as the
/// budget lasts: starting from `count` used requests, a sequence of checks
/// within the window is fully allowed when it fits the remaining budget,
/// and each check adds one to the count.
pub proof fn lemma_checks_within_window(
    b: RateLimitBucket,
    cfg: RateLimitConfig,
    times: Seq<i64>,
    i: int,
)
    requires
        0 <= i <= times.len(),
        b.count + (times.len() - i) <= cfg.requests,
        forall|j: int| i <= j < times.len() ==> times[j] - b.window_start <= cfg.window,
    ensures
        spec_run(b, cfg, times, i) == (
            RateLimitBucket {
                count: (b.count + (times.len() - i)) as u64,
                window_start: b.window_start,
            },
            true,
        ),
    decreases times.len() - i,
{
    if i < times.len() {
        let (a, nb) = spec_check(b, cfg, times[i]);
        assert(a && nb == RateLimitBucket {
            count: (b.count + 1) as u64,
            window_start: b.window_start,
        });
        lemma_checks_within_window(nb, cfg, times, i + 1);
    } else {
        assert(spec_run(b, cfg, times, i) == (b, true));
        assert(b == RateLimitBucket {
            count: (b.count + (times.len() - i)) as u64,
            window_start: b.window_start,
        });
    }
}

/// The fixed-window law. From a fresh bucket opened at `t0`, a sequence of
/// exactly `requests` checks within the window is fully allowed; after
/// them, one more check within the window is denied, while a check after
/// the window has elapsed is allowed again.
pub proof fn lemma_rate_limit_window(
    cfg: RateLimitConfig,
    t0: i64,
    times: Seq<i64>,
    within: i64,
    after: i64,
)
    requires
        times.len() == cfg.requests,
        forall|j: int| 0 <= j < times.len() ==> times[j] - t0 <= cfg.window,
        within - t0 <= cfg.window,
        after - t0 > cfg.window,
    ensures
        ({
            let fresh = RateLimitBucket { count: 0, window_start: t0 };
            let (fb, all) = spec_run(fresh, cfg, times, 0);
            &&& all
            &&& fb.count == cfg.requests
            &&& !spec_check(fb, cfg, within).0
            &&& spec_check(fb, cfg, after).0
        }),
{
    let fresh = RateLimitBucket { count: 0, window_start: t0 };
    lemma_checks_within_window(fresh, cfg, times, 0);
}

} // verus!
