//! Configuration decisions: each getter turns the raw environment value
//! (read by the caller) into the effective setting, applying the
//! documented default.

use vstd::prelude::*;

use crate::text::{chars_of, parse_u32_range, spec_parse_u32};

verus! {

/// Upper bound on the timestamps (seconds) the library accepts; keeps all
/// time arithmetic far from the integer limits.
pub const MAX_TIME: i64 = 4611686018427387903;

/// A timestamp the caches and the rate limiter work with.
pub open spec fn time_in_range(t: i64) -> bool {
    0 <= t <= MAX_TIME
}

/// TTL (seconds) and capacity of one response cache.
#[derive(Clone, Copy)]
pub struct CacheConfig {
    pub max_entries: usize,
    pub ttl: i64,
}

/// Fixed-window rate limiting: `requests` allowed per `window` seconds.
#[derive(Clone, Copy)]
pub struct RateLimitConfig {
    pub requests: u64,
    pub window: i64,
}

/// Parse a `u32` out of a whole string.
pub fn parse_u32_str(s: &str) -> (r: Option<u32>)
    ensures
        r == spec_parse_u32(s@),
{
    let v = chars_of(s);
    let r = parse_u32_range(&v, 0, v.len());
    proof {
        assert(v@.subrange(0, v@.len() as int) =~= s@);
    }
    r
}

/// The connection-pool size: the given environment value when it parses,
/// 1 when it is set but malformed, 10 when it is unset.
pub fn get_birdc_connection_pool_size(value: Option<&str>) -> (r: usize)
    ensures
        match value {
            None => r == 10,
            Some(s) => match spec_parse_u32(s@) {
                Some(n) => r == n as usize,
                None => r == 1,
            },
        },
{
    match value {
        None => 10,
        Some(s) => match parse_u32_str(s) {
            Some(n) => n as usize,
            None => 1,
        },
    }
}

/// A cache configuration from the raw environment values, or nothing when
/// one of them is set but malformed.
pub open spec fn spec_cache_config(
    max_entries: Option<&str>,
    ttl: Option<&str>,
    default_max: u32,
) -> Option<CacheConfig> {
    let m = match max_entries {
        None => Some(default_max),
        Some(s) => spec_parse_u32(s@),
    };
    let t = match ttl {
        None => Some(300u32),
        Some(s) => spec_parse_u32(s@),
    };
    match (m, t) {
        (Some(m), Some(t)) => Some(CacheConfig { max_entries: m as usize, ttl: t as i64 }),
        _ => None,
    }
}

fn make_cache_config(max_entries: Option<&str>, ttl: Option<&str>, default_max: u32) -> (r: Option<
    CacheConfig,
>)
    requires
        default_max <= 1000000,
    ensures
        r == spec_cache_config(max_entries, ttl, default_max),
{
    let m = match max_entries {
        None => Some(default_max),
        Some(s) => parse_u32_str(s),
    };
    let t = match ttl {
        None => Some(300u32),
        Some(s) => parse_u32_str(s),
    };
    match (m, t) {
        (Some(m), Some(t)) => Some(CacheConfig { max_entries: m as usize, ttl: t as i64 }),
        _ => None,
    }
}

/// The neighbors-cache configuration: 1 entry and 300 s by default.
pub fn get_neighbors_cache_config(max_entries: Option<&str>, ttl: Option<&str>) -> (r: Option<
    CacheConfig,
>)
    ensures
        r == spec_cache_config(max_entries, ttl, 1),
{
    make_cache_config(max_entries, ttl, 1)
}

/// The routes-cache configuration: 25 entries and 300 s by default.
pub fn get_routes_cache_config(max_entries: Option<&str>, ttl: Option<&str>) -> (r: Option<
    CacheConfig,
>)
    ensures
        r == spec_cache_config(max_entries, ttl, 25),
{
    make_cache_config(max_entries, ttl, 25)
}

/// The per-protocol routes cutoff: none when unset or malformed.
pub fn get_routes_protocol_cutoff(value: Option<&str>) -> (r: Option<usize>)
    ensures
        match value {
            None => r is None,
            Some(s) => match spec_parse_u32(s@) {
                Some(n) => r == Some(n as usize),
                None => r is None,
            },
        },
{
    match value {
        None => None,
        Some(s) => match parse_u32_str(s) {
            Some(n) => Some(n as usize),
            None => None,
        },
    }
}

/// The rate-limiter configuration: 512 requests per 60 s by default, or
/// nothing when a value is set but malformed.
pub fn get_rate_limit_config(requests: Option<&str>, window: Option<&str>) -> (r: Option<
    RateLimitConfig,
>)
    ensures
        match r {
            Some(c) => {
                &&& match requests {
                    None => c.requests == 512,
                    Some(s) => spec_parse_u32(s@) == Some(c.requests as u32),
                }
                &&& match window {
                    None => c.window == 60,
                    Some(s) => spec_parse_u32(s@) == Some(c.window as u32),
                }
            },
            None => {
                ||| (requests matches Some(s) && spec_parse_u32(s@) is None)
                ||| (window matches Some(s) && spec_parse_u32(s@) is None)
            },
        },
{
    let rq = match requests {
        None => Some(512u32),
        Some(s) => parse_u32_str(s),
    };
    let w = match window {
        None => Some(60u32),
        Some(s) => parse_u32_str(s),
    };
    match (rq, w) {
        (Some(rq), Some(w)) => Some(RateLimitConfig { requests: rq as u64, window: w as i64 }),
        _ => None,
    }
}

/// The daemon control socket path, defaulted.
pub fn get_birdc_socket(value: Option<String>) -> (r: String)
    ensures
        match value {
            Some(v) => r@ == v@,
            None => r@ == "/var/run/bird/bird.ctl"@,
        },
{
    match value {
        Some(v) => v,
        None => "/var/run/bird/bird.ctl".to_owned(),
    }
}

/// The HTTP listen address, defaulted.
pub fn get_listen_address(value: Option<String>) -> (r: String)
    ensures
        match value {
            Some(v) => r@ == v@,
            None => r@ == "127.0.0.1:8181"@,
        },
{
    match value {
        Some(v) => v,
        None => "127.0.0.1:8181".to_owned(),
    }
}

/// The routes worker-pool size: the environment value when it parses, else
/// the available parallelism handed in by the caller.
pub fn get_routes_worker_pool_size(value: Option<&str>, available: usize) -> (r: usize)
    ensures
        match value {
            None => r == available,
            Some(s) => match spec_parse_u32(s@) {
                Some(n) => r == n as usize,
                None => r == available,
            },
        },
{
    match value {
        None => available,
        Some(s) => match parse_u32_str(s) {
            Some(n) => n as usize,
            None => available,
        },
    }
}

} // verus!
