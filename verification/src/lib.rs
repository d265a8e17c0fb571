//! A verified data plane for a read-only HTTP gateway in front of a BIRD
//! routing daemon's control socket: the line-protocol block framer, the
//! status / protocol / route block parsers, query validation and command
//! composition, the per-endpoint response cache, and the rate limiter.

pub mod bird;
pub mod cache;
pub mod config;
pub mod framer;
pub mod parsers;
pub mod pool;
pub mod rate_limit;
pub mod responses;
pub mod text;

use vstd::prelude::*;

verus! {

/// The crate version reported by the welcome and health endpoints.
pub fn version() -> (r: String)
    ensures
        r@ == "0.1.0"@,
{
    "0.1.0".to_owned()
}

} // verus!
