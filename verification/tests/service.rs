//! Tests of query validation, command composition, the response cache, the
//! rate limiter, and the configuration defaults.

use lightwatcher::bird::{
    cmd_show_route_all_noexport_protocol, cmd_show_route_all_protocol, cmd_show_route_all_table,
    cmd_show_route_all_table_peer, cmd_show_status, Birdc, BirdStatus, ProtocolID, TableID,
};
use lightwatcher::cache::{CacheKey, ResponseCache};
use lightwatcher::config::{
    get_birdc_connection_pool_size, get_birdc_socket, get_neighbors_cache_config,
    get_rate_limit_config, get_routes_cache_config, get_routes_protocol_cutoff, CacheConfig,
    RateLimitConfig,
};
use lightwatcher::rate_limit::RateLimiter;
use lightwatcher::responses::{HealthResponse, StatusResponse};

fn status_with_version(v: &str) -> BirdStatus {
    let mut s = BirdStatus::empty();
    s.version = v.to_string();
    s
}

fn cache_config(max_entries: usize, ttl: i64) -> CacheConfig {
    CacheConfig { max_entries, ttl }
}

#[test]
fn test_cache_key_from() {
    let key = CacheKey::new("foo");
    assert_eq!(key.0, "foo");
}

#[test]
fn cache_key_composite() {
    let table = TableID::parse("master4").unwrap();
    let peer = lightwatcher::bird::PeerID::parse("1.2.3.4").unwrap();
    let key = CacheKey::for_table_peer(&table, &peer);
    assert_eq!(key.0, "master4-1.2.3.4");
}

#[test]
fn test_cache_get_set() {
    let mut cache = ResponseCache::<StatusResponse>::new(cache_config(2, 300));
    let res = StatusResponse::new(status_with_version("2.0.10"), 1000);

    cache.put(CacheKey::new("res"), res, 1000);

    let res = cache.get(&CacheKey::new("res"), 1000).unwrap();
    assert_eq!(res.api.result_from_cache, true);
    assert_eq!(res.status.version, "2.0.10");
    assert_eq!(res.cached_at, 1000);
}

#[test]
fn cache_expires_entries() {
    let mut cache = ResponseCache::<StatusResponse>::new(cache_config(2, 300));
    cache.put(CacheKey::new("res"), StatusResponse::new(BirdStatus::empty(), 1000), 1000);

    assert!(cache.get(&CacheKey::new("res"), 1300).is_some());
    assert!(cache.get(&CacheKey::new("res"), 1301).is_none());
}

#[test]
fn cache_evicts_oldest_when_full() {
    let mut cache = ResponseCache::<StatusResponse>::new(cache_config(2, 300));
    cache.put(CacheKey::new("a"), StatusResponse::new(status_with_version("A"), 10), 10);
    cache.put(CacheKey::new("b"), StatusResponse::new(status_with_version("B"), 11), 11);
    cache.put(CacheKey::new("c"), StatusResponse::new(status_with_version("C"), 12), 12);

    assert!(cache.get(&CacheKey::new("a"), 12).is_none());
    assert_eq!(cache.get(&CacheKey::new("b"), 12).unwrap().status.version, "B");
    assert_eq!(cache.get(&CacheKey::new("c"), 12).unwrap().status.version, "C");
}

#[test]
fn cache_single_entry_keeps_at_most_one() {
    let mut cache = ResponseCache::<StatusResponse>::new(cache_config(1, 300));
    cache.put(CacheKey::new("a"), StatusResponse::new(status_with_version("A"), 10), 10);
    cache.put(CacheKey::new("b"), StatusResponse::new(status_with_version("B"), 11), 11);

    assert!(cache.get(&CacheKey::new("a"), 11).is_none());
    assert_eq!(cache.get(&CacheKey::new("b"), 11).unwrap().status.version, "B");
}

#[test]
fn test_check_rate_limit_blocks_after_limit() {
    let config = RateLimitConfig { requests: 2, window: 60 };
    let mut limiter = RateLimiter::new(config);

    assert!(limiter.check_rate_limit("test_key", 100));
    assert!(limiter.check_rate_limit("test_key", 110));
    assert!(!limiter.check_rate_limit("test_key", 120));
}

#[test]
fn test_check_rate_limit_different_keys() {
    let config = RateLimitConfig { requests: 1, window: 60 };
    let mut limiter = RateLimiter::new(config);

    assert!(limiter.check_rate_limit("key1", 100));
    assert!(limiter.check_rate_limit("key2", 100));
    assert!(!limiter.check_rate_limit("key1", 110));
    assert!(!limiter.check_rate_limit("key2", 110));
}

#[test]
fn test_check_rate_limit_window_reset() {
    let config = RateLimitConfig { requests: 1, window: 10 };
    let mut limiter = RateLimiter::new(config);

    assert!(limiter.check_rate_limit("test_key", 100));
    assert!(!limiter.check_rate_limit("test_key", 105));

    assert!(limiter.check_rate_limit("test_key", 111));
}

#[test]
fn rate_limit_scenario() {
    let config = RateLimitConfig { requests: 2, window: 60 };
    let mut limiter = RateLimiter::new(config);
    assert!(limiter.check_rate_limit("k", 0));
    assert!(limiter.check_rate_limit("k", 1));
    assert!(!limiter.check_rate_limit("k", 2));
    assert!(limiter.check_rate_limit("j", 3));
}

#[test]
fn test_table_id() {
    let table = TableID::parse("master4").unwrap();
    assert_eq!(table.as_str(), "master4");

    // Invalid table name
    let result = TableID::parse("m4'");
    assert!(result.is_err());
}

#[test]
fn test_protocol_id() {
    let protocol = ProtocolID::parse("R192_175").unwrap();
    assert_eq!(protocol.as_str(), "R192_175");

    // Invalid table name
    let result = ProtocolID::parse("R192_175'");
    assert!(result.is_err());

    let result = ProtocolID::parse("R192 175");
    assert!(result.is_err());

    let result = ProtocolID::parse("R192`date`175");
    assert!(result.is_err());
}

#[test]
fn query_value_reasons() {
    let e = ProtocolID::parse("").unwrap_err();
    assert_eq!(e.reason, "is empty");

    let long = "x".repeat(129);
    let e = ProtocolID::parse(&long).unwrap_err();
    assert_eq!(e.reason, "is too long");

    let e = ProtocolID::parse("m4'").unwrap_err();
    assert_eq!(e.reason, "contains invalid characters");
    assert_eq!(e.message(), "Validation failed 'm4'': contains invalid characters");

    let ok = ProtocolID::parse(&"x".repeat(128));
    assert!(ok.is_ok());
}

#[test]
fn commands_quote_query_values() {
    let table = TableID::parse("master4").unwrap();
    let proto = ProtocolID::parse("R194_42").unwrap();
    let peer = lightwatcher::bird::PeerID::parse("10.0.0.1").unwrap();

    assert_eq!(cmd_show_status(), "show status\n");
    assert_eq!(lightwatcher::bird::cmd_show_protocols_all(), "show protocols all\n");
    assert_eq!(cmd_show_route_all_table(&table), "show route all table 'master4'\n");
    assert_eq!(
        lightwatcher::bird::cmd_show_route_all_filtered_table(&table),
        "show route all filtered table 'master4'\n"
    );
    assert_eq!(cmd_show_route_all_protocol(&proto), "show route all protocol 'R194_42'\n");
    assert_eq!(
        lightwatcher::bird::cmd_show_route_all_filtered_protocol(&proto),
        "show route all filtered protocol 'R194_42'\n"
    );
    assert_eq!(cmd_show_route_all_noexport_protocol(&proto), "show route all noexport 'R194_42'\n");
    assert_eq!(
        cmd_show_route_all_table_peer(&table, &peer),
        "show route all table 'master4' where from=10.0.0.1\n"
    );
}

#[test]
fn birdc_keeps_socket() {
    let birdc = Birdc::new("/var/run/bird/bird.ctl".to_string());
    assert_eq!(birdc.socket(), "/var/run/bird/bird.ctl");
}

#[test]
fn config_defaults() {
    assert_eq!(get_birdc_connection_pool_size(None), 10);
    assert_eq!(get_birdc_connection_pool_size(Some("32")), 32);
    assert_eq!(get_birdc_connection_pool_size(Some("nope")), 1);

    assert_eq!(get_birdc_socket(None), "/var/run/bird/bird.ctl");
    assert_eq!(lightwatcher::config::get_listen_address(None), "127.0.0.1:8181");

    let c = get_neighbors_cache_config(None, None).unwrap();
    assert_eq!(c.max_entries, 1);
    assert_eq!(c.ttl, 300);

    let c = get_routes_cache_config(Some("7"), Some("60")).unwrap();
    assert_eq!(c.max_entries, 7);
    assert_eq!(c.ttl, 60);
    assert!(get_routes_cache_config(Some("x"), None).is_none());

    assert_eq!(get_routes_protocol_cutoff(None), None);
    assert_eq!(get_routes_protocol_cutoff(Some("5")), Some(5));

    let r = get_rate_limit_config(None, None).unwrap();
    assert_eq!(r.requests, 512);
    assert_eq!(r.window, 60);

    assert_eq!(
        lightwatcher::config::get_routes_worker_pool_size(None, 8),
        8
    );
    assert_eq!(
        lightwatcher::config::get_routes_worker_pool_size(Some("4"), 8),
        4
    );
}

#[test]
fn health_reports_daemon_state() {
    let ok = HealthResponse::from_daemon(
        lightwatcher::version(),
        "/run/bird.ctl".to_string(),
        Ok(status_with_version("2.0.10")),
    );
    assert_eq!(ok.status, "ok");
    assert_eq!(ok.bird_status.unwrap().version, "2.0.10");
    assert!(ok.error.is_none());

    let bad = HealthResponse::from_daemon(
        lightwatcher::version(),
        "/run/bird.ctl".to_string(),
        Err("connection refused".to_string()),
    );
    assert_eq!(bad.status, "error");
    assert!(bad.bird_status.is_none());
    assert_eq!(bad.error.as_deref(), Some("Could not connect to bird daemon"));
    assert_eq!(bad.bird_error.as_deref(), Some("connection refused"));
}

#[test]
fn api_error_carries_message() {
    let e = lightwatcher::responses::Error::internal("boom".to_string());
    assert_eq!(e.code, 500);
    assert_eq!(e.message, "boom");
}

#[test]
fn version_string() {
    assert_eq!(lightwatcher::version(), "0.1.0");
}
