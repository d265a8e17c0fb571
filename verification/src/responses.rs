//! The response bodies the endpoints serve, with the cache metadata each
//! carries, and the error body of a failed request.

use vstd::prelude::*;

use crate::bird::{protocols_view, routes_view, BirdStatus, BirdStatusView, ProtocolView, ProtocolsMap, Route, RouteView};
use crate::cache::CacheValue;
use crate::config::{time_in_range, MAX_TIME};

verus! {

/// When a response was cached, and in which time zone the stamp is read.
pub struct CacheInfo {
    pub date: i64,
    pub timezone_type: String,
    pub timezone: String,
}

pub struct CacheInfoView {
    pub date: i64,
    pub timezone_type: Seq<char>,
    pub timezone: Seq<char>,
}

impl View for CacheInfo {
    type V = CacheInfoView;

    open spec fn view(&self) -> CacheInfoView {
        CacheInfoView {
            date: self.date,
            timezone_type: self.timezone_type@,
            timezone: self.timezone@,
        }
    }
}

impl CacheInfoView {
    pub open spec fn at(now: i64) -> Self {
        CacheInfoView { date: now, timezone_type: "UTC"@, timezone: "UTC"@ }
    }
}

impl CacheInfo {
    pub fn at(now: i64) -> (r: Self)
        ensures
            r@ == CacheInfoView::at(now),
    {
        CacheInfo { date: now, timezone_type: "UTC".to_owned(), timezone: "UTC".to_owned() }
    }
}

/// The cache block of the `api` object.
pub struct CacheStatus {
    pub cached_at: CacheInfo,
}

pub struct CacheStatusView {
    pub cached_at: CacheInfoView,
}

impl View for CacheStatus {
    type V = CacheStatusView;

    open spec fn view(&self) -> CacheStatusView {
        CacheStatusView { cached_at: self.cached_at@ }
    }
}

/// The `api` object every JSON response embeds.
pub struct ApiStatus {
    pub version: String,
    pub result_from_cache: bool,
    pub cache_status: CacheStatus,
}

pub struct ApiStatusView {
    pub version: Seq<char>,
    pub result_from_cache: bool,
    pub cache_status: CacheStatusView,
}

impl View for ApiStatus {
    type V = ApiStatusView;

    open spec fn view(&self) -> ApiStatusView {
        ApiStatusView {
            version: self.version@,
            result_from_cache: self.result_from_cache,
            cache_status: self.cache_status@,
        }
    }
}

impl ApiStatusView {
    /// A fresh `api` object: not from the cache.
    pub open spec fn fresh(now: i64) -> Self {
        ApiStatusView {
            version: "0.0.1"@,
            result_from_cache: false,
            cache_status: CacheStatusView { cached_at: CacheInfoView::at(now) },
        }
    }

    /// The `api` object after the response was stamped as cached at `now`.
    pub open spec fn marked(v: Self, now: i64) -> Self {
        ApiStatusView {
            result_from_cache: true,
            cache_status: CacheStatusView { cached_at: CacheInfoView::at(now) },
            ..v
        }
    }
}

impl ApiStatus {
    pub fn new(now: i64) -> (r: Self)
        ensures
            r@ == ApiStatusView::fresh(now),
    {
        ApiStatus {
            version: "0.0.1".to_owned(),
            result_from_cache: false,
            cache_status: CacheStatus { cached_at: CacheInfo::at(now) },
        }
    }

    /// Mark the `api` object as served from the cache at `now`.
    pub fn mark_cached(&mut self, now: i64)
        ensures
            final(self)@ == ApiStatusView::marked(old(self)@, now),
    {
        self.result_from_cache = true;
        self.cache_status = CacheStatus { cached_at: CacheInfo::at(now) };
    }
}

/// The `/status` response.
pub struct StatusResponse {
    pub api: ApiStatus,
    pub cached_at: i64,
    pub status: BirdStatus,
    pub ttl: i64,
}

pub struct StatusResponseView {
    pub api: ApiStatusView,
    pub cached_at: i64,
    pub status: BirdStatusView,
    pub ttl: i64,
}

impl View for StatusResponse {
    type V = StatusResponseView;

    open spec fn view(&self) -> StatusResponseView {
        StatusResponseView {
            api: self.api@,
            cached_at: self.cached_at,
            status: self.status@,
            ttl: self.ttl,
        }
    }
}

impl StatusResponse {
    pub fn new(status: BirdStatus, now: i64) -> (r: Self)
        ensures
            r@ == (StatusResponseView {
                api: ApiStatusView::fresh(now),
                cached_at: now,
                status: status@,
                ttl: now,
            }),
    {
        StatusResponse { api: ApiStatus::new(now), cached_at: now, status, ttl: now }
    }
}

impl CacheValue for StatusResponse {
    open spec fn marked(v: StatusResponseView, now: i64) -> StatusResponseView {
        StatusResponseView {
            api: ApiStatusView::marked(v.api, now),
            cached_at: now,
            ttl: (now + 300) as i64,
            ..v
        }
    }

    fn mark_cached(&mut self, now: i64) {
        self.api.mark_cached(now);
        self.ttl = now + 300;
        self.cached_at = now;
    }
}

/// The `/protocols` and `/protocols/bgp` response.
pub struct ProtocolsResponse {
    pub api: ApiStatus,
    pub cached_at: i64,
    pub protocols: ProtocolsMap,
}

pub struct ProtocolsResponseView {
    pub api: ApiStatusView,
    pub cached_at: i64,
    pub protocols: Seq<(Seq<char>, ProtocolView)>,
}

impl View for ProtocolsResponse {
    type V = ProtocolsResponseView;

    open spec fn view(&self) -> ProtocolsResponseView {
        ProtocolsResponseView {
            api: self.api@,
            cached_at: self.cached_at,
            protocols: protocols_view(self.protocols@),
        }
    }
}

impl ProtocolsResponse {
    pub fn new(protocols: ProtocolsMap, now: i64) -> (r: Self)
        ensures
            r@ == (ProtocolsResponseView {
                api: ApiStatusView::fresh(now),
                cached_at: now,
                protocols: protocols_view(protocols@),
            }),
    {
        ProtocolsResponse { api: ApiStatus::new(now), cached_at: now, protocols }
    }
}

impl CacheValue for ProtocolsResponse {
    open spec fn marked(v: ProtocolsResponseView, now: i64) -> ProtocolsResponseView {
        ProtocolsResponseView { api: ApiStatusView::marked(v.api, now), cached_at: now, ..v }
    }

    fn mark_cached(&mut self, now: i64) {
        self.api.mark_cached(now);
        self.cached_at = now;
    }
}

/// The routes responses.
pub struct RoutesResponse {
    pub api: ApiStatus,
    pub cached_at: i64,
    pub routes: Vec<Route>,
}

pub struct RoutesResponseView {
    pub api: ApiStatusView,
    pub cached_at: i64,
    pub routes: Seq<RouteView>,
}

impl View for RoutesResponse {
    type V = RoutesResponseView;

    open spec fn view(&self) -> RoutesResponseView {
        RoutesResponseView {
            api: self.api@,
            cached_at: self.cached_at,
            routes: routes_view(self.routes@),
        }
    }
}

impl RoutesResponse {
    pub fn new(routes: Vec<Route>, now: i64) -> (r: Self)
        ensures
            r@ == (RoutesResponseView {
                api: ApiStatusView::fresh(now),
                cached_at: now,
                routes: routes_view(routes@),
            }),
    {
        RoutesResponse { api: ApiStatus::new(now), cached_at: now, routes }
    }
}

impl CacheValue for RoutesResponse {
    open spec fn marked(v: RoutesResponseView, now: i64) -> RoutesResponseView {
        RoutesResponseView { api: ApiStatusView::marked(v.api, now), cached_at: now, ..v }
    }

    fn mark_cached(&mut self, now: i64) {
        self.api.mark_cached(now);
        self.cached_at = now;
    }
}

/// The `/health` response: 200 material when the daemon answered, 503
/// material when it did not.
pub struct HealthResponse {
    pub status: String,
    pub version: String,
    pub bird_socket: String,
    pub bird_status: Option<BirdStatus>,
    pub error: Option<String>,
    pub bird_error: Option<String>,
}

impl HealthResponse {
    /// Build the health response from the daemon's answer: `ok` with the
    /// status when it answered, `error` with the failure otherwise.
    pub fn from_daemon(version: String, bird_socket: String, result: Result<BirdStatus, String>) -> (r:
        HealthResponse)
        ensures
            r.version@ == version@,
            r.bird_socket@ == bird_socket@,
            match result {
                Ok(status) => {
                    &&& r.status@ == "ok"@
                    &&& r.bird_status matches Some(st) && st@ == status@
                    &&& r.error is None
                    &&& r.bird_error is None
                },
                Err(e) => {
                    &&& r.status@ == "error"@
                    &&& r.bird_status is None
                    &&& r.error matches Some(m) && m@ == "Could not connect to bird daemon"@
                    &&& r.bird_error matches Some(b) && b@ == e@
                },
            },
    {
        match result {
            Ok(status) => HealthResponse {
                status: "ok".to_owned(),
                version,
                bird_socket,
                bird_status: Some(status),
                error: None,
                bird_error: None,
            },
            Err(e) => HealthResponse {
                status: "error".to_owned(),
                version,
                bird_socket,
                bird_status: None,
                error: Some("Could not connect to bird daemon".to_owned()),
                bird_error: Some(e),
            },
        }
    }
}

/// The error a failed endpoint reports: an HTTP status code and a message.
pub struct Error {
    pub code: u16,
    pub message: String,
}

impl Error {
    /// An internal server error with the given message.
    pub fn internal(message: String) -> (r: Self)
        ensures
            r.code == 500,
            r.message@ == message@,
    {
        Error { code: 500, message }
    }
}

} // verus!
