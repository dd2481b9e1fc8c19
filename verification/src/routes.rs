//! Which handler answers a request, and how.
use vstd::prelude::*;
use crate::text::text_eq;

verus! {

/// The headers that a browser may send on a cross-origin request.
pub const ALLOWED_HEADERS: &'static str = "authorization,content-type,if-none-match";

/// The path of the toggles document.
pub const TOGGLES_PATH: &'static str = "/";

/// The path that clients post their metrics to.
pub const METRICS_PATH: &'static str = "/client/metrics";

/// The method of a request, as far as routing tells them apart.
pub enum Method {
    Get,
    Post,
    Options,
    Other,
}

/// What answers a request.
pub enum Route {
    /// The toggles document, evaluated for the query's context.
    Toggles,
    /// The aggregation of a posted metrics report.
    Metrics,
    /// An empty answer to a cross-origin preflight request.
    Preflight,
    /// An empty answer that nothing is here.
    NotFound,
}

/// The route of a request with method `method` and path `path`.
pub open spec fn route_of(method: Method, path: Seq<char>) -> Route {
    if path == TOGGLES_PATH@ {
        match method {
            Method::Get => Route::Toggles,
            Method::Options => Route::Preflight,
            _ => Route::NotFound,
        }
    } else if path == METRICS_PATH@ {
        match method {
            Method::Post => Route::Metrics,
            Method::Options => Route::Preflight,
            _ => Route::NotFound,
        }
    } else {
        Route::NotFound
    }
}

/// The route of a request with method `method` and path `path`.
pub fn route(method: Method, path: &str) -> (r: Route)
    ensures
        r == route_of(method, path@),
{
    if text_eq(path, TOGGLES_PATH) {
        match method {
            Method::Get => Route::Toggles,
            Method::Options => Route::Preflight,
            _ => Route::NotFound,
        }
    } else if text_eq(path, METRICS_PATH) {
        match method {
            Method::Post => Route::Metrics,
            Method::Options => Route::Preflight,
            _ => Route::NotFound,
        }
    } else {
        Route::NotFound
    }
}

impl Route {
    /// The HTTP status of the answer: 404 where nothing is found, 200 else.
    pub fn status(&self) -> (r: u16)
        ensures
            r == (if *self is NotFound { 404u16 } else { 200u16 }),
    {
        match self {
            Route::NotFound => 404,
            _ => 200,
        }
    }

    /// Whether the answer names [`ALLOWED_HEADERS`]; every answer but "not
    /// found" does. Every answer allows any origin.
    pub fn allows_headers(&self) -> (r: bool)
        ensures
            r == !(*self is NotFound),
    {
        match self {
            Route::NotFound => false,
            _ => true,
        }
    }

    /// Whether the answer carries a JSON document; only the toggles do.
    pub fn is_json(&self) -> (r: bool)
        ensures
            r == (*self is Toggles),
    {
        match self {
            Route::Toggles => true,
            _ => false,
        }
    }
}

/// A request for a path other than the two that the proxy serves is not
/// found, whatever its method.
pub proof fn lemma_other_paths_not_found(method: Method, path: Seq<char>)
    requires
        path != TOGGLES_PATH@,
        path != METRICS_PATH@,
    ensures
        route_of(method, path) is NotFound,
{
}

/// Both paths that the proxy serves answer a cross-origin preflight request.
pub proof fn lemma_preflight_served(path: Seq<char>)
    requires
        path == TOGGLES_PATH@ || path == METRICS_PATH@,
    ensures
        route_of(Method::Options, path) is Preflight,
{
}

/// Each handler answers exactly one kind of request: the toggles a GET of
/// `/`, the metrics a POST to `/client/metrics`, the preflight an OPTIONS of
/// either; any other method is not found on any path.
pub proof fn lemma_route_handlers(method: Method, path: Seq<char>)
    ensures
        route_of(method, path) is Toggles <==> (method is Get && path == TOGGLES_PATH@),
        route_of(method, path) is Metrics <==> (method is Post && path == METRICS_PATH@),
        route_of(method, path) is Preflight <==> (method is Options && (path == TOGGLES_PATH@
            || path == METRICS_PATH@)),
        method is Other ==> route_of(method, path) is NotFound,
{
    reveal_strlit("/");
    reveal_strlit("/client/metrics");
    assert(TOGGLES_PATH@.len() != METRICS_PATH@.len());
}

} // verus!
