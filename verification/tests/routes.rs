use unleash_proxy::routes::{route, Method, Route, ALLOWED_HEADERS};

#[test]
fn routes_of_requests() {
    assert!(matches!(route(Method::Get, "/"), Route::Toggles));
    assert!(matches!(route(Method::Options, "/"), Route::Preflight));
    assert!(matches!(route(Method::Post, "/"), Route::NotFound));
    assert!(matches!(route(Method::Post, "/client/metrics"), Route::Metrics));
    assert!(matches!(route(Method::Options, "/client/metrics"), Route::Preflight));
    assert!(matches!(route(Method::Get, "/client/metrics"), Route::NotFound));
    assert!(matches!(route(Method::Get, "/client/metrics/"), Route::NotFound));
    assert!(matches!(route(Method::Other, "/"), Route::NotFound));
    assert!(matches!(route(Method::Get, ""), Route::NotFound));
}

#[test]
fn answers_of_routes() {
    assert_eq!(Route::Toggles.status(), 200);
    assert_eq!(Route::NotFound.status(), 404);
    assert!(Route::Preflight.allows_headers());
    assert!(!Route::NotFound.allows_headers());
    assert!(Route::Toggles.is_json());
    assert!(!Route::Metrics.is_json());
    assert_eq!(ALLOWED_HEADERS, "authorization,content-type,if-none-match");
}
