//! A proxy between browser clients and an Unleash feature-flag API server.
//!
//! The library holds the proxy's logic: reading an Unleash context from the
//! query of a request, aggregating the metrics that clients post, the routing
//! of requests, and the toggles document it answers with.
pub mod text;
pub mod properties;
pub mod strmap;
pub mod metrics;
pub mod url_query;
pub mod context;
pub mod toggles;
pub mod routes;

pub use properties::extract_key;
