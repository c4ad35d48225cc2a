//! The request-processing core of a backend service: correlation ids and
//! request tracing, bearer-token authentication with signed access and
//! refresh claims, an in-memory structured log with span context, and a
//! bounded pool of reusable environments.
pub mod text;
pub mod ids;
pub mod api_error;
pub mod config;
pub mod secret;
pub mod rights;
pub mod timestamps;
pub mod pool;
pub mod logs;
pub mod b64;
pub mod claims;
pub mod codec;
pub mod auth;
pub mod trace;
pub mod ports;
pub mod source;
pub mod json;
