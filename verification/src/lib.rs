//! Sliding-window rate limiting with a three-tier policy model.
//!
//! The crate models the admission-control algorithm that a request-
//! interception layer runs against a shared counter store: a per-key
//! sliding window of admission timestamps, trimmed and counted as one
//! atomic step, together with the global / per-client / per-route
//! policy that decides which counters apply to a request.

pub mod config;
pub mod error;
pub mod key;
pub mod limiter;
pub mod store;
pub mod table;
pub mod window;
