//! Error taxonomy: configuration faults, store faults, and the
//! rate-limit rejection itself.

use vstd::prelude::*;
use vstd::string::StringExecFns;

verus! {

/// A policy source that cannot be turned into a usable configuration.
/// Fatal at startup: there is no safe default policy to fall back to.
#[derive(Clone, Copy, Debug, PartialEq, Eq, Structural)]
pub enum ConfigError {
    /// A rule carries a non-positive `max_requests` or `time_window`.
    InvalidRule,
    /// A route identifier does not parse as a URI.
    InvalidRoute,
}

/// An infrastructure fault while consulting the shared store. Distinct
/// from both verdicts: the host decides its own fail-open/fail-closed
/// policy rather than having the core pick one silently.
#[derive(Clone, Copy, Debug, PartialEq, Eq, Structural)]
pub enum StoreError {
    /// The store could not be reached or the script invocation failed.
    Unavailable,
    /// The script returned something other than an admit/reject code.
    MalformedResponse,
}

/// The normal, expected outcome of hitting a configured limit; rendered
/// by a host as HTTP 429, never as a system fault.
#[derive(Clone, Copy, Debug, PartialEq, Eq, Structural)]
pub struct RateLimitError;

impl RateLimitError {
    /// The HTTP status code a host should answer with.
    pub fn status(&self) -> (code: u16)
        ensures
            code == 429,
    {
        429
    }

    /// A human-readable description of the rejection.
    pub fn message(&self) -> (text: String)
        ensures
            text@ == "too many requests"@,
    {
        String::from_str("too many requests")
    }
}

} // verus!
