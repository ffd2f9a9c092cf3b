//! Providers as the engine sees them: errors, health, breakers, pacing, slots and lifecycle.

pub mod abuse_sensor;
pub mod account_rotator;
pub mod capability_drift;
pub mod circuit_breaker;
pub mod contract;
pub mod host;
pub mod http;
pub mod idempotency_tracker;
pub mod lifecycle;
pub mod local_dir;
pub mod op_map;
pub mod pool;
pub mod registry;
pub mod rate_limit;
pub mod slotpool;
pub mod window;

use vstd::prelude::*;

use crate::text::chars_of;
use crate::text::parse_u64;
use crate::text::parsed_u64;
use crate::text::trim_chars;
use crate::text::trimmed;

verus! {

/// Why a call to a provider failed.
#[derive(Clone, PartialEq, Eq, Debug)]
pub enum PluginError {
    NotFound(String),
    NotSupported(&'static str),
    AuthFailure,
    Io(String),
    Unavailable(String),
    Plugin(String),
    IdempotencyViolation,
    /// The backend asked for a pause of `retry_after_ms` milliseconds.
    RateLimited { retry_after_ms: u128, scope: RateLimitScope },
}

/// What a rate limit covers.
#[derive(Clone, Copy, PartialEq, Eq, Structural, Debug)]
pub enum RateLimitScope {
    Global,
    Bucket,
    Unknown,
}

impl RateLimitScope {
    /// The name of the scope.
    pub fn text(&self) -> (r: &'static str)
        ensures
            r@ == (match *self {
                RateLimitScope::Global => "global"@,
                RateLimitScope::Bucket => "bucket"@,
                RateLimitScope::Unknown => "unknown"@,
            }),
    {
        match self {
            RateLimitScope::Global => "global",
            RateLimitScope::Bucket => "bucket",
            RateLimitScope::Unknown => "unknown",
        }
    }
}

/// Whole seconds in milliseconds, at least one second.
pub open spec fn pause_ms(secs: u64) -> u128 {
    if secs == 0 {
        1000
    } else {
        (secs * 1000) as u128
    }
}

/// Whole seconds in milliseconds, at least one second.
pub fn pause(secs: u64) -> (r: u128)
    ensures
        r == pause_ms(secs),
{
    if secs == 0 {
        1000
    } else {
        secs as u128 * 1000
    }
}

impl PluginError {
    /// A rate limit of a number of whole seconds, at least one.
    pub fn rate_limited_secs(retry_after_secs: u64, scope: RateLimitScope) -> (r: Self)
        ensures
            r == (PluginError::RateLimited { retry_after_ms: pause_ms(retry_after_secs), scope }),
    {
        PluginError::RateLimited { retry_after_ms: pause(retry_after_secs), scope }
    }

    /// Reads a `Retry-After` header that counts seconds; the form with a date is not read.
    pub fn parse_retry_after(value: &str) -> (r: Option<u128>)
        ensures
            r == (match parsed_u64(trimmed(value@)) {
                Some(s) => Some(pause_ms(s)),
                None => None,
            }),
    {
        match parse_u64(&trim_chars(&chars_of(value))) {
            Some(s) => Some(pause(s)),
            None => None,
        }
    }
}

/// A pause is the seconds in milliseconds, and never shorter than a second.
pub proof fn lemma_pause(secs: u64)
    ensures
        pause_ms(secs) >= 1000,
        secs > 0 ==> pause_ms(secs) == secs * 1000,
{
}

} // verus!
