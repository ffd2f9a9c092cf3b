//! What the engine reads from HTTP responses.

pub mod client;
pub mod error;
pub mod ratelimit;
