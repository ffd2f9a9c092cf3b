//! What the HTTP client of the plugins decides: which responses are successes, and how a span is
//! asked for.

use vstd::prelude::*;

use super::error::is_status_error;
use super::error::status_to_plugin_error;
use super::ratelimit::LimitHeaders;
use super::ratelimit::RateLimitDetector;
use super::ratelimit::RateLimitInfo;
use crate::plugin_host::PluginError;
use crate::text::dec_digits;
use crate::text::push_decimal;
use crate::text::push_text;
use crate::text::string_of;
use crate::types::Range;

verus! {

/// How the client behaves. Times are in milliseconds.
#[derive(Clone, PartialEq, Eq, Debug)]
pub struct HttpClientConfig {
    pub user_agent: String,
    pub connect_timeout_ms: u64,
    pub request_timeout_ms: u64,
    pub pool_idle_timeout_ms: u64,
}

impl Default for HttpClientConfig {
    fn default() -> (r: Self)
        ensures
            r.user_agent@ == "openstorage/0.1"@,
            r.connect_timeout_ms == 15_000,
            r.request_timeout_ms == 180_000,
            r.pool_idle_timeout_ms == 60_000,
    {
        HttpClientConfig {
            user_agent: "openstorage/0.1".to_owned(),
            connect_timeout_ms: 15_000,
            request_timeout_ms: 180_000,
            pool_idle_timeout_ms: 60_000,
        }
    }
}

/// Whether a status is that of a success.
pub open spec fn is_success(status: u16) -> bool {
    200 <= status < 300
}

/// What a response comes to, given the rate limit that was detected in it.
pub fn response_outcome(status: u16, body: &[u8], limit: Option<RateLimitInfo>) -> (r: Result<
    (),
    PluginError,
>)
    ensures
        if is_success(status) {
            r is Ok
        } else {
            r matches Err(e) && is_status_error(status, body@, limit, e)
        },
{
    if 200 <= status && status < 300 {
        Ok(())
    } else {
        Err(status_to_plugin_error(status, body, limit))
    }
}

/// What a response comes to. The detector is asked only where the response is no success.
pub fn judge<D: RateLimitDetector>(
    detector: &D,
    status: u16,
    headers: &LimitHeaders,
    body: &[u8],
) -> (r: Result<(), PluginError>)
    ensures
        if is_success(status) {
            r is Ok
        } else {
            exists|limit: Option<RateLimitInfo>|
                call_ensures(D::detect, (detector, status, headers, body), limit)
                    && r is Err && #[trigger] is_status_error(status, body@, limit, r->Err_0)
        },
{
    if 200 <= status && status < 300 {
        return Ok(());
    }
    let limit = detector.detect(status, headers, body);
    response_outcome(status, body, limit)
}

/// The text of a header that asks for the bytes from `start` up to, but without, `end`.
pub open spec fn range_text(r: Range) -> Seq<char> {
    "bytes="@ + dec_digits(r.start as nat) + "-"@ + dec_digits(
        (if r.end == 0 {
            0
        } else {
            r.end - 1
        }) as nat,
    )
}

/// The text of a header that asks for a span.
pub fn range_header(range: Range) -> (r: String)
    ensures
        r@ == range_text(range),
{
    let mut t: Vec<char> = Vec::new();
    push_text(&mut t, "bytes=");
    push_decimal(&mut t, range.start);
    push_text(&mut t, "-");
    push_decimal(&mut t, range.end.saturating_sub(1));
    assert(t@ =~= range_text(range));
    string_of(&t)
}

/// Exactly the statuses of the two hundreds are successes.
pub proof fn lemma_successes(status: u16)
    ensures
        is_success(status) <==> status / 100 == 2,
{
}

/// A span from one position up to another, the latter not in it, is asked for by its first and its
/// last position.
pub proof fn lemma_range_asked_for(first: u64, last: u64)
    requires
        first <= last < u64::MAX,
    ensures
        range_text(Range { start: first, end: (last + 1) as u64 }) == "bytes="@ + dec_digits(
            first as nat,
        ) + "-"@ + dec_digits(last as nat),
{
}

} // verus!
