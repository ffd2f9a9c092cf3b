//! From HTTP status to provider error.

use vstd::prelude::*;
use vstd::utf8::*;

use super::ratelimit::RateLimitInfo;
use crate::plugin_host::PluginError;
use crate::text::dec_digits;
use crate::text::push_decimal;
use crate::text::push_text;
use crate::text::string_of;

verus! {

/// `std::str::from_utf8`: the text of a byte string, where it is valid UTF-8.
#[verifier::external_body]
fn utf8_text(body: &[u8]) -> (r: Option<String>)
    ensures
        r is Some == valid_utf8(body@),
        r is Some ==> r.unwrap()@ == decode_utf8(body@),
{
    match std::str::from_utf8(body) {
        Ok(s) => Some(s.to_string()),
        Err(_) => None,
    }
}

/// The text of a response body.
pub open spec fn body_text(body: Seq<u8>) -> Seq<char> {
    if valid_utf8(body) {
        decode_utf8(body)
    } else {
        "<binary>"@
    }
}

fn describe(what: &str, status: u16, body: &[u8]) -> (r: String)
    ensures
        r@ == what@ + dec_digits(status as nat) + ": "@ + body_text(body@),
{
    let mut out: Vec<char> = Vec::new();
    push_text(&mut out, what);
    push_decimal(&mut out, status as u64);
    push_text(&mut out, ": ");
    match utf8_text(body) {
        Some(s) => push_text(&mut out, s.as_str()),
        None => push_text(&mut out, "<binary>"),
    }
    assert(out@ =~= what@ + dec_digits(status as nat) + ": "@ + body_text(body@));
    string_of(&out)
}

/// Whether `e` is the error of a response: the rate limit, where one was detected, and otherwise
/// what the status says.
pub open spec fn is_status_error(
    status: u16,
    body: Seq<u8>,
    rate_limit: Option<RateLimitInfo>,
    e: PluginError,
) -> bool {
    match rate_limit {
        Some(rl) => e == (PluginError::RateLimited {
            retry_after_ms: rl.retry_after_ms,
            scope: rl.scope,
        }),
        None => if status == 404 {
            e matches PluginError::Plugin(m) && m@ == "not found"@
        } else if status == 401 || status == 403 {
            e == PluginError::AuthFailure
        } else if 400 <= status <= 499 {
            e matches PluginError::Plugin(m) && m@ == "client error "@ + dec_digits(status as nat)
                + ": "@ + body_text(body)
        } else if 500 <= status <= 599 {
            e matches PluginError::Unavailable(m) && m@ == "server error "@ + dec_digits(
                status as nat,
            ) + ": "@ + body_text(body)
        } else {
            e matches PluginError::Plugin(m) && m@ == "unexpected status "@ + dec_digits(
                status as nat,
            ) + ": "@ + body_text(body)
        },
    }
}

/// The error of a response that was not a success.
pub fn status_to_plugin_error(status: u16, body: &[u8], rate_limit: Option<RateLimitInfo>) -> (r: PluginError)
    ensures
        is_status_error(status, body@, rate_limit, r),
{
    if let Some(rl) = rate_limit {
        return PluginError::RateLimited { retry_after_ms: rl.retry_after_ms, scope: rl.scope };
    }
    if status == 404 {
        PluginError::Plugin("not found".to_owned())
    } else if status == 401 || status == 403 {
        PluginError::AuthFailure
    } else if 400 <= status && status <= 499 {
        PluginError::Plugin(describe("client error ", status, body))
    } else if 500 <= status && status <= 599 {
        PluginError::Unavailable(describe("server error ", status, body))
    } else {
        PluginError::Plugin(describe("unexpected status ", status, body))
    }
}

/// A rate limit wins over the status, and keeps its pause and what it covers. Without one, a
/// refused login is told from other refusals, only a fault of the server can be tried again, and
/// what is missing is not told as anything else.
pub proof fn lemma_status_told(
    status: u16,
    body: Seq<u8>,
    limit: Option<RateLimitInfo>,
    e: PluginError,
)
    requires
        is_status_error(status, body, limit, e),
    ensures
        limit is Some <==> e is RateLimited,
        limit matches Some(l) ==> e == (PluginError::RateLimited {
            retry_after_ms: l.retry_after_ms,
            scope: l.scope,
        }),
        limit is None ==> (e is AuthFailure <==> status == 401 || status == 403),
        limit is None ==> (e is Unavailable <==> status / 100 == 5),
        limit is None && status / 100 != 5 && status != 401 && status != 403 ==> e is Plugin,
{
}

} // verus!
