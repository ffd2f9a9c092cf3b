//! Recognising rate limits in HTTP responses.

use vstd::prelude::*;

use crate::plugin_host::pause;
use crate::plugin_host::pause_ms;
use crate::plugin_host::RateLimitScope;
use crate::text::chars_of;
use crate::text::parse_u64;
use crate::text::parsed_u64;
use crate::text::trim_chars;
use crate::text::trimmed;

verus! {

/// A rate limit: how long to wait, and what it covers.
#[derive(Clone, Copy, PartialEq, Eq, Structural, Debug)]
pub struct RateLimitInfo {
    pub retry_after_ms: u128,
    pub scope: RateLimitScope,
}

/// The headers that speak of rate limits: the text of `Retry-After`, and the seconds of
/// `X-RateLimit-Reset-After`, rounded up, where it is a number.
#[derive(Clone, PartialEq, Eq, Debug)]
pub struct LimitHeaders {
    pub retry_after: Option<String>,
    pub reset_after_secs: Option<u64>,
}

/// Tells rate limits from other failures. Backends that have their own way to say it bring their
/// own detector.
pub trait RateLimitDetector {
    /// The rate limit that a response stands for, where it stands for one.
    fn detect(&self, status: u16, headers: &LimitHeaders, body: &[u8]) -> (r: Option<RateLimitInfo>);
}

/// The seconds of a `Retry-After` header, where it counts seconds.
pub open spec fn retry_after_secs(header: Option<String>) -> Option<u64> {
    match header {
        Some(s) => parsed_u64(trimmed(s@)),
        None => None,
    }
}

/// What headers alone say: on 429 and 503 the pause that they ask for, or one second.
pub open spec fn header_limit(status: u16, headers: LimitHeaders) -> Option<RateLimitInfo> {
    if status != 429 && status != 503 {
        None
    } else {
        let secs = match (retry_after_secs(headers.retry_after), headers.reset_after_secs) {
            (Some(s), _) => s,
            (None, Some(s)) => s,
            (None, None) => 1,
        };
        Some(RateLimitInfo { retry_after_ms: pause_ms(secs), scope: RateLimitScope::Global })
    }
}

fn from_headers(status: u16, headers: &LimitHeaders) -> (r: Option<RateLimitInfo>)
    ensures
        r == header_limit(status, *headers),
{
    if status != 429 && status != 503 {
        return None;
    }
    let asked: Option<u64> = match &headers.retry_after {
        Some(s) => parse_u64(&trim_chars(&chars_of(s.as_str()))),
        None => None,
    };
    let secs: u64 = match asked {
        Some(s) => s,
        None => match headers.reset_after_secs {
            Some(s) => s,
            None => 1,
        },
    };
    Some(RateLimitInfo { retry_after_ms: pause(secs), scope: RateLimitScope::Global })
}

/// Reads the headers.
#[derive(Clone, Copy, PartialEq, Eq, Structural, Debug)]
pub struct DefaultDetector;

impl RateLimitDetector for DefaultDetector {
    fn detect(&self, status: u16, headers: &LimitHeaders, body: &[u8]) -> (r: Option<RateLimitInfo>)
        ensures
            r == header_limit(status, *headers),
    {
        from_headers(status, headers)
    }
}

/// Names whether a text is JSON.
pub uninterp spec fn json_valid_at(body: Seq<u8>) -> bool;

/// Names the boolean member of a JSON object; `None` where the text is no JSON object or has no
/// boolean of that name.
pub uninterp spec fn json_bool_at(body: Seq<u8>, key: Seq<char>) -> Option<bool>;

/// Names the signed member of a JSON object; `None` where the text is no JSON object or has no
/// integer of that name and type.
pub uninterp spec fn json_i64_at(body: Seq<u8>, key: Seq<char>) -> Option<i64>;

/// Names the unsigned member of an object within a JSON object; `None` where the text is no JSON
/// object, has no object of the outer name, or that has no integer of the inner name and type.
pub uninterp spec fn json_u64_in(body: Seq<u8>, outer: Seq<char>, inner: Seq<char>) -> Option<u64>;

/// `serde_json::from_slice` into a `Value`. Whether it succeeds is a function of the bytes alone.
#[verifier::external_body]
fn json_valid(body: &[u8]) -> (r: bool)
    ensures
        r == json_valid_at(body@),
{
    serde_json::from_slice::<serde_json::Value>(body).is_ok()
}

/// `serde_json::from_slice` into a `Value`, `get` and `as_bool`. What they read is a function of
/// the bytes and the key alone.
#[verifier::external_body]
fn json_bool(body: &[u8], key: &str) -> (r: Option<bool>)
    ensures
        r == json_bool_at(body@, key@),
{
    serde_json::from_slice::<serde_json::Value>(body).ok()?.get(key)?.as_bool()
}

/// `serde_json::from_slice` into a `Value`, `get` and `as_i64`. What they read is a function of
/// the bytes and the key alone.
#[verifier::external_body]
fn json_i64(body: &[u8], key: &str) -> (r: Option<i64>)
    ensures
        r == json_i64_at(body@, key@),
{
    serde_json::from_slice::<serde_json::Value>(body).ok()?.get(key)?.as_i64()
}

/// `serde_json::from_slice` into a `Value`, `get` twice and `as_u64`. What they read is a function
/// of the bytes and the keys alone.
#[verifier::external_body]
fn json_u64(body: &[u8], outer: &str, inner: &str) -> (r: Option<u64>)
    ensures
        r == json_u64_in(body@, outer@, inner@),
{
    serde_json::from_slice::<serde_json::Value>(body).ok()?.get(outer)?.get(inner)?.as_u64()
}

/// The parts of a Telegram reply that matter: `ok`, `error_code` and `parameters.retry_after`,
/// each where it is there with the right type.
#[derive(Clone, Copy, PartialEq, Eq, Structural, Debug)]
pub struct TelegramReply {
    pub ok: Option<bool>,
    pub error_code: Option<i64>,
    pub retry_after: Option<u64>,
}

/// What a body says as a Telegram reply.
pub open spec fn telegram_reply_of(body: Seq<u8>) -> TelegramReply {
    TelegramReply {
        ok: json_bool_at(body, "ok"@),
        error_code: json_i64_at(body, "error_code"@),
        retry_after: json_u64_in(body, "parameters"@, "retry_after"@),
    }
}

/// Reads a body as a Telegram reply.
fn telegram_reply(body: &[u8]) -> (r: TelegramReply)
    ensures
        r == telegram_reply_of(body@),
{
    TelegramReply {
        ok: json_bool(body, "ok"),
        error_code: json_i64(body, "error_code"),
        retry_after: json_u64(body, "parameters", "retry_after"),
    }
}

/// The rate limit of a Telegram reply, where it reports one in its body.
pub open spec fn telegram_limit(t: TelegramReply) -> Option<RateLimitInfo> {
    if t.ok == Some(false) && t.error_code == Some(429i64) {
        let secs = match t.retry_after {
            Some(s) => s,
            None => 1,
        };
        Some(RateLimitInfo { retry_after_ms: pause_ms(secs), scope: RateLimitScope::Global })
    } else {
        None
    }
}

/// Reads the body of a Telegram response, whatever its status, before the headers.
#[derive(Clone, Copy, PartialEq, Eq, Structural, Debug)]
pub struct TelegramDetector;

impl TelegramDetector {
    /// The rate limit of a response whose body has been read.
    pub fn decide(&self, status: u16, headers: &LimitHeaders, reply: TelegramReply) -> (r: Option<
        RateLimitInfo,
    >)
        ensures
            r == (if telegram_limit(reply) is Some {
                telegram_limit(reply)
            } else {
                header_limit(status, *headers)
            }),
    {
        let refused: bool = match reply.ok {
            Some(b) => !b,
            None => false,
        };
        let limited: bool = match reply.error_code {
            Some(c) => c == 429,
            None => false,
        };
        if refused && limited {
            let secs: u64 = match reply.retry_after {
                Some(s) => s,
                None => 1,
            };
            return Some(
                RateLimitInfo { retry_after_ms: pause(secs), scope: RateLimitScope::Global },
            );
        }
        from_headers(status, headers)
    }
}

impl RateLimitDetector for TelegramDetector {
    fn detect(&self, status: u16, headers: &LimitHeaders, body: &[u8]) -> (r: Option<RateLimitInfo>)
        ensures
            r == (if telegram_limit(telegram_reply_of(body@)) is Some {
                telegram_limit(telegram_reply_of(body@))
            } else {
                header_limit(status, *headers)
            }),
    {
        let reply = telegram_reply(body);
        self.decide(status, headers, reply)
    }
}

/// The parts of a Discord reply that matter: the pause in milliseconds, and whether the limit is
/// global, each where it is there with the right type.
#[derive(Clone, Copy, PartialEq, Eq, Structural, Debug)]
pub struct DiscordReply {
    pub retry_after_ms: Option<u64>,
    pub global: Option<bool>,
}

/// The rate limit of a Discord reply: the pause that it asks for, or one second, and at least a
/// tenth of a second. It covers the bucket unless the reply says that it is global.
pub open spec fn discord_limit(d: DiscordReply) -> RateLimitInfo {
    let ms = match d.retry_after_ms {
        Some(ms) => ms,
        None => 1000,
    };
    RateLimitInfo {
        retry_after_ms: if ms < 100 {
            100u128
        } else {
            ms as u128
        },
        scope: if d.global == Some(true) {
            RateLimitScope::Global
        } else {
            RateLimitScope::Bucket
        },
    }
}

/// What a body says as a Discord reply, with its pause in milliseconds; `None` where it is not
/// JSON.
pub open spec fn discord_reply_of(body: Seq<u8>, retry_ms: Option<u64>) -> Option<DiscordReply> {
    if json_valid_at(body) {
        Some(DiscordReply { retry_after_ms: retry_ms, global: json_bool_at(body, "global"@) })
    } else {
        None
    }
}

/// Reads the body of a Discord response with status 429 before the headers.
#[derive(Clone, Copy, PartialEq, Eq, Structural, Debug)]
pub struct DiscordDetector;

impl DiscordDetector {
    /// The rate limit of a response whose body has been read; `None` where it is not JSON.
    pub fn decide(&self, status: u16, headers: &LimitHeaders, reply: Option<DiscordReply>) -> (r: Option<
        RateLimitInfo,
    >)
        ensures
            r == (match reply {
                Some(d) if status == 429 => Some(discord_limit(d)),
                _ => header_limit(status, *headers),
            }),
    {
        if status == 429 {
            if let Some(d) = reply {
                let asked: u64 = match d.retry_after_ms {
                    Some(ms) => ms,
                    None => 1000,
                };
                let ms: u128 = if asked < 100 {
                    100
                } else {
                    asked as u128
                };
                let global: bool = match d.global {
                    Some(g) => g,
                    None => false,
                };
                let scope = if global {
                    RateLimitScope::Global
                } else {
                    RateLimitScope::Bucket
                };
                return Some(RateLimitInfo { retry_after_ms: ms, scope });
            }
        }
        from_headers(status, headers)
    }

    /// The rate limit that a response stands for, where it stands for one. `retry_ms` is the pause
    /// in the body, which counts fractions of a second, in milliseconds, where it has one.
    pub fn detect_with(
        &self,
        status: u16,
        headers: &LimitHeaders,
        body: &[u8],
        retry_ms: Option<u64>,
    ) -> (r: Option<RateLimitInfo>)
        ensures
            r == (match discord_reply_of(body@, retry_ms) {
                Some(d) if status == 429 => Some(discord_limit(d)),
                _ => header_limit(status, *headers),
            }),
    {
        let reply: Option<DiscordReply> = if json_valid(body) {
            Some(DiscordReply { retry_after_ms: retry_ms, global: json_bool(body, "global") })
        } else {
            None
        };
        self.decide(status, headers, reply)
    }
}

/// Only "too many requests" and "unavailable" are rate limits by their status. The pause is the
/// seconds of `Retry-After`, else those of the reset header, else one second; never less than one
/// second, and it covers everything.
pub proof fn lemma_header_limits(status: u16, headers: LimitHeaders)
    ensures
        header_limit(status, headers) is Some <==> status == 429 || status == 503,
        header_limit(status, headers) matches Some(l) ==> l.retry_after_ms >= 1000 && l.scope
            == RateLimitScope::Global,
        header_limit(status, headers) matches Some(l) ==> (headers.retry_after matches Some(t) ==> (
        parsed_u64(trimmed(t@)) matches Some(s) ==> s > 0 ==> l.retry_after_ms == s * 1000)),
        header_limit(status, headers) matches Some(l) ==> (headers.retry_after is None ==> (
        headers.reset_after_secs matches Some(s) ==> s > 0 ==> l.retry_after_ms == s * 1000)),
        header_limit(status, headers) matches Some(l) ==> (headers.retry_after is None
            && headers.reset_after_secs is None ==> l.retry_after_ms == 1000),
{
}

/// A Telegram reply is a rate limit exactly where it says that it failed with the code of too many
/// requests; the pause is the seconds that it names, else one.
pub proof fn lemma_telegram_limits(t: TelegramReply)
    ensures
        telegram_limit(t) is Some <==> t.ok == Some(false) && t.error_code == Some(429i64),
        telegram_limit(t) matches Some(l) ==> l.retry_after_ms >= 1000 && l.scope
            == RateLimitScope::Global,
        telegram_limit(t) matches Some(l) ==> (t.retry_after matches Some(s) ==> s > 0
            ==> l.retry_after_ms == s * 1000),
        telegram_limit(t) matches Some(l) ==> (t.retry_after is None ==> l.retry_after_ms == 1000),
{
}

/// A Discord reply asks for the pause that it names, and for no less than a tenth of a second; it
/// is global exactly where it says so.
pub proof fn lemma_discord_limits(d: DiscordReply)
    ensures
        discord_limit(d).retry_after_ms >= 100,
        d.retry_after_ms matches Some(ms) ==> ms >= 100 ==> discord_limit(d).retry_after_ms == ms,
        d.retry_after_ms matches Some(ms) ==> ms < 100 ==> discord_limit(d).retry_after_ms == 100,
        d.retry_after_ms is None ==> discord_limit(d).retry_after_ms == 1000,
        discord_limit(d).scope == RateLimitScope::Global <==> d.global == Some(true),
        discord_limit(d).scope == RateLimitScope::Bucket <==> d.global != Some(true),
{
}

} // verus!
