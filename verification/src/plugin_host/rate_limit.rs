//! Pacing: what backends declare of their limits, and what to do when a call fails. Times are
//! microseconds where they are waited for.

use vstd::prelude::*;

use super::PluginError;
use crate::types::UpdateCapability;

verus! {

/// A steady rate, in thousandths of an operation a second, and a burst.
#[derive(Clone, Copy, PartialEq, Eq, Structural, Debug)]
pub struct RateBucket {
    pub per_sec_milli: u64,
    pub burst: u32,
}

impl RateBucket {
    /// A bucket with this rate and burst.
    pub fn new(per_sec_milli: u64, burst: u32) -> (r: Self)
        ensures
            r == (RateBucket { per_sec_milli, burst }),
    {
        RateBucket { per_sec_milli, burst }
    }

    /// A bucket for backends that do not limit.
    pub fn unbounded() -> (r: Self)
        ensures
            r == (RateBucket { per_sec_milli: 10_000_000, burst: 1024 }),
    {
        RateBucket { per_sec_milli: 10_000_000, burst: 1024 }
    }
}

/// What a plugin declares of its backend's limits.
#[derive(Clone, PartialEq, Eq, Debug)]
pub struct RateLimitProfile {
    pub label: String,
    pub puts: RateBucket,
    pub gets: RateBucket,
    pub peeks: RateBucket,
    pub deletes: RateBucket,
    pub max_concurrent: u32,
    pub max_object_bytes: Option<u64>,
    pub total_quota_bytes: Option<u64>,
    pub daily_op_budget: Option<u32>,
    pub update_capability: UpdateCapability,
}

impl RateLimitProfile {
    /// The profile of a backend without limits.
    pub fn unbounded() -> (r: Self)
        ensures
            r.label@ == "unbounded"@,
            r.puts == (RateBucket { per_sec_milli: 10_000_000, burst: 1024 }),
            r.gets == r.puts && r.peeks == r.puts && r.deletes == r.puts,
            r.max_concurrent == 64,
            r.max_object_bytes is None,
            r.total_quota_bytes is None,
            r.daily_op_budget is None,
            r.update_capability == UpdateCapability::Unsupported,
    {
        RateLimitProfile {
            label: "unbounded".to_owned(),
            puts: RateBucket::unbounded(),
            gets: RateBucket::unbounded(),
            peeks: RateBucket::unbounded(),
            deletes: RateBucket::unbounded(),
            max_concurrent: 64,
            max_object_bytes: None,
            total_quota_bytes: None,
            daily_op_budget: None,
            update_capability: UpdateCapability::Unsupported,
        }
    }

    /// A cautious profile for backends of which nothing is known.
    pub fn conservative(label: &str) -> (r: Self)
        ensures
            r.label@ == label@,
            r.puts == (RateBucket { per_sec_milli: 1000, burst: 2 }),
            r.gets == (RateBucket { per_sec_milli: 2000, burst: 4 }),
            r.peeks == (RateBucket { per_sec_milli: 4000, burst: 8 }),
            r.deletes == (RateBucket { per_sec_milli: 1000, burst: 2 }),
            r.max_concurrent == 4,
            r.max_object_bytes is None,
            r.total_quota_bytes is None,
            r.daily_op_budget is None,
            r.update_capability == UpdateCapability::Unsupported,
    {
        RateLimitProfile {
            label: label.to_owned(),
            puts: RateBucket::new(1000, 2),
            gets: RateBucket::new(2000, 4),
            peeks: RateBucket::new(4000, 8),
            deletes: RateBucket::new(1000, 2),
            max_concurrent: 4,
            max_object_bytes: None,
            total_quota_bytes: None,
            daily_op_budget: None,
            update_capability: UpdateCapability::Unsupported,
        }
    }
}

/// What to do when calls fail, for all plugins alike.
#[derive(Clone, Copy, PartialEq, Eq, Structural, Debug)]
pub struct MiddlewarePolicy {
    pub max_transient_attempts: u32,
    pub min_backoff_us: u64,
    pub max_backoff_us: u64,
    pub max_rate_limit_wait_us: Option<u128>,
    pub jitter_us: u64,
}

/// Five attempts with backoffs from a quarter of a second to half a minute, and no end to the wait
/// for a rate limit.
pub open spec fn default_policy() -> MiddlewarePolicy {
    MiddlewarePolicy {
        max_transient_attempts: 5,
        min_backoff_us: 250_000,
        max_backoff_us: 30_000_000,
        max_rate_limit_wait_us: None,
        jitter_us: 50_000,
    }
}

impl Default for MiddlewarePolicy {
    fn default() -> (r: Self)
        ensures
            r == default_policy(),
    {
        MiddlewarePolicy {
            max_transient_attempts: 5,
            min_backoff_us: 250_000,
            max_backoff_us: 30_000_000,
            max_rate_limit_wait_us: None,
            jitter_us: 50_000,
        }
    }
}

/// A profile and a policy, joined.
#[derive(Clone, Copy, PartialEq, Eq, Structural, Debug)]
pub struct RateLimitConfig {
    pub puts: RateBucket,
    pub gets: RateBucket,
    pub peeks: RateBucket,
    pub deletes: RateBucket,
    pub max_concurrent: u32,
    pub policy: MiddlewarePolicy,
}

impl RateLimitConfig {
    /// Joins a profile and a policy.
    pub fn from_profile(p: &RateLimitProfile, policy: &MiddlewarePolicy) -> (r: Self)
        ensures
            r == (RateLimitConfig {
                puts: p.puts,
                gets: p.gets,
                peeks: p.peeks,
                deletes: p.deletes,
                max_concurrent: p.max_concurrent,
                policy: *policy,
            }),
    {
        RateLimitConfig {
            puts: p.puts,
            gets: p.gets,
            peeks: p.peeks,
            deletes: p.deletes,
            max_concurrent: p.max_concurrent,
            policy: *policy,
        }
    }

    /// The configuration of a backend without limits.
    pub fn unbounded() -> (r: Self)
        ensures
            r.puts == (RateBucket { per_sec_milli: 10_000_000, burst: 1024 }),
            r.gets == r.puts && r.peeks == r.puts && r.deletes == r.puts,
            r.max_concurrent == 64,
            r.policy == default_policy(),
    {
        RateLimitConfig::from_profile(&RateLimitProfile::unbounded(), &MiddlewarePolicy::default())
    }

    /// A cautious configuration.
    pub fn conservative() -> (r: Self)
        ensures
            r.puts == (RateBucket { per_sec_milli: 1000, burst: 2 }),
            r.gets == (RateBucket { per_sec_milli: 2000, burst: 4 }),
            r.peeks == (RateBucket { per_sec_milli: 4000, burst: 8 }),
            r.deletes == (RateBucket { per_sec_milli: 1000, burst: 2 }),
            r.max_concurrent == 4,
            r.policy == default_policy(),
    {
        RateLimitConfig::from_profile(
            &RateLimitProfile::conservative("test"),
            &MiddlewarePolicy::default(),
        )
    }
}

/// Counts of what happened to calls.
#[derive(Clone, Copy, PartialEq, Eq, Structural, Debug)]
pub struct RateLimitStats {
    pub waited_for_token_total_ms: u64,
    pub waited_for_rate_limit_total_ms: u64,
    pub rate_limit_hits: u64,
    pub transient_retries: u64,
    pub successful_calls: u64,
    pub gave_up: u64,
}

impl Default for RateLimitStats {
    fn default() -> (r: Self)
        ensures
            r == (RateLimitStats {
                waited_for_token_total_ms: 0,
                waited_for_rate_limit_total_ms: 0,
                rate_limit_hits: 0,
                transient_retries: 0,
                successful_calls: 0,
                gave_up: 0,
            }),
    {
        RateLimitStats {
            waited_for_token_total_ms: 0,
            waited_for_rate_limit_total_ms: 0,
            rate_limit_hits: 0,
            transient_retries: 0,
            successful_calls: 0,
            gave_up: 0,
        }
    }
}

/// `x + y`, or the largest number.
pub open spec fn plus(x: u64, y: int) -> u64 {
    if x + y > u64::MAX {
        u64::MAX
    } else {
        (x + y) as u64
    }
}

/// `x + y`, or the largest number.
pub open spec fn wide_plus(x: u128, y: u128) -> u128 {
    if x + y > u128::MAX {
        u128::MAX
    } else {
        (x + y) as u128
    }
}

/// Where a call stands between its attempts.
#[derive(Clone, Copy, PartialEq, Eq, Structural, Debug)]
pub struct RetryState {
    pub transient_attempts: u32,
    pub backoff_us: u64,
    pub rate_limit_wait_us: u128,
}

/// What to do after an attempt failed.
pub enum RetryAction {
    /// Give the error to the caller.
    Return(PluginError),
    /// Wait, and note that the backend is not to be asked for as long.
    WaitForBackend { us: u128 },
    /// Wait.
    BackOff { us: u128 },
}

/// How long a rate limit makes the caller wait: what the backend asked for and the jitter.
pub open spec fn limit_wait(retry_after_ms: u128, jitter_us: u64) -> u128 {
    if retry_after_ms * 1000 + jitter_us > u128::MAX {
        u128::MAX
    } else {
        (retry_after_ms * 1000 + jitter_us) as u128
    }
}

/// Whether waiting once more for a rate limit is more than the policy allows.
pub open spec fn waits_too_long(st: RetryState, policy: MiddlewarePolicy, wait: u128) -> bool {
    policy.max_rate_limit_wait_us matches Some(cap) && wide_plus(st.rate_limit_wait_us, wait) > cap
}

/// The next backoff.
pub open spec fn next_backoff(backoff_us: u64, policy: MiddlewarePolicy) -> u64 {
    if 2 * backoff_us > policy.max_backoff_us {
        policy.max_backoff_us
    } else {
        (2 * backoff_us) as u64
    }
}

/// The text of an error that may pass by itself.
pub open spec fn transient_text(e: PluginError) -> Option<String> {
    match e {
        PluginError::Unavailable(m) => Some(m),
        PluginError::Io(m) => Some(m),
        _ => None,
    }
}

impl RetryState {
    /// A call before its first attempt.
    pub fn new(policy: &MiddlewarePolicy) -> (r: Self)
        ensures
            r == (RetryState {
                transient_attempts: 0,
                backoff_us: policy.min_backoff_us,
                rate_limit_wait_us: 0,
            }),
    {
        RetryState {
            transient_attempts: 0,
            backoff_us: policy.min_backoff_us,
            rate_limit_wait_us: 0,
        }
    }

    /// Decides what to do after a failure. A rate limit is waited out, without end unless the
    /// policy sets one, and does not count as an attempt. A passing failure is tried again with a
    /// growing backoff, up to the policy's number of attempts. Anything else is final.
    pub fn on_error(
        &mut self,
        policy: &MiddlewarePolicy,
        err: PluginError,
        jitter_us: u64,
        stats: &mut RateLimitStats,
    ) -> (r: RetryAction)
        ensures
            match err {
                PluginError::RateLimited { retry_after_ms, scope } => {
                    let wait = limit_wait(retry_after_ms, jitter_us);
                    if waits_too_long(*old(self), *policy, wait) {
                        &&& r == RetryAction::Return(err)
                        &&& *final(self) == *old(self)
                        &&& *final(stats) == (RateLimitStats {
                            gave_up: plus(old(stats).gave_up, 1),
                            ..*old(stats)
                        })
                    } else {
                        &&& r == RetryAction::WaitForBackend { us: wait }
                        &&& *final(self) == (RetryState {
                            rate_limit_wait_us: wide_plus(old(self).rate_limit_wait_us, wait),
                            ..*old(self)
                        })
                        &&& *final(stats) == (RateLimitStats {
                            rate_limit_hits: plus(old(stats).rate_limit_hits, 1),
                            waited_for_rate_limit_total_ms: plus(
                                old(stats).waited_for_rate_limit_total_ms,
                                wait as int / 1000,
                            ),
                            ..*old(stats)
                        })
                    }
                },
                _ => match transient_text(err) {
                    Some(text) => if old(self).transient_attempts >= policy.max_transient_attempts {
                        &&& r == RetryAction::Return(PluginError::Unavailable(text))
                        &&& *final(self) == *old(self)
                        &&& *final(stats) == (RateLimitStats {
                            gave_up: plus(old(stats).gave_up, 1),
                            ..*old(stats)
                        })
                    } else {
                        &&& r == (RetryAction::BackOff {
                            us: (old(self).backoff_us + jitter_us) as u128,
                        })
                        &&& *final(self) == (RetryState {
                            transient_attempts: (old(self).transient_attempts + 1) as u32,
                            backoff_us: next_backoff(old(self).backoff_us, *policy),
                            ..*old(self)
                        })
                        &&& *final(stats) == (RateLimitStats {
                            transient_retries: plus(old(stats).transient_retries, 1),
                            ..*old(stats)
                        })
                    },
                    None => {
                        &&& r == RetryAction::Return(err)
                        &&& *final(self) == *old(self)
                        &&& *final(stats) == *old(stats)
                    },
                },
            },
    {
        match err {
            PluginError::RateLimited { retry_after_ms, scope } => {
                let asked: u128 = match retry_after_ms.checked_mul(1000) {
                    Some(us) => us,
                    None => u128::MAX,
                };
                let wait: u128 = asked.saturating_add(jitter_us as u128);
                let total: u128 = self.rate_limit_wait_us.saturating_add(wait);
                if let Some(cap) = policy.max_rate_limit_wait_us {
                    if total > cap {
                        stats.gave_up = stats.gave_up.saturating_add(1);
                        return RetryAction::Return(
                            PluginError::RateLimited { retry_after_ms, scope },
                        );
                    }
                }
                stats.rate_limit_hits = stats.rate_limit_hits.saturating_add(1);
                let ms: u128 = wait / 1000;
                stats.waited_for_rate_limit_total_ms = if ms > u64::MAX as u128 {
                    u64::MAX
                } else {
                    stats.waited_for_rate_limit_total_ms.saturating_add(ms as u64)
                };
                self.rate_limit_wait_us = total;
                RetryAction::WaitForBackend { us: wait }
            },
            PluginError::Unavailable(m) => self.on_transient(policy, m, jitter_us, stats),
            PluginError::Io(m) => self.on_transient(policy, m, jitter_us, stats),
            other => RetryAction::Return(other),
        }
    }

    fn on_transient(
        &mut self,
        policy: &MiddlewarePolicy,
        text: String,
        jitter_us: u64,
        stats: &mut RateLimitStats,
    ) -> (r: RetryAction)
        ensures
            if old(self).transient_attempts >= policy.max_transient_attempts {
                &&& r == RetryAction::Return(PluginError::Unavailable(text))
                &&& *final(self) == *old(self)
                &&& *final(stats) == (RateLimitStats {
                    gave_up: plus(old(stats).gave_up, 1),
                    ..*old(stats)
                })
            } else {
                &&& r == (RetryAction::BackOff { us: (old(self).backoff_us + jitter_us) as u128 })
                &&& *final(self) == (RetryState {
                    transient_attempts: (old(self).transient_attempts + 1) as u32,
                    backoff_us: next_backoff(old(self).backoff_us, *policy),
                    ..*old(self)
                })
                &&& *final(stats) == (RateLimitStats {
                    transient_retries: plus(old(stats).transient_retries, 1),
                    ..*old(stats)
                })
            },
    {
        if self.transient_attempts >= policy.max_transient_attempts {
            stats.gave_up = stats.gave_up.saturating_add(1);
            return RetryAction::Return(PluginError::Unavailable(text));
        }
        self.transient_attempts = self.transient_attempts + 1;
        stats.transient_retries = stats.transient_retries.saturating_add(1);
        let us: u128 = self.backoff_us as u128 + jitter_us as u128;
        let doubled: u64 = self.backoff_us.saturating_add(self.backoff_us);
        self.backoff_us = if doubled > policy.max_backoff_us {
            policy.max_backoff_us
        } else {
            doubled
        };
        RetryAction::BackOff { us }
    }

    /// Counts a success.
    pub fn on_success(stats: &mut RateLimitStats)
        ensures
            *final(stats) == (RateLimitStats {
                successful_calls: plus(old(stats).successful_calls, 1),
                ..*old(stats)
            }),
    {
        stats.successful_calls = stats.successful_calls.saturating_add(1);
    }
}

/// A backoff never grows beyond the policy's largest.
pub proof fn lemma_backoff_bounded(backoff_us: u64, policy: MiddlewarePolicy)
    ensures
        next_backoff(backoff_us, policy) <= policy.max_backoff_us,
{
}

/// How ready a backend is for an operation: the tokens that it has, in thousandths, how long until
/// one is there, how long it asked not to be called, and how many calls are under way.
#[derive(Clone, Copy, PartialEq, Eq, Structural, Debug)]
pub struct CapacitySnapshot {
    pub tokens_milli: u64,
    pub estimated_wait_us: u64,
    pub cooldown_remaining_us: u64,
    pub inflight: u32,
}

impl CapacitySnapshot {
    /// A backend that is not paced.
    pub fn unlimited() -> (r: Self)
        ensures
            r == (CapacitySnapshot {
                tokens_milli: u64::MAX,
                estimated_wait_us: 0,
                cooldown_remaining_us: 0,
                inflight: 0,
            }),
    {
        CapacitySnapshot {
            tokens_milli: u64::MAX,
            estimated_wait_us: 0,
            cooldown_remaining_us: 0,
            inflight: 0,
        }
    }

    /// What a bucket, a cooldown and the free places give together.
    pub fn of(
        tokens_milli: u64,
        token_wait_us: u64,
        cooldown_until_us: Option<u64>,
        now_us: u64,
        max_concurrent: u32,
        free_places: u32,
    ) -> (r: Self)
        ensures
            r.tokens_milli == tokens_milli,
            r.cooldown_remaining_us == (match cooldown_until_us {
                Some(t) if t > now_us => t - now_us,
                _ => 0,
            }),
            r.estimated_wait_us == (if token_wait_us > r.cooldown_remaining_us {
                token_wait_us
            } else {
                r.cooldown_remaining_us
            }),
            r.inflight == (if max_concurrent > free_places {
                max_concurrent - free_places
            } else {
                0
            }),
    {
        let cooldown: u64 = match cooldown_until_us {
            Some(t) => t.saturating_sub(now_us),
            None => 0,
        };
        let wait: u64 = if token_wait_us > cooldown {
            token_wait_us
        } else {
            cooldown
        };
        CapacitySnapshot {
            tokens_milli,
            estimated_wait_us: wait,
            cooldown_remaining_us: cooldown,
            inflight: max_concurrent.saturating_sub(free_places),
        }
    }
}

/// A backoff doubles each time, until the policy's largest is reached.
pub proof fn lemma_backoff_doubles(backoff_us: u64, policy: MiddlewarePolicy)
    ensures
        2 * backoff_us <= policy.max_backoff_us ==> next_backoff(backoff_us, policy) == 2
            * backoff_us,
        2 * backoff_us > policy.max_backoff_us ==> next_backoff(backoff_us, policy)
            == policy.max_backoff_us,
{
}

/// After a rate limit a call waits for the whole pause that the backend asked for, given in
/// milliseconds, and for the jitter on top, as far as the number goes.
pub proof fn lemma_whole_pause_waited(retry_after_ms: u128, jitter_us: u64)
    ensures
        retry_after_ms * 1000 + jitter_us <= u128::MAX ==> limit_wait(retry_after_ms, jitter_us)
            == retry_after_ms * 1000 + jitter_us,
        limit_wait(retry_after_ms, jitter_us) >= jitter_us,
        retry_after_ms * 1000 <= u128::MAX ==> limit_wait(retry_after_ms, jitter_us)
            >= retry_after_ms * 1000,
{
}

/// A call gives up on rate limits exactly when all its waits together would exceed what the policy
/// allows; a policy without a limit never gives up.
pub proof fn lemma_gives_up_on_waits(st: RetryState, policy: MiddlewarePolicy, wait: u128)
    ensures
        policy.max_rate_limit_wait_us is None ==> !waits_too_long(st, policy, wait),
        policy.max_rate_limit_wait_us matches Some(cap) ==> (st.rate_limit_wait_us + wait
            <= u128::MAX ==> (waits_too_long(st, policy, wait) <==> st.rate_limit_wait_us + wait
            > cap)),
{
}

/// What is tried again is what could not be reached; no other error is.
pub proof fn lemma_tried_again(e: PluginError)
    ensures
        transient_text(e) is Some <==> e is Unavailable || e is Io,
        e matches PluginError::Unavailable(m) ==> transient_text(e) == Some(m),
        e matches PluginError::Io(m) ==> transient_text(e) == Some(m),
{
}

/// The usual policy tries five times, waits a quarter of a second at first and half a minute at
/// most, and never gives up on rate limits.
pub proof fn lemma_usual_policy(backoff_us: u64)
    ensures
        default_policy().max_transient_attempts == 5,
        default_policy().min_backoff_us * 4 == 1_000_000,
        default_policy().max_backoff_us == 30 * 1_000_000,
        default_policy().max_rate_limit_wait_us is None,
        next_backoff(backoff_us, default_policy()) <= 30 * 1_000_000,
{
}

/// Counts and waits are added up, as far as their numbers go.
pub proof fn lemma_sums_stay_in_range(x: u64, y: nat, v: u128, w: u128)
    ensures
        x + y <= u64::MAX ==> plus(x, y as int) == x + y,
        x + y > u64::MAX ==> plus(x, y as int) == u64::MAX,
        v + w <= u128::MAX ==> wide_plus(v, w) == v + w,
        v + w > u128::MAX ==> wide_plus(v, w) == u128::MAX,
{
}

} // verus!
