//! A circuit breaker for each provider and operation: after repeated failures calls are held back
//! for a while, then probed, and let through again once the probes succeed. Times are
//! milliseconds on the caller's clock.

use vstd::prelude::*;

use super::op_map::slots_increase;
use super::op_map::Op;
use super::op_map::OpMap;
use crate::types::ProviderId;

verus! {

/// The thresholds of a breaker.
#[derive(Clone, Copy, PartialEq, Eq, Structural, Debug)]
pub struct CircuitBreakerConfig {
    /// Failures in a row that open a closed breaker.
    pub failure_threshold: u32,
    /// How long a breaker stays open at first.
    pub initial_cooldown_ms: u64,
    /// How long it stays open at most.
    pub max_cooldown_ms: u64,
    /// Successes in a row that close a half-open breaker.
    pub success_threshold_to_close: u32,
}

/// Five failures open a breaker, for a quarter of a minute at first and a quarter of an hour at
/// most; two successes close it.
pub open spec fn default_breaker() -> CircuitBreakerConfig {
    CircuitBreakerConfig {
        failure_threshold: 5,
        initial_cooldown_ms: 15_000,
        max_cooldown_ms: 900_000,
        success_threshold_to_close: 2,
    }
}

impl Default for CircuitBreakerConfig {
    fn default() -> (r: Self)
        ensures
            r == default_breaker(),
    {
        CircuitBreakerConfig {
            failure_threshold: 5,
            initial_cooldown_ms: 15_000,
            max_cooldown_ms: 900_000,
            success_threshold_to_close: 2,
        }
    }
}

/// The state of a breaker.
#[derive(Clone, Copy, PartialEq, Eq, Structural, Debug)]
pub enum CircuitState {
    Closed,
    Open { until: u64 },
    HalfOpen,
}

impl CircuitState {
    /// Whether a call may be made at `now`.
    pub fn permits_now(self, now: u64) -> (r: bool)
        ensures
            r == (match self {
                CircuitState::Open { until } => now >= until,
                _ => true,
            }),
    {
        match self {
            CircuitState::Closed => true,
            CircuitState::HalfOpen => true,
            CircuitState::Open { until } => now >= until,
        }
    }
}

/// A breaker.
#[derive(Clone, Copy, PartialEq, Eq, Structural, Debug)]
pub struct BreakerEntry {
    pub state: CircuitState,
    pub consecutive_failures: u32,
    pub consecutive_successes: u32,
    pub current_cooldown_ms: u64,
}

impl BreakerEntry {
    /// A closed breaker.
    pub fn new(initial_cooldown_ms: u64) -> (r: Self)
        ensures
            r == fresh(initial_cooldown_ms),
    {
        BreakerEntry {
            state: CircuitState::Closed,
            consecutive_failures: 0,
            consecutive_successes: 0,
            current_cooldown_ms: initial_cooldown_ms,
        }
    }
}

/// A closed breaker.
pub open spec fn fresh(initial_cooldown_ms: u64) -> BreakerEntry {
    BreakerEntry {
        state: CircuitState::Closed,
        consecutive_failures: 0,
        consecutive_successes: 0,
        current_cooldown_ms: initial_cooldown_ms,
    }
}

/// `x + 1`, or the largest number.
pub open spec fn one_more(x: u32) -> u32 {
    if x == u32::MAX {
        x
    } else {
        (x + 1) as u32
    }
}

/// The end of a pause from `now`, or the end of time.
pub open spec fn pause_end(now: u64, ms: u64) -> u64 {
    if now + ms > u64::MAX {
        u64::MAX
    } else {
        (now + ms) as u64
    }
}

/// A cooldown doubled, but not beyond the largest.
pub open spec fn longer(cooldown_ms: u64, cfg: CircuitBreakerConfig) -> u64 {
    if 2 * cooldown_ms > cfg.max_cooldown_ms {
        cfg.max_cooldown_ms
    } else {
        (2 * cooldown_ms) as u64
    }
}

/// A breaker at `now`: one whose pause is over is half open.
pub open spec fn at_time(e: BreakerEntry, now: u64) -> BreakerEntry {
    match e.state {
        CircuitState::Open { until } => if now >= until {
            BreakerEntry { state: CircuitState::HalfOpen, consecutive_successes: 0, ..e }
        } else {
            e
        },
        _ => e,
    }
}

/// A breaker after a success.
pub open spec fn after_success(e: BreakerEntry, cfg: CircuitBreakerConfig) -> BreakerEntry {
    match e.state {
        CircuitState::Closed => BreakerEntry {
            consecutive_failures: 0,
            current_cooldown_ms: cfg.initial_cooldown_ms,
            ..e
        },
        CircuitState::HalfOpen => {
            let n = one_more(e.consecutive_successes);
            if n >= cfg.success_threshold_to_close {
                BreakerEntry {
                    state: CircuitState::Closed,
                    consecutive_failures: 0,
                    consecutive_successes: n,
                    current_cooldown_ms: cfg.initial_cooldown_ms,
                }
            } else {
                BreakerEntry { consecutive_failures: 0, consecutive_successes: n, ..e }
            }
        },
        CircuitState::Open { .. } => BreakerEntry {
            state: CircuitState::HalfOpen,
            consecutive_failures: 0,
            consecutive_successes: 1,
            ..e
        },
    }
}

/// A breaker after a failure at `now`.
pub open spec fn after_failure(e: BreakerEntry, cfg: CircuitBreakerConfig, now: u64) -> BreakerEntry {
    match e.state {
        CircuitState::Closed => {
            let n = one_more(e.consecutive_failures);
            BreakerEntry {
                state: if n >= cfg.failure_threshold {
                    CircuitState::Open { until: pause_end(now, e.current_cooldown_ms) }
                } else {
                    CircuitState::Closed
                },
                consecutive_failures: n,
                consecutive_successes: 0,
                ..e
            }
        },
        CircuitState::HalfOpen => {
            let c = longer(e.current_cooldown_ms, cfg);
            BreakerEntry {
                state: CircuitState::Open { until: pause_end(now, c) },
                consecutive_successes: 0,
                current_cooldown_ms: c,
                ..e
            }
        },
        CircuitState::Open { .. } => BreakerEntry { consecutive_successes: 0, ..e },
    }
}

/// The breakers of all providers and operations.
pub struct CircuitBreaker {
    inner: OpMap<BreakerEntry>,
    cfg: CircuitBreakerConfig,
}

impl Default for CircuitBreaker {
    fn default() -> (r: Self)
        ensures
            r.config() == default_breaker(),
            forall|p: ProviderId, o: Op| #[trigger] r.entry(p, o) == fresh(15_000) && !r.used(p, o),
    {
        CircuitBreaker::with_config(CircuitBreakerConfig::default())
    }
}

impl CircuitBreaker {
    /// The thresholds.
    pub closed spec fn config(self) -> CircuitBreakerConfig {
        self.cfg
    }

    /// The breaker of a provider and operation; one that was never used is closed.
    pub closed spec fn entry(self, provider: ProviderId, op: Op) -> BreakerEntry {
        match self.inner.at(provider, op) {
            Some(e) => e,
            None => fresh(self.cfg.initial_cooldown_ms),
        }
    }

    /// Whether a breaker was ever used.
    pub closed spec fn used(self, provider: ProviderId, op: Op) -> bool {
        self.inner.at(provider, op) is Some
    }

    /// Whether `self` is `before` with one breaker set.
    pub open spec fn is_set(self, before: CircuitBreaker, provider: ProviderId, op: Op, e: BreakerEntry) -> bool {
        &&& self.config() == before.config()
        &&& self.entry(provider, op) == e
        &&& forall|p: ProviderId, o: Op|
            (p != provider || o != op) ==> #[trigger] self.entry(p, o) == before.entry(p, o) && self.used(
                p,
                o,
            ) == before.used(p, o)
    }

    /// Breakers with these thresholds, all of them closed.
    pub fn with_config(cfg: CircuitBreakerConfig) -> (r: Self)
        ensures
            r.config() == cfg,
            forall|p: ProviderId, o: Op| #[trigger]
                r.entry(p, o) == fresh(cfg.initial_cooldown_ms) && !r.used(p, o),
    {
        CircuitBreaker { inner: OpMap::new(), cfg }
    }

    fn load(&self, provider: ProviderId, op: Op) -> (r: BreakerEntry)
        ensures
            r == self.entry(provider, op),
    {
        match self.inner.get(provider, op) {
            Some(e) => e,
            None => BreakerEntry::new(self.cfg.initial_cooldown_ms),
        }
    }

    /// The state of a breaker at `now`. One whose pause is over becomes half open.
    pub fn permits(&mut self, provider: ProviderId, op: Op, now: u64) -> (r: CircuitState)
        ensures
            r == at_time(old(self).entry(provider, op), now).state,
            final(self).is_set(
                *old(self),
                provider,
                op,
                at_time(old(self).entry(provider, op), now),
            ),
            final(self).used(provider, op) == old(self).used(provider, op),
    {
        let mut e: BreakerEntry = match self.inner.get(provider, op) {
            Some(e) => e,
            None => {
                return CircuitState::Closed;
            },
        };
        if let CircuitState::Open { until } = e.state {
            if now >= until {
                e.state = CircuitState::HalfOpen;
                e.consecutive_successes = 0;
                self.inner.set(provider, op, e);
            }
        }
        e.state
    }

    /// Notes that a call succeeded.
    pub fn record_success(&mut self, provider: ProviderId, op: Op)
        ensures
            final(self).is_set(
                *old(self),
                provider,
                op,
                after_success(old(self).entry(provider, op), old(self).config()),
            ),
            final(self).used(provider, op),
    {
        let mut e = self.load(provider, op);
        e.consecutive_failures = 0;
        match e.state {
            CircuitState::Closed => {
                e.current_cooldown_ms = self.cfg.initial_cooldown_ms;
            },
            CircuitState::HalfOpen => {
                e.consecutive_successes = e.consecutive_successes.saturating_add(1);
                if e.consecutive_successes >= self.cfg.success_threshold_to_close {
                    e.state = CircuitState::Closed;
                    e.current_cooldown_ms = self.cfg.initial_cooldown_ms;
                }
            },
            CircuitState::Open { .. } => {
                e.state = CircuitState::HalfOpen;
                e.consecutive_successes = 1;
            },
        }
        self.inner.set(provider, op, e);
    }

    /// Notes that a call failed at `now`.
    pub fn record_failure(&mut self, provider: ProviderId, op: Op, now: u64)
        ensures
            final(self).is_set(
                *old(self),
                provider,
                op,
                after_failure(old(self).entry(provider, op), old(self).config(), now),
            ),
            final(self).used(provider, op),
    {
        let mut e = self.load(provider, op);
        e.consecutive_successes = 0;
        match e.state {
            CircuitState::Closed => {
                e.consecutive_failures = e.consecutive_failures.saturating_add(1);
                if e.consecutive_failures >= self.cfg.failure_threshold {
                    e.state = CircuitState::Open {
                        until: now.saturating_add(e.current_cooldown_ms),
                    };
                }
            },
            CircuitState::HalfOpen => {
                let doubled: u64 = e.current_cooldown_ms.saturating_add(e.current_cooldown_ms);
                e.current_cooldown_ms = if doubled > self.cfg.max_cooldown_ms {
                    self.cfg.max_cooldown_ms
                } else {
                    doubled
                };
                e.state = CircuitState::Open { until: now.saturating_add(e.current_cooldown_ms) };
            },
            CircuitState::Open { .. } => {},
        }
        self.inner.set(provider, op, e);
    }

    /// The states of all breakers that were ever used.
    pub fn snapshot(&self) -> (r: Vec<((ProviderId, Op), CircuitState)>)
        ensures
            slots_increase(r@),
            forall|p: ProviderId, o: Op, s: CircuitState|
                #[trigger] r@.contains(((p, o), s)) <==> self.used(p, o) && self.entry(p, o).state == s,
    {
        let all = self.inner.list();
        let mut out: Vec<((ProviderId, Op), CircuitState)> = Vec::new();
        let mut i: usize = 0;
        while i < all.len()
            invariant
                0 <= i <= all@.len(),
                out@.len() == i,
                forall|j: int| 0 <= j < i ==> #[trigger] out@[j] == (all@[j].0, all@[j].1.state),
            decreases all@.len() - i,
        {
            out.push((all[i].0, all[i].1.state));
            i = i + 1;
        }
        proof {
            assert forall|p: ProviderId, o: Op, s: CircuitState|
                #[trigger] out@.contains(((p, o), s)) <==> self.used(p, o) && self.entry(p, o).state
                    == s by {
                if out@.contains(((p, o), s)) {
                    let j = choose|j: int| 0 <= j < out@.len() && out@[j] == ((p, o), s);
                    assert(all@.contains(((p, o), all@[j].1))) by {
                        assert(all@[j] == ((p, o), all@[j].1));
                    }
                }
                if self.used(p, o) && self.entry(p, o).state == s {
                    let e = self.entry(p, o);
                    assert(all@.contains(((p, o), e)));
                    let j = choose|j: int| 0 <= j < all@.len() && all@[j] == ((p, o), e);
                    assert(out@[j] == ((p, o), s));
                }
            }
        }
        out
    }
}

/// A breaker after `n` failures in a row at `now`.
pub open spec fn after_failures(e: BreakerEntry, cfg: CircuitBreakerConfig, now: u64, n: nat) -> BreakerEntry
    decreases n,
{
    if n == 0 {
        e
    } else {
        after_failure(after_failures(e, cfg, now, (n - 1) as nat), cfg, now)
    }
}

/// A closed breaker opens with the failure that makes the threshold, and not before.
pub proof fn lemma_opens_at_threshold(cfg: CircuitBreakerConfig, now: u64, n: nat)
    requires
        1 <= n <= cfg.failure_threshold,
    ensures
        ({
            let e = after_failures(fresh(cfg.initial_cooldown_ms), cfg, now, n);
            &&& e.consecutive_failures == n
            &&& e.current_cooldown_ms == cfg.initial_cooldown_ms
            &&& e.state == (if n == cfg.failure_threshold {
                CircuitState::Open { until: pause_end(now, cfg.initial_cooldown_ms) }
            } else {
                CircuitState::Closed
            })
        }),
    decreases n,
{
    let e0 = fresh(cfg.initial_cooldown_ms);
    if n == 1 {
        assert(after_failures(e0, cfg, now, 0) == e0);
        assert(after_failures(e0, cfg, now, 1) == after_failure(e0, cfg, now));
    } else {
        lemma_opens_at_threshold(cfg, now, (n - 1) as nat);
    }
}

/// While a breaker is open its pause is not extended, and no call is permitted before it ends.
pub proof fn lemma_open_waits(e: BreakerEntry, cfg: CircuitBreakerConfig, until: u64, now: u64)
    requires
        e.state == (CircuitState::Open { until }),
        now < until,
    ensures
        at_time(e, now).state == e.state,
        after_failure(e, cfg, now).state == e.state,
{
}

/// A cooldown never grows beyond the largest, once it is within it.
pub proof fn lemma_cooldown_bounded(e: BreakerEntry, cfg: CircuitBreakerConfig, now: u64)
    requires
        cfg.initial_cooldown_ms <= cfg.max_cooldown_ms,
        e.current_cooldown_ms <= cfg.max_cooldown_ms,
    ensures
        after_failure(e, cfg, now).current_cooldown_ms <= cfg.max_cooldown_ms,
        after_success(e, cfg).current_cooldown_ms <= cfg.max_cooldown_ms,
        at_time(e, now).current_cooldown_ms <= cfg.max_cooldown_ms,
{
}

/// The entry after `n` successes in a row.
pub open spec fn after_successes(e: BreakerEntry, cfg: CircuitBreakerConfig, n: nat) -> BreakerEntry
    decreases n,
{
    if n == 0 {
        e
    } else {
        after_success(after_successes(e, cfg, (n - 1) as nat), cfg)
    }
}

/// A breaker whose pause is over is tried from the moment that it ends, and starts to count
/// successes anew.
pub proof fn lemma_tried_after_pause(e: BreakerEntry, until: u64, now: u64)
    requires
        e.state == (CircuitState::Open { until }),
    ensures
        at_time(e, now).state == CircuitState::HalfOpen <==> now >= until,
        now >= until ==> at_time(e, now).consecutive_successes == 0,
        at_time(e, now).current_cooldown_ms == e.current_cooldown_ms,
{
}

/// A breaker that is tried closes with the success that makes the threshold, and not before; then
/// the next pause is a short one again.
pub proof fn lemma_closes_at_threshold(e: BreakerEntry, cfg: CircuitBreakerConfig, n: nat)
    requires
        e.state == CircuitState::HalfOpen,
        e.consecutive_successes == 0,
        1 <= n <= cfg.success_threshold_to_close,
    ensures
        ({
            let f = after_successes(e, cfg, n);
            &&& f.consecutive_successes == n
            &&& f.consecutive_failures == 0
            &&& f.state == CircuitState::Closed <==> n == cfg.success_threshold_to_close
            &&& f.state == CircuitState::HalfOpen <==> n < cfg.success_threshold_to_close
            &&& f.state == CircuitState::Closed ==> f.current_cooldown_ms == cfg.initial_cooldown_ms
        }),
    decreases n,
{
    if n == 1 {
        assert(after_successes(e, cfg, 0) == e);
    } else {
        lemma_closes_at_threshold(e, cfg, (n - 1) as nat);
    }
}

/// A failure while a breaker is tried opens it for twice the pause, up to the largest, counted from
/// now.
pub proof fn lemma_failed_trial_doubles(e: BreakerEntry, cfg: CircuitBreakerConfig, now: u64)
    requires
        e.state == CircuitState::HalfOpen,
    ensures
        ({
            let f = after_failure(e, cfg, now);
            &&& f.current_cooldown_ms <= cfg.max_cooldown_ms
            &&& f.current_cooldown_ms == 2 * e.current_cooldown_ms || (f.current_cooldown_ms
                == cfg.max_cooldown_ms && cfg.max_cooldown_ms < 2 * e.current_cooldown_ms)
            &&& f.state matches CircuitState::Open { until } && (until == now
                + f.current_cooldown_ms || (until == u64::MAX && now + f.current_cooldown_ms
                > u64::MAX))
            &&& f.consecutive_successes == 0
        }),
{
}

/// A success forgets the failures before it, and never opens a breaker.
pub proof fn lemma_success_forgets(e: BreakerEntry, cfg: CircuitBreakerConfig)
    ensures
        after_success(e, cfg).consecutive_failures == 0,
        !(after_success(e, cfg).state is Open),
        e.state == CircuitState::Closed ==> after_success(e, cfg).state == CircuitState::Closed,
        e.state is Open ==> after_success(e, cfg).state == CircuitState::HalfOpen && after_success(
            e,
            cfg,
        ).consecutive_successes == 1,
{
}

/// The usual breaker opens at the fifth failure in a row, pauses for fifteen seconds at first and
/// a quarter of an hour at most, and closes at the second success in a row.
pub proof fn lemma_usual_breaker(now: u64, n: nat)
    requires
        1 <= n <= 5,
    ensures
        ({
            let e = after_failures(fresh(15_000), default_breaker(), now, n);
            e.state is Open <==> n == 5
        }),
        default_breaker().max_cooldown_ms == 15 * 60 * 1000,
        default_breaker().success_threshold_to_close == 2,
{
    lemma_opens_at_threshold(default_breaker(), now, n);
}

/// What befalls one provider and operation touches no other.
pub proof fn lemma_breakers_apart(
    before: CircuitBreaker,
    after: CircuitBreaker,
    provider: ProviderId,
    op: Op,
    e: BreakerEntry,
    p: ProviderId,
    o: Op,
)
    requires
        after.is_set(before, provider, op, e),
    ensures
        after.entry(provider, op) == e,
        p != provider || o != op ==> after.entry(p, o) == before.entry(p, o),
        after.config() == before.config(),
{
}

} // verus!
