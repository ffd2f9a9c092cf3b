//! Watching whether providers keep their promise to answer a repeated write with the same object.
//! Times are milliseconds on the caller's clock.

use std::collections::BTreeMap;

use vstd::prelude::*;

use super::window::count_events;
use super::window::count_in;
use super::window::keep_counting;
use super::window::kept;
use crate::types::ProviderId;

verus! {

broadcast use {
    vstd::std_specs::btree::group_btree_axioms,
    vstd::laws_cmp::group_laws_cmp,
};

/// When broken promises count.
#[derive(Clone, Copy, PartialEq, Eq, Structural, Debug)]
pub struct IdempotencyTrackerConfig {
    /// Violations in the window after which a provider is not relied on.
    pub violations_to_derate: u32,
    /// The window.
    pub observation_window_ms: u64,
}

impl Default for IdempotencyTrackerConfig {
    fn default() -> (r: Self)
        ensures
            r == (IdempotencyTrackerConfig {
                violations_to_derate: 3,
                observation_window_ms: 3_600_000,
            }),
    {
        IdempotencyTrackerConfig { violations_to_derate: 3, observation_window_ms: 3_600_000 }
    }
}

/// The violations of all providers.
pub struct IdempotencyTracker {
    inner: BTreeMap<u128, Vec<u64>>,
    cfg: IdempotencyTrackerConfig,
}

impl Default for IdempotencyTracker {
    fn default() -> (r: Self)
        ensures
            r.config().violations_to_derate == 3,
            r.config().observation_window_ms == 3_600_000,
            forall|p: ProviderId| (#[trigger] r.violations(p)).len() == 0 && !r.known(p),
    {
        IdempotencyTracker::with_config(IdempotencyTrackerConfig::default())
    }
}

impl IdempotencyTracker {
    /// When broken promises count.
    pub closed spec fn config(self) -> IdempotencyTrackerConfig {
        self.cfg
    }

    /// The times of a provider's violations.
    pub closed spec fn violations(self, provider: ProviderId) -> Seq<u64> {
        if self.inner@.contains_key(provider.0) {
            self.inner@[provider.0]@
        } else {
            Seq::empty()
        }
    }

    /// A tracker that has seen nothing.
    pub fn with_config(cfg: IdempotencyTrackerConfig) -> (r: Self)
        ensures
            r.config() == cfg,
            forall|p: ProviderId| (#[trigger] r.violations(p)).len() == 0 && !r.known(p),
    {
        IdempotencyTracker { inner: BTreeMap::new(), cfg }
    }

    /// Notes a violation at `now`, and forgets those that no longer count.
    pub fn record_violation(&mut self, provider: ProviderId, now: u64)
        ensures
            final(self).config() == old(self).config(),
            final(self).violations(provider) == kept(
                old(self).violations(provider).push(now),
                now,
                old(self).config().observation_window_ms,
            ),
            forall|p: ProviderId|
                p != provider ==> #[trigger] final(self).violations(p) == old(self).violations(p)
                    && final(self).known(p) == old(self).known(p),
            final(self).known(provider),
    {
        let mut v: Vec<u64> = match self.inner.remove(&provider.0) {
            Some(v) => v,
            None => Vec::new(),
        };
        assert(v@ =~= old(self).violations(provider));
        v.push(now);
        let left = keep_counting(&v, now, self.cfg.observation_window_ms);
        self.inner.insert(provider.0, left);
    }

    /// Whether a provider has broken its promise too often to be relied on at `now`.
    pub fn is_unreliable(&self, provider: ProviderId, now: u64) -> (r: bool)
        ensures
            r == (self.known(provider) && count_in(
                self.violations(provider),
                now,
                self.config().observation_window_ms,
            ) >= self.config().violations_to_derate),
    {
        match self.inner.get(&provider.0) {
            Some(v) => count_events(v, now, self.cfg.observation_window_ms) as u64
                >= self.cfg.violations_to_derate as u64,
            None => false,
        }
    }

    /// How many of a provider's violations count at `now`, modulo 2^32.
    pub fn violation_count(&self, provider: ProviderId, now: u64) -> (r: u32)
        ensures
            r == count_in(
                self.violations(provider),
                now,
                self.config().observation_window_ms,
            ) % 0x1_0000_0000,
    {
        match self.inner.get(&provider.0) {
            Some(v) => (count_events(v, now, self.cfg.observation_window_ms) as u64 % 0x1_0000_0000) as u32,
            None => 0,
        }
    }

    /// Whether a provider has ever broken its promise.
    pub closed spec fn known(self, provider: ProviderId) -> bool {
        self.inner@.contains_key(provider.0)
    }
}

} // verus!
