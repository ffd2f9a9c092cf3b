//! Keeping providers within the operations a day that they allow. Times are milliseconds on the
//! caller's clock.

use std::collections::BTreeMap;

use vstd::prelude::*;

use super::window::count_events;
use super::window::count_in;
use super::window::lemma_window_holds_recent;
use super::window::front_pruned;
use super::window::prune_front;
use crate::ordered::lists_keys;
use crate::ordered::sorted_keys;
use crate::types::ProviderId;

verus! {

broadcast use {
    vstd::std_specs::btree::group_btree_axioms,
    vstd::laws_cmp::group_laws_cmp,
};

/// The window, and the parts of a budget, in thousandths, at which use becomes costly.
#[derive(Clone, Copy, PartialEq, Eq, Structural, Debug)]
pub struct AbuseSensorConfig {
    pub window_ms: u64,
    pub warn_at_per_mille: u32,
    pub heavy_at_per_mille: u32,
}

/// A day of operations, with a warning at eighty and an alarm at ninety-five per cent of the budget.
pub open spec fn default_sensor() -> AbuseSensorConfig {
    AbuseSensorConfig { window_ms: 86_400_000, warn_at_per_mille: 800, heavy_at_per_mille: 950 }
}

impl Default for AbuseSensorConfig {
    fn default() -> (r: Self)
        ensures
            r == default_sensor(),
    {
        AbuseSensorConfig { window_ms: 86_400_000, warn_at_per_mille: 800, heavy_at_per_mille: 950 }
    }
}

/// How costly it is to use a provider: not at all, five times, fifty times, or not to be borne.
#[derive(Clone, Copy, PartialEq, Eq, Structural, Debug)]
pub enum CostLevel {
    Plain,
    Warn,
    Heavy,
    Exhausted,
}

struct ProviderUsage {
    daily_budget: Option<u32>,
    timestamps: Vec<u64>,
}

/// The use of a provider: its budget and the times of its operations.
pub ghost struct Usage {
    pub budget: Option<u32>,
    pub times: Seq<u64>,
}

/// The use of a provider of which nothing is known.
pub open spec fn no_usage() -> Usage {
    Usage { budget: None, times: Seq::empty() }
}

/// The use of all providers.
pub struct AbuseSensor {
    inner: BTreeMap<u128, ProviderUsage>,
    cfg: AbuseSensorConfig,
}

impl Default for AbuseSensor {
    fn default() -> (r: Self)
        ensures
            r.config() == default_sensor(),
            r.known() == Set::<u128>::empty(),
            forall|p: ProviderId| #[trigger] r.usage_of(p) == no_usage(),
    {
        AbuseSensor::with_config(AbuseSensorConfig::default())
    }
}

/// Whether a provider has used up its budget. A budget of zero is used up from the start; without
/// one there is nothing to use up.
pub open spec fn over_budget(u: Usage, now: u64, window: u64) -> bool {
    match u.budget {
        Some(b) => count_in(u.times, now, window) >= b,
        None => false,
    }
}

/// How costly it is to use a provider.
pub open spec fn cost_of(u: Usage, now: u64, cfg: AbuseSensorConfig) -> CostLevel {
    match u.budget {
        None => CostLevel::Plain,
        Some(b) => {
            let used = count_in(u.times, now, cfg.window_ms);
            if b == 0 || used >= b {
                CostLevel::Exhausted
            } else if used * 1000 >= cfg.heavy_at_per_mille * b {
                CostLevel::Heavy
            } else if used * 1000 >= cfg.warn_at_per_mille * b {
                CostLevel::Warn
            } else {
                CostLevel::Plain
            }
        },
    }
}

impl AbuseSensor {
    /// The window and thresholds.
    pub closed spec fn config(self) -> AbuseSensorConfig {
        self.cfg
    }

    /// The use of a provider.
    pub closed spec fn usage_of(self, provider: ProviderId) -> Usage {
        if self.inner@.contains_key(provider.0) {
            Usage {
                budget: self.inner@[provider.0].daily_budget,
                times: self.inner@[provider.0].timestamps@,
            }
        } else {
            no_usage()
        }
    }

    /// The providers that have been heard of.
    pub closed spec fn known(self) -> Set<u128> {
        self.inner@.dom()
    }

    /// Whether `self` is `before` with the use of one provider set.
    pub open spec fn is_set(self, before: AbuseSensor, provider: ProviderId, u: Usage) -> bool {
        &&& self.config() == before.config()
        &&& self.usage_of(provider) == u
        &&& self.known() == before.known().insert(provider.0)
        &&& forall|p: ProviderId| p != provider ==> #[trigger] self.usage_of(p) == before.usage_of(p)
    }

    /// A sensor that has heard of no provider.
    pub fn with_config(cfg: AbuseSensorConfig) -> (r: Self)
        ensures
            r.config() == cfg,
            r.known() == Set::<u128>::empty(),
            forall|p: ProviderId| #[trigger] r.usage_of(p) == no_usage(),
    {
        AbuseSensor { inner: BTreeMap::new(), cfg }
    }

    fn take_usage(&mut self, provider: ProviderId) -> (r: ProviderUsage)
        ensures
            old(self).usage_of(provider) == (Usage {
                budget: r.daily_budget,
                times: r.timestamps@,
            }),
            final(self).inner@ == old(self).inner@.remove(provider.0),
            final(self).cfg == old(self).cfg,
    {
        match self.inner.remove(&provider.0) {
            Some(u) => u,
            None => {
                let v: Vec<u64> = Vec::new();
                assert(v@ =~= Seq::<u64>::empty());
                ProviderUsage { daily_budget: None, timestamps: v }
            },
        }
    }

    /// Sets or lifts the budget of a provider.
    pub fn set_budget(&mut self, provider: ProviderId, budget: Option<u32>)
        ensures
            final(self).is_set(
                *old(self),
                provider,
                Usage { budget, ..old(self).usage_of(provider) },
            ),
    {
        let mut u = self.take_usage(provider);
        u.daily_budget = budget;
        self.inner.insert(provider.0, u);
        assert(self.known() =~= old(self).known().insert(provider.0));
    }

    /// Notes an operation at `now`.
    pub fn record_op(&mut self, provider: ProviderId, now: u64)
        ensures
            final(self).is_set(
                *old(self),
                provider,
                Usage {
                    times: front_pruned(
                        old(self).usage_of(provider).times.push(now),
                        now,
                        old(self).config().window_ms,
                    ),
                    ..old(self).usage_of(provider)
                },
            ),
    {
        let mut u = self.take_usage(provider);
        u.timestamps.push(now);
        prune_front(&mut u.timestamps, now, self.cfg.window_ms);
        self.inner.insert(provider.0, u);
        assert(self.known() =~= old(self).known().insert(provider.0));
    }

    /// How many operations of a provider count at `now`, modulo 2^32.
    pub fn usage(&self, provider: ProviderId, now: u64) -> (r: u32)
        ensures
            r == count_in(self.usage_of(provider).times, now, self.config().window_ms)
                % 0x1_0000_0000,
    {
        match self.inner.get(&provider.0) {
            Some(u) => (count_events(&u.timestamps, now, self.cfg.window_ms) as u64 % 0x1_0000_0000) as u32,
            None => 0,
        }
    }

    /// Whether a provider has used up its budget at `now`.
    pub fn is_over_budget(&self, provider: ProviderId, now: u64) -> (r: bool)
        ensures
            r == over_budget(self.usage_of(provider), now, self.config().window_ms),
    {
        match self.inner.get(&provider.0) {
            Some(u) => match u.daily_budget {
                Some(b) => count_events(&u.timestamps, now, self.cfg.window_ms) as u64 >= b as u64,
                None => false,
            },
            None => false,
        }
    }

    /// How costly it is to use a provider at `now`.
    pub fn cost_multiplier(&self, provider: ProviderId, now: u64) -> (r: CostLevel)
        ensures
            r == cost_of(self.usage_of(provider), now, self.config()),
    {
        let u = match self.inner.get(&provider.0) {
            Some(u) => u,
            None => {
                return CostLevel::Plain;
            },
        };
        let b: u32 = match u.daily_budget {
            Some(b) => b,
            None => {
                return CostLevel::Plain;
            },
        };
        let used: u64 = count_events(&u.timestamps, now, self.cfg.window_ms) as u64;
        if b == 0 || used >= b as u64 {
            return CostLevel::Exhausted;
        }
        let part: u64 = used * 1000;
        assert(self.cfg.heavy_at_per_mille * b <= u32::MAX * u32::MAX) by (nonlinear_arith)
            requires
                self.cfg.heavy_at_per_mille <= u32::MAX,
                b <= u32::MAX,
        ;
        assert(self.cfg.warn_at_per_mille * b <= u32::MAX * u32::MAX) by (nonlinear_arith)
            requires
                self.cfg.warn_at_per_mille <= u32::MAX,
                b <= u32::MAX,
        ;
        if part >= self.cfg.heavy_at_per_mille as u64 * b as u64 {
            CostLevel::Heavy
        } else if part >= self.cfg.warn_at_per_mille as u64 * b as u64 {
            CostLevel::Warn
        } else {
            CostLevel::Plain
        }
    }

    /// The use of every provider that has been heard of, by increasing identifier: how many of its
    /// operations count at `now`, modulo 2^32, and its budget.
    pub fn snapshot(&self, now: u64) -> (r: Vec<(ProviderId, u32, Option<u32>)>)
        ensures
            exists|keys: Seq<u128>| #[trigger]
                self.lists_known(keys) && r@.len() == keys.len() && forall|i: int|
                    0 <= i < keys.len() ==> (#[trigger] r@[i]) == (
                        ProviderId(keys[i]),
                        (count_in(
                            self.usage_of(ProviderId(keys[i])).times,
                            now,
                            self.config().window_ms,
                        ) % 0x1_0000_0000) as u32,
                        self.usage_of(ProviderId(keys[i])).budget,
                    ),
    {
        let keys = sorted_keys(&self.inner);
        let mut out: Vec<(ProviderId, u32, Option<u32>)> = Vec::new();
        let mut i: usize = 0;
        while i < keys.len()
            invariant
                0 <= i <= keys@.len(),
                lists_keys(keys@, self.inner@),
                out@.len() == i,
                forall|j: int|
                    0 <= j < i ==> (#[trigger] out@[j]) == (
                        ProviderId(keys@[j]),
                        (count_in(
                            self.usage_of(ProviderId(keys@[j])).times,
                            now,
                            self.cfg.window_ms,
                        ) % 0x1_0000_0000) as u32,
                        self.usage_of(ProviderId(keys@[j])).budget,
                    ),
            decreases keys@.len() - i,
        {
            let k: u128 = keys[i];
            let id = ProviderId(k);
            let used: u32 = self.usage(id, now);
            let budget: Option<u32> = match self.inner.get(&k) {
                Some(u) => u.daily_budget,
                None => None,
            };
            out.push((id, used, budget));
            i = i + 1;
        }
        assert(self.lists_known(keys@));
        out
    }

    /// Whether `keys` are the providers that have been heard of, in increasing order.
    pub open spec fn lists_known(self, keys: Seq<u128>) -> bool {
        &&& crate::ordered::increasing(keys)
        &&& forall|k: u128| #[trigger] keys.contains(k) <==> self.known().contains(k)
    }
}

/// A provider is over its budget exactly where its cost is not to be borne.
pub proof fn lemma_exhausted_iff_over(u: Usage, now: u64, cfg: AbuseSensorConfig)
    ensures
        over_budget(u, now, cfg.window_ms) <==> cost_of(u, now, cfg) == CostLevel::Exhausted,
{
}

/// With the usual settings a provider's calls of the last day count: from its budget on it is
/// exhausted, from 95 in a hundred of it heavy, and from 80 in a hundred on it is warned of. A
/// provider without a budget is never more than plain.
pub proof fn lemma_usual_cost(u: Usage, now: u64)
    ensures
        u.budget is None ==> cost_of(u, now, default_sensor()) == CostLevel::Plain,
        u.budget matches Some(b) ==> ({
            let used = u.times.filter(|t: u64| t + 24 * 60 * 60 * 1000 >= now).len();
            let cost = cost_of(u, now, default_sensor());
            &&& cost == CostLevel::Exhausted <==> used >= b
            &&& cost == CostLevel::Heavy <==> used < b && 100 * used >= 95 * b
            &&& cost == CostLevel::Warn <==> 100 * used < 95 * b && 100 * used >= 80 * b
            &&& cost == CostLevel::Plain <==> 100 * used < 80 * b
        }),
{
    if u.budget is Some {
        lemma_window_holds_recent(u.times, now, 86_400_000);
        assert(u.times.filter(|t: u64| t + 24 * 60 * 60 * 1000 >= now) == u.times.filter(
            |t: u64| t + 86_400_000u64 >= now,
        )) by {
            assert((|t: u64| t + 24 * 60 * 60 * 1000 >= now) =~= (|t: u64|
                t + 86_400_000u64 >= now));
        }
    }
}

/// How far a cost has gone.
pub open spec fn cost_rank(c: CostLevel) -> int {
    match c {
        CostLevel::Plain => 0,
        CostLevel::Warn => 1,
        CostLevel::Heavy => 2,
        CostLevel::Exhausted => 3,
    }
}

/// One more call never makes a provider cheaper.
pub proof fn lemma_calls_cost(u: Usage, at: u64, now: u64, cfg: AbuseSensorConfig)
    requires
        cfg.warn_at_per_mille <= cfg.heavy_at_per_mille,
    ensures
        cost_rank(cost_of(Usage { times: u.times.push(at), ..u }, now, cfg)) >= cost_rank(
            cost_of(u, now, cfg),
        ),
{
    assert(u.times.push(at).drop_last() =~= u.times);
}

/// What one provider uses is counted against no other.
pub proof fn lemma_usages_apart(
    before: AbuseSensor,
    after: AbuseSensor,
    provider: ProviderId,
    u: Usage,
    p: ProviderId,
)
    requires
        after.is_set(before, provider, u),
    ensures
        after.usage_of(provider) == u,
        p != provider ==> after.usage_of(p) == before.usage_of(p),
        after.config() == before.config(),
        after.known().contains(provider.0),
{
}

} // verus!
