//! The plugins that are loaded, by provider, and the health of their providers.

use std::collections::BTreeMap;

use vstd::prelude::*;

use super::abuse_sensor::default_sensor;
use super::abuse_sensor::no_usage;
use super::abuse_sensor::AbuseSensor;
use super::abuse_sensor::Usage;
use super::capability_drift::after_refusal;
use super::capability_drift::unseen;
use super::capability_drift::CapabilityDriftDetector;
use super::circuit_breaker::after_failure;
use super::circuit_breaker::default_breaker;
use super::circuit_breaker::fresh;
use super::circuit_breaker::BreakerEntry;
use super::circuit_breaker::CircuitBreaker;
use super::circuit_breaker::CircuitBreakerConfig;
use super::host::after_error;
use super::host::after_success;
use super::host::class_of;
use super::host::classify_error;
use super::host::evaluated;
use super::host::kind_of;
use super::host::unknown_provider;
use super::host::HealthMonitor;
use super::host::HealthView;
use super::op_map::Op;
use super::rate_limit::default_policy;
use super::rate_limit::MiddlewarePolicy;
use super::rate_limit::RateLimitConfig;
use super::rate_limit::RateLimitProfile;
use super::window::front_pruned;
use super::PluginError;
use crate::ordered::keys_of;
use crate::ordered::lists_keys;
use crate::ordered::sorted_keys;
use crate::text::push_chars;
use crate::text::push_text;
use crate::text::string_of;
use crate::types::uuid_chars;
use crate::types::uuid_text;
use crate::types::CasTier;
use crate::types::ErrorClass;
use crate::types::ProviderHealth;
use crate::types::ProviderId;

verus! {

broadcast use {
    vstd::std_specs::btree::group_btree_axioms,
    vstd::laws_cmp::group_laws_cmp,
};

/// How calls to a chunk plugin are paced.
#[derive(Clone, PartialEq, Eq, Debug)]
pub struct Pacing {
    pub label: String,
    pub config: RateLimitConfig,
}

/// The plugins that are loaded. The plugins themselves are kept elsewhere, under the same
/// identifiers.
pub struct Host {
    /// The chunk plugins, and how each is paced.
    pub chunk_plugins: BTreeMap<u128, Option<Pacing>>,
    /// The vault plugins, and what each promises of writes.
    pub vault_plugins: BTreeMap<u128, CasTier>,
    /// The health of the providers.
    pub health: HealthMonitor,
    /// The breakers of the providers' operations.
    pub breaker: CircuitBreaker,
    /// How much each provider is used.
    pub abuse: AbuseSensor,
    /// Which operations turn out to be unsupported.
    pub drift: CapabilityDriftDetector,
}

/// The providers with these identifiers.
pub open spec fn providers(ids: Seq<u128>) -> Seq<ProviderId> {
    ids.map_values(|id: u128| ProviderId(id))
}

fn provider_ids(keys: &Vec<u128>) -> (r: Vec<ProviderId>)
    ensures
        r@ == providers(keys@),
{
    let mut out: Vec<ProviderId> = Vec::new();
    let mut i: usize = 0;
    while i < keys.len()
        invariant
            0 <= i <= keys@.len(),
            out@ == providers(keys@.take(i as int)),
        decreases keys@.len() - i,
    {
        out.push(ProviderId(keys[i]));
        i = i + 1;
        assert(out@ =~= providers(keys@.take(i as int)));
    }
    assert(keys@.take(i as int) =~= keys@);
    out
}

/// What a missing plugin is called.
fn missing(kind: &str, id: ProviderId) -> (r: PluginError)
    ensures
        r matches PluginError::NotFound(m) && m@ == kind@ + uuid_text(id.0),
{
    let mut t: Vec<char> = Vec::new();
    push_text(&mut t, kind);
    push_chars(&mut t, &uuid_chars(id.0));
    assert(t@ =~= kind@ + uuid_text(id.0));
    PluginError::NotFound(string_of(&t))
}

/// The use of a provider after one more operation.
pub open spec fn used_once(s: AbuseSensor, id: ProviderId, now: u64) -> Usage {
    Usage {
        times: front_pruned(s.usage_of(id).times.push(now), now, s.config().window_ms),
        ..s.usage_of(id)
    }
}

/// A breaker after a success.
pub open spec fn closer(e: BreakerEntry, cfg: CircuitBreakerConfig) -> BreakerEntry {
    super::circuit_breaker::after_success(e, cfg)
}

impl Host {
    /// The chunk plugins, and how each is paced, where it is.
    pub open spec fn chunks(self) -> Map<u128, Option<Pacing>> {
        self.chunk_plugins@
    }

    /// The vault plugins, and what each promises of writes.
    pub open spec fn vaults(self) -> Map<u128, CasTier> {
        self.vault_plugins@
    }

    /// The health of the providers.
    pub open spec fn monitor(self) -> HealthMonitor {
        self.health
    }

    /// Whether `self` has the plugins of `before`.
    pub open spec fn same_registry(self, before: Host) -> bool {
        self.chunks() == before.chunks() && self.vaults() == before.vaults()
    }

    /// Whether `self` is `before` but for the health of the providers.
    pub open spec fn same_plugins(self, before: Host) -> bool {
        &&& self.same_registry(before)
        &&& self.breaker == before.breaker
        &&& self.abuse == before.abuse
        &&& self.drift == before.drift
    }

    /// Whether `self` has seen what `before` has.
    pub open spec fn same_observers(self, before: Host) -> bool {
        &&& self.monitor() == before.monitor()
        &&& self.breaker == before.breaker
        &&& self.abuse == before.abuse
        &&& self.drift == before.drift
    }

    /// Whether `self` has seen what `before` has, but for the budget of one provider.
    pub open spec fn budgeted(self, before: Host, id: ProviderId, budget: Option<u32>) -> bool {
        &&& self.monitor() == before.monitor()
        &&& self.breaker == before.breaker
        &&& self.abuse.is_set(before.abuse, id, Usage { budget, ..before.abuse.usage_of(id) })
        &&& self.drift == before.drift
    }

    /// Whether the host has no plugins and has seen nothing of any provider.
    pub open spec fn is_fresh(self) -> bool {
        &&& self.chunks() == Map::<u128, Option<Pacing>>::empty()
        &&& self.vaults() == Map::<u128, CasTier>::empty()
        &&& self.monitor().known() == Set::<u128>::empty()
        &&& forall|id: ProviderId| #[trigger] self.monitor().record_of(id) == unknown_provider()
        &&& self.breaker.config() == default_breaker()
        &&& forall|id: ProviderId, op: Op| #[trigger]
            self.breaker.entry(id, op) == fresh(15_000) && !self.breaker.used(id, op)
        &&& self.abuse.config() == default_sensor()
        &&& self.abuse.known() == Set::<u128>::empty()
        &&& forall|id: ProviderId| #[trigger] self.abuse.usage_of(id) == no_usage()
        &&& self.drift.threshold() == 3
        &&& forall|id: ProviderId, op: Op| #[trigger]
            self.drift.seen(id, op) == unseen() && !self.drift.known(id, op)
    }

    /// A host without plugins.
    pub fn new() -> (r: Self)
        ensures
            r.is_fresh(),
    {
        Host {
            chunk_plugins: BTreeMap::new(),
            vault_plugins: BTreeMap::new(),
            health: HealthMonitor::default(),
            breaker: CircuitBreaker::default(),
            abuse: AbuseSensor::default(),
            drift: CapabilityDriftDetector::default(),
        }
    }

    /// Counts an error of a provider.
    pub fn record_error(&mut self, provider_id: ProviderId, err: &PluginError, now: u64)
        ensures
            final(self).same_plugins(*old(self)),
            final(self).monitor().changed(
                old(self).monitor(),
                provider_id,
                evaluated(
                    after_error(old(self).monitor().record_of(provider_id), class_of(*err), now),
                    now,
                ),
            ),
    {
        self.health.record(provider_id, classify_error(err), now);
    }

    /// Counts an error of a known class.
    pub fn record_class(&mut self, provider_id: ProviderId, class: ErrorClass, now: u64)
        ensures
            final(self).same_plugins(*old(self)),
            final(self).monitor().changed(
                old(self).monitor(),
                provider_id,
                evaluated(after_error(old(self).monitor().record_of(provider_id), class, now), now),
            ),
    {
        self.health.record(provider_id, class, now);
    }

    /// Counts a success of a provider.
    pub fn record_success(&mut self, provider_id: ProviderId, now: u64)
        ensures
            final(self).same_plugins(*old(self)),
            final(self).monitor().changed(
                old(self).monitor(),
                provider_id,
                evaluated(after_success(old(self).monitor().record_of(provider_id)), now),
            ),
    {
        self.health.note_success(provider_id, now);
    }

    /// Counts the outcome of a call, whatever it was.
    pub fn record_outcome(&mut self, provider_id: ProviderId, failure: Option<&PluginError>, now: u64)
        ensures
            final(self).same_plugins(*old(self)),
            final(self).monitor().changed(
                old(self).monitor(),
                provider_id,
                evaluated(
                    match failure {
                        None => after_success(old(self).monitor().record_of(provider_id)),
                        Some(e) => after_error(
                            old(self).monitor().record_of(provider_id),
                            class_of(*e),
                            now,
                        ),
                    },
                    now,
                ),
            ),
    {
        match failure {
            None => {
                self.record_success(provider_id, now);
            },
            Some(e) => {
                self.record_error(provider_id, e, now);
            },
        }
    }

    /// Counts the outcome of a call to an operation, wherever outcomes count: for the provider's
    /// health, for the operation's breaker, for the provider's use where the call succeeded, and
    /// for what the operation turns out to support.
    pub fn record_call(
        &mut self,
        provider_id: ProviderId,
        op: Op,
        failure: Option<&PluginError>,
        now: u64,
    )
        ensures
            final(self).same_registry(*old(self)),
            final(self).monitor().changed(
                old(self).monitor(),
                provider_id,
                evaluated(
                    match failure {
                        None => after_success(old(self).monitor().record_of(provider_id)),
                        Some(e) => after_error(
                            old(self).monitor().record_of(provider_id),
                            class_of(*e),
                            now,
                        ),
                    },
                    now,
                ),
            ),
            final(self).breaker.used(provider_id, op),
            match failure {
                None => {
                    &&& final(self).breaker.is_set(
                        old(self).breaker,
                        provider_id,
                        op,
                        closer(old(self).breaker.entry(provider_id, op), old(self).breaker.config()),
                    )
                    &&& final(self).abuse.is_set(
                        old(self).abuse,
                        provider_id,
                        used_once(old(self).abuse, provider_id, now),
                    )
                    &&& final(self).drift.is_set(old(self).drift, provider_id, op, unseen())
                },
                Some(e) => {
                    &&& final(self).breaker.is_set(
                        old(self).breaker,
                        provider_id,
                        op,
                        after_failure(
                            old(self).breaker.entry(provider_id, op),
                            old(self).breaker.config(),
                            now,
                        ),
                    )
                    &&& final(self).abuse == old(self).abuse
                    &&& if *e is NotSupported {
                        final(self).drift.is_set(
                            old(self).drift,
                            provider_id,
                            op,
                            after_refusal(
                                old(self).drift.seen(provider_id, op),
                                old(self).drift.threshold(),
                            ),
                        )
                    } else {
                        final(self).drift == old(self).drift
                    }
                },
            },
    {
        self.record_outcome(provider_id, failure, now);
        match failure {
            None => {
                self.breaker.record_success(provider_id, op);
                self.abuse.record_op(provider_id, now);
                self.drift.observe_success(provider_id, op);
            },
            Some(e) => {
                self.breaker.record_failure(provider_id, op, now);
                match e {
                    PluginError::NotSupported(_) => {
                        let _flips: bool = self.drift.observe_not_supported(provider_id, op);
                    },
                    _ => {},
                }
            },
        }
    }

    /// Where a provider stands.
    pub fn provider_health(&mut self, provider_id: ProviderId, now: u64) -> (r: ProviderHealth)
        ensures
            final(self).same_plugins(*old(self)),
            final(self).monitor().changed(
                old(self).monitor(),
                provider_id,
                evaluated(old(self).monitor().record_of(provider_id), now),
            ),
            kind_of(r) == evaluated(old(self).monitor().record_of(provider_id), now).kind,
    {
        self.health.state(provider_id, now)
    }

    /// Sets where a provider stands.
    pub fn force_health(&mut self, provider_id: ProviderId, state: ProviderHealth, now: u64)
        ensures
            final(self).same_plugins(*old(self)),
            final(self).monitor().changed(
                old(self).monitor(),
                provider_id,
                HealthView {
                    kind: kind_of(state),
                    since: Some(now),
                    ..old(self).monitor().record_of(provider_id)
                },
            ),
    {
        self.health.force(provider_id, state, now);
    }

    /// Where every provider that has been heard of stands, by increasing identifier.
    pub fn health_snapshot(&mut self, now: u64) -> (r: Vec<(ProviderId, ProviderHealth)>)
        ensures
            final(self).same_plugins(*old(self)),
            final(self).monitor().known() == old(self).monitor().known(),
            forall|id: ProviderId|
                #[trigger] final(self).monitor().record_of(id) == (if old(
                    self,
                ).monitor().known().contains(id.0) {
                    evaluated(old(self).monitor().record_of(id), now)
                } else {
                    unknown_provider()
                }),
            forall|k: u128| #[trigger]
                old(self).monitor().known().contains(k) <==> exists|i: int|
                    0 <= i < r@.len() && (#[trigger] r@[i]).0.0 == k,
            forall|i: int, j: int|
                0 <= i < j < r@.len() ==> (#[trigger] r@[i]).0.0 < (#[trigger] r@[j]).0.0,
            forall|i: int|
                0 <= i < r@.len() ==> kind_of((#[trigger] r@[i]).1) == evaluated(
                    old(self).monitor().record_of(r@[i].0),
                    now,
                ).kind,
    {
        let ghost before = self.health;
        let r = self.health.snapshot(now);
        proof {
            assert forall|i: int| 0 <= i < r@.len() implies kind_of((#[trigger] r@[i]).1)
                == evaluated(before.record_of(r@[i].0), now).kind by {
                assert(before.known().contains(r@[i].0.0));
                assert(self.health.record_of(r@[i].0) == evaluated(before.record_of(r@[i].0), now));
            }
        }
        r
    }

    /// What a vault plugin promises of writes.
    pub fn vault_cas_tier(&self, provider_id: ProviderId) -> (r: Option<CasTier>)
        ensures
            r == (if self.vaults().contains_key(provider_id.0) {
                Some(self.vaults()[provider_id.0])
            } else {
                None
            }),
    {
        match self.vault_plugins.get(&provider_id.0) {
            Some(t) => Some(*t),
            None => None,
        }
    }

    /// The vault plugins that promise at least so much of writes, by increasing identifier.
    pub fn vault_providers_at_least(&self, tier: CasTier) -> (r: Vec<ProviderId>)
        ensures
            r@ == providers(
                keys_of(self.vaults()).filter(|id: u128| self.vaults()[id].rank() >= tier.rank()),
            ),
    {
        let keys = sorted_keys(&self.vault_plugins);
        let ghost strong = |id: u128| self.vaults()[id].rank() >= tier.rank();
        let mut out: Vec<u128> = Vec::new();
        let mut i: usize = 0;
        proof {
            reveal(Seq::filter);
            assert(keys@.take(0) =~= Seq::<u128>::empty());
        }
        while i < keys.len()
            invariant
                0 <= i <= keys@.len(),
                lists_keys(keys@, self.vaults()),
                strong == (|id: u128| self.vaults()[id].rank() >= tier.rank()),
                out@ == keys@.take(i as int).filter(strong),
            decreases keys@.len() - i,
        {
            let k: u128 = keys[i];
            proof {
                reveal(Seq::filter);
                assert(keys@.take(i + 1).drop_last() =~= keys@.take(i as int));
                assert(self.vaults().contains_key(keys@[i as int]));
            }
            if let Some(t) = self.vault_plugins.get(&k) {
                if t.is_at_least(tier) {
                    out.push(k);
                }
            }
            i = i + 1;
        }
        assert(keys@.take(i as int) =~= keys@);
        provider_ids(&out)
    }

    /// Loads a chunk plugin, paced and budgeted as its profile says, under the host's usual policy.
    pub fn register_chunk(&mut self, id: ProviderId, profile: &RateLimitProfile)
        ensures
            final(self).vaults() == old(self).vaults(),
            final(self).budgeted(*old(self), id, profile.daily_op_budget),
            paced(*old(self), *final(self), id, *profile, default_policy()),
    {
        self.register_chunk_with_policy(id, profile, MiddlewarePolicy::default());
    }

    /// Loads a chunk plugin, paced and budgeted as its profile says, under a policy.
    pub fn register_chunk_with_policy(
        &mut self,
        id: ProviderId,
        profile: &RateLimitProfile,
        policy: MiddlewarePolicy,
    )
        ensures
            final(self).vaults() == old(self).vaults(),
            final(self).budgeted(*old(self), id, profile.daily_op_budget),
            paced(*old(self), *final(self), id, *profile, policy),
    {
        let mut t: Vec<char> = Vec::new();
        push_text(&mut t, "chunk:");
        push_text(&mut t, profile.label.as_str());
        push_text(&mut t, ":");
        push_chars(&mut t, &uuid_chars(id.0));
        assert(t@ =~= "chunk:"@ + profile.label@ + ":"@ + uuid_text(id.0));
        let pacing = Pacing {
            label: string_of(&t),
            config: RateLimitConfig::from_profile(profile, &policy),
        };
        let ghost p = pacing;
        self.abuse.set_budget(id, profile.daily_op_budget);
        self.chunk_plugins.insert(id.0, Some(pacing));
        assert(self.chunks() == old(self).chunks().insert(id.0, Some(p)));
    }

    /// Loads a chunk plugin without pacing.
    pub fn register_chunk_unpaced(&mut self, id: ProviderId)
        ensures
            final(self).vaults() == old(self).vaults(),
            final(self).same_observers(*old(self)),
            final(self).chunks() == old(self).chunks().insert(id.0, None),
    {
        self.chunk_plugins.insert(id.0, None);
    }

    /// Loads a chunk plugin, paced as a configuration says.
    pub fn register_chunk_with_config(&mut self, id: ProviderId, config: RateLimitConfig)
        ensures
            final(self).vaults() == old(self).vaults(),
            final(self).same_observers(*old(self)),
            exists|p: Pacing|
                #![trigger old(self).chunks().insert(id.0, Some(p))]
                final(self).chunks() == old(self).chunks().insert(id.0, Some(p)) && p.label@
                    == "chunk:"@ + uuid_text(id.0) && p.config == config,
    {
        let mut t: Vec<char> = Vec::new();
        push_text(&mut t, "chunk:");
        push_chars(&mut t, &uuid_chars(id.0));
        assert(t@ =~= "chunk:"@ + uuid_text(id.0));
        let pacing = Pacing { label: string_of(&t), config };
        let ghost p = pacing;
        self.chunk_plugins.insert(id.0, Some(pacing));
        assert(self.chunks() == old(self).chunks().insert(id.0, Some(p)));
    }

    /// Loads a vault plugin.
    pub fn register_vault(&mut self, id: ProviderId, tier: CasTier)
        ensures
            final(self).chunks() == old(self).chunks(),
            final(self).same_observers(*old(self)),
            final(self).vaults() == old(self).vaults().insert(id.0, tier),
    {
        self.vault_plugins.insert(id.0, tier);
    }

    /// Whether a chunk plugin is loaded.
    pub fn get_chunk(&self, id: ProviderId) -> (r: Result<(), PluginError>)
        ensures
            if self.chunks().contains_key(id.0) {
                r is Ok
            } else {
                r matches Err(PluginError::NotFound(m)) && m@ == "chunk plugin "@ + uuid_text(id.0)
            },
    {
        if self.chunk_plugins.contains_key(&id.0) {
            Ok(())
        } else {
            Err(missing("chunk plugin ", id))
        }
    }

    /// How a chunk plugin is paced, where it is loaded and paced.
    pub fn middleware_for(&self, id: ProviderId) -> (r: Option<&Pacing>)
        ensures
            match r {
                Some(p) => self.chunks().contains_key(id.0) && self.chunks()[id.0] == Some(*p),
                None => !self.chunks().contains_key(id.0) || self.chunks()[id.0] is None,
            },
    {
        match self.chunk_plugins.get(&id.0) {
            Some(p) => p.as_ref(),
            None => None,
        }
    }

    /// Whether a vault plugin is loaded.
    pub fn get_vault(&self, id: ProviderId) -> (r: Result<(), PluginError>)
        ensures
            if self.vaults().contains_key(id.0) {
                r is Ok
            } else {
                r matches Err(PluginError::NotFound(m)) && m@ == "vault plugin "@ + uuid_text(id.0)
            },
    {
        if self.vault_plugins.contains_key(&id.0) {
            Ok(())
        } else {
            Err(missing("vault plugin ", id))
        }
    }

    /// The chunk plugins, by increasing identifier.
    pub fn list_chunk(&self) -> (r: Vec<ProviderId>)
        ensures
            r@ == providers(keys_of(self.chunks())),
    {
        provider_ids(&sorted_keys(&self.chunk_plugins))
    }

    /// The vault plugins, by increasing identifier.
    pub fn list_vault(&self) -> (r: Vec<ProviderId>)
        ensures
            r@ == providers(keys_of(self.vaults())),
    {
        provider_ids(&sorted_keys(&self.vault_plugins))
    }
}

impl Default for Host {
    fn default() -> (r: Self)
        ensures
            r.is_fresh(),
    {
        Host::new()
    }
}

/// Whether a chunk plugin was loaded, paced as a profile says under a policy.
pub open spec fn paced(
    before: Host,
    after: Host,
    id: ProviderId,
    profile: RateLimitProfile,
    policy: MiddlewarePolicy,
) -> bool {
    exists|p: Pacing|
        #![trigger before.chunks().insert(id.0, Some(p))]
        after.chunks() == before.chunks().insert(id.0, Some(p)) && p.label@ == "chunk:"@
            + profile.label@ + ":"@ + uuid_text(id.0) && p.config == (RateLimitConfig {
            puts: profile.puts,
            gets: profile.gets,
            peeks: profile.peeks,
            deletes: profile.deletes,
            max_concurrent: profile.max_concurrent,
            policy,
        })
}

/// A use is counted at its time behind the earlier ones, and leaves the budget.
pub proof fn lemma_use_counted(s: AbuseSensor, id: ProviderId, now: u64)
    ensures
        used_once(s, id, now).budget == s.usage_of(id).budget,
        used_once(s, id, now).times.len() > 0,
        used_once(s, id, now).times.last() == now,
        used_once(s, id, now).times.len() <= s.usage_of(id).times.len() + 1,
{
    let all = s.usage_of(id).times.push(now);
    let at = super::window::lemma_pruned_front(all, now, s.config().window_ms);
    if at == all.len() {
        assert(all[all.len() - 1] + s.config().window_ms < now);
    }
}

/// Another budget for one provider leaves what it has used, and leaves all other providers.
pub proof fn lemma_budget_set(before: Host, after: Host, id: ProviderId, budget: Option<u32>, p: ProviderId)
    requires
        after.budgeted(before, id, budget),
    ensures
        after.abuse.usage_of(id).budget == budget,
        after.abuse.usage_of(id).times == before.abuse.usage_of(id).times,
        p != id ==> after.abuse.usage_of(p) == before.abuse.usage_of(p),
        after.monitor() == before.monitor(),
        after.breaker == before.breaker,
        after.drift == before.drift,
{
}

/// A provider that is paced is paced by its profile's limits under the policy, and every other
/// provider as before.
pub proof fn lemma_paced_by_profile(
    before: Host,
    after: Host,
    id: ProviderId,
    profile: RateLimitProfile,
    policy: MiddlewarePolicy,
    other: u128,
)
    requires
        paced(before, after, id, profile, policy),
        other != id.0,
    ensures
        after.chunks().contains_key(id.0),
        after.chunks()[id.0] matches Some(p) && p.config.puts == profile.puts && p.config.gets
            == profile.gets && p.config.peeks == profile.peeks && p.config.deletes
            == profile.deletes && p.config.max_concurrent == profile.max_concurrent
            && p.config.policy == policy,
        after.chunks().contains_key(other) == before.chunks().contains_key(other),
        before.chunks().contains_key(other) ==> after.chunks()[other] == before.chunks()[other],
{
}

/// A new host has no plugins and suspects nobody.
pub proof fn lemma_new_host_suspects_nobody(h: Host, id: ProviderId, op: Op, now: u64)
    requires
        h.is_fresh(),
    ensures
        !h.chunks().contains_key(id.0),
        !h.vaults().contains_key(id.0),
        evaluated(h.monitor().record_of(id), now).kind == super::host::HealthKind::Active,
        h.breaker.entry(id, op).state == super::circuit_breaker::CircuitState::Closed,
        h.abuse.usage_of(id).budget is None,
        !h.drift.seen(id, op).observed_unsupported,
{
    super::host::lemma_unknown_is_active(now);
    assert(h.breaker.entry(id, op) == fresh(15_000));
    assert(h.drift.seen(id, op) == unseen());
}

} // verus!
