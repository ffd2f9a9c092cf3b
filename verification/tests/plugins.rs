use openstorage::crypto::CryptoError;
use openstorage::crypto::sig::generate_keypair;
use openstorage::crypto::sig::sign;
use openstorage::crypto::SymKey;
use openstorage::entities::records::NativeHandle;
use openstorage::plugin_host::abuse_sensor::AbuseSensor;
use openstorage::plugin_host::abuse_sensor::AbuseSensorConfig;
use openstorage::plugin_host::abuse_sensor::CostLevel;
use openstorage::plugin_host::account_rotator::after_get;
use openstorage::plugin_host::account_rotator::after_update;
use openstorage::plugin_host::account_rotator::merge_profiles;
use openstorage::plugin_host::account_rotator::AccountRotator;
use openstorage::plugin_host::account_rotator::AccountStrategy;
use openstorage::plugin_host::account_rotator::FanOut;
use openstorage::plugin_host::capability_drift::CapabilityDriftDetector;
use openstorage::plugin_host::circuit_breaker::CircuitBreaker;
use openstorage::plugin_host::circuit_breaker::CircuitBreakerConfig;
use openstorage::plugin_host::circuit_breaker::CircuitState;
use openstorage::plugin_host::contract::CasOutcome;
use openstorage::plugin_host::host::classify_error;
use openstorage::plugin_host::host::HealthMonitor;
use openstorage::plugin_host::http::client::judge;
use openstorage::plugin_host::http::client::range_header;
use openstorage::plugin_host::http::client::HttpClientConfig;
use openstorage::plugin_host::http::error::status_to_plugin_error;
use openstorage::plugin_host::http::ratelimit::DefaultDetector;
use openstorage::plugin_host::http::ratelimit::DiscordDetector;
use openstorage::plugin_host::http::ratelimit::DiscordReply;
use openstorage::plugin_host::http::ratelimit::LimitHeaders;
use openstorage::plugin_host::http::ratelimit::RateLimitDetector;
use openstorage::plugin_host::http::ratelimit::RateLimitInfo;
use openstorage::plugin_host::http::ratelimit::TelegramDetector;
use openstorage::plugin_host::http::ratelimit::TelegramReply;
use openstorage::plugin_host::idempotency_tracker::IdempotencyTracker;
use openstorage::plugin_host::idempotency_tracker::IdempotencyTrackerConfig;
use openstorage::plugin_host::lifecycle::diff_capabilities;
use openstorage::plugin_host::lifecycle::verify_install;
use openstorage::plugin_host::lifecycle::verify_install_over;
use openstorage::plugin_host::lifecycle::LifecycleError;
use openstorage::plugin_host::lifecycle::OAuthCoordinator;
use openstorage::plugin_host::lifecycle::PluginManifest;
use openstorage::plugin_host::lifecycle::UserConfirmation;
use openstorage::plugin_host::local_dir::cas_decision;
use openstorage::plugin_host::local_dir::flatten;
use openstorage::plugin_host::local_dir::list_page;
use openstorage::plugin_host::local_dir::span_of;
use openstorage::plugin_host::local_dir::LocalDirPlugin;
use openstorage::plugin_host::op_map::Op;
use openstorage::plugin_host::pool::rank;
use openstorage::plugin_host::pool::DispatcherConfig;
use openstorage::plugin_host::pool::PoolDispatcher;
use openstorage::plugin_host::pool::RankedCandidate;
use openstorage::plugin_host::rate_limit::CapacitySnapshot;
use openstorage::plugin_host::rate_limit::MiddlewarePolicy;
use openstorage::plugin_host::rate_limit::RateLimitProfile;
use openstorage::plugin_host::rate_limit::RateLimitStats;
use openstorage::plugin_host::rate_limit::RetryAction;
use openstorage::plugin_host::rate_limit::RetryState;
use openstorage::plugin_host::registry::Host;
use openstorage::plugin_host::slotpool::SizeClass;
use openstorage::plugin_host::slotpool::SlotOwnerId;
use openstorage::plugin_host::slotpool::SlotPool;
use openstorage::plugin_host::slotpool::SlotState;
use openstorage::plugin_host::PluginError;
use openstorage::plugin_host::RateLimitScope;
use openstorage::types::Capability;
use openstorage::types::CapabilitySet;
use openstorage::types::CasTier;
use openstorage::types::CredentialsHandle;
use openstorage::types::Ed25519Priv;
use openstorage::types::Ed25519Pub;
use openstorage::types::Ed25519Sig;
use openstorage::types::ErrorClass;
use openstorage::types::LegalClass;
use openstorage::types::PluginId;
use openstorage::types::ProviderHealth;
use openstorage::types::ProviderId;
use openstorage::types::Range;
use openstorage::types::Timestamp;
use openstorage::types::UpdateCapability;

fn pid() -> ProviderId {
    ProviderId::new_v7()
}

// The times that follow are in milliseconds.

#[test]
fn unknown_provider_is_under_budget() {
    let s = AbuseSensor::default();
    assert!(!s.is_over_budget(pid(), 0));
    assert_eq!(s.cost_multiplier(pid(), 0), CostLevel::Plain);
}

#[test]
fn no_budget_means_never_over() {
    let mut s = AbuseSensor::default();
    let p = pid();
    s.set_budget(p, None);
    for _ in 0..100 {
        s.record_op(p, 0);
    }
    assert!(!s.is_over_budget(p, 0));
    assert_eq!(s.cost_multiplier(p, 0), CostLevel::Plain);
}

#[test]
fn zero_budget_is_immediately_over() {
    let mut s = AbuseSensor::default();
    let p = pid();
    s.set_budget(p, Some(0));
    assert!(s.is_over_budget(p, 0));
    assert_eq!(s.cost_multiplier(p, 0), CostLevel::Exhausted);
}

#[test]
fn over_budget_at_threshold() {
    let mut s = AbuseSensor::default();
    let p = pid();
    s.set_budget(p, Some(10));
    for _ in 0..9 {
        s.record_op(p, 0);
    }
    assert!(!s.is_over_budget(p, 0));
    s.record_op(p, 0);
    assert!(s.is_over_budget(p, 0));
}

#[test]
fn cost_multiplier_steps() {
    let mut s = AbuseSensor::default();
    let p = pid();
    s.set_budget(p, Some(100));
    assert_eq!(s.cost_multiplier(p, 0), CostLevel::Plain);
    for _ in 0..79 {
        s.record_op(p, 0);
    }
    assert_eq!(s.cost_multiplier(p, 0), CostLevel::Plain);
    s.record_op(p, 0);
    assert_eq!(s.cost_multiplier(p, 0), CostLevel::Warn);
    for _ in 0..15 {
        s.record_op(p, 0);
    }
    assert_eq!(s.cost_multiplier(p, 0), CostLevel::Heavy);
    for _ in 0..5 {
        s.record_op(p, 0);
    }
    assert_eq!(s.cost_multiplier(p, 0), CostLevel::Exhausted);
}

#[test]
fn rolling_window_prunes_stale_entries() {
    let mut s =
        AbuseSensor::with_config(AbuseSensorConfig { window_ms: 50, ..Default::default() });
    let p = pid();
    s.set_budget(p, Some(2));
    s.record_op(p, 0);
    s.record_op(p, 0);
    assert!(s.is_over_budget(p, 0));
    s.record_op(p, 80);
    assert_eq!(s.usage(p, 80), 1);
    assert!(!s.is_over_budget(p, 80));
}

#[test]
fn budget_change_takes_effect_immediately() {
    let mut s = AbuseSensor::default();
    let p = pid();
    s.set_budget(p, Some(10));
    for _ in 0..5 {
        s.record_op(p, 0);
    }
    assert!(!s.is_over_budget(p, 0));
    s.set_budget(p, Some(3));
    assert!(s.is_over_budget(p, 0));
    s.set_budget(p, Some(100));
    assert!(!s.is_over_budget(p, 0));
}

struct Accounts {
    rotator: AccountRotator,
    served: Vec<u32>,
    limited: Vec<bool>,
}

fn accounts(strategy: AccountStrategy, n: usize) -> Accounts {
    Accounts {
        rotator: AccountRotator::new(n, strategy),
        served: vec![0; n],
        limited: vec![false; n],
    }
}

fn limited() -> PluginError {
    PluginError::RateLimited { retry_after_ms: 10, scope: RateLimitScope::Global }
}

impl Accounts {
    fn put(&mut self) -> Result<usize, PluginError> {
        let mut put = self.rotator.begin_put();
        while let Some(i) = self.rotator.next_account(&mut put) {
            if self.limited[i] {
                if let Some(e) = put.failed(i, limited()) {
                    return Err(e);
                }
            } else {
                self.served[i] += 1;
                self.rotator.record_use(i);
                return Ok(i);
            }
        }
        Err(put.exhausted())
    }
}

#[test]
fn round_robin_distributes_evenly() {
    let mut a = accounts(AccountStrategy::RoundRobin, 3);
    for _ in 0..6 {
        a.put().unwrap();
    }
    assert_eq!(a.served, vec![2, 2, 2]);
    assert_eq!(a.rotator.usage_snapshot(), vec![2, 2, 2]);
}

#[test]
fn r8_saturating_one_account_rotates_to_next() {
    let mut a = accounts(AccountStrategy::RoundRobin, 3);
    for _ in 0..3 {
        a.put().unwrap();
    }
    assert_eq!(a.served, vec![1, 1, 1]);
    a.limited[0] = true;
    a.put().unwrap();
    a.put().unwrap();
    assert_eq!(a.served[0], 1, "saturated account should not have served further puts");
    assert_eq!(a.served[1] + a.served[2], 1 + 1 + 2);
}

#[test]
fn least_used_picks_minimum() {
    let mut a = accounts(AccountStrategy::LeastUsed, 3);
    for _ in 0..3 {
        a.put().unwrap();
    }
    assert_eq!(a.served, vec![1, 1, 1]);
}

#[test]
fn least_used_goes_on_past_a_saturated_account() {
    let mut a = accounts(AccountStrategy::LeastUsed, 3);
    a.limited[0] = true;
    assert_eq!(a.put().ok(), Some(1));
    assert_eq!(a.put().ok(), Some(2));
}

#[test]
fn all_saturated_returns_unavailable() {
    let mut a = accounts(AccountStrategy::RoundRobin, 2);
    a.limited = vec![true, true];
    assert!(matches!(a.put(), Err(PluginError::Unavailable(_))));
}

#[test]
fn get_falls_through_accounts_for_unknown_handle() {
    let unknown = PluginError::NotFound("not on this account".into());
    assert_eq!(after_get(Some(&unknown)), FanOut::Continue);
    assert_eq!(after_get(None), FanOut::Stop);
    assert_eq!(after_get(Some(&PluginError::AuthFailure)), FanOut::Stop);
    assert_eq!(after_update(Some(&PluginError::NotSupported("update"))), FanOut::Stop);
    assert_eq!(after_update(Some(&unknown)), FanOut::Continue);
}

#[test]
fn merged_profile_sums_rate_budgets() {
    let profiles =
        vec![RateLimitProfile::unbounded(), RateLimitProfile::unbounded(), RateLimitProfile::unbounded()];
    let p = merge_profiles(&profiles);
    assert!(p.puts.per_sec_milli >= 9_000_000);
    assert!(p.label.contains("rotator(3)"));
}

#[test]
fn unknown_provider_op_not_drifted() {
    let d = CapabilityDriftDetector::default();
    assert!(!d.is_observed_unsupported(pid(), Op::Delete));
}

#[test]
fn flips_after_threshold_consecutive_not_supported() {
    let mut d = CapabilityDriftDetector::default();
    let p = pid();
    assert!(!d.observe_not_supported(p, Op::Delete));
    assert!(!d.observe_not_supported(p, Op::Delete));
    assert!(d.observe_not_supported(p, Op::Delete));
    assert!(d.is_observed_unsupported(p, Op::Delete));
}

#[test]
fn success_clears_the_drift() {
    let mut d = CapabilityDriftDetector::default();
    let p = pid();
    for _ in 0..3 {
        d.observe_not_supported(p, Op::Delete);
    }
    assert!(d.is_observed_unsupported(p, Op::Delete));
    d.observe_success(p, Op::Delete);
    assert!(!d.is_observed_unsupported(p, Op::Delete));
}

#[test]
fn intermittent_success_resets_consecutive_count() {
    let mut d = CapabilityDriftDetector::default();
    let p = pid();
    d.observe_not_supported(p, Op::Delete);
    d.observe_not_supported(p, Op::Delete);
    d.observe_success(p, Op::Delete);
    d.observe_not_supported(p, Op::Delete);
    d.observe_not_supported(p, Op::Delete);
    assert!(!d.is_observed_unsupported(p, Op::Delete));
}

#[test]
fn drift_is_per_op() {
    let mut d = CapabilityDriftDetector::default();
    let p = pid();
    for _ in 0..3 {
        d.observe_not_supported(p, Op::Delete);
    }
    assert!(d.is_observed_unsupported(p, Op::Delete));
    assert!(!d.is_observed_unsupported(p, Op::Get));
}

#[test]
fn r9_recording_wrapper_flips_delete_after_threshold_not_supported() {
    let mut host = Host::new();
    let p = pid();
    assert!(!host.drift.is_observed_unsupported(p, Op::Delete));
    let refusal = PluginError::NotSupported("this provider does not honor delete");
    for _ in 0..3 {
        host.record_call(p, Op::Delete, Some(&refusal), 0);
    }
    assert!(host.drift.is_observed_unsupported(p, Op::Delete));
    assert!(!host.drift.is_observed_unsupported(p, Op::Get));
}

#[test]
fn effective_removes_drifted_delete_flag() {
    let mut d = CapabilityDriftDetector::default();
    let p = pid();
    let declared = CapabilitySet::default()
        .with(Capability::Put)
        .with(Capability::Get)
        .with(Capability::Delete);
    assert!(d.effective(p, &declared).has(Capability::Delete));
    for _ in 0..3 {
        d.observe_not_supported(p, Op::Delete);
    }
    let eff = d.effective(p, &declared);
    assert!(eff.has(Capability::Put));
    assert!(eff.has(Capability::Get));
    assert!(!eff.has(Capability::Delete));
}

fn breaker_short() -> CircuitBreaker {
    CircuitBreaker::with_config(CircuitBreakerConfig {
        failure_threshold: 3,
        initial_cooldown_ms: 50,
        max_cooldown_ms: 1_000,
        success_threshold_to_close: 2,
    })
}

#[test]
fn unknown_provider_op_pair_starts_closed() {
    let mut b = CircuitBreaker::default();
    assert_eq!(b.permits(pid(), Op::Put, 0), CircuitState::Closed);
}

#[test]
fn closed_to_open_after_threshold_failures() {
    let mut b = breaker_short();
    let p = pid();
    b.record_failure(p, Op::Put, 0);
    b.record_failure(p, Op::Put, 0);
    assert_eq!(b.permits(p, Op::Put, 0), CircuitState::Closed);
    b.record_failure(p, Op::Put, 0);
    assert!(matches!(b.permits(p, Op::Put, 0), CircuitState::Open { .. }));
}

#[test]
fn success_resets_failure_count() {
    let mut b = breaker_short();
    let p = pid();
    b.record_failure(p, Op::Put, 0);
    b.record_failure(p, Op::Put, 0);
    b.record_success(p, Op::Put);
    b.record_failure(p, Op::Put, 0);
    b.record_failure(p, Op::Put, 0);
    assert_eq!(b.permits(p, Op::Put, 0), CircuitState::Closed);
}

fn opened() -> (CircuitBreaker, ProviderId) {
    let mut b = breaker_short();
    let p = pid();
    for _ in 0..3 {
        b.record_failure(p, Op::Put, 0);
    }
    (b, p)
}

#[test]
fn open_to_halfopen_after_cooldown_elapses() {
    let (mut b, p) = opened();
    assert!(matches!(b.permits(p, Op::Put, 0), CircuitState::Open { .. }));
    assert_eq!(b.permits(p, Op::Put, 75), CircuitState::HalfOpen);
}

#[test]
fn halfopen_to_closed_after_success_threshold() {
    let (mut b, p) = opened();
    let _ = b.permits(p, Op::Put, 75);
    b.record_success(p, Op::Put);
    b.record_success(p, Op::Put);
    assert_eq!(b.permits(p, Op::Put, 75), CircuitState::Closed);
}

#[test]
fn halfopen_failure_returns_to_open_with_grown_cooldown() {
    let (mut b, p) = opened();
    let _ = b.permits(p, Op::Put, 75);
    b.record_failure(p, Op::Put, 75);
    assert_eq!(b.permits(p, Op::Put, 75), CircuitState::Open { until: 175 });
}

#[test]
fn per_op_state_is_independent() {
    let (mut b, p) = opened();
    assert!(matches!(b.permits(p, Op::Put, 0), CircuitState::Open { .. }));
    assert_eq!(b.permits(p, Op::Get, 0), CircuitState::Closed);
}

#[test]
fn permits_now_helper() {
    let now = 100_000u64;
    assert!(CircuitState::Closed.permits_now(now));
    assert!(CircuitState::HalfOpen.permits_now(now));
    assert!(CircuitState::Open { until: now - 1_000 }.permits_now(now));
    assert!(!CircuitState::Open { until: now + 60_000 }.permits_now(now));
}

#[test]
fn five_auth_errors_quarantine_provider() {
    let mut h = HealthMonitor::default();
    let id = pid();
    for _ in 0..5 {
        h.record(id, ErrorClass::Auth, 0);
    }
    assert!(matches!(
        h.state(id, 0),
        ProviderHealth::Quarantined { reason: ErrorClass::Auth, .. }
    ));
}

#[test]
fn isolated_auth_does_not_quarantine() {
    let mut h = HealthMonitor::default();
    let id = pid();
    h.record(id, ErrorClass::Auth, 0);
    h.record(id, ErrorClass::Auth, 0);
    assert_eq!(h.state(id, 0), ProviderHealth::Active);
}

#[test]
fn force_state_sticks() {
    let mut h = HealthMonitor::default();
    let id = pid();
    h.force(id, ProviderHealth::Banned { since: Timestamp::from_string("now") }, 0);
    assert!(h.state(id, 0).is_banned());
}

#[test]
fn classify_known_errors() {
    assert_eq!(classify_error(&PluginError::AuthFailure), ErrorClass::Auth);
    assert_eq!(classify_error(&PluginError::Unavailable("x".into())), ErrorClass::Network);
    assert_eq!(classify_error(&PluginError::NotFound("x".into())), ErrorClass::NotFound);
}

#[test]
fn old_errors_do_not_count() {
    let mut h = HealthMonitor::default();
    let id = pid();
    for i in 0..5u64 {
        h.record(id, ErrorClass::Auth, i * 20_000);
    }
    assert_eq!(h.state(id, 80_000), ProviderHealth::Active);
}

#[test]
fn three_successes_clear_a_network_quarantine() {
    let mut h = HealthMonitor::default();
    let id = pid();
    h.note_success(id, 0);
    h.note_success(id, 0);
    h.note_success(id, 0);
    for _ in 0..10 {
        h.record(id, ErrorClass::Network, 0);
    }
    assert!(matches!(h.state(id, 0), ProviderHealth::Quarantined { .. }));
    h.note_success(id, 70_000);
    h.note_success(id, 70_000);
    assert!(matches!(h.state(id, 70_000), ProviderHealth::Quarantined { .. }));
    h.note_success(id, 70_000);
    assert_eq!(h.state(id, 70_000), ProviderHealth::Active);
}

#[test]
fn a_cleared_quarantine_forgives_what_led_into_it() {
    let mut h = HealthMonitor::default();
    let id = pid();
    for i in 0..10 {
        h.record(id, ErrorClass::Network, i);
    }
    assert!(matches!(h.state(id, 10), ProviderHealth::Quarantined { .. }));
    for i in 11..14 {
        h.note_success(id, i);
    }
    assert_eq!(h.state(id, 14), ProviderHealth::Active);
    for i in 15..24 {
        h.record(id, ErrorClass::Network, i);
    }
    assert_eq!(h.state(id, 24), ProviderHealth::Active);
    h.record(id, ErrorClass::Network, 24);
    assert!(matches!(h.state(id, 24), ProviderHealth::Quarantined { .. }));
}

#[test]
fn a_rate_limited_account_gives_way_to_the_next() {
    let mut a = accounts(AccountStrategy::LeastUsed, 2);
    a.limited[0] = true;
    assert_eq!(a.put().ok(), Some(1));
    assert_eq!(a.rotator.usage_snapshot(), vec![0, 1]);
}

#[test]
fn a_telegram_reply_decides_before_the_headers() {
    let none = LimitHeaders { retry_after: None, reset_after_secs: None };
    let reply = TelegramReply { ok: Some(false), error_code: Some(429), retry_after: Some(3) };
    let got = TelegramDetector.decide(200, &none, reply).unwrap();
    assert_eq!(got.retry_after_ms, 3_000);
    let fine = TelegramReply { ok: Some(true), ..reply };
    assert!(TelegramDetector.decide(200, &none, fine).is_none());
    let other = TelegramReply { error_code: Some(400), ..reply };
    assert!(TelegramDetector.decide(200, &none, other).is_none());
    let bare = TelegramReply { retry_after: None, ..reply };
    assert_eq!(TelegramDetector.decide(200, &none, bare).unwrap().retry_after_ms, 1_000);
    for body in [&b"no json"[..], b"[]", b"{\"ok\":0,\"error_code\":429}", b"{\"ok\":false}"] {
        assert!(TelegramDetector.detect(200, &none, body).is_none());
    }
}

#[test]
fn a_long_quarantine_without_success_is_a_ban() {
    let mut h = HealthMonitor::default();
    let id = pid();
    for _ in 0..5 {
        h.record(id, ErrorClass::Auth, 0);
    }
    assert!(!h.state(id, 299_999).is_banned());
    assert!(h.state(id, 300_000).is_banned());
}

#[test]
fn five_real_auth_failures_quarantine_provider_without_explicit_record_error() {
    let mut host = Host::new();
    let p = pid();
    host.register_chunk_unpaced(p);
    assert!(matches!(host.provider_health(p, 0), ProviderHealth::Active));
    host.get_chunk(p).expect("plugin");
    for _ in 0..5 {
        host.record_call(p, Op::Put, Some(&PluginError::AuthFailure), 0);
    }
    let st = host.provider_health(p, 0);
    assert!(
        matches!(st, ProviderHealth::Quarantined { reason: ErrorClass::Auth, .. }),
        "{:?}",
        st
    );
}

#[test]
fn successes_are_recorded_and_keep_provider_active() {
    let mut host = Host::new();
    let p = pid();
    host.register_chunk_unpaced(p);
    let flake = PluginError::Unavailable("flake".into());
    for n in 0..6 {
        if n % 2 == 0 {
            host.record_call(p, Op::Put, Some(&flake), 0);
        } else {
            host.record_call(p, Op::Put, None, 0);
        }
    }
    assert!(matches!(host.provider_health(p, 0), ProviderHealth::Active));
}

#[test]
fn the_host_knows_its_plugins() {
    let mut host = Host::new();
    let (a, b, c) = (ProviderId(1), ProviderId(2), ProviderId(3));
    host.register_vault(c, CasTier::StrongCas);
    host.register_vault(a, CasTier::EventualOnly);
    host.register_vault(b, CasTier::OptimisticCas);
    assert_eq!(host.list_vault(), vec![a, b, c]);
    assert_eq!(host.vault_providers_at_least(CasTier::OptimisticCas), vec![b, c]);
    assert_eq!(host.vault_cas_tier(b), Some(CasTier::OptimisticCas));
    assert_eq!(host.vault_cas_tier(ProviderId(9)), None);
    assert!(matches!(
        host.get_chunk(a),
        Err(PluginError::NotFound(m)) if m == "chunk plugin 00000000-0000-0000-0000-000000000001"
    ));
    host.register_chunk(a, &RateLimitProfile::conservative("slow"));
    assert_eq!(
        host.middleware_for(a).unwrap().label,
        "chunk:slow:00000000-0000-0000-0000-000000000001"
    );
    assert_eq!(host.list_chunk(), vec![a]);
    assert!(host.middleware_for(b).is_none());
    assert!(!host.abuse.is_over_budget(a, 0));
    let mut profile = RateLimitProfile::conservative("spent");
    profile.daily_op_budget = Some(1);
    host.register_chunk(b, &profile);
    assert!(!host.abuse.is_over_budget(b, 0));
    host.abuse.record_op(b, 0);
    assert!(host.abuse.is_over_budget(b, 0));
}

#[test]
fn rate_limit_passthrough() {
    let err = status_to_plugin_error(
        429,
        b"",
        Some(RateLimitInfo { retry_after_ms: 5_000, scope: RateLimitScope::Global }),
    );
    assert!(matches!(err, PluginError::RateLimited { .. }));
}

#[test]
fn _404_is_not_found() {
    assert!(matches!(status_to_plugin_error(404, b"", None), PluginError::Plugin(_)));
}

#[test]
fn _401_is_auth_failure() {
    assert!(matches!(status_to_plugin_error(401, b"", None), PluginError::AuthFailure));
}

#[test]
fn _500_is_unavailable() {
    assert!(matches!(status_to_plugin_error(503, b"", None), PluginError::Unavailable(_)));
}

#[test]
fn error_texts_quote_the_body() {
    assert!(matches!(
        status_to_plugin_error(418, b"teapot", None),
        PluginError::Plugin(m) if m.contains("418") && m.contains("teapot")
    ));
    assert!(matches!(
        status_to_plugin_error(418, &[0xFF], None),
        PluginError::Plugin(m) if m.contains("<binary>")
    ));
}

fn no_headers() -> LimitHeaders {
    LimitHeaders { retry_after: None, reset_after_secs: None }
}

fn retry_after(v: &str) -> LimitHeaders {
    LimitHeaders { retry_after: Some(v.to_string()), reset_after_secs: None }
}

fn reset_after(v: &str) -> LimitHeaders {
    let secs = v.parse::<f64>().ok().map(|s| s.ceil() as u64);
    LimitHeaders { retry_after: None, reset_after_secs: secs }
}

fn discord(status: u16, headers: &LimitHeaders, body: &[u8]) -> Option<RateLimitInfo> {
    let secs = serde_json::from_slice::<serde_json::Value>(body)
        .ok()
        .and_then(|v| v.get("retry_after").and_then(|x| x.as_f64()));
    DiscordDetector.detect_with(status, headers, body, secs.map(|s| (s * 1000.0) as u64))
}

#[test]
fn default_reads_retry_after_header() {
    let info = DefaultDetector.detect(429, &retry_after("30"), b"").unwrap();
    assert_eq!(info.retry_after_ms, 30_000);
    assert_eq!(info.scope, RateLimitScope::Global);
}

#[test]
fn default_falls_back_to_x_ratelimit() {
    let info = DefaultDetector.detect(429, &reset_after("12.7"), b"").unwrap();
    assert_eq!(info.retry_after_ms, 13_000);
}

#[test]
fn default_ignores_non_rate_limit_codes() {
    assert!(DefaultDetector.detect(404, &no_headers(), b"").is_none());
    assert!(DefaultDetector.detect(500, &no_headers(), b"").is_none());
}

#[test]
fn telegram_reads_body_retry_after() {
    let body = br#"{"ok":false,"error_code":429,"description":"Too Many Requests","parameters":{"retry_after":17}}"#;
    let info = TelegramDetector.detect(200, &no_headers(), body).unwrap();
    assert_eq!(info.retry_after_ms, 17_000);
}

#[test]
fn telegram_falls_back_to_header() {
    let info = TelegramDetector.detect(429, &retry_after("5"), b"{}").unwrap();
    assert_eq!(info.retry_after_ms, 5_000);
}

#[test]
fn discord_reads_body_retry_after_float() {
    let info = discord(
        429,
        &no_headers(),
        br#"{"message":"You are being rate limited.","retry_after":0.45,"global":true}"#,
    )
    .unwrap();
    assert_eq!(info.retry_after_ms, 450);
    assert_eq!(info.scope, RateLimitScope::Global);
}

#[test]
fn discord_distinguishes_bucket_scope() {
    let info = discord(429, &no_headers(), br#"{"retry_after":1.0,"global":false}"#).unwrap();
    assert_eq!(info.scope, RateLimitScope::Bucket);
}

#[test]
fn discord_waits_a_second_where_the_body_names_no_pause() {
    let info = discord(429, &retry_after("30"), br#"{"global":true}"#).unwrap();
    assert_eq!(info.retry_after_ms, 1_000);
    assert_eq!(info.scope, RateLimitScope::Global);
    let info = discord(429, &retry_after("30"), b"[]").unwrap();
    assert_eq!((info.retry_after_ms, info.scope), (1_000, RateLimitScope::Bucket));
    assert_eq!(discord(429, &no_headers(), br#"{"retry_after":0}"#).unwrap().retry_after_ms, 100);
    assert_eq!(discord(429, &retry_after("30"), b"oops").unwrap().retry_after_ms, 30_000);
    assert!(discord(200, &no_headers(), br#"{"retry_after":1}"#).is_none());
    let reply = DiscordReply { retry_after_ms: Some(7_000), global: None };
    let info = DiscordDetector.decide(429, &no_headers(), Some(reply)).unwrap();
    assert_eq!((info.retry_after_ms, info.scope), (7_000, RateLimitScope::Bucket));
}

#[test]
fn successes_are_not_judged_by_the_detector() {
    let body = br#"{"ok":false,"error_code":429}"#;
    assert!(judge(&TelegramDetector, 200, &no_headers(), body).is_ok());
    assert!(matches!(
        judge(&DefaultDetector, 429, &retry_after("2"), b""),
        Err(PluginError::RateLimited { retry_after_ms: 2_000, .. })
    ));
}

#[test]
fn spans_are_asked_for_inclusively() {
    assert_eq!(range_header(Range { start: 10, end: 20 }), "bytes=10-19");
    assert_eq!(range_header(Range { start: 0, end: 0 }), "bytes=0-0");
    assert_eq!(HttpClientConfig::default().user_agent, "openstorage/0.1");
}

#[test]
fn retry_after_is_at_least_a_second() {
    assert_eq!(PluginError::parse_retry_after(" 7 "), Some(7_000));
    assert_eq!(PluginError::parse_retry_after("0"), Some(1_000));
    assert_eq!(PluginError::parse_retry_after("soon"), None);
    assert!(matches!(
        PluginError::rate_limited_secs(0, RateLimitScope::Bucket),
        PluginError::RateLimited { retry_after_ms: 1_000, scope: RateLimitScope::Bucket }
    ));
}

#[test]
fn unknown_provider_is_reliable() {
    let t = IdempotencyTracker::default();
    assert!(!t.is_unreliable(pid(), 0));
}

#[test]
fn flips_unreliable_after_threshold() {
    let mut t = IdempotencyTracker::default();
    let p = pid();
    t.record_violation(p, 0);
    t.record_violation(p, 0);
    assert!(!t.is_unreliable(p, 0));
    t.record_violation(p, 0);
    assert!(t.is_unreliable(p, 0));
    assert_eq!(t.violation_count(p, 0), 3);
}

#[test]
fn rolling_window_prunes_stale() {
    let mut t = IdempotencyTracker::with_config(IdempotencyTrackerConfig {
        violations_to_derate: 2,
        observation_window_ms: 50,
    });
    let p = pid();
    t.record_violation(p, 0);
    t.record_violation(p, 0);
    assert!(t.is_unreliable(p, 0));
    t.record_violation(p, 80);
    assert_eq!(t.violation_count(p, 80), 1);
    assert!(!t.is_unreliable(p, 80));
}

fn encode_manifest(m: PluginManifest) -> Result<Vec<u8>, String> {
    Ok(format!("{m:?}").into_bytes())
}

fn manifest(legal: LegalClass, sk: &Ed25519Priv, pk: Ed25519Pub) -> PluginManifest {
    let mut m = PluginManifest {
        plugin_id: PluginId::new("org.test.plugin"),
        version: "1.0.0".into(),
        author_pubkey: pk,
        legal_class: legal,
        requested_capabilities: CapabilitySet::default(),
        source_url: "https://example.com/p.wasm".into(),
        signature: Ed25519Sig([0u8; 64]),
    };
    m.signature = sign(sk, &encode_manifest(m.unsigned()).unwrap());
    m
}

#[test]
fn install_signature_round_trip() {
    let (sk, pk) = generate_keypair();
    let m = manifest(LegalClass::Green, &sk, pk);
    verify_install(&m, encode_manifest, None, UserConfirmation::Confirm).unwrap();
}

#[test]
fn install_rejects_rotated_author() {
    let (sk, pk) = generate_keypair();
    let m = manifest(LegalClass::Green, &sk, pk);
    let (_other_sk, other_pk) = generate_keypair();
    let err = verify_install(&m, encode_manifest, Some(&other_pk), UserConfirmation::Confirm);
    assert!(matches!(err, Err(LifecycleError::AuthorRotated)));
}

#[test]
fn install_red_legal_requires_double_confirm() {
    let (sk, pk) = generate_keypair();
    let m = manifest(LegalClass::Red, &sk, pk);
    assert!(matches!(
        verify_install(&m, encode_manifest, None, UserConfirmation::Confirm),
        Err(LifecycleError::RedLegalClassUnconfirmed)
    ));
    verify_install(&m, encode_manifest, None, UserConfirmation::DoubleConfirm).unwrap();
}

#[test]
fn install_rejects_tampered_signature() {
    let (sk, pk) = generate_keypair();
    let mut m = manifest(LegalClass::Green, &sk, pk);
    m.version = "9.9.9".into();
    let err = verify_install(&m, encode_manifest, None, UserConfirmation::Confirm);
    assert!(matches!(err, Err(LifecycleError::SignatureInvalid)));
}

#[test]
fn every_field_of_a_manifest_is_signed() {
    let (sk, pk) = generate_keypair();
    let m = manifest(LegalClass::Green, &sk, pk);
    let mut changed = vec![m.clone(), m.clone(), m.clone(), m.clone()];
    changed[0].plugin_id = PluginId::new("org.test.other");
    changed[1].legal_class = LegalClass::Amber;
    changed[2].requested_capabilities = CapabilitySet::default().with(Capability::Delete);
    changed[3].source_url = "https://example.com/q.wasm".into();
    for c in &changed {
        let err = verify_install(c, encode_manifest, None, UserConfirmation::Confirm);
        assert!(matches!(err, Err(LifecycleError::SignatureInvalid)));
    }
    let failing = |_: PluginManifest| -> Result<Vec<u8>, String> { Err("full".into()) };
    assert!(matches!(
        verify_install(&m, failing, None, UserConfirmation::Confirm),
        Err(LifecycleError::Crypto(CryptoError::Input("encode")))
    ));
    let bytes = encode_manifest(m.unsigned()).unwrap();
    assert!(verify_install_over(&m, &bytes, None, UserConfirmation::Confirm).is_ok());
    assert!(verify_install_over(&m, b"other", None, UserConfirmation::Confirm).is_err());
}

#[test]
fn oauth_round_trip_wraps_token() {
    let mut coord = OAuthCoordinator::new();
    let session = coord.start(
        PluginId::new("org.test.oauth"),
        "https://provider/auth?state=xxx".into(),
        vec!["files.write".into()],
    );
    let mk = SymKey::from_bytes([5u8; 32]);
    let (_s, cred) = coord
        .complete(
            &session.state,
            b"raw-access-token",
            &vec!["files.write".into(), "files.read".into()],
            &mk,
        )
        .unwrap();
    assert_eq!(coord.pending_count(), 0);
    let recovered = coord.unwrap(&cred, &mk).unwrap().unwrap();
    assert_eq!(recovered, b"raw-access-token");
}

#[test]
fn oauth_insufficient_scope_rejected() {
    let mut coord = OAuthCoordinator::new();
    let session =
        coord.start(PluginId::new("org.test.oauth"), "url".into(), vec!["needs.write".into()]);
    let mk = SymKey::from_bytes([5u8; 32]);
    let err = coord.complete(&session.state, b"tok", &vec!["only.read".into()], &mk);
    assert!(matches!(err, Err(LifecycleError::OAuthInsufficientScope { .. })));
}

#[test]
fn oauth_cancel() {
    let mut coord = OAuthCoordinator::new();
    let s = coord.start(PluginId::new("org.test.oauth"), "url".into(), vec![]);
    coord.cancel(&s.state).unwrap();
    assert_eq!(coord.pending_count(), 0);
    assert!(matches!(coord.cancel(&s.state), Err(LifecycleError::OAuthSessionNotFound)));
}

#[test]
fn unknown_credentials_unwrap_to_nothing() {
    let coord = OAuthCoordinator::new();
    let mk = SymKey::from_bytes([5u8; 32]);
    assert!(coord.unwrap(&CredentialsHandle(vec![1u8; 16]), &mk).unwrap().is_none());
}

#[test]
fn capability_diff_detects_drift() {
    let prev =
        CapabilitySet::default().with(Capability::RangeRead).with(Capability::Tombstone);
    let current =
        CapabilitySet::default().with(Capability::RangeRead).with(Capability::QuotaReport);
    let d = diff_capabilities(&prev, &current);
    assert_eq!(d.gained.len(), 1);
    assert_eq!(d.lost.len(), 1);
    assert!(d.gained.contains(&"QuotaReport".into()));
    assert!(d.lost.contains(&"Tombstone".into()));
}

#[test]
fn capability_diff_empty_when_unchanged() {
    let prev = CapabilitySet::default().with(Capability::RangeRead);
    let current = prev.clone();
    let d = diff_capabilities(&prev, &current);
    assert!(d.is_empty());
}

#[test]
fn cas_write_first_succeeds_then_fails() {
    let first = cas_decision(None, None, b"v1");
    assert_eq!(first.outcome, CasOutcome::Written);
    let stale = cas_decision(Some(b"v1"), None, b"v2");
    assert_eq!(stale.outcome, CasOutcome::EtagMismatch);
    let ok = cas_decision(Some(b"v1"), first.new_etag, b"v2");
    assert_eq!(ok.outcome, CasOutcome::Written);
}

#[test]
fn names_become_single_path_segments() {
    let p = LocalDirPlugin::new("/var/objects");
    assert_eq!(p.root(), "/var/objects");
    assert_eq!(p.name_to_path("lease/v1"), "/var/objects/name:lease%2Fv1");
    assert_eq!(p.handle_to_path(&NativeHandle(vec![0xAB, 1])), "/var/objects/ab01");
    assert_eq!(flatten("a/b/c"), "a%2Fb%2Fc");
}

#[test]
fn spans_are_cut_to_the_object() {
    assert_eq!(span_of(b"hello", None), b"hello");
    assert_eq!(span_of(b"hello", Some(Range { start: 1, end: 3 })), b"el");
    assert_eq!(span_of(b"hello", Some(Range { start: 3, end: 99 })), b"lo");
}

#[test]
fn listings_come_in_pages() {
    let files: Vec<String> =
        ["name:a%2F1", "name:a%2F2", "name:b%2F1"].iter().map(|s| s.to_string()).collect();
    let page = list_page(&files, "a/", 1, &[]);
    assert_eq!(page.files.len(), 1);
    let rest = list_page(&files, "a/", 10, &page.next_cursor.unwrap());
    assert_eq!(rest.files.len(), 1);
    assert!(rest.next_cursor.is_none());
}

fn candidate(id: ProviderId, wait: u64, tokens: u64) -> RankedCandidate {
    RankedCandidate {
        provider_id: id,
        snapshot: CapacitySnapshot {
            tokens_milli: tokens,
            estimated_wait_us: wait,
            cooldown_remaining_us: 0,
            inflight: 0,
        },
    }
}

#[test]
fn single_candidate_degenerates_to_direct_call() {
    let id = pid();
    let cfg = DispatcherConfig::default();
    let mut breaker = CircuitBreaker::default();
    let mut d = PoolDispatcher::begin(&vec![candidate(id, 0, 1_000)], cfg).unwrap();
    assert_eq!(d.next(&mut breaker, Op::Put, 0, cfg), Some(id));
    assert_eq!(d.won(), (1, 0));
}

#[test]
fn put_dispatcher_skips_open_candidates() {
    let mut host = Host::new();
    let (primary, secondary) = (pid(), pid());
    for _ in 0..5 {
        host.breaker.record_failure(primary, Op::Put, 0);
    }
    assert!(matches!(host.breaker.permits(primary, Op::Put, 0), CircuitState::Open { .. }));
    assert_eq!(host.breaker.permits(secondary, Op::Put, 0), CircuitState::Closed);
    let cfg = DispatcherConfig::default();
    let both = vec![candidate(primary, 0, 1_000), candidate(secondary, 0, 1_000)];
    let mut d = PoolDispatcher::begin(&both, cfg).unwrap();
    assert_eq!(d.next(&mut host.breaker, Op::Put, 0, cfg), Some(secondary));
    let (attempts, skipped) = d.won();
    assert_eq!((attempts, skipped), (1, 1));
}

#[test]
fn ranking_prefers_least_loaded() {
    let (busy, free) = (pid(), pid());
    let ranked = rank(&vec![candidate(busy, 2_000_000, 0), candidate(free, 0, 1_024_000)]);
    assert_eq!(ranked[0].provider_id, free);
}

#[test]
fn a_dispatch_ends_with_the_last_reason() {
    let id = pid();
    let cfg = DispatcherConfig::default();
    let mut breaker = CircuitBreaker::default();
    assert!(matches!(PoolDispatcher::begin(&vec![], cfg), Err(PluginError::Plugin(_))));
    let mut d = PoolDispatcher::begin(&vec![candidate(id, 0, 0)], cfg).unwrap();
    d.next(&mut breaker, Op::Get, 0, cfg);
    assert!(d.failed(limited()).is_none());
    assert!(d.next(&mut breaker, Op::Get, 0, cfg).is_none());
    assert!(matches!(
        d.exhausted(),
        PluginError::RateLimited { retry_after_ms: 10, scope: RateLimitScope::Global }
    ));
}

#[test]
fn rate_limited_calls_eventually_succeed() {
    let policy = MiddlewarePolicy { jitter_us: 0, ..MiddlewarePolicy::default() };
    let mut stats = RateLimitStats::default();
    let mut st = RetryState::new(&policy);
    let mut waited: u128 = 0;
    for _ in 0..5 {
        let e = PluginError::RateLimited { retry_after_ms: 50, scope: RateLimitScope::Global };
        match st.on_error(&policy, e, 0, &mut stats) {
            RetryAction::WaitForBackend { us } => waited += us,
            _ => panic!("a rate limit is waited out"),
        }
    }
    RetryState::on_success(&mut stats);
    assert!(waited >= 240_000);
    assert_eq!(stats.successful_calls, 1);
    assert_eq!(stats.rate_limit_hits, 5);
    assert!(stats.waited_for_rate_limit_total_ms >= 240);
}

#[test]
fn transient_failures_are_tried_five_times() {
    let policy = MiddlewarePolicy::default();
    let mut stats = RateLimitStats::default();
    let mut st = RetryState::new(&policy);
    let mut waits: Vec<u128> = Vec::new();
    loop {
        match st.on_error(&policy, PluginError::Io("down".into()), 0, &mut stats) {
            RetryAction::BackOff { us } => waits.push(us),
            RetryAction::Return(_) => break,
            RetryAction::WaitForBackend { .. } => panic!("no rate limit here"),
        }
    }
    assert_eq!(waits[0], 250_000);
    assert_eq!(waits[1], 500_000);
    assert_eq!(stats.gave_up, 1);
}

fn dummy_handle(tag: u8) -> NativeHandle {
    NativeHandle(vec![tag; 8])
}

#[test]
fn size_class_rounds_up_to_power_of_two_min_4kib() {
    assert_eq!(SizeClass::ceiling(0).bytes(), 4 * 1024);
    assert_eq!(SizeClass::ceiling(1).bytes(), 4 * 1024);
    assert_eq!(SizeClass::ceiling(4 * 1024).bytes(), 4 * 1024);
    assert_eq!(SizeClass::ceiling(4 * 1024 + 1).bytes(), 8 * 1024);
    assert_eq!(SizeClass::ceiling(1_048_576).bytes(), 1_048_576);
    assert_eq!(SizeClass::ceiling(1_048_577).bytes(), 2 * 1_048_576);
}

#[test]
fn size_class_fits_predicate() {
    let cls = SizeClass::ceiling(1_048_576);
    assert!(cls.fits(1));
    assert!(cls.fits(1_000_000));
    assert!(cls.fits(1_048_576));
    assert!(!cls.fits(1_048_577));
}

#[test]
fn allocate_yields_pending_slot_with_no_owner() {
    let mut pool = SlotPool::new();
    let id = pool.allocate(pid(), UpdateCapability::TrueUpdate, SizeClass::ceiling(1024));
    let s = pool.get(id).unwrap();
    assert_eq!(s.state, SlotState::Pending);
    assert!(s.owner.is_none());
    assert!(s.current_handle.is_none());
}

#[test]
fn r4_same_owner_lookup_returns_filled_slot_and_handle() {
    let mut pool = SlotPool::new();
    let id = pool.allocate(pid(), UpdateCapability::TrueUpdate, SizeClass::ceiling(1024));
    let owner: SlotOwnerId = [42u8; 32];
    let h = dummy_handle(0xAB);
    pool.mark_filled(id, owner, h.clone(), 800);
    let found = pool.lookup_owner(&owner).expect("owner indexed");
    assert_eq!(found.slot_id, id);
    assert_eq!(found.state, SlotState::Filled);
    assert_eq!(found.current_handle.as_ref(), Some(&h));
    assert_eq!(found.owner, Some(owner));
}

#[test]
fn release_marks_forgotten_and_clears_owner_index() {
    let mut pool = SlotPool::new();
    let id = pool.allocate(pid(), UpdateCapability::TrueUpdate, SizeClass::ceiling(1024));
    let owner: SlotOwnerId = [9u8; 32];
    pool.mark_filled(id, owner, dummy_handle(0xCD), 100);
    pool.release(id);
    let s = pool.get(id).unwrap();
    assert_eq!(s.state, SlotState::Forgotten);
    assert!(s.owner.is_none());
    assert!(s.current_handle.is_some());
    assert!(pool.lookup_owner(&owner).is_none());
}

#[test]
fn r5_find_forgotten_then_rebind_hands_handle_to_new_owner() {
    let mut pool = SlotPool::new();
    let p = pid();
    let class = SizeClass::ceiling(2 * 1024 * 1024);
    let id = pool.allocate(p, UpdateCapability::TrueUpdate, class);
    let owner_a: SlotOwnerId = [1u8; 32];
    let h = dummy_handle(0x11);
    pool.mark_filled(id, owner_a, h.clone(), 1_500_000);
    pool.release(id);
    let owner_b: SlotOwnerId = [2u8; 32];
    let candidate = pool.find_forgotten(p, 1_500_000).expect("forgotten match");
    assert_eq!(candidate.slot_id, id);
    let prior_handle = pool.rebind(candidate.slot_id, owner_b).expect("rebind");
    assert_eq!(prior_handle, h);
    let s = pool.get(id).unwrap();
    assert_eq!(s.state, SlotState::Pending);
    assert_eq!(s.owner, Some(owner_b));
    assert_eq!(s.reuse_count, 2);
}

#[test]
fn find_forgotten_skips_wrong_provider() {
    let mut pool = SlotPool::new();
    let p1 = pid();
    let p2 = pid();
    let id = pool.allocate(p1, UpdateCapability::TrueUpdate, SizeClass::ceiling(1024));
    pool.mark_filled(id, [3u8; 32], dummy_handle(0xEE), 100);
    pool.release(id);
    assert!(pool.find_forgotten(p2, 100).is_none());
    assert!(pool.find_forgotten(p1, 100).is_some());
}

#[test]
fn find_forgotten_skips_too_small_slots() {
    let mut pool = SlotPool::new();
    let p = pid();
    let small = pool.allocate(p, UpdateCapability::TrueUpdate, SizeClass::ceiling(4 * 1024));
    pool.mark_filled(small, [4u8; 32], dummy_handle(0xAA), 1024);
    pool.release(small);
    assert!(pool.find_forgotten(p, 100 * 1024).is_none());
}

#[test]
fn find_forgotten_skips_non_update_capable_providers() {
    let mut pool = SlotPool::new();
    let p = pid();
    let id = pool.allocate(p, UpdateCapability::Unsupported, SizeClass::ceiling(1024));
    pool.mark_filled(id, [5u8; 32], dummy_handle(0xBB), 100);
    pool.release(id);
    assert!(pool.find_forgotten(p, 100).is_none());
}

#[test]
fn pending_erasure_lists_truu_update_forgotten_only() {
    let mut pool = SlotPool::new();
    let p = pid();
    let a = pool.allocate(p, UpdateCapability::TrueUpdate, SizeClass::ceiling(1024));
    pool.mark_filled(a, [0u8; 32], dummy_handle(0xA1), 100);
    let b = pool.allocate(p, UpdateCapability::TrueUpdate, SizeClass::ceiling(1024));
    pool.mark_filled(b, [1u8; 32], dummy_handle(0xB1), 100);
    pool.release(b);
    let c = pool.allocate(p, UpdateCapability::AtomicReplace, SizeClass::ceiling(1024));
    pool.mark_filled(c, [2u8; 32], dummy_handle(0xC1), 100);
    pool.release(c);
    let pending = pool.pending_erasure();
    assert_eq!(pending.len(), 1);
    assert_eq!(pending[0].slot_id, b);
}

#[test]
fn mark_erased_transitions_forgotten_to_empty_only() {
    let mut pool = SlotPool::new();
    let id = pool.allocate(pid(), UpdateCapability::TrueUpdate, SizeClass::ceiling(1024));
    pool.mark_filled(id, [0u8; 32], dummy_handle(0xEE), 100);
    pool.mark_erased(id);
    assert_eq!(pool.get(id).unwrap().state, SlotState::Filled);
    pool.release(id);
    pool.mark_erased(id);
    assert_eq!(pool.get(id).unwrap().state, SlotState::Empty);
}

#[test]
fn rebind_accepts_empty_slot() {
    let mut pool = SlotPool::new();
    let id = pool.allocate(pid(), UpdateCapability::TrueUpdate, SizeClass::ceiling(1024));
    pool.mark_filled(id, [0u8; 32], dummy_handle(0xEE), 100);
    pool.release(id);
    pool.mark_erased(id);
    let h = pool.rebind(id, [9u8; 32]);
    assert!(h.is_some());
    assert_eq!(pool.get(id).unwrap().state, SlotState::Pending);
}

#[test]
fn rebind_refuses_filled_slots() {
    let mut pool = SlotPool::new();
    let id = pool.allocate(pid(), UpdateCapability::TrueUpdate, SizeClass::ceiling(1024));
    pool.mark_filled(id, [6u8; 32], dummy_handle(0xDD), 100);
    assert!(pool.rebind(id, [7u8; 32]).is_none());
}

#[test]
fn slot_for_handle_round_trips() {
    let mut pool = SlotPool::new();
    let p = pid();
    let id = pool.allocate(p, UpdateCapability::TrueUpdate, SizeClass::ceiling(1024));
    let h = dummy_handle(0x77);
    pool.mark_filled(id, [11u8; 32], h.clone(), 100);
    assert_eq!(pool.slot_for_handle(p, &h), Some(id));
    assert!(pool.release_by_handle(p, &h));
    assert_eq!(pool.slot_for_handle(p, &h), Some(id));
    let s = pool.get(id).unwrap();
    assert_eq!(s.state, SlotState::Forgotten);
}

#[test]
fn rebind_refuses_non_update_capable_providers() {
    let mut pool = SlotPool::new();
    let id = pool.allocate(pid(), UpdateCapability::Unsupported, SizeClass::ceiling(1024));
    pool.mark_filled(id, [8u8; 32], dummy_handle(0xCC), 100);
    pool.release(id);
    assert!(pool.rebind(id, [9u8; 32]).is_none());
}

#[test]
fn forced_health_is_listed() {
    let mut host = Host::new();
    let (a, b) = (ProviderId(1), ProviderId(2));
    host.force_health(b, ProviderHealth::Banned { since: Timestamp::from_string("t") }, 5);
    for _ in 0..5 {
        host.record_class(a, ErrorClass::Auth, 10);
    }
    let all = host.health_snapshot(10);
    assert_eq!(all.len(), 2);
    assert_eq!(all[0].0, a);
    assert!(matches!(&all[0].1, ProviderHealth::Quarantined { reason: ErrorClass::Auth, .. }));
    assert_eq!(all[1].0, b);
    assert!(matches!(&all[1].1, ProviderHealth::Banned { since } if since.as_str() == "t"));
    assert!(host.provider_health(b, 1_000_000).is_banned());
}
