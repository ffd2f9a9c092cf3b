use std::collections::HashSet;

use openstorage::entities::records::Provider;
use openstorage::placement::consistent_hash;
use openstorage::placement::eligibility_filter;
use openstorage::placement::pick_shards_for_chunk;
use openstorage::placement::select_ec_scheme;
use openstorage::placement::ChunkRole;
use openstorage::placement::DiversityPolicy;
use openstorage::placement::EcTargets;
use openstorage::placement::HostProfile;
use openstorage::placement::MutabilityIntent;
use openstorage::placement::PlacementError;
use openstorage::placement::PlacementRequest;
use openstorage::placement::PoolEntry;
use openstorage::placement::PoolSnapshot;
use openstorage::types::CapabilitySet;
use openstorage::types::CasTier;
use openstorage::types::ChunkHash;
use openstorage::types::CredentialsHandle;
use openstorage::types::ECScheme;
use openstorage::types::HealthScore;
use openstorage::types::LegalClass;
use openstorage::types::PluginId;
use openstorage::types::ProviderId;
use openstorage::types::QuotaState;
use openstorage::types::TrustCorrelationGroup;
use openstorage::types::UpdateCapability;

fn entry(group: &str) -> PoolEntry {
    PoolEntry {
        provider_id: ProviderId::new_v7(),
        trust_group: TrustCorrelationGroup::new(group),
        health: HealthScore(1000),
        remaining_quota: Some(1_000_000),
        tier_match_milli: 1000,
        user_weight_milli: 1000,
        capabilities: CapabilitySet::default(),
        max_object_bytes: None,
        cas_tier: None,
        update_capability: UpdateCapability::Unsupported,
    }
}

fn entry_with_cap(group: &str, cap: u64) -> PoolEntry {
    let mut e = entry(group);
    e.max_object_bytes = Some(cap);
    e
}

fn pool_of(groups: &[&str]) -> PoolSnapshot {
    PoolSnapshot { providers: groups.iter().map(|g| entry(g)).collect() }
}

fn numbered(n: usize) -> PoolSnapshot {
    PoolSnapshot { providers: (0..n).map(|i| entry(&format!("g{i}"))).collect() }
}

fn weight(p: &PoolEntry) -> f64 {
    let quota = p.remaining_quota.unwrap_or(u64::MAX) as f64;
    let quota_factor = (quota / (1.0 + quota)).clamp(0.0, 1.0);
    quota_factor
        * (p.health.0 as f64 / 1000.0)
        * (p.tier_match_milli as f64 / 1000.0)
        * (p.user_weight_milli as f64 / 1000.0)
}

fn scores(req: &PlacementRequest, pool: &PoolSnapshot) -> Vec<Vec<u64>> {
    (0..req.scheme.n)
        .map(|shard| {
            pool.providers
                .iter()
                .map(|p| {
                    let h = consistent_hash(req.chunk_hash, shard, p.provider_id);
                    let r = (h as f64 + 1.0) / (u64::MAX as f64 + 2.0);
                    (-r.ln() / weight(p)).abs().to_bits()
                })
                .collect()
        })
        .collect()
}

fn pick(
    req: &PlacementRequest,
    pool: &PoolSnapshot,
) -> Result<Vec<(u8, ProviderId)>, PlacementError> {
    pick_shards_for_chunk(req, pool, DiversityPolicy::default(), &scores(req, pool))
}

#[test]
fn distinct_groups_assigned() {
    let pool = pool_of(&["a", "b", "c", "d"]);
    let scheme = ECScheme::new(2, 3).unwrap();
    let req = PlacementRequest::for_chunk(ChunkHash::from_bytes([1u8; 32]), 1024, scheme);
    let picks = pick(&req, &pool).unwrap();
    assert_eq!(picks.len(), 3);
    let groups: HashSet<_> = picks
        .iter()
        .map(|(_, pid)| {
            pool.providers.iter().find(|p| p.provider_id == *pid).unwrap().trust_group.clone()
        })
        .collect();
    assert_eq!(groups.len(), 3);
}

#[test]
fn deterministic_for_same_inputs() {
    let pool = pool_of(&["a", "b", "c", "d"]);
    let scheme = ECScheme::new(2, 3).unwrap();
    let req = PlacementRequest::for_chunk(ChunkHash::from_bytes([7u8; 32]), 1024, scheme);
    let a = pick(&req, &pool).unwrap();
    let b = pick(&req, &pool).unwrap();
    assert_eq!(a, b);
}

#[test]
fn placement_request_carries_chunk_bytes() {
    let scheme = ECScheme::new(1, 1).unwrap();
    let req =
        PlacementRequest::for_chunk(ChunkHash::from_bytes([0u8; 32]), 4 * 1024 * 1024, scheme);
    assert_eq!(req.chunk_bytes, 4 * 1024 * 1024);
    assert_eq!(req.scheme.k, 1);
    assert_eq!(req.scheme.n, 1);
    assert_eq!(req.role, ChunkRole::Chunk);
    assert_eq!(req.mutability_intent, MutabilityIntent::Immutable);
}

#[test]
fn ec_selection_replication_when_pool_small() {
    let s = select_ec_scheme(&pool_of(&["a", "b"]), EcTargets::default());
    assert_eq!((s.k, s.n), (1, 2));
}

#[test]
fn ec_selection_replication_factor_bounded_by_groups() {
    let pool = pool_of(&["a", "b", "c", "d", "e"]);
    let s = select_ec_scheme(&pool, EcTargets { k_target: 1, n_max: 13 });
    assert_eq!((s.k, s.n), (1, 5));
}

#[test]
fn ec_selection_picks_parity_scheme_when_pool_large() {
    let s = select_ec_scheme(&numbered(7), EcTargets { k_target: 4, n_max: 13 });
    assert_eq!((s.k, s.n), (4, 7));
}

#[test]
fn ec_selection_falls_back_when_groups_below_threshold() {
    let s = select_ec_scheme(&numbered(4), EcTargets { k_target: 4, n_max: 13 });
    assert_eq!((s.k, s.n), (1, 4));
}

#[test]
fn ec_selection_caps_at_n_max() {
    let s = select_ec_scheme(&numbered(20), EcTargets { k_target: 4, n_max: 7 });
    assert_eq!((s.k, s.n), (4, 7));
}

#[test]
fn ec_selection_single_group_means_no_redundancy() {
    let s = select_ec_scheme(&pool_of(&["solo", "solo"]), EcTargets::default());
    assert_eq!((s.k, s.n), (1, 1));
}

#[test]
fn ec_selection_counts_many_groups() {
    let s = select_ec_scheme(&numbered(256), EcTargets { k_target: 4, n_max: 13 });
    assert_eq!((s.k, s.n), (4, 13));
}

#[test]
fn enrich_populates_host_profile() {
    let pool_provider = entry("a");
    let pid = pool_provider.provider_id;
    let mut snap = PoolSnapshot { providers: vec![pool_provider] };
    assert_eq!(snap.providers[0].max_object_bytes, None);
    snap.enrich(|qid: ProviderId| {
        assert_eq!(qid, pid);
        HostProfile {
            max_object_bytes: Some(200 * 1024 * 1024),
            cas_tier: Some(CasTier::EventualOnly),
            update_capability: UpdateCapability::Unsupported,
        }
    });
    assert_eq!(snap.providers[0].max_object_bytes, Some(200 * 1024 * 1024));
    assert_eq!(snap.providers[0].cas_tier, Some(CasTier::EventualOnly));
}

#[test]
fn eligibility_filter_drops_oversize_caps() {
    let small = entry_with_cap("paste-rs", 64 * 1024);
    let medium = entry_with_cap("uguu", 128 * 1024 * 1024);
    let large = entry_with_cap("catbox", 200 * 1024 * 1024);
    let pool = PoolSnapshot { providers: vec![small.clone(), medium.clone(), large.clone()] };
    let scheme = ECScheme::new(1, 2).unwrap();
    let req =
        PlacementRequest::for_chunk(ChunkHash::from_bytes([2u8; 32]), 2 * 1024 * 1024, scheme);
    let filtered = eligibility_filter(&req, &pool);
    let groups: HashSet<_> = filtered.providers.iter().map(|p| p.trust_group.clone()).collect();
    assert!(!groups.contains(&small.trust_group));
    assert!(groups.contains(&medium.trust_group));
    assert!(groups.contains(&large.trust_group));
}

#[test]
fn eligibility_filter_unknown_cap_passes_through() {
    let pool = pool_of(&["a", "b"]);
    let scheme = ECScheme::new(1, 2).unwrap();
    let req = PlacementRequest::for_chunk(
        ChunkHash::from_bytes([0u8; 32]),
        10 * 1024 * 1024 * 1024,
        scheme,
    );
    let filtered = eligibility_filter(&req, &pool);
    assert_eq!(filtered.providers.len(), 2);
}

#[test]
fn errors_when_too_few_groups() {
    let pool = pool_of(&["a", "a"]);
    let scheme = ECScheme::new(2, 3).unwrap();
    let req = PlacementRequest::for_chunk(ChunkHash::from_bytes([0u8; 32]), 1024, scheme);
    let res = pick(&req, &pool);
    assert!(matches!(res, Err(PlacementError::InsufficientGroups { .. })));
}

#[test]
fn without_weight_nothing_is_placed() {
    let mut full = entry("a");
    full.remaining_quota = Some(0);
    let pool = PoolSnapshot { providers: vec![full] };
    let req = PlacementRequest::for_chunk(
        ChunkHash::from_bytes([0u8; 32]),
        1,
        ECScheme::new(1, 1).unwrap(),
    );
    assert_eq!(pick(&req, &pool), Err(PlacementError::Impossible));
    let none = PoolSnapshot { providers: vec![] };
    assert_eq!(pick(&req, &none), Err(PlacementError::Impossible));
}

#[test]
fn draws_are_the_head_of_a_digest() {
    let pid = ProviderId(5);
    let mut input = vec![9u8; 32];
    input.push(3);
    input.extend(5u128.to_be_bytes());
    let expected = u64::from_be_bytes(blake3::hash(&input).as_bytes()[..8].try_into().unwrap());
    assert_eq!(consistent_hash(ChunkHash::from_bytes([9u8; 32]), 3, pid), expected);
}

#[test]
fn providers_become_entries() {
    let p = Provider {
        provider_id: ProviderId(1),
        plugin_id: PluginId::new("p"),
        instance_label: "i".into(),
        credentials_handle: CredentialsHandle(vec![]),
        capabilities: CapabilitySet::default(),
        legal_class: LegalClass::Green,
        trust_correlation_group: TrustCorrelationGroup::new("g"),
        quota: QuotaState { total: Some(10), used: Some(4), untrusted: false },
        health: HealthScore(700),
        untrusted_quota: false,
    };
    let snap = PoolSnapshot::from_providers(&vec![p]);
    assert_eq!(snap.providers[0].remaining_quota, Some(6));
    assert_eq!(snap.providers[0].health, HealthScore(700));
    assert_eq!(snap.providers[0].tier_match_milli, 1000);
}
