//! Placement: which provider holds which shard of a chunk.
//!
//! Every shard draws a number for every provider; the number, the provider's weight and the
//! logarithm in between make a score, and the lowest score wins. Scores are fractions, so they are
//! computed outside and come here as integers in the same order.

use vstd::prelude::*;

use crate::bytes::append;
use crate::bytes::be128;
use crate::bytes::lemma_be128_round_trip;
use crate::bytes::of_be64;
use crate::bytes::push_be128;
use crate::bytes::read_be64;
use crate::bytes::slice_of;
use crate::crypto::hash::blake3_32;
use crate::crypto::hash::blake3_digest;
use crate::entities::records::Provider;
use crate::text::str_eq;
use crate::types::CapabilitySet;
use crate::types::CasTier;
use crate::types::ChunkHash;
use crate::types::ECScheme;
use crate::types::HealthScore;
use crate::types::ProviderId;
use crate::types::Tier;
use crate::types::TrustCorrelationGroup;
use crate::types::UpdateCapability;

verus! {

/// Why no placement was found.
#[derive(Clone, Copy, PartialEq, Eq, Structural, Debug)]
pub enum PlacementError {
    Impossible,
    InsufficientGroups { have: usize, need: usize },
    SizeExceedsAllCaps { chunk_bytes: u64 },
}

/// What a chunk is for.
#[derive(Clone, Copy, PartialEq, Eq, Structural, Debug)]
pub enum ChunkRole {
    Chunk,
    SnapshotPointer,
    Lease,
    Share,
    Identity,
    Coordination,
}

/// How a chunk is read and written.
#[derive(Clone, Copy, PartialEq, Eq, Structural, Debug)]
pub enum AccessPattern {
    Standard,
    ReadMostly,
    WriteOnce,
    RewriteFrequent,
    Hot,
}

/// How precious a chunk is.
#[derive(Clone, Copy, PartialEq, Eq, Structural, Debug)]
pub enum RedundancyClass {
    Standard,
    Critical,
    Sacrificial,
}

/// How long a chunk is needed.
#[derive(Clone, Copy, PartialEq, Eq, Structural, Debug)]
pub enum ExpectedLifetime {
    Persistent,
    Bounded { days: u32 },
    Unknown,
}

/// Whether a chunk will be written again.
#[derive(Clone, Copy, PartialEq, Eq, Structural, Debug)]
pub enum MutabilityIntent {
    Immutable,
    UpdatableSlot,
    Append,
}

/// The form in which a chunk arrives.
#[derive(Clone, Copy, PartialEq, Eq, Structural, Debug)]
pub enum ContentShape {
    Opaque,
    TextOnly,
    ImageWrapped,
}

/// Where a chunk may be kept.
#[derive(Clone, Copy, PartialEq, Eq, Structural, Debug)]
pub enum ConfidentialityClass {
    Standard,
    NoCachedElsewhere,
    Sovereign,
}

/// Where a chunk was before.
#[derive(Clone, Copy, PartialEq, Eq, Structural, Debug)]
pub struct PriorAssignment {
    pub provider_id: ProviderId,
    pub slot_id: Option<u64>,
}

/// What is asked of placement.
#[derive(Clone, Copy, PartialEq, Eq, Debug)]
pub struct PlacementRequest {
    pub chunk_hash: ChunkHash,
    pub chunk_bytes: u64,
    pub scheme: ECScheme,
    pub tier: Tier,
    pub role: ChunkRole,
    pub access_pattern: AccessPattern,
    pub redundancy_class: RedundancyClass,
    pub expected_lifetime: ExpectedLifetime,
    pub mutability_intent: MutabilityIntent,
    pub content_shape: ContentShape,
    pub trust_required: ConfidentialityClass,
    pub deadline_ms: Option<u64>,
    pub previous_assignment: Option<PriorAssignment>,
}

impl PlacementRequest {
    /// A plain request to write a chunk.
    pub fn for_chunk(chunk_hash: ChunkHash, chunk_bytes: u64, scheme: ECScheme) -> (r: Self)
        ensures
            r == (PlacementRequest {
                chunk_hash,
                chunk_bytes,
                scheme,
                tier: Tier::Hot,
                role: ChunkRole::Chunk,
                access_pattern: AccessPattern::Standard,
                redundancy_class: RedundancyClass::Standard,
                expected_lifetime: ExpectedLifetime::Persistent,
                mutability_intent: MutabilityIntent::Immutable,
                content_shape: ContentShape::Opaque,
                trust_required: ConfidentialityClass::Standard,
                deadline_ms: None,
                previous_assignment: None,
            }),
    {
        PlacementRequest {
            chunk_hash,
            chunk_bytes,
            scheme,
            tier: Tier::Hot,
            role: ChunkRole::Chunk,
            access_pattern: AccessPattern::Standard,
            redundancy_class: RedundancyClass::Standard,
            expected_lifetime: ExpectedLifetime::Persistent,
            mutability_intent: MutabilityIntent::Immutable,
            content_shape: ContentShape::Opaque,
            trust_required: ConfidentialityClass::Standard,
            deadline_ms: None,
            previous_assignment: None,
        }
    }
}

/// A provider as placement sees it. The match with the tier and the user's weight are in
/// thousandths.
#[derive(Clone, Debug)]
pub struct PoolEntry {
    pub provider_id: ProviderId,
    pub trust_group: TrustCorrelationGroup,
    pub health: HealthScore,
    pub remaining_quota: Option<u64>,
    pub tier_match_milli: u32,
    pub user_weight_milli: u32,
    pub capabilities: CapabilitySet,
    pub max_object_bytes: Option<u64>,
    pub cas_tier: Option<CasTier>,
    pub update_capability: UpdateCapability,
}

/// What the loaded plugin of a provider declares.
#[derive(Clone, Copy, PartialEq, Eq, Structural, Debug)]
pub struct HostProfile {
    pub max_object_bytes: Option<u64>,
    pub cas_tier: Option<CasTier>,
    pub update_capability: UpdateCapability,
}

impl Default for HostProfile {
    fn default() -> (r: Self)
        ensures
            r == (HostProfile {
                max_object_bytes: None,
                cas_tier: None,
                update_capability: UpdateCapability::Unsupported,
            }),
    {
        HostProfile {
            max_object_bytes: None,
            cas_tier: None,
            update_capability: UpdateCapability::Unsupported,
        }
    }
}

impl PoolEntry {
    /// A copy of the entry.
    pub fn copied(&self) -> (r: Self)
        ensures
            r == *self,
    {
        PoolEntry {
            provider_id: self.provider_id,
            trust_group: self.trust_group.copied(),
            health: self.health,
            remaining_quota: self.remaining_quota,
            tier_match_milli: self.tier_match_milli,
            user_weight_milli: self.user_weight_milli,
            capabilities: self.capabilities,
            max_object_bytes: self.max_object_bytes,
            cas_tier: self.cas_tier,
            update_capability: self.update_capability,
        }
    }

    /// Whether the provider can be chosen at all: none of its weight's factors is zero.
    pub open spec fn weighs(self) -> bool {
        self.remaining_quota != Some(0u64) && self.health.0 > 0 && self.tier_match_milli > 0
            && self.user_weight_milli > 0
    }

    /// Whether the provider can be chosen at all.
    pub fn has_weight(&self) -> (r: bool)
        ensures
            r == self.weighs(),
            r == ((self.remaining_quota is None || self.remaining_quota.unwrap() > 0)
                && self.health.0 > 0 && self.tier_match_milli > 0 && self.user_weight_milli > 0),
    {
        let room: bool = match self.remaining_quota {
            Some(q) => q > 0,
            None => true,
        };
        room && self.health.0 > 0 && self.tier_match_milli > 0 && self.user_weight_milli > 0
    }

    /// Whether an object of a size can go there, as far as is known.
    pub open spec fn takes(self, bytes: u64) -> bool {
        match self.max_object_bytes {
            Some(cap) => bytes <= cap,
            None => true,
        }
    }
}

/// The providers of a vault.
#[derive(Clone, Debug)]
pub struct PoolSnapshot {
    pub providers: Vec<PoolEntry>,
}

/// What is left of a quota, where both halves of it are known.
pub open spec fn quota_left(p: Provider) -> Option<u64> {
    match (p.quota.total, p.quota.used) {
        (Some(t), Some(u)) => Some(if t >= u {
            (t - u) as u64
        } else {
            0
        }),
        _ => None,
    }
}

/// The entry of a provider whose plugin is not known yet.
pub open spec fn entry_of(p: Provider) -> PoolEntry {
    PoolEntry {
        provider_id: p.provider_id,
        trust_group: p.trust_correlation_group,
        health: p.health,
        remaining_quota: quota_left(p),
        tier_match_milli: 1000,
        user_weight_milli: 1000,
        capabilities: p.capabilities,
        max_object_bytes: None,
        cas_tier: None,
        update_capability: UpdateCapability::Unsupported,
    }
}

/// An entry with what the plugin declares.
pub open spec fn enriched(e: PoolEntry, prof: HostProfile) -> PoolEntry {
    PoolEntry {
        max_object_bytes: prof.max_object_bytes,
        cas_tier: prof.cas_tier,
        update_capability: prof.update_capability,
        ..e
    }
}

/// Whether an entry became another by what `profile_for` gave for its provider.
pub open spec fn enriched_by<F: Fn(ProviderId) -> HostProfile>(
    profile_for: F,
    before: PoolEntry,
    after: PoolEntry,
) -> bool {
    exists|prof: HostProfile|
        #[trigger] profile_for.ensures((before.provider_id,), prof) && after == enriched(before, prof)
}

impl PoolSnapshot {
    /// The entries of a vault's providers, in order.
    pub fn from_providers(providers: &Vec<Provider>) -> (r: Self)
        ensures
            r.providers@ == providers@.map_values(|p: Provider| entry_of(p)),
            r.providers@.len() == providers@.len(),
            forall|i: int|
                #![trigger r.providers@[i]]
                0 <= i < providers@.len() ==> r.providers@[i].provider_id
                    == providers@[i].provider_id && r.providers@[i].trust_group
                    == providers@[i].trust_correlation_group && r.providers@[i].health
                    == providers@[i].health && r.providers@[i].capabilities
                    == providers@[i].capabilities && (match (
                    providers@[i].quota.total,
                    providers@[i].quota.used,
                ) {
                    (Some(t), Some(u)) => r.providers@[i].remaining_quota is Some
                        && r.providers@[i].remaining_quota.unwrap() == (if t > u {
                        t - u
                    } else {
                        0
                    }),
                    _ => r.providers@[i].remaining_quota is None,
                }) && r.providers@[i].tier_match_milli == 1000 && r.providers@[i].user_weight_milli
                    == 1000 && r.providers@[i].max_object_bytes is None,
    {
        let mut out: Vec<PoolEntry> = Vec::new();
        let mut i: usize = 0;
        while i < providers.len()
            invariant
                0 <= i <= providers@.len(),
                out@.len() == i,
                forall|j: int| 0 <= j < i ==> #[trigger] out@[j] == entry_of(providers@[j]),
            decreases providers@.len() - i,
        {
            let p = &providers[i];
            let remaining_quota: Option<u64> = match (p.quota.total, p.quota.used) {
                (Some(t), Some(u)) => Some(
                    if t >= u {
                        t - u
                    } else {
                        0
                    },
                ),
                _ => None,
            };
            out.push(
                PoolEntry {
                    provider_id: p.provider_id,
                    trust_group: p.trust_correlation_group.copied(),
                    health: p.health,
                    remaining_quota,
                    tier_match_milli: 1000,
                    user_weight_milli: 1000,
                    capabilities: p.capabilities,
                    max_object_bytes: None,
                    cas_tier: None,
                    update_capability: UpdateCapability::Unsupported,
                },
            );
            i = i + 1;
        }
        assert(out@ =~= providers@.map_values(|p: Provider| entry_of(p)));
        PoolSnapshot { providers: out }
    }

    /// Takes over what each provider's plugin declares.
    pub fn enrich<F: Fn(ProviderId) -> HostProfile>(&mut self, profile_for: F)
        requires
            forall|p: ProviderId| #[trigger] profile_for.requires((p,)),
        ensures
            final(self).providers@.len() == old(self).providers@.len(),
            forall|i: int|
                0 <= i < old(self).providers@.len() ==> enriched_by(
                    profile_for,
                    old(self).providers@[i],
                    #[trigger] final(self).providers@[i],
                ),
    {
        let ghost before = self.providers@;
        let mut out: Vec<PoolEntry> = Vec::new();
        let mut i: usize = 0;
        while i < self.providers.len()
            invariant
                0 <= i <= self.providers@.len(),
                self.providers@ == before,
                out@.len() == i,
                forall|p: ProviderId| #[trigger] profile_for.requires((p,)),
                forall|j: int|
                    0 <= j < i ==> enriched_by(profile_for, before[j], #[trigger] out@[j]),
            decreases self.providers@.len() - i,
        {
            let e = &self.providers[i];
            let prof = profile_for(e.provider_id);
            let mut n = e.copied();
            n.max_object_bytes = prof.max_object_bytes;
            n.cas_tier = prof.cas_tier;
            n.update_capability = prof.update_capability;
            let ghost was = out@;
            out.push(n);
            proof {
                assert(profile_for.ensures((before[i as int].provider_id,), prof));
                assert(enriched_by(profile_for, before[i as int], n));
                assert forall|j: int| 0 <= j < i + 1 implies enriched_by(
                    profile_for,
                    before[j],
                    #[trigger] out@[j],
                ) by {
                    if j < i {
                        assert(out@[j] == was[j]);
                    }
                }
            }
            i = i + 1;
        }
        self.providers = out;
    }
}

/// The entries that can take an object of a size, in order.
pub open spec fn eligible(entries: Seq<PoolEntry>, bytes: u64) -> Seq<PoolEntry> {
    entries.filter(|e: PoolEntry| e.takes(bytes))
}

/// The part of a pool that can take the chunk of a request.
pub fn eligibility_filter(req: &PlacementRequest, pool: &PoolSnapshot) -> (r: PoolSnapshot)
    ensures
        r.providers@ == eligible(pool.providers@, req.chunk_bytes),
        forall|e: PoolEntry| #[trigger]
            r.providers@.contains(e) <==> pool.providers@.contains(e) && (e.max_object_bytes is None
                || req.chunk_bytes <= e.max_object_bytes.unwrap()),
{
    let mut out: Vec<PoolEntry> = Vec::new();
    let ghost keeps = |e: PoolEntry| e.takes(req.chunk_bytes);
    let mut i: usize = 0;
    proof {
        reveal(Seq::filter);
        assert(pool.providers@.take(0) =~= Seq::<PoolEntry>::empty());
    }
    while i < pool.providers.len()
        invariant
            0 <= i <= pool.providers@.len(),
            keeps == (|e: PoolEntry| e.takes(req.chunk_bytes)),
            out@ == pool.providers@.take(i as int).filter(keeps),
        decreases pool.providers@.len() - i,
    {
        let e = &pool.providers[i];
        let fits: bool = match e.max_object_bytes {
            Some(cap) => req.chunk_bytes <= cap,
            None => true,
        };
        proof {
            reveal(Seq::filter);
            assert(pool.providers@.take(i + 1).drop_last() =~= pool.providers@.take(i as int));
            assert(keeps(*e) == fits);
        }
        if fits {
            out.push(e.copied());
        }
        i = i + 1;
    }
    assert(pool.providers@.take(i as int) =~= pool.providers@);
    proof {
        lemma_eligible_exactly(pool.providers@, req.chunk_bytes);
    }
    PoolSnapshot { providers: out }
}

/// What diversity is asked of a placement.
#[derive(Clone, Copy, PartialEq, Eq, Structural, Debug)]
pub struct DiversityPolicy {
    pub require_distinct_trust_groups: bool,
    pub prefer_legal_diversity: bool,
}

impl Default for DiversityPolicy {
    fn default() -> (r: Self)
        ensures
            r.require_distinct_trust_groups,
            r.prefer_legal_diversity,
    {
        DiversityPolicy { require_distinct_trust_groups: true, prefer_legal_diversity: true }
    }
}

/// The wanted number of data shards, and the bound on all shards.
#[derive(Clone, Copy, PartialEq, Eq, Structural, Debug)]
pub struct EcTargets {
    pub k_target: u8,
    pub n_max: u8,
}

impl Default for EcTargets {
    fn default() -> (r: Self)
        ensures
            r == (EcTargets { k_target: 1, n_max: 13 }),
    {
        EcTargets { k_target: 1, n_max: 13 }
    }
}

/// The trust groups of the entries.
pub open spec fn groups(entries: Seq<PoolEntry>) -> Set<Seq<char>> {
    entries.map_values(|e: PoolEntry| e.trust_group.0@).to_set()
}

/// Whether an entry belongs to a group.
pub open spec fn has_group(entries: Seq<PoolEntry>, g: Seq<char>) -> bool {
    exists|i: int| 0 <= i < entries.len() && #[trigger] entries[i].trust_group.0@ == g
}

proof fn lemma_groups(entries: Seq<PoolEntry>)
    ensures
        groups(entries).finite(),
        groups(entries).len() <= entries.len(),
        forall|g: Seq<char>| #[trigger] groups(entries).contains(g) == has_group(entries, g),
        entries.len() > 0 ==> groups(entries).len() > 0,
{
    let m = entries.map_values(|e: PoolEntry| e.trust_group.0@);
    m.lemma_cardinality_of_set();
    assert forall|g: Seq<char>| #[trigger] groups(entries).contains(g) == has_group(entries, g) by {
        if has_group(entries, g) {
            let i = choose|i: int|
                0 <= i < entries.len() && #[trigger] entries[i].trust_group.0@ == g;
            assert(m[i] == g);
        }
        if m.contains(g) {
            let i = choose|i: int| 0 <= i < m.len() && m[i] == g;
            assert(entries[i].trust_group.0@ == g);
        }
    }
    if entries.len() > 0 {
        assert(m[0] == entries[0].trust_group.0@);
        assert(groups(entries).contains(m[0]));
        assert(groups(entries).len() != 0) by {
            if groups(entries).len() == 0 {
                groups(entries).lemma_len0_is_empty();
            }
        }
    }
}

proof fn lemma_groups_push(entries: Seq<PoolEntry>, e: PoolEntry)
    ensures
        groups(entries.push(e)) == groups(entries).insert(e.trust_group.0@),
{
    lemma_groups(entries);
    lemma_groups(entries.push(e));
    let g = e.trust_group.0@;
    assert forall|x: Seq<char>| groups(entries.push(e)).contains(x) == groups(entries).insert(
        g,
    ).contains(x) by {
        if has_group(entries.push(e), x) {
            let i = choose|i: int|
                0 <= i < entries.len() + 1 && #[trigger] entries.push(e)[i].trust_group.0@ == x;
            if i < entries.len() {
                assert(entries[i].trust_group.0@ == x);
            }
        }
        if has_group(entries, x) {
            let i = choose|i: int|
                0 <= i < entries.len() && #[trigger] entries[i].trust_group.0@ == x;
            assert(entries.push(e)[i].trust_group.0@ == x);
        }
        assert(entries.push(e)[entries.len() as int].trust_group.0@ == g);
    }
    assert(groups(entries.push(e)) =~= groups(entries).insert(g));
}

/// Whether one of the first `n` entries has a group.
fn group_before(entries: &Vec<PoolEntry>, n: usize, g: &TrustCorrelationGroup) -> (r: bool)
    requires
        n <= entries@.len(),
    ensures
        r == has_group(entries@.take(n as int), g.0@),
{
    let mut i: usize = 0;
    while i < n
        invariant
            0 <= i <= n <= entries@.len(),
            forall|j: int| 0 <= j < i ==> #[trigger] entries@[j].trust_group.0@ != g.0@,
        decreases n - i,
    {
        if str_eq(entries[i].trust_group.0.as_str(), g.0.as_str()) {
            assert(entries@.take(n as int)[i as int].trust_group.0@ == g.0@);
            return true;
        }
        i = i + 1;
    }
    assert forall|j: int| 0 <= j < n implies #[trigger] entries@.take(n as int)[j].trust_group.0@
        != g.0@ by {
        assert(entries@[j].trust_group.0@ != g.0@);
    }
    false
}

/// How many trust groups there are.
fn count_groups(entries: &Vec<PoolEntry>) -> (r: usize)
    ensures
        r == groups(entries@).len(),
{
    let mut n: usize = 0;
    let mut i: usize = 0;
    proof {
        lemma_groups(entries@.take(0));
    }
    while i < entries.len()
        invariant
            0 <= i <= entries@.len(),
            n <= i,
            n == groups(entries@.take(i as int)).len(),
        decreases entries@.len() - i,
    {
        proof {
            assert(entries@.take(i + 1) =~= entries@.take(i as int).push(entries@[i as int]));
            lemma_groups_push(entries@.take(i as int), entries@[i as int]);
            lemma_groups(entries@.take(i as int));
        }
        if !group_before(entries, i, &entries[i].trust_group) {
            n = n + 1;
        } else {
            assert(groups(entries@.take(i as int)).insert(entries@[i as int].trust_group.0@)
                =~= groups(entries@.take(i as int)));
        }
        i = i + 1;
    }
    assert(entries@.take(i as int) =~= entries@);
    n
}

/// The lesser of two counts.
pub open spec fn lesser(a: nat, b: nat) -> nat {
    if a <= b {
        a
    } else {
        b
    }
}

/// The greater of a count and one.
pub open spec fn at_least_one(a: nat) -> nat {
    if a == 0 {
        1
    } else {
        a
    }
}

/// The scheme for a number of trust groups: parity where the groups, up to the bound, outnumber
/// the wanted data shards; else one copy in every group.
pub open spec fn chosen_scheme(available: nat, t: EcTargets) -> (nat, nat) {
    let n = at_least_one(lesser(available, t.n_max as nat));
    let k = at_least_one(t.k_target as nat);
    if available == 0 {
        (1, 1)
    } else if n < k + 1 {
        (1, lesser(available, 255))
    } else {
        (k, n)
    }
}

/// The scheme for new chunks, given the pool.
pub fn select_ec_scheme(pool: &PoolSnapshot, targets: EcTargets) -> (r: ECScheme)
    ensures
        (r.k as nat, r.n as nat) == chosen_scheme(groups(pool.providers@).len(), targets),
        1 <= r.k <= r.n,
{
    let available: usize = count_groups(&pool.providers);
    if available == 0 {
        return ECScheme { k: 1, n: 1 };
    }
    let bounded: u8 = if available <= targets.n_max as usize {
        available as u8
    } else {
        targets.n_max
    };
    let n: u8 = if bounded == 0 {
        1
    } else {
        bounded
    };
    let k: u8 = if targets.k_target == 0 {
        1
    } else {
        targets.k_target
    };
    if n <= k {
        let copies: u8 = if available <= 255 {
            available as u8
        } else {
            255
        };
        ECScheme { k: 1, n: copies }
    } else {
        ECScheme { k, n }
    }
}

/// One copy without any other is chosen only where there is but one trust group, or none.
pub proof fn lemma_single_copy_only_alone(available: nat, t: EcTargets)
    requires
        chosen_scheme(available, t) == (1nat, 1nat),
    ensures
        available <= 1,
{
}

/// What the number drawn by a shard for a provider is made of.
pub open spec fn draw_input(chunk: ChunkHash, shard: u8, p: ProviderId) -> Seq<u8> {
    chunk.0@ + seq![shard] + be128(p.0)
}

/// The number drawn by a shard for a provider.
pub open spec fn draw(chunk: ChunkHash, shard: u8, p: ProviderId) -> u64 {
    of_be64(blake3_digest(draw_input(chunk, shard, p)).take(8))
}

/// The number drawn by a shard for a provider.
pub fn consistent_hash(chunk: ChunkHash, shard: u8, p: ProviderId) -> (r: u64)
    ensures
        r == draw(chunk, shard, p),
        r == of_be64(blake3_digest(chunk.0@ + seq![shard] + be128(p.0)).take(8)),
{
    let mut v: Vec<u8> = Vec::new();
    append(&mut v, &chunk.0);
    v.push(shard);
    push_be128(&mut v, p.0);
    assert(v@ =~= draw_input(chunk, shard, p));
    let h = blake3_32(&v);
    let head = slice_of(&h.0, 0, 8);
    assert(head@ =~= h.0@.take(8));
    read_be64(&head, 0)
}

/// Whether an entry can be chosen, given the groups that are taken.
pub open spec fn open_to(
    e: PoolEntry,
    taken: Set<Seq<char>>,
    distinct: bool,
) -> bool {
    e.weighs() && !(distinct && taken.contains(e.trust_group.0@))
}

/// The first of the entries that can be chosen whose score is lowest.
pub open spec fn best_of(
    entries: Seq<PoolEntry>,
    scores: Seq<u64>,
    taken: Set<Seq<char>>,
    distinct: bool,
) -> Option<int>
    decreases entries.len(),
{
    if entries.len() == 0 {
        None
    } else {
        let i = entries.len() - 1;
        let head = best_of(entries.drop_last(), scores, taken, distinct);
        if !open_to(entries[i], taken, distinct) {
            head
        } else {
            match head {
                None => Some(i),
                Some(b) => if scores[i] < scores[b] {
                    Some(i)
                } else {
                    Some(b)
                },
            }
        }
    }
}

proof fn lemma_best_of(
    entries: Seq<PoolEntry>,
    scores: Seq<u64>,
    taken: Set<Seq<char>>,
    distinct: bool,
)
    ensures
        match best_of(entries, scores, taken, distinct) {
            Some(b) => {
                &&& 0 <= b < entries.len()
                &&& open_to(entries[b], taken, distinct)
                &&& forall|i: int|
                    0 <= i < entries.len() && open_to(#[trigger] entries[i], taken, distinct)
                        ==> scores[b] <= scores[i] && (i < b ==> scores[b] < scores[i])
            },
            None => forall|i: int|
                0 <= i < entries.len() ==> !open_to(#[trigger] entries[i], taken, distinct),
        },
    decreases entries.len(),
{
    if entries.len() > 0 {
        lemma_best_of(entries.drop_last(), scores, taken, distinct);
        let e = entries.drop_last();
        assert forall|i: int| 0 <= i < entries.len() - 1 implies #[trigger] entries[i] == e[i] by {}
    }
}

/// The groups of the entries at some positions.
pub open spec fn groups_at(entries: Seq<PoolEntry>, at: Seq<int>) -> Set<Seq<char>> {
    groups(at.map_values(|i: int| entries[i]))
}

/// The positions chosen for the first `n` shards, one after the other, where there are such.
pub open spec fn placed(
    entries: Seq<PoolEntry>,
    scores: Seq<Vec<u64>>,
    distinct: bool,
    n: nat,
) -> Option<Seq<int>>
    decreases n,
{
    if n == 0 {
        Some(Seq::empty())
    } else {
        match placed(entries, scores, distinct, (n - 1) as nat) {
            None => None,
            Some(at) => match best_of(
                entries,
                scores[n - 1]@,
                groups_at(entries, at),
                distinct,
            ) {
                None => None,
                Some(b) => Some(at.push(b)),
            },
        }
    }
}

/// The shards with the providers at the chosen positions.
pub open spec fn assignments(entries: Seq<PoolEntry>, at: Seq<int>) -> Seq<(u8, ProviderId)> {
    Seq::new(at.len(), |i: int| (i as u8, entries[at[i]].provider_id))
}

/// What a placement comes to.
pub open spec fn placement(
    req: PlacementRequest,
    entries: Seq<PoolEntry>,
    distinct: bool,
    scores: Seq<Vec<u64>>,
) -> Result<Seq<(u8, ProviderId)>, PlacementError> {
    if entries.len() == 0 {
        Err(PlacementError::Impossible)
    } else if distinct && groups(entries).len() < req.scheme.n {
        Err(
            PlacementError::InsufficientGroups {
                have: groups(entries).len() as usize,
                need: req.scheme.n as usize,
            },
        )
    } else {
        match placed(entries, scores, distinct, req.scheme.n as nat) {
            None => Err(PlacementError::Impossible),
            Some(at) => Ok(assignments(entries, at)),
        }
    }
}

/// Whether there is a score for every shard and every provider.
pub open spec fn scores_fit(scores: Seq<Vec<u64>>, n: nat, providers: nat) -> bool {
    &&& scores.len() == n
    &&& forall|i: int| 0 <= i < n ==> (#[trigger] scores[i])@.len() == providers
}

fn best_pick(
    pool: &PoolSnapshot,
    scores: &Vec<u64>,
    used: &Vec<PoolEntry>,
    distinct: bool,
) -> (r: Option<usize>)
    requires
        scores@.len() == pool.providers@.len(),
    ensures
        match r {
            Some(b) => best_of(pool.providers@, scores@, groups(used@), distinct) == Some(b as int) && b
                < pool.providers@.len(),
            None => best_of(pool.providers@, scores@, groups(used@), distinct) is None,
        },
{
    let mut best: Option<usize> = None;
    let mut i: usize = 0;
    while i < pool.providers.len()
        invariant
            0 <= i <= pool.providers@.len(),
            scores@.len() == pool.providers@.len(),
            match best {
                Some(b) => best_of(
                    pool.providers@.take(i as int),
                    scores@,
                    groups(used@),
                    distinct,
                ) == Some(b as int) && b < i,
                None => best_of(pool.providers@.take(i as int), scores@, groups(used@), distinct) is None,
            },
        decreases pool.providers@.len() - i,
    {
        let p = &pool.providers[i];
        proof {
            assert(pool.providers@.take(i + 1).drop_last() =~= pool.providers@.take(i as int));
            lemma_groups(used@);
            assert(used@.take(used@.len() as int) =~= used@);
        }
        let taken: bool = distinct && group_before(used, used.len(), &p.trust_group);
        if !taken && p.has_weight() {
            best = match best {
                None => Some(i),
                Some(b) => if scores[i] < scores[b] {
                    Some(i)
                } else {
                    Some(b)
                },
            };
        }
        i = i + 1;
    }
    assert(pool.providers@.take(i as int) =~= pool.providers@);
    best
}

/// Chooses a provider for every shard of a chunk. `scores` has a row for each shard, and in it for
/// each provider of the pool an integer; the lowest is best, and the first of equals.
pub fn pick_shards_for_chunk(
    req: &PlacementRequest,
    pool: &PoolSnapshot,
    diversity: DiversityPolicy,
    scores: &Vec<Vec<u64>>,
) -> (r: Result<Vec<(u8, ProviderId)>, PlacementError>)
    requires
        scores_fit(scores@, req.scheme.n as nat, pool.providers@.len()),
    ensures
        match r {
            Ok(v) => placement(
                *req,
                pool.providers@,
                diversity.require_distinct_trust_groups,
                scores@,
            ) == Ok::<Seq<(u8, ProviderId)>, PlacementError>(v@),
            Err(e) => placement(
                *req,
                pool.providers@,
                diversity.require_distinct_trust_groups,
                scores@,
            ) == Err::<Seq<(u8, ProviderId)>, PlacementError>(e),
        },
{
    let distinct: bool = diversity.require_distinct_trust_groups;
    let n: usize = req.scheme.n as usize;
    if pool.providers.len() == 0 {
        return Err(PlacementError::Impossible);
    }
    if distinct {
        let have: usize = count_groups(&pool.providers);
        if have < n {
            return Err(PlacementError::InsufficientGroups { have, need: n });
        }
    }
    let mut out: Vec<(u8, ProviderId)> = Vec::new();
    let mut used: Vec<PoolEntry> = Vec::new();
    let ghost mut at: Seq<int> = Seq::empty();
    let mut i: usize = 0;
    while i < n
        invariant
            0 <= i <= n <= 255,
            n == req.scheme.n,
            distinct == diversity.require_distinct_trust_groups,
            pool.providers@.len() > 0,
            distinct ==> groups(pool.providers@).len() >= n,
            scores_fit(scores@, n as nat, pool.providers@.len()),
            at.len() == i,
            placed(pool.providers@, scores@, distinct, i as nat) == Some(at),
            used@ == at.map_values(|i: int| pool.providers@[i]),
            out@ == assignments(pool.providers@, at),
        decreases n - i,
    {
        match best_pick(pool, &scores[i], &used, distinct) {
            None => {
                proof {
                    lemma_unplaced_stays(pool.providers@, scores@, distinct, (i + 1) as nat, n as nat);
                }
                return Err(PlacementError::Impossible);
            },
            Some(b) => {
                out.push((i as u8, pool.providers[b].provider_id));
                used.push(pool.providers[b].copied());
                proof {
                    let before = at;
                    at = at.push(b as int);
                    assert(used@ =~= at.map_values(|i: int| pool.providers@[i]));
                    assert(out@ =~= assignments(pool.providers@, at));
                }
            },
        }
        i = i + 1;
    }
    Ok(out)
}

proof fn lemma_unplaced_stays(
    entries: Seq<PoolEntry>,
    scores: Seq<Vec<u64>>,
    distinct: bool,
    m: nat,
    n: nat,
)
    requires
        m <= n,
        placed(entries, scores, distinct, m) is None,
    ensures
        placed(entries, scores, distinct, n) is None,
    decreases n,
{
    if m < n {
        lemma_unplaced_stays(entries, scores, distinct, m, (n - 1) as nat);
    }
}

/// What holds of the chosen positions: there is one for each shard, each is a provider with
/// weight, and where that is asked no two are of one trust group.
pub proof fn lemma_placed(
    entries: Seq<PoolEntry>,
    scores: Seq<Vec<u64>>,
    distinct: bool,
    n: nat,
)
    requires
        placed(entries, scores, distinct, n) is Some,
    ensures
        placed(entries, scores, distinct, n).unwrap().len() == n,
        forall|i: int|
            0 <= i < n ==> {
                let p = #[trigger] placed(entries, scores, distinct, n).unwrap()[i];
                0 <= p < entries.len() && entries[p].weighs()
            },
        distinct ==> forall|i: int, j: int|
            0 <= i < j < n ==> entries[#[trigger] placed(
                entries,
                scores,
                distinct,
                n,
            ).unwrap()[i]].trust_group.0@ != entries[#[trigger] placed(
                entries,
                scores,
                distinct,
                n,
            ).unwrap()[j]].trust_group.0@,
    decreases n,
{
    if n > 0 {
        let m = (n - 1) as nat;
        lemma_placed(entries, scores, distinct, m);
        let head = placed(entries, scores, distinct, m).unwrap();
        let taken = groups_at(entries, head);
        lemma_best_of(entries, scores[n - 1]@, taken, distinct);
        let at = placed(entries, scores, distinct, n).unwrap();
        let picked = head.map_values(|i: int| entries[i]);
        lemma_groups(picked);
        assert forall|i: int| 0 <= i < m && distinct implies entries[#[trigger] at[i]].trust_group.0@
            != entries[at[n - 1]].trust_group.0@ by {
            assert(at[i] == head[i]);
            assert(picked[i].trust_group.0@ == entries[at[i]].trust_group.0@);
            assert(has_group(picked, entries[at[i]].trust_group.0@));
        }
        assert forall|i: int| 0 <= i < m implies #[trigger] at[i] == head[i] by {}
    }
}

/// Where every provider has weight and there are groups enough, every shard is placed.
pub proof fn lemma_placement_succeeds(
    req: PlacementRequest,
    entries: Seq<PoolEntry>,
    distinct: bool,
    scores: Seq<Vec<u64>>,
)
    requires
        entries.len() > 0,
        forall|i: int| 0 <= i < entries.len() ==> (#[trigger] entries[i]).weighs(),
        distinct ==> groups(entries).len() >= req.scheme.n,
    ensures
        placement(req, entries, distinct, scores) is Ok,
        placement(req, entries, distinct, scores)->Ok_0.len() == req.scheme.n,
{
    lemma_all_placed(entries, scores, distinct, req.scheme.n as nat);
    lemma_placed(entries, scores, distinct, req.scheme.n as nat);
}

proof fn lemma_all_placed(
    entries: Seq<PoolEntry>,
    scores: Seq<Vec<u64>>,
    distinct: bool,
    n: nat,
)
    requires
        entries.len() > 0,
        forall|i: int| 0 <= i < entries.len() ==> (#[trigger] entries[i]).weighs(),
        distinct ==> groups(entries).len() >= n,
    ensures
        placed(entries, scores, distinct, n) is Some,
    decreases n,
{
    if n > 0 {
        let m = (n - 1) as nat;
        lemma_all_placed(entries, scores, distinct, m);
        lemma_placed(entries, scores, distinct, m);
        let head = placed(entries, scores, distinct, m).unwrap();
        let picked = head.map_values(|i: int| entries[i]);
        let taken = groups(picked);
        lemma_groups(picked);
        lemma_groups(entries);
        lemma_best_of(entries, scores[n - 1]@, taken, distinct);
        if best_of(entries, scores[n - 1]@, taken, distinct) is None {
            assert(!open_to(entries[0], taken, distinct));
            assert(groups(entries).subset_of(taken)) by {
                assert forall|g: Seq<char>| groups(entries).contains(g) implies taken.contains(g) by {
                    let i = choose|i: int|
                        0 <= i < entries.len() && #[trigger] entries[i].trust_group.0@ == g;
                    assert(!open_to(entries[i], taken, distinct));
                }
            }
            vstd::set_lib::lemma_len_subset(groups(entries), taken);
            assert(false);
        }
    }
}

/// A placement where distinct groups are asked gives every shard a trust group of its own, all
/// providers being of the pool.
pub proof fn lemma_shards_in_distinct_groups(
    req: PlacementRequest,
    entries: Seq<PoolEntry>,
    scores: Seq<Vec<u64>>,
    i: int,
    j: int,
)
    requires
        placement(req, entries, true, scores) is Ok,
        0 <= i < j < req.scheme.n,
    ensures
        placement(req, entries, true, scores)->Ok_0.len() == req.scheme.n,
        exists|p: int, q: int|
            0 <= p < entries.len() && 0 <= q < entries.len() && (#[trigger] entries[p]).provider_id
                == placement(req, entries, true, scores)->Ok_0[i].1 && (
            #[trigger] entries[q]).provider_id == placement(req, entries, true, scores)->Ok_0[j].1
                && entries[p].trust_group.0@ != entries[q].trust_group.0@,
{
    lemma_placed(entries, scores, true, req.scheme.n as nat);
    let at = placed(entries, scores, true, req.scheme.n as nat).unwrap();
    assert(entries[at[i]].trust_group.0@ != entries[at[j]].trust_group.0@);
}

/// What passes the size filter can take the chunk, and comes from the pool.
pub proof fn lemma_eligible_takes(entries: Seq<PoolEntry>, bytes: u64, i: int)
    requires
        0 <= i < eligible(entries, bytes).len(),
    ensures
        eligible(entries, bytes)[i].takes(bytes),
        entries.contains(eligible(entries, bytes)[i]),
{
    let keeps = |e: PoolEntry| e.takes(bytes);
    entries.lemma_filter_contains_rev(keeps, eligible(entries, bytes)[i]);
    entries.filter_lemma(keeps);
    assert(keeps(eligible(entries, bytes)[i]));
}

/// A provider can be chosen exactly where it is healthy, matches the tier, has a weight of the
/// user, and its quota is not known to be used up.
pub proof fn lemma_can_be_chosen(e: PoolEntry)
    ensures
        e.weighs() <==> (e.remaining_quota is None || e.remaining_quota.unwrap() > 0) && e.health.0 > 0
            && e.tier_match_milli > 0 && e.user_weight_milli > 0,
{
}

/// A filtered pool has exactly the providers that can take an object of the size: those without a
/// known limit, and those whose limit is not below it.
pub proof fn lemma_eligible_exactly(entries: Seq<PoolEntry>, bytes: u64)
    ensures
        forall|e: PoolEntry| #[trigger]
            eligible(entries, bytes).contains(e) <==> entries.contains(e) && (e.max_object_bytes is None
                || bytes <= e.max_object_bytes.unwrap()),
    decreases entries.len(),
{
    reveal(Seq::filter);
    let keeps = |e: PoolEntry| e.takes(bytes);
    let out = eligible(entries, bytes);
    if entries.len() > 0 {
        let head = entries.drop_last();
        let kept = eligible(head, bytes);
        lemma_eligible_exactly(head, bytes);
        assert forall|e: PoolEntry| #[trigger] out.contains(e) <==> entries.contains(e) && (
        e.max_object_bytes is None || bytes <= e.max_object_bytes.unwrap()) by {
            if out.contains(e) {
                let i = choose|i: int| 0 <= i < out.len() && out[i] == e;
                if i < kept.len() {
                    assert(kept[i] == e);
                    assert(kept.contains(e));
                    let j = choose|j: int| 0 <= j < head.len() && head[j] == e;
                    assert(entries[j] == e);
                } else {
                    assert(entries[entries.len() - 1] == e);
                }
            }
            if entries.contains(e) && (e.max_object_bytes is None || bytes
                <= e.max_object_bytes.unwrap()) {
                let j = choose|j: int| 0 <= j < entries.len() && entries[j] == e;
                if j < head.len() {
                    assert(head[j] == e);
                    assert(kept.contains(e));
                    let i = choose|i: int| 0 <= i < kept.len() && kept[i] == e;
                    assert(out[i] == e);
                } else {
                    assert(out[kept.len() as int] == e);
                }
            }
        }
    }
}

/// The order of the pool is kept by the filter, and every provider that fits stays as often as it
/// was there.
pub proof fn lemma_eligible_in_order(entries: Seq<PoolEntry>, e: PoolEntry, bytes: u64)
    ensures
        eligible(entries.push(e), bytes) == (if e.max_object_bytes is None || bytes
            <= e.max_object_bytes.unwrap() {
            eligible(entries, bytes).push(e)
        } else {
            eligible(entries, bytes)
        }),
{
    reveal(Seq::filter);
    assert(entries.push(e).drop_last() =~= entries);
}

/// The groups of a pool are the groups of its providers.
pub proof fn lemma_groups_exactly(entries: Seq<PoolEntry>, g: Seq<char>)
    ensures
        groups(entries).finite(),
        groups(entries).contains(g) <==> exists|i: int|
            0 <= i < entries.len() && (#[trigger] entries[i]).trust_group.0@ == g,
{
    lemma_groups(entries);
    if has_group(entries, g) {
        let i = choose|i: int| 0 <= i < entries.len() && #[trigger] entries[i].trust_group.0@ == g;
        assert(entries[i].trust_group.0@ == g);
    }
}

/// Over healthy providers with a tier match and a weight, none of which is known to be full, and in
/// enough groups, every shard is placed.
pub proof fn lemma_open_providers_are_enough(
    req: PlacementRequest,
    entries: Seq<PoolEntry>,
    distinct: bool,
    scores: Seq<Vec<u64>>,
)
    requires
        entries.len() > 0,
        forall|i: int|
            0 <= i < entries.len() ==> (#[trigger] entries[i]).health.0 > 0
                && entries[i].tier_match_milli > 0 && entries[i].user_weight_milli > 0 && (
            entries[i].remaining_quota is None || entries[i].remaining_quota.unwrap() > 0),
        distinct ==> groups(entries).len() >= req.scheme.n,
    ensures
        placement(req, entries, distinct, scores) is Ok,
        placement(req, entries, distinct, scores)->Ok_0.len() == req.scheme.n,
{
    assert forall|i: int| 0 <= i < entries.len() implies (#[trigger] entries[i]).weighs() by {}
    lemma_placement_succeeds(req, entries, distinct, scores);
}

/// Whether a shard could go to a provider, given where earlier shards went.
pub open spec fn could_go(e: PoolEntry, distinct: bool, earlier: Seq<PoolEntry>) -> bool {
    &&& e.health.0 > 0
    &&& e.tier_match_milli > 0
    &&& e.user_weight_milli > 0
    &&& e.remaining_quota is None || e.remaining_quota.unwrap() > 0
    &&& distinct ==> forall|j: int|
        0 <= j < earlier.len() ==> (#[trigger] earlier[j]).trust_group.0@ != e.trust_group.0@
}

/// Where a placement succeeds, shard `i` goes to a provider that is healthy, matches, has weight, is
/// not known to be full and, where that is asked, is in no group of an earlier shard; and none of
/// the providers that it could have gone to has a lower score for it, nor as low a one and an
/// earlier place in the pool.
pub proof fn lemma_each_pick_is_best(
    req: PlacementRequest,
    entries: Seq<PoolEntry>,
    distinct: bool,
    scores: Seq<Vec<u64>>,
) -> (at: Seq<int>)
    requires
        placement(req, entries, distinct, scores) is Ok,
    ensures
        placement(req, entries, distinct, scores)->Ok_0.len() == req.scheme.n,
        at.len() == req.scheme.n,
        forall|i: int|
            #![trigger at[i]]
            0 <= i < at.len() ==> 0 <= at[i] < entries.len() && placement(
                req,
                entries,
                distinct,
                scores,
            )->Ok_0[i] == (i as u8, entries[at[i]].provider_id) && entries[at[i]].health.0 > 0
                && entries[at[i]].tier_match_milli > 0 && entries[at[i]].user_weight_milli > 0 && (
            entries[at[i]].remaining_quota is None || entries[at[i]].remaining_quota.unwrap() > 0),
        distinct ==> forall|i: int, j: int|
            0 <= i < j < at.len() ==> entries[#[trigger] at[i]].trust_group.0@
                != entries[#[trigger] at[j]].trust_group.0@,
        forall|i: int, c: int|
            #![trigger scores[i]@[c]]
            0 <= i < at.len() && 0 <= c < entries.len() && could_go(
                entries[c],
                distinct,
                at.take(i).map_values(|k: int| entries[k]),
            ) ==> scores[i]@[at[i]] <= scores[i]@[c] && (c < at[i] ==> scores[i]@[at[i]]
                < scores[i]@[c]),
{
    let n = req.scheme.n as nat;
    lemma_placed(entries, scores, distinct, n);
    let at = placed(entries, scores, distinct, n).unwrap();
    assert forall|i: int, c: int|
        #![trigger scores[i]@[c]]
        0 <= i < at.len() && 0 <= c < entries.len() && could_go(
            entries[c],
            distinct,
            at.take(i).map_values(|k: int| entries[k]),
        ) implies scores[i]@[at[i]] <= scores[i]@[c] && (c < at[i] ==> scores[i]@[at[i]]
            < scores[i]@[c]) by {
        lemma_placed_prefix(entries, scores, distinct, n, (i + 1) as nat);
        lemma_placed_prefix(entries, scores, distinct, n, i as nat);
        let earlier = at.take(i).map_values(|k: int| entries[k]);
        lemma_groups(earlier);
        lemma_best_of(entries, scores[i]@, groups_at(entries, at.take(i)), distinct);
        assert(at.take(i + 1)[i] == at[i]);
        if distinct && groups(earlier).contains(entries[c].trust_group.0@) {
            let j = choose|j: int|
                0 <= j < earlier.len() && #[trigger] earlier[j].trust_group.0@
                    == entries[c].trust_group.0@;
            assert(earlier[j].trust_group.0@ != entries[c].trust_group.0@);
        }
        assert(open_to(entries[c], groups_at(entries, at.take(i)), distinct));
    }
    at
}

proof fn lemma_placed_prefix(
    entries: Seq<PoolEntry>,
    scores: Seq<Vec<u64>>,
    distinct: bool,
    n: nat,
    m: nat,
)
    requires
        m <= n,
        placed(entries, scores, distinct, n) is Some,
    ensures
        placed(entries, scores, distinct, m) is Some,
        placed(entries, scores, distinct, n).unwrap().len() == n,
        placed(entries, scores, distinct, m).unwrap() == placed(
            entries,
            scores,
            distinct,
            n,
        ).unwrap().take(m as int),
    decreases n,
{
    let at = placed(entries, scores, distinct, n).unwrap();
    lemma_placed(entries, scores, distinct, n);
    if m == n {
        assert(at.take(m as int) =~= at);
    } else {
        let head = placed(entries, scores, distinct, (n - 1) as nat).unwrap();
        lemma_placed_prefix(entries, scores, distinct, (n - 1) as nat, m);
        assert(at.take(m as int) =~= head.take(m as int));
    }
}

/// When a placement is refused: without providers, where the groups are fewer than the shards and
/// that matters, and where some shard finds no provider that it could go to.
pub proof fn lemma_placement_refusals(
    req: PlacementRequest,
    entries: Seq<PoolEntry>,
    distinct: bool,
    scores: Seq<Vec<u64>>,
)
    ensures
        entries.len() == 0 ==> placement(req, entries, distinct, scores) == Err::<
            Seq<(u8, ProviderId)>,
            PlacementError,
        >(PlacementError::Impossible),
        entries.len() > 0 && distinct && groups(entries).len() < req.scheme.n ==> placement(
            req,
            entries,
            distinct,
            scores,
        ) == Err::<Seq<(u8, ProviderId)>, PlacementError>(
            PlacementError::InsufficientGroups {
                have: groups(entries).len() as usize,
                need: req.scheme.n as usize,
            },
        ),
        entries.len() > 0 && !(distinct && groups(entries).len() < req.scheme.n) && placement(
            req,
            entries,
            distinct,
            scores,
        ) is Err ==> placement(req, entries, distinct, scores) == Err::<
            Seq<(u8, ProviderId)>,
            PlacementError,
        >(PlacementError::Impossible) && exists|c: int|
            #![trigger entries[c]]
            0 <= c < entries.len() && (entries[c].health.0 == 0 || entries[c].tier_match_milli == 0
                || entries[c].user_weight_milli == 0 || entries[c].remaining_quota == Some(0u64)),
{
    if entries.len() > 0 && !(distinct && groups(entries).len() < req.scheme.n) && placement(
        req,
        entries,
        distinct,
        scores,
    ) is Err {
        if forall|i: int|
            0 <= i < entries.len() ==> (#[trigger] entries[i]).health.0 > 0
                && entries[i].tier_match_milli > 0 && entries[i].user_weight_milli > 0 && (
            entries[i].remaining_quota is None || entries[i].remaining_quota.unwrap() > 0) {
            lemma_open_providers_are_enough(req, entries, distinct, scores);
        } else {
            let c = choose|c: int|
                0 <= c < entries.len() && !((#[trigger] entries[c]).health.0 > 0
                    && entries[c].tier_match_milli > 0 && entries[c].user_weight_milli > 0 && (
                entries[c].remaining_quota is None || entries[c].remaining_quota.unwrap() > 0));
            assert(entries[c].health.0 == 0 || entries[c].tier_match_milli == 0
                || entries[c].user_weight_milli == 0 || entries[c].remaining_quota == Some(0u64));
        }
    }
}

/// What scheme is chosen. No shard is without a group of its own; there is parity wherever the
/// groups and the bound allow more shards than are wanted as data, and then as much of it as they
/// allow; else there is a copy in every group, as far as a scheme can count.
pub proof fn lemma_scheme_fits_groups(available: nat, t: EcTargets)
    ensures
        ({
            let (k, n) = chosen_scheme(available, t);
            &&& 1 <= k <= n
            &&& available > 0 ==> n <= available
            &&& available > t.k_target && t.n_max > t.k_target && t.k_target > 0 ==> k == t.k_target
                && n > k && n <= t.n_max && (n == available || n == t.n_max)
            &&& t.k_target > 0 && (available <= t.k_target || t.n_max <= t.k_target) && available > 0
                ==> k == 1 && (n == available || (n == 255 && available > 255))
        }),
{
}

/// Different chunks, shards or providers draw from different inputs.
pub proof fn lemma_draws_apart(
    c: ChunkHash,
    s: u8,
    p: ProviderId,
    d: ChunkHash,
    t: u8,
    q: ProviderId,
)
    requires
        draw_input(c, s, p) == draw_input(d, t, q),
    ensures
        c.0@ == d.0@,
        s == t,
        p == q,
{
    let x = draw_input(c, s, p);
    lemma_be128_round_trip(p.0);
    lemma_be128_round_trip(q.0);
    assert(x.take(32) =~= c.0@);
    assert(x.take(32) =~= d.0@);
    assert(x[32] == s && x[32] == t);
    assert(x.skip(33) =~= be128(p.0));
    assert(x.skip(33) =~= be128(q.0));
}

/// A host's profile says how large an object may be, how writes are ordered and whether objects can
/// be updated; all else of an entry stays as it was.
pub proof fn lemma_profile_says(e: PoolEntry, prof: HostProfile)
    ensures
        enriched(e, prof).max_object_bytes == prof.max_object_bytes,
        enriched(e, prof).cas_tier == prof.cas_tier,
        enriched(e, prof).update_capability == prof.update_capability,
        enriched(e, prof).provider_id == e.provider_id,
        enriched(e, prof).trust_group == e.trust_group,
        enriched(e, prof).weighs() == e.weighs(),
{
}

/// The quota that is left is what is not used of the total, and none where more is used; it is
/// known only where both are.
pub proof fn lemma_quota_left(p: Provider)
    ensures
        quota_left(p) is Some <==> p.quota.total is Some && p.quota.used is Some,
        p.quota.total matches Some(t) ==> (p.quota.used matches Some(u) ==> t >= u ==> quota_left(
            p,
        ).unwrap() + u == t),
        p.quota.total matches Some(t) ==> (p.quota.used matches Some(u) ==> t < u ==> quota_left(p)
            == Some(0u64)),
{
}

/// To want no data shard is to want one, and a bound of none is a bound of one.
pub proof fn lemma_targets_at_least_one(available: nat, t: EcTargets)
    ensures
        t.k_target == 0 ==> chosen_scheme(available, t) == chosen_scheme(
            available,
            EcTargets { k_target: 1, ..t },
        ),
        t.n_max == 0 ==> chosen_scheme(available, t) == chosen_scheme(
            available,
            EcTargets { n_max: 1, ..t },
        ),
        chosen_scheme(0, t) == (1nat, 1nat),
{
}

} // verus!
