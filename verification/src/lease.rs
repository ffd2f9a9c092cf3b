//! The advisory lease of the primary writer. Devices share one registry; each remembers the lease
//! it wrote last.

use vstd::prelude::*;

use crate::entities::records::LeaseRecord;
use crate::types::epoch_of;
use crate::types::DeviceId;
use crate::types::Ed25519Sig;
use crate::types::LeaseId;
use crate::types::Timestamp;

verus! {

/// Why a lease operation failed.
#[derive(Clone, Copy, PartialEq, Eq, Structural, Debug)]
pub enum LeaseError {
    Held,
    Lost,
    NotHeld,
    StillLive,
}

/// Whether there is a lease.
#[derive(Clone, Copy, PartialEq, Eq, Structural, Debug)]
pub enum LeaseState {
    Free,
    Held,
}

/// The lease record that all devices see.
#[derive(Clone, PartialEq, Eq, Debug)]
pub struct LeaseRegistry {
    pub record: Option<LeaseRecord>,
}

/// A registry without a lease.
pub fn new_registry() -> (r: LeaseRegistry)
    ensures
        r.record is None,
{
    LeaseRegistry { record: None }
}

/// Whether `rec` is a first lease of `holder`.
pub open spec fn is_fresh_lease(
    rec: LeaseRecord,
    id: LeaseId,
    holder: DeviceId,
    now: Timestamp,
    expires_at: Timestamp,
) -> bool {
    &&& rec.lease_id == id
    &&& rec.holder_device_id == holder
    &&& rec.acquired_at == now
    &&& rec.expires_at == expires_at
    &&& rec.renewal_count == 0
    &&& rec.holder_signature.0@ == Seq::new(64, |i: int| 0u8)
}

/// A first lease of `holder`.
pub fn fresh_lease(id: LeaseId, holder: DeviceId, now: Timestamp, expires_at: Timestamp) -> (r: LeaseRecord)
    ensures
        is_fresh_lease(r, id, holder, now, expires_at),
{
    let sig: [u8; 64] = [0u8; 64];
    assert(sig@ =~= Seq::new(64, |i: int| 0u8));
    LeaseRecord {
        lease_id: id,
        holder_device_id: holder,
        acquired_at: now,
        expires_at,
        renewal_count: 0,
        holder_signature: Ed25519Sig(sig),
    }
}

/// Whether a lease that expires at `expires_at` is stale enough at `now` to be taken over: both
/// times are known, and the lease ran out at least twice its time to live ago.
pub open spec fn is_stealable(expires_at: Seq<char>, now: Seq<char>, ttl_secs: u64) -> bool {
    match (epoch_of(expires_at), epoch_of(now)) {
        (Some(exp), Some(at)) => aged(exp, at) >= 2 * ttl_secs,
        _ => false,
    }
}

/// The seconds since `exp`, none where it is still to come.
pub open spec fn aged(exp: u64, now: u64) -> int {
    if now > exp {
        now - exp
    } else {
        0
    }
}

/// Whether a lease is stale enough to be taken over.
pub fn stealable(expires_at: &Timestamp, now: &Timestamp, ttl_secs: u64) -> (r: bool)
    ensures
        r == is_stealable(expires_at.0@, now.0@, ttl_secs),
{
    match (expires_at.epoch_secs(), now.epoch_secs()) {
        (Some(exp), Some(at)) => at.saturating_sub(exp) as u128 >= 2 * ttl_secs as u128,
        _ => false,
    }
}

/// The identifier of a lease, where there is one.
pub open spec fn id_of(rec: Option<LeaseRecord>) -> Option<LeaseId> {
    match rec {
        Some(r) => Some(r.lease_id),
        None => None,
    }
}

/// Why a renewal is refused, where it is.
pub open spec fn renew_refusal(local: Option<LeaseId>, rec: Option<LeaseRecord>) -> Option<LeaseError> {
    if rec is None {
        Some(LeaseError::NotHeld)
    } else if id_of(rec) != local {
        Some(LeaseError::Lost)
    } else {
        None
    }
}

/// A record after a renewal.
pub open spec fn renewed(rec: LeaseRecord, expires_at: Timestamp) -> LeaseRecord {
    LeaseRecord { expires_at, renewal_count: (rec.renewal_count + 1) as u32, ..rec }
}

/// One device's part in the lease: the lease that it wrote last.
#[derive(Clone, Copy, PartialEq, Eq, Structural, Debug)]
pub struct LeaseService {
    pub local: Option<LeaseId>,
}

impl Default for LeaseService {
    fn default() -> (r: Self)
        ensures
            r.local is None,
    {
        LeaseService { local: None }
    }
}

impl LeaseService {
    /// A device that has written no lease.
    pub fn new() -> (r: Self)
        ensures
            r.local is None,
    {
        LeaseService { local: None }
    }

    /// Puts a record into the registry as this device's own, whatever was there.
    pub fn install_local(&mut self, registry: &mut LeaseRegistry, record: LeaseRecord)
        ensures
            final(self).local == Some(record.lease_id),
            final(registry).record == Some(record),
    {
        self.local = Some(record.lease_id);
        registry.record = Some(record);
    }

    /// Whether there is a lease.
    pub fn state(&self, registry: &LeaseRegistry) -> (r: LeaseState)
        ensures
            r == (if registry.record is Some {
                LeaseState::Held
            } else {
                LeaseState::Free
            }),
    {
        if registry.record.is_some() {
            LeaseState::Held
        } else {
            LeaseState::Free
        }
    }

    /// The lease record, where there is one.
    pub fn current(&self, registry: &LeaseRegistry) -> (r: Option<LeaseRecord>)
        ensures
            r == registry.record,
    {
        match &registry.record {
            Some(rec) => Some(rec.copied()),
            None => None,
        }
    }

    /// Takes a free lease under a given identifier.
    pub fn acquire_as(
        &mut self,
        registry: &mut LeaseRegistry,
        id: LeaseId,
        holder: DeviceId,
        now: Timestamp,
        expires_at: Timestamp,
    ) -> (r: Result<LeaseRecord, LeaseError>)
        ensures
            if old(registry).record is Some {
                &&& r == Err::<LeaseRecord, LeaseError>(LeaseError::Held)
                &&& *final(self) == *old(self)
                &&& *final(registry) == *old(registry)
            } else {
                &&& r matches Ok(rec) && is_fresh_lease(rec, id, holder, now, expires_at)
                    && final(registry).record == Some(rec)
                &&& final(self).local == Some(id)
            },
    {
        if registry.record.is_some() {
            return Err(LeaseError::Held);
        }
        let record = fresh_lease(id, holder, now, expires_at);
        let out = record.copied();
        self.install_local(registry, record);
        Ok(out)
    }

    /// Takes a free lease under a new identifier.
    pub fn acquire(
        &mut self,
        registry: &mut LeaseRegistry,
        holder: DeviceId,
        now: Timestamp,
        expires_at: Timestamp,
    ) -> (r: Result<LeaseRecord, LeaseError>)
        ensures
            if old(registry).record is Some {
                &&& r == Err::<LeaseRecord, LeaseError>(LeaseError::Held)
                &&& *final(self) == *old(self)
                &&& *final(registry) == *old(registry)
            } else {
                &&& r matches Ok(rec) && is_fresh_lease(rec, rec.lease_id, holder, now, expires_at)
                    && final(registry).record == Some(rec) && final(self).local == Some(rec.lease_id)
            },
    {
        self.acquire_as(registry, LeaseId::new_v7(), holder, now, expires_at)
    }

    /// Renews the lease that this device wrote last. Where another lease has taken its place, the
    /// lease is lost, and the device forgets it.
    pub fn renew(&mut self, registry: &mut LeaseRegistry, expires_at: Timestamp) -> (r: Result<
        LeaseRecord,
        LeaseError,
    >)
        requires
            renew_refusal(old(self).local, old(registry).record) is None ==> old(
                registry,
            ).record.unwrap().renewal_count < u32::MAX,
        ensures
            match renew_refusal(old(self).local, old(registry).record) {
                Some(e) => {
                    &&& r == Err::<LeaseRecord, LeaseError>(e)
                    &&& *final(registry) == *old(registry)
                    &&& final(self).local == (if e == LeaseError::Lost {
                        None
                    } else {
                        old(self).local
                    })
                },
                None => {
                    &&& r == Ok::<LeaseRecord, LeaseError>(
                        renewed(old(registry).record.unwrap(), expires_at),
                    )
                    &&& final(registry).record == Some(
                        renewed(old(registry).record.unwrap(), expires_at),
                    )
                    &&& *final(self) == *old(self)
                    &&& r matches Ok(next) && next.expires_at == expires_at && next.renewal_count
                        == old(registry).record.unwrap().renewal_count + 1 && next.lease_id == old(
                        registry,
                    ).record.unwrap().lease_id && next.holder_device_id == old(
                        registry,
                    ).record.unwrap().holder_device_id && next.acquired_at == old(
                        registry,
                    ).record.unwrap().acquired_at
                },
            },
    {
        let (id, count): (LeaseId, u32) = match &registry.record {
            Some(rec) => (rec.lease_id, rec.renewal_count),
            None => {
                return Err(LeaseError::NotHeld);
            },
        };
        if Some(id) != self.local {
            self.local = None;
            return Err(LeaseError::Lost);
        }
        let mut rec = match registry.record.take() {
            Some(rec) => rec,
            None => {
                return Err(LeaseError::NotHeld);
            },
        };
        rec.expires_at = expires_at;
        rec.renewal_count = count + 1;
        let out = rec.copied();
        registry.record = Some(rec);
        Ok(out)
    }

    /// Gives up the lease that this device wrote last.
    pub fn release(&mut self, registry: &mut LeaseRegistry) -> (r: Result<(), LeaseError>)
        ensures
            if old(registry).record is Some && id_of(old(registry).record) == old(self).local {
                &&& r is Ok
                &&& final(registry).record is None
                &&& final(self).local is None
            } else {
                &&& r == Err::<(), LeaseError>(LeaseError::NotHeld)
                &&& *final(self) == *old(self)
                &&& *final(registry) == *old(registry)
            },
    {
        let held: bool = match &registry.record {
            Some(rec) => Some(rec.lease_id) == self.local,
            None => false,
        };
        if !held {
            return Err(LeaseError::NotHeld);
        }
        registry.record = None;
        self.local = None;
        Ok(())
    }

    /// Takes the lease under a given identifier: one that is free, or one that is stale enough.
    pub fn try_steal_as(
        &mut self,
        registry: &mut LeaseRegistry,
        id: LeaseId,
        holder: DeviceId,
        now: Timestamp,
        expires_at: Timestamp,
        ttl_secs: u64,
    ) -> (r: Result<LeaseRecord, LeaseError>)
        ensures
            if old(registry).record is Some && !is_stealable(
                old(registry).record.unwrap().expires_at.0@,
                now.0@,
                ttl_secs,
            ) {
                &&& r == Err::<LeaseRecord, LeaseError>(LeaseError::StillLive)
                &&& *final(self) == *old(self)
                &&& *final(registry) == *old(registry)
            } else {
                &&& r matches Ok(rec) && is_fresh_lease(rec, id, holder, now, expires_at)
                    && final(registry).record == Some(rec)
                &&& final(self).local == Some(id)
            },
    {
        let live: bool = match &registry.record {
            Some(prior) => !stealable(&prior.expires_at, &now, ttl_secs),
            None => false,
        };
        if live {
            return Err(LeaseError::StillLive);
        }
        let record = fresh_lease(id, holder, now, expires_at);
        let out = record.copied();
        self.install_local(registry, record);
        Ok(out)
    }

    /// Takes the lease under a new identifier: one that is free, or one that is stale enough.
    pub fn try_steal(
        &mut self,
        registry: &mut LeaseRegistry,
        holder: DeviceId,
        now: Timestamp,
        expires_at: Timestamp,
        ttl_secs: u64,
    ) -> (r: Result<LeaseRecord, LeaseError>)
        ensures
            if old(registry).record is Some && !is_stealable(
                old(registry).record.unwrap().expires_at.0@,
                now.0@,
                ttl_secs,
            ) {
                &&& r == Err::<LeaseRecord, LeaseError>(LeaseError::StillLive)
                &&& *final(self) == *old(self)
                &&& *final(registry) == *old(registry)
            } else {
                &&& r matches Ok(rec) && is_fresh_lease(rec, rec.lease_id, holder, now, expires_at)
                    && final(registry).record == Some(rec) && final(self).local == Some(rec.lease_id)
            },
    {
        self.try_steal_as(registry, LeaseId::new_v7(), holder, now, expires_at, ttl_secs)
    }
}

/// Once another device has written a lease of its own, the first device's renewal is refused as
/// lost, and its release would be refused too.
pub proof fn lemma_stolen_lease_is_lost(local: LeaseId, rec: LeaseRecord)
    requires
        rec.lease_id != local,
    ensures
        renew_refusal(Some(local), Some(rec)) == Some(LeaseError::Lost),
        id_of(Some(rec)) != Some(local),
{
}

/// Of two devices that remember different leases, at most one can renew.
pub proof fn lemma_one_holder(a: Option<LeaseId>, b: Option<LeaseId>, rec: Option<LeaseRecord>)
    requires
        a != b,
    ensures
        renew_refusal(a, rec) is Some || renew_refusal(b, rec) is Some,
{
}

/// A lease that has not run out cannot be taken over, unless its time to live is zero.
pub proof fn lemma_live_lease_is_safe(expires_at: u64, now: u64, ttl_secs: u64)
    requires
        now <= expires_at,
        ttl_secs > 0,
    ensures
        !is_stealable(
            crate::types::epoch_text(expires_at),
            crate::types::epoch_text(now),
            ttl_secs,
        ),
{
    crate::types::lemma_epoch_round_trip(expires_at);
    crate::types::lemma_epoch_round_trip(now);
}

/// When a lease can be taken over: once twice its time to live has passed since it ended.
pub proof fn lemma_steal_exactly(expires_at: u64, now: u64, ttl_secs: u64)
    ensures
        is_stealable(
            crate::types::epoch_text(expires_at),
            crate::types::epoch_text(now),
            ttl_secs,
        ) <==> ttl_secs == 0 || now >= expires_at + 2 * ttl_secs,
{
    crate::types::lemma_epoch_round_trip(expires_at);
    crate::types::lemma_epoch_round_trip(now);
}

/// Who may renew: exactly the device whose own lease is the one on record.
pub proof fn lemma_holder_renews(local: Option<LeaseId>, rec: Option<LeaseRecord>)
    ensures
        renew_refusal(local, rec) is None <==> rec is Some && local == Some(rec.unwrap().lease_id),
        rec is None ==> renew_refusal(local, rec) == Some(LeaseError::NotHeld),
        rec is Some && local != Some(rec.unwrap().lease_id) ==> renew_refusal(local, rec) == Some(
            LeaseError::Lost,
        ),
{
}

/// A fresh lease names its holder and its times, and has not been renewed; renewing it moves its
/// end and counts, and nothing else.
pub proof fn lemma_lease_from_fresh(
    rec: LeaseRecord,
    id: LeaseId,
    holder: DeviceId,
    now: Timestamp,
    end: Timestamp,
    later: Timestamp,
)
    requires
        is_fresh_lease(rec, id, holder, now, end),
    ensures
        rec.lease_id == id && rec.holder_device_id == holder,
        rec.acquired_at == now && rec.expires_at == end,
        rec.renewal_count == 0,
        renewed(rec, later).renewal_count == 1,
        renewed(rec, later).expires_at == later,
        renewed(rec, later).lease_id == id,
        renewed(rec, later).holder_device_id == holder,
        renewed(rec, later).acquired_at == now,
{
}

/// No lease is taken over where its end, or the time of the attempt, cannot be read.
pub proof fn lemma_no_instant_no_steal(expires_at: Seq<char>, now: Seq<char>, ttl_secs: u64)
    requires
        epoch_of(expires_at) is None || epoch_of(now) is None,
    ensures
        !is_stealable(expires_at, now, ttl_secs),
{
}

} // verus!
