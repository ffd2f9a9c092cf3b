//! Lease routes. With a vault provider the lease record is a named object that is replaced by
//! compare-and-swap; these are the decisions before and after each swap.

use vstd::prelude::*;

use super::ApiError;
use crate::crypto::hash::blake3_digest;
use crate::entities::records::LeaseRecord;
use crate::lease::fresh_lease;
use crate::lease::id_of;
use crate::lease::is_fresh_lease;
use crate::lease::is_stealable;
use crate::lease::renewed;
use crate::lease::LeaseError;
use crate::lease::LeaseRegistry;
use crate::lease::LeaseService;
use crate::plugin_host::local_dir::etag_bytes;
use crate::plugin_host::local_dir::etag_of;
use crate::text::push_chars;
use crate::text::push_text;
use crate::text::string_of;
use crate::types::epoch_of;
use crate::types::BlakeHash;
use crate::types::epoch_text;
use crate::types::lemma_epoch_round_trip;
use crate::types::uuid_chars;
use crate::types::uuid_text;
use crate::types::DeviceId;
use crate::types::LeaseId;
use crate::types::Timestamp;
use crate::types::VaultId;

verus! {

/// Seconds that a lease lives where the request does not say.
pub const DEFAULT_TTL_SECS: u64 = 30;

/// The name of the object that holds a vault's lease.
pub fn lease_blob_name(vault: VaultId) -> (r: String)
    ensures
        r@ == "lease/"@ + uuid_text(vault.0),
{
    let mut out: Vec<char> = Vec::new();
    push_text(&mut out, "lease/");
    push_chars(&mut out, &uuid_chars(vault.0));
    assert(out@ =~= "lease/"@ + uuid_text(vault.0));
    string_of(&out)
}

/// Whether the object of a lease says that the lease was released: it is empty.
pub fn is_released(object: &[u8]) -> (r: bool)
    ensures
        r == (object@.len() == 0),
{
    object.len() == 0
}

/// The object of a lease as it was read: the encoded record, where a lease is held, and what a
/// writer has to expect.
pub struct LeaseObject {
    pub record: Option<Vec<u8>>,
    pub etag: Option<BlakeHash>,
}

/// Reads the object of a lease. A released lease has no record, but its object is still there, and
/// the next writer has to expect it.
pub fn read_object(found: Option<(Vec<u8>, BlakeHash)>) -> (r: LeaseObject)
    ensures
        match found {
            Some((b, e)) => r.etag == Some(e) && (if b@.len() == 0 {
                r.record is None
            } else {
                r.record == Some(b)
            }),
            None => r.record is None && r.etag is None,
        },
{
    match found {
        Some((b, e)) => if is_released(&b) {
            LeaseObject { record: None, etag: Some(e) }
        } else {
            LeaseObject { record: Some(b), etag: Some(e) }
        },
        None => LeaseObject { record: None, etag: None },
    }
}

/// Whoever read the object of a lease, held, released or not yet there, and writes with what was
/// read is not refused, as long as nobody else wrote in between. So a released lease is free.
pub proof fn lemma_reader_may_write(found: Option<(Vec<u8>, BlakeHash)>, read: LeaseObject)
    requires
        found matches Some((b, e)) ==> e.0@ == blake3_digest(b@),
        match found {
            Some((b, e)) => read.etag == Some(e),
            None => read.etag is None,
        },
    ensures
        etag_bytes(read.etag) == etag_of(
            match found {
                Some((b, e)) => Some(b@),
                None => None,
            },
        ),
{
}

/// The text of a lease error.
pub open spec fn lease_error_text(e: LeaseError) -> Seq<char> {
    match e {
        LeaseError::Held => "lease held by another device"@,
        LeaseError::Lost => "lease lost (CAS failed on renew)"@,
        LeaseError::NotHeld => "not held"@,
        LeaseError::StillLive => "lease still live"@,
    }
}

fn error_text(e: LeaseError) -> (r: &'static str)
    ensures
        r@ == lease_error_text(e),
{
    match e {
        LeaseError::Held => "lease held by another device",
        LeaseError::Lost => "lease lost (CAS failed on renew)",
        LeaseError::NotHeld => "not held",
        LeaseError::StillLive => "lease still live",
    }
}

fn prefixed(prefix: &str, e: LeaseError) -> (r: ApiError)
    ensures
        r.says(400, prefix@ + lease_error_text(e)),
{
    let mut m: Vec<char> = Vec::new();
    push_text(&mut m, prefix);
    push_text(&mut m, error_text(e));
    assert(m@ =~= prefix@ + lease_error_text(e));
    ApiError { status: 400, message: string_of(&m) }
}

/// The refusal of a request to acquire or release.
pub fn lease_refusal(e: LeaseError) -> (r: ApiError)
    ensures
        r.says(400, "lease: "@ + lease_error_text(e)),
{
    prefixed("lease: ", e)
}

/// The refusal of a request to renew: a lost lease is gone for good.
pub fn renew_refused(e: LeaseError) -> (r: ApiError)
    ensures
        if e == LeaseError::Lost {
            r.says(410, "lease lost"@)
        } else {
            r.says(400, "lease: "@ + lease_error_text(e))
        },
{
    if e == LeaseError::Lost {
        ApiError::lost("lease lost")
    } else {
        prefixed("lease: ", e)
    }
}

/// The refusal of a request to take over.
pub fn steal_refused(e: LeaseError) -> (r: ApiError)
    ensures
        if e == LeaseError::StillLive {
            r.says(409, "lease still live"@)
        } else {
            r.says(400, "steal: "@ + lease_error_text(e))
        },
{
    if e == LeaseError::StillLive {
        ApiError::conflict("lease still live")
    } else {
        prefixed("steal: ", e)
    }
}

/// Whether a recorded lease still holds at `now`: one that runs out later, or whose end is not
/// known.
pub open spec fn still_holds(rec: LeaseRecord, now_secs: u64) -> bool {
    match epoch_of(rec.expires_at.0@) {
        Some(exp) => exp > now_secs,
        None => true,
    }
}

/// Whether `rec` is a first lease from `now` to `expires`, in seconds.
pub open spec fn is_first_lease(
    rec: LeaseRecord,
    id: LeaseId,
    holder: DeviceId,
    now_secs: u64,
    expires_secs: u64,
) -> bool {
    &&& rec.acquired_at.0@ == epoch_text(now_secs)
    &&& rec.expires_at.0@ == epoch_text(expires_secs)
    &&& is_fresh_lease(rec, id, holder, rec.acquired_at, rec.expires_at)
}

/// The end of a lease that lives `ttl` seconds, or the default.
pub fn lease_end(now_secs: u64, ttl_secs: Option<u64>) -> (r: u64)
    requires
        now_secs + (match ttl_secs {
            Some(t) => t,
            None => DEFAULT_TTL_SECS,
        }) <= u64::MAX,
    ensures
        r == now_secs + (match ttl_secs {
            Some(t) => t,
            None => DEFAULT_TTL_SECS,
        }),
{
    match ttl_secs {
        Some(t) => now_secs + t,
        None => now_secs + DEFAULT_TTL_SECS,
    }
}

/// The record to write for a request to acquire, given what the vault provider holds. A lease
/// that still holds is refused.
pub fn acquire_record(
    existing: Option<&LeaseRecord>,
    id: LeaseId,
    holder: DeviceId,
    now_secs: u64,
    expires_secs: u64,
) -> (r: Result<LeaseRecord, ApiError>)
    ensures
        if existing is Some && still_holds(*existing.unwrap(), now_secs) {
            r matches Err(e) && e.says(400, "lease: held by another device"@)
        } else {
            r matches Ok(rec) && is_first_lease(rec, id, holder, now_secs, expires_secs)
        },
{
    if let Some(prior) = existing {
        let live: bool = match prior.expires_at.epoch_secs() {
            Some(exp) => exp > now_secs,
            None => true,
        };
        if live {
            return Err(ApiError::bad("lease: held by another device"));
        }
    }
    let now = Timestamp::from_epoch_secs(now_secs);
    let end = Timestamp::from_epoch_secs(expires_secs);
    Ok(fresh_lease(id, holder, now, end))
}

/// The record to write for a request to take over, given what the vault provider holds. Only a
/// lease that ran out at least twice its time to live ago can be taken over.
pub fn steal_record(
    existing: Option<&LeaseRecord>,
    id: LeaseId,
    holder: DeviceId,
    now_secs: u64,
    expires_secs: u64,
    ttl_secs: u64,
) -> (r: Result<LeaseRecord, ApiError>)
    ensures
        if existing is Some && !is_stealable(
            existing.unwrap().expires_at.0@,
            epoch_text(now_secs),
            ttl_secs,
        ) {
            r matches Err(e) && e.says(409, "lease still live"@)
        } else {
            r matches Ok(rec) && is_first_lease(rec, id, holder, now_secs, expires_secs)
        },
{
    proof {
        lemma_epoch_round_trip(now_secs);
    }
    if let Some(prior) = existing {
        let stale: bool = match prior.expires_at.epoch_secs() {
            Some(exp) => now_secs.saturating_sub(exp) as u128 >= 2 * ttl_secs as u128,
            None => false,
        };
        if !stale {
            return Err(ApiError::conflict("lease still live"));
        }
    }
    let now = Timestamp::from_epoch_secs(now_secs);
    let end = Timestamp::from_epoch_secs(expires_secs);
    Ok(fresh_lease(id, holder, now, end))
}

/// Ends a request to acquire or take over: where the swap was made, the record becomes this
/// device's; where another came first, the request is refused with `race`.
pub fn settle_write(
    service: &mut LeaseService,
    registry: &mut LeaseRegistry,
    record: LeaseRecord,
    written: bool,
    race: &str,
) -> (r: Result<(), ApiError>)
    ensures
        if written {
            &&& r is Ok
            &&& final(service).local == Some(record.lease_id)
            &&& final(registry).record == Some(record)
        } else {
            &&& r matches Err(e) && e.says(409, race@)
            &&& *final(service) == *old(service)
            &&& *final(registry) == *old(registry)
        },
{
    if !written {
        return Err(ApiError::conflict(race));
    }
    service.install_local(registry, record);
    Ok(())
}

/// What to do for a request to renew.
pub enum RenewPlan {
    /// There is no lease.
    NotHeld,
    /// Another lease is there: publish that the lease is lost, forget it, and refuse.
    Lost,
    /// Write this record.
    Write(LeaseRecord),
}

/// What to do for a request to renew, given what the vault provider holds and the lease that this
/// device wrote last. A renewed lease runs thirty seconds from now.
pub fn renew_plan(existing: Option<LeaseRecord>, local: Option<LeaseId>, now_secs: u64) -> (r: RenewPlan)
    requires
        now_secs + 30 <= u64::MAX,
        existing is Some && id_of(existing) == local ==> existing.unwrap().renewal_count < u32::MAX,
    ensures
        match existing {
            None => r is NotHeld,
            Some(rec) => if Some(rec.lease_id) != local {
                r is Lost
            } else {
                r matches RenewPlan::Write(next) && next.expires_at.0@ == epoch_text(
                    (now_secs + 30) as u64,
                ) && next == renewed(rec, next.expires_at)
            },
        },
{
    match existing {
        None => RenewPlan::NotHeld,
        Some(rec) => {
            if Some(rec.lease_id) != local {
                return RenewPlan::Lost;
            }
            let mut next = rec;
            next.expires_at = Timestamp::from_epoch_secs(now_secs + 30);
            next.renewal_count = next.renewal_count + 1;
            RenewPlan::Write(next)
        },
    }
}

/// Ends a request to renew: where the swap was made, the record stays this device's; where another
/// came first, the lease is lost, and is given up where it was held.
pub fn settle_renew(
    service: &mut LeaseService,
    registry: &mut LeaseRegistry,
    record: LeaseRecord,
    written: bool,
) -> (r: Result<(), ApiError>)
    ensures
        if written {
            &&& r is Ok
            &&& final(service).local == Some(record.lease_id)
            &&& final(registry).record == Some(record)
        } else {
            &&& r matches Err(e) && e.says(410, "lease lost: CAS"@)
            &&& if old(registry).record is Some && id_of(old(registry).record) == old(service).local {
                final(registry).record is None && final(service).local is None
            } else {
                *final(service) == *old(service) && *final(registry) == *old(registry)
            }
        },
{
    if written {
        service.install_local(registry, record);
        return Ok(());
    }
    let _gone = service.release(registry);
    Err(ApiError::lost("lease lost: CAS"))
}

/// Whether a request to release has to empty the object at the vault provider: only where it holds
/// this device's lease.
pub fn release_writes(existing: Option<&LeaseRecord>, local: Option<LeaseId>) -> (r: bool)
    ensures
        r == (existing is Some && Some(existing.unwrap().lease_id) == local),
{
    match existing {
        Some(rec) => Some(rec.lease_id) == local,
        None => false,
    }
}

/// Why the rotation of an identity is refused, where it is: it needs the lease, and this device
/// has to be its holder.
pub fn rotation_refusal(lease: Option<&LeaseRecord>, device: DeviceId) -> (r: Option<ApiError>)
    ensures
        match lease {
            None => r matches Some(e) && e.says(
                409,
                "identity rotation requires the vault lease (none held)"@,
            ),
            Some(rec) => if rec.holder_device_id == device {
                r is None
            } else {
                r matches Some(e) && e.says(
                    409,
                    "identity rotation requires the lease; held by another device "@ + uuid_text(
                        rec.holder_device_id.0,
                    ),
                )
            },
        },
{
    match lease {
        None => Some(ApiError::conflict("identity rotation requires the vault lease (none held)")),
        Some(rec) => {
            if rec.holder_device_id == device {
                return None;
            }
            let mut m: Vec<char> = Vec::new();
            push_text(&mut m, "identity rotation requires the lease; held by another device ");
            push_chars(&mut m, &uuid_chars(rec.holder_device_id.0));
            assert(m@ =~= "identity rotation requires the lease; held by another device "@
                + uuid_text(rec.holder_device_id.0));
            Some(ApiError { status: 409, message: string_of(&m) })
        },
    }
}

/// A lease that can be taken over no longer holds, unless its time to live is zero; so whoever may
/// steal may also acquire.
pub proof fn lemma_stealable_is_over(rec: LeaseRecord, now_secs: u64, ttl_secs: u64)
    requires
        is_stealable(rec.expires_at.0@, epoch_text(now_secs), ttl_secs),
        ttl_secs > 0,
    ensures
        !still_holds(rec, now_secs),
{
    lemma_epoch_round_trip(now_secs);
}

/// A lease holds up to the second before its end and no longer. One whose end is no instant
/// holds.
pub proof fn lemma_holds_up_to_its_end(rec: LeaseRecord, end: u64, now: u64)
    ensures
        rec.expires_at.0@ == epoch_text(end) ==> (still_holds(rec, now) <==> now < end),
        epoch_of(rec.expires_at.0@) is None ==> still_holds(rec, now),
{
    lemma_epoch_round_trip(end);
}

/// A lease that is given anew names its holder, begins now, ends when it was asked to and has not
/// been renewed; it holds as long as it has not ended.
pub proof fn lemma_given_lease(
    rec: LeaseRecord,
    id: LeaseId,
    holder: DeviceId,
    now: u64,
    end: u64,
    at: u64,
)
    requires
        is_first_lease(rec, id, holder, now, end),
    ensures
        rec.lease_id == id,
        rec.holder_device_id == holder,
        rec.renewal_count == 0,
        epoch_of(rec.acquired_at.0@) == Some(now),
        epoch_of(rec.expires_at.0@) == Some(end),
        still_holds(rec, at) <==> at < end,
{
    lemma_epoch_round_trip(now);
    lemma_epoch_round_trip(end);
}

} // verus!
