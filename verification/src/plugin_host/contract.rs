//! What providers answer.

use vstd::prelude::*;

use crate::entities::records::NativeHandle;
use crate::types::AeadTag;
use crate::types::BlakeHash;
use crate::types::CachedElsewhereRisk;
use crate::types::DeleteOutcome;
use crate::types::HealthScore;
use crate::types::QuotaReclaimed;
use crate::types::QuotaState;
use crate::types::RateLimitState;
use crate::types::Timestamp;

verus! {

/// What became of the object that a write replaced.
#[derive(Clone, Copy, PartialEq, Eq, Structural, Debug)]
pub enum PriorHandleState {
    Removed,
    Unknown,
}

/// The answer to a write.
#[derive(Clone, Debug)]
pub struct PutResult {
    pub handle: NativeHandle,
    pub handle_changed: bool,
    pub prior_handle_state: Option<PriorHandleState>,
    pub stored_at: Timestamp,
    pub quota_reclaimed: QuotaReclaimed,
    pub tombstone_clears_at: Option<Timestamp>,
}

/// The answer to a look at an object.
#[derive(Clone, Debug)]
pub struct PeekResult {
    pub exists: bool,
    pub size: u64,
    pub mtime: Timestamp,
    pub etag: Option<BlakeHash>,
}

/// The answer to a delete.
#[derive(Clone, Debug)]
pub struct DeleteResult {
    pub outcome: DeleteOutcome,
    pub quota_reclaimed: QuotaReclaimed,
    pub cached_elsewhere_risk: CachedElsewhereRisk,
    pub tombstone_clears_at: Option<Timestamp>,
}

/// The answer to a health check.
#[derive(Clone, PartialEq, Eq, Debug)]
pub struct HealthReport {
    pub state: HealthState,
    pub quota: QuotaState,
    pub rate_limit: RateLimitState,
    pub score: HealthScore,
}

/// How a provider says it is.
#[derive(Clone, Copy, PartialEq, Eq, Structural, Debug)]
pub enum HealthState {
    Healthy,
    Degraded,
    Unhealthy,
}

/// An object and its tag.
#[derive(Clone, Debug)]
pub struct ObjectBytes {
    pub bytes: Vec<u8>,
    pub tag: AeadTag,
}

/// A named object in a listing.
#[derive(Clone, Debug)]
pub struct ListEntry {
    pub name: String,
    pub size: u64,
    pub etag: Option<BlakeHash>,
    pub mtime: Timestamp,
}

/// The answer to a compare-and-swap.
#[derive(Clone, Copy, Debug)]
pub struct CasResult {
    pub outcome: CasOutcome,
    pub new_etag: Option<BlakeHash>,
}

/// How a compare-and-swap ended.
#[derive(Clone, Copy, PartialEq, Eq, Structural, Debug)]
pub enum CasOutcome {
    Written,
    EtagMismatch,
    NotSupported,
}

} // verus!
