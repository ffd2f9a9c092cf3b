//! The records that the engine stores.

use vstd::prelude::*;

use super::crdt::Counter;
use super::crdt::LwwRegister;
use super::crdt::LwwSet;
use super::crdt::OrSet;
use crate::bytes::bytes_eq;
use crate::bytes::to_vec;
use crate::types::AeadNonce;
use crate::types::AeadSuite;
use crate::types::AeadTag;
use crate::types::BlakeHash;
use crate::types::CachedElsewhereRisk;
use crate::types::CapabilitySet;
use crate::types::ChunkHash;
use crate::types::CredentialsHandle;
use crate::types::DeviceId;
use crate::types::ECScheme;
use crate::types::Ed25519Pub;
use crate::types::Ed25519Sig;
use crate::types::EpochId;
use crate::types::FileId;
use crate::types::HealthScore;
use crate::types::Hlc;
use crate::types::IdentityId;
use crate::types::LeaseId;
use crate::types::LegalClass;
use crate::types::MlKemPub;
use crate::types::MonotonicCounter;
use crate::types::PeerId;
use crate::types::PluginId;
use crate::types::ProviderId;
use crate::types::QuotaState;
use crate::types::RecoveryManifestId;
use crate::types::RecoveryTokenId;
use crate::types::ShadowId;
use crate::types::ShardId;
use crate::types::ShareId;
use crate::types::Tier;
use crate::types::Timestamp;
use crate::types::TrustCorrelationGroup;
use crate::types::VaultId;
use crate::types::WrappedKey;

verus! {

/// A vault: the unit that one owner encrypts and shares from.
#[derive(Clone, PartialEq, Eq, Debug)]
pub struct Vault {
    pub vault_id: VaultId,
    pub format_version: u32,
    pub owner: IdentityId,
    pub created_at: Timestamp,
    pub aead_suite: AeadSuite,
    pub vault_salt: Vec<u8>,
    pub recovery_manifest_ref: RecoveryManifestId,
    pub snapshot_pointer: SignedSnapshotPointer,
    pub lease_path: String,
    pub allowed_devices: OrSet<DeviceAuthorization>,
    pub identity_chain: Vec<IdentityEpoch>,
    pub merkle_root: BlakeHash,
}

/// A file: its namespace entry, and its contents inline or as chunks.
#[derive(Clone, PartialEq, Eq, Debug)]
pub struct File {
    pub file_id: FileId,
    pub path: LwwRegister<String>,
    pub size_bytes: LwwRegister<u64>,
    pub created_at: LwwRegister<Timestamp>,
    pub modified_at: LwwRegister<Timestamp>,
    pub permissions: LwwRegister<Permissions>,
    pub content_type: LwwRegister<String>,
    pub tier_pinned: LwwRegister<Option<Tier>>,
    pub inline_payload: Option<InlineBlob>,
    pub chunk_list: Option<Vec<ChunkHash>>,
    pub wrapped_keys: OrSet<WrappedKey>,
    pub acl: OrSet<AclEntry>,
    pub exists: LwwRegister<bool>,
}

/// Contents small enough to live inside the file record.
#[derive(Clone, PartialEq, Eq, Debug)]
pub struct InlineBlob {
    pub ciphertext: Vec<u8>,
    pub nonce: AeadNonce,
    pub tag: AeadTag,
}

/// Unix-style permissions.
#[derive(Clone, Copy, PartialEq, Eq, Structural, Debug)]
pub struct Permissions {
    pub mode: u32,
    pub owner_uid: Option<u32>,
    pub owner_gid: Option<u32>,
}

impl Default for Permissions {
    fn default() -> (r: Self)
        ensures
            r == (Permissions { mode: 0, owner_uid: None, owner_gid: None }),
    {
        Permissions { mode: 0, owner_uid: None, owner_gid: None }
    }
}

/// One entry of an access-control list.
#[derive(Clone, PartialEq, Eq, Debug)]
pub struct AclEntry {
    pub principal: PeerId,
    pub permission: Permission,
}

/// What a principal may do.
#[derive(Clone, Copy, PartialEq, Eq, Structural, PartialOrd, Ord, Hash, Debug)]
pub enum Permission {
    Read,
    Write,
    Share,
    Admin,
}

/// A chunk of plaintext and where its shards are.
#[derive(Clone, PartialEq, Eq, Debug)]
pub struct Chunk {
    pub chunk_hash: ChunkHash,
    pub plaintext_length: u64,
    pub ec_scheme: ECScheme,
    pub shard_list: Vec<ShardId>,
    pub refcount: Counter,
    pub replication_state: ReplicationState,
    pub last_scrubbed_at: Timestamp,
    pub access_count_window: Counter,
    pub tier: Tier,
}

/// How well a chunk is replicated.
#[derive(Clone, Copy, PartialEq, Eq, Structural, Hash, Debug)]
pub enum ReplicationState {
    Full,
    Degraded,
    Recovering,
    Lost,
}

/// A shard of a chunk at a provider.
#[derive(Clone, PartialEq, Eq, Debug)]
pub struct Shard {
    pub shard_id: ShardId,
    pub chunk_hash: ChunkHash,
    pub shard_index: u8,
    pub encryption_nonce: AeadNonce,
    pub encryption_tag: AeadTag,
    pub ciphertext_length: u64,
    pub driver_id: LwwSet<ProviderId>,
    pub native_handle: LwwSet<NativeHandle>,
    pub stored_at: Timestamp,
    pub last_verified_at: Timestamp,
    pub health_score: HealthScore,
    pub ack_state: AckState,
}

/// What a provider calls an object.
#[derive(Clone, PartialEq, Eq, PartialOrd, Ord, Hash, Debug)]
pub struct NativeHandle(pub Vec<u8>);

impl NativeHandle {
    /// Whether two handles hold the same bytes.
    pub fn same(&self, other: &NativeHandle) -> (r: bool)
        ensures
            r == (self.0@ == other.0@),
    {
        bytes_eq(&self.0, &other.0)
    }

    /// A copy of the handle.
    pub fn copied(&self) -> (r: NativeHandle)
        ensures
            r.0@ == self.0@,
    {
        NativeHandle(to_vec(&self.0))
    }
}

/// Whether a provider has confirmed a shard.
#[derive(Clone, Copy, PartialEq, Eq, Structural, Hash, Debug)]
pub enum AckState {
    Acked,
    InFlight,
    Failed,
}

/// An object that may live on at a provider although the engine no longer uses it.
#[derive(Clone, PartialEq, Eq, Debug)]
pub struct Shadow {
    pub shadow_id: ShadowId,
    pub original_chunk_hash: ChunkHash,
    pub driver_id: ProviderId,
    pub native_handle: NativeHandle,
    pub ciphertext_length: u64,
    pub abandoned_at: Timestamp,
    pub reason: ShadowReason,
    pub cached_elsewhere_risk: CachedElsewhereRisk,
    pub counts_against_quota: bool,
    pub tombstone_clears_at: Option<Timestamp>,
    pub state: ShadowState,
    pub peek_count: u32,
}

/// Why an object became a shadow.
#[derive(Clone, Copy, PartialEq, Eq, Structural, Hash, Debug)]
pub enum ShadowReason {
    UpdateReplaced,
    RepairReplaced,
    DeletionOrphaned,
    ConcurrentUpdateDemoted,
    PluginIdempotencyViolation,
    PluginBanned,
}

/// Where a shadow stands: still looked for, gone, or given up on.
#[derive(Clone, Copy, PartialEq, Eq, Structural, Hash, Debug)]
pub enum ShadowState {
    Registered,
    Cleared,
    Permanent,
}

/// A storage provider instance.
#[derive(Clone, PartialEq, Eq, Debug)]
pub struct Provider {
    pub provider_id: ProviderId,
    pub plugin_id: PluginId,
    pub instance_label: String,
    pub credentials_handle: CredentialsHandle,
    pub capabilities: CapabilitySet,
    pub legal_class: LegalClass,
    pub trust_correlation_group: TrustCorrelationGroup,
    pub quota: QuotaState,
    pub health: HealthScore,
    pub untrusted_quota: bool,
}

/// A provider that holds vault metadata.
#[derive(Clone, PartialEq, Eq, Debug)]
pub struct VaultProvider {
    pub provider_id: ProviderId,
    pub plugin_id: PluginId,
    pub priority: VaultProviderPriority,
    pub credentials_handle: CredentialsHandle,
    pub last_synced_at: Timestamp,
    pub merkle_root_etag: Vec<u8>,
}

/// The role of a vault provider.
#[derive(Clone, Copy, PartialEq, Eq, Structural, Hash, Debug)]
pub enum VaultProviderPriority {
    Primary,
    Replica,
}

/// An identity: a chain of epochs, each signed by the one before.
#[derive(Clone, PartialEq, Eq, Debug)]
pub struct Identity {
    pub identity_id: IdentityId,
    pub epochs: Vec<IdentityEpoch>,
}

/// One epoch of an identity.
#[derive(Clone, PartialEq, Eq, Debug)]
pub struct IdentityEpoch {
    pub epoch: EpochId,
    pub sign_pubkey: Ed25519Pub,
    pub kem_pubkey: MlKemPub,
    pub fingerprint: BlakeHash,
    pub created_at: Timestamp,
    pub wrapped_privkeys: Vec<u8>,
    pub signed_by_prev: Option<Ed25519Sig>,
}

/// Someone whose identity chain is known.
#[derive(Clone, PartialEq, Eq, Debug)]
pub struct Peer {
    pub peer_id: PeerId,
    pub epochs: Vec<IdentityEpoch>,
    pub label: String,
    pub verified: bool,
    pub last_seen_epoch: EpochId,
    pub added_at: Timestamp,
}

/// A device.
#[derive(Clone, PartialEq, Eq, Debug)]
pub struct Device {
    pub device_id: DeviceId,
    pub device_label: String,
    pub device_pubkey: Ed25519Pub,
    pub first_seen_at: Timestamp,
    pub last_seen_at: Timestamp,
    pub revoked_at: Option<Timestamp>,
}

/// The span of clock readings in which a device may write.
#[derive(Clone, PartialEq, Eq, Debug)]
pub struct DeviceAuthorization {
    pub device_id: DeviceId,
    pub device_pubkey: Ed25519Pub,
    pub authorized_from_hlc: Hlc,
    pub revoked_at_hlc: Option<Hlc>,
}

/// A share of a file, a folder or the vault with a recipient.
#[derive(Clone, PartialEq, Eq, Debug)]
pub struct Share {
    pub share_id: ShareId,
    pub scope: ShareScope,
    pub recipient: PeerId,
    pub permissions: Vec<Permission>,
    pub wrapped_keys_ref: WrappedKeyRef,
    pub created_at: Timestamp,
    pub expires_at: Option<Timestamp>,
    pub revoked_at: Option<Timestamp>,
}

/// What a share gives access to.
#[derive(Clone, PartialEq, Eq, Debug)]
pub enum ShareScope {
    File(String),
    Folder(String),
    Vault,
}

/// Where the wrapped key of a share stands.
#[derive(Clone, Copy, PartialEq, Eq, Structural, Debug)]
pub struct WrappedKeyRef {
    pub file_id: FileId,
    pub or_set_add_id: u128,
}

/// What a device remembers about a vault across restarts.
#[derive(Clone, PartialEq, Eq, Debug)]
pub struct VaultBinding {
    pub vault_id: VaultId,
    pub providers: Vec<VaultBindingProvider>,
    pub last_seen_snapshot_pointer: Option<SignedSnapshotPointer>,
    pub last_seen_identity_anchor_fingerprint: Option<BlakeHash>,
    pub device_id: DeviceId,
    pub format_version: u32,
    pub created_at: Timestamp,
    pub updated_at: Timestamp,
}

/// A provider in a vault binding.
#[derive(Clone, PartialEq, Eq, Debug)]
pub struct VaultBindingProvider {
    pub plugin_id: PluginId,
    pub credentials_handle: CredentialsHandle,
    pub priority: VaultProviderPriority,
    pub added_at: Timestamp,
}

/// What is needed to get a vault's master key back.
#[derive(Clone, PartialEq, Eq, Debug)]
pub struct RecoveryManifest {
    pub manifest_id: RecoveryManifestId,
    pub format_version: u32,
    pub version_counter: MonotonicCounter,
    pub signing_epoch_id: EpochId,
    pub signature: Ed25519Sig,
    pub modes: Vec<RecoveryMode>,
    pub wrapped_master_keys: Vec<WrappedMasterKey>,
    pub identity_anchor_fingerprint: BlakeHash,
    pub identity_chain: Vec<IdentityEpoch>,
    pub recovery_token_active_set: OrSet<RecoveryTokenId>,
}

/// A way to get the master key back.
#[derive(Clone, PartialEq, Eq, Debug)]
pub enum RecoveryMode {
    Passphrase,
    RecoveryFile { fingerprint: BlakeHash },
    Shamir { k: u8, n: u8 },
    HardwareKey { device_descriptor: String },
}

/// A master key wrapped for one recovery mode.
#[derive(Clone, PartialEq, Eq, Debug)]
pub struct WrappedMasterKey {
    pub mode_index: u32,
    pub recovery_token_id: RecoveryTokenId,
    pub wrapped: Vec<u8>,
    pub nonce: AeadNonce,
    pub tag: AeadTag,
}

/// A lease on a vault.
#[derive(Clone, PartialEq, Eq, Debug)]
pub struct LeaseRecord {
    pub lease_id: LeaseId,
    pub holder_device_id: DeviceId,
    pub acquired_at: Timestamp,
    pub expires_at: Timestamp,
    pub renewal_count: u32,
    pub holder_signature: Ed25519Sig,
}

impl LeaseRecord {
    /// A copy of the record.
    pub fn copied(&self) -> (r: LeaseRecord)
        ensures
            r == *self,
    {
        LeaseRecord {
            lease_id: self.lease_id,
            holder_device_id: self.holder_device_id,
            acquired_at: self.acquired_at.copied(),
            expires_at: self.expires_at.copied(),
            renewal_count: self.renewal_count,
            holder_signature: self.holder_signature,
        }
    }
}

/// The pointer to the latest snapshot.
#[derive(Clone, PartialEq, Eq, Debug)]
pub struct SignedSnapshotPointer {
    pub snapshot_id: Vec<u8>,
    pub version_counter: MonotonicCounter,
    pub epoch_id: EpochId,
    pub format_version: u32,
    pub created_at: Timestamp,
    pub signature: Ed25519Sig,
}

/// A page of a snapshot.
#[derive(Clone, PartialEq, Eq, Debug)]
pub struct SnapshotPage {
    pub page_id: Vec<u8>,
    pub page_version: MonotonicCounter,
    pub payload_kind: SnapshotPayloadKind,
    pub payload_codec: SnapshotPayloadCodec,
    pub payload_bytes: Vec<u8>,
}

/// What a snapshot page holds.
#[derive(Clone, Copy, PartialEq, Eq, Structural, Hash, Debug)]
pub enum SnapshotPayloadKind {
    FileRecords,
    ChunkRecords,
    Namespace,
    Shadows,
    Providers,
    Peers,
    Shares,
    LargeValues,
}

/// How a snapshot page is encoded.
#[derive(Clone, Copy, PartialEq, Eq, Structural, Hash, Debug)]
pub enum SnapshotPayloadCodec {
    CborV1,
}

/// What a writer tells a provider about an object.
#[derive(Clone, PartialEq, Eq, Debug)]
pub struct PutHint {
    pub tier: Option<Tier>,
    pub idempotency_key: Option<Vec<u8>>,
    pub replaces_handle: Option<NativeHandle>,
    pub expected_size_bytes: Option<u64>,
    pub retry_after_secs: Option<u64>,
}

impl Default for PutHint {
    fn default() -> (r: Self)
        ensures
            r == (PutHint {
                tier: None,
                idempotency_key: None,
                replaces_handle: None,
                expected_size_bytes: None,
                retry_after_secs: None,
            }),
    {
        PutHint {
            tier: None,
            idempotency_key: None,
            replaces_handle: None,
            expected_size_bytes: None,
            retry_after_secs: None,
        }
    }
}

} // verus!
