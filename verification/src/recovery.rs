//! Recovery: making a vault from a passphrase, opening it, changing its keys, destroying it.
//!
//! Records come in and go out as values; the caller encodes them and commits the transactions that
//! are made here.

use vstd::prelude::*;
use vstd::utf8::*;

use crate::bytes::append;
use crate::bytes::be128;
use crate::bytes::has_prefix;
use crate::bytes::to_vec;
use crate::byte_map::has_key;
use crate::crypto::aead::aead_opened;
use crate::crypto::aead::aead_refusal;
use crate::crypto::aead::aead_sealed;
use crate::crypto::aead::chacha_opened;
use crate::crypto::aead::chacha_sealed;
use crate::crypto::aead::decrypt;
use crate::crypto::aead::encrypt;
use crate::crypto::aead::random_12;
use crate::crypto::aead::CHACHA_MAX_BYTES;
use crate::crypto::kdf::argon2id_output;
use crate::crypto::kdf::default_params;
use crate::crypto::kdf::derive_master_key;
use crate::crypto::kdf::kdf_refusal;
use crate::crypto::kdf::master_key_of;
use crate::crypto::kem::thread_random_16;
use crate::crypto::subkey::derive_subkey;
use crate::crypto::subkey::subkey;
use crate::crypto::CryptoError;
use crate::crypto::SymKey;
use crate::entities::crdt::OrSet;
use crate::entities::records::Identity;
use crate::entities::records::IdentityEpoch;
use crate::entities::records::RecoveryManifest;
use crate::entities::records::RecoveryMode;
use crate::entities::records::SignedSnapshotPointer;
use crate::entities::records::Vault;
use crate::entities::records::WrappedMasterKey;
use crate::crypto::sig::ed25519_public;
use crate::identity::base32_text;
use crate::identity::chain_refusal;
use crate::identity::is_first_epoch;
use crate::identity::lowered;
use crate::identity::IdentityService;
use crate::metadata::backend::op_applied;
use crate::metadata::backend::ops_applied;
use crate::metadata::backend::Backend;
use crate::metadata::backend::DbState;
use crate::metadata::backend::value_in;
use crate::metadata::backend::Txn;
use crate::metadata::backend::WriteOp;
use crate::metadata::cf::ColumnFamily;
use crate::metadata::store::Store;
use crate::metadata::MetadataError;
use crate::metadata::table::lists_prefix;
use crate::metadata::table::Row;
use crate::ordered::sorted_keys;
use crate::text::push_chars;
use crate::text::push_text;
use crate::text::string_of;
use crate::types::uuid_chars;
use crate::types::uuid_text;
use crate::types::AeadNonce;
use crate::types::AeadSuite;
use crate::types::BlakeHash;
use crate::types::Ed25519Sig;
use crate::types::EpochId;
use crate::types::KdfAlgo;
use crate::types::KdfParams;
use crate::types::KeyPurpose;
use crate::types::MlKemPub;
use crate::types::MonotonicCounter;
use crate::types::RecoveryManifestId;
use crate::types::RecoveryTokenId;
use crate::types::Timestamp;
use crate::types::VaultId;
use crate::vault::VaultError;
use crate::vault::VaultManager;
use crate::vault::VaultState;

verus! {

/// Why a recovery step failed.
#[derive(Clone, PartialEq, Eq, Debug)]
pub enum RecoveryError {
    Crypto(CryptoError),
    Metadata(String),
    Identity(String),
    Vault(String),
    VaultNotFound(VaultId),
    Unauthenticated,
    MissingMode(&'static str),
}

/// What the check blob of every manifest is bound to.
pub open spec fn check_aad() -> Seq<u8> {
    encode_utf8("openstorage:recovery_manifest:v1"@)
}

/// What the check blob of every manifest says.
pub open spec fn check_mark() -> Seq<u8> {
    encode_utf8("OK"@)
}

/// Whether a wrapped key is a check blob made under a master key.
pub open spec fn is_check_blob(w: WrappedMasterKey, mk: Seq<u8>) -> bool {
    &&& w.nonce is N12
    &&& w.wrapped@.len() == check_mark().len()
    &&& w.wrapped@ + w.tag.0@ == aead_sealed(
        AeadSuite::ChaCha20Poly1305,
        mk,
        w.nonce.bytes(),
        check_mark(),
        check_aad(),
    )
}

/// Whether a check blob opens under a master key.
pub open spec fn check_opens(w: WrappedMasterKey, mk: Seq<u8>) -> bool {
    &&& aead_refusal(AeadSuite::ChaCha20Poly1305, w.nonce) is None
    &&& w.wrapped@.len() <= CHACHA_MAX_BYTES
    &&& aead_opened(
        AeadSuite::ChaCha20Poly1305,
        mk,
        w.nonce.bytes(),
        w.wrapped@ + w.tag.0@,
        check_aad(),
    ) is Some
}

/// Seals the check blob under a master key.
fn seal_check(mk: &SymKey, nonce: [u8; 12], token: RecoveryTokenId, mode_index: u32) -> (r: Result<
    WrappedMasterKey,
    RecoveryError,
>)
    ensures
        r matches Ok(w) && w.mode_index == mode_index && w.recovery_token_id == token && w.nonce
            == AeadNonce::N12(nonce) && is_check_blob(w, mk.0@),
{
    let nonce = AeadNonce::N12(nonce);
    proof {
        assert(check_mark().len() == 2) by {
            reveal_strlit("OK");
            is_ascii_chars_encode_utf8("OK"@);
        }
    }
    match encrypt(
        AeadSuite::ChaCha20Poly1305,
        mk,
        &nonce,
        "OK".as_bytes(),
        "openstorage:recovery_manifest:v1".as_bytes(),
    ) {
        Ok((wrapped, tag)) => Ok(
            WrappedMasterKey { mode_index, recovery_token_id: token, wrapped, nonce, tag },
        ),
        Err(e) => Err(RecoveryError::Crypto(e)),
    }
}

/// Where a vault's manifest stands.
pub open spec fn manifest_at(v: VaultId) -> Seq<u8> {
    encode_utf8("manifest:"@) + be128(v.0)
}

/// Where the parameters of a vault's key derivation stand.
pub open spec fn kdf_at(v: VaultId) -> Seq<u8> {
    encode_utf8("kdf:"@) + be128(v.0)
}

/// Where a vault's manifest stands.
pub fn manifest_key(v: VaultId) -> (r: Vec<u8>)
    ensures
        r@ == manifest_at(v),
{
    let mut k = to_vec("manifest:".as_bytes());
    append(&mut k, &v.to_bytes());
    k
}

/// Where the parameters of a vault's key derivation stand.
pub fn kdf_key(v: VaultId) -> (r: Vec<u8>)
    ensures
        r@ == kdf_at(v),
{
    let mut k = to_vec("kdf:".as_bytes());
    append(&mut k, &v.to_bytes());
    k
}

/// The parameters of a new vault, with a random salt.
pub fn new_kdf_params() -> (r: KdfParams)
    ensures
        r.algo == KdfAlgo::Argon2id,
        r.memory_kib == 65536,
        r.iterations == 3,
        r.parallelism == 1,
        r.salt@.len() == 16,
{
    default_params(to_vec(&thread_random_16()))
}

/// Whether two epochs hold the same.
pub open spec fn same_epoch(a: IdentityEpoch, b: IdentityEpoch) -> bool {
    &&& a.epoch == b.epoch
    &&& a.sign_pubkey == b.sign_pubkey
    &&& a.kem_pubkey.0@ == b.kem_pubkey.0@
    &&& a.fingerprint == b.fingerprint
    &&& a.created_at == b.created_at
    &&& a.wrapped_privkeys@ == b.wrapped_privkeys@
    &&& a.signed_by_prev == b.signed_by_prev
}

/// Whether two chains hold the same.
pub open spec fn same_chain(a: Seq<IdentityEpoch>, b: Seq<IdentityEpoch>) -> bool {
    &&& a.len() == b.len()
    &&& forall|i: int| 0 <= i < a.len() ==> same_epoch(#[trigger] a[i], b[i])
}

/// A copy of a chain.
fn copy_chain(chain: &Vec<IdentityEpoch>) -> (r: Vec<IdentityEpoch>)
    ensures
        same_chain(r@, chain@),
{
    let mut out: Vec<IdentityEpoch> = Vec::new();
    let mut i: usize = 0;
    while i < chain.len()
        invariant
            0 <= i <= chain@.len(),
            out@.len() == i,
            forall|j: int| 0 <= j < i ==> same_epoch(#[trigger] out@[j], chain@[j]),
        decreases chain@.len() - i,
    {
        let e = &chain[i];
        out.push(
            IdentityEpoch {
                epoch: e.epoch,
                sign_pubkey: e.sign_pubkey,
                kem_pubkey: MlKemPub(to_vec(&e.kem_pubkey.0)),
                fingerprint: e.fingerprint,
                created_at: e.created_at.copied(),
                wrapped_privkeys: to_vec(&e.wrapped_privkeys),
                signed_by_prev: e.signed_by_prev,
            },
        );
        i = i + 1;
    }
    out
}

/// A vault that was just made, with its manifest and master key.
pub struct NewVault {
    pub vault: Vault,
    pub manifest: RecoveryManifest,
    pub master_key: SymKey,
}

/// What a vault is made with, besides the passphrase.
pub struct VaultSeed {
    pub vault_id: VaultId,
    pub manifest_id: RecoveryManifestId,
    pub token_id: RecoveryTokenId,
    pub nonce: [u8; 12],
}

/// Whether a manifest is the first of a vault with a master key and an identity chain.
pub open spec fn is_first_manifest(
    m: RecoveryManifest,
    mk: Seq<u8>,
    chain: Seq<IdentityEpoch>,
) -> bool {
    &&& m.format_version == 1
    &&& m.version_counter == MonotonicCounter(1)
    &&& m.signing_epoch_id == EpochId(0)
    &&& m.signature.0@ == Seq::new(64, |i: int| 0u8)
    &&& m.modes@ == seq![RecoveryMode::Passphrase]
    &&& m.wrapped_master_keys@.len() == 1
    &&& m.wrapped_master_keys@[0].mode_index == 0
    &&& is_check_blob(m.wrapped_master_keys@[0], mk)
    &&& m.identity_anchor_fingerprint == chain[0].fingerprint
    &&& same_chain(m.identity_chain@, chain)
    &&& m.recovery_token_active_set.adds@ == Map::<u128, RecoveryTokenId>::empty().insert(
        m.wrapped_master_keys@[0].recovery_token_id.0,
        m.wrapped_master_keys@[0].recovery_token_id,
    )
    &&& m.recovery_token_active_set.tombstones@ == Set::<u128>::empty()
}

/// Whether a vault record is that of a new vault.
pub open spec fn is_new_vault_record(
    v: Vault,
    m: RecoveryManifest,
    mk: Seq<u8>,
    owner: Identity,
) -> bool {
    &&& v.format_version == 1
    &&& v.owner == owner.identity_id
    &&& v.created_at.0@ == "now"@
    &&& v.aead_suite == AeadSuite::ChaCha20Poly1305
    &&& v.vault_salt@ == subkey(mk, KeyPurpose::VaultSalt, None)
    &&& v.recovery_manifest_ref == m.manifest_id
    &&& v.snapshot_pointer.snapshot_id@ == Seq::new(8, |i: int| 0u8)
    &&& v.snapshot_pointer.version_counter == MonotonicCounter(0)
    &&& v.snapshot_pointer.epoch_id == EpochId(0)
    &&& v.snapshot_pointer.format_version == 1
    &&& v.snapshot_pointer.created_at.0@ == "now"@
    &&& v.snapshot_pointer.signature.0@ == Seq::new(64, |i: int| 0u8)
    &&& v.lease_path@ == "vaults/"@ + uuid_text(v.vault_id.0) + "/lease.json"@
    &&& v.allowed_devices.adds@.dom() == Set::<u128>::empty()
    &&& v.allowed_devices.tombstones@ == Set::<u128>::empty()
    &&& v.identity_chain@ == owner.epochs@
    &&& v.merkle_root.0@ == Seq::new(32, |i: int| 0u8)
}

/// Whether a new vault was made from a passphrase and parameters, for an owner.
pub open spec fn is_new_vault(
    n: NewVault,
    passphrase: Seq<u8>,
    kdf: KdfParams,
    owner: Identity,
) -> bool {
    &&& n.master_key.0@ == master_key_of(passphrase, kdf)
    &&& is_first_manifest(n.manifest, n.master_key.0@, owner.epochs@)
    &&& is_new_vault_record(n.vault, n.manifest, n.master_key.0@, owner)
}

/// The parts of recovery. Nothing is kept between them.
pub struct RecoveryService;

impl RecoveryService {
    /// Makes a vault from a passphrase, for an owner, with given identifiers and nonce.
    pub fn new_vault_with(
        passphrase: &[u8],
        kdf: &KdfParams,
        owner: Identity,
        seed: VaultSeed,
    ) -> (r: Result<NewVault, RecoveryError>)
        requires
            owner.epochs@.len() > 0,
        ensures
            match kdf_refusal(passphrase@, *kdf) {
                Some(why) => r matches Err(RecoveryError::Crypto(CryptoError::KdfParam(m))) && m@
                    == why,
                None => r matches Ok(n) && is_new_vault(n, passphrase@, *kdf, owner)
                    && n.vault.vault_id == seed.vault_id && n.manifest.manifest_id
                    == seed.manifest_id
                    && n.manifest.wrapped_master_keys@[0].recovery_token_id == seed.token_id
                    && n.manifest.wrapped_master_keys@[0].nonce == AeadNonce::N12(seed.nonce),
            },
            r matches Ok(n) ==> n.master_key.0@ == argon2id_output(
                passphrase@,
                kdf.salt@,
                kdf.memory_kib,
                kdf.iterations,
                kdf.parallelism,
            ) && n.vault.owner == owner.identity_id && n.vault.identity_chain@ == owner.epochs@
                && n.vault.recovery_manifest_ref == seed.manifest_id
                && n.manifest.identity_anchor_fingerprint == owner.epochs@[0].fingerprint
                && n.manifest.identity_chain@.len() == owner.epochs@.len()
                && n.manifest.recovery_token_active_set.live(seed.token_id.0)
                && n.manifest.wrapped_master_keys@.len() == 1
                && n.manifest.wrapped_master_keys@[0].wrapped@
                + n.manifest.wrapped_master_keys@[0].tag.0@ == chacha_sealed(
                n.master_key.0@,
                seed.nonce@,
                encode_utf8("OK"@),
                encode_utf8("openstorage:recovery_manifest:v1"@),
            ),
    {
        let mk = match derive_master_key(passphrase, kdf) {
            Ok(k) => k,
            Err(e) => {
                return Err(RecoveryError::Crypto(e));
            },
        };
        let salt = match derive_subkey(&mk, KeyPurpose::VaultSalt, None) {
            Ok(k) => k,
            Err(e) => {
                return Err(RecoveryError::Crypto(e));
            },
        };
        let wrapped = match seal_check(&mk, seed.nonce, seed.token_id, 0) {
            Ok(w) => w,
            Err(e) => {
                return Err(e);
            },
        };
        let mut active: OrSet<RecoveryTokenId> = OrSet::new();
        active.add(seed.token_id.0, seed.token_id);
        let mut modes: Vec<RecoveryMode> = Vec::new();
        modes.push(RecoveryMode::Passphrase);
        let mut wrapped_master_keys: Vec<WrappedMasterKey> = Vec::new();
        wrapped_master_keys.push(wrapped);
        let no_sig: [u8; 64] = [0u8; 64];
        let manifest = RecoveryManifest {
            manifest_id: seed.manifest_id,
            format_version: 1,
            version_counter: MonotonicCounter(1),
            signing_epoch_id: EpochId(0),
            signature: Ed25519Sig(no_sig),
            modes,
            wrapped_master_keys,
            identity_anchor_fingerprint: owner.epochs[0].fingerprint,
            identity_chain: copy_chain(&owner.epochs),
            recovery_token_active_set: active,
        };
        let mut path: Vec<char> = Vec::new();
        push_text(&mut path, "vaults/");
        push_chars(&mut path, &uuid_chars(seed.vault_id.0));
        push_text(&mut path, "/lease.json");
        let no_id: [u8; 8] = [0u8; 8];
        let no_root: [u8; 32] = [0u8; 32];
        let vault = Vault {
            vault_id: seed.vault_id,
            format_version: 1,
            owner: owner.identity_id,
            created_at: Timestamp::from_string("now"),
            aead_suite: AeadSuite::ChaCha20Poly1305,
            vault_salt: to_vec(&salt.0),
            recovery_manifest_ref: seed.manifest_id,
            snapshot_pointer: SignedSnapshotPointer {
                snapshot_id: to_vec(&no_id),
                version_counter: MonotonicCounter(0),
                epoch_id: EpochId(0),
                format_version: 1,
                created_at: Timestamp::from_string("now"),
                signature: Ed25519Sig(no_sig),
            },
            lease_path: string_of(&path),
            allowed_devices: OrSet::new(),
            identity_chain: owner.epochs,
            merkle_root: BlakeHash(no_root),
        };
        proof {
            assert(manifest.modes@ =~= seq![RecoveryMode::Passphrase]);
            assert(no_sig@ =~= Seq::new(64, |i: int| 0u8));
            assert(no_id@ =~= Seq::new(8, |i: int| 0u8));
            assert(no_root@ =~= Seq::new(32, |i: int| 0u8));
            assert(path@ =~= "vaults/"@ + uuid_text(seed.vault_id.0) + "/lease.json"@);
            assert(vault.allowed_devices.adds@.dom() =~= Set::<u128>::empty());
        }
        Ok(NewVault { vault, manifest, master_key: mk })
    }

    /// Makes a vault from a passphrase, with a new identity, new identifiers and a random nonce.
    /// The result is the vault and its owner's identity; the identity's signing key is dropped.
    pub fn new_vault(passphrase: &[u8], kdf: &KdfParams) -> (r: Result<
        (NewVault, Identity),
        RecoveryError,
    >)
        ensures
            match kdf_refusal(passphrase@, *kdf) {
                Some(why) => r matches Err(RecoveryError::Crypto(CryptoError::KdfParam(m))) && m@
                    == why,
                None => r matches Ok(p) && is_new_identity(p.1) && p.1.epochs@[0].created_at.0@ == "now"@
                    && is_new_vault_for(p.0, passphrase@, *kdf, p.1),
            },
    {
        let (owner, secret) = IdentityService::create_identity(Timestamp::from_string("now"));
        let kept = Identity { identity_id: owner.identity_id.copied(), epochs: copy_chain(&owner.epochs) };
        proof {
            assert(same_epoch(kept.epochs@[0], owner.epochs@[0]));
            let first = kept.epochs@[0];
            assert(is_first_epoch(first, ed25519_public(secret.0@), first.created_at));
            assert(owned_by(kept, secret.0@));
        }
        let nonce = random_12();
        let seed = VaultSeed {
            vault_id: VaultId::new_v7(),
            manifest_id: RecoveryManifestId::new_v7(),
            token_id: RecoveryTokenId::new_v7(),
            nonce,
        };
        match RecoveryService::new_vault_with(passphrase, kdf, owner, seed) {
            Ok(n) => Ok((n, kept)),
            Err(e) => Err(e),
        }
    }

    /// The writes that keep a new vault.
    pub fn vault_writes(
        txn: &mut Txn,
        vault_id: VaultId,
        vault: Vec<u8>,
        manifest: Vec<u8>,
        kdf: Vec<u8>,
    )
        ensures
            final(txn).ops@.len() == old(txn).ops@.len() + 3,
            final(txn).ops@.take(old(txn).ops@.len() as int) == old(txn).ops@,
            final(txn).ops@[old(txn).ops@.len() as int].is_put(
                ColumnFamily::VaultMeta,
                be128(vault_id.0),
                vault@,
            ),
            final(txn).ops@[old(txn).ops@.len() as int + 1].is_put(
                ColumnFamily::VaultMeta,
                manifest_at(vault_id),
                manifest@,
            ),
            final(txn).ops@[old(txn).ops@.len() as int + 2].is_put(
                ColumnFamily::VaultMeta,
                kdf_at(vault_id),
                kdf@,
            ),
    {
        txn.put(ColumnFamily::VaultMeta, vault_id.to_bytes(), vault);
        txn.put(ColumnFamily::VaultMeta, manifest_key(vault_id), manifest);
        txn.put(ColumnFamily::VaultMeta, kdf_key(vault_id), kdf);
        assert(txn.ops@.take(old(txn).ops@.len() as int) =~= old(txn).ops@);
    }

    /// The writes that keep a changed manifest, and changed parameters where there are such.
    pub fn manifest_writes(
        txn: &mut Txn,
        vault_id: VaultId,
        manifest: Vec<u8>,
        kdf: Option<Vec<u8>>,
    )
        ensures
            final(txn).ops@.len() == old(txn).ops@.len() + (if kdf is Some {
                2int
            } else {
                1int
            }),
            final(txn).ops@.take(old(txn).ops@.len() as int) == old(txn).ops@,
            final(txn).ops@[old(txn).ops@.len() as int].is_put(
                ColumnFamily::VaultMeta,
                manifest_at(vault_id),
                manifest@,
            ),
            kdf is Some ==> final(txn).ops@[old(txn).ops@.len() as int + 1].is_put(
                ColumnFamily::VaultMeta,
                kdf_at(vault_id),
                kdf.unwrap()@,
            ),
    {
        txn.put(ColumnFamily::VaultMeta, manifest_key(vault_id), manifest);
        if let Some(k) = kdf {
            txn.put(ColumnFamily::VaultMeta, kdf_key(vault_id), k);
        }
        assert(txn.ops@.take(old(txn).ops@.len() as int) =~= old(txn).ops@);
    }

    /// Opens a vault with a passphrase: the check blob must open under the derived key, and the
    /// identity chain must hold. A manifest that was made under the key of the passphrase is
    /// accepted.
    pub fn unlock(
        vault: &mut VaultManager,
        vault_id: VaultId,
        passphrase: &[u8],
        kdf: Option<&KdfParams>,
        manifest: Option<&RecoveryManifest>,
    ) -> (r: Result<(), RecoveryError>)
        requires
            old(vault).wf(),
        ensures
            final(vault).wf(),
            unlock_result(*old(vault), *final(vault), vault_id, passphrase@, kdf, manifest, r),
            r is Err ==> *final(vault) == *old(vault),
            r is Ok ==> kdf is Some && manifest is Some && ({
                let k = *kdf.unwrap();
                let m = *manifest.unwrap();
                let mk = argon2id_output(
                    passphrase@,
                    k.salt@,
                    k.memory_kib,
                    k.iterations,
                    k.parallelism,
                );
                &&& k.algo == KdfAlgo::Argon2id
                &&& m.wrapped_master_keys@.len() > 0
                &&& m.wrapped_master_keys@[0].nonce matches AeadNonce::N12(n) && chacha_opened(
                    mk,
                    n@,
                    m.wrapped_master_keys@[0].wrapped@ + m.wrapped_master_keys@[0].tag.0@,
                    encode_utf8("openstorage:recovery_manifest:v1"@),
                ) is Some
                &&& m.identity_chain@.len() > 0
                &&& m.identity_chain@[0].fingerprint.0@ == m.identity_anchor_fingerprint.0@
                &&& final(vault).stage() == VaultState::Unlocked
                &&& final(vault).id() == Some(vault_id)
                &&& final(vault).key() == Some(mk)
            }),
            kdf is Some && manifest is Some && kdf_refusal(passphrase@, *kdf.unwrap()) is None
                && manifest.unwrap().wrapped_master_keys@.len() > 0 && is_check_blob(
                manifest.unwrap().wrapped_master_keys@[0],
                master_key_of(passphrase@, *kdf.unwrap()),
            ) && chain_refusal(
                manifest.unwrap().identity_chain@,
                manifest.unwrap().identity_anchor_fingerprint.0@,
            ) is None ==> r is Ok,
    {
        let kdf = match kdf {
            Some(k) => k,
            None => {
                return Err(RecoveryError::VaultNotFound(vault_id));
            },
        };
        let mk = match derive_master_key(passphrase, kdf) {
            Ok(k) => k,
            Err(e) => {
                return Err(RecoveryError::Crypto(e));
            },
        };
        let manifest = match manifest {
            Some(m) => m,
            None => {
                return Err(RecoveryError::VaultNotFound(vault_id));
            },
        };
        if manifest.wrapped_master_keys.len() == 0 {
            return Err(RecoveryError::MissingMode("passphrase"));
        }
        let w = &manifest.wrapped_master_keys[0];
        proof {
            assert(check_mark().len() == 2) by {
                reveal_strlit("OK");
                is_ascii_chars_encode_utf8("OK"@);
            }
        }
        match decrypt(
            AeadSuite::ChaCha20Poly1305,
            &mk,
            &w.nonce,
            &w.wrapped,
            &w.tag,
            "openstorage:recovery_manifest:v1".as_bytes(),
        ) {
            Ok(_) => {},
            Err(_) => {
                return Err(RecoveryError::Unauthenticated);
            },
        }
        match IdentityService::verify_chain(
            &manifest.identity_chain,
            manifest.identity_anchor_fingerprint,
        ) {
            Ok(()) => {},
            Err(e) => {
                return Err(RecoveryError::Identity(e.text()));
            },
        }
        vault.set_unlocked(vault_id, mk);
        Ok(())
    }

    /// Changes the master key to that of another passphrase, with a given nonce and token. The
    /// result is the manifest to keep and the key to use once it is kept.
    pub fn rotate_master_key_with(
        vault: &VaultManager,
        vault_id: VaultId,
        new_passphrase: &[u8],
        new_kdf: &KdfParams,
        manifest: Option<RecoveryManifest>,
        nonce: [u8; 12],
        token: RecoveryTokenId,
    ) -> (r: Result<(RecoveryManifest, SymKey), RecoveryError>)
        requires
            manifest is Some ==> manifest.unwrap().version_counter.0 < u64::MAX,
        ensures
            match rotation_refusal(*vault, vault_id, manifest) {
                Some(e) => r matches Err(got) && same_refusal(got, e),
                None => match kdf_refusal(new_passphrase@, *new_kdf) {
                    Some(why) => r matches Err(RecoveryError::Crypto(CryptoError::KdfParam(m)))
                        && m@ == why,
                    None => {
                        let m = manifest.unwrap();
                        r matches Ok(p) && p.1.0@ == master_key_of(new_passphrase@, *new_kdf)
                            && rewrapped(m, p.0, p.1.0@, nonce, token) && tokens_rotated(m, p.0, token)
                    },
                },
            },
            r matches Ok(p) ==> manifest is Some && vault.stage() == VaultState::Unlocked && p.1.0@
                == argon2id_output(
                new_passphrase@,
                new_kdf.salt@,
                new_kdf.memory_kib,
                new_kdf.iterations,
                new_kdf.parallelism,
            ) && p.0.version_counter.0 == manifest.unwrap().version_counter.0 + 1
                && p.0.identity_chain == manifest.unwrap().identity_chain
                && p.0.wrapped_master_keys@.len() > 0 && p.0.wrapped_master_keys@[0].nonce
                == AeadNonce::N12(nonce) && p.0.wrapped_master_keys@[0].wrapped@
                + p.0.wrapped_master_keys@[0].tag.0@ == chacha_sealed(
                p.1.0@,
                nonce@,
                encode_utf8("OK"@),
                encode_utf8("openstorage:recovery_manifest:v1"@),
            ),
    {
        if vault.state() != VaultState::Unlocked {
            return Err(RecoveryError::Vault("vault must be Unlocked".to_owned()));
        }
        let mut m = match manifest {
            Some(m) => m,
            None => {
                return Err(RecoveryError::VaultNotFound(vault_id));
            },
        };
        let mk = match derive_master_key(new_passphrase, new_kdf) {
            Ok(k) => k,
            Err(e) => {
                return Err(RecoveryError::Crypto(e));
            },
        };
        let had: bool = m.wrapped_master_keys.len() > 0;
        let mode_index: u32 = if had {
            m.wrapped_master_keys[0].mode_index
        } else {
            0
        };
        let w = match seal_check(&mk, nonce, token, mode_index) {
            Ok(w) => w,
            Err(e) => {
                return Err(e);
            },
        };
        if had {
            m.wrapped_master_keys.set(0, w);
        } else {
            m.wrapped_master_keys.push(w);
        }
        replace_tokens(&mut m, token);
        Ok((m, mk))
    }

    /// Changes the master key to that of another passphrase.
    pub fn rotate_master_key(
        vault: &VaultManager,
        vault_id: VaultId,
        new_passphrase: &[u8],
        new_kdf: &KdfParams,
        manifest: Option<RecoveryManifest>,
    ) -> (r: Result<(RecoveryManifest, SymKey), RecoveryError>)
        requires
            manifest is Some ==> manifest.unwrap().version_counter.0 < u64::MAX,
        ensures
            match rotation_refusal(*vault, vault_id, manifest) {
                Some(e) => r matches Err(got) && same_refusal(got, e),
                None => match kdf_refusal(new_passphrase@, *new_kdf) {
                    Some(why) => r matches Err(RecoveryError::Crypto(CryptoError::KdfParam(m)))
                        && m@ == why,
                    None => {
                        let m = manifest.unwrap();
                        r matches Ok(p) && p.1.0@ == master_key_of(new_passphrase@, *new_kdf)
                            && p.0.wrapped_master_keys@.len() > 0 && (
                        p.0.wrapped_master_keys@[0].nonce matches AeadNonce::N12(nonce) && rewrapped(
                            m,
                            p.0,
                            p.1.0@,
                            nonce,
                            p.0.wrapped_master_keys@[0].recovery_token_id,
                        )) && tokens_rotated(m, p.0, p.0.wrapped_master_keys@[0].recovery_token_id)
                    },
                },
            },
    {
        let nonce = random_12();
        RecoveryService::rotate_master_key_with(
            vault,
            vault_id,
            new_passphrase,
            new_kdf,
            manifest,
            nonce,
            RecoveryTokenId::new_v7(),
        )
    }

    /// Changes the recovery token, and leaves the master key.
    pub fn rotate_recovery_token(
        vault: &VaultManager,
        vault_id: VaultId,
        manifest: Option<RecoveryManifest>,
    ) -> (r: Result<(RecoveryManifest, RecoveryTokenId), RecoveryError>)
        requires
            manifest is Some ==> manifest.unwrap().version_counter.0 < u64::MAX,
        ensures
            match rotation_refusal(*vault, vault_id, manifest) {
                Some(e) => r matches Err(got) && same_refusal(got, e),
                None => r matches Ok(p) && p.0.wrapped_master_keys
                    == manifest.unwrap().wrapped_master_keys && tokens_rotated(
                    manifest.unwrap(),
                    p.0,
                    p.1,
                ),
            },
    {
        if vault.state() != VaultState::Unlocked {
            return Err(RecoveryError::Vault("vault must be Unlocked".to_owned()));
        }
        let mut m = match manifest {
            Some(m) => m,
            None => {
                return Err(RecoveryError::VaultNotFound(vault_id));
            },
        };
        let token = RecoveryTokenId::new_v7();
        replace_tokens(&mut m, token);
        Ok((m, token))
    }

    /// Begins to destroy a vault. It must be the one that is open.
    pub fn begin_destroy(vault: &mut VaultManager, vault_id: VaultId) -> (r: Result<
        DestroyReport,
        RecoveryError,
    >)
        requires
            old(vault).wf(),
        ensures
            final(vault).wf(),
            final(vault).id() == old(vault).id(),
            if old(vault).id() != Some(vault_id) {
                r == Err::<DestroyReport, RecoveryError>(RecoveryError::VaultNotFound(vault_id))
                    && *final(vault) == *old(vault)
            } else if old(vault).stage() != VaultState::Unlocked {
                r matches Err(RecoveryError::Vault(m)) && m@ == "wrong vault state: "@ + old(
                    vault,
                ).stage().label() && *final(vault) == *old(vault)
            } else {
                r == Ok::<DestroyReport, RecoveryError>(
                    DestroyReport { removed_shards: 0, failed_shards: 0, unknown_shards: 0 },
                ) && final(vault).stage() == VaultState::Destroying
            },
    {
        match vault.vault_id() {
            None => {
                return Err(RecoveryError::VaultNotFound(vault_id));
            },
            Some(cur) => if cur != vault_id {
                return Err(RecoveryError::VaultNotFound(vault_id));
            },
        }
        match vault.begin_destroying() {
            Ok(()) => Ok(DestroyReport { removed_shards: 0, failed_shards: 0, unknown_shards: 0 }),
            Err(e) => Err(wrong_state(e)),
        }
    }

    /// The writes that wipe a vault: every file, chunk, shard and shadow, and its own records.
    pub fn wipe<B: Backend>(store: &Store<B>, vault_id: VaultId) -> (r: Result<Txn, RecoveryError>)
        requires
            store.backend.wf(),
        ensures
            store.backend.reliable() ==> r is Ok,
            r matches Err(e) ==> (e matches RecoveryError::Metadata(m) && exists|
                cf: ColumnFamily,
                why: MetadataError,
            | #[trigger]
                store.backend.scan_gives(cf, Seq::empty(), Err(why)) && wiped_list().contains(cf) && m@
                    == why.words()),
            r matches Ok(txn) ==> is_wiped(
                store.backend.state(),
                ops_applied(store.backend.state(), txn.ops@),
                vault_id,
            ),
            r matches Ok(txn) ==> ({
                let before = store.backend.state();
                let after = ops_applied(before, txn.ops@);
                &&& forall|k: Seq<u8>|
                    value_in(after, ColumnFamily::Files, k) is None && #[trigger] value_in(
                        after,
                        ColumnFamily::Chunks,
                        k,
                    ) is None && value_in(after, ColumnFamily::Shards, k) is None && value_in(
                        after,
                        ColumnFamily::Shadows,
                        k,
                    ) is None
                &&& value_in(after, ColumnFamily::VaultMeta, be128(vault_id.0)) is None
                &&& value_in(
                    after,
                    ColumnFamily::VaultMeta,
                    encode_utf8("manifest:"@) + be128(vault_id.0),
                ) is None
                &&& value_in(
                    after,
                    ColumnFamily::VaultMeta,
                    encode_utf8("kdf:"@) + be128(vault_id.0),
                ) is None
                &&& after[ColumnFamily::Identity] == before[ColumnFamily::Identity]
                &&& after[ColumnFamily::Peers] == before[ColumnFamily::Peers]
                &&& after[ColumnFamily::Devices] == before[ColumnFamily::Devices]
                &&& after[ColumnFamily::Providers] == before[ColumnFamily::Providers]
            }),
    {
        let mut txn = Txn::new();
        let ghost s = store.backend.state();
        let cfs = wiped_families();
        let mut i: usize = 0;
        proof {
            assert(txn.ops@ =~= Seq::<WriteOp>::empty());
        }
        while i < cfs.len()
            invariant
                store.backend.wf(),
                s == store.backend.state(),
                0 <= i <= cfs@.len(),
                cfs@ == wiped_list(),
                families_wiped(s, ops_applied(s, txn.ops@), cfs@.take(i as int)),
            decreases cfs@.len() - i,
        {
            let cf = cfs[i];
            let none: Vec<u8> = Vec::new();
            assert(none@ =~= Seq::<u8>::empty());
            let rows = match store.backend.scan_prefix(cf, &none) {
                Ok(rows) => rows,
                Err(e) => {
                    assert(wiped_list().contains(cf));
                    return Err(RecoveryError::Metadata(e.text()));
                },
            };
            let ghost before = ops_applied(s, txn.ops@);
            delete_rows(&mut txn, cf, &rows, Ghost(s));
            proof {
                let after = ops_applied(s, txn.ops@);
                lemma_family_emptied(s, before, after, cfs@.take(i as int), cf, rows@);
                assert(cfs@.take(i + 1) =~= cfs@.take(i as int).push(cf));
            }
            i = i + 1;
        }
        assert(cfs@.take(i as int) =~= cfs@);
        let ghost wiped = ops_applied(s, txn.ops@);
        let ghost ops0 = txn.ops@;
        txn.delete(ColumnFamily::VaultMeta, manifest_key(vault_id));
        let ghost ops1 = txn.ops@;
        assert(ops1.drop_last() =~= ops0);
        txn.delete(ColumnFamily::VaultMeta, kdf_key(vault_id));
        let ghost ops2 = txn.ops@;
        assert(ops2.drop_last() =~= ops1);
        txn.delete(ColumnFamily::VaultMeta, vault_id.to_bytes());
        proof {
            assert(txn.ops@.drop_last() =~= ops2);
            lemma_own_records_wiped(s, wiped, ops0, ops1, ops2, txn.ops@, vault_id);
            assert(wiped_list()[0] == ColumnFamily::Files);
            assert(wiped_list()[1] == ColumnFamily::Chunks);
            assert(wiped_list()[2] == ColumnFamily::Shards);
            assert(wiped_list()[3] == ColumnFamily::Shadows);
            let after = ops_applied(s, txn.ops@);
            assert(is_wiped(s, after, vault_id));
            assert(wiped_list().contains(ColumnFamily::Files));
            assert(wiped_list().contains(ColumnFamily::Chunks));
            assert(wiped_list().contains(ColumnFamily::Shards));
            assert(wiped_list().contains(ColumnFamily::Shadows));
            assert(!wiped_list().contains(ColumnFamily::Identity));
            assert(!wiped_list().contains(ColumnFamily::Peers));
            assert(!wiped_list().contains(ColumnFamily::Devices));
            assert(!wiped_list().contains(ColumnFamily::Providers));
            assert(manifest_at(vault_id) == encode_utf8("manifest:"@) + be128(vault_id.0));
            assert(kdf_at(vault_id) == encode_utf8("kdf:"@) + be128(vault_id.0));
            assert forall|k: Seq<u8>|
                value_in(after, ColumnFamily::Files, k) is None && #[trigger] value_in(
                    after,
                    ColumnFamily::Chunks,
                    k,
                ) is None && value_in(after, ColumnFamily::Shards, k) is None && value_in(
                    after,
                    ColumnFamily::Shadows,
                    k,
                ) is None by {
                assert(!after[ColumnFamily::Files].contains_key(k));
                assert(!after[ColumnFamily::Chunks].contains_key(k));
                assert(!after[ColumnFamily::Shards].contains_key(k));
                assert(!after[ColumnFamily::Shadows].contains_key(k));
            }
        }
        Ok(txn)
    }

    /// The vault is destroyed.
    pub fn finish_destroy(vault: &mut VaultManager) -> (r: Result<(), RecoveryError>)
        requires
            old(vault).wf(),
        ensures
            final(vault).wf(),
            final(vault).id() == old(vault).id(),
            if old(vault).stage() == VaultState::Destroying {
                r is Ok && final(vault).stage() == VaultState::Destroyed
            } else {
                r matches Err(RecoveryError::Vault(m)) && m@ == "wrong vault state: "@ + old(
                    vault,
                ).stage().label() && *final(vault) == *old(vault)
            },
    {
        match vault.finish_destroying() {
            Ok(()) => Ok(()),
            Err(e) => Err(wrong_state(e)),
        }
    }
}

fn wrong_state(e: VaultError) -> (r: RecoveryError)
    ensures
        match e {
            VaultError::WrongState(s) => r matches RecoveryError::Vault(m) && m@
                == "wrong vault state: "@ + s.label(),
        },
{
    match e {
        VaultError::WrongState(s) => {
            let mut t: Vec<char> = Vec::new();
            push_text(&mut t, "wrong vault state: ");
            push_text(&mut t, s.as_str());
            assert(t@ =~= "wrong vault state: "@ + s.label());
            RecoveryError::Vault(string_of(&t))
        },
    }
}

/// Whether an identity has one epoch, its first, for the verifying key of a secret, and is named
/// after that key.
pub open spec fn owned_by(id: Identity, secret: Seq<u8>) -> bool {
    &&& secret.len() == 32
    &&& id.epochs@.len() == 1
    &&& is_first_epoch(id.epochs@[0], ed25519_public(secret), id.epochs@[0].created_at)
    &&& id.identity_id.0@ == "id:"@ + lowered(base32_text(id.epochs@[0].fingerprint.0@.take(20)))
}

/// Whether an identity is a new one, of a keypair that was drawn for it.
pub open spec fn is_new_identity(id: Identity) -> bool {
    exists|secret: Seq<u8>| #[trigger] owned_by(id, secret)
}

/// Whether a new vault was made for an owner whose chain this is a copy of.
pub open spec fn is_new_vault_for(
    n: NewVault,
    passphrase: Seq<u8>,
    kdf: KdfParams,
    owner: Identity,
) -> bool {
    exists|o: Identity| #[trigger]
        is_new_vault(n, passphrase, kdf, o) && o.identity_id == owner.identity_id && o.epochs@.len()
            == 1 && same_chain(owner.epochs@, o.epochs@)
}

/// What an attempt to open a vault comes to.
pub open spec fn unlock_result(
    before: VaultManager,
    after: VaultManager,
    vault_id: VaultId,
    passphrase: Seq<u8>,
    kdf: Option<&KdfParams>,
    manifest: Option<&RecoveryManifest>,
    r: Result<(), RecoveryError>,
) -> bool {
    &&& r is Err ==> after == before
    &&& match kdf {
        None => r == Err::<(), RecoveryError>(RecoveryError::VaultNotFound(vault_id)),
        Some(k) => match kdf_refusal(passphrase, *k) {
            Some(why) => r matches Err(RecoveryError::Crypto(CryptoError::KdfParam(m))) && m@ == why,
            None => match manifest {
                None => r == Err::<(), RecoveryError>(RecoveryError::VaultNotFound(vault_id)),
                Some(m) => {
                    let mk = master_key_of(passphrase, *k);
                    if m.wrapped_master_keys@.len() == 0 {
                        r matches Err(RecoveryError::MissingMode(what)) && what@ == "passphrase"@
                    } else if !check_opens(m.wrapped_master_keys@[0], mk) {
                        r == Err::<(), RecoveryError>(RecoveryError::Unauthenticated)
                    } else {
                        match chain_refusal(m.identity_chain@, m.identity_anchor_fingerprint.0@) {
                            Some(e) => r matches Err(RecoveryError::Identity(t)) && t@ == e.words(),
                            None => r is Ok && after.open_with(vault_id, mk),
                        }
                    }
                },
            },
        },
    }
}

/// Why a key or a token is not changed, where it is not: the vault is not open, or has no
/// manifest.
pub open spec fn rotation_refusal(
    vault: VaultManager,
    vault_id: VaultId,
    manifest: Option<RecoveryManifest>,
) -> Option<RotationRefusal> {
    if vault.stage() != VaultState::Unlocked {
        Some(RotationRefusal::NotUnlocked)
    } else if manifest is None {
        Some(RotationRefusal::NoManifest(vault_id))
    } else {
        None
    }
}

/// The two reasons not to change a key or a token.
pub ghost enum RotationRefusal {
    NotUnlocked,
    NoManifest(VaultId),
}

/// Whether an error tells a reason.
pub open spec fn same_refusal(got: RecoveryError, why: RotationRefusal) -> bool {
    match why {
        RotationRefusal::NotUnlocked => got matches RecoveryError::Vault(m) && m@
            == "vault must be Unlocked"@,
        RotationRefusal::NoManifest(v) => got == RecoveryError::VaultNotFound(v),
    }
}

/// Whether a manifest has its first check blob made anew, and the others kept.
pub open spec fn rewrapped(
    before: RecoveryManifest,
    after: RecoveryManifest,
    mk: Seq<u8>,
    nonce: [u8; 12],
    token: RecoveryTokenId,
) -> bool {
    let a = before.wrapped_master_keys@;
    let b = after.wrapped_master_keys@;
    &&& b.len() == (if a.len() == 0 {
        1
    } else {
        a.len()
    })
    &&& is_check_blob(b[0], mk)
    &&& b[0].nonce == AeadNonce::N12(nonce)
    &&& b[0].recovery_token_id == token
    &&& b[0].mode_index == (if a.len() == 0 {
        0
    } else {
        a[0].mode_index
    })
    &&& forall|i: int| 1 <= i < b.len() ==> #[trigger] b[i] == a[i]
}

/// Whether a manifest has all its tokens revoked but for a new one, and is one version on; the
/// rest is kept, the wrapped keys aside.
pub open spec fn tokens_rotated(
    before: RecoveryManifest,
    after: RecoveryManifest,
    token: RecoveryTokenId,
) -> bool {
    &&& after.manifest_id == before.manifest_id
    &&& after.format_version == before.format_version
    &&& after.version_counter.0 == before.version_counter.0 + 1
    &&& after.signing_epoch_id == before.signing_epoch_id
    &&& after.signature == before.signature
    &&& after.modes == before.modes
    &&& after.identity_anchor_fingerprint == before.identity_anchor_fingerprint
    &&& after.identity_chain == before.identity_chain
    &&& after.recovery_token_active_set.adds@ == before.recovery_token_active_set.adds@.insert(
        token.0,
        token,
    )
    &&& after.recovery_token_active_set.tombstones@
        == before.recovery_token_active_set.tombstones@
        + before.recovery_token_active_set.adds@.dom()
}

fn replace_tokens(m: &mut RecoveryManifest, token: RecoveryTokenId)
    requires
        old(m).version_counter.0 < u64::MAX,
    ensures
        tokens_rotated(*old(m), *final(m), token),
        final(m).wrapped_master_keys == old(m).wrapped_master_keys,
{
    let ids = sorted_keys(&m.recovery_token_active_set.adds);
    let ghost adds = m.recovery_token_active_set.adds@;
    m.recovery_token_active_set.remove(&ids);
    m.recovery_token_active_set.add(token.0, token);
    m.version_counter = MonotonicCounter(m.version_counter.0 + 1);
    proof {
        assert forall|k: u128| ids@.to_set().contains(k) == adds.dom().contains(k) by {
            if ids@.contains(k) {
                let i = choose|i: int| 0 <= i < ids@.len() && ids@[i] == k;
                assert(adds.contains_key(ids@[i]));
            }
        }
        assert(ids@.to_set() =~= adds.dom());
    }
}

/// After a rotation with a token that was not there before, that token alone is live.
pub proof fn lemma_new_token_alone(
    before: RecoveryManifest,
    after: RecoveryManifest,
    token: RecoveryTokenId,
    id: u128,
)
    requires
        tokens_rotated(before, after, token),
        !before.recovery_token_active_set.adds@.contains_key(token.0),
        !before.recovery_token_active_set.tombstones@.contains(token.0),
    ensures
        after.recovery_token_active_set.live(id) == (id == token.0),
        after.recovery_token_active_set.adds@[token.0] == token,
{
}

/// A new vault opens with the passphrase that it was made from: its manifest passes every check.
pub proof fn lemma_new_vault_opens(
    n: NewVault,
    passphrase: Seq<u8>,
    kdf: KdfParams,
    owner: Identity,
)
    requires
        is_new_vault(n, passphrase, kdf, owner),
        owner.epochs@.len() == 1,
    ensures
        n.manifest.wrapped_master_keys@.len() > 0,
        is_check_blob(n.manifest.wrapped_master_keys@[0], master_key_of(passphrase, kdf)),
        chain_refusal(n.manifest.identity_chain@, n.manifest.identity_anchor_fingerprint.0@) is None,
{
    let chain = n.manifest.identity_chain@;
    assert(same_epoch(chain[0], owner.epochs@[0]));
    assert(crate::identity::first_bad_link(chain, 0) == 0);
}

/// A vault opens with the passphrase that its key was last changed to, its chain being sound.
pub proof fn lemma_rotated_vault_opens(
    before: RecoveryManifest,
    after: RecoveryManifest,
    mk: Seq<u8>,
    nonce: [u8; 12],
    token: RecoveryTokenId,
)
    requires
        rewrapped(before, after, mk, nonce, token),
        tokens_rotated(before, after, token),
        chain_refusal(before.identity_chain@, before.identity_anchor_fingerprint.0@) is None,
    ensures
        after.wrapped_master_keys@.len() > 0,
        is_check_blob(after.wrapped_master_keys@[0], mk),
        chain_refusal(after.identity_chain@, after.identity_anchor_fingerprint.0@) is None,
{
}

/// What became of the shards of a destroyed vault.
#[derive(Clone, Copy, PartialEq, Eq, Structural, Debug)]
pub struct DestroyReport {
    pub removed_shards: u64,
    pub failed_shards: u64,
    pub unknown_shards: u64,
}

impl Default for DestroyReport {
    fn default() -> (r: Self)
        ensures
            r == (DestroyReport { removed_shards: 0, failed_shards: 0, unknown_shards: 0 }),
    {
        DestroyReport { removed_shards: 0, failed_shards: 0, unknown_shards: 0 }
    }
}

/// What became of one shard.
#[derive(Clone, Copy, PartialEq, Eq, Structural, Debug)]
pub enum ShardFate {
    Removed,
    Failed,
    NoPlugin,
}

impl DestroyReport {
    /// How many shards were met.
    pub open spec fn total(self) -> int {
        self.removed_shards + self.failed_shards + self.unknown_shards
    }

    /// Counts a shard.
    pub fn observe(&mut self, fate: ShardFate)
        requires
            old(self).total() < u64::MAX,
        ensures
            *final(self) == (match fate {
                ShardFate::Removed => DestroyReport {
                    removed_shards: (old(self).removed_shards + 1) as u64,
                    ..*old(self)
                },
                ShardFate::Failed => DestroyReport {
                    failed_shards: (old(self).failed_shards + 1) as u64,
                    ..*old(self)
                },
                ShardFate::NoPlugin => DestroyReport {
                    unknown_shards: (old(self).unknown_shards + 1) as u64,
                    ..*old(self)
                },
            }),
            final(self).total() == old(self).total() + 1,
    {
        match fate {
            ShardFate::Removed => {
                self.removed_shards = self.removed_shards + 1;
            },
            ShardFate::Failed => {
                self.failed_shards = self.failed_shards + 1;
            },
            ShardFate::NoPlugin => {
                self.unknown_shards = self.unknown_shards + 1;
            },
        }
    }
}

/// The families that a destroyed vault leaves empty.
pub open spec fn wiped_list() -> Seq<ColumnFamily> {
    seq![ColumnFamily::Files, ColumnFamily::Chunks, ColumnFamily::Shards, ColumnFamily::Shadows]
}

fn wiped_families() -> (r: Vec<ColumnFamily>)
    ensures
        r@ == wiped_list(),
{
    let mut v: Vec<ColumnFamily> = Vec::new();
    v.push(ColumnFamily::Files);
    v.push(ColumnFamily::Chunks);
    v.push(ColumnFamily::Shards);
    v.push(ColumnFamily::Shadows);
    assert(v@ =~= wiped_list());
    v
}

/// Whether some families were emptied and the others left.
pub open spec fn families_wiped(s: DbState, after: DbState, cfs: Seq<ColumnFamily>) -> bool {
    &&& forall|cf: ColumnFamily| #[trigger]
        cfs.contains(cf) ==> forall|k: Seq<u8>| !(#[trigger] after[cf].contains_key(k))
    &&& forall|cf: ColumnFamily| !#[trigger] cfs.contains(cf) ==> after[cf] == s[cf]
}

/// Whether a vault was wiped: the four families are empty, its own three records are gone, and all
/// else is as it was.
pub open spec fn is_wiped(s: DbState, after: DbState, v: VaultId) -> bool {
    &&& forall|cf: ColumnFamily| #[trigger]
        wiped_list().contains(cf) ==> forall|k: Seq<u8>| !(#[trigger] after[cf].contains_key(k))
    &&& after[ColumnFamily::VaultMeta] == s[ColumnFamily::VaultMeta].remove(manifest_at(v)).remove(
        kdf_at(v),
    ).remove(be128(v.0))
    &&& forall|cf: ColumnFamily|
        !#[trigger] wiped_list().contains(cf) && cf != ColumnFamily::VaultMeta ==> after[cf] == s[cf]
}

/// Adds the removal of every row's key.
fn delete_rows(txn: &mut Txn, cf: ColumnFamily, rows: &Vec<Row>, start: Ghost<DbState>)
    ensures
        rows_deleted(
            ops_applied(start@, old(txn).ops@),
            ops_applied(start@, final(txn).ops@),
            cf,
            rows@,
        ),
{
    let ghost before = ops_applied(start@, txn.ops@);
    let mut i: usize = 0;
    while i < rows.len()
        invariant
            0 <= i <= rows@.len(),
            before == ops_applied(start@, old(txn).ops@),
            rows_deleted(before, ops_applied(start@, txn.ops@), cf, rows@.take(i as int)),
        decreases rows@.len() - i,
    {
        let ghost ops = txn.ops@;
        let ghost mid = ops_applied(start@, ops);
        txn.delete(cf, to_vec(&rows[i].0));
        proof {
            assert(txn.ops@.drop_last() =~= ops);
            let key = rows@[i as int].0@;
            let after = ops_applied(start@, txn.ops@);
            assert(after == mid.insert(cf, mid[cf].remove(key)));
            let t = rows@.take(i as int);
            let u = rows@.take(i + 1);
            assert forall|k: Seq<u8>| has_key(u, k) == (has_key(t, k) || k == key) by {
                if has_key(t, k) {
                    let j = choose|j: int| 0 <= j < t.len() && (#[trigger] t[j]).0@ == k;
                    assert(u[j].0@ == k);
                }
                assert(u[i as int].0@ == key);
                if has_key(u, k) {
                    let j = choose|j: int| 0 <= j < u.len() && (#[trigger] u[j]).0@ == k;
                    if j < i {
                        assert(t[j].0@ == k);
                    }
                }
            }
        }
        i = i + 1;
    }
    assert(rows@.take(i as int) =~= rows@);
}

/// Whether the keys of some rows left a family, and nothing else changed.
pub open spec fn rows_deleted(s: DbState, after: DbState, cf: ColumnFamily, rows: Seq<Row>) -> bool {
    &&& forall|c: ColumnFamily| c != cf ==> #[trigger] after[c] == s[c]
    &&& forall|k: Seq<u8>| #[trigger]
        after[cf].contains_key(k) == (s[cf].contains_key(k) && !has_key(rows, k))
}

proof fn lemma_family_emptied(
    s: DbState,
    before: DbState,
    after: DbState,
    done: Seq<ColumnFamily>,
    cf: ColumnFamily,
    rows: Seq<Row>,
)
    requires
        families_wiped(s, before, done),
        rows_deleted(before, after, cf, rows),
        lists_prefix(rows, s[cf], Seq::empty()),
    ensures
        families_wiped(s, after, done.push(cf)),
{
    let all = done.push(cf);
    assert forall|k: Seq<u8>| !(#[trigger] after[cf].contains_key(k)) by {
        if after[cf].contains_key(k) {
            assert(before[cf].contains_key(k));
            if done.contains(cf) {
                assert(!before[cf].contains_key(k));
            } else {
                assert(s[cf].contains_key(k));
                assert(k.take(0) =~= Seq::<u8>::empty());
                assert(has_prefix(k, Seq::<u8>::empty()));
                assert(has_key(rows, k));
            }
        }
    }
    assert(all[done.len() as int] == cf);
    assert forall|c: ColumnFamily| #[trigger] all.contains(c) implies forall|k: Seq<u8>|
        !(#[trigger] after[c].contains_key(k)) by {
        if c != cf {
            let i = choose|i: int| 0 <= i < all.len() && all[i] == c;
            assert(done[i] == c);
            assert(done.contains(c));
            assert(after[c] == before[c]);
        }
    }
    assert forall|c: ColumnFamily| !#[trigger] all.contains(c) implies after[c] == s[c] by {
        if done.contains(c) {
            let i = choose|i: int| 0 <= i < done.len() && done[i] == c;
            assert(all[i] == c);
        }
        assert(c != cf);
        assert(after[c] == before[c]);
    }
}

proof fn lemma_own_records_wiped(
    s: DbState,
    wiped: DbState,
    ops0: Seq<WriteOp>,
    ops1: Seq<WriteOp>,
    ops2: Seq<WriteOp>,
    ops3: Seq<WriteOp>,
    v: VaultId,
)
    requires
        wiped == ops_applied(s, ops0),
        families_wiped(s, wiped, wiped_list()),
        ops1.len() == ops0.len() + 1,
        ops2.len() == ops0.len() + 2,
        ops3.len() == ops0.len() + 3,
        ops1.drop_last() == ops0,
        ops2.drop_last() == ops1,
        ops3.drop_last() == ops2,
        ops1.last().is_delete(ColumnFamily::VaultMeta, manifest_at(v)),
        ops2.last().is_delete(ColumnFamily::VaultMeta, kdf_at(v)),
        ops3.last().is_delete(ColumnFamily::VaultMeta, be128(v.0)),
    ensures
        is_wiped(s, ops_applied(s, ops3), v),
{
    let a = ops_applied(s, ops1);
    let b = ops_applied(s, ops2);
    let c = ops_applied(s, ops3);
    let meta = ColumnFamily::VaultMeta;
    assert(a == op_applied(wiped, ops1.last()));
    assert(b == op_applied(a, ops2.last()));
    assert(c == op_applied(b, ops3.last()));
    assert(a[meta] == wiped[meta].remove(manifest_at(v)));
    assert(b[meta] == a[meta].remove(kdf_at(v)));
    assert(c[meta] == b[meta].remove(be128(v.0)));
    assert(!wiped_list().contains(meta));
    assert forall|cf: ColumnFamily| cf != meta implies #[trigger] c[cf] == wiped[cf] by {}
}

/// The name of a way to get the master key back.
pub open spec fn mode_label(m: RecoveryMode) -> Seq<char> {
    match m {
        RecoveryMode::Passphrase => "passphrase"@,
        RecoveryMode::RecoveryFile { .. } => "recovery_file"@,
        RecoveryMode::Shamir { .. } => "shamir"@,
        RecoveryMode::HardwareKey { .. } => "hardware_key"@,
    }
}

/// The name of a way to get the master key back.
pub fn recovery_mode_label(m: &RecoveryMode) -> (r: &'static str)
    ensures
        r@ == mode_label(*m),
{
    match m {
        RecoveryMode::Passphrase => "passphrase",
        RecoveryMode::RecoveryFile { .. } => "recovery_file",
        RecoveryMode::Shamir { .. } => "shamir",
        RecoveryMode::HardwareKey { .. } => "hardware_key",
    }
}

/// The records of a vault stand apart: its own, its manifest and its derivation parameters have
/// different keys, and so have those of different vaults.
pub proof fn lemma_vault_records_apart(v: VaultId, w: VaultId)
    ensures
        manifest_at(v) != kdf_at(w),
        manifest_at(v) != be128(w.0),
        kdf_at(v) != be128(w.0),
        manifest_at(v) == manifest_at(w) ==> v == w,
        kdf_at(v) == kdf_at(w) ==> v == w,
{
    reveal_strlit("manifest:");
    reveal_strlit("kdf:");
    let m = encode_utf8("manifest:"@);
    let k = encode_utf8("kdf:"@);
    assert(be128(v.0).len() == 16 && be128(w.0).len() == 16) by {
        crate::bytes::lemma_be128_round_trip(v.0);
        crate::bytes::lemma_be128_round_trip(w.0);
    }
    is_ascii_chars_encode_utf8("manifest:"@);
    is_ascii_chars_encode_utf8("kdf:"@);
    assert(manifest_at(v).len() == 25 && kdf_at(w).len() == 20);
    if manifest_at(v) == manifest_at(w) {
        assert(manifest_at(v).skip(m.len() as int) =~= be128(v.0));
        assert(manifest_at(w).skip(m.len() as int) =~= be128(w.0));
        crate::bytes::lemma_be128_injective(v.0, w.0);
    }
    if kdf_at(v) == kdf_at(w) {
        assert(kdf_at(v).skip(k.len() as int) =~= be128(v.0));
        assert(kdf_at(w).skip(k.len() as int) =~= be128(w.0));
        crate::bytes::lemma_be128_injective(v.0, w.0);
    }
}

/// A wrapped master key opens a vault exactly where it is sealed with a short nonce and the key
/// opens it; a mark that the key sealed names the recovery manifest.
pub proof fn lemma_check_names_manifest(w: WrappedMasterKey, mk: Seq<u8>)
    ensures
        is_check_blob(w, mk) ==> w.nonce is N12 && w.wrapped@ + w.tag.0@ == chacha_sealed(
            mk,
            w.nonce.bytes(),
            encode_utf8("OK"@),
            encode_utf8("openstorage:recovery_manifest:v1"@),
        ),
        check_opens(w, mk) ==> w.nonce is N12 && chacha_opened(
            mk,
            w.nonce.bytes(),
            w.wrapped@ + w.tag.0@,
            encode_utf8("openstorage:recovery_manifest:v1"@),
        ) is Some,
{
}

/// A rotation leaves exactly one token live, the new one, counts the manifest on by one, and keeps
/// the identity.
pub proof fn lemma_rotation_leaves_one_token(
    before: RecoveryManifest,
    after: RecoveryManifest,
    token: RecoveryTokenId,
)
    requires
        tokens_rotated(before, after, token),
        !before.recovery_token_active_set.adds@.contains_key(token.0),
        !before.recovery_token_active_set.tombstones@.contains(token.0),
    ensures
        forall|t: u128|
            after.recovery_token_active_set.adds@.contains_key(t)
                && !(#[trigger] after.recovery_token_active_set.tombstones@.contains(t)) <==> t
                == token.0,
        after.version_counter.0 > before.version_counter.0,
        after.identity_chain == before.identity_chain,
        after.identity_anchor_fingerprint == before.identity_anchor_fingerprint,
{
}

/// Different ways to recover have different labels.
pub proof fn lemma_mode_labels_apart(a: RecoveryMode, b: RecoveryMode)
    requires
        mode_label(a) == mode_label(b),
    ensures
        a is Passphrase <==> b is Passphrase,
        a is RecoveryFile <==> b is RecoveryFile,
        a is Shamir <==> b is Shamir,
        a is HardwareKey <==> b is HardwareKey,
{
    reveal_strlit("passphrase");
    reveal_strlit("recovery_file");
    reveal_strlit("shamir");
    reveal_strlit("hardware_key");
    assert("passphrase"@.len() == 10 && "recovery_file"@.len() == 13 && "shamir"@.len() == 6
        && "hardware_key"@.len() == 12);
}

/// What a new vault is made of: one way in, by the passphrase, whose mark its master key sealed; its
/// anchor is its owner's first epoch; its salt comes from the master key; and nothing is in it yet.
pub proof fn lemma_new_vault_holds(n: NewVault, passphrase: Seq<u8>, kdf: KdfParams, owner: Identity)
    requires
        is_new_vault(n, passphrase, kdf, owner),
    ensures
        n.master_key.0@ == argon2id_output(
            passphrase,
            kdf.salt@,
            kdf.memory_kib,
            kdf.iterations,
            kdf.parallelism,
        ),
        n.manifest.wrapped_master_keys@.len() == 1,
        n.manifest.modes@ == seq![RecoveryMode::Passphrase],
        n.manifest.identity_anchor_fingerprint == owner.epochs@[0].fingerprint,
        n.manifest.identity_chain@.len() == owner.epochs@.len(),
        forall|i: int|
            0 <= i < owner.epochs@.len() ==> (#[trigger] n.manifest.identity_chain@[i]).epoch
                == owner.epochs@[i].epoch && n.manifest.identity_chain@[i].sign_pubkey
                == owner.epochs@[i].sign_pubkey && n.manifest.identity_chain@[i].kem_pubkey.0@
                == owner.epochs@[i].kem_pubkey.0@ && n.manifest.identity_chain@[i].signed_by_prev
                == owner.epochs@[i].signed_by_prev,
        n.manifest.version_counter.0 == 1,
        n.vault.owner == owner.identity_id,
        n.vault.recovery_manifest_ref == n.manifest.manifest_id,
        n.vault.vault_salt@ == subkey(n.master_key.0@, KeyPurpose::VaultSalt, None),
        n.vault.snapshot_pointer.version_counter.0 == 0,
        n.vault.aead_suite == AeadSuite::ChaCha20Poly1305,
        n.vault.identity_chain@ == owner.epochs@,
{
    assert forall|i: int| 0 <= i < owner.epochs@.len() implies (
    #[trigger] n.manifest.identity_chain@[i]).epoch == owner.epochs@[i].epoch
        && n.manifest.identity_chain@[i].sign_pubkey == owner.epochs@[i].sign_pubkey
        && n.manifest.identity_chain@[i].kem_pubkey.0@ == owner.epochs@[i].kem_pubkey.0@
        && n.manifest.identity_chain@[i].signed_by_prev == owner.epochs@[i].signed_by_prev by {
        assert(same_epoch(n.manifest.identity_chain@[i], owner.epochs@[i]));
    }
}

/// A rotation replaces the first wrapped key and no other.
pub proof fn lemma_rotation_rewraps_first(
    before: RecoveryManifest,
    after: RecoveryManifest,
    mk: Seq<u8>,
    nonce: [u8; 12],
    token: RecoveryTokenId,
    i: int,
)
    requires
        rewrapped(before, after, mk, nonce, token),
    ensures
        after.wrapped_master_keys@.len() > 0,
        is_check_blob(after.wrapped_master_keys@[0], mk),
        after.wrapped_master_keys@[0].recovery_token_id == token,
        before.wrapped_master_keys@.len() > 0 ==> after.wrapped_master_keys@.len()
            == before.wrapped_master_keys@.len(),
        1 <= i < before.wrapped_master_keys@.len() ==> after.wrapped_master_keys@[i]
            == before.wrapped_master_keys@[i],
{
}

/// A new identity has one epoch, the first, with the owner's key; and its name is made of the first
/// twenty bytes of that key's fingerprint.
pub proof fn lemma_new_identity_owned(id: Identity, secret: Seq<u8>)
    requires
        owned_by(id, secret),
    ensures
        id.epochs@.len() == 1,
        id.epochs@[0].epoch == EpochId(0),
        id.epochs@[0].sign_pubkey.0@ == ed25519_public(secret),
        id.epochs@[0].signed_by_prev is None,
        id.identity_id.0@ == "id:"@ + lowered(
            base32_text(crate::identity::fingerprint(ed25519_public(secret)).take(20)),
        ),
{
}

} // verus!
