use openstorage::crypto::sig::generate_keypair;
use openstorage::crypto::sig::sign;
use openstorage::crypto::SymKey;
use openstorage::entities::crdt::LwwRegister;
use openstorage::entities::crdt::OrSet;
use openstorage::entities::records::File;
use openstorage::entities::records::IdentityEpoch;
use openstorage::entities::records::Peer;
use openstorage::entities::records::Permission;
use openstorage::entities::records::Permissions;
use openstorage::entities::records::RecoveryMode;
use openstorage::entities::records::ShareScope;
use openstorage::identity::fingerprint_of;
use openstorage::identity::id_string_for;
use openstorage::identity::peer_id_for;
use openstorage::identity::placeholder_kem_pub;
use openstorage::identity::IdentityError;
use openstorage::identity::IdentityService;
use openstorage::keystore::binding::ensure_device_wrap_key;
use openstorage::keystore::binding::unwrap_binding;
use openstorage::keystore::binding::wrap_binding;
use openstorage::keystore::binding::BindingError;
use openstorage::keystore::system::delete_outcome;
use openstorage::keystore::system::load_outcome;
use openstorage::keystore::system::secret_text;
use openstorage::keystore::system::KeyringReply;
use openstorage::keystore::Keystore;
use openstorage::keystore::KeystoreError;
use openstorage::keystore::MemoryKeystore;
use openstorage::keystore::SystemKeystore;
use openstorage::metadata::backend::Backend;
use openstorage::metadata::backend::MemoryBackend;
use openstorage::metadata::backend::Txn;
use openstorage::metadata::cf::ColumnFamily;
use openstorage::metadata::store::Store;
use openstorage::recovery::kdf_key;
use openstorage::recovery::manifest_key;
use openstorage::recovery::new_kdf_params;
use openstorage::recovery::recovery_mode_label;
use openstorage::recovery::NewVault;
use openstorage::recovery::RecoveryError;
use openstorage::recovery::RecoveryService;
use openstorage::recovery::ShardFate;
use openstorage::share::derive_file_key;
use openstorage::share::CreateShareReq;
use openstorage::share::ShareBlob;
use openstorage::share::ShareError;
use openstorage::share::ShareService;
use openstorage::types::BlakeHash;
use openstorage::types::DeviceId;
use openstorage::types::Ed25519Priv;
use openstorage::types::EpochId;
use openstorage::types::FileId;
use openstorage::types::Hlc;
use openstorage::types::IdentityId;
use openstorage::types::KdfAlgo;
use openstorage::types::KdfParams;
use openstorage::types::MlKemPub;
use openstorage::types::PeerId;
use openstorage::types::RecoveryTokenId;
use openstorage::types::ShareId;
use openstorage::types::Timestamp;
use openstorage::types::VaultId;
use openstorage::vault::VaultError;
use openstorage::vault::VaultManager;
use openstorage::vault::VaultState;

fn now() -> Timestamp {
    Timestamp::from_string("now")
}

#[test]
fn create_then_verify_chain() {
    let (id, sk) = IdentityService::create_identity(now());
    let anchor = id.epochs[0].fingerprint;
    IdentityService::verify_chain(&id.epochs, anchor).unwrap();
    let name = id.identity_id.copied();
    let (id, sk2) =
        IdentityService::rotate_identity(Some(id), &name, &sk, Timestamp::from_string("t2"))
            .unwrap();
    let e1 = id.epochs[1].epoch;
    let (id, _sk3) =
        IdentityService::rotate_identity(Some(id), &name, &sk2, Timestamp::from_string("t3"))
            .unwrap();
    IdentityService::verify_chain(&id.epochs, anchor).unwrap();
    assert_eq!(id.epochs.len(), 3);
    assert_eq!(id.epochs[1].epoch, e1);
}

#[test]
fn anchor_mismatch_rejected() {
    let (id, _sk) = IdentityService::create_identity(now());
    let bogus = BlakeHash::from_bytes([0xff; 32]);
    assert!(matches!(
        IdentityService::verify_chain(&id.epochs, bogus),
        Err(IdentityError::AnchorMismatch)
    ));
}

fn first_epoch(pk: openstorage::types::Ed25519Pub) -> IdentityEpoch {
    IdentityEpoch {
        epoch: EpochId(0),
        sign_pubkey: pk,
        kem_pubkey: placeholder_kem_pub(),
        fingerprint: fingerprint_of(&pk),
        created_at: Timestamp::from_string("t"),
        wrapped_privkeys: Vec::new(),
        signed_by_prev: None,
    }
}

#[test]
fn peer_signature_verifies() {
    let (peer_priv, peer_pub) = generate_keypair();
    let pid = peer_id_for(&peer_pub);
    let peer = Peer {
        peer_id: pid.clone(),
        epochs: vec![first_epoch(peer_pub)],
        label: "alice".into(),
        verified: true,
        last_seen_epoch: EpochId(0),
        added_at: Timestamp::from_string("t"),
    };
    let sig = sign(&peer_priv, b"hello");
    let check = |at: u32, m: &[u8]| {
        IdentityService::verify_peer_signature(Some(&peer), &pid, EpochId(at), m, &sig)
    };
    assert!(check(0, b"hello").is_ok());
    assert_eq!(check(0, b"other"), Err(IdentityError::SignatureInvalid));
    assert_eq!(check(1, b"hello"), Err(IdentityError::PeerChainOutdated { have: 0, signed_at: 1 }));
    assert_eq!(
        IdentityService::verify_peer_signature(None, &pid, EpochId(0), b"hello", &sig),
        Err(IdentityError::NotFound(pid.0.clone()))
    );
}

#[test]
fn broken_chains_are_refused() {
    let anchor = BlakeHash::from_bytes([0u8; 32]);
    assert_eq!(
        IdentityService::verify_chain(&vec![], anchor),
        Err(IdentityError::ChainInvalid(0))
    );
    let (id, _sk) = IdentityService::create_identity(now());
    let anchor = id.epochs[0].fingerprint;
    let name = id.identity_id.copied();
    let (other, _pk) = generate_keypair();
    let (id, _) =
        IdentityService::rotate_identity(Some(id), &name, &other, Timestamp::from_string("t2"))
            .unwrap();
    assert_eq!(
        IdentityService::verify_chain(&id.epochs, anchor),
        Err(IdentityError::ChainInvalid(1))
    );
    assert_eq!(
        IdentityService::rotate_identity(None, &name, &other, now()).err(),
        Some(IdentityError::NotFound(name.0.clone()))
    );
}

#[test]
fn names_are_base32_of_fingerprints() {
    let (_sk, pk) = generate_keypair();
    let fp = fingerprint_of(&pk);
    let digest = blake3::hash(pk.as_bytes());
    assert_eq!(&fp.as_bytes()[..20], &digest.as_bytes()[..20]);
    assert_eq!(&fp.as_bytes()[20..], &[0u8; 12]);
    let text = base32::encode(
        base32::Alphabet::Rfc4648 { padding: false },
        &digest.as_bytes()[..20],
    )
    .to_lowercase();
    assert_eq!(id_string_for(&fp), IdentityId(format!("id:{text}")));
    assert_eq!(peer_id_for(&pk), PeerId(format!("peer:{text}")));
    let mut bytes = [0u8; 32];
    bytes[..6].copy_from_slice(b"foobar");
    assert_eq!(
        id_string_for(&BlakeHash::from_bytes(bytes)).0,
        "id:mzxw6ytboiaaaaaaaaaaaaaaaaaaaaaa"
    );
    assert_eq!(id_string_for(&BlakeHash::from_bytes([255u8; 32])).0, format!("id:{}", "7".repeat(32)));
}

#[test]
fn identity_errors_in_words() {
    assert_eq!(
        IdentityError::PeerChainOutdated { have: 3, signed_at: 12 }.text(),
        "peer chain outdated; have epoch 3, signed at 12"
    );
    assert_eq!(IdentityError::ChainInvalid(7).text(), "chain validation failed at epoch 7");
    assert_eq!(IdentityError::NotFound("x".into()).text(), "identity not found: x");
}

#[test]
fn round_trip() {
    let mut k = MemoryKeystore::new();
    k.store("a", &[7u8; 32]).unwrap();
    let s = k.load("a").unwrap();
    assert_eq!(s, [7u8; 32]);
}

#[test]
fn delete_removes() {
    let mut k = MemoryKeystore::new();
    k.store("a", &[1u8; 32]).unwrap();
    k.delete("a").unwrap();
    assert!(matches!(k.load("a"), Err(KeystoreError::NotFound(_))));
}

#[test]
fn wrap_unwrap_round_trip() {
    let mut ks = MemoryKeystore::new();
    let blob = wrap_binding(&mut ks, b"VaultBinding-bytes").unwrap();
    let pt = unwrap_binding(&mut ks, &blob).unwrap();
    assert_eq!(pt, b"VaultBinding-bytes");
}

#[test]
fn bindings_are_tied_to_the_device() {
    let mut here = MemoryKeystore::new();
    let mut there = MemoryKeystore::new();
    let blob = wrap_binding(&mut here, b"secret").unwrap();
    assert_eq!(blob.len(), 6 + 28);
    assert!(matches!(unwrap_binding(&mut there, &blob), Err(BindingError::Crypto(_))));
    assert_eq!(unwrap_binding(&mut here, &blob[..27]), Err(BindingError::Format));
}

#[test]
fn the_device_key_is_made_once() {
    let mut ks = MemoryKeystore::new();
    let a = ensure_device_wrap_key(&mut ks).unwrap();
    let b = ensure_device_wrap_key(&mut ks).unwrap();
    assert_eq!(a.as_bytes(), b.as_bytes());
    assert_eq!(&ks.load("device_wrap").unwrap(), a.as_bytes());
}

#[test]
fn keyring_texts() {
    assert_eq!(SystemKeystore::new().service, "openstorage");
    assert_eq!(SystemKeystore::with_service("other").service, "other");
    let text = secret_text(&[0xABu8; 32]);
    assert_eq!(text, "ab".repeat(32));
    assert_eq!(load_outcome("k", KeyringReply::Done(text)), Ok([0xABu8; 32]));
    assert_eq!(
        load_outcome("k", KeyringReply::Done("abcd".into())),
        Err(KeystoreError::Length { expected: 32, got: 2 })
    );
    assert_eq!(
        load_outcome("k", KeyringReply::Done("nothex".into())),
        Err(KeystoreError::Length { expected: 32, got: 3 })
    );
    assert_eq!(load_outcome("k", KeyringReply::NoEntry), Err(KeystoreError::NotFound("k".into())));
    assert_eq!(
        load_outcome("k", KeyringReply::Failed("no bus".into())),
        Err(KeystoreError::Platform("no bus".into()))
    );
    assert_eq!(delete_outcome(KeyringReply::NoEntry), Ok(()));
}

fn cheap_kdf() -> KdfParams {
    KdfParams {
        algo: KdfAlgo::Argon2id,
        memory_kib: 8,
        iterations: 1,
        parallelism: 1,
        salt: vec![7u8; 16],
    }
}

fn created(passphrase: &[u8], kdf: &KdfParams) -> (NewVault, VaultManager) {
    let (n, _owner) = RecoveryService::new_vault(passphrase, kdf).unwrap();
    let mut vm = VaultManager::new();
    vm.set_unlocked(n.vault.vault_id, n.master_key.clone());
    (n, vm)
}

#[test]
fn create_then_unlock_round_trip() {
    let kdf = cheap_kdf();
    let (n, mut vm) = created(b"correct horse", &kdf);
    vm.lock().unwrap();
    RecoveryService::unlock(
        &mut vm,
        n.vault.vault_id,
        b"correct horse",
        Some(&kdf),
        Some(&n.manifest),
    )
    .unwrap();
    assert_eq!(vm.state(), VaultState::Unlocked);
    assert_eq!(vm.master_key().unwrap().as_bytes(), n.master_key.as_bytes());
}

#[test]
fn unlock_with_wrong_passphrase_fails() {
    let kdf = cheap_kdf();
    let (n, mut vm) = created(b"good", &kdf);
    vm.lock().unwrap();
    let err =
        RecoveryService::unlock(&mut vm, n.vault.vault_id, b"bad", Some(&kdf), Some(&n.manifest));
    assert!(matches!(err, Err(RecoveryError::Unauthenticated)));
    assert_eq!(vm.state(), VaultState::Locked);
}

#[test]
fn unlock_after_lock_restores_unlocked_state() {
    let kdf = cheap_kdf();
    let (n, mut vm) = created(b"alpha", &kdf);
    assert_eq!(vm.state(), VaultState::Unlocked);
    vm.lock().unwrap();
    assert_eq!(vm.state(), VaultState::Locked);
    assert!(vm.master_key().is_none());
    RecoveryService::unlock(&mut vm, n.vault.vault_id, b"alpha", Some(&kdf), Some(&n.manifest))
        .unwrap();
    assert_eq!(vm.state(), VaultState::Unlocked);
}

#[test]
fn rotate_master_key_invalidates_old_passphrase() {
    let kdf = cheap_kdf();
    let (n, mut vm) = created(b"old-pass", &kdf);
    let v = n.vault.vault_id;
    let (manifest, mk) =
        RecoveryService::rotate_master_key(&vm, v, b"new-pass", &kdf, Some(n.manifest)).unwrap();
    vm.replace_mk(mk).unwrap();
    vm.lock().unwrap();
    assert!(matches!(
        RecoveryService::unlock(&mut vm, v, b"old-pass", Some(&kdf), Some(&manifest)),
        Err(RecoveryError::Unauthenticated)
    ));
    RecoveryService::unlock(&mut vm, v, b"new-pass", Some(&kdf), Some(&manifest)).unwrap();
    assert_eq!(vm.state(), VaultState::Unlocked);
}

#[test]
fn rotate_recovery_token_updates_active_set() {
    let kdf = cheap_kdf();
    let (n, vm) = created(b"pp", &kdf);
    let initial_version = n.manifest.version_counter.0;
    let (m2, new_id) =
        RecoveryService::rotate_recovery_token(&vm, n.vault.vault_id, Some(n.manifest)).unwrap();
    let live: Vec<RecoveryTokenId> =
        m2.recovery_token_active_set.live_values().into_iter().copied().collect();
    assert_eq!(live, vec![new_id]);
    assert!(m2.version_counter.0 > initial_version);
}

#[test]
fn destroy_vault_transitions_to_destroyed() {
    let kdf = cheap_kdf();
    let (n, mut vm) = created(b"x", &kdf);
    let v = n.vault.vault_id;
    let mut store = Store::new(MemoryBackend::new());
    let mut txn = Txn::new();
    RecoveryService::vault_writes(&mut txn, v, vec![1], vec![2], vec![3]);
    txn.put(ColumnFamily::Files, b"f".to_vec(), b"file".to_vec());
    txn.put(ColumnFamily::Peers, b"p".to_vec(), b"peer".to_vec());
    store.commit(txn).unwrap();
    let mut report = RecoveryService::begin_destroy(&mut vm, v).unwrap();
    report.observe(ShardFate::Removed);
    report.observe(ShardFate::NoPlugin);
    let txn = RecoveryService::wipe(&store, v).unwrap();
    store.commit(txn).unwrap();
    RecoveryService::finish_destroy(&mut vm).unwrap();
    assert_eq!(vm.state(), VaultState::Destroyed);
    assert_eq!(report.failed_shards, 0);
    assert_eq!((report.removed_shards, report.unknown_shards), (1, 1));
    assert!(store.get_vault(v).unwrap().is_none());
    let b = store.backend();
    assert!(b.get(ColumnFamily::VaultMeta, &manifest_key(v)).unwrap().is_none());
    assert!(b.get(ColumnFamily::VaultMeta, &kdf_key(v)).unwrap().is_none());
    assert!(b.get(ColumnFamily::Files, b"f").unwrap().is_none());
    assert!(b.get(ColumnFamily::Peers, b"p").unwrap().is_some());
}

#[test]
fn recovery_refusals() {
    let kdf = cheap_kdf();
    let (n, mut vm) = created(b"x", &kdf);
    let other = VaultId(1);
    assert_eq!(
        RecoveryService::begin_destroy(&mut vm, other).err(),
        Some(RecoveryError::VaultNotFound(other))
    );
    assert_eq!(
        RecoveryService::unlock(&mut vm, other, b"x", None, None),
        Err(RecoveryError::VaultNotFound(other))
    );
    let mut bare = n.manifest.clone();
    bare.wrapped_master_keys.clear();
    assert_eq!(
        RecoveryService::unlock(&mut vm, other, b"x", Some(&kdf), Some(&bare)),
        Err(RecoveryError::MissingMode("passphrase"))
    );
    let mut broken = n.manifest.clone();
    broken.identity_chain.clear();
    assert_eq!(
        RecoveryService::unlock(&mut vm, other, b"x", Some(&kdf), Some(&broken)),
        Err(RecoveryError::Identity("chain validation failed at epoch 0".into()))
    );
    vm.lock().unwrap();
    assert_eq!(vm.lock(), Err(VaultError::WrongState(VaultState::Locked)));
    assert_eq!(
        RecoveryService::rotate_recovery_token(&vm, other, Some(n.manifest)).err(),
        Some(RecoveryError::Vault("vault must be Unlocked".into()))
    );
}

#[test]
fn new_vaults_and_defaults() {
    let kdf = new_kdf_params();
    assert_eq!(kdf.salt.len(), 16);
    assert_eq!(kdf.memory_kib, 65536);
    let (n, _vm) = created(b"x", &cheap_kdf());
    assert_eq!(n.vault.lease_path, format!("vaults/{}/lease.json", n.vault.vault_id.text()));
    assert_eq!(n.vault.snapshot_pointer.version_counter.0, 0);
    assert_eq!(n.manifest.version_counter.0, 1);
    assert_eq!(recovery_mode_label(&n.manifest.modes[0]), "passphrase");
    assert_eq!(recovery_mode_label(&RecoveryMode::Shamir { k: 2, n: 3 }), "shamir");
    assert_eq!(VaultState::Destroying.as_str(), "destroying");
}

fn sample_kem_pub() -> MlKemPub {
    MlKemPub(vec![13u8; 32])
}

fn encode_blob(b: ShareBlob) -> Result<Vec<u8>, String> {
    Ok(format!("{b:?}").into_bytes())
}

fn request<'a>(
    file_id: FileId,
    path: &str,
    owner: &str,
    recipient: &str,
    kem: &'a MlKemPub,
    mk: &'a SymKey,
    owner_priv: &'a Ed25519Priv,
) -> CreateShareReq<'a> {
    CreateShareReq {
        file_id,
        scope: ShareScope::File(path.into()),
        permissions: vec![Permission::Read],
        owner_peer_id: PeerId(owner.into()),
        owner_epoch_id: EpochId(0),
        owner_sign_priv: owner_priv,
        recipient_peer_id: PeerId(recipient.into()),
        recipient_kem_pub: kem,
        master_key: mk,
        now: now(),
        expires_at: None,
    }
}

#[test]
fn create_then_accept_round_trip() {
    let (owner_priv, owner_pub) = generate_keypair();
    let kem = sample_kem_pub();
    let mk = SymKey::from_bytes([7u8; 32]);
    let file_id = FileId::new_v7();
    let (share, blob) =
        ShareService::create_share(
            request(file_id, "/note.txt", "alice", "bob", &kem, &mk, &owner_priv),
            0,
            encode_blob,
        )
        .unwrap();
    assert_eq!(share.recipient.0, "bob");
    let received = ShareService::accept_share(
        &blob,
        encode_blob,
        &owner_pub,
        &kem,
        "/shared-with-me/alice/note.txt".into(),
        now(),
    )
    .unwrap();
    assert_eq!(received.file_id, file_id);
    assert_eq!(received.file_key_version, 0);
    let direct = derive_file_key(&mk, file_id, 0).unwrap();
    assert_eq!(received.file_key_bytes, direct.as_bytes().to_vec());
}

#[test]
fn accept_with_wrong_owner_pubkey_fails() {
    let (owner_priv, _owner_pub) = generate_keypair();
    let (_other_priv, other_pub) = generate_keypair();
    let kem = sample_kem_pub();
    let mk = SymKey::from_bytes([7u8; 32]);
    let (_, blob) =
        ShareService::create_share(request(FileId::new_v7(), "/x", "a", "b", &kem, &mk, &owner_priv), 0, encode_blob)
            .unwrap();
    let err = ShareService::accept_share(
        &blob,
        encode_blob,
        &other_pub,
        &kem,
        "/shared-with-me/a/x".into(),
        now(),
    );
    assert!(matches!(err, Err(ShareError::SignatureInvalid)));
}

fn empty_file(file_id: FileId) -> File {
    let d = DeviceId::new_v7();
    let h = Hlc::new(1, 0);
    File {
        file_id,
        path: LwwRegister::new("/secret.txt".to_string(), h, d),
        size_bytes: LwwRegister::new(0, h, d),
        created_at: LwwRegister::new(now(), h, d),
        modified_at: LwwRegister::new(now(), h, d),
        permissions: LwwRegister::new(Permissions::default(), h, d),
        content_type: LwwRegister::new(String::new(), h, d),
        tier_pinned: LwwRegister::new(None, h, d),
        inline_payload: None,
        chunk_list: None,
        wrapped_keys: OrSet::new(),
        acl: OrSet::new(),
        exists: LwwRegister::new(true, h, d),
    }
}

#[test]
fn revoke_bumps_file_key_version_and_removes_wrapped_key() {
    let (owner_priv, _owner_pub) = generate_keypair();
    let kem = sample_kem_pub();
    let mk = SymKey::from_bytes([7u8; 32]);
    let file_id = FileId::new_v7();
    let mut file = empty_file(file_id);
    let (share, blob) =
        ShareService::create_share(
            request(file_id, "/secret.txt", "a", "b", &kem, &mk, &owner_priv),
            0,
            encode_blob,
        )
        .unwrap();
    ShareService::add_wrapped_key(&mut file, &share, &blob);
    assert_eq!(file.wrapped_keys.live_values().len(), 1);
    assert_eq!(file.wrapped_keys.live_values()[0].recipient_id.0, "b");
    let id = share.share_id;
    let (s, new_v) = ShareService::revoke_share(Some(share), id, 0, now()).unwrap();
    assert_eq!(new_v, 1);
    assert!(s.revoked_at.is_some());
    ShareService::drop_wrapped_key(&mut file, &s);
    assert!(file.wrapped_keys.live_values().is_empty());
    assert_ne!(
        derive_file_key(&mk, file_id, 0).unwrap().as_bytes(),
        derive_file_key(&mk, file_id, 1).unwrap().as_bytes()
    );
    assert_eq!(
        ShareService::revoke_share(None, ShareId(5), 0, now()).err(),
        Some(ShareError::NotFound(ShareId(5)))
    );
    let (_, newer) = ShareService::revoke_share(Some(s), id, new_v, now()).unwrap();
    assert!(newer > new_v);
}

#[test]
fn a_wrap_is_for_one_recipient_and_version() {
    let (owner_priv, owner_pub) = generate_keypair();
    let kem = sample_kem_pub();
    let mk = SymKey::from_bytes([7u8; 32]);
    let (_, mut blob) =
        ShareService::create_share(request(FileId::new_v7(), "/x", "a", "b", &kem, &mk, &owner_priv), 0, encode_blob)
            .unwrap();
    blob.file_key_version = 1;
    let blob = blob.signed(encode_blob, &owner_priv).unwrap();
    let got =
        ShareService::accept_share(&blob, encode_blob, &owner_pub, &kem, "/m".into(), now());
    assert!(matches!(got, Err(ShareError::Crypto(_))));
    let short = MlKemPub(vec![13u8; 31]);
    let got =
        ShareService::accept_share(&blob, encode_blob, &owner_pub, &short, "/m".into(), now());
    assert!(matches!(got, Err(ShareError::Crypto(_))));
    let none = MlKemPub(vec![]);
    assert!(matches!(
        ShareService::create_share(
            request(FileId::new_v7(), "/x", "a", "b", &none, &mk, &owner_priv),
            0,
            encode_blob,
        ),
        Err(ShareError::Crypto(_))
    ));
}

#[test]
fn a_changed_share_is_refused() {
    let (owner_priv, owner_pub) = generate_keypair();
    let kem = sample_kem_pub();
    let mk = SymKey::from_bytes([7u8; 32]);
    let (_, blob) = ShareService::create_share(
        request(FileId::new_v7(), "/x", "a", "b", &kem, &mk, &owner_priv),
        0,
        encode_blob,
    )
    .unwrap();
    let accept = |b: &ShareBlob| {
        ShareService::accept_share(b, encode_blob, &owner_pub, &kem, "/m".into(), now())
    };
    assert!(accept(&blob).is_ok());
    let mut changed = vec![blob.clone(), blob.clone(), blob.clone(), blob.clone(), blob.clone()];
    changed[0].file_id = FileId::new_v7();
    changed[1].scope = ShareScope::Vault;
    changed[2].permissions = vec![];
    changed[3].expires_at = Some(now());
    changed[4].recipient_peer_id = PeerId("c".into());
    for b in &changed {
        assert_eq!(accept(b), Err(ShareError::SignatureInvalid));
    }
    let failing = |_: ShareBlob| -> Result<Vec<u8>, String> { Err("full".into()) };
    let got =
        ShareService::accept_share(&blob, failing, &owner_pub, &kem, "/m".into(), now());
    assert_eq!(got, Err(ShareError::Encode("full".into())));
    let made = ShareService::create_share(
        request(FileId::new_v7(), "/x", "a", "b", &kem, &mk, &owner_priv),
        0,
        failing,
    );
    assert!(matches!(made, Err(ShareError::Encode(m)) if m == "full"));
    let bytes = encode_blob(blob.unsigned()).unwrap();
    let over = |bytes: &[u8]| {
        ShareService::accept_share_over(&blob, bytes, &owner_pub, &kem, "/m".into(), now())
    };
    assert!(over(&bytes).is_ok());
    assert_eq!(over(b"other bytes"), Err(ShareError::SignatureInvalid));
}

#[test]
fn received_shares_are_kept_apart() {
    let mut store = Store::new(MemoryBackend::new());
    let mut txn = Txn::new();
    store.put_share(&mut txn, ShareId(1), b"own".to_vec());
    ShareService::put_received(&mut txn, ShareId(1), b"received".to_vec());
    store.commit(txn).unwrap();
    assert_eq!(
        ShareService::get_received(&store, ShareId(1)).unwrap(),
        Some(b"received".to_vec())
    );
    assert_eq!(ShareService::list_received(&store).unwrap().len(), 1);
    assert_eq!(store.get_share(ShareId(1)).unwrap(), Some(b"own".to_vec()));
}
