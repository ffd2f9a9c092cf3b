use openstorage::api::files::check_body_len;
use openstorage::api::files::hex_decode;
use openstorage::api::files::parse_content_range;
use openstorage::api::files::parse_move;
use openstorage::api::files::parse_provider_id;
use openstorage::api::files::parse_vault_id;
use openstorage::api::files::splice;
use openstorage::api::lease_routes::acquire_record;
use openstorage::api::lease_routes::is_released;
use openstorage::api::lease_routes::lease_blob_name;
use openstorage::api::lease_routes::lease_end;
use openstorage::api::lease_routes::release_writes;
use openstorage::api::lease_routes::renew_plan;
use openstorage::api::lease_routes::rotation_refusal;
use openstorage::api::lease_routes::settle_write;
use openstorage::api::lease_routes::steal_record;
use openstorage::api::lease_routes::RenewPlan;
use openstorage::api::plugins::hold_action;
use openstorage::api::plugins::install_refused;
use openstorage::api::plugins::oauth_refused;
use openstorage::api::plugins::parse_confirmation;
use openstorage::api::plugins::HoldAction;
use openstorage::api::plugins::PluginRegistry;
use openstorage::api::plugins::PluginState;
use openstorage::api::repair_run::RepairEffect;
use openstorage::api::repair_run::RepairRun;
use openstorage::api::repair_run::RepairTally;
use openstorage::api::repair_run::ShardEvent;
use openstorage::api::requests::confirm_destroy;
use openstorage::api::requests::deletion_tasks;
use openstorage::api::requests::file_refused;
use openstorage::api::requests::parse_repair_request;
use openstorage::api::requests::rotation_key;
use openstorage::api::requests::unlocked_key;
use openstorage::api::requests::FileFault;
use openstorage::api::requests::FileOp;
use openstorage::api::requests::KeyUse;
use openstorage::api::requests::ReachTally;
use openstorage::api::shadow_sweep::PeekEvent;
use openstorage::api::shadow_sweep::ShadowSweep;
use openstorage::api::shares::accept_refused;
use openstorage::api::shares::bound_file;
use openstorage::api::shares::check_not_expired;
use openstorage::api::shares::mount_path;
use openstorage::api::shares::parse_blob_hex;
use openstorage::api::shares::parse_owner_pub;
use openstorage::api::shares::parse_scope;
use openstorage::api::shares::parse_share_id;
use openstorage::api::shares::recipient_kem;
use openstorage::api::shares::revoke_refused;
use openstorage::api::shares::share_owner_key;
use openstorage::api::shares::share_state_label;
use openstorage::api::snapshot::advance_pointer;
use openstorage::api::snapshot::apply_snapshot;
use openstorage::api::snapshot::check_pointer;
use openstorage::api::snapshot::collect_entries;
use openstorage::api::snapshot::open_snapshot;
use openstorage::api::snapshot::push_target;
use openstorage::api::snapshot::seal_snapshot;
use openstorage::api::snapshot::truncate_through;
use openstorage::api::snapshot::upload_verdict;
use openstorage::api::snapshot::SnapshotRow;
use openstorage::api::snapshot::Upload;
use openstorage::api::snapshot_push::PushAction;
use openstorage::api::snapshot_push::PushEvent;
use openstorage::api::snapshot_push::PushStage;
use openstorage::api::snapshot_push::SnapshotPush;
use openstorage::api::wal_exchange::foreign_writer;
use openstorage::api::wal_exchange::wal_blob_name;
use openstorage::api::wal_exchange::WalPull;
use openstorage::api::wal_exchange::WalPush;
use openstorage::crypto::aead::encrypt;
use openstorage::crypto::sig::generate_keypair;
use openstorage::crypto::sig::sign;
use openstorage::crypto::subkey::derive_subkey;
use openstorage::crypto::SymKey;
use openstorage::entities::crdt::Counter;
use openstorage::entities::records::Chunk;
use openstorage::entities::records::NativeHandle;
use openstorage::entities::records::ReplicationState;
use openstorage::entities::records::Shadow;
use openstorage::entities::records::ShadowReason;
use openstorage::entities::records::ShadowState;
use openstorage::entities::records::Share;
use openstorage::entities::records::ShareScope;
use openstorage::entities::records::SignedSnapshotPointer;
use openstorage::entities::records::WrappedKeyRef;
use openstorage::lease::new_registry;
use openstorage::lease::LeaseService;
use openstorage::metadata::backend::Backend;
use openstorage::metadata::backend::MemoryBackend;
use openstorage::metadata::cf::ColumnFamily;
use openstorage::plugin_host::lifecycle::LifecycleError;
use openstorage::plugin_host::lifecycle::PluginManifest;
use openstorage::plugin_host::lifecycle::UserConfirmation;
use openstorage::repair::RepairSource;
use openstorage::repair::RepairTask;
use openstorage::share::ShareError;
use openstorage::types::AeadNonce;
use openstorage::types::AeadSuite;
use openstorage::types::CachedElsewhereRisk;
use openstorage::types::Capability;
use openstorage::types::CapabilitySet;
use openstorage::types::ChunkHash;
use openstorage::types::DeviceId;
use openstorage::types::ECScheme;
use openstorage::types::Ed25519Priv;
use openstorage::types::Ed25519Sig;
use openstorage::types::EpochId;
use openstorage::types::FileId;
use openstorage::types::IdentityId;
use openstorage::types::KeyPurpose;
use openstorage::types::LeaseId;
use openstorage::types::LegalClass;
use openstorage::types::MonotonicCounter;
use openstorage::types::PeerId;
use openstorage::types::PluginId;
use openstorage::types::ProviderId;
use openstorage::types::ShadowId;
use openstorage::types::ShardId;
use openstorage::types::ShareId;
use openstorage::types::Tier;
use openstorage::types::Timestamp;
use openstorage::types::VaultId;

#[test]
fn a_patch_overwrites_its_span() {
    let (start, end, total) = parse_content_range("bytes 4-7/12").unwrap();
    check_body_len(4, start, end).unwrap();
    let out = splice(b"AAAAAAAAAAAA".to_vec(), start as usize, total as usize, b"ZZZZ");
    assert_eq!(out, b"AAAAZZZZAAAA");
}

#[test]
fn a_patch_grows_the_file() {
    let (start, _end, total) = parse_content_range("bytes 5-9/10").unwrap();
    assert_eq!(splice(b"hello".to_vec(), start as usize, total as usize, b"WORLD"), b"helloWORLD");
    assert_eq!(splice(b"hello world".to_vec(), 0, 5, b"HELLO"), b"HELLO");
}

#[test]
fn content_ranges_are_checked() {
    let bad = |s: &str| parse_content_range(s).unwrap_err().message;
    assert_eq!(bad("4-7/12"), "Content-Range must start with 'bytes '");
    assert_eq!(bad("bytes 4-7"), "Content-Range missing '/total'");
    assert_eq!(bad("bytes 4-7/x"), "Content-Range total not a number");
    assert_eq!(bad("bytes 4/12"), "Content-Range missing '-'");
    assert_eq!(bad("bytes x-7/12"), "Content-Range start not a number");
    assert_eq!(bad("bytes 4-x/12"), "Content-Range end not a number");
    assert_eq!(bad("bytes 7-4/12"), "Content-Range end < start");
    assert_eq!(bad("bytes 4-12/12"), "Content-Range end >= total");
    assert_eq!(
        check_body_len(3, 4, 7).unwrap_err().message,
        "body length 3 does not match Content-Range span 4"
    );
}

#[test]
fn moves_name_source_and_target() {
    assert_eq!(parse_move("a.txt/move", "b.txt"), Ok(("/a.txt".into(), "/b.txt".into())));
    assert_eq!(parse_move("a.txt/move", "/b"), Ok(("/a.txt".into(), "/b".into())));
    assert_eq!(
        parse_move("a.txt", "/b").unwrap_err().message,
        "move requires URL ending in /move"
    );
    assert_eq!(parse_move("move", "/b").unwrap_err().message, "source path is empty");
}

#[test]
fn identifiers_in_routes() {
    let v = VaultId::new_v7();
    assert_eq!(parse_vault_id(&v.text()), Ok(v));
    assert_eq!(parse_vault_id("nope").unwrap_err().status, 400);
    let p = ProviderId::new_v7();
    assert_eq!(parse_provider_id(&p.text()), Ok(p));
    let s = ShareId::new_v7();
    assert_eq!(parse_share_id(&s.text()), Ok(s));
    assert_eq!(parse_share_id("?").unwrap_err().message, "invalid share_id");
    assert_ne!(VaultId::new_v7(), VaultId::new_v7());
}

#[test]
fn hexadecimal_in_routes() {
    assert_eq!(hex_decode("0aFf"), Some(vec![10, 255]));
    assert_eq!(hex_decode("0a0"), None);
    assert_eq!(hex_decode("zz"), None);
}

#[test]
fn failures_of_the_file_system_are_answered() {
    let e = file_refused(FileOp::Read, FileFault::NotFound, "gone");
    assert_eq!((e.status, e.message.as_str()), (404, "read: gone"));
    let e = file_refused(FileOp::Read, FileFault::VaultLocked, "locked");
    assert_eq!(e.status, 423);
    let e = file_refused(FileOp::Patch, FileFault::NotFound, "x");
    assert_eq!((e.status, e.message.as_str()), (404, "patch: file not found"));
    let e = file_refused(FileOp::Write, FileFault::NotFound, "x");
    assert_eq!(e.status, 400);
    let e = file_refused(FileOp::Delete, FileFault::Other, "x");
    assert_eq!((e.status, e.message.as_str()), (404, "delete: x"));
}

#[test]
fn destroying_needs_a_yes() {
    assert!(confirm_destroy(Some(b"yes")).is_ok());
    assert_eq!(confirm_destroy(Some(b"YES")).unwrap_err().status, 400);
    assert_eq!(
        confirm_destroy(None).unwrap_err().message,
        "destroy requires header x-confirm-destroy: yes"
    );
}

#[test]
fn repair_requests() {
    let hex = "11".repeat(32);
    let t = parse_repair_request(&hex, None, None).unwrap();
    assert_eq!((t.priority, t.attempt), (1, 0));
    assert_eq!(t.source, RepairSource::Scrub);
    assert_eq!(t.chunk_hash, ChunkHash::from_bytes([0x11; 32]));
    let t = parse_repair_request(&hex, Some(9), Some("gc_sweep".into())).unwrap();
    assert_eq!((t.priority, t.source), (9, RepairSource::GcSweep));
    let bad = |h: &str, s: Option<String>| parse_repair_request(h, None, s).unwrap_err().message;
    assert_eq!(bad("x", None), "bad hex");
    assert_eq!(bad("11", None), "chunk_hash must be 32 bytes hex");
    assert_eq!(bad(&hex, Some("whim".into())), "unknown source whim");
}

#[test]
fn nothing_to_collect_without_files() {
    assert!(deletion_tasks(&vec![], "/x").is_empty());
}

#[test]
fn rotation_keys_come_from_the_name() {
    let k = rotation_key(&IdentityId("id:x".into()));
    assert_eq!(k.as_bytes(), blake3::hash(b"vault-mk-mock-priv-id:x").as_bytes());
}

#[test]
fn reach_is_counted() {
    let mut t = ReachTally::new();
    t.observe(true);
    t.observe(false);
    t.observe(true);
    assert_eq!((t.reachable, t.unreachable), (2, 1));
}

#[test]
fn leases_are_stolen_after_twice_their_time() {
    let (a, b) = (DeviceId(1), DeviceId(2));
    let end = lease_end(0, Some(30));
    let rec = acquire_record(None, LeaseId(7), a, 0, end).unwrap();
    assert_eq!(
        acquire_record(Some(&rec), LeaseId(8), b, 10, 40).unwrap_err().message,
        "lease: held by another device"
    );
    assert_eq!(steal_record(Some(&rec), LeaseId(8), b, 60, 90, 30).unwrap_err().status, 409);
    let stolen = steal_record(Some(&rec), LeaseId(8), b, 91, 121, 30).unwrap();
    assert_eq!(stolen.holder_device_id, b);
    assert!(matches!(renew_plan(Some(stolen.clone()), Some(LeaseId(7)), 92), RenewPlan::Lost));
    assert!(matches!(renew_plan(None, None, 92), RenewPlan::NotHeld | RenewPlan::Lost));
    assert!(release_writes(Some(&stolen), Some(LeaseId(8))));
    assert!(!release_writes(Some(&stolen), Some(LeaseId(7))));
    let mut service = LeaseService::new();
    let mut registry = new_registry();
    assert!(settle_write(&mut service, &mut registry, stolen.clone(), false, "race").is_err());
    assert!(registry.record.is_none());
    settle_write(&mut service, &mut registry, stolen, true, "race").unwrap();
    assert_eq!(service.local, Some(LeaseId(8)));
}

#[test]
fn identity_rotation_needs_the_lease() {
    let rec = acquire_record(None, LeaseId(7), DeviceId(1), 0, 30).unwrap();
    assert!(rotation_refusal(Some(&rec), DeviceId(1)).is_none());
    assert_eq!(rotation_refusal(Some(&rec), DeviceId(2)).unwrap().status, 409);
    assert_eq!(rotation_refusal(None, DeviceId(2)).unwrap().status, 409);
    assert!(is_released(b""));
    assert_eq!(
        lease_blob_name(VaultId(1)),
        "lease/00000000-0000-0000-0000-000000000001"
    );
}

fn row(cf: ColumnFamily, key: &[u8], value: &[u8], clock: Option<u64>) -> SnapshotRow {
    SnapshotRow { cf, key: key.to_vec(), value: value.to_vec(), clock }
}

#[test]
fn a_snapshot_is_pulled_as_it_was_pushed() {
    let mk = SymKey::from_bytes([3u8; 32]);
    let vault = VaultId(9);
    let rows = vec![
        row(ColumnFamily::Files, b"f1", b"one", Some(5)),
        row(ColumnFamily::Peers, b"p1", b"two", None),
    ];
    let entries = collect_entries(&rows, None);
    assert_eq!(entries.len(), 2);
    assert_eq!(entries[0].0, "files/6631");
    let blob = seal_snapshot(&mk, vault, &entries).unwrap();
    let back = open_snapshot(&mk, vault, &blob).unwrap();
    assert_eq!(back, entries);
    let mut store = MemoryBackend::new();
    assert_eq!(apply_snapshot(&mut store, &back), Ok(2));
    assert_eq!(apply_snapshot(&mut store, &back), Ok(2));
    assert_eq!(store.get(ColumnFamily::Files, b"f1").unwrap(), Some(b"one".to_vec()));
    assert_eq!(store.get(ColumnFamily::Peers, b"p1").unwrap(), Some(b"two".to_vec()));
}

#[test]
fn a_snapshot_opens_for_its_vault_alone() {
    let mk = SymKey::from_bytes([3u8; 32]);
    let blob = seal_snapshot(&mk, VaultId(9), &vec![]).unwrap();
    assert_eq!(
        open_snapshot(&mk, VaultId(8), &blob).unwrap_err().message,
        "snapshot AEAD verification failed"
    );
    assert_eq!(
        open_snapshot(&mk, VaultId(9), &blob[..10]).unwrap_err().message,
        "snapshot blob too short"
    );
}

#[test]
fn a_snapshot_of_something_else_does_not_decode() {
    let mk = SymKey::from_bytes([3u8; 32]);
    let vault = VaultId(9);
    let key = derive_subkey(&mk, KeyPurpose::Snapshot, None).unwrap();
    let aad = format!("snapshot:{}", vault.text());
    let nonce = AeadNonce::N12([5u8; 12]);
    let (ct, tag) =
        encrypt(AeadSuite::ChaCha20Poly1305, &key, &nonce, &[0xff], aad.as_bytes()).unwrap();
    let mut blob = vec![5u8; 12];
    blob.extend_from_slice(&ct);
    blob.extend_from_slice(&tag.0);
    let e = open_snapshot(&mk, vault, &blob).unwrap_err();
    assert_eq!(e.status, 400);
    assert!(e.message.starts_with("snapshot decode: "));
    assert!(e.message.len() > "snapshot decode: ".len());
}

#[test]
fn a_delta_leaves_old_files_out() {
    let rows = vec![
        row(ColumnFamily::Files, b"old", b"1", Some(5)),
        row(ColumnFamily::Files, b"new", b"2", Some(6)),
        row(ColumnFamily::Peers, b"p", b"3", None),
    ];
    assert_eq!(collect_entries(&rows, Some(5)).len(), 2);
    assert_eq!(collect_entries(&rows, None).len(), 3);
}

#[test]
fn entries_without_a_place_are_left() {
    let mut store = MemoryBackend::new();
    let entries = vec![
        ("files".to_string(), vec![1]),
        ("nowhere/00".to_string(), vec![1]),
        ("files/zz".to_string(), vec![1]),
        ("files/00".to_string(), vec![1]),
    ];
    assert_eq!(apply_snapshot(&mut store, &entries), Ok(1));
}

#[test]
fn snapshot_pointers_are_guarded() {
    assert!(check_pointer(0, Some(0)).is_ok());
    assert!(check_pointer(5, None).is_ok());
    let e = check_pointer(0, Some(99)).unwrap_err();
    assert_eq!((e.status, e.message.as_str()), (409, "pointer CAS mismatch: have 0, expected 99"));
    assert_eq!(push_target(&vec![ProviderId(4)], true), Ok(Some(ProviderId(4))));
    assert_eq!(push_target(&vec![], false), Ok(None));
    assert_eq!(push_target(&vec![], true).unwrap_err().status, 400);
    assert_eq!(upload_verdict(Upload::Seen { exists: true, size: 10 }, 10), Ok(true));
    assert_eq!(truncate_through(true, 7), Some(7));
    assert_eq!(truncate_through(false, 7), None);
    assert_eq!(truncate_through(true, 0), None);
    let mut p = SignedSnapshotPointer {
        snapshot_id: vec![],
        version_counter: MonotonicCounter(0),
        epoch_id: EpochId(0),
        format_version: 1,
        created_at: Timestamp::from_string("now"),
        signature: Ed25519Sig([0u8; 64]),
    };
    advance_pointer(&mut p, &[7u8; 40]);
    assert_eq!(p.version_counter.0, 1);
}

#[test]
fn wal_names_tell_their_writer() {
    let d = DeviceId(0xAB);
    let name = wal_blob_name(d, 17);
    assert!(name.starts_with("wal/"));
    assert_eq!(foreign_writer(&name, DeviceId(1)), Some(d));
    assert_eq!(foreign_writer(&name, d), None);
    assert_eq!(foreign_writer("lease/x", d), None);
    let mut pull = WalPull::new(DeviceId(1));
    assert_eq!(pull.visit(&name), Some(d));
    assert_eq!(pull.visit("junk"), None);
    let mut push = WalPush::new();
    push.count(true);
    push.count(false);
    assert_eq!((push.pushed, push.already_present), (1, 1));
}

fn shadow() -> Shadow {
    Shadow {
        shadow_id: ShadowId(3),
        original_chunk_hash: ChunkHash::from_bytes([1; 32]),
        driver_id: ProviderId(1),
        native_handle: NativeHandle(vec![1]),
        ciphertext_length: 10,
        abandoned_at: Timestamp::from_string("now"),
        reason: ShadowReason::DeletionOrphaned,
        cached_elsewhere_risk: CachedElsewhereRisk::Low,
        counts_against_quota: true,
        tombstone_clears_at: None,
        state: ShadowState::Registered,
        peek_count: 0,
    }
}

#[test]
fn shadows_are_cleared_or_become_permanent() {
    let mut sweep = ShadowSweep::new();
    assert!(ShadowSweep::wants_peek(&shadow()));
    sweep.observe(shadow(), PeekEvent::Absent);
    sweep.observe(shadow(), PeekEvent::Present);
    let mut old = shadow();
    old.peek_count = 9;
    sweep.observe(old, PeekEvent::Present);
    sweep.observe(shadow(), PeekEvent::Failed);
    sweep.observe(shadow(), PeekEvent::NoPlugin);
    assert_eq!(sweep.peeked, 5);
    assert_eq!((sweep.cleared, sweep.promoted, sweep.still_registered), (1, 1, 1));
    assert_eq!(sweep.errors, 2);
}

fn chunk_of(shards: Vec<ShardId>) -> Chunk {
    Chunk {
        chunk_hash: ChunkHash::from_bytes([1; 32]),
        plaintext_length: 0,
        ec_scheme: ECScheme { k: 1, n: 1 },
        shard_list: shards,
        refcount: Counter::default(),
        replication_state: ReplicationState::Full,
        last_scrubbed_at: Timestamp::from_string("t0"),
        access_count_window: Counter::default(),
        tier: Tier::Hot,
    }
}

fn repair_task(source: RepairSource) -> RepairTask {
    RepairTask { chunk_hash: ChunkHash::from_bytes([1; 32]), priority: 1, source, attempt: 0 }
}

#[test]
fn a_swept_chunk_is_dropped_once_its_shards_are_gone() {
    let task = repair_task(RepairSource::GcSweep);
    assert!(RepairRun::begin(&task, None).is_none());
    let mut run =
        RepairRun::begin(&task, Some(chunk_of(vec![ShardId::from_bytes([2; 32])]))).unwrap();
    assert!(run.next_shard().is_some());
    let effects =
        run.observe(ShardEvent::Missing, ShadowId(1), Timestamp::from_string("t")).unwrap();
    assert!(effects.is_empty());
    assert!(run.next_shard().is_none());
    let last = run.finish();
    assert!(matches!(last[0], RepairEffect::DropChunk(h) if h == task.chunk_hash));
}

#[test]
fn repair_outcomes_are_tallied() {
    let mut t = RepairTally::new();
    let mut task = repair_task(RepairSource::Scrub);
    t.count(&task, true);
    t.count(&task, false);
    task.attempt = 2;
    t.count(&task, false);
    assert_eq!((t.processed, t.succeeded, t.retried, t.failed), (3, 1, 1, 1));
    assert!(t.wants_more(4));
    assert!(!t.wants_more(3));
}

fn share(expires_at: Option<Timestamp>, revoked: bool) -> Share {
    Share {
        share_id: ShareId(1),
        scope: ShareScope::Vault,
        recipient: PeerId("bob".into()),
        permissions: vec![],
        wrapped_keys_ref: WrappedKeyRef { file_id: FileId(0), or_set_add_id: 0 },
        created_at: Timestamp::from_string("now"),
        expires_at,
        revoked_at: if revoked { Some(Timestamp::from_string("now")) } else { None },
    }
}

#[test]
fn share_states() {
    let at = |s: u64| Some(Timestamp::from_epoch_secs(s));
    assert_eq!(share_state_label(&share(None, false), 10), "active");
    assert_eq!(share_state_label(&share(at(11), false), 10), "active");
    assert_eq!(share_state_label(&share(at(10), false), 10), "expired");
    assert_eq!(share_state_label(&share(at(10), true), 10), "revoked");
    assert_eq!(
        share_state_label(&share(Some(Timestamp::from_string("soon")), false), 10),
        "active"
    );
    assert_eq!(check_not_expired(&at(10), 10).unwrap_err().message, "share expired");
    assert!(check_not_expired(&at(11), 10).is_ok());
}

#[test]
fn share_scopes() {
    assert_eq!(parse_scope("*"), ShareScope::Vault);
    assert_eq!(parse_scope("/docs/"), ShareScope::Folder("/docs/".into()));
    assert_eq!(parse_scope("/a.txt"), ShareScope::File("/a.txt".into()));
    assert_eq!(bound_file(&ShareScope::Vault, Err("x".into())), Ok(FileId(0)));
    assert_eq!(bound_file(&parse_scope("/a"), Ok(FileId(4))), Ok(FileId(4)));
    let e = bound_file(&parse_scope("/a"), Err("gone".into())).unwrap_err();
    assert_eq!((e.status, e.message.as_str()), (404, "stat: gone"));
}

#[test]
fn share_mounts_and_keys() {
    let alice = PeerId("alice".into());
    assert_eq!(mount_path(None, &alice, &parse_scope("/n.txt")), "/shared-with-me/alice/n.txt");
    assert_eq!(mount_path(None, &alice, &parse_scope("n.txt")), "/shared-with-me/alice/n.txt");
    assert_eq!(mount_path(None, &alice, &ShareScope::Vault), "/shared-with-me/alice/");
    assert_eq!(mount_path(Some("/m".into()), &alice, &ShareScope::Vault), "/m");
    assert_eq!(recipient_kem(&vec![], &alice).0, vec![13u8; 32]);
    let k = share_owner_key(&SymKey::from_bytes([1u8; 32])).unwrap();
    let mut expected = [0u8; 32];
    hkdf::Hkdf::<sha2::Sha256>::new(None, &[1u8; 32])
        .expand(b"kp:wal-sign|share-owner", &mut expected)
        .unwrap();
    assert_eq!(k.as_bytes(), &expected);
}

#[test]
fn share_requests_are_checked() {
    assert_eq!(parse_blob_hex("zz").unwrap_err().message, "blob_hex not hex");
    assert_eq!(parse_blob_hex("00ff"), Ok(vec![0, 255]));
    assert_eq!(parse_owner_pub("zz").unwrap_err().message, "owner_sign_pub_hex not hex");
    assert_eq!(parse_owner_pub("00").unwrap_err().message, "owner_sign_pub must be 32 bytes hex");
    assert_eq!(parse_owner_pub(&"07".repeat(32)).unwrap().as_bytes(), &[7u8; 32]);
    assert_eq!(accept_refused(&ShareError::SignatureInvalid, "").status, 401);
    assert_eq!(accept_refused(&ShareError::VaultLocked, "vault locked").message, "accept: vault locked");
    assert_eq!(revoke_refused(&ShareError::NotFound(ShareId(1)), "").status, 404);
    assert_eq!(revoke_refused(&ShareError::VaultLocked, "").status, 423);
    assert_eq!(revoke_refused(&ShareError::Vfs("x".into()), "vfs: x").message, "revoke: vfs: x");
}

fn encode_manifest(m: PluginManifest) -> Result<Vec<u8>, String> {
    Ok(format!("{m:?}").into_bytes())
}

fn sign_manifest(m: &mut PluginManifest, key: &Ed25519Priv) {
    m.signature = sign(key, &encode_manifest(m.unsigned()).unwrap());
}

#[test]
fn plugins_are_trusted_on_first_use() {
    let (sk, pk) = generate_keypair();
    let (sk2, pk2) = generate_keypair();
    let mut m = PluginManifest {
        plugin_id: PluginId::new("org.test"),
        version: "1".into(),
        author_pubkey: pk,
        legal_class: LegalClass::Green,
        requested_capabilities: CapabilitySet::default().with(Capability::Delete),
        source_url: "u".into(),
        signature: Ed25519Sig::from_bytes([0u8; 64]),
    };
    sign_manifest(&mut m, &sk);
    let mut reg = PluginRegistry::new();
    reg.install(&m, encode_manifest, UserConfirmation::Confirm).unwrap();
    reg.install(&m, encode_manifest, UserConfirmation::Confirm).unwrap();
    let mut tampered = m.clone();
    tampered.source_url = "v".into();
    let e = reg.install(&tampered, encode_manifest, UserConfirmation::Confirm).unwrap_err();
    assert_eq!(e, LifecycleError::SignatureInvalid);
    m.author_pubkey = pk2;
    sign_manifest(&mut m, &sk2);
    let e = reg.install(&m, encode_manifest, UserConfirmation::Confirm).unwrap_err();
    assert_eq!(e, LifecycleError::AuthorRotated);
    assert_eq!(install_refused(&e, "rotated").status, 409);
    assert_eq!(install_refused(&LifecycleError::SignatureInvalid, "s").status, 401);
    assert_eq!(install_refused(&LifecycleError::RedLegalClassUnconfirmed, "s").message, "install: s");
    assert_eq!(oauth_refused(&LifecycleError::OAuthSessionNotFound, "").status, 404);
    assert_eq!(parse_confirmation("double"), Ok(UserConfirmation::DoubleConfirm));
    assert_eq!(parse_confirmation("maybe").unwrap_err().message, "unknown confirmation: maybe");
}

#[test]
fn lost_capabilities_await_a_decision() {
    let (sk, pk) = generate_keypair();
    let id = PluginId::new("org.test");
    let mut m = PluginManifest {
        plugin_id: id.clone(),
        version: "1".into(),
        author_pubkey: pk,
        legal_class: LegalClass::Green,
        requested_capabilities: CapabilitySet::default().with(Capability::Delete),
        source_url: "u".into(),
        signature: Ed25519Sig::from_bytes([0u8; 64]),
    };
    sign_manifest(&mut m, &sk);
    let mut reg = PluginRegistry::new();
    assert_eq!(reg.reload(&id, CapabilitySet::default()).unwrap_err().status, 404);
    reg.install(&m, encode_manifest, UserConfirmation::Confirm).unwrap();
    let o = reg.reload(&id, CapabilitySet::default()).unwrap();
    assert_eq!(o.state, "awaiting_user_decision");
    assert_eq!(o.lost, vec!["Delete".to_string()]);
    assert_eq!(reg.decision(&id).unwrap().state, "awaiting_user_decision");
    let e = reg.decide(&id, "shrug").unwrap_err();
    assert_eq!(e.message, "unknown action shrug; expected `keep` or `migrate_out`");
    let d = reg.decide(&id, "migrate_out").unwrap();
    assert_eq!((d.state, d.migrate), ("migrating", true));
    assert!(reg.decision(&id).is_none());
    assert_eq!(reg.decide(&id, "keep").unwrap_err().status, 404);
    let o = reg.reload(&id, CapabilitySet::default().with(Capability::Put)).unwrap();
    assert_eq!((o.state, o.gained), ("active", vec!["Put".to_string()]));
}

#[test]
fn provider_states_follow_transitions() {
    let mut reg = PluginRegistry::new();
    let p = ProviderId(1);
    assert_eq!(reg.provider_state(p), PluginState::Loaded);
    assert_eq!(reg.set_provider_state(p, "pause"), Ok(PluginState::Paused));
    assert_eq!(reg.provider_state(p), PluginState::Paused);
    assert_eq!(hold_action(PluginState::Paused), HoldAction::Pause);
    assert_eq!(reg.set_provider_state(p, "resume"), Ok(PluginState::Active));
    assert_eq!(hold_action(PluginState::Active), HoldAction::Resume);
    assert_eq!(hold_action(PluginState::Init), HoldAction::Leave);
    assert_eq!(
        reg.set_provider_state(p, "explode").unwrap_err().message,
        "unknown transition explode"
    );
    assert_eq!(PluginState::Closed.as_str(), "closed");
}

fn pointer() -> SignedSnapshotPointer {
    SignedSnapshotPointer {
        snapshot_id: vec![],
        version_counter: MonotonicCounter(4),
        epoch_id: EpochId(0),
        format_version: 1,
        created_at: Timestamp::from_string("then"),
        signature: Ed25519Sig::from_bytes([0u8; 64]),
    }
}

fn begun(expected: Option<u64>) -> SnapshotPush {
    let key = SymKey::from_bytes([3u8; 32]);
    SnapshotPush::begin(VaultId(9), pointer(), expected, Some(key)).ok().unwrap()
}

#[test]
fn a_push_runs_to_its_end() {
    let mut push = begun(Some(4));
    let rows = vec![row(ColumnFamily::Files, b"f1", b"one", Some(5))];
    assert!(matches!(push.on_rows(rows, None), PushAction::FindProviders));
    assert_eq!(push.entries, 1);
    let id = ProviderId(2);
    assert!(matches!(
        push.on(PushEvent::Providers(vec![id], true)),
        PushAction::Upload(p) if p == id
    ));
    let size = push.blob.len() as u64;
    assert!(matches!(
        push.on(PushEvent::Uploaded(Upload::Seen { exists: true, size })),
        PushAction::Commit
    ));
    assert_eq!(push.pointer.version_counter, MonotonicCounter(5));
    assert_eq!(push.pointer.snapshot_id, push.blob[..12].to_vec());
    assert!(matches!(push.on(PushEvent::Committed), PushAction::FindTail));
    assert!(matches!(push.on(PushEvent::Tail(7)), PushAction::Finish(Some(7))));
    let key = SymKey::from_bytes([3u8; 32]);
    assert_eq!(open_snapshot(&key, VaultId(9), &push.blob).unwrap()[0].1, b"one".to_vec());
}

#[test]
fn a_refused_push_commits_and_cuts_nothing() {
    let mut push = begun(None);
    push.on_rows(vec![], None);
    push.on(PushEvent::Providers(vec![ProviderId(2)], true));
    match push.on(PushEvent::Uploaded(Upload::Seen { exists: false, size: 0 })) {
        PushAction::Refuse(e) => {
            assert_eq!(e.status, 400);
            assert_eq!(e.message, "verify-after-upload mismatch; pointer not advanced");
        }
        _ => panic!("a push that is not seen is refused"),
    }
    assert_eq!(push.stage, PushStage::Refused);
    assert!(!push.committed);
    assert!(push.cut.is_none());
    assert_eq!(push.pointer.version_counter, MonotonicCounter(4));

    let mut push = begun(None);
    push.on_rows(vec![], None);
    assert!(matches!(push.on(PushEvent::Providers(vec![], true)), PushAction::Refuse(_)));

    let mut push = begun(None);
    push.on_rows(vec![], None);
    push.on(PushEvent::Providers(vec![ProviderId(2)], true));
    assert!(matches!(
        push.on(PushEvent::NoPlugin("gone".into())),
        PushAction::Refuse(e) if e.message == "get_vault_plugin: gone"
    ));
}

#[test]
fn a_push_without_a_provider_keeps_the_log() {
    let mut push = begun(None);
    push.on_rows(vec![], None);
    assert!(matches!(push.on(PushEvent::Providers(vec![], false)), PushAction::Commit));
    assert!(matches!(push.on(PushEvent::Committed), PushAction::FindTail));
    assert!(matches!(push.on(PushEvent::Tail(7)), PushAction::Finish(None)));

    let mut push = begun(None);
    push.on_rows(vec![], None);
    push.on(PushEvent::Providers(vec![], false));
    assert!(matches!(
        push.on(PushEvent::CommitFailed("disk".into())),
        PushAction::Refuse(e) if e.message == "commit: disk"
    ));
}

#[test]
fn a_push_begins_with_the_expected_pointer_and_a_key() {
    let key = || Some(SymKey::from_bytes([3u8; 32]));
    let e = SnapshotPush::begin(VaultId(9), pointer(), Some(3), key()).err().unwrap();
    assert_eq!(e.status, 409);
    assert_eq!(e.message, "pointer CAS mismatch: have 4, expected 3");
    let e = SnapshotPush::begin(VaultId(9), pointer(), Some(4), None).err().unwrap();
    assert_eq!((e.status, e.message.as_str()), (400, "vault must be Unlocked"));
}

#[test]
fn a_locked_vault_has_its_answer() {
    let answer = |u| unlocked_key(None, u).err().unwrap();
    let e = answer(KeyUse::CreateShare);
    assert_eq!((e.status, e.message.as_str()), (423, "create_share: vault locked"));
    let e = answer(KeyUse::PullSnapshot);
    assert_eq!((e.status, e.message.as_str()), (423, "pull_snapshot: vault must be Unlocked"));
    let e = answer(KeyUse::CompleteOAuth);
    assert_eq!((e.status, e.message.as_str()), (423, "oauth: vault must be Unlocked"));
    let k = unlocked_key(Some(SymKey::from_bytes([1u8; 32])), KeyUse::CreateShare).ok().unwrap();
    assert_eq!(k.as_bytes(), &[1u8; 32]);
}
