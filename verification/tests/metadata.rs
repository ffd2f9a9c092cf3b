use openstorage::entities::crdt::Counter;
use openstorage::entities::crdt::LwwRegister;
use openstorage::entities::crdt::OrSet;
use openstorage::entities::records::Chunk;
use openstorage::entities::records::File;
use openstorage::entities::records::Permissions;
use openstorage::entities::records::ReplicationState;
use openstorage::lease::new_registry;
use openstorage::lease::LeaseError;
use openstorage::lease::LeaseService;
use openstorage::lease::LeaseState;
use openstorage::metadata::backend::Backend;
use openstorage::metadata::backend::MemoryBackend;
use openstorage::metadata::backend::Txn;
use openstorage::metadata::cf::ColumnFamily;
use openstorage::metadata::store::find_file_by_path;
use openstorage::metadata::store::resolve_by_path;
use openstorage::metadata::store::stands_at;
use openstorage::metadata::store::Store;
use openstorage::metadata::MetadataError;
use openstorage::repair::RepairError;
use openstorage::repair::RepairScheduler;
use openstorage::repair::RepairSource;
use openstorage::repair::RepairTask;
use openstorage::types::ChunkHash;
use openstorage::types::DeviceId;
use openstorage::types::ECScheme;
use openstorage::types::FileId;
use openstorage::types::Hlc;
use openstorage::types::PeerId;
use openstorage::types::ProviderId;
use openstorage::types::ShadowId;
use openstorage::types::Tier;
use openstorage::types::Timestamp;
use openstorage::types::VaultId;

#[test]
fn memory_round_trip() {
    let mut b = MemoryBackend::new();
    let mut txn = Txn::new();
    txn.put(ColumnFamily::Files, b"k1".to_vec(), b"v1".to_vec());
    txn.put(ColumnFamily::Files, b"k2".to_vec(), b"v2".to_vec());
    b.commit(txn).unwrap();
    assert_eq!(b.get(ColumnFamily::Files, b"k1").unwrap(), Some(b"v1".to_vec()));
}

#[test]
fn memory_scan_prefix_inclusive() {
    let mut b = MemoryBackend::new();
    let mut txn = Txn::new();
    for k in ["a-1", "a-2", "b-1"] {
        txn.put(ColumnFamily::Files, k.as_bytes().to_vec(), b"v".to_vec());
    }
    b.commit(txn).unwrap();
    let count: usize = b.scan_prefix(ColumnFamily::Files, b"a-").unwrap().len();
    assert_eq!(count, 2);
}

#[test]
fn memory_delete_within_txn() {
    let mut b = MemoryBackend::new();
    let mut t1 = Txn::new();
    t1.put(ColumnFamily::Files, b"k".to_vec(), b"v".to_vec());
    b.commit(t1).unwrap();
    let mut t2 = Txn::new();
    t2.delete(ColumnFamily::Files, b"k".to_vec());
    b.commit(t2).unwrap();
    assert!(b.get(ColumnFamily::Files, b"k").unwrap().is_none());
}

#[test]
fn families_are_apart() {
    let mut b = MemoryBackend::new();
    let mut txn = Txn::new();
    txn.put(ColumnFamily::Files, b"k".to_vec(), b"v".to_vec());
    b.commit(txn).unwrap();
    assert!(b.get(ColumnFamily::Chunks, b"k").unwrap().is_none());
}

#[test]
fn scans_come_in_key_order() {
    let mut b = MemoryBackend::new();
    let mut txn = Txn::new();
    for k in ["c", "a", "b", "aa"] {
        txn.put(ColumnFamily::Peers, k.as_bytes().to_vec(), Vec::new());
    }
    b.commit(txn).unwrap();
    let keys: Vec<Vec<u8>> =
        b.scan_prefix(ColumnFamily::Peers, b"").unwrap().into_iter().map(|r| r.0).collect();
    assert_eq!(keys, vec![b"a".to_vec(), b"aa".to_vec(), b"b".to_vec(), b"c".to_vec()]);
}

#[test]
fn metadata_errors_in_words() {
    assert_eq!(MetadataError::Backend("x".into()).text(), "backend error: x");
    assert_eq!(MetadataError::Serde("x".into()).text(), "serde: x");
    assert_eq!(MetadataError::NotFound("file", "7".into()).text(), "not found: file/7");
    assert_eq!(MetadataError::TxnConflict.text(), "transaction conflict");
}

fn file_at(file_id: FileId, path: &str) -> File {
    let d = DeviceId::new_v7();
    File {
        file_id,
        path: LwwRegister::new(path.to_string(), Hlc::new(1, 0), d),
        size_bytes: LwwRegister::new(0, Hlc::new(1, 0), d),
        created_at: LwwRegister::new(Timestamp::from_string("now"), Hlc::new(1, 0), d),
        modified_at: LwwRegister::new(Timestamp::from_string("now"), Hlc::new(1, 0), d),
        permissions: LwwRegister::new(Permissions::default(), Hlc::new(1, 0), d),
        content_type: LwwRegister::new(String::new(), Hlc::new(1, 0), d),
        tier_pinned: LwwRegister::new(None, Hlc::new(1, 0), d),
        inline_payload: None,
        chunk_list: None,
        wrapped_keys: OrSet::new(),
        acl: OrSet::new(),
        exists: LwwRegister::new(true, Hlc::new(1, 0), d),
    }
}

fn encoded(f: &File) -> Vec<u8> {
    f.path.value.as_bytes().to_vec()
}

#[test]
fn store_and_retrieve_file() {
    let mut store = Store::new(MemoryBackend::new());
    let f = file_at(FileId::new_v7(), "/x");
    let mut t = Txn::new();
    store.put_file(&mut t, &f, encoded(&f));
    store.commit(t).unwrap();
    let got = store.get_file(f.file_id).unwrap().unwrap();
    assert_eq!(got, b"/x");
}

/// Reads what `encoded` and a file's identifier as its record stand for.
fn decoded(files: &[File]) -> impl Fn(Vec<u8>) -> Result<File, MetadataError> + '_ {
    move |b: Vec<u8>| {
        files
            .iter()
            .rev()
            .find(|f| f.file_id.to_bytes() == b || encoded(f) == b)
            .cloned()
            .ok_or(MetadataError::Serde("no such record".into()))
    }
}

#[test]
fn path_index_lookup() {
    let mut store = Store::new(MemoryBackend::new());
    let fid = FileId::new_v7();
    let f = file_at(fid, "/alpha/one.txt");
    let mut t = Txn::new();
    store.put_file(&mut t, &f, fid.to_bytes());
    store.commit(t).unwrap();
    let known = [f];
    let got = store.get_file_by_path("/alpha/one.txt", decoded(&known)).unwrap().unwrap();
    assert_eq!(got.file_id, fid);
    assert!(store.get_file_by_path("/missing", decoded(&known)).unwrap().is_none());
}

#[test]
fn list_files_with_prefix_uses_index() {
    let mut store = Store::new(MemoryBackend::new());
    let mut known = Vec::new();
    for p in ["/a/1", "/a/2", "/b/1"] {
        let mut t = Txn::new();
        let f = file_at(FileId::new_v7(), p);
        store.put_file(&mut t, &f, encoded(&f));
        store.commit(t).unwrap();
        known.push(f);
    }
    let mut paths: Vec<String> = store
        .list_files_with_prefix("/a/", decoded(&known))
        .unwrap()
        .into_iter()
        .map(|f| f.path.value)
        .collect();
    paths.sort();
    assert_eq!(paths, vec!["/a/1".to_string(), "/a/2".to_string()]);
}

#[test]
fn a_moved_file_answers_for_its_new_path_alone() {
    let mut store = Store::new(MemoryBackend::new());
    let fid = FileId::new_v7();
    for p in ["/a/1", "/b/1", "/b/2"] {
        let mut t = Txn::new();
        store.put_file(&mut t, &file_at(fid, p), fid.to_bytes());
        store.commit(t).unwrap();
    }
    let known = [file_at(fid, "/b/2")];
    assert!(store.list_files_with_prefix("/a/", decoded(&known)).unwrap().is_empty());
    let listed = store.list_files_with_prefix("/b/", decoded(&known)).unwrap();
    assert_eq!(listed.len(), 1);
    assert_eq!(listed[0].path.value, "/b/2");
    assert!(store.get_file_by_path("/a/1", decoded(&known)).unwrap().is_none());
    assert!(store.get_file_by_path("/b/1", decoded(&known)).unwrap().is_none());
    let got = store.get_file_by_path("/b/2", decoded(&known)).unwrap().unwrap();
    assert_eq!(got.file_id, fid);
}

#[test]
fn a_file_without_an_index_entry_is_searched_for() {
    let mut store = Store::new(MemoryBackend::new());
    let f = file_at(FileId::new_v7(), "/legacy");
    let mut t = Txn::new();
    t.put(ColumnFamily::Files, f.file_id.to_bytes(), encoded(&f));
    store.commit(t).unwrap();
    let known = [f];
    let got = store.get_file_by_path("/legacy", decoded(&known)).unwrap().unwrap();
    assert_eq!(got.file_id, known[0].file_id);
    assert!(matches!(
        store.get_file_by_path("/other", decoded(&[])),
        Err(MetadataError::Serde(m)) if m == "no such record"
    ));
}

#[test]
fn a_path_is_resolved_by_its_own_file() {
    let moved = file_at(FileId(1), "/new/x");
    let other = file_at(FileId(2), "/old/x");
    assert!(stands_at(&moved, "/new/x"));
    let all = vec![file_at(FileId(3), "/y"), other.clone()];
    assert_eq!(find_file_by_path(&all, "/old/x"), Some(1));
    assert_eq!(find_file_by_path(&all, "/new/x"), None);
    let got = resolve_by_path(Some(moved.clone()), all.clone(), "/old/x").unwrap();
    assert_eq!(got.file_id, FileId(2));
    let got = resolve_by_path(Some(moved.clone()), all.clone(), "/new/x").unwrap();
    assert_eq!(got.file_id, FileId(1));
    assert!(resolve_by_path(None, all, "/new/x").is_none());
}

#[test]
fn iter_files_returns_all() {
    let mut store = Store::new(MemoryBackend::new());
    for i in 0..3 {
        let mut t = Txn::new();
        let f = file_at(FileId::new_v7(), &format!("/p{i}"));
        store.put_file(&mut t, &f, encoded(&f));
        store.commit(t).unwrap();
    }
    assert_eq!(store.iter_files().unwrap().len(), 3);
}

#[test]
fn vault_round_trip_with_signed_pointer() {
    let mut store = Store::new(MemoryBackend::new());
    let id = VaultId::new_v7();
    let mut t = Txn::new();
    store.put_vault(&mut t, id, b"record".to_vec());
    store.commit(t).unwrap();
    assert_eq!(store.get_vault(id).unwrap(), Some(b"record".to_vec()));
}

#[test]
fn large_values_round_trip() {
    let mut store = Store::new(MemoryBackend::new());
    let mut t = Txn::new();
    store.put_large_value(&mut t, b"key", &[9u8; 100]);
    store.commit(t).unwrap();
    store.flush().unwrap();
    assert_eq!(store.get_large_value(b"key").unwrap(), Some(vec![9u8; 100]));
}

#[test]
fn deleted_file_leaves_no_record() {
    let mut store = Store::new(MemoryBackend::new());
    let f = file_at(FileId::new_v7(), "/gone");
    let mut t = Txn::new();
    store.put_file(&mut t, &f, encoded(&f));
    store.delete_file(&mut t, f.file_id);
    store.commit(t).unwrap();
    assert!(store.get_file(f.file_id).unwrap().is_none());
    assert!(store.get_file_by_path("/gone", decoded(&[f])).unwrap().is_none());
}

#[test]
fn acquire_renew_release() {
    let mut reg = new_registry();
    let mut l = LeaseService::new();
    let dev = DeviceId::new_v7();
    let r = l
        .acquire(&mut reg, dev, Timestamp::from_epoch_secs(0), Timestamp::from_epoch_secs(30))
        .unwrap();
    assert_eq!(l.state(&reg), LeaseState::Held);
    let r2 = l.renew(&mut reg, Timestamp::from_epoch_secs(60)).unwrap();
    assert_eq!(r2.lease_id, r.lease_id);
    assert_eq!(r2.renewal_count, 1);
    l.release(&mut reg).unwrap();
    assert_eq!(l.state(&reg), LeaseState::Free);
}

#[test]
fn double_acquire_blocks() {
    let mut reg = new_registry();
    let mut l = LeaseService::new();
    l.acquire(
        &mut reg,
        DeviceId::new_v7(),
        Timestamp::from_epoch_secs(0),
        Timestamp::from_epoch_secs(30),
    )
    .unwrap();
    let err = l.acquire(
        &mut reg,
        DeviceId::new_v7(),
        Timestamp::from_epoch_secs(0),
        Timestamp::from_epoch_secs(30),
    );
    assert!(matches!(err, Err(LeaseError::Held)));
}

#[test]
fn steal_after_two_ttl_in_past() {
    let mut reg = new_registry();
    let mut a = LeaseService::new();
    let mut b = LeaseService::new();
    let dev_a = DeviceId::new_v7();
    let dev_b = DeviceId::new_v7();
    let _ = a
        .acquire(&mut reg, dev_a, Timestamp::from_epoch_secs(0), Timestamp::from_epoch_secs(30))
        .unwrap();
    let ttl = 30u64;
    let too_soon = b.try_steal(
        &mut reg,
        dev_b,
        Timestamp::from_epoch_secs(60),
        Timestamp::from_epoch_secs(120),
        ttl,
    );
    assert!(matches!(too_soon, Err(LeaseError::StillLive)));
    let stolen = b
        .try_steal(
            &mut reg,
            dev_b,
            Timestamp::from_epoch_secs(91),
            Timestamp::from_epoch_secs(121),
            ttl,
        )
        .unwrap();
    assert_eq!(stolen.holder_device_id, dev_b);
    let err = a.renew(&mut reg, Timestamp::from_epoch_secs(150));
    assert!(matches!(err, Err(LeaseError::Lost)));
}

#[test]
fn steal_on_empty_registry_takes_lease() {
    let mut reg = new_registry();
    let mut l = LeaseService::new();
    let dev = DeviceId::new_v7();
    let r = l
        .try_steal(
            &mut reg,
            dev,
            Timestamp::from_epoch_secs(0),
            Timestamp::from_epoch_secs(30),
            30,
        )
        .unwrap();
    assert_eq!(r.holder_device_id, dev);
    assert_eq!(l.state(&reg), LeaseState::Held);
}

#[test]
fn renew_without_a_lease_fails() {
    let mut reg = new_registry();
    let mut l = LeaseService::new();
    assert!(matches!(
        l.renew(&mut reg, Timestamp::from_epoch_secs(1)),
        Err(LeaseError::NotHeld) | Err(LeaseError::Lost)
    ));
}

fn task(p: u32) -> RepairTask {
    RepairTask {
        chunk_hash: ChunkHash::from_bytes([p as u8; 32]),
        priority: p,
        source: RepairSource::Scrub,
        attempt: 0,
    }
}

#[test]
fn higher_priority_first() {
    let mut s = RepairScheduler::new(8);
    s.enqueue(task(1)).unwrap();
    s.enqueue(task(5)).unwrap();
    s.enqueue(task(3)).unwrap();
    assert_eq!(s.drain_one().unwrap().priority, 5);
    assert_eq!(s.drain_one().unwrap().priority, 3);
    assert_eq!(s.drain_one().unwrap().priority, 1);
}

fn chunks(refcount_zero: usize, refcount_pos: usize) -> Vec<Chunk> {
    let mut out = Vec::new();
    for i in 0..(refcount_zero + refcount_pos) {
        let mut bytes = [0u8; 32];
        bytes[..8].copy_from_slice(&(i as u64).to_be_bytes());
        let mut refcount = Counter::default();
        if i >= refcount_zero {
            refcount.inc(DeviceId::new_v7(), 1);
        }
        out.push(Chunk {
            chunk_hash: ChunkHash::from_bytes(bytes),
            plaintext_length: 0,
            ec_scheme: ECScheme { k: 1, n: 1 },
            shard_list: Vec::new(),
            refcount,
            replication_state: ReplicationState::Full,
            last_scrubbed_at: Timestamp::from_string("t0"),
            access_count_window: Counter::default(),
            tier: Tier::Hot,
        });
    }
    out
}

#[test]
fn gc_sweep_enqueues_zero_refcount_chunks() {
    let mut s = RepairScheduler::new(64);
    let n = s.gc_sweep(&chunks(3, 5)).unwrap();
    assert_eq!(n, 3);
    for _ in 0..3 {
        let task = s.drain_one().unwrap();
        assert!(matches!(task.source, RepairSource::GcSweep));
    }
}

#[test]
fn scrub_sweep_samples_chunks() {
    let mut s = RepairScheduler::new(2048);
    let n = s.scrub_sweep(&chunks(0, 1000), 50).unwrap();
    assert!((1..=200).contains(&n), "expected scrub sample in [1,200], got {n}");
    for _ in 0..n {
        let t = s.drain_one().unwrap();
        assert!(matches!(t.source, RepairSource::Scrub));
    }
}

#[test]
fn rebalance_enqueues_a_fraction() {
    let mut s = RepairScheduler::new(2048);
    let n = s.rebalance_on_plugin_add(&chunks(0, 1000), 100).unwrap();
    assert!((10..=300).contains(&n), "expected rebalance fraction in [10,300], got {n}");
    for _ in 0..n {
        let t = s.drain_one().unwrap();
        assert!(matches!(t.source, RepairSource::Rebalance));
    }
}

#[test]
fn overflow_returns_error() {
    let mut s = RepairScheduler::new(2);
    s.enqueue(task(1)).unwrap();
    s.enqueue(task(2)).unwrap();
    assert!(matches!(s.enqueue(task(3)), Err(RepairError::QueueOverflow { .. })));
}

#[test]
fn a_task_is_given_up_after_three_attempts() {
    let mut s = RepairScheduler::new(8);
    s.enqueue(task(1)).unwrap();
    for _ in 0..3 {
        let t = s.drain_one().unwrap();
        s.record_attempt_failure(t, "no".to_string());
    }
    assert!(s.drain_one().is_none());
    assert_eq!(s.failed_count(), 1);
}

#[test]
fn every_record_stands_under_its_own_key() {
    let mut store = Store::new(MemoryBackend::new());
    let mut t = Txn::new();
    store.put_shadow(&mut t, ShadowId(1), b"shadow".to_vec());
    store.put_provider(&mut t, ProviderId(1), b"provider".to_vec());
    store.put_peer(&mut t, &PeerId::new("peer:a"), b"peer".to_vec());
    store.put_device(&mut t, DeviceId(1), b"device".to_vec());
    store.put_vault(&mut t, VaultId(1), b"vault".to_vec());
    store.put_vault_provider(&mut t, ProviderId(1), b"vault provider".to_vec());
    store.commit(t).unwrap();
    assert_eq!(store.get_shadow(ShadowId(1)).unwrap(), Some(b"shadow".to_vec()));
    assert_eq!(store.get_provider(ProviderId(1)).unwrap(), Some(b"provider".to_vec()));
    assert_eq!(store.get_peer(&PeerId::new("peer:a")).unwrap(), Some(b"peer".to_vec()));
    assert_eq!(store.get_device(DeviceId(1)).unwrap(), Some(b"device".to_vec()));
    assert_eq!(store.get_vault(VaultId(1)).unwrap(), Some(b"vault".to_vec()));
    assert_eq!(store.iter_providers().unwrap(), vec![b"provider".to_vec()]);
    assert_eq!(store.get_shadow(ShadowId(2)).unwrap(), None);
}

#[test]
fn a_removed_value_is_no_member() {
    let mut set: OrSet<u32> = OrSet::new();
    set.add(1, 7);
    set.add(2, 8);
    assert!(set.is_member(&7));
    set.remove(&[1]);
    assert!(!set.is_member(&7));
    assert!(set.is_member(&8));
    assert_eq!(set.len(), 1);
}

#[test]
fn only_an_overflow_takes_a_message() {
    let full = RepairError::QueueOverflow { size: 1, max: 1 };
    assert!(matches!(full.with_msg("x".into()), RepairError::Metadata(m) if m == "x"));
    let other = RepairError::Metadata("y".into());
    assert!(matches!(other.with_msg("x".into()), RepairError::Metadata(m) if m == "y"));
}
