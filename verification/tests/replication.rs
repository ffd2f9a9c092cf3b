use openstorage::antientropy::apply_divergent_pages;
use openstorage::antientropy::compare;
use openstorage::antientropy::AntiEntropyError;
use openstorage::antientropy::DivergenceReport;
use openstorage::bloom::BloomFilter;
use openstorage::entities::crdt::Counter;
use openstorage::entities::crdt::LwwRegister;
use openstorage::entities::crdt::OrSet;
use openstorage::merkle::bucket_for;
use openstorage::merkle::LeafMember;
use openstorage::merkle::MerkleTree;
use openstorage::types::BlakeHash;
use openstorage::types::ChunkHash;
use openstorage::types::DeviceId;
use openstorage::types::Hlc;

fn dev() -> DeviceId {
    DeviceId::new_v7()
}

fn ph(b: u8) -> BlakeHash {
    BlakeHash::from_bytes([b; 32])
}

fn page(id: &[u8], version: u64, payload: u8) -> LeafMember {
    LeafMember { page_id: id.to_vec(), page_version: version, payload_hash: ph(payload) }
}

fn optimal_bits(n: usize, p: f64) -> usize {
    let ln2 = std::f64::consts::LN_2;
    (-((n as f64) * p.ln()) / (ln2 * ln2)).ceil() as usize
}

fn optimal_hashes(n: usize, m: usize) -> u32 {
    (((m as f64 / n as f64) * std::f64::consts::LN_2).round() as i32).max(1) as u32
}

fn filter_for(n: usize, p: f64, salt: [u8; 32]) -> BloomFilter {
    let m = optimal_bits(n, p);
    BloomFilter::with_size(m, optimal_hashes(n, m), salt)
}

fn numbered(i: u32) -> ChunkHash {
    let mut b = [0u8; 32];
    b[..4].copy_from_slice(&i.to_le_bytes());
    ChunkHash::from_bytes(b)
}

#[test]
fn no_false_negatives() {
    let mut f = filter_for(10_000, 0.01, [3u8; 32]);
    for i in 0u32..10_000 {
        f.add(numbered(i));
    }
    for i in 0u32..10_000 {
        assert!(f.contains(numbered(i)));
    }
}

#[test]
fn fpr_within_tolerance() {
    let mut f = filter_for(10_000, 0.01, [9u8; 32]);
    for i in 0u32..10_000 {
        f.add(numbered(i));
    }
    let mut fp = 0;
    let trials = 5000;
    for i in 100_000u32..(100_000 + trials) {
        if f.contains(numbered(i)) {
            fp += 1;
        }
    }
    let rate = fp as f64 / trials as f64;
    assert!(rate < 0.05, "FPR {rate} too high");
}

#[test]
fn salt_isolates_filters() {
    let mut a = filter_for(100, 0.01, [1u8; 32]);
    let mut b = filter_for(100, 0.01, [2u8; 32]);
    for i in 0u32..50 {
        a.add(numbered(i));
        b.add(numbered(i));
    }
    let bits_a: Vec<bool> = (0..a.bit_count()).map(|i| a.is_set(i)).collect();
    let bits_b: Vec<bool> = (0..b.bit_count()).map(|i| b.is_set(i)).collect();
    assert_ne!(bits_a, bits_b);
}

#[test]
fn filter_size_is_in_whole_words() {
    let f = BloomFilter::with_size(65, 3, [0u8; 32]);
    assert_eq!(f.bit_count(), 128);
    assert_eq!(f.k_hashes(), 3);
    assert_eq!(f.ones_count(), 0);
}

#[test]
fn estimate_follows_from_the_set_bits() {
    let mut f = filter_for(1_000, 0.01, [4u8; 32]);
    for i in 0u32..500 {
        f.add(numbered(i));
    }
    let m = f.bit_count() as f64;
    let k = f.k_hashes() as f64;
    let unset = 1.0 - f.ones_count() as f64 / m;
    let estimate = (-(m / k) * unset.ln()).round() as i64;
    assert!((estimate - 500).abs() < 25, "estimate {estimate}");
}

#[test]
fn empty_tree_root_stable() {
    let a = MerkleTree::new();
    let b = MerkleTree::new();
    assert_eq!(a.root(), b.root());
}

#[test]
fn root_changes_after_upsert() {
    let mut a = MerkleTree::new();
    let r0 = a.root();
    a.upsert(page(b"page-1", 1, 7));
    assert_ne!(a.root(), r0);
}

#[test]
fn divergent_leaves_found() {
    let mut a = MerkleTree::new();
    let mut b = MerkleTree::new();
    a.upsert(page(b"p-1", 1, 1));
    b.upsert(page(b"p-1", 2, 2));
    let div = a.divergent_leaves(b.leaves());
    assert_eq!(div.len(), 1);
    assert_eq!(div[0], bucket_for(b"p-1"));
}

#[test]
fn upsert_idempotent_for_same_member() {
    let mut a = MerkleTree::new();
    a.upsert(page(b"p", 1, 1));
    let r1 = a.root();
    a.upsert(page(b"p", 1, 1));
    assert_eq!(a.root(), r1);
}

#[test]
fn removing_a_page_brings_the_root_back() {
    let mut a = MerkleTree::new();
    let r0 = a.root();
    a.upsert(page(b"p", 1, 1));
    a.remove(b"p");
    assert_eq!(a.root(), r0);
    assert!(a.leaf_members(bucket_for(b"p")).is_empty());
}

#[test]
fn order_of_upserts_does_not_matter() {
    let mut a = MerkleTree::new();
    let mut b = MerkleTree::new();
    for (x, y) in [(1u8, 2u8), (3, 4), (5, 6)] {
        a.upsert(page(&[x], 1, y));
    }
    for (x, y) in [(5u8, 6u8), (1, 2), (3, 4)] {
        b.upsert(page(&[x], 1, y));
    }
    assert_eq!(a.root(), b.root());
}

#[test]
fn equal_trees_have_no_divergence() {
    let a = MerkleTree::new();
    let b_leaves = a.leaves().to_vec();
    let r = compare(&a, &b_leaves).unwrap();
    assert!(r.divergent_leaf_indices.is_empty());
    assert_eq!(r.local_root, r.remote_root);
}

#[test]
fn divergent_page_application_with_hash_check() {
    let remote_page = b"remote-page-bytes";
    let remote_leaf = BlakeHash::from_bytes(*blake3::hash(remote_page).as_bytes());
    let remote_leaves = vec![BlakeHash::from_bytes([1u8; 32]), remote_leaf];
    let report = DivergenceReport {
        local_root: BlakeHash::from_bytes([0u8; 32]),
        remote_root: BlakeHash::from_bytes([0u8; 32]),
        divergent_leaf_indices: vec![1],
    };

    let pages = vec![(1usize, remote_page.to_vec())];
    let (to_apply, n) = apply_divergent_pages(&report, &remote_leaves, &pages);
    assert_eq!(n, Ok(1));
    let applied: Vec<(usize, Vec<u8>)> = to_apply.iter().map(|i| pages[*i].clone()).collect();
    assert_eq!(applied, vec![(1, remote_page.to_vec())]);

    let forged = vec![(1usize, b"forged-content".to_vec())];
    let (to_apply, err) = apply_divergent_pages(&report, &remote_leaves, &forged);
    assert!(to_apply.is_empty());
    assert!(matches!(err, Err(AntiEntropyError::ForgedPage { .. })));
}

#[test]
fn rows_of_other_lengths_are_not_compared() {
    let a = MerkleTree::new();
    assert!(matches!(
        compare(&a, &[ph(1)]),
        Err(AntiEntropyError::SizeMismatch { remote: 1, .. })
    ));
}

#[test]
fn lww_register_merge_picks_higher_hlc() {
    let d = dev();
    let a = LwwRegister::new("a".to_string(), Hlc::new(1, 0), d);
    let b = LwwRegister::new("b".to_string(), Hlc::new(2, 0), d);
    assert_eq!(a.clone().merge(b.clone()).value, "b");
    assert_eq!(b.merge(a).value, "b");
}

#[test]
fn lww_ties_go_by_device() {
    let a = LwwRegister::new(1, Hlc::new(1, 0), DeviceId(1));
    let b = LwwRegister::new(2, Hlc::new(1, 0), DeviceId(2));
    assert_eq!(a.clone().merge(b.clone()).value, 2);
    assert_eq!(b.merge(a).value, 2);
}

#[test]
fn or_set_observed_remove() {
    let mut s = OrSet::<u64>::new();
    s.add(1, 100);
    s.add(2, 100);
    s.remove(&[1]);
    assert_eq!(s.live_values().len(), 1);
}

#[test]
fn or_set_removal_before_addition_converges() {
    let mut a = OrSet::<u64>::new();
    a.add(1, 10);
    a.remove(&[1]);
    let mut b = OrSet::<u64>::new();
    b.remove(&[1]);
    b.add(1, 10);
    assert_eq!(a, b);
    assert!(b.live_values().is_empty());
    assert_eq!(b.len(), 0);
}

#[test]
fn counter_sums_across_buckets() {
    let mut c = Counter::default();
    let d1 = dev();
    let d2 = dev();
    c.inc(d1, 5);
    c.inc(d2, 3);
    c.inc(d1, -2);
    assert_eq!(c.value(), 6);
}
