use openstorage::chunk::encrypt_and_encode;
use openstorage::chunk::hash;
use openstorage::chunk::pack_inline;
use openstorage::chunk::reconstruct_and_decrypt;
use openstorage::chunk::shard_id_for;
use openstorage::chunk::split_fixed;
use openstorage::chunk::unpack_inline;
use openstorage::crypto::SymKey;
use openstorage::ec::encode;
use openstorage::ec::reconstruct;
use openstorage::ec::EcError;
use openstorage::types::AeadSuite;
use openstorage::types::ChunkHash;
use openstorage::types::ECScheme;

fn key() -> SymKey {
    SymKey::from_bytes([42u8; 32])
}

#[test]
fn split_fixed_basic() {
    let payload = vec![0u8; 10];
    let chunks = split_fixed(&payload, 4);
    assert_eq!(chunks.len(), 3);
    assert_eq!(chunks[0].1, 0);
    assert_eq!(chunks.last().unwrap().0.len(), 2);
}

#[test]
fn split_pieces_join_to_the_payload() {
    let payload: Vec<u8> = (0..100u8).collect();
    let joined: Vec<u8> = split_fixed(&payload, 7).into_iter().flat_map(|c| c.0).collect();
    assert_eq!(joined, payload);
}

#[test]
fn round_trip_with_parity() {
    let pt = b"hello chunked encryption";
    let h = hash(pt, Some(b"salt"));
    let scheme = ECScheme::new(2, 4).unwrap();
    let enc =
        encrypt_and_encode(pt, h, &key(), AeadSuite::ChaCha20Poly1305, scheme, None).unwrap();
    let mut opt: Vec<Option<Vec<u8>>> =
        enc.shards.iter().map(|s| Some(s.ciphertext.clone())).collect();
    opt[1] = None;
    opt[3] = None;
    let out = reconstruct_and_decrypt(
        opt,
        h,
        &key(),
        &enc.nonce,
        &enc.tag,
        AeadSuite::ChaCha20Poly1305,
        scheme,
        enc.ciphertext_length,
    )
    .unwrap();
    assert_eq!(out, pt);
}

#[test]
fn aad_changes_per_chunk_hash() {
    let pt = b"x";
    let h1 = hash(pt, None);
    let h2 = ChunkHash::from_bytes([0u8; 32]);
    let scheme = ECScheme::new(1, 1).unwrap();
    let enc =
        encrypt_and_encode(pt, h1, &key(), AeadSuite::ChaCha20Poly1305, scheme, None).unwrap();
    let opt: Vec<Option<Vec<u8>>> =
        enc.shards.iter().map(|s| Some(s.ciphertext.clone())).collect();
    let err = reconstruct_and_decrypt(
        opt,
        h2,
        &key(),
        &enc.nonce,
        &enc.tag,
        AeadSuite::ChaCha20Poly1305,
        scheme,
        enc.ciphertext_length,
    );
    assert!(err.is_err());
}

#[test]
fn inline_round_trip() {
    let pt = b"tiny inline payload";
    let h = hash(pt, None);
    let (ct, n, tag) = pack_inline(pt, &key(), AeadSuite::ChaCha20Poly1305, h).unwrap();
    let out = unpack_inline(&ct, &key(), &n, &tag, AeadSuite::ChaCha20Poly1305, h).unwrap();
    assert_eq!(out, pt);
}

#[test]
fn shard_ids_differ_by_index() {
    let h = hash(b"pt", None);
    assert_ne!(shard_id_for(h, 0), shard_id_for(h, 1));
    assert_eq!(shard_id_for(h, 3), shard_id_for(h, 3));
}

fn round_trip_with_drops(scheme: ECScheme, payload: &[u8], drop: &[usize]) {
    let shards = encode(scheme, payload).unwrap();
    assert_eq!(shards.len(), scheme.n as usize);
    let mut opt: Vec<Option<Vec<u8>>> = shards.into_iter().map(Some).collect();
    for &i in drop {
        opt[i] = None;
    }
    let out = reconstruct(scheme, opt, payload.len()).unwrap();
    assert_eq!(out, payload);
}

#[test]
fn k2_n4_drops_two_parity() {
    let s = ECScheme::new(2, 4).unwrap();
    round_trip_with_drops(s, b"hello erasure coding world!", &[2, 3]);
}

#[test]
fn k3_n5_drops_two_arbitrary() {
    let s = ECScheme::new(3, 5).unwrap();
    let payload: Vec<u8> = (0..1000).map(|i| (i % 251) as u8).collect();
    round_trip_with_drops(s, &payload, &[0, 4]);
}

#[test]
fn replication_k1_n3() {
    let s = ECScheme::replication(3);
    round_trip_with_drops(s, b"abc", &[0, 2]);
}

#[test]
fn insufficient_shards_fails() {
    let s = ECScheme::new(3, 5).unwrap();
    let shards = encode(s, b"abcdefghij").unwrap();
    let opt: Vec<Option<Vec<u8>>> = shards
        .into_iter()
        .enumerate()
        .map(|(i, s)| if i < 2 { Some(s) } else { None })
        .collect();
    assert!(matches!(reconstruct(s, opt, 10), Err(EcError::InsufficientShards { .. })));
}

#[test]
fn parity_comes_from_the_data() {
    let s = ECScheme::new(2, 3).unwrap();
    let a = encode(s, b"aaaabbbb").unwrap();
    let b = encode(s, b"aaaacccc").unwrap();
    assert_eq!(a[0], b[0]);
    assert_ne!(a[2], b[2]);
}

#[test]
fn an_empty_payload_has_empty_shards() {
    for (k, n) in [(1u8, 1u8), (2, 2), (2, 4), (1, 3)] {
        let s = ECScheme::new(k, n).unwrap();
        let shards = encode(s, b"").unwrap();
        assert_eq!(shards.len(), n as usize);
        assert!(shards.iter().all(|x| x.is_empty()));
        let mut opt: Vec<Option<Vec<u8>>> = shards.into_iter().map(Some).collect();
        for slot in opt.iter_mut().skip(k as usize) {
            *slot = None;
        }
        assert_eq!(reconstruct(s, opt, 0).unwrap(), b"");
    }
    let s = ECScheme::new(2, 4).unwrap();
    assert_eq!(encode(s, b"abc").unwrap()[1], vec![b'c', 0]);
    assert!(matches!(
        reconstruct(s, vec![Some(vec![]), Some(vec![]), None, None], 3),
        Err(EcError::Reconstruct(_))
    ));
}

#[test]
fn an_empty_chunk_round_trips() {
    let h = hash(b"", None);
    let scheme = ECScheme::new(2, 3).unwrap();
    let enc =
        encrypt_and_encode(b"", h, &key(), AeadSuite::ChaCha20Poly1305, scheme, None).unwrap();
    let slots: Vec<Option<Vec<u8>>> =
        enc.shards.iter().map(|s| Some(s.ciphertext.clone())).collect();
    let out = reconstruct_and_decrypt(
        slots,
        h,
        &key(),
        &enc.nonce,
        &enc.tag,
        AeadSuite::ChaCha20Poly1305,
        scheme,
        enc.ciphertext_length,
    )
    .unwrap();
    assert_eq!(out, b"");
}
