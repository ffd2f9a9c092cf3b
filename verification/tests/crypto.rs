use openstorage::bytes::be64_bytes;
use openstorage::crypto::aead::decrypt;
use openstorage::crypto::aead::encrypt;
use openstorage::crypto::aead::random_nonce_12;
use openstorage::crypto::hash::blake3_160;
use openstorage::crypto::hash::blake3_32;
use openstorage::crypto::hash::blake3_keyed_32;
use openstorage::crypto::hash::chunk_hash;
use openstorage::crypto::kdf::default_params;
use openstorage::crypto::kdf::derive_master_key;
use openstorage::crypto::kem::decapsulate_placeholder;
use openstorage::crypto::kem::encapsulate_placeholder;
use openstorage::crypto::kem::encapsulate_secret;
use openstorage::crypto::sig::ed25519_pub_from_priv;
use openstorage::crypto::sig::generate_keypair;
use openstorage::crypto::sig::keypair_from_secret;
use openstorage::crypto::sig::sign;
use openstorage::crypto::sig::verify;
use openstorage::crypto::subkey::derive_chunk_key;
use openstorage::crypto::subkey::derive_subkey;
use openstorage::crypto::CryptoError;
use openstorage::crypto::SymKey;
use openstorage::types::AeadNonce;
use openstorage::types::AeadSuite;
use openstorage::types::Ed25519Priv;
use openstorage::types::KdfAlgo;
use openstorage::types::KdfParams;
use openstorage::types::KeyPurpose;

fn key() -> SymKey {
    SymKey::from_bytes([1u8; 32])
}

fn mk() -> SymKey {
    SymKey::from_bytes([7u8; 32])
}

fn cheap(salt: &[u8]) -> KdfParams {
    KdfParams {
        algo: KdfAlgo::Argon2id,
        memory_kib: 8,
        iterations: 1,
        parallelism: 1,
        salt: salt.to_vec(),
    }
}

#[test]
fn chacha_round_trip() {
    let n = random_nonce_12();
    let (ct, tag) =
        encrypt(AeadSuite::ChaCha20Poly1305, &key(), &n, b"hello world", b"aad").unwrap();
    let pt = decrypt(AeadSuite::ChaCha20Poly1305, &key(), &n, &ct, &tag, b"aad").unwrap();
    assert_eq!(pt, b"hello world");
}

#[test]
fn aes_round_trip() {
    let n = random_nonce_12();
    let (ct, tag) = encrypt(AeadSuite::Aes256Gcm, &key(), &n, b"plaintext", b"aad").unwrap();
    let pt = decrypt(AeadSuite::Aes256Gcm, &key(), &n, &ct, &tag, b"aad").unwrap();
    assert_eq!(pt, b"plaintext");
}

#[test]
fn aad_mismatch_fails() {
    let n = random_nonce_12();
    let (ct, tag) = encrypt(AeadSuite::ChaCha20Poly1305, &key(), &n, b"x", b"aad-1").unwrap();
    assert!(decrypt(AeadSuite::ChaCha20Poly1305, &key(), &n, &ct, &tag, b"aad-2").is_err());
}

#[test]
fn ciphertext_differs_from_plaintext_and_keeps_its_length() {
    let n = AeadNonce::N12([0u8; 12]);
    for suite in [AeadSuite::ChaCha20Poly1305, AeadSuite::Aes256Gcm] {
        let (ct, _tag) = encrypt(suite, &key(), &n, b"sixteen bytes!!!", b"").unwrap();
        assert_eq!(ct.len(), 16);
        assert_ne!(ct, b"sixteen bytes!!!");
    }
}

#[test]
fn the_two_ciphers_differ() {
    let n = AeadNonce::N12([3u8; 12]);
    let a = encrypt(AeadSuite::ChaCha20Poly1305, &key(), &n, b"same", b"").unwrap();
    let b = encrypt(AeadSuite::Aes256Gcm, &key(), &n, b"same", b"").unwrap();
    assert_ne!(a.0, b.0);
}

#[test]
fn wrong_nonce_kind_and_unwired_suite_are_refused() {
    let long = AeadNonce::N24([0u8; 24]);
    let short = AeadNonce::N12([0u8; 12]);
    assert_eq!(
        encrypt(AeadSuite::ChaCha20Poly1305, &key(), &long, b"x", b"").err(),
        Some(CryptoError::Input("ChaCha20-Poly1305 needs 12-byte nonce"))
    );
    assert_eq!(
        encrypt(AeadSuite::Aes256Gcm, &key(), &long, b"x", b"").err(),
        Some(CryptoError::Input("AES-256-GCM needs 12-byte nonce"))
    );
    assert_eq!(
        encrypt(AeadSuite::XChaCha20Poly1305, &key(), &short, b"x", b"").err(),
        Some(CryptoError::Input("XChaCha20-Poly1305 not yet wired"))
    );
}

#[test]
fn random_nonces_differ() {
    assert_ne!(random_nonce_12().as_slice(), random_nonce_12().as_slice());
}

#[test]
fn chunk_hash_changes_with_salt() {
    let pt = b"hello";
    let a = chunk_hash(pt, None);
    let b = chunk_hash(pt, Some(b"vault-salt"));
    assert_ne!(a.as_bytes(), b.as_bytes());
}

#[test]
fn chunk_hash_deterministic() {
    let pt = b"hello";
    let a = chunk_hash(pt, Some(b"s"));
    let b = chunk_hash(pt, Some(b"s"));
    assert_eq!(a, b);
}

#[test]
fn fingerprint_length() {
    let f = blake3_160(b"x");
    assert_eq!(f.len(), 20);
}

#[test]
fn digests_are_blake3() {
    assert_eq!(
        hex::encode(blake3_32(b"").as_bytes()),
        "af1349b9f5f9a1a6a0404dea36dcc9499bcb25c9adc112b7cc9a93cae41f3262"
    );
    assert_eq!(
        blake3_keyed_32(&[5u8; 32], b"abc").as_bytes(),
        blake3::keyed_hash(&[5u8; 32], b"abc").as_bytes()
    );
    assert_eq!(&blake3_160(b"q")[..], &blake3::hash(b"q").as_bytes()[..20]);
}

#[test]
fn deterministic_for_same_salt() {
    let params = cheap(b"test-salt-1234567");
    let a = derive_master_key(b"correct horse", &params).unwrap();
    let b = derive_master_key(b"correct horse", &params).unwrap();
    assert_eq!(a.as_bytes(), b.as_bytes());
}

#[test]
fn different_salt_changes_output() {
    let a = derive_master_key(b"pp", &cheap(b"salt-aaaaaaaaaaaa")).unwrap();
    let b = derive_master_key(b"pp", &cheap(b"salt-bbbbbbbbbbbb")).unwrap();
    assert_ne!(a.as_bytes(), b.as_bytes());
}

#[test]
fn kdf_refusals() {
    let mut scrypt = cheap(b"test-salt-1234567");
    scrypt.algo = KdfAlgo::Scrypt;
    assert_eq!(
        derive_master_key(b"p", &scrypt).err(),
        Some(CryptoError::KdfParam("only argon2id is supported"))
    );
    let mut weak = cheap(b"test-salt-1234567");
    weak.memory_kib = 7;
    assert_eq!(
        derive_master_key(b"p", &weak).err(),
        Some(CryptoError::KdfParam("invalid argon2 params"))
    );
    assert_eq!(
        derive_master_key(b"p", &cheap(b"short")).err(),
        Some(CryptoError::KdfParam("argon2 derivation failed"))
    );
}

#[test]
fn default_kdf_costs() {
    let p = default_params(vec![1u8; 16]);
    assert_eq!((p.memory_kib, p.iterations, p.parallelism), (65536, 3, 1));
    assert_eq!(p.salt, vec![1u8; 16]);
}

#[test]
fn placeholder_round_trip() {
    let pk = vec![9u8; 32];
    let (ct, k_send) = encapsulate_placeholder(&pk).unwrap();
    let k_recv = decapsulate_placeholder(&pk, &ct).unwrap();
    assert_eq!(k_send.as_bytes(), k_recv.as_bytes());
}

#[test]
fn encapsulation_masks_byte_by_byte() {
    let pk = vec![0b1010u8; 32];
    let ct = encapsulate_secret(&pk, &[0b0110u8; 32]);
    assert_eq!(ct, vec![0b1100u8; 32]);
}

#[test]
fn kem_refusals() {
    assert_eq!(
        encapsulate_placeholder(&[]).err(),
        Some(CryptoError::Input("empty recipient pubkey"))
    );
    assert_eq!(decapsulate_placeholder(&[1u8; 32], &[1u8; 31]).err(), Some(CryptoError::Kem));
}

#[test]
fn sign_verify_round_trip() {
    let (sk, pk) = generate_keypair();
    let m = b"hello sig";
    let sig = sign(&sk, m);
    assert!(verify(&pk, m, &sig).is_ok());
}

#[test]
fn tampered_message_fails() {
    let (sk, pk) = generate_keypair();
    let sig = sign(&sk, b"hello sig");
    assert!(verify(&pk, b"helloXsig", &sig).is_err());
}

#[test]
fn ed25519_known_vector() {
    // RFC 8032, section 7.1, test 1.
    let secret: [u8; 32] =
        hex::decode("9d61b19deffd5a60ba844af492ec2cc44449c5697b326919703bac031cae7f60")
            .unwrap()
            .try_into()
            .unwrap();
    let (sk, pk) = keypair_from_secret(secret);
    assert_eq!(
        hex::encode(pk.as_bytes()),
        "d75a980182b10ab7d54bfed3c964073a0ee172f3daa62325af021a68f707511a"
    );
    assert_eq!(
        hex::encode(sign(&sk, b"").as_bytes()),
        "e5564300c360ac729086e2cc806e828a84877f1eb8e5d974d873e065224901555fb8821590a33bacc61e39701cf9b46bd25bf5f0595bbe24655141438e7a100b"
    );
    assert_eq!(ed25519_pub_from_priv(&Ed25519Priv(secret)).as_bytes(), pk.as_bytes());
}

#[test]
fn purposes_are_independent() {
    let a = derive_subkey(&mk(), KeyPurpose::File, None).unwrap();
    let b = derive_subkey(&mk(), KeyPurpose::ShareKem, None).unwrap();
    assert_ne!(a.as_bytes(), b.as_bytes());
}

#[test]
fn chunk_indices_are_independent() {
    let f = derive_subkey(&mk(), KeyPurpose::File, None).unwrap();
    let c0 = derive_chunk_key(&f, 0).unwrap();
    let c1 = derive_chunk_key(&f, 1).unwrap();
    assert_ne!(c0.as_bytes(), c1.as_bytes());
}

#[test]
fn deterministic() {
    let a = derive_subkey(&mk(), KeyPurpose::File, Some(b"x")).unwrap();
    let b = derive_subkey(&mk(), KeyPurpose::File, Some(b"x")).unwrap();
    assert_eq!(a.as_bytes(), b.as_bytes());
}

#[test]
fn subkeys_are_hkdf_over_purpose_and_context() {
    let mut expected = [0u8; 32];
    hkdf::Hkdf::<sha2::Sha256>::new(None, &[7u8; 32])
        .expand(b"kp:file|x", &mut expected)
        .unwrap();
    let got = derive_subkey(&mk(), KeyPurpose::File, Some(b"x")).unwrap();
    assert_eq!(got.as_bytes(), &expected);
}

#[test]
fn chunk_keys_bind_the_index() {
    let mut info = b"kp:file|".to_vec();
    info.extend(be64_bytes(258));
    let mut expected = [0u8; 32];
    hkdf::Hkdf::<sha2::Sha256>::new(None, &[7u8; 32]).expand(&info, &mut expected).unwrap();
    assert_eq!(derive_chunk_key(&mk(), 258).unwrap().as_bytes(), &expected);
}
