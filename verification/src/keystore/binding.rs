//! How a device seals what it remembers about a vault: nonce, ciphertext and tag, under a key of
//! the device.

use vstd::prelude::*;
use vstd::utf8::*;

use super::Keystore;
use super::KeystoreError;
use super::Secrets;
use crate::bytes::append;
use crate::bytes::slice_of;
use crate::bytes::to_array12;
use crate::bytes::to_array16;
use crate::crypto::aead::aead_fits;
use crate::crypto::aead::aead_opened;
use crate::crypto::aead::aead_sealed;
use crate::crypto::aead::chacha_opened;
use crate::crypto::aead::chacha_sealed;
use crate::crypto::aead::decrypt;
use crate::crypto::aead::encrypt;
use crate::crypto::aead::random_12;
use crate::crypto::aead::CHACHA_MAX_BYTES;
use crate::crypto::kem::thread_random_32;
use crate::crypto::CryptoError;
use crate::crypto::SymKey;
use crate::types::AeadNonce;
use crate::types::AeadSuite;
use crate::types::AeadTag;

verus! {

/// Why a binding could not be sealed or opened.
#[derive(Clone, PartialEq, Eq, Debug)]
pub enum BindingError {
    Keystore(KeystoreError),
    Crypto(CryptoError),
    Format,
}

/// The name of the device's key.
pub open spec fn device_key_id() -> Seq<u8> {
    encode_utf8("device_wrap"@)
}

/// What every binding is bound to.
pub open spec fn binding_aad() -> Seq<u8> {
    encode_utf8("openstorage:vault_binding:v1"@)
}

/// Whether `secrets` became `after` by making sure of a device key, which is `key`.
pub open spec fn device_key_ensured(secrets: Secrets, after: Secrets, key: Seq<u8>) -> bool {
    if secrets.contains_key(device_key_id()) {
        after == secrets && key == secrets[device_key_id()]
    } else {
        after == secrets.insert(device_key_id(), key)
    }
}

/// The device's key. Where there is none yet a random one is made and kept.
pub fn ensure_device_wrap_key<K: Keystore>(ks: &mut K) -> (r: Result<SymKey, BindingError>)
    requires
        old(ks).wf(),
    ensures
        final(ks).wf(),
        final(ks).reliable() == old(ks).reliable(),
        old(ks).reliable() ==> r is Ok,
        r matches Ok(k) ==> device_key_ensured(old(ks).secrets(), final(ks).secrets(), k.0@),
        r matches Err(e) ==> (e matches BindingError::Keystore(why) && old(ks).fails_with(why)),
{
    match ks.load("device_wrap") {
        Ok(b) => Ok(SymKey(b)),
        Err(KeystoreError::NotFound(_)) => {
            let k = thread_random_32();
            match ks.store("device_wrap", &k) {
                Ok(()) => Ok(SymKey(k)),
                Err(e) => Err(BindingError::Keystore(e)),
            }
        },
        Err(e) => Err(BindingError::Keystore(e)),
    }
}

/// A sealed binding.
pub open spec fn sealed_binding(key: Seq<u8>, nonce: Seq<u8>, plaintext: Seq<u8>) -> Seq<u8> {
    nonce + aead_sealed(AeadSuite::ChaCha20Poly1305, key, nonce, plaintext, binding_aad())
}

/// Seals a binding under a key, with a nonce.
pub fn seal_binding(key: &SymKey, nonce: [u8; 12], plaintext: &[u8]) -> (r: Result<
    Vec<u8>,
    BindingError,
>)
    ensures
        if plaintext@.len() <= CHACHA_MAX_BYTES {
            r matches Ok(b) && b@ == sealed_binding(key.0@, nonce@, plaintext@) && b@.len()
                == plaintext@.len() + 28
        } else {
            r == Err::<Vec<u8>, BindingError>(BindingError::Crypto(CryptoError::AeadVerify))
        },
        plaintext@.len() <= CHACHA_MAX_BYTES ==> r.unwrap()@ == nonce@ + chacha_sealed(
            key.0@,
            nonce@,
            plaintext@,
            encode_utf8("openstorage:vault_binding:v1"@),
        ),
{
    let n = AeadNonce::N12(nonce);
    match encrypt(
        AeadSuite::ChaCha20Poly1305,
        key,
        &n,
        plaintext,
        "openstorage:vault_binding:v1".as_bytes(),
    ) {
        Ok((ct, tag)) => {
            let mut out: Vec<u8> = Vec::new();
            append(&mut out, &nonce);
            append(&mut out, &ct);
            append(&mut out, &tag.0);
            assert(out@ =~= nonce@ + (ct@ + tag.0@));
            Ok(out)
        },
        Err(e) => Err(BindingError::Crypto(e)),
    }
}

/// What a sealed binding opens to under a key.
pub open spec fn opened_binding(key: Seq<u8>, blob: Seq<u8>) -> Result<Seq<u8>, BindingError> {
    if blob.len() < 28 {
        Err(BindingError::Format)
    } else if blob.len() - 28 > CHACHA_MAX_BYTES {
        Err(BindingError::Crypto(CryptoError::AeadVerify))
    } else {
        match aead_opened(
            AeadSuite::ChaCha20Poly1305,
            key,
            blob.take(12),
            blob.skip(12),
            binding_aad(),
        ) {
            Some(m) => Ok(m),
            None => Err(BindingError::Crypto(CryptoError::AeadVerify)),
        }
    }
}

/// Whether a result is what a spec function says.
pub open spec fn comes_to(
    r: Result<Vec<u8>, BindingError>,
    s: Result<Seq<u8>, BindingError>,
) -> bool {
    match s {
        Ok(m) => r matches Ok(p) && p@ == m,
        Err(e) => r == Err::<Vec<u8>, BindingError>(e),
    }
}

/// Whether a blob is a plaintext sealed under a key.
pub open spec fn is_binding_of(key: Seq<u8>, blob: Seq<u8>, plaintext: Seq<u8>) -> bool {
    &&& plaintext.len() <= CHACHA_MAX_BYTES
    &&& blob.len() == plaintext.len() + 28
    &&& blob == sealed_binding(key, blob.take(12), plaintext)
}

/// Opens a sealed binding. What was sealed under the key comes back.
pub fn open_binding(key: &SymKey, blob: &[u8]) -> (r: Result<Vec<u8>, BindingError>)
    ensures
        comes_to(r, opened_binding(key.0@, blob@)),
        forall|m: Seq<u8>| #[trigger]
            is_binding_of(key.0@, blob@, m) ==> (r matches Ok(p) && p@ == m),
        r matches Ok(p) ==> blob@.len() >= 28 && chacha_opened(
            key.0@,
            blob@.take(12),
            blob@.skip(12),
            encode_utf8("openstorage:vault_binding:v1"@),
        ) == Some(p@),
{
    if blob.len() < 28 {
        return Err(BindingError::Format);
    }
    let nonce = slice_of(blob, 0, 12);
    let ct = slice_of(blob, 12, blob.len() - 16);
    let tag = slice_of(blob, blob.len() - 16, blob.len());
    let n = AeadNonce::N12(to_array12(&nonce));
    let t = AeadTag(to_array16(&tag));
    assert(nonce@ =~= blob@.take(12));
    assert(ct@ + tag@ =~= blob@.skip(12));
    let opened = decrypt(
        AeadSuite::ChaCha20Poly1305,
        key,
        &n,
        &ct,
        &t,
        "openstorage:vault_binding:v1".as_bytes(),
    );
    proof {
        assert forall|m: Seq<u8>| #[trigger] is_binding_of(key.0@, blob@, m) implies (
        opened matches Ok(p) && p@ == m) by {
            let sealed = aead_sealed(
                AeadSuite::ChaCha20Poly1305,
                key.0@,
                n.bytes(),
                m,
                binding_aad(),
            );
            assert(blob@ =~= blob@.take(12) + sealed);
            assert(sealed =~= blob@.skip(12));
            assert(aead_fits(AeadSuite::ChaCha20Poly1305, m.len(), binding_aad().len()));
        }
    }
    match opened {
        Ok(m) => Ok(m),
        Err(e) => Err(BindingError::Crypto(e)),
    }
}

/// Seals a binding under the device's key, with a random nonce.
pub fn wrap_binding<K: Keystore>(ks: &mut K, plaintext: &[u8]) -> (r: Result<Vec<u8>, BindingError>)
    requires
        old(ks).wf(),
    ensures
        final(ks).wf(),
        final(ks).reliable() == old(ks).reliable(),
        old(ks).reliable() && plaintext@.len() <= CHACHA_MAX_BYTES ==> r is Ok,
        r matches Ok(b) ==> device_key_ensured(
            old(ks).secrets(),
            final(ks).secrets(),
            final(ks).secrets()[device_key_id()],
        ) && is_binding_of(final(ks).secrets()[device_key_id()], b@, plaintext@),
        r matches Err(e) ==> (e matches BindingError::Keystore(why) && old(ks).fails_with(why)) || (e
            == BindingError::Crypto(CryptoError::AeadVerify) && plaintext@.len() > CHACHA_MAX_BYTES),
{
    let key = match ensure_device_wrap_key(ks) {
        Ok(k) => k,
        Err(e) => {
            return Err(e);
        },
    };
    let nonce = random_12();
    let r = seal_binding(&key, nonce, plaintext);
    proof {
        if r is Ok {
            assert(r->Ok_0@.take(12) =~= nonce@);
        }
    }
    r
}

/// Opens a binding with the device's key. What was wrapped with that key comes back.
pub fn unwrap_binding<K: Keystore>(ks: &mut K, blob: &[u8]) -> (r: Result<Vec<u8>, BindingError>)
    requires
        old(ks).wf(),
    ensures
        final(ks).wf(),
        final(ks).reliable() == old(ks).reliable(),
        blob@.len() < 28 ==> r == Err::<Vec<u8>, BindingError>(BindingError::Format)
            && final(ks).secrets() == old(ks).secrets(),
        blob@.len() >= 28 && !(r matches Err(BindingError::Keystore(_))) ==> device_key_ensured(
            old(ks).secrets(),
            final(ks).secrets(),
            final(ks).secrets()[device_key_id()],
        ) && comes_to(r, opened_binding(final(ks).secrets()[device_key_id()], blob@)),
        r matches Err(BindingError::Keystore(why)) ==> old(ks).fails_with(why),
        old(ks).reliable() ==> !(r matches Err(BindingError::Keystore(_))),
        forall|m: Seq<u8>|
            old(ks).reliable() && old(ks).secrets().contains_key(device_key_id())
                && #[trigger] is_binding_of(old(ks).secrets()[device_key_id()], blob@, m) ==> (
            r matches Ok(p) && p@ == m),
{
    if blob.len() < 28 {
        return Err(BindingError::Format);
    }
    match ensure_device_wrap_key(ks) {
        Ok(key) => open_binding(&key, blob),
        Err(e) => Err(e),
    }
}

/// The device's key is made once: where there is one it is kept, and where there is none the new
/// one is stored, beside all other secrets.
pub proof fn lemma_device_key_made_once(before: Secrets, after: Secrets, key: Seq<u8>, again: Secrets, key_again: Seq<u8>)
    requires
        device_key_ensured(before, after, key),
        device_key_ensured(after, again, key_again),
    ensures
        again == after,
        key_again == key,
        after.contains_key(device_key_id()) && after[device_key_id()] == key,
        before.contains_key(device_key_id()) ==> key == before[device_key_id()],
        forall|k: Seq<u8>|
            before.contains_key(k) ==> #[trigger] after.contains_key(k) && after[k] == before[k],
        forall|k: Seq<u8>|
            k != device_key_id() && !before.contains_key(k) ==> !(#[trigger] after.contains_key(k)),
{
}

} // verus!
