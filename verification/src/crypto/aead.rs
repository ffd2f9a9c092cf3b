//! Authenticated encryption with associated data.

use vstd::prelude::*;

use chacha20poly1305::aead::Aead;
use chacha20poly1305::aead::AeadCore;
use chacha20poly1305::aead::KeyInit;

use super::CryptoError;
use super::SymKey;
use crate::bytes::concat;
use crate::bytes::slice_of;
use crate::bytes::to_array16;
use crate::types::AeadNonce;
use crate::types::AeadSuite;
use crate::types::AeadTag;

verus! {

/// The longest message that ChaCha20-Poly1305 takes here: the bytes that its block counter can
/// number.
pub const CHACHA_MAX_BYTES: u64 = 274_877_906_816;

/// The longest message and the longest associated data that AES-256-GCM takes.
pub const GCM_MAX_BYTES: u64 = 68_719_476_736;

/// Names the ChaCha20-Poly1305 ciphertext of a message, with the tag behind it.
pub uninterp spec fn chacha_sealed(key: Seq<u8>, nonce: Seq<u8>, msg: Seq<u8>, aad: Seq<u8>) -> Seq<u8>;

/// Names what ChaCha20-Poly1305 decrypts from a ciphertext with its tag; `None` where the tag is
/// refused.
pub uninterp spec fn chacha_opened(key: Seq<u8>, nonce: Seq<u8>, sealed: Seq<u8>, aad: Seq<u8>) -> Option<
    Seq<u8>,
>;

/// Names the AES-256-GCM ciphertext of a message, with the tag behind it.
pub uninterp spec fn gcm_sealed(key: Seq<u8>, nonce: Seq<u8>, msg: Seq<u8>, aad: Seq<u8>) -> Seq<u8>;

/// Names what AES-256-GCM decrypts from a ciphertext with its tag; `None` where the tag is refused.
pub uninterp spec fn gcm_opened(key: Seq<u8>, nonce: Seq<u8>, sealed: Seq<u8>, aad: Seq<u8>) -> Option<
    Seq<u8>,
>;

/// `ChaCha20Poly1305::encrypt` of the crate `chacha20poly1305`: up to the counter's limit it
/// succeeds, and the result is as long as the message and a 16-byte tag.
#[verifier::external_body]
fn chacha_encrypt(key: &[u8; 32], nonce: &[u8; 12], msg: &[u8], aad: &[u8]) -> (r: Option<Vec<u8>>)
    requires
        msg@.len() <= CHACHA_MAX_BYTES,
    ensures
        r is Some,
        r.unwrap()@ == chacha_sealed(key@, nonce@, msg@, aad@),
        r.unwrap()@.len() == msg@.len() + 16,
{
    let cipher = chacha20poly1305::ChaCha20Poly1305::new(key.into());
    cipher.encrypt(nonce.into(), chacha20poly1305::aead::Payload { msg, aad }).ok()
}

/// `ChaCha20Poly1305::decrypt` of the crate `chacha20poly1305`: a result is the tag's 16 bytes
/// shorter than its input, and what `encrypt` made of a message with the same key, nonce and
/// associated data gives the message back.
#[verifier::external_body]
fn chacha_decrypt(key: &[u8; 32], nonce: &[u8; 12], sealed: &[u8], aad: &[u8]) -> (r: Option<Vec<u8>>)
    requires
        16 <= sealed@.len() <= CHACHA_MAX_BYTES + 16,
    ensures
        match r {
            Some(m) => chacha_opened(key@, nonce@, sealed@, aad@) == Some(m@) && m@.len() + 16
                == sealed@.len(),
            None => chacha_opened(key@, nonce@, sealed@, aad@) is None,
        },
        forall|m: Seq<u8>|
            m.len() <= CHACHA_MAX_BYTES && sealed@ == #[trigger] chacha_sealed(key@, nonce@, m, aad@)
                ==> r is Some && r.unwrap()@ == m,
{
    let cipher = chacha20poly1305::ChaCha20Poly1305::new(key.into());
    cipher.decrypt(nonce.into(), chacha20poly1305::aead::Payload { msg: sealed, aad }).ok()
}

/// `Aes256Gcm::encrypt` of the crate `aes-gcm`: it succeeds exactly up to the lengths that GCM
/// allows, and the result is as long as the message and a 16-byte tag.
#[verifier::external_body]
fn gcm_encrypt(key: &[u8; 32], nonce: &[u8; 12], msg: &[u8], aad: &[u8]) -> (r: Option<Vec<u8>>)
    ensures
        r is Some == (msg@.len() <= GCM_MAX_BYTES && aad@.len() <= GCM_MAX_BYTES),
        r is Some ==> r.unwrap()@ == gcm_sealed(key@, nonce@, msg@, aad@) && r.unwrap()@.len()
            == msg@.len() + 16,
{
    let cipher = aes_gcm::Aes256Gcm::new(key.into());
    cipher.encrypt(nonce.into(), aes_gcm::aead::Payload { msg, aad }).ok()
}

/// `Aes256Gcm::decrypt` of the crate `aes-gcm`: a result is the tag's 16 bytes shorter than its
/// input, and what `encrypt` made of a message with the same key, nonce and associated data gives
/// the message back.
#[verifier::external_body]
fn gcm_decrypt(key: &[u8; 32], nonce: &[u8; 12], sealed: &[u8], aad: &[u8]) -> (r: Option<Vec<u8>>)
    requires
        16 <= sealed@.len(),
    ensures
        match r {
            Some(m) => gcm_opened(key@, nonce@, sealed@, aad@) == Some(m@) && m@.len() + 16
                == sealed@.len(),
            None => gcm_opened(key@, nonce@, sealed@, aad@) is None,
        },
        forall|m: Seq<u8>|
            m.len() <= GCM_MAX_BYTES && aad@.len() <= GCM_MAX_BYTES && sealed@
                == #[trigger] gcm_sealed(key@, nonce@, m, aad@) ==> r is Some && r.unwrap()@ == m,
{
    let cipher = aes_gcm::Aes256Gcm::new(key.into());
    cipher.decrypt(nonce.into(), aes_gcm::aead::Payload { msg: sealed, aad }).ok()
}

/// `ChaCha20Poly1305::generate_nonce` of the crate `chacha20poly1305` with the system's random
/// source: twelve random bytes, of which nothing is claimed.
#[verifier::external_body]
pub(crate) fn random_12() -> (r: [u8; 12]) {
    chacha20poly1305::ChaCha20Poly1305::generate_nonce(&mut chacha20poly1305::aead::OsRng).into()
}

/// Whether a message and its associated data are within the lengths that a cipher takes.
pub open spec fn aead_fits(suite: AeadSuite, msg_len: nat, aad_len: nat) -> bool {
    match suite {
        AeadSuite::ChaCha20Poly1305 => msg_len <= CHACHA_MAX_BYTES,
        AeadSuite::Aes256Gcm => msg_len <= GCM_MAX_BYTES && aad_len <= GCM_MAX_BYTES,
        AeadSuite::XChaCha20Poly1305 => false,
    }
}

/// The ciphertext of a message under one of the two ciphers, with the tag behind it.
pub open spec fn aead_sealed(
    suite: AeadSuite,
    key: Seq<u8>,
    nonce: Seq<u8>,
    msg: Seq<u8>,
    aad: Seq<u8>,
) -> Seq<u8> {
    match suite {
        AeadSuite::Aes256Gcm => gcm_sealed(key, nonce, msg, aad),
        _ => chacha_sealed(key, nonce, msg, aad),
    }
}

/// What a ciphertext with its tag decrypts to under one of the two ciphers.
pub open spec fn aead_opened(
    suite: AeadSuite,
    key: Seq<u8>,
    nonce: Seq<u8>,
    sealed: Seq<u8>,
    aad: Seq<u8>,
) -> Option<Seq<u8>> {
    match suite {
        AeadSuite::Aes256Gcm => gcm_opened(key, nonce, sealed, aad),
        _ => chacha_opened(key, nonce, sealed, aad),
    }
}

/// The refusal that depends on the cipher and the nonce alone, where there is one.
pub open spec fn aead_refusal(suite: AeadSuite, nonce: AeadNonce) -> Option<Seq<char>> {
    match suite {
        AeadSuite::ChaCha20Poly1305 => if nonce is N12 {
            None
        } else {
            Some("ChaCha20-Poly1305 needs 12-byte nonce"@)
        },
        AeadSuite::Aes256Gcm => if nonce is N12 {
            None
        } else {
            Some("AES-256-GCM needs 12-byte nonce"@)
        },
        AeadSuite::XChaCha20Poly1305 => Some("XChaCha20-Poly1305 not yet wired"@),
    }
}

fn refusal(suite: AeadSuite, nonce: &AeadNonce) -> (r: Option<&'static str>)
    ensures
        match r {
            Some(m) => aead_refusal(suite, *nonce) == Some(m@),
            None => aead_refusal(suite, *nonce) is None && nonce is N12,
        },
{
    let short = match nonce {
        AeadNonce::N12(_) => true,
        AeadNonce::N24(_) => false,
    };
    match suite {
        AeadSuite::ChaCha20Poly1305 => if short {
            None
        } else {
            Some("ChaCha20-Poly1305 needs 12-byte nonce")
        },
        AeadSuite::Aes256Gcm => if short {
            None
        } else {
            Some("AES-256-GCM needs 12-byte nonce")
        },
        AeadSuite::XChaCha20Poly1305 => Some("XChaCha20-Poly1305 not yet wired"),
    }
}

/// What `encrypt` gives: the refusal, where there is one; an error where the message is too long;
/// otherwise the ciphertext and its tag.
pub open spec fn encrypt_result(
    suite: AeadSuite,
    key: Seq<u8>,
    nonce: AeadNonce,
    msg: Seq<u8>,
    aad: Seq<u8>,
    r: Result<(Vec<u8>, AeadTag), CryptoError>,
) -> bool {
    match aead_refusal(suite, nonce) {
        Some(why) => r matches Err(CryptoError::Input(m)) && m@ == why,
        None => if aead_fits(suite, msg.len(), aad.len()) {
            r matches Ok(p) && p.0@.len() == msg.len() && p.0@ + p.1.0@ == aead_sealed(
                suite,
                key,
                nonce.bytes(),
                msg,
                aad,
            )
        } else {
            r == Err::<(Vec<u8>, AeadTag), CryptoError>(CryptoError::AeadVerify)
        },
    }
}

/// What `decrypt` gives: the refusal, where there is one; otherwise the plaintext, or an error
/// where the ciphertext is too long or its tag is not accepted.
pub open spec fn decrypt_result(
    suite: AeadSuite,
    key: Seq<u8>,
    nonce: AeadNonce,
    ciphertext: Seq<u8>,
    tag: Seq<u8>,
    aad: Seq<u8>,
    r: Result<Vec<u8>, CryptoError>,
) -> bool {
    match aead_refusal(suite, nonce) {
        Some(why) => r matches Err(CryptoError::Input(m)) && m@ == why,
        None => if suite == AeadSuite::ChaCha20Poly1305 && ciphertext.len() > CHACHA_MAX_BYTES {
            r == Err::<Vec<u8>, CryptoError>(CryptoError::AeadVerify)
        } else {
            match aead_opened(suite, key, nonce.bytes(), ciphertext + tag, aad) {
                Some(m) => r matches Ok(p) && p@ == m && m.len() == ciphertext.len(),
                None => r == Err::<Vec<u8>, CryptoError>(CryptoError::AeadVerify),
            }
        },
    }
}

/// Encrypts `plaintext` under `key`, bound to `aad`. The result is the ciphertext and its tag.
pub fn encrypt(
    suite: AeadSuite,
    key: &SymKey,
    nonce: &AeadNonce,
    plaintext: &[u8],
    aad: &[u8],
) -> (r: Result<(Vec<u8>, AeadTag), CryptoError>)
    ensures
        encrypt_result(suite, key.0@, *nonce, plaintext@, aad@, r),
        suite == AeadSuite::ChaCha20Poly1305 && plaintext@.len() <= CHACHA_MAX_BYTES ==> (match *nonce {
            AeadNonce::N12(n) => r matches Ok(p) && p.0@.len() == plaintext@.len() && p.0@ + p.1.0@
                == chacha_sealed(key.0@, n@, plaintext@, aad@),
            _ => r matches Err(CryptoError::Input(_)),
        }),
        suite == AeadSuite::Aes256Gcm && plaintext@.len() <= GCM_MAX_BYTES && aad@.len()
            <= GCM_MAX_BYTES ==> (match *nonce {
            AeadNonce::N12(n) => r matches Ok(p) && p.0@.len() == plaintext@.len() && p.0@ + p.1.0@
                == gcm_sealed(key.0@, n@, plaintext@, aad@),
            _ => r matches Err(CryptoError::Input(_)),
        }),
        suite == AeadSuite::XChaCha20Poly1305 ==> r matches Err(CryptoError::Input(_)),
{
    if let Some(why) = refusal(suite, nonce) {
        return Err(CryptoError::Input(why));
    }
    let n = match nonce {
        AeadNonce::N12(b) => b,
        AeadNonce::N24(_) => {
            return Err(CryptoError::AeadVerify);
        },
    };
    let sealed: Option<Vec<u8>> = match suite {
        AeadSuite::ChaCha20Poly1305 => if plaintext.len() as u64 > CHACHA_MAX_BYTES {
            None
        } else {
            chacha_encrypt(&key.0, n, plaintext, aad)
        },
        _ => gcm_encrypt(&key.0, n, plaintext, aad),
    };
    match sealed {
        Some(combined) => split_tag(&combined),
        None => Err(CryptoError::AeadVerify),
    }
}

/// Decrypts a ciphertext and its tag. Whatever `encrypt` made of a plaintext with the same cipher,
/// key, nonce and associated data gives the plaintext back.
pub fn decrypt(
    suite: AeadSuite,
    key: &SymKey,
    nonce: &AeadNonce,
    ciphertext: &[u8],
    tag: &AeadTag,
    aad: &[u8],
) -> (r: Result<Vec<u8>, CryptoError>)
    ensures
        decrypt_result(suite, key.0@, *nonce, ciphertext@, tag.0@, aad@, r),
        r matches Ok(p) ==> (*nonce matches AeadNonce::N12(n) && ((suite
            == AeadSuite::ChaCha20Poly1305 && chacha_opened(key.0@, n@, ciphertext@ + tag.0@, aad@)
            == Some(p@)) || (suite == AeadSuite::Aes256Gcm && gcm_opened(
            key.0@,
            n@,
            ciphertext@ + tag.0@,
            aad@,
        ) == Some(p@)))),
        forall|m: Seq<u8>|
            aead_refusal(suite, *nonce) is None && aead_fits(suite, m.len(), aad@.len())
                && m.len() == ciphertext@.len() && ciphertext@ + tag.0@ == #[trigger] aead_sealed(
                suite,
                key.0@,
                nonce.bytes(),
                m,
                aad@,
            ) ==> (r matches Ok(p) && p@ == m),
{
    if let Some(why) = refusal(suite, nonce) {
        return Err(CryptoError::Input(why));
    }
    let n = match nonce {
        AeadNonce::N12(b) => b,
        AeadNonce::N24(_) => {
            return Err(CryptoError::AeadVerify);
        },
    };
    let combined = concat(ciphertext, &tag.0);
    let opened: Option<Vec<u8>> = match suite {
        AeadSuite::ChaCha20Poly1305 => if ciphertext.len() as u64 > CHACHA_MAX_BYTES {
            None
        } else {
            chacha_decrypt(&key.0, n, &combined, aad)
        },
        _ => gcm_decrypt(&key.0, n, &combined, aad),
    };
    match opened {
        Some(plaintext) => Ok(plaintext),
        None => Err(CryptoError::AeadVerify),
    }
}

/// Parts a ciphertext from the 16-byte tag behind it.
fn split_tag(combined: &Vec<u8>) -> (r: Result<(Vec<u8>, AeadTag), CryptoError>)
    ensures
        if combined@.len() < 16 {
            r matches Err(CryptoError::Input(m)) && m@ == "AEAD output shorter than tag"@
        } else {
            r matches Ok(p) && p.0@ == combined@.take(combined@.len() - 16) && p.0@ + p.1.0@
                == combined@
        },
{
    if combined.len() < 16 {
        return Err(CryptoError::Input("AEAD output shorter than tag"));
    }
    let at: usize = combined.len() - 16;
    let tag = to_array16(&slice_of(combined, at, combined.len()));
    let ct = slice_of(combined, 0, at);
    assert(ct@ =~= combined@.take(at as int));
    assert(ct@ + tag@ =~= combined@);
    Ok((ct, AeadTag(tag)))
}

/// A random 12-byte nonce. Of its bytes nothing is known.
pub fn random_nonce_12() -> (r: AeadNonce)
    ensures
        r is N12,
{
    AeadNonce::N12(random_12())
}

/// A cipher that is offered takes a nonce of twelve bytes and no other; the one with the long nonce
/// is not offered.
pub proof fn lemma_nonces_taken(suite: AeadSuite, short: [u8; 12], long: [u8; 24])
    ensures
        suite != AeadSuite::XChaCha20Poly1305 ==> aead_refusal(suite, AeadNonce::N12(short)) is None,
        aead_refusal(suite, AeadNonce::N24(long)) is Some,
        aead_refusal(AeadSuite::XChaCha20Poly1305, AeadNonce::N12(short)) is Some,
{
}

/// AES-256-GCM takes messages and associated data of up to 64 GiB; ChaCha20-Poly1305 takes what its
/// 32-bit counter can number beside two of its 64-byte blocks.
pub proof fn lemma_messages_fit(n: nat, m: nat)
    ensures
        aead_fits(AeadSuite::Aes256Gcm, n, m) <==> n <= 64 * 1024 * 1024 * 1024 && m <= 64 * 1024
            * 1024 * 1024,
        aead_fits(AeadSuite::ChaCha20Poly1305, n, m) <==> n <= 64 * (0x1_0000_0000 - 2),
{
}

} // verus!
