//! Ed25519 signatures.

use vstd::prelude::*;

use ed25519_dalek::Signer;
use ed25519_dalek::Verifier;
use rand_core::RngCore;

use super::CryptoError;
use crate::types::Ed25519Priv;
use crate::types::Ed25519Pub;
use crate::types::Ed25519Sig;

verus! {

/// Names the verifying key of a signing key.
pub uninterp spec fn ed25519_public(secret: Seq<u8>) -> Seq<u8>;

/// Names the signature of a message under a signing key.
pub uninterp spec fn ed25519_signature(secret: Seq<u8>, message: Seq<u8>) -> Seq<u8>;

/// Names whether a signature of a message is accepted under a verifying key.
pub uninterp spec fn ed25519_accepts(public: Seq<u8>, message: Seq<u8>, signature: Seq<u8>) -> bool;

/// `SigningKey::verifying_key` of the crate `ed25519-dalek`.
#[verifier::external_body]
fn public_of(secret: &[u8; 32]) -> (r: [u8; 32])
    ensures
        r@ == ed25519_public(secret@),
{
    ed25519_dalek::SigningKey::from_bytes(secret).verifying_key().to_bytes()
}

/// `SigningKey::sign` of the crate `ed25519-dalek`: Ed25519 signatures are deterministic.
#[verifier::external_body]
fn signature_of(secret: &[u8; 32], message: &[u8]) -> (r: [u8; 64])
    ensures
        r@ == ed25519_signature(secret@, message@),
{
    ed25519_dalek::SigningKey::from_bytes(secret).sign(message).to_bytes()
}

/// `VerifyingKey::from_bytes` and `verify` of the crate `ed25519-dalek`: a key that is no curve
/// point is refused too, and what `sign` made is accepted under the verifying key of its signer.
/// That nothing else is accepted is a matter of how hard it is to forge, which the code does not
/// show, and is not claimed.
#[verifier::external_body]
fn accepts(public: &[u8; 32], message: &[u8], signature: &[u8; 64]) -> (r: bool)
    ensures
        r == ed25519_accepts(public@, message@, signature@),
        forall|secret: Seq<u8>|
            secret.len() == 32 && public@ == ed25519_public(secret) && signature@
                == #[trigger] ed25519_signature(secret, message@) ==> r,
{
    match ed25519_dalek::VerifyingKey::from_bytes(public) {
        Ok(key) => key.verify(message, &ed25519_dalek::Signature::from_bytes(signature)).is_ok(),
        Err(_) => false,
    }
}

/// `OsRng::fill_bytes` of the crate `rand_core`: 32 random bytes, of which nothing is claimed.
#[verifier::external_body]
fn random_32() -> (r: [u8; 32]) {
    let mut out = [0u8; 32];
    rand_core::OsRng.fill_bytes(&mut out);
    out
}

/// The keypair of a secret.
pub fn keypair_from_secret(secret: [u8; 32]) -> (r: (Ed25519Priv, Ed25519Pub))
    ensures
        r.0.0 == secret,
        r.1.0@ == ed25519_public(secret@),
{
    let public = public_of(&secret);
    (Ed25519Priv(secret), Ed25519Pub(public))
}

/// A keypair of a random secret: the public half is that of the private half.
pub fn generate_keypair() -> (r: (Ed25519Priv, Ed25519Pub))
    ensures
        r.1.0@ == ed25519_public(r.0.0@),
{
    keypair_from_secret(random_32())
}

/// The verifying key of a signing key.
pub fn ed25519_pub_from_priv(priv_key: &Ed25519Priv) -> (r: Ed25519Pub)
    ensures
        r.0@ == ed25519_public(priv_key.0@),
{
    Ed25519Pub(public_of(&priv_key.0))
}

/// Signs `message`.
pub fn sign(priv_key: &Ed25519Priv, message: &[u8]) -> (r: Ed25519Sig)
    ensures
        r.0@ == ed25519_signature(priv_key.0@, message@),
{
    Ed25519Sig(signature_of(&priv_key.0, message))
}

/// Checks a signature. What `sign` made of the same message under the private half of `pub_key`
/// is accepted.
pub fn verify(pub_key: &Ed25519Pub, message: &[u8], sig: &Ed25519Sig) -> (r: Result<(), CryptoError>)
    ensures
        r == (if ed25519_accepts(pub_key.0@, message@, sig.0@) {
            Ok::<(), CryptoError>(())
        } else {
            Err(CryptoError::SignatureInvalid)
        }),
        forall|secret: Seq<u8>|
            secret.len() == 32 && pub_key.0@ == ed25519_public(secret) && sig.0@
                == #[trigger] ed25519_signature(secret, message@) ==> r is Ok,
{
    if accepts(&pub_key.0, message, &sig.0) {
        Ok(())
    } else {
        Err(CryptoError::SignatureInvalid)
    }
}

} // verus!
