//! Cryptographic building blocks: hashing, authenticated encryption, key derivation, key
//! encapsulation and signatures.

pub mod aead;
pub mod hash;
pub mod kdf;
pub mod kem;
pub mod sig;
pub mod subkey;

use vstd::prelude::*;

verus! {

/// Why a cryptographic operation failed.
#[derive(Clone, PartialEq, Eq, Debug)]
pub enum CryptoError {
    AeadVerify,
    KdfParam(&'static str),
    SignatureInvalid,
    Kem,
    KeyLength { expected: usize, got: usize },
    Input(&'static str),
}

/// A 32-byte symmetric key.
#[derive(Clone)]
pub struct SymKey(pub [u8; 32]);

impl SymKey {
    /// The key with these bytes.
    pub fn from_bytes(b: [u8; 32]) -> (r: Self)
        ensures
            r.0 == b,
    {
        SymKey(b)
    }

    /// The bytes of the key.
    pub fn as_bytes(&self) -> (r: &[u8; 32])
        ensures
            *r == self.0,
    {
        &self.0
    }
}

} // verus!
