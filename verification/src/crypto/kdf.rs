//! Passphrase hashing.

use vstd::prelude::*;

use super::CryptoError;
use super::SymKey;
use crate::types::KdfAlgo;
use crate::types::KdfParams;

verus! {

/// Names the 32-byte Argon2id (version 0x13) output for a passphrase, a salt and the three cost
/// parameters.
pub uninterp spec fn argon2id_output(
    passphrase: Seq<u8>,
    salt: Seq<u8>,
    memory_kib: u32,
    iterations: u32,
    parallelism: u32,
) -> Seq<u8>;

/// Whether Argon2 takes these cost parameters.
pub open spec fn costs_accepted(memory_kib: u32, iterations: u32, parallelism: u32) -> bool {
    &&& 8 <= memory_kib
    &&& 1 <= iterations
    &&& 1 <= parallelism <= 0xFF_FFFF
    &&& 8 * parallelism <= memory_kib
}

/// Whether Argon2 takes a passphrase and a salt of these lengths.
pub open spec fn lengths_accepted(passphrase: nat, salt: nat) -> bool {
    passphrase <= 0xFFFF_FFFF && 8 <= salt <= 0xFFFF_FFFF
}

/// `Argon2::hash_password_into` of the crate `argon2`, for Argon2id of version 0x13 with 32 bytes
/// of output: with accepted costs it succeeds exactly where the lengths are accepted.
#[verifier::external_body]
fn argon2id(passphrase: &[u8], salt: &[u8], memory_kib: u32, iterations: u32, parallelism: u32) -> (r:
    Option<[u8; 32]>)
    requires
        costs_accepted(memory_kib, iterations, parallelism),
    ensures
        r is Some == lengths_accepted(passphrase@.len(), salt@.len()),
        r is Some ==> r.unwrap()@ == argon2id_output(
            passphrase@,
            salt@,
            memory_kib,
            iterations,
            parallelism,
        ),
{
    let params = argon2::Params::new(memory_kib, iterations, parallelism, Some(32)).ok()?;
    let argon = argon2::Argon2::new(argon2::Algorithm::Argon2id, argon2::Version::V0x13, params);
    let mut out = [0u8; 32];
    argon.hash_password_into(passphrase, salt, &mut out).ok()?;
    Some(out)
}

/// The master key that a passphrase and stored parameters give, where the parameters are accepted.
pub open spec fn master_key_of(passphrase: Seq<u8>, params: KdfParams) -> Seq<u8> {
    argon2id_output(
        passphrase,
        params.salt@,
        params.memory_kib,
        params.iterations,
        params.parallelism,
    )
}

/// Why parameters and a passphrase are refused, where they are.
pub open spec fn kdf_refusal(passphrase: Seq<u8>, params: KdfParams) -> Option<Seq<char>> {
    if params.algo != KdfAlgo::Argon2id {
        Some("only argon2id is supported"@)
    } else if !costs_accepted(params.memory_kib, params.iterations, params.parallelism) {
        Some("invalid argon2 params"@)
    } else if !lengths_accepted(passphrase.len(), params.salt@.len()) {
        Some("argon2 derivation failed"@)
    } else {
        None
    }
}

/// Derives the master key from a passphrase. The same passphrase and parameters give the same key.
pub fn derive_master_key(passphrase: &[u8], params: &KdfParams) -> (r: Result<SymKey, CryptoError>)
    ensures
        match kdf_refusal(passphrase@, *params) {
            Some(why) => r matches Err(CryptoError::KdfParam(m)) && m@ == why,
            None => r matches Ok(k) && k.0@ == master_key_of(passphrase@, *params),
        },
        r matches Ok(k) ==> params.algo == KdfAlgo::Argon2id && k.0@ == argon2id_output(
            passphrase@,
            params.salt@,
            params.memory_kib,
            params.iterations,
            params.parallelism,
        ),
        params.algo == KdfAlgo::Argon2id && 1 <= params.iterations && 1 <= params.parallelism
            <= 0xFF_FFFF && 8 * params.parallelism <= params.memory_kib && 8 <= params.salt@.len()
            <= 0xFFFF_FFFF && passphrase@.len() <= 0xFFFF_FFFF ==> r is Ok,
{
    if params.algo != KdfAlgo::Argon2id {
        return Err(CryptoError::KdfParam("only argon2id is supported"));
    }
    let m: u32 = params.memory_kib;
    let p: u32 = params.parallelism;
    if m < 8 || params.iterations < 1 || p < 1 || p > 0xFF_FFFF || 8 * p > m {
        return Err(CryptoError::KdfParam("invalid argon2 params"));
    }
    match argon2id(passphrase, &params.salt, m, params.iterations, p) {
        Some(k) => Ok(SymKey(k)),
        None => Err(CryptoError::KdfParam("argon2 derivation failed")),
    }
}

/// The parameters of new vaults: Argon2id with 64 MiB, three passes and one lane.
pub fn default_params(salt: Vec<u8>) -> (r: KdfParams)
    ensures
        r == (KdfParams {
            algo: KdfAlgo::Argon2id,
            memory_kib: 65536,
            iterations: 3,
            parallelism: 1,
            salt,
        }),
{
    KdfParams { algo: KdfAlgo::Argon2id, memory_kib: 65536, iterations: 3, parallelism: 1, salt }
}

/// Parameters are taken exactly where the algorithm is Argon2id, there is at least one pass and one
/// lane, each lane has eight blocks of memory, and passphrase and salt have lengths that the
/// algorithm allows.
pub proof fn lemma_parameters_taken(passphrase: Seq<u8>, params: KdfParams)
    ensures
        kdf_refusal(passphrase, params) is None <==> params.algo == KdfAlgo::Argon2id
            && params.iterations >= 1 && params.parallelism >= 1 && params.parallelism < 0x100_0000
            && params.memory_kib >= 8 * params.parallelism && params.salt@.len() >= 8
            && params.salt@.len() < 0x1_0000_0000 && passphrase.len() < 0x1_0000_0000,
{
}

} // verus!
