//! BLAKE3 digests.

use vstd::prelude::*;

use crate::bytes::concat;
use crate::types::BlakeHash;
use crate::types::ChunkHash;

verus! {

/// Names the 32-byte BLAKE3 digest of a byte string.
pub uninterp spec fn blake3_digest(input: Seq<u8>) -> Seq<u8>;

/// Names the 32-byte keyed BLAKE3 digest of a byte string.
pub uninterp spec fn blake3_keyed_digest(key: Seq<u8>, input: Seq<u8>) -> Seq<u8>;

/// `blake3::hash`: the digest is a function of the input alone.
#[verifier::external_body]
pub(crate) fn digest(input: &[u8]) -> (r: [u8; 32])
    ensures
        r@ == blake3_digest(input@),
{
    *blake3::hash(input).as_bytes()
}

/// `blake3::keyed_hash`: the digest is a function of the key and the input alone.
#[verifier::external_body]
pub(crate) fn keyed_digest(key: &[u8; 32], input: &[u8]) -> (r: [u8; 32])
    ensures
        r@ == blake3_keyed_digest(key@, input@),
{
    *blake3::keyed_hash(key, input).as_bytes()
}

/// The BLAKE3 digest of `input`.
pub fn blake3_32(input: &[u8]) -> (r: BlakeHash)
    ensures
        r.0@ == blake3_digest(input@),
{
    BlakeHash(digest(input))
}

/// The keyed BLAKE3 digest of `input`.
pub fn blake3_keyed_32(key: &[u8; 32], input: &[u8]) -> (r: BlakeHash)
    ensures
        r.0@ == blake3_keyed_digest(key@, input@),
{
    BlakeHash(keyed_digest(key, input))
}

/// The first 20 bytes of the BLAKE3 digest of `input`.
pub fn blake3_160(input: &[u8]) -> (r: [u8; 20])
    ensures
        r@ == blake3_digest(input@).take(20),
{
    let h = digest(input);
    let mut out: [u8; 20] = [0u8; 20];
    let mut i: usize = 0;
    while i < 20
        invariant
            0 <= i <= 20,
            forall|j: int| 0 <= j < i ==> out@[j] == h@[j],
        decreases 20 - i,
    {
        out[i] = h[i];
        i = i + 1;
    }
    assert(out@ =~= h@.take(20));
    out
}

/// The input of the digest that names a chunk: the vault's salt, where there is one, before the
/// plaintext.
pub open spec fn chunk_hash_input(plaintext: Seq<u8>, vault_salt: Option<&[u8]>) -> Seq<u8> {
    match vault_salt {
        Some(salt) => salt@ + plaintext,
        None => plaintext,
    }
}

/// The digest that names a chunk of plaintext within a vault.
pub fn chunk_hash(plaintext: &[u8], vault_salt: Option<&[u8]>) -> (r: ChunkHash)
    ensures
        r.0@ == blake3_digest(chunk_hash_input(plaintext@, vault_salt)),
        vault_salt is None ==> r.0@ == blake3_digest(plaintext@),
        vault_salt matches Some(salt) ==> r.0@ == blake3_digest(salt@ + plaintext@),
{
    match vault_salt {
        Some(salt) => {
            let input = concat(salt, plaintext);
            ChunkHash(digest(&input))
        },
        None => ChunkHash(digest(plaintext)),
    }
}

/// What names a chunk is its content: the digest's input begins with the vault's salt, where there
/// is one, and what is left of it is the whole plaintext.
pub proof fn lemma_chunk_name_covers_content(plaintext: Seq<u8>, vault_salt: Option<&[u8]>)
    ensures
        vault_salt is None ==> chunk_hash_input(plaintext, vault_salt) == plaintext,
        vault_salt matches Some(salt) ==> ({
            let input = chunk_hash_input(plaintext, vault_salt);
            &&& input.len() == salt@.len() + plaintext.len()
            &&& input.take(salt@.len() as int) == salt@
            &&& input.skip(salt@.len() as int) == plaintext
        }),
{
    if let Some(salt) = vault_salt {
        let input = chunk_hash_input(plaintext, vault_salt);
        assert(input.take(salt@.len() as int) =~= salt@);
        assert(input.skip(salt@.len() as int) =~= plaintext);
    }
}

/// Different chunks of one vault are named after different inputs, and so is one chunk in vaults
/// with different salts of one length.
pub proof fn lemma_chunk_names_apart(
    p: Seq<u8>,
    q: Seq<u8>,
    p_salt: Option<&[u8]>,
    q_salt: Option<&[u8]>,
)
    requires
        (p_salt is None && q_salt is None) || (p_salt is Some && q_salt is Some
            && p_salt.unwrap()@.len() == q_salt.unwrap()@.len()),
        p != q || (p_salt is Some && p_salt.unwrap()@ != q_salt.unwrap()@),
    ensures
        chunk_hash_input(p, p_salt) != chunk_hash_input(q, q_salt),
{
    lemma_chunk_name_covers_content(p, p_salt);
    lemma_chunk_name_covers_content(q, q_salt);
}

} // verus!
