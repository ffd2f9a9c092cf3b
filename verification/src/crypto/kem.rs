//! Key encapsulation. The scheme masks a random secret with the recipient's public key; it stands
//! in the place of a post-quantum KEM and has its shape.

use vstd::prelude::*;

use rand::RngCore;

use super::CryptoError;
use super::SymKey;
use crate::bytes::to_array16;
use crate::bytes::to_array32;

verus! {

/// The ciphertext of a secret for a recipient: the public key, each byte xored with the secret's
/// byte at the same position modulo 32.
pub open spec fn encapsulated(recipient: Seq<u8>, shared: Seq<u8>) -> Seq<u8> {
    Seq::new(recipient.len(), |i: int| recipient[i] ^ shared[i % 32])
}

/// The xor of `ciphertext[i] ^ recipient[i]` over all `i < n` that are `j` modulo 32.
pub open spec fn folded(recipient: Seq<u8>, ciphertext: Seq<u8>, j: int, n: int) -> u8
    decreases n,
{
    if n <= 0 {
        0u8
    } else if (n - 1) % 32 == j {
        folded(recipient, ciphertext, j, n - 1) ^ (ciphertext[n - 1] ^ recipient[n - 1])
    } else {
        folded(recipient, ciphertext, j, n - 1)
    }
}

/// The secret that a recipient reads from a ciphertext.
pub open spec fn decapsulated(recipient: Seq<u8>, ciphertext: Seq<u8>) -> Seq<u8> {
    Seq::new(32, |j: int| folded(recipient, ciphertext, j, recipient.len() as int))
}

/// `fill_bytes` of `rand::thread_rng`: a random row of bytes, of which only the length is claimed.
#[verifier::external_body]
fn thread_random(len: usize) -> (r: Vec<u8>)
    ensures
        r@.len() == len,
{
    let mut out = vec![0u8; len];
    rand::thread_rng().fill_bytes(&mut out);
    out
}

/// 32 random bytes.
pub(crate) fn thread_random_32() -> (r: [u8; 32]) {
    to_array32(&thread_random(32))
}

/// 16 random bytes.
pub(crate) fn thread_random_16() -> (r: [u8; 16]) {
    to_array16(&thread_random(16))
}

/// Encapsulates a given secret for a recipient.
pub fn encapsulate_secret(recipient_pub: &[u8], shared: &[u8; 32]) -> (r: Vec<u8>)
    ensures
        r@ == encapsulated(recipient_pub@, shared@),
        r@.len() == recipient_pub@.len(),
        forall|i: int| 0 <= i < r@.len() ==> r@[i] == recipient_pub@[i] ^ shared@[i % 32],
{
    let mut ct: Vec<u8> = Vec::new();
    let mut i: usize = 0;
    while i < recipient_pub.len()
        invariant
            0 <= i <= recipient_pub@.len(),
            ct@.len() == i,
            forall|j: int| 0 <= j < i ==> ct@[j] == recipient_pub@[j] ^ shared@[j % 32],
        decreases recipient_pub@.len() - i,
    {
        ct.push(recipient_pub[i] ^ shared[i % 32]);
        i = i + 1;
    }
    assert(ct@ =~= encapsulated(recipient_pub@, shared@));
    ct
}

/// Encapsulates a random secret for a recipient. The result is the ciphertext and the secret.
pub fn encapsulate_placeholder(recipient_pub: &[u8]) -> (r: Result<(Vec<u8>, SymKey), CryptoError>)
    ensures
        if recipient_pub@.len() == 0 {
            r matches Err(CryptoError::Input(m)) && m@ == "empty recipient pubkey"@
        } else {
            r matches Ok(p) && p.0@ == encapsulated(recipient_pub@, p.1.0@)
        },
{
    if recipient_pub.len() == 0 {
        return Err(CryptoError::Input("empty recipient pubkey"));
    }
    let shared = thread_random_32();
    let ct = encapsulate_secret(recipient_pub, &shared);
    Ok((ct, SymKey(shared)))
}

/// Reads the secret from a ciphertext. A ciphertext whose length is not that of the public key is
/// refused.
pub fn decapsulate_placeholder(recipient_pub: &[u8], ciphertext: &[u8]) -> (r: Result<
    SymKey,
    CryptoError,
>)
    ensures
        if ciphertext@.len() != recipient_pub@.len() {
            r == Err::<SymKey, CryptoError>(CryptoError::Kem)
        } else {
            r matches Ok(k) && k.0@ == decapsulated(recipient_pub@, ciphertext@)
        },
{
    if ciphertext.len() != recipient_pub.len() {
        return Err(CryptoError::Kem);
    }
    let mut shared: [u8; 32] = [0u8; 32];
    let mut i: usize = 0;
    while i < recipient_pub.len()
        invariant
            ciphertext@.len() == recipient_pub@.len(),
            0 <= i <= recipient_pub@.len(),
            forall|j: int|
                0 <= j < 32 ==> #[trigger] shared@[j] == folded(
                    recipient_pub@,
                    ciphertext@,
                    j,
                    i as int,
                ),
        decreases recipient_pub@.len() - i,
    {
        let at: usize = i % 32;
        let ghost prior = shared@;
        shared[at] = shared[at] ^ (ciphertext[i] ^ recipient_pub[i]);
        assert forall|j: int| 0 <= j < 32 implies #[trigger] shared@[j] == folded(
            recipient_pub@,
            ciphertext@,
            j,
            i + 1,
        ) by {
            assert(prior[j] == folded(recipient_pub@, ciphertext@, j, i as int));
        }
        i = i + 1;
    }
    assert(shared@ =~= decapsulated(recipient_pub@, ciphertext@));
    Ok(SymKey(shared))
}

proof fn lemma_folded(recipient: Seq<u8>, shared: Seq<u8>, j: int, n: int)
    requires
        shared.len() == 32,
        0 <= n <= recipient.len(),
        0 <= j < 32,
    ensures
        folded(recipient, encapsulated(recipient, shared), j, n) == (if ((n + 31 - j) / 32) % 2 == 1 {
            shared[j]
        } else {
            0u8
        }),
    decreases n,
{
    if n > 0 {
        lemma_folded(recipient, shared, j, n - 1);
        let a = recipient[n - 1];
        let s = shared[j];
        assert((0u8 ^ ((a ^ s) ^ a)) == s) by (bit_vector);
        assert((s ^ ((a ^ s) ^ a)) == 0u8) by (bit_vector);
        if (n - 1) % 32 == j {
            assert((n + 31 - j) / 32 == (n + 30 - j) / 32 + 1);
        } else {
            assert((n + 31 - j) / 32 == (n + 30 - j) / 32);
        }
    }
}

/// What was encapsulated for a recipient is what the recipient reads, for a public key that is an
/// odd number of 32-byte blocks long; 32 bytes is the usual length.
pub proof fn lemma_kem_round_trip(recipient: Seq<u8>, shared: Seq<u8>)
    requires
        shared.len() == 32,
        recipient.len() % 64 == 32,
    ensures
        decapsulated(recipient, encapsulated(recipient, shared)) == shared,
{
    let n = recipient.len() as int;
    assert forall|j: int| 0 <= j < 32 implies #[trigger] folded(
        recipient,
        encapsulated(recipient, shared),
        j,
        n,
    ) == shared[j] by {
        lemma_folded(recipient, shared, j, n);
        assert((n + 31 - j) / 32 == n / 32);
        assert((n / 32) % 2 == 1);
    }
    assert(decapsulated(recipient, encapsulated(recipient, shared)) =~= shared);
}

/// The secret that a ciphertext of a key's length brings is, for a key of 32 bytes, the two of them
/// combined byte by byte.
pub proof fn lemma_decapsulated_bytes(recipient: Seq<u8>, ciphertext: Seq<u8>, j: int)
    requires
        recipient.len() == 32,
        ciphertext.len() == 32,
        0 <= j < 32,
    ensures
        decapsulated(recipient, ciphertext)[j] == ciphertext[j] ^ recipient[j],
{
    lemma_folded_one(recipient, ciphertext, j, 32);
}

proof fn lemma_folded_one(recipient: Seq<u8>, ciphertext: Seq<u8>, j: int, n: int)
    requires
        0 <= j < 32,
        0 <= n <= 32,
    ensures
        folded(recipient, ciphertext, j, n) == (if n > j {
            ciphertext[j] ^ recipient[j]
        } else {
            0u8
        }),
    decreases n,
{
    if n > 0 {
        lemma_folded_one(recipient, ciphertext, j, n - 1);
        if n - 1 == j {
            let x = ciphertext[j];
            let y = recipient[j];
            assert(0u8 ^ (x ^ y) == x ^ y) by (bit_vector);
        }
    }
}

} // verus!
