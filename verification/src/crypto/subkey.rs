//! Purpose-bound subkeys.

use vstd::prelude::*;
use vstd::utf8::*;

use super::CryptoError;
use super::SymKey;
use crate::bytes::append;
use crate::bytes::be64;
use crate::bytes::be64_bytes;
use crate::bytes::to_vec;
use crate::types::KeyPurpose;

verus! {

/// Names the 32-byte HKDF-SHA256 output for a key and an info string, without a salt.
pub uninterp spec fn hkdf_sha256_output(key: Seq<u8>, info: Seq<u8>) -> Seq<u8>;

/// `Hkdf::<Sha256>::new` and `expand` of the crates `hkdf` and `sha2`: 32 bytes are within what
/// HKDF-SHA256 can give, so the call always succeeds.
#[verifier::external_body]
fn hkdf_sha256(key: &[u8; 32], info: &[u8]) -> (r: Option<[u8; 32]>)
    ensures
        r is Some,
        r.unwrap()@ == hkdf_sha256_output(key@, info@),
{
    let mut out = [0u8; 32];
    hkdf::Hkdf::<sha2::Sha256>::new(None, key).expand(info, &mut out).ok()?;
    Some(out)
}

/// The info string of a purpose, with the context behind a bar where there is one.
pub open spec fn subkey_info(purpose: KeyPurpose, context: Option<Seq<u8>>) -> Seq<u8> {
    match context {
        Some(c) => purpose.bytes().push(124u8) + c,
        None => purpose.bytes(),
    }
}

/// The subkey of `master` for a purpose and a context.
pub open spec fn subkey(master: Seq<u8>, purpose: KeyPurpose, context: Option<Seq<u8>>) -> Seq<u8> {
    hkdf_sha256_output(master, subkey_info(purpose, context))
}

/// The view of an optional byte slice.
pub open spec fn context_view(context: Option<&[u8]>) -> Option<Seq<u8>> {
    match context {
        Some(c) => Some(c@),
        None => None,
    }
}

/// Derives the subkey of `master` for `purpose`, separated further by `context`. The same
/// arguments give the same key.
pub fn derive_subkey(master: &SymKey, purpose: KeyPurpose, context: Option<&[u8]>) -> (r: Result<
    SymKey,
    CryptoError,
>)
    ensures
        r matches Ok(k) && k.0@ == subkey(master.0@, purpose, context_view(context)),
        context matches Some(c) ==> r.unwrap().0@ == hkdf_sha256_output(
            master.0@,
            encode_utf8(purpose.label()).push(124u8) + c@,
        ),
        context is None ==> r.unwrap().0@ == hkdf_sha256_output(
            master.0@,
            encode_utf8(purpose.label()),
        ),
{
    let mut info = to_vec(purpose.as_bytes());
    if let Some(c) = context {
        info.push(124u8);
        append(&mut info, c);
    }
    match hkdf_sha256(&master.0, &info) {
        Some(k) => Ok(SymKey(k)),
        None => Err(CryptoError::Input("HKDF expand failed")),
    }
}

/// Derives the key of one chunk of a file from the file's key and the chunk's index.
pub fn derive_chunk_key(file_key: &SymKey, chunk_index: u64) -> (r: Result<SymKey, CryptoError>)
    ensures
        r matches Ok(k) && k.0@ == subkey(file_key.0@, KeyPurpose::File, Some(be64(chunk_index))),
        r.unwrap().0@ == hkdf_sha256_output(
            file_key.0@,
            encode_utf8("kp:file"@).push(124u8) + be64(chunk_index),
        ),
{
    let ctx = be64_bytes(chunk_index);
    derive_subkey(file_key, KeyPurpose::File, Some(ctx.as_slice()))
}

/// The info strings of different chunks differ.
pub proof fn lemma_chunk_infos_apart(i: u64, j: u64)
    requires
        i != j,
    ensures
        subkey_info(KeyPurpose::File, Some(be64(i))) != subkey_info(KeyPurpose::File, Some(be64(j))),
{
    let p = KeyPurpose::File.bytes().push(124u8);
    crate::bytes::lemma_be64_round_trip(i);
    crate::bytes::lemma_be64_round_trip(j);
    assert((p + be64(i)).skip(p.len() as int) =~= be64(i));
    assert((p + be64(j)).skip(p.len() as int) =~= be64(j));
}

spec fn is_plain(c: char) -> bool {
    (c as u32) < 0x80 && c as u32 != 124
}

proof fn lemma_label_bytes(p: KeyPurpose)
    ensures
        forall|i: int| 0 <= i < p.bytes().len() ==> p.bytes()[i] != 124u8,
{
    reveal_strlit("kp:file");
    reveal_strlit("kp:share-kem");
    reveal_strlit("kp:vault-salt");
    reveal_strlit("kp:bloom-salt");
    reveal_strlit("kp:cred-wrap");
    reveal_strlit("kp:wal-sign");
    reveal_strlit("kp:snapshot");
    let s = p.label();
    assert forall|i: int| 0 <= i < s.len() implies is_plain(#[trigger] s[i]) by {}
    lemma_plain_bytes(s);
}

proof fn lemma_plain_bytes(s: Seq<char>)
    requires
        forall|i: int| 0 <= i < s.len() ==> is_plain(#[trigger] s[i]),
    ensures
        forall|i: int| 0 <= i < encode_utf8(s).len() ==> encode_utf8(s)[i] != 124u8,
    decreases s.len(),
{
    if s.len() > 0 {
        let rest = s.drop_first();
        assert forall|i: int| 0 <= i < rest.len() implies is_plain(#[trigger] rest[i]) by {
            assert(rest[i] == s[i + 1]);
        }
        lemma_plain_bytes(rest);
        let c = s[0] as u32;
        assert(is_plain(s[0]));
        assert(c < 0x80 && c != 124);
        let head = encode_scalar(c);
        assert(encode_utf8(s) == head + encode_utf8(rest));
        assert(head.len() == 1 && head[0] != 124u8) by {
            assert(c < 0x80 && c != 124 ==> (c & 0x7f) as u8 != 124u8) by (bit_vector);
        }
    }
}

/// What a subkey is derived from tells its purpose and its context: keys for different purposes, or
/// for different contexts, or with and without one, are derived from different inputs.
pub proof fn lemma_subkey_inputs_apart(
    p: KeyPurpose,
    a: Option<Seq<u8>>,
    q: KeyPurpose,
    b: Option<Seq<u8>>,
)
    requires
        subkey_info(p, a) == subkey_info(q, b),
    ensures
        p == q,
        a == b,
{
    lemma_label_bytes(p);
    lemma_label_bytes(q);
    let s = subkey_info(p, a);
    let (m, n) = (p.bytes().len() as int, q.bytes().len() as int);
    assert(s.take(m) =~= p.bytes());
    assert(s.take(n) =~= q.bytes());
    if a is Some {
        assert(s[m] == 124u8);
    }
    if b is Some {
        assert(s[n] == 124u8);
    }
    if m < n {
        if a is Some {
            assert(q.bytes()[m] == s[m]);
        }
        assert(false);
    }
    if n < m {
        if b is Some {
            assert(p.bytes()[n] == s[n]);
        }
        assert(false);
    }
    encode_utf8_decode_utf8(p.label());
    encode_utf8_decode_utf8(q.label());
    assert(p.label() == q.label());
    if p != q {
        crate::types::lemma_purposes_apart(p, q);
    }
    if a is Some {
        assert(s.skip(m + 1) =~= a.unwrap());
    }
    if b is Some {
        assert(s.skip(n + 1) =~= b.unwrap());
    }
}

} // verus!
