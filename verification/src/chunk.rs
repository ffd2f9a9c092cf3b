//! From plaintext to shards and back: split, hash, encrypt, erasure-code.

use vstd::prelude::*;

use crate::bytes::slice_of;
use crate::bytes::to_vec;
use crate::crypto::aead::aead_fits;
use crate::crypto::aead::aead_refusal;
use crate::crypto::aead::aead_sealed;
use crate::crypto::aead::gcm_opened;
use crate::crypto::aead::chacha_opened;
use crate::crypto::aead::decrypt;
use crate::crypto::aead::decrypt_result;
use crate::crypto::aead::encrypt;
use crate::crypto::aead::encrypt_result;
use crate::crypto::aead::random_nonce_12;
use crate::crypto::hash::blake3_digest;
use crate::crypto::hash::chunk_hash;
use crate::crypto::hash::chunk_hash_input;
use crate::crypto::hash::digest;
use crate::crypto::CryptoError;
use crate::crypto::SymKey;
use crate::crypto::aead::chacha_sealed;
use crate::crypto::aead::gcm_sealed;
use crate::ec::cut;
use crate::ec::encode;
use crate::ec::joined;
use crate::ec::lemma_first_shards_are_payload;
use crate::ec::encoded;
use crate::ec::is_rebuild_refusal;
use crate::ec::is_scheme_refusal;
use crate::ec::present;
use crate::ec::rebuildable;
use crate::ec::rebuilt;
use crate::ec::reconstruct;
use crate::ec::shard_views;
use crate::ec::slot_views;
use crate::ec::slots_match;
use crate::ec::EcError;
use crate::types::AeadNonce;
use crate::types::AeadSuite;
use crate::types::AeadTag;
use crate::types::ChunkHash;
use crate::types::ECScheme;
use crate::types::ShardId;

verus! {

/// Why a chunk could not be encoded or decoded.
#[derive(Clone, PartialEq, Eq, Debug)]
pub enum ChunkError {
    Crypto(CryptoError),
    Ec(EcError),
    ShardCount(usize, usize),
}

/// Default size of a chunk: 4 MiB.
pub const DEFAULT_CHUNK_BYTES: usize = 4194304;

/// A payload in pieces of `size` bytes, the last of which may be shorter. An empty payload is one
/// empty piece.
pub open spec fn pieces(payload: Seq<u8>, size: nat) -> Seq<Seq<u8>>
    decreases payload.len(),
{
    if size == 0 || payload.len() <= size {
        seq![payload]
    } else {
        seq![payload.take(size as int)] + pieces(payload.skip(size as int), size)
    }
}

/// All pieces behind one another.
pub open spec fn pieces_joined(p: Seq<Seq<u8>>) -> Seq<u8>
    decreases p.len(),
{
    if p.len() == 0 {
        Seq::empty()
    } else {
        p[0] + pieces_joined(p.drop_first())
    }
}

/// The pieces of a payload, behind one another, are the payload; each but the last is full, and
/// the last is not empty unless the payload is.
pub proof fn lemma_pieces(payload: Seq<u8>, size: nat)
    requires
        size > 0,
    ensures
        pieces_joined(pieces(payload, size)) == payload,
        pieces(payload, size).len() >= 1,
        forall|i: int| 0 <= i < pieces(payload, size).len() - 1 ==> (#[trigger] pieces(payload, size)[i]).len()
            == size,
        pieces(payload, size).last().len() <= size,
        payload.len() > 0 ==> pieces(payload, size).last().len() > 0,
    decreases payload.len(),
{
    let p = pieces(payload, size);
    if payload.len() <= size {
        assert(p.drop_first() =~= Seq::<Seq<u8>>::empty());
        assert(pieces_joined(p.drop_first()) == Seq::<u8>::empty());
        assert(pieces_joined(p) =~= payload);
    } else {
        let rest = payload.skip(size as int);
        lemma_pieces(rest, size);
        assert(p.drop_first() =~= pieces(rest, size));
        assert(pieces_joined(p) =~= payload);
        assert forall|i: int| 0 <= i < p.len() - 1 implies (#[trigger] p[i]).len() == size by {
            if i > 0 {
                assert(p[i] == pieces(rest, size)[i - 1]);
            }
        }
        assert(p.last() == pieces(rest, size).last());
    }
}

/// Splits a payload into pieces of `chunk_bytes` bytes and numbers them.
pub fn split_fixed(payload: &[u8], chunk_bytes: usize) -> (r: Vec<(Vec<u8>, u64)>)
    requires
        chunk_bytes > 0,
    ensures
        r@.len() == pieces(payload@, chunk_bytes as nat).len(),
        forall|i: int|
            0 <= i < r@.len() ==> (#[trigger] r@[i]).0@ == pieces(payload@, chunk_bytes as nat)[i]
                && r@[i].1 == i,
{
    let ghost all = pieces(payload@, chunk_bytes as nat);
    let mut out: Vec<(Vec<u8>, u64)> = Vec::new();
    let mut off: usize = 0;
    let mut idx: u64 = 0;
    assert(payload@.skip(0) =~= payload@);
    while payload.len() - off > chunk_bytes
        invariant
            chunk_bytes > 0,
            0 <= off <= payload@.len(),
            idx <= off,
            out@.len() == idx,
            all == pieces(payload@, chunk_bytes as nat),
            all.len() == idx + pieces(payload@.skip(off as int), chunk_bytes as nat).len(),
            forall|i: int| idx <= i < all.len() ==> #[trigger] all[i] == pieces(
                payload@.skip(off as int),
                chunk_bytes as nat,
            )[i - idx],
            forall|i: int|
                0 <= i < out@.len() ==> (#[trigger] out@[i]).0@ == all[i] && out@[i].1 == i,
        decreases payload@.len() - off,
    {
        let ghost rest = payload@.skip(off as int);
        let piece = slice_of(payload, off, off + chunk_bytes);
        assert(piece@ =~= rest.take(chunk_bytes as int));
        assert(rest.skip(chunk_bytes as int) =~= payload@.skip(off + chunk_bytes));
        let ghost q = pieces(rest, chunk_bytes as nat);
        let ghost q2 = pieces(payload@.skip(off + chunk_bytes), chunk_bytes as nat);
        assert(q =~= seq![rest.take(chunk_bytes as int)] + q2);
        assert forall|i: int| idx + 1 <= i < all.len() implies #[trigger] all[i] == q2[i - (idx
            + 1)] by {
            assert(all[i] == q[i - idx]);
        }
        assert(all[idx as int] == q[0]);
        out.push((piece, idx));
        off = off + chunk_bytes;
        idx = idx + 1;
    }
    let piece = slice_of(payload, off, payload.len());
    assert(piece@ =~= payload@.skip(off as int));
    assert(all[idx as int] == pieces(payload@.skip(off as int), chunk_bytes as nat)[0]);
    out.push((piece, idx));
    out
}

/// The digest that names a chunk of plaintext within a vault.
pub fn hash(plaintext: &[u8], vault_salt: Option<&[u8]>) -> (r: ChunkHash)
    ensures
        r.0@ == blake3_digest(chunk_hash_input(plaintext@, vault_salt)),
        vault_salt is None ==> r.0@ == blake3_digest(plaintext@),
        vault_salt matches Some(salt) ==> r.0@ == blake3_digest(salt@ + plaintext@),
{
    chunk_hash(plaintext, vault_salt)
}

/// The digest that names a shard of a chunk.
pub open spec fn shard_id_spec(chunk_hash: Seq<u8>, shard_index: u8) -> Seq<u8> {
    blake3_digest(chunk_hash.push(shard_index))
}

/// The identifier of a shard, from its chunk and its index.
pub fn shard_id_for(chunk_hash: ChunkHash, shard_index: u8) -> (r: ShardId)
    ensures
        r.0@ == shard_id_spec(chunk_hash.0@, shard_index),
        r.0@ == blake3_digest(chunk_hash.0@.push(shard_index)),
{
    let mut input = to_vec(&chunk_hash.0);
    input.push(shard_index);
    ShardId(digest(&input))
}

/// A chunk after encryption and erasure coding.
#[derive(Clone, Debug)]
pub struct EncodedChunk {
    pub chunk_hash: ChunkHash,
    pub ec_scheme: ECScheme,
    pub nonce: AeadNonce,
    pub tag: AeadTag,
    pub ciphertext_length: u64,
    pub plaintext_length: u64,
    pub shards: Vec<EncodedShard>,
}

/// One shard of an encoded chunk.
#[derive(Clone, Debug)]
pub struct EncodedShard {
    pub shard_id: ShardId,
    pub shard_index: u8,
    pub ciphertext: Vec<u8>,
}

/// The associated data that binds a ciphertext to its chunk: the chunk's digest and `0xFF`.
pub open spec fn chunk_aad(chunk_hash: Seq<u8>) -> Seq<u8> {
    chunk_hash.push(0xFFu8)
}

/// Different chunks have different associated data.
pub proof fn lemma_chunk_aads_apart(a: Seq<u8>, b: Seq<u8>)
    requires
        a != b,
    ensures
        chunk_aad(a) != chunk_aad(b),
{
    assert(chunk_aad(a).drop_last() =~= a);
    assert(chunk_aad(b).drop_last() =~= b);
}

fn aad_bytes(chunk_hash: ChunkHash) -> (r: Vec<u8>)
    ensures
        r@ == chunk_aad(chunk_hash.0@),
{
    let mut v = to_vec(&chunk_hash.0);
    v.push(0xFFu8);
    v
}

/// The contents of a row of encoded shards.
pub open spec fn shard_bytes(shards: Seq<EncodedShard>) -> Seq<Seq<u8>> {
    shards.map_values(|s: EncodedShard| s.ciphertext@)
}

/// Whether `c` is the encoding of a plaintext with the nonce that `c` holds: the shards are the
/// erasure coding of the ciphertext, each with its index and identifier, and the tag is the
/// ciphertext's.
pub open spec fn is_encoding(
    c: EncodedChunk,
    plaintext: Seq<u8>,
    chunk_hash: ChunkHash,
    key: Seq<u8>,
    suite: AeadSuite,
    scheme: ECScheme,
) -> bool {
    let sealed = aead_sealed(suite, key, c.nonce.bytes(), plaintext, chunk_aad(chunk_hash.0@));
    let len = plaintext.len() as int;
    &&& sealed.len() == len + 16
    &&& c.chunk_hash == chunk_hash
    &&& c.ec_scheme == scheme
    &&& c.tag.0@ == sealed.skip(len)
    &&& c.ciphertext_length == len
    &&& c.plaintext_length == len
    &&& c.shards@.len() == scheme.n
    &&& shard_bytes(c.shards@) == encoded(scheme, sealed.take(len))
    &&& forall|i: int|
        0 <= i < c.shards@.len() ==> (#[trigger] c.shards@[i]).shard_index == i
            && c.shards@[i].shard_id.0@ == shard_id_spec(chunk_hash.0@, i as u8)
}

/// What encoding gives for a nonce: the cipher's refusal, the scheme's refusal, or the encoding.
pub open spec fn encode_result(
    plaintext: Seq<u8>,
    chunk_hash: ChunkHash,
    key: Seq<u8>,
    nonce: AeadNonce,
    suite: AeadSuite,
    scheme: ECScheme,
    r: Result<EncodedChunk, ChunkError>,
) -> bool {
    if aead_refusal(suite, nonce) is Some || !aead_fits(suite, plaintext.len(), 33) {
        r matches Err(ChunkError::Crypto(e)) && encrypt_result(
            suite,
            key,
            nonce,
            plaintext,
            chunk_aad(chunk_hash.0@),
            Err(e),
        )
    } else if scheme.k == 0 || scheme.k > scheme.n {
        r matches Err(ChunkError::Ec(e)) && is_scheme_refusal(scheme, e)
    } else {
        r matches Ok(c) && c.nonce == nonce && is_encoding(
            c,
            plaintext,
            chunk_hash,
            key,
            suite,
            scheme,
        )
    }
}

/// Encrypts a chunk with a given nonce and erasure-codes the ciphertext.
pub fn encode_with_nonce(
    plaintext: &[u8],
    chunk_hash: ChunkHash,
    chunk_key: &SymKey,
    nonce: AeadNonce,
    suite: AeadSuite,
    scheme: ECScheme,
) -> (r: Result<EncodedChunk, ChunkError>)
    ensures
        encode_result(plaintext@, chunk_hash, chunk_key.0@, nonce, suite, scheme, r),
        r matches Ok(c) ==> (nonce matches AeadNonce::N12(n) && {
            let ct = cut(joined(shard_bytes(c.shards@), scheme.k as int), plaintext@.len());
            let aad = chunk_hash.0@.push(0xFFu8);
            &&& c.chunk_hash == chunk_hash
            &&& c.ec_scheme == scheme
            &&& c.nonce == nonce
            &&& c.plaintext_length == plaintext@.len()
            &&& c.ciphertext_length == plaintext@.len()
            &&& c.shards@.len() == scheme.n
            &&& forall|i: int|
                #![trigger c.shards@[i]]
                0 <= i < scheme.n ==> c.shards@[i].shard_index == i && c.shards@[i].shard_id.0@
                    == blake3_digest(chunk_hash.0@.push(i as u8))
            &&& ct.len() == plaintext@.len()
            &&& suite == AeadSuite::ChaCha20Poly1305 ==> ct + c.tag.0@ == chacha_sealed(
                chunk_key.0@,
                n@,
                plaintext@,
                aad,
            )
            &&& suite == AeadSuite::Aes256Gcm ==> ct + c.tag.0@ == gcm_sealed(
                chunk_key.0@,
                n@,
                plaintext@,
                aad,
            )
        }),
{
    let aad = aad_bytes(chunk_hash);
    let (ciphertext, tag) = match encrypt(suite, chunk_key, &nonce, plaintext, &aad) {
        Ok(p) => p,
        Err(e) => {
            return Err(ChunkError::Crypto(e));
        },
    };
    let ghost sealed = aead_sealed(suite, chunk_key.0@, nonce.bytes(), plaintext@, aad@);
    let ghost len = plaintext@.len() as int;
    assert(sealed.take(len) =~= ciphertext@);
    assert(sealed.skip(len) =~= tag.0@);
    let raw = match encode(scheme, &ciphertext) {
        Ok(s) => s,
        Err(e) => {
            return Err(ChunkError::Ec(e));
        },
    };
    let ghost raw_views = shard_views(raw@);
    let mut shards: Vec<EncodedShard> = Vec::new();
    let mut i: usize = 0;
    while i < raw.len()
        invariant
            0 <= i <= raw@.len() <= 255,
            raw_views == shard_views(raw@),
            shards@.len() == i,
            forall|j: int|
                0 <= j < i ==> (#[trigger] shards@[j]).shard_index == j && shards@[j].shard_id.0@
                    == shard_id_spec(chunk_hash.0@, j as u8) && shards@[j].ciphertext@ == raw_views[j],
        decreases raw@.len() - i,
    {
        let idx: u8 = i as u8;
        shards.push(
            EncodedShard {
                shard_id: shard_id_for(chunk_hash, idx),
                shard_index: idx,
                ciphertext: to_vec(&raw[i]),
            },
        );
        i = i + 1;
    }
    assert(shard_bytes(shards@) =~= raw_views);
    proof {
        lemma_first_shards_are_payload(scheme, ciphertext@);
    }
    Ok(
        EncodedChunk {
            chunk_hash,
            ec_scheme: scheme,
            nonce,
            tag,
            ciphertext_length: ciphertext.len() as u64,
            plaintext_length: plaintext.len() as u64,
            shards,
        },
    )
}

/// Encrypts a chunk with a random nonce and erasure-codes the ciphertext. The result is the
/// encoding for some 12-byte nonce. The salt is not used yet.
pub fn encrypt_and_encode(
    plaintext: &[u8],
    chunk_hash: ChunkHash,
    chunk_key: &SymKey,
    suite: AeadSuite,
    scheme: ECScheme,
    vault_salt_for_aad: Option<&[u8]>,
) -> (r: Result<EncodedChunk, ChunkError>)
    ensures
        exists|nonce: AeadNonce|
            nonce is N12 && encode_result(
                plaintext@,
                chunk_hash,
                chunk_key.0@,
                nonce,
                suite,
                scheme,
                r,
            ),
{
    let _reserved: Option<&[u8]> = vault_salt_for_aad;
    let nonce = random_nonce_12();
    encode_with_nonce(plaintext, chunk_hash, chunk_key, nonce, suite, scheme)
}

/// Rebuilds the ciphertext of a chunk from its shards and decrypts it. Any `k` shards of a
/// chunk's encoding, with its nonce and tag, give the plaintext back.
pub fn reconstruct_and_decrypt(
    shards: Vec<Option<Vec<u8>>>,
    chunk_hash: ChunkHash,
    chunk_key: &SymKey,
    nonce: &AeadNonce,
    tag: &AeadTag,
    suite: AeadSuite,
    scheme: ECScheme,
    ciphertext_length: u64,
) -> (r: Result<Vec<u8>, ChunkError>)
    requires
        ciphertext_length <= usize::MAX,
    ensures
        if !rebuildable(scheme, slot_views(shards@), ciphertext_length as nat) {
            r matches Err(ChunkError::Ec(e)) && is_rebuild_refusal(scheme, slot_views(shards@), e)
        } else {
            let ct = rebuilt(scheme, slot_views(shards@), ciphertext_length as nat);
            match r {
                Ok(p) => decrypt_result(
                    suite,
                    chunk_key.0@,
                    *nonce,
                    ct,
                    tag.0@,
                    chunk_aad(chunk_hash.0@),
                    Ok(p),
                ),
                Err(ChunkError::Crypto(e)) => decrypt_result(
                    suite,
                    chunk_key.0@,
                    *nonce,
                    ct,
                    tag.0@,
                    chunk_aad(chunk_hash.0@),
                    Err(e),
                ),
                _ => false,
            }
        },
        forall|c: EncodedChunk, plaintext: Seq<u8>|
            #[trigger] is_encoding(c, plaintext, chunk_hash, chunk_key.0@, suite, scheme) && 1
                <= scheme.k <= scheme.n && c.nonce == *nonce && c.tag == *tag && c.ciphertext_length
                == ciphertext_length && aead_refusal(suite, *nonce) is None && aead_fits(
                suite,
                plaintext.len(),
                33,
            ) && slots_match(slot_views(shards@), shard_bytes(c.shards@)) && present(
                slot_views(shards@),
            ) >= scheme.k ==> (r matches Ok(p) && p@ == plaintext),
        r matches Ok(p) ==> suite == AeadSuite::ChaCha20Poly1305 ==> chacha_opened(
            chunk_key.0@,
            nonce.bytes(),
            rebuilt(scheme, slot_views(shards@), ciphertext_length as nat) + tag.0@,
            chunk_hash.0@.push(0xFFu8),
        ) == Some(p@),
        r matches Ok(p) ==> suite == AeadSuite::Aes256Gcm ==> gcm_opened(
            chunk_key.0@,
            nonce.bytes(),
            rebuilt(scheme, slot_views(shards@), ciphertext_length as nat) + tag.0@,
            chunk_hash.0@.push(0xFFu8),
        ) == Some(p@),
{
    let ghost views = slot_views(shards@);
    let aad = aad_bytes(chunk_hash);
    let rebuilt_ct = reconstruct(scheme, shards, ciphertext_length as usize);
    proof {
        assert forall|c: EncodedChunk, plaintext: Seq<u8>|
            #[trigger] is_encoding(c, plaintext, chunk_hash, chunk_key.0@, suite, scheme) && 1
                <= scheme.k <= scheme.n && c.nonce == *nonce && c.tag == *tag && c.ciphertext_length
                == ciphertext_length && slots_match(views, shard_bytes(c.shards@)) && present(views)
                >= scheme.k implies rebuilt_ct is Ok && ({
            let sealed = aead_sealed(suite, chunk_key.0@, nonce.bytes(), plaintext, aad@);
            rebuilt_ct.unwrap()@ == sealed.take(plaintext.len() as int) && rebuilt_ct.unwrap()@
                + tag.0@ == sealed
        }) by {
            let sealed = aead_sealed(suite, chunk_key.0@, nonce.bytes(), plaintext, aad@);
            let ct = sealed.take(plaintext.len() as int);
            assert(slots_match(views, encoded(scheme, ct)));
            assert(ct + sealed.skip(plaintext.len() as int) =~= sealed);
        }
    }
    match rebuilt_ct {
        Ok(ciphertext) => match decrypt(suite, chunk_key, nonce, &ciphertext, tag, &aad) {
            Ok(p) => Ok(p),
            Err(e) => Err(ChunkError::Crypto(e)),
        },
        Err(e) => Err(ChunkError::Ec(e)),
    }
}

/// What packing a small payload gives for a nonce.
pub open spec fn pack_result(
    plaintext: Seq<u8>,
    key: Seq<u8>,
    suite: AeadSuite,
    chunk_hash: ChunkHash,
    nonce: AeadNonce,
    r: Result<(Vec<u8>, AeadNonce, AeadTag), ChunkError>,
) -> bool {
    match r {
        Ok(p) => p.1 == nonce && encrypt_result(
            suite,
            key,
            nonce,
            plaintext,
            chunk_aad(chunk_hash.0@),
            Ok((p.0, p.2)),
        ),
        Err(ChunkError::Crypto(e)) => encrypt_result(
            suite,
            key,
            nonce,
            plaintext,
            chunk_aad(chunk_hash.0@),
            Err(e),
        ),
        _ => false,
    }
}

/// Encrypts a payload that is small enough to live inside its file record, with a given nonce.
pub fn pack_inline_with_nonce(
    plaintext: &[u8],
    file_key: &SymKey,
    suite: AeadSuite,
    chunk_hash: ChunkHash,
    nonce: AeadNonce,
) -> (r: Result<(Vec<u8>, AeadNonce, AeadTag), ChunkError>)
    ensures
        pack_result(plaintext@, file_key.0@, suite, chunk_hash, nonce, r),
        r matches Ok(p) ==> (nonce matches AeadNonce::N12(n) && p.1 == nonce && p.0@.len()
            == plaintext@.len() && (suite == AeadSuite::ChaCha20Poly1305 ==> p.0@ + p.2.0@
            == chacha_sealed(file_key.0@, n@, plaintext@, chunk_hash.0@.push(0xFFu8))) && (suite
            == AeadSuite::Aes256Gcm ==> p.0@ + p.2.0@ == gcm_sealed(
            file_key.0@,
            n@,
            plaintext@,
            chunk_hash.0@.push(0xFFu8),
        ))),
{
    let aad = aad_bytes(chunk_hash);
    match encrypt(suite, file_key, &nonce, plaintext, &aad) {
        Ok((ct, tag)) => Ok((ct, nonce, tag)),
        Err(e) => Err(ChunkError::Crypto(e)),
    }
}

/// Encrypts a payload that is small enough to live inside its file record, with a random nonce.
pub fn pack_inline(plaintext: &[u8], file_key: &SymKey, suite: AeadSuite, chunk_hash: ChunkHash) -> (r:
    Result<(Vec<u8>, AeadNonce, AeadTag), ChunkError>)
    ensures
        exists|nonce: AeadNonce|
            nonce is N12 && pack_result(plaintext@, file_key.0@, suite, chunk_hash, nonce, r),
{
    let nonce = random_nonce_12();
    pack_inline_with_nonce(plaintext, file_key, suite, chunk_hash, nonce)
}

/// Decrypts an inline payload. What `pack_inline` made of a plaintext gives the plaintext back.
pub fn unpack_inline(
    ciphertext: &[u8],
    file_key: &SymKey,
    nonce: &AeadNonce,
    tag: &AeadTag,
    suite: AeadSuite,
    chunk_hash: ChunkHash,
) -> (r: Result<Vec<u8>, ChunkError>)
    ensures
        match r {
            Ok(p) => decrypt_result(
                suite,
                file_key.0@,
                *nonce,
                ciphertext@,
                tag.0@,
                chunk_aad(chunk_hash.0@),
                Ok(p),
            ),
            Err(ChunkError::Crypto(e)) => decrypt_result(
                suite,
                file_key.0@,
                *nonce,
                ciphertext@,
                tag.0@,
                chunk_aad(chunk_hash.0@),
                Err(e),
            ),
            _ => false,
        },
        forall|plaintext: Seq<u8>, ct: Vec<u8>|
            ct@ == ciphertext@ && #[trigger] pack_result(
                plaintext,
                file_key.0@,
                suite,
                chunk_hash,
                *nonce,
                Ok((ct, *nonce, *tag)),
            ) ==> (r matches Ok(p) && p@ == plaintext),
        r matches Ok(p) ==> suite == AeadSuite::ChaCha20Poly1305 ==> chacha_opened(
            file_key.0@,
            nonce.bytes(),
            ciphertext@ + tag.0@,
            chunk_hash.0@.push(0xFFu8),
        ) == Some(p@),
        r matches Ok(p) ==> suite == AeadSuite::Aes256Gcm ==> gcm_opened(
            file_key.0@,
            nonce.bytes(),
            ciphertext@ + tag.0@,
            chunk_hash.0@.push(0xFFu8),
        ) == Some(p@),
{
    let aad = aad_bytes(chunk_hash);
    match decrypt(suite, file_key, nonce, ciphertext, tag, &aad) {
        Ok(p) => Ok(p),
        Err(e) => Err(ChunkError::Crypto(e)),
    }
}

/// Different chunks, and different shards of a chunk, are named after different inputs.
pub proof fn lemma_shard_names_apart(a: ChunkHash, i: u8, b: ChunkHash, j: u8)
    requires
        a.0@.push(i) == b.0@.push(j),
    ensures
        a.0@ == b.0@,
        i == j,
{
    let s = a.0@.push(i);
    assert(s.take(32) =~= a.0@);
    assert(s.take(32) =~= b.0@);
    assert(s[32] == i && s[32] == j);
}

/// Where a payload is cut: piece `i` is the run of the payload that begins at `i` times the size.
pub proof fn lemma_piece_is_run(payload: Seq<u8>, size: nat, i: int)
    requires
        size > 0,
        0 <= i < pieces(payload, size).len(),
    ensures
        i * size <= payload.len(),
        pieces(payload, size)[i] == payload.subrange(
            i * size,
            if (i + 1) * size <= payload.len() {
                (i + 1) * size
            } else {
                payload.len() as int
            },
        ),
        i < pieces(payload, size).len() - 1 <==> (i + 1) * size < payload.len(),
    decreases payload.len(),
{
    if payload.len() <= size {
        assert(pieces(payload, size) =~= seq![payload]);
        assert(payload.subrange(0, payload.len() as int) =~= payload);
        assert(i == 0);
        assert((0 + 1) * size == size) by (nonlinear_arith);
    } else {
        let rest = payload.skip(size as int);
        let tail = pieces(rest, size);
        assert(pieces(payload, size) =~= seq![payload.take(size as int)] + tail);
        if i == 0 {
            assert((0 + 1) * size == size && 0 * size == 0) by (nonlinear_arith);
            assert(payload.take(size as int) =~= payload.subrange(0, size as int));
            assert(tail.len() >= 1);
        } else {
            lemma_piece_is_run(rest, size, i - 1);
            assert((i - 1) * size + size == i * size && ((i - 1) + 1) * size + size == (i + 1) * size)
                by (nonlinear_arith);
            assert(pieces(payload, size)[i] == tail[i - 1]);
            let end = if (i + 1) * size <= payload.len() {
                (i + 1) * size
            } else {
                payload.len() as int
            };
            assert(rest.subrange((i - 1) * size, end - size) =~= payload.subrange(i * size, end));
        }
    }
}

/// The shards of a chunk are told by their bytes, each in its place.
pub proof fn lemma_shards_told(shards: Seq<EncodedShard>, i: int)
    requires
        0 <= i < shards.len(),
    ensures
        shard_bytes(shards).len() == shards.len(),
        shard_bytes(shards)[i] == shards[i].ciphertext@,
{
}

} // verus!
