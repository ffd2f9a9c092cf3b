//! Shares: a file's key wrapped for one recipient, signed by the owner.
//!
//! The owner signs the encoding of the blob with its signature zeroed; the caller makes that
//! encoding, and keeps the records.

use vstd::prelude::*;
use vstd::utf8::*;

use crate::bytes::append;
use crate::bytes::be128;
use crate::bytes::be64;
use crate::bytes::lemma_be128_round_trip;
use crate::bytes::lemma_be64_round_trip;
use crate::bytes::of_be128;
use crate::bytes::push_be128;
use crate::bytes::push_be64;
use crate::bytes::read_be128;
use crate::bytes::to_vec;
use crate::crypto::aead::aead_fits;
use crate::crypto::aead::aead_sealed;
use crate::crypto::aead::chacha_opened;
use crate::crypto::aead::chacha_sealed;
use crate::crypto::aead::decrypt;
use crate::crypto::aead::decrypt_result;
use crate::crypto::aead::encrypt;
use crate::crypto::aead::random_12;
use crate::crypto::hash::blake3_32;
use crate::crypto::hash::blake3_digest;
use crate::crypto::kem::decapsulate_placeholder;
use crate::crypto::kem::decapsulated;
use crate::crypto::kem::encapsulate_secret;
use crate::crypto::kem::encapsulated;
use crate::crypto::kem::lemma_kem_round_trip;
use crate::crypto::kem::thread_random_32;
use crate::crypto::sig::ed25519_accepts;
use crate::crypto::sig::ed25519_public;
use crate::crypto::sig::ed25519_signature;
use crate::crypto::sig::sign;
use crate::crypto::sig::verify;
use crate::crypto::subkey::derive_subkey;
use crate::crypto::subkey::hkdf_sha256_output;
use crate::crypto::subkey::subkey;
use crate::crypto::subkey::subkey_info;
use crate::crypto::CryptoError;
use crate::crypto::SymKey;
use crate::entities::records::File;
use crate::entities::records::Permission;
use crate::entities::records::Share;
use crate::entities::records::ShareScope;
use crate::entities::records::WrappedKeyRef;
use crate::metadata::backend::read_of;
use crate::metadata::backend::lemma_last_put_wins;
use crate::metadata::backend::ops_applied;
use crate::metadata::backend::value_in;
use crate::metadata::backend::Backend;
use crate::metadata::backend::DbState;
use crate::metadata::backend::Txn;
use crate::metadata::backend::WriteOp;
use crate::metadata::cf::ColumnFamily;
use crate::metadata::store::Store;
use crate::metadata::table::lists_prefix;
use crate::metadata::table::Row;
use crate::metadata::MetadataError;
use crate::types::AeadNonce;
use crate::types::AeadSuite;
use crate::types::AeadTag;
use crate::types::Ed25519Priv;
use crate::types::Ed25519Pub;
use crate::types::Ed25519Sig;
use crate::types::EpochId;
use crate::types::FileId;
use crate::types::KeyPurpose;
use crate::types::MlKemPub;
use crate::types::PeerId;
use crate::types::ShareId;
use crate::types::Timestamp;
use crate::types::WrapScheme;
use crate::types::WrappedKey;

verus! {

/// What an owner hands to a recipient.
#[derive(Clone, PartialEq, Eq, Debug)]
pub struct ShareBlob {
    pub share_id: ShareId,
    pub owner_peer_id: PeerId,
    pub owner_epoch_id: EpochId,
    pub recipient_peer_id: PeerId,
    pub file_id: FileId,
    pub file_key_version: u64,
    pub scope: ShareScope,
    pub permissions: Vec<Permission>,
    pub kem_ciphertext: Vec<u8>,
    pub wrapped_file_key: Vec<u8>,
    pub wrapped_file_key_nonce: AeadNonce,
    pub wrapped_file_key_tag: AeadTag,
    pub created_at: Timestamp,
    pub expires_at: Option<Timestamp>,
    pub signature: Ed25519Sig,
}

/// What a recipient keeps of an accepted share.
#[derive(Clone, PartialEq, Eq, Debug)]
pub struct ReceivedShare {
    pub share_id: ShareId,
    pub owner_peer_id: PeerId,
    pub file_id: FileId,
    pub file_key_version: u64,
    pub scope: ShareScope,
    pub mounted_path: String,
    pub file_key_bytes: Vec<u8>,
    pub accepted_at: Timestamp,
}

/// Why a share was not made, accepted or revoked.
#[derive(Clone, PartialEq, Eq, Debug)]
pub enum ShareError {
    NotFound(ShareId),
    Metadata(String),
    Crypto(CryptoError),
    Vfs(String),
    Encode(String),
    SignatureInvalid,
    RecipientMismatch,
    VaultLocked,
}

/// What an owner asks for.
pub struct CreateShareReq<'a> {
    pub file_id: FileId,
    pub scope: ShareScope,
    pub permissions: Vec<Permission>,
    pub owner_peer_id: PeerId,
    pub owner_epoch_id: EpochId,
    pub owner_sign_priv: &'a Ed25519Priv,
    pub recipient_peer_id: PeerId,
    pub recipient_kem_pub: &'a MlKemPub,
    pub master_key: &'a SymKey,
    pub now: Timestamp,
    pub expires_at: Option<Timestamp>,
}

/// What is drawn at random for a share.
#[derive(Clone, Copy)]
pub struct ShareSeed {
    pub share_id: ShareId,
    pub shared: [u8; 32],
    pub nonce: [u8; 12],
}

impl ShareScope {
    /// A copy of the scope.
    pub fn copied(&self) -> (r: Self)
        ensures
            r == *self,
    {
        match self {
            ShareScope::File(p) => ShareScope::File(p.clone()),
            ShareScope::Folder(p) => ShareScope::Folder(p.clone()),
            ShareScope::Vault => ShareScope::Vault,
        }
    }
}

fn copy_permissions(p: &Vec<Permission>) -> (r: Vec<Permission>)
    ensures
        r@ == p@,
{
    let mut out: Vec<Permission> = Vec::new();
    let mut i: usize = 0;
    while i < p.len()
        invariant
            0 <= i <= p@.len(),
            out@ == p@.take(i as int),
        decreases p@.len() - i,
    {
        out.push(p[i]);
        assert(out@ =~= p@.take(i + 1));
        i = i + 1;
    }
    assert(p@.take(i as int) =~= p@);
    out
}

fn copy_time(t: &Option<Timestamp>) -> (r: Option<Timestamp>)
    ensures
        r == *t,
{
    match t {
        Some(t) => Some(t.copied()),
        None => None,
    }
}

/// The key of a version of a file.
pub open spec fn file_key_of(master: Seq<u8>, file: FileId, version: u64) -> Seq<u8> {
    subkey(master, KeyPurpose::File, Some(be128(file.0) + be64(version)))
}

/// Derives the key of a version of a file from the master key.
pub fn derive_file_key(master: &SymKey, file: FileId, version: u64) -> (r: Result<
    SymKey,
    CryptoError,
>)
    ensures
        r matches Ok(k) && k.0@ == file_key_of(master.0@, file, version),
        r.unwrap().0@ == hkdf_sha256_output(
            master.0@,
            encode_utf8("kp:file"@).push(124u8) + (be128(file.0) + be64(version)),
        ),
{
    let mut ctx: Vec<u8> = Vec::new();
    push_be128(&mut ctx, file.0);
    push_be64(&mut ctx, version);
    assert(ctx@ =~= be128(file.0) + be64(version));
    derive_subkey(master, KeyPurpose::File, Some(ctx.as_slice()))
}

/// The keys of two files, or of two versions of one, are derived from different inputs.
pub proof fn lemma_file_keys_apart(f: FileId, v: u64, g: FileId, w: u64)
    requires
        f != g || v != w,
    ensures
        subkey_info(KeyPurpose::File, Some(be128(f.0) + be64(v))) != subkey_info(
            KeyPurpose::File,
            Some(be128(g.0) + be64(w)),
        ),
{
    let p = KeyPurpose::File.bytes().push(124u8);
    let a = be128(f.0) + be64(v);
    let b = be128(g.0) + be64(w);
    lemma_be128_round_trip(f.0);
    lemma_be128_round_trip(g.0);
    lemma_be64_round_trip(v);
    lemma_be64_round_trip(w);
    assert((p + a).skip(p.len() as int) =~= a);
    assert((p + b).skip(p.len() as int) =~= b);
    assert(a.take(16) =~= be128(f.0));
    assert(b.take(16) =~= be128(g.0));
    assert(a.skip(16) =~= be64(v));
    assert(b.skip(16) =~= be64(w));
}

/// What a wrapped file key is bound to: the file, the version and the recipient.
pub open spec fn wrap_binding(file: FileId, version: u64, recipient: Seq<char>) -> Seq<u8> {
    encode_utf8("share-wrap:"@) + be128(file.0) + be64(version) + encode_utf8(recipient)
}

fn wrap_aad(file: FileId, version: u64, recipient: &PeerId) -> (r: Vec<u8>)
    ensures
        r@ == wrap_binding(file, version, recipient.0@),
{
    let mut v = to_vec("share-wrap:".as_bytes());
    push_be128(&mut v, file.0);
    push_be64(&mut v, version);
    append(&mut v, recipient.0.as_str().as_bytes());
    v
}

/// A wrap for one file, version and recipient is bound to nothing else: two bindings are equal
/// only where all three are.
pub proof fn lemma_wraps_apart(
    f1: FileId,
    v1: u64,
    r1: Seq<char>,
    f2: FileId,
    v2: u64,
    r2: Seq<char>,
)
    requires
        wrap_binding(f1, v1, r1) == wrap_binding(f2, v2, r2),
    ensures
        f1 == f2,
        v1 == v2,
        r1 == r2,
{
    let head = encode_utf8("share-wrap:"@);
    let n = head.len() as int;
    let a = wrap_binding(f1, v1, r1);
    let b = wrap_binding(f2, v2, r2);
    lemma_be128_round_trip(f1.0);
    lemma_be128_round_trip(f2.0);
    lemma_be64_round_trip(v1);
    lemma_be64_round_trip(v2);
    assert(a.subrange(n, n + 16) =~= be128(f1.0));
    assert(b.subrange(n, n + 16) =~= be128(f2.0));
    assert(a.subrange(n + 16, n + 24) =~= be64(v1));
    assert(b.subrange(n + 16, n + 24) =~= be64(v2));
    assert(a.skip(n + 24) =~= encode_utf8(r1));
    assert(b.skip(n + 24) =~= encode_utf8(r2));
    encode_utf8_decode_utf8(r1);
    encode_utf8_decode_utf8(r2);
}

/// The number under which a recipient's wrapped key stands among those of a file.
pub open spec fn wrap_id(recipient: Seq<char>) -> u128 {
    of_be128(blake3_digest(encode_utf8(recipient)).take(16))
}

fn wrap_id_of(recipient: &PeerId) -> (r: u128)
    ensures
        r == wrap_id(recipient.0@),
{
    let h = blake3_32(recipient.0.as_str().as_bytes());
    let id: u128 = read_be128(&h.0, 0);
    assert(h.0@.subrange(0, 16) =~= h.0@.take(16));
    id
}

/// Whether a blob holds a file key for the owner of a public key, masked by a secret.
pub open spec fn wraps_key(
    blob: ShareBlob,
    kem_pub: Seq<u8>,
    shared: Seq<u8>,
    file_key: Seq<u8>,
) -> bool {
    &&& shared.len() == 32
    &&& blob.kem_ciphertext@ == encapsulated(kem_pub, shared)
    &&& blob.wrapped_file_key_nonce is N12
    &&& file_key.len() == 32
    &&& blob.wrapped_file_key@.len() == 32
    &&& blob.wrapped_file_key@ + blob.wrapped_file_key_tag.0@ == aead_sealed(
        AeadSuite::ChaCha20Poly1305,
        shared,
        blob.wrapped_file_key_nonce.bytes(),
        file_key,
        wrap_binding(blob.file_id, blob.file_key_version, blob.recipient_peer_id.0@),
    )
}

/// Whether a share and its blob, but for the blob's signature, answer a request.
pub open spec fn answers(
    req: CreateShareReq,
    version: u64,
    share_id: ShareId,
    shared: Seq<u8>,
    share: Share,
    blob: ShareBlob,
) -> bool {
    &&& blob.share_id == share_id
    &&& blob.owner_peer_id == req.owner_peer_id
    &&& blob.owner_epoch_id == req.owner_epoch_id
    &&& blob.recipient_peer_id == req.recipient_peer_id
    &&& blob.file_id == req.file_id
    &&& blob.file_key_version == version
    &&& blob.scope == req.scope
    &&& blob.permissions@ == req.permissions@
    &&& blob.created_at == req.now
    &&& blob.expires_at == req.expires_at
    &&& wraps_key(
        blob,
        req.recipient_kem_pub.0@,
        shared,
        file_key_of(req.master_key.0@, req.file_id, version),
    )
    &&& share.share_id == share_id
    &&& share.scope == req.scope
    &&& share.recipient == req.recipient_peer_id
    &&& share.permissions@ == req.permissions@
    &&& share.wrapped_keys_ref == (WrappedKeyRef {
        file_id: req.file_id,
        or_set_add_id: wrap_id(req.recipient_peer_id.0@),
    })
    &&& share.created_at == req.now
    &&& share.expires_at == req.expires_at
    &&& share.revoked_at is None
}

/// Whether a blob is signed with a secret over an encoding.
pub open spec fn signed_with(blob: ShareBlob, canonical: Seq<u8>, secret: Seq<u8>) -> bool {
    secret.len() == 32 && blob.signature.0@ == ed25519_signature(secret, canonical)
}

/// Whether blobs differ at most in the signature.
pub open spec fn same_but_signature(a: ShareBlob, b: ShareBlob) -> bool {
    &&& a.share_id == b.share_id
    &&& a.owner_peer_id == b.owner_peer_id
    &&& a.owner_epoch_id == b.owner_epoch_id
    &&& a.recipient_peer_id == b.recipient_peer_id
    &&& a.file_id == b.file_id
    &&& a.file_key_version == b.file_key_version
    &&& a.scope == b.scope
    &&& a.permissions@ == b.permissions@
    &&& a.kem_ciphertext@ == b.kem_ciphertext@
    &&& a.wrapped_file_key@ == b.wrapped_file_key@
    &&& a.wrapped_file_key_nonce == b.wrapped_file_key_nonce
    &&& a.wrapped_file_key_tag == b.wrapped_file_key_tag
    &&& a.created_at == b.created_at
    &&& a.expires_at == b.expires_at
}

/// Whether `u` is a blob with its signature zeroed, and so what the owner signs: every other field
/// is part of it.
pub open spec fn is_unsigned(u: ShareBlob, b: ShareBlob) -> bool {
    same_but_signature(u, b) && u.signature.0@ == Seq::new(64, |i: int| 0u8)
}

/// Whether an encoder gives these bytes, or this failure, for a blob with its signature zeroed.
pub open spec fn blob_encodes<F: Fn(ShareBlob) -> Result<Vec<u8>, String>>(
    encode: F,
    blob: ShareBlob,
    r: Result<Vec<u8>, String>,
) -> bool {
    exists|u: ShareBlob| is_unsigned(u, blob) && #[trigger] encode.ensures((u,), r)
}

/// Whether an encoder gives blobs that differ at most in the signature, once that is zeroed, the
/// same bytes every time.
pub open spec fn encodes_blobs_alike<F: Fn(ShareBlob) -> Result<Vec<u8>, String>>(encode: F) -> bool {
    forall|a: ShareBlob, b: ShareBlob, x: Result<Vec<u8>, String>, y: Result<Vec<u8>, String>|
        #[trigger] blob_encodes(encode, a, x) && #[trigger] blob_encodes(encode, b, y)
            && same_but_signature(a, b) ==> (x matches Ok(p) ==> (y matches Ok(q) && p@ == q@))
}

/// Whether an encoder tells blobs that differ in more than the signature apart.
pub open spec fn tells_blobs_apart<F: Fn(ShareBlob) -> Result<Vec<u8>, String>>(encode: F) -> bool {
    forall|a: ShareBlob, b: ShareBlob, x: Vec<u8>, y: Vec<u8>|
        #[trigger] blob_encodes(encode, a, Ok(x)) && #[trigger] blob_encodes(encode, b, Ok(y)) && x@
            == y@ ==> same_but_signature(a, b)
}

/// Whether an owner signed a blob: the signature is over the encoding of the blob itself, with the
/// signature zeroed.
pub open spec fn blob_signed<F: Fn(ShareBlob) -> Result<Vec<u8>, String>>(
    encode: F,
    blob: ShareBlob,
    secret: Seq<u8>,
) -> bool {
    exists|b: Vec<u8>| #[trigger] blob_encodes(encode, blob, Ok(b)) && signed_with(blob, b@, secret)
}

/// What an attempt to accept a share comes to, with the encoder of what owners sign.
pub open spec fn accepted<F: Fn(ShareBlob) -> Result<Vec<u8>, String>>(
    encode: F,
    blob: ShareBlob,
    owner: Seq<u8>,
    kem_pub: Seq<u8>,
    mount_path: String,
    now: Timestamp,
    r: Result<ReceivedShare, ShareError>,
) -> bool {
    exists|encoded: Result<Vec<u8>, String>| #[trigger]
        blob_encodes(encode, blob, encoded) && (match encoded {
            Ok(b) => accept_result(blob, b@, owner, kem_pub, mount_path, now, r),
            Err(why) => r == Err::<ReceivedShare, ShareError>(ShareError::Encode(why)),
        })
}

/// What an attempt to accept a share comes to, where its signed bytes are `canonical`.
pub open spec fn accept_result(
    blob: ShareBlob,
    canonical: Seq<u8>,
    owner: Seq<u8>,
    kem_pub: Seq<u8>,
    mount_path: String,
    now: Timestamp,
    r: Result<ReceivedShare, ShareError>,
) -> bool {
    if !ed25519_accepts(owner, canonical, blob.signature.0@) {
        r == Err::<ReceivedShare, ShareError>(ShareError::SignatureInvalid)
    } else if blob.kem_ciphertext@.len() != kem_pub.len() {
        r == Err::<ReceivedShare, ShareError>(ShareError::Crypto(CryptoError::Kem))
    } else {
        exists|opened: Result<Vec<u8>, CryptoError>| #[trigger]
            decrypt_result(
                AeadSuite::ChaCha20Poly1305,
                decapsulated(kem_pub, blob.kem_ciphertext@),
                blob.wrapped_file_key_nonce,
                blob.wrapped_file_key@,
                blob.wrapped_file_key_tag.0@,
                wrap_binding(blob.file_id, blob.file_key_version, blob.recipient_peer_id.0@),
                opened,
            ) && (match opened {
                Err(e) => r == Err::<ReceivedShare, ShareError>(ShareError::Crypto(e)),
                Ok(key) => r == Ok::<ReceivedShare, ShareError>(
                    ReceivedShare {
                        share_id: blob.share_id,
                        owner_peer_id: blob.owner_peer_id,
                        file_id: blob.file_id,
                        file_key_version: blob.file_key_version,
                        scope: blob.scope,
                        mounted_path: mount_path,
                        file_key_bytes: key,
                        accepted_at: now,
                    },
                ),
            })
    }
}

/// Where a received share stands.
pub open spec fn received_at(id: ShareId) -> Seq<u8> {
    encode_utf8("received:"@) + be128(id.0)
}

/// Where a received share stands.
pub fn received_key(id: ShareId) -> (r: Vec<u8>)
    ensures
        r@ == received_at(id),
        r@ == encode_utf8("received:"@) + be128(id.0),
{
    let mut k = to_vec("received:".as_bytes());
    append(&mut k, &id.to_bytes());
    k
}

impl ShareBlob {
    /// The blob with its signature zeroed.
    pub fn unsigned(&self) -> (r: Self)
        ensures
            is_unsigned(r, *self),
            r.share_id == self.share_id && r.owner_peer_id == self.owner_peer_id && r.owner_epoch_id
                == self.owner_epoch_id && r.recipient_peer_id == self.recipient_peer_id && r.file_id
                == self.file_id && r.file_key_version == self.file_key_version && r.scope == self.scope
                && r.permissions@ == self.permissions@ && r.kem_ciphertext@ == self.kem_ciphertext@
                && r.wrapped_file_key@ == self.wrapped_file_key@ && r.wrapped_file_key_nonce
                == self.wrapped_file_key_nonce && r.wrapped_file_key_tag == self.wrapped_file_key_tag
                && r.created_at == self.created_at && r.expires_at == self.expires_at,
    {
        let none: [u8; 64] = [0u8; 64];
        assert(none@ =~= Seq::new(64, |i: int| 0u8));
        ShareBlob {
            share_id: self.share_id,
            owner_peer_id: self.owner_peer_id.copied(),
            owner_epoch_id: self.owner_epoch_id,
            recipient_peer_id: self.recipient_peer_id.copied(),
            file_id: self.file_id,
            file_key_version: self.file_key_version,
            scope: self.scope.copied(),
            permissions: copy_permissions(&self.permissions),
            kem_ciphertext: to_vec(&self.kem_ciphertext),
            wrapped_file_key: to_vec(&self.wrapped_file_key),
            wrapped_file_key_nonce: self.wrapped_file_key_nonce,
            wrapped_file_key_tag: self.wrapped_file_key_tag,
            created_at: self.created_at.copied(),
            expires_at: copy_time(&self.expires_at),
            signature: Ed25519Sig(none),
        }
    }

    /// Encodes the blob with its signature zeroed, which is what the owner signs.
    pub fn canonical_signing_bytes<F: Fn(ShareBlob) -> Result<Vec<u8>, String>>(&self, encode: &F) -> (r:
        Result<Vec<u8>, ShareError>)
        requires
            forall|b: ShareBlob| #[trigger] encode.requires((b,)),
        ensures
            match r {
                Ok(b) => blob_encodes(*encode, *self, Ok(b)),
                Err(e) => e matches ShareError::Encode(why) && blob_encodes(
                    *encode,
                    *self,
                    Err(why),
                ),
            },
    {
        let u = self.unsigned();
        let ghost g = u;
        let encoded = encode(u);
        assert(encode.ensures((g,), encoded));
        assert(blob_encodes(*encode, *self, encoded));
        match encoded {
            Ok(b) => Ok(b),
            Err(why) => Err(ShareError::Encode(why)),
        }
    }

    /// The blob, signed by its owner.
    pub fn signed<F: Fn(ShareBlob) -> Result<Vec<u8>, String>>(self, encode: F, key: &Ed25519Priv) -> (r:
        Result<Self, ShareError>)
        requires
            forall|b: ShareBlob| #[trigger] encode.requires((b,)),
        ensures
            match r {
                Ok(b) => b == (ShareBlob { signature: b.signature, ..self }) && blob_signed(
                    encode,
                    b,
                    key.0@,
                ),
                Err(e) => e matches ShareError::Encode(why) && blob_encodes(encode, self, Err(why)),
            },
    {
        let bytes = match self.canonical_signing_bytes(&encode) {
            Ok(b) => b,
            Err(e) => {
                return Err(e);
            },
        };
        let blob = ShareBlob { signature: sign(key, &bytes), ..self };
        proof {
            let u = choose|u: ShareBlob|
                is_unsigned(u, self) && #[trigger] encode.ensures((u,), Ok(bytes));
            assert(is_unsigned(u, blob));
            assert(blob_encodes(encode, blob, Ok(bytes)));
        }
        Ok(blob)
    }
}

/// The parts of sharing. Nothing is kept between them.
pub struct ShareService;

impl ShareService {
    /// Makes a share and its unsigned blob, with what was drawn at random.
    pub fn create_share_with(req: CreateShareReq<'_>, version: u64, seed: ShareSeed) -> (r: Result<
        (Share, ShareBlob),
        ShareError,
    >)
        ensures
            if req.recipient_kem_pub.0@.len() == 0 {
                r matches Err(ShareError::Crypto(CryptoError::Input(m))) && m@
                    == "empty recipient pubkey"@
            } else {
                r matches Ok(p) && answers(req, version, seed.share_id, seed.shared@, p.0, p.1)
                    && p.1.wrapped_file_key_nonce == AeadNonce::N12(seed.nonce) && p.1.signature.0@
                    == Seq::new(64, |i: int| 0u8)
            },
            r matches Ok(p) ==> ({
                let (share, blob) = p;
                let file_key = hkdf_sha256_output(
                    req.master_key.0@,
                    encode_utf8("kp:file"@).push(124u8) + (be128(req.file_id.0) + be64(version)),
                );
                &&& share.share_id == seed.share_id && blob.share_id == seed.share_id
                &&& share.recipient == req.recipient_peer_id && blob.recipient_peer_id
                    == req.recipient_peer_id
                &&& share.scope == req.scope && blob.scope == req.scope
                &&& share.permissions@ == req.permissions@ && blob.permissions@ == req.permissions@
                &&& share.expires_at == req.expires_at && blob.expires_at == req.expires_at
                &&& share.revoked_at is None
                &&& blob.file_id == req.file_id && blob.file_key_version == version
                &&& share.wrapped_keys_ref.file_id == req.file_id
                &&& share.wrapped_keys_ref.or_set_add_id == of_be128(
                    blake3_digest(encode_utf8(req.recipient_peer_id.0@)).take(16),
                )
                &&& blob.kem_ciphertext@.len() == req.recipient_kem_pub.0@.len()
                &&& forall|i: int|
                    0 <= i < blob.kem_ciphertext@.len() ==> blob.kem_ciphertext@[i]
                        == req.recipient_kem_pub.0@[i] ^ seed.shared@[i % 32]
                &&& blob.wrapped_file_key@ + blob.wrapped_file_key_tag.0@ == chacha_sealed(
                    seed.shared@,
                    seed.nonce@,
                    file_key,
                    encode_utf8("share-wrap:"@) + be128(req.file_id.0) + be64(version) + encode_utf8(
                        req.recipient_peer_id.0@,
                    ),
                )
            }),
    {
        let file_key = match derive_file_key(req.master_key, req.file_id, version) {
            Ok(k) => k,
            Err(e) => {
                return Err(ShareError::Crypto(e));
            },
        };
        if req.recipient_kem_pub.0.len() == 0 {
            return Err(ShareError::Crypto(CryptoError::Input("empty recipient pubkey")));
        }
        let kem_ciphertext = encapsulate_secret(&req.recipient_kem_pub.0, &seed.shared);
        let nonce = AeadNonce::N12(seed.nonce);
        let aad = wrap_aad(req.file_id, version, &req.recipient_peer_id);
        let (wrapped, tag) = match encrypt(
            AeadSuite::ChaCha20Poly1305,
            &SymKey(seed.shared),
            &nonce,
            &file_key.0,
            &aad,
        ) {
            Ok(p) => p,
            Err(e) => {
                return Err(ShareError::Crypto(e));
            },
        };
        let none: [u8; 64] = [0u8; 64];
        assert(none@ =~= Seq::new(64, |i: int| 0u8));
        let or_set_add_id: u128 = wrap_id_of(&req.recipient_peer_id);
        let share = Share {
            share_id: seed.share_id,
            scope: req.scope.copied(),
            recipient: req.recipient_peer_id.copied(),
            permissions: copy_permissions(&req.permissions),
            wrapped_keys_ref: WrappedKeyRef { file_id: req.file_id, or_set_add_id },
            created_at: req.now.copied(),
            expires_at: copy_time(&req.expires_at),
            revoked_at: None,
        };
        let blob = ShareBlob {
            share_id: seed.share_id,
            owner_peer_id: req.owner_peer_id,
            owner_epoch_id: req.owner_epoch_id,
            recipient_peer_id: req.recipient_peer_id,
            file_id: req.file_id,
            file_key_version: version,
            scope: req.scope,
            permissions: req.permissions,
            kem_ciphertext,
            wrapped_file_key: wrapped,
            wrapped_file_key_nonce: nonce,
            wrapped_file_key_tag: tag,
            created_at: req.now,
            expires_at: req.expires_at,
            signature: Ed25519Sig(none),
        };
        Ok((share, blob))
    }

    /// Makes a share and its blob, signed by the owner over the encoding of the blob.
    pub fn create_share<F: Fn(ShareBlob) -> Result<Vec<u8>, String>>(
        req: CreateShareReq<'_>,
        version: u64,
        encode: F,
    ) -> (r: Result<(Share, ShareBlob), ShareError>)
        requires
            forall|b: ShareBlob| #[trigger] encode.requires((b,)),
        ensures
            if req.recipient_kem_pub.0@.len() == 0 {
                r matches Err(ShareError::Crypto(CryptoError::Input(m))) && m@
                    == "empty recipient pubkey"@
            } else {
                match r {
                    Ok(p) => blob_signed(encode, p.1, req.owner_sign_priv.0@) && exists|
                        shared: Seq<u8>,
                    | #[trigger]
                        answers(req, version, p.1.share_id, shared, p.0, p.1),
                    Err(e) => e matches ShareError::Encode(why) && exists|
                        share: Share,
                        blob: ShareBlob,
                        shared: Seq<u8>,
                    |
                        #[trigger] answers(req, version, blob.share_id, shared, share, blob)
                            && #[trigger] blob_encodes(encode, blob, Err(why)),
                }
            },
    {
        let nonce = random_12();
        let shared = thread_random_32();
        let seed = ShareSeed { share_id: ShareId::new_v7(), shared, nonce };
        let owner: &Ed25519Priv = req.owner_sign_priv;
        let (share, blob) = match ShareService::create_share_with(req, version, seed) {
            Ok(p) => p,
            Err(e) => {
                return Err(e);
            },
        };
        let ghost made = blob;
        assert(answers(req, version, made.share_id, shared@, share, made));
        match blob.signed(encode, owner) {
            Ok(b) => {
                let out = (share, b);
                assert(answers(req, version, out.1.share_id, shared@, out.0, out.1));
                Ok(out)
            },
            Err(e) => {
                assert(blob_encodes(encode, made, Err(e->Encode_0)));
                Err(e)
            },
        }
    }

    /// Puts a recipient's wrapped key among those of the file.
    pub fn add_wrapped_key(file: &mut File, share: &Share, blob: &ShareBlob)
        ensures
            *final(file) == (File { wrapped_keys: final(file).wrapped_keys, ..*old(file) }),
            final(file).wrapped_keys.tombstones@ == old(file).wrapped_keys.tombstones@,
            exists|key: WrappedKey|
                #![trigger old(file).wrapped_keys.adds@.insert(
                    share.wrapped_keys_ref.or_set_add_id,
                    key,
                )]
                final(file).wrapped_keys.adds@ == old(file).wrapped_keys.adds@.insert(
                    share.wrapped_keys_ref.or_set_add_id,
                    key,
                ) && key.scheme == WrapScheme::MlKem768Chacha20Poly1305 && key.ciphertext@
                    == blob.kem_ciphertext@ && key.recipient_id == share.recipient && key.wrapped_at
                    == share.created_at,
    {
        let key = WrappedKey {
            scheme: WrapScheme::MlKem768Chacha20Poly1305,
            ciphertext: to_vec(&blob.kem_ciphertext),
            recipient_id: share.recipient.copied(),
            wrapped_at: share.created_at.copied(),
        };
        let ghost k = key;
        file.wrapped_keys.add(share.wrapped_keys_ref.or_set_add_id, key);
        assert(file.wrapped_keys.adds@ == old(file).wrapped_keys.adds@.insert(
            share.wrapped_keys_ref.or_set_add_id,
            k,
        ));
    }

    /// Accepts a share: the owner's signature must hold over the encoding of this very blob, and
    /// the file key must open. What an owner wrapped for this recipient and signed is accepted, and
    /// the file key comes back.
    pub fn accept_share<F: Fn(ShareBlob) -> Result<Vec<u8>, String>>(
        blob: &ShareBlob,
        encode: F,
        owner_sign_pub: &Ed25519Pub,
        recipient_kem_pub: &MlKemPub,
        mount_path: String,
        now: Timestamp,
    ) -> (r: Result<ReceivedShare, ShareError>)
        requires
            forall|b: ShareBlob| #[trigger] encode.requires((b,)),
        ensures
            accepted(
                encode,
                *blob,
                owner_sign_pub.0@,
                recipient_kem_pub.0@,
                mount_path,
                now,
                r,
            ),
            forall|secret: Seq<u8>, shared: Seq<u8>, file_key: Seq<u8>|
                encodes_blobs_alike(encode) && owner_sign_pub.0@ == ed25519_public(secret)
                    && #[trigger] blob_signed(encode, *blob, secret) && #[trigger] wraps_key(
                    *blob,
                    recipient_kem_pub.0@,
                    shared,
                    file_key,
                ) && recipient_kem_pub.0@.len() % 64 == 32 ==> (r matches Ok(got)
                    && got.file_key_bytes@ == file_key && got.file_id == blob.file_id
                    && got.share_id == blob.share_id),
    {
        let bytes = match blob.canonical_signing_bytes(&encode) {
            Ok(b) => b,
            Err(e) => {
                proof {
                    let why = e->Encode_0;
                    assert(blob_encodes(encode, *blob, Err(why)));
                    assert forall|secret: Seq<u8>|
                        encodes_blobs_alike(encode) && #[trigger] blob_signed(
                            encode,
                            *blob,
                            secret,
                        ) implies false by {
                        let b = choose|b: Vec<u8>| #[trigger]
                            blob_encodes(encode, *blob, Ok(b)) && signed_with(*blob, b@, secret);
                        assert(same_but_signature(*blob, *blob));
                    }
                }
                return Err(e);
            },
        };
        let ghost g = bytes;
        assert(blob_encodes(encode, *blob, Ok(g)));
        let r = ShareService::accept_share_over(
            blob,
            &bytes,
            owner_sign_pub,
            recipient_kem_pub,
            mount_path,
            now,
        );
        proof {
            assert forall|secret: Seq<u8>|
                encodes_blobs_alike(encode) && #[trigger] blob_signed(
                    encode,
                    *blob,
                    secret,
                ) implies signed_with(*blob, g@, secret) by {
                let b = choose|b: Vec<u8>| #[trigger]
                    blob_encodes(encode, *blob, Ok(b)) && signed_with(*blob, b@, secret);
                assert(same_but_signature(*blob, *blob));
            }
        }
        r
    }

    /// Accepts a share whose signed bytes are `canonical`.
    pub fn accept_share_over(
        blob: &ShareBlob,
        canonical: &[u8],
        owner_sign_pub: &Ed25519Pub,
        recipient_kem_pub: &MlKemPub,
        mount_path: String,
        now: Timestamp,
    ) -> (r: Result<ReceivedShare, ShareError>)
        ensures
            accept_result(
                *blob,
                canonical@,
                owner_sign_pub.0@,
                recipient_kem_pub.0@,
                mount_path,
                now,
                r,
            ),
            forall|secret: Seq<u8>, shared: Seq<u8>, file_key: Seq<u8>|
                owner_sign_pub.0@ == ed25519_public(secret) && #[trigger] signed_with(
                    *blob,
                    canonical@,
                    secret,
                ) && #[trigger] wraps_key(*blob, recipient_kem_pub.0@, shared, file_key)
                    && recipient_kem_pub.0@.len() % 64 == 32 ==> (r matches Ok(got)
                    && got.file_key_bytes@ == file_key && got.file_id == blob.file_id
                    && got.share_id == blob.share_id),
            r matches Ok(got) ==> ed25519_accepts(
                owner_sign_pub.0@,
                canonical@,
                blob.signature.0@,
            ) && got.share_id == blob.share_id && got.owner_peer_id == blob.owner_peer_id && got.file_id
                == blob.file_id && got.file_key_version == blob.file_key_version && got.scope
                == blob.scope && got.mounted_path == mount_path && got.accepted_at == now && (
            blob.wrapped_file_key_nonce matches AeadNonce::N12(n) && chacha_opened(
                decapsulated(recipient_kem_pub.0@, blob.kem_ciphertext@),
                n@,
                blob.wrapped_file_key@ + blob.wrapped_file_key_tag.0@,
                encode_utf8("share-wrap:"@) + be128(blob.file_id.0) + be64(blob.file_key_version)
                    + encode_utf8(blob.recipient_peer_id.0@),
            ) == Some(got.file_key_bytes@)),
            !ed25519_accepts(owner_sign_pub.0@, canonical@, blob.signature.0@) ==> r == Err::<
                ReceivedShare,
                ShareError,
            >(ShareError::SignatureInvalid),
    {
        match verify(owner_sign_pub, canonical, &blob.signature) {
            Ok(()) => {},
            Err(_) => {
                return Err(ShareError::SignatureInvalid);
            },
        }
        let shared = match decapsulate_placeholder(&recipient_kem_pub.0, &blob.kem_ciphertext) {
            Ok(k) => k,
            Err(e) => {
                return Err(ShareError::Crypto(e));
            },
        };
        let aad = wrap_aad(blob.file_id, blob.file_key_version, &blob.recipient_peer_id);
        let opened = decrypt(
            AeadSuite::ChaCha20Poly1305,
            &shared,
            &blob.wrapped_file_key_nonce,
            &blob.wrapped_file_key,
            &blob.wrapped_file_key_tag,
            &aad,
        );
        proof {
            assert forall|s: Seq<u8>, file_key: Seq<u8>| #[trigger]
                wraps_key(*blob, recipient_kem_pub.0@, s, file_key) && recipient_kem_pub.0@.len()
                    % 64 == 32 implies (opened matches Ok(k) && k@ == file_key) by {
                lemma_kem_round_trip(recipient_kem_pub.0@, s);
                assert(shared.0@ == s);
                assert(aead_fits(AeadSuite::ChaCha20Poly1305, file_key.len(), aad@.len()));
            }
        }
        match opened {
            Ok(file_key_bytes) => Ok(
                ReceivedShare {
                    share_id: blob.share_id,
                    owner_peer_id: blob.owner_peer_id.copied(),
                    file_id: blob.file_id,
                    file_key_version: blob.file_key_version,
                    scope: blob.scope.copied(),
                    mounted_path: mount_path,
                    file_key_bytes,
                    accepted_at: now,
                },
            ),
            Err(e) => Err(ShareError::Crypto(e)),
        }
    }

    /// Writes the encoded record of a received share.
    pub fn put_received(txn: &mut Txn, id: ShareId, encoded: Vec<u8>)
        ensures
            final(txn).ops@.len() == old(txn).ops@.len() + 1,
            final(txn).ops@.drop_last() == old(txn).ops@,
            final(txn).ops@.last().is_put(ColumnFamily::Shares, received_at(id), encoded@),
    {
        txn.put(ColumnFamily::Shares, received_key(id), encoded);
        assert(txn.ops@.drop_last() =~= old(txn).ops@);
    }

    /// The encoded record of a received share.
    pub fn get_received<B: Backend>(store: &Store<B>, id: ShareId) -> (r: Result<
        Option<Vec<u8>>,
        MetadataError,
    >)
        requires
            store.backend.wf(),
        ensures
            store.backend.reliable() ==> r is Ok,
            store.backend.get_gives(ColumnFamily::Shares, received_at(id), r),
            r matches Ok(v) ==> read_of(v) == value_in(
                store.backend.state(),
                ColumnFamily::Shares,
                received_at(id),
            ),
    {
        store.backend.get(ColumnFamily::Shares, &received_key(id))
    }

    /// The encoded records of all received shares, with their keys, by increasing identifier.
    pub fn list_received<B: Backend>(store: &Store<B>) -> (r: Result<Vec<Row>, MetadataError>)
        requires
            store.backend.wf(),
        ensures
            store.backend.reliable() ==> r is Ok,
            store.backend.scan_gives(ColumnFamily::Shares, encode_utf8("received:"@), r),
            r matches Ok(rows) ==> lists_prefix(
                rows@,
                store.backend.state()[ColumnFamily::Shares],
                encode_utf8("received:"@),
            ),
    {
        store.backend.scan_prefix(ColumnFamily::Shares, "received:".as_bytes())
    }

    /// Marks a share as revoked. With it goes the version under which the file has to be encrypted
    /// from then on: the one after the `version` that the recipient knows.
    pub fn revoke_share(found: Option<Share>, id: ShareId, version: u64, now: Timestamp) -> (r:
        Result<(Share, u64), ShareError>)
        requires
            version < u64::MAX,
        ensures
            r == (match found {
                None => Err::<(Share, u64), ShareError>(ShareError::NotFound(id)),
                Some(s) => Ok((Share { revoked_at: Some(now), ..s }, (version + 1) as u64)),
            }),
    {
        match found {
            None => Err(ShareError::NotFound(id)),
            Some(s) => Ok((Share { revoked_at: Some(now), ..s }, version + 1)),
        }
    }

    /// Takes a recipient's wrapped key from those of the file.
    pub fn drop_wrapped_key(file: &mut File, share: &Share)
        ensures
            *final(file) == (File { wrapped_keys: final(file).wrapped_keys, ..*old(file) }),
            final(file).wrapped_keys.adds@ == old(file).wrapped_keys.adds@,
            final(file).wrapped_keys.tombstones@ == old(file).wrapped_keys.tombstones@.insert(
                share.wrapped_keys_ref.or_set_add_id,
            ),
            !final(file).wrapped_keys.live(share.wrapped_keys_ref.or_set_add_id),
    {
        let mut ids: Vec<u128> = Vec::new();
        ids.push(share.wrapped_keys_ref.or_set_add_id);
        file.wrapped_keys.remove(&ids);
        proof {
            assert(ids@[0] == share.wrapped_keys_ref.or_set_add_id);
            assert(file.wrapped_keys.tombstones@ =~= old(file).wrapped_keys.tombstones@.insert(
                share.wrapped_keys_ref.or_set_add_id,
            ));
        }
    }
}

/// A share is refused for its signature exactly where Ed25519 does not accept the signature, under
/// the owner's key, over the encoding of this very blob with the signature zeroed.
pub proof fn lemma_unsigned_share_is_refused<F: Fn(ShareBlob) -> Result<Vec<u8>, String>>(
    encode: F,
    blob: ShareBlob,
    owner: Seq<u8>,
    kem_pub: Seq<u8>,
    mount_path: String,
    now: Timestamp,
    bytes: Vec<u8>,
    r: Result<ReceivedShare, ShareError>,
)
    requires
        encodes_blobs_alike(encode),
        accepted(encode, blob, owner, kem_pub, mount_path, now, r),
        blob_encodes(encode, blob, Ok(bytes)),
    ensures
        (r matches Err(e) && e is SignatureInvalid) <==> !ed25519_accepts(
            owner,
            bytes@,
            blob.signature.0@,
        ),
{
    assert(same_but_signature(blob, blob));
}

/// A share that was changed behind its owner's back is checked over other bytes than the owner
/// signed: to be accepted, the owner's signature would have to hold for both.
pub proof fn lemma_changed_share<F: Fn(ShareBlob) -> Result<Vec<u8>, String>>(
    encode: F,
    blob: ShareBlob,
    changed: ShareBlob,
    secret: Seq<u8>,
    owner: Seq<u8>,
    kem_pub: Seq<u8>,
    mount_path: String,
    now: Timestamp,
    r: Result<ReceivedShare, ShareError>,
)
    requires
        tells_blobs_apart(encode),
        blob_signed(encode, blob, secret),
        changed.signature.0@ == blob.signature.0@,
        !same_but_signature(blob, changed),
        accepted(encode, changed, owner, kem_pub, mount_path, now, r),
        r is Ok,
    ensures
        exists|signed: Seq<u8>, other: Seq<u8>|
            signed != other && blob.signature.0@ == #[trigger] ed25519_signature(secret, signed)
                && #[trigger] ed25519_accepts(owner, other, blob.signature.0@),
{
    let x = choose|b: Vec<u8>| #[trigger]
        blob_encodes(encode, blob, Ok(b)) && signed_with(blob, b@, secret);
    let encoded = choose|encoded: Result<Vec<u8>, String>| #[trigger]
        blob_encodes(encode, changed, encoded) && (match encoded {
            Ok(b) => accept_result(changed, b@, owner, kem_pub, mount_path, now, r),
            Err(why) => r == Err::<ReceivedShare, ShareError>(ShareError::Encode(why)),
        });
    let y = encoded->Ok_0;
    assert(blob_encodes(encode, changed, Ok(y)));
    assert(x@ != y@);
    assert(ed25519_accepts(owner, y@, blob.signature.0@));
    assert(blob.signature.0@ == ed25519_signature(secret, x@));
}

/// Once the write of `put_received` is committed, the record of the share reads back.
pub proof fn lemma_received_reads_back(
    s: DbState,
    ops: Seq<WriteOp>,
    op: WriteOp,
    id: ShareId,
    encoded: Seq<u8>,
)
    requires
        op.is_put(ColumnFamily::Shares, received_at(id), encoded),
    ensures
        value_in(ops_applied(s, ops.push(op)), ColumnFamily::Shares, received_at(id)) == Some(
            encoded,
        ),
{
    lemma_last_put_wins(s, ops, op, ColumnFamily::Shares, received_at(id), encoded);
}

/// The records of two received shares stand at different keys.
pub proof fn lemma_received_keys_apart(a: ShareId, b: ShareId)
    requires
        received_at(a) == received_at(b),
    ensures
        a == b,
{
    let p = encode_utf8("received:"@);
    assert((p + be128(a.0)).skip(p.len() as int) =~= be128(a.0));
    assert((p + be128(b.0)).skip(p.len() as int) =~= be128(b.0));
    crate::bytes::lemma_be128_injective(a.0, b.0);
}

/// A share is what was asked for: the same owner, recipient, file, scope, permissions and times on
/// the blob and on the record, under one identifier, and not revoked.
pub proof fn lemma_share_as_asked(
    req: CreateShareReq,
    version: u64,
    id: ShareId,
    shared: Seq<u8>,
    share: Share,
    blob: ShareBlob,
)
    requires
        answers(req, version, id, shared, share, blob),
    ensures
        blob.share_id == id && share.share_id == id,
        blob.owner_peer_id == req.owner_peer_id && blob.owner_epoch_id == req.owner_epoch_id,
        blob.recipient_peer_id == req.recipient_peer_id && share.recipient == req.recipient_peer_id,
        blob.file_id == req.file_id && share.wrapped_keys_ref.file_id == req.file_id,
        blob.file_key_version == version,
        blob.scope == req.scope && share.scope == req.scope,
        blob.permissions@ == req.permissions@ && share.permissions@ == req.permissions@,
        blob.created_at == req.now && share.created_at == req.now,
        blob.expires_at == req.expires_at && share.expires_at == req.expires_at,
        share.revoked_at is None,
{
}

/// What was received is what the blob says, mounted where it was asked, and nothing is received
/// whose signature does not hold.
pub proof fn lemma_received_as_sent(
    blob: ShareBlob,
    canonical: Seq<u8>,
    owner: Seq<u8>,
    kem_pub: Seq<u8>,
    mount_path: String,
    now: Timestamp,
    r: Result<ReceivedShare, ShareError>,
)
    requires
        accept_result(blob, canonical, owner, kem_pub, mount_path, now, r),
    ensures
        r is Ok ==> ed25519_accepts(owner, canonical, blob.signature.0@) && blob.kem_ciphertext@.len()
            == kem_pub.len(),
        r matches Ok(got) ==> got.share_id == blob.share_id && got.owner_peer_id
            == blob.owner_peer_id && got.file_id == blob.file_id && got.file_key_version
            == blob.file_key_version && got.scope == blob.scope && got.mounted_path == mount_path
            && got.accepted_at == now,
        r matches Ok(got) ==> chacha_opened(
            decapsulated(kem_pub, blob.kem_ciphertext@),
            blob.wrapped_file_key_nonce.bytes(),
            blob.wrapped_file_key@ + blob.wrapped_file_key_tag.0@,
            encode_utf8("share-wrap:"@) + be128(blob.file_id.0) + be64(blob.file_key_version)
                + encode_utf8(blob.recipient_peer_id.0@),
        ) == Some(got.file_key_bytes@),
{
}

} // verus!
