//! Identities: chains of signing keys, each vouched for by the one before.

use vstd::arithmetic::power2::pow2;
use vstd::prelude::*;

use crate::bytes::append;
use crate::bytes::be32;
use crate::bytes::bytes_eq;
use crate::bytes::push_be32;
use crate::bytes::to_vec;
use crate::crypto::hash::blake3_160;
use crate::crypto::hash::blake3_digest;
use crate::crypto::kem::thread_random_32;
use crate::crypto::sig::ed25519_accepts;
use crate::crypto::sig::ed25519_public;
use crate::crypto::sig::ed25519_signature;
use crate::crypto::sig::generate_keypair;
use crate::crypto::sig::sign;
use crate::crypto::sig::verify;
use crate::entities::records::Identity;
use crate::entities::records::IdentityEpoch;
use crate::entities::records::Peer;
use crate::text::chars_of;
use crate::text::dec_digits;
use crate::text::push_chars;
use crate::text::push_decimal;
use crate::text::push_text;
use crate::text::string_of;
use crate::types::BlakeHash;
use crate::types::Ed25519Priv;
use crate::types::Ed25519Pub;
use crate::types::Ed25519Sig;
use crate::types::EpochId;
use crate::types::IdentityId;
use crate::types::MlKemPub;
use crate::types::PeerId;
use crate::types::Timestamp;

verus! {

/// Why an identity was not accepted.
#[derive(Clone, PartialEq, Eq, Debug)]
pub enum IdentityError {
    NotFound(String),
    ChainInvalid(u32),
    AnchorMismatch,
    PeerChainOutdated { have: u32, signed_at: u32 },
    SignatureInvalid,
    Metadata(String),
}

impl IdentityError {
    /// The error in words.
    pub open spec fn words(self) -> Seq<char> {
        match self {
            IdentityError::NotFound(m) => "identity not found: "@ + m@,
            IdentityError::ChainInvalid(n) => "chain validation failed at epoch "@ + dec_digits(
                n as nat,
            ),
            IdentityError::AnchorMismatch => "anchor mismatch"@,
            IdentityError::PeerChainOutdated { have, signed_at } => "peer chain outdated; have epoch "@
                + dec_digits(have as nat) + ", signed at "@ + dec_digits(signed_at as nat),
            IdentityError::SignatureInvalid => "signature invalid"@,
            IdentityError::Metadata(m) => "metadata: "@ + m@,
        }
    }

    /// The error in words.
    pub fn text(&self) -> (r: String)
        ensures
            r@ == self.words(),
    {
        let mut t: Vec<char> = Vec::new();
        match self {
            IdentityError::NotFound(m) => {
                push_text(&mut t, "identity not found: ");
                push_text(&mut t, m.as_str());
            },
            IdentityError::ChainInvalid(n) => {
                push_text(&mut t, "chain validation failed at epoch ");
                push_decimal(&mut t, *n as u64);
            },
            IdentityError::AnchorMismatch => {
                push_text(&mut t, "anchor mismatch");
            },
            IdentityError::PeerChainOutdated { have, signed_at } => {
                push_text(&mut t, "peer chain outdated; have epoch ");
                push_decimal(&mut t, *have as u64);
                push_text(&mut t, ", signed at ");
                push_decimal(&mut t, *signed_at as u64);
            },
            IdentityError::SignatureInvalid => {
                push_text(&mut t, "signature invalid");
            },
            IdentityError::Metadata(m) => {
                push_text(&mut t, "metadata: ");
                push_text(&mut t, m.as_str());
            },
        }
        assert(t@ =~= self.words());
        string_of(&t)
    }
}

/// Five bits of a byte string, from bit `at` on; the first bit is the highest of the first byte,
/// and zeros follow the last.
pub open spec fn five_bits(b: Seq<u8>, at: int) -> int {
    let padded = b.push(0u8).push(0u8);
    (padded[at / 8] * 256 + padded[at / 8 + 1]) / pow2((11 - at % 8) as nat) as int % 32
}

/// The RFC 4648 base32 text of a byte string, without padding: one letter for every five bits.
pub open spec fn base32_text(b: Seq<u8>) -> Seq<char> {
    Seq::new(
        (8 * b.len() + 4) as nat / 5,
        |i: int| "ABCDEFGHIJKLMNOPQRSTUVWXYZ234567"@[five_bits(b, 5 * i)],
    )
}

/// `base32::encode` with the RFC 4648 alphabet and without padding: every five bits become a
/// letter, the last of them filled up with zeros.
#[verifier::external_body]
fn base32_encode(b: &[u8]) -> (r: String)
    ensures
        r@ == base32_text(b@),
{
    base32::encode(base32::Alphabet::Rfc4648 { padding: false }, b)
}

/// A character with the letters A to Z made small.
pub open spec fn lower(c: char) -> char {
    if 'A' <= c && c <= 'Z' {
        (c as u32 + 32) as char
    } else {
        c
    }
}

/// A text with the letters A to Z made small.
pub open spec fn lowered(s: Seq<char>) -> Seq<char> {
    s.map_values(|c: char| lower(c))
}

fn lower_chars(s: &str) -> (r: Vec<char>)
    ensures
        r@ == lowered(s@),
{
    let c = chars_of(s);
    let mut out: Vec<char> = Vec::new();
    let mut i: usize = 0;
    while i < c.len()
        invariant
            0 <= i <= c@.len(),
            out@.len() == i,
            forall|j: int| 0 <= j < i ==> #[trigger] out@[j] == lower(c@[j]),
        decreases c@.len() - i,
    {
        let x = c[i];
        if 'A' <= x && x <= 'Z' {
            let u: u8 = x as u8;
            out.push((u + 32) as char);
        } else {
            out.push(x);
        }
        i = i + 1;
    }
    assert(out@ =~= lowered(c@));
    out
}

/// The fingerprint of a signing key: the first 20 bytes of its digest, and zeros.
pub open spec fn fingerprint(pubkey: Seq<u8>) -> Seq<u8> {
    blake3_digest(pubkey).take(20) + Seq::new(12, |i: int| 0u8)
}

/// The fingerprint of a signing key.
pub fn fingerprint_of(pubkey: &Ed25519Pub) -> (r: BlakeHash)
    ensures
        r.0@ == fingerprint(pubkey.0@),
{
    let fp = blake3_160(&pubkey.0);
    let mut full: [u8; 32] = [0u8; 32];
    let mut i: usize = 0;
    while i < 20
        invariant
            0 <= i <= 20,
            forall|j: int| 0 <= j < i ==> full@[j] == fp@[j],
            forall|j: int| i <= j < 32 ==> full@[j] == 0u8,
        decreases 20 - i,
    {
        full[i] = fp[i];
        i = i + 1;
    }
    assert(fp@.len() == 20);
    assert(full@ =~= fingerprint(pubkey.0@));
    BlakeHash(full)
}

/// The name of the identity with a fingerprint.
pub fn id_string_for(fp: &BlakeHash) -> (r: IdentityId)
    ensures
        r.0@ == "id:"@ + lowered(base32_text(fp.0@.take(20))),
{
    let head = crate::bytes::slice_of(&fp.0, 0, 20);
    assert(head@ =~= fp.0@.take(20));
    let mut t: Vec<char> = Vec::new();
    push_text(&mut t, "id:");
    push_chars(&mut t, &lower_chars(base32_encode(&head).as_str()));
    assert(t@ =~= "id:"@ + lowered(base32_text(fp.0@.take(20))));
    IdentityId(string_of(&t))
}

/// The name of the peer with a signing key.
pub fn peer_id_for(pubkey: &Ed25519Pub) -> (r: PeerId)
    ensures
        r.0@ == "peer:"@ + lowered(base32_text(blake3_digest(pubkey.0@).take(20))),
{
    let fp = blake3_160(&pubkey.0);
    let mut t: Vec<char> = Vec::new();
    push_text(&mut t, "peer:");
    push_chars(&mut t, &lower_chars(base32_encode(&fp).as_str()));
    assert(t@ =~= "peer:"@ + lowered(base32_text(fp@)));
    PeerId(string_of(&t))
}

/// What an epoch's signature by the one before covers.
pub open spec fn chain_message(epoch: EpochId, sign_pub: Seq<u8>, kem_pub: Seq<u8>) -> Seq<u8> {
    be32(epoch.0) + sign_pub + kem_pub
}

fn chain_signing_message(epoch: EpochId, sign_pub: &Ed25519Pub, kem_pub: &MlKemPub) -> (r: Vec<u8>)
    ensures
        r@ == chain_message(epoch, sign_pub.0@, kem_pub.0@),
{
    let mut v: Vec<u8> = Vec::new();
    push_be32(&mut v, epoch.0);
    append(&mut v, &sign_pub.0);
    append(&mut v, &kem_pub.0);
    assert(v@ =~= chain_message(epoch, sign_pub.0@, kem_pub.0@));
    v
}

/// Whether an epoch's signature is accepted under the key of the one before.
pub open spec fn link_accepted(prev: IdentityEpoch, next: IdentityEpoch) -> bool {
    next.signed_by_prev is Some && ed25519_accepts(
        prev.sign_pubkey.0@,
        chain_message(next.epoch, next.sign_pubkey.0@, next.kem_pubkey.0@),
        next.signed_by_prev.unwrap().0@,
    )
}

/// Whether an epoch was signed with a secret, and that of the one before.
pub open spec fn link_signed(prev: IdentityEpoch, next: IdentityEpoch, secret: Seq<u8>) -> bool {
    &&& secret.len() == 32
    &&& prev.sign_pubkey.0@ == ed25519_public(secret)
    &&& next.signed_by_prev is Some
    &&& next.signed_by_prev.unwrap().0@ == ed25519_signature(
        secret,
        chain_message(next.epoch, next.sign_pubkey.0@, next.kem_pubkey.0@),
    )
}

/// Whether every epoch after the first was signed with the secret of the one before.
pub open spec fn chain_signed(chain: Seq<IdentityEpoch>, secrets: Seq<Seq<u8>>) -> bool {
    &&& secrets.len() + 1 >= chain.len()
    &&& forall|i: int|
        0 <= i < chain.len() - 1 ==> link_signed(#[trigger] chain[i], chain[i + 1], secrets[i])
}

/// The first link that is not accepted, or the number of links where all are.
pub open spec fn first_bad_link(chain: Seq<IdentityEpoch>, n: int) -> int
    decreases n,
{
    if n <= 0 {
        0
    } else if first_bad_link(chain, n - 1) < n - 1 {
        first_bad_link(chain, n - 1)
    } else if link_accepted(chain[n - 1], chain[n]) {
        n
    } else {
        n - 1
    }
}

/// Why a chain is refused, where it is: it is empty, it does not begin with the expected
/// fingerprint, or an epoch is not vouched for by the one before.
pub open spec fn chain_refusal(chain: Seq<IdentityEpoch>, anchor: Seq<u8>) -> Option<IdentityError> {
    if chain.len() == 0 {
        Some(IdentityError::ChainInvalid(0))
    } else if chain[0].fingerprint.0@ != anchor {
        Some(IdentityError::AnchorMismatch)
    } else {
        let bad = first_bad_link(chain, chain.len() - 1);
        if bad < chain.len() - 1 {
            Some(IdentityError::ChainInvalid(chain[bad + 1].epoch.0))
        } else {
            None
        }
    }
}

/// The service of identities. What it makes and changes, the caller keeps.
pub struct IdentityService;

/// Whether `e` is a first epoch for a signing key.
pub open spec fn is_first_epoch(e: IdentityEpoch, sign_pub: Seq<u8>, timestamp: Timestamp) -> bool {
    &&& e.epoch == EpochId(0)
    &&& e.sign_pubkey.0@ == sign_pub
    &&& e.kem_pubkey.0@.len() == 32
    &&& e.fingerprint.0@ == fingerprint(sign_pub)
    &&& e.created_at == timestamp
    &&& e.wrapped_privkeys@.len() == 0
    &&& e.signed_by_prev is None
}

/// A random key-encapsulation key; nothing is known of its bytes.
pub fn placeholder_kem_pub() -> (r: MlKemPub)
    ensures
        r.0@.len() == 32,
{
    MlKemPub(to_vec(&thread_random_32()))
}

impl IdentityService {
    /// Makes an identity with one epoch, whose keys are random. The result is the identity and the
    /// epoch's signing key.
    pub fn create_identity(timestamp: Timestamp) -> (r: (Identity, Ed25519Priv))
        ensures
            r.0.epochs@.len() == 1,
            is_first_epoch(r.0.epochs@[0], ed25519_public(r.1.0@), timestamp),
            r.0.identity_id.0@ == "id:"@ + lowered(
                base32_text(fingerprint(ed25519_public(r.1.0@)).take(20)),
            ),
    {
        let (sk, pk) = generate_keypair();
        let fp = fingerprint_of(&pk);
        let identity_id = id_string_for(&fp);
        let mut epochs: Vec<IdentityEpoch> = Vec::new();
        epochs.push(
            IdentityEpoch {
                epoch: EpochId(0),
                sign_pubkey: pk,
                kem_pubkey: placeholder_kem_pub(),
                fingerprint: fp,
                created_at: timestamp,
                wrapped_privkeys: Vec::new(),
                signed_by_prev: None,
            },
        );
        (Identity { identity_id, epochs }, sk)
    }

    /// Adds an epoch with random keys to an identity, vouched for with the signing key of the
    /// epoch before. The result is the identity and the new epoch's signing key.
    pub fn rotate_identity(
        found: Option<Identity>,
        identity_id: &IdentityId,
        prev_priv: &Ed25519Priv,
        timestamp: Timestamp,
    ) -> (r: Result<(Identity, Ed25519Priv), IdentityError>)
        requires
            found is Some ==> found.unwrap().epochs@.len() > 0
                && found.unwrap().epochs@.last().epoch.0 < u32::MAX,
        ensures
            match found {
                None => r == Err::<(Identity, Ed25519Priv), IdentityError>(
                    IdentityError::NotFound(identity_id.0),
                ),
                Some(id) => {
                    &&& r matches Ok(p) && p.0.identity_id == id.identity_id && p.0.epochs@.drop_last()
                        == id.epochs@ && p.0.epochs@.len() == id.epochs@.len() + 1
                        && is_next_epoch(
                        p.0.epochs@.last(),
                        id.epochs@.last(),
                        ed25519_public(p.1.0@),
                        prev_priv.0@,
                        timestamp,
                    )
                },
            },
    {
        let mut id = match found {
            Some(id) => id,
            None => {
                return Err(IdentityError::NotFound(identity_id.0.clone()));
            },
        };
        let ghost before = id.epochs@;
        let last: usize = id.epochs.len() - 1;
        let next = EpochId(id.epochs[last].epoch.0 + 1);
        let (sk, pk) = generate_keypair();
        let kem_pubkey = placeholder_kem_pub();
        let message = chain_signing_message(next, &pk, &kem_pubkey);
        let sig = sign(prev_priv, &message);
        id.epochs.push(
            IdentityEpoch {
                epoch: next,
                sign_pubkey: pk,
                kem_pubkey,
                fingerprint: fingerprint_of(&pk),
                created_at: timestamp,
                wrapped_privkeys: Vec::new(),
                signed_by_prev: Some(sig),
            },
        );
        assert(id.epochs@.drop_last() =~= before);
        Ok((id, sk))
    }

    /// Checks a chain from its first epoch on. A chain whose epochs were each signed with the
    /// secret of the one before is accepted.
    pub fn verify_chain(chain: &Vec<IdentityEpoch>, expected_anchor: BlakeHash) -> (r: Result<
        (),
        IdentityError,
    >)
        ensures
            r == (match chain_refusal(chain@, expected_anchor.0@) {
                Some(e) => Err::<(), IdentityError>(e),
                None => Ok(()),
            }),
            forall|secrets: Seq<Seq<u8>>|
                chain@.len() > 0 && chain@[0].fingerprint.0@ == expected_anchor.0@ && #[trigger] chain_signed(
                    chain@,
                    secrets,
                ) ==> r is Ok,
    {
        if chain.len() == 0 {
            return Err(IdentityError::ChainInvalid(0));
        }
        if !bytes_eq(&chain[0].fingerprint.0, &expected_anchor.0) {
            return Err(IdentityError::AnchorMismatch);
        }
        let mut i: usize = 0;
        while i < chain.len() - 1
            invariant
                chain@.len() > 0,
                chain@[0].fingerprint.0@ == expected_anchor.0@,
                0 <= i <= chain@.len() - 1,
                first_bad_link(chain@, i as int) == i,
            decreases chain@.len() - i,
        {
            let prev = &chain[i];
            let next = &chain[i + 1];
            let message = chain_signing_message(next.epoch, &next.sign_pubkey, &next.kem_pubkey);
            let bad: bool = match &next.signed_by_prev {
                Some(sig) => match verify(&prev.sign_pubkey, &message, sig) {
                    Ok(()) => false,
                    Err(_) => true,
                },
                None => true,
            };
            if bad {
                proof {
                    assert(!link_accepted(chain@[i as int], chain@[i + 1]));
                    lemma_bad_link_stays(chain@, i as int, chain@.len() - 1);
                    assert forall|secrets: Seq<Seq<u8>>| !#[trigger] chain_signed(chain@, secrets) by {
                        if chain_signed(chain@, secrets) {
                            assert(link_signed(chain@[i as int], chain@[i + 1], secrets[i as int]));
                        }
                    }
                }
                return Err(IdentityError::ChainInvalid(next.epoch.0));
            }
            i = i + 1;
        }
        Ok(())
    }

    /// Checks a peer's signature under the key of the epoch in which it was made.
    pub fn verify_peer_signature(
        found: Option<&Peer>,
        peer_id: &PeerId,
        signed_at: EpochId,
        message: &[u8],
        sig: &Ed25519Sig,
    ) -> (r: Result<(), IdentityError>)
        ensures
            match found {
                None => r == Err::<(), IdentityError>(IdentityError::NotFound(peer_id.0)),
                Some(p) => if signed_at.0 > p.last_seen_epoch.0 {
                    r == Err::<(), IdentityError>(
                        IdentityError::PeerChainOutdated {
                            have: p.last_seen_epoch.0,
                            signed_at: signed_at.0,
                        },
                    )
                } else {
                    let at = epoch_index(p.epochs@, signed_at);
                    if at == p.epochs@.len() {
                        r == Err::<(), IdentityError>(IdentityError::ChainInvalid(signed_at.0))
                    } else if ed25519_accepts(p.epochs@[at].sign_pubkey.0@, message@, sig.0@) {
                        r is Ok
                    } else {
                        r == Err::<(), IdentityError>(IdentityError::SignatureInvalid)
                    }
                },
            },
            forall|secret: Seq<u8>|
                found is Some && signed_at.0 <= found.unwrap().last_seen_epoch.0 && epoch_index(
                    found.unwrap().epochs@,
                    signed_at,
                ) < found.unwrap().epochs@.len() && secret.len() == 32
                    && found.unwrap().epochs@[epoch_index(
                    found.unwrap().epochs@,
                    signed_at,
                )].sign_pubkey.0@ == ed25519_public(secret) && sig.0@ == #[trigger] ed25519_signature(
                    secret,
                    message@,
                ) ==> r is Ok,
    {
        let peer = match found {
            Some(p) => p,
            None => {
                return Err(IdentityError::NotFound(peer_id.0.clone()));
            },
        };
        if signed_at.0 > peer.last_seen_epoch.0 {
            return Err(
                IdentityError::PeerChainOutdated {
                    have: peer.last_seen_epoch.0,
                    signed_at: signed_at.0,
                },
            );
        }
        let at: usize = find_epoch(&peer.epochs, signed_at);
        if at == peer.epochs.len() {
            return Err(IdentityError::ChainInvalid(signed_at.0));
        }
        match verify(&peer.epochs[at].sign_pubkey, message, sig) {
            Ok(()) => Ok(()),
            Err(_) => Err(IdentityError::SignatureInvalid),
        }
    }
}

/// The first epoch with a number, or the number of epochs where there is none.
pub open spec fn epoch_index(epochs: Seq<IdentityEpoch>, n: EpochId) -> int
    decreases epochs.len(),
{
    if epochs.len() == 0 || epochs[0].epoch == n {
        0
    } else {
        1 + epoch_index(epochs.drop_first(), n)
    }
}

proof fn lemma_epoch_index(epochs: Seq<IdentityEpoch>, n: EpochId, at: int)
    requires
        0 <= at <= epochs.len(),
        forall|j: int| 0 <= j < at ==> (#[trigger] epochs[j]).epoch != n,
        at < epochs.len() ==> epochs[at].epoch == n,
    ensures
        epoch_index(epochs, n) == at,
    decreases epochs.len(),
{
    if epochs.len() > 0 && epochs[0].epoch != n {
        assert forall|j: int| 0 <= j < at - 1 implies (#[trigger] epochs.drop_first()[j]).epoch != n by {
            assert(epochs.drop_first()[j] == epochs[j + 1]);
        }
        lemma_epoch_index(epochs.drop_first(), n, at - 1);
    }
}

fn find_epoch(epochs: &Vec<IdentityEpoch>, n: EpochId) -> (r: usize)
    ensures
        r == epoch_index(epochs@, n),
        r <= epochs@.len(),
{
    let mut i: usize = 0;
    while i < epochs.len()
        invariant
            0 <= i <= epochs@.len(),
            forall|j: int| 0 <= j < i ==> (#[trigger] epochs@[j]).epoch != n,
        decreases epochs@.len() - i,
    {
        if epochs[i].epoch == n {
            proof {
                lemma_epoch_index(epochs@, n, i as int);
            }
            return i;
        }
        i = i + 1;
    }
    proof {
        lemma_epoch_index(epochs@, n, i as int);
    }
    i
}

proof fn lemma_bad_link_stays(chain: Seq<IdentityEpoch>, at: int, n: int)
    requires
        0 <= at < n <= chain.len() - 1,
        first_bad_link(chain, at) == at,
        !link_accepted(chain[at], chain[at + 1]),
    ensures
        first_bad_link(chain, n) == at,
    decreases n,
{
    if n > at + 1 {
        lemma_bad_link_stays(chain, at, n - 1);
    }
}

/// Whether `e` follows `prev`, with a new signing key, signed with a secret.
pub open spec fn is_next_epoch(
    e: IdentityEpoch,
    prev: IdentityEpoch,
    sign_pub: Seq<u8>,
    secret: Seq<u8>,
    timestamp: Timestamp,
) -> bool {
    &&& e.epoch.0 == prev.epoch.0 + 1
    &&& e.sign_pubkey.0@ == sign_pub
    &&& e.kem_pubkey.0@.len() == 32
    &&& e.fingerprint.0@ == fingerprint(sign_pub)
    &&& e.created_at == timestamp
    &&& e.wrapped_privkeys@.len() == 0
    &&& e.signed_by_prev is Some
    &&& e.signed_by_prev.unwrap().0@ == ed25519_signature(
        secret,
        chain_message(e.epoch, e.sign_pubkey.0@, e.kem_pubkey.0@),
    )
}

/// A chain that is signed throughout stays so when it is rotated with the secret of its last
/// epoch; and it keeps its anchor.
pub proof fn lemma_rotation_keeps_chain(
    chain: Seq<IdentityEpoch>,
    secrets: Seq<Seq<u8>>,
    e: IdentityEpoch,
    sign_pub: Seq<u8>,
    secret: Seq<u8>,
    timestamp: Timestamp,
)
    requires
        chain.len() > 0,
        secrets.len() + 1 == chain.len(),
        chain_signed(chain, secrets),
        secret.len() == 32,
        chain.last().sign_pubkey.0@ == ed25519_public(secret),
        is_next_epoch(e, chain.last(), sign_pub, secret, timestamp),
    ensures
        chain_signed(chain.push(e), secrets.push(secret)),
        chain.push(e)[0].fingerprint == chain[0].fingerprint,
{
    let c = chain.push(e);
    let s = secrets.push(secret);
    assert forall|i: int| 0 <= i < c.len() - 1 implies link_signed(
        #[trigger] c[i],
        c[i + 1],
        s[i],
    ) by {
        if i < chain.len() - 1 {
            assert(link_signed(chain[i], chain[i + 1], secrets[i]));
        }
    }
}

/// When a chain is accepted: it begins at the anchor, and every later epoch carries a signature that
/// holds, under the key of the epoch before it, over its own number and its own two keys.
pub proof fn lemma_chain_accepted_exactly(chain: Seq<IdentityEpoch>, anchor: Seq<u8>)
    ensures
        chain_refusal(chain, anchor) is None <==> chain.len() > 0 && chain[0].fingerprint.0@ == anchor && (
        forall|i: int|
            1 <= i < chain.len() ==> (#[trigger] chain[i]).signed_by_prev is Some && ed25519_accepts(
                chain[i - 1].sign_pubkey.0@,
                be32(chain[i].epoch.0) + chain[i].sign_pubkey.0@ + chain[i].kem_pubkey.0@,
                chain[i].signed_by_prev.unwrap().0@,
            )),
        chain.len() == 0 ==> chain_refusal(chain, anchor) == Some(IdentityError::ChainInvalid(0)),
        chain.len() > 0 && chain[0].fingerprint.0@ != anchor ==> chain_refusal(chain, anchor) == Some(
            IdentityError::AnchorMismatch,
        ),
{
    if chain.len() > 0 {
        let n = chain.len() - 1;
        lemma_bad_link_found(chain, n);
        let bad = first_bad_link(chain, n);
        if bad == n {
            assert forall|i: int| 1 <= i < chain.len() implies (
            #[trigger] chain[i]).signed_by_prev is Some && ed25519_accepts(
                chain[i - 1].sign_pubkey.0@,
                be32(chain[i].epoch.0) + chain[i].sign_pubkey.0@ + chain[i].kem_pubkey.0@,
                chain[i].signed_by_prev.unwrap().0@,
            ) by {
                assert(link_accepted(chain[i - 1], chain[i - 1 + 1]));
            }
        } else {
            assert(!link_accepted(chain[bad], chain[bad + 1]));
            assert(chain[bad + 1].signed_by_prev is None || !ed25519_accepts(
                chain[bad + 1 - 1].sign_pubkey.0@,
                be32(chain[bad + 1].epoch.0) + chain[bad + 1].sign_pubkey.0@
                    + chain[bad + 1].kem_pubkey.0@,
                chain[bad + 1].signed_by_prev.unwrap().0@,
            ));
        }
    }
}

proof fn lemma_bad_link_found(chain: Seq<IdentityEpoch>, n: int)
    requires
        0 <= n < chain.len(),
    ensures
        0 <= first_bad_link(chain, n) <= n,
        forall|i: int|
            0 <= i < first_bad_link(chain, n) ==> link_accepted(#[trigger] chain[i], chain[i + 1]),
        first_bad_link(chain, n) < n ==> !link_accepted(
            chain[first_bad_link(chain, n)],
            chain[first_bad_link(chain, n) + 1],
        ),
    decreases n,
{
    if n > 0 {
        lemma_bad_link_found(chain, n - 1);
    }
}

/// What an epoch vouches for tells the number and the keys of the next: other numbers or keys are
/// signed over other bytes.
pub proof fn lemma_chain_messages_apart(
    e: EpochId,
    s: Ed25519Pub,
    k: Seq<u8>,
    f: EpochId,
    t: Ed25519Pub,
    l: Seq<u8>,
)
    requires
        chain_message(e, s.0@, k) == chain_message(f, t.0@, l),
    ensures
        e == f,
        s.0@ == t.0@,
        k == l,
{
    let m = chain_message(e, s.0@, k);
    assert(be32(e.0).len() == 4 && be32(f.0).len() == 4) by {
        crate::bytes::lemma_be32_round_trip(e.0);
        crate::bytes::lemma_be32_round_trip(f.0);
    }
    assert(m.take(4) =~= be32(e.0));
    assert(m.take(4) =~= be32(f.0));
    crate::bytes::lemma_be32_injective(e.0, f.0);
    assert(m.subrange(4, 36) =~= s.0@);
    assert(m.subrange(4, 36) =~= t.0@);
    assert(m.skip(36) =~= k);
    assert(m.skip(36) =~= l);
}

/// A fingerprint is the beginning of the key's digest, and nothing else.
pub proof fn lemma_fingerprint_is_of_key(pubkey: Seq<u8>)
    requires
        blake3_digest(pubkey).len() == 32,
    ensures
        fingerprint(pubkey).len() == 32,
        fingerprint(pubkey).take(20) == blake3_digest(pubkey).take(20),
        forall|i: int| 20 <= i < 32 ==> fingerprint(pubkey)[i] == 0u8,
{
    assert(fingerprint(pubkey).take(20) =~= blake3_digest(pubkey).take(20));
}

/// The epoch of a number is the first that has it.
pub proof fn lemma_epoch_found(epochs: Seq<IdentityEpoch>, n: EpochId)
    ensures
        0 <= epoch_index(epochs, n) <= epochs.len(),
        epoch_index(epochs, n) < epochs.len() ==> epochs[epoch_index(epochs, n)].epoch == n,
        forall|i: int| 0 <= i < epoch_index(epochs, n) ==> (#[trigger] epochs[i]).epoch != n,
    decreases epochs.len(),
{
    if epochs.len() > 0 && epochs[0].epoch != n {
        let rest = epochs.drop_first();
        lemma_epoch_found(rest, n);
        assert forall|i: int| 0 <= i < epoch_index(epochs, n) implies (#[trigger] epochs[i]).epoch != n by {
            if i > 0 {
                assert(rest[i - 1] == epochs[i]);
            }
        }
    }
}

/// To make letters small changes each of the 26 capital letters to its small one, and nothing else.
pub proof fn lemma_letters_made_small(s: Seq<char>, i: int, d: int)
    requires
        0 <= i < s.len(),
        0 <= d < 26,
    ensures
        lowered(s).len() == s.len(),
        s[i] as u32 == 0x41 + d ==> lowered(s)[i] as u32 == 0x61 + d,
        (s[i] as u32) < 0x41 || s[i] as u32 > 0x5A ==> lowered(s)[i] == s[i],
{
}

/// A first epoch is numbered zero, has the fingerprint of its key, and is vouched for by nobody; the
/// next has the next number, the fingerprint of its own key, and is vouched for by the one before.
pub proof fn lemma_epochs_made(
    first: IdentityEpoch,
    next: IdentityEpoch,
    sign_pub: Seq<u8>,
    next_pub: Seq<u8>,
    secret: Seq<u8>,
    at: Timestamp,
    later: Timestamp,
)
    requires
        is_first_epoch(first, sign_pub, at),
        is_next_epoch(next, first, next_pub, secret, later),
    ensures
        first.epoch.0 == 0 && first.signed_by_prev is None,
        first.sign_pubkey.0@ == sign_pub && first.fingerprint.0@ == fingerprint(sign_pub),
        next.epoch.0 == 1 && next.sign_pubkey.0@ == next_pub,
        next.fingerprint.0@ == fingerprint(next_pub),
        next.signed_by_prev is Some && next.signed_by_prev.unwrap().0@ == ed25519_signature(
            secret,
            be32(1) + next_pub + next.kem_pubkey.0@,
        ),
        first.created_at == at && next.created_at == later,
{
}

} // verus!
