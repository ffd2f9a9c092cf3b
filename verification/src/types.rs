//! Identifiers, digests, keys, times and the small enumerations that the rest of the engine shares.

use vstd::prelude::*;
use vstd::string::*;
use vstd::utf8::*;

use crate::bytes::be128;
use crate::bytes::be128_bytes;
use crate::bytes::bytes_eq;
use crate::text::chars_of;
use crate::text::chars_prefix;
use crate::text::chars_range;
use crate::text::chars_start_with;
use crate::text::dec_digits;
use crate::text::hex_text;
use crate::text::hex_encode;
use crate::text::lemma_decimal_round_trip;
use crate::text::parse_u64;
use crate::text::parsed_u64;
use crate::text::push_decimal;
use crate::text::string_of;

verus! {

/// The canonical text of a UUID: its 32 lower-case hexadecimal digits, with hyphens after the
/// 8th, 12th, 16th and 20th.
pub open spec fn uuid_text(u: u128) -> Seq<char> {
    let h = hex_text(be128(u));
    h.subrange(0, 8) + seq!['-'] + h.subrange(8, 12) + seq!['-'] + h.subrange(12, 16) + seq!['-']
        + h.subrange(16, 20) + seq!['-'] + h.subrange(20, 32)
}

fn push_group(out: &mut Vec<char>, h: &[char], from: usize, to: usize)
    requires
        from <= to <= h@.len(),
    ensures
        final(out)@ == old(out)@ + h@.subrange(from as int, to as int),
{
    let mut i: usize = from;
    while i < to
        invariant
            from <= i <= to <= h@.len(),
            out@ == old(out)@ + h@.subrange(from as int, i as int),
        decreases to - i,
    {
        out.push(h[i]);
        assert(out@ =~= old(out)@ + h@.subrange(from as int, i + 1));
        i = i + 1;
    }
}

/// The canonical text of a UUID.
pub fn uuid_chars(u: u128) -> (r: Vec<char>)
    ensures
        r@ == uuid_text(u),
{
    let b = be128_bytes(u);
    proof {
        crate::bytes::lemma_be128_round_trip(u);
    }
    let h = hex_encode(&b);
    let mut out: Vec<char> = Vec::new();
    push_group(&mut out, &h, 0, 8);
    out.push('-');
    push_group(&mut out, &h, 8, 12);
    out.push('-');
    push_group(&mut out, &h, 12, 16);
    out.push('-');
    push_group(&mut out, &h, 16, 20);
    out.push('-');
    push_group(&mut out, &h, 20, 32);
    assert(out@ =~= uuid_text(u));
    out
}

/// Names what `uuid::Uuid::parse_str` reads from a text: the identifier, or nothing where it
/// refuses the text.
pub uninterp spec fn uuid_parsed(s: Seq<char>) -> Option<u128>;

/// `uuid::Uuid::parse_str`: accepts the canonical text of every UUID, besides the other forms
/// that it documents.
#[verifier::external_body]
pub(crate) fn parse_uuid(s: &str) -> (r: Option<u128>)
    ensures
        r == uuid_parsed(s@),
        forall|u: u128| s@ == #[trigger] uuid_text(u) ==> r == Some(u),
{
    match uuid::Uuid::parse_str(s) {
        Ok(u) => Some(u.as_u128()),
        Err(_) => None,
    }
}

/// `uuid::Uuid::now_v7`: a new identifier, made of the time and of random bits, so nothing is
/// claimed of its value.
#[verifier::external_body]
pub(crate) fn fresh_uuid() -> (r: u128) {
    uuid::Uuid::now_v7().as_u128()
}

/// Identifies a vault.
#[derive(Clone, Copy, PartialEq, Eq, Structural, PartialOrd, Ord, Hash, Debug)]
pub struct VaultId(pub u128);

impl VaultId {
    /// A new identifier; nothing is known of its value.
    pub fn new_v7() -> Self {
        VaultId(fresh_uuid())
    }

    /// The sixteen bytes of the identifier.
    pub fn to_bytes(&self) -> (r: Vec<u8>)
        ensures
            r@ == be128(self.0),
    {
        be128_bytes(self.0)
    }

    /// The canonical text of the identifier.
    pub fn text(&self) -> (r: String)
        ensures
            r@ == uuid_text(self.0),
    {
        string_of(&uuid_chars(self.0))
    }
}

/// Identifies a file.
#[derive(Clone, Copy, PartialEq, Eq, Structural, PartialOrd, Ord, Hash, Debug)]
pub struct FileId(pub u128);

impl FileId {
    /// A new identifier; nothing is known of its value.
    pub fn new_v7() -> Self {
        FileId(fresh_uuid())
    }

    /// The sixteen bytes of the identifier.
    pub fn to_bytes(&self) -> (r: Vec<u8>)
        ensures
            r@ == be128(self.0),
    {
        be128_bytes(self.0)
    }

    /// The canonical text of the identifier.
    pub fn text(&self) -> (r: String)
        ensures
            r@ == uuid_text(self.0),
    {
        string_of(&uuid_chars(self.0))
    }
}

/// Identifies a shadow record.
#[derive(Clone, Copy, PartialEq, Eq, Structural, PartialOrd, Ord, Hash, Debug)]
pub struct ShadowId(pub u128);

impl ShadowId {
    /// A new identifier; nothing is known of its value.
    pub fn new_v7() -> Self {
        ShadowId(fresh_uuid())
    }

    /// The sixteen bytes of the identifier.
    pub fn to_bytes(&self) -> (r: Vec<u8>)
        ensures
            r@ == be128(self.0),
    {
        be128_bytes(self.0)
    }

    /// The canonical text of the identifier.
    pub fn text(&self) -> (r: String)
        ensures
            r@ == uuid_text(self.0),
    {
        string_of(&uuid_chars(self.0))
    }
}

/// Identifies a storage provider instance.
#[derive(Clone, Copy, PartialEq, Eq, Structural, PartialOrd, Ord, Hash, Debug)]
pub struct ProviderId(pub u128);

impl ProviderId {
    /// A new identifier; nothing is known of its value.
    pub fn new_v7() -> Self {
        ProviderId(fresh_uuid())
    }

    /// The sixteen bytes of the identifier.
    pub fn to_bytes(&self) -> (r: Vec<u8>)
        ensures
            r@ == be128(self.0),
    {
        be128_bytes(self.0)
    }

    /// The canonical text of the identifier.
    pub fn text(&self) -> (r: String)
        ensures
            r@ == uuid_text(self.0),
    {
        string_of(&uuid_chars(self.0))
    }
}

/// Identifies a device.
#[derive(Clone, Copy, PartialEq, Eq, Structural, PartialOrd, Ord, Hash, Debug)]
pub struct DeviceId(pub u128);

impl DeviceId {
    /// A new identifier; nothing is known of its value.
    pub fn new_v7() -> Self {
        DeviceId(fresh_uuid())
    }

    /// The sixteen bytes of the identifier.
    pub fn to_bytes(&self) -> (r: Vec<u8>)
        ensures
            r@ == be128(self.0),
    {
        be128_bytes(self.0)
    }

    /// The canonical text of the identifier.
    pub fn text(&self) -> (r: String)
        ensures
            r@ == uuid_text(self.0),
    {
        string_of(&uuid_chars(self.0))
    }
}

/// Identifies a share.
#[derive(Clone, Copy, PartialEq, Eq, Structural, PartialOrd, Ord, Hash, Debug)]
pub struct ShareId(pub u128);

impl ShareId {
    /// A new identifier; nothing is known of its value.
    pub fn new_v7() -> Self {
        ShareId(fresh_uuid())
    }

    /// The sixteen bytes of the identifier.
    pub fn to_bytes(&self) -> (r: Vec<u8>)
        ensures
            r@ == be128(self.0),
    {
        be128_bytes(self.0)
    }

    /// The canonical text of the identifier.
    pub fn text(&self) -> (r: String)
        ensures
            r@ == uuid_text(self.0),
    {
        string_of(&uuid_chars(self.0))
    }
}

/// Identifies a lease.
#[derive(Clone, Copy, PartialEq, Eq, Structural, PartialOrd, Ord, Hash, Debug)]
pub struct LeaseId(pub u128);

impl LeaseId {
    /// A new identifier; nothing is known of its value.
    pub fn new_v7() -> Self {
        LeaseId(fresh_uuid())
    }

    /// The sixteen bytes of the identifier.
    pub fn to_bytes(&self) -> (r: Vec<u8>)
        ensures
            r@ == be128(self.0),
    {
        be128_bytes(self.0)
    }

    /// The canonical text of the identifier.
    pub fn text(&self) -> (r: String)
        ensures
            r@ == uuid_text(self.0),
    {
        string_of(&uuid_chars(self.0))
    }
}

/// Identifies a recovery manifest.
#[derive(Clone, Copy, PartialEq, Eq, Structural, PartialOrd, Ord, Hash, Debug)]
pub struct RecoveryManifestId(pub u128);

impl RecoveryManifestId {
    /// A new identifier; nothing is known of its value.
    pub fn new_v7() -> Self {
        RecoveryManifestId(fresh_uuid())
    }

    /// The sixteen bytes of the identifier.
    pub fn to_bytes(&self) -> (r: Vec<u8>)
        ensures
            r@ == be128(self.0),
    {
        be128_bytes(self.0)
    }

    /// The canonical text of the identifier.
    pub fn text(&self) -> (r: String)
        ensures
            r@ == uuid_text(self.0),
    {
        string_of(&uuid_chars(self.0))
    }
}

/// Identifies a recovery token.
#[derive(Clone, Copy, PartialEq, Eq, Structural, PartialOrd, Ord, Hash, Debug)]
pub struct RecoveryTokenId(pub u128);

impl RecoveryTokenId {
    /// A new identifier; nothing is known of its value.
    pub fn new_v7() -> Self {
        RecoveryTokenId(fresh_uuid())
    }

    /// The sixteen bytes of the identifier.
    pub fn to_bytes(&self) -> (r: Vec<u8>)
        ensures
            r@ == be128(self.0),
    {
        be128_bytes(self.0)
    }

    /// The canonical text of the identifier.
    pub fn text(&self) -> (r: String)
        ensures
            r@ == uuid_text(self.0),
    {
        string_of(&uuid_chars(self.0))
    }
}

/// A BLAKE3 digest.
#[derive(Clone, Copy, Eq, PartialOrd, Ord, Hash, Debug)]
pub struct BlakeHash(pub [u8; 32]);

impl BlakeHash {
    /// The value with these bytes.
    pub fn from_bytes(b: [u8; 32]) -> (r: Self)
        ensures
            r.0 == b,
    {
        BlakeHash(b)
    }

    /// The bytes of the value.
    pub fn as_bytes(&self) -> (r: &[u8; 32])
        ensures
            *r == self.0,
    {
        &self.0
    }
}

impl PartialEq for BlakeHash {
    fn eq(&self, other: &Self) -> (r: bool) {
        assert(self.0@ == other.0@ ==> self.0 =~= other.0);
        bytes_eq(&self.0, &other.0)
    }
}

impl vstd::std_specs::cmp::PartialEqSpecImpl for BlakeHash {
    open spec fn obeys_eq_spec() -> bool {
        true
    }

    open spec fn eq_spec(&self, other: &Self) -> bool {
        self == other
    }
}

/// The digest that names a chunk of plaintext.
#[derive(Clone, Copy, Eq, PartialOrd, Ord, Hash, Debug)]
pub struct ChunkHash(pub [u8; 32]);

impl ChunkHash {
    /// The value with these bytes.
    pub fn from_bytes(b: [u8; 32]) -> (r: Self)
        ensures
            r.0 == b,
    {
        ChunkHash(b)
    }

    /// The bytes of the value.
    pub fn as_bytes(&self) -> (r: &[u8; 32])
        ensures
            *r == self.0,
    {
        &self.0
    }
}

impl PartialEq for ChunkHash {
    fn eq(&self, other: &Self) -> (r: bool) {
        assert(self.0@ == other.0@ ==> self.0 =~= other.0);
        bytes_eq(&self.0, &other.0)
    }
}

impl vstd::std_specs::cmp::PartialEqSpecImpl for ChunkHash {
    open spec fn obeys_eq_spec() -> bool {
        true
    }

    open spec fn eq_spec(&self, other: &Self) -> bool {
        self == other
    }
}

/// The digest that names one shard of a chunk.
#[derive(Clone, Copy, Eq, PartialOrd, Ord, Hash, Debug)]
pub struct ShardId(pub [u8; 32]);

impl ShardId {
    /// The value with these bytes.
    pub fn from_bytes(b: [u8; 32]) -> (r: Self)
        ensures
            r.0 == b,
    {
        ShardId(b)
    }

    /// The bytes of the value.
    pub fn as_bytes(&self) -> (r: &[u8; 32])
        ensures
            *r == self.0,
    {
        &self.0
    }
}

impl PartialEq for ShardId {
    fn eq(&self, other: &Self) -> (r: bool) {
        assert(self.0@ == other.0@ ==> self.0 =~= other.0);
        bytes_eq(&self.0, &other.0)
    }
}

impl vstd::std_specs::cmp::PartialEqSpecImpl for ShardId {
    open spec fn obeys_eq_spec() -> bool {
        true
    }

    open spec fn eq_spec(&self, other: &Self) -> bool {
        self == other
    }
}

/// An Ed25519 verifying key.
#[derive(Clone, Copy, Eq, PartialOrd, Ord, Hash, Debug)]
pub struct Ed25519Pub(pub [u8; 32]);

impl Ed25519Pub {
    /// The value with these bytes.
    pub fn from_bytes(b: [u8; 32]) -> (r: Self)
        ensures
            r.0 == b,
    {
        Ed25519Pub(b)
    }

    /// The bytes of the value.
    pub fn as_bytes(&self) -> (r: &[u8; 32])
        ensures
            *r == self.0,
    {
        &self.0
    }
}

impl PartialEq for Ed25519Pub {
    fn eq(&self, other: &Self) -> (r: bool) {
        assert(self.0@ == other.0@ ==> self.0 =~= other.0);
        bytes_eq(&self.0, &other.0)
    }
}

impl vstd::std_specs::cmp::PartialEqSpecImpl for Ed25519Pub {
    open spec fn obeys_eq_spec() -> bool {
        true
    }

    open spec fn eq_spec(&self, other: &Self) -> bool {
        self == other
    }
}

/// An Ed25519 signing key.
#[derive(Clone, Copy, Eq, PartialOrd, Ord, Hash, Debug)]
pub struct Ed25519Priv(pub [u8; 32]);

impl Ed25519Priv {
    /// The value with these bytes.
    pub fn from_bytes(b: [u8; 32]) -> (r: Self)
        ensures
            r.0 == b,
    {
        Ed25519Priv(b)
    }

    /// The bytes of the value.
    pub fn as_bytes(&self) -> (r: &[u8; 32])
        ensures
            *r == self.0,
    {
        &self.0
    }
}

impl PartialEq for Ed25519Priv {
    fn eq(&self, other: &Self) -> (r: bool) {
        assert(self.0@ == other.0@ ==> self.0 =~= other.0);
        bytes_eq(&self.0, &other.0)
    }
}

impl vstd::std_specs::cmp::PartialEqSpecImpl for Ed25519Priv {
    open spec fn obeys_eq_spec() -> bool {
        true
    }

    open spec fn eq_spec(&self, other: &Self) -> bool {
        self == other
    }
}

/// An Ed25519 signature.
#[derive(Clone, Copy, Eq, PartialOrd, Ord, Hash, Debug)]
pub struct Ed25519Sig(pub [u8; 64]);

impl Ed25519Sig {
    /// The value with these bytes.
    pub fn from_bytes(b: [u8; 64]) -> (r: Self)
        ensures
            r.0 == b,
    {
        Ed25519Sig(b)
    }

    /// The bytes of the value.
    pub fn as_bytes(&self) -> (r: &[u8; 64])
        ensures
            *r == self.0,
    {
        &self.0
    }
}

impl PartialEq for Ed25519Sig {
    fn eq(&self, other: &Self) -> (r: bool) {
        assert(self.0@ == other.0@ ==> self.0 =~= other.0);
        bytes_eq(&self.0, &other.0)
    }
}

impl vstd::std_specs::cmp::PartialEqSpecImpl for Ed25519Sig {
    open spec fn obeys_eq_spec() -> bool {
        true
    }

    open spec fn eq_spec(&self, other: &Self) -> bool {
        self == other
    }
}

/// An AEAD authentication tag.
#[derive(Clone, Copy, Eq, PartialOrd, Ord, Hash, Debug)]
pub struct AeadTag(pub [u8; 16]);

impl AeadTag {
    /// The value with these bytes.
    pub fn from_bytes(b: [u8; 16]) -> (r: Self)
        ensures
            r.0 == b,
    {
        AeadTag(b)
    }

    /// The bytes of the value.
    pub fn as_bytes(&self) -> (r: &[u8; 16])
        ensures
            *r == self.0,
    {
        &self.0
    }
}

impl PartialEq for AeadTag {
    fn eq(&self, other: &Self) -> (r: bool) {
        assert(self.0@ == other.0@ ==> self.0 =~= other.0);
        bytes_eq(&self.0, &other.0)
    }
}

impl vstd::std_specs::cmp::PartialEqSpecImpl for AeadTag {
    open spec fn obeys_eq_spec() -> bool {
        true
    }

    open spec fn eq_spec(&self, other: &Self) -> bool {
        self == other
    }
}

/// Names a plugin.
#[derive(Clone, PartialEq, Eq, PartialOrd, Ord, Hash, Debug)]
pub struct PluginId(pub String);

impl PluginId {
    /// The name with this text.
    pub fn new(s: &str) -> (r: Self)
        ensures
            r.0@ == s@,
    {
        PluginId(s.to_owned())
    }

    /// Whether two names have the same text.
    pub fn same(&self, other: &Self) -> (r: bool)
        ensures
            r == (self.0@ == other.0@),
    {
        self.0 == other.0
    }

    /// A copy of the name.
    pub fn copied(&self) -> (r: Self)
        ensures
            r == *self,
    {
        PluginId(self.0.clone())
    }
}

/// Names a peer.
#[derive(Clone, PartialEq, Eq, PartialOrd, Ord, Hash, Debug)]
pub struct PeerId(pub String);

impl PeerId {
    /// The name with this text.
    pub fn new(s: &str) -> (r: Self)
        ensures
            r.0@ == s@,
    {
        PeerId(s.to_owned())
    }

    /// Whether two names have the same text.
    pub fn same(&self, other: &Self) -> (r: bool)
        ensures
            r == (self.0@ == other.0@),
    {
        self.0 == other.0
    }

    /// A copy of the name.
    pub fn copied(&self) -> (r: Self)
        ensures
            r == *self,
    {
        PeerId(self.0.clone())
    }
}

/// Names an identity.
#[derive(Clone, PartialEq, Eq, PartialOrd, Ord, Hash, Debug)]
pub struct IdentityId(pub String);

impl IdentityId {
    /// The name with this text.
    pub fn new(s: &str) -> (r: Self)
        ensures
            r.0@ == s@,
    {
        IdentityId(s.to_owned())
    }

    /// Whether two names have the same text.
    pub fn same(&self, other: &Self) -> (r: bool)
        ensures
            r == (self.0@ == other.0@),
    {
        self.0 == other.0
    }

    /// A copy of the name.
    pub fn copied(&self) -> (r: Self)
        ensures
            r == *self,
    {
        IdentityId(self.0.clone())
    }
}

/// Names a group of providers that are likely to fail or be compromised together.
#[derive(Clone, PartialEq, Eq, PartialOrd, Ord, Hash, Debug)]
pub struct TrustCorrelationGroup(pub String);

impl TrustCorrelationGroup {
    /// The name with this text.
    pub fn new(s: &str) -> (r: Self)
        ensures
            r.0@ == s@,
    {
        TrustCorrelationGroup(s.to_owned())
    }

    /// Whether two names have the same text.
    pub fn same(&self, other: &Self) -> (r: bool)
        ensures
            r == (self.0@ == other.0@),
    {
        self.0 == other.0
    }

    /// A copy of the name.
    pub fn copied(&self) -> (r: Self)
        ensures
            r == *self,
    {
        TrustCorrelationGroup(self.0.clone())
    }
}

/// A point in time as text. The form `epoch:N` counts seconds since the Unix epoch; any other
/// text is an opaque label.
#[derive(Clone, PartialEq, Eq, PartialOrd, Ord, Hash, Debug)]
pub struct Timestamp(pub String);

/// The seconds that a timestamp text stands for, where it has the form `epoch:N`.
pub open spec fn epoch_of(s: Seq<char>) -> Option<u64> {
    if chars_prefix(s, "epoch:"@) {
        parsed_u64(s.skip("epoch:"@.len() as int))
    } else {
        None
    }
}

/// The timestamp text of a number of seconds.
pub open spec fn epoch_text(n: u64) -> Seq<char> {
    "epoch:"@ + dec_digits(n as nat)
}

/// A timestamp made of a number of seconds reads back as that number.
pub proof fn lemma_epoch_round_trip(n: u64)
    ensures
        epoch_of(epoch_text(n)) == Some(n),
{
    lemma_decimal_round_trip(n);
    assert(epoch_text(n).take("epoch:"@.len() as int) =~= "epoch:"@);
    assert(epoch_text(n).skip("epoch:"@.len() as int) =~= dec_digits(n as nat));
}

impl Timestamp {
    /// The timestamp with this text.
    pub fn from_string(s: &str) -> (r: Self)
        ensures
            r.0@ == s@,
    {
        Timestamp(s.to_owned())
    }

    /// The timestamp of a number of seconds since the Unix epoch.
    pub fn from_epoch_secs(n: u64) -> (r: Self)
        ensures
            r.0@ == epoch_text(n),
            epoch_of(r.0@) == Some(n),
    {
        let mut out = chars_of("epoch:");
        push_decimal(&mut out, n);
        proof {
            lemma_epoch_round_trip(n);
        }
        Timestamp(string_of(&out))
    }

    /// The text of the timestamp.
    pub fn as_str(&self) -> (r: &str)
        ensures
            r@ == self.0@,
    {
        self.0.as_str()
    }

    /// The seconds since the Unix epoch, where the timestamp has that form.
    pub fn epoch_secs(&self) -> (r: Option<u64>)
        ensures
            r == epoch_of(self.0@),
    {
        let s = chars_of(self.0.as_str());
        let p = chars_of("epoch:");
        if chars_start_with(&s, &p) {
            let rest = chars_range(&s, p.len(), s.len());
            assert(rest@ =~= s@.skip(p@.len() as int));
            parse_u64(&rest)
        } else {
            None
        }
    }

    /// A copy of the timestamp.
    pub fn copied(&self) -> (r: Self)
        ensures
            r == *self,
    {
        Timestamp(self.0.clone())
    }
}

/// A hybrid logical clock reading: wall time, then a counter that orders readings within it.
#[derive(Clone, Copy, PartialEq, Eq, Structural, PartialOrd, Ord, Hash, Debug)]
pub struct Hlc {
    pub physical: u64,
    pub logical: u32,
}

impl Hlc {
    /// The reading with these parts.
    pub fn new(physical: u64, logical: u32) -> (r: Self)
        ensures
            r == (Hlc { physical, logical }),
    {
        Hlc { physical, logical }
    }

    /// The earliest reading.
    pub fn zero() -> (r: Self)
        ensures
            r == (Hlc { physical: 0, logical: 0 }),
    {
        Hlc { physical: 0, logical: 0 }
    }

    /// Whether this reading is earlier than the other.
    pub open spec fn before(self, other: Hlc) -> bool {
        self.physical < other.physical || (self.physical == other.physical && self.logical
            < other.logical)
    }

    /// Whether this reading is earlier than the other.
    pub fn is_before(&self, other: &Hlc) -> (r: bool)
        ensures
            r == self.before(*other),
    {
        self.physical < other.physical || (self.physical == other.physical && self.logical
            < other.logical)
    }
}

/// An erasure-coding scheme: any `k` of `n` shards give the data back.
#[derive(Clone, Copy, PartialEq, Eq, Structural, Hash, Debug)]
pub struct ECScheme {
    pub k: u8,
    pub n: u8,
}

impl ECScheme {
    /// The scheme with these counts, where `1 <= k <= n`.
    pub fn new(k: u8, n: u8) -> (r: Option<Self>)
        ensures
            r == (if 1 <= k && k <= n {
                Some(ECScheme { k, n })
            } else {
                None
            }),
    {
        if 1 <= k && k <= n {
            Some(ECScheme { k, n })
        } else {
            None
        }
    }

    /// `n` full copies.
    pub fn replication(n: u8) -> (r: Self)
        ensures
            r == (ECScheme { k: 1, n }),
    {
        ECScheme { k: 1, n }
    }
}

/// An AEAD cipher.
#[derive(Clone, Copy, PartialEq, Eq, Structural, Hash, Debug)]
pub enum AeadSuite {
    ChaCha20Poly1305,
    Aes256Gcm,
    XChaCha20Poly1305,
}

/// An AEAD nonce of one of the two lengths in use.
#[derive(Clone, Copy, PartialEq, Eq, Hash, Debug)]
pub enum AeadNonce {
    N12([u8; 12]),
    N24([u8; 24]),
}

impl AeadNonce {
    /// The bytes of the nonce.
    pub open spec fn bytes(self) -> Seq<u8> {
        match self {
            AeadNonce::N12(b) => b@,
            AeadNonce::N24(b) => b@,
        }
    }

    /// The bytes of the nonce.
    pub fn as_slice(&self) -> (r: &[u8])
        ensures
            r@ == self.bytes(),
    {
        match self {
            AeadNonce::N12(b) => b.as_slice(),
            AeadNonce::N24(b) => b.as_slice(),
        }
    }
}

/// What a derived key is for. The label keeps the keys of different purposes apart.
#[derive(Clone, Copy, PartialEq, Eq, Structural, Hash, Debug)]
pub enum KeyPurpose {
    File,
    ShareKem,
    VaultSalt,
    BloomSalt,
    CredWrap,
    WalSign,
    Snapshot,
}

impl KeyPurpose {
    /// The label of the purpose.
    pub open spec fn label(self) -> Seq<char> {
        match self {
            KeyPurpose::File => "kp:file"@,
            KeyPurpose::ShareKem => "kp:share-kem"@,
            KeyPurpose::VaultSalt => "kp:vault-salt"@,
            KeyPurpose::BloomSalt => "kp:bloom-salt"@,
            KeyPurpose::CredWrap => "kp:cred-wrap"@,
            KeyPurpose::WalSign => "kp:wal-sign"@,
            KeyPurpose::Snapshot => "kp:snapshot"@,
        }
    }

    /// The bytes of the label.
    pub open spec fn bytes(self) -> Seq<u8> {
        encode_utf8(self.label())
    }

    /// The bytes of the label.
    pub fn as_bytes(&self) -> (r: &'static [u8])
        ensures
            r@ == self.bytes(),
    {
        match self {
            KeyPurpose::File => "kp:file".as_bytes(),
            KeyPurpose::ShareKem => "kp:share-kem".as_bytes(),
            KeyPurpose::VaultSalt => "kp:vault-salt".as_bytes(),
            KeyPurpose::BloomSalt => "kp:bloom-salt".as_bytes(),
            KeyPurpose::CredWrap => "kp:cred-wrap".as_bytes(),
            KeyPurpose::WalSign => "kp:wal-sign".as_bytes(),
            KeyPurpose::Snapshot => "kp:snapshot".as_bytes(),
        }
    }
}

/// Different purposes have different labels.
pub proof fn lemma_purposes_apart(a: KeyPurpose, b: KeyPurpose)
    requires
        a != b,
    ensures
        a.label() != b.label(),
{
    reveal_strlit("kp:file");
    reveal_strlit("kp:share-kem");
    reveal_strlit("kp:vault-salt");
    reveal_strlit("kp:bloom-salt");
    reveal_strlit("kp:cred-wrap");
    reveal_strlit("kp:wal-sign");
    reveal_strlit("kp:snapshot");
    assert("kp:file"@.len() == 7 && "kp:share-kem"@.len() == 12 && "kp:vault-salt"@.len() == 13
        && "kp:bloom-salt"@.len() == 13 && "kp:cred-wrap"@.len() == 12 && "kp:wal-sign"@.len() == 11
        && "kp:snapshot"@.len() == 11);
    assert("kp:share-kem"@[3] == 's' && "kp:cred-wrap"@[3] == 'c');
    assert("kp:vault-salt"@[3] == 'v' && "kp:bloom-salt"@[3] == 'b');
    assert("kp:wal-sign"@[3] == 'w' && "kp:snapshot"@[3] == 's');
}

/// The passphrase hash in use.
#[derive(Clone, Copy, PartialEq, Eq, Structural, Hash, Debug)]
pub enum KdfAlgo {
    Argon2id,
    Scrypt,
}

/// How a passphrase becomes a master key.
#[derive(Clone, PartialEq, Eq, Hash, Debug)]
pub struct KdfParams {
    pub algo: KdfAlgo,
    pub memory_kib: u32,
    pub iterations: u32,
    pub parallelism: u32,
    pub salt: Vec<u8>,
}

/// A key-encapsulation public key.
#[derive(Clone, PartialEq, Eq, Hash, Debug)]
pub struct MlKemPub(pub Vec<u8>);

/// The number of an identity epoch.
#[derive(Clone, Copy, PartialEq, Eq, Structural, PartialOrd, Ord, Hash, Debug)]
pub struct EpochId(pub u32);

/// A counter that only grows.
#[derive(Clone, Copy, PartialEq, Eq, Structural, PartialOrd, Ord, Hash, Debug)]
pub struct MonotonicCounter(pub u64);

/// Health in thousandths: 0 is dead, 1000 is sound.
#[derive(Clone, Copy, PartialEq, Eq, Structural, PartialOrd, Ord, Hash, Debug)]
pub struct HealthScore(pub u16);

/// How a provider can overwrite an object in place.
#[derive(Clone, Copy, PartialEq, Eq, Structural, Hash, Debug)]
pub enum UpdateCapability {
    Unsupported,
    AtomicReplace,
    TrueUpdate,
}

impl UpdateCapability {
    /// Whether a slot of such a provider can be written again.
    pub open spec fn reusable(self) -> bool {
        self != UpdateCapability::Unsupported
    }

    /// Whether a slot of such a provider can be written again.
    pub fn allows_reuse(&self) -> (r: bool)
        ensures
            r == self.reusable(),
    {
        !matches!(self, UpdateCapability::Unsupported)
    }
}

/// What a vault provider promises of compare-and-swap, weakest first.
#[derive(Clone, Copy, PartialEq, Eq, Structural, PartialOrd, Ord, Hash, Debug)]
pub enum CasTier {
    EventualOnly,
    OptimisticCas,
    StrongCas,
}

impl CasTier {
    /// The strength of the promise.
    pub open spec fn rank(self) -> int {
        match self {
            CasTier::EventualOnly => 0,
            CasTier::OptimisticCas => 1,
            CasTier::StrongCas => 2,
        }
    }

    fn strength(&self) -> (r: u8)
        ensures
            r == self.rank(),
    {
        match self {
            CasTier::EventualOnly => 0,
            CasTier::OptimisticCas => 1,
            CasTier::StrongCas => 2,
        }
    }

    /// Whether this promise is at least as strong as the other.
    pub fn is_at_least(&self, other: CasTier) -> (r: bool)
        ensures
            r == (self.rank() >= other.rank()),
    {
        self.strength() >= other.strength()
    }
}

/// The class of a provider error, as the health rules see it.
#[derive(Clone, Copy, PartialEq, Eq, Structural, Hash, Debug)]
pub enum ErrorClass {
    Auth,
    RateLimit,
    Network,
    NotFound,
    Corruption,
    Other,
}

/// Legal exposure of a plugin.
#[derive(Clone, Copy, PartialEq, Eq, Structural, Hash, Debug)]
pub enum LegalClass {
    Green,
    Amber,
    Red,
}

/// What became of an object that was to be deleted.
#[derive(Clone, Copy, PartialEq, Eq, Structural, Hash, Debug)]
pub enum DeleteOutcome {
    Removed,
    NotFound,
    Tombstoned,
    Abandoned,
    NotSupported,
}

/// How likely it is that a deleted object lives on in a cache.
#[derive(Clone, Copy, PartialEq, Eq, Structural, Hash, Debug)]
pub enum CachedElsewhereRisk {
    Low,
    Medium,
    High,
}

/// Whether a delete gave quota back.
#[derive(Clone, Copy, PartialEq, Eq, Structural, Hash, Debug)]
pub enum QuotaReclaimed {
    Yes,
    No,
    Unknown,
}

/// Storage tier.
#[derive(Clone, Copy, PartialEq, Eq, Structural, Hash, Debug)]
pub enum Tier {
    Hot,
    Warm,
    Cold,
}

/// How a file key is wrapped for a recipient.
#[derive(Clone, Copy, PartialEq, Eq, Structural, Hash, Debug)]
pub enum WrapScheme {
    MlKem768Chacha20Poly1305,
}

/// A file key as one recipient holds it.
#[derive(Clone, PartialEq, Eq, Hash, Debug)]
pub struct WrappedKey {
    pub scheme: WrapScheme,
    pub ciphertext: Vec<u8>,
    pub recipient_id: PeerId,
    pub wrapped_at: Timestamp,
}

/// An opaque reference to stored credentials.
#[derive(Clone, PartialEq, Eq, Hash, Debug)]
pub struct CredentialsHandle(pub Vec<u8>);

/// The position of an entry in a device's write-ahead log.
#[derive(Clone, Copy, PartialEq, Eq, Structural, PartialOrd, Ord, Hash, Debug)]
pub struct WalEntryId {
    pub seq: u64,
}

/// A span of bytes of a stored object, from `start` up to but not with `end`.
#[derive(Clone, Copy, PartialEq, Eq, Structural, Hash, Debug)]
pub struct Range {
    pub start: u64,
    pub end: u64,
}

/// Quota of a provider, where it reports one.
#[derive(Clone, Copy, PartialEq, Eq, Structural, Hash, Debug)]
pub struct QuotaState {
    pub total: Option<u64>,
    pub used: Option<u64>,
    pub untrusted: bool,
}

/// How many calls a provider still grants, and when it grants more.
#[derive(Clone, PartialEq, Eq, Debug)]
pub struct RateLimitState {
    pub remaining: u32,
    pub reset_at: Timestamp,
}

/// Something that a plugin may be able to do.
#[derive(Clone, Copy, PartialEq, Eq, Structural, PartialOrd, Ord, Hash, Debug)]
pub enum Capability {
    Put,
    Get,
    Peek,
    Delete,
    RangeRead,
    Tombstone,
    QuotaReport,
    AtomicReplace,
}

impl Capability {
    /// The name of the capability.
    pub open spec fn label(self) -> Seq<char> {
        match self {
            Capability::Put => "Put"@,
            Capability::Get => "Get"@,
            Capability::Peek => "Peek"@,
            Capability::Delete => "Delete"@,
            Capability::RangeRead => "RangeRead"@,
            Capability::Tombstone => "Tombstone"@,
            Capability::QuotaReport => "QuotaReport"@,
            Capability::AtomicReplace => "AtomicReplace"@,
        }
    }

    /// The name of the capability.
    pub fn name(&self) -> (r: String)
        ensures
            r@ == self.label(),
    {
        match self {
            Capability::Put => "Put".to_owned(),
            Capability::Get => "Get".to_owned(),
            Capability::Peek => "Peek".to_owned(),
            Capability::Delete => "Delete".to_owned(),
            Capability::RangeRead => "RangeRead".to_owned(),
            Capability::Tombstone => "Tombstone".to_owned(),
            Capability::QuotaReport => "QuotaReport".to_owned(),
            Capability::AtomicReplace => "AtomicReplace".to_owned(),
        }
    }
}

/// A set of capabilities, one flag for each.
#[derive(Clone, Copy, PartialEq, Eq, Structural, Hash, Debug)]
pub struct CapabilitySet {
    pub put: bool,
    pub get: bool,
    pub peek: bool,
    pub delete: bool,
    pub range_read: bool,
    pub tombstone: bool,
    pub quota_report: bool,
    pub atomic_replace: bool,
}

impl Default for CapabilitySet {
    fn default() -> (r: Self)
        ensures
            forall|c: Capability| !r.holds(c),
    {
        CapabilitySet {
            put: false,
            get: false,
            peek: false,
            delete: false,
            range_read: false,
            tombstone: false,
            quota_report: false,
            atomic_replace: false,
        }
    }
}

impl CapabilitySet {
    /// Whether the set holds `c`.
    pub open spec fn holds(self, c: Capability) -> bool {
        match c {
            Capability::Put => self.put,
            Capability::Get => self.get,
            Capability::Peek => self.peek,
            Capability::Delete => self.delete,
            Capability::RangeRead => self.range_read,
            Capability::Tombstone => self.tombstone,
            Capability::QuotaReport => self.quota_report,
            Capability::AtomicReplace => self.atomic_replace,
        }
    }

    /// Whether the set holds `c`.
    pub fn has(&self, c: Capability) -> (r: bool)
        ensures
            r == self.holds(c),
    {
        match c {
            Capability::Put => self.put,
            Capability::Get => self.get,
            Capability::Peek => self.peek,
            Capability::Delete => self.delete,
            Capability::RangeRead => self.range_read,
            Capability::Tombstone => self.tombstone,
            Capability::QuotaReport => self.quota_report,
            Capability::AtomicReplace => self.atomic_replace,
        }
    }

    fn set(self, c: Capability, on: bool) -> (r: Self)
        ensures
            forall|d: Capability| #[trigger] r.holds(d) == (if d == c { on } else { self.holds(d) }),
    {
        let mut out = self;
        match c {
            Capability::Put => out.put = on,
            Capability::Get => out.get = on,
            Capability::Peek => out.peek = on,
            Capability::Delete => out.delete = on,
            Capability::RangeRead => out.range_read = on,
            Capability::Tombstone => out.tombstone = on,
            Capability::QuotaReport => out.quota_report = on,
            Capability::AtomicReplace => out.atomic_replace = on,
        }
        out
    }

    /// The set with `c` added.
    pub fn with(self, c: Capability) -> (r: Self)
        ensures
            forall|d: Capability| #[trigger] r.holds(d) == (d == c || self.holds(d)),
    {
        self.set(c, true)
    }

    /// The set with `c` taken out.
    pub fn without(self, c: Capability) -> (r: Self)
        ensures
            forall|d: Capability| #[trigger] r.holds(d) == (d != c && self.holds(d)),
    {
        self.set(c, false)
    }
}

/// Where a provider stands with the health rules.
#[derive(Clone, PartialEq, Eq, Hash, Debug)]
pub enum ProviderHealth {
    Active,
    Quarantined { reason: ErrorClass, since: Timestamp },
    Banned { since: Timestamp },
}

impl ProviderHealth {
    /// Whether the provider is banned.
    pub fn is_banned(&self) -> (r: bool)
        ensures
            r == (self is Banned),
    {
        matches!(self, ProviderHealth::Banned { .. })
    }
}

/// The text of an identifier is its sixteen bytes in hexadecimal, in groups of four, two, two, two
/// and six bytes with a hyphen between them.
pub proof fn lemma_uuid_layout(u: u128)
    ensures
        uuid_text(u).len() == 36,
        forall|i: int|
            0 <= i < 36 ==> (#[trigger] uuid_text(u)[i] == '-' <==> i == 8 || i == 13 || i == 18 || i
                == 23),
        hex_text(be128(u)) == uuid_text(u).subrange(0, 8) + uuid_text(u).subrange(9, 13) + uuid_text(
            u,
        ).subrange(14, 18) + uuid_text(u).subrange(19, 23) + uuid_text(u).subrange(24, 36),
{
    crate::bytes::lemma_be128_round_trip(u);
    let h = hex_text(be128(u));
    assert(h.len() == 32);
    let t = uuid_text(u);
    assert(t.subrange(0, 8) =~= h.subrange(0, 8));
    assert(t.subrange(9, 13) =~= h.subrange(8, 12));
    assert(t.subrange(14, 18) =~= h.subrange(12, 16));
    assert(t.subrange(19, 23) =~= h.subrange(16, 20));
    assert(t.subrange(24, 36) =~= h.subrange(20, 32));
    assert(h =~= t.subrange(0, 8) + t.subrange(9, 13) + t.subrange(14, 18) + t.subrange(19, 23)
        + t.subrange(24, 36));
    assert forall|i: int| 0 <= i < 32 implies #[trigger] h[i] != '-' by {}
    assert forall|i: int| 0 <= i < 36 implies (#[trigger] t[i] == '-' <==> i == 8 || i == 13 || i
        == 18 || i == 23) by {
        let j = if i < 8 {
            i
        } else if i < 13 {
            i - 1
        } else if i < 18 {
            i - 2
        } else if i < 23 {
            i - 3
        } else {
            i - 4
        };
        if i != 8 && i != 13 && i != 18 && i != 23 {
            assert(t[i] == h[j]);
        }
    }
}

/// Different identifiers have different texts.
pub proof fn lemma_uuid_texts_apart(a: u128, b: u128)
    requires
        uuid_text(a) == uuid_text(b),
    ensures
        a == b,
{
    lemma_uuid_layout(a);
    lemma_uuid_layout(b);
    crate::text::lemma_hex_round_trip(be128(a));
    crate::text::lemma_hex_round_trip(be128(b));
    crate::bytes::lemma_be128_injective(a, b);
}

/// An instant is read exactly from a text that is `epoch:` and a number of seconds, and is written
/// as such a text.
pub proof fn lemma_epoch_form(s: Seq<char>, rest: Seq<char>, n: u64)
    ensures
        epoch_of("epoch:"@ + rest) == crate::text::parsed_u64(rest),
        epoch_of(s) is Some ==> exists|t: Seq<char>| s == #[trigger] ("epoch:"@ + t),
        epoch_of(epoch_text(n)) == Some(n),
{
    let p = "epoch:"@;
    assert((p + rest).take(p.len() as int) =~= p);
    assert((p + rest).skip(p.len() as int) =~= rest);
    if epoch_of(s) is Some {
        assert(s =~= p + s.skip(p.len() as int));
    }
    lemma_epoch_round_trip(n);
}

/// Readings are in a line: of two that differ exactly one is the earlier, none is earlier than
/// itself, and what is earlier than an earlier one is earlier.
pub proof fn lemma_readings_in_line(a: Hlc, b: Hlc, c: Hlc)
    ensures
        !a.before(a),
        a != b ==> (a.before(b) <==> !b.before(a)),
        a.before(b) && b.before(c) ==> a.before(c),
{
}

/// A later physical time is a later reading whatever the counters are; within one physical time
/// the counter decides.
pub proof fn lemma_physical_time_first(p: u64, q: u64, l: u32, m: u32)
    ensures
        p < q ==> (Hlc { physical: p, logical: l }).before(Hlc { physical: q, logical: m }),
        l < m ==> (Hlc { physical: p, logical: l }).before(Hlc { physical: p, logical: m }),
{
}

/// A provider's guarantees get stronger in this order, and no two are alike.
pub proof fn lemma_tiers_in_order(a: CasTier, b: CasTier)
    ensures
        CasTier::EventualOnly.rank() < CasTier::OptimisticCas.rank(),
        CasTier::OptimisticCas.rank() < CasTier::StrongCas.rank(),
        a.rank() == b.rank() ==> a == b,
{
}

/// Different capabilities have different labels.
pub proof fn lemma_capability_labels_apart(a: Capability, b: Capability)
    requires
        a.label() == b.label(),
    ensures
        a == b,
{
    reveal_strlit("Put");
    reveal_strlit("Get");
    reveal_strlit("Peek");
    reveal_strlit("Delete");
    reveal_strlit("RangeRead");
    reveal_strlit("Tombstone");
    reveal_strlit("QuotaReport");
    reveal_strlit("AtomicReplace");
    let (s, t) = (a.label(), b.label());
    assert(s.len() == t.len() && s[0] == t[0]);
}

} // verus!
