//! Installing plugins, handing over credentials, and noticing that a plugin can do less than
//! before.

use vstd::prelude::*;
use vstd::utf8::*;

use crate::byte_map::ByteMap;
use crate::bytes::bytes_eq;
use crate::bytes::to_vec;
use crate::crypto::aead::aead_sealed;
use crate::crypto::aead::chacha_sealed;
use crate::crypto::subkey::hkdf_sha256_output;
use crate::crypto::aead::decrypt;
use crate::crypto::aead::decrypt_result;
use crate::crypto::aead::encrypt;
use crate::crypto::aead::random_12;
use crate::crypto::aead::CHACHA_MAX_BYTES;
use crate::crypto::kem::thread_random_16;
use crate::crypto::sig::ed25519_accepts;
use crate::crypto::sig::ed25519_public;
use crate::crypto::sig::ed25519_signature;
use crate::crypto::sig::verify;
use crate::crypto::subkey::derive_subkey;
use crate::crypto::subkey::subkey;
use crate::crypto::CryptoError;
use crate::crypto::SymKey;
use crate::text::hex_encode;
use crate::text::hex_text;
use crate::text::push_text;
use crate::text::str_eq;
use crate::text::string_of;
use crate::types::AeadNonce;
use crate::types::AeadSuite;
use crate::types::AeadTag;
use crate::types::lemma_capability_labels_apart;
use crate::types::Capability;
use crate::types::CapabilitySet;
use crate::types::CredentialsHandle;
use crate::types::Ed25519Pub;
use crate::types::Ed25519Sig;
use crate::types::KeyPurpose;
use crate::types::LegalClass;
use crate::types::PluginId;

verus! {

/// Why a step of a plugin's life was refused.
#[derive(Clone, PartialEq, Eq, Debug)]
pub enum LifecycleError {
    SignatureInvalid,
    AuthorRotated,
    RedLegalClassUnconfirmed,
    OAuthSessionNotFound,
    OAuthInsufficientScope { required: Vec<String>, received: Vec<String> },
    Crypto(CryptoError),
}

/// What a plugin's author says of it, and signs.
#[derive(Clone, PartialEq, Eq, Debug)]
pub struct PluginManifest {
    pub plugin_id: PluginId,
    pub version: String,
    pub author_pubkey: Ed25519Pub,
    pub legal_class: LegalClass,
    pub requested_capabilities: CapabilitySet,
    pub source_url: String,
    pub signature: Ed25519Sig,
}

/// How firmly the user agreed to an installation.
#[derive(Clone, Copy, PartialEq, Eq, Structural, Debug)]
pub enum UserConfirmation {
    Confirm,
    DoubleConfirm,
}

/// Why an installation is refused, where it is: first the signature, then the author, then the
/// legal class. `canonical` is the encoded manifest with its signature zeroed.
pub open spec fn install_refusal(
    manifest: PluginManifest,
    canonical: Seq<u8>,
    prior: Option<&Ed25519Pub>,
    confirmation: UserConfirmation,
) -> Option<LifecycleError> {
    if !ed25519_accepts(manifest.author_pubkey.0@, canonical, manifest.signature.0@) {
        Some(LifecycleError::SignatureInvalid)
    } else if prior is Some && prior.unwrap().0@ != manifest.author_pubkey.0@ {
        Some(LifecycleError::AuthorRotated)
    } else if manifest.legal_class == LegalClass::Red && confirmation
        != UserConfirmation::DoubleConfirm {
        Some(LifecycleError::RedLegalClassUnconfirmed)
    } else {
        None
    }
}

/// Whether `u` is a manifest with its signature zeroed, and so what the author signs: every other
/// field is part of it.
pub open spec fn is_unsigned_manifest(u: PluginManifest, m: PluginManifest) -> bool {
    &&& u == (PluginManifest { signature: u.signature, ..m })
    &&& u.signature.0@ == Seq::new(64, |i: int| 0u8)
}

/// Whether manifests differ at most in the signature.
pub open spec fn same_but_signature(a: PluginManifest, b: PluginManifest) -> bool {
    a == (PluginManifest { signature: a.signature, ..b })
}

impl PluginManifest {
    /// The manifest with its signature zeroed.
    pub fn unsigned(&self) -> (r: Self)
        ensures
            is_unsigned_manifest(r, *self),
            r.plugin_id == self.plugin_id && r.version == self.version && r.author_pubkey
                == self.author_pubkey && r.legal_class == self.legal_class && r.requested_capabilities
                == self.requested_capabilities && r.source_url == self.source_url,
    {
        let none: [u8; 64] = [0u8; 64];
        assert(none@ =~= Seq::new(64, |i: int| 0u8));
        PluginManifest {
            plugin_id: self.plugin_id.copied(),
            version: self.version.clone(),
            author_pubkey: self.author_pubkey,
            legal_class: self.legal_class,
            requested_capabilities: self.requested_capabilities,
            source_url: self.source_url.clone(),
            signature: Ed25519Sig(none),
        }
    }
}

/// Whether an encoder gives these bytes, or this failure, for a manifest with its signature zeroed.
pub open spec fn manifest_encodes<F: Fn(PluginManifest) -> Result<Vec<u8>, String>>(
    encode: F,
    m: PluginManifest,
    r: Result<Vec<u8>, String>,
) -> bool {
    exists|u: PluginManifest| is_unsigned_manifest(u, m) && #[trigger] encode.ensures((u,), r)
}

/// Whether an encoder gives a manifest, with its signature zeroed, the same bytes every time.
pub open spec fn encodes_manifests_alike<F: Fn(PluginManifest) -> Result<Vec<u8>, String>>(
    encode: F,
) -> bool {
    forall|m: PluginManifest, x: Result<Vec<u8>, String>, y: Result<Vec<u8>, String>|
        #[trigger] manifest_encodes(encode, m, x) && #[trigger] manifest_encodes(encode, m, y) ==> (
        x matches Ok(p) ==> (y matches Ok(q) && p@ == q@))
}

/// Whether an encoder tells manifests that differ in more than the signature apart.
pub open spec fn tells_manifests_apart<F: Fn(PluginManifest) -> Result<Vec<u8>, String>>(
    encode: F,
) -> bool {
    forall|a: PluginManifest, b: PluginManifest, x: Vec<u8>, y: Vec<u8>|
        #[trigger] manifest_encodes(encode, a, Ok(x)) && #[trigger] manifest_encodes(
            encode,
            b,
            Ok(y),
        ) && x@ == y@ ==> same_but_signature(a, b)
}

/// Whether an author signed a manifest: the signature is over the encoding of the manifest itself,
/// with the signature zeroed.
pub open spec fn manifest_signed<F: Fn(PluginManifest) -> Result<Vec<u8>, String>>(
    encode: F,
    m: PluginManifest,
    secret: Seq<u8>,
) -> bool {
    &&& secret.len() == 32
    &&& m.author_pubkey.0@ == ed25519_public(secret)
    &&& exists|b: Vec<u8>| #[trigger]
        manifest_encodes(encode, m, Ok(b)) && m.signature.0@ == ed25519_signature(secret, b@)
}

/// What a check of a manifest comes to.
pub open spec fn install_checked<F: Fn(PluginManifest) -> Result<Vec<u8>, String>>(
    encode: F,
    m: PluginManifest,
    prior: Option<&Ed25519Pub>,
    confirmation: UserConfirmation,
    r: Result<(), LifecycleError>,
) -> bool {
    exists|encoded: Result<Vec<u8>, String>| #[trigger]
        manifest_encodes(encode, m, encoded) && (match encoded {
            Ok(b) => r == (match install_refusal(m, b@, prior, confirmation) {
                Some(e) => Err::<(), LifecycleError>(e),
                None => Ok(()),
            }),
            Err(_) => is_encode_failure(r),
        })
}

/// Whether a result says that a manifest could not be encoded.
pub open spec fn is_encode_failure(r: Result<(), LifecycleError>) -> bool {
    r matches Err(LifecycleError::Crypto(CryptoError::Input(m))) && m@ == "encode"@
}

/// Encodes a manifest with its signature zeroed.
pub fn canonical_manifest_bytes<F: Fn(PluginManifest) -> Result<Vec<u8>, String>>(
    manifest: &PluginManifest,
    encode: &F,
) -> (r: Result<Vec<u8>, LifecycleError>)
    requires
        forall|m: PluginManifest| #[trigger] encode.requires((m,)),
    ensures
        match r {
            Ok(b) => manifest_encodes(*encode, *manifest, Ok(b)),
            Err(e) => (e matches LifecycleError::Crypto(CryptoError::Input(m)) && m@ == "encode"@)
                && exists|why: String| #[trigger] manifest_encodes(*encode, *manifest, Err(why)),
        },
{
    let u = manifest.unsigned();
    let ghost g = u;
    let encoded = encode(u);
    assert(encode.ensures((g,), encoded));
    assert(manifest_encodes(*encode, *manifest, encoded));
    match encoded {
        Ok(b) => Ok(b),
        Err(_) => Err(LifecycleError::Crypto(CryptoError::Input("encode"))),
    }
}

/// Checks a manifest before an installation. The author's signature must cover the encoding of
/// this very manifest, with its signature zeroed; `prior` is the author key of an earlier
/// installation. A manifest that its author signed is not refused for its signature.
pub fn verify_install<F: Fn(PluginManifest) -> Result<Vec<u8>, String>>(
    manifest: &PluginManifest,
    encode: F,
    prior: Option<&Ed25519Pub>,
    confirmation: UserConfirmation,
) -> (r: Result<(), LifecycleError>)
    requires
        forall|m: PluginManifest| #[trigger] encode.requires((m,)),
    ensures
        install_checked(encode, *manifest, prior, confirmation, r),
        forall|secret: Seq<u8>|
            encodes_manifests_alike(encode) && #[trigger] manifest_signed(encode, *manifest, secret)
                ==> r != Err::<(), LifecycleError>(LifecycleError::SignatureInvalid)
                && !is_encode_failure(r),
{
    let bytes = match canonical_manifest_bytes(manifest, &encode) {
        Ok(b) => b,
        Err(e) => {
            return Err(e);
        },
    };
    let ghost b = bytes;
    assert(manifest_encodes(encode, *manifest, Ok(b)));
    verify_install_over(manifest, &bytes, prior, confirmation)
}

/// Checks a manifest whose signed bytes are `canonical`.
pub fn verify_install_over(
    manifest: &PluginManifest,
    canonical: &[u8],
    prior: Option<&Ed25519Pub>,
    confirmation: UserConfirmation,
) -> (r: Result<(), LifecycleError>)
    ensures
        r == (match install_refusal(*manifest, canonical@, prior, confirmation) {
            Some(e) => Err::<(), LifecycleError>(e),
            None => Ok(()),
        }),
        r is Ok <==> ed25519_accepts(manifest.author_pubkey.0@, canonical@, manifest.signature.0@) && (
        prior is None || prior.unwrap().0@ == manifest.author_pubkey.0@) && (manifest.legal_class
            != LegalClass::Red || confirmation == UserConfirmation::DoubleConfirm),
        forall|secret: Seq<u8>|
            secret.len() == 32 && manifest.author_pubkey.0@ == ed25519_public(secret)
                && manifest.signature.0@ == #[trigger] ed25519_signature(secret, canonical@) ==> r
                != Err::<(), LifecycleError>(LifecycleError::SignatureInvalid),
{
    match verify(&manifest.author_pubkey, canonical, &manifest.signature) {
        Ok(()) => {},
        Err(_) => {
            return Err(LifecycleError::SignatureInvalid);
        },
    }
    if let Some(known) = prior {
        if !bytes_eq(&known.0, &manifest.author_pubkey.0) {
            return Err(LifecycleError::AuthorRotated);
        }
    }
    if manifest.legal_class == LegalClass::Red && confirmation != UserConfirmation::DoubleConfirm {
        return Err(LifecycleError::RedLegalClassUnconfirmed);
    }
    Ok(())
}

/// A manifest that was changed behind its author's back is checked over other bytes than the author
/// signed: to pass, the author's signature would have to hold for both.
pub proof fn lemma_changed_manifest<F: Fn(PluginManifest) -> Result<Vec<u8>, String>>(
    encode: F,
    m: PluginManifest,
    changed: PluginManifest,
    secret: Seq<u8>,
    prior: Option<&Ed25519Pub>,
    confirmation: UserConfirmation,
)
    requires
        tells_manifests_apart(encode),
        manifest_signed(encode, m, secret),
        changed.signature.0@ == m.signature.0@,
        !same_but_signature(m, changed),
        install_checked(encode, changed, prior, confirmation, Ok(())),
    ensures
        exists|signed: Seq<u8>, other: Seq<u8>|
            signed != other && m.signature.0@ == #[trigger] ed25519_signature(secret, signed)
                && #[trigger] ed25519_accepts(changed.author_pubkey.0@, other, m.signature.0@),
{
    let x = choose|b: Vec<u8>| #[trigger]
        manifest_encodes(encode, m, Ok(b)) && m.signature.0@ == ed25519_signature(secret, b@);
    let encoded = choose|encoded: Result<Vec<u8>, String>| #[trigger]
        manifest_encodes(encode, changed, encoded) && (match encoded {
            Ok(b) => Ok::<(), LifecycleError>(()) == (match install_refusal(
                changed,
                b@,
                prior,
                confirmation,
            ) {
                Some(e) => Err::<(), LifecycleError>(e),
                None => Ok(()),
            }),
            Err(_) => is_encode_failure(Ok(())),
        });
    let y = encoded->Ok_0;
    assert(manifest_encodes(encode, changed, Ok(y)));
    assert(x@ != y@);
    assert(ed25519_accepts(changed.author_pubkey.0@, y@, m.signature.0@));
    assert(m.signature.0@ == ed25519_signature(secret, x@));
}

/// A hand-over of credentials that is under way.
#[derive(Clone, PartialEq, Eq, Debug)]
pub struct OAuthSession {
    pub plugin_id: PluginId,
    pub state: String,
    pub auth_url: String,
    pub required_scopes: Vec<String>,
}

/// A token, encrypted for its plugin.
#[derive(Clone, PartialEq, Eq, Debug)]
pub struct WrappedToken {
    pub plugin_id: PluginId,
    pub ciphertext: Vec<u8>,
    pub nonce: AeadNonce,
    pub tag: AeadTag,
}

/// The key that a plugin's tokens are encrypted under.
pub open spec fn token_key(master: Seq<u8>, plugin_id: Seq<char>) -> Seq<u8> {
    subkey(master, KeyPurpose::CredWrap, Some(encode_utf8(plugin_id)))
}

/// The associated data of a plugin's tokens.
pub open spec fn token_aad(plugin_id: Seq<char>) -> Seq<u8> {
    encode_utf8("oauth:"@ + plugin_id)
}

/// Whether `w` holds a token, encrypted for its plugin under a master key.
pub open spec fn wraps_token(w: WrappedToken, master: Seq<u8>, token: Seq<u8>) -> bool {
    &&& w.nonce is N12
    &&& w.ciphertext@.len() == token.len()
    &&& w.ciphertext@ + w.tag.0@ == aead_sealed(
        AeadSuite::ChaCha20Poly1305,
        token_key(master, w.plugin_id.0@),
        w.nonce.bytes(),
        token,
        token_aad(w.plugin_id.0@),
    )
}

/// Whether every required scope was granted.
pub open spec fn covers(granted: Seq<String>, required: Seq<String>) -> bool {
    forall|i: int| 0 <= i < required.len() ==> has_scope(granted, (#[trigger] required[i])@)
}

/// Whether a scope was granted.
pub open spec fn has_scope(granted: Seq<String>, scope: Seq<char>) -> bool {
    exists|j: int| 0 <= j < granted.len() && (#[trigger] granted[j])@ == scope
}

fn scope_granted(granted: &Vec<String>, scope: &String) -> (r: bool)
    ensures
        r == has_scope(granted@, scope@),
{
    let mut j: usize = 0;
    while j < granted.len()
        invariant
            0 <= j <= granted@.len(),
            forall|k: int| 0 <= k < j ==> (#[trigger] granted@[k])@ != scope@,
        decreases granted@.len() - j,
    {
        if str_eq(granted[j].as_str(), scope.as_str()) {
            return true;
        }
        j = j + 1;
    }
    false
}

fn all_granted(granted: &Vec<String>, required: &Vec<String>) -> (r: bool)
    ensures
        r == covers(granted@, required@),
{
    let mut i: usize = 0;
    while i < required.len()
        invariant
            0 <= i <= required@.len(),
            forall|j: int| 0 <= j < i ==> has_scope(granted@, (#[trigger] required@[j])@),
        decreases required@.len() - i,
    {
        if !scope_granted(granted, &required[i]) {
            assert(!has_scope(granted@, required@[i as int]@));
            return false;
        }
        i = i + 1;
    }
    true
}

pub(crate) fn copy_strings(v: &Vec<String>) -> (r: Vec<String>)
    ensures
        r@ == v@,
{
    let mut out: Vec<String> = Vec::new();
    let mut i: usize = 0;
    while i < v.len()
        invariant
            0 <= i <= v@.len(),
            out@ == v@.take(i as int),
        decreases v@.len() - i,
    {
        out.push(v[i].clone());
        assert(out@ =~= v@.take(i + 1));
        i = i + 1;
    }
    assert(out@ =~= v@);
    out
}

impl OAuthSession {
    /// A copy of the session.
    pub fn copied(&self) -> (r: OAuthSession)
        ensures
            r.same(*self),
    {
        OAuthSession {
            plugin_id: self.plugin_id.copied(),
            state: self.state.clone(),
            auth_url: self.auth_url.clone(),
            required_scopes: copy_strings(&self.required_scopes),
        }
    }

    /// Whether two sessions say the same.
    pub open spec fn same(self, other: OAuthSession) -> bool {
        &&& self.plugin_id == other.plugin_id
        &&& self.state == other.state
        &&& self.auth_url == other.auth_url
        &&& self.required_scopes@ == other.required_scopes@
    }
}

/// Hand-overs that are under way, and the tokens that came of them.
pub struct OAuthCoordinator {
    sessions: ByteMap<OAuthSession>,
    wrapped: ByteMap<WrappedToken>,
}

impl Default for OAuthCoordinator {
    fn default() -> (r: Self)
        ensures
            r.wf(),
            r.sessions() == Map::<Seq<u8>, OAuthSession>::empty(),
            r.tokens() == Map::<Seq<u8>, WrappedToken>::empty(),
    {
        OAuthCoordinator::new()
    }
}

impl OAuthCoordinator {
    /// The hand-overs that are under way, by the bytes of their state.
    pub closed spec fn sessions(self) -> Map<Seq<u8>, OAuthSession> {
        self.sessions.contents()
    }

    /// The tokens, by their handles.
    pub closed spec fn tokens(self) -> Map<Seq<u8>, WrappedToken> {
        self.wrapped.contents()
    }

    /// Whether the maps are in order.
    pub closed spec fn wf(self) -> bool {
        self.sessions.wf() && self.wrapped.wf()
    }

    /// A coordinator without hand-overs.
    pub fn new() -> (r: Self)
        ensures
            r.wf(),
            r.sessions() == Map::<Seq<u8>, OAuthSession>::empty(),
            r.tokens() == Map::<Seq<u8>, WrappedToken>::empty(),
    {
        OAuthCoordinator { sessions: ByteMap::new(), wrapped: ByteMap::new() }
    }

    /// Starts a hand-over under a given state, which is written in hexadecimal.
    pub fn start_as(
        &mut self,
        state: &[u8; 16],
        plugin_id: PluginId,
        auth_url: String,
        required_scopes: Vec<String>,
    ) -> (r: OAuthSession)
        requires
            old(self).wf(),
        ensures
            final(self).wf(),
            final(self).tokens() == old(self).tokens(),
            r.plugin_id == plugin_id,
            r.auth_url == auth_url,
            r.required_scopes@ == required_scopes@,
            r.state@ == hex_text(state@),
            final(self).sessions().contains_key(encode_utf8(r.state@)),
            final(self).sessions()[encode_utf8(r.state@)].same(r),
            final(self).sessions() == old(self).sessions().insert(
                encode_utf8(r.state@),
                final(self).sessions()[encode_utf8(r.state@)],
            ),
    {
        let session = OAuthSession {
            plugin_id,
            state: string_of(&hex_encode(state)),
            auth_url,
            required_scopes,
        };
        let out = session.copied();
        let key = to_vec(session.state.as_str().as_bytes());
        self.sessions.insert(key, session);
        out
    }

    /// Starts a hand-over under a random state.
    pub fn start(&mut self, plugin_id: PluginId, auth_url: String, required_scopes: Vec<String>) -> (r:
        OAuthSession)
        requires
            old(self).wf(),
        ensures
            final(self).wf(),
            final(self).tokens() == old(self).tokens(),
            r.plugin_id == plugin_id,
            r.auth_url == auth_url,
            r.required_scopes@ == required_scopes@,
            exists|b: Seq<u8>| b.len() == 16 && r.state@ == #[trigger] hex_text(b),
            final(self).sessions().contains_key(encode_utf8(r.state@)),
            final(self).sessions()[encode_utf8(r.state@)].same(r),
            final(self).sessions() == old(self).sessions().insert(
                encode_utf8(r.state@),
                final(self).sessions()[encode_utf8(r.state@)],
            ),
    {
        self.start_as(&thread_random_16(), plugin_id, auth_url, required_scopes)
    }

    fn take_session(&mut self, state: &str) -> (r: Option<OAuthSession>)
        requires
            old(self).wf(),
        ensures
            final(self).wf(),
            final(self).tokens() == old(self).tokens(),
            final(self).sessions() == old(self).sessions().remove(encode_utf8(state@)),
            match r {
                Some(s) => old(self).sessions().contains_key(encode_utf8(state@)) && s.same(
                    old(self).sessions()[encode_utf8(state@)],
                ),
                None => !old(self).sessions().contains_key(encode_utf8(state@)),
            },
    {
        let found: Option<OAuthSession> = match self.sessions.get(state.as_bytes()) {
            Some(s) => Some(s.copied()),
            None => None,
        };
        self.sessions.remove(state.as_bytes());
        found
    }

    /// What ending a hand-over gives with a given nonce and handle. An unknown state is refused. A
    /// known one is used up, whatever comes of it: too few scopes are refused, and so is a token
    /// that is too long to encrypt; otherwise the token is kept under the handle.
    pub open spec fn completed(
        self,
        after: OAuthCoordinator,
        state: Seq<char>,
        token: Seq<u8>,
        granted: Seq<String>,
        master: Seq<u8>,
        nonce: AeadNonce,
        handle: Seq<u8>,
        r: Result<(OAuthSession, CredentialsHandle), LifecycleError>,
    ) -> bool {
        let key = encode_utf8(state);
        &&& after.sessions() == self.sessions().remove(key)
        &&& if !self.sessions().contains_key(key) {
            &&& r == Err::<(OAuthSession, CredentialsHandle), LifecycleError>(
                LifecycleError::OAuthSessionNotFound,
            )
            &&& after.tokens() == self.tokens()
        } else if !covers(granted, self.sessions()[key].required_scopes@) {
            &&& r matches Err(LifecycleError::OAuthInsufficientScope { required, received })
                && required@ == self.sessions()[key].required_scopes@ && received@ == granted
            &&& after.tokens() == self.tokens()
        } else if token.len() > CHACHA_MAX_BYTES {
            &&& r == Err::<(OAuthSession, CredentialsHandle), LifecycleError>(
                LifecycleError::Crypto(CryptoError::AeadVerify),
            )
            &&& after.tokens() == self.tokens()
        } else {
            &&& r matches Ok(p) && p.0.same(self.sessions()[key]) && p.1.0@ == handle
                && after.tokens().contains_key(handle) && after.tokens()[handle].plugin_id.0@
                == p.0.plugin_id.0@ && after.tokens()[handle].nonce == nonce && wraps_token(
                after.tokens()[handle],
                master,
                token,
            )
            &&& after.tokens() == self.tokens().insert(handle, after.tokens()[handle])
        }
    }

    /// Ends a hand-over with a given nonce and handle.
    pub fn complete_as(
        &mut self,
        state: &str,
        token: &[u8],
        granted_scopes: &Vec<String>,
        master_key: &SymKey,
        nonce: [u8; 12],
        handle: &[u8; 16],
    ) -> (r: Result<(OAuthSession, CredentialsHandle), LifecycleError>)
        requires
            old(self).wf(),
        ensures
            final(self).wf(),
            old(self).completed(
                *final(self),
                state@,
                token@,
                granted_scopes@,
                master_key.0@,
                AeadNonce::N12(nonce),
                handle@,
                r,
            ),
    {
        let session = match self.take_session(state) {
            Some(s) => s,
            None => {
                return Err(LifecycleError::OAuthSessionNotFound);
            },
        };
        if !all_granted(granted_scopes, &session.required_scopes) {
            return Err(
                LifecycleError::OAuthInsufficientScope {
                    required: copy_strings(&session.required_scopes),
                    received: copy_strings(granted_scopes),
                },
            );
        }
        let pid = session.plugin_id.0.as_str();
        let key = match derive_subkey(master_key, KeyPurpose::CredWrap, Some(pid.as_bytes())) {
            Ok(k) => k,
            Err(e) => {
                return Err(LifecycleError::Crypto(e));
            },
        };
        let aad = aad_for(pid);
        let n = AeadNonce::N12(nonce);
        let (ciphertext, tag) = match encrypt(
            AeadSuite::ChaCha20Poly1305,
            &key,
            &n,
            token,
            &aad,
        ) {
            Ok(p) => p,
            Err(e) => {
                return Err(LifecycleError::Crypto(e));
            },
        };
        let w = WrappedToken { plugin_id: session.plugin_id.copied(), ciphertext, nonce: n, tag };
        self.wrapped.insert(to_vec(handle), w);
        Ok((session, CredentialsHandle(to_vec(handle))))
    }

    /// Ends a hand-over: the token is encrypted for its plugin and kept under a random handle.
    pub fn complete(
        &mut self,
        state: &str,
        token: &[u8],
        granted_scopes: &Vec<String>,
        master_key: &SymKey,
    ) -> (r: Result<(OAuthSession, CredentialsHandle), LifecycleError>)
        requires
            old(self).wf(),
        ensures
            final(self).wf(),
            exists|nonce: AeadNonce, handle: Seq<u8>|
                nonce is N12 && handle.len() == 16 && #[trigger] old(self).completed(
                    *final(self),
                    state@,
                    token@,
                    granted_scopes@,
                    master_key.0@,
                    nonce,
                    handle,
                    r,
                ),
    {
        let handle = thread_random_16();
        let nonce = random_12();
        let r = self.complete_as(state, token, granted_scopes, master_key, nonce, &handle);
        assert(AeadNonce::N12(nonce) is N12 && handle@.len() == 16);
        r
    }

    /// The token that a handle stands for, decrypted; nothing where the handle is not known. What
    /// `complete` kept under a master key comes back under the same key.
    pub fn unwrap(&self, handle: &CredentialsHandle, master_key: &SymKey) -> (r: Result<
        Option<Vec<u8>>,
        LifecycleError,
    >)
        requires
            self.wf(),
        ensures
            if !self.tokens().contains_key(handle.0@) {
                r == Ok::<Option<Vec<u8>>, LifecycleError>(None)
            } else {
                let w = self.tokens()[handle.0@];
                match r {
                    Ok(Some(t)) => decrypt_result(
                        AeadSuite::ChaCha20Poly1305,
                        token_key(master_key.0@, w.plugin_id.0@),
                        w.nonce,
                        w.ciphertext@,
                        w.tag.0@,
                        token_aad(w.plugin_id.0@),
                        Ok(t),
                    ),
                    Err(LifecycleError::Crypto(e)) => decrypt_result(
                        AeadSuite::ChaCha20Poly1305,
                        token_key(master_key.0@, w.plugin_id.0@),
                        w.nonce,
                        w.ciphertext@,
                        w.tag.0@,
                        token_aad(w.plugin_id.0@),
                        Err(e),
                    ),
                    _ => false,
                }
            },
            forall|token: Seq<u8>|
                self.tokens().contains_key(handle.0@) && token.len() <= CHACHA_MAX_BYTES
                    && #[trigger] wraps_token(self.tokens()[handle.0@], master_key.0@, token) ==> (
                r matches Ok(Some(t)) && t@ == token),
    {
        let w = match self.wrapped.get(&handle.0) {
            Some(w) => w,
            None => {
                return Ok(None);
            },
        };
        let pid = w.plugin_id.0.as_str();
        let key = match derive_subkey(master_key, KeyPurpose::CredWrap, Some(pid.as_bytes())) {
            Ok(k) => k,
            Err(e) => {
                return Err(LifecycleError::Crypto(e));
            },
        };
        let aad = aad_for(pid);
        match decrypt(AeadSuite::ChaCha20Poly1305, &key, &w.nonce, &w.ciphertext, &w.tag, &aad) {
            Ok(t) => Ok(Some(t)),
            Err(e) => Err(LifecycleError::Crypto(e)),
        }
    }

    /// Gives up a hand-over.
    pub fn cancel(&mut self, state: &str) -> (r: Result<(), LifecycleError>)
        requires
            old(self).wf(),
        ensures
            final(self).wf(),
            final(self).tokens() == old(self).tokens(),
            final(self).sessions() == old(self).sessions().remove(encode_utf8(state@)),
            r == (if old(self).sessions().contains_key(encode_utf8(state@)) {
                Ok::<(), LifecycleError>(())
            } else {
                Err(LifecycleError::OAuthSessionNotFound)
            }),
    {
        match self.take_session(state) {
            Some(_) => Ok(()),
            None => Err(LifecycleError::OAuthSessionNotFound),
        }
    }

    /// How many hand-overs are under way.
    pub fn pending_count(&self) -> (r: usize)
        requires
            self.wf(),
        ensures
            self.sessions().dom().finite(),
            r == self.sessions().dom().len(),
    {
        self.sessions.len()
    }
}

fn aad_for(plugin_id: &str) -> (r: Vec<u8>)
    ensures
        r@ == token_aad(plugin_id@),
{
    let mut t: Vec<char> = Vec::new();
    push_text(&mut t, "oauth:");
    push_text(&mut t, plugin_id);
    assert(t@ =~= "oauth:"@ + plugin_id@);
    let s = string_of(&t);
    to_vec(s.as_str().as_bytes())
}

/// What a plugin gained and lost.
#[derive(Clone, PartialEq, Eq, Debug)]
pub struct CapabilityDiff {
    pub gained: Vec<String>,
    pub lost: Vec<String>,
}

impl CapabilityDiff {
    /// Whether nothing changed.
    pub fn is_empty(&self) -> (r: bool)
        ensures
            r == (self.gained@.len() == 0 && self.lost@.len() == 0),
    {
        self.gained.len() == 0 && self.lost.len() == 0
    }
}

/// All capabilities, in order.
pub open spec fn all_capabilities() -> Seq<Capability> {
    seq![
        Capability::Put,
        Capability::Get,
        Capability::Peek,
        Capability::Delete,
        Capability::RangeRead,
        Capability::Tombstone,
        Capability::QuotaReport,
        Capability::AtomicReplace,
    ]
}

/// The names of the first `n` capabilities that are in `a` and not in `b`, in order.
pub open spec fn names_only_in(a: CapabilitySet, b: CapabilitySet, n: int) -> Seq<Seq<char>>
    decreases n,
{
    if n <= 0 {
        Seq::empty()
    } else {
        let head = names_only_in(a, b, n - 1);
        let c = all_capabilities()[n - 1];
        if a.holds(c) && !b.holds(c) {
            head.push(c.label())
        } else {
            head
        }
    }
}

/// The contents of strings.
pub open spec fn string_views(v: Seq<String>) -> Seq<Seq<char>> {
    v.map_values(|s: String| s@)
}

fn only_in(a: &CapabilitySet, b: &CapabilitySet) -> (r: Vec<String>)
    ensures
        string_views(r@) == names_only_in(*a, *b, 8),
{
    let all: [Capability; 8] = [
        Capability::Put,
        Capability::Get,
        Capability::Peek,
        Capability::Delete,
        Capability::RangeRead,
        Capability::Tombstone,
        Capability::QuotaReport,
        Capability::AtomicReplace,
    ];
    assert(all@ =~= all_capabilities());
    let mut out: Vec<String> = Vec::new();
    let mut i: usize = 0;
    assert(string_views(out@) =~= Seq::<Seq<char>>::empty());
    while i < 8
        invariant
            0 <= i <= 8,
            all@ == all_capabilities(),
            string_views(out@) == names_only_in(*a, *b, i as int),
        decreases 8 - i,
    {
        let c = all[i];
        if a.has(c) && !b.has(c) {
            let ghost before = out@;
            out.push(c.name());
            assert(string_views(out@) =~= string_views(before).push(c.label()));
        }
        i = i + 1;
    }
    out
}

/// What a plugin gained and lost between two sets of capabilities.
pub fn diff_capabilities(prev: &CapabilitySet, current: &CapabilitySet) -> (r: CapabilityDiff)
    ensures
        string_views(r.gained@) == names_only_in(*current, *prev, 8),
        string_views(r.lost@) == names_only_in(*prev, *current, 8),
{
    CapabilityDiff { gained: only_in(current, prev), lost: only_in(prev, current) }
}

proof fn lemma_names_empty(a: CapabilitySet, b: CapabilitySet, n: int)
    requires
        0 <= n <= 8,
    ensures
        names_only_in(a, b, n).len() == 0 <==> forall|i: int|
            0 <= i < n ==> !(a.holds(#[trigger] all_capabilities()[i]) && !b.holds(
                all_capabilities()[i],
            )),
    decreases n,
{
    if n > 0 {
        lemma_names_empty(a, b, n - 1);
    }
}

/// Two sets differ in nothing exactly where they are the same.
pub proof fn lemma_diff_empty_iff_same(a: CapabilitySet, b: CapabilitySet)
    ensures
        names_only_in(a, b, 8).len() == 0 && names_only_in(b, a, 8).len() == 0 <==> a == b,
{
    lemma_names_empty(a, b, 8);
    lemma_names_empty(b, a, 8);
    let all = all_capabilities();
    if names_only_in(a, b, 8).len() == 0 && names_only_in(b, a, 8).len() == 0 {
        assert(a.holds(all[0]) == b.holds(all[0]));
        assert(a.holds(all[1]) == b.holds(all[1]));
        assert(a.holds(all[2]) == b.holds(all[2]));
        assert(a.holds(all[3]) == b.holds(all[3]));
        assert(a.holds(all[4]) == b.holds(all[4]));
        assert(a.holds(all[5]) == b.holds(all[5]));
        assert(a.holds(all[6]) == b.holds(all[6]));
        assert(a.holds(all[7]) == b.holds(all[7]));
    }
}

/// A set holds a capability exactly where its field for it is set.
pub proof fn lemma_held_by_field(s: CapabilitySet)
    ensures
        s.holds(Capability::Put) == s.put,
        s.holds(Capability::Get) == s.get,
        s.holds(Capability::Peek) == s.peek,
        s.holds(Capability::Delete) == s.delete,
        s.holds(Capability::RangeRead) == s.range_read,
        s.holds(Capability::Tombstone) == s.tombstone,
        s.holds(Capability::QuotaReport) == s.quota_report,
        s.holds(Capability::AtomicReplace) == s.atomic_replace,
{
}

proof fn lemma_names_upto(a: CapabilitySet, b: CapabilitySet, n: int, c: Capability)
    requires
        0 <= n <= 8,
    ensures
        names_only_in(a, b, n).contains(c.label()) <==> exists|i: int|
            0 <= i < n && #[trigger] all_capabilities()[i] == c && a.holds(c) && !b.holds(c),
    decreases n,
{
    let all = all_capabilities();
    if n > 0 {
        lemma_names_upto(a, b, n - 1, c);
        let head = names_only_in(a, b, n - 1);
        let d = all[n - 1];
        let names = names_only_in(a, b, n);
        if d.label() == c.label() {
            lemma_capability_labels_apart(d, c);
        }
        if names.contains(c.label()) {
            let j = choose|j: int| 0 <= j < names.len() && names[j] == c.label();
            if j < head.len() {
                assert(head[j] == c.label());
                assert(head.contains(c.label()));
            } else {
                assert(all[n - 1] == c);
            }
        }
        if exists|i: int| 0 <= i < n && #[trigger] all[i] == c && a.holds(c) && !b.holds(c) {
            let i = choose|i: int| 0 <= i < n && #[trigger] all[i] == c && a.holds(c) && !b.holds(c);
            if i < n - 1 {
                assert(head.contains(c.label()));
                let j = choose|j: int| 0 <= j < head.len() && head[j] == c.label();
                assert(names[j] == c.label());
            } else {
                assert(names[names.len() - 1] == c.label());
            }
        }
    }
}

/// A capability is named as gained exactly where the one set has it and the other has not.
pub proof fn lemma_named_exactly(a: CapabilitySet, b: CapabilitySet, c: Capability)
    ensures
        names_only_in(a, b, 8).contains(c.label()) <==> a.holds(c) && !b.holds(c),
{
    lemma_names_upto(a, b, 8, c);
    let all = all_capabilities();
    let at: int = match c {
        Capability::Put => 0,
        Capability::Get => 1,
        Capability::Peek => 2,
        Capability::Delete => 3,
        Capability::RangeRead => 4,
        Capability::Tombstone => 5,
        Capability::QuotaReport => 6,
        Capability::AtomicReplace => 7,
    };
    assert(all[at] == c);
}

/// A token is sealed under the key of its plugin and over the plugin's name.
pub proof fn lemma_token_sealed(w: WrappedToken, master: Seq<u8>, token: Seq<u8>)
    requires
        wraps_token(w, master, token),
    ensures
        w.ciphertext@ + w.tag.0@ == chacha_sealed(
            hkdf_sha256_output(
                master,
                encode_utf8("kp:cred-wrap"@).push(124u8) + encode_utf8(w.plugin_id.0@),
            ),
            w.nonce.bytes(),
            token,
            encode_utf8("oauth:"@ + w.plugin_id.0@),
        ),
        w.ciphertext@.len() == token.len(),
{
}

/// Tokens of different plugins are sealed over different words.
pub proof fn lemma_tokens_of_plugins_apart(p: Seq<char>, q: Seq<char>)
    requires
        token_aad(p) == token_aad(q),
    ensures
        p == q,
{
    let (a, b) = ("oauth:"@ + p, "oauth:"@ + q);
    encode_utf8_decode_utf8(a);
    encode_utf8_decode_utf8(b);
    let n = "oauth:"@.len() as int;
    assert(a.skip(n) =~= p);
    assert(b.skip(n) =~= q);
}

/// Granted scopes are enough exactly where each required one is among them; none are required by
/// an empty list, and more grants never hurt.
pub proof fn lemma_scopes_covered(granted: Seq<String>, required: Seq<String>, more: String)
    ensures
        covers(granted, Seq::empty()),
        covers(granted, required) ==> covers(granted.push(more), required),
        covers(granted, required) ==> forall|i: int|
            0 <= i < required.len() ==> string_views(granted).contains(#[trigger] required[i]@),
        (forall|i: int|
            0 <= i < required.len() ==> string_views(granted).contains(#[trigger] required[i]@))
            ==> covers(granted, required),
{
    let names = string_views(granted);
    if covers(granted, required) {
        assert forall|i: int| 0 <= i < required.len() implies has_scope(
            granted.push(more),
            (#[trigger] required[i])@,
        ) by {
            assert(has_scope(granted, required[i]@));
            let j = choose|j: int| 0 <= j < granted.len() && (#[trigger] granted[j])@ == required[i]@;
            assert(granted.push(more)[j]@ == required[i]@);
        }
        assert forall|i: int| 0 <= i < required.len() implies names.contains(
            #[trigger] required[i]@,
        ) by {
            assert(has_scope(granted, required[i]@));
            let j = choose|j: int| 0 <= j < granted.len() && (#[trigger] granted[j])@ == required[i]@;
            assert(names[j] == required[i]@);
        }
    }
    if forall|i: int| 0 <= i < required.len() ==> names.contains(#[trigger] required[i]@) {
        assert forall|i: int| 0 <= i < required.len() implies has_scope(
            granted,
            (#[trigger] required[i])@,
        ) by {
            assert(names.contains(required[i]@));
            let j = choose|j: int| 0 <= j < names.len() && names[j] == required[i]@;
            assert(granted[j]@ == required[i]@);
        }
    }
}

/// A plugin may be installed exactly where its author's signature holds, the author is the one that
/// is known where one is known, and a dangerous plugin was confirmed twice.
pub proof fn lemma_installed_exactly(
    m: PluginManifest,
    canonical: Seq<u8>,
    prior: Option<&Ed25519Pub>,
    confirmation: UserConfirmation,
)
    ensures
        install_refusal(m, canonical, prior, confirmation) is None <==> ed25519_accepts(
            m.author_pubkey.0@,
            canonical,
            m.signature.0@,
        ) && (prior is None || prior.unwrap().0@ == m.author_pubkey.0@) && (m.legal_class
            != LegalClass::Red || confirmation == UserConfirmation::DoubleConfirm),
        !ed25519_accepts(m.author_pubkey.0@, canonical, m.signature.0@) ==> install_refusal(
            m,
            canonical,
            prior,
            confirmation,
        ) == Some(LifecycleError::SignatureInvalid),
{
}

/// A hand-over ends once: its state is gone whatever comes of it. A token is kept exactly where the
/// hand-over was known, the granted scopes were enough and the token was not too long; and else
/// nothing is kept.
pub proof fn lemma_hand_over_ends(
    before: OAuthCoordinator,
    after: OAuthCoordinator,
    state: Seq<char>,
    token: Seq<u8>,
    granted: Seq<String>,
    master: Seq<u8>,
    nonce: AeadNonce,
    handle: Seq<u8>,
    r: Result<(OAuthSession, CredentialsHandle), LifecycleError>,
)
    requires
        before.completed(after, state, token, granted, master, nonce, handle, r),
    ensures
        !after.sessions().contains_key(encode_utf8(state)),
        r is Ok <==> before.sessions().contains_key(encode_utf8(state)) && covers(
            granted,
            before.sessions()[encode_utf8(state)].required_scopes@,
        ) && token.len() <= CHACHA_MAX_BYTES,
        r is Err ==> after.tokens() == before.tokens(),
        r is Ok ==> after.tokens().contains_key(handle) && wraps_token(
            after.tokens()[handle],
            master,
            token,
        ),
        forall|h: Seq<u8>|
            h != handle && before.tokens().contains_key(h) ==> #[trigger] after.tokens().contains_key(
                h,
            ) && after.tokens()[h] == before.tokens()[h],
{
}

/// Texts are told by their characters, each in its place.
pub proof fn lemma_strings_told(v: Seq<String>, i: int)
    requires
        0 <= i < v.len(),
    ensures
        string_views(v).len() == v.len(),
        string_views(v)[i] == v[i]@,
{
}

} // verus!
