//! What the share routes decide.

use vstd::prelude::*;
use vstd::utf8::*;

use super::ApiError;
use crate::bytes::to_array32;
use crate::bytes::to_vec;
use crate::crypto::subkey::derive_subkey;
use crate::crypto::subkey::subkey;
use crate::crypto::SymKey;
use crate::entities::records::IdentityEpoch;
use crate::entities::records::Peer;
use crate::entities::records::Share;
use crate::entities::records::ShareScope;
use crate::share::ShareError;
use crate::text::chars_end_with;
use crate::text::chars_of;
use crate::text::chars_prefix;
use crate::text::chars_start_with;
use crate::text::chars_suffix;
use crate::text::hex_decode_chars;
use crate::text::hex_decoded;
use crate::text::joined;
use crate::text::push_text;
use crate::text::str_eq;
use crate::text::string_of;
use crate::types::epoch_of;
use crate::types::epoch_text;
use crate::types::lemma_epoch_round_trip;
use crate::types::parse_uuid;
use crate::types::uuid_parsed;
use crate::types::uuid_text;
use crate::types::Ed25519Priv;
use crate::types::Ed25519Pub;
use crate::types::FileId;
use crate::types::KeyPurpose;
use crate::types::MlKemPub;
use crate::types::PeerId;
use crate::types::ShareId;
use crate::types::Timestamp;

verus! {

/// Whether a time, given in seconds, has passed. A time in another form never passes.
pub open spec fn has_passed(at: Option<Timestamp>, now: u64) -> bool {
    match at {
        Some(t) => match epoch_of(t.0@) {
            Some(secs) => secs <= now,
            None => false,
        },
        None => false,
    }
}

fn passed(at: &Option<Timestamp>, now: u64) -> (r: bool)
    ensures
        r == has_passed(*at, now),
{
    match at {
        Some(t) => match t.epoch_secs() {
            Some(secs) => secs <= now,
            None => false,
        },
        None => false,
    }
}

/// The state of a share: revoked, else expired, else active.
pub fn share_state_label(sh: &Share, now: u64) -> (r: &'static str)
    ensures
        r@ == (if sh.revoked_at is Some {
            "revoked"@
        } else if has_passed(sh.expires_at, now) {
            "expired"@
        } else {
            "active"@
        }),
{
    if sh.revoked_at.is_some() {
        "revoked"
    } else if passed(&sh.expires_at, now) {
        "expired"
    } else {
        "active"
    }
}

/// What a scope text means: `*` the vault, a path that ends in a slash a folder, any other a file.
pub open spec fn scope_of(s: Seq<char>) -> ShareScopeView {
    if s == "*"@ {
        ShareScopeView::Vault
    } else if chars_suffix(s, "/"@) {
        ShareScopeView::Folder(s)
    } else {
        ShareScopeView::File(s)
    }
}

/// A scope, by its text.
pub ghost enum ShareScopeView {
    File(Seq<char>),
    Folder(Seq<char>),
    Vault,
}

/// A scope by its text.
pub open spec fn scope_view(s: ShareScope) -> ShareScopeView {
    match s {
        ShareScope::File(p) => ShareScopeView::File(p@),
        ShareScope::Folder(p) => ShareScopeView::Folder(p@),
        ShareScope::Vault => ShareScopeView::Vault,
    }
}

/// Reads a scope.
pub fn parse_scope(s: &str) -> (r: ShareScope)
    ensures
        scope_view(r) == scope_of(s@),
{
    if str_eq(s, "*") {
        ShareScope::Vault
    } else if chars_end_with(&chars_of(s), &chars_of("/")) {
        ShareScope::Folder(s.to_owned())
    } else {
        ShareScope::File(s.to_owned())
    }
}

/// The file whose key a share wraps: that of a file scope, as it was found; the nil identifier for
/// a wider scope.
pub fn bound_file(scope: &ShareScope, found: Result<FileId, String>) -> (r: Result<FileId, ApiError>)
    ensures
        match (*scope, found) {
            (ShareScope::File(_), Ok(id)) => r == Ok::<FileId, ApiError>(id),
            (ShareScope::File(_), Err(why)) => r matches Err(e) && e.says(404, "stat: "@ + why@),
            _ => r == Ok::<FileId, ApiError>(FileId(0)),
        },
{
    match scope {
        ShareScope::File(_) => match found {
            Ok(id) => Ok(id),
            Err(why) => Err(ApiError::not_found(joined("stat: ", why.as_str()).as_str())),
        },
        _ => Ok(FileId(0)),
    }
}

/// The first of some peers with a name, or their number where there is none.
pub open spec fn peer_index(peers: Seq<Peer>, id: Seq<char>) -> int
    decreases peers.len(),
{
    if peers.len() == 0 || peers[0].peer_id.0@ == id {
        0
    } else {
        1 + peer_index(peers.drop_first(), id)
    }
}

/// The encapsulation key of a recipient: that of the latest epoch of the first peer of this name,
/// else the common one.
pub open spec fn recipient_kem_of(peers: Seq<Peer>, id: Seq<char>) -> Seq<u8> {
    let at = peer_index(peers, id);
    if at < peers.len() && peers[at].epochs@.len() > 0 {
        peers[at].epochs@.last().kem_pubkey.0@
    } else {
        Seq::new(32, |i: int| 13u8)
    }
}

/// The common encapsulation key.
pub fn placeholder_recipient_kem() -> (r: MlKemPub)
    ensures
        r.0@ == Seq::new(32, |i: int| 13u8),
{
    let b: [u8; 32] = [13u8; 32];
    let v = to_vec(&b);
    assert(v@ =~= Seq::new(32, |i: int| 13u8));
    MlKemPub(v)
}

proof fn lemma_peer_index(peers: Seq<Peer>, id: Seq<char>, at: int)
    requires
        0 <= at <= peers.len(),
        forall|j: int| 0 <= j < at ==> (#[trigger] peers[j]).peer_id.0@ != id,
        at < peers.len() ==> peers[at].peer_id.0@ == id,
    ensures
        peer_index(peers, id) == at,
    decreases peers.len(),
{
    if peers.len() > 0 && peers[0].peer_id.0@ != id {
        assert forall|j: int| 0 <= j < at - 1 implies (
        #[trigger] peers.drop_first()[j]).peer_id.0@ != id by {
            assert(peers.drop_first()[j] == peers[j + 1]);
        }
        lemma_peer_index(peers.drop_first(), id, at - 1);
    }
}

/// The encapsulation key of a recipient.
pub fn recipient_kem(peers: &Vec<Peer>, recipient: &PeerId) -> (r: MlKemPub)
    ensures
        r.0@ == recipient_kem_of(peers@, recipient.0@),
{
    let mut i: usize = 0;
    while i < peers.len()
        invariant
            0 <= i <= peers@.len(),
            forall|j: int| 0 <= j < i ==> (#[trigger] peers@[j]).peer_id.0@ != recipient.0@,
        decreases peers@.len() - i,
    {
        if peers[i].peer_id.same(recipient) {
            proof {
                lemma_peer_index(peers@, recipient.0@, i as int);
            }
            let epochs: &Vec<IdentityEpoch> = &peers[i].epochs;
            if epochs.len() > 0 {
                return MlKemPub(to_vec(&epochs[epochs.len() - 1].kem_pubkey.0));
            }
            return placeholder_recipient_kem();
        }
        i = i + 1;
    }
    proof {
        lemma_peer_index(peers@, recipient.0@, i as int);
    }
    placeholder_recipient_kem()
}

/// The signing key of shares, which is derived from the master key.
pub fn share_owner_key(master: &SymKey) -> (r: Result<Ed25519Priv, ApiError>)
    ensures
        r matches Ok(k) && k.0@ == subkey(
            master.0@,
            KeyPurpose::WalSign,
            Some(encode_utf8("share-owner"@)),
        ),
{
    match derive_subkey(master, KeyPurpose::WalSign, Some("share-owner".as_bytes())) {
        Ok(k) => Ok(Ed25519Priv(k.0)),
        Err(_) => Err(ApiError::bad("derive owner_priv")),
    }
}

/// Reads the share of a route.
pub fn parse_share_id(s: &str) -> (r: Result<ShareId, ApiError>)
    ensures
        match uuid_parsed(s@) {
            Some(u) => r == Ok::<ShareId, ApiError>(ShareId(u)),
            None => r matches Err(e) && e.says(400, "invalid share_id"@),
        },
        forall|u: u128| s@ == #[trigger] uuid_text(u) ==> r == Ok::<ShareId, ApiError>(ShareId(u)),
{
    match parse_uuid(s) {
        Some(u) => Ok(ShareId(u)),
        None => Err(ApiError::bad("invalid share_id")),
    }
}

/// Reads the hexadecimal text of a blob.
pub fn parse_blob_hex(s: &str) -> (r: Result<Vec<u8>, ApiError>)
    ensures
        match hex_decoded(s@) {
            Some(b) => r matches Ok(v) && v@ == b,
            None => r matches Err(e) && e.says(400, "blob_hex not hex"@),
        },
{
    match hex_decode_chars(&chars_of(s)) {
        Some(b) => Ok(b),
        None => Err(ApiError::bad("blob_hex not hex")),
    }
}

/// Refuses a share whose time has passed.
pub fn check_not_expired(expires_at: &Option<Timestamp>, now: u64) -> (r: Result<(), ApiError>)
    ensures
        if has_passed(*expires_at, now) {
            r matches Err(e) && e.says(400, "share expired"@)
        } else {
            r is Ok
        },
{
    if passed(expires_at, now) {
        Err(ApiError::bad("share expired"))
    } else {
        Ok(())
    }
}

/// Reads the hexadecimal text of an owner's public key.
pub fn parse_owner_pub(s: &str) -> (r: Result<Ed25519Pub, ApiError>)
    ensures
        match hex_decoded(s@) {
            Some(b) => if b.len() == 32 {
                r matches Ok(k) && k.0@ == b
            } else {
                r matches Err(e) && e.says(400, "owner_sign_pub must be 32 bytes hex"@)
            },
            None => r matches Err(e) && e.says(400, "owner_sign_pub_hex not hex"@),
        },
{
    match hex_decode_chars(&chars_of(s)) {
        Some(b) => if b.len() == 32 {
            Ok(Ed25519Pub(to_array32(&b)))
        } else {
            Err(ApiError::bad("owner_sign_pub must be 32 bytes hex"))
        },
        None => Err(ApiError::bad("owner_sign_pub_hex not hex")),
    }
}

/// The path of a scope.
pub open spec fn scope_path(s: ShareScope) -> Seq<char> {
    match s {
        ShareScope::File(p) => p@,
        ShareScope::Folder(p) => p@,
        ShareScope::Vault => "/"@,
    }
}

/// Where a share is mounted by default: below the owner's name, at the path of the scope.
pub open spec fn default_mount(owner: Seq<char>, scope: ShareScope) -> Seq<char> {
    let path = scope_path(scope);
    if chars_prefix(path, "/"@) {
        "/shared-with-me/"@ + owner + path
    } else {
        "/shared-with-me/"@ + owner + "/"@ + path
    }
}

/// Where a share is mounted.
pub fn mount_path(given: Option<String>, owner: &PeerId, scope: &ShareScope) -> (r: String)
    ensures
        r@ == (match given {
            Some(p) => p@,
            None => default_mount(owner.0@, *scope),
        }),
{
    match given {
        Some(p) => p,
        None => {
            let path: &str = match scope {
                ShareScope::File(p) => p.as_str(),
                ShareScope::Folder(p) => p.as_str(),
                ShareScope::Vault => "/",
            };
            let mut t: Vec<char> = Vec::new();
            push_text(&mut t, "/shared-with-me/");
            push_text(&mut t, owner.0.as_str());
            if !chars_start_with(&chars_of(path), &chars_of("/")) {
                push_text(&mut t, "/");
            }
            push_text(&mut t, path);
            assert(t@ =~= default_mount(owner.0@, *scope));
            string_of(&t)
        },
    }
}

/// What a failed acceptance is answered. `why` is the error in words.
pub fn accept_refused(e: &ShareError, why: &str) -> (r: ApiError)
    ensures
        match *e {
            ShareError::SignatureInvalid => r.says(401, "share signature invalid"@),
            _ => r.says(400, "accept: "@ + why@),
        },
{
    match e {
        ShareError::SignatureInvalid => ApiError::unauth("share signature invalid"),
        _ => ApiError::bad(joined("accept: ", why).as_str()),
    }
}

/// What a failed revocation is answered. `why` is the error in words.
pub fn revoke_refused(e: &ShareError, why: &str) -> (r: ApiError)
    ensures
        match *e {
            ShareError::NotFound(_) => r.says(404, "share"@),
            ShareError::VaultLocked => r.says(423, "revoke: vault locked"@),
            _ => r.says(400, "revoke: "@ + why@),
        },
{
    match e {
        ShareError::NotFound(_) => ApiError::not_found("share"),
        ShareError::VaultLocked => ApiError::locked("revoke: vault locked"),
        _ => ApiError::bad(joined("revoke: ", why).as_str()),
    }
}

/// What has passed stays so.
pub proof fn lemma_expiry_is_final(at: Option<Timestamp>, now: u64, later: u64)
    requires
        has_passed(at, now),
        now <= later,
    ensures
        has_passed(at, later),
{
}

/// A share is over exactly from the second on that it names; one without an end, or with an end
/// that is no instant, never is.
pub proof fn lemma_over_from_its_end(at: Timestamp, end: u64, now: u64)
    ensures
        at.0@ == epoch_text(end) ==> (has_passed(Some(at), now) <==> end <= now),
        epoch_of(at.0@) is None ==> !has_passed(Some(at), now),
        !has_passed(None, now),
{
    lemma_epoch_round_trip(end);
}

/// Only `*` is the vault, a text with a slash at its end is a folder, and any other is a file; a
/// folder and a file keep the text.
pub proof fn lemma_scope_read(s: Seq<char>)
    ensures
        scope_of(s) == ShareScopeView::Vault <==> s == "*"@,
        s.len() > 0 && s.last() == '/' ==> scope_of(s) == ShareScopeView::Folder(s),
        s != "*"@ && (s.len() == 0 || s.last() != '/') ==> scope_of(s) == ShareScopeView::File(s),
{
    reveal_strlit("*");
    reveal_strlit("/");
    let t = "/"@;
    assert(t =~= seq!['/']);
    if s.len() > 0 {
        assert(s.skip(s.len() - 1) =~= seq![s.last()]);
        assert(seq![s.last()][0] == s.last());
    }
}

/// A share is sealed to the newest key of the first peer with the recipient's name. Where there is
/// no such peer, or it has no key, the placeholder takes the key's place.
pub proof fn lemma_newest_key_of_recipient(peers: Seq<Peer>, id: Seq<char>, at: int)
    requires
        0 <= at <= peers.len(),
        forall|j: int| 0 <= j < at ==> (#[trigger] peers[j]).peer_id.0@ != id,
        at < peers.len() ==> peers[at].peer_id.0@ == id,
    ensures
        at < peers.len() && peers[at].epochs@.len() > 0 ==> recipient_kem_of(peers, id)
            == peers[at].epochs@[peers[at].epochs@.len() - 1].kem_pubkey.0@,
        at == peers.len() || peers[at].epochs@.len() == 0 ==> recipient_kem_of(peers, id).len() == 32
            && forall|i: int| 0 <= i < 32 ==> #[trigger] recipient_kem_of(peers, id)[i] == 13,
{
    lemma_peer_index(peers, id, at);
}

/// A share is mounted under its owner's name, with exactly one slash between the name and the path
/// that the scope gives; a vault is mounted at the name itself.
pub proof fn lemma_mounted_under_owner(owner: Seq<char>, p: String)
    ensures
        default_mount(owner, ShareScope::Vault) == "/shared-with-me/"@ + owner + "/"@,
        p@.len() > 0 && p@[0] == '/' ==> default_mount(owner, ShareScope::File(p))
            == "/shared-with-me/"@ + owner + p@,
        p@.len() == 0 || p@[0] != '/' ==> default_mount(owner, ShareScope::File(p))
            == "/shared-with-me/"@ + owner + "/"@ + p@,
        default_mount(owner, ShareScope::Folder(p)) == default_mount(owner, ShareScope::File(p)),
{
    reveal_strlit("/");
    let t = "/"@;
    assert(t =~= seq!['/']);
    assert(t.take(1) =~= t);
    if p@.len() > 0 {
        assert(p@.take(1) =~= seq![p@[0]]);
        assert(seq![p@[0]][0] == p@[0]);
        assert(t[0] == '/');
    }
}

/// A scope is told by its kind and its path.
pub proof fn lemma_scopes_told(s: ShareScope, p: String)
    ensures
        scope_view(ShareScope::File(p)) == ShareScopeView::File(p@),
        scope_view(ShareScope::Folder(p)) == ShareScopeView::Folder(p@),
        scope_view(s) == ShareScopeView::Vault <==> s is Vault,
{
}

} // verus!
