//! What the plugin routes decide: installation, reloading, the user's decision on lost
//! capabilities, and the state of each provider's plugin.

use std::collections::BTreeMap;

use vstd::prelude::*;
use vstd::utf8::*;

use super::ApiError;
use crate::byte_map::ByteMap;
use crate::bytes::to_vec;
use crate::plugin_host::lifecycle::copy_strings;
use crate::plugin_host::lifecycle::diff_capabilities;
use crate::plugin_host::lifecycle::install_refusal;
use crate::plugin_host::lifecycle::names_only_in;
use crate::plugin_host::lifecycle::string_views;
use crate::plugin_host::lifecycle::canonical_manifest_bytes;
use crate::plugin_host::lifecycle::is_encode_failure;
use crate::plugin_host::lifecycle::manifest_encodes;
use crate::plugin_host::lifecycle::verify_install_over;
use crate::plugin_host::lifecycle::LifecycleError;
use crate::plugin_host::lifecycle::PluginManifest;
use crate::plugin_host::lifecycle::UserConfirmation;
use crate::text::joined;
use crate::text::push_text;
use crate::text::str_eq;
use crate::text::string_of;
use crate::types::CapabilitySet;
use crate::types::Ed25519Pub;
use crate::types::PluginId;
use crate::types::ProviderId;

verus! {

broadcast use {
    vstd::std_specs::btree::group_btree_axioms,
    vstd::laws_cmp::group_laws_cmp,
};

/// The states of a provider's plugin.
#[derive(Clone, Copy, PartialEq, Eq, Structural, Debug)]
pub enum PluginState {
    Loaded,
    Init,
    Ready,
    Active,
    Paused,
    Disabled,
    Closed,
}

impl PluginState {
    /// The name of the state.
    pub open spec fn label(self) -> Seq<char> {
        match self {
            PluginState::Loaded => "loaded"@,
            PluginState::Init => "init"@,
            PluginState::Ready => "ready"@,
            PluginState::Active => "active"@,
            PluginState::Paused => "paused"@,
            PluginState::Disabled => "disabled"@,
            PluginState::Closed => "closed"@,
        }
    }

    /// The name of the state.
    pub fn as_str(&self) -> (r: &'static str)
        ensures
            r@ == self.label(),
    {
        match self {
            PluginState::Loaded => "loaded",
            PluginState::Init => "init",
            PluginState::Ready => "ready",
            PluginState::Active => "active",
            PluginState::Paused => "paused",
            PluginState::Disabled => "disabled",
            PluginState::Closed => "closed",
        }
    }
}

/// The state that a transition leads to.
pub open spec fn transition_to(t: Seq<char>) -> Option<PluginState> {
    if t == "init"@ {
        Some(PluginState::Init)
    } else if t == "ready"@ {
        Some(PluginState::Ready)
    } else if t == "activate"@ {
        Some(PluginState::Active)
    } else if t == "pause"@ {
        Some(PluginState::Paused)
    } else if t == "resume"@ {
        Some(PluginState::Active)
    } else if t == "disable"@ {
        Some(PluginState::Disabled)
    } else if t == "close"@ {
        Some(PluginState::Closed)
    } else {
        None
    }
}

fn transition(t: &str) -> (r: Option<PluginState>)
    ensures
        r == transition_to(t@),
{
    if str_eq(t, "init") {
        Some(PluginState::Init)
    } else if str_eq(t, "ready") {
        Some(PluginState::Ready)
    } else if str_eq(t, "activate") {
        Some(PluginState::Active)
    } else if str_eq(t, "pause") {
        Some(PluginState::Paused)
    } else if str_eq(t, "resume") {
        Some(PluginState::Active)
    } else if str_eq(t, "disable") {
        Some(PluginState::Disabled)
    } else if str_eq(t, "close") {
        Some(PluginState::Closed)
    } else {
        None
    }
}

/// What a state asks of a plugin that can be held.
#[derive(Clone, Copy, PartialEq, Eq, Structural, Debug)]
pub enum HoldAction {
    Pause,
    Resume,
    Leave,
}

/// What a state asks of a plugin that can be held.
pub fn hold_action(s: PluginState) -> (r: HoldAction)
    ensures
        r == (match s {
            PluginState::Paused => HoldAction::Pause,
            PluginState::Disabled => HoldAction::Pause,
            PluginState::Active => HoldAction::Resume,
            PluginState::Ready => HoldAction::Resume,
            _ => HoldAction::Leave,
        }),
{
    match s {
        PluginState::Paused => HoldAction::Pause,
        PluginState::Disabled => HoldAction::Pause,
        PluginState::Active => HoldAction::Resume,
        PluginState::Ready => HoldAction::Resume,
        _ => HoldAction::Leave,
    }
}

/// A plugin that waits for the user to decide on the capabilities that it lost.
#[derive(Clone, PartialEq, Eq, Debug)]
pub struct PluginDecisionEntry {
    pub gained: Vec<String>,
    pub lost: Vec<String>,
    pub state: &'static str,
}

impl PluginDecisionEntry {
    /// A copy of the entry.
    pub fn copied(&self) -> (r: Self)
        ensures
            r.gained@ == self.gained@,
            r.lost@ == self.lost@,
            r.state == self.state,
    {
        PluginDecisionEntry {
            gained: copy_strings(&self.gained),
            lost: copy_strings(&self.lost),
            state: self.state,
        }
    }
}

/// What a reload came to.
#[derive(Clone, PartialEq, Eq, Debug)]
pub struct ReloadOutcome {
    pub gained: Vec<String>,
    pub lost: Vec<String>,
    pub state: &'static str,
}

/// What a decision came to; where the plugin is to be left, its shards are to be placed anew.
#[derive(Clone, PartialEq, Eq, Debug)]
pub struct DecisionOutcome {
    pub entry: PluginDecisionEntry,
    pub state: &'static str,
    pub migrate: bool,
}

/// What is known of the installed plugins.
pub struct PluginRegistry {
    authors: ByteMap<Ed25519Pub>,
    capabilities: ByteMap<CapabilitySet>,
    decisions: ByteMap<PluginDecisionEntry>,
    states: BTreeMap<u128, PluginState>,
}

/// The text of a confirmation that the user gave.
pub open spec fn confirmation_of(t: Seq<char>) -> Option<UserConfirmation> {
    if t == "confirm"@ {
        Some(UserConfirmation::Confirm)
    } else if t == "double"@ {
        Some(UserConfirmation::DoubleConfirm)
    } else {
        None
    }
}

/// Reads a confirmation.
pub fn parse_confirmation(t: &str) -> (r: Result<UserConfirmation, ApiError>)
    ensures
        match confirmation_of(t@) {
            Some(c) => r == Ok::<UserConfirmation, ApiError>(c),
            None => r matches Err(e) && e.says(400, "unknown confirmation: "@ + t@),
        },
{
    if str_eq(t, "confirm") {
        Ok(UserConfirmation::Confirm)
    } else if str_eq(t, "double") {
        Ok(UserConfirmation::DoubleConfirm)
    } else {
        Err(ApiError::bad(joined("unknown confirmation: ", t).as_str()))
    }
}

/// What a refused installation is answered. `why` is the error in words.
pub fn install_refused(e: &LifecycleError, why: &str) -> (r: ApiError)
    ensures
        r.says(
            match *e {
                LifecycleError::SignatureInvalid => 401,
                LifecycleError::AuthorRotated => 409,
                _ => 400,
            },
            "install: "@ + why@,
        ),
{
    let text = joined("install: ", why);
    match e {
        LifecycleError::SignatureInvalid => ApiError::unauth(text.as_str()),
        LifecycleError::AuthorRotated => ApiError::conflict(text.as_str()),
        _ => ApiError::bad(text.as_str()),
    }
}

/// What a refused hand-over of credentials is answered. `why` is the error in words.
pub fn oauth_refused(e: &LifecycleError, why: &str) -> (r: ApiError)
    ensures
        match *e {
            LifecycleError::OAuthSessionNotFound => r.says(404, "oauth session"@),
            _ => r.says(400, "oauth: "@ + why@),
        },
{
    match e {
        LifecycleError::OAuthSessionNotFound => ApiError::not_found("oauth session"),
        _ => ApiError::bad(joined("oauth: ", why).as_str()),
    }
}

/// What a plugin is known by.
pub open spec fn key_of(id: PluginId) -> Seq<u8> {
    encode_utf8(id.0@)
}

/// The value of a key of a map, where it is there.
pub open spec fn looked_up<V>(m: Map<Seq<u8>, V>, k: Seq<u8>) -> Option<V> {
    if m.contains_key(k) {
        Some(m[k])
    } else {
        None
    }
}

/// Whether two entries hold the same.
pub open spec fn same_entry(a: PluginDecisionEntry, b: PluginDecisionEntry) -> bool {
    a.gained@ == b.gained@ && a.lost@ == b.lost@ && a.state@ == b.state@
}

impl PluginRegistry {
    /// The author's key of each installed plugin.
    pub closed spec fn authors(self) -> Map<Seq<u8>, Ed25519Pub> {
        self.authors.contents()
    }

    /// The capabilities that each installed plugin last declared.
    pub closed spec fn capabilities(self) -> Map<Seq<u8>, CapabilitySet> {
        self.capabilities.contents()
    }

    /// The plugins that wait for a decision.
    pub closed spec fn decisions(self) -> Map<Seq<u8>, PluginDecisionEntry> {
        self.decisions.contents()
    }

    /// The state of each provider's plugin, where it was set.
    pub closed spec fn states(self) -> Map<u128, PluginState> {
        self.states@
    }

    /// Whether the registry's own order is intact.
    pub closed spec fn wf(self) -> bool {
        self.authors.wf() && self.capabilities.wf() && self.decisions.wf()
    }

    /// A registry that knows nothing.
    pub fn new() -> (r: Self)
        ensures
            r.wf(),
            r.authors() == Map::<Seq<u8>, Ed25519Pub>::empty(),
            r.capabilities() == Map::<Seq<u8>, CapabilitySet>::empty(),
            r.decisions() == Map::<Seq<u8>, PluginDecisionEntry>::empty(),
            r.states() == Map::<u128, PluginState>::empty(),
    {
        PluginRegistry {
            authors: ByteMap::new(),
            capabilities: ByteMap::new(),
            decisions: ByteMap::new(),
            states: BTreeMap::new(),
        }
    }

    /// Whether `after` is what an installation makes of a registry, given the check of the manifest
    /// over these bytes.
    pub open spec fn installed(
        self,
        after: PluginRegistry,
        manifest: PluginManifest,
        canonical: Seq<u8>,
        confirmation: UserConfirmation,
        r: Result<(), LifecycleError>,
    ) -> bool {
        exists|prior: Option<&Ed25519Pub>|
            (match prior {
                Some(k) => looked_up(self.authors(), key_of(manifest.plugin_id)) == Some(*k),
                None => looked_up(self.authors(), key_of(manifest.plugin_id)) is None,
            }) && (match #[trigger] install_refusal(manifest, canonical, prior, confirmation) {
                Some(e) => r == Err::<(), LifecycleError>(e) && after.authors() == self.authors()
                    && after.capabilities() == self.capabilities(),
                None => r is Ok && after.authors() == self.authors().insert(
                    key_of(manifest.plugin_id),
                    manifest.author_pubkey,
                ) && after.capabilities() == self.capabilities().insert(
                    key_of(manifest.plugin_id),
                    manifest.requested_capabilities,
                ),
            })
    }

    /// Installs a plugin, trusting its author on first use. The author's signature must cover the
    /// encoding of this very manifest, with its signature zeroed.
    pub fn install<F: Fn(PluginManifest) -> Result<Vec<u8>, String>>(
        &mut self,
        manifest: &PluginManifest,
        encode: F,
        confirmation: UserConfirmation,
    ) -> (r: Result<(), LifecycleError>)
        requires
            old(self).wf(),
            forall|m: PluginManifest| #[trigger] encode.requires((m,)),
        ensures
            final(self).wf(),
            final(self).decisions() == old(self).decisions(),
            final(self).states() == old(self).states(),
            exists|encoded: Result<Vec<u8>, String>| #[trigger]
                manifest_encodes(encode, *manifest, encoded) && (match encoded {
                    Ok(b) => old(self).installed(*final(self), *manifest, b@, confirmation, r),
                    Err(_) => is_encode_failure(r) && final(self).authors() == old(self).authors()
                        && final(self).capabilities() == old(self).capabilities(),
                }),
    {
        let bytes = match canonical_manifest_bytes(manifest, &encode) {
            Ok(b) => b,
            Err(e) => {
                return Err(e);
            },
        };
        let ghost b = bytes;
        assert(manifest_encodes(encode, *manifest, Ok(b)));
        let id: &[u8] = manifest.plugin_id.0.as_str().as_bytes();
        let prior: Option<&Ed25519Pub> = self.authors.get(id);
        let checked = verify_install_over(manifest, &bytes, prior, confirmation);
        let ghost p = prior;
        match checked {
            Ok(()) => {},
            Err(e) => {
                assert(install_refusal(*manifest, b@, p, confirmation) is Some);
                return Err(e);
            },
        }
        assert(install_refusal(*manifest, b@, p, confirmation) is None);
        self.authors.insert(to_vec(id), manifest.author_pubkey);
        self.capabilities.insert(to_vec(id), manifest.requested_capabilities);
        Ok(())
    }

    /// Takes over what a reloaded plugin declares. Where it lost a capability, the user has to
    /// decide; where it lost none, nothing is left to decide.
    pub fn reload(&mut self, id: &PluginId, caps: CapabilitySet) -> (r: Result<
        ReloadOutcome,
        ApiError,
    >)
        requires
            old(self).wf(),
        ensures
            final(self).wf(),
            final(self).authors() == old(self).authors(),
            final(self).states() == old(self).states(),
            match looked_up(old(self).capabilities(), key_of(*id)) {
                None => (r matches Err(e) && e.says(404, "plugin not installed"@)) && final(self).capabilities() == old(self).capabilities() && final(self).decisions() == old(self).decisions(),
                Some(prev) => {
                    let lost = names_only_in(prev, caps, 8);
                    &&& final(self).capabilities() == old(self).capabilities().insert(
                        key_of(*id),
                        caps,
                    )
                    &&& r matches Ok(o) && string_views(o.gained@) == names_only_in(caps, prev, 8)
                        && string_views(o.lost@) == lost && (if lost.len() > 0 {
                        o.state@ == "awaiting_user_decision"@ && awaits(
                            *old(self),
                            *final(self),
                            *id,
                            o,
                        )
                    } else {
                        o.state@ == "active"@ && final(self).decisions() == old(self).decisions().remove(key_of(*id))
                    })
                },
            },
    {
        let key: &[u8] = id.0.as_str().as_bytes();
        let prev: CapabilitySet = match self.capabilities.get(key) {
            Some(p) => *p,
            None => {
                return Err(ApiError::not_found("plugin not installed"));
            },
        };
        let diff = diff_capabilities(&prev, &caps);
        assert(string_views(diff.lost@).len() == diff.lost@.len());
        self.capabilities.insert(to_vec(key), caps);
        if diff.lost.len() > 0 {
            let entry = PluginDecisionEntry {
                gained: copy_strings(&diff.gained),
                lost: copy_strings(&diff.lost),
                state: "awaiting_user_decision",
            };
            let ghost e = entry;
            self.decisions.insert(to_vec(key), entry);
            let o = ReloadOutcome {
                gained: diff.gained,
                lost: diff.lost,
                state: "awaiting_user_decision",
            };
            assert(self.decisions() == old(self).decisions().insert(key_of(*id), e));
            Ok(o)
        } else {
            self.decisions.remove(key);
            Ok(ReloadOutcome { gained: diff.gained, lost: diff.lost, state: "active" })
        }
    }

    /// Takes the user's decision on a plugin that waits for one: to keep it, or to leave it. With
    /// any other word the plugin waits on.
    pub fn decide(&mut self, id: &PluginId, action: &str) -> (r: Result<DecisionOutcome, ApiError>)
        requires
            old(self).wf(),
        ensures
            final(self).wf(),
            final(self).authors() == old(self).authors(),
            final(self).capabilities() == old(self).capabilities(),
            final(self).states() == old(self).states(),
            match looked_up(old(self).decisions(), key_of(*id)) {
                None => (r matches Err(e) && e.says(
                    404,
                    "plugin "@ + id.0@ + " is not awaiting a user decision"@,
                )) && final(self).decisions() == old(self).decisions(),
                Some(entry) => if action@ == "keep"@ || action@ == "migrate_out"@ {
                    &&& r matches Ok(o) && same_entry(o.entry, entry) && o.migrate == (action@
                        == "migrate_out"@) && o.state@ == (if action@ == "keep"@ {
                        "active"@
                    } else {
                        "migrating"@
                    })
                    &&& final(self).decisions() == old(self).decisions().remove(key_of(*id))
                } else {
                    &&& r matches Err(e) && e.says(
                        400,
                        "unknown action "@ + action@ + "; expected `keep` or `migrate_out`"@,
                    )
                    &&& final(self).decisions() == old(self).decisions()
                },
            },
    {
        let key: &[u8] = id.0.as_str().as_bytes();
        let entry: PluginDecisionEntry = match self.decisions.get(key) {
            Some(e) => e.copied(),
            None => {
                let mut t: Vec<char> = Vec::new();
                push_text(&mut t, "plugin ");
                push_text(&mut t, id.0.as_str());
                push_text(&mut t, " is not awaiting a user decision");
                assert(t@ =~= "plugin "@ + id.0@ + " is not awaiting a user decision"@);
                return Err(ApiError::not_found(string_of(&t).as_str()));
            },
        };
        proof {
            reveal_strlit("keep");
            reveal_strlit("migrate_out");
            assert("keep"@.len() != "migrate_out"@.len());
        }
        if str_eq(action, "keep") {
            self.decisions.remove(key);
            Ok(DecisionOutcome { entry, state: "active", migrate: false })
        } else if str_eq(action, "migrate_out") {
            self.decisions.remove(key);
            Ok(DecisionOutcome { entry, state: "migrating", migrate: true })
        } else {
            let mut t: Vec<char> = Vec::new();
            push_text(&mut t, "unknown action ");
            push_text(&mut t, action);
            push_text(&mut t, "; expected `keep` or `migrate_out`");
            assert(t@ =~= "unknown action "@ + action@ + "; expected `keep` or `migrate_out`"@);
            Err(ApiError::bad(string_of(&t).as_str()))
        }
    }

    /// What a plugin waits for, where it waits.
    pub fn decision(&self, id: &PluginId) -> (r: Option<PluginDecisionEntry>)
        requires
            self.wf(),
        ensures
            match looked_up(self.decisions(), key_of(*id)) {
                Some(e) => r matches Some(got) && same_entry(got, e),
                None => r is None,
            },
    {
        match self.decisions.get(id.0.as_str().as_bytes()) {
            Some(e) => Some(e.copied()),
            None => None,
        }
    }

    /// The state of a provider's plugin; it is loaded until it is said to be otherwise.
    pub fn provider_state(&self, id: ProviderId) -> (r: PluginState)
        ensures
            r == (if self.states().contains_key(id.0) {
                self.states()[id.0]
            } else {
                PluginState::Loaded
            }),
    {
        match self.states.get(&id.0) {
            Some(s) => *s,
            None => PluginState::Loaded,
        }
    }

    /// Moves a provider's plugin to another state.
    pub fn set_provider_state(&mut self, id: ProviderId, to: &str) -> (r: Result<
        PluginState,
        ApiError,
    >)
        requires
            old(self).wf(),
        ensures
            final(self).wf(),
            final(self).authors() == old(self).authors(),
            final(self).capabilities() == old(self).capabilities(),
            final(self).decisions() == old(self).decisions(),
            match transition_to(to@) {
                Some(s) => r == Ok::<PluginState, ApiError>(s) && final(self).states() == old(self).states().insert(id.0, s),
                None => (r matches Err(e) && e.says(400, "unknown transition "@ + to@)) && final(self).states() == old(self).states(),
            },
    {
        match transition(to) {
            Some(s) => {
                self.states.insert(id.0, s);
                Ok(s)
            },
            None => Err(ApiError::bad(joined("unknown transition ", to).as_str())),
        }
    }
}

/// Whether a plugin waits for a decision on what a reload showed.
pub open spec fn awaits(
    before: PluginRegistry,
    after: PluginRegistry,
    id: PluginId,
    o: ReloadOutcome,
) -> bool {
    exists|e: PluginDecisionEntry|
        #![trigger before.decisions().insert(key_of(id), e)]
        after.decisions() == before.decisions().insert(key_of(id), e) && e.gained@ == o.gained@
            && e.lost@ == o.lost@ && e.state@ == "awaiting_user_decision"@
}

/// What each request to a plugin leads to; no other text is a request.
pub proof fn lemma_transitions_named(t: Seq<char>)
    ensures
        transition_to("init"@) == Some(PluginState::Init),
        transition_to("ready"@) == Some(PluginState::Ready),
        transition_to("activate"@) == Some(PluginState::Active),
        transition_to("pause"@) == Some(PluginState::Paused),
        transition_to("resume"@) == Some(PluginState::Active),
        transition_to("disable"@) == Some(PluginState::Disabled),
        transition_to("close"@) == Some(PluginState::Closed),
        transition_to(t) is Some ==> t == "init"@ || t == "ready"@ || t == "activate"@ || t
            == "pause"@ || t == "resume"@ || t == "disable"@ || t == "close"@,
        transition_to(t) != Some(PluginState::Loaded),
{
    reveal_strlit("init");
    reveal_strlit("ready");
    reveal_strlit("activate");
    reveal_strlit("pause");
    reveal_strlit("resume");
    reveal_strlit("disable");
    reveal_strlit("close");
    let (a, b, c, d, e, f, g) = (
        "init"@,
        "ready"@,
        "activate"@,
        "pause"@,
        "resume"@,
        "disable"@,
        "close"@,
    );
    assert(a.len() == 4 && b.len() == 5 && c.len() == 8 && d.len() == 5 && e.len() == 6 && f.len()
        == 7 && g.len() == 5);
    assert(b[0] == 'r' && d[0] == 'p' && g[0] == 'c');
}

/// Different states have different labels.
pub proof fn lemma_state_labels_apart(a: PluginState, b: PluginState)
    requires
        a.label() == b.label(),
    ensures
        a == b,
{
    reveal_strlit("loaded");
    reveal_strlit("init");
    reveal_strlit("ready");
    reveal_strlit("active");
    reveal_strlit("paused");
    reveal_strlit("disabled");
    reveal_strlit("closed");
    let (s, t) = (a.label(), b.label());
    assert(s.len() == t.len() && s[0] == t[0]);
}

/// The two texts that confirm an update, each its own way; no other text confirms one.
pub proof fn lemma_confirmations_named(t: Seq<char>)
    ensures
        confirmation_of("confirm"@) == Some(UserConfirmation::Confirm),
        confirmation_of("double"@) == Some(UserConfirmation::DoubleConfirm),
        confirmation_of(t) is Some ==> t == "confirm"@ || t == "double"@,
{
    reveal_strlit("confirm");
    reveal_strlit("double");
    assert("confirm"@.len() == 7 && "double"@.len() == 6);
}

/// The keys of two plugins agree only where their names do.
pub proof fn lemma_plugin_keys_apart(a: PluginId, b: PluginId)
    requires
        key_of(a) == key_of(b),
    ensures
        a.0@ == b.0@,
{
    encode_utf8_decode_utf8(a.0@);
    encode_utf8_decode_utf8(b.0@);
}

/// An installation leaves the plugin with the author and the capabilities of its manifest; a
/// refused one leaves everything; and no installation takes a plugin away from its author.
pub proof fn lemma_author_stays(
    before: PluginRegistry,
    after: PluginRegistry,
    m: PluginManifest,
    canonical: Seq<u8>,
    confirmation: UserConfirmation,
    r: Result<(), LifecycleError>,
)
    requires
        before.installed(after, m, canonical, confirmation, r),
    ensures
        r is Ok ==> after.authors().contains_key(key_of(m.plugin_id)) && after.authors()[key_of(
            m.plugin_id,
        )] == m.author_pubkey && after.capabilities()[key_of(m.plugin_id)]
            == m.requested_capabilities,
        r is Err ==> after.authors() == before.authors() && after.capabilities()
            == before.capabilities(),
        r is Ok && before.authors().contains_key(key_of(m.plugin_id)) ==> before.authors()[key_of(
            m.plugin_id,
        )].0@ == m.author_pubkey.0@,
        forall|k: Seq<u8>|
            before.authors().contains_key(k) && k != key_of(m.plugin_id)
                ==> #[trigger] after.authors().contains_key(k) && after.authors()[k]
                == before.authors()[k],
{
}

} // verus!
