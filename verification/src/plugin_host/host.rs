//! Provider health: errors are counted in a sliding window, and a provider that keeps failing is
//! quarantined and then banned.

use std::collections::BTreeMap;

use vstd::prelude::*;

use super::PluginError;
use crate::ordered::lists_keys;
use crate::ordered::sorted_keys;
use crate::types::ErrorClass;
use crate::types::ProviderHealth;
use crate::types::ProviderId;
use crate::types::Timestamp;

verus! {

broadcast use {
    vstd::std_specs::btree::group_btree_axioms,
    vstd::laws_cmp::group_laws_cmp,
};

/// The class of an error.
pub open spec fn class_of(err: PluginError) -> ErrorClass {
    match err {
        PluginError::AuthFailure => ErrorClass::Auth,
        PluginError::RateLimited { .. } => ErrorClass::RateLimit,
        PluginError::Io(_) => ErrorClass::Network,
        PluginError::Unavailable(_) => ErrorClass::Network,
        PluginError::NotFound(_) => ErrorClass::NotFound,
        _ => ErrorClass::Other,
    }
}

/// The class of an error.
pub fn classify_error(err: &PluginError) -> (r: ErrorClass)
    ensures
        r == class_of(*err),
{
    match err {
        PluginError::AuthFailure => ErrorClass::Auth,
        PluginError::RateLimited { .. } => ErrorClass::RateLimit,
        PluginError::Io(_) => ErrorClass::Network,
        PluginError::Unavailable(_) => ErrorClass::Network,
        PluginError::NotFound(_) => ErrorClass::NotFound,
        PluginError::IdempotencyViolation => ErrorClass::Other,
        PluginError::NotSupported(_) => ErrorClass::Other,
        PluginError::Plugin(_) => ErrorClass::Other,
    }
}

/// How long an error counts, in milliseconds.
pub const WINDOW_MS: u64 = 60_000;

/// Authentication errors in the window that quarantine a provider.
pub const AUTH_THRESHOLD: usize = 5;

/// Network errors in the window that quarantine a provider.
pub const NETWORK_THRESHOLD: usize = 10;

/// Corruptions, ever, that quarantine a provider.
pub const CORRUPTION_THRESHOLD: u32 = 5;

/// How long a provider stays in quarantine without a success before it is banned, in milliseconds.
pub const QUARANTINE_TO_BAN_MS: u64 = 300_000;

/// Successes in quarantine that clear a passing reason.
pub const SUCCESSES_TO_CLEAR: u32 = 3;

/// Where a provider stands, with the label of when it came there.
pub ghost enum HealthKind {
    Active,
    Quarantined(ErrorClass, Seq<char>),
    Banned(Seq<char>),
}

/// Where a provider stands.
pub open spec fn kind_of(h: ProviderHealth) -> HealthKind {
    match h {
        ProviderHealth::Active => HealthKind::Active,
        ProviderHealth::Quarantined { reason, since } => HealthKind::Quarantined(reason, since.0@),
        ProviderHealth::Banned { since } => HealthKind::Banned(since.0@),
    }
}

/// The record of one provider, as the rules see it.
pub ghost struct HealthView {
    pub recent: Seq<(u64, ErrorClass)>,
    pub total_corruption: u32,
    pub successes: u32,
    pub kind: HealthKind,
    pub since: Option<u64>,
}

struct ProviderState {
    recent: Vec<(u64, ErrorClass)>,
    total_corruption: u32,
    successes_since_quarantine: u32,
    current: ProviderHealth,
    state_since: Option<u64>,
}

impl ProviderState {
    spec fn model(self) -> HealthView {
        HealthView {
            recent: self.recent@,
            total_corruption: self.total_corruption,
            successes: self.successes_since_quarantine,
            kind: kind_of(self.current),
            since: self.state_since,
        }
    }
}

/// The record of a provider of which nothing is known yet.
pub open spec fn unknown_provider() -> HealthView {
    HealthView {
        recent: Seq::empty(),
        total_corruption: 0,
        successes: 0,
        kind: HealthKind::Active,
        since: None,
    }
}

/// Whether an error at `t` no longer counts at `now`.
pub open spec fn is_stale(t: u64, now: u64) -> bool {
    now - t > WINDOW_MS
}

/// The errors that are left after the oldest have been dropped while they are stale.
pub open spec fn pruned(recent: Seq<(u64, ErrorClass)>, now: u64) -> Seq<(u64, ErrorClass)>
    decreases recent.len(),
{
    if recent.len() > 0 && is_stale(recent[0].0, now) {
        pruned(recent.drop_first(), now)
    } else {
        recent
    }
}

/// How many errors of a class there are.
pub open spec fn count_of(recent: Seq<(u64, ErrorClass)>, class: ErrorClass) -> nat
    decreases recent.len(),
{
    if recent.len() == 0 {
        0
    } else {
        count_of(recent.drop_last(), class) + (if recent.last().1 == class {
            1nat
        } else {
            0nat
        })
    }
}

/// The errors of all classes but one.
pub open spec fn without_class(recent: Seq<(u64, ErrorClass)>, class: ErrorClass) -> Seq<
    (u64, ErrorClass),
>
    decreases recent.len(),
{
    if recent.len() == 0 {
        Seq::empty()
    } else {
        let head = without_class(recent.drop_last(), class);
        if recent.last().1 == class {
            head
        } else {
            head.push(recent.last())
        }
    }
}

/// How long a provider has stood where it stands.
pub open spec fn elapsed(v: HealthView, now: u64) -> int {
    match v.since {
        Some(s) => if now >= s {
            now - s
        } else {
            0
        },
        None => 0,
    }
}

/// Where a provider comes to stand, from errors that have been pruned.
pub open spec fn next_kind(v: HealthView, now: u64) -> HealthKind {
    match v.kind {
        HealthKind::Active => if count_of(v.recent, ErrorClass::Auth) >= AUTH_THRESHOLD {
            HealthKind::Quarantined(ErrorClass::Auth, "now"@)
        } else if v.total_corruption >= CORRUPTION_THRESHOLD {
            HealthKind::Quarantined(ErrorClass::Corruption, "now"@)
        } else if count_of(v.recent, ErrorClass::Network) >= NETWORK_THRESHOLD {
            HealthKind::Quarantined(ErrorClass::Network, "now"@)
        } else {
            HealthKind::Active
        },
        HealthKind::Quarantined(reason, _) => if elapsed(v, now) >= QUARANTINE_TO_BAN_MS
            && v.successes == 0 {
            HealthKind::Banned("now"@)
        } else if (reason == ErrorClass::Network || reason == ErrorClass::RateLimit) && v.successes
            >= SUCCESSES_TO_CLEAR {
            HealthKind::Active
        } else {
            v.kind
        },
        HealthKind::Banned(_) => v.kind,
    }
}

/// The errors that go on counting when a standing changes: those that led into a quarantine that
/// clears are forgiven with it.
pub open spec fn errors_kept(
    recent: Seq<(u64, ErrorClass)>,
    from: HealthKind,
    to: HealthKind,
) -> Seq<(u64, ErrorClass)> {
    match (from, to) {
        (HealthKind::Quarantined(reason, _), HealthKind::Active) => without_class(recent, reason),
        _ => recent,
    }
}

/// The record after the rules have been applied at `now`. Successes count from the last change of
/// standing.
pub open spec fn evaluated(v: HealthView, now: u64) -> HealthView {
    let w = HealthView { recent: pruned(v.recent, now), ..v };
    let kind = next_kind(w, now);
    if kind != v.kind {
        HealthView {
            recent: errors_kept(w.recent, v.kind, kind),
            kind,
            since: Some(now),
            successes: 0,
            ..w
        }
    } else if v.since is None {
        HealthView { since: Some(now), ..w }
    } else {
        w
    }
}

/// The record after an error at `now`, before the rules are applied.
pub open spec fn after_error(v: HealthView, class: ErrorClass, now: u64) -> HealthView {
    HealthView {
        recent: pruned(v.recent.push((now, class)), now),
        total_corruption: if class == ErrorClass::Corruption && v.total_corruption < u32::MAX {
            (v.total_corruption + 1) as u32
        } else {
            v.total_corruption
        },
        ..v
    }
}

/// The record after a success, before the rules are applied.
pub open spec fn after_success(v: HealthView) -> HealthView {
    HealthView {
        successes: if v.successes < u32::MAX {
            (v.successes + 1) as u32
        } else {
            v.successes
        },
        ..v
    }
}

fn prune(recent: &mut Vec<(u64, ErrorClass)>, now: u64)
    ensures
        final(recent)@ == pruned(old(recent)@, now),
{
    while recent.len() > 0 && now.saturating_sub(recent[0].0) > WINDOW_MS
        invariant
            pruned(recent@, now) == pruned(old(recent)@, now),
        decreases recent@.len(),
    {
        let ghost before = recent@;
        let _gone = recent.remove(0);
        assert(recent@ =~= before.drop_first());
    }
}

fn count_class(recent: &Vec<(u64, ErrorClass)>, class: ErrorClass) -> (r: usize)
    ensures
        r == count_of(recent@, class),
{
    let mut n: usize = 0;
    let mut i: usize = 0;
    while i < recent.len()
        invariant
            0 <= i <= recent@.len(),
            n == count_of(recent@.take(i as int), class),
            n <= i,
        decreases recent@.len() - i,
    {
        assert(recent@.take(i + 1).drop_last() =~= recent@.take(i as int));
        if recent[i].1 == class {
            n = n + 1;
        }
        i = i + 1;
    }
    assert(recent@.take(i as int) =~= recent@);
    n
}

/// Drops the errors of a class.
fn forgive(recent: &mut Vec<(u64, ErrorClass)>, class: ErrorClass)
    ensures
        final(recent)@ == without_class(old(recent)@, class),
{
    let mut kept: Vec<(u64, ErrorClass)> = Vec::new();
    let mut i: usize = 0;
    while i < recent.len()
        invariant
            0 <= i <= recent@.len(),
            recent@ == old(recent)@,
            kept@ == without_class(recent@.take(i as int), class),
        decreases recent@.len() - i,
    {
        assert(recent@.take(i + 1).drop_last() =~= recent@.take(i as int));
        if recent[i].1 != class {
            kept.push(recent[i]);
        }
        i = i + 1;
    }
    assert(recent@.take(i as int) =~= recent@);
    *recent = kept;
}

/// Applies the rules at `now`.
fn evaluate(st: &mut ProviderState, now: u64)
    ensures
        final(st).model() == evaluated(old(st).model(), now),
{
    prune(&mut st.recent, now);
    let auth: usize = count_class(&st.recent, ErrorClass::Auth);
    let network: usize = count_class(&st.recent, ErrorClass::Network);
    let change: Option<ProviderHealth> = match &st.current {
        ProviderHealth::Active => {
            let reason: Option<ErrorClass> = if auth >= AUTH_THRESHOLD {
                Some(ErrorClass::Auth)
            } else if st.total_corruption >= CORRUPTION_THRESHOLD {
                Some(ErrorClass::Corruption)
            } else if network >= NETWORK_THRESHOLD {
                Some(ErrorClass::Network)
            } else {
                None
            };
            match reason {
                Some(reason) => Some(
                    ProviderHealth::Quarantined { reason, since: Timestamp::from_string("now") },
                ),
                None => None,
            }
        },
        ProviderHealth::Quarantined { reason, .. } => {
            let since: u64 = match st.state_since {
                Some(s) => s,
                None => now,
            };
            let passing: bool = *reason == ErrorClass::Network || *reason == ErrorClass::RateLimit;
            if now.saturating_sub(since) >= QUARANTINE_TO_BAN_MS && st.successes_since_quarantine
                == 0 {
                Some(ProviderHealth::Banned { since: Timestamp::from_string("now") })
            } else if passing && st.successes_since_quarantine >= SUCCESSES_TO_CLEAR {
                Some(ProviderHealth::Active)
            } else {
                None
            }
        },
        ProviderHealth::Banned { .. } => None,
    };
    match change {
        Some(next) => {
            if let ProviderHealth::Active = next {
                if let ProviderHealth::Quarantined { reason, .. } = &st.current {
                    forgive(&mut st.recent, *reason);
                }
            }
            st.current = next;
            st.state_since = Some(now);
            st.successes_since_quarantine = 0;
        },
        None => {
            if st.state_since.is_none() {
                st.state_since = Some(now);
            }
        },
    }
}

fn copy_health(h: &ProviderHealth) -> (r: ProviderHealth)
    ensures
        r == *h,
{
    match h {
        ProviderHealth::Active => ProviderHealth::Active,
        ProviderHealth::Quarantined { reason, since } => ProviderHealth::Quarantined {
            reason: *reason,
            since: since.copied(),
        },
        ProviderHealth::Banned { since } => ProviderHealth::Banned { since: since.copied() },
    }
}

/// The health of every provider that has been heard of.
pub struct HealthMonitor {
    inner: BTreeMap<u128, ProviderState>,
}

impl Default for HealthMonitor {
    fn default() -> (r: Self)
        ensures
            r.known() == Set::<u128>::empty(),
            forall|id: ProviderId| r.record_of(id) == unknown_provider(),
    {
        HealthMonitor { inner: BTreeMap::new() }
    }
}

impl HealthMonitor {
    /// The providers that have been heard of.
    pub closed spec fn known(self) -> Set<u128> {
        self.inner@.dom()
    }

    /// The record of a provider.
    pub closed spec fn record_of(self, id: ProviderId) -> HealthView {
        if self.inner@.contains_key(id.0) {
            self.inner@[id.0].model()
        } else {
            unknown_provider()
        }
    }

    /// Whether `self` is `before` with the record of one provider set to `v`.
    pub open spec fn changed(self, before: HealthMonitor, id: ProviderId, v: HealthView) -> bool {
        &&& self.known() == before.known().insert(id.0)
        &&& self.record_of(id) == v
        &&& forall|other: ProviderId|
            other != id ==> #[trigger] self.record_of(other) == before.record_of(other)
    }

    fn take_state(&mut self, id: ProviderId) -> (r: ProviderState)
        ensures
            r.model() == old(self).record_of(id),
            final(self).inner@ == old(self).inner@.remove(id.0),
    {
        match self.inner.remove(&id.0) {
            Some(st) => st,
            None => {
                assert(self.inner@ =~= old(self).inner@);
                ProviderState {
                    recent: Vec::new(),
                    total_corruption: 0,
                    successes_since_quarantine: 0,
                    current: ProviderHealth::Active,
                    state_since: None,
                }
            },
        }
    }

    fn put_state(&mut self, id: ProviderId, st: ProviderState)
        requires
            !old(self).inner@.contains_key(id.0),
        ensures
            final(self).inner@ == old(self).inner@.insert(id.0, st),
    {
        self.inner.insert(id.0, st);
    }

    /// Counts an error against a provider.
    pub fn record(&mut self, provider_id: ProviderId, class: ErrorClass, now: u64)
        ensures
            final(self).changed(
                *old(self),
                provider_id,
                evaluated(after_error(old(self).record_of(provider_id), class, now), now),
            ),
    {
        let mut st = self.take_state(provider_id);
        st.recent.push((now, class));
        prune(&mut st.recent, now);
        if class == ErrorClass::Corruption {
            st.total_corruption = st.total_corruption.saturating_add(1);
        }
        evaluate(&mut st, now);
        self.put_state(provider_id, st);
        assert(self.known() =~= old(self).known().insert(provider_id.0));
    }

    /// Counts a success for a provider.
    pub fn note_success(&mut self, provider_id: ProviderId, now: u64)
        ensures
            final(self).changed(
                *old(self),
                provider_id,
                evaluated(after_success(old(self).record_of(provider_id)), now),
            ),
    {
        let mut st = self.take_state(provider_id);
        st.successes_since_quarantine = st.successes_since_quarantine.saturating_add(1);
        evaluate(&mut st, now);
        self.put_state(provider_id, st);
        assert(self.known() =~= old(self).known().insert(provider_id.0));
    }

    /// Sets where a provider stands.
    pub fn force(&mut self, provider_id: ProviderId, state: ProviderHealth, now: u64)
        ensures
            final(self).changed(
                *old(self),
                provider_id,
                HealthView {
                    kind: kind_of(state),
                    since: Some(now),
                    ..old(self).record_of(provider_id)
                },
            ),
    {
        let mut st = self.take_state(provider_id);
        st.current = state;
        st.state_since = Some(now);
        self.put_state(provider_id, st);
        assert(self.known() =~= old(self).known().insert(provider_id.0));
    }

    /// Where a provider stands at `now`.
    pub fn state(&mut self, provider_id: ProviderId, now: u64) -> (r: ProviderHealth)
        ensures
            final(self).changed(
                *old(self),
                provider_id,
                evaluated(old(self).record_of(provider_id), now),
            ),
            kind_of(r) == evaluated(old(self).record_of(provider_id), now).kind,
    {
        let mut st = self.take_state(provider_id);
        evaluate(&mut st, now);
        let out = copy_health(&st.current);
        self.put_state(provider_id, st);
        assert(self.known() =~= old(self).known().insert(provider_id.0));
        out
    }

    /// Where every provider that has been heard of stands at `now`, by increasing identifier.
    pub fn snapshot(&mut self, now: u64) -> (r: Vec<(ProviderId, ProviderHealth)>)
        ensures
            final(self).known() == old(self).known(),
            forall|id: ProviderId|
                #[trigger] final(self).record_of(id) == (if old(self).known().contains(id.0) {
                    evaluated(old(self).record_of(id), now)
                } else {
                    unknown_provider()
                }),
            forall|i: int, j: int| 0 <= i < j < r@.len() ==> (#[trigger] r@[i]).0.0 < (#[trigger] r@[j]).0.0,
            forall|k: u128| #[trigger]
                old(self).known().contains(k) <==> exists|i: int|
                    0 <= i < r@.len() && (#[trigger] r@[i]).0.0 == k,
            forall|i: int|
                0 <= i < r@.len() ==> kind_of((#[trigger] r@[i]).1) == final(self).record_of(r@[i].0).kind,
    {
        let keys = sorted_keys(&self.inner);
        let ghost start = *self;
        let mut out: Vec<(ProviderId, ProviderHealth)> = Vec::new();
        let mut i: usize = 0;
        while i < keys.len()
            invariant
                0 <= i <= keys@.len(),
                start == *old(self),
                lists_keys(keys@, start.inner@),
                self.known() == start.known(),
                forall|id: ProviderId|
                    #[trigger] self.record_of(id) == (if keys@.take(i as int).contains(id.0) {
                        evaluated(start.record_of(id), now)
                    } else {
                        start.record_of(id)
                    }),
                out@.len() == i,
                forall|j: int|
                    0 <= j < i ==> (#[trigger] out@[j]).0.0 == keys@[j] && kind_of(out@[j].1)
                        == evaluated(start.record_of(out@[j].0), now).kind,
            decreases keys@.len() - i,
        {
            let id = ProviderId(keys[i]);
            let ghost before = *self;
            proof {
                assert(!keys@.take(i as int).contains(id.0)) by {
                    if keys@.take(i as int).contains(id.0) {
                        let p = choose|p: int|
                            0 <= p < keys@.take(i as int).len() && keys@.take(i as int)[p] == id.0;
                        assert(keys@[p] < keys@[i as int]);
                    }
                }
                assert(before.record_of(id) == start.record_of(id));
            }
            let h = self.state(id, now);
            out.push((id, h));
            proof {
                assert(self.known() =~= start.known());
                assert forall|other: ProviderId| #[trigger] self.record_of(other) == (if keys@.take(
                    i + 1,
                ).contains(other.0) {
                    evaluated(start.record_of(other), now)
                } else {
                    start.record_of(other)
                }) by {
                    if other == id {
                        assert(keys@.take(i + 1)[i as int] == other.0);
                    } else {
                        assert(self.record_of(other) == before.record_of(other));
                        if keys@.take(i as int).contains(other.0) {
                            let p = choose|p: int|
                                0 <= p < keys@.take(i as int).len() && keys@.take(i as int)[p]
                                    == other.0;
                            assert(keys@.take(i + 1)[p] == other.0);
                        }
                        if keys@.take(i + 1).contains(other.0) {
                            let more = keys@.take(i + 1);
                            let p = choose|p: int| 0 <= p < more.len() && more[p] == other.0;
                            assert(p != i);
                            assert(keys@.take(i as int)[p] == other.0);
                        }
                    }
                }
            }
            i = i + 1;
        }
        proof {
            assert(keys@.take(i as int) =~= keys@);
            assert forall|k: u128| #[trigger] old(self).known().contains(k) <==> exists|i: int|
                0 <= i < out@.len() && (#[trigger] out@[i]).0.0 == k by {
                if old(self).known().contains(k) {
                    assert(keys@.contains(k));
                    let p = choose|p: int| 0 <= p < keys@.len() && keys@[p] == k;
                    assert(out@[p].0.0 == k);
                }
                if exists|i: int| 0 <= i < out@.len() && (#[trigger] out@[i]).0.0 == k {
                    let p = choose|p: int| 0 <= p < out@.len() && (#[trigger] out@[p]).0.0 == k;
                    assert(start.inner@.contains_key(keys@[p]));
                }
            }
            assert forall|id: ProviderId| #[trigger] self.record_of(id) == (if old(
                self,
            ).known().contains(id.0) {
                evaluated(old(self).record_of(id), now)
            } else {
                unknown_provider()
            }) by {
                if old(self).known().contains(id.0) {
                    assert(keys@.contains(id.0));
                } else if keys@.contains(id.0) {
                    let p = choose|p: int| 0 <= p < keys@.len() && keys@[p] == id.0;
                    assert(start.inner@.contains_key(keys@[p]));
                }
            }
            assert forall|i: int| 0 <= i < out@.len() implies kind_of((#[trigger] out@[i]).1)
                == self.record_of(out@[i].0).kind by {
                assert(keys@.contains(out@[i].0.0)) by {
                    assert(keys@[i] == out@[i].0.0);
                }
            }
        }
        out
    }
}

/// A ban is final: no error, success or passing of time lifts it.
pub proof fn lemma_ban_is_final(v: HealthView, class: ErrorClass, now: u64)
    requires
        v.kind is Banned,
    ensures
        evaluated(v, now).kind == v.kind,
        evaluated(after_error(v, class, now), now).kind == v.kind,
        evaluated(after_success(v), now).kind == v.kind,
{
}

/// A quarantine for authentication or corruption never clears by itself.
pub proof fn lemma_hard_quarantine_stays(v: HealthView, now: u64)
    requires
        v.kind matches HealthKind::Quarantined(reason, _) && (reason == ErrorClass::Auth || reason
            == ErrorClass::Corruption),
    ensures
        evaluated(after_success(v), now).kind != HealthKind::Active,
        evaluated(v, now).kind != HealthKind::Active,
{
}

/// A provider leaves a network quarantine exactly when it has had enough successes since it
/// entered it and is not due for a ban.
pub proof fn lemma_network_quarantine_clears(v: HealthView, now: u64)
    requires
        v.kind matches HealthKind::Quarantined(reason, _) && reason == ErrorClass::Network,
    ensures
        evaluated(v, now).kind == HealthKind::Active <==> v.successes >= SUCCESSES_TO_CLEAR,
{
}

proof fn lemma_forgiven(recent: Seq<(u64, ErrorClass)>, class: ErrorClass, other: ErrorClass)
    ensures
        count_of(without_class(recent, class), class) == 0,
        other != class ==> count_of(without_class(recent, class), other) == count_of(recent, other),
    decreases recent.len(),
{
    if recent.len() > 0 {
        lemma_forgiven(recent.drop_last(), class, other);
        let head = without_class(recent.drop_last(), class);
        if recent.last().1 != class {
            assert(head.push(recent.last()).drop_last() =~= head);
        }
    }
}

proof fn lemma_pruned_count(recent: Seq<(u64, ErrorClass)>, now: u64, class: ErrorClass)
    ensures
        count_of(pruned(recent, now), class) <= count_of(recent, class),
    decreases recent.len(),
{
    if recent.len() > 0 && is_stale(recent[0].0, now) {
        lemma_first_dropped(recent, class);
        lemma_pruned_count(recent.drop_first(), now, class);
    }
}

proof fn lemma_first_dropped(recent: Seq<(u64, ErrorClass)>, class: ErrorClass)
    requires
        recent.len() > 0,
    ensures
        count_of(recent.drop_first(), class) <= count_of(recent, class),
    decreases recent.len(),
{
    if recent.len() > 1 {
        lemma_first_dropped(recent.drop_last(), class);
        assert(recent.drop_first().drop_last() =~= recent.drop_last().drop_first());
        assert(recent.drop_first().last() == recent.last());
    }
}

/// A provider that has left a network quarantine stays active until something new speaks against
/// it: the errors that led into the quarantine no longer count.
pub proof fn lemma_cleared_stays_active(v: HealthView, now: u64, later: u64)
    requires
        v.kind matches HealthKind::Quarantined(reason, _) && reason == ErrorClass::Network,
        v.successes >= SUCCESSES_TO_CLEAR,
        count_of(pruned(v.recent, now), ErrorClass::Auth) < AUTH_THRESHOLD,
        v.total_corruption < CORRUPTION_THRESHOLD,
    ensures
        evaluated(v, now).kind == HealthKind::Active,
        evaluated(evaluated(v, now), later).kind == HealthKind::Active,
{
    let kept = evaluated(v, now).recent;
    lemma_forgiven(pruned(v.recent, now), ErrorClass::Network, ErrorClass::Auth);
    lemma_pruned_count(kept, later, ErrorClass::Network);
    lemma_pruned_count(kept, later, ErrorClass::Auth);
}

/// Successes count from the moment a provider enters quarantine.
pub proof fn lemma_successes_count_from_entry(v: HealthView, now: u64)
    requires
        v.kind == HealthKind::Active,
        evaluated(v, now).kind != HealthKind::Active,
    ensures
        evaluated(v, now).successes == 0,
        evaluated(v, now).since == Some(now),
{
}

/// Pruning drops errors from the front, as long as they are more than a minute old, and stops at
/// the first that is not.
pub proof fn lemma_errors_pruned(recent: Seq<(u64, ErrorClass)>, now: u64) -> (at: int)
    ensures
        0 <= at <= recent.len(),
        pruned(recent, now) == recent.skip(at),
        forall|i: int| 0 <= i < at ==> (#[trigger] recent[i]).0 + 60_000 < now,
        at < recent.len() ==> recent[at].0 + 60_000 >= now,
    decreases recent.len(),
{
    if recent.len() > 0 && is_stale(recent[0].0, now) {
        let t = recent.drop_first();
        let at = lemma_errors_pruned(t, now);
        assert(t.skip(at) =~= recent.skip(at + 1));
        assert forall|i: int| 0 <= i < at + 1 implies (#[trigger] recent[i]).0 + 60_000 < now by {
            if i > 0 {
                assert(t[i - 1] == recent[i]);
            }
        }
        at + 1
    } else {
        assert(recent.skip(0) =~= recent);
        0
    }
}

/// Errors are counted by their class, and to forgive a class is to leave out its errors and no
/// others.
pub proof fn lemma_errors_by_class(recent: Seq<(u64, ErrorClass)>, class: ErrorClass)
    ensures
        count_of(recent, class) == recent.filter(|p: (u64, ErrorClass)| p.1 == class).len(),
        without_class(recent, class) == recent.filter(|p: (u64, ErrorClass)| p.1 != class),
    decreases recent.len(),
{
    reveal(Seq::filter);
    if recent.len() > 0 {
        lemma_errors_by_class(recent.drop_last(), class);
    } else {
        assert(without_class(recent, class) =~= recent.filter(
            |p: (u64, ErrorClass)| p.1 != class,
        ));
    }
}

/// An active provider is quarantined exactly from its fifth authentication error, its tenth
/// network error or its fifth corruption on: the first two within the last minute, the third
/// however long ago. Nothing else moves it.
pub proof fn lemma_quarantined_exactly(v: HealthView, now: u64)
    requires
        v.kind == HealthKind::Active,
        forall|i: int| 0 <= i < v.recent.len() ==> (#[trigger] v.recent[i]).0 + 60_000 >= now,
    ensures
        ({
            let auth = v.recent.filter(|p: (u64, ErrorClass)| p.1 == ErrorClass::Auth).len();
            let network = v.recent.filter(|p: (u64, ErrorClass)| p.1 == ErrorClass::Network).len();
            let after = evaluated(v, now).kind;
            &&& after == HealthKind::Active <==> auth < 5 && network < 10 && v.total_corruption < 5
            &&& auth >= 5 ==> after == HealthKind::Quarantined(ErrorClass::Auth, "now"@)
            &&& auth < 5 && v.total_corruption >= 5 ==> after == HealthKind::Quarantined(
                ErrorClass::Corruption,
                "now"@,
            )
            &&& auth < 5 && v.total_corruption < 5 && network >= 10 ==> after
                == HealthKind::Quarantined(ErrorClass::Network, "now"@)
            &&& evaluated(v, now).recent == v.recent
        }),
{
    let at = lemma_errors_pruned(v.recent, now);
    if at > 0 {
        assert(v.recent[0].0 + 60_000 < now);
    }
    assert(v.recent.skip(0) =~= v.recent);
    lemma_errors_by_class(v.recent, ErrorClass::Auth);
    lemma_errors_by_class(v.recent, ErrorClass::Network);
}

/// A quarantined provider is banned exactly when it has been in quarantine for five minutes
/// without one success.
pub proof fn lemma_banned_exactly(v: HealthView, since: u64, now: u64)
    requires
        v.kind is Quarantined,
        v.since == Some(since),
        since <= now,
    ensures
        evaluated(v, now).kind is Banned <==> now >= since + 5 * 60 * 1000 && v.successes == 0,
{
}

/// An error is written down with its class and its time behind those that are still fresh; only a
/// corruption counts as one; nothing else of the record changes.
pub proof fn lemma_error_written_down(v: HealthView, class: ErrorClass, now: u64)
    ensures
        ({
            let w = after_error(v, class, now);
            &&& w.recent.len() > 0 && w.recent[w.recent.len() - 1] == (now, class)
            &&& class != ErrorClass::Corruption ==> w.total_corruption == v.total_corruption
            &&& class == ErrorClass::Corruption && v.total_corruption < u32::MAX
                ==> w.total_corruption == v.total_corruption + 1
            &&& w.kind == v.kind && w.successes == v.successes && w.since == v.since
        }),
{
    let all = v.recent.push((now, class));
    let at = lemma_errors_pruned(all, now);
    if at == all.len() {
        assert(all[all.len() - 1].0 + 60_000 < now);
    }
}

/// A success is counted and changes nothing else of the record.
pub proof fn lemma_success_counted(v: HealthView)
    ensures
        v.successes < u32::MAX ==> after_success(v).successes == v.successes + 1,
        after_success(v).recent == v.recent,
        after_success(v).kind == v.kind,
        after_success(v).total_corruption == v.total_corruption,
        after_success(v).since == v.since,
{
}

/// The network is to blame for what could not be reached, and for nothing else.
pub proof fn lemma_error_classes(err: PluginError)
    ensures
        class_of(err) == ErrorClass::Network <==> err is Io || err is Unavailable,
        class_of(err) == ErrorClass::Auth <==> err is AuthFailure,
        class_of(err) == ErrorClass::RateLimit <==> err is RateLimited,
        class_of(err) == ErrorClass::NotFound <==> err is NotFound,
        class_of(err) != ErrorClass::Corruption,
{
}

/// The health of one provider touches no other's.
pub proof fn lemma_records_apart(
    before: HealthMonitor,
    after: HealthMonitor,
    id: ProviderId,
    v: HealthView,
    other: ProviderId,
)
    requires
        after.changed(before, id, v),
    ensures
        after.record_of(id) == v,
        other != id ==> after.record_of(other) == before.record_of(other),
        after.known().contains(id.0),
{
}

/// An unknown provider is active, without errors, and is not quarantined by looking at it.
pub proof fn lemma_unknown_is_active(now: u64)
    ensures
        unknown_provider().kind == HealthKind::Active,
        unknown_provider().recent.len() == 0,
        evaluated(unknown_provider(), now).kind == HealthKind::Active,
{
    assert(pruned(unknown_provider().recent, now).len() == 0);
}

/// A provider that could not be reached, or was called too often, is active again at the third
/// success since it was quarantined, and not at the second.
pub proof fn lemma_third_success_clears(v: HealthView, reason: ErrorClass, since: Seq<char>, now: u64)
    requires
        v.kind == HealthKind::Quarantined(reason, since),
        reason == ErrorClass::Network || reason == ErrorClass::RateLimit,
    ensures
        v.successes == 2 ==> evaluated(after_success(v), now).kind == HealthKind::Active,
        v.successes == 1 ==> evaluated(after_success(v), now).kind == v.kind,
{
}

/// A record says since when its state holds: a change begins now and counts successes anew; without
/// a change the time stays, and begins now only where it was not known.
pub proof fn lemma_since_when(v: HealthView, now: u64)
    ensures
        evaluated(v, now).kind != v.kind ==> evaluated(v, now).since == Some(now) && evaluated(
            v,
            now,
        ).successes == 0,
        evaluated(v, now).kind == v.kind && v.since is Some ==> evaluated(v, now).since == v.since,
        evaluated(v, now).kind == v.kind && v.since is None ==> evaluated(v, now).since == Some(now),
        evaluated(v, now).kind == v.kind ==> evaluated(v, now).successes == v.successes,
        evaluated(v, now).total_corruption == v.total_corruption,
{
}

/// A provider's health is told by its kind, the reason of a quarantine and since when it holds.
pub proof fn lemma_health_told(h: ProviderHealth)
    ensures
        kind_of(h) == HealthKind::Active <==> h is Active,
        h matches ProviderHealth::Quarantined { reason, since } ==> kind_of(h)
            == HealthKind::Quarantined(reason, since.0@),
        h matches ProviderHealth::Banned { since } ==> kind_of(h) == HealthKind::Banned(since.0@),
{
}

} // verus!
