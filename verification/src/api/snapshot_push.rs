//! The push of a snapshot from start to end. The caller does what it is told, reports how that
//! went, and is told what comes next. The stored pointer moves and the log is cut only behind an
//! upload that was not refused.

use vstd::prelude::*;

use super::snapshot::advance_pointer;
use super::snapshot::collect_entries;
use super::snapshot::entries_cbor;
use super::snapshot::entries_of;
use super::snapshot::entry_views;
use super::snapshot::push_target;
use super::snapshot::seal_with_nonce;
use super::snapshot::snapshot_sealed;
use super::snapshot::truncate_through;
use super::snapshot::upload_verdict;
use super::snapshot::SnapshotRow;
use super::snapshot::Upload;
use super::ApiError;
use crate::api::requests::locked_answer;
use crate::api::requests::unlocked_key;
use crate::api::requests::KeyUse;
use crate::api::snapshot::check_pointer;
use crate::crypto::aead::random_12;
use crate::crypto::aead::CHACHA_MAX_BYTES;
use crate::crypto::SymKey;
use crate::entities::records::SignedSnapshotPointer;
use crate::text::dec_digits;
use crate::text::joined;
use crate::types::ProviderId;
use crate::types::VaultId;

verus! {

/// What a push waits for.
#[derive(Clone, Copy, PartialEq, Eq, Structural, Debug)]
pub enum PushStage {
    /// The rows of the store.
    Rows,
    /// The vault providers.
    Providers,
    /// The end of the upload.
    Upload,
    /// The commit of the vault's record.
    Commit,
    /// The end of the log.
    Tail,
    /// Nothing: the push is done.
    Done,
    /// Nothing: the push is refused.
    Refused,
}

/// What the caller reports.
pub enum PushEvent {
    /// The rows of the families that a snapshot holds, the clock from which on files are wanted,
    /// and a random nonce.
    Rows(Vec<SnapshotRow>, Option<u64>, [u8; 12]),
    /// The providers that promise compare-and-swap, and whether there are any at all.
    Providers(Vec<ProviderId>, bool),
    /// No plugin serves the provider, with the reason in words.
    NoPlugin(String),
    /// How the upload went.
    Uploaded(Upload),
    /// The vault's record is committed.
    Committed,
    /// The commit failed, with the reason in words.
    CommitFailed(String),
    /// The next number of the log.
    Tail(u64),
}

/// What the caller has to do next.
pub enum PushAction {
    /// Find out which vault providers there are.
    FindProviders,
    /// Upload the blob to a provider, and look at what it then has.
    Upload(ProviderId),
    /// Commit the vault's record with the pointer of the push.
    Commit,
    /// Find out where the log ends.
    FindTail,
    /// Cut the log through a number, where there is one. The push is done.
    Finish(Option<u64>),
    /// Answer with this refusal, and do no more.
    Refuse(ApiError),
}

/// A push under way.
pub struct SnapshotPush {
    pub stage: PushStage,
    pub vault: VaultId,
    pub key: SymKey,
    pub pointer: SignedSnapshotPointer,
    pub blob: Vec<u8>,
    pub entries: usize,
    pub target: Option<ProviderId>,
    pub pushed: bool,
    pub committed: bool,
    pub cut: Option<u64>,
}

/// A push under way, but for the pointer.
pub ghost struct PushView {
    pub stage: PushStage,
    pub vault: VaultId,
    pub master: Seq<u8>,
    pub blob: Seq<u8>,
    pub entries: nat,
    pub target: Option<ProviderId>,
    pub pushed: bool,
    pub committed: bool,
    pub cut: Option<u64>,
}

/// Whether a push waits for an event.
pub open spec fn awaits(stage: PushStage, ev: PushEvent) -> bool {
    match ev {
        PushEvent::Rows(_, _, _) => stage == PushStage::Rows,
        PushEvent::Providers(_, _) => stage == PushStage::Providers,
        PushEvent::NoPlugin(_) => stage == PushStage::Upload,
        PushEvent::Uploaded(_) => stage == PushStage::Upload,
        PushEvent::Committed => stage == PushStage::Commit,
        PushEvent::CommitFailed(_) => stage == PushStage::Commit,
        PushEvent::Tail(_) => stage == PushStage::Tail,
    }
}

/// The words with which an event ends a push, where it does.
pub open spec fn push_refusal(v: PushView, ev: PushEvent) -> Option<Seq<char>> {
    match ev {
        PushEvent::Rows(rows, since, _) => if entries_cbor(entries_of(rows@, since)).len()
            > CHACHA_MAX_BYTES {
            Some("aead: AeadVerify"@)
        } else {
            None
        },
        PushEvent::Providers(strong, any) => if strong@.len() == 0 && any {
            Some(
                "snapshot push refused: no vault provider declares OptimisticCas or stronger; EventualOnly backends cannot host the snapshot pointer (Layer 3)"@,
            )
        } else {
            None
        },
        PushEvent::NoPlugin(why) => Some("get_vault_plugin: "@ + why@),
        PushEvent::Uploaded(Upload::Seen { exists, size }) => if exists && size == v.blob.len() {
            None
        } else {
            Some("verify-after-upload mismatch; pointer not advanced"@)
        },
        PushEvent::Uploaded(_) => None,
        PushEvent::Committed => None,
        PushEvent::CommitFailed(why) => Some("commit: "@ + why@),
        PushEvent::Tail(_) => None,
    }
}

/// A push after an event that it waits for; any other changes nothing.
pub open spec fn push_next(v: PushView, ev: PushEvent) -> PushView {
    if !awaits(v.stage, ev) {
        v
    } else if push_refusal(v, ev) is Some {
        PushView { stage: PushStage::Refused, ..v }
    } else {
        match ev {
            PushEvent::Rows(rows, since, nonce) => PushView {
                stage: PushStage::Providers,
                blob: snapshot_sealed(v.master, v.vault, nonce@, entries_of(rows@, since)),
                entries: entries_of(rows@, since).len(),
                ..v
            },
            PushEvent::Providers(strong, _) => if strong@.len() > 0 {
                PushView { stage: PushStage::Upload, target: Some(strong@[0]), ..v }
            } else {
                PushView { stage: PushStage::Commit, ..v }
            },
            PushEvent::Uploaded(u) => PushView {
                stage: PushStage::Commit,
                pushed: !(u is Failed),
                ..v
            },
            PushEvent::Committed => PushView { stage: PushStage::Tail, committed: true, ..v },
            PushEvent::Tail(next_seq) => PushView {
                stage: PushStage::Done,
                cut: if v.pushed && next_seq > 0 {
                    Some(next_seq)
                } else {
                    None
                },
                ..v
            },
            _ => v,
        }
    }
}

/// A push after a row of events.
pub open spec fn push_all(v: PushView, evs: Seq<PushEvent>) -> PushView
    decreases evs.len(),
{
    if evs.len() == 0 {
        v
    } else {
        push_next(push_all(v, evs.drop_last()), evs.last())
    }
}

/// Whether an action is what a push asks for where it stands.
pub open spec fn is_push_action(v: PushView, a: PushAction, refusal: Option<Seq<char>>) -> bool {
    match v.stage {
        PushStage::Providers => a is FindProviders,
        PushStage::Upload => v.target is Some && a == PushAction::Upload(v.target.unwrap()),
        PushStage::Commit => a is Commit,
        PushStage::Tail => a is FindTail,
        PushStage::Done => a == PushAction::Finish(v.cut),
        PushStage::Refused => refusal is Some && (a matches PushAction::Refuse(e) && e.says(
            400,
            refusal.unwrap(),
        )),
        PushStage::Rows => false,
    }
}

/// Whether `after` is a pointer moved to the snapshot in a blob.
pub open spec fn is_advanced(
    before: SignedSnapshotPointer,
    after: SignedSnapshotPointer,
    blob: Seq<u8>,
) -> bool {
    &&& after.version_counter.0 == before.version_counter.0 + 1
    &&& after.snapshot_id@ == blob.take(12)
    &&& after.created_at.0@ == "now"@
    &&& after.epoch_id == before.epoch_id
    &&& after.format_version == before.format_version
    &&& after.signature == before.signature
}

impl SnapshotPush {
    /// The push, but for the pointer.
    pub open spec fn model(self) -> PushView {
        PushView {
            stage: self.stage,
            vault: self.vault,
            master: self.key.0@,
            blob: self.blob@,
            entries: self.entries as nat,
            target: self.target,
            pushed: self.pushed,
            committed: self.committed,
            cut: self.cut,
        }
    }

    /// Whether the blob is there once it is sealed, and the pointer can still move until it has.
    pub open spec fn wf(self) -> bool {
        match self.stage {
            PushStage::Rows => self.pointer.version_counter.0 < u64::MAX,
            PushStage::Providers => self.pointer.version_counter.0 < u64::MAX && self.blob@.len()
                >= 28,
            PushStage::Upload => self.pointer.version_counter.0 < u64::MAX && self.blob@.len()
                >= 28,
            _ => true,
        }
    }

    /// Starts a push. It is refused where the stored pointer is not the expected one, or the vault
    /// is locked.
    pub fn begin(
        vault: VaultId,
        pointer: SignedSnapshotPointer,
        expected: Option<u64>,
        key: Option<SymKey>,
    ) -> (r: Result<Self, ApiError>)
        requires
            pointer.version_counter.0 < u64::MAX,
        ensures
            match expected {
                Some(e) if e != pointer.version_counter.0 => r matches Err(err) && err.says(
                    409,
                    "pointer CAS mismatch: have "@ + dec_digits(pointer.version_counter.0 as nat)
                        + ", expected "@ + dec_digits(e as nat),
                ),
                _ => match key {
                    None => r matches Err(err) && err.says(
                        locked_answer(KeyUse::PushSnapshot).0,
                        locked_answer(KeyUse::PushSnapshot).1,
                    ),
                    Some(k) => r matches Ok(p) && p.wf() && p.pointer == pointer && p.model() == (
                    PushView {
                        stage: PushStage::Rows,
                        vault,
                        master: k.0@,
                        blob: Seq::empty(),
                        entries: 0,
                        target: None,
                        pushed: false,
                        committed: false,
                        cut: None,
                    }),
                },
            },
    {
        match check_pointer(pointer.version_counter.0, expected) {
            Ok(()) => {},
            Err(e) => {
                return Err(e);
            },
        }
        let key = match unlocked_key(key, KeyUse::PushSnapshot) {
            Ok(k) => k,
            Err(e) => {
                return Err(e);
            },
        };
        let blob: Vec<u8> = Vec::new();
        assert(blob@ =~= Seq::<u8>::empty());
        Ok(
            SnapshotPush {
                stage: PushStage::Rows,
                vault,
                key,
                pointer,
                blob,
                entries: 0,
                target: None,
                pushed: false,
                committed: false,
                cut: None,
            },
        )
    }

    fn refuse(&mut self, e: ApiError) -> (r: PushAction)
        ensures
            r == PushAction::Refuse(e),
            final(self).model() == (PushView { stage: PushStage::Refused, ..old(self).model() }),
            final(self).pointer == old(self).pointer,
            final(self).wf(),
    {
        self.stage = PushStage::Refused;
        PushAction::Refuse(e)
    }

    fn commit(&mut self) -> (r: PushAction)
        requires
            old(self).blob@.len() >= 28,
            old(self).pointer.version_counter.0 < u64::MAX,
        ensures
            r is Commit,
            final(self).model() == (PushView { stage: PushStage::Commit, ..old(self).model() }),
            is_advanced(old(self).pointer, final(self).pointer, old(self).blob@),
            final(self).wf(),
    {
        self.stage = PushStage::Commit;
        advance_pointer(&mut self.pointer, &self.blob);
        PushAction::Commit
    }

    /// Takes the rows of the store, and seals them under a random nonce.
    pub fn on_rows(&mut self, rows: Vec<SnapshotRow>, since: Option<u64>) -> (r: PushAction)
        requires
            old(self).wf(),
            old(self).stage == PushStage::Rows,
        ensures
            final(self).wf(),
            final(self).pointer == old(self).pointer,
            exists|nonce: [u8; 12]|
                final(self).model() == #[trigger] push_next(
                    old(self).model(),
                    PushEvent::Rows(rows, since, nonce),
                ) && is_push_action(
                    final(self).model(),
                    r,
                    push_refusal(old(self).model(), PushEvent::Rows(rows, since, nonce)),
                ),
    {
        let nonce = random_12();
        let r = self.on(PushEvent::Rows(rows, since, nonce));
        assert(self.model() == push_next(old(self).model(), PushEvent::Rows(rows, since, nonce)));
        r
    }

    /// Takes what happened, and says what to do next. The pointer moves when its commit is asked
    /// for.
    pub fn on(&mut self, ev: PushEvent) -> (r: PushAction)
        requires
            old(self).wf(),
            awaits(old(self).stage, ev),
        ensures
            final(self).wf(),
            final(self).model() == push_next(old(self).model(), ev),
            is_push_action(final(self).model(), r, push_refusal(old(self).model(), ev)),
            if final(self).stage == PushStage::Commit {
                is_advanced(old(self).pointer, final(self).pointer, final(self).blob@)
            } else {
                final(self).pointer == old(self).pointer
            },
    {
        match ev {
            PushEvent::Rows(rows, since, nonce) => {
                let entries = collect_entries(&rows, since);
                match seal_with_nonce(&self.key, self.vault, nonce, &entries) {
                    Ok(blob) => {
                        assert(entry_views(entries@).len() == entries@.len());
                        self.blob = blob;
                        self.entries = entries.len();
                        self.stage = PushStage::Providers;
                        PushAction::FindProviders
                    },
                    Err(e) => self.refuse(e),
                }
            },
            PushEvent::Providers(strong, any) => match push_target(&strong, any) {
                Ok(Some(p)) => {
                    self.target = Some(p);
                    self.stage = PushStage::Upload;
                    PushAction::Upload(p)
                },
                Ok(None) => self.commit(),
                Err(e) => self.refuse(e),
            },
            PushEvent::NoPlugin(why) => {
                let text = joined("get_vault_plugin: ", why.as_str());
                self.refuse(ApiError::bad(text.as_str()))
            },
            PushEvent::Uploaded(upload) => match upload_verdict(upload, self.blob.len() as u64) {
                Ok(pushed) => {
                    self.pushed = pushed;
                    self.commit()
                },
                Err(e) => self.refuse(e),
            },
            PushEvent::Committed => {
                self.committed = true;
                self.stage = PushStage::Tail;
                PushAction::FindTail
            },
            PushEvent::CommitFailed(why) => {
                let text = joined("commit: ", why.as_str());
                self.refuse(ApiError::bad(text.as_str()))
            },
            PushEvent::Tail(next_seq) => {
                self.cut = truncate_through(self.pushed, next_seq);
                self.stage = PushStage::Done;
                PushAction::Finish(self.cut)
            },
        }
    }
}

/// A push that is refused has committed nothing and cut nothing, whatever happened on the way; and
/// one that cuts the log has committed, behind an upload that counts.
pub proof fn lemma_refused_push_changes_nothing(start: PushView, evs: Seq<PushEvent>)
    requires
        start.stage == PushStage::Rows,
        !start.pushed,
        !start.committed,
        start.cut is None,
    ensures
        push_all(start, evs).stage == PushStage::Refused ==> !push_all(start, evs).committed
            && push_all(start, evs).cut is None,
        push_all(start, evs).cut is Some ==> push_all(start, evs).committed && push_all(
            start,
            evs,
        ).pushed && push_all(start, evs).stage == PushStage::Done,
        push_all(start, evs).committed <==> push_all(start, evs).stage == PushStage::Tail || push_all(
            start,
            evs,
        ).stage == PushStage::Done,
    decreases evs.len(),
{
    if evs.len() > 0 {
        lemma_refused_push_changes_nothing(start, evs.drop_last());
    }
}

/// Nothing moves a push that has ended.
pub proof fn lemma_ended_push_stays(v: PushView, evs: Seq<PushEvent>)
    requires
        v.stage == PushStage::Refused || v.stage == PushStage::Done,
    ensures
        push_all(v, evs) == v,
    decreases evs.len(),
{
    if evs.len() > 0 {
        lemma_ended_push_stays(v, evs.drop_last());
    }
}

/// The pointer's commit is asked for only behind an upload that was not contradicted: what was
/// looked at again is there, with the size of the blob. A push without a target uploads nothing.
pub proof fn lemma_commit_follows_upload(v: PushView, there: bool, size: u64)
    requires
        v.stage == PushStage::Upload,
    ensures
        there && size == v.blob.len() ==> ({
            let w = push_next(v, PushEvent::Uploaded(Upload::Seen { exists: there, size }));
            w.stage == PushStage::Commit && w.pushed
        }),
        !there || size != v.blob.len() ==> push_next(
            v,
            PushEvent::Uploaded(Upload::Seen { exists: there, size }),
        ).stage == PushStage::Refused,
        push_next(v, PushEvent::Uploaded(Upload::Failed)).stage == PushStage::Commit,
        !push_next(v, PushEvent::Uploaded(Upload::Failed)).pushed,
        push_next(v, PushEvent::Uploaded(Upload::Stored)).stage == PushStage::Commit,
        push_next(v, PushEvent::Uploaded(Upload::Stored)).pushed,
{
}

/// The log is cut at its tail exactly where the blob was pushed and the log is not empty.
pub proof fn lemma_log_cut_at_tail(v: PushView, next_seq: u64)
    requires
        v.stage == PushStage::Tail,
    ensures
        v.pushed && next_seq > 0 ==> push_next(v, PushEvent::Tail(next_seq)).cut == Some(next_seq),
        !v.pushed || next_seq == 0 ==> push_next(v, PushEvent::Tail(next_seq)).cut is None,
        push_next(v, PushEvent::Tail(next_seq)).stage == PushStage::Done,
{
}

/// A push goes to the first provider that is strong enough. Where providers are registered and none
/// is, it is refused; where none is registered, it goes on without an upload.
pub proof fn lemma_target_chosen(v: PushView, strong: Vec<ProviderId>, any: bool)
    requires
        v.stage == PushStage::Providers,
    ensures
        ({
            let w = push_next(v, PushEvent::Providers(strong, any));
            &&& strong@.len() > 0 ==> w.stage == PushStage::Upload && w.target == Some(strong@[0])
            &&& strong@.len() == 0 && any ==> w.stage == PushStage::Refused
            &&& strong@.len() == 0 && !any ==> w.stage == PushStage::Commit && w.target == v.target
        }),
{
}

/// A pointer moves on by one, to the snapshot that the blob begins with, and keeps its epoch.
pub proof fn lemma_pointer_moves_on(
    before: SignedSnapshotPointer,
    after: SignedSnapshotPointer,
    blob: Seq<u8>,
)
    requires
        is_advanced(before, after, blob),
        blob.len() >= 12,
    ensures
        after.version_counter.0 == before.version_counter.0 + 1,
        forall|i: int| 0 <= i < 12 ==> #[trigger] after.snapshot_id@[i] == blob[i],
        after.epoch_id == before.epoch_id,
{
    assert forall|i: int| 0 <= i < 12 implies #[trigger] after.snapshot_id@[i] == blob[i] by {
        assert(blob.take(12)[i] == blob[i]);
    }
}

/// What a push asks for is what its stage is for.
pub proof fn lemma_stage_asks(v: PushView, a: PushAction, refusal: Option<Seq<char>>)
    requires
        is_push_action(v, a, refusal),
    ensures
        v.stage == PushStage::Providers <==> a is FindProviders,
        v.stage == PushStage::Commit <==> a is Commit,
        v.stage == PushStage::Tail <==> a is FindTail,
        v.stage == PushStage::Refused <==> a is Refuse,
        a matches PushAction::Upload(p) ==> v.stage == PushStage::Upload && v.target == Some(p),
        a matches PushAction::Finish(n) ==> v.stage == PushStage::Done && v.cut == n,
        a matches PushAction::Refuse(e) ==> e.status == 400 && refusal == Some(e.message@),
{
}

/// What a push uploads is the sealed entries of its rows, under the nonce that it begins with.
pub proof fn lemma_rows_sealed(
    v: PushView,
    rows: Vec<SnapshotRow>,
    since: Option<u64>,
    nonce: [u8; 12],
)
    requires
        v.stage == PushStage::Rows,
    ensures
        ({
            let w = push_next(v, PushEvent::Rows(rows, since, nonce));
            &&& w.stage == PushStage::Providers || w.stage == PushStage::Refused
            &&& w.stage == PushStage::Providers ==> w.blob.take(12) == nonce@ && w.blob
                == snapshot_sealed(v.master, v.vault, nonce@, entries_of(rows@, since)) && w.entries
                == entries_of(rows@, since).len()
            &&& w.master == v.master && w.vault == v.vault
        }),
{
    let b = snapshot_sealed(v.master, v.vault, nonce@, entries_of(rows@, since));
    assert(b.take(12) =~= nonce@);
}

/// A push is told by its fields.
pub proof fn lemma_push_told(p: SnapshotPush)
    ensures
        p.model().stage == p.stage,
        p.model().vault == p.vault,
        p.model().master == p.key.0@,
        p.model().blob == p.blob@,
        p.model().entries == p.entries,
        p.model().target == p.target,
        p.model().pushed == p.pushed,
        p.model().committed == p.committed,
        p.model().cut == p.cut,
{
}

} // verus!
