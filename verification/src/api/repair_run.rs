//! One repair task from start to end. The caller looks at one shard after the other, as it is
//! told, reports what it saw, and carries out the effects that come back.
//!
//! A collection deletes every shard, keeps a shadow of what a provider does not let go, and drops
//! the chunk's record once all shards are gone. A scrub peeks at every shard; one that is not
//! there, or has another size, is marked as degraded, and a read repair is asked for. A read
//! repair marks every acknowledged shard as degraded, so that the next read fans out elsewhere. A
//! ban sheds the shards of banned providers.

use vstd::prelude::*;

use crate::entities::records::AckState;
use crate::entities::records::Chunk;
use crate::entities::records::ReplicationState;
use crate::entities::records::Shadow;
use crate::entities::records::ShadowReason;
use crate::entities::records::ShadowState;
use crate::entities::records::Shard;
use crate::repair::RepairSource;
use crate::repair::RepairTask;
use crate::repair::MAX_ATTEMPTS;
use crate::text::push_chars;
use crate::text::push_text;
use crate::text::string_of;
use crate::types::uuid_chars;
use crate::types::uuid_text;
use crate::types::CachedElsewhereRisk;
use crate::types::ChunkHash;
use crate::types::DeleteOutcome;
use crate::types::HealthScore;
use crate::types::ShadowId;
use crate::types::ShardId;
use crate::types::Timestamp;

verus! {

/// What to do with a shard.
#[derive(Clone, Copy, PartialEq, Eq, Structural, Debug)]
pub enum ShardProbe {
    /// Ask its provider to delete it.
    Delete,
    /// Ask its provider whether it is there.
    Peek,
    /// Look up whether its provider is banned.
    CheckBan,
    /// Read its record, and no more.
    Look,
}

/// What was seen of a shard.
pub enum ShardEvent {
    /// There is no record of the shard, or it could not be read.
    Missing,
    /// No plugin serves the shard's provider.
    NoPlugin(Shard),
    /// The provider answered a delete.
    Deleted(Shard, DeleteOutcome),
    /// The provider failed a delete, with this text.
    DeleteFailed(Shard, String),
    /// The provider answered a peek.
    Peeked(Shard, bool, u64),
    /// The provider failed a peek.
    PeekFailed(Shard),
    /// Whether the shard's provider is banned.
    Standing(Shard, bool),
    /// The record of the shard.
    Found(Shard),
}

/// What to do besides.
pub enum RepairEffect {
    /// Store a shadow.
    RegisterShadow(Shadow),
    /// Store a shard record.
    StoreShard(Shard),
    /// Queue a task; a full queue is no error.
    Enqueue(RepairTask),
    /// Drop the record of a chunk.
    DropChunk(ChunkHash),
    /// Store shadows and a chunk in one transaction, then publish that a plugin was banned.
    ShedBanned(Vec<Shadow>, Chunk),
}

/// Whether a provider's answer to a peek is what the shard's record says.
pub open spec fn is_sound(shard: Shard, exists: bool, size: u64) -> bool {
    exists && size == shard.ciphertext_length
}

/// Whether a delete left nothing behind.
pub open spec fn leaves_nothing(outcome: DeleteOutcome) -> bool {
    outcome == DeleteOutcome::Removed || outcome == DeleteOutcome::NotFound
}

/// Whether `sh` is a new shadow of a shard.
pub open spec fn is_shadow_of(
    sh: Shadow,
    shard: Shard,
    chunk_hash: ChunkHash,
    id: ShadowId,
    now: Timestamp,
    reason: ShadowReason,
    risk: CachedElsewhereRisk,
) -> bool {
    &&& sh.shadow_id == id
    &&& sh.original_chunk_hash == chunk_hash
    &&& sh.driver_id == shard.driver_id.value
    &&& sh.native_handle.0@ == shard.native_handle.value.0@
    &&& sh.ciphertext_length == shard.ciphertext_length
    &&& sh.abandoned_at == now
    &&& sh.reason == reason
    &&& sh.cached_elsewhere_risk == risk
    &&& sh.counts_against_quota
    &&& sh.tombstone_clears_at is None
    &&& sh.state == ShadowState::Registered
    &&& sh.peek_count == 0
}

fn shadow_of(
    shard: &Shard,
    chunk_hash: ChunkHash,
    id: ShadowId,
    now: Timestamp,
    reason: ShadowReason,
    risk: CachedElsewhereRisk,
) -> (r: Shadow)
    ensures
        is_shadow_of(r, *shard, chunk_hash, id, now, reason, risk),
{
    Shadow {
        shadow_id: id,
        original_chunk_hash: chunk_hash,
        driver_id: shard.driver_id.value,
        native_handle: shard.native_handle.value.copied(),
        ciphertext_length: shard.ciphertext_length,
        abandoned_at: now,
        reason,
        cached_elsewhere_risk: risk,
        counts_against_quota: true,
        tombstone_clears_at: None,
        state: ShadowState::Registered,
        peek_count: 0,
    }
}

/// How the shards of a task are looked at; `None` where they are not.
pub open spec fn probe_of(source: RepairSource) -> Option<ShardProbe> {
    match source {
        RepairSource::GcSweep => Some(ShardProbe::Delete),
        RepairSource::Scrub => Some(ShardProbe::Peek),
        RepairSource::ReadRepair => Some(ShardProbe::Look),
        RepairSource::PluginBan => Some(ShardProbe::CheckBan),
        RepairSource::AntiEntropy => None,
        RepairSource::Rebalance => None,
    }
}

/// Whether an event can come from the way that shards are looked at.
pub open spec fn answers(probe: ShardProbe, ev: ShardEvent) -> bool {
    match ev {
        ShardEvent::Missing => true,
        ShardEvent::NoPlugin(_) => probe == ShardProbe::Delete || probe == ShardProbe::Peek,
        ShardEvent::Deleted(_, _) => probe == ShardProbe::Delete,
        ShardEvent::DeleteFailed(_, _) => probe == ShardProbe::Delete,
        ShardEvent::Peeked(_, _, _) => probe == ShardProbe::Peek,
        ShardEvent::PeekFailed(_) => probe == ShardProbe::Peek,
        ShardEvent::Standing(_, _) => probe == ShardProbe::CheckBan,
        ShardEvent::Found(_) => probe == ShardProbe::Look,
    }
}

/// Where a run stands: how many shards have been looked at, whether all of them are gone, which
/// survive a ban, and how many do not.
pub ghost struct RunModel {
    pub pos: int,
    pub all_removed: bool,
    pub surviving: Seq<ShardId>,
    pub shed: int,
}

/// Where a run starts.
pub open spec fn run_start() -> RunModel {
    RunModel { pos: 0, all_removed: true, surviving: Seq::empty(), shed: 0 }
}

/// Whether an event leaves hope that the whole chunk is gone.
pub open spec fn is_gone(ev: ShardEvent) -> bool {
    match ev {
        ShardEvent::NoPlugin(_) => false,
        ShardEvent::Deleted(_, outcome) => leaves_nothing(outcome),
        _ => true,
    }
}

/// Where a run stands after one more event about the shard `id`.
pub open spec fn run_step(m: RunModel, id: ShardId, ev: ShardEvent) -> RunModel {
    RunModel {
        pos: m.pos + 1,
        all_removed: m.all_removed && is_gone(ev),
        surviving: match ev {
            ShardEvent::Standing(_, false) => m.surviving.push(id),
            _ => m.surviving,
        },
        shed: match ev {
            ShardEvent::Standing(_, true) => m.shed + 1,
            _ => m.shed,
        },
    }
}

/// A task that is being carried out.
pub struct RepairRun {
    chunk: Chunk,
    source: RepairSource,
    pos: usize,
    all_removed: bool,
    surviving: Vec<ShardId>,
    shadowed: Vec<Shadow>,
}

/// Whether `effects` are what an event calls for.
pub open spec fn effects_of(
    source: RepairSource,
    chunk_hash: ChunkHash,
    ev: ShardEvent,
    shadow_id: ShadowId,
    now: Timestamp,
    effects: Seq<RepairEffect>,
) -> bool {
    match (source, ev) {
        (RepairSource::GcSweep, ShardEvent::Deleted(shard, outcome)) => if leaves_nothing(outcome) {
            effects.len() == 0
        } else {
            effects.len() == 1 && (effects[0] matches RepairEffect::RegisterShadow(sh) && is_shadow_of(
                sh,
                shard,
                shard.chunk_hash,
                shadow_id,
                now,
                ShadowReason::DeletionOrphaned,
                CachedElsewhereRisk::Low,
            ))
        },
        (RepairSource::Scrub, ShardEvent::Peeked(shard, exists, size)) => if is_sound(
            shard,
            exists,
            size,
        ) {
            effects.len() == 0
        } else {
            is_degrading(effects, shard, chunk_hash)
        },
        (RepairSource::Scrub, ShardEvent::PeekFailed(shard)) => is_degrading(
            effects,
            shard,
            chunk_hash,
        ),
        (RepairSource::ReadRepair, ShardEvent::Found(shard)) => if shard.ack_state == AckState::Acked {
            effects == seq![
                RepairEffect::StoreShard(Shard { health_score: HealthScore(0), ..shard }),
            ]
        } else {
            effects.len() == 0
        },
        _ => effects.len() == 0,
    }
}

/// Whether `effects` mark a shard as dead and ask for a read repair of its chunk.
pub open spec fn is_degrading(effects: Seq<RepairEffect>, shard: Shard, chunk_hash: ChunkHash) -> bool {
    effects == seq![
        RepairEffect::StoreShard(Shard { health_score: HealthScore(0), ..shard }),
        RepairEffect::Enqueue(
            RepairTask {
                chunk_hash,
                priority: 100,
                source: RepairSource::ReadRepair,
                attempt: 0,
            },
        ),
    ]
}

fn degrade(shard: Shard, chunk_hash: ChunkHash) -> (r: Vec<RepairEffect>)
    ensures
        is_degrading(r@, shard, chunk_hash),
{
    let mut out: Vec<RepairEffect> = Vec::new();
    out.push(RepairEffect::StoreShard(Shard { health_score: HealthScore(0), ..shard }));
    out.push(
        RepairEffect::Enqueue(
            RepairTask { chunk_hash, priority: 100, source: RepairSource::ReadRepair, attempt: 0 },
        ),
    );
    assert(out@ =~= seq![
        RepairEffect::StoreShard(Shard { health_score: HealthScore(0), ..shard }),
        RepairEffect::Enqueue(
            RepairTask {
                chunk_hash,
                priority: 100,
                source: RepairSource::ReadRepair,
                attempt: 0,
            },
        ),
    ]);
    out
}

impl RepairRun {
    /// Where the run stands.
    pub closed spec fn model(self) -> RunModel {
        RunModel {
            pos: self.pos as int,
            all_removed: self.all_removed,
            surviving: self.surviving@,
            shed: self.shadowed@.len() as int,
        }
    }

    /// The chunk that the run is about.
    pub closed spec fn chunk(self) -> Chunk {
        self.chunk
    }

    /// What asked for the repair.
    pub closed spec fn source(self) -> RepairSource {
        self.source
    }

    /// The shadows of the shards that a ban takes away.
    pub closed spec fn shadowed(self) -> Seq<Shadow> {
        self.shadowed@
    }

    /// How the shards are looked at; `None` where there is nothing to do.
    pub fn begin(task: &RepairTask, chunk: Option<Chunk>) -> (r: Option<RepairRun>)
        ensures
            match (chunk, probe_of(task.source)) {
                (Some(c), Some(_)) => r matches Some(run) && run.chunk() == c && run.source()
                    == task.source && run.model() == run_start() && run.shadowed().len() == 0,
                _ => r is None,
            },
    {
        let c = match chunk {
            Some(c) => c,
            None => {
                return None;
            },
        };
        match task.source {
            RepairSource::AntiEntropy => None,
            RepairSource::Rebalance => None,
            _ => {
                let run = RepairRun {
                    chunk: c,
                    source: task.source,
                    pos: 0,
                    all_removed: true,
                    surviving: Vec::new(),
                    shadowed: Vec::new(),
                };
                assert(run.surviving@ =~= Seq::<ShardId>::empty());
                Some(run)
            },
        }
    }

    /// The next shard to look at, and how; `None` once every shard has been looked at.
    pub fn next_shard(&self) -> (r: Option<(ShardId, ShardProbe)>)
        requires
            probe_of(self.source()) is Some,
        ensures
            r == (if self.model().pos < self.chunk().shard_list@.len() {
                Some(
                    (self.chunk().shard_list@[self.model().pos], probe_of(self.source()).unwrap()),
                )
            } else {
                None
            }),
    {
        if self.pos >= self.chunk.shard_list.len() {
            return None;
        }
        let id = self.chunk.shard_list[self.pos];
        match self.source {
            RepairSource::GcSweep => Some((id, ShardProbe::Delete)),
            RepairSource::PluginBan => Some((id, ShardProbe::CheckBan)),
            RepairSource::ReadRepair => Some((id, ShardProbe::Look)),
            _ => Some((id, ShardProbe::Peek)),
        }
    }

    /// Takes what was seen of the next shard. `shadow_id` and `now` are for a shadow, should the
    /// event call for one. A failed delete ends the run.
    pub fn observe(&mut self, ev: ShardEvent, shadow_id: ShadowId, now: Timestamp) -> (r: Result<
        Vec<RepairEffect>,
        String,
    >)
        requires
            probe_of(old(self).source()) is Some,
            answers(probe_of(old(self).source()).unwrap(), ev),
            0 <= old(self).model().pos < old(self).chunk().shard_list@.len(),
        ensures
            final(self).chunk() == old(self).chunk(),
            final(self).source() == old(self).source(),
            match ev {
                ShardEvent::DeleteFailed(shard, e) => {
                    &&& r matches Err(m) && m@ == "delete on "@ + uuid_text(shard.driver_id.value.0)
                        + ": "@ + e@
                    &&& final(self).model() == old(self).model()
                    &&& final(self).shadowed() == old(self).shadowed()
                },
                _ => {
                    &&& r matches Ok(effects) && effects_of(
                        old(self).source(),
                        old(self).chunk().chunk_hash,
                        ev,
                        shadow_id,
                        now,
                        effects@,
                    )
                    &&& final(self).model() == run_step(
                        old(self).model(),
                        old(self).chunk().shard_list@[old(self).model().pos],
                        ev,
                    )
                    &&& match ev {
                        ShardEvent::Standing(shard, true) => {
                            &&& final(self).shadowed().drop_last() == old(self).shadowed()
                            &&& final(self).shadowed().len() == old(self).shadowed().len() + 1
                            &&& is_shadow_of(
                                final(self).shadowed().last(),
                                shard,
                                old(self).chunk().chunk_hash,
                                shadow_id,
                                now,
                                ShadowReason::PluginBanned,
                                CachedElsewhereRisk::High,
                            )
                        },
                        _ => final(self).shadowed() == old(self).shadowed(),
                    }
                },
            },
    {
        let ghost before = *self;
        let count: usize = self.chunk.shard_list.len();
        assert(self.pos < count);
        let id = self.chunk.shard_list[self.pos];
        let hash = self.chunk.chunk_hash;
        let mut out: Vec<RepairEffect> = Vec::new();
        match ev {
            ShardEvent::Missing => {},
            ShardEvent::NoPlugin(_) => {
                self.all_removed = false;
            },
            ShardEvent::Deleted(shard, outcome) => {
                match outcome {
                    DeleteOutcome::Removed => {},
                    DeleteOutcome::NotFound => {},
                    _ => {
                        let sh = shadow_of(
                            &shard,
                            shard.chunk_hash,
                            shadow_id,
                            now,
                            ShadowReason::DeletionOrphaned,
                            CachedElsewhereRisk::Low,
                        );
                        out.push(RepairEffect::RegisterShadow(sh));
                        self.all_removed = false;
                    },
                }
            },
            ShardEvent::DeleteFailed(shard, e) => {
                let mut m: Vec<char> = Vec::new();
                push_text(&mut m, "delete on ");
                push_chars(&mut m, &uuid_chars(shard.driver_id.value.0));
                push_text(&mut m, ": ");
                push_text(&mut m, e.as_str());
                assert(m@ =~= "delete on "@ + uuid_text(shard.driver_id.value.0) + ": "@ + e@);
                return Err(string_of(&m));
            },
            ShardEvent::Peeked(shard, exists, size) => {
                if !(exists && size == shard.ciphertext_length) {
                    out = degrade(shard, hash);
                }
            },
            ShardEvent::PeekFailed(shard) => {
                out = degrade(shard, hash);
            },
            ShardEvent::Found(shard) => {
                if shard.ack_state == AckState::Acked {
                    let marked = Shard { health_score: HealthScore(0), ..shard };
                    out.push(RepairEffect::StoreShard(marked));
                    assert(out@ =~= seq![RepairEffect::StoreShard(marked)]);
                }
            },
            ShardEvent::Standing(shard, banned) => {
                if banned {
                    let sh = shadow_of(
                        &shard,
                        hash,
                        shadow_id,
                        now,
                        ShadowReason::PluginBanned,
                        CachedElsewhereRisk::High,
                    );
                    self.shadowed.push(sh);
                    assert(self.shadowed@.drop_last() =~= before.shadowed@);
                } else {
                    self.surviving.push(id);
                }
            },
        }
        self.pos = self.pos + 1;
        Ok(out)
    }

    /// Ends a run whose shards have all been looked at. A collected chunk of which nothing is left
    /// loses its record. A chunk that a ban took shards from keeps the others, and is lost where
    /// there are none.
    pub fn finish(self) -> (r: Vec<RepairEffect>)
        requires
            self.model().pos >= self.chunk().shard_list@.len(),
        ensures
            match self.source() {
                RepairSource::GcSweep => if self.model().all_removed {
                    r@ == seq![RepairEffect::DropChunk(self.chunk().chunk_hash)]
                } else {
                    r@.len() == 0
                },
                RepairSource::PluginBan => if self.model().shed == 0 {
                    r@.len() == 0
                } else {
                    r@.len() == 1 && (r@[0] matches RepairEffect::ShedBanned(shadows, c) && shadows@
                        == self.shadowed() && c.shard_list@ == self.model().surviving && c == (Chunk {
                        shard_list: c.shard_list,
                        replication_state: if self.model().surviving.len() == 0 {
                            ReplicationState::Lost
                        } else {
                            ReplicationState::Degraded
                        },
                        ..self.chunk()
                    }))
                },
                _ => r@.len() == 0,
            },
    {
        let mut out: Vec<RepairEffect> = Vec::new();
        match self.source {
            RepairSource::GcSweep => {
                if self.all_removed {
                    out.push(RepairEffect::DropChunk(self.chunk.chunk_hash));
                }
            },
            RepairSource::PluginBan => {
                if self.shadowed.len() > 0 {
                    let state = if self.surviving.len() == 0 {
                        ReplicationState::Lost
                    } else {
                        ReplicationState::Degraded
                    };
                    let chunk = Chunk {
                        shard_list: self.surviving,
                        replication_state: state,
                        ..self.chunk
                    };
                    out.push(RepairEffect::ShedBanned(self.shadowed, chunk));
                }
            },
            _ => {},
        }
        out
    }
}

/// Where a run stands after events about its first shards, in order.
pub open spec fn run_all(ids: Seq<ShardId>, events: Seq<ShardEvent>) -> RunModel
    decreases events.len(),
{
    if events.len() == 0 {
        run_start()
    } else {
        run_step(run_all(ids, events.drop_last()), ids[events.len() - 1], events.last())
    }
}

/// A collection drops the record of a chunk exactly where every one of its shards is gone: deleted,
/// not found, or without a record.
pub proof fn lemma_gc_drops_only_clean(ids: Seq<ShardId>, events: Seq<ShardEvent>)
    ensures
        run_all(ids, events).pos == events.len(),
        run_all(ids, events).all_removed <==> forall|i: int|
            0 <= i < events.len() ==> is_gone(#[trigger] events[i]),
    decreases events.len(),
{
    if events.len() > 0 {
        let head = events.drop_last();
        lemma_gc_drops_only_clean(ids, head);
        let m = run_all(ids, events);
        if m.all_removed {
            assert forall|i: int| 0 <= i < events.len() implies is_gone(#[trigger] events[i]) by {
                if i < head.len() {
                    assert(is_gone(head[i]));
                }
            }
        }
        if forall|i: int| 0 <= i < events.len() ==> is_gone(#[trigger] events[i]) {
            assert forall|i: int| 0 <= i < head.len() implies is_gone(#[trigger] head[i]) by {
                assert(is_gone(events[i]));
            }
            assert(is_gone(events[events.len() - 1]));
        }
    }
}

/// Of the shards that a ban run looks at, those with a record either survive or are shed, and
/// none is both: the counts add up.
pub proof fn lemma_ban_keeps_count(ids: Seq<ShardId>, events: Seq<ShardEvent>)
    requires
        events.len() <= ids.len(),
        forall|i: int|
            0 <= i < events.len() ==> (#[trigger] events[i]) is Standing || events[i] is Missing,
    ensures
        run_all(ids, events).surviving.len() + run_all(ids, events).shed == recorded(events),
        forall|i: int|
            0 <= i < run_all(ids, events).surviving.len() ==> ids.contains(
                #[trigger] run_all(ids, events).surviving[i],
            ),
    decreases events.len(),
{
    if events.len() > 0 {
        let head = events.drop_last();
        assert forall|i: int| 0 <= i < head.len() implies (#[trigger] head[i]) is Standing
            || head[i] is Missing by {
            assert(head[i] == events[i]);
        }
        lemma_ban_keeps_count(ids, head);
        let before = run_all(ids, head);
        let after = run_all(ids, events);
        assert(events[events.len() - 1] is Standing || events[events.len() - 1] is Missing);
        assert forall|i: int| 0 <= i < after.surviving.len() implies ids.contains(
            #[trigger] after.surviving[i],
        ) by {
            if i < before.surviving.len() {
                assert(after.surviving[i] == before.surviving[i]);
            } else {
                assert(after.surviving[i] == ids[events.len() - 1]);
            }
        }
    }
}

/// How many events are about shards that have a record.
pub open spec fn recorded(events: Seq<ShardEvent>) -> nat
    decreases events.len(),
{
    if events.len() == 0 {
        0
    } else {
        recorded(events.drop_last()) + (if events.last() is Missing {
            0nat
        } else {
            1nat
        })
    }
}

/// How a batch of tasks has gone so far.
#[derive(Clone, Copy, PartialEq, Eq, Structural, Debug)]
pub struct RepairTally {
    pub processed: usize,
    pub succeeded: usize,
    pub retried: usize,
    pub failed: usize,
}

impl RepairTally {
    /// A batch before its first task.
    pub fn new() -> (r: Self)
        ensures
            r == (RepairTally { processed: 0, succeeded: 0, retried: 0, failed: 0 }),
    {
        RepairTally { processed: 0, succeeded: 0, retried: 0, failed: 0 }
    }

    /// Whether every task is in exactly one of the three counts.
    pub open spec fn adds_up(self) -> bool {
        self.succeeded + self.retried + self.failed == self.processed
    }

    /// Whether another task may be taken.
    pub fn wants_more(&self, max_tasks: usize) -> (r: bool)
        ensures
            r == (self.processed < max_tasks),
    {
        self.processed < max_tasks
    }

    /// Counts a task: done, to be tried again, or failed for the last time.
    pub fn count(&mut self, task: &RepairTask, ok: bool)
        requires
            old(self).adds_up(),
            old(self).processed < usize::MAX,
        ensures
            final(self).adds_up(),
            *final(self) == (RepairTally {
                processed: (old(self).processed + 1) as usize,
                succeeded: if ok {
                    (old(self).succeeded + 1) as usize
                } else {
                    old(self).succeeded
                },
                retried: if !ok && task.attempt + 1 < MAX_ATTEMPTS {
                    (old(self).retried + 1) as usize
                } else {
                    old(self).retried
                },
                failed: if !ok && task.attempt + 1 >= MAX_ATTEMPTS {
                    (old(self).failed + 1) as usize
                } else {
                    old(self).failed
                },
            }),
            !ok && task.attempt < 2 ==> final(self).retried == old(self).retried + 1,
            !ok && task.attempt >= 2 ==> final(self).failed == old(self).failed + 1,
    {
        self.processed = self.processed + 1;
        if ok {
            self.succeeded = self.succeeded + 1;
        } else if task.attempt >= MAX_ATTEMPTS - 1 {
            self.failed = self.failed + 1;
        } else {
            self.retried = self.retried + 1;
        }
    }
}

/// The record of a chunk may go exactly where no shard lacked a plugin and every answered delete
/// left nothing: what is tombstoned, abandoned or cannot be deleted keeps the record.
pub proof fn lemma_record_kept_for_leftovers(ids: Seq<ShardId>, events: Seq<ShardEvent>)
    ensures
        run_all(ids, events).all_removed <==> forall|i: int|
            0 <= i < events.len() ==> match #[trigger] events[i] {
                ShardEvent::NoPlugin(_) => false,
                ShardEvent::Deleted(_, o) => o != DeleteOutcome::Tombstoned && o
                    != DeleteOutcome::Abandoned && o != DeleteOutcome::NotSupported,
                _ => true,
            },
{
    lemma_gc_drops_only_clean(ids, events);
    if forall|i: int|
        0 <= i < events.len() ==> match #[trigger] events[i] {
            ShardEvent::NoPlugin(_) => false,
            ShardEvent::Deleted(_, o) => o != DeleteOutcome::Tombstoned && o
                != DeleteOutcome::Abandoned && o != DeleteOutcome::NotSupported,
            _ => true,
        } {
        assert forall|i: int| 0 <= i < events.len() implies is_gone(#[trigger] events[i]) by {}
    }
    if run_all(ids, events).all_removed {
        assert forall|i: int| 0 <= i < events.len() implies match #[trigger] events[i] {
            ShardEvent::NoPlugin(_) => false,
            ShardEvent::Deleted(_, o) => o != DeleteOutcome::Tombstoned && o
                != DeleteOutcome::Abandoned && o != DeleteOutcome::NotSupported,
            _ => true,
        } by {
            assert(is_gone(events[i]));
        }
    }
}

/// A ban run keeps exactly the shards whose provider is not banned, in their order.
pub proof fn lemma_survivors(ids: Seq<ShardId>, events: Seq<ShardEvent>)
    requires
        events.len() <= ids.len(),
    ensures
        forall|i: int|
            0 <= i < events.len() && (#[trigger] events[i] matches ShardEvent::Standing(_, banned)
                && !banned) ==> run_all(ids, events).surviving.contains(ids[i]),
        forall|id: ShardId| #[trigger] run_all(ids, events).surviving.contains(id) ==> exists|i: int|
            0 <= i < events.len() && ids[i] == id && (#[trigger] events[i] matches ShardEvent::Standing(
                _,
                banned,
            ) && !banned),
    decreases events.len(),
{
    if events.len() > 0 {
        let head = events.drop_last();
        let n = events.len() - 1;
        lemma_survivors(ids, head);
        let before = run_all(ids, head).surviving;
        let after = run_all(ids, events).surviving;
        assert forall|i: int|
            0 <= i < events.len() && (#[trigger] events[i] matches ShardEvent::Standing(_, banned)
                && !banned) implies after.contains(ids[i]) by {
            if i < n {
                assert(head[i] == events[i]);
                assert(before.contains(ids[i]));
                let j = choose|j: int| 0 <= j < before.len() && before[j] == ids[i];
                assert(after[j] == ids[i]);
            } else {
                assert(after[after.len() - 1] == ids[n]);
            }
        }
        assert forall|id: ShardId| #[trigger] after.contains(id) implies exists|i: int|
            0 <= i < events.len() && ids[i] == id && (#[trigger] events[i] matches ShardEvent::Standing(
                _,
                banned,
            ) && !banned) by {
            let j = choose|j: int| 0 <= j < after.len() && after[j] == id;
            if j < before.len() {
                assert(before[j] == id);
                assert(before.contains(id));
                let i = choose|i: int|
                    0 <= i < head.len() && ids[i] == id && (#[trigger] head[i] matches ShardEvent::Standing(
                        _,
                        banned,
                    ) && !banned);
                assert(events[i] == head[i]);
            } else {
                assert(events[n] is Standing);
            }
        }
    }
}

/// What a scrub finds missing or of another size is marked as worth nothing, and a read repair of
/// its chunk is asked for; a sound shard is left alone.
pub proof fn lemma_scrub_acts(
    h: ChunkHash,
    shard: Shard,
    there: bool,
    size: u64,
    id: ShadowId,
    now: Timestamp,
    effects: Seq<RepairEffect>,
)
    requires
        effects_of(
            RepairSource::Scrub,
            h,
            ShardEvent::Peeked(shard, there, size),
            id,
            now,
            effects,
        ),
    ensures
        there && size == shard.ciphertext_length <==> effects.len() == 0,
        effects.len() > 0 ==> effects.len() == 2 && (effects[0] matches RepairEffect::StoreShard(s)
            && s.shard_id == shard.shard_id && s.health_score.0 == 0) && (
        effects[1] matches RepairEffect::Enqueue(t) && t.chunk_hash == h && t.source
            == RepairSource::ReadRepair && t.attempt == 0 && t.priority == 100),
{
}

/// What a provider does not let go leaves a shadow: of the shard's handle, size and chunk, counted
/// against the quota and not yet looked at. What is gone leaves none.
pub proof fn lemma_leftovers_shadowed(
    h: ChunkHash,
    shard: Shard,
    outcome: DeleteOutcome,
    id: ShadowId,
    now: Timestamp,
    effects: Seq<RepairEffect>,
)
    requires
        effects_of(
            RepairSource::GcSweep,
            h,
            ShardEvent::Deleted(shard, outcome),
            id,
            now,
            effects,
        ),
    ensures
        effects.len() == 0 <==> outcome == DeleteOutcome::Removed || outcome
            == DeleteOutcome::NotFound,
        effects.len() > 0 ==> effects.len() == 1 && (effects[0] matches RepairEffect::RegisterShadow(
            sh,
        ) && sh.shadow_id == id && sh.original_chunk_hash == shard.chunk_hash && sh.driver_id
            == shard.driver_id.value && sh.native_handle.0@ == shard.native_handle.value.0@
            && sh.ciphertext_length == shard.ciphertext_length && sh.abandoned_at == now
            && sh.reason == ShadowReason::DeletionOrphaned && sh.counts_against_quota
            && sh.peek_count == 0 && sh.state == ShadowState::Registered),
{
}

/// Only a collection deletes, only a scrub peeks, and only a ban asks for a provider's standing.
pub proof fn lemma_who_touches_shards(source: RepairSource)
    ensures
        probe_of(source) == Some(ShardProbe::Delete) <==> source == RepairSource::GcSweep,
        probe_of(source) == Some(ShardProbe::Peek) <==> source == RepairSource::Scrub,
        probe_of(source) == Some(ShardProbe::CheckBan) <==> source == RepairSource::PluginBan,
        probe_of(source) == Some(ShardProbe::Look) <==> source == RepairSource::ReadRepair,
{
}

/// A read repair marks a shard that was acknowledged as worth nothing, and touches no other.
pub proof fn lemma_read_repair_marks(
    h: ChunkHash,
    shard: Shard,
    id: ShadowId,
    now: Timestamp,
    effects: Seq<RepairEffect>,
)
    requires
        effects_of(RepairSource::ReadRepair, h, ShardEvent::Found(shard), id, now, effects),
    ensures
        shard.ack_state != AckState::Acked ==> effects.len() == 0,
        shard.ack_state == AckState::Acked ==> effects.len() == 1 && (
        effects[0] matches RepairEffect::StoreShard(s) && s.shard_id == shard.shard_id
            && s.health_score.0 == 0),
{
}

} // verus!
