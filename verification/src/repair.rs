//! The queue of repair work and the sweeps that fill it.

use vstd::multiset::Multiset;
use vstd::prelude::*;
use vstd::utf8::*;

use crate::bytes::append;
use crate::bytes::be64;
use crate::bytes::bytes_lt;
use crate::bytes::lex_lt;
use crate::bytes::lemma_lex_irreflexive;
use crate::bytes::lemma_lex_transitive;
use crate::bytes::of_be32;
use crate::bytes::push_be64;
use crate::bytes::read_be32;
use crate::bytes::to_vec;
use crate::crypto::hash::blake3_digest;
use crate::crypto::hash::digest;
use crate::entities::records::Chunk;
use crate::types::ChunkHash;

verus! {

/// Why work could not be queued.
#[derive(Clone, PartialEq, Eq, Debug)]
pub enum RepairError {
    QueueOverflow { size: usize, max: usize },
    Metadata(String),
}

impl RepairError {
    /// A failure to read metadata, with its cause. An error that is one already stays as it is.
    pub fn with_msg(self, msg: String) -> (r: Self)
        ensures
            r == (match self {
                RepairError::QueueOverflow { .. } => RepairError::Metadata(msg),
                RepairError::Metadata(m) => RepairError::Metadata(m),
            }),
    {
        match self {
            RepairError::QueueOverflow { .. } => RepairError::Metadata(msg),
            RepairError::Metadata(m) => RepairError::Metadata(m),
        }
    }
}

/// What asked for a repair.
#[derive(Clone, Copy, PartialEq, Eq, Structural, Debug)]
pub enum RepairSource {
    ReadRepair,
    Scrub,
    AntiEntropy,
    GcSweep,
    Rebalance,
    PluginBan,
}

/// A chunk to repair.
#[derive(Clone, Copy, Debug)]
pub struct RepairTask {
    pub chunk_hash: ChunkHash,
    pub priority: u32,
    pub source: RepairSource,
    pub attempt: u32,
}

/// How often a task is tried before it is given up.
pub const MAX_ATTEMPTS: u32 = 3;

/// Whether `a` is less urgent than `b`: lower priority, or the same and an earlier digest.
pub open spec fn less_urgent(a: RepairTask, b: RepairTask) -> bool {
    a.priority < b.priority || (a.priority == b.priority && lex_lt(a.chunk_hash.0@, b.chunk_hash.0@))
}

fn is_less_urgent(a: &RepairTask, b: &RepairTask) -> (r: bool)
    ensures
        r == less_urgent(*a, *b),
{
    a.priority < b.priority || (a.priority == b.priority && bytes_lt(&a.chunk_hash.0, &b.chunk_hash.0))
}

/// How full the queue is.
#[derive(Clone, Copy, PartialEq, Eq, Structural, Debug)]
pub struct QueueState {
    pub depth: usize,
    pub max: usize,
}

/// A queue of repair tasks with a limit, and the tasks that were given up.
pub struct RepairScheduler {
    queue: Vec<RepairTask>,
    max_size: usize,
    failed: Vec<(RepairTask, String)>,
}

/// The first `n` of some tasks, or all of them.
pub open spec fn first_tasks(tasks: Seq<RepairTask>, n: int) -> Seq<RepairTask> {
    if n < tasks.len() {
        tasks.take(n)
    } else {
        tasks
    }
}

impl RepairScheduler {
    /// The tasks that wait.
    pub closed spec fn pending(self) -> Multiset<RepairTask> {
        self.queue@.to_multiset()
    }

    /// The most tasks that may wait.
    pub closed spec fn limit(self) -> usize {
        self.max_size
    }

    /// The tasks that were given up, each with the last error.
    pub closed spec fn given_up(self) -> Seq<(RepairTask, String)> {
        self.failed@
    }

    /// Whether the limit is kept.
    pub closed spec fn wf(self) -> bool {
        self.queue@.len() <= self.max_size
    }

    /// A queue for at most `max_size` tasks.
    pub fn new(max_size: usize) -> (r: Self)
        ensures
            r.wf(),
            r.pending() == Multiset::<RepairTask>::empty(),
            r.limit() == max_size,
            r.given_up().len() == 0,
    {
        let q: Vec<RepairTask> = Vec::new();
        proof {
            q@.to_multiset_ensures();
            assert(q@.to_multiset() =~= Multiset::<RepairTask>::empty());
        }
        RepairScheduler { queue: q, max_size, failed: Vec::new() }
    }

    /// Queues a task, unless the queue is full.
    pub fn enqueue(&mut self, task: RepairTask) -> (r: Result<(), RepairError>)
        requires
            old(self).wf(),
        ensures
            final(self).wf(),
            final(self).limit() == old(self).limit(),
            final(self).given_up() == old(self).given_up(),
            if old(self).pending().len() >= old(self).limit() {
                &&& r == Err::<(), RepairError>(
                    RepairError::QueueOverflow { size: old(self).limit(), max: old(self).limit() },
                )
                &&& final(self).pending() == old(self).pending()
            } else {
                &&& r is Ok
                &&& final(self).pending() == old(self).pending().insert(task)
            },
    {
        proof {
            self.queue@.to_multiset_ensures();
        }
        if self.queue.len() >= self.max_size {
            return Err(
                RepairError::QueueOverflow { size: self.queue.len(), max: self.max_size },
            );
        }
        self.queue.push(task);
        Ok(())
    }

    /// Takes the most urgent task off the queue.
    pub fn drain_one(&mut self) -> (r: Option<RepairTask>)
        requires
            old(self).wf(),
        ensures
            final(self).wf(),
            final(self).limit() == old(self).limit(),
            final(self).given_up() == old(self).given_up(),
            match r {
                Some(t) => {
                    &&& old(self).pending().contains(t)
                    &&& final(self).pending() == old(self).pending().remove(t)
                    &&& forall|u: RepairTask|
                        #[trigger] old(self).pending().contains(u) ==> !less_urgent(t, u)
                    &&& forall|u: RepairTask| #[trigger]
                        old(self).pending().contains(u) ==> u.priority <= t.priority
                },
                None => old(self).pending().len() == 0 && final(self).pending() == old(
                    self,
                ).pending(),
            },
    {
        proof {
            self.queue@.to_multiset_ensures();
        }
        if self.queue.len() == 0 {
            return None;
        }
        let ghost q = self.queue@;
        let mut best: usize = 0;
        let mut i: usize = 1;
        proof {
            lemma_lex_irreflexive(q[0].chunk_hash.0@);
        }
        while i < self.queue.len()
            invariant
                self.queue@ == q,
                0 <= best < i <= q.len(),
                forall|j: int| 0 <= j < i ==> !less_urgent(q[best as int], #[trigger] q[j]),
            decreases q.len() - i,
        {
            if is_less_urgent(&self.queue[best], &self.queue[i]) {
                proof {
                    assert forall|j: int| 0 <= j < i + 1 implies !less_urgent(
                        q[i as int],
                        #[trigger] q[j],
                    ) by {
                        let a = q[best as int];
                        let b = q[i as int];
                        lemma_lex_irreflexive(b.chunk_hash.0@);
                        if j < i && less_urgent(b, q[j]) {
                            if a.priority == b.priority && b.priority == q[j].priority {
                                lemma_lex_transitive(
                                    a.chunk_hash.0@,
                                    b.chunk_hash.0@,
                                    q[j].chunk_hash.0@,
                                );
                            }
                            assert(less_urgent(a, q[j]));
                        }
                    }
                }
                best = i;
            }
            i = i + 1;
        }
        let t = self.queue.remove(best);
        proof {
            assert(q.contains(t)) by {
                assert(q[best as int] == t);
            }
            assert forall|u: RepairTask| #[trigger] q.to_multiset().contains(u) implies !less_urgent(
                t,
                u,
            ) by {
                assert(q.contains(u));
                let j = choose|j: int| 0 <= j < q.len() && q[j] == u;
                assert(!less_urgent(q[best as int], q[j]));
            }
            assert(self.queue@ == q.remove(best as int));
            assert(q.remove(best as int).to_multiset() =~= q.to_multiset().remove(t));
        }
        Some(t)
    }

    /// How full the queue is.
    pub fn state(&self) -> (r: QueueState)
        ensures
            r.depth == self.pending().len(),
            r.max == self.limit(),
    {
        proof {
            self.queue@.to_multiset_ensures();
        }
        QueueState { depth: self.queue.len(), max: self.max_size }
    }

    /// How many tasks were given up.
    pub fn failed_count(&self) -> (r: usize)
        ensures
            r == self.given_up().len(),
    {
        self.failed.len()
    }

    /// Notes that an attempt at a task failed. The task waits again with one attempt more, where
    /// the queue has room; after the last attempt it is given up.
    pub fn record_attempt_failure(&mut self, task: RepairTask, error: String)
        requires
            old(self).wf(),
        ensures
            final(self).wf(),
            final(self).limit() == old(self).limit(),
            if task.attempt + 1 >= MAX_ATTEMPTS {
                &&& final(self).given_up() == old(self).given_up().push((task, error))
                &&& final(self).pending() == old(self).pending()
            } else {
                &&& final(self).given_up() == old(self).given_up()
                &&& final(self).pending() == (if old(self).pending().len() >= old(self).limit() {
                    old(self).pending()
                } else {
                    old(self).pending().insert(
                        RepairTask { attempt: (task.attempt + 1) as u32, ..task },
                    )
                })
            },
            task.attempt < 2 ==> final(self).given_up() == old(self).given_up(),
            task.attempt >= 2 ==> final(self).given_up().len() == old(self).given_up().len() + 1,
    {
        if task.attempt >= MAX_ATTEMPTS - 1 {
            self.failed.push((task, error));
        } else {
            let again = RepairTask { attempt: task.attempt + 1, ..task };
            let _full = self.enqueue(again);
        }
    }

    /// Queues tasks in order until the queue is full.
    fn enqueue_all(&mut self, tasks: &Vec<RepairTask>) -> (r: Result<usize, RepairError>)
        requires
            old(self).wf(),
        ensures
            final(self).wf(),
            final(self).limit() == old(self).limit(),
            final(self).given_up() == old(self).given_up(),
            old(self).queued(*final(self), tasks@, r),
    {
        proof {
            self.queue@.to_multiset_ensures();
        }
        let ghost start = self.queue@;
        let mut i: usize = 0;
        assert(start + tasks@.take(0) =~= start);
        while i < tasks.len()
            invariant
                self.wf(),
                self.limit() == old(self).limit(),
                self.given_up() == old(self).given_up(),
                start == old(self).queue@,
                0 <= i <= tasks@.len(),
                self.queue@ == start + tasks@.take(i as int),
            decreases tasks@.len() - i,
        {
            if self.queue.len() >= self.max_size {
                proof {
                    assert(start.len() + i == self.max_size);
                    start.to_multiset_ensures();
                    vstd::seq_lib::lemma_multiset_commutative(start, tasks@.take(i as int));
                }
                return Err(
                    RepairError::QueueOverflow { size: self.queue.len(), max: self.max_size },
                );
            }
            self.queue.push(tasks[i]);
            assert(self.queue@ =~= start + tasks@.take(i + 1));
            i = i + 1;
        }
        proof {
            assert(tasks@.take(i as int) =~= tasks@);
            start.to_multiset_ensures();
            vstd::seq_lib::lemma_multiset_commutative(start, tasks@);
        }
        Ok(tasks.len())
    }

    /// What queueing `tasks` in order gives: all of them, where there is room, and otherwise as
    /// many as there is room for and an error.
    pub open spec fn queued(
        self,
        after: RepairScheduler,
        tasks: Seq<RepairTask>,
        r: Result<usize, RepairError>,
    ) -> bool {
        let room = self.limit() - self.pending().len();
        &&& after.pending() == self.pending().add(first_tasks(tasks, room).to_multiset())
        &&& r == (if tasks.len() <= room {
            Ok::<usize, RepairError>(tasks.len() as usize)
        } else {
            Err(RepairError::QueueOverflow { size: self.limit(), max: self.limit() })
        })
    }

    /// Queues a collection task for every chunk that nothing refers to any more. The result is
    /// how many were queued.
    pub fn gc_sweep(&mut self, chunks: &Vec<Chunk>) -> (r: Result<usize, RepairError>)
        requires
            old(self).wf(),
        ensures
            final(self).wf(),
            final(self).limit() == old(self).limit(),
            final(self).given_up() == old(self).given_up(),
            old(self).queued(*final(self), gc_tasks(chunks@), r),
    {
        let mut tasks: Vec<RepairTask> = Vec::new();
        let mut i: usize = 0;
        while i < chunks.len()
            invariant
                0 <= i <= chunks@.len(),
                tasks@ == gc_tasks(chunks@.take(i as int)),
            decreases chunks@.len() - i,
        {
            assert(chunks@.take(i + 1).drop_last() =~= chunks@.take(i as int));
            if chunks[i].refcount.value() <= 0 {
                tasks.push(
                    RepairTask {
                        chunk_hash: chunks[i].chunk_hash,
                        priority: 1,
                        source: RepairSource::GcSweep,
                        attempt: 0,
                    },
                );
            }
            i = i + 1;
        }
        assert(chunks@.take(i as int) =~= chunks@);
        self.enqueue_all(&tasks)
    }

    /// Queues a scrub of a sample of the chunks, `sample_per_thousand` of a thousand on average.
    pub fn scrub_sweep(&mut self, chunks: &Vec<Chunk>, sample_per_thousand: u32) -> (r: Result<
        usize,
        RepairError,
    >)
        requires
            old(self).wf(),
        ensures
            final(self).wf(),
            final(self).limit() == old(self).limit(),
            final(self).given_up() == old(self).given_up(),
            old(self).queued(
                *final(self),
                sampled_tasks(
                    chunks@,
                    Seq::empty(),
                    sample_per_thousand,
                    1,
                    RepairSource::Scrub,
                ),
                r,
            ),
    {
        let none: Vec<u8> = Vec::new();
        let tasks = sample(chunks, &none, sample_per_thousand, 1, RepairSource::Scrub);
        assert(none@ =~= Seq::<u8>::empty());
        self.enqueue_all(&tasks)
    }

    /// Queues a placement check of a part of the chunks, `fraction_per_thousand` of a thousand on
    /// average, after a provider has been added.
    pub fn rebalance_on_plugin_add(&mut self, chunks: &Vec<Chunk>, fraction_per_thousand: u32) -> (r:
        Result<usize, RepairError>)
        requires
            old(self).wf(),
        ensures
            final(self).wf(),
            final(self).limit() == old(self).limit(),
            final(self).given_up() == old(self).given_up(),
            old(self).queued(
                *final(self),
                sampled_tasks(
                    chunks@,
                    encode_utf8("rebalance:"@),
                    fraction_per_thousand,
                    0,
                    RepairSource::Rebalance,
                ),
                r,
            ),
    {
        let tasks = sample(
            chunks,
            "rebalance:".as_bytes(),
            fraction_per_thousand,
            0,
            RepairSource::Rebalance,
        );
        self.enqueue_all(&tasks)
    }
}

/// The collection tasks of some chunks, in order.
pub open spec fn gc_tasks(chunks: Seq<Chunk>) -> Seq<RepairTask>
    decreases chunks.len(),
{
    if chunks.len() == 0 {
        Seq::empty()
    } else {
        let head = gc_tasks(chunks.drop_last());
        if chunks.last().refcount.total() <= 0 {
            head.push(
                RepairTask {
                    chunk_hash: chunks.last().chunk_hash,
                    priority: 1,
                    source: RepairSource::GcSweep,
                    attempt: 0,
                },
            )
        } else {
            head
        }
    }
}

/// The bucket, below a thousand, in which a chunk at a position falls.
pub open spec fn sample_bucket(salt: Seq<u8>, chunk_hash: Seq<u8>, index: u64) -> u32 {
    of_be32(blake3_digest(salt + chunk_hash + be64(index)).subrange(0, 4)) % 1000
}

/// The tasks of the chunks whose bucket is below `limit`, in order.
pub open spec fn sampled_tasks(
    chunks: Seq<Chunk>,
    salt: Seq<u8>,
    limit: u32,
    priority: u32,
    source: RepairSource,
) -> Seq<RepairTask>
    decreases chunks.len(),
{
    if chunks.len() == 0 {
        Seq::empty()
    } else {
        let head = sampled_tasks(chunks.drop_last(), salt, limit, priority, source);
        let c = chunks.last();
        if sample_bucket(salt, c.chunk_hash.0@, (chunks.len() - 1) as u64) < limit {
            head.push(RepairTask { chunk_hash: c.chunk_hash, priority, source, attempt: 0 })
        } else {
            head
        }
    }
}

fn sample(chunks: &Vec<Chunk>, salt: &[u8], limit: u32, priority: u32, source: RepairSource) -> (r:
    Vec<RepairTask>)
    ensures
        r@ == sampled_tasks(chunks@, salt@, limit, priority, source),
{
    let mut tasks: Vec<RepairTask> = Vec::new();
    let mut i: usize = 0;
    while i < chunks.len()
        invariant
            0 <= i <= chunks@.len(),
            tasks@ == sampled_tasks(chunks@.take(i as int), salt@, limit, priority, source),
        decreases chunks@.len() - i,
    {
        assert(chunks@.take(i + 1).drop_last() =~= chunks@.take(i as int));
        let mut input = to_vec(salt);
        append(&mut input, &chunks[i].chunk_hash.0);
        push_be64(&mut input, i as u64);
        let h = digest(&input);
        let bucket: u32 = read_be32(&h, 0) % 1000;
        if bucket < limit {
            tasks.push(
                RepairTask { chunk_hash: chunks[i].chunk_hash, priority, source, attempt: 0 },
            );
        }
        i = i + 1;
    }
    assert(chunks@.take(i as int) =~= chunks@);
    tasks
}

proof fn lemma_sampled_len(
    chunks: Seq<Chunk>,
    salt: Seq<u8>,
    limit: u32,
    priority: u32,
    source: RepairSource,
)
    ensures
        limit == 0 ==> sampled_tasks(chunks, salt, limit, priority, source).len() == 0,
        limit >= 1000 ==> sampled_tasks(chunks, salt, limit, priority, source).len() == chunks.len(),
    decreases chunks.len(),
{
    if chunks.len() > 0 {
        lemma_sampled_len(chunks.drop_last(), salt, limit, priority, source);
    }
}

/// A sample of none of a thousand is empty, and one of all thousand is everything.
pub proof fn lemma_sample_extremes(
    chunks: Seq<Chunk>,
    salt: Seq<u8>,
    priority: u32,
    source: RepairSource,
)
    ensures
        sampled_tasks(chunks, salt, 0, priority, source).len() == 0,
        sampled_tasks(chunks, salt, 1000, priority, source).len() == chunks.len(),
{
    lemma_sampled_len(chunks, salt, 0, priority, source);
    lemma_sampled_len(chunks, salt, 1000, priority, source);
}

/// Which chunks are collected: those, and only those, that nothing refers to any more. Every task is
/// a collection of such a chunk, and there is one for each, in the chunks' order.
pub proof fn lemma_gc_collects_unreferenced(chunks: Seq<Chunk>) -> (at: Seq<int>)
    ensures
        at.len() == gc_tasks(chunks).len(),
        forall|t: int|
            #![trigger at[t]]
            0 <= t < at.len() ==> 0 <= at[t] < chunks.len() && gc_tasks(chunks)[t].chunk_hash
                == chunks[at[t]].chunk_hash && gc_tasks(chunks)[t].source == RepairSource::GcSweep
                && gc_tasks(chunks)[t].attempt == 0 && gc_tasks(chunks)[t].priority == 1
                && chunks[at[t]].refcount.total() <= 0,
        forall|i: int|
            0 <= i < chunks.len() && (#[trigger] chunks[i]).refcount.total() <= 0 ==> at.contains(i),
        forall|s: int, t: int| 0 <= s < t < at.len() ==> #[trigger] at[s] < #[trigger] at[t],
    decreases chunks.len(),
{
    if chunks.len() == 0 {
        Seq::empty()
    } else {
        let head = chunks.drop_last();
        let before = lemma_gc_collects_unreferenced(head);
        let n = chunks.len() - 1;
        let at = if chunks.last().refcount.total() <= 0 {
            before.push(n)
        } else {
            before
        };
        assert forall|t: int|
            #![trigger at[t]]
            0 <= t < at.len() implies 0 <= at[t] < chunks.len() && gc_tasks(chunks)[t].chunk_hash
            == chunks[at[t]].chunk_hash && gc_tasks(chunks)[t].source == RepairSource::GcSweep
            && gc_tasks(chunks)[t].attempt == 0 && gc_tasks(chunks)[t].priority == 1
            && chunks[at[t]].refcount.total() <= 0 by {
            if t < before.len() {
                assert(at[t] == before[t]);
                assert(head[before[t]] == chunks[before[t]]);
            }
        }
        assert forall|i: int|
            0 <= i < chunks.len() && (#[trigger] chunks[i]).refcount.total() <= 0 implies at.contains(
            i,
        ) by {
            if i < n {
                assert(head[i] == chunks[i]);
                assert(before.contains(i));
                let t = choose|t: int| 0 <= t < before.len() && before[t] == i;
                assert(at[t] == i);
            } else {
                assert(at[before.len() as int] == i);
            }
        }
        assert forall|s: int, t: int| 0 <= s < t < at.len() implies #[trigger] at[s] < #[trigger] at[t] by {
            assert(at[s] == before[s]);
            if t < before.len() {
                assert(at[t] == before[t]);
            }
        }
        at
    }
}

/// A digest is among those to be collected exactly where some chunk of that digest is referred to
/// by nothing.
pub proof fn lemma_gc_names(chunks: Seq<Chunk>, h: ChunkHash)
    ensures
        (exists|t: int|
            #![trigger gc_tasks(chunks)[t]]
            0 <= t < gc_tasks(chunks).len() && gc_tasks(chunks)[t].chunk_hash == h) <==> (exists|i: int|
            #![trigger chunks[i]]
            0 <= i < chunks.len() && chunks[i].chunk_hash == h && chunks[i].refcount.total() <= 0),
{
    let at = lemma_gc_collects_unreferenced(chunks);
    if exists|t: int|
        #![trigger gc_tasks(chunks)[t]]
        0 <= t < gc_tasks(chunks).len() && gc_tasks(chunks)[t].chunk_hash == h {
        let t = choose|t: int|
            #![trigger gc_tasks(chunks)[t]]
            0 <= t < gc_tasks(chunks).len() && gc_tasks(chunks)[t].chunk_hash == h;
        assert(0 <= at[t] < chunks.len());
        assert(chunks[at[t]].chunk_hash == h);
    }
    if exists|i: int|
        #![trigger chunks[i]]
        0 <= i < chunks.len() && chunks[i].chunk_hash == h && chunks[i].refcount.total() <= 0 {
        let i = choose|i: int|
            #![trigger chunks[i]]
            0 <= i < chunks.len() && chunks[i].chunk_hash == h && chunks[i].refcount.total() <= 0;
        assert(at.contains(i));
        let t = choose|t: int| 0 <= t < at.len() && at[t] == i;
        assert(at[t] == i);
        assert(gc_tasks(chunks)[t].chunk_hash == h);
    }
}

/// What a sample is: tasks with the given priority and source, each for a chunk of those given, one
/// for each chunk that falls below the limit, in their order. Whether a chunk does is decided by
/// the digest of the salt, its own digest and its position, reduced below a thousand.
pub proof fn lemma_sample_exactly(
    chunks: Seq<Chunk>,
    salt: Seq<u8>,
    limit: u32,
    priority: u32,
    source: RepairSource,
) -> (at: Seq<int>)
    ensures
        at.len() == sampled_tasks(chunks, salt, limit, priority, source).len(),
        forall|t: int|
            #![trigger at[t]]
            0 <= t < at.len() ==> 0 <= at[t] < chunks.len() && sampled_tasks(
                chunks,
                salt,
                limit,
                priority,
                source,
            )[t] == (RepairTask {
                chunk_hash: chunks[at[t]].chunk_hash,
                priority,
                source,
                attempt: 0,
            }),
        forall|i: int|
            #![trigger chunks[i]]
            0 <= i < chunks.len() ==> (at.contains(i) <==> of_be32(
                blake3_digest(salt + chunks[i].chunk_hash.0@ + be64(i as u64)).subrange(0, 4),
            ) % 1000 < limit),
        forall|s: int, t: int| 0 <= s < t < at.len() ==> #[trigger] at[s] < #[trigger] at[t],
    decreases chunks.len(),
{
    let all = sampled_tasks(chunks, salt, limit, priority, source);
    if chunks.len() == 0 {
        Seq::empty()
    } else {
        let head = chunks.drop_last();
        let before = lemma_sample_exactly(head, salt, limit, priority, source);
        let n = chunks.len() - 1;
        let c = chunks.last();
        let at = if sample_bucket(salt, c.chunk_hash.0@, n as u64) < limit {
            before.push(n)
        } else {
            before
        };
        assert forall|t: int|
            #![trigger at[t]]
            0 <= t < at.len() implies 0 <= at[t] < chunks.len() && all[t] == (RepairTask {
            chunk_hash: chunks[at[t]].chunk_hash,
            priority,
            source,
            attempt: 0,
        }) by {
            if t < before.len() {
                assert(at[t] == before[t]);
                assert(head[before[t]] == chunks[before[t]]);
            }
        }
        assert forall|i: int|
            #![trigger chunks[i]]
            0 <= i < chunks.len() implies (at.contains(i) <==> of_be32(
            blake3_digest(salt + chunks[i].chunk_hash.0@ + be64(i as u64)).subrange(0, 4),
        ) % 1000 < limit) by {
            if before.contains(i) {
                let t = choose|t: int| 0 <= t < before.len() && before[t] == i;
                assert(at[t] == i);
            }
            if at.contains(i) {
                let t = choose|t: int| 0 <= t < at.len() && at[t] == i;
                if t < before.len() {
                    assert(before[t] == i);
                    assert(before.contains(i));
                }
            }
            if i < n {
                assert(head[i] == chunks[i]);
            } else {
                if at.len() > before.len() {
                    assert(at[before.len() as int] == i);
                }
                if before.contains(i) {
                    let t = choose|t: int| 0 <= t < before.len() && before[t] == i;
                    assert(0 <= before[t] < head.len());
                }
            }
        }
        assert forall|s: int, t: int| 0 <= s < t < at.len() implies #[trigger] at[s] < #[trigger] at[t] by {
            assert(at[s] == before[s]);
            if t < before.len() {
                assert(at[t] == before[t]);
            }
        }
        at
    }
}

/// The order of urgency: a higher priority first, and of equal ones the later digest.
pub proof fn lemma_urgency(a: RepairTask, b: RepairTask)
    ensures
        a.priority < b.priority ==> less_urgent(a, b) && !less_urgent(b, a),
        a.priority == b.priority ==> less_urgent(a, b) == lex_lt(a.chunk_hash.0@, b.chunk_hash.0@),
{
}

/// What a sweep leaves waiting is what waited and, of its tasks, as many as there is room for, from
/// the first on. Where there is room for all, it says how many; else that the queue is full.
pub proof fn lemma_sweep_queues(
    before: RepairScheduler,
    after: RepairScheduler,
    tasks: Seq<RepairTask>,
    r: Result<usize, RepairError>,
)
    requires
        before.queued(after, tasks, r),
        before.pending().len() + tasks.len() <= before.limit(),
    ensures
        r == Ok::<usize, RepairError>(tasks.len() as usize),
        forall|t: RepairTask| #[trigger]
            after.pending().contains(t) <==> before.pending().contains(t) || tasks.contains(t),
        after.pending().len() == before.pending().len() + tasks.len(),
{
    tasks.to_multiset_ensures();
    assert forall|t: RepairTask| #[trigger] after.pending().contains(t) <==> before.pending().contains(t)
        || tasks.contains(t) by {
        assert(after.pending().count(t) == before.pending().count(t) + tasks.to_multiset().count(t));
    }
}

/// A sweep with more tasks than there is room for fills the queue with the first of them, and says
/// that it is full.
pub proof fn lemma_sweep_overflows(
    before: RepairScheduler,
    after: RepairScheduler,
    tasks: Seq<RepairTask>,
    r: Result<usize, RepairError>,
)
    requires
        before.queued(after, tasks, r),
        before.pending().len() <= before.limit(),
        before.pending().len() + tasks.len() > before.limit(),
    ensures
        r == Err::<usize, RepairError>(
            RepairError::QueueOverflow { size: before.limit(), max: before.limit() },
        ),
        after.pending().len() == before.limit(),
        forall|t: RepairTask| #[trigger]
            after.pending().contains(t) ==> before.pending().contains(t) || tasks.contains(t),
        forall|t: RepairTask| before.pending().contains(t) ==> #[trigger] after.pending().contains(t),
{
    broadcast use vstd::multiset::group_multiset_axioms;
    broadcast use vstd::seq_lib::group_to_multiset_ensures;

    let room = before.limit() - before.pending().len();
    let first = first_tasks(tasks, room);
    assert(first == tasks.take(room));
    assert forall|t: RepairTask| #[trigger] after.pending().contains(t) implies before.pending().contains(
        t,
    ) || tasks.contains(t) by {
        if !before.pending().contains(t) {
            assert(first.to_multiset().count(t) > 0);
            assert(first.contains(t));
            let i = choose|i: int| 0 <= i < first.len() && first[i] == t;
            assert(tasks[i] == t);
        }
    }
}

/// The inputs of two draws agree only where digest and position do.
pub proof fn lemma_sample_inputs_apart(salt: Seq<u8>, g: ChunkHash, i: u64, h: ChunkHash, j: u64)
    requires
        salt + g.0@ + be64(i) == salt + h.0@ + be64(j),
    ensures
        g.0@ == h.0@,
        i == j,
{
    let (x, y) = (salt + g.0@ + be64(i), salt + h.0@ + be64(j));
    let n = salt.len() as int;
    assert(x.subrange(n, n + 32) =~= g.0@);
    assert(y.subrange(n, n + 32) =~= h.0@);
    assert(x.skip(n + 32) =~= be64(i));
    assert(y.skip(n + 32) =~= be64(j));
    crate::bytes::lemma_be64_injective(i, j);
}

/// No more waits than there is room for.
pub proof fn lemma_queue_bounded(s: RepairScheduler)
    requires
        s.wf(),
    ensures
        s.pending().len() <= s.limit(),
{
    s.queue@.to_multiset_ensures();
}

} // verus!
