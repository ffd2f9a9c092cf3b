//! Dispatching a call over several candidates: the most ready is tried first, and one that cannot
//! serve now gives way to the next.

use vstd::prelude::*;

use super::circuit_breaker::at_time;
use super::circuit_breaker::CircuitBreaker;
use super::circuit_breaker::CircuitState;
use super::op_map::Op;
use super::rate_limit::CapacitySnapshot;
use super::PluginError;
use crate::entities::records::NativeHandle;
use crate::types::ProviderId;

verus! {

/// How far a dispatch goes.
#[derive(Clone, Copy, PartialEq, Eq, Structural, Debug)]
pub struct DispatcherConfig {
    /// The most candidates that are looked at; all of them where there is no number.
    pub max_candidates: Option<u32>,
    /// A candidate that asked for a longer pause than this is passed over.
    pub skip_if_cooldown_exceeds_us: Option<u64>,
}

impl Default for DispatcherConfig {
    fn default() -> (r: Self)
        ensures
            r == (DispatcherConfig {
                max_candidates: None,
                skip_if_cooldown_exceeds_us: Some(30_000_000),
            }),
    {
        DispatcherConfig { max_candidates: None, skip_if_cooldown_exceeds_us: Some(30_000_000) }
    }
}

/// A candidate and how ready it is.
#[derive(Clone, Copy, PartialEq, Eq, Structural, Debug)]
pub struct RankedCandidate {
    pub provider_id: ProviderId,
    pub snapshot: CapacitySnapshot,
}

/// Whether `a` is more ready than `b`: a shorter wait, then more tokens, then fewer calls under
/// way.
pub open spec fn more_ready(a: CapacitySnapshot, b: CapacitySnapshot) -> bool {
    ||| a.estimated_wait_us < b.estimated_wait_us
    ||| a.estimated_wait_us == b.estimated_wait_us && a.tokens_milli > b.tokens_milli
    ||| a.estimated_wait_us == b.estimated_wait_us && a.tokens_milli == b.tokens_milli && a.inflight
        < b.inflight
}

fn is_more_ready(a: &CapacitySnapshot, b: &CapacitySnapshot) -> (r: bool)
    ensures
        r == more_ready(*a, *b),
{
    a.estimated_wait_us < b.estimated_wait_us || (a.estimated_wait_us == b.estimated_wait_us && (
    a.tokens_milli > b.tokens_milli || (a.tokens_milli == b.tokens_milli && a.inflight < b.inflight)))
}

/// Whether candidate `i` comes before candidate `j`: it is more ready, or as ready and listed
/// before it.
pub open spec fn ranks_before(c: Seq<RankedCandidate>, i: int, j: int) -> bool {
    more_ready(c[i].snapshot, c[j].snapshot) || (!more_ready(c[j].snapshot, c[i].snapshot) && i < j)
}

/// Whether `order` lists the first `n` candidates, each once, in rank order.
pub open spec fn is_ranking(c: Seq<RankedCandidate>, order: Seq<usize>, n: int) -> bool {
    &&& order.len() == n
    &&& forall|i: int| 0 <= i < order.len() ==> 0 <= #[trigger] order[i] < n
    &&& forall|i: int, j: int|
        0 <= i < j < order.len() ==> ranks_before(c, #[trigger] order[i] as int, #[trigger] order[j] as int)
}

/// What a dispatch gave.
#[derive(Clone, Debug)]
pub struct PutDispatched {
    pub handle: NativeHandle,
    pub provider_id: ProviderId,
    pub attempts: u32,
    pub skipped: u32,
}

/// What a dispatch gave.
#[derive(Clone, Debug)]
pub struct GetDispatched {
    pub bytes: Vec<u8>,
    pub provider_id: ProviderId,
    pub attempts: u32,
    pub skipped: u32,
}

/// A dispatch that is under way.
pub struct PoolDispatcher {
    ranked: Vec<RankedCandidate>,
    end: usize,
    pos: usize,
    attempts: u32,
    skipped: u32,
    last_err: Option<PluginError>,
}

/// Whether a candidate is passed over.
pub open spec fn is_skipped(
    rc: RankedCandidate,
    breaker: CircuitBreaker,
    op: Op,
    now: u64,
    cfg: DispatcherConfig,
) -> bool {
    ||| cfg.skip_if_cooldown_exceeds_us matches Some(cap) && rc.snapshot.cooldown_remaining_us > cap
    ||| at_time(breaker.entry(rc.provider_id, op), now).state is Open
}

/// Whether an error makes the next candidate worth a try.
pub open spec fn gives_way(e: PluginError) -> bool {
    e is RateLimited || e is Unavailable
}

/// Puts candidates in rank order. Candidates that are as ready as each other stay in the order in
/// which they were listed.
pub fn rank(candidates: &Vec<RankedCandidate>) -> (r: Vec<RankedCandidate>)
    ensures
        r@.len() == candidates@.len(),
        exists|order: Seq<usize>| #[trigger]
            is_ranking(candidates@, order, candidates@.len() as int) && forall|i: int|
                0 <= i < r@.len() ==> #[trigger] r@[i] == candidates@[order[i] as int],
{
    let ghost c = candidates@;
    let mut order: Vec<usize> = Vec::new();
    let mut k: usize = 0;
    while k < candidates.len()
        invariant
            c == candidates@,
            0 <= k <= c.len(),
            is_ranking(c, order@, k as int),
        decreases c.len() - k,
    {
        let ghost before = order@;
        let mut at: usize = 0;
        while at < order.len() && !is_more_ready(
            &candidates[k].snapshot,
            &candidates[order[at]].snapshot,
        )
            invariant
                c == candidates@,
                0 <= k < c.len(),
                order@ == before,
                is_ranking(c, before, k as int),
                0 <= at <= before.len(),
                forall|i: int|
                    0 <= i < at ==> !more_ready(
                        c[k as int].snapshot,
                        c[#[trigger] before[i] as int].snapshot,
                    ),
            decreases before.len() - at,
        {
            at = at + 1;
        }
        order.insert(at, k);
        proof {
            let after = order@;
            assert forall|i: int| 0 <= i < after.len() implies 0 <= #[trigger] after[i] < k + 1 by {
                if i < at {
                    assert(after[i] == before[i]);
                } else if i > at {
                    assert(after[i] == before[i - 1]);
                }
            }
            assert forall|i: int, j: int| 0 <= i < j < after.len() implies ranks_before(
                c,
                #[trigger] after[i] as int,
                #[trigger] after[j] as int,
            ) by {
                if i < at {
                    assert(after[i] == before[i]);
                }
                if i > at {
                    assert(after[i] == before[i - 1]);
                }
                if j < at {
                    assert(after[j] == before[j]);
                }
                if j > at {
                    assert(after[j] == before[j - 1]);
                }
                if i == at {
                    assert(more_ready(c[k as int].snapshot, c[before[at as int] as int].snapshot));
                    if j - 1 > at {
                        assert(ranks_before(c, before[at as int] as int, before[j - 1] as int));
                    }
                } else if j == at {
                    assert(0 <= before[i] < k);
                } else {
                    let p = if i < at {
                        i
                    } else {
                        i - 1
                    };
                    let q = if j < at {
                        j
                    } else {
                        j - 1
                    };
                    assert(ranks_before(c, before[p] as int, before[q] as int));
                }
            }
        }
        k = k + 1;
    }
    let mut out: Vec<RankedCandidate> = Vec::new();
    let mut i: usize = 0;
    while i < order.len()
        invariant
            c == candidates@,
            is_ranking(c, order@, c.len() as int),
            0 <= i <= order@.len(),
            out@.len() == i,
            forall|j: int| 0 <= j < i ==> #[trigger] out@[j] == c[order@[j] as int],
        decreases order@.len() - i,
    {
        out.push(candidates[order[i]]);
        i = i + 1;
    }
    out
}

impl PoolDispatcher {
    /// The candidates, in the order in which they are tried.
    pub closed spec fn ranked(self) -> Seq<RankedCandidate> {
        self.ranked@
    }

    /// How many of them are looked at.
    pub closed spec fn end(self) -> int {
        self.end as int
    }

    /// How many have been looked at.
    pub closed spec fn pos(self) -> int {
        self.pos as int
    }

    /// How many have been called.
    pub closed spec fn attempts(self) -> int {
        self.attempts as int
    }

    /// How many have been passed over.
    pub closed spec fn skipped(self) -> int {
        self.skipped as int
    }

    /// The error of the last candidate that could not serve.
    pub closed spec fn last_err(self) -> Option<PluginError> {
        self.last_err
    }

    /// Whether the counts are within what has been looked at.
    pub closed spec fn wf(self) -> bool {
        &&& self.pos <= self.end <= self.ranked@.len()
        &&& self.ranked@.len() <= u32::MAX
        &&& self.attempts + self.skipped <= self.pos
    }

    /// Starts a dispatch over candidates. Without any there is nothing to dispatch to.
    pub fn begin(candidates: &Vec<RankedCandidate>, cfg: DispatcherConfig) -> (r: Result<Self, PluginError>)
        requires
            candidates@.len() <= u32::MAX,
        ensures
            if candidates@.len() == 0 {
                r matches Err(PluginError::Plugin(m)) && m@ == "no candidates"@
            } else {
                &&& r matches Ok(d) && d.wf() && d.pos() == 0 && d.attempts() == 0 && d.skipped() == 0
                    && d.last_err() is None && d.ranked().len() == candidates@.len() && d.end() == (
                match cfg.max_candidates {
                    Some(n) if n < candidates@.len() => n as int,
                    _ => candidates@.len() as int,
                }) && exists|order: Seq<usize>| #[trigger]
                    is_ranking(candidates@, order, candidates@.len() as int) && forall|i: int|
                        0 <= i < candidates@.len() ==> #[trigger] d.ranked()[i]
                            == candidates@[order[i] as int]
            },
    {
        if candidates.len() == 0 {
            return Err(PluginError::Plugin("no candidates".to_owned()));
        }
        let ranked = rank(candidates);
        let all: usize = ranked.len();
        let end: usize = match cfg.max_candidates {
            Some(n) => if (n as usize) < all {
                n as usize
            } else {
                all
            },
            None => all,
        };
        Ok(PoolDispatcher { ranked, end, pos: 0, attempts: 0, skipped: 0, last_err: None })
    }

    /// The next candidate to call: the first that is not passed over. `None` once there is none.
    pub fn next(&mut self, breaker: &mut CircuitBreaker, op: Op, now: u64, cfg: DispatcherConfig) -> (r: Option<
        ProviderId,
    >)
        requires
            old(self).wf(),
        ensures
            final(self).wf(),
            final(self).ranked() == old(self).ranked(),
            final(self).end() == old(self).end(),
            final(self).attempts() == old(self).attempts(),
            final(self).last_err() == old(self).last_err(),
            match r {
                Some(p) => {
                    let i = final(self).pos() - 1;
                    &&& old(self).pos() <= i < old(self).end()
                    &&& p == old(self).ranked()[i].provider_id
                    &&& !is_skipped(old(self).ranked()[i], *old(breaker), op, now, cfg)
                    &&& forall|j: int|
                        old(self).pos() <= j < i ==> is_skipped(
                            #[trigger] old(self).ranked()[j],
                            *old(breaker),
                            op,
                            now,
                            cfg,
                        )
                    &&& final(self).skipped() == old(self).skipped() + (i - old(self).pos())
                    &&& final(self).attempts() + final(self).skipped() < final(self).pos()
                },
                None => {
                    &&& final(self).pos() == old(self).end()
                    &&& forall|j: int|
                        old(self).pos() <= j < old(self).end() ==> is_skipped(
                            #[trigger] old(self).ranked()[j],
                            *old(breaker),
                            op,
                            now,
                            cfg,
                        )
                    &&& final(self).skipped() == old(self).skipped() + (old(self).end() - old(
                        self,
                    ).pos())
                },
            },
            final(breaker).config() == old(breaker).config(),
            forall|p: ProviderId, o: Op|
                #[trigger] final(breaker).entry(p, o) == old(breaker).entry(p, o) || final(breaker).entry(p, o) == at_time(old(breaker).entry(p, o), now),
    {
        let ghost start = *self;
        let ghost b0 = *breaker;
        while self.pos < self.end
            invariant
                self.wf(),
                start.wf(),
                start == *old(self),
                b0 == *old(breaker),
                self.ranked@ == start.ranked@,
                self.end == start.end,
                self.attempts == start.attempts,
                self.last_err == start.last_err,
                start.pos <= self.pos <= self.end,
                self.skipped == start.skipped + (self.pos - start.pos),
                forall|j: int|
                    start.pos <= j < self.pos ==> is_skipped(
                        #[trigger] start.ranked@[j],
                        b0,
                        op,
                        now,
                        cfg,
                    ),
                breaker.config() == b0.config(),
                forall|p: ProviderId, o: Op|
                    #[trigger] breaker.entry(p, o) == b0.entry(p, o) || breaker.entry(p, o) == at_time(
                        b0.entry(p, o),
                        now,
                    ),
            decreases self.end - self.pos,
        {
            let rc = self.ranked[self.pos];
            assert(rc == start.ranked@[self.pos as int]);
            self.pos = self.pos + 1;
            let cooling: bool = match cfg.skip_if_cooldown_exceeds_us {
                Some(cap) => rc.snapshot.cooldown_remaining_us > cap,
                None => false,
            };
            if cooling {
                self.skipped = self.skipped + 1;
                continue;
            }
            let state = breaker.permits(rc.provider_id, op, now);
            if !state.permits_now(now) {
                self.skipped = self.skipped + 1;
                continue;
            }
            return Some(rc.provider_id);
        }
        None
    }

    /// Notes that no plugin serves the candidate.
    pub fn no_plugin(&mut self, err: PluginError)
        requires
            old(self).wf(),
        ensures
            final(self).wf(),
            final(self).same_place(*old(self)),
            final(self).attempts() == old(self).attempts(),
            final(self).last_err() == Some(err),
    {
        self.last_err = Some(err);
    }

    /// Whether a dispatch is at the same place as before.
    pub open spec fn same_place(self, before: PoolDispatcher) -> bool {
        &&& self.ranked() == before.ranked()
        &&& self.end() == before.end()
        &&& self.pos() == before.pos()
        &&& self.skipped() == before.skipped()
    }

    /// Takes the failure of the candidate that was called. One that gives way is noted; any other
    /// error is handed back, and ends the dispatch.
    pub fn failed(&mut self, err: PluginError) -> (r: Option<PluginError>)
        requires
            old(self).wf(),
            old(self).attempts() + old(self).skipped() < old(self).pos(),
        ensures
            final(self).wf(),
            final(self).same_place(*old(self)),
            final(self).attempts() == old(self).attempts() + 1,
            if gives_way(err) {
                &&& r is None
                &&& final(self).last_err() == Some(err)
            } else {
                &&& r == Some(err)
                &&& final(self).last_err() == old(self).last_err()
            },
    {
        self.attempts = self.attempts + 1;
        let yields: bool = match &err {
            PluginError::RateLimited { .. } => true,
            PluginError::Unavailable(_) => true,
            _ => false,
        };
        if !yields {
            return Some(err);
        }
        self.last_err = Some(err);
        None
    }

    /// Counts the call of the candidate that served. The result is how many were called and how
    /// many passed over.
    pub fn won(&mut self) -> (r: (u32, u32))
        requires
            old(self).wf(),
            old(self).attempts() + old(self).skipped() < old(self).pos(),
        ensures
            final(self).wf(),
            final(self).same_place(*old(self)),
            final(self).last_err() == old(self).last_err(),
            final(self).attempts() == old(self).attempts() + 1,
            r.0 == final(self).attempts(),
            r.1 == final(self).skipped(),
    {
        self.attempts = self.attempts + 1;
        (self.attempts, self.skipped)
    }

    /// The error of a dispatch that no candidate served.
    pub fn exhausted(self) -> (r: PluginError)
        ensures
            match self.last_err() {
                Some(e) => r == e,
                None => r matches PluginError::Plugin(m) && m@ == "all candidates exhausted"@,
            },
    {
        match self.last_err {
            Some(e) => e,
            None => PluginError::Plugin("all candidates exhausted".to_owned()),
        }
    }
}

/// The handle under which the first replica at a provider stands.
pub fn handle_for(candidates: &Vec<(ProviderId, NativeHandle)>, provider: ProviderId) -> (r: Option<
    NativeHandle,
>)
    ensures
        match r {
            Some(h) => exists|i: int|
                0 <= i < candidates@.len() && (#[trigger] candidates@[i]).0 == provider && h.0@
                    == candidates@[i].1.0@ && forall|j: int|
                    0 <= j < i ==> (#[trigger] candidates@[j]).0 != provider,
            None => forall|j: int| 0 <= j < candidates@.len() ==> (#[trigger] candidates@[j]).0 != provider,
        },
{
    let mut i: usize = 0;
    while i < candidates.len()
        invariant
            0 <= i <= candidates@.len(),
            forall|j: int| 0 <= j < i ==> (#[trigger] candidates@[j]).0 != provider,
        decreases candidates@.len() - i,
    {
        if candidates[i].0 == provider {
            return Some(candidates[i].1.copied());
        }
        i = i + 1;
    }
    None
}

/// No candidate stands twice in a ranking of all candidates.
pub proof fn lemma_ranking_is_permutation(c: Seq<RankedCandidate>, order: Seq<usize>)
    requires
        is_ranking(c, order, c.len() as int),
    ensures
        order.no_duplicates(),
{
    assert forall|i: int, j: int| 0 <= i < order.len() && 0 <= j < order.len() && i != j implies order[i]
        != order[j] by {
        if i < j {
            assert(ranks_before(c, order[i] as int, order[j] as int));
        } else {
            assert(ranks_before(c, order[j] as int, order[i] as int));
        }
    }
}

/// The first of a ranking is as ready as any candidate.
pub proof fn lemma_first_is_most_ready(c: Seq<RankedCandidate>, order: Seq<usize>, i: int)
    requires
        is_ranking(c, order, c.len() as int),
        0 < i < order.len(),
    ensures
        !more_ready(c[order[i] as int].snapshot, c[order[0] as int].snapshot),
{
    assert(ranks_before(c, order[0] as int, order[i] as int));
}

/// Whoever can be called sooner is more ready, whatever else; of two that can be called equally
/// soon the one with more tokens; of two with as many the one with fewer calls under way.
pub proof fn lemma_readiness(a: CapacitySnapshot, b: CapacitySnapshot)
    ensures
        a.estimated_wait_us < b.estimated_wait_us ==> more_ready(a, b),
        a.estimated_wait_us == b.estimated_wait_us && a.tokens_milli > b.tokens_milli
            ==> more_ready(a, b),
        a.estimated_wait_us == b.estimated_wait_us && a.tokens_milli == b.tokens_milli && a.inflight
            < b.inflight ==> more_ready(a, b),
        more_ready(a, b) ==> !more_ready(b, a),
        !more_ready(a, b) && !more_ready(b, a) ==> a.estimated_wait_us == b.estimated_wait_us
            && a.tokens_milli == b.tokens_milli && a.inflight == b.inflight,
{
}

/// What a pause or a full account stops is tried elsewhere; any other error is final.
pub proof fn lemma_who_gives_way(e: PluginError)
    ensures
        e is RateLimited || e is Unavailable ==> gives_way(e),
        e is NotFound || e is NotSupported || e is AuthFailure || e is Io || e is Plugin
            || e is IdempotencyViolation ==> !gives_way(e),
{
}

/// A candidate is passed over while its breaker is open, and where it asked for a longer pause than
/// is waited for; a candidate with a closed breaker and no pause never is.
pub proof fn lemma_passed_over(
    rc: RankedCandidate,
    breaker: CircuitBreaker,
    op: Op,
    now: u64,
    cfg: DispatcherConfig,
)
    ensures
        breaker.entry(rc.provider_id, op).state matches CircuitState::Open { until } ==> (now < until
            ==> is_skipped(rc, breaker, op, now, cfg)),
        breaker.entry(rc.provider_id, op).state matches CircuitState::Open { until } ==> (now
            >= until && cfg.skip_if_cooldown_exceeds_us is None ==> !is_skipped(
            rc,
            breaker,
            op,
            now,
            cfg,
        )),
        !(breaker.entry(rc.provider_id, op).state is Open) && rc.snapshot.cooldown_remaining_us == 0
            ==> !is_skipped(rc, breaker, op, now, cfg),
        cfg.skip_if_cooldown_exceeds_us matches Some(cap) ==> (rc.snapshot.cooldown_remaining_us
            > cap ==> is_skipped(rc, breaker, op, now, cfg)),
        cfg.skip_if_cooldown_exceeds_us matches Some(cap) ==> (rc.snapshot.cooldown_remaining_us
            <= cap && !(breaker.entry(rc.provider_id, op).state is Open) ==> !is_skipped(
            rc,
            breaker,
            op,
            now,
            cfg,
        )),
{
}

/// A ranking names each candidate once, the readier before the less ready, and equally ready ones
/// as they came.
pub proof fn lemma_ranking_keeps_order(c: Seq<RankedCandidate>, order: Seq<usize>, i: int, j: int)
    requires
        is_ranking(c, order, c.len() as int),
        0 <= i < j < order.len(),
    ensures
        order.len() == c.len(),
        !more_ready(c[order[j] as int].snapshot, c[order[i] as int].snapshot),
        c[order[i] as int].snapshot == c[order[j] as int].snapshot ==> order[i] < order[j],
{
    assert(ranks_before(c, order[i] as int, order[j] as int));
}

} // verus!
