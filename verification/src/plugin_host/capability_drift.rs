//! Watching whether providers still do what they declared: an operation that is refused as not
//! supported several times in a row counts as unsupported until it succeeds again.

use vstd::prelude::*;

use super::op_map::slot_lt;
use super::op_map::Op;
use super::op_map::OpMap;
use crate::types::Capability;
use crate::types::CapabilitySet;
use crate::types::ProviderId;

verus! {

/// When a refusal counts.
#[derive(Clone, Copy, PartialEq, Eq, Structural, Debug)]
pub struct CapabilityDriftConfig {
    /// Refusals in a row after which an operation counts as unsupported.
    pub threshold: u32,
}

impl Default for CapabilityDriftConfig {
    fn default() -> (r: Self)
        ensures
            r.threshold == 3,
    {
        CapabilityDriftConfig { threshold: 3 }
    }
}

/// What has been seen of an operation.
#[derive(Clone, Copy, PartialEq, Eq, Structural, Debug)]
pub struct OpDrift {
    pub consecutive_not_supported: u32,
    pub observed_unsupported: bool,
}

/// What has been seen of an operation after one more refusal.
pub open spec fn after_refusal(d: OpDrift, threshold: u32) -> OpDrift {
    let n = if d.consecutive_not_supported == u32::MAX {
        u32::MAX
    } else {
        (d.consecutive_not_supported + 1) as u32
    };
    OpDrift {
        consecutive_not_supported: n,
        observed_unsupported: d.observed_unsupported || n >= threshold,
    }
}

/// Nothing has been seen of an operation.
pub open spec fn unseen() -> OpDrift {
    OpDrift { consecutive_not_supported: 0, observed_unsupported: false }
}

/// What has been seen of all providers' operations.
pub struct CapabilityDriftDetector {
    inner: OpMap<OpDrift>,
    cfg: CapabilityDriftConfig,
}

impl Default for CapabilityDriftDetector {
    fn default() -> (r: Self)
        ensures
            r.threshold() == 3,
            forall|p: ProviderId, o: Op| #[trigger] r.seen(p, o) == unseen() && !r.known(p, o),
    {
        CapabilityDriftDetector::with_config(CapabilityDriftConfig::default())
    }
}

impl CapabilityDriftDetector {
    /// Refusals in a row after which an operation counts as unsupported.
    pub closed spec fn threshold(self) -> u32 {
        self.cfg.threshold
    }

    /// What has been seen of an operation.
    pub closed spec fn seen(self, provider: ProviderId, op: Op) -> OpDrift {
        match self.inner.at(provider, op) {
            Some(d) => d,
            None => unseen(),
        }
    }

    /// Whether an operation was ever seen.
    pub closed spec fn known(self, provider: ProviderId, op: Op) -> bool {
        self.inner.at(provider, op) is Some
    }

    /// Whether `self` is `before` with one operation set.
    pub open spec fn is_set(
        self,
        before: CapabilityDriftDetector,
        provider: ProviderId,
        op: Op,
        d: OpDrift,
    ) -> bool {
        &&& self.threshold() == before.threshold()
        &&& self.seen(provider, op) == d
        &&& self.known(provider, op)
        &&& forall|p: ProviderId, o: Op|
            (p != provider || o != op) ==> #[trigger] self.seen(p, o) == before.seen(p, o) && self.known(
                p,
                o,
            ) == before.known(p, o)
    }

    /// A detector that has seen nothing.
    pub fn with_config(cfg: CapabilityDriftConfig) -> (r: Self)
        ensures
            r.threshold() == cfg.threshold,
            forall|p: ProviderId, o: Op| #[trigger] r.seen(p, o) == unseen() && !r.known(p, o),
    {
        CapabilityDriftDetector { inner: OpMap::new(), cfg }
    }

    fn load(&self, provider: ProviderId, op: Op) -> (r: OpDrift)
        ensures
            r == self.seen(provider, op),
    {
        match self.inner.get(provider, op) {
            Some(d) => d,
            None => OpDrift { consecutive_not_supported: 0, observed_unsupported: false },
        }
    }

    /// Notes a refusal. The result says whether it made the operation count as unsupported.
    pub fn observe_not_supported(&mut self, provider: ProviderId, op: Op) -> (r: bool)
        ensures
            final(self).is_set(
                *old(self),
                provider,
                op,
                after_refusal(old(self).seen(provider, op), old(self).threshold()),
            ),
            r == (!old(self).seen(provider, op).observed_unsupported && final(self).seen(
                provider,
                op,
            ).observed_unsupported),
    {
        let mut d = self.load(provider, op);
        d.consecutive_not_supported = d.consecutive_not_supported.saturating_add(1);
        let flips: bool = !d.observed_unsupported && d.consecutive_not_supported
            >= self.cfg.threshold;
        if flips {
            d.observed_unsupported = true;
        }
        self.inner.set(provider, op, d);
        flips
    }

    /// Notes a success, which clears what was seen before.
    pub fn observe_success(&mut self, provider: ProviderId, op: Op)
        ensures
            final(self).is_set(*old(self), provider, op, unseen()),
    {
        self.inner.set(
            provider,
            op,
            OpDrift { consecutive_not_supported: 0, observed_unsupported: false },
        );
    }

    /// Whether an operation counts as unsupported.
    pub fn is_observed_unsupported(&self, provider: ProviderId, op: Op) -> (r: bool)
        ensures
            r == self.seen(provider, op).observed_unsupported,
    {
        self.load(provider, op).observed_unsupported
    }

    /// What a provider declared, without what counts as unsupported.
    pub fn effective(&self, provider: ProviderId, declared: &CapabilitySet) -> (r: CapabilitySet)
        ensures
            forall|c: Capability|
                #[trigger] r.holds(c) == (declared.holds(c) && !(c == Capability::Delete && self.seen(
                    provider,
                    Op::Delete,
                ).observed_unsupported) && !(c == Capability::Peek && self.seen(
                    provider,
                    Op::Peek,
                ).observed_unsupported)),
    {
        let mut out = *declared;
        if self.is_observed_unsupported(provider, Op::Delete) {
            out = out.without(Capability::Delete);
        }
        if self.is_observed_unsupported(provider, Op::Peek) {
            out = out.without(Capability::Peek);
        }
        out
    }

    /// Whether each operation that was ever seen counts as unsupported.
    pub fn snapshot(&self) -> (r: Vec<(ProviderId, Op, bool)>)
        ensures
            forall|i: int, j: int|
                0 <= i < j < r@.len() ==> slot_lt(
                    ((#[trigger] r@[i]).0, r@[i].1),
                    ((#[trigger] r@[j]).0, r@[j].1),
                ),
            forall|p: ProviderId, o: Op, b: bool|
                #[trigger] r@.contains((p, o, b)) <==> self.known(p, o) && self.seen(
                    p,
                    o,
                ).observed_unsupported == b,
    {
        let all = self.inner.list();
        let mut out: Vec<(ProviderId, Op, bool)> = Vec::new();
        let mut i: usize = 0;
        while i < all.len()
            invariant
                0 <= i <= all@.len(),
                out@.len() == i,
                forall|j: int|
                    0 <= j < i ==> #[trigger] out@[j] == (
                        all@[j].0.0,
                        all@[j].0.1,
                        all@[j].1.observed_unsupported,
                    ),
            decreases all@.len() - i,
        {
            out.push((all[i].0.0, all[i].0.1, all[i].1.observed_unsupported));
            i = i + 1;
        }
        proof {
            assert forall|p: ProviderId, o: Op, b: bool|
                #[trigger] out@.contains((p, o, b)) <==> self.known(p, o) && self.seen(
                    p,
                    o,
                ).observed_unsupported == b by {
                if out@.contains((p, o, b)) {
                    let j = choose|j: int| 0 <= j < out@.len() && out@[j] == (p, o, b);
                    assert(all@.contains(((p, o), all@[j].1))) by {
                        assert(all@[j] == ((p, o), all@[j].1));
                    }
                }
                if self.known(p, o) && self.seen(p, o).observed_unsupported == b {
                    let d = self.seen(p, o);
                    assert(all@.contains(((p, o), d)));
                    let j = choose|j: int| 0 <= j < all@.len() && all@[j] == ((p, o), d);
                    assert(out@[j] == (p, o, b));
                }
            }
        }
        out
    }
}

/// What has been seen after `n` refusals in a row.
pub open spec fn after_refusals(threshold: u32, n: nat) -> OpDrift
    decreases n,
{
    if n == 0 {
        unseen()
    } else {
        after_refusal(after_refusals(threshold, (n - 1) as nat), threshold)
    }
}

/// An operation counts as unsupported with the refusal that makes the threshold, and not before.
pub proof fn lemma_flips_at_threshold(threshold: u32, n: nat)
    requires
        n <= threshold,
        threshold > 0,
    ensures
        after_refusals(threshold, n).consecutive_not_supported == n,
        after_refusals(threshold, n).observed_unsupported == (n == threshold),
    decreases n,
{
    if n > 0 {
        lemma_flips_at_threshold(threshold, (n - 1) as nat);
    }
}

/// What one provider refuses of one operation touches no other.
pub proof fn lemma_drifts_apart(
    before: CapabilityDriftDetector,
    after: CapabilityDriftDetector,
    provider: ProviderId,
    op: Op,
    d: OpDrift,
    p: ProviderId,
    o: Op,
)
    requires
        after.is_set(before, provider, op, d),
    ensures
        after.seen(provider, op) == d,
        p != provider || o != op ==> after.seen(p, o) == before.seen(p, o),
        after.threshold() == before.threshold(),
{
}

/// A refusal is counted, and what was once seen to be unsupported stays so.
pub proof fn lemma_refusals_add_up(d: OpDrift, threshold: u32)
    ensures
        d.consecutive_not_supported < u32::MAX ==> after_refusal(
            d,
            threshold,
        ).consecutive_not_supported == d.consecutive_not_supported + 1,
        d.observed_unsupported ==> after_refusal(d, threshold).observed_unsupported,
        !d.observed_unsupported && d.consecutive_not_supported + 1 < threshold ==> !after_refusal(
            d,
            threshold,
        ).observed_unsupported,
        d.consecutive_not_supported + 1 >= threshold && d.consecutive_not_supported < u32::MAX
            ==> after_refusal(d, threshold).observed_unsupported,
{
}

} // verus!
