//! The sweep over shadows: each registered shadow is looked for at its provider; one that is gone
//! is cleared, and one that keeps turning up is given up on.

use vstd::prelude::*;

use crate::bytes::be128;
use crate::entities::records::Shadow;
use crate::entities::records::ShadowState;
use crate::metadata::backend::Txn;
use crate::metadata::cf::ColumnFamily;
use crate::types::ShadowId;

verus! {

/// How often a shadow may be seen before it counts as permanent.
pub const PERMANENT_THRESHOLD: u32 = 10;

/// What a look at a shadow's provider showed.
#[derive(Clone, Copy, PartialEq, Eq, Structural, Debug)]
pub enum PeekEvent {
    /// No plugin serves the provider.
    NoPlugin,
    /// The object is gone.
    Absent,
    /// The object is still there.
    Present,
    /// The provider failed to answer.
    Failed,
}

/// What a sweep found so far.
pub struct ShadowSweep {
    pub peeked: u32,
    pub cleared: u32,
    pub promoted: u32,
    pub still_registered: u32,
    pub errors: u32,
    pub to_update: Vec<Shadow>,
    pub to_delete: Vec<ShadowId>,
}

/// A shadow that has been seen once more.
pub open spec fn seen_again(sh: Shadow) -> Shadow {
    let peek_count = if sh.peek_count == u32::MAX {
        u32::MAX
    } else {
        (sh.peek_count + 1) as u32
    };
    Shadow {
        peek_count,
        state: if peek_count >= PERMANENT_THRESHOLD {
            ShadowState::Permanent
        } else {
            sh.state
        },
        ..sh
    }
}

impl ShadowSweep {
    /// A sweep before its first shadow.
    pub fn new() -> (r: Self)
        ensures
            r.adds_up(),
            r.peeked == 0,
            r.to_update@.len() == 0,
            r.to_delete@.len() == 0,
    {
        ShadowSweep {
            peeked: 0,
            cleared: 0,
            promoted: 0,
            still_registered: 0,
            errors: 0,
            to_update: Vec::new(),
            to_delete: Vec::new(),
        }
    }

    /// Whether every look is in exactly one of the four counts, and every shadow to write or to
    /// drop is counted.
    pub open spec fn adds_up(self) -> bool {
        &&& self.cleared + self.promoted + self.still_registered + self.errors == self.peeked
        &&& self.to_delete@.len() == self.cleared
        &&& self.to_update@.len() == self.promoted + self.still_registered
    }

    /// Whether a shadow is to be looked for.
    pub fn wants_peek(sh: &Shadow) -> (r: bool)
        ensures
            r == (sh.state == ShadowState::Registered),
    {
        sh.state == ShadowState::Registered
    }

    /// Takes what a look for a registered shadow showed.
    pub fn observe(&mut self, sh: Shadow, ev: PeekEvent)
        requires
            old(self).adds_up(),
            old(self).peeked < u32::MAX,
            sh.state == ShadowState::Registered,
        ensures
            final(self).adds_up(),
            final(self).peeked == old(self).peeked + 1,
            match ev {
                PeekEvent::Absent => {
                    &&& final(self).cleared == old(self).cleared + 1
                    &&& final(self).promoted == old(self).promoted
                    &&& final(self).errors == old(self).errors
                    &&& final(self).to_delete@ == old(self).to_delete@.push(sh.shadow_id)
                    &&& final(self).to_update@ == old(self).to_update@
                },
                PeekEvent::Present => {
                    &&& final(self).cleared == old(self).cleared
                    &&& final(self).promoted == old(self).promoted + (if seen_again(sh).state
                        == ShadowState::Permanent {
                        1int
                    } else {
                        0int
                    })
                    &&& final(self).errors == old(self).errors
                    &&& final(self).to_delete@ == old(self).to_delete@
                    &&& final(self).to_update@ == old(self).to_update@.push(seen_again(sh))
                },
                _ => {
                    &&& final(self).cleared == old(self).cleared
                    &&& final(self).promoted == old(self).promoted
                    &&& final(self).errors == old(self).errors + 1
                    &&& final(self).to_delete@ == old(self).to_delete@
                    &&& final(self).to_update@ == old(self).to_update@
                },
            },
    {
        self.peeked = self.peeked + 1;
        match ev {
            PeekEvent::Absent => {
                self.to_delete.push(sh.shadow_id);
                self.cleared = self.cleared + 1;
            },
            PeekEvent::Present => {
                let count: u32 = sh.peek_count.saturating_add(1);
                let mut seen = sh;
                seen.peek_count = count;
                if count >= PERMANENT_THRESHOLD {
                    seen.state = ShadowState::Permanent;
                    self.promoted = self.promoted + 1;
                } else {
                    self.still_registered = self.still_registered + 1;
                }
                self.to_update.push(seen);
            },
            PeekEvent::NoPlugin => {
                self.errors = self.errors + 1;
            },
            PeekEvent::Failed => {
                self.errors = self.errors + 1;
            },
        }
    }

    /// The writes of the sweep: the encoded records of the shadows that were seen, then the
    /// removal of those that are gone.
    pub fn transaction(&self, encoded: Vec<Vec<u8>>) -> (r: Txn)
        requires
            encoded@.len() == self.to_update@.len(),
        ensures
            r.ops@.len() == self.to_update@.len() + self.to_delete@.len(),
            forall|i: int|
                0 <= i < self.to_update@.len() ==> (#[trigger] r.ops@[i]).is_put(
                    ColumnFamily::Shadows,
                    be128(self.to_update@[i].shadow_id.0),
                    encoded@[i]@,
                ),
            forall|i: int|
                0 <= i < self.to_delete@.len() ==> (#[trigger] r.ops@[self.to_update@.len() + i]).is_delete(
                    ColumnFamily::Shadows,
                    be128(self.to_delete@[i].0),
                ),
    {
        let mut txn = Txn::new();
        let mut i: usize = 0;
        while i < self.to_update.len()
            invariant
                0 <= i <= self.to_update@.len(),
                encoded@.len() == self.to_update@.len(),
                txn.ops@.len() == i,
                forall|j: int|
                    0 <= j < i ==> (#[trigger] txn.ops@[j]).is_put(
                        ColumnFamily::Shadows,
                        be128(self.to_update@[j].shadow_id.0),
                        encoded@[j]@,
                    ),
            decreases self.to_update@.len() - i,
        {
            txn.put(
                ColumnFamily::Shadows,
                self.to_update[i].shadow_id.to_bytes(),
                crate::bytes::to_vec(&encoded[i]),
            );
            i = i + 1;
        }
        let ghost base = self.to_update@.len() as int;
        let mut k: usize = 0;
        while k < self.to_delete.len()
            invariant
                0 <= k <= self.to_delete@.len(),
                base == self.to_update@.len(),
                encoded@.len() == base,
                txn.ops@.len() == base + k,
                forall|j: int|
                    0 <= j < base ==> (#[trigger] txn.ops@[j]).is_put(
                        ColumnFamily::Shadows,
                        be128(self.to_update@[j].shadow_id.0),
                        encoded@[j]@,
                    ),
                forall|j: int|
                    0 <= j < k ==> (#[trigger] txn.ops@[base + j]).is_delete(
                        ColumnFamily::Shadows,
                        be128(self.to_delete@[j].0),
                    ),
            decreases self.to_delete@.len() - k,
        {
            txn.delete(ColumnFamily::Shadows, self.to_delete[k].to_bytes());
            k = k + 1;
        }
        txn
    }
}

/// A shadow after it has been seen `n` times more.
pub open spec fn seen_times(sh: Shadow, n: nat) -> Shadow
    decreases n,
{
    if n == 0 {
        sh
    } else {
        seen_again(seen_times(sh, (n - 1) as nat))
    }
}

/// A new shadow becomes permanent with the tenth look that finds it, and not before.
pub proof fn lemma_permanent_after_threshold(sh: Shadow, n: nat)
    requires
        sh.state == ShadowState::Registered,
        sh.peek_count == 0,
        n <= PERMANENT_THRESHOLD,
    ensures
        seen_times(sh, n).peek_count == n,
        seen_times(sh, n).state == ShadowState::Permanent <==> n >= PERMANENT_THRESHOLD,
    decreases n,
{
    if n > 0 {
        lemma_permanent_after_threshold(sh, (n - 1) as nat);
    }
}

/// A shadow that is still there is counted as seen once more, and is given up at the tenth time;
/// before that its state stays. What it stands for does not change.
pub proof fn lemma_seen_once_more(sh: Shadow)
    ensures
        sh.peek_count < u32::MAX ==> seen_again(sh).peek_count == sh.peek_count + 1,
        sh.peek_count >= 9 ==> seen_again(sh).state == ShadowState::Permanent,
        sh.peek_count < 9 ==> seen_again(sh).state == sh.state,
        seen_again(sh).shadow_id == sh.shadow_id,
        seen_again(sh).driver_id == sh.driver_id,
        seen_again(sh).native_handle == sh.native_handle,
        seen_again(sh).counts_against_quota == sh.counts_against_quota,
{
}

} // verus!
