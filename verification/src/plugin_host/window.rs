//! Events in a sliding window. Times are milliseconds on the caller's clock.

use vstd::prelude::*;

verus! {

/// Whether an event at `t` counts at `now`: it is no older than the window. An event of the
/// future counts.
pub open spec fn in_window(t: u64, now: u64, window: u64) -> bool {
    t >= now || now - t <= window
}

/// Whether an event at `t` counts at `now`.
pub fn counts(t: u64, now: u64, window: u64) -> (r: bool)
    ensures
        r == in_window(t, now, window),
{
    now.saturating_sub(t) <= window
}

/// How many events count at `now`.
pub open spec fn count_in(times: Seq<u64>, now: u64, window: u64) -> nat
    decreases times.len(),
{
    if times.len() == 0 {
        0
    } else {
        count_in(times.drop_last(), now, window) + (if in_window(times.last(), now, window) {
            1nat
        } else {
            0nat
        })
    }
}

/// How many events count at `now`.
pub fn count_events(times: &Vec<u64>, now: u64, window: u64) -> (r: usize)
    ensures
        r == count_in(times@, now, window),
        r <= times@.len(),
{
    let mut n: usize = 0;
    let mut i: usize = 0;
    while i < times.len()
        invariant
            0 <= i <= times@.len(),
            n <= i,
            n == count_in(times@.take(i as int), now, window),
        decreases times@.len() - i,
    {
        assert(times@.take(i + 1).drop_last() =~= times@.take(i as int));
        if counts(times[i], now, window) {
            n = n + 1;
        }
        i = i + 1;
    }
    assert(times@.take(i as int) =~= times@);
    n
}

/// The events that are left after the oldest have been dropped while they do not count.
pub open spec fn front_pruned(times: Seq<u64>, now: u64, window: u64) -> Seq<u64>
    decreases times.len(),
{
    if times.len() > 0 && !in_window(times[0], now, window) {
        front_pruned(times.drop_first(), now, window)
    } else {
        times
    }
}

/// Drops the oldest events while they do not count.
pub fn prune_front(times: &mut Vec<u64>, now: u64, window: u64)
    ensures
        final(times)@ == front_pruned(old(times)@, now, window),
{
    while times.len() > 0 && !counts(times[0], now, window)
        invariant
            front_pruned(times@, now, window) == front_pruned(old(times)@, now, window),
        decreases times@.len(),
    {
        let ghost before = times@;
        let _gone: u64 = times.remove(0);
        assert(times@ =~= before.drop_first());
    }
}

/// The events that count at `now`.
pub open spec fn kept(times: Seq<u64>, now: u64, window: u64) -> Seq<u64>
    decreases times.len(),
{
    if times.len() == 0 {
        Seq::empty()
    } else {
        let head = kept(times.drop_last(), now, window);
        if in_window(times.last(), now, window) {
            head.push(times.last())
        } else {
            head
        }
    }
}

/// The events that count at `now`.
pub fn keep_counting(times: &Vec<u64>, now: u64, window: u64) -> (r: Vec<u64>)
    ensures
        r@ == kept(times@, now, window),
{
    let mut out: Vec<u64> = Vec::new();
    let mut i: usize = 0;
    while i < times.len()
        invariant
            0 <= i <= times@.len(),
            out@ == kept(times@.take(i as int), now, window),
        decreases times@.len() - i,
    {
        assert(times@.take(i + 1).drop_last() =~= times@.take(i as int));
        if counts(times[i], now, window) {
            out.push(times[i]);
        }
        i = i + 1;
    }
    assert(times@.take(i as int) =~= times@);
    out
}

proof fn lemma_count_front(times: Seq<u64>, now: u64, window: u64)
    requires
        times.len() > 0,
    ensures
        count_in(times, now, window) == count_in(times.drop_first(), now, window) + (if in_window(
            times[0],
            now,
            window,
        ) {
            1nat
        } else {
            0nat
        }),
    decreases times.len(),
{
    if times.len() == 1 {
        assert(times.drop_first() =~= Seq::<u64>::empty());
        assert(times.drop_last() =~= Seq::<u64>::empty());
        assert(count_in(times.drop_last(), now, window) == 0);
        assert(count_in(times.drop_first(), now, window) == 0);
    } else {
        lemma_count_front(times.drop_last(), now, window);
        assert(times.drop_last().drop_first() =~= times.drop_first().drop_last());
    }
}

/// Pruning drops nothing that counts.
pub proof fn lemma_prune_keeps_count(times: Seq<u64>, now: u64, window: u64)
    ensures
        count_in(front_pruned(times, now, window), now, window) == count_in(times, now, window),
        count_in(kept(times, now, window), now, window) == count_in(times, now, window),
        kept(times, now, window).len() == count_in(times, now, window),
    decreases times.len(),
{
    if times.len() > 0 {
        if !in_window(times[0], now, window) {
            lemma_count_front(times, now, window);
            lemma_prune_keeps_count(times.drop_first(), now, window);
        }
        lemma_prune_keeps_count(times.drop_last(), now, window);
        let k = kept(times, now, window);
        if in_window(times.last(), now, window) {
            assert(k.drop_last() =~= kept(times.drop_last(), now, window));
        }
    }
}

/// What counts, and what is kept, are the times of the last `window` milliseconds and those still
/// to come.
pub proof fn lemma_window_holds_recent(times: Seq<u64>, now: u64, window: u64)
    ensures
        kept(times, now, window) == times.filter(|t: u64| t + window >= now),
        count_in(times, now, window) == times.filter(|t: u64| t + window >= now).len(),
    decreases times.len(),
{
    reveal(Seq::filter);
    let recent = |t: u64| t + window >= now;
    if times.len() > 0 {
        lemma_window_holds_recent(times.drop_last(), now, window);
        assert(recent(times.last()) == in_window(times.last(), now, window));
    } else {
        assert(kept(times, now, window) =~= times.filter(recent));
    }
}

/// Pruning drops times from the front, as long as they are older than the window, and stops at the
/// first that is not.
pub proof fn lemma_pruned_front(times: Seq<u64>, now: u64, window: u64) -> (at: int)
    ensures
        0 <= at <= times.len(),
        front_pruned(times, now, window) == times.skip(at),
        forall|i: int| 0 <= i < at ==> (#[trigger] times[i]) + window < now,
        at < times.len() ==> times[at] + window >= now,
    decreases times.len(),
{
    if times.len() > 0 && !in_window(times[0], now, window) {
        let t = times.drop_first();
        let at = lemma_pruned_front(t, now, window);
        assert(t.skip(at) =~= times.skip(at + 1));
        assert forall|i: int| 0 <= i < at + 1 implies (#[trigger] times[i]) + window < now by {
            if i > 0 {
                assert(t[i - 1] == times[i]);
            }
        }
        at + 1
    } else {
        assert(times.skip(0) =~= times);
        0
    }
}

} // verus!
