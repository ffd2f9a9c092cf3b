//! Reconciliation with a replica: find the leaves that differ, and take over pages that match the
//! replica's leaf hashes.

use vstd::prelude::*;

use crate::bytes::bytes_eq;
use crate::crypto::hash::blake3_digest;
use crate::crypto::hash::digest;
use crate::merkle::divergent;
use crate::merkle::hash_views;
use crate::merkle::root_of;
use crate::merkle::root_of_leaves;
use crate::merkle::MerkleTree;
use crate::merkle::LEAVES;
use crate::types::BlakeHash;

verus! {

/// Why a reconciliation stopped.
#[derive(Clone, Copy, PartialEq, Eq, Structural, Debug)]
pub enum AntiEntropyError {
    SizeMismatch { local: usize, remote: usize },
    ForgedPage { index: usize },
}

/// How two trees differ.
#[derive(Clone, PartialEq, Eq, Debug)]
pub struct DivergenceReport {
    pub local_root: BlakeHash,
    pub remote_root: BlakeHash,
    pub divergent_leaf_indices: Vec<usize>,
}

/// Compares a tree with the leaves of another. The rows of leaves must have one length.
pub fn compare(local: &MerkleTree, remote_leaves: &[BlakeHash]) -> (r: Result<
    DivergenceReport,
    AntiEntropyError,
>)
    requires
        local.wf(),
    ensures
        if remote_leaves@.len() != LEAVES {
            r == Err::<DivergenceReport, AntiEntropyError>(
                AntiEntropyError::SizeMismatch {
                    local: LEAVES,
                    remote: remote_leaves@.len() as usize,
                },
            )
        } else {
            r matches Ok(d) && d.local_root.0@ == root_of(local.leaf_hashes()) && d.remote_root.0@
                == root_of(hash_views(remote_leaves@)) && d.divergent_leaf_indices@ == divergent(
                local.leaf_hashes(),
                hash_views(remote_leaves@),
            )
        },
{
    let have: usize = local.leaves().len();
    if remote_leaves.len() != have {
        return Err(AntiEntropyError::SizeMismatch { local: have, remote: remote_leaves.len() });
    }
    let local_root = local.root();
    let remote_root = root_of_leaves(remote_leaves);
    let divergent_leaf_indices = local.divergent_leaves(remote_leaves);
    Ok(DivergenceReport { local_root, remote_root, divergent_leaf_indices })
}

/// What is wrong with a page, where something is: its leaf is out of range, or its bytes do not
/// have the leaf's hash.
pub open spec fn page_fault(remote_leaves: Seq<Seq<u8>>, page: (usize, Vec<u8>)) -> Option<
    AntiEntropyError,
> {
    if page.0 >= remote_leaves.len() {
        Some(AntiEntropyError::SizeMismatch { local: remote_leaves.len() as usize, remote: page.0 })
    } else if blake3_digest(page.1@) != remote_leaves[page.0 as int] {
        Some(AntiEntropyError::ForgedPage { index: page.0 })
    } else {
        None
    }
}

/// The first page with a fault, or the number of pages where there is none.
pub open spec fn first_fault(remote_leaves: Seq<Seq<u8>>, pages: Seq<(usize, Vec<u8>)>) -> int
    decreases pages.len(),
{
    if pages.len() == 0 {
        0
    } else if first_fault(remote_leaves, pages.drop_last()) < pages.len() - 1 {
        first_fault(remote_leaves, pages.drop_last())
    } else if page_fault(remote_leaves, pages.last()) is Some {
        pages.len() - 1
    } else {
        pages.len() as int
    }
}

/// The positions below `n` of the pages whose leaf is to be replaced, in order.
pub open spec fn wanted(indices: Seq<usize>, pages: Seq<(usize, Vec<u8>)>, n: int) -> Seq<usize>
    decreases n,
{
    if n <= 0 {
        Seq::empty()
    } else {
        let head = wanted(indices, pages, n - 1);
        if indices.contains(pages[n - 1].0) {
            head.push((n - 1) as usize)
        } else {
            head
        }
    }
}

fn lists(indices: &Vec<usize>, x: usize) -> (r: bool)
    ensures
        r == indices@.contains(x),
{
    let mut i: usize = 0;
    while i < indices.len()
        invariant
            0 <= i <= indices@.len(),
            forall|j: int| 0 <= j < i ==> indices@[j] != x,
        decreases indices@.len() - i,
    {
        if indices[i] == x {
            return true;
        }
        i = i + 1;
    }
    false
}

/// Goes through pages that were fetched from a replica, up to the first that has a fault. The
/// result is the positions of the pages to apply, in order, and how the walk ended: with their
/// number, or with the fault. A page of a leaf that is not in the report is passed over.
pub fn apply_divergent_pages(
    report: &DivergenceReport,
    remote_leaves: &[BlakeHash],
    pages: &Vec<(usize, Vec<u8>)>,
) -> (r: (Vec<usize>, Result<usize, AntiEntropyError>))
    ensures
        ({
            let remote = hash_views(remote_leaves@);
            let stop = first_fault(remote, pages@);
            &&& r.0@ == wanted(report.divergent_leaf_indices@, pages@, stop)
            &&& r.1 == (if stop < pages@.len() {
                Err::<usize, AntiEntropyError>(page_fault(remote, pages@[stop]).unwrap())
            } else {
                Ok(r.0@.len() as usize)
            })
        }),
{
    let ghost remote = hash_views(remote_leaves@);
    let mut apply: Vec<usize> = Vec::new();
    let mut i: usize = 0;
    while i < pages.len()
        invariant
            remote == hash_views(remote_leaves@),
            0 <= i <= pages@.len(),
            first_fault(remote, pages@.take(i as int)) == i,
            apply@ == wanted(report.divergent_leaf_indices@, pages@, i as int),
        decreases pages@.len() - i,
    {
        assert(pages@.take(i + 1).drop_last() =~= pages@.take(i as int));
        assert(pages@.take(i + 1).last() == pages@[i as int]);
        let idx: usize = pages[i].0;
        if idx >= remote_leaves.len() {
            proof {
                lemma_fault_stays(remote, pages@, i as int);
            }
            return (
                apply,
                Err(AntiEntropyError::SizeMismatch { local: remote_leaves.len(), remote: idx }),
            );
        }
        let got = digest(&pages[i].1);
        assert(remote[idx as int] == remote_leaves@[idx as int].0@);
        if !bytes_eq(&got, &remote_leaves[idx].0) {
            proof {
                lemma_fault_stays(remote, pages@, i as int);
            }
            return (apply, Err(AntiEntropyError::ForgedPage { index: idx }));
        }
        if lists(&report.divergent_leaf_indices, idx) {
            apply.push(i);
        }
        i = i + 1;
    }
    assert(pages@.take(i as int) =~= pages@);
    let n: usize = apply.len();
    (apply, Ok(n))
}

proof fn lemma_fault_stays(remote: Seq<Seq<u8>>, pages: Seq<(usize, Vec<u8>)>, at: int)
    requires
        0 <= at < pages.len(),
        first_fault(remote, pages.take(at)) == at,
        page_fault(remote, pages[at]) is Some,
    ensures
        first_fault(remote, pages) == at,
    decreases pages.len(),
{
    assert(pages.take(at + 1).drop_last() =~= pages.take(at));
    if at == pages.len() - 1 {
        assert(pages.take(at + 1) =~= pages);
        assert(pages.drop_last() =~= pages.take(at));
    } else {
        assert(pages.drop_last().take(at) =~= pages.take(at));
        assert(pages.drop_last()[at] == pages[at]);
        lemma_fault_stays(remote, pages.drop_last(), at);
    }
}

proof fn lemma_first_fault_range(remote: Seq<Seq<u8>>, pages: Seq<(usize, Vec<u8>)>)
    ensures
        0 <= first_fault(remote, pages) <= pages.len(),
    decreases pages.len(),
{
    if pages.len() > 0 {
        lemma_first_fault_range(remote, pages.drop_last());
    }
}

proof fn lemma_no_fault_before(remote: Seq<Seq<u8>>, pages: Seq<(usize, Vec<u8>)>, i: int)
    requires
        0 <= i < first_fault(remote, pages),
        i < pages.len(),
    ensures
        page_fault(remote, pages[i]) is None,
    decreases pages.len(),
{
    if i < pages.len() - 1 {
        assert(pages.drop_last()[i] == pages[i]);
        if first_fault(remote, pages.drop_last()) > i {
            lemma_no_fault_before(remote, pages.drop_last(), i);
        }
    }
}

proof fn lemma_wanted_members(indices: Seq<usize>, pages: Seq<(usize, Vec<u8>)>, n: int, x: usize)
    requires
        0 <= n <= pages.len(),
        n <= usize::MAX,
        wanted(indices, pages, n).contains(x),
    ensures
        x < n,
        indices.contains(pages[x as int].0),
    decreases n,
{
    if n > 0 {
        let w = wanted(indices, pages, n);
        let head = wanted(indices, pages, n - 1);
        let k = choose|k: int| 0 <= k < w.len() && w[k] == x;
        if k < head.len() {
            assert(head[k] == x);
            assert(head.contains(x));
            lemma_wanted_members(indices, pages, n - 1, x);
        }
    }
}

/// A forged page is never applied: every page that is applied has the hash of the replica's leaf,
/// and its leaf is one that differs.
pub proof fn lemma_no_forged_page_applied(
    indices: Seq<usize>,
    remote: Seq<Seq<u8>>,
    pages: Seq<(usize, Vec<u8>)>,
    x: usize,
)
    requires
        pages.len() <= usize::MAX,
        wanted(indices, pages, first_fault(remote, pages)).contains(x),
    ensures
        x < pages.len(),
        indices.contains(pages[x as int].0),
        pages[x as int].0 < remote.len(),
        blake3_digest(pages[x as int].1@) == remote[pages[x as int].0 as int],
{
    lemma_first_fault_range(remote, pages);
    lemma_wanted_members(indices, pages, first_fault(remote, pages), x);
    lemma_no_fault_before(remote, pages, x as int);
}

/// What is taken over: exactly the pages, up to the first with a fault, whose leaf the report lists,
/// in their order. A fault is a leaf out of range or bytes without the leaf's digest, and the walk
/// ends at the first.
pub proof fn lemma_pages_taken(
    indices: Seq<usize>,
    remote: Seq<Seq<u8>>,
    pages: Seq<(usize, Vec<u8>)>,
)
    requires
        pages.len() <= usize::MAX,
    ensures
        ({
            let stop = first_fault(remote, pages);
            let taken = wanted(indices, pages, stop);
            &&& 0 <= stop <= pages.len()
            &&& forall|i: int|
                0 <= i < stop ==> (#[trigger] pages[i]).0 < remote.len() && blake3_digest(pages[i].1@)
                    == remote[pages[i].0 as int]
            &&& stop < pages.len() ==> pages[stop].0 >= remote.len() || blake3_digest(
                pages[stop].1@,
            ) != remote[pages[stop].0 as int]
            &&& forall|x: usize| #[trigger]
                taken.contains(x) <==> x < stop && indices.contains(pages[x as int].0)
            &&& forall|i: int, j: int| 0 <= i < j < taken.len() ==> #[trigger] taken[i]
                < #[trigger] taken[j]
        }),
{
    let stop = first_fault(remote, pages);
    lemma_first_fault_range(remote, pages);
    assert forall|i: int| 0 <= i < stop implies (#[trigger] pages[i]).0 < remote.len()
        && blake3_digest(pages[i].1@) == remote[pages[i].0 as int] by {
        lemma_no_fault_before(remote, pages, i);
    }
    lemma_fault_at_stop(remote, pages);
    lemma_wanted_listed(indices, pages, stop);
}

proof fn lemma_fault_at_stop(remote: Seq<Seq<u8>>, pages: Seq<(usize, Vec<u8>)>)
    ensures
        first_fault(remote, pages) < pages.len() ==> page_fault(
            remote,
            pages[first_fault(remote, pages)],
        ) is Some,
    decreases pages.len(),
{
    if pages.len() > 0 {
        lemma_fault_at_stop(remote, pages.drop_last());
        lemma_first_fault_range(remote, pages.drop_last());
    }
}

proof fn lemma_wanted_listed(indices: Seq<usize>, pages: Seq<(usize, Vec<u8>)>, n: int)
    requires
        0 <= n <= pages.len() <= usize::MAX,
    ensures
        forall|x: usize| #[trigger]
            wanted(indices, pages, n).contains(x) <==> x < n && indices.contains(pages[x as int].0),
        forall|i: int, j: int|
            0 <= i < j < wanted(indices, pages, n).len() ==> #[trigger] wanted(indices, pages, n)[i]
                < #[trigger] wanted(indices, pages, n)[j],
    decreases n,
{
    if n > 0 {
        lemma_wanted_listed(indices, pages, n - 1);
        let head = wanted(indices, pages, n - 1);
        let all = wanted(indices, pages, n);
        assert forall|i: int| 0 <= i < head.len() implies #[trigger] head[i] < n - 1 by {
            assert(head.contains(head[i]));
        }
        assert forall|x: usize| #[trigger] all.contains(x) <==> x < n && indices.contains(
            pages[x as int].0,
        ) by {
            if head.contains(x) {
                let i = choose|i: int| 0 <= i < head.len() && head[i] == x;
                assert(all[i] == x);
            }
            if all.contains(x) {
                let i = choose|i: int| 0 <= i < all.len() && all[i] == x;
                if i < head.len() {
                    assert(head[i] == x);
                    assert(head.contains(x));
                }
            }
            if x == n - 1 && indices.contains(pages[n - 1].0) {
                assert(all[head.len() as int] == x);
            }
        }
    }
}

} // verus!
