//! A Merkle tree of fixed depth over snapshot pages. Pages fall into leaves by their digest; a
//! leaf's hash covers its pages in order; an inner node's hash covers its two children.

use vstd::prelude::*;

use crate::bytes::append;
use crate::bytes::be32;
use crate::bytes::be64;
use crate::bytes::bytes_eq;
use crate::bytes::bytes_lt;
use crate::bytes::concat;
use crate::bytes::lemma_be32_injective;
use crate::bytes::lemma_be32_round_trip;
use crate::bytes::lemma_be64_injective;
use crate::bytes::lemma_be64_round_trip;
use crate::bytes::lemma_lex_irreflexive;
use crate::bytes::lemma_lex_total;
use crate::bytes::lemma_lex_transitive;
use crate::bytes::lex_lt;
use crate::bytes::of_le32;
use crate::bytes::push_be32;
use crate::bytes::push_be64;
use crate::bytes::read_le32;
use crate::crypto::hash::blake3_digest;
use crate::crypto::hash::digest;
use crate::types::BlakeHash;

verus! {

/// Levels between the root and the leaves.
pub const DEPTH: u32 = 15;

/// Leaves of a tree.
pub const LEAVES: usize = 32768;

/// A page in a leaf.
#[derive(Clone, PartialEq, Eq, Debug)]
pub struct LeafMember {
    pub page_id: Vec<u8>,
    pub page_version: u64,
    pub payload_hash: BlakeHash,
}

/// What a page is to the tree: its identifier, its version and the digest of its payload.
pub type Page = (Seq<u8>, u64, BlakeHash);

/// What a member is to the tree.
pub open spec fn page_of(m: LeafMember) -> Page {
    (m.page_id@, m.page_version, m.payload_hash)
}

/// What the members of a leaf are to the tree.
pub open spec fn pages_of(members: Seq<LeafMember>) -> Seq<Page> {
    members.map_values(|m: LeafMember| page_of(m))
}

/// Whether pages are in order, each identifier once.
pub open spec fn pages_increase(pages: Seq<Page>) -> bool {
    forall|i: int, j: int| 0 <= i < j < pages.len() ==> lex_lt((#[trigger] pages[i]).0, (#[trigger] pages[j]).0)
}

/// The leaf that a page falls into.
pub open spec fn bucket_of(page_id: Seq<u8>) -> int {
    of_le32(blake3_digest(page_id).subrange(0, 4)) as int % 32768
}

/// The leaf that a page falls into.
pub fn bucket_for(page_id: &[u8]) -> (r: usize)
    ensures
        r == bucket_of(page_id@),
        r == of_le32(blake3_digest(page_id@).subrange(0, 4)) % 32768,
        r < LEAVES,
{
    let h = digest(page_id);
    (read_le32(&h, 0) % 32768) as usize
}

/// The bytes that a leaf's hash covers: for each page the length of its identifier, the
/// identifier, the version and the payload's digest.
pub open spec fn leaf_input(pages: Seq<Page>) -> Seq<u8>
    decreases pages.len(),
{
    if pages.len() == 0 {
        Seq::empty()
    } else {
        let p = pages.last();
        leaf_input(pages.drop_last()) + be32((p.0.len() % 0x1_0000_0000) as u32) + p.0 + be64(p.1)
            + p.2.0@
    }
}

/// The hash of a leaf; that of an empty leaf is all zeros.
pub open spec fn leaf_hash_of(pages: Seq<Page>) -> Seq<u8> {
    if pages.len() == 0 {
        Seq::new(32, |i: int| 0u8)
    } else {
        blake3_digest(leaf_input(pages))
    }
}

fn leaf_hash(members: &Vec<LeafMember>) -> (r: BlakeHash)
    ensures
        r.0@ == leaf_hash_of(pages_of(members@)),
{
    if members.len() == 0 {
        return zero_hash();
    }
    let ghost pages = pages_of(members@);
    let mut input: Vec<u8> = Vec::new();
    let mut i: usize = 0;
    while i < members.len()
        invariant
            0 <= i <= members@.len(),
            pages == pages_of(members@),
            input@ == leaf_input(pages.take(i as int)),
        decreases members@.len() - i,
    {
        let m = &members[i];
        assert(pages.take(i + 1).drop_last() =~= pages.take(i as int));
        let len: u32 = (m.page_id.len() as u64 % 0x1_0000_0000) as u32;
        push_be32(&mut input, len);
        append(&mut input, &m.page_id);
        push_be64(&mut input, m.page_version);
        append(&mut input, &m.payload_hash.0);
        i = i + 1;
    }
    assert(pages.take(i as int) =~= pages);
    BlakeHash(digest(&input))
}

fn zero_hash() -> (r: BlakeHash)
    ensures
        r.0@ == Seq::new(32, |i: int| 0u8),
{
    let z: [u8; 32] = [0u8; 32];
    assert(z@ =~= Seq::new(32, |i: int| 0u8));
    BlakeHash(z)
}

/// The contents of a row of hashes.
pub open spec fn hash_views(s: Seq<BlakeHash>) -> Seq<Seq<u8>> {
    s.map_values(|h: BlakeHash| h.0@)
}

/// The level above a row of nodes: neighbours are hashed in pairs, and one without a neighbour is
/// paired with itself.
pub open spec fn level_up(nodes: Seq<Seq<u8>>) -> Seq<Seq<u8>> {
    Seq::new(
        (nodes.len() + 1) / 2,
        |i: int|
            blake3_digest(
                nodes[2 * i] + (if 2 * i + 1 < nodes.len() {
                    nodes[2 * i + 1]
                } else {
                    nodes[2 * i]
                }),
            ),
    )
}

/// The root over a row of nodes; that over none is all zeros.
pub open spec fn root_of(nodes: Seq<Seq<u8>>) -> Seq<u8>
    decreases nodes.len(),
{
    if nodes.len() == 0 {
        Seq::new(32, |i: int| 0u8)
    } else if nodes.len() == 1 {
        nodes[0]
    } else {
        root_of(level_up(nodes))
    }
}

fn next_level(level: &Vec<BlakeHash>) -> (r: Vec<BlakeHash>)
    ensures
        hash_views(r@) == level_up(hash_views(level@)),
{
    let ghost nodes = hash_views(level@);
    let n: usize = level.len();
    let half: usize = n / 2 + n % 2;
    let mut next: Vec<BlakeHash> = Vec::new();
    let mut j: usize = 0;
    while j < half
        invariant
            n == level@.len(),
            half == n / 2 + n % 2,
            nodes == hash_views(level@),
            0 <= j <= half,
            next@.len() == j,
            forall|k: int| 0 <= k < j ==> (#[trigger] next@[k]).0@ == level_up(nodes)[k],
        decreases half - j,
    {
        let l = level[2 * j];
        let r = if 2 * j < n - 1 {
            level[2 * j + 1]
        } else {
            level[2 * j]
        };
        let pair = concat(&l.0, &r.0);
        let h = digest(&pair);
        assert(nodes[2 * j as int] == l.0@);
        assert(h@ == level_up(nodes)[j as int]);
        next.push(BlakeHash(h));
        j = j + 1;
    }
    assert(hash_views(next@) =~= level_up(nodes));
    next
}

/// The root over a row of leaves.
pub fn root_of_leaves(leaves: &[BlakeHash]) -> (r: BlakeHash)
    ensures
        r.0@ == root_of(hash_views(leaves@)),
{
    if leaves.len() == 0 {
        return zero_hash();
    }
    let ghost all = hash_views(leaves@);
    let mut level: Vec<BlakeHash> = Vec::new();
    let mut c: usize = 0;
    while c < leaves.len()
        invariant
            0 <= c <= leaves@.len(),
            level@ == leaves@.take(c as int),
        decreases leaves@.len() - c,
    {
        level.push(leaves[c]);
        assert(level@ =~= leaves@.take(c + 1));
        c = c + 1;
    }
    assert(level@ =~= leaves@);
    while level.len() > 1
        invariant
            level@.len() >= 1,
            root_of(hash_views(level@)) == root_of(all),
        decreases level@.len(),
    {
        let next = next_level(&level);
        proof {
            assert(hash_views(next@).len() == (level@.len() + 1) / 2);
        }
        level = next;
    }
    level[0]
}

/// A Merkle tree with the pages of its leaves.
pub struct MerkleTree {
    leaves: Vec<BlakeHash>,
    leaf_members: Vec<Vec<LeafMember>>,
}

proof fn lemma_ordered_pages_unique(a: Seq<Page>, b: Seq<Page>)
    requires
        pages_increase(a),
        pages_increase(b),
        forall|p: Page| #[trigger] a.contains(p) <==> b.contains(p),
    ensures
        a == b,
    decreases a.len(),
{
    if a.len() == 0 {
        if b.len() > 0 {
            assert(b.contains(b[0]));
            assert(a.contains(b[0]));
        }
        assert(a =~= b);
    } else if b.len() == 0 {
        assert(a.contains(a[0]));
        assert(b.contains(a[0]));
    } else {
        let x = a[a.len() - 1];
        let y = b[b.len() - 1];
        assert(a.contains(x));
        assert(b.contains(y));
        assert(b.contains(x));
        assert(a.contains(y));
        let i = choose|i: int| 0 <= i < b.len() && b[i] == x;
        let j = choose|j: int| 0 <= j < a.len() && a[j] == y;
        lemma_lex_irreflexive(x.0);
        assert(x == y) by {
            if i < b.len() - 1 && j < a.len() - 1 {
                assert(lex_lt(b[i].0, b[b.len() - 1].0));
                assert(lex_lt(a[j].0, a[a.len() - 1].0));
                lemma_lex_transitive(x.0, y.0, x.0);
            }
        }
        let a2 = a.drop_last();
        let b2 = b.drop_last();
        assert forall|p: Page| #[trigger] a2.contains(p) <==> b2.contains(p) by {
            if a2.contains(p) {
                let k = choose|k: int| 0 <= k < a2.len() && a2[k] == p;
                assert(a[k] == p);
                assert(a.contains(p));
                assert(lex_lt(a[k].0, a[a.len() - 1].0));
                assert(b.contains(p));
                let l = choose|l: int| 0 <= l < b.len() && b[l] == p;
                assert(l != b.len() - 1);
                assert(b2[l] == p);
            }
            if b2.contains(p) {
                let k = choose|k: int| 0 <= k < b2.len() && b2[k] == p;
                assert(b[k] == p);
                assert(b.contains(p));
                assert(lex_lt(b[k].0, b[b.len() - 1].0));
                assert(a.contains(p));
                let l = choose|l: int| 0 <= l < a.len() && a[l] == p;
                assert(l != a.len() - 1);
                assert(a2[l] == p);
            }
        }
        lemma_ordered_pages_unique(a2, b2);
        assert(a =~= a2.push(x));
        assert(b =~= b2.push(y));
    }
}

impl MerkleTree {
    /// The pages of a leaf, in order.
    pub closed spec fn pages(self, bucket: int) -> Seq<Page> {
        pages_of(self.leaf_members@[bucket]@)
    }

    /// The hashes of the leaves.
    pub closed spec fn leaf_hashes(self) -> Seq<Seq<u8>> {
        hash_views(self.leaves@)
    }

    /// Whether every leaf holds its pages in order, each where it falls, and has their hash.
    pub closed spec fn wf(self) -> bool {
        &&& self.leaves@.len() == LEAVES
        &&& self.leaf_members@.len() == LEAVES
        &&& forall|b: int| 0 <= b < LEAVES ==> pages_increase(#[trigger] self.pages(b))
        &&& forall|b: int|
            0 <= b < LEAVES ==> (#[trigger] self.leaves@[b]).0@ == leaf_hash_of(self.pages(b))
        &&& forall|b: int, p: Page|
            0 <= b < LEAVES && #[trigger] self.pages(b).contains(p) ==> bucket_of(p.0) == b
    }

    /// A tree without pages.
    pub fn new() -> (r: Self)
        ensures
            r.wf(),
            forall|b: int| 0 <= b < LEAVES ==> (#[trigger] r.pages(b)).len() == 0,
    {
        let mut leaves: Vec<BlakeHash> = Vec::new();
        let mut leaf_members: Vec<Vec<LeafMember>> = Vec::new();
        let mut i: usize = 0;
        while i < LEAVES
            invariant
                0 <= i <= LEAVES,
                leaves@.len() == i,
                leaf_members@.len() == i,
                forall|b: int| 0 <= b < i ==> (#[trigger] leaves@[b]).0@ == Seq::new(32, |i: int| 0u8),
                forall|b: int| 0 <= b < i ==> (#[trigger] leaf_members@[b])@.len() == 0,
            decreases LEAVES - i,
        {
            leaves.push(zero_hash());
            leaf_members.push(Vec::new());
            i = i + 1;
        }
        let t = MerkleTree { leaves, leaf_members };
        assert forall|b: int| 0 <= b < LEAVES implies (#[trigger] t.pages(b)).len() == 0 by {
            assert(t.leaf_members@[b]@.len() == 0);
        }
        t
    }

    /// Puts a page in, in the place of one with the same identifier.
    pub fn upsert(&mut self, m: LeafMember)
        requires
            old(self).wf(),
        ensures
            final(self).wf(),
            forall|b: int|
                0 <= b < LEAVES && b != bucket_of(m.page_id@) ==> #[trigger] final(self).pages(b)
                    == old(self).pages(b),
            final(self).pages(bucket_of(m.page_id@)).contains(
                (m.page_id@, m.page_version, m.payload_hash),
            ),
            forall|p: Page| #[trigger]
                final(self).pages(bucket_of(m.page_id@)).contains(p) <==> p == page_of(m) || (old(
                    self,
                ).pages(bucket_of(m.page_id@)).contains(p) && p.0 != m.page_id@),
    {
        let bucket: usize = bucket_for(&m.page_id);
        let ghost page = page_of(m);
        let ghost before = *self;
        let ghost old_members = self.leaf_members@[bucket as int]@;
        let ghost old_pages = self.pages(bucket as int);
        let mut members: Vec<LeafMember> = Vec::new();
        std::mem::swap(&mut members, &mut self.leaf_members[bucket]);
        let mut at: usize = 0;
        while at < members.len() && bytes_lt(&members[at].page_id, &m.page_id)
            invariant
                0 <= at <= members@.len(),
                members@ == old_members,
                old_pages == pages_of(old_members),
                page == page_of(m),
                forall|j: int| 0 <= j < at ==> lex_lt((#[trigger] old_pages[j]).0, page.0),
            decreases members@.len() - at,
        {
            at = at + 1;
        }
        let same: bool = at < members.len() && bytes_eq(&members[at].page_id, &m.page_id);
        if same {
            let _old = members.remove(at);
        }
        let ghost trimmed = members@;
        members.insert(at, m);
        proof {
            lemma_upserted(old_pages, pages_of(members@), at as int, same, page, old_members, trimmed, members@);
        }
        let h = leaf_hash(&members);
        self.leaf_members.set(bucket, members);
        self.leaves.set(bucket, h);
        proof {
            assert forall|b: int| 0 <= b < LEAVES && b != bucket implies #[trigger] self.pages(b)
                == before.pages(b) by {
                assert(self.leaf_members@[b] == before.leaf_members@[b]);
            }
            assert forall|b: int| 0 <= b < LEAVES implies (#[trigger] self.leaves@[b]).0@ == leaf_hash_of(
                self.pages(b),
            ) by {
                if b != bucket {
                    assert(self.leaves@[b] == before.leaves@[b]);
                    assert(self.pages(b) == before.pages(b));
                }
            }
            assert forall|b: int, p: Page|
                0 <= b < LEAVES && #[trigger] self.pages(b).contains(p) implies bucket_of(p.0) == b by {
                if b != bucket {
                    assert(self.pages(b) == before.pages(b));
                    assert(before.pages(b).contains(p));
                } else if p != page {
                    assert(before.pages(b).contains(p));
                }
            }
        }
    }

    /// Takes a page out, where it is there.
    pub fn remove(&mut self, page_id: &[u8])
        requires
            old(self).wf(),
        ensures
            final(self).wf(),
            forall|b: int|
                0 <= b < LEAVES && b != bucket_of(page_id@) ==> #[trigger] final(self).pages(b) == old(
                    self,
                ).pages(b),
            forall|p: Page| #[trigger]
                final(self).pages(bucket_of(page_id@)).contains(p) <==> old(self).pages(
                    bucket_of(page_id@),
                ).contains(p) && p.0 != page_id@,
    {
        let bucket: usize = bucket_for(page_id);
        let ghost before = *self;
        let ghost old_members = self.leaf_members@[bucket as int]@;
        let ghost old_pages = self.pages(bucket as int);
        let mut members: Vec<LeafMember> = Vec::new();
        std::mem::swap(&mut members, &mut self.leaf_members[bucket]);
        let mut at: usize = 0;
        while at < members.len() && !bytes_eq(&members[at].page_id, page_id)
            invariant
                0 <= at <= members@.len(),
                members@ == old_members,
                old_pages == pages_of(old_members),
                forall|j: int| 0 <= j < at ==> (#[trigger] old_pages[j]).0 != page_id@,
            decreases members@.len() - at,
        {
            at = at + 1;
        }
        let found: bool = at < members.len();
        if found {
            let _old = members.remove(at);
        }
        proof {
            lemma_removed(old_pages, pages_of(members@), at as int, found, page_id@, old_members, members@);
        }
        let h = leaf_hash(&members);
        self.leaf_members.set(bucket, members);
        self.leaves.set(bucket, h);
        proof {
            assert forall|b: int| 0 <= b < LEAVES && b != bucket implies #[trigger] self.pages(b)
                == before.pages(b) by {
                assert(self.leaf_members@[b] == before.leaf_members@[b]);
            }
            assert forall|b: int| 0 <= b < LEAVES implies (#[trigger] self.leaves@[b]).0@ == leaf_hash_of(
                self.pages(b),
            ) by {
                if b != bucket {
                    assert(self.leaves@[b] == before.leaves@[b]);
                    assert(self.pages(b) == before.pages(b));
                }
            }
            assert forall|b: int, p: Page|
                0 <= b < LEAVES && #[trigger] self.pages(b).contains(p) implies bucket_of(p.0) == b by {
                if b != bucket {
                    assert(self.pages(b) == before.pages(b));
                }
                assert(before.pages(b).contains(p));
            }
        }
    }

    /// The root of the tree.
    pub fn root(&self) -> (r: BlakeHash)
        requires
            self.wf(),
        ensures
            r.0@ == root_of(self.leaf_hashes()),
    {
        root_of_leaves(&self.leaves)
    }

    /// The leaves that differ from those of another tree, in order. Where one row is longer, the
    /// rest of it is not looked at.
    pub fn divergent_leaves(&self, remote_leaves: &[BlakeHash]) -> (r: Vec<usize>)
        requires
            self.wf(),
        ensures
            r@ == divergent(self.leaf_hashes(), hash_views(remote_leaves@)),
    {
        let ghost a = self.leaf_hashes();
        let ghost b = hash_views(remote_leaves@);
        let mut out: Vec<usize> = Vec::new();
        let mut i: usize = 0;
        while i < self.leaves.len() && i < remote_leaves.len()
            invariant
                0 <= i <= self.leaves@.len(),
                i <= remote_leaves@.len(),
                a == hash_views(self.leaves@),
                b == hash_views(remote_leaves@),
                out@ == divergent_upto(a, b, i as int),
            decreases self.leaves@.len() - i,
        {
            if !bytes_eq(&self.leaves[i].0, &remote_leaves[i].0) {
                out.push(i);
            }
            i = i + 1;
        }
        out
    }

    /// The hashes of the leaves.
    pub fn leaves(&self) -> (r: &Vec<BlakeHash>)
        ensures
            hash_views(r@) == self.leaf_hashes(),
            self.wf() ==> r@.len() == LEAVES,
    {
        &self.leaves
    }

    /// The pages of a leaf, in order.
    pub fn leaf_members(&self, bucket: usize) -> (r: &Vec<LeafMember>)
        requires
            self.wf(),
            bucket < LEAVES,
        ensures
            pages_of(r@) == self.pages(bucket as int),
    {
        &self.leaf_members[bucket]
    }
}

impl Default for MerkleTree {
    fn default() -> (r: Self)
        ensures
            r.wf(),
            forall|b: int| 0 <= b < LEAVES ==> (#[trigger] r.pages(b)).len() == 0,
    {
        MerkleTree::new()
    }
}

/// The positions below `n` at which two rows differ, in order.
pub open spec fn divergent_upto(a: Seq<Seq<u8>>, b: Seq<Seq<u8>>, n: int) -> Seq<usize>
    decreases n,
{
    if n <= 0 {
        Seq::empty()
    } else {
        let head = divergent_upto(a, b, n - 1);
        if a[n - 1] != b[n - 1] {
            head.push((n - 1) as usize)
        } else {
            head
        }
    }
}

/// The positions at which two rows differ, as far as both go.
pub open spec fn divergent(a: Seq<Seq<u8>>, b: Seq<Seq<u8>>) -> Seq<usize> {
    divergent_upto(
        a,
        b,
        if a.len() < b.len() {
            a.len() as int
        } else {
            b.len() as int
        },
    )
}

proof fn lemma_upserted(
    old_pages: Seq<Page>,
    pages: Seq<Page>,
    at: int,
    same: bool,
    page: Page,
    old_members: Seq<LeafMember>,
    trimmed: Seq<LeafMember>,
    members: Seq<LeafMember>,
)
    requires
        pages_increase(old_pages),
        old_pages == pages_of(old_members),
        pages == pages_of(members),
        0 <= at <= old_pages.len(),
        forall|j: int| 0 <= j < at ==> lex_lt((#[trigger] old_pages[j]).0, page.0),
        at < old_pages.len() ==> !lex_lt(old_pages[at].0, page.0),
        same == (at < old_pages.len() && old_pages[at].0 == page.0),
        trimmed == (if same {
            old_members.remove(at)
        } else {
            old_members
        }),
        members.len() == trimmed.len() + 1,
        members == trimmed.insert(at, members[at]),
        page_of(members[at]) == page,
    ensures
        pages_increase(pages),
        forall|p: Page| #[trigger]
            pages.contains(p) <==> p == page || (old_pages.contains(p) && p.0 != page.0),
{
    let shift: int = if same {
        0
    } else {
        1
    };
    assert forall|i: int| 0 <= i < pages.len() && i != at implies #[trigger] pages[i] == old_pages[if i
        < at {
        i
    } else {
        i - shift
    }] by {
        if i < at {
            assert(members[i] == old_members[i]);
        } else {
            assert(members[i] == trimmed[i - 1]);
            if same {
                assert(trimmed[i - 1] == old_members[i]);
            }
        }
    }
    assert(pages[at] == page);
    lemma_lex_irreflexive(page.0);
    assert forall|j: int| at <= j < old_pages.len() && (!same || j > at) implies lex_lt(
        page.0,
        (#[trigger] old_pages[j]).0,
    ) by {
        lemma_lex_total(page.0, old_pages[at].0);
        if j > at {
            assert(lex_lt(old_pages[at].0, old_pages[j].0));
            if !same {
                lemma_lex_transitive(page.0, old_pages[at].0, old_pages[j].0);
            }
        }
    }
    assert forall|i: int, j: int| 0 <= i < j < pages.len() implies lex_lt(
        (#[trigger] pages[i]).0,
        (#[trigger] pages[j]).0,
    ) by {
        let p = if i < at {
            i
        } else {
            i - shift
        };
        let q = if j < at {
            j
        } else {
            j - shift
        };
        if i == at {
            assert(pages[j] == old_pages[q]);
            assert(lex_lt(page.0, old_pages[q].0));
        } else if j == at {
            assert(pages[i] == old_pages[p]);
        } else {
            assert(lex_lt(old_pages[p].0, old_pages[q].0));
        }
    }
    assert forall|p: Page| #[trigger] pages.contains(p) <==> p == page || (old_pages.contains(p) && p.0
        != page.0) by {
        if pages.contains(p) {
            let i = choose|i: int| 0 <= i < pages.len() && pages[i] == p;
            if i != at {
                let q = if i < at {
                    i
                } else {
                    i - shift
                };
                assert(old_pages[q] == p);
                if q < at {
                    assert(lex_lt(old_pages[q].0, page.0));
                } else {
                    assert(lex_lt(page.0, old_pages[q].0));
                }
            }
        }
        if p == page {
            assert(pages[at] == p);
        }
        if old_pages.contains(p) && p.0 != page.0 {
            let q = choose|q: int| 0 <= q < old_pages.len() && old_pages[q] == p;
            let i = if q < at {
                q
            } else {
                q + shift
            };
            assert(pages[i] == old_pages[q]);
        }
    }
}

proof fn lemma_removed(
    old_pages: Seq<Page>,
    pages: Seq<Page>,
    at: int,
    found: bool,
    id: Seq<u8>,
    old_members: Seq<LeafMember>,
    members: Seq<LeafMember>,
)
    requires
        pages_increase(old_pages),
        old_pages == pages_of(old_members),
        pages == pages_of(members),
        0 <= at <= old_pages.len(),
        forall|j: int| 0 <= j < at ==> (#[trigger] old_pages[j]).0 != id,
        found == (at < old_pages.len()),
        found ==> old_pages[at].0 == id,
        members == (if found {
            old_members.remove(at)
        } else {
            old_members
        }),
    ensures
        pages_increase(pages),
        forall|p: Page| #[trigger] pages.contains(p) <==> old_pages.contains(p) && p.0 != id,
{
    let shift: int = if found {
        1
    } else {
        0
    };
    lemma_lex_irreflexive(id);
    assert forall|i: int| 0 <= i < pages.len() implies #[trigger] pages[i] == old_pages[if i < at {
        i
    } else {
        i + shift
    }] by {
        if i < at {
            assert(members[i] == old_members[i]);
        } else {
            assert(members[i] == old_members[i + shift]);
        }
    }
    assert forall|i: int, j: int| 0 <= i < j < pages.len() implies lex_lt(
        (#[trigger] pages[i]).0,
        (#[trigger] pages[j]).0,
    ) by {
        let p = if i < at {
            i
        } else {
            i + shift
        };
        let q = if j < at {
            j
        } else {
            j + shift
        };
        assert(lex_lt(old_pages[p].0, old_pages[q].0));
    }
    assert forall|p: Page| #[trigger] pages.contains(p) <==> old_pages.contains(p) && p.0 != id by {
        if pages.contains(p) {
            let i = choose|i: int| 0 <= i < pages.len() && pages[i] == p;
            let q = if i < at {
                i
            } else {
                i + shift
            };
            assert(old_pages[q] == p);
            if q > at {
                assert(lex_lt(old_pages[at].0, old_pages[q].0));
            }
        }
        if old_pages.contains(p) && p.0 != id {
            let q = choose|q: int| 0 <= q < old_pages.len() && old_pages[q] == p;
            let i = if q < at {
                q
            } else {
                q - shift
            };
            assert(pages[i] == old_pages[q]);
        }
    }
}

/// What the hash of a leaf is: that of its pages, in order; and every page stands in the leaf where
/// it falls.
pub proof fn lemma_leaf_hash(t: MerkleTree, b: int)
    requires
        t.wf(),
        0 <= b < LEAVES,
    ensures
        t.leaf_hashes().len() == LEAVES,
        t.leaf_hashes()[b] == leaf_hash_of(t.pages(b)),
        pages_increase(t.pages(b)),
        forall|p: Page| #[trigger] t.pages(b).contains(p) ==> bucket_of(p.0) == b,
{
    assert(t.leaf_hashes()[b] == t.leaves@[b].0@);
}

/// Trees with the same pages have the same leaves and the same root, however the pages came in.
pub proof fn lemma_same_pages_same_root(a: MerkleTree, b: MerkleTree)
    requires
        a.wf(),
        b.wf(),
        forall|l: int, p: Page|
            0 <= l < LEAVES ==> (#[trigger] a.pages(l).contains(p) <==> b.pages(l).contains(p)),
    ensures
        a.leaf_hashes() == b.leaf_hashes(),
        root_of(a.leaf_hashes()) == root_of(b.leaf_hashes()),
{
    assert forall|l: int| 0 <= l < LEAVES implies a.leaf_hashes()[l] == b.leaf_hashes()[l] by {
        assert forall|p: Page| #[trigger] a.pages(l).contains(p) <==> b.pages(l).contains(p) by {}
        assert(pages_increase(a.pages(l)) && pages_increase(b.pages(l)));
        lemma_ordered_pages_unique(a.pages(l), b.pages(l));
        assert(a.leaves@[l].0@ == leaf_hash_of(a.pages(l)));
        assert(b.leaves@[l].0@ == leaf_hash_of(b.pages(l)));
    }
    assert(a.leaf_hashes() =~= b.leaf_hashes());
}

proof fn lemma_divergent_empty(a: Seq<Seq<u8>>, b: Seq<Seq<u8>>, n: int)
    requires
        0 <= n <= a.len(),
        n <= b.len(),
        n <= usize::MAX,
    ensures
        divergent_upto(a, b, n).len() == 0 <==> forall|i: int| 0 <= i < n ==> a[i] == b[i],
        forall|x: usize| #[trigger]
            divergent_upto(a, b, n).contains(x) <==> x < n && a[x as int] != b[x as int],
    decreases n,
{
    let d = divergent_upto(a, b, n);
    if n > 0 {
        let head = divergent_upto(a, b, n - 1);
        lemma_divergent_empty(a, b, n - 1);
        assert forall|x: usize| #[trigger] d.contains(x) <==> x < n && a[x as int] != b[x as int] by {
            if d.contains(x) {
                let k = choose|k: int| 0 <= k < d.len() && d[k] == x;
                if k < head.len() {
                    assert(head[k] == x);
                    assert(head.contains(x));
                }
            }
            if x < n && a[x as int] != b[x as int] {
                if x < n - 1 {
                    assert(head.contains(x));
                    let k = choose|k: int| 0 <= k < head.len() && head[k] == x;
                    assert(d[k] == x);
                } else {
                    assert(d[d.len() - 1] == x);
                }
            }
        }
    }
}

/// Rows of the same length differ nowhere exactly where they are equal, and then have one root; and
/// what `divergent` lists are the positions at which they differ.
pub proof fn lemma_divergence(a: Seq<Seq<u8>>, b: Seq<Seq<u8>>)
    requires
        a.len() == b.len(),
        a.len() <= usize::MAX,
    ensures
        divergent(a, b).len() == 0 <==> a == b,
        divergent(a, b).len() == 0 ==> root_of(a) == root_of(b),
        forall|x: usize| #[trigger]
            divergent(a, b).contains(x) <==> x < a.len() && a[x as int] != b[x as int],
{
    lemma_divergent_empty(a, b, a.len() as int);
    if divergent(a, b).len() == 0 {
        assert(a =~= b);
    }
    assert(divergent(a, b) == divergent_upto(a, b, a.len() as int));
}

/// The bytes of one page in what a leaf's hash covers.
spec fn page_bytes(p: Page) -> Seq<u8> {
    be32((p.0.len() % 0x1_0000_0000) as u32) + p.0 + be64(p.1) + p.2.0@
}

proof fn lemma_leaf_input_first(pages: Seq<Page>)
    requires
        pages.len() > 0,
    ensures
        leaf_input(pages) == page_bytes(pages[0]) + leaf_input(pages.drop_first()),
    decreases pages.len(),
{
    let rest = pages.drop_first();
    if pages.len() == 1 {
        assert(pages.drop_last() =~= Seq::<Page>::empty());
        assert(rest =~= Seq::<Page>::empty());
        assert(leaf_input(pages.drop_last()) =~= Seq::<u8>::empty());
        assert(leaf_input(rest) =~= Seq::<u8>::empty());
        assert(leaf_input(pages) =~= page_bytes(pages[0]) + leaf_input(rest));
    } else {
        lemma_leaf_input_first(pages.drop_last());
        assert(pages.drop_last().drop_first() =~= rest.drop_last());
        assert(rest.last() == pages.last());
        assert(leaf_input(pages) =~= page_bytes(pages[0]) + leaf_input(rest));
    }
}

proof fn lemma_page_bytes_split(p: Page, x: Seq<u8>)
    ensures
        ({
            let s = page_bytes(p) + x;
            let n = p.0.len() as int;
            &&& s.len() == 44 + n + x.len()
            &&& s.take(4) == be32((p.0.len() % 0x1_0000_0000) as u32)
            &&& s.subrange(4, 4 + n) == p.0
            &&& s.subrange(4 + n, 12 + n) == be64(p.1)
            &&& s.subrange(12 + n, 44 + n) == p.2.0@
            &&& s.skip(44 + n) == x
        }),
{
    lemma_be32_round_trip((p.0.len() % 0x1_0000_0000) as u32);
    lemma_be64_round_trip(p.1);
    let s = page_bytes(p) + x;
    let n = p.0.len() as int;
    assert(s.take(4) =~= be32((p.0.len() % 0x1_0000_0000) as u32));
    assert(s.subrange(4, 4 + n) =~= p.0);
    assert(s.subrange(4 + n, 12 + n) =~= be64(p.1));
    assert(s.subrange(12 + n, 44 + n) =~= p.2.0@);
    assert(s.skip(44 + n) =~= x);
}

proof fn lemma_first_page_told(p: Page, q: Page, x: Seq<u8>, y: Seq<u8>)
    requires
        page_bytes(p) + x == page_bytes(q) + y,
        p.0.len() < 0x1_0000_0000,
        q.0.len() < 0x1_0000_0000,
    ensures
        p.0 == q.0,
        p.1 == q.1,
        p.2.0@ == q.2.0@,
        x == y,
{
    let s = page_bytes(p) + x;
    let (lp, lq) = ((p.0.len() % 0x1_0000_0000) as u32, (q.0.len() % 0x1_0000_0000) as u32);
    assert(be32(lp) == be32(lq)) by {
        lemma_page_bytes_split(p, x);
        lemma_page_bytes_split(q, y);
    }
    lemma_be32_injective(lp, lq);
    assert(p.0.len() == q.0.len());
    let n = p.0.len() as int;
    assert(p.0 == q.0 && p.2.0@ == q.2.0@ && x == y && be64(p.1) == be64(q.1)) by {
        lemma_page_bytes_split(p, x);
        lemma_page_bytes_split(q, y);
    }
    lemma_be64_injective(p.1, q.1);
}

/// What a leaf's hash covers determines the leaf's pages: leaves whose pages differ in number, order,
/// identifier, version or payload digest are hashed from different bytes.
pub proof fn lemma_leaf_input_tells_pages(a: Seq<Page>, b: Seq<Page>)
    requires
        leaf_input(a) == leaf_input(b),
        forall|i: int| 0 <= i < a.len() ==> (#[trigger] a[i]).0.len() < 0x1_0000_0000,
        forall|i: int| 0 <= i < b.len() ==> (#[trigger] b[i]).0.len() < 0x1_0000_0000,
    ensures
        a.len() == b.len(),
        forall|i: int|
            0 <= i < a.len() ==> (#[trigger] a[i]).0 == (#[trigger] b[i]).0 && a[i].1 == b[i].1
                && a[i].2.0@ == b[i].2.0@,
    decreases a.len(),
{
    if a.len() > 0 {
        lemma_leaf_input_first(a);
        lemma_page_bytes_split(a[0], leaf_input(a.drop_first()));
    }
    if b.len() > 0 {
        lemma_leaf_input_first(b);
        lemma_page_bytes_split(b[0], leaf_input(b.drop_first()));
    }
    if a.len() > 0 && b.len() > 0 {
        let (x, y) = (a.drop_first(), b.drop_first());
        lemma_first_page_told(a[0], b[0], leaf_input(x), leaf_input(y));
        assert forall|i: int| 0 <= i < x.len() implies (#[trigger] x[i]).0.len() < 0x1_0000_0000 by {
            assert(a[i + 1].0.len() < 0x1_0000_0000);
        }
        assert forall|i: int| 0 <= i < y.len() implies (#[trigger] y[i]).0.len() < 0x1_0000_0000 by {
            assert(b[i + 1].0.len() < 0x1_0000_0000);
        }
        lemma_leaf_input_tells_pages(x, y);
        assert forall|i: int| 0 <= i < a.len() implies (#[trigger] a[i]).0 == (#[trigger] b[i]).0
            && a[i].1 == b[i].1 && a[i].2.0@ == b[i].2.0@ by {
            if i > 0 {
                assert(a[i] == x[i - 1] && b[i] == y[i - 1]);
            }
        }
    }
}

/// A leaf that holds pages has the digest of the bytes that tell them, and an empty one zeros.
pub proof fn lemma_leaf_hash_covers_pages(pages: Seq<Page>)
    ensures
        pages.len() == 0 ==> leaf_hash_of(pages) == Seq::new(32, |i: int| 0u8),
        pages.len() > 0 ==> exists|input: Seq<u8>|
            leaf_hash_of(pages) == #[trigger] blake3_digest(input) && (forall|other: Seq<Page>|
                #[trigger] leaf_input(other) == input && (forall|i: int|
                    0 <= i < other.len() ==> (#[trigger] other[i]).0.len() < 0x1_0000_0000) && (
                forall|i: int| 0 <= i < pages.len() ==> (#[trigger] pages[i]).0.len() < 0x1_0000_0000)
                    ==> other.len() == pages.len() && (forall|i: int|
                    0 <= i < pages.len() ==> (#[trigger] other[i]).0 == (#[trigger] pages[i]).0
                        && other[i].1 == pages[i].1 && other[i].2.0@ == pages[i].2.0@)),
{
    if pages.len() > 0 {
        let input = leaf_input(pages);
        assert forall|other: Seq<Page>| #[trigger] leaf_input(other) == input && (forall|i: int|
            0 <= i < other.len() ==> (#[trigger] other[i]).0.len() < 0x1_0000_0000) && (forall|i: int|
            0 <= i < pages.len() ==> (#[trigger] pages[i]).0.len() < 0x1_0000_0000) implies other.len()
            == pages.len() && (forall|i: int|
            0 <= i < pages.len() ==> (#[trigger] other[i]).0 == (#[trigger] pages[i]).0 && other[i].1
                == pages[i].1 && other[i].2.0@ == pages[i].2.0@) by {
            lemma_leaf_input_tells_pages(other, pages);
        }
        assert(leaf_hash_of(pages) == blake3_digest(input));
    }
}

/// A node above a row covers both of its children, the left one first; over an odd row the last one
/// stands for both.
pub proof fn lemma_level_covers_children(nodes: Seq<Seq<u8>>, i: int)
    requires
        0 <= i < nodes.len(),
    ensures
        level_up(nodes).len() * 2 >= nodes.len(),
        level_up(nodes).len() * 2 <= nodes.len() + 1,
        exists|input: Seq<u8>|
            level_up(nodes)[i / 2] == #[trigger] blake3_digest(input) && (if i % 2 == 0 {
                input.take(nodes[i].len() as int) == nodes[i] && (i + 1 < nodes.len() ==> input.skip(
                    nodes[i].len() as int,
                ) == nodes[i + 1]) && (i + 1 == nodes.len() ==> input.skip(nodes[i].len() as int)
                    == nodes[i])
            } else {
                input.take(nodes[i - 1].len() as int) == nodes[i - 1] && input.skip(
                    nodes[i - 1].len() as int,
                ) == nodes[i]
            }),
{
    let l = if i % 2 == 0 {
        i
    } else {
        i - 1
    };
    assert(2 * (i / 2) == l);
    let r = if l + 1 < nodes.len() {
        nodes[l + 1]
    } else {
        nodes[l]
    };
    let input = nodes[l] + r;
    assert(input.take(nodes[l].len() as int) =~= nodes[l]);
    assert(input.skip(nodes[l].len() as int) =~= r);
    assert(level_up(nodes)[i / 2] == blake3_digest(input));
}

/// The root over one node is that node, over more the root over the level above, and over none
/// zeros.
pub proof fn lemma_root_climbs(nodes: Seq<Seq<u8>>)
    ensures
        nodes.len() == 0 ==> root_of(nodes) == Seq::new(32, |i: int| 0u8),
        nodes.len() == 1 ==> root_of(nodes) == nodes[0],
        nodes.len() == 2 ==> root_of(nodes) == blake3_digest(nodes[0] + nodes[1]),
        nodes.len() > 1 ==> root_of(nodes) == root_of(level_up(nodes)),
{
    if nodes.len() == 2 {
        assert(level_up(nodes).len() == 1);
        assert(root_of(level_up(nodes)) == level_up(nodes)[0]);
    }
}

/// A leaf with one page has the digest of the length of the page's identifier, the identifier, the
/// version and the payload's digest.
pub proof fn lemma_leaf_of_one_page(id: Seq<u8>, version: u64, payload: BlakeHash)
    requires
        id.len() < 0x1_0000_0000,
    ensures
        leaf_hash_of(seq![(id, version, payload)]) == blake3_digest(
            be32(id.len() as u32) + id + be64(version) + payload.0@,
        ),
{
    let pages = seq![(id, version, payload)];
    assert(pages.drop_last() =~= Seq::<Page>::empty());
    assert(leaf_input(pages.drop_last()) =~= Seq::<u8>::empty());
    assert(leaf_input(pages) =~= be32(id.len() as u32) + id + be64(version) + payload.0@);
}

/// A page that comes behind the others is hashed behind them.
pub proof fn lemma_leaf_of_more_pages(pages: Seq<Page>, id: Seq<u8>, version: u64, payload: BlakeHash)
    requires
        id.len() < 0x1_0000_0000,
    ensures
        leaf_hash_of(pages.push((id, version, payload))) == blake3_digest(
            leaf_input(pages) + be32(id.len() as u32) + id + be64(version) + payload.0@,
        ),
{
    assert(pages.push((id, version, payload)).drop_last() =~= pages);
}

/// A member's page is its identifier, its version and the digest of its payload; and the rows of
/// pages and of hashes have one for each, in order.
pub proof fn lemma_members_told(m: LeafMember, members: Seq<LeafMember>, hashes: Seq<BlakeHash>, i: int)
    ensures
        page_of(m).0 == m.page_id@,
        page_of(m).1 == m.page_version,
        page_of(m).2 == m.payload_hash,
        pages_of(members).len() == members.len(),
        0 <= i < members.len() ==> pages_of(members)[i].2 == members[i].payload_hash,
        hash_views(hashes).len() == hashes.len(),
        0 <= i < hashes.len() ==> hash_views(hashes)[i] == hashes[i].0@,
{
}

} // verus!
