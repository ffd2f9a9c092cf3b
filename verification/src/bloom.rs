//! A salted Bloom filter over chunk digests. Without the salt its bits say nothing about them.

use vstd::prelude::*;

use crate::bytes::of_le64;
use crate::bytes::read_le64;
use crate::crypto::hash::blake3_keyed_digest;
use crate::crypto::hash::keyed_digest;
use crate::types::ChunkHash;

verus! {

/// Why a filter cannot be used.
#[derive(Clone, Copy, PartialEq, Eq, Structural, Debug)]
pub enum BloomError {
    NotSized,
}

/// A Bloom filter.
#[derive(Clone, Debug)]
pub struct BloomFilter {
    bits: Vec<u64>,
    bit_count: usize,
    k_hashes: u32,
    salt: [u8; 32],
}

/// The two hashes of an item: the first two little-endian words of its keyed digest, the second
/// made odd.
pub open spec fn two_hashes(salt: Seq<u8>, item: Seq<u8>) -> (u64, u64) {
    let d = blake3_keyed_digest(salt, item);
    (of_le64(d.subrange(0, 8)), of_le64(d.subrange(8, 16)) | 1u64)
}

/// The position of probe `i` of an item.
pub open spec fn probe(salt: Seq<u8>, item: Seq<u8>, i: int, bit_count: int) -> int {
    let (h1, h2) = two_hashes(salt, item);
    ((h1 + (i * h2) % 0x1_0000_0000_0000_0000) % 0x1_0000_0000_0000_0000) % bit_count
}

fn double_hash(salt: &[u8; 32], item: &[u8]) -> (r: (u64, u64))
    ensures
        r == two_hashes(salt@, item@),
{
    let d = keyed_digest(salt, item);
    (read_le64(&d, 0), read_le64(&d, 8) | 1u64)
}

/// Whether bit `i` of a row of words is set.
pub open spec fn bit_set(words: Seq<u64>, i: int) -> bool {
    (words[i / 64] >> ((i % 64) as u64)) & 1u64 == 1u64
}

proof fn lemma_set_bit(w: u64, b: u64, c: u64)
    requires
        b < 64,
        c < 64,
    ensures
        (((w | (1u64 << b)) >> c) & 1u64 == 1u64) == (b == c || (w >> c) & 1u64 == 1u64),
{
    assert((((w | (1u64 << b)) >> c) & 1u64 == 1u64) == (b == c || (w >> c) & 1u64 == 1u64))
        by (bit_vector)
        requires
            b < 64,
            c < 64,
    ;
}

proof fn lemma_zero_bit(c: u64)
    ensures
        (0u64 >> c) & 1u64 == 0u64,
{
    assert((0u64 >> c) & 1u64 == 0u64) by (bit_vector);
}

impl BloomFilter {
    /// Whether the filter has bits, and a word for every 64 of them.
    pub closed spec fn wf(self) -> bool {
        &&& self.bit_count > 0
        &&& self.bits@.len() * 64 == self.bit_count
    }

    /// How many bits there are.
    pub closed spec fn size(self) -> int {
        self.bit_count as int
    }

    /// How many probes an item has.
    pub closed spec fn hashes(self) -> int {
        self.k_hashes as int
    }

    /// The salt.
    pub closed spec fn salt_bytes(self) -> Seq<u8> {
        self.salt@
    }

    /// The positions that are set.
    pub closed spec fn ones(self) -> Set<int> {
        Set::new(|i: int| 0 <= i < self.bit_count && bit_set(self.bits@, i))
    }

    /// The positions of the probes of an item.
    pub open spec fn probes(self, item: Seq<u8>) -> Set<int> {
        Set::new(
            |p: int|
                exists|i: int|
                    0 <= i < self.hashes() && p == #[trigger] probe(
                        self.salt_bytes(),
                        item,
                        i,
                        self.size(),
                    ),
        )
    }

    /// Whether two filters have one shape and one salt.
    pub open spec fn same_shape(self, other: BloomFilter) -> bool {
        &&& self.size() == other.size()
        &&& self.hashes() == other.hashes()
        &&& self.salt_bytes() == other.salt_bytes()
    }

    /// An empty filter of at least `bits` bits, rounded up to whole words, with `hashes` probes an
    /// item.
    pub fn with_size(bits: usize, hashes: u32, salt: [u8; 32]) -> (r: Self)
        requires
            0 < bits <= usize::MAX - 63,
        ensures
            r.wf(),
            r.size() == (bits + 63) / 64 * 64,
            r.hashes() == hashes,
            r.salt_bytes() == salt@,
            r.ones() == Set::<int>::empty(),
    {
        let words: usize = (bits + 63) / 64;
        let mut v: Vec<u64> = Vec::new();
        let mut i: usize = 0;
        while i < words
            invariant
                0 <= i <= words,
                v@.len() == i,
                forall|j: int| 0 <= j < i ==> v@[j] == 0u64,
            decreases words - i,
        {
            v.push(0u64);
            i = i + 1;
        }
        let f = BloomFilter { bits: v, bit_count: words * 64, k_hashes: hashes, salt };
        proof {
            assert forall|p: int| !f.ones().contains(p) by {
                if 0 <= p < f.bit_count {
                    lemma_zero_bit((p % 64) as u64);
                    assert(f.bits@[p / 64] == 0u64);
                }
            }
            assert(f.ones() =~= Set::<int>::empty());
        }
        f
    }

    fn position(&self, h1: u64, h2: u64, i: u64) -> (r: usize)
        requires
            self.wf(),
        ensures
            r == ((h1 + (i * h2) % 0x1_0000_0000_0000_0000) % 0x1_0000_0000_0000_0000)
                % self.bit_count as int,
            r < self.bit_count,
    {
        let x: u64 = h1.wrapping_add(i.wrapping_mul(h2));
        (x % self.bit_count as u64) as usize
    }

    /// How many positions are set. An estimate of the number of items follows from it.
    pub fn ones_count(&self) -> (r: usize)
        requires
            self.wf(),
        ensures
            self.ones().finite(),
            r == self.ones().len(),
    {
        let mut n: usize = 0;
        let mut i: usize = 0;
        let ghost mut below: Set<int> = Set::empty();
        while i < self.bit_count
            invariant
                self.wf(),
                0 <= i <= self.bit_count,
                n <= i,
                below.finite(),
                below.len() == n,
                forall|p: int| #[trigger] below.contains(p) <==> p < i && self.ones().contains(p),
            decreases self.bit_count - i,
        {
            let set: bool = (self.bits[i / 64] >> ((i % 64) as u64)) & 1u64 == 1u64;
            if set {
                n = n + 1;
                proof {
                    assert(self.ones().contains(i as int));
                    assert(!below.contains(i as int));
                    below = below.insert(i as int);
                }
            }
            i = i + 1;
        }
        assert(below =~= self.ones());
        n
    }

    /// Adds an item: sets the positions of its probes.
    pub fn add(&mut self, h: ChunkHash)
        requires
            old(self).wf(),
        ensures
            final(self).wf(),
            final(self).same_shape(*old(self)),
            final(self).ones() == old(self).ones() + old(self).probes(h.0@),
    {
        let (h1, h2) = double_hash(&self.salt, &h.0);
        let ghost start = *self;
        let mut i: u64 = 0;
        while i < self.k_hashes as u64
            invariant
                self.wf(),
                start == *old(self),
                self.same_shape(start),
                self.bit_count == start.bit_count,
                self.k_hashes == start.k_hashes,
                self.salt@ == start.salt@,
                (h1, h2) == two_hashes(start.salt@, h.0@),
                0 <= i <= self.k_hashes,
                forall|p: int|
                    #[trigger] self.ones().contains(p) <==> start.ones().contains(p) || exists|j: int|
                        0 <= j < i && p == #[trigger] probe(
                            start.salt@,
                            h.0@,
                            j,
                            start.bit_count as int,
                        ),
            decreases self.k_hashes - i,
        {
            let at: usize = self.position(h1, h2, i);
            assert(at == probe(start.salt@, h.0@, i as int, start.bit_count as int));
            let word: usize = at / 64;
            let bit: u64 = (at % 64) as u64;
            let ghost before = *self;
            let w: u64 = self.bits[word];
            self.bits.set(word, w | (1u64 << bit));
            proof {
                assert forall|p: int|
                    #[trigger] self.ones().contains(p) <==> before.ones().contains(p) || p == at by {
                    if 0 <= p < self.bit_count {
                        if p / 64 == word as int {
                            lemma_set_bit(w, bit, (p % 64) as u64);
                            assert(p == at <==> p % 64 == bit);
                        }
                    }
                }
                assert forall|p: int|
                    #[trigger] self.ones().contains(p) <==> start.ones().contains(p) || exists|j: int|
                        0 <= j < i + 1 && p == #[trigger] probe(
                            start.salt@,
                            h.0@,
                            j,
                            start.bit_count as int,
                        ) by {
                    if p == at {
                        assert(p == probe(start.salt@, h.0@, i as int, start.bit_count as int));
                    }
                    assert(self.ones().contains(p) <==> before.ones().contains(p) || p == at);
                }
            }
            i = i + 1;
        }
        assert(self.ones() =~= start.ones() + start.probes(h.0@));
    }

    /// Whether an item may have been added: all its positions are set.
    pub fn contains(&self, h: ChunkHash) -> (r: bool)
        requires
            self.wf(),
        ensures
            r == self.probes(h.0@).subset_of(self.ones()),
    {
        let (h1, h2) = double_hash(&self.salt, &h.0);
        let mut i: u64 = 0;
        while i < self.k_hashes as u64
            invariant
                self.wf(),
                (h1, h2) == two_hashes(self.salt@, h.0@),
                0 <= i <= self.k_hashes,
                forall|j: int|
                    0 <= j < i ==> self.ones().contains(
                        #[trigger] probe(self.salt@, h.0@, j, self.bit_count as int),
                    ),
            decreases self.k_hashes - i,
        {
            let at: usize = self.position(h1, h2, i);
            assert(at == probe(self.salt@, h.0@, i as int, self.bit_count as int));
            let w: u64 = self.bits[at / 64];
            let bit: u64 = (at % 64) as u64;
            if (w >> bit) & 1u64 == 0u64 {
                proof {
                    assert(!self.ones().contains(at as int));
                    assert(self.probes(h.0@).contains(at as int));
                }
                return false;
            }
            proof {
                let x = (w >> bit) & 1u64;
                assert(x == 0u64 || x == 1u64) by (bit_vector)
                    requires
                        x == (w >> bit) & 1u64,
                ;
                assert(self.ones().contains(at as int));
            }
            i = i + 1;
        }
        assert forall|p: int| self.probes(h.0@).contains(p) implies self.ones().contains(p) by {}
        true
    }

    /// How many bits there are.
    pub fn bit_count(&self) -> (r: usize)
        ensures
            r == self.size(),
    {
        self.bit_count
    }

    /// How many probes an item has.
    pub fn k_hashes(&self) -> (r: u32)
        ensures
            r == self.hashes(),
    {
        self.k_hashes
    }

    /// Whether a bit is set.
    pub fn is_set(&self, at: usize) -> (r: bool)
        requires
            self.wf(),
            at < self.size(),
        ensures
            r == self.ones().contains(at as int),
    {
        let w: u64 = self.bits[at / 64];
        (w >> ((at % 64) as u64)) & 1u64 == 1u64
    }
}

/// The positions that are set in a filter after some items have been added to it, one by one.
pub open spec fn ones_after(f: BloomFilter, items: Seq<Seq<u8>>) -> Set<int>
    decreases items.len(),
{
    if items.len() == 0 {
        f.ones()
    } else {
        ones_after(f, items.drop_last()) + f.probes(items.last())
    }
}

/// What has been added is found, whatever is added before or after it: there are no false
/// negatives.
pub proof fn lemma_no_false_negatives(f: BloomFilter, items: Seq<Seq<u8>>, at: int)
    requires
        0 <= at < items.len(),
    ensures
        f.probes(items[at]).subset_of(ones_after(f, items)),
    decreases items.len(),
{
    if at < items.len() - 1 {
        lemma_no_false_negatives(f, items.drop_last(), at);
    }
}

/// Where an item's probes stand: probe `i` is the first word of the item's keyed digest and `i` times
/// the second, made odd, reduced to the filter's size.
pub proof fn lemma_probe_exactly(f: BloomFilter, item: Seq<u8>, i: int)
    requires
        0 <= i < f.hashes(),
    ensures
        ({
            let d = blake3_keyed_digest(f.salt_bytes(), item);
            let first = of_le64(d.subrange(0, 8)) as int;
            let step = (of_le64(d.subrange(8, 16)) | 1u64) as int;
            let at = (first + i * step) % 0x1_0000_0000_0000_0000 % f.size();
            probe(f.salt_bytes(), item, i, f.size()) == at && f.probes(item).contains(at)
        }),
{
    let d = blake3_keyed_digest(f.salt_bytes(), item);
    let first = of_le64(d.subrange(0, 8)) as int;
    let step = (of_le64(d.subrange(8, 16)) | 1u64) as int;
    vstd::arithmetic::div_mod::lemma_add_mod_noop_right(first, i * step, 0x1_0000_0000_0000_0000);
    let p = probe(f.salt_bytes(), item, i, f.size());
    assert(f.probes(item).contains(p));
}

/// An empty filter that probes at all finds nothing.
pub proof fn lemma_empty_filter_finds_nothing(f: BloomFilter, item: Seq<u8>)
    requires
        f.ones() == Set::<int>::empty(),
        f.hashes() > 0,
    ensures
        !f.probes(item).subset_of(f.ones()),
{
    let p = probe(f.salt_bytes(), item, 0, f.size());
    assert(f.probes(item).contains(p));
}

/// A filter finds an item only where every one of its probes was set by something that was added.
pub proof fn lemma_ones_come_from_items(f: BloomFilter, items: Seq<Seq<u8>>, p: int)
    requires
        f.ones() == Set::<int>::empty(),
        ones_after(f, items).contains(p),
    ensures
        exists|i: int| 0 <= i < items.len() && f.probes(#[trigger] items[i]).contains(p),
    decreases items.len(),
{
    if items.len() > 0 {
        if f.probes(items.last()).contains(p) {
            assert(items[items.len() - 1] == items.last());
        } else {
            let head = items.drop_last();
            lemma_ones_come_from_items(f, head, p);
            let i = choose|i: int| 0 <= i < head.len() && f.probes(#[trigger] head[i]).contains(p);
            assert(items[i] == head[i]);
        }
    }
}

} // verus!
