//! One column family: byte-string keys in order, each with its value.

use vstd::prelude::*;

use crate::byte_map::has_key;
use crate::byte_map::keys_increase;
use crate::byte_map::lemma_contents_at;
use crate::byte_map::ByteMap;
use crate::bytes::has_prefix;
use crate::bytes::lex_lt;
use crate::bytes::starts_with;
use crate::bytes::to_vec;

verus! {

/// A key and its value.
pub type Row = (Vec<u8>, Vec<u8>);

/// Whether `rows` are the entries of `m` whose keys begin with `prefix`, by increasing key.
pub open spec fn lists_prefix(rows: Seq<Row>, m: Map<Seq<u8>, Seq<u8>>, prefix: Seq<u8>) -> bool {
    &&& keys_increase(rows)
    &&& forall|i: int|
        0 <= i < rows.len() ==> m.contains_key((#[trigger] rows[i]).0@) && has_prefix(
            rows[i].0@,
            prefix,
        ) && m[rows[i].0@] == rows[i].1@
    &&& forall|k: Seq<u8>| #[trigger]
        m.contains_key(k) && has_prefix(k, prefix) ==> has_key(rows, k)
}

/// A table of rows whose keys strictly increase.
pub struct Table {
    map: ByteMap<Vec<u8>>,
}

impl Table {
    /// The map that the table stands for.
    pub closed spec fn contents(self) -> Map<Seq<u8>, Seq<u8>> {
        self.map.contents().map_values(|v: Vec<u8>| v@)
    }

    /// Whether the keys are in order.
    pub closed spec fn wf(self) -> bool {
        self.map.wf()
    }

    /// A table without rows.
    pub fn new() -> (r: Self)
        ensures
            r.wf(),
            r.contents() == Map::<Seq<u8>, Seq<u8>>::empty(),
    {
        let t = Table { map: ByteMap::new() };
        assert(t.contents() =~= Map::<Seq<u8>, Seq<u8>>::empty());
        t
    }

    /// The value of a key.
    pub fn get(&self, key: &[u8]) -> (r: Option<Vec<u8>>)
        requires
            self.wf(),
        ensures
            match r {
                Some(v) => self.contents().contains_key(key@) && self.contents()[key@] == v@,
                None => !self.contents().contains_key(key@),
            },
    {
        match self.map.get(key) {
            Some(v) => Some(to_vec(v)),
            None => None,
        }
    }

    /// Sets the value of a key.
    pub fn insert(&mut self, key: Vec<u8>, value: Vec<u8>)
        requires
            old(self).wf(),
        ensures
            final(self).wf(),
            final(self).contents() == old(self).contents().insert(key@, value@),
    {
        let ghost k = key@;
        let ghost v = value@;
        self.map.insert(key, value);
        assert(self.contents() =~= old(self).contents().insert(k, v));
    }

    /// Takes a key out, where it is there.
    pub fn remove(&mut self, key: &[u8])
        requires
            old(self).wf(),
        ensures
            final(self).wf(),
            final(self).contents() == old(self).contents().remove(key@),
    {
        self.map.remove(key);
        assert(self.contents() =~= old(self).contents().remove(key@));
    }

    /// The rows whose keys begin with `prefix`, by increasing key.
    pub fn scan(&self, prefix: &[u8]) -> (r: Vec<Row>)
        requires
            self.wf(),
        ensures
            lists_prefix(r@, self.contents(), prefix@),
    {
        let mut out: Vec<Row> = Vec::new();
        let ghost mut from: Seq<int> = Seq::empty();
        let mut i: usize = 0;
        while i < self.map.rows.len()
            invariant
                0 <= i <= self.map.rows@.len(),
                self.wf(),
                out@.len() == from.len(),
                forall|a: int, b: int| 0 <= a < b < from.len() ==> #[trigger] from[a] < #[trigger] from[b],
                forall|a: int| 0 <= a < from.len() ==> 0 <= #[trigger] from[a] < i,
                forall|a: int|
                    0 <= a < out@.len() ==> (#[trigger] out@[a]).0@ == self.map.rows()[from[a]].0@
                        && out@[a].1@ == self.map.rows()[from[a]].1@ && has_prefix(out@[a].0@, prefix@),
                forall|j: int|
                    0 <= j < i && has_prefix((#[trigger] self.map.rows()[j]).0@, prefix@) ==> has_key(
                        out@,
                        self.map.rows()[j].0@,
                    ),
            decreases self.map.rows@.len() - i,
        {
            let ghost before = out@;
            if starts_with(&self.map.rows[i].0, prefix) {
                out.push((to_vec(&self.map.rows[i].0), to_vec(&self.map.rows[i].1)));
                proof {
                    from = from.push(i as int);
                    assert forall|k: Seq<u8>| has_key(before, k) implies has_key(out@, k) by {
                        let p = choose|p: int| 0 <= p < before.len() && (#[trigger] before[p]).0@ == k;
                        assert(out@[p].0@ == k);
                    }
                    assert(out@[before.len() as int].0@ == self.map.rows()[i as int].0@);
                }
            }
            i = i + 1;
        }
        proof {
            let m = self.contents();
            assert forall|a: int, b: int| 0 <= a < b < out@.len() implies lex_lt(
                (#[trigger] out@[a]).0@,
                (#[trigger] out@[b]).0@,
            ) by {
                assert(from[a] < from[b]);
                assert(lex_lt(self.map.rows()[from[a]].0@, self.map.rows()[from[b]].0@));
            }
            assert forall|a: int| 0 <= a < out@.len() implies m.contains_key((#[trigger] out@[a]).0@)
                && m[out@[a].0@] == out@[a].1@ by {
                assert(0 <= from[a] < i);
                lemma_contents_at(self.map.rows(), from[a]);
            }
            assert forall|k: Seq<u8>| #[trigger] m.contains_key(k) && has_prefix(
                k,
                prefix@,
            ) implies has_key(out@, k) by {
                let j = choose|j: int| 0 <= j < self.map.rows().len() && (#[trigger] self.map.rows()[j]).0@ == k;
                assert(has_prefix(self.map.rows()[j].0@, prefix@));
            }
        }
        out
    }
}

/// A listing has a row for each key that begins with the prefix and for no other, with the key's
/// value, and its keys rise.
pub proof fn lemma_listed_exactly(
    rows: Seq<Row>,
    m: Map<Seq<u8>, Seq<u8>>,
    prefix: Seq<u8>,
    rest: Seq<u8>,
    i: int,
)
    requires
        lists_prefix(rows, m, prefix),
    ensures
        m.contains_key(prefix + rest) ==> exists|j: int|
            0 <= j < rows.len() && (#[trigger] rows[j]).0@ == prefix + rest,
        0 <= i < rows.len() ==> m.contains_key(rows[i].0@) && m[rows[i].0@] == rows[i].1@ && exists|
            tail: Seq<u8>,
        | rows[i].0@ == #[trigger] (prefix + tail),
        0 <= i < rows.len() - 1 ==> lex_lt(rows[i].0@, rows[i + 1].0@),
{
    crate::bytes::lemma_prefix_is_beginning(prefix + rest, prefix);
    if m.contains_key(prefix + rest) {
        assert(has_prefix(prefix + rest, prefix));
        assert(has_key(rows, prefix + rest));
    }
    if 0 <= i < rows.len() {
        crate::bytes::lemma_prefix_is_beginning(rows[i].0@, prefix);
        assert(m.contains_key(rows[i].0@));
    }
}

} // verus!
