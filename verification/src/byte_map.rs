//! Ordered maps keyed by byte strings.

use vstd::prelude::*;

use crate::bytes::bytes_eq;
use crate::bytes::bytes_lt;
use crate::bytes::lemma_lex_irreflexive;
use crate::bytes::lemma_lex_total;
use crate::bytes::lemma_lex_transitive;
use crate::bytes::lex_lt;

verus! {

/// Whether the keys of a row of rows strictly increase.
pub open spec fn keys_increase<V>(rows: Seq<(Vec<u8>, V)>) -> bool {
    forall|i: int, j: int| 0 <= i < j < rows.len() ==> lex_lt((#[trigger] rows[i]).0@, (#[trigger] rows[j]).0@)
}

/// Whether some row has this key.
pub open spec fn has_key<V>(rows: Seq<(Vec<u8>, V)>, key: Seq<u8>) -> bool {
    exists|i: int| 0 <= i < rows.len() && (#[trigger] rows[i]).0@ == key
}

/// The position of a row with this key.
pub open spec fn row_of<V>(rows: Seq<(Vec<u8>, V)>, key: Seq<u8>) -> int {
    choose|i: int| 0 <= i < rows.len() && (#[trigger] rows[i]).0@ == key
}

/// The map that rows stand for.
pub open spec fn contents_of<V>(rows: Seq<(Vec<u8>, V)>) -> Map<Seq<u8>, V> {
    Map::new(|k: Seq<u8>| has_key(rows, k), |k: Seq<u8>| rows[row_of(rows, k)].1)
}

pub proof fn lemma_contents_at<V>(rows: Seq<(Vec<u8>, V)>, i: int)
    requires
        keys_increase(rows),
        0 <= i < rows.len(),
    ensures
        contents_of(rows).contains_key(rows[i].0@),
        contents_of(rows)[rows[i].0@] == rows[i].1,
{
    let k = rows[i].0@;
    let p = row_of(rows, k);
    assert(has_key(rows, k));
    if p < i {
        lemma_lex_irreflexive(k);
        assert(lex_lt(rows[p].0@, rows[i].0@));
    }
    if i < p {
        lemma_lex_irreflexive(k);
        assert(lex_lt(rows[i].0@, rows[p].0@));
    }
}

/// A map from byte strings, kept as rows whose keys strictly increase.
pub struct ByteMap<V> {
    pub rows: Vec<(Vec<u8>, V)>,
}

impl<V> ByteMap<V> {
    /// The rows of the map.
    pub open spec fn rows(self) -> Seq<(Vec<u8>, V)> {
        self.rows@
    }

    /// The map that the rows stand for.
    pub open spec fn contents(self) -> Map<Seq<u8>, V> {
        contents_of(self.rows())
    }

    /// Whether the keys are in order.
    pub open spec fn wf(self) -> bool {
        keys_increase(self.rows())
    }

    /// A map without entries.
    pub fn new() -> (r: Self)
        ensures
            r.wf(),
            r.contents() == Map::<Seq<u8>, V>::empty(),
    {
        let t = ByteMap { rows: Vec::new() };
        assert(t.contents() =~= Map::<Seq<u8>, V>::empty());
        t
    }

    /// How many keys the map has.
    pub fn len(&self) -> (r: usize)
        requires
            self.wf(),
        ensures
            self.contents().dom().finite(),
            r == self.contents().dom().len(),
    {
        proof {
            lemma_rows_counted(self.rows());
        }
        self.rows.len()
    }

    /// The position of the first row whose key is not before `key`.
    fn seek(&self, key: &[u8]) -> (r: usize)
        requires
            self.wf(),
        ensures
            r <= self.rows().len(),
            forall|i: int| 0 <= i < r ==> lex_lt((#[trigger] self.rows()[i]).0@, key@),
            r < self.rows().len() ==> !lex_lt(self.rows()[r as int].0@, key@),
    {
        let mut i: usize = 0;
        while i < self.rows.len() && bytes_lt(&self.rows[i].0, key)
            invariant
                0 <= i <= self.rows@.len(),
                forall|j: int| 0 <= j < i ==> lex_lt((#[trigger] self.rows()[j]).0@, key@),
            decreases self.rows@.len() - i,
        {
            i = i + 1;
        }
        i
    }

    /// The value of a key.
    pub fn get(&self, key: &[u8]) -> (r: Option<&V>)
        requires
            self.wf(),
        ensures
            match r {
                Some(v) => self.contents().contains_key(key@) && self.contents()[key@] == *v,
                None => !self.contents().contains_key(key@),
            },
    {
        let at: usize = self.seek(key);
        if at < self.rows.len() && bytes_eq(&self.rows[at].0, key) {
            proof {
                lemma_contents_at(self.rows(), at as int);
            }
            Some(&self.rows[at].1)
        } else {
            proof {
                lemma_absent(self.rows(), key@, at as int);
            }
            None
        }
    }

    /// Sets the value of a key.
    pub fn insert(&mut self, key: Vec<u8>, value: V)
        requires
            old(self).wf(),
        ensures
            final(self).wf(),
            final(self).contents() == old(self).contents().insert(key@, value),
    {
        let at: usize = self.seek(&key);
        let ghost before = self.rows@;
        if at < self.rows.len() && bytes_eq(&self.rows[at].0, &key) {
            let _old: (Vec<u8>, V) = self.rows.remove(at);
            self.rows.insert(at, (key, value));
            proof {
                assert(self.rows@.len() == before.len());
                assert(forall|i: int| 0 <= i < before.len() ==> (#[trigger] self.rows@[i]).0@ == before[i].0@);
                assert(keys_increase(self.rows@)) by {
                    assert forall|i: int, j: int| 0 <= i < j < self.rows@.len() implies lex_lt(
                        (#[trigger] self.rows@[i]).0@,
                        (#[trigger] self.rows@[j]).0@,
                    ) by {
                        assert(lex_lt(before[i].0@, before[j].0@));
                    }
                }
                lemma_updated(before, self.rows@, at as int, true);
            }
        } else {
            proof {
                lemma_absent(before, key@, at as int);
            }
            self.rows.insert(at, (key, value));
            proof {
                lemma_inserted_in_order(before, self.rows@, at as int);
                lemma_updated(before, self.rows@, at as int, false);
            }
        }
    }

    /// Takes a key out, where it is there.
    pub fn remove(&mut self, key: &[u8])
        requires
            old(self).wf(),
        ensures
            final(self).wf(),
            final(self).contents() == old(self).contents().remove(key@),
    {
        let at: usize = self.seek(key);
        let ghost before = self.rows@;
        if at < self.rows.len() && bytes_eq(&self.rows[at].0, key) {
            let _old: (Vec<u8>, V) = self.rows.remove(at);
            proof {
                let after = self.rows@;
                assert forall|i: int| 0 <= i < after.len() implies #[trigger] after[i] == before[if i
                    < at {
                    i
                } else {
                    i + 1
                }] by {}
                assert(keys_increase(after)) by {
                    assert forall|i: int, j: int| 0 <= i < j < after.len() implies lex_lt(
                        (#[trigger] after[i]).0@,
                        (#[trigger] after[j]).0@,
                    ) by {
                        let p = if i < at {
                            i
                        } else {
                            i + 1
                        };
                        let q = if j < at {
                            j
                        } else {
                            j + 1
                        };
                        assert(lex_lt(before[p].0@, before[q].0@));
                    }
                }
                let want = contents_of(before).remove(key@);
                let got = contents_of(after);
                assert forall|k: Seq<u8>| #[trigger] got.contains_key(k) <==> want.contains_key(k) by {
                    if got.contains_key(k) {
                        let i = choose|i: int| 0 <= i < after.len() && (#[trigger] after[i]).0@ == k;
                        let p = if i < at {
                            i
                        } else {
                            i + 1
                        };
                        lemma_contents_at(before, p);
                        lemma_lex_irreflexive(k);
                        if p < at {
                            assert(lex_lt(before[p].0@, before[at as int].0@));
                        } else {
                            assert(lex_lt(before[at as int].0@, before[p].0@));
                        }
                    }
                    if want.contains_key(k) {
                        let p = choose|p: int| 0 <= p < before.len() && (#[trigger] before[p]).0@ == k;
                        let i = if p < at {
                            p
                        } else {
                            p - 1
                        };
                        assert(after[i].0@ == k);
                    }
                }
                assert forall|k: Seq<u8>| #[trigger] got.contains_key(k) implies got[k] == want[k] by {
                    let i = choose|i: int| 0 <= i < after.len() && (#[trigger] after[i]).0@ == k;
                    lemma_contents_at(after, i);
                    let p = if i < at {
                        i
                    } else {
                        i + 1
                    };
                    lemma_contents_at(before, p);
                    assert(want.contains_key(k));
                }
                assert(got =~= want);
            }
        } else {
            proof {
                lemma_absent(before, key@, at as int);
                assert(self.contents() =~= old(self).contents().remove(key@));
            }
        }
    }
}

proof fn lemma_rows_counted<V>(rows: Seq<(Vec<u8>, V)>)
    requires
        keys_increase(rows),
    ensures
        contents_of(rows).dom().finite(),
        contents_of(rows).dom().len() == rows.len(),
{
    let keys = rows.map_values(|row: (Vec<u8>, V)| row.0@);
    assert(keys.no_duplicates()) by {
        assert forall|i: int, j: int| 0 <= i < keys.len() && 0 <= j < keys.len() && i != j implies keys[i]
            != keys[j] by {
            lemma_lex_irreflexive(keys[i]);
            if i < j {
                assert(lex_lt(rows[i].0@, rows[j].0@));
            } else {
                assert(lex_lt(rows[j].0@, rows[i].0@));
            }
        }
    }
    keys.unique_seq_to_set();
    assert(contents_of(rows).dom() =~= keys.to_set()) by {
        assert forall|k: Seq<u8>| #[trigger] contents_of(rows).dom().contains(k) <==> keys.to_set().contains(k) by {
            if has_key(rows, k) {
                let i = choose|i: int| 0 <= i < rows.len() && (#[trigger] rows[i]).0@ == k;
                assert(keys[i] == k);
            }
            if keys.contains(k) {
                let i = choose|i: int| 0 <= i < keys.len() && keys[i] == k;
                assert(rows[i].0@ == k);
            }
        }
    }
}

proof fn lemma_absent<V>(rows: Seq<(Vec<u8>, V)>, key: Seq<u8>, at: int)
    requires
        keys_increase(rows),
        0 <= at <= rows.len(),
        forall|i: int| 0 <= i < at ==> lex_lt((#[trigger] rows[i]).0@, key),
        at < rows.len() ==> !lex_lt(rows[at].0@, key) && rows[at].0@ != key,
    ensures
        !has_key(rows, key),
        forall|i: int| at <= i < rows.len() ==> lex_lt(key, (#[trigger] rows[i]).0@),
{
    lemma_lex_irreflexive(key);
    if at < rows.len() {
        lemma_lex_total(key, rows[at].0@);
    }
    assert forall|i: int| at <= i < rows.len() implies lex_lt(key, (#[trigger] rows[i]).0@) by {
        if i > at {
            assert(lex_lt(rows[at].0@, rows[i].0@));
            lemma_lex_transitive(key, rows[at].0@, rows[i].0@);
        }
    }
    assert forall|i: int| 0 <= i < rows.len() implies (#[trigger] rows[i]).0@ != key by {
        if i < at {
            assert(lex_lt(rows[i].0@, key));
        } else {
            assert(lex_lt(key, rows[i].0@));
        }
    }
}

proof fn lemma_inserted_in_order<V>(before: Seq<(Vec<u8>, V)>, after: Seq<(Vec<u8>, V)>, at: int)
    requires
        keys_increase(before),
        0 <= at <= before.len(),
        after == before.insert(at, after[at]),
        after.len() == before.len() + 1,
        forall|i: int| 0 <= i < at ==> lex_lt((#[trigger] before[i]).0@, after[at].0@),
        forall|i: int| at <= i < before.len() ==> lex_lt(after[at].0@, (#[trigger] before[i]).0@),
    ensures
        keys_increase(after),
{
    assert forall|i: int, j: int| 0 <= i < j < after.len() implies lex_lt(
        (#[trigger] after[i]).0@,
        (#[trigger] after[j]).0@,
    ) by {
        if i < at {
            assert(after[i] == before[i]);
        } else if i > at {
            assert(after[i] == before[i - 1]);
        }
        if j < at {
            assert(after[j] == before[j]);
        } else if j > at {
            assert(after[j] == before[j - 1]);
        }
        if i != at && j != at {
            let p = if i < at {
                i
            } else {
                i - 1
            };
            let q = if j < at {
                j
            } else {
                j - 1
            };
            assert(lex_lt(before[p].0@, before[q].0@));
        }
    }
}

proof fn lemma_updated<V>(before: Seq<(Vec<u8>, V)>, after: Seq<(Vec<u8>, V)>, at: int, replaced: bool)
    requires
        keys_increase(before),
        keys_increase(after),
        0 <= at < after.len(),
        replaced ==> after.len() == before.len() && before[at].0@ == after[at].0@ && forall|i: int|
            0 <= i < after.len() && i != at ==> #[trigger] after[i] == before[i],
        !replaced ==> after.len() == before.len() + 1 && after == before.insert(at, after[at]),
    ensures
        contents_of(after) == contents_of(before).insert(after[at].0@, after[at].1),
{
    let key = after[at].0@;
    let want = contents_of(before).insert(key, after[at].1);
    let got = contents_of(after);
    lemma_contents_at(after, at);
    assert forall|k: Seq<u8>| #[trigger] got.contains_key(k) <==> want.contains_key(k) by {
        if got.contains_key(k) {
            let i = choose|i: int| 0 <= i < after.len() && (#[trigger] after[i]).0@ == k;
            if i != at {
                let p = if replaced || i < at {
                    i
                } else {
                    i - 1
                };
                assert(before[p] == after[i]);
                assert(has_key(before, k));
            }
        }
        if want.contains_key(k) && k != key {
            let p = choose|p: int| 0 <= p < before.len() && (#[trigger] before[p]).0@ == k;
            let i = if replaced || p < at {
                p
            } else {
                p + 1
            };
            assert(after[i] == before[p]);
        }
    }
    assert forall|k: Seq<u8>| #[trigger] got.contains_key(k) implies got[k] == want[k] by {
        let i = choose|i: int| 0 <= i < after.len() && (#[trigger] after[i]).0@ == k;
        lemma_contents_at(after, i);
        if k != key {
            let p = if replaced || i < at {
                i
            } else {
                i - 1
            };
            assert(before[p] == after[i]);
            lemma_contents_at(before, p);
        }
    }
    assert(got =~= want);
}

} // verus!
