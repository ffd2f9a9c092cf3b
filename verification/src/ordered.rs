//! Ordered maps keyed by 128-bit integers.

use std::collections::BTreeMap;

use vstd::prelude::*;
use vstd::std_specs::cmp::OrdSpec;
use vstd::std_specs::iter::IteratorSpec;

verus! {

broadcast use {
    vstd::std_specs::btree::group_btree_axioms,
    vstd::laws_cmp::group_laws_cmp,
};

/// Whether a row of numbers strictly increases.
pub open spec fn increasing(s: Seq<u128>) -> bool {
    forall|i: int, j: int| 0 <= i < j < s.len() ==> #[trigger] s[i] < #[trigger] s[j]
}

/// Whether `keys` are the keys of `m`, in increasing order.
pub open spec fn lists_keys<V>(keys: Seq<u128>, m: Map<u128, V>) -> bool {
    &&& increasing(keys)
    &&& forall|i: int| 0 <= i < keys.len() ==> m.contains_key(#[trigger] keys[i])
    &&& forall|k: u128| #[trigger] m.contains_key(k) ==> keys.contains(k)
}

/// A map's keys have one increasing order.
pub proof fn lemma_key_order_unique<V>(a: Seq<u128>, b: Seq<u128>, m: Map<u128, V>)
    requires
        lists_keys(a, m),
        lists_keys(b, m),
    ensures
        a == b,
    decreases a.len(),
{
    if a.len() == 0 {
        if b.len() > 0 {
            assert(m.contains_key(b[0]));
            assert(a.contains(b[0]));
        }
        assert(a =~= b);
    } else if b.len() == 0 {
        assert(m.contains_key(a[0]));
        assert(b.contains(a[0]));
    } else {
        let x = a[a.len() - 1];
        let y = b[b.len() - 1];
        assert(m.contains_key(x) && m.contains_key(y));
        assert(b.contains(x) && a.contains(y));
        let i = choose|i: int| 0 <= i < b.len() && b[i] == x;
        let j = choose|j: int| 0 <= j < a.len() && a[j] == y;
        assert(x == y) by {
            if i < b.len() - 1 {
                assert(b[i] < b[b.len() - 1]);
            }
            if j < a.len() - 1 {
                assert(a[j] < a[a.len() - 1]);
            }
        }
        let rest = m.remove(x);
        assert forall|k: u128| #[trigger] rest.contains_key(k) implies a.drop_last().contains(k) by {
            let p = choose|p: int| 0 <= p < a.len() && a[p] == k;
            assert(a.drop_last()[p] == k);
        }
        assert forall|k: u128| #[trigger] rest.contains_key(k) implies b.drop_last().contains(k) by {
            let p = choose|p: int| 0 <= p < b.len() && b[p] == k;
            assert(b.drop_last()[p] == k);
        }
        assert forall|p: int| 0 <= p < a.drop_last().len() implies rest.contains_key(
            #[trigger] a.drop_last()[p],
        ) by {
            assert(a[p] < a[a.len() - 1]);
        }
        assert forall|p: int| 0 <= p < b.drop_last().len() implies rest.contains_key(
            #[trigger] b.drop_last()[p],
        ) by {
            assert(b[p] < b[b.len() - 1]);
        }
        lemma_key_order_unique(a.drop_last(), b.drop_last(), rest);
        assert(a =~= a.drop_last().push(x));
        assert(b =~= b.drop_last().push(y));
    }
}

/// The keys of a map in increasing order.
pub open spec fn keys_of<V>(m: Map<u128, V>) -> Seq<u128> {
    choose|keys: Seq<u128>| lists_keys(keys, m)
}

proof fn lemma_largest(s: Set<u128>) -> (r: u128)
    requires
        s.finite(),
        s.len() > 0,
    ensures
        s.contains(r),
        forall|k: u128| #[trigger] s.contains(k) ==> k <= r,
    decreases s.len(),
{
    let x = s.choose();
    assert(s.contains(x));
    let rest = s.remove(x);
    if rest.len() == 0 {
        assert forall|k: u128| #[trigger] s.contains(k) implies k <= x by {
            if k != x {
                assert(rest.contains(k));
            }
        }
        x
    } else {
        let m = lemma_largest(rest);
        let r = if m < x {
            x
        } else {
            m
        };
        assert forall|k: u128| #[trigger] s.contains(k) implies k <= r by {
            if k != x {
                assert(rest.contains(k));
            }
        }
        r
    }
}

proof fn lemma_keys_listed<V>(m: Map<u128, V>) -> (r: Seq<u128>)
    requires
        m.dom().finite(),
    ensures
        lists_keys(r, m),
    decreases m.dom().len(),
{
    if m.dom().len() == 0 {
        let none = Seq::<u128>::empty();
        assert forall|k: u128| #[trigger] m.contains_key(k) implies none.contains(k) by {
            assert(m.dom().contains(k));
        }
        none
    } else {
        let x = lemma_largest(m.dom());
        let rest = m.remove(x);
        assert(rest.dom() =~= m.dom().remove(x));
        let head = lemma_keys_listed(rest);
        let r = head.push(x);
        assert forall|i: int, j: int| 0 <= i < j < r.len() implies #[trigger] r[i] < #[trigger] r[j] by {
            if j == head.len() {
                assert(rest.contains_key(head[i]));
                assert(m.dom().contains(head[i]));
            }
        }
        assert forall|i: int| 0 <= i < r.len() implies m.contains_key(#[trigger] r[i]) by {
            if i < head.len() {
                assert(rest.contains_key(head[i]));
            }
        }
        assert forall|k: u128| #[trigger] m.contains_key(k) implies r.contains(k) by {
            if k == x {
                assert(r[head.len() as int] == k);
            } else {
                assert(rest.contains_key(k));
                let i = choose|i: int| 0 <= i < head.len() && head[i] == k;
                assert(r[i] == k);
            }
        }
        r
    }
}

/// A finite map has its keys in increasing order.
pub proof fn lemma_keys_of<V>(m: Map<u128, V>)
    requires
        m.dom().finite(),
    ensures
        lists_keys(keys_of(m), m),
{
    let keys = lemma_keys_listed(m);
    assert(lists_keys(keys, m));
}

/// The keys of a map in increasing order.
pub fn sorted_keys<V>(m: &BTreeMap<u128, V>) -> (r: Vec<u128>)
    ensures
        lists_keys(r@, m@),
        r@ == keys_of(m@),
{
    let mut out: Vec<u128> = Vec::new();
    let iter = m.iter();
    let ghost all = iter.remaining();
    proof {
        let ks = all.map_values(|kv: (&u128, &V)| *kv.0);
        assert forall|i: int, j: int| 0 <= i < j < all.len() implies *(#[trigger] all[i]).0 < *(
        #[trigger] all[j]).0 by {
            assert(vstd::std_specs::btree::increasing_seq(ks));
            assert(ks[i] == *all[i].0 && ks[j] == *all[j].0);
            assert(ks[i].cmp_spec(&ks[j]) is Less);
        }
        assert forall|i: int| 0 <= i < all.len() implies m@.contains_key(*(#[trigger] all[i]).0) by {}
        assert forall|k: u128| #[trigger] m@.contains_key(k) implies exists|i: int|
            0 <= i < all.len() && *(#[trigger] all[i]).0 == k by {
            assert(all.contains((&k, &m@[k])));
            let i = choose|i: int| 0 <= i < all.len() && all[i] == (&k, &m@[k]);
            assert(*all[i].0 == k);
        }
    }
    for (k, _v) in it: iter
        invariant
            it.seq() == all,
            out@.len() == it.index(),
            forall|i: int| 0 <= i < it.index() ==> out@[i] == *(#[trigger] all[i]).0,
    {
        out.push(*k);
    }
    proof {
        assert forall|i: int, j: int| 0 <= i < j < out@.len() implies #[trigger] out@[i]
            < #[trigger] out@[j] by {
            assert(*all[i].0 < *all[j].0);
        }
        assert forall|i: int| 0 <= i < out@.len() implies m@.contains_key(#[trigger] out@[i]) by {
            assert(out@[i] == *all[i].0);
        }
        assert forall|k: u128| #[trigger] m@.contains_key(k) implies out@.contains(k) by {
            let i = choose|i: int| 0 <= i < all.len() && *(#[trigger] all[i]).0 == k;
            assert(out@[i] == k);
        }
        assert(lists_keys(out@, m@));
        lemma_key_order_unique(out@, keys_of(m@), m@);
    }
    out
}

} // verus!
