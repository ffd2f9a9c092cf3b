//! Conflict-free replicated field types: registers, observed-remove sets and counters.

use std::collections::BTreeMap;
use std::collections::BTreeSet;

use vstd::prelude::*;
use vstd::std_specs::cmp::PartialEqSpec;

use crate::ordered::increasing;
use crate::ordered::keys_of;
use crate::ordered::lemma_key_order_unique;
use crate::ordered::lemma_keys_of;
use crate::ordered::lists_keys;
use crate::ordered::sorted_keys;
use crate::types::DeviceId;
use crate::types::Hlc;

verus! {

broadcast use {
    vstd::std_specs::btree::group_btree_axioms,
    vstd::laws_cmp::group_laws_cmp,
};

/// Orders writes: by clock, then by device.
pub open spec fn stamp_before(a: (Hlc, DeviceId), b: (Hlc, DeviceId)) -> bool {
    a.0.before(b.0) || (a.0 == b.0 && a.1.0 < b.1.0)
}

fn stamp_is_before(a: (Hlc, DeviceId), b: (Hlc, DeviceId)) -> (r: bool)
    ensures
        r == stamp_before(a, b),
{
    a.0.is_before(&b.0) || (a.0 == b.0 && a.1.0 < b.1.0)
}

/// A last-writer-wins register: a value and the stamp of the write that set it.
#[derive(Clone, PartialEq, Eq, Debug)]
pub struct LwwRegister<T> {
    pub value: T,
    pub hlc: Hlc,
    pub device_id: DeviceId,
}

impl<T> LwwRegister<T> {
    /// A register that holds one write.
    pub fn new(value: T, hlc: Hlc, device_id: DeviceId) -> (r: Self)
        ensures
            r == (LwwRegister { value, hlc, device_id }),
    {
        LwwRegister { value, hlc, device_id }
    }

    /// The stamp of the write that the register holds.
    pub open spec fn stamp(self) -> (Hlc, DeviceId) {
        (self.hlc, self.device_id)
    }

    /// The winner of two writes: the later stamp, and the left one where the stamps are equal.
    pub open spec fn merged(self, other: Self) -> Self {
        if stamp_before(self.stamp(), other.stamp()) {
            other
        } else {
            self
        }
    }

    /// Merges two registers.
    pub fn merge(self, other: Self) -> (r: Self)
        ensures
            r == self.merged(other),
            r == self || r == other,
            other.hlc.physical > self.hlc.physical ==> r == other,
            other.hlc.physical < self.hlc.physical ==> r == self,
    {
        if stamp_is_before((self.hlc, self.device_id), (other.hlc, other.device_id)) {
            other
        } else {
            self
        }
    }
}

/// Whether writes with one stamp are one write.
pub open spec fn stamps_unique<T>(s: Seq<LwwRegister<T>>) -> bool {
    forall|i: int, j: int|
        0 <= i < s.len() && 0 <= j < s.len() && (#[trigger] s[i]).stamp() == (#[trigger] s[j]).stamp()
            ==> s[i] == s[j]
}

/// Merging a register with itself changes nothing.
pub proof fn lemma_lww_idempotent<T>(a: LwwRegister<T>)
    ensures
        a.merged(a) == a,
{
}

/// Two registers merge to the same value in either order, unless two different writes carry one
/// stamp.
pub proof fn lemma_lww_commutative<T>(a: LwwRegister<T>, b: LwwRegister<T>)
    requires
        a.stamp() == b.stamp() ==> a == b,
    ensures
        a.merged(b) == b.merged(a),
{
}

/// How merges are grouped does not matter.
pub proof fn lemma_lww_associative<T>(a: LwwRegister<T>, b: LwwRegister<T>, c: LwwRegister<T>)
    ensures
        a.merged(b).merged(c) == a.merged(b.merged(c)),
{
}

/// A register after a row of writes has been merged into it, one after the other.
pub open spec fn merge_all<T>(initial: LwwRegister<T>, writes: Seq<LwwRegister<T>>) -> LwwRegister<T>
    decreases writes.len(),
{
    if writes.len() == 0 {
        initial
    } else {
        merge_all(initial, writes.drop_last()).merged(writes.last())
    }
}

proof fn lemma_merge_all_is_latest<T>(initial: LwwRegister<T>, writes: Seq<LwwRegister<T>>)
    ensures
        merge_all(initial, writes) == initial || writes.contains(merge_all(initial, writes)),
        !stamp_before(merge_all(initial, writes).stamp(), initial.stamp()),
        forall|i: int|
            0 <= i < writes.len() ==> !stamp_before(
                merge_all(initial, writes).stamp(),
                (#[trigger] writes[i]).stamp(),
            ),
    decreases writes.len(),
{
    if writes.len() > 0 {
        let head = writes.drop_last();
        lemma_merge_all_is_latest(initial, head);
        let m = merge_all(initial, writes);
        if m == writes.last() {
            assert(writes[writes.len() - 1] == m);
        } else if m != initial {
            let i = choose|i: int| 0 <= i < head.len() && head[i] == m;
            assert(writes[i] == m);
        }
        assert forall|i: int| 0 <= i < writes.len() implies !stamp_before(
            m.stamp(),
            (#[trigger] writes[i]).stamp(),
        ) by {
            if i < head.len() {
                assert(head[i] == writes[i]);
            }
        }
    }
}

/// Replicas that see the same writes, in whatever order, hold the same register, where writes
/// with one stamp are one write.
pub proof fn lemma_lww_converges<T>(
    initial: LwwRegister<T>,
    a: Seq<LwwRegister<T>>,
    b: Seq<LwwRegister<T>>,
)
    requires
        a.to_multiset() == b.to_multiset(),
        stamps_unique(a.push(initial)),
    ensures
        merge_all(initial, a) == merge_all(initial, b),
{
    a.to_multiset_ensures();
    b.to_multiset_ensures();
    lemma_merge_all_is_latest(initial, a);
    lemma_merge_all_is_latest(initial, b);
    let x = merge_all(initial, a);
    let y = merge_all(initial, b);
    let all = a.push(initial);
    assert forall|w: LwwRegister<T>| b.contains(w) implies a.contains(w) by {
        assert(b.to_multiset().count(w) > 0);
        assert(a.to_multiset().count(w) > 0);
    }
    assert forall|w: LwwRegister<T>| a.contains(w) implies b.contains(w) by {
        assert(a.to_multiset().count(w) > 0);
        assert(b.to_multiset().count(w) > 0);
    }
    assert(all[a.len() as int] == initial);
    assert forall|w: LwwRegister<T>| a.contains(w) implies exists|i: int|
        0 <= i < all.len() && all[i] == w by {
        let i = choose|i: int| 0 <= i < a.len() && a[i] == w;
        assert(all[i] == w);
    }
    assert(exists|i: int| 0 <= i < all.len() && all[i] == x);
    assert(exists|i: int| 0 <= i < all.len() && all[i] == y);
    assert(!stamp_before(x.stamp(), y.stamp())) by {
        if y != initial {
            let i = choose|i: int| 0 <= i < a.len() && a[i] == y;
            assert(a[i] == y);
        }
    }
    assert(!stamp_before(y.stamp(), x.stamp())) by {
        if x != initial {
            assert(b.contains(x));
            let i = choose|i: int| 0 <= i < b.len() && b[i] == x;
            assert(b[i] == x);
        }
    }
    assert(x.stamp() == y.stamp());
}

/// A last-writer-wins register that also remembers the value it replaced.
#[derive(Clone, PartialEq, Eq, Debug)]
pub struct LwwSet<T> {
    pub value: T,
    pub previous_value: Option<T>,
    pub hlc: Hlc,
    pub device_id: DeviceId,
}

impl<T> LwwSet<T> {
    /// A register that holds one write and the value before it.
    pub fn new(value: T, previous_value: Option<T>, hlc: Hlc, device_id: DeviceId) -> (r: Self)
        ensures
            r == (LwwSet { value, previous_value, hlc, device_id }),
    {
        LwwSet { value, previous_value, hlc, device_id }
    }
}

/// An observed-remove set. A removal cancels the additions that it names, and no others.
#[derive(Clone, PartialEq, Eq, Debug)]
pub struct OrSet<T> {
    pub adds: BTreeMap<u128, T>,
    pub tombstones: BTreeSet<u128>,
}

impl<T> OrSet<T> {
    /// Whether the addition `id` is there and not removed.
    pub open spec fn live(self, id: u128) -> bool {
        self.adds@.contains_key(id) && !self.tombstones@.contains(id)
    }

    /// The empty set.
    pub fn new() -> (r: Self)
        ensures
            r.adds@ == Map::<u128, T>::empty(),
            r.tombstones@ == Set::<u128>::empty(),
    {
        OrSet { adds: BTreeMap::new(), tombstones: BTreeSet::new() }
    }

    /// Records the addition of a value under an identifier.
    pub fn add(&mut self, add_id: u128, value: T)
        ensures
            final(self).adds@ == old(self).adds@.insert(add_id, value),
            final(self).tombstones@ == old(self).tombstones@,
    {
        self.adds.insert(add_id, value);
    }

    /// Removes the additions with these identifiers, present or still to come.
    pub fn remove(&mut self, observed_add_ids: &[u128])
        ensures
            final(self).adds@ == old(self).adds@,
            final(self).tombstones@ == old(self).tombstones@ + observed_add_ids@.to_set(),
    {
        let ghost start = self.tombstones@;
        let mut i: usize = 0;
        while i < observed_add_ids.len()
            invariant
                0 <= i <= observed_add_ids@.len(),
                self.adds@ == old(self).adds@,
                self.tombstones@ == start + observed_add_ids@.take(i as int).to_set(),
            decreases observed_add_ids@.len() - i,
        {
            let id: u128 = observed_add_ids[i];
            self.tombstones.insert(id);
            proof {
                let a = observed_add_ids@.take(i as int);
                let b = observed_add_ids@.take(i + 1);
                assert(b =~= a.push(id));
                assert forall|x: u128| b.to_set().contains(x) <==> (a.to_set().contains(x) || x
                    == id) by {
                    if a.contains(x) {
                        let k = choose|k: int| 0 <= k < a.len() && a[k] == x;
                        assert(b[k] == x);
                    }
                    if x == id {
                        assert(b[i as int] == x);
                    }
                    if b.contains(x) {
                        let k = choose|k: int| 0 <= k < b.len() && b[k] == x;
                        if k < i {
                            assert(a[k] == x);
                        }
                    }
                }
                assert(self.tombstones@ =~= start + b.to_set());
            }
            i = i + 1;
        }
        assert(observed_add_ids@.take(i as int) =~= observed_add_ids@);
    }

    /// The live additions, in increasing order.
    pub open spec fn live_ids(self) -> Seq<u128> {
        keys_of(self.adds@).filter(|id: u128| !self.tombstones@.contains(id))
    }

    /// The values of the live additions, by increasing identifier.
    pub fn live_values(&self) -> (r: Vec<&T>)
        ensures
            r@.len() == self.live_ids().len(),
            forall|i: int|
                0 <= i < r@.len() ==> *(#[trigger] r@[i]) == self.adds@[self.live_ids()[i]],
    {
        let keys = sorted_keys(&self.adds);
        let ghost is_live = |id: u128| !self.tombstones@.contains(id);
        let mut out: Vec<&T> = Vec::new();
        let mut i: usize = 0;
        while i < keys.len()
            invariant
                0 <= i <= keys@.len(),
                is_live == (|id: u128| !self.tombstones@.contains(id)),
                lists_keys(keys@, self.adds@),
                out@.len() == keys@.take(i as int).filter(is_live).len(),
                forall|p: int|
                    0 <= p < out@.len() ==> *(#[trigger] out@[p]) == self.adds@[keys@.take(
                        i as int,
                    ).filter(is_live)[p]],
            decreases keys@.len() - i,
        {
            let k: u128 = keys[i];
            proof {
                reveal(Seq::filter);
                assert(keys@.take(i + 1).drop_last() =~= keys@.take(i as int));
            }
            if !self.tombstones.contains(&k) {
                if let Some(v) = self.adds.get(&k) {
                    out.push(v);
                }
            }
            i = i + 1;
        }
        assert(keys@.take(i as int) =~= keys@);
        out
    }

    /// Whether a live addition has this value, by the equality of its type.
    pub fn is_member(&self, value: &T) -> (r: bool) where T: PartialEq
        ensures
            T::obeys_eq_spec() ==> r == exists|i: int|
                0 <= i < self.live_ids().len() && self.adds@[#[trigger] self.live_ids()[i]].eq_spec(
                    value,
                ),
    {
        let values = self.live_values();
        let mut i: usize = 0;
        while i < values.len()
            invariant
                0 <= i <= values@.len(),
                values@.len() == self.live_ids().len(),
                forall|p: int|
                    0 <= p < values@.len() ==> *(#[trigger] values@[p])
                        == self.adds@[self.live_ids()[p]],
                T::obeys_eq_spec() ==> forall|p: int|
                    0 <= p < i ==> !self.adds@[#[trigger] self.live_ids()[p]].eq_spec(value),
            decreases values@.len() - i,
        {
            let v: &T = values[i];
            if *v == *value {
                assert(*values@[i as int] == self.adds@[self.live_ids()[i as int]]);
                return true;
            }
            assert(*values@[i as int] == self.adds@[self.live_ids()[i as int]]);
            i = i + 1;
        }
        false
    }

    /// The number of additions less the number of removals. Every removal must name an addition
    /// that is there, or the difference can be negative.
    pub fn len(&self) -> (r: usize)
        requires
            self.tombstones@.len() <= self.adds@.dom().len(),
        ensures
            r == self.adds@.dom().len() - self.tombstones@.len(),
    {
        self.adds.len() - self.tombstones.len()
    }

    /// Whether there are as many removals as additions.
    pub fn is_empty(&self) -> (r: bool)
        requires
            self.tombstones@.len() <= self.adds@.dom().len(),
        ensures
            r == (self.adds@.dom().len() == self.tombstones@.len()),
    {
        self.len() == 0
    }
}

/// The live additions are listed in increasing order, each once, and nothing else is.
pub proof fn lemma_live_ids<T>(s: OrSet<T>)
    requires
        s.adds@.dom().finite(),
    ensures
        increasing(s.live_ids()),
        forall|id: u128| #[trigger] s.live_ids().contains(id) <==> s.live(id),
{
    lemma_keys_of(s.adds@);
    let keys = keys_of(s.adds@);
    let is_live = |id: u128| !s.tombstones@.contains(id);
    lemma_filter_increasing(keys, is_live);
    assert(s.live_ids() == keys.filter(is_live));
    assert forall|id: u128| #[trigger] s.live_ids().contains(id) <==> s.live(id) by {
        if s.live(id) {
            assert(keys.contains(id));
        }
        if keys.contains(id) {
            let i = choose|i: int| 0 <= i < keys.len() && keys[i] == id;
            assert(s.adds@.contains_key(keys[i]));
        }
    }
}

proof fn lemma_filter_increasing(keys: Seq<u128>, keep: spec_fn(u128) -> bool)
    requires
        increasing(keys),
    ensures
        increasing(keys.filter(keep)),
        forall|id: u128| #[trigger] keys.filter(keep).contains(id) <==> keys.contains(id) && keep(id),
    decreases keys.len(),
{
    reveal(Seq::filter);
    let out = keys.filter(keep);
    if keys.len() > 0 {
        let head = keys.drop_last();
        assert(increasing(head)) by {
            assert forall|i: int, j: int| 0 <= i < j < head.len() implies #[trigger] head[i]
                < #[trigger] head[j] by {
                assert(keys[i] < keys[j]);
            }
        }
        lemma_filter_increasing(head, keep);
        let kept = head.filter(keep);
        let last = keys[keys.len() - 1];
        assert forall|id: u128| #[trigger] out.contains(id) <==> keys.contains(id) && keep(id) by {
            if out.contains(id) {
                let i = choose|i: int| 0 <= i < out.len() && out[i] == id;
                if i < kept.len() {
                    assert(kept[i] == id);
                    assert(kept.contains(id));
                    let j = choose|j: int| 0 <= j < head.len() && head[j] == id;
                    assert(keys[j] == id);
                } else {
                    assert(keys[keys.len() - 1] == id);
                }
            }
            if keys.contains(id) && keep(id) {
                let j = choose|j: int| 0 <= j < keys.len() && keys[j] == id;
                if j < head.len() {
                    assert(head[j] == id);
                    assert(kept.contains(id));
                    let i = choose|i: int| 0 <= i < kept.len() && kept[i] == id;
                    assert(out[i] == id);
                } else {
                    assert(out[kept.len() as int] == id);
                }
            }
        }
        assert forall|i: int, j: int| 0 <= i < j < out.len() implies #[trigger] out[i] < #[trigger] out[j] by {
            if j < kept.len() {
                assert(kept[i] < kept[j]);
            } else {
                assert(out[j] == last);
                assert(kept.contains(kept[i]));
                let k = choose|k: int| 0 <= k < head.len() && head[k] == kept[i];
                assert(keys[k] < keys[keys.len() - 1]);
            }
        }
    }
}

/// Where every removal names an addition that is there, `len` counts the live additions.
pub proof fn lemma_or_set_len<T>(s: OrSet<T>)
    requires
        s.adds@.dom().finite(),
        s.tombstones@.subset_of(s.adds@.dom()),
    ensures
        s.adds@.dom().filter(|id: u128| s.live(id)).len() == s.adds@.dom().len()
            - s.tombstones@.len(),
{
    let dom = s.adds@.dom();
    let dead = s.tombstones@;
    vstd::set_lib::lemma_len_subset(dead, dom);
    vstd::set_lib::lemma_set_intersect_union_lens(dom.difference(dead), dead);
    assert(dom.difference(dead) + dead =~= dom);
    assert(dom.difference(dead).intersect(dead) =~= Set::<u128>::empty());
    assert(dom.filter(|id: u128| s.live(id)) =~= dom.difference(dead));
}

impl<T> Default for OrSet<T> {
    fn default() -> (r: Self)
        ensures
            r.adds@ == Map::<u128, T>::empty(),
            r.tombstones@ == Set::<u128>::empty(),
    {
        OrSet::new()
    }
}

/// An operation on an observed-remove set.
pub ghost enum OrOp<T> {
    Add(u128, T),
    Remove(Set<u128>),
}

/// The additions and removals after a row of operations.
pub open spec fn or_apply<T>(ops: Seq<OrOp<T>>) -> (Map<u128, T>, Set<u128>)
    decreases ops.len(),
{
    if ops.len() == 0 {
        (Map::empty(), Set::empty())
    } else {
        let (adds, dead) = or_apply(ops.drop_last());
        match ops.last() {
            OrOp::Add(id, v) => (adds.insert(id, v), dead),
            OrOp::Remove(ids) => (adds, dead + ids),
        }
    }
}

/// Whether no two additions share an identifier but differ in value.
pub open spec fn add_ids_unique<T>(ops: Seq<OrOp<T>>) -> bool {
    forall|id: u128, v: T, w: T|
        #[trigger] ops.contains(OrOp::Add(id, v)) && #[trigger] ops.contains(OrOp::Add(id, w)) ==> v == w
}

proof fn lemma_or_apply<T>(ops: Seq<OrOp<T>>)
    requires
        add_ids_unique(ops),
    ensures
        forall|id: u128|
            #[trigger] or_apply(ops).0.contains_key(id) <==> exists|v: T| ops.contains(OrOp::Add(id, v)),
        forall|id: u128, v: T| #[trigger]
            ops.contains(OrOp::Add(id, v)) ==> or_apply(ops).0[id] == v,
        forall|id: u128|
            #[trigger] or_apply(ops).1.contains(id) <==> exists|ids: Set<u128>| #[trigger]
                ids.contains(id) && ops.contains(OrOp::Remove(ids)),
    decreases ops.len(),
{
    if ops.len() > 0 {
        let head = ops.drop_last();
        assert forall|o: OrOp<T>| #[trigger] ops.contains(o) <==> head.contains(o) || o
            == ops.last() by {
            if head.contains(o) {
                let i = choose|i: int| 0 <= i < head.len() && head[i] == o;
                assert(ops[i] == o);
            }
            if o == ops.last() {
                assert(ops[ops.len() - 1] == o);
            }
            if ops.contains(o) {
                let i = choose|i: int| 0 <= i < ops.len() && ops[i] == o;
                if i < head.len() {
                    assert(head[i] == o);
                }
            }
        }
        assert(add_ids_unique(head)) by {
            assert forall|id: u128, v: T, w: T|
                #[trigger] head.contains(OrOp::Add(id, v)) && #[trigger] head.contains(OrOp::Add(id, w))
                implies v == w by {
                assert(ops.contains(OrOp::Add(id, v)) && ops.contains(OrOp::Add(id, w)));
            }
        }
        lemma_or_apply(head);
        match ops.last() {
            OrOp::Add(id, v) => {
                assert(ops.contains(OrOp::Add(id, v)));
            },
            OrOp::Remove(gone) => {
                assert(ops.contains(OrOp::<T>::Remove(gone)));
            },
        }
        assert forall|id: u128| #[trigger] or_apply(ops).0.contains_key(id) <==> exists|v: T|
            ops.contains(OrOp::Add(id, v)) by {
            if or_apply(head).0.contains_key(id) {
                let v = choose|v: T| head.contains(OrOp::Add(id, v));
                assert(ops.contains(OrOp::Add(id, v)));
            }
        }
        assert forall|id: u128| #[trigger] or_apply(ops).1.contains(id) <==> exists|ids: Set<u128>|
            #[trigger] ids.contains(id) && ops.contains(OrOp::<T>::Remove(ids)) by {
            if or_apply(head).1.contains(id) {
                let ids = choose|ids: Set<u128>| #[trigger] ids.contains(id) && head.contains(
                    OrOp::<T>::Remove(ids),
                );
                assert(ops.contains(OrOp::<T>::Remove(ids)));
            }
        }
    }
}

/// Replicas that see the same additions and removals, in whatever order, hold the same set, where
/// no identifier is used for two values.
pub proof fn lemma_or_set_converges<T>(a: Seq<OrOp<T>>, b: Seq<OrOp<T>>)
    requires
        a.to_multiset() == b.to_multiset(),
        add_ids_unique(a),
    ensures
        or_apply(a) == or_apply(b),
{
    a.to_multiset_ensures();
    b.to_multiset_ensures();
    assert forall|o: OrOp<T>| #[trigger] a.contains(o) <==> b.contains(o) by {
        if a.contains(o) {
            assert(a.to_multiset().count(o) > 0);
            assert(b.to_multiset().count(o) > 0);
        }
        if b.contains(o) {
            assert(b.to_multiset().count(o) > 0);
            assert(a.to_multiset().count(o) > 0);
        }
    }
    assert(add_ids_unique(b)) by {
        assert forall|id: u128, v: T, w: T|
            #[trigger] b.contains(OrOp::Add(id, v)) && #[trigger] b.contains(OrOp::Add(id, w)) implies v
            == w by {
            assert(a.contains(OrOp::Add(id, v)) && a.contains(OrOp::Add(id, w)));
        }
    }
    lemma_or_apply(a);
    lemma_or_apply(b);
    assert forall|id: u128| #[trigger] or_apply(a).0.contains_key(id) <==> or_apply(b).0.contains_key(
        id,
    ) by {
        if or_apply(a).0.contains_key(id) {
            let v = choose|v: T| a.contains(OrOp::Add(id, v));
            assert(b.contains(OrOp::Add(id, v)));
        }
        if or_apply(b).0.contains_key(id) {
            let v = choose|v: T| b.contains(OrOp::Add(id, v));
            assert(a.contains(OrOp::Add(id, v)));
        }
    }
    assert forall|id: u128| #[trigger] or_apply(a).0.contains_key(id) implies or_apply(a).0[id]
        == or_apply(b).0[id] by {
        let v = choose|v: T| a.contains(OrOp::Add(id, v));
        assert(b.contains(OrOp::Add(id, v)));
    }
    assert(or_apply(a).0 =~= or_apply(b).0);
    assert forall|id: u128| #[trigger] or_apply(a).1.contains(id) <==> or_apply(b).1.contains(id) by {
        if or_apply(a).1.contains(id) {
            let ids = choose|ids: Set<u128>| #[trigger] ids.contains(id) && a.contains(
                OrOp::<T>::Remove(ids),
            );
            assert(b.contains(OrOp::<T>::Remove(ids)));
        }
        if or_apply(b).1.contains(id) {
            let ids = choose|ids: Set<u128>| #[trigger] ids.contains(id) && b.contains(
                OrOp::<T>::Remove(ids),
            );
            assert(a.contains(OrOp::<T>::Remove(ids)));
        }
    }
    assert(or_apply(a).1 =~= or_apply(b).1);
}

/// The increments and decrements of one device.
#[derive(Clone, Copy, PartialEq, Eq, Structural, Debug)]
pub struct CounterBucket {
    pub pos: u64,
    pub neg: u64,
}

/// A counter that devices move up and down on their own; its value is the sum over devices.
#[derive(Clone, PartialEq, Eq, Debug)]
pub struct Counter {
    pub buckets: BTreeMap<u128, CounterBucket>,
}

/// `x` cut to the range of `i64`.
pub open spec fn clamp_i64(x: int) -> int {
    if x > i64::MAX {
        i64::MAX as int
    } else if x < i64::MIN {
        i64::MIN as int
    } else {
        x
    }
}

/// A `u64` read as two's complement.
pub open spec fn as_signed(x: u64) -> int {
    if x <= i64::MAX {
        x as int
    } else {
        x - 0x1_0000_0000_0000_0000
    }
}

/// `x + y` cut to the range of `u64`.
pub open spec fn clamp_add(x: u64, y: int) -> u64 {
    if x + y > u64::MAX {
        u64::MAX
    } else {
        (x + y) as u64
    }
}

/// A running sum after one more device: its increments, then its decrements, each cut to the
/// range of `i64`.
pub open spec fn bucket_step(sum: int, b: CounterBucket) -> int {
    clamp_i64(clamp_i64(sum + as_signed(b.pos)) - as_signed(b.neg))
}

/// The sum over the first `n` devices, in the order given.
pub open spec fn bucket_sum(keys: Seq<u128>, m: Map<u128, CounterBucket>, n: int) -> int
    decreases n,
{
    if n <= 0 {
        0
    } else {
        bucket_step(bucket_sum(keys, m, n - 1), m[keys[n - 1]])
    }
}

/// The bucket of a device, empty where it has none.
pub open spec fn bucket_of(m: Map<u128, CounterBucket>, device: u128) -> CounterBucket {
    if m.contains_key(device) {
        m[device]
    } else {
        CounterBucket { pos: 0, neg: 0 }
    }
}

/// A bucket after a change.
pub open spec fn bucket_after(b: CounterBucket, delta: i64) -> CounterBucket {
    if delta >= 0 {
        CounterBucket { pos: clamp_add(b.pos, delta as int), neg: b.neg }
    } else {
        CounterBucket { pos: b.pos, neg: clamp_add(b.neg, -(delta as int)) }
    }
}

fn saturate(x: i128) -> (r: i64)
    ensures
        r == clamp_i64(x as int),
{
    if x > i64::MAX as i128 {
        i64::MAX
    } else if x < i64::MIN as i128 {
        i64::MIN
    } else {
        x as i64
    }
}

fn signed(x: u64) -> (r: i128)
    ensures
        r == as_signed(x),
        i64::MIN <= r <= i64::MAX,
{
    if x <= i64::MAX as u64 {
        x as i128
    } else {
        x as i128 - 0x1_0000_0000_0000_0000
    }
}

impl Default for Counter {
    fn default() -> (r: Self)
        ensures
            r.buckets@ == Map::<u128, CounterBucket>::empty(),
    {
        Counter { buckets: BTreeMap::new() }
    }
}

impl Counter {
    /// The value: the sum over the devices, in increasing order.
    pub open spec fn total(self) -> int {
        let keys = keys_of(self.buckets@);
        bucket_sum(keys, self.buckets@, keys.len() as int)
    }

    /// The value of the counter.
    pub fn value(&self) -> (r: i64)
        ensures
            r == self.total(),
    {
        let keys = sorted_keys(&self.buckets);
        let mut sum: i64 = 0;
        let mut i: usize = 0;
        while i < keys.len()
            invariant
                0 <= i <= keys@.len(),
                lists_keys(keys@, self.buckets@),
                sum == bucket_sum(keys@, self.buckets@, i as int),
            decreases keys@.len() - i,
        {
            let k: u128 = keys[i];
            if let Some(b) = self.buckets.get(&k) {
                let up: i64 = saturate(sum as i128 + signed(b.pos));
                sum = saturate(up as i128 - signed(b.neg));
            }
            i = i + 1;
        }
        sum
    }

    /// Moves the counter by `delta` on behalf of a device.
    pub fn inc(&mut self, device: DeviceId, delta: i64)
        ensures
            final(self).buckets@ == counter_step(old(self).buckets@, (device.0, delta)),
    {
        let mut b: CounterBucket = match self.buckets.get(&device.0) {
            Some(b) => *b,
            None => CounterBucket { pos: 0, neg: 0 },
        };
        if delta >= 0 {
            b.pos = b.pos.saturating_add(delta as u64);
        } else {
            let size: u64 = (-(delta as i128)) as u64;
            b.neg = b.neg.saturating_add(size);
        }
        self.buckets.insert(device.0, b);
    }
}

/// The buckets after one more change.
pub open spec fn counter_step(m: Map<u128, CounterBucket>, change: (u128, i64)) -> Map<
    u128,
    CounterBucket,
> {
    m.insert(change.0, bucket_after(bucket_of(m, change.0), change.1))
}

/// The buckets after a row of changes.
pub open spec fn counter_apply(changes: Seq<(u128, i64)>) -> Map<u128, CounterBucket>
    decreases changes.len(),
{
    if changes.len() == 0 {
        Map::empty()
    } else {
        counter_step(counter_apply(changes.drop_last()), changes.last())
    }
}

proof fn lemma_incs_commute(m: Map<u128, CounterBucket>, a: (u128, i64), b: (u128, i64))
    ensures
        counter_step(counter_step(m, a), b) == counter_step(counter_step(m, b), a),
{
    assert(counter_step(counter_step(m, a), b) =~= counter_step(counter_step(m, b), a));
}

/// A change can be moved to the end of the row.
proof fn lemma_inc_to_end(changes: Seq<(u128, i64)>, at: int)
    requires
        0 <= at < changes.len(),
    ensures
        counter_apply(changes) == counter_apply(changes.remove(at).push(changes[at])),
    decreases changes.len(),
{
    let last = changes.last();
    let moved = changes[at];
    if at == changes.len() - 1 {
        assert(changes.remove(at).push(moved) =~= changes);
    } else {
        let head = changes.drop_last();
        lemma_inc_to_end(head, at);
        let without = head.remove(at);
        let end = changes.remove(at).push(moved);
        assert(head.remove(at).push(moved).drop_last() =~= without);
        assert(end.drop_last() =~= without.push(last));
        assert(without.push(last).drop_last() =~= without);
        assert(head[at] == moved);
        lemma_incs_commute(counter_apply(without), moved, last);
        assert(counter_apply(head) == counter_apply(without.push(moved)));
        assert(without.push(moved).drop_last() =~= without);
        let m = counter_apply(without);
        assert(counter_apply(without.push(moved)) == counter_step(m, moved));
        assert(counter_apply(without.push(last)) == counter_step(m, last));
        assert(counter_apply(changes) == counter_step(counter_step(m, moved), last));
        assert(counter_apply(end) == counter_step(counter_apply(end.drop_last()), moved));
    }
}

/// Replicas that see the same changes, in whatever order, hold the same counter.
pub proof fn lemma_counter_converges(a: Seq<(u128, i64)>, b: Seq<(u128, i64)>)
    requires
        a.to_multiset() == b.to_multiset(),
    ensures
        counter_apply(a) == counter_apply(b),
    decreases a.len(),
{
    a.to_multiset_ensures();
    b.to_multiset_ensures();
    if a.len() == 0 {
        assert(a =~= b);
    } else {
        let x = a.last();
        assert(a.contains(x)) by {
            assert(a[a.len() - 1] == x);
        }
        assert(b.to_multiset().count(x) > 0);
        assert(b.contains(x));
        let at = choose|at: int| 0 <= at < b.len() && b[at] == x;
        let rest = b.remove(at);
        lemma_inc_to_end(b, at);
        assert(rest.push(x).drop_last() =~= rest);
        a.drop_last().to_multiset_ensures();
        rest.to_multiset_ensures();
        assert(a =~= a.drop_last().push(x));
        assert(a.to_multiset() =~= a.drop_last().to_multiset().insert(x));
        assert(rest.to_multiset() =~= b.to_multiset().remove(x));
        assert(a.drop_last().to_multiset() =~= rest.to_multiset());
        lemma_counter_converges(a.drop_last(), rest);
        assert(rest.push(x).last() == x);
    }
}

/// The later write wins: by the clock's physical part, then its logical part, then the device; and
/// of writes with one stamp the one that was there.
pub proof fn lemma_later_write_wins<T>(a: LwwRegister<T>, b: LwwRegister<T>)
    ensures
        a.hlc.physical < b.hlc.physical ==> a.merged(b) == b && b.merged(a) == b,
        a.hlc.physical == b.hlc.physical && a.hlc.logical < b.hlc.logical ==> a.merged(b) == b
            && b.merged(a) == b,
        a.hlc == b.hlc && a.device_id.0 < b.device_id.0 ==> a.merged(b) == b && b.merged(a) == b,
        a.hlc == b.hlc && a.device_id == b.device_id ==> a.merged(b) == a,
{
}

/// Whatever was merged, what is left is one of the writes, and none of them is later.
pub proof fn lemma_merge_all_keeps_latest<T>(initial: LwwRegister<T>, writes: Seq<LwwRegister<T>>, i: int)
    requires
        0 <= i < writes.len(),
    ensures
        merge_all(initial, writes) == initial || writes.contains(merge_all(initial, writes)),
        merge_all(initial, writes).hlc.physical >= initial.hlc.physical,
        merge_all(initial, writes).hlc.physical >= writes[i].hlc.physical,
{
    lemma_merge_all_is_latest(initial, writes);
    assert(!stamp_before(merge_all(initial, writes).stamp(), writes[i].stamp()));
}

/// What was added is in the set until its addition is removed, and what was removed is not.
pub proof fn lemma_or_set_remembers<T>(before: OrSet<T>, added: OrSet<T>, removed: OrSet<T>, id: u128, value: T)
    requires
        added.adds@ == before.adds@.insert(id, value),
        added.tombstones@ == before.tombstones@,
        !before.tombstones@.contains(id),
        removed.adds@ == added.adds@,
        removed.tombstones@ == added.tombstones@.insert(id),
    ensures
        added.live(id),
        added.adds@[id] == value,
        !removed.live(id),
        forall|other: u128| other != id ==> added.live(other) == before.live(other) && #[trigger] removed.live(
            other,
        ) == before.live(other),
{
}

/// The sum of a quantity over a row of keys.
spec fn total_over(keys: Seq<u128>, f: spec_fn(u128) -> int) -> int
    decreases keys.len(),
{
    if keys.len() == 0 {
        0
    } else {
        total_over(keys.drop_last(), f) + f(keys.last())
    }
}

proof fn lemma_total_without(keys: Seq<u128>, f: spec_fn(u128) -> int, p: int)
    requires
        0 <= p < keys.len(),
    ensures
        total_over(keys.remove(p), f) == total_over(keys, f) - f(keys[p]),
    decreases keys.len(),
{
    if p == keys.len() - 1 {
        assert(keys.remove(p) =~= keys.drop_last());
    } else {
        lemma_total_without(keys.drop_last(), f, p);
        assert(keys.remove(p).drop_last() =~= keys.drop_last().remove(p));
        assert(keys.remove(p).last() == keys.last());
    }
}

proof fn lemma_total_agrees(keys: Seq<u128>, f: spec_fn(u128) -> int, g: spec_fn(u128) -> int)
    requires
        forall|i: int| 0 <= i < keys.len() ==> f(#[trigger] keys[i]) == g(keys[i]),
    ensures
        total_over(keys, f) == total_over(keys, g),
    decreases keys.len(),
{
    if keys.len() > 0 {
        let head = keys.drop_last();
        assert forall|i: int| 0 <= i < head.len() implies f(#[trigger] head[i]) == g(head[i]) by {
            assert(head[i] == keys[i]);
        }
        lemma_total_agrees(head, f, g);
        assert(f(keys[keys.len() - 1]) == g(keys[keys.len() - 1]));
    }
}

spec fn net_of(m: Map<u128, CounterBucket>) -> spec_fn(u128) -> int {
    |k: u128| m[k].pos - m[k].neg
}

spec fn gross_of(m: Map<u128, CounterBucket>) -> spec_fn(u128) -> int {
    |k: u128| m[k].pos + m[k].neg
}

proof fn lemma_total_after_step(
    m: Map<u128, CounterBucket>,
    d: u128,
    b: CounterBucket,
    f: spec_fn(u128) -> int,
    g: spec_fn(u128) -> int,
)
    requires
        m.dom().finite(),
        forall|k: u128| k != d ==> #[trigger] f(k) == g(k),
    ensures
        ({
            let after = m.insert(d, b);
            total_over(keys_of(after), g) == total_over(keys_of(m), f) + g(d) - (if m.contains_key(d) {
                f(d)
            } else {
                0
            })
        }),
{
    let after = m.insert(d, b);
    lemma_keys_of(m);
    lemma_keys_of(after);
    let old_keys = keys_of(m);
    let keys = keys_of(after);
    assert(after.contains_key(d));
    assert(keys.contains(d));
    let p = choose|p: int| 0 <= p < keys.len() && keys[p] == d;
    let rest = keys.remove(p);
    lemma_total_without(keys, g, p);
    assert forall|i: int| 0 <= i < rest.len() implies f(#[trigger] rest[i]) == g(rest[i]) by {
        let j = if i < p {
            i
        } else {
            i + 1
        };
        assert(rest[i] == keys[j]);
        if j < p {
            assert(keys[j] < keys[p]);
        } else {
            assert(keys[p] < keys[j]);
        }
    }
    lemma_total_agrees(rest, f, g);
    if m.contains_key(d) {
        assert(lists_keys(keys, m)) by {
            assert forall|i: int| 0 <= i < keys.len() implies m.contains_key(#[trigger] keys[i]) by {
                assert(after.contains_key(keys[i]));
            }
            assert forall|k: u128| #[trigger] m.contains_key(k) implies keys.contains(k) by {
                assert(after.contains_key(k));
            }
        }
        lemma_key_order_unique(keys, old_keys, m);
        lemma_total_without(old_keys, f, p);
    } else {
        assert(lists_keys(rest, m)) by {
            assert forall|i: int, j: int| 0 <= i < j < rest.len() implies #[trigger] rest[i]
                < #[trigger] rest[j] by {
                let x = if i < p {
                    i
                } else {
                    i + 1
                };
                let y = if j < p {
                    j
                } else {
                    j + 1
                };
                assert(keys[x] < keys[y]);
            }
            assert forall|i: int| 0 <= i < rest.len() implies m.contains_key(#[trigger] rest[i]) by {
                let j = if i < p {
                    i
                } else {
                    i + 1
                };
                assert(rest[i] == keys[j]);
                assert(after.contains_key(keys[j]));
                if j < p {
                    assert(keys[j] < keys[p]);
                } else {
                    assert(keys[p] < keys[j]);
                }
            }
            assert forall|k: u128| #[trigger] m.contains_key(k) implies rest.contains(k) by {
                assert(after.contains_key(k));
                let j = choose|j: int| 0 <= j < keys.len() && keys[j] == k;
                let i = if j < p {
                    j
                } else {
                    j - 1
                };
                assert(rest[i] == k);
            }
        }
        lemma_key_order_unique(rest, old_keys, m);
    }
}

/// The sum of changes.
pub open spec fn sum_of(changes: Seq<(u128, i64)>) -> int
    decreases changes.len(),
{
    if changes.len() == 0 {
        0
    } else {
        sum_of(changes.drop_last()) + changes.last().1
    }
}

/// The sum of the sizes of changes.
pub open spec fn size_of_all(changes: Seq<(u128, i64)>) -> int
    decreases changes.len(),
{
    if changes.len() == 0 {
        0
    } else {
        size_of_all(changes.drop_last()) + (if changes.last().1 >= 0 {
            changes.last().1 as int
        } else {
            -(changes.last().1 as int)
        })
    }
}

proof fn lemma_one_of_total(keys: Seq<u128>, f: spec_fn(u128) -> int, p: int)
    requires
        0 <= p < keys.len(),
        forall|i: int| 0 <= i < keys.len() ==> f(#[trigger] keys[i]) >= 0,
    ensures
        f(keys[p]) <= total_over(keys, f),
        0 <= total_over(keys, f),
    decreases keys.len(),
{
    let head = keys.drop_last();
    assert forall|i: int| 0 <= i < head.len() implies f(#[trigger] head[i]) >= 0 by {
        assert(head[i] == keys[i]);
    }
    assert(f(keys[keys.len() - 1]) >= 0);
    if head.len() > 0 {
        lemma_one_of_total(head, f, if p < head.len() {
            p
        } else {
            0
        });
        if p < head.len() {
            assert(head[p] == keys[p]);
        }
    } else {
        assert(total_over(head, f) == 0);
    }
}

proof fn lemma_counter_totals(changes: Seq<(u128, i64)>)
    requires
        size_of_all(changes) <= i64::MAX,
    ensures
        counter_apply(changes).dom().finite(),
        total_over(keys_of(counter_apply(changes)), net_of(counter_apply(changes))) == sum_of(changes),
        total_over(keys_of(counter_apply(changes)), gross_of(counter_apply(changes))) == size_of_all(
            changes,
        ),
        size_of_all(changes) >= 0,
    decreases changes.len(),
{
    let after = counter_apply(changes);
    if changes.len() == 0 {
        assert(after.dom() =~= Set::<u128>::empty());
        lemma_keys_of(after);
        if keys_of(after).len() > 0 {
            assert(after.contains_key(keys_of(after)[0]));
        }
    } else {
        let head = changes.drop_last();
        lemma_size_nonneg(head);
        lemma_counter_totals(head);
        let m = counter_apply(head);
        let (d, delta) = changes.last();
        let b = bucket_after(bucket_of(m, d), delta);
        assert(after == m.insert(d, b));
        lemma_total_after_step(m, d, b, net_of(m), net_of(after));
        lemma_total_after_step(m, d, b, gross_of(m), gross_of(after));
        lemma_keys_of(m);
        if m.contains_key(d) {
            assert(keys_of(m).contains(d));
            let p = choose|p: int| 0 <= p < keys_of(m).len() && keys_of(m)[p] == d;
            lemma_one_of_total(keys_of(m), gross_of(m), p);
        }
    }
}

proof fn lemma_size_nonneg(changes: Seq<(u128, i64)>)
    ensures
        size_of_all(changes) >= 0,
    decreases changes.len(),
{
    if changes.len() > 0 {
        lemma_size_nonneg(changes.drop_last());
    }
}

proof fn lemma_sum_unclamped(keys: Seq<u128>, m: Map<u128, CounterBucket>, n: int)
    requires
        0 <= n <= keys.len(),
        total_over(keys.take(n), gross_of(m)) <= i64::MAX,
    ensures
        bucket_sum(keys, m, n) == total_over(keys.take(n), net_of(m)),
        0 <= total_over(keys.take(n), gross_of(m)),
        -total_over(keys.take(n), gross_of(m)) <= bucket_sum(keys, m, n) <= total_over(
            keys.take(n),
            gross_of(m),
        ),
    decreases n,
{
    if n > 0 {
        assert(keys.take(n).drop_last() =~= keys.take(n - 1));
        assert(keys.take(n).last() == keys[n - 1]);
        lemma_sum_unclamped(keys, m, n - 1);
    }
}

/// A counter's value is the sum of the changes that were made to it, by whichever devices and in
/// whichever order, as long as their sizes together do not leave the range of a number.
pub proof fn lemma_counter_counts(c: Counter, changes: Seq<(u128, i64)>)
    requires
        c.buckets@ == counter_apply(changes),
        size_of_all(changes) <= i64::MAX,
    ensures
        c.total() == sum_of(changes),
{
    lemma_counter_totals(changes);
    let keys = keys_of(c.buckets@);
    assert(keys.take(keys.len() as int) =~= keys);
    lemma_sum_unclamped(keys, c.buckets@, keys.len() as int);
}

} // verus!
