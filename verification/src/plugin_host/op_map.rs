//! Values kept for each provider and operation.

use std::collections::BTreeMap;

use vstd::prelude::*;

use crate::ordered::lists_keys;
use crate::ordered::sorted_keys;
use crate::types::ProviderId;

verus! {

broadcast use {
    vstd::std_specs::btree::group_btree_axioms,
    vstd::laws_cmp::group_laws_cmp,
};

/// An operation on a provider.
#[derive(Clone, Copy, PartialEq, Eq, Structural, Hash, Debug)]
pub enum Op {
    Put,
    Get,
    Peek,
    Delete,
}

/// The place of an operation in lists.
pub open spec fn op_rank(op: Op) -> int {
    match op {
        Op::Put => 0,
        Op::Get => 1,
        Op::Peek => 2,
        Op::Delete => 3,
    }
}

/// Whether a provider and operation come before others in lists.
pub open spec fn slot_lt(a: (ProviderId, Op), b: (ProviderId, Op)) -> bool {
    a.0.0 < b.0.0 || (a.0 == b.0 && op_rank(a.1) < op_rank(b.1))
}

/// Whether rows are in strictly increasing order.
pub open spec fn slots_increase<T>(rows: Seq<((ProviderId, Op), T)>) -> bool {
    forall|i: int, j: int| 0 <= i < j < rows.len() ==> slot_lt((#[trigger] rows[i]).0, (#[trigger] rows[j]).0)
}

spec fn all_before<T>(rows: Seq<((ProviderId, Op), T)>, k: (ProviderId, Op)) -> bool {
    forall|i: int| 0 <= i < rows.len() ==> slot_lt((#[trigger] rows[i]).0, k)
}

struct OpSlots<T> {
    put: Option<T>,
    get: Option<T>,
    peek: Option<T>,
    delete: Option<T>,
}

impl<T> OpSlots<T> {
    spec fn of(self, op: Op) -> Option<T> {
        match op {
            Op::Put => self.put,
            Op::Get => self.get,
            Op::Peek => self.peek,
            Op::Delete => self.delete,
        }
    }
}

/// A value for each provider and operation that has one.
pub struct OpMap<T> {
    inner: BTreeMap<u128, OpSlots<T>>,
}

impl<T: Copy> OpMap<T> {
    /// The value of a provider and operation.
    pub closed spec fn at(self, provider: ProviderId, op: Op) -> Option<T> {
        if self.inner@.contains_key(provider.0) {
            self.inner@[provider.0].of(op)
        } else {
            None
        }
    }

    /// Whether `self` is `before` with one value set.
    pub open spec fn is_set(self, before: OpMap<T>, provider: ProviderId, op: Op, v: T) -> bool {
        &&& self.at(provider, op) == Some(v)
        &&& forall|p: ProviderId, o: Op|
            (p != provider || o != op) ==> #[trigger] self.at(p, o) == before.at(p, o)
    }

    /// A map without values.
    pub fn new() -> (r: Self)
        ensures
            forall|p: ProviderId, o: Op| #[trigger] r.at(p, o) is None,
    {
        OpMap { inner: BTreeMap::new() }
    }

    /// The value of a provider and operation.
    pub fn get(&self, provider: ProviderId, op: Op) -> (r: Option<T>)
        ensures
            r == self.at(provider, op),
    {
        match self.inner.get(&provider.0) {
            Some(s) => match op {
                Op::Put => s.put,
                Op::Get => s.get,
                Op::Peek => s.peek,
                Op::Delete => s.delete,
            },
            None => None,
        }
    }

    /// Sets the value of a provider and operation.
    pub fn set(&mut self, provider: ProviderId, op: Op, v: T)
        ensures
            final(self).is_set(*old(self), provider, op, v),
    {
        let mut s: OpSlots<T> = match self.inner.remove(&provider.0) {
            Some(s) => s,
            None => OpSlots { put: None, get: None, peek: None, delete: None },
        };
        match op {
            Op::Put => {
                s.put = Some(v);
            },
            Op::Get => {
                s.get = Some(v);
            },
            Op::Peek => {
                s.peek = Some(v);
            },
            Op::Delete => {
                s.delete = Some(v);
            },
        }
        self.inner.insert(provider.0, s);
    }

    fn push_slot(out: &mut Vec<((ProviderId, Op), T)>, provider: ProviderId, op: Op, v: Option<T>)
        ensures
            final(out)@ == (match v {
                Some(t) => old(out)@.push(((provider, op), t)),
                None => old(out)@,
            }),
    {
        if let Some(t) = v {
            out.push(((provider, op), t));
        }
    }

    /// All values, each with its provider and operation: providers in increasing order, and for
    /// each the operations in the order put, get, peek, delete.
    pub fn list(&self) -> (r: Vec<((ProviderId, Op), T)>)
        ensures
            slots_increase(r@),
            forall|p: ProviderId, o: Op, v: T|
                #[trigger] r@.contains(((p, o), v)) <==> self.at(p, o) == Some(v),
    {
        let keys = sorted_keys(&self.inner);
        let mut out: Vec<((ProviderId, Op), T)> = Vec::new();
        let mut i: usize = 0;
        while i < keys.len()
            invariant
                0 <= i <= keys@.len(),
                lists_keys(keys@, self.inner@),
                slots_increase(out@),
                forall|p: ProviderId, o: Op, v: T|
                    #[trigger] out@.contains(((p, o), v)) <==> keys@.take(i as int).contains(p.0)
                        && self.at(p, o) == Some(v),
            decreases keys@.len() - i,
        {
            let k: u128 = keys[i];
            let id = ProviderId(k);
            let ghost before = out@;
            if let Some(s) = self.inner.get(&k) {
                Self::push_slot(&mut out, id, Op::Put, s.put);
                let ghost o1 = out@;
                Self::push_slot(&mut out, id, Op::Get, s.get);
                let ghost o2 = out@;
                Self::push_slot(&mut out, id, Op::Peek, s.peek);
                let ghost o3 = out@;
                Self::push_slot(&mut out, id, Op::Delete, s.delete);
                proof {
                    assert(all_before(before, (id, Op::Put))) by {
                        assert forall|j: int| 0 <= j < before.len() implies slot_lt(
                            (#[trigger] before[j]).0,
                            (id, Op::Put),
                        ) by {
                            let ((p, o), v) = before[j];
                            assert(before.contains(((p, o), v)));
                            let head = keys@.take(i as int);
                            let m = choose|m: int| 0 <= m < head.len() && head[m] == p.0;
                            assert(keys@[m] < keys@[i as int]);
                        }
                    }
                    lemma_pushed(before, o1, ((id, Op::Put)), s.put);
                    lemma_pushed(o1, o2, ((id, Op::Get)), s.get);
                    lemma_pushed(o2, o3, ((id, Op::Peek)), s.peek);
                    lemma_pushed(o3, out@, ((id, Op::Delete)), s.delete);
                    let head = keys@.take(i as int);
                    let more = keys@.take(i + 1);
                    assert forall|x: u128| more.contains(x) <==> head.contains(x) || x == k by {
                        if head.contains(x) {
                            let p = choose|p: int| 0 <= p < head.len() && head[p] == x;
                            assert(more[p] == x);
                        }
                        if x == k {
                            assert(more[i as int] == x);
                        }
                        if more.contains(x) {
                            let p = choose|p: int| 0 <= p < more.len() && more[p] == x;
                            if p < i {
                                assert(head[p] == x);
                            }
                        }
                    }
                    assert(!head.contains(k)) by {
                        if head.contains(k) {
                            let p = choose|p: int| 0 <= p < head.len() && head[p] == k;
                            assert(keys@[p] < keys@[i as int]);
                        }
                    }
                    assert forall|p: ProviderId, o: Op, v: T|
                        #[trigger] out@.contains(((p, o), v)) <==> more.contains(p.0) && self.at(p, o)
                            == Some(v) by {
                        assert(o1.contains(((p, o), v)) <==> before.contains(((p, o), v)) || (p == id
                            && o == Op::Put && s.put == Some(v)));
                        assert(o2.contains(((p, o), v)) <==> o1.contains(((p, o), v)) || (p == id && o
                            == Op::Get && s.get == Some(v)));
                        assert(o3.contains(((p, o), v)) <==> o2.contains(((p, o), v)) || (p == id && o
                            == Op::Peek && s.peek == Some(v)));
                    }
                }
            }
            i = i + 1;
        }
        proof {
            assert(keys@.take(i as int) =~= keys@);
            assert forall|p: ProviderId, o: Op, v: T|
                #[trigger] out@.contains(((p, o), v)) <==> self.at(p, o) == Some(v) by {
                if self.at(p, o) is Some {
                    assert(self.inner@.contains_key(p.0));
                }
            }
        }
        out
    }
}

proof fn lemma_pushed<T>(
    a: Seq<((ProviderId, Op), T)>,
    b: Seq<((ProviderId, Op), T)>,
    k: (ProviderId, Op),
    v: Option<T>,
)
    requires
        b == (match v {
            Some(t) => a.push((k, t)),
            None => a,
        }),
        slots_increase(a),
        all_before(a, k),
    ensures
        slots_increase(b),
        forall|next: (ProviderId, Op)| slot_lt(k, next) ==> #[trigger] all_before(b, next),
        forall|x: ((ProviderId, Op), T)|
            #[trigger] b.contains(x) <==> a.contains(x) || (x.0 == k && v == Some(x.1)),
{
    assert forall|x: ((ProviderId, Op), T)|
        #[trigger] b.contains(x) <==> a.contains(x) || (x.0 == k && v == Some(x.1)) by {
        if a.contains(x) {
            let p = choose|p: int| 0 <= p < a.len() && a[p] == x;
            assert(b[p] == x);
        }
        if x.0 == k && v == Some(x.1) {
            assert(b[a.len() as int] == x);
        }
        if b.contains(x) {
            let p = choose|p: int| 0 <= p < b.len() && b[p] == x;
            if p < a.len() {
                assert(a[p] == x);
            }
        }
    }
}

/// Rows come by provider, and within a provider by operation; of two that differ exactly one comes
/// first.
pub proof fn lemma_rows_in_line(a: (ProviderId, Op), b: (ProviderId, Op))
    ensures
        a.0.0 < b.0.0 ==> slot_lt(a, b),
        a != b ==> (slot_lt(a, b) <==> !slot_lt(b, a)),
        !slot_lt(a, a),
        slot_lt((a.0, Op::Put), (a.0, Op::Get)),
        slot_lt((a.0, Op::Get), (a.0, Op::Peek)),
        slot_lt((a.0, Op::Peek), (a.0, Op::Delete)),
{
}

} // verus!
