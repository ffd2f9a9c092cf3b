//! Slots: stored objects whose place at a provider can be written again by another owner.

use std::collections::BTreeMap;

use vstd::arithmetic::power::lemma_pow0;
use vstd::arithmetic::power::pow;
use vstd::prelude::*;

use crate::byte_map::ByteMap;
use crate::bytes::append;
use crate::bytes::be128;
use crate::bytes::bytes_eq;
use crate::bytes::to_vec;
use crate::entities::records::NativeHandle;
use crate::ordered::lists_keys;
use crate::ordered::sorted_keys;
use crate::types::ProviderId;
use crate::types::UpdateCapability;

verus! {

broadcast use {
    vstd::std_specs::btree::group_btree_axioms,
    vstd::laws_cmp::group_laws_cmp,
};

/// Identifies a slot within its pool.
#[derive(Clone, Copy, PartialEq, Eq, Structural, PartialOrd, Ord, Hash, Debug)]
pub struct SlotId(pub u64);

/// The size of a slot in bytes: a power of two, and at least 4 KiB.
#[derive(Clone, Copy, PartialEq, Eq, Structural, PartialOrd, Ord, Hash, Debug)]
pub struct SizeClass(u64);

/// The size of the smallest slots.
pub const MIN_SLOT_BYTES: u64 = 4096;

/// `k` doubled until it holds `bytes`, or the largest number.
pub open spec fn doubled_until(k: u64, bytes: u64) -> u64
    decreases u64::MAX - k,
{
    if k >= bytes || k == 0 {
        k
    } else if k > u64::MAX / 2 {
        u64::MAX
    } else {
        doubled_until((2 * k) as u64, bytes)
    }
}

impl SizeClass {
    /// The size of the class.
    pub closed spec fn size(self) -> u64 {
        self.0
    }

    /// The smallest class that holds `bytes`: the least power of two from 4 KiB up, or the largest
    /// number where no power of two does.
    pub fn ceiling(bytes: u64) -> (r: Self)
        ensures
            r.size() == doubled_until(MIN_SLOT_BYTES, bytes),
            r.size() >= bytes,
            r.size() >= MIN_SLOT_BYTES,
            bytes <= 4096 ==> r.size() == 4096,
            r.size() == MIN_SLOT_BYTES || r.size() == u64::MAX || r.size() / 2 < bytes,
    {
        let mut k: u64 = MIN_SLOT_BYTES;
        while k < bytes
            invariant
                k >= MIN_SLOT_BYTES,
                doubled_until(k, bytes) == doubled_until(MIN_SLOT_BYTES, bytes),
                k == MIN_SLOT_BYTES || k == u64::MAX || k / 2 < bytes,
            decreases u64::MAX - k,
        {
            if k > u64::MAX / 2 {
                k = u64::MAX;
                assert(doubled_until(u64::MAX, bytes) == u64::MAX);
            } else {
                k = k * 2;
            }
        }
        SizeClass(k)
    }

    /// The size of the class.
    pub fn bytes(self) -> (r: u64)
        ensures
            r == self.size(),
    {
        self.0
    }

    /// Whether a slot of this class holds a chunk of this size.
    pub fn fits(self, chunk_bytes: u64) -> (r: bool)
        ensures
            r == (self.size() >= chunk_bytes),
    {
        self.0 >= chunk_bytes
    }
}

/// Where a slot is in its life.
#[derive(Clone, Copy, PartialEq, Eq, Structural, Debug)]
pub enum SlotState {
    /// It holds nothing of anyone's.
    Empty,
    /// A write is under way.
    Pending,
    /// It holds its owner's bytes.
    Filled,
    /// It is being overwritten.
    Dirty,
    /// Its owner has let it go.
    Forgotten,
}

/// Who rents a slot.
pub type SlotOwnerId = [u8; 32];

/// A slot.
#[derive(Clone, Debug)]
pub struct Slot {
    pub slot_id: SlotId,
    pub provider_id: ProviderId,
    pub update_capability: UpdateCapability,
    pub size_class: SizeClass,
    pub state: SlotState,
    pub current_handle: Option<NativeHandle>,
    pub current_size: u64,
    pub owner: Option<SlotOwnerId>,
    pub reuse_count: u32,
}

/// A slot, with its handle as bytes.
pub ghost struct SlotModel {
    pub slot_id: SlotId,
    pub provider_id: ProviderId,
    pub update_capability: UpdateCapability,
    pub size_class: SizeClass,
    pub state: SlotState,
    pub handle: Option<Seq<u8>>,
    pub size: u64,
    pub owner: Option<SlotOwnerId>,
    pub reuse_count: u32,
}

/// The bytes of a handle, where there is one.
pub open spec fn handle_bytes(h: Option<NativeHandle>) -> Option<Seq<u8>> {
    match h {
        Some(h) => Some(h.0@),
        None => None,
    }
}

fn copy_handle(h: &Option<NativeHandle>) -> (r: Option<NativeHandle>)
    ensures
        handle_bytes(r) == handle_bytes(*h),
{
    match h {
        Some(h) => Some(h.copied()),
        None => None,
    }
}

impl Slot {
    /// The slot, with its handle as bytes.
    pub open spec fn model(self) -> SlotModel {
        SlotModel {
            slot_id: self.slot_id,
            provider_id: self.provider_id,
            update_capability: self.update_capability,
            size_class: self.size_class,
            state: self.state,
            handle: handle_bytes(self.current_handle),
            size: self.current_size,
            owner: self.owner,
            reuse_count: self.reuse_count,
        }
    }

    /// A copy of the slot.
    pub fn copied(&self) -> (r: Slot)
        ensures
            r.model() == self.model(),
    {
        Slot {
            slot_id: self.slot_id,
            provider_id: self.provider_id,
            update_capability: self.update_capability,
            size_class: self.size_class,
            state: self.state,
            current_handle: copy_handle(&self.current_handle),
            current_size: self.current_size,
            owner: self.owner,
            reuse_count: self.reuse_count,
        }
    }
}

/// The key under which a handle at a provider is indexed.
pub open spec fn handle_key(provider: ProviderId, handle: Seq<u8>) -> Seq<u8> {
    be128(provider.0) + handle
}

/// Different handles have different keys.
pub proof fn lemma_handle_keys_apart(p: ProviderId, h: Seq<u8>, q: ProviderId, g: Seq<u8>)
    requires
        handle_key(p, h) == handle_key(q, g),
    ensures
        p == q,
        h == g,
{
    crate::bytes::lemma_be128_round_trip(p.0);
    crate::bytes::lemma_be128_round_trip(q.0);
    assert(handle_key(p, h).take(16) =~= be128(p.0));
    assert(handle_key(q, g).take(16) =~= be128(q.0));
    assert(handle_key(p, h).skip(16) =~= h);
    assert(handle_key(q, g).skip(16) =~= g);
}

fn key_of(provider: ProviderId, handle: &[u8]) -> (r: Vec<u8>)
    ensures
        r@ == handle_key(provider, handle@),
{
    let mut k = provider.to_bytes();
    append(&mut k, handle);
    k
}

/// `x + 1`, or the largest number.
pub open spec fn one_more(x: u32) -> u32 {
    if x == u32::MAX {
        x
    } else {
        (x + 1) as u32
    }
}

/// Whether a slot is free for a chunk at a provider.
pub open spec fn is_rentable(s: SlotModel, provider: ProviderId, chunk_bytes: u64) -> bool {
    &&& s.state == SlotState::Forgotten
    &&& s.provider_id == provider
    &&& s.size_class.size() >= chunk_bytes
    &&& s.update_capability.reusable()
}

/// Whether a slot waits to be overwritten: its owner has let it go, and its provider overwrites in
/// place.
pub open spec fn awaits_erasure(s: SlotModel) -> bool {
    &&& s.state == SlotState::Forgotten
    &&& s.update_capability == UpdateCapability::TrueUpdate
    &&& s.handle is Some
}

/// Whether a slot can be handed to a new owner.
pub open spec fn can_rebind(s: SlotModel) -> bool {
    &&& s.state == SlotState::Forgotten || s.state == SlotState::Empty
    &&& s.update_capability.reusable()
}

/// A pool of slots, with an index from owners and one from handles.
pub struct SlotPool {
    slots: BTreeMap<u128, Slot>,
    next_id: u64,
    by_owner: ByteMap<SlotId>,
    by_handle: ByteMap<SlotId>,
}

impl SlotPool {
    /// A slot of the pool.
    pub closed spec fn slot(self, id: SlotId) -> Option<SlotModel> {
        if self.slots@.contains_key(id.0 as u128) {
            Some(self.slots@[id.0 as u128].model())
        } else {
            None
        }
    }

    /// The slot that an owner was last given.
    pub closed spec fn of_owner(self, owner: Seq<u8>) -> Option<SlotId> {
        if self.by_owner.contents().contains_key(owner) {
            Some(self.by_owner.contents()[owner])
        } else {
            None
        }
    }

    /// The slot that was last filled under a handle.
    pub closed spec fn of_handle(self, provider: ProviderId, handle: Seq<u8>) -> Option<SlotId> {
        let k = handle_key(provider, handle);
        if self.by_handle.contents().contains_key(k) {
            Some(self.by_handle.contents()[k])
        } else {
            None
        }
    }

    /// The identifier that was given last.
    pub closed spec fn last_id(self) -> u64 {
        self.next_id
    }

    /// How many slots there are.
    pub closed spec fn count(self) -> nat {
        self.slots@.dom().len()
    }

    /// Whether the indices are in order, every slot stands under its identifier, and none is
    /// beyond the last.
    pub closed spec fn wf(self) -> bool {
        &&& self.by_owner.wf()
        &&& self.by_handle.wf()
        &&& forall|k: u128| #[trigger]
            self.slots@.contains_key(k) ==> self.slots@[k].slot_id.0 == k && k <= self.next_id
    }

    /// Whether every entry of the handle index leads to a slot that has that handle.
    pub open spec fn handles_lead(self) -> bool {
        forall|p: ProviderId, h: Seq<u8>|
            (#[trigger] self.of_handle(p, h)) is Some ==> {
                let s = self.slot(self.of_handle(p, h).unwrap());
                s is Some && s.unwrap().provider_id == p && s.unwrap().handle == Some(h)
            }
    }

    /// Whether nothing but one slot differs from `before`.
    pub open spec fn only_slot(self, before: SlotPool, id: SlotId) -> bool {
        &&& forall|other: SlotId| other != id ==> #[trigger] self.slot(other) == before.slot(other)
        &&& self.last_id() == before.last_id()
        &&& self.count() == before.count()
    }

    /// Whether the owner index is that of `before`.
    pub open spec fn same_owners(self, before: SlotPool) -> bool {
        forall|o: Seq<u8>| #[trigger] self.of_owner(o) == before.of_owner(o)
    }

    /// Whether the handle index is that of `before`.
    pub open spec fn same_handles(self, before: SlotPool) -> bool {
        forall|p: ProviderId, h: Seq<u8>| #[trigger] self.of_handle(p, h) == before.of_handle(p, h)
    }

    /// A pool without slots.
    pub fn new() -> (r: Self)
        ensures
            r.wf(),
            r.handles_lead(),
            r.count() == 0,
            r.last_id() == 0,
            forall|id: SlotId| #[trigger] r.slot(id) is None,
            forall|o: Seq<u8>| #[trigger] r.of_owner(o) is None,
            forall|p: ProviderId, h: Seq<u8>| #[trigger] r.of_handle(p, h) is None,
    {
        SlotPool {
            slots: BTreeMap::new(),
            next_id: 0,
            by_owner: ByteMap::new(),
            by_handle: ByteMap::new(),
        }
    }

    /// Makes a slot, which waits for its first write.
    pub fn allocate(&mut self, provider: ProviderId, update: UpdateCapability, size_class: SizeClass) -> (r:
        SlotId)
        requires
            old(self).wf(),
        ensures
            final(self).wf(),
            r.0 == (if old(self).last_id() == u64::MAX {
                u64::MAX
            } else {
                (old(self).last_id() + 1) as u64
            }),
            final(self).last_id() == r.0,
            final(self).slot(r) == Some(
                SlotModel {
                    slot_id: r,
                    provider_id: provider,
                    update_capability: update,
                    size_class,
                    state: SlotState::Pending,
                    handle: None,
                    size: 0,
                    owner: None,
                    reuse_count: 0,
                },
            ),
            forall|other: SlotId| other != r ==> #[trigger] final(self).slot(other) == old(self).slot(other),
            final(self).same_owners(*old(self)),
            final(self).same_handles(*old(self)),
            old(self).last_id() < u64::MAX ==> old(self).slot(r) is None && final(self).count()
                == old(self).count() + 1,
            old(self).last_id() < u64::MAX && old(self).handles_lead() ==> final(self).handles_lead(),
    {
        let ghost before = *self;
        self.next_id = self.next_id.saturating_add(1);
        let slot_id = SlotId(self.next_id);
        let slot = Slot {
            slot_id,
            provider_id: provider,
            update_capability: update,
            size_class,
            state: SlotState::Pending,
            current_handle: None,
            current_size: 0,
            owner: None,
            reuse_count: 0,
        };
        self.slots.insert(slot_id.0 as u128, slot);
        proof {
            assert forall|other: SlotId| other != slot_id implies #[trigger] self.slot(other)
                == before.slot(other) by {
                assert(other.0 as u128 != slot_id.0 as u128);
            }
            if before.next_id < u64::MAX {
                if before.slots@.contains_key(slot_id.0 as u128) {
                    assert(slot_id.0 as u128 <= before.next_id);
                }
                assert(before.slot(slot_id) is None);
                if before.handles_lead() {
                    assert forall|p: ProviderId, h: Seq<u8>|
                        (#[trigger] self.of_handle(p, h)) is Some implies {
                        let s = self.slot(self.of_handle(p, h).unwrap());
                        s is Some && s.unwrap().provider_id == p && s.unwrap().handle == Some(h)
                    } by {
                        assert(before.of_handle(p, h) is Some);
                        assert(before.slot(before.of_handle(p, h).unwrap()) is Some);
                    }
                }
            }
        }
        slot_id
    }

    /// Notes that a slot has been written for an owner. A slot that is not there is passed over.
    /// Where the slot had another handle, that one no longer leads to it.
    pub fn mark_filled(&mut self, slot_id: SlotId, owner: SlotOwnerId, handle: NativeHandle, size: u64)
        requires
            old(self).wf(),
        ensures
            final(self).wf(),
            old(self).handles_lead() ==> final(self).handles_lead(),
            match old(self).slot(slot_id) {
                None => {
                    &&& final(self).only_slot(*old(self), slot_id)
                    &&& final(self).slot(slot_id) is None
                    &&& final(self).same_owners(*old(self))
                    &&& final(self).same_handles(*old(self))
                },
                Some(s) => {
                    &&& final(self).only_slot(*old(self), slot_id)
                    &&& final(self).slot(slot_id) == Some(
                        SlotModel {
                            state: SlotState::Filled,
                            owner: Some(owner),
                            handle: Some(handle.0@),
                            size,
                            reuse_count: one_more(s.reuse_count),
                            ..s
                        },
                    )
                    &&& forall|o: Seq<u8>|
                        #[trigger] final(self).of_owner(o) == (if o == owner@ {
                            Some(slot_id)
                        } else {
                            old(self).of_owner(o)
                        })
                    &&& forall|p: ProviderId, h: Seq<u8>|
                        #[trigger] final(self).of_handle(p, h) == (if p == s.provider_id && h
                            == handle.0@ {
                            Some(slot_id)
                        } else if p == s.provider_id && s.handle == Some(h) {
                            None
                        } else {
                            old(self).of_handle(p, h)
                        })
                },
            },
    {
        let ghost before = *self;
        let mut s = match self.slots.remove(&(slot_id.0 as u128)) {
            Some(s) => s,
            None => {
                assert(self.slots@ =~= before.slots@);
                proof {
                    self.lemma_unchanged(before);
                }
                return;
            },
        };
        let ghost was = s.model();
        let provider = s.provider_id;
        let prior = copy_handle(&s.current_handle);
        s.state = SlotState::Filled;
        s.owner = Some(owner);
        s.current_handle = Some(handle.copied());
        s.current_size = size;
        s.reuse_count = s.reuse_count.saturating_add(1);
        self.slots.insert(slot_id.0 as u128, s);
        if let Some(p) = prior {
            if !bytes_eq(&p.0, &handle.0) {
                self.by_handle.remove(&key_of(provider, &p.0));
            }
        }
        self.by_owner.insert(to_vec(&owner), slot_id);
        self.by_handle.insert(key_of(provider, &handle.0), slot_id);
        proof {
            assert forall|other: SlotId| other != slot_id implies #[trigger] self.slot(other)
                == before.slot(other) by {
                assert(other.0 as u128 != slot_id.0 as u128);
            }
            assert forall|p: ProviderId, h: Seq<u8>|
                #[trigger] self.of_handle(p, h) == (if p == provider && h == handle.0@ {
                    Some(slot_id)
                } else if p == provider && was.handle == Some(h) {
                    None
                } else {
                    before.of_handle(p, h)
                }) by {
                let k = handle_key(p, h);
                if k == handle_key(provider, handle.0@) {
                    lemma_handle_keys_apart(p, h, provider, handle.0@);
                }
                if was.handle is Some && k == handle_key(provider, was.handle.unwrap()) {
                    lemma_handle_keys_apart(p, h, provider, was.handle.unwrap());
                }
            }
            if before.handles_lead() {
                assert forall|p: ProviderId, h: Seq<u8>|
                    (#[trigger] self.of_handle(p, h)) is Some implies {
                    let t = self.slot(self.of_handle(p, h).unwrap());
                    t is Some && t.unwrap().provider_id == p && t.unwrap().handle == Some(h)
                } by {
                    if !(p == provider && h == handle.0@) {
                        assert(before.of_handle(p, h) is Some);
                        let id = before.of_handle(p, h).unwrap();
                        assert(before.slot(id).unwrap().handle == Some(h));
                        assert(id != slot_id);
                    }
                }
            }
        }
    }

    /// The slot that was last filled under a handle.
    pub fn slot_for_handle(&self, provider: ProviderId, handle: &NativeHandle) -> (r: Option<SlotId>)
        requires
            self.wf(),
        ensures
            r == self.of_handle(provider, handle.0@),
    {
        match self.by_handle.get(&key_of(provider, &handle.0)) {
            Some(id) => Some(*id),
            None => None,
        }
    }

    /// Lets go of the slot that was last filled under a handle. The result says whether there was
    /// one.
    pub fn release_by_handle(&mut self, provider: ProviderId, handle: &NativeHandle) -> (r: bool)
        requires
            old(self).wf(),
        ensures
            final(self).wf(),
            r == (old(self).of_handle(provider, handle.0@) is Some),
            match old(self).of_handle(provider, handle.0@) {
                Some(id) => final(self).is_released(*old(self), id),
                None => *final(self) == *old(self),
            },
            old(self).handles_lead() ==> final(self).handles_lead(),
    {
        match self.slot_for_handle(provider, handle) {
            Some(id) => {
                self.release(id);
                true
            },
            None => false,
        }
    }

    /// The slot that an owner was last given.
    pub fn lookup_owner(&self, owner: &SlotOwnerId) -> (r: Option<Slot>)
        requires
            self.wf(),
        ensures
            match self.of_owner(owner@) {
                Some(id) => match self.slot(id) {
                    Some(s) => r matches Some(t) && t.model() == s,
                    None => r is None,
                },
                None => r is None,
            },
    {
        match self.by_owner.get(owner) {
            Some(id) => self.get(*id),
            None => None,
        }
    }

    /// The first slot, by identifier, that is free for a chunk at a provider.
    pub fn find_forgotten(&self, provider: ProviderId, chunk_bytes: u64) -> (r: Option<Slot>)
        requires
            self.wf(),
        ensures
            match r {
                Some(s) => {
                    &&& self.slot(s.slot_id) == Some(s.model())
                    &&& is_rentable(s.model(), provider, chunk_bytes)
                    &&& forall|id: SlotId|
                        id.0 < s.slot_id.0 && (#[trigger] self.slot(id)) is Some ==> !is_rentable(
                            self.slot(id).unwrap(),
                            provider,
                            chunk_bytes,
                        )
                },
                None => forall|id: SlotId|
                    (#[trigger] self.slot(id)) is Some ==> !is_rentable(
                        self.slot(id).unwrap(),
                        provider,
                        chunk_bytes,
                    ),
            },
    {
        let keys = sorted_keys(&self.slots);
        let mut i: usize = 0;
        while i < keys.len()
            invariant
                self.wf(),
                0 <= i <= keys@.len(),
                lists_keys(keys@, self.slots@),
                forall|j: int|
                    0 <= j < i ==> !is_rentable(
                        self.slots@[#[trigger] keys@[j]].model(),
                        provider,
                        chunk_bytes,
                    ),
            decreases keys@.len() - i,
        {
            let k: u128 = keys[i];
            if let Some(s) = self.slots.get(&k) {
                if s.state == SlotState::Forgotten && s.provider_id == provider && s.size_class.fits(
                    chunk_bytes,
                ) && s.update_capability.allows_reuse() {
                    proof {
                        assert(self.slots@.contains_key(k));
                        assert forall|id: SlotId|
                            id.0 < s.slot_id.0 && (#[trigger] self.slot(id)) is Some implies !is_rentable(
                            self.slot(id).unwrap(),
                            provider,
                            chunk_bytes,
                        ) by {
                            assert(keys@.contains(id.0 as u128));
                            let j = choose|j: int| 0 <= j < keys@.len() && keys@[j] == id.0 as u128;
                            assert(j < i) by {
                                if j > i {
                                    assert(keys@[i as int] < keys@[j]);
                                }
                            }
                        }
                    }
                    return Some(s.copied());
                }
            }
            i = i + 1;
        }
        proof {
            assert forall|id: SlotId| (#[trigger] self.slot(id)) is Some implies !is_rentable(
                self.slot(id).unwrap(),
                provider,
                chunk_bytes,
            ) by {
                assert(keys@.contains(id.0 as u128));
                let j = choose|j: int| 0 <= j < keys@.len() && keys@[j] == id.0 as u128;
                assert(!is_rentable(self.slots@[keys@[j]].model(), provider, chunk_bytes));
            }
        }
        None
    }

    /// What letting go of a slot gives: the slot is forgotten and has no owner, but keeps its
    /// handle, and its owner no longer leads to any slot.
    pub open spec fn is_released(self, before: SlotPool, id: SlotId) -> bool {
        &&& self.only_slot(before, id)
        &&& self.same_handles(before)
        &&& match before.slot(id) {
            None => self.slot(id) is None && self.same_owners(before),
            Some(s) => {
                &&& self.slot(id) == Some(
                    SlotModel { state: SlotState::Forgotten, owner: None, ..s },
                )
                &&& forall|o: Seq<u8>|
                    #[trigger] self.of_owner(o) == (if s.owner is Some && o == s.owner.unwrap()@ {
                        None
                    } else {
                        before.of_owner(o)
                    })
            },
        }
    }

    /// Lets go of a slot. One that is not there is passed over.
    pub fn release(&mut self, slot_id: SlotId)
        requires
            old(self).wf(),
        ensures
            final(self).wf(),
            final(self).is_released(*old(self), slot_id),
            old(self).handles_lead() ==> final(self).handles_lead(),
    {
        let ghost before = *self;
        let mut s = match self.slots.remove(&(slot_id.0 as u128)) {
            Some(s) => s,
            None => {
                assert(self.slots@ =~= before.slots@);
                proof {
                    self.lemma_unchanged(before);
                }
                return;
            },
        };
        let owner: Option<SlotOwnerId> = s.owner;
        s.owner = None;
        s.state = SlotState::Forgotten;
        self.slots.insert(slot_id.0 as u128, s);
        if let Some(o) = owner {
            self.by_owner.remove(&o);
        }
        proof {
            assert forall|other: SlotId| other != slot_id implies #[trigger] self.slot(other)
                == before.slot(other) by {
                assert(other.0 as u128 != slot_id.0 as u128);
            }
            self.lemma_handles_kept(before, slot_id);
        }
    }

    proof fn lemma_unchanged(self, before: SlotPool)
        requires
            self.slots@ == before.slots@,
            self.by_handle == before.by_handle,
        ensures
            before.handles_lead() ==> self.handles_lead(),
    {
        if before.handles_lead() {
            assert forall|p: ProviderId, h: Seq<u8>| (#[trigger] self.of_handle(p, h)) is Some implies {
                let t = self.slot(self.of_handle(p, h).unwrap());
                t is Some && t.unwrap().provider_id == p && t.unwrap().handle == Some(h)
            } by {
                assert(before.of_handle(p, h) is Some);
                let i = before.of_handle(p, h).unwrap();
                assert(before.slot(i) == self.slot(i));
            }
        }
    }

    proof fn lemma_handles_kept(self, before: SlotPool, id: SlotId)
        requires
            self.only_slot(before, id),
            self.same_handles(before),
            before.slot(id) is Some,
            self.slot(id) is Some,
            self.slot(id).unwrap().handle == before.slot(id).unwrap().handle,
            self.slot(id).unwrap().provider_id == before.slot(id).unwrap().provider_id,
        ensures
            before.handles_lead() ==> self.handles_lead(),
    {
        if before.handles_lead() {
            assert forall|p: ProviderId, h: Seq<u8>| (#[trigger] self.of_handle(p, h)) is Some implies {
                let t = self.slot(self.of_handle(p, h).unwrap());
                t is Some && t.unwrap().provider_id == p && t.unwrap().handle == Some(h)
            } by {
                assert(before.of_handle(p, h) is Some);
                let i = before.of_handle(p, h).unwrap();
                assert(before.slot(i) is Some);
            }
        }
    }

    /// Hands a slot that was let go, or overwritten, to a new owner. The result is the handle to
    /// write to. A slot in another state, or at a provider that cannot overwrite, is refused.
    pub fn rebind(&mut self, slot_id: SlotId, new_owner: SlotOwnerId) -> (r: Option<NativeHandle>)
        requires
            old(self).wf(),
        ensures
            final(self).wf(),
            old(self).handles_lead() ==> final(self).handles_lead(),
            final(self).same_handles(*old(self)),
            final(self).only_slot(*old(self), slot_id),
            if old(self).slot(slot_id) is Some && can_rebind(old(self).slot(slot_id).unwrap()) {
                let s = old(self).slot(slot_id).unwrap();
                &&& handle_bytes(r) == s.handle
                &&& final(self).slot(slot_id) == Some(
                    SlotModel {
                        state: SlotState::Pending,
                        owner: Some(new_owner),
                        reuse_count: one_more(s.reuse_count),
                        ..s
                    },
                )
                &&& forall|o: Seq<u8>|
                    #[trigger] final(self).of_owner(o) == (if o == new_owner@ {
                        Some(slot_id)
                    } else {
                        old(self).of_owner(o)
                    })
            } else {
                &&& r is None
                &&& final(self).slot(slot_id) == old(self).slot(slot_id)
                &&& final(self).same_owners(*old(self))
            },
    {
        let ghost before = *self;
        let mut s = match self.slots.remove(&(slot_id.0 as u128)) {
            Some(s) => s,
            None => {
                assert(self.slots@ =~= before.slots@);
                proof {
                    self.lemma_unchanged(before);
                }
                return None;
            },
        };
        let reusable: bool = match s.state {
            SlotState::Forgotten => true,
            SlotState::Empty => true,
            _ => false,
        };
        if !reusable || !s.update_capability.allows_reuse() {
            self.slots.insert(slot_id.0 as u128, s);
            assert(self.slots@ =~= before.slots@);
            proof {
                self.lemma_unchanged(before);
            }
            return None;
        }
        s.state = SlotState::Pending;
        s.owner = Some(new_owner);
        s.reuse_count = s.reuse_count.saturating_add(1);
        let h = copy_handle(&s.current_handle);
        self.slots.insert(slot_id.0 as u128, s);
        self.by_owner.insert(to_vec(&new_owner), slot_id);
        proof {
            assert forall|other: SlotId| other != slot_id implies #[trigger] self.slot(other)
                == before.slot(other) by {
                assert(other.0 as u128 != slot_id.0 as u128);
            }
            self.lemma_handles_kept(before, slot_id);
        }
        h
    }

    /// The slots that wait to be overwritten, by increasing identifier.
    pub fn pending_erasure(&self) -> (r: Vec<Slot>)
        requires
            self.wf(),
        ensures
            forall|i: int, j: int|
                0 <= i < j < r@.len() ==> (#[trigger] r@[i]).slot_id.0 < (#[trigger] r@[j]).slot_id.0,
            forall|i: int|
                0 <= i < r@.len() ==> self.slot((#[trigger] r@[i]).slot_id) == Some(r@[i].model())
                    && awaits_erasure(r@[i].model()),
            forall|id: SlotId|
                (#[trigger] self.slot(id)) is Some && awaits_erasure(self.slot(id).unwrap()) ==> exists|i: int|
                    0 <= i < r@.len() && (#[trigger] r@[i]).slot_id == id,
    {
        let keys = sorted_keys(&self.slots);
        let mut out: Vec<Slot> = Vec::new();
        let mut i: usize = 0;
        while i < keys.len()
            invariant
                self.wf(),
                0 <= i <= keys@.len(),
                lists_keys(keys@, self.slots@),
                forall|a: int, b: int|
                    0 <= a < b < out@.len() ==> (#[trigger] out@[a]).slot_id.0 < (
                    #[trigger] out@[b]).slot_id.0,
                forall|a: int|
                    0 <= a < out@.len() ==> self.slot((#[trigger] out@[a]).slot_id) == Some(
                        out@[a].model(),
                    ) && awaits_erasure(out@[a].model()),
                forall|a: int, j: int|
                    0 <= a < out@.len() && i <= j < keys@.len() ==> ((#[trigger] out@[a]).slot_id.0 as u128)
                        < #[trigger] keys@[j],
                forall|j: int|
                    0 <= j < i && awaits_erasure(self.slots@[#[trigger] keys@[j]].model()) ==> exists|a: int|
                        0 <= a < out@.len() && (#[trigger] out@[a]).slot_id.0 as u128 == keys@[j],
            decreases keys@.len() - i,
        {
            let k: u128 = keys[i];
            let ghost before = out@;
            if let Some(s) = self.slots.get(&k) {
                if s.state == SlotState::Forgotten && s.update_capability == UpdateCapability::TrueUpdate
                    && s.current_handle.is_some() {
                    out.push(s.copied());
                    proof {
                        assert(self.slots@.contains_key(k));
                        assert(out@[before.len() as int].slot_id.0 as u128 == k);
                        assert forall|j: int|
                            0 <= j < i + 1 && awaits_erasure(
                                self.slots@[#[trigger] keys@[j]].model(),
                            ) implies exists|a: int|
                            0 <= a < out@.len() && (#[trigger] out@[a]).slot_id.0 as u128 == keys@[j] by {
                            if j < i {
                                let a = choose|a: int|
                                    0 <= a < before.len() && (#[trigger] before[a]).slot_id.0 as u128
                                        == keys@[j];
                                assert(out@[a].slot_id.0 as u128 == keys@[j]);
                            }
                        }
                    }
                }
            }
            i = i + 1;
        }
        proof {
            assert forall|id: SlotId|
                (#[trigger] self.slot(id)) is Some && awaits_erasure(
                    self.slot(id).unwrap(),
                ) implies exists|a: int| 0 <= a < out@.len() && (#[trigger] out@[a]).slot_id == id by {
                assert(keys@.contains(id.0 as u128));
                let j = choose|j: int| 0 <= j < keys@.len() && keys@[j] == id.0 as u128;
                assert(awaits_erasure(self.slots@[keys@[j]].model()));
                let a = choose|a: int|
                    0 <= a < out@.len() && (#[trigger] out@[a]).slot_id.0 as u128 == keys@[j];
                assert(out@[a].slot_id == id);
            }
        }
        out
    }

    /// Notes that a forgotten slot has been overwritten. A slot in another state stays as it is.
    pub fn mark_erased(&mut self, slot_id: SlotId)
        requires
            old(self).wf(),
        ensures
            final(self).wf(),
            old(self).handles_lead() ==> final(self).handles_lead(),
            final(self).only_slot(*old(self), slot_id),
            final(self).same_owners(*old(self)),
            final(self).same_handles(*old(self)),
            final(self).slot(slot_id) == (match old(self).slot(slot_id) {
                Some(s) => Some(
                    if s.state == SlotState::Forgotten {
                        SlotModel { state: SlotState::Empty, ..s }
                    } else {
                        s
                    },
                ),
                None => None,
            }),
    {
        let ghost before = *self;
        let mut s = match self.slots.remove(&(slot_id.0 as u128)) {
            Some(s) => s,
            None => {
                assert(self.slots@ =~= before.slots@);
                proof {
                    self.lemma_unchanged(before);
                }
                return;
            },
        };
        if s.state == SlotState::Forgotten {
            s.state = SlotState::Empty;
        }
        self.slots.insert(slot_id.0 as u128, s);
        proof {
            assert forall|other: SlotId| other != slot_id implies #[trigger] self.slot(other)
                == before.slot(other) by {
                assert(other.0 as u128 != slot_id.0 as u128);
            }
            self.lemma_handles_kept(before, slot_id);
        }
    }

    /// A slot of the pool.
    pub fn get(&self, slot_id: SlotId) -> (r: Option<Slot>)
        requires
            self.wf(),
        ensures
            match self.slot(slot_id) {
                Some(s) => r matches Some(t) && t.model() == s,
                None => r is None,
            },
    {
        match self.slots.get(&(slot_id.0 as u128)) {
            Some(s) => Some(s.copied()),
            None => None,
        }
    }

    /// How many slots there are.
    pub fn len(&self) -> (r: usize)
        ensures
            r == self.count(),
    {
        self.slots.len()
    }

    /// Whether there are no slots.
    pub fn is_empty(&self) -> (r: bool)
        ensures
            r == (self.count() == 0),
    {
        self.len() == 0
    }
}

/// Letting go of a slot and handing it to another owner gives that owner the handle that the first
/// one had, where the provider can overwrite.
pub proof fn lemma_release_then_rebind(before: SlotPool, released: SlotPool, id: SlotId)
    requires
        before.slot(id) is Some,
        released.is_released(before, id),
        before.slot(id).unwrap().update_capability.reusable(),
    ensures
        released.slot(id) is Some,
        can_rebind(released.slot(id).unwrap()),
        released.slot(id).unwrap().handle == before.slot(id).unwrap().handle,
{
}

/// A class is the least power-of-two multiple of the smallest that holds the bytes: it holds them,
/// and half of it would not. Where no such multiple is a number, it is the largest number.
pub proof fn lemma_least_class(k: u64, bytes: u64) -> (e: nat)
    requires
        k > 0,
    ensures
        doubled_until(k, bytes) >= bytes,
        doubled_until(k, bytes) == k * pow(2, e) || (doubled_until(k, bytes) == u64::MAX && k * pow(
            2,
            e,
        ) > u64::MAX),
        e == 0 || k * pow(2, (e - 1) as nat) < bytes,
        k >= bytes ==> doubled_until(k, bytes) == k,
    decreases u64::MAX - k,
{
    lemma_pow0(2);
    if k >= bytes {
        assert(k * 1 == k);
        0
    } else if k > u64::MAX / 2 {
        assert(pow(2, 1) == 2) by {
            reveal_with_fuel(pow, 2);
        }
        assert(k * pow(2, 0) == k);
        1
    } else {
        let e = lemma_least_class((2 * k) as u64, bytes);
        assert(pow(2, (e + 1) as nat) == 2 * pow(2, e)) by {
            reveal(pow);
        }
        let p = pow(2, e);
        assert((2 * k) * p == k * (2 * p)) by (nonlinear_arith);
        if e == 0 {
            assert(k * pow(2, 0) == k);
        } else {
            assert(pow(2, e) == 2 * pow(2, (e - 1) as nat)) by {
                reveal(pow);
            }
            let q = pow(2, (e - 1) as nat);
            assert((2 * k) * q == k * (2 * q)) by (nonlinear_arith);
        }
        e + 1
    }
}

/// What is in use is neither handed out nor erased nor bound again; what cannot be updated is not
/// used twice; and a slot is handed out only for its provider and for what fits into it.
pub proof fn lemma_slots_in_use_kept(s: SlotModel, provider: ProviderId, bytes: u64)
    ensures
        s.state != SlotState::Forgotten ==> !is_rentable(s, provider, bytes) && !awaits_erasure(s),
        s.state != SlotState::Forgotten && s.state != SlotState::Empty ==> !can_rebind(s),
        s.update_capability == UpdateCapability::Unsupported ==> !is_rentable(s, provider, bytes)
            && !can_rebind(s) && !awaits_erasure(s),
        s.provider_id != provider ==> !is_rentable(s, provider, bytes),
        s.size_class.size() < bytes ==> !is_rentable(s, provider, bytes),
        s.handle is None ==> !awaits_erasure(s),
        is_rentable(s, provider, bytes) ==> can_rebind(s),
        awaits_erasure(s) ==> can_rebind(s),
{
}

/// A forgotten slot of the provider that can be updated and is large enough can be handed out.
pub proof fn lemma_forgotten_slots_reused(s: SlotModel, bytes: u64)
    requires
        s.state == SlotState::Forgotten,
        s.update_capability != UpdateCapability::Unsupported,
        bytes <= s.size_class.size(),
    ensures
        is_rentable(s, s.provider_id, bytes),
        can_rebind(s),
{
}

/// To release a slot makes it forgotten and ownerless, keeps its handle, its class and its provider,
/// takes it from its owner, and touches no other slot.
pub proof fn lemma_release_forgets(before: SlotPool, after: SlotPool, id: SlotId, s: SlotModel, other: SlotId)
    requires
        after.is_released(before, id),
        before.slot(id) == Some(s),
        other != id,
    ensures
        after.slot(id) matches Some(t) && t.state == SlotState::Forgotten && t.owner is None
            && t.handle == s.handle && t.size_class == s.size_class && t.provider_id
            == s.provider_id && t.update_capability == s.update_capability && t.reuse_count
            == s.reuse_count,
        s.owner matches Some(o) ==> after.of_owner(o@) is None,
        after.slot(other) == before.slot(other),
        after.count() == before.count(),
{
}

/// Uses are counted one by one, as far as the number goes.
pub proof fn lemma_uses_counted(n: u32)
    ensures
        n < u32::MAX ==> one_more(n) == n + 1,
        one_more(u32::MAX) == u32::MAX,
{
}

/// A handle that leads to a slot leads to the one that holds it, at its provider.
pub proof fn lemma_handle_leads_to_holder(pool: SlotPool, p: ProviderId, h: Seq<u8>)
    requires
        pool.handles_lead(),
        pool.of_handle(p, h) is Some,
    ensures
        pool.slot(pool.of_handle(p, h).unwrap()) matches Some(s) && s.provider_id == p && s.handle
            == Some(h),
{
}

/// A slot is told by its fields.
pub proof fn lemma_slot_told(s: Slot)
    ensures
        s.model().slot_id == s.slot_id,
        s.model().provider_id == s.provider_id,
        s.model().update_capability == s.update_capability,
        s.model().size_class == s.size_class,
        s.model().state == s.state,
        s.model().size == s.current_size,
        s.model().owner == s.owner,
        s.model().reuse_count == s.reuse_count,
        s.current_handle matches Some(h) ==> s.model().handle == Some(h.0@),
        s.current_handle is None ==> s.model().handle is None,
{
}

} // verus!
