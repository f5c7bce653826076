//! Storage of resting orders in a slab of slots, with a map from order id to slot
//! key. Slots at one price level are chained through their `prev`/`next` keys.
use std::collections::HashMap;
use slab::Slab;
use vstd::prelude::*;
use crate::lob::book_v1::book::OrderSlot;
use crate::lob::order::Order;
use crate::lob::types::{OrderId, OrderSlabKey};

verus! {

broadcast use vstd::std_specs::hash::group_hash_axioms;

#[verifier::external_type_specification]
#[verifier::external_body]
#[verifier::reject_recursive_types(T)]
pub struct ExSlab<T>(Slab<T>);

/// The slots a slab holds, by key.
pub uninterp spec fn slab_slots(s: Slab<OrderSlot>) -> Map<usize, OrderSlot>;

/// `Slab::with_capacity`. Stated: the new slab holds no slot.
#[verifier::external_body]
fn slab_with_capacity(capacity: usize) -> (r: Slab<OrderSlot>)
    ensures
        slab_slots(r).dom().is_empty(),
{
    Slab::with_capacity(capacity)
}

/// `Slab::len`. Stated: the number of slots held.
#[verifier::external_body]
fn slab_len(s: &Slab<OrderSlot>) -> (r: usize)
    ensures
        r == slab_slots(*s).len(),
{
    s.len()
}

/// `Slab::insert`. Stated: the slot is stored under a key that held nothing, which
/// is returned; every other key keeps its slot.
#[verifier::external_body]
fn slab_insert(s: &mut Slab<OrderSlot>, val: OrderSlot) -> (key: usize)
    ensures
        !slab_slots(*old(s)).contains_key(key),
        slab_slots(*final(s)) == slab_slots(*old(s)).insert(key, val),
{
    s.insert(val)
}

/// `Slab::remove`, which panics on a vacant key. Stated: the slot under `key` is
/// taken out and returned.
#[verifier::external_body]
fn slab_remove(s: &mut Slab<OrderSlot>, key: usize) -> (r: OrderSlot)
    requires
        slab_slots(*old(s)).contains_key(key),
    ensures
        r == slab_slots(*old(s))[key],
        slab_slots(*final(s)) == slab_slots(*old(s)).remove(key),
{
    s.remove(key)
}

/// `Slab::get`. Stated: the slot under `key`, if there is one.
#[verifier::external_body]
fn slab_get(s: &Slab<OrderSlot>, key: usize) -> (r: Option<&OrderSlot>)
    ensures
        match r {
            Some(v) => slab_slots(*s).contains_key(key) && *v == slab_slots(*s)[key],
            None => !slab_slots(*s).contains_key(key),
        },
{
    s.get(key)
}

/// Mutable indexing of a slab (`&mut slab[key]`), which panics on a vacant key.
/// Stated: the reference is to the slot under `key`, and what is written through it
/// is what the slab then holds there.
#[verifier::external_body]
fn slab_slot_mut(s: &mut Slab<OrderSlot>, key: usize) -> (r: &mut OrderSlot)
    requires
        slab_slots(*old(s)).contains_key(key),
    ensures
        *r == slab_slots(*old(s))[key],
        slab_slots(*final(s)) == slab_slots(*old(s)).insert(key, *final(r)),
{
    &mut s[key]
}

/// Resting orders: slots in a slab, and the slot key of each order id.
#[derive(Debug)]
pub struct BookOrders {
    slab: Slab<OrderSlot>,
    id_to_key: HashMap<OrderId, OrderSlabKey>,
}

impl BookOrders {
    /// The slots, by key.
    pub closed spec fn slots(&self) -> Map<usize, OrderSlot> {
        slab_slots(self.slab)
    }

    /// The slot key of each order id.
    pub closed spec fn keys(&self) -> Map<OrderId, OrderSlabKey> {
        self.id_to_key@
    }

    /// Every id maps to a slot holding the order with that id, and every slot is
    /// reached from the id of its order.
    pub open spec fn wf(&self) -> bool {
        &&& forall|id: OrderId|
            #[trigger] self.keys().contains_key(id) ==> self.slots().contains_key(self.keys()[id])
                && self.slots()[self.keys()[id]].order.id == id
        &&& forall|k: usize|
            #[trigger] self.slots().contains_key(k) ==> self.keys().contains_key(self.slots()[k].order.id)
                && self.keys()[self.slots()[k].order.id] == k
    }

    /// Storage with room for `capacity` orders before it grows.
    pub fn new(capacity: usize) -> (r: BookOrders)
        ensures
            r.wf(),
            r.slots() == Map::<usize, OrderSlot>::empty(),
            r.keys() == Map::<OrderId, OrderSlabKey>::empty(),
    {
        let r = BookOrders { slab: slab_with_capacity(capacity), id_to_key: HashMap::with_capacity(capacity) };
        assert(r.slots() =~= Map::<usize, OrderSlot>::empty());
        assert(r.keys() =~= Map::<OrderId, OrderSlabKey>::empty());
        r
    }

    /// The resting order with id `id`, if any.
    pub fn order(&self, id: OrderId) -> (r: Option<&Order>)
        requires
            self.wf(),
        ensures
            match r {
                Some(o) => self.keys().contains_key(id) && *o == self.slots()[self.keys()[id]].order,
                None => !self.keys().contains_key(id),
            },
    {
        match self.id_to_key.get(&id) {
            Some(key) => match slab_get(&self.slab, *key) {
                Some(slot) => Some(&slot.order),
                None => None,
            },
            None => None,
        }
    }

    /// The slot key of the order with id `id`, if any.
    pub fn order_key(&self, id: OrderId) -> (r: Option<OrderSlabKey>)
        ensures
            match r {
                Some(k) => self.keys().contains_key(id) && k == self.keys()[id],
                None => !self.keys().contains_key(id),
            },
    {
        match self.id_to_key.get(&id) {
            Some(key) => Some(*key),
            None => None,
        }
    }

    /// Number of stored orders.
    pub fn order_count(&self) -> (r: u64)
        ensures
            r == self.slots().len(),
    {
        slab_len(&self.slab) as u64
    }

    /// The slot under `key`, which must hold one.
    pub fn slot(&self, key: OrderSlabKey) -> (r: &OrderSlot)
        requires
            self.slots().contains_key(key),
        ensures
            *r == self.slots()[key],
    {
        match slab_get(&self.slab, key) {
            Some(slot) => slot,
            None => {
                proof {
                    assert(false);
                }
                unreached()
            },
        }
    }

    /// Mutable access to the slot under `key`, which must hold one.
    pub fn slot_mut(&mut self, key: OrderSlabKey) -> (r: &mut OrderSlot)
        requires
            old(self).slots().contains_key(key),
        ensures
            *r == old(self).slots()[key],
            final(self).slots() == old(self).slots().insert(key, *final(r)),
            final(self).keys() == old(self).keys(),
    {
        slab_slot_mut(&mut self.slab, key)
    }

    /// Store `order` in a new unlinked slot and record its id's key; returns the key.
    pub fn add_order(&mut self, order: Order) -> (key: OrderSlabKey)
        ensures
            !old(self).slots().contains_key(key),
            final(self).slots() == old(self).slots().insert(key, OrderSlot { next: None, prev: None, order }),
            final(self).keys() == old(self).keys().insert(order.id, key),
            old(self).wf() && !old(self).keys().contains_key(order.id) ==> final(self).wf(),
    {
        let order_id = order.id;
        let key = slab_insert(&mut self.slab, OrderSlot { next: None, prev: None, order });
        self.id_to_key.insert(order_id, key);
        key
    }

    /// Remove the slot under `key` and its id, and link its neighbours to each other.
    /// Returns the removed slot.
    pub fn remove_by_key(&mut self, key: OrderSlabKey) -> (r: OrderSlot)
        requires
            old(self).slots().contains_key(key),
            old(self).keys().contains_key(old(self).slots()[key].order.id),
            old(self).slots()[key].prev matches Some(p) ==> p != key && old(self).slots().contains_key(p),
            old(self).slots()[key].next matches Some(n) ==> n != key && old(self).slots().contains_key(n),
        ensures
            r == old(self).slots()[key],
            final(self).keys() == old(self).keys().remove(r.order.id),
            final(self).slots() == unlinked(old(self).slots(), key),
            old(self).wf() ==> final(self).wf(),
    {
        let order_id = slab_get(&self.slab, key).unwrap().order.id;
        let removed = self.id_to_key.remove(&order_id);
        if removed.is_none() {
            proof {
                assert(false);
            }
        }
        self.remove_slot_by_key(key)
    }

    fn remove_slot_by_key(&mut self, key: OrderSlabKey) -> (r: OrderSlot)
        requires
            old(self).slots().contains_key(key),
            old(self).slots()[key].prev matches Some(p) ==> p != key && old(self).slots().contains_key(p),
            old(self).slots()[key].next matches Some(n) ==> n != key && old(self).slots().contains_key(n),
        ensures
            r == old(self).slots()[key],
            final(self).keys() == old(self).keys(),
            final(self).slots() == unlinked(old(self).slots(), key),
    {
        let order_slot = slab_remove(&mut self.slab, key);
        match order_slot.prev {
            Some(prev) => {
                let p = slab_slot_mut(&mut self.slab, prev);
                p.next = order_slot.next;
            },
            None => {},
        }
        match order_slot.next {
            Some(next) => {
                let n = slab_slot_mut(&mut self.slab, next);
                n.prev = order_slot.prev;
            },
            None => {},
        }
        order_slot
    }
}

/// `slots` without the slot under `key`, its neighbours linked to each other.
pub open spec fn unlinked(slots: Map<usize, OrderSlot>, key: usize) -> Map<usize, OrderSlot> {
    let s = slots[key];
    let m1 = slots.remove(key);
    let m2 = match s.prev {
        Some(p) => m1.insert(p, OrderSlot { next: s.next, ..m1[p] }),
        None => m1,
    };
    match s.next {
        Some(n) => m2.insert(n, OrderSlot { prev: s.prev, ..m2[n] }),
        None => m2,
    }
}

} // verus!
