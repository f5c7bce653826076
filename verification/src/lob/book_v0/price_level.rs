use std::collections::VecDeque;
use vstd::prelude::*;
use crate::lob::types::{OrderId, Qty};

verus! {

/// One price level: the ids resting at the price, oldest first, and their total open quantity.
#[derive(Debug)]
pub struct PriceLevel {
    pub total_qty: Qty,
    pub orders: VecDeque<OrderId>,
}

impl PriceLevel {
    /// The ids at this level, oldest first.
    pub open spec fn ids(&self) -> Seq<OrderId> {
        self.orders@
    }

    pub fn new() -> (r: Self)
        ensures
            r.total_qty == 0,
            r.ids() == Seq::<OrderId>::empty(),
    {
        PriceLevel { total_qty: 0, orders: VecDeque::new() }
    }

    /// Queue `order_id` at the back, adding `qty` to the total.
    pub fn push(&mut self, order_id: OrderId, qty: Qty)
        requires
            old(self).total_qty + qty <= u64::MAX,
        ensures
            final(self).ids() == old(self).ids().push(order_id),
            final(self).total_qty == old(self).total_qty + qty,
    {
        self.orders.push_back(order_id);
        self.total_qty = self.total_qty + qty;
    }

    /// The oldest id, if any.
    pub fn front(&self) -> (r: Option<OrderId>)
        ensures
            r == (if self.ids().len() > 0 { Some(self.ids()[0]) } else { None::<OrderId> }),
    {
        if self.orders.len() > 0 {
            Some(self.orders[0])
        } else {
            None
        }
    }

    /// Remove the first occurrence of `order_id`, subtracting `qty` from the total.
    pub fn remove(&mut self, order_id: OrderId, qty: Qty)
        requires
            old(self).ids().contains(order_id),
            old(self).total_qty >= qty,
        ensures
            final(self).total_qty == old(self).total_qty - qty,
            exists|k: int|
                0 <= k < old(self).ids().len() && old(self).ids()[k] == order_id && (forall|j: int|
                    0 <= j < k ==> old(self).ids()[j] != order_id) && final(self).ids()
                    == old(self).ids().remove(k),
    {
        let mut pos: usize = 0;
        while pos < self.orders.len() && self.orders[pos] != order_id
            invariant
                0 <= pos <= self.orders@.len(),
                self.orders@ == old(self).orders@,
                self.total_qty == old(self).total_qty,
                forall|j: int| 0 <= j < pos ==> self.orders@[j] != order_id,
                self.orders@.contains(order_id),
            decreases self.orders@.len() - pos,
        {
            pos = pos + 1;
        }
        proof {
            if pos == self.orders@.len() {
                let k = choose|k: int| 0 <= k < self.orders@.len() && self.orders@[k] == order_id;
                assert(self.orders@[k] != order_id);
            }
        }
        let _ = self.orders.remove(pos);
        self.total_qty = self.total_qty - qty;
    }

    /// Subtract `amount` from the total open quantity.
    pub fn reduce_qty(&mut self, amount: Qty)
        requires
            old(self).total_qty >= amount,
        ensures
            final(self).total_qty == old(self).total_qty - amount,
            final(self).ids() == old(self).ids(),
    {
        self.total_qty = self.total_qty - amount;
    }

    pub fn is_empty(&self) -> (r: bool)
        ensures
            r == (self.ids().len() == 0),
    {
        self.orders.len() == 0
    }
}

} // verus!
