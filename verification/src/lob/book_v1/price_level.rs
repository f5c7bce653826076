use vstd::prelude::*;
use crate::lob::types::{OrderSlabKey, Price, Qty};
use crate::lob::book_v1::book::OrderSlot;

verus! {

/// One price level: the first and last order slots of its chain and their total
/// open quantity. The chain itself runs through the slots' `next` and `prev` links.
#[derive(Debug)]
pub struct PriceLevel {
    pub total_qty: Qty,
    pub price: Price,
    pub order_head: Option<OrderSlabKey>,
    pub order_tail: Option<OrderSlabKey>,
}

impl PriceLevel {
    pub fn new(price: Price) -> (r: Self)
        ensures
            r.total_qty == 0,
            r.price == price,
            r.order_head == None::<OrderSlabKey>,
            r.order_tail == None::<OrderSlabKey>,
    {
        PriceLevel { total_qty: 0, price, order_head: None, order_tail: None }
    }

    /// Append slot `key` with open quantity `qty` at the back; returns the previous
    /// tail, which the caller links to `key`.
    pub fn append_order(&mut self, key: OrderSlabKey, qty: Qty) -> (r: Option<OrderSlabKey>)
        requires
            old(self).total_qty + qty <= u64::MAX,
        ensures
            final(self).total_qty == old(self).total_qty + qty,
            final(self).price == old(self).price,
            final(self).order_tail == Some(key),
            r == old(self).order_tail,
            old(self).order_tail is None ==> final(self).order_head == Some(key),
            old(self).order_tail is Some ==> final(self).order_head == old(self).order_head,
    {
        self.total_qty = self.total_qty + qty;
        match self.order_tail {
            None => {
                self.order_head = Some(key);
                self.order_tail = Some(key);
                None
            },
            Some(old_tail) => {
                self.order_tail = Some(key);
                Some(old_tail)
            },
        }
    }

    /// The first slot of the chain.
    pub fn front(&self) -> (r: Option<OrderSlabKey>)
        ensures
            r == self.order_head,
    {
        self.order_head
    }

    /// Unlink slot `key`, whose links are those of `order_slot`, and take its open
    /// quantity off the total. The neighbours' own links are the caller's to mend.
    pub fn remove(&mut self, key: OrderSlabKey, order_slot: &OrderSlot)
        requires
            old(self).total_qty >= order_slot.order.remaining_qty,
        ensures
            final(self).total_qty == old(self).total_qty - order_slot.order.remaining_qty,
            final(self).price == old(self).price,
            final(self).order_head == (if old(self).order_head == Some(key) {
                order_slot.next
            } else {
                old(self).order_head
            }),
            final(self).order_tail == (if old(self).order_tail == Some(key) {
                order_slot.prev
            } else {
                old(self).order_tail
            }),
    {
        if self.order_head == Some(key) {
            self.order_head = order_slot.next;
        }
        if self.order_tail == Some(key) {
            self.order_tail = order_slot.prev;
        }
        self.total_qty = self.total_qty - order_slot.order.remaining_qty;
    }

    /// Take `amount` off the total open quantity.
    pub fn reduce_qty(&mut self, amount: Qty)
        requires
            old(self).total_qty >= amount,
        ensures
            final(self).total_qty == old(self).total_qty - amount,
            final(self).price == old(self).price,
            final(self).order_head == old(self).order_head,
            final(self).order_tail == old(self).order_tail,
    {
        self.total_qty = self.total_qty - amount;
    }

    pub fn is_empty(&self) -> (r: bool)
        ensures
            r == (self.order_head is None),
    {
        self.order_head.is_none()
    }
}

} // verus!
