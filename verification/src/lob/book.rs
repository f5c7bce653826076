//! Limit order book whose commands return their events.
use vstd::prelude::*;
use crate::lob::types::{OrderId, Price, Qty, Side};
use crate::lob::order::Order;
use crate::lob::event::BookEvent;
use crate::lob::model::{BookView, spread_of, limit_spec, limit_fits, market_spec, cancel_spec, reduce_spec};
use crate::lob::book_v0::book::LimitOrderBookV0;

verus! {

/// Price-time priority limit order book; each command returns the events it caused.
#[derive(Debug)]
pub struct LimitOrderBook {
    inner: LimitOrderBookV0,
}

impl View for LimitOrderBook {
    type V = BookView;

    closed spec fn view(&self) -> BookView {
        self.inner@
    }
}

impl LimitOrderBook {
    /// The book is well formed.
    pub closed spec fn wf(&self) -> bool {
        self.inner.wf()
    }

    pub fn new() -> (r: Self)
        ensures
            r.wf(),
            r@ == BookView::empty(),
    {
        LimitOrderBook { inner: LimitOrderBookV0::new() }
    }

    // -- queries -----------------------------------------------------------

    /// Best bid as `(price, aggregate open quantity)`.
    pub fn best_bid(&self) -> (r: Option<(Price, Qty)>)
        requires
            self.wf(),
        ensures
            r == self@.top(Side::Buy),
    {
        self.inner.best_bid()
    }

    /// Best ask as `(price, aggregate open quantity)`.
    pub fn best_ask(&self) -> (r: Option<(Price, Qty)>)
        requires
            self.wf(),
        ensures
            r == self@.top(Side::Sell),
    {
        self.inner.best_ask()
    }

    /// Best ask minus best bid (zero when crossed), if both sides have a level.
    pub fn spread(&self) -> (r: Option<u64>)
        requires
            self.wf(),
        ensures
            r == spread_of(self@.top(Side::Buy), self@.top(Side::Sell)),
    {
        self.inner.spread()
    }

    /// The resting order with id `id`, if any.
    pub fn order(&self, id: OrderId) -> (r: Option<&Order>)
        ensures
            match r {
                Some(o) => self@.orders.contains_key(id) && *o == self@.orders[id],
                None => !self@.orders.contains_key(id),
            },
    {
        self.inner.order(id)
    }

    /// Number of resting orders.
    pub fn order_count(&self) -> (r: usize)
        ensures
            r == self@.orders.len(),
    {
        self.inner.order_len()
    }

    // -- commands ----------------------------------------------------------

    /// Add a limit order: rejected for a zero quantity, a zero price or an id already
    /// resting; otherwise accepted, matched while prices cross, remainder resting.
    pub fn add_limit_order(&mut self, order_id: OrderId, side: Side, price: Price, qty: Qty) -> (events: Vec<BookEvent>)
        requires
            old(self).wf(),
            limit_fits(old(self)@, order_id, side, price, qty),
        ensures
            final(self).wf(),
            final(self)@ == limit_spec(old(self)@, order_id, side, price, qty).book,
            events@ == limit_spec(old(self)@, order_id, side, price, qty).events,
    {
        self.inner.limit_events(order_id, side, price, qty)
    }

    /// Add a market order: rejected for a zero quantity or an id already resting;
    /// otherwise accepted and matched, any remainder cancelled.
    pub fn add_market_order(&mut self, id: OrderId, side: Side, qty: Qty) -> (events: Vec<BookEvent>)
        requires
            old(self).wf(),
            market_spec(old(self)@, id, side, qty).book.next_seq <= u64::MAX,
        ensures
            final(self).wf(),
            final(self)@ == market_spec(old(self)@, id, side, qty).book,
            events@ == market_spec(old(self)@, id, side, qty).events,
    {
        self.inner.market_events(id, side, qty)
    }

    /// Cancel a resting order; an unknown id is rejected with `UnknownOrder`.
    pub fn cancel_order(&mut self, id: OrderId) -> (events: Vec<BookEvent>)
        requires
            old(self).wf(),
            old(self)@.next_seq < u64::MAX,
        ensures
            final(self).wf(),
            final(self)@ == cancel_spec(old(self)@, id).book,
            events@ == cancel_spec(old(self)@, id).events,
    {
        self.inner.cancel_events(id)
    }
}

impl Default for LimitOrderBook {
    fn default() -> (r: Self)
        ensures
            r.wf(),
            r@ == BookView::empty(),
    {
        LimitOrderBook::new()
    }
}

} // verus!
