//! The interface every limit order book offers, stated over the book model.
use vstd::prelude::*;
use crate::lob::types::{OrderId, Price, Qty, Side};
use crate::lob::order::Order;
use crate::lob::event::{BookEvent, BookEventSink, receives, lemma_vec_receives};
use crate::lob::model::{BookView, spread_of, limit_spec, limit_fits, market_spec, cancel_spec, reduce_spec};

verus! {

/// A price-time priority limit order book.
///
/// `book` is the abstract state of the book and `valid` its well-formedness, which
/// every command keeps.
pub trait LimitOrderBook: Sized {
    spec fn book(&self) -> BookView;

    spec fn valid(&self) -> bool;

    /// Create a new book with implementation-specific pre-allocation settings.
    fn with_config(price_range: (Price, Price), order_capacity: u64) -> (r: Self)
        ensures
            r.valid(),
            r.book() == BookView::empty(),
    ;

    /// Return the best bid as `(price, aggregate_qty)`.
    fn best_bid(&self) -> (r: Option<(Price, Qty)>)
        requires
            self.valid(),
        ensures
            r == self.book().top(Side::Buy),
    ;

    /// Return the best ask as `(price, aggregate_qty)`.
    fn best_ask(&self) -> (r: Option<(Price, Qty)>)
        requires
            self.valid(),
        ensures
            r == self.book().top(Side::Sell),
    ;

    /// Best ask minus best bid (zero when crossed), if both sides have a level.
    fn spread(&self) -> (r: Option<u64>)
        requires
            self.valid(),
        ensures
            r == spread_of(self.book().top(Side::Buy), self.book().top(Side::Sell)),
    {
        match (self.best_bid(), self.best_ask()) {
            (Some((bid, _)), Some((ask, _))) => Some(ask.saturating_sub(bid)),
            _ => None,
        }
    }

    /// Return a resting order by ID, if present.
    fn order(&self, id: OrderId) -> (r: Option<&Order>)
        ensures
            match r {
                Some(o) => self.book().orders.contains_key(id) && *o == self.book().orders[id],
                None => !self.book().orders.contains_key(id),
            },
    ;

    /// Return the number of resting orders currently stored.
    fn order_count(&self) -> (r: u64)
        ensures
            r == self.book().orders.len(),
    ;

    /// Return up to `levels` price levels on one side of book as `(price, aggregate_qty)`.
    fn depth(&mut self, side: Side, levels: u64) -> (r: Vec<(Price, Qty)>)
        requires
            old(self).valid(),
        ensures
            final(self).valid(),
            final(self).book() == old(self).book(),
            r@ == old(self).book().depth(side, levels as nat),
    ;

    /// Insert a limit order; crossing quantity matches at once, any remainder rests.
    fn add_limit_order<S: BookEventSink>(
        &mut self,
        order_id: OrderId,
        side: Side,
        price: Price,
        qty: Qty,
        events: &mut S,
    )
        requires
            old(self).valid(),
            limit_fits(old(self).book(), order_id, side, price, qty),
            old(events).can_take(limit_spec(old(self).book(), order_id, side, price, qty).events.len()),
        ensures
            final(self).valid(),
            final(self).book() == limit_spec(old(self).book(), order_id, side, price, qty).book,
            receives(*old(events), limit_spec(old(self).book(), order_id, side, price, qty).events, *final(events)),
    ;

    /// Insert a market order; it matches until filled, any remainder is cancelled.
    fn add_market_order<S: BookEventSink>(&mut self, order_id: OrderId, side: Side, qty: Qty, events: &mut S)
        requires
            old(self).valid(),
            market_spec(old(self).book(), order_id, side, qty).book.next_seq <= u64::MAX,
            old(events).can_take(market_spec(old(self).book(), order_id, side, qty).events.len()),
        ensures
            final(self).valid(),
            final(self).book() == market_spec(old(self).book(), order_id, side, qty).book,
            receives(*old(events), market_spec(old(self).book(), order_id, side, qty).events, *final(events)),
    ;

    /// Remove a resting order by ID; an unknown ID is rejected with `UnknownOrder`.
    fn cancel_order<S: BookEventSink>(&mut self, order_id: OrderId, events: &mut S)
        requires
            old(self).valid(),
            old(self).book().next_seq < u64::MAX,
            old(events).can_take(1),
        ensures
            final(self).valid(),
            final(self).book() == cancel_spec(old(self).book(), order_id).book,
            receives(*old(events), cancel_spec(old(self).book(), order_id).events, *final(events)),
    ;

    /// Reduce a resting order by `qty`; reducing by its whole open quantity or more removes it.
    fn reduce_order<S: BookEventSink>(&mut self, order_id: OrderId, qty: Qty, events: &mut S)
        requires
            old(self).valid(),
            old(self).book().next_seq < u64::MAX,
            old(events).can_take(1),
        ensures
            final(self).valid(),
            final(self).book() == reduce_spec(old(self).book(), order_id, qty).book,
            receives(*old(events), reduce_spec(old(self).book(), order_id, qty).events, *final(events)),
    ;

    /// `add_limit_order`, collecting the events in a vector.
    fn add_limit_order_vec(&mut self, order_id: OrderId, side: Side, price: Price, qty: Qty) -> (r: Vec<BookEvent>)
        requires
            old(self).valid(),
            limit_fits(old(self).book(), order_id, side, price, qty),
        ensures
            final(self).valid(),
            final(self).book() == limit_spec(old(self).book(), order_id, side, price, qty).book,
            r@ == limit_spec(old(self).book(), order_id, side, price, qty).events,
    {
        let mut events: Vec<BookEvent> = Vec::new();
        let ghost before = events;
        self.add_limit_order(order_id, side, price, qty, &mut events);
        proof {
            lemma_vec_receives(before, limit_spec(old(self).book(), order_id, side, price, qty).events, events);
            assert(events@ =~= limit_spec(old(self).book(), order_id, side, price, qty).events);
        }
        events
    }

    /// `add_market_order`, collecting the events in a vector.
    fn add_market_order_vec(&mut self, order_id: OrderId, side: Side, qty: Qty) -> (r: Vec<BookEvent>)
        requires
            old(self).valid(),
            market_spec(old(self).book(), order_id, side, qty).book.next_seq <= u64::MAX,
        ensures
            final(self).valid(),
            final(self).book() == market_spec(old(self).book(), order_id, side, qty).book,
            r@ == market_spec(old(self).book(), order_id, side, qty).events,
    {
        let mut events: Vec<BookEvent> = Vec::new();
        let ghost before = events;
        self.add_market_order(order_id, side, qty, &mut events);
        proof {
            lemma_vec_receives(before, market_spec(old(self).book(), order_id, side, qty).events, events);
            assert(events@ =~= market_spec(old(self).book(), order_id, side, qty).events);
        }
        events
    }

    /// `cancel_order`, collecting the events in a vector.
    fn cancel_order_vec(&mut self, order_id: OrderId) -> (r: Vec<BookEvent>)
        requires
            old(self).valid(),
            old(self).book().next_seq < u64::MAX,
        ensures
            final(self).valid(),
            final(self).book() == cancel_spec(old(self).book(), order_id).book,
            r@ == cancel_spec(old(self).book(), order_id).events,
    {
        let mut events: Vec<BookEvent> = Vec::new();
        let ghost before = events;
        self.cancel_order(order_id, &mut events);
        proof {
            lemma_vec_receives(before, cancel_spec(old(self).book(), order_id).events, events);
            assert(events@ =~= cancel_spec(old(self).book(), order_id).events);
        }
        events
    }

    /// `reduce_order`, collecting the events in a vector.
    fn reduce_order_vec(&mut self, order_id: OrderId, qty: Qty) -> (r: Vec<BookEvent>)
        requires
            old(self).valid(),
            old(self).book().next_seq < u64::MAX,
        ensures
            final(self).valid(),
            final(self).book() == reduce_spec(old(self).book(), order_id, qty).book,
            r@ == reduce_spec(old(self).book(), order_id, qty).events,
    {
        let mut events: Vec<BookEvent> = Vec::new();
        let ghost before = events;
        self.reduce_order(order_id, qty, &mut events);
        proof {
            lemma_vec_receives(before, reduce_spec(old(self).book(), order_id, qty).events, events);
            assert(events@ =~= reduce_spec(old(self).book(), order_id, qty).events);
        }
        events
    }
}

} // verus!
