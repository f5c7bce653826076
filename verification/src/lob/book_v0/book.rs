use std::collections::HashMap;
use vstd::prelude::*;
use crate::lob::types::{OrderId, Price, Qty, Side};
use crate::lob::order::Order;
use crate::lob::event::{BookEvent, BookEventKind, BookEventSink, RejectReason, emit_all, receives};
use crate::lob::model::{
    BookView, LevelView, MatchState, crosses, level_sum, match_spec, match_step, resting_at, side_wf, spread_of,
    total_ids, lemma_match_step_shrinks, level_qty_at, rest_order, better, insert_pos, cancel_spec, reduce_spec,
    limit_spec, market_spec, limit_fits, accept_start, market_limit, reject,
};
use crate::lob::model_proofs::{
    lemma_level_sum_remove, lemma_level_sum_update, lemma_level_sum_without, lemma_level_sum_other,
    lemma_match_step_wf, lemma_match_wf, lemma_other_side, lemma_unique_level, lemma_rest_wf,
    lemma_insert_pos_at, lemma_level_index, lemma_level_sum_push, lemma_fresh_sums, lemma_locate,
    lemma_cancel_wf, lemma_reduce_wf, lemma_match_level_qty,
};
use crate::lob::book_v0::price_level::PriceLevel;
use crate::lob::book_api::LimitOrderBook;

verus! {

broadcast use vstd::std_specs::hash::group_hash_axioms;

/// Price levels of one side in priority order, with their price.
pub open spec fn side_view(s: Seq<(Price, PriceLevel)>) -> Seq<LevelView> {
    Seq::new(s.len(), |i: int| LevelView { price: s[i].0, ids: s[i].1.ids() })
}

/// Every level's stored total is the open quantity of its orders.
pub open spec fn totals_ok(orders: Map<OrderId, Order>, s: Seq<(Price, PriceLevel)>) -> bool {
    forall|i: int| 0 <= i < s.len() ==> (#[trigger] s[i]).1.total_qty == level_sum(orders, s[i].1.ids())
}

proof fn lemma_side_view_update(s: Seq<(Price, PriceLevel)>, i: int, x: (Price, PriceLevel))
    requires
        0 <= i < s.len(),
    ensures
        side_view(s.update(i, x)) == side_view(s).update(i, LevelView { price: x.0, ids: x.1.ids() }),
{
    assert(side_view(s.update(i, x)) =~= side_view(s).update(i, LevelView { price: x.0, ids: x.1.ids() }));
}

proof fn lemma_side_view_insert(s: Seq<(Price, PriceLevel)>, i: int, x: (Price, PriceLevel))
    requires
        0 <= i <= s.len(),
    ensures
        side_view(s.insert(i, x)) == side_view(s).insert(i, LevelView { price: x.0, ids: x.1.ids() }),
{
    assert(side_view(s.insert(i, x)) =~= side_view(s).insert(i, LevelView { price: x.0, ids: x.1.ids() }));
}

proof fn lemma_side_view_remove(s: Seq<(Price, PriceLevel)>, i: int)
    requires
        0 <= i < s.len(),
    ensures
        side_view(s.remove(i)) == side_view(s).remove(i),
{
    assert(side_view(s.remove(i)) =~= side_view(s).remove(i));
}

proof fn lemma_totals_update(orders: Map<OrderId, Order>, s: Seq<(Price, PriceLevel)>, i: int, x: (Price, PriceLevel))
    requires
        0 <= i < s.len(),
        totals_ok(orders, s.remove(i)) || totals_ok(orders, s),
        forall|a: int| 0 <= a < s.len() && a != i ==> (#[trigger] s[a]).1.total_qty == level_sum(orders, s[a].1.ids()),
        x.1.total_qty == level_sum(orders, x.1.ids()),
    ensures
        totals_ok(orders, s.update(i, x)),
{
    assert forall|a: int| 0 <= a < s.update(i, x).len() implies (#[trigger] s.update(i, x)[a]).1.total_qty
        == level_sum(orders, s.update(i, x)[a].1.ids()) by {
        if a != i {
            assert(s.update(i, x)[a] == s[a]);
        }
    }
}

proof fn lemma_totals_insert(orders: Map<OrderId, Order>, s: Seq<(Price, PriceLevel)>, i: int, x: (Price, PriceLevel))
    requires
        0 <= i <= s.len(),
        totals_ok(orders, s),
        x.1.total_qty == level_sum(orders, x.1.ids()),
    ensures
        totals_ok(orders, s.insert(i, x)),
{
    assert forall|a: int| 0 <= a < s.insert(i, x).len() implies (#[trigger] s.insert(i, x)[a]).1.total_qty
        == level_sum(orders, s.insert(i, x)[a].1.ids()) by {
        if a < i {
            assert(s.insert(i, x)[a] == s[a]);
        } else if a > i {
            assert(s.insert(i, x)[a] == s[a - 1]);
        }
    }
}

proof fn lemma_totals_remove(orders: Map<OrderId, Order>, s: Seq<(Price, PriceLevel)>, i: int)
    requires
        0 <= i < s.len(),
        forall|a: int| 0 <= a < s.len() && a != i ==> (#[trigger] s[a]).1.total_qty == level_sum(orders, s[a].1.ids()),
    ensures
        totals_ok(orders, s.remove(i)),
{
    assert forall|a: int| 0 <= a < s.remove(i).len() implies (#[trigger] s.remove(i)[a]).1.total_qty
        == level_sum(orders, s.remove(i)[a].1.ids()) by {
        if a < i {
            assert(s.remove(i)[a] == s[a]);
        } else {
            assert(s.remove(i)[a] == s[a + 1]);
        }
    }
}

/// On `side`, price `a` has priority over price `b`.
fn better_price(side: Side, a: Price, b: Price) -> (r: bool)
    ensures
        r == better(side, a, b),
{
    match side {
        Side::Buy => a > b,
        Side::Sell => a < b,
    }
}

/// Limit order book over price levels kept in priority order and a map of resting orders.
#[derive(Debug)]
pub struct LimitOrderBookV0 {
    /// Bid levels, highest price first.
    bids: Vec<(Price, PriceLevel)>,
    /// Ask levels, lowest price first.
    asks: Vec<(Price, PriceLevel)>,
    orders: HashMap<OrderId, Order>,
    next_seq: u64,
}

impl View for LimitOrderBookV0 {
    type V = BookView;

    closed spec fn view(&self) -> BookView {
        BookView {
            orders: self.orders@,
            bids: side_view(self.bids@),
            asks: side_view(self.asks@),
            next_seq: self.next_seq as nat,
        }
    }
}

impl LimitOrderBookV0 {
    /// The book is well formed and every stored level total is exact.
    pub closed spec fn wf(&self) -> bool {
        &&& self@.wf()
        &&& totals_ok(self.orders@, self.bids@)
        &&& totals_ok(self.orders@, self.asks@)
    }

    closed spec fn side_vec(&self, side: Side) -> Seq<(Price, PriceLevel)> {
        match side {
            Side::Buy => self.bids@,
            Side::Sell => self.asks@,
        }
    }

    proof fn lemma_side_vec(&self, side: Side)
        ensures
            self@.levels(side) == side_view(self.side_vec(side)),
            totals_ok(self.orders@, self.bids@) && totals_ok(self.orders@, self.asks@) ==> totals_ok(
                self.orders@,
                self.side_vec(side),
            ),
    {
    }

    pub fn new() -> (r: Self)
        ensures
            r.wf(),
            r@ == BookView::empty(),
    {
        let r = LimitOrderBookV0 {
            bids: Vec::new(),
            asks: Vec::new(),
            orders: HashMap::new(),
            next_seq: 0,
        };
        assert(side_view(r.bids@) =~= Seq::<LevelView>::empty());
        assert(side_view(r.asks@) =~= Seq::<LevelView>::empty());
        r
    }

    // -- queries -----------------------------------------------------------

    /// Best bid as `(price, aggregate open quantity)`.
    pub fn best_bid(&self) -> (r: Option<(Price, Qty)>)
        requires
            self.wf(),
        ensures
            r == self@.top(Side::Buy),
    {
        if self.bids.len() > 0 {
            assert(self.bids@[0].1.total_qty == level_sum(self.orders@, self.bids@[0].1.ids()));
            Some((self.bids[0].0, self.bids[0].1.total_qty))
        } else {
            None
        }
    }

    /// Best ask as `(price, aggregate open quantity)`.
    pub fn best_ask(&self) -> (r: Option<(Price, Qty)>)
        requires
            self.wf(),
        ensures
            r == self@.top(Side::Sell),
    {
        if self.asks.len() > 0 {
            assert(self.asks@[0].1.total_qty == level_sum(self.orders@, self.asks@[0].1.ids()));
            Some((self.asks[0].0, self.asks[0].1.total_qty))
        } else {
            None
        }
    }

    /// Best ask minus best bid (zero when crossed), if both sides have a level.
    pub fn spread(&self) -> (r: Option<u64>)
        requires
            self.wf(),
        ensures
            r == spread_of(self@.top(Side::Buy), self@.top(Side::Sell)),
    {
        match (self.best_bid(), self.best_ask()) {
            (Some((bid, _)), Some((ask, _))) => Some(ask.saturating_sub(bid)),
            _ => None,
        }
    }

    /// The resting order with id `id`, if any.
    pub fn order(&self, id: OrderId) -> (r: Option<&Order>)
        ensures
            match r {
                Some(o) => self@.orders.contains_key(id) && *o == self@.orders[id],
                None => !self@.orders.contains_key(id),
            },
    {
        self.orders.get(&id)
    }

    /// Number of resting orders.
    pub fn order_count(&self) -> (r: u64)
        ensures
            r == self@.orders.len(),
    {
        self.orders.len() as u64
    }

    /// Number of resting orders, as a `usize`.
    pub(crate) fn order_len(&self) -> (r: usize)
        ensures
            r == self@.orders.len(),
    {
        self.orders.len()
    }

    /// Up to `levels` best levels of `side` as `(price, aggregate open quantity)`.
    pub fn depth(&self, side: Side, levels: u64) -> (r: Vec<(Price, Qty)>)
        requires
            self.wf(),
        ensures
            r@ == self@.depth(side, levels as nat),
    {
        let src = match side {
            Side::Buy => &self.bids,
            Side::Sell => &self.asks,
        };
        proof {
            self.lemma_side_vec(side);
        }
        let mut out: Vec<(Price, Qty)> = Vec::new();
        let mut i: usize = 0;
        while i < src.len() && (i as u64) < levels
            invariant
                0 <= i <= src@.len(),
                i <= levels,
                src@ == self.side_vec(side),
                totals_ok(self.orders@, src@),
                out@.len() == i,
                forall|j: int|
                    0 <= j < i ==> #[trigger] out@[j] == (src@[j].0, level_sum(self.orders@, src@[j].1.ids()) as u64),
            decreases src@.len() - i,
        {
            assert(src@[i as int].1.total_qty == level_sum(self.orders@, src@[i as int].1.ids()));
            out.push((src[i].0, src[i].1.total_qty));
            i = i + 1;
        }
        assert(out@ =~= self@.depth(side, levels as nat));
        out
    }

    // -- commands ----------------------------------------------------------

    /// Add a limit order. A zero quantity, a zero price or an id already resting is
    /// rejected; otherwise the order is accepted, matched against the opposite side
    /// (best price first, oldest order first within a price) while prices cross, and
    /// any remainder rests in the book. The events go to `events`, in order.
    pub fn add_limit_order<S: BookEventSink>(
        &mut self,
        order_id: OrderId,
        side: Side,
        price: Price,
        qty: Qty,
        events: &mut S,
    )
        requires
            old(self).wf(),
            limit_fits(old(self)@, order_id, side, price, qty),
            old(events).can_take(limit_spec(old(self)@, order_id, side, price, qty).events.len()),
        ensures
            final(self).wf(),
            final(self)@ == limit_spec(old(self)@, order_id, side, price, qty).book,
            receives(*old(events), limit_spec(old(self)@, order_id, side, price, qty).events, *final(events)),
    {
        let out = self.limit_events(order_id, side, price, qty);
        emit_all(events, &out);
    }

    /// Add a market order. A zero quantity or an id already resting is rejected;
    /// otherwise the order is accepted and matched against the opposite side until
    /// filled or the side is exhausted, and any remainder is cancelled.
    pub fn add_market_order<S: BookEventSink>(&mut self, order_id: OrderId, side: Side, qty: Qty, events: &mut S)
        requires
            old(self).wf(),
            market_spec(old(self)@, order_id, side, qty).book.next_seq <= u64::MAX,
            old(events).can_take(market_spec(old(self)@, order_id, side, qty).events.len()),
        ensures
            final(self).wf(),
            final(self)@ == market_spec(old(self)@, order_id, side, qty).book,
            receives(*old(events), market_spec(old(self)@, order_id, side, qty).events, *final(events)),
    {
        let out = self.market_events(order_id, side, qty);
        emit_all(events, &out);
    }

    /// Cancel a resting order; an unknown id is rejected with `UnknownOrder`.
    pub fn cancel_order<S: BookEventSink>(&mut self, id: OrderId, events: &mut S)
        requires
            old(self).wf(),
            old(self)@.next_seq < u64::MAX,
            old(events).can_take(1),
        ensures
            final(self).wf(),
            final(self)@ == cancel_spec(old(self)@, id).book,
            receives(*old(events), cancel_spec(old(self)@, id).events, *final(events)),
    {
        let out = self.cancel_events(id);
        emit_all(events, &out);
    }

    /// Reduce a resting order by `qty`. A zero quantity or an unknown id is rejected;
    /// a reduction by the whole open quantity or more cancels the order; a smaller
    /// reduction emits no event.
    pub fn reduce_order<S: BookEventSink>(&mut self, id: OrderId, qty: Qty, events: &mut S)
        requires
            old(self).wf(),
            old(self)@.next_seq < u64::MAX,
            old(events).can_take(1),
        ensures
            final(self).wf(),
            final(self)@ == reduce_spec(old(self)@, id, qty).book,
            receives(*old(events), reduce_spec(old(self)@, id, qty).events, *final(events)),
    {
        let out = self.reduce_events(id, qty);
        proof {
            events.lemma_can_take_fewer(out@.len(), 1);
        }
        emit_all(events, &out);
    }

    // -- internals ---------------------------------------------------------

    /// Move the levels of `side` out of the book, leaving that side empty.
    fn take_side(&mut self, side: Side) -> (r: Vec<(Price, PriceLevel)>)
        ensures
            r@ == old(self).side_vec(side),
            final(self).side_vec(side) == Seq::<(Price, PriceLevel)>::empty(),
            final(self).side_vec(side.spec_opposite()) == old(self).side_vec(side.spec_opposite()),
            final(self).orders == old(self).orders,
            final(self).next_seq == old(self).next_seq,
    {
        let mut r: Vec<(Price, PriceLevel)> = Vec::new();
        match side {
            Side::Buy => std::mem::swap(&mut r, &mut self.bids),
            Side::Sell => std::mem::swap(&mut r, &mut self.asks),
        }
        r
    }

    /// Put `levels` back as the levels of `side`.
    fn put_side(&mut self, side: Side, levels: Vec<(Price, PriceLevel)>)
        ensures
            final(self).side_vec(side) == levels@,
            final(self).side_vec(side.spec_opposite()) == old(self).side_vec(side.spec_opposite()),
            final(self).orders == old(self).orders,
            final(self).next_seq == old(self).next_seq,
    {
        match side {
            Side::Buy => self.bids = levels,
            Side::Sell => self.asks = levels,
        }
    }

    /// Append an event with the next sequence number.
    fn emit(&mut self, events: &mut Vec<BookEvent>, kind: BookEventKind)
        requires
            old(self).next_seq < u64::MAX,
        ensures
            final(events)@ == old(events)@.push(BookEvent { sequence: old(self).next_seq, kind }),
            final(self).next_seq == old(self).next_seq + 1,
            final(self).bids == old(self).bids,
            final(self).asks == old(self).asks,
            final(self).orders == old(self).orders,
    {
        events.push(BookEvent { sequence: self.next_seq, kind });
        self.next_seq = self.next_seq + 1;
    }

    /// One fill of aggressor `agg` on `side` against the oldest order of the best
    /// opposite level. Returns the quantity still to fill.
    #[verifier::spinoff_prover]
    #[verifier::rlimit(30)]
    fn fill_front(&mut self, agg: OrderId, side: Side, qty: Qty, events: &mut Vec<BookEvent>) -> (rem: Qty)
        requires
            old(self).wf(),
            qty > 0,
            old(self)@.levels(side.spec_opposite()).len() > 0,
            match_step(MatchState { book: old(self)@, qty, events: old(events)@ }, agg, side).book.next_seq
                <= u64::MAX,
        ensures
            ({
                let n = match_step(MatchState { book: old(self)@, qty, events: old(events)@ }, agg, side);
                &&& final(self)@ == n.book
                &&& rem == n.qty
                &&& final(events)@ == n.events
            }),
            final(self).wf(),
    {
        let ghost v = self@;
        let ghost s = MatchState { book: v, qty, events: events@ };
        let ghost n = match_step(s, agg, side);
        let opp = side.opposite();
        assert(v.levels(opp)[0].ids.len() > 0);
        proof {
            self.lemma_side_vec(opp);
            self.lemma_side_vec(side);
            lemma_match_step_wf(s, agg, side);
        }
        let ghost old_levels = self.side_vec(opp);
        let ghost own_levels = self.side_vec(side);
        let ghost ids = old_levels[0].1.ids();
        let mut levels = self.take_side(opp);
        let (lp, mut lvl) = levels.remove(0);
        assert(v.levels(opp)[0].ids == ids);
        let pid = lvl.orders[0];
        assert(resting_at(v.orders, v.levels(opp)[0].ids[0], opp, lp));
        let p: Order = *self.orders.get(&pid).unwrap();
        let rem;
        if qty >= p.remaining_qty {
            assert(ids.no_duplicates());
            lvl.remove(pid, p.remaining_qty);
            assert(lvl.ids() == ids.remove(0)) by {
                let k = choose|k: int| 0 <= k < ids.len() && ids[k] == pid && (forall|j: int| 0 <= j < k ==> ids[j] != pid) && lvl.ids() == ids.remove(k);
                assert(k == 0);
            }
            assert(ids.remove(0) =~= ids.drop_first());
            proof {
                lemma_level_sum_remove(v.orders, ids, 0);
            }
            let _ = self.orders.remove(&pid);
            self.emit(events, BookEventKind::Fill {
                aggressor_order_id: agg,
                passive_order_id: pid,
                price: p.price,
                qty: p.remaining_qty,
            });
            self.emit(events, BookEventKind::Filled { order_id: pid });
            let ghost tail = levels@;
            if !lvl.is_empty() {
                levels.insert(0, (lp, lvl));
            }
            proof {
                let o2 = v.orders.remove(pid);
                assert(!ids.drop_first().contains(pid)) by {
                    if ids.drop_first().contains(pid) {
                        let m = choose|m: int| 0 <= m < ids.drop_first().len() && ids.drop_first()[m] == pid;
                        assert(ids[m + 1] == ids[0]);
                    }
                }
                lemma_level_sum_without(v.orders, ids.drop_first(), pid);
                assert forall|i: int| 0 <= i < tail.len() implies (#[trigger] tail[i]).1.total_qty == level_sum(o2, tail[i].1.ids()) by {
                    assert(tail[i] == old_levels[i + 1]);
                    lemma_unique_level(v.orders, v.levels(opp), opp, i + 1, 0, 0);
                    assert(v.levels(opp)[i + 1].ids == tail[i].1.ids());
                    lemma_level_sum_without(v.orders, tail[i].1.ids(), pid);
                }
                assert forall|i: int| 0 <= i < own_levels.len() implies (#[trigger] own_levels[i]).1.total_qty == level_sum(o2, own_levels[i].1.ids()) by {
                    assert(v.levels(side)[i].ids == own_levels[i].1.ids());
                    assert(!own_levels[i].1.ids().contains(pid)) by {
                        if own_levels[i].1.ids().contains(pid) {
                            let m = choose|m: int| 0 <= m < own_levels[i].1.ids().len() && own_levels[i].1.ids()[m] == pid;
                            lemma_other_side(v, side, i, m, pid);
                        }
                    }
                    lemma_level_sum_without(v.orders, own_levels[i].1.ids(), pid);
                }
                if ids.drop_first().len() == 0 {
                    assert(side_view(levels@) =~= n.book.levels(opp));
                } else {
                    assert(side_view(levels@) =~= n.book.levels(opp));
                }
            }
            self.put_side(opp, levels);
            rem = qty - p.remaining_qty;
            proof {
                self.lemma_side_vec(opp);
                self.lemma_side_vec(side);
                assert(self@ =~= n.book);
            }
        } else {
            lvl.reduce_qty(qty);
            let np = Order { remaining_qty: p.remaining_qty - qty, ..p };
            let _ = self.orders.insert(pid, np);
            self.emit(events, BookEventKind::Fill {
                aggressor_order_id: agg,
                passive_order_id: pid,
                price: p.price,
                qty,
            });
            let ghost tail = levels@;
            levels.insert(0, (lp, lvl));
            proof {
                let o2 = v.orders.insert(pid, np);
                assert(ids.no_duplicates());
                lemma_level_sum_update(v.orders, ids, 0, pid, np);
                assert forall|i: int| 0 <= i < tail.len() implies (#[trigger] tail[i]).1.total_qty == level_sum(o2, tail[i].1.ids()) by {
                    assert(tail[i] == old_levels[i + 1]);
                    lemma_unique_level(v.orders, v.levels(opp), opp, 0, i + 1, 0);
                    assert(v.levels(opp)[i + 1].ids == tail[i].1.ids());
                    lemma_level_sum_other(v.orders, tail[i].1.ids(), pid, np);
                }
                assert forall|i: int| 0 <= i < own_levels.len() implies (#[trigger] own_levels[i]).1.total_qty == level_sum(o2, own_levels[i].1.ids()) by {
                    assert(v.levels(side)[i].ids == own_levels[i].1.ids());
                    assert(!own_levels[i].1.ids().contains(pid)) by {
                        if own_levels[i].1.ids().contains(pid) {
                            let m = choose|m: int| 0 <= m < own_levels[i].1.ids().len() && own_levels[i].1.ids()[m] == pid;
                            lemma_other_side(v, side, i, m, pid);
                        }
                    }
                    lemma_level_sum_other(v.orders, own_levels[i].1.ids(), pid, np);
                }
                assert(side_view(levels@) =~= n.book.levels(opp));
            }
            self.put_side(opp, levels);
            rem = 0;
            proof {
                self.lemma_side_vec(opp);
                self.lemma_side_vec(side);
                assert(self@ =~= n.book);
            }
        }
        rem
    }

    /// Price of the best level of `side`, if any.
    fn best_price(&self, side: Side) -> (r: Option<Price>)
        ensures
            r == (if self@.levels(side).len() > 0 { Some(self@.levels(side)[0].price) } else { None::<Price> }),
    {
        proof {
            self.lemma_side_vec(side);
        }
        match side {
            Side::Buy => if self.bids.len() > 0 { Some(self.bids[0].0) } else { None },
            Side::Sell => if self.asks.len() > 0 { Some(self.asks[0].0) } else { None },
        }
    }

    /// Fill aggressor `agg` against the best opposite level, oldest order first, until
    /// the quantity is filled or that level is exhausted.
    fn fulfill_in_price_level(
        &mut self,
        agg: OrderId,
        side: Side,
        limit: Price,
        qty: Qty,
        events: &mut Vec<BookEvent>,
    ) -> (rem: Qty)
        requires
            old(self).wf(),
            qty > 0,
            old(self)@.levels(side.spec_opposite()).len() > 0,
            crosses(side, limit, old(self)@.levels(side.spec_opposite())[0].price),
            match_spec(MatchState { book: old(self)@, qty, events: old(events)@ }, agg, side, limit).book.next_seq
                <= u64::MAX,
        ensures
            final(self).wf(),
            match_spec(MatchState { book: final(self)@, qty: rem, events: final(events)@ }, agg, side, limit)
                == match_spec(MatchState { book: old(self)@, qty, events: old(events)@ }, agg, side, limit),
            total_ids(final(self)@.levels(side.spec_opposite())) < total_ids(old(self)@.levels(side.spec_opposite()))
                || rem < qty,
            total_ids(final(self)@.levels(side.spec_opposite())) <= total_ids(old(self)@.levels(side.spec_opposite())),
    {
        let ghost m = match_spec(MatchState { book: self@, qty, events: events@ }, agg, side, limit);
        let ghost t0 = total_ids(self@.levels(side.spec_opposite()));
        let opp = side.opposite();
        let level_price = self.best_price(opp).unwrap();
        let mut q = qty;
        while q > 0 && self.best_price(opp) == Some(level_price)
            invariant
                self.wf(),
                opp == side.spec_opposite(),
                crosses(side, limit, level_price),
                match_spec(MatchState { book: self@, qty: q, events: events@ }, agg, side, limit) == m,
                m == match_spec(MatchState { book: old(self)@, qty, events: old(events)@ }, agg, side, limit),
                t0 == total_ids(old(self)@.levels(side.spec_opposite())),
                m.book.next_seq <= u64::MAX,
                q <= qty,
                total_ids(self@.levels(opp)) <= t0,
                total_ids(self@.levels(opp)) < t0 || q < qty || (q == qty && self@ == old(self)@),
            decreases total_ids(self@.levels(opp)), q,
        {
            let ghost cur = MatchState { book: self@, qty: q, events: events@ };
            let ghost next = match_step(cur, agg, side);
            assert(self@.levels(opp)[0].ids.len() > 0);
            proof {
                lemma_match_step_wf(cur, agg, side);
                lemma_match_step_shrinks(cur, agg, side);
                if next.qty > 0 {
                    lemma_match_wf(next, agg, side, limit);
                }
            }
            q = self.fill_front(agg, side, q, events);
        }
        q
    }

    /// Match aggressor `agg` on `side` with limit `limit` against the opposite side.
    /// Returns the quantity left unfilled.
    fn match_order(&mut self, agg: OrderId, side: Side, limit: Price, qty: Qty, events: &mut Vec<BookEvent>) -> (rem: Qty)
        requires
            old(self).wf(),
            match_spec(MatchState { book: old(self)@, qty, events: old(events)@ }, agg, side, limit).book.next_seq
                <= u64::MAX,
        ensures
            final(self).wf(),
            ({
                let m = match_spec(MatchState { book: old(self)@, qty, events: old(events)@ }, agg, side, limit);
                &&& final(self)@ == m.book
                &&& rem == m.qty
                &&& final(events)@ == m.events
            }),
    {
        let ghost m = match_spec(MatchState { book: self@, qty, events: events@ }, agg, side, limit);
        let opp = side.opposite();
        let mut q = qty;
        loop
            invariant
                self.wf(),
                opp == side.spec_opposite(),
                match_spec(MatchState { book: self@, qty: q, events: events@ }, agg, side, limit) == m,
                m == match_spec(MatchState { book: old(self)@, qty, events: old(events)@ }, agg, side, limit),
                m.book.next_seq <= u64::MAX,
            decreases total_ids(self@.levels(opp)), q,
        {
            if q == 0 {
                assert(match_spec(MatchState { book: self@, qty: q, events: events@ }, agg, side, limit)
                    == MatchState { book: self@, qty: q, events: events@ });
                return q;
            }
            let best = self.best_price(opp);
            match best {
                None => {
                    return q;
                },
                Some(p) => {
                    let crossing = match side {
                        Side::Buy => p <= limit,
                        Side::Sell => p >= limit,
                    };
                    if !crossing {
                        return q;
                    }
                },
            }
            assert(self@.levels(opp)[0].ids.len() > 0);
            q = self.fulfill_in_price_level(agg, side, limit, q, events);
        }
    }

    /// Cancel order `id`, or reject an unknown id; returns the events.
    #[verifier::spinoff_prover]
    pub(crate) fn cancel_events(&mut self, id: OrderId) -> (events: Vec<BookEvent>)
        requires
            old(self).wf(),
            old(self)@.next_seq < u64::MAX,
        ensures
            final(self).wf(),
            final(self)@ == cancel_spec(old(self)@, id).book,
            events@ == cancel_spec(old(self)@, id).events,
    {
        let ghost v = self@;
        let mut events: Vec<BookEvent> = Vec::new();
        let removed = self.orders.remove(&id);
        match removed {
            None => {
                self.emit(&mut events, BookEventKind::rejected(id, RejectReason::UnknownOrder));
                proof {
                    self.lemma_side_vec(Side::Buy);
                    self.lemma_side_vec(Side::Sell);
                    assert(self.orders@ =~= v.orders);
                    assert(self@ =~= v.bump(1));
                    assert(events@ =~= cancel_spec(v, id).events);
                }
                events
            },
            Some(order) => {
                let side = order.side;
                let opp = side.opposite();
                let ghost mut li: int = 0;
                let ghost mut kk: int = 0;
                proof {
                    let r = lemma_locate(v, id);
                    li = r.0;
                    kk = r.1;
                    lemma_cancel_wf(v, id);
                    self.lemma_side_vec(side);
                    self.lemma_side_vec(opp);
                }
                let ghost own = self.side_vec(side);
                let ghost other = self.side_vec(opp);
                let ghost ids = own[li].1.ids();
                let ghost o2 = v.orders.remove(id);
                assert(side_view(own)[li] == LevelView { price: own[li].0, ids });
                assert(v.levels(side)[li].ids == ids);
                assert(ids.no_duplicates());
                let mut levels = self.take_side(side);
                assert(side_view(own)[li].price == order.price);
                let i = find_level(&levels, order.price);
                proof {
                    assert(side_view(own)[i as int].price == order.price);
                    lemma_level_index(v.orders, v.levels(side), side, i as int);
                    assert(i == li);
                    lemma_level_sum_remove(v.orders, ids, kk);
                }
                let (p, mut lvl) = levels.remove(i);
                assert(lvl.ids() == ids);
                lvl.remove(id, order.remaining_qty);
                proof {
                    let k = choose|k: int|
                        0 <= k < ids.len() && ids[k] == id && (forall|j: int| 0 <= j < k ==> ids[j] != id)
                            && lvl.ids() == ids.remove(k);
                    if k < kk {
                        assert(ids[k] == ids[kk]);
                    } else if k > kk {
                        assert(ids[kk] != id);
                    }
                    assert(!ids.remove(kk).contains(id)) by {
                        if ids.remove(kk).contains(id) {
                            let m = choose|m: int| 0 <= m < ids.remove(kk).len() && ids.remove(kk)[m] == id;
                            if m < kk {
                                assert(ids[m] == ids[kk]);
                            } else {
                                assert(ids[m + 1] == ids[kk]);
                            }
                        }
                    }
                    lemma_level_sum_without(v.orders, ids.remove(kk), id);
                    lemma_totals_away(v, own, side, id, li, order);
                    lemma_totals_away(v, other, opp, id, li, order);
                    lemma_totals_remove(o2, own, li);
                }
                if !lvl.is_empty() {
                    levels.insert(i, (p, lvl));
                    proof {
                        assert(levels@ =~= own.update(li, levels@[li]));
                        lemma_totals_update(o2, own, li, levels@[li]);
                        lemma_side_view_update(own, li, levels@[li]);
                    }
                } else {
                    proof {
                        assert(levels@ =~= own.remove(li));
                        lemma_side_view_remove(own, li);
                    }
                }
                self.put_side(side, levels);
                self.emit(&mut events, BookEventKind::cancelled(id, order.remaining_qty));
                proof {
                    self.lemma_side_vec(side);
                    self.lemma_side_vec(opp);
                    assert(totals_ok(o2, other));
                    assert(self.orders@ == o2);
                    assert(self@ =~= cancel_spec(v, id).book);
                    assert(events@ =~= cancel_spec(v, id).events);
                }
                events
            },
        }
    }

    /// Reduce order `id` by `qty`; a reduction by its whole open quantity or more
    /// cancels it. Returns the events.
    #[verifier::spinoff_prover]
    pub(crate) fn reduce_events(&mut self, id: OrderId, qty: Qty) -> (events: Vec<BookEvent>)
        requires
            old(self).wf(),
            old(self)@.next_seq < u64::MAX,
        ensures
            final(self).wf(),
            final(self)@ == reduce_spec(old(self)@, id, qty).book,
            events@ == reduce_spec(old(self)@, id, qty).events,
    {
        let ghost v = self@;
        if qty == 0 {
            let mut events: Vec<BookEvent> = Vec::new();
            self.emit(&mut events, BookEventKind::rejected(id, RejectReason::InvalidQuantity));
            proof {
                assert(self@ =~= v.bump(1));
                assert(events@ =~= reduce_spec(v, id, qty).events);
            }
            return events;
        }
        let found = self.orders.get(&id);
        let order: Order = match found {
            None => {
                let mut events: Vec<BookEvent> = Vec::new();
                self.emit(&mut events, BookEventKind::rejected(id, RejectReason::UnknownOrder));
                proof {
                    assert(self@ =~= v.bump(1));
                    assert(events@ =~= reduce_spec(v, id, qty).events);
                }
                return events;
            },
            Some(o) => *o,
        };
        if qty >= order.remaining_qty {
            return self.cancel_events(id);
        }
        let side = order.side;
        let opp = side.opposite();
        let ghost mut li: int = 0;
        let ghost mut kk: int = 0;
        let np = Order { remaining_qty: order.remaining_qty - qty, ..order };
        proof {
            let r = lemma_locate(v, id);
            li = r.0;
            kk = r.1;
            lemma_reduce_wf(v, id, qty);
            self.lemma_side_vec(side);
            self.lemma_side_vec(opp);
        }
        let ghost own = self.side_vec(side);
        let ghost other = self.side_vec(opp);
        let ghost ids = own[li].1.ids();
        let ghost o2 = v.orders.insert(id, np);
        assert(side_view(own)[li] == LevelView { price: own[li].0, ids });
        assert(v.levels(side)[li].ids == ids);
        assert(ids.no_duplicates());
        let mut levels = self.take_side(side);
        assert(side_view(own)[li].price == order.price);
        let i = find_level(&levels, order.price);
        proof {
            assert(side_view(own)[i as int].price == order.price);
            lemma_level_index(v.orders, v.levels(side), side, i as int);
            assert(i == li);
            lemma_level_sum_remove(v.orders, ids, kk);
            lemma_level_sum_update(v.orders, ids, kk, id, np);
            lemma_totals_away(v, own, side, id, li, np);
            lemma_totals_away(v, other, opp, id, li, np);
        }
        let (p, mut lvl) = levels.remove(i);
        assert(lvl.ids() == ids);
        lvl.reduce_qty(qty);
        levels.insert(i, (p, lvl));
        let _ = self.orders.insert(id, np);
        proof {
            assert(levels@ =~= own.update(li, levels@[li]));
            lemma_totals_remove(o2, own, li);
            lemma_totals_update(o2, own, li, levels@[li]);
            lemma_side_view_update(own, li, levels@[li]);
            assert(side_view(levels@) =~= side_view(own));
        }
        self.put_side(side, levels);
        proof {
            self.lemma_side_vec(side);
            self.lemma_side_vec(opp);
            assert(totals_ok(o2, other));
            assert(self@ =~= reduce_spec(v, id, qty).book);
        }
        let events: Vec<BookEvent> = Vec::new();
        assert(events@ =~= reduce_spec(v, id, qty).events);
        events
    }

    /// Validate, accept and match a limit order; any remainder rests. Returns the events.
    #[verifier::spinoff_prover]
    pub(crate) fn limit_events(&mut self, order_id: OrderId, side: Side, price: Price, qty: Qty) -> (events: Vec<BookEvent>)
        requires
            old(self).wf(),
            limit_fits(old(self)@, order_id, side, price, qty),
        ensures
            final(self).wf(),
            final(self)@ == limit_spec(old(self)@, order_id, side, price, qty).book,
            events@ == limit_spec(old(self)@, order_id, side, price, qty).events,
    {
        let ghost v = self@;
        let mut events: Vec<BookEvent> = Vec::new();
        if qty == 0 {
            self.emit(&mut events, BookEventKind::rejected(order_id, RejectReason::InvalidQuantity));
            proof {
                assert(self@ =~= v.bump(1));
                assert(events@ =~= limit_spec(v, order_id, side, price, qty).events);
            }
            return events;
        }
        if price == 0 {
            self.emit(&mut events, BookEventKind::rejected(order_id, RejectReason::InvalidPrice));
            proof {
                assert(self@ =~= v.bump(1));
                assert(events@ =~= limit_spec(v, order_id, side, price, qty).events);
            }
            return events;
        }
        if self.orders.contains_key(&order_id) {
            self.emit(&mut events, BookEventKind::rejected(order_id, RejectReason::DuplicateOrderId));
            proof {
                assert(self@ =~= v.bump(1));
                assert(events@ =~= limit_spec(v, order_id, side, price, qty).events);
            }
            return events;
        }
        let ghost s0 = accept_start(v, order_id, qty);
        let ghost m = match_spec(s0, order_id, side, price);
        proof {
            lemma_match_wf(s0, order_id, side, price);
            assert(rest_order(m.book, Order { id: order_id, side, price, qty, remaining_qty: m.qty, sequence: (v.next_seq + 1) as u64 }).next_seq == m.book.next_seq);
        }
        self.emit(&mut events, BookEventKind::Accepted { order_id });
        let order_seq = self.next_seq;
        proof {
            assert(self@ =~= s0.book);
            assert(events@ =~= s0.events);
            lemma_match_wf(s0, order_id, side, price);
            lemma_match_level_qty(s0, order_id, side, price, price);
            assert(level_qty_at(s0.book, side, price) == level_qty_at(v, side, price));
        }
        let rem = self.match_order(order_id, side, price, qty, &mut events);
        if rem == 0 {
            self.emit(&mut events, BookEventKind::Filled { order_id });
            proof {
                assert(self@ =~= m.book.bump(1));
            }
        } else {
            self.rest(Order { id: order_id, side, price, qty, remaining_qty: rem, sequence: order_seq });
        }
        events
    }

    /// Validate, accept and match a market order; any remainder is cancelled. Returns the events.
    #[verifier::spinoff_prover]
    pub(crate) fn market_events(&mut self, order_id: OrderId, side: Side, qty: Qty) -> (events: Vec<BookEvent>)
        requires
            old(self).wf(),
            market_spec(old(self)@, order_id, side, qty).book.next_seq <= u64::MAX,
        ensures
            final(self).wf(),
            final(self)@ == market_spec(old(self)@, order_id, side, qty).book,
            events@ == market_spec(old(self)@, order_id, side, qty).events,
    {
        let ghost v = self@;
        let mut events: Vec<BookEvent> = Vec::new();
        if qty == 0 {
            self.emit(&mut events, BookEventKind::rejected(order_id, RejectReason::InvalidQuantity));
            proof {
                assert(self@ =~= v.bump(1));
                assert(events@ =~= market_spec(v, order_id, side, qty).events);
            }
            return events;
        }
        if self.orders.contains_key(&order_id) {
            self.emit(&mut events, BookEventKind::rejected(order_id, RejectReason::DuplicateOrderId));
            proof {
                assert(self@ =~= v.bump(1));
                assert(events@ =~= market_spec(v, order_id, side, qty).events);
            }
            return events;
        }
        let limit = match side {
            Side::Buy => u64::MAX,
            Side::Sell => 0u64,
        };
        assert(limit == market_limit(side));
        let ghost s0 = accept_start(v, order_id, qty);
        let ghost m = match_spec(s0, order_id, side, limit);
        proof {
            lemma_match_wf(s0, order_id, side, limit);
        }
        self.emit(&mut events, BookEventKind::Accepted { order_id });
        proof {
            assert(self@ =~= s0.book);
            assert(events@ =~= s0.events);
            lemma_match_wf(s0, order_id, side, limit);
        }
        let rem = self.match_order(order_id, side, limit, qty, &mut events);
        if rem == 0 {
            self.emit(&mut events, BookEventKind::Filled { order_id });
        } else {
            self.emit(&mut events, BookEventKind::cancelled(order_id, rem));
        }
        proof {
            assert(self@ =~= m.book.bump(1));
        }
        events
    }

    /// Rest order `o` at the back of its price level, creating the level if needed.
    #[verifier::spinoff_prover]
    fn rest(&mut self, o: Order)
        requires
            old(self).wf(),
            !old(self)@.orders.contains_key(o.id),
            o.remaining_qty > 0,
            level_qty_at(old(self)@, o.side, o.price) + o.remaining_qty <= u64::MAX,
        ensures
            final(self).wf(),
            final(self)@ == rest_order(old(self)@, o),
    {
        let ghost v = self@;
        let side = o.side;
        let opp = side.opposite();
        proof {
            self.lemma_side_vec(opp);
            self.lemma_side_vec(side);
            lemma_rest_wf(v, o);
            lemma_fresh_sums(v, o);
        }
        let ghost own = self.side_vec(side);
        let ghost other = self.side_vec(opp);
        let ghost om = v.orders.insert(o.id, o);
        let mut levels = self.take_side(side);
        let i = find_insert_pos(&levels, side, o.price);
        if i < levels.len() && levels[i].0 == o.price {
            let (p, mut lvl) = levels.remove(i);
            proof {
                lemma_level_index(v.orders, v.levels(side), side, i as int);
                assert(v.levels(side)[i as int].ids == lvl.ids());
                lemma_level_sum_push(om, lvl.ids(), o.id);
            }
            lvl.push(o.id, o.remaining_qty);
            levels.insert(i, (p, lvl));
        } else {
            let mut lvl = PriceLevel::new();
            lvl.push(o.id, o.remaining_qty);
            proof {
                assert(lvl.ids() =~= seq![o.id]);
                assert(lvl.ids().drop_first() =~= Seq::<OrderId>::empty());
                assert(level_sum(om, lvl.ids().drop_first()) == 0);
            }
            levels.insert(i, (o.price, lvl));
        }
        let _ = self.orders.insert(o.id, o);
        proof {
            assert(totals_ok(om, own)) by {
                assert forall|a: int| 0 <= a < own.len() implies (#[trigger] own[a]).1.total_qty
                    == level_sum(om, own[a].1.ids()) by {
                    assert(v.levels(side)[a].ids == own[a].1.ids());
                }
            }
            assert(totals_ok(om, other)) by {
                assert forall|a: int| 0 <= a < other.len() implies (#[trigger] other[a]).1.total_qty
                    == level_sum(om, other[a].1.ids()) by {
                    assert(v.levels(opp)[a].ids == other[a].1.ids());
                }
            }
            if levels@.len() == own.len() {
                assert(levels@ =~= own.update(i as int, levels@[i as int]));
                lemma_side_view_update(own, i as int, levels@[i as int]);
                lemma_totals_update(om, own, i as int, levels@[i as int]);
            } else {
                assert(levels@ =~= own.insert(i as int, levels@[i as int]));
                lemma_side_view_insert(own, i as int, levels@[i as int]);
                lemma_totals_insert(om, own, i as int, levels@[i as int]);
            }
            assert(side_view(levels@) =~= rest_order(v, o).levels(side));
        }
        self.put_side(side, levels);
        proof {
            self.lemma_side_vec(opp);
            self.lemma_side_vec(side);
            assert(self@ =~= rest_order(v, o));
        }
    }
}

/// Index of the level of price `price` among `levels`.
fn find_level(levels: &Vec<(Price, PriceLevel)>, price: Price) -> (i: usize)
    requires
        exists|j: int| 0 <= j < levels@.len() && (#[trigger] levels@[j]).0 == price,
    ensures
        i < levels@.len(),
        levels@[i as int].0 == price,
{
    let mut i: usize = 0;
    while i < levels.len() && levels[i].0 != price
        invariant
            0 <= i <= levels@.len(),
            forall|j: int| 0 <= j < i ==> (#[trigger] levels@[j]).0 != price,
            exists|j: int| 0 <= j < levels@.len() && (#[trigger] levels@[j]).0 == price,
        decreases levels@.len() - i,
    {
        i = i + 1;
    }
    proof {
        if i == levels@.len() {
            let j = choose|j: int| 0 <= j < levels@.len() && (#[trigger] levels@[j]).0 == price;
            assert(levels@[j].0 != price);
        }
    }
    i
}

/// Removing or changing order `id` keeps the stored total right on every level of `s`
/// that does not hold it.
proof fn lemma_totals_away(v: BookView, s: Seq<(Price, PriceLevel)>, side: Side, id: OrderId, skip: int, ox: Order)
    requires
        v.wf(),
        v.orders.contains_key(id),
        side_view(s) == v.levels(side),
        totals_ok(v.orders, s),
        v.orders[id].side == side ==> 0 <= skip < s.len() && s[skip].1.ids().contains(id),
    ensures
        forall|a: int|
            0 <= a < s.len() && (v.orders[id].side != side || a != skip) ==> {
                &&& (#[trigger] s[a]).1.total_qty == level_sum(v.orders.remove(id), s[a].1.ids())
                &&& s[a].1.total_qty == level_sum(v.orders.insert(id, ox), s[a].1.ids())
            },
{
    assert forall|a: int| 0 <= a < s.len() && (v.orders[id].side != side || a != skip) implies {
        &&& (#[trigger] s[a]).1.total_qty == level_sum(v.orders.remove(id), s[a].1.ids())
        &&& s[a].1.total_qty == level_sum(v.orders.insert(id, ox), s[a].1.ids())
    } by {
        let ids = s[a].1.ids();
        assert(side_view(s)[a] == LevelView { price: s[a].0, ids });
        assert(v.levels(side)[a].ids == ids);
        assert(!ids.contains(id)) by {
            if ids.contains(id) {
                let m = choose|m: int| 0 <= m < ids.len() && ids[m] == id;
                if v.orders[id].side != side {
                    lemma_other_side(v, side, a, m, id);
                } else {
                    let k = choose|k: int| 0 <= k < s[skip].1.ids().len() && s[skip].1.ids()[k] == id;
                    assert(side_view(s)[skip] == LevelView { price: s[skip].0, ids: s[skip].1.ids() });
                    lemma_unique_level(v.orders, v.levels(side), side, skip, a, k);
                }
            }
        }
        lemma_level_sum_without(v.orders, ids, id);
        lemma_level_sum_other(v.orders, ids, id, ox);
    }
}

/// Index at which a level of price `price` belongs among `levels` of `side`.
fn find_insert_pos(levels: &Vec<(Price, PriceLevel)>, side: Side, price: Price) -> (i: usize)
    ensures
        i == insert_pos(side_view(levels@), side, price),
        i <= levels@.len(),
{
    let ghost lv = side_view(levels@);
    let mut i: usize = 0;
    while i < levels.len() && better_price(side, levels[i].0, price)
        invariant
            0 <= i <= levels@.len(),
            lv == side_view(levels@),
            forall|j: int| 0 <= j < i ==> better(side, #[trigger] lv[j].price, price),
        decreases levels@.len() - i,
    {
        assert(lv[i as int].price == levels@[i as int].0);
        i = i + 1;
    }
    proof {
        if i < levels@.len() {
            assert(lv[i as int].price == levels@[i as int].0);
        }
        lemma_insert_pos_at(lv, side, price, i as int);
    }
    i
}


impl Default for LimitOrderBookV0 {
    fn default() -> (r: Self)
        ensures
            r.wf(),
            r@ == BookView::empty(),
    {
        LimitOrderBookV0::new()
    }
}


impl LimitOrderBook for LimitOrderBookV0 {
    open spec fn book(&self) -> BookView {
        self@
    }

    open spec fn valid(&self) -> bool {
        self.wf()
    }

    fn with_config(price_range: (Price, Price), order_capacity: u64) -> (r: Self) {
        LimitOrderBookV0::new()
    }

    fn best_bid(&self) -> (r: Option<(Price, Qty)>) {
        LimitOrderBookV0::best_bid(self)
    }

    fn best_ask(&self) -> (r: Option<(Price, Qty)>) {
        LimitOrderBookV0::best_ask(self)
    }

    fn order(&self, id: OrderId) -> (r: Option<&Order>) {
        LimitOrderBookV0::order(self, id)
    }

    fn order_count(&self) -> (r: u64) {
        LimitOrderBookV0::order_count(self)
    }

    fn depth(&mut self, side: Side, levels: u64) -> (r: Vec<(Price, Qty)>) {
        LimitOrderBookV0::depth(self, side, levels)
    }

    fn add_limit_order<S: BookEventSink>(
        &mut self,
        order_id: OrderId,
        side: Side,
        price: Price,
        qty: Qty,
        events: &mut S,
    ) {
        LimitOrderBookV0::add_limit_order(self, order_id, side, price, qty, events)
    }

    fn add_market_order<S: BookEventSink>(&mut self, order_id: OrderId, side: Side, qty: Qty, events: &mut S) {
        LimitOrderBookV0::add_market_order(self, order_id, side, qty, events)
    }

    fn cancel_order<S: BookEventSink>(&mut self, order_id: OrderId, events: &mut S) {
        LimitOrderBookV0::cancel_order(self, order_id, events)
    }

    fn reduce_order<S: BookEventSink>(&mut self, order_id: OrderId, qty: Qty, events: &mut S) {
        LimitOrderBookV0::reduce_order(self, order_id, qty, events)
    }
}

} // verus!
