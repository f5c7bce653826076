//! The mathematical model of a limit order book and of every command on it.
//!
//! A book is a map of resting orders plus, per side, the price levels in priority
//! order (best price first); each level holds its order ids in arrival order.
//! Each command is a function from a book to a new book and the events it emits.
use vstd::prelude::*;
use crate::lob::types::{OrderId, Price, Qty, Side};
use crate::lob::order::Order;
use crate::lob::event::{BookEvent, BookEventKind, RejectReason};

verus! {

/// One price level: its price and the ids resting there, oldest first.
pub struct LevelView {
    pub price: Price,
    pub ids: Seq<OrderId>,
}

/// The abstract state of a book.
pub struct BookView {
    pub orders: Map<OrderId, Order>,
    /// Bid levels, highest price first.
    pub bids: Seq<LevelView>,
    /// Ask levels, lowest price first.
    pub asks: Seq<LevelView>,
    /// Sequence number of the next event.
    pub next_seq: nat,
}

impl BookView {
    pub open spec fn levels(self, side: Side) -> Seq<LevelView> {
        match side {
            Side::Buy => self.bids,
            Side::Sell => self.asks,
        }
    }

    pub open spec fn with_levels(self, side: Side, levels: Seq<LevelView>) -> BookView {
        match side {
            Side::Buy => BookView { bids: levels, ..self },
            Side::Sell => BookView { asks: levels, ..self },
        }
    }

    pub open spec fn bump(self, n: nat) -> BookView {
        BookView { next_seq: self.next_seq + n, ..self }
    }

    pub open spec fn empty() -> BookView {
        BookView {
            orders: Map::empty(),
            bids: Seq::empty(),
            asks: Seq::empty(),
            next_seq: 0,
        }
    }
}

/// On `side`, price `a` has priority over price `b`.
pub open spec fn better(side: Side, a: Price, b: Price) -> bool {
    match side {
        Side::Buy => a > b,
        Side::Sell => a < b,
    }
}

/// An aggressor on `side` with limit `limit` may trade at a resting `level_price`.
pub open spec fn crosses(side: Side, limit: Price, level_price: Price) -> bool {
    match side {
        Side::Buy => level_price <= limit,
        Side::Sell => level_price >= limit,
    }
}

/// `id` rests on `side` at `price` with open quantity.
pub open spec fn resting_at(orders: Map<OrderId, Order>, id: OrderId, side: Side, price: Price) -> bool {
    &&& orders.contains_key(id)
    &&& orders[id].id == id
    &&& orders[id].side == side
    &&& orders[id].price == price
    &&& orders[id].remaining_qty > 0
}

/// Total open quantity of the orders `ids`.
pub open spec fn level_sum(orders: Map<OrderId, Order>, ids: Seq<OrderId>) -> nat
    decreases ids.len(),
{
    if ids.len() == 0 {
        0
    } else {
        orders[ids[0]].remaining_qty as nat + level_sum(orders, ids.drop_first())
    }
}

/// The levels of one side are well formed.
pub open spec fn side_wf(orders: Map<OrderId, Order>, levels: Seq<LevelView>, side: Side) -> bool {
    &&& forall|i: int, j: int|
        0 <= i < j < levels.len() ==> better(side, #[trigger] levels[i].price, #[trigger] levels[j].price)
    &&& forall|i: int|
        #![trigger levels[i]]
        0 <= i < levels.len() ==> {
            &&& levels[i].ids.len() > 0
            &&& levels[i].ids.no_duplicates()
            &&& level_sum(orders, levels[i].ids) <= u64::MAX
        }
    &&& forall|i: int, k: int|
        0 <= i < levels.len() && 0 <= k < levels[i].ids.len() ==> resting_at(
            orders,
            #[trigger] levels[i].ids[k],
            side,
            levels[i].price,
        )
}

/// `id` appears in one of `levels`.
pub open spec fn in_levels(levels: Seq<LevelView>, id: OrderId) -> bool {
    exists|i: int, k: int|
        0 <= i < levels.len() && 0 <= k < levels[i].ids.len() && #[trigger] levels[i].ids[k] == id
}

impl BookView {
    /// Every resting order sits in exactly one level of its side, at its price.
    pub open spec fn wf(self) -> bool {
        &&& side_wf(self.orders, self.bids, Side::Buy)
        &&& side_wf(self.orders, self.asks, Side::Sell)
        &&& forall|id: OrderId|
            #[trigger] self.orders.contains_key(id) ==> in_levels(self.levels(self.orders[id].side), id)
    }

    /// Best level of `side` as `(price, aggregate open quantity)`.
    pub open spec fn top(self, side: Side) -> Option<(Price, Qty)> {
        let levels = self.levels(side);
        if levels.len() > 0 {
            Some((levels[0].price, level_sum(self.orders, levels[0].ids) as u64))
        } else {
            None
        }
    }

    /// Up to `n` best levels of `side` as `(price, aggregate open quantity)`.
    pub open spec fn depth(self, side: Side, n: nat) -> Seq<(Price, Qty)> {
        let levels = self.levels(side);
        let m = if n < levels.len() { n } else { levels.len() };
        Seq::new(m, |i: int| (levels[i].price, level_sum(self.orders, levels[i].ids) as u64))
    }
}

/// Spread between best ask and best bid (zero when crossed), if both sides exist.
pub open spec fn spread_of(bid: Option<(Price, Qty)>, ask: Option<(Price, Qty)>) -> Option<u64> {
    match (bid, ask) {
        (Some((b, _)), Some((a, _))) => Some(if a >= b { (a - b) as u64 } else { 0 }),
        _ => None,
    }
}

/// An event carrying sequence number `seq`.
pub open spec fn stamp(seq: nat, kind: BookEventKind) -> BookEvent {
    BookEvent { sequence: seq as u64, kind }
}

/// Outcome of a command: the new book and the events, in order.
pub struct Outcome {
    pub book: BookView,
    pub events: Seq<BookEvent>,
}

/// A rejected command leaves the book as it is and emits one `Rejected` event.
pub open spec fn reject(v: BookView, id: OrderId, reason: RejectReason) -> Outcome {
    Outcome {
        book: v.bump(1),
        events: seq![stamp(v.next_seq, BookEventKind::Rejected { order_id: id, reason })],
    }
}

/// Number of order ids in `levels`.
pub open spec fn total_ids(levels: Seq<LevelView>) -> nat
    decreases levels.len(),
{
    if levels.len() == 0 {
        0
    } else {
        levels[0].ids.len() + total_ids(levels.drop_first())
    }
}

/// State of a matching run: book, quantity still to fill, events so far.
pub struct MatchState {
    pub book: BookView,
    pub qty: Qty,
    pub events: Seq<BookEvent>,
}

/// Matching of aggressor `agg` on `side` with limit `limit`: trade against the best
/// opposite level, oldest order first, until the quantity is filled or no opposite
/// level crosses the limit.
pub open spec fn match_spec(s: MatchState, agg: OrderId, side: Side, limit: Price) -> MatchState
    decreases total_ids(s.book.levels(side.spec_opposite())),
{
    let opp = side.spec_opposite();
    let levels = s.book.levels(opp);
    if s.qty == 0 || levels.len() == 0 || !crosses(side, limit, levels[0].price)
        || levels[0].ids.len() == 0 {
        s
    } else {
        let next = match_step(s, agg, side);
        if next.qty == 0 {
            next
        } else {
            proof {
                lemma_match_step_shrinks(s, agg, side);
            }
            match_spec(next, agg, side, limit)
        }
    }
}

/// One fill against the oldest order of the best opposite level.
pub open spec fn match_step(s: MatchState, agg: OrderId, side: Side) -> MatchState {
    let v = s.book;
    let opp = side.spec_opposite();
    let levels = v.levels(opp);
    let lvl = levels[0];
    let pid = lvl.ids[0];
    let p = v.orders[pid];
    if s.qty >= p.remaining_qty {
        let rest = lvl.ids.drop_first();
        let new_levels = if rest.len() == 0 {
            levels.drop_first()
        } else {
            seq![LevelView { price: lvl.price, ids: rest }] + levels.drop_first()
        };
        MatchState {
            book: BookView {
                orders: v.orders.remove(pid),
                next_seq: v.next_seq + 2,
                ..v.with_levels(opp, new_levels)
            },
            qty: (s.qty - p.remaining_qty) as u64,
            events: s.events.push(
                stamp(
                    v.next_seq,
                    BookEventKind::Fill {
                        aggressor_order_id: agg,
                        passive_order_id: pid,
                        price: p.price,
                        qty: p.remaining_qty,
                    },
                ),
            ).push(stamp(v.next_seq + 1, BookEventKind::Filled { order_id: pid })),
        }
    } else {
        MatchState {
            book: BookView {
                orders: v.orders.insert(
                    pid,
                    Order { remaining_qty: (p.remaining_qty - s.qty) as u64, ..p },
                ),
                next_seq: v.next_seq + 1,
                ..v
            },
            qty: 0,
            events: s.events.push(
                stamp(
                    v.next_seq,
                    BookEventKind::Fill {
                        aggressor_order_id: agg,
                        passive_order_id: pid,
                        price: p.price,
                        qty: s.qty,
                    },
                ),
            ),
        }
    }
}

pub proof fn lemma_match_step_shrinks(s: MatchState, agg: OrderId, side: Side)
    requires
        s.qty > 0,
        s.book.levels(side.spec_opposite()).len() > 0,
        s.book.levels(side.spec_opposite())[0].ids.len() > 0,
    ensures
        match_step(s, agg, side).qty > 0 ==> total_ids(match_step(s, agg, side).book.levels(side.spec_opposite()))
            < total_ids(s.book.levels(side.spec_opposite())),
        total_ids(match_step(s, agg, side).book.levels(side.spec_opposite())) <= total_ids(
            s.book.levels(side.spec_opposite()),
        ),
{
    let opp = side.spec_opposite();
    let levels = s.book.levels(opp);
    let lvl = levels[0];
    let rest = lvl.ids.drop_first();
    let l2 = LevelView { price: lvl.price, ids: rest };
    assert((seq![l2] + levels.drop_first()).drop_first() =~= levels.drop_first());
    assert((seq![l2] + levels.drop_first())[0] == l2);
}

/// Position at which a level of price `price` belongs on `side`: after every level
/// with a better price.
pub open spec fn insert_pos(levels: Seq<LevelView>, side: Side, price: Price) -> nat
    decreases levels.len(),
{
    if levels.len() == 0 {
        0
    } else if better(side, levels[0].price, price) {
        1 + insert_pos(levels.drop_first(), side, price)
    } else {
        0
    }
}

/// Queue `id` at the back of the level of price `price`, creating the level in
/// priority order if there is none.
pub open spec fn insert_id(levels: Seq<LevelView>, side: Side, price: Price, id: OrderId) -> Seq<LevelView> {
    let p = insert_pos(levels, side, price) as int;
    if p < levels.len() && levels[p].price == price {
        levels.update(p, LevelView { price, ids: levels[p].ids.push(id) })
    } else {
        levels.insert(p, LevelView { price, ids: seq![id] })
    }
}

/// The book with `o` resting on its side.
pub open spec fn rest_order(v: BookView, o: Order) -> BookView {
    BookView {
        orders: v.orders.insert(o.id, o),
        ..v.with_levels(o.side, insert_id(v.levels(o.side), o.side, o.price, o.id))
    }
}

/// A limit order: validated, accepted, matched; any remainder rests in the book.
pub open spec fn limit_spec(v: BookView, id: OrderId, side: Side, price: Price, qty: Qty) -> Outcome {
    if qty == 0 {
        reject(v, id, RejectReason::InvalidQuantity)
    } else if price == 0 {
        reject(v, id, RejectReason::InvalidPrice)
    } else if v.orders.contains_key(id) {
        reject(v, id, RejectReason::DuplicateOrderId)
    } else {
        let m = match_spec(accept_start(v, id, qty), id, side, price);
        if m.qty == 0 {
            Outcome {
                book: m.book.bump(1),
                events: m.events.push(stamp(m.book.next_seq, BookEventKind::Filled { order_id: id })),
            }
        } else {
            Outcome {
                book: rest_order(
                    m.book,
                    Order {
                        id,
                        side,
                        price,
                        qty,
                        remaining_qty: m.qty,
                        sequence: (v.next_seq + 1) as u64,
                    },
                ),
                events: m.events,
            }
        }
    }
}

/// The most aggressive limit for a market order on `side`.
pub open spec fn market_limit(side: Side) -> Price {
    match side {
        Side::Buy => u64::MAX,
        Side::Sell => 0,
    }
}

/// A market order: validated, accepted, matched; any remainder is cancelled.
pub open spec fn market_spec(v: BookView, id: OrderId, side: Side, qty: Qty) -> Outcome {
    if qty == 0 {
        reject(v, id, RejectReason::InvalidQuantity)
    } else if v.orders.contains_key(id) {
        reject(v, id, RejectReason::DuplicateOrderId)
    } else {
        let m = match_spec(accept_start(v, id, qty), id, side, market_limit(side));
        if m.qty == 0 {
            Outcome {
                book: m.book.bump(1),
                events: m.events.push(stamp(m.book.next_seq, BookEventKind::Filled { order_id: id })),
            }
        } else {
            Outcome {
                book: m.book.bump(1),
                events: m.events.push(
                    stamp(
                        m.book.next_seq,
                        BookEventKind::Cancelled { order_id: id, remaining_qty: m.qty },
                    ),
                ),
            }
        }
    }
}

/// Index of the level of price `price`.
pub open spec fn level_index(levels: Seq<LevelView>, price: Price) -> int {
    choose|i: int| 0 <= i < levels.len() && levels[i].price == price
}

/// Index of `id` within `ids`.
pub open spec fn id_index(ids: Seq<OrderId>, id: OrderId) -> int {
    choose|k: int| 0 <= k < ids.len() && ids[k] == id
}

/// `levels` without order `id`, which rests at `price`; an emptied level disappears.
pub open spec fn remove_id(levels: Seq<LevelView>, price: Price, id: OrderId) -> Seq<LevelView> {
    let li = level_index(levels, price);
    let ids = levels[li].ids;
    if ids.len() == 1 {
        levels.remove(li)
    } else {
        levels.update(li, LevelView { price, ids: ids.remove(id_index(ids, id)) })
    }
}

/// Cancel a resting order; an unknown id is rejected.
pub open spec fn cancel_spec(v: BookView, id: OrderId) -> Outcome {
    if !v.orders.contains_key(id) {
        reject(v, id, RejectReason::UnknownOrder)
    } else {
        let o = v.orders[id];
        Outcome {
            book: BookView {
                orders: v.orders.remove(id),
                next_seq: v.next_seq + 1,
                ..v.with_levels(o.side, remove_id(v.levels(o.side), o.price, id))
            },
            events: seq![
                stamp(v.next_seq, BookEventKind::Cancelled { order_id: id, remaining_qty: o.remaining_qty }),
            ],
        }
    }
}

/// Reduce a resting order by `qty`; reducing by its whole open quantity or more cancels it.
pub open spec fn reduce_spec(v: BookView, id: OrderId, qty: Qty) -> Outcome {
    if qty == 0 {
        reject(v, id, RejectReason::InvalidQuantity)
    } else if !v.orders.contains_key(id) {
        reject(v, id, RejectReason::UnknownOrder)
    } else if qty >= v.orders[id].remaining_qty {
        cancel_spec(v, id)
    } else {
        let o = v.orders[id];
        Outcome {
            book: BookView {
                orders: v.orders.insert(id, Order { remaining_qty: (o.remaining_qty - qty) as u64, ..o }),
                ..v
            },
            events: seq![],
        }
    }
}

/// Aggregate open quantity resting on `side` at `price` (zero if no such level).
pub open spec fn level_qty_at(v: BookView, side: Side, price: Price) -> nat {
    let levels = v.levels(side);
    if exists|i: int| 0 <= i < levels.len() && #[trigger] levels[i].price == price {
        level_sum(v.orders, levels[level_index(levels, price)].ids)
    } else {
        0
    }
}

/// State right after accepting order `id` for `qty`: one `Accepted` event emitted.
pub open spec fn accept_start(v: BookView, id: OrderId, qty: Qty) -> MatchState {
    MatchState {
        book: v.bump(1),
        qty,
        events: seq![stamp(v.next_seq, BookEventKind::Accepted { order_id: id })],
    }
}

/// A limit order stays within machine limits: event sequence numbers stay within
/// `u64`, and so does the aggregate quantity of the level its remainder joins.
pub open spec fn limit_fits(v: BookView, id: OrderId, side: Side, price: Price, qty: Qty) -> bool {
    &&& limit_spec(v, id, side, price, qty).book.next_seq <= u64::MAX
    &&& (qty == 0 || price == 0 || v.orders.contains_key(id) || {
        let m = match_spec(accept_start(v, id, qty), id, side, price);
        m.qty == 0 || level_qty_at(v, side, price) + m.qty <= u64::MAX
    })
}

} // verus!
