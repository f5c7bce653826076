//! Properties of the book model that span commands.
use vstd::prelude::*;
use crate::lob::types::{OrderId, Price, Qty, Side};
use crate::lob::order::Order;
use crate::lob::event::{BookEvent, BookEventKind, RejectReason};
use crate::lob::model::{
    BookView, LevelView, MatchState, accept_start, better, cancel_spec, crosses, id_index, insert_id, insert_pos,
    level_index, limit_spec, market_spec, match_spec, match_step, reduce_spec, remove_id, rest_order, stamp,
    lemma_match_step_shrinks, total_ids, side_wf, level_qty_at,
};
use crate::lob::model_proofs::{lemma_match_step_wf, lemma_match_wf, lemma_rest_wf, lemma_level_index, lemma_insert_pos};

verus! {

/// Events `events` carry the consecutive sequence numbers `start`, `start + 1`, ...
pub open spec fn numbered_from(events: Seq<BookEvent>, start: nat) -> bool {
    forall|i: int| 0 <= i < events.len() ==> (#[trigger] events[i]).sequence == start + i
}

/// The events a matching run appends are numbered from the book's counter on.
proof fn lemma_match_numbered(s: MatchState, agg: OrderId, side: Side, limit: Price)
    requires
        s.book.wf(),
        match_spec(s, agg, side, limit).book.next_seq <= u64::MAX,
    ensures
        numbered_from(
            match_spec(s, agg, side, limit).events.subrange(
                s.events.len() as int,
                match_spec(s, agg, side, limit).events.len() as int,
            ),
            s.book.next_seq,
        ),
    decreases total_ids(s.book.levels(side.spec_opposite())),
{
    let m = match_spec(s, agg, side, limit);
    lemma_match_wf(s, agg, side, limit);
    let opp = side.spec_opposite();
    let levels = s.book.levels(opp);
    if s.qty == 0 || levels.len() == 0 || !crosses(side, limit, levels[0].price) || levels[0].ids.len() == 0 {
        assert(m.events.subrange(s.events.len() as int, m.events.len() as int).len() == 0);
    } else {
        let next = match_step(s, agg, side);
        lemma_match_step_wf(s, agg, side);
        let d = next.events.len() - s.events.len();
        assert(d == next.book.next_seq - s.book.next_seq);
        if next.qty == 0 {
            assert(m == next);
        } else {
            lemma_match_step_shrinks(s, agg, side);
            lemma_match_wf(next, agg, side, limit);
            lemma_match_numbered(next, agg, side, limit);
            assert(m == match_spec(next, agg, side, limit));
            let tail = m.events.subrange(next.events.len() as int, m.events.len() as int);
            assert forall|i: int| 0 <= i < m.events.len() - next.events.len() implies
                #[trigger] m.events[next.events.len() + i] == tail[i] by {}
            assert(m.events.subrange(0, next.events.len() as int) == next.events);
        }
        let all = m.events.subrange(s.events.len() as int, m.events.len() as int);
        assert forall|i: int| 0 <= i < all.len() implies (#[trigger] all[i]).sequence == s.book.next_seq + i by {
            assert(all[i] == m.events[s.events.len() + i]);
            if i < d {
                assert(m.events.subrange(0, next.events.len() as int) == next.events);
                assert(m.events[s.events.len() + i] == next.events[s.events.len() + i]);
            } else {
                let tail = m.events.subrange(next.events.len() as int, m.events.len() as int);
                assert(m.events[s.events.len() + i] == tail[i - d]);
            }
        }
    }
}

/// A limit order's events carry consecutive sequence numbers starting at the book's
/// counter, and the counter ends just past the last of them: sequence numbers
/// strictly increase across every command of a book.
pub proof fn lemma_limit_numbered(v: BookView, id: OrderId, side: Side, price: Price, qty: Qty)
    requires
        v.wf(),
        limit_spec(v, id, side, price, qty).book.next_seq <= u64::MAX,
    ensures
        numbered_from(limit_spec(v, id, side, price, qty).events, v.next_seq),
        limit_spec(v, id, side, price, qty).book.next_seq == v.next_seq
            + limit_spec(v, id, side, price, qty).events.len(),
{
    if qty != 0 && price != 0 && !v.orders.contains_key(id) {
        let s0 = accept_start(v, id, qty);
        let m = match_spec(s0, id, side, price);
        lemma_match_wf(s0, id, side, price);
        lemma_match_numbered(s0, id, side, price);
        let r = limit_spec(v, id, side, price, qty);
        assert(m.events.subrange(0, 1) == s0.events);
        assert forall|i: int| 0 <= i < r.events.len() implies (#[trigger] r.events[i]).sequence == v.next_seq + i by {
            if i >= 1 && i < m.events.len() {
                assert(r.events[i] == m.events.subrange(1, m.events.len() as int)[i - 1]);
            } else if i == 0 {
                assert(r.events[0] == m.events[0]);
                assert(m.events[0] == s0.events[0]);
            }
        }
    }
}

/// A market order's events carry consecutive sequence numbers starting at the book's
/// counter, and the counter ends just past the last of them.
pub proof fn lemma_market_numbered(v: BookView, id: OrderId, side: Side, qty: Qty)
    requires
        v.wf(),
        market_spec(v, id, side, qty).book.next_seq <= u64::MAX,
    ensures
        numbered_from(market_spec(v, id, side, qty).events, v.next_seq),
        market_spec(v, id, side, qty).book.next_seq == v.next_seq + market_spec(v, id, side, qty).events.len(),
{
    if qty != 0 && !v.orders.contains_key(id) {
        let limit = crate::lob::model::market_limit(side);
        let s0 = accept_start(v, id, qty);
        let m = match_spec(s0, id, side, limit);
        lemma_match_wf(s0, id, side, limit);
        lemma_match_numbered(s0, id, side, limit);
        let r = market_spec(v, id, side, qty);
        assert(m.events.subrange(0, 1) == s0.events);
        assert forall|i: int| 0 <= i < r.events.len() implies (#[trigger] r.events[i]).sequence == v.next_seq + i by {
            if i >= 1 && i < m.events.len() {
                assert(r.events[i] == m.events.subrange(1, m.events.len() as int)[i - 1]);
            } else if i == 0 {
                assert(r.events[0] == m.events[0]);
                assert(m.events[0] == s0.events[0]);
            }
        }
    }
}

/// A cancel emits one event numbered with the book's counter, and advances it by one.
pub proof fn lemma_cancel_numbered(v: BookView, id: OrderId)
    requires
        v.next_seq < u64::MAX,
    ensures
        numbered_from(cancel_spec(v, id).events, v.next_seq),
        cancel_spec(v, id).events.len() == 1,
        cancel_spec(v, id).book.next_seq == v.next_seq + 1,
{
}

/// A reduce emits at most one event, numbered with the book's counter, and advances
/// the counter by the number of events.
pub proof fn lemma_reduce_numbered(v: BookView, id: OrderId, qty: Qty)
    requires
        v.next_seq < u64::MAX,
    ensures
        numbered_from(reduce_spec(v, id, qty).events, v.next_seq),
        reduce_spec(v, id, qty).events.len() <= 1,
        reduce_spec(v, id, qty).book.next_seq == v.next_seq + reduce_spec(v, id, qty).events.len(),
{
}


/// Removing an id just queued at a price gives back the levels it was queued into.
#[verifier::spinoff_prover]
proof fn lemma_remove_after_insert(o: Map<OrderId, Order>, levels: Seq<LevelView>, side: Side, price: Price, id: OrderId)
    requires
        side_wf(o, insert_id(levels, side, price, id), side),
        forall|i: int| 0 <= i < levels.len() ==> (#[trigger] levels[i]).ids.len() > 0,
    ensures
        remove_id(insert_id(levels, side, price, id), price, id) == levels,
{
    let la = insert_id(levels, side, price, id);
    let p = insert_pos(levels, side, price) as int;
    lemma_insert_pos(levels, side, price);
    if p < levels.len() && levels[p].price == price {
        let ids = levels[p].ids;
        let ids2 = ids.push(id);
        assert(la[p] == LevelView { price, ids: ids2 });
        lemma_level_index(o, la, side, p);
        assert(ids2.no_duplicates());
        let k = id_index(ids2, id);
        assert(ids2[ids.len() as int] == id);
        assert(k == ids.len()) by {
            if k != ids.len() {
                assert(ids2[k] == ids2[ids.len() as int]);
            }
        }
        assert(ids2.remove(k) =~= ids);
        assert(ids.len() > 0);
        assert(levels[p] == LevelView { price, ids });
        assert(remove_id(la, price, id) =~= levels);
    } else {
        assert(la[p] == LevelView { price, ids: seq![id] });
        lemma_level_index(o, la, side, p);
        assert(remove_id(la, price, id) =~= levels);
    }
}

/// Cancelling a limit order that rested without trading gives back the book it was
/// added to: the same resting orders and levels, with the event counter two further on
/// (one for `Accepted`, one for `Cancelled`), and a `Cancelled` event for its full quantity.
#[verifier::spinoff_prover]
pub proof fn lemma_cancel_undoes_rest(v: BookView, id: OrderId, side: Side, price: Price, qty: Qty)
    requires
        v.wf(),
        qty > 0,
        price > 0,
        !v.orders.contains_key(id),
        v.levels(side.spec_opposite()).len() == 0 || !crosses(side, price, v.levels(side.spec_opposite())[0].price),
        limit_spec(v, id, side, price, qty).book.next_seq < u64::MAX,
        level_qty_at(v, side, price) + qty <= u64::MAX,
    ensures
        cancel_spec(limit_spec(v, id, side, price, qty).book, id).book == v.bump(2),
        cancel_spec(limit_spec(v, id, side, price, qty).book, id).events == seq![
            stamp(v.next_seq + 1, BookEventKind::Cancelled { order_id: id, remaining_qty: qty }),
        ],
{
    let s0 = accept_start(v, id, qty);
    assert(match_spec(s0, id, side, price) == s0);
    let o = Order { id, side, price, qty, remaining_qty: qty, sequence: (v.next_seq + 1) as u64 };
    let a = limit_spec(v, id, side, price, qty).book;
    let b = v.bump(1);
    assert(a == rest_order(b, o));
    assert(level_qty_at(b, side, price) == level_qty_at(v, side, price));
    lemma_rest_wf(b, o);
    let levels = v.levels(side);
    assert(a.levels(side) == insert_id(levels, side, price, id));
    lemma_remove_after_insert(a.orders, levels, side, price, id);
    assert(a.orders[id] == o);
    assert(a.orders.remove(id) =~= v.orders);
    let c = cancel_spec(a, id).book;
    assert(c.bids == v.bids);
    assert(c.asks == v.asks);
    assert(c == v.bump(2));
}

/// A limit order is checked in this order: quantity zero, price zero, an id already
/// resting. A failed check emits exactly one `Rejected` event with that reason and
/// leaves the book as it was (its event counter one further on); an order that passes
/// every check is first reported `Accepted`.
pub proof fn lemma_limit_checks(v: BookView, id: OrderId, side: Side, price: Price, qty: Qty)
    requires
        v.wf(),
    ensures
        ({
            let o = limit_spec(v, id, side, price, qty);
            let rejected = |reason: RejectReason|
                o.events == seq![stamp(v.next_seq, BookEventKind::Rejected { order_id: id, reason })] && o.book
                    == v.bump(1);
            if qty == 0 {
                rejected(RejectReason::InvalidQuantity)
            } else if price == 0 {
                rejected(RejectReason::InvalidPrice)
            } else if v.orders.contains_key(id) {
                rejected(RejectReason::DuplicateOrderId)
            } else {
                o.events.len() >= 1 && o.events[0] == stamp(v.next_seq, BookEventKind::Accepted { order_id: id })
            }
        }),
{
    if qty != 0 && price != 0 && !v.orders.contains_key(id) {
        let s0 = accept_start(v, id, qty);
        lemma_match_wf(s0, id, side, price);
        let m = match_spec(s0, id, side, price);
        assert(m.events.subrange(0, 1)[0] == m.events[0]);
    }
}

/// A market order is checked for quantity zero, then for an id already resting; a
/// failed check emits one `Rejected` event and leaves the book as it was; otherwise
/// the order is first reported `Accepted`.
pub proof fn lemma_market_checks(v: BookView, id: OrderId, side: Side, qty: Qty)
    requires
        v.wf(),
    ensures
        ({
            let o = market_spec(v, id, side, qty);
            if qty == 0 {
                o.events == seq![stamp(v.next_seq, BookEventKind::Rejected { order_id: id, reason: RejectReason::InvalidQuantity })]
                    && o.book == v.bump(1)
            } else if v.orders.contains_key(id) {
                o.events == seq![stamp(v.next_seq, BookEventKind::Rejected { order_id: id, reason: RejectReason::DuplicateOrderId })]
                    && o.book == v.bump(1)
            } else {
                o.events.len() >= 1 && o.events[0] == stamp(v.next_seq, BookEventKind::Accepted { order_id: id })
            }
        }),
{
    if qty != 0 && !v.orders.contains_key(id) {
        let s0 = accept_start(v, id, qty);
        lemma_match_wf(s0, id, side, crate::lob::model::market_limit(side));
        let m = match_spec(s0, id, side, crate::lob::model::market_limit(side));
        assert(m.events.subrange(0, 1)[0] == m.events[0]);
    }
}

/// Cancelling an unknown id emits exactly one `Rejected` (`UnknownOrder`) and leaves
/// the book as it was; cancelling a resting order emits exactly one `Cancelled` with
/// its open quantity and removes it, and only it, from the resting orders.
pub proof fn lemma_cancel_outcome(v: BookView, id: OrderId)
    requires
        v.wf(),
    ensures
        ({
            let o = cancel_spec(v, id);
            if !v.orders.contains_key(id) {
                o.events == seq![stamp(v.next_seq, BookEventKind::Rejected { order_id: id, reason: RejectReason::UnknownOrder })]
                    && o.book == v.bump(1)
            } else {
                &&& o.events == seq![
                    stamp(
                        v.next_seq,
                        BookEventKind::Cancelled { order_id: id, remaining_qty: v.orders[id].remaining_qty },
                    ),
                ]
                &&& o.book.orders == v.orders.remove(id)
                &&& o.book.next_seq == v.next_seq + 1
                &&& v.orders.dom().finite() ==> o.book.orders.len() == v.orders.len() - 1
            }
        }),
{
}

/// Quantity traded by the fills among `events`.
pub open spec fn fill_total(events: Seq<BookEvent>) -> nat
    decreases events.len(),
{
    if events.len() == 0 {
        0
    } else {
        fill_total(events.drop_last()) + match events.last().kind {
            BookEventKind::Fill { qty, .. } => qty as nat,
            _ => 0,
        }
    }
}

/// Every fill among `events` is of aggressor `agg`, at a price that its limit `limit`
/// on `side` allows.
pub open spec fn fills_within(events: Seq<BookEvent>, agg: OrderId, side: Side, limit: Price) -> bool {
    forall|i: int|
        0 <= i < events.len() ==> match (#[trigger] events[i]).kind {
            BookEventKind::Fill { aggressor_order_id, price, .. } => aggressor_order_id == agg && crosses(
                side,
                limit,
                price,
            ),
            _ => true,
        }
}

/// The best bid is below the best ask, where both exist.
pub open spec fn uncrossed(v: BookView) -> bool {
    v.bids.len() > 0 && v.asks.len() > 0 ==> v.bids[0].price < v.asks[0].price
}

proof fn lemma_fill_total_concat(a: Seq<BookEvent>, b: Seq<BookEvent>)
    ensures
        fill_total(a + b) == fill_total(a) + fill_total(b),
    decreases b.len(),
{
    if b.len() > 0 {
        lemma_fill_total_concat(a, b.drop_last());
        assert((a + b).drop_last() =~= a + b.drop_last());
        assert((a + b).last() == b.last());
    } else {
        assert(a + b =~= a);
    }
}

/// Matching fills only at prices the limit allows, trades exactly the quantity it
/// takes off the aggressor, stops with quantity left only where no opposite level
/// crosses the limit, and never makes the best opposite price better.
proof fn lemma_match_fills(s: MatchState, agg: OrderId, side: Side, limit: Price)
    requires
        s.book.wf(),
    ensures
        ({
            let m = match_spec(s, agg, side, limit);
            let opp = side.spec_opposite();
            let fresh = m.events.subrange(s.events.len() as int, m.events.len() as int);
            &&& fills_within(fresh, agg, side, limit)
            &&& fill_total(fresh) + m.qty == s.qty
            &&& m.qty > 0 ==> m.book.levels(opp).len() == 0 || !crosses(side, limit, m.book.levels(opp)[0].price)
            &&& m.book.levels(opp).len() > 0 ==> s.book.levels(opp).len() > 0 && !better(
                opp,
                m.book.levels(opp)[0].price,
                s.book.levels(opp)[0].price,
            )
        }),
    decreases total_ids(s.book.levels(side.spec_opposite())),
{
    let m = match_spec(s, agg, side, limit);
    let opp = side.spec_opposite();
    let levels = s.book.levels(opp);
    lemma_match_wf(s, agg, side, limit);
    if s.qty == 0 || levels.len() == 0 || !crosses(side, limit, levels[0].price) || levels[0].ids.len() == 0 {
        assert(m == s);
        assert(m.events.subrange(s.events.len() as int, m.events.len() as int) =~= Seq::<BookEvent>::empty());
    } else {
        let next = match_step(s, agg, side);
        lemma_match_step_wf(s, agg, side);
        let v = s.book;
        let pid = levels[0].ids[0];
        let p = v.orders[pid];
        assert(p.price == levels[0].price);
        let step = next.events.subrange(s.events.len() as int, next.events.len() as int);
        let fill = stamp(
            v.next_seq,
            BookEventKind::Fill {
                aggressor_order_id: agg,
                passive_order_id: pid,
                price: p.price,
                qty: if s.qty >= p.remaining_qty { p.remaining_qty } else { s.qty },
            },
        );
        if s.qty >= p.remaining_qty {
            let done = stamp(v.next_seq + 1, BookEventKind::Filled { order_id: pid });
            assert(step =~= seq![fill, done]);
            assert(seq![fill, done].drop_last() =~= seq![fill]);
            assert(seq![fill].drop_last() =~= Seq::<BookEvent>::empty());
            assert(fill_total(Seq::<BookEvent>::empty()) == 0);
            assert(seq![fill].last() == fill);
            assert(fill_total(seq![fill]) == p.remaining_qty);
            assert(seq![fill, done].last() == done);
            assert(fill_total(seq![fill, done]) == fill_total(seq![fill]));
            assert(fill_total(step) == p.remaining_qty);
            let nl = next.book.levels(opp);
            if nl.len() > 0 {
                if levels[0].ids.len() > 1 {
                    assert(nl[0].price == levels[0].price);
                } else {
                    assert(nl =~= levels.drop_first());
                    assert(nl[0] == levels[1]);
                }
            }
        } else {
            assert(step =~= seq![fill]);
            assert(seq![fill].drop_last() =~= Seq::<BookEvent>::empty());
            assert(fill_total(Seq::<BookEvent>::empty()) == 0);
            assert(seq![fill].last() == fill);
            assert(fill_total(seq![fill]) == s.qty);
            assert(fill_total(step) == s.qty);
            assert(next.book.levels(opp) == levels);
        }
        assert(fills_within(step, agg, side, limit));
        if next.qty == 0 {
            assert(m == next);
        } else {
            lemma_match_step_shrinks(s, agg, side);
            lemma_match_fills(next, agg, side, limit);
            lemma_match_wf(next, agg, side, limit);
            assert(m == match_spec(next, agg, side, limit));
            let rest = m.events.subrange(next.events.len() as int, m.events.len() as int);
            let fresh = m.events.subrange(s.events.len() as int, m.events.len() as int);
            assert(m.events.subrange(0, next.events.len() as int) == next.events);
            assert(fresh =~= step + rest) by {
                assert forall|i: int| 0 <= i < fresh.len() implies fresh[i] == (step + rest)[i] by {
                    if i < step.len() {
                        assert(m.events[s.events.len() + i] == m.events.subrange(0, next.events.len() as int)[s.events.len() + i]);
                    }
                }
            }
            lemma_fill_total_concat(step, rest);
            assert forall|i: int| 0 <= i < fresh.len() implies match (#[trigger] fresh[i]).kind {
                BookEventKind::Fill { aggressor_order_id, price, .. } => aggressor_order_id == agg && crosses(side, limit, price),
                _ => true,
            } by {
                if i < step.len() {
                    assert(fresh[i] == step[i]);
                } else {
                    assert(fresh[i] == rest[i - step.len()]);
                }
            }
        }
    }
}

/// A limit order that passes its checks on an uncrossed book fills only at prices its
/// limit allows; what it fills plus what rests of it is its quantity; it rests (with
/// its full quantity and price recorded) exactly when it was not filled completely;
/// and the book stays uncrossed.
pub proof fn lemma_limit_fills(v: BookView, id: OrderId, side: Side, price: Price, qty: Qty)
    requires
        v.wf(),
        uncrossed(v),
        qty > 0,
        price > 0,
        !v.orders.contains_key(id),
    ensures
        ({
            let o = limit_spec(v, id, side, price, qty);
            let rests = o.book.orders.contains_key(id);
            &&& fills_within(o.events, id, side, price)
            &&& fill_total(o.events) + (if rests { o.book.orders[id].remaining_qty as nat } else { 0 }) == qty
            &&& rests <==> fill_total(o.events) < qty
            &&& rests ==> o.book.orders[id].qty == qty && o.book.orders[id].price == price && o.book.orders[id].side
                == side
            &&& uncrossed(o.book)
        }),
{
    let s0 = accept_start(v, id, qty);
    let m = match_spec(s0, id, side, price);
    let opp = side.spec_opposite();
    lemma_match_wf(s0, id, side, price);
    lemma_match_fills(s0, id, side, price);
    let fresh = m.events.subrange(1, m.events.len() as int);
    assert(m.events =~= s0.events + fresh) by {
        assert(m.events.subrange(0, 1) == s0.events);
    }
    lemma_fill_total_concat(s0.events, fresh);
    assert(s0.events.drop_last() =~= Seq::<BookEvent>::empty());
    assert(fill_total(Seq::<BookEvent>::empty()) == 0);
    assert(s0.events.last() == s0.events[0]);
    assert(fill_total(s0.events) == 0);
    assert(fills_within(m.events, id, side, price)) by {
        assert forall|i: int| 0 <= i < m.events.len() implies match (#[trigger] m.events[i]).kind {
            BookEventKind::Fill { aggressor_order_id, price: fp, .. } => aggressor_order_id == id && crosses(side, price, fp),
            _ => true,
        } by {
            if i >= 1 {
                assert(m.events[i] == fresh[i - 1]);
            } else {
                assert(m.events[0] == s0.events[0]);
            }
        }
    }
    let o = limit_spec(v, id, side, price, qty);
    if m.qty == 0 {
        let done = stamp(m.book.next_seq, BookEventKind::Filled { order_id: id });
        assert(o.events == m.events.push(done));
        assert(o.events.drop_last() =~= m.events);
        assert(fill_total(o.events) == fill_total(m.events));
        assert forall|i: int| 0 <= i < o.events.len() implies match (#[trigger] o.events[i]).kind {
            BookEventKind::Fill { aggressor_order_id, price: fp, .. } => aggressor_order_id == id && crosses(side, price, fp),
            _ => true,
        } by {
            if i < m.events.len() {
                assert(o.events[i] == m.events[i]);
            }
        }
        assert(!o.book.orders.contains_key(id));
        assert(o.book.levels(side) == v.levels(side));
    } else {
        let ord = Order { id, side, price, qty, remaining_qty: m.qty, sequence: (v.next_seq + 1) as u64 };
        assert(o.book == rest_order(m.book, ord));
        assert(o.book.orders[id] == ord);
        assert(o.book.levels(opp) == m.book.levels(opp)) by {
            assert(side != opp);
        }
        let own = m.book.levels(side);
        assert(own == v.levels(side));
        let pos = insert_pos(own, side, price) as int;
        lemma_insert_pos(own, side, price);
        let nown = insert_id(own, side, price, id);
        assert(o.book.levels(side) == nown);
        assert(nown.len() > 0);
        assert(nown[0].price == price || (own.len() > 0 && nown[0].price == own[0].price)) by {
            if pos < own.len() && own[pos].price == price {
                if pos == 0 {
                } else {
                    assert(nown[0] == own[0]);
                }
            } else {
                if pos == 0 {
                } else {
                    assert(nown[0] == own[0]);
                }
            }
        }
    }
}

} // verus!
