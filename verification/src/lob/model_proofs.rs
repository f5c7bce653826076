//! Lemmas about the book model: level sums and preservation of well-formedness.
use vstd::prelude::*;
use crate::lob::types::{OrderId, Price, Qty, Side};
use crate::lob::order::Order;
use crate::lob::model::{cancel_spec, reduce_spec, remove_id, id_index, insert_id, insert_pos, level_index, level_qty_at, rest_order, lemma_match_step_shrinks, total_ids, BookView, LevelView, MatchState, better, crosses, in_levels, level_sum, match_spec, match_step, resting_at, side_wf};

verus! {

pub proof fn lemma_level_sum_agree(o1: Map<OrderId, Order>, o2: Map<OrderId, Order>, ids: Seq<OrderId>)
    requires
        forall|k: int|
            0 <= k < ids.len() ==> o1[#[trigger] ids[k]].remaining_qty == o2[ids[k]].remaining_qty,
    ensures
        level_sum(o1, ids) == level_sum(o2, ids),
    decreases ids.len(),
{
    if ids.len() > 0 {
        let t = ids.drop_first();
        assert forall|k: int| 0 <= k < t.len() implies o1[#[trigger] t[k]].remaining_qty
            == o2[t[k]].remaining_qty by {
            assert(t[k] == ids[k + 1]);
        }
        lemma_level_sum_agree(o1, o2, t);
    }
}

pub proof fn lemma_level_sum_push(o: Map<OrderId, Order>, ids: Seq<OrderId>, x: OrderId)
    ensures
        level_sum(o, ids.push(x)) == level_sum(o, ids) + o[x].remaining_qty,
    decreases ids.len(),
{
    if ids.len() == 0 {
        assert(ids.push(x).drop_first() =~= Seq::<OrderId>::empty());
        assert(level_sum(o, ids.push(x).drop_first()) == 0);
        assert(ids.push(x)[0] == x);
    } else {
        assert(ids.push(x)[0] == ids[0]);
        assert(ids.push(x).drop_first() =~= ids.drop_first().push(x));
        lemma_level_sum_push(o, ids.drop_first(), x);
    }
}

pub proof fn lemma_level_sum_remove(o: Map<OrderId, Order>, ids: Seq<OrderId>, k: int)
    requires
        0 <= k < ids.len(),
    ensures
        level_sum(o, ids) == level_sum(o, ids.remove(k)) + o[ids[k]].remaining_qty,
    decreases k,
{
    if k == 0 {
        assert(ids.remove(0) =~= ids.drop_first());
    } else {
        assert(ids.remove(k).drop_first() =~= ids.drop_first().remove(k - 1));
        assert(ids.remove(k)[0] == ids[0]);
        lemma_level_sum_remove(o, ids.drop_first(), k - 1);
    }
}

/// Changing only order `x`, which appears once in `ids` at `k`, changes the sum by its change.
pub proof fn lemma_level_sum_update(o: Map<OrderId, Order>, ids: Seq<OrderId>, k: int, x: OrderId, ox: Order)
    requires
        0 <= k < ids.len(),
        ids[k] == x,
        ids.no_duplicates(),
    ensures
        level_sum(o.insert(x, ox), ids) + o[x].remaining_qty == level_sum(o, ids) + ox.remaining_qty,
{
    let o2 = o.insert(x, ox);
    lemma_level_sum_remove(o, ids, k);
    lemma_level_sum_remove(o2, ids, k);
    let r = ids.remove(k);
    assert forall|j: int| 0 <= j < r.len() implies o2[#[trigger] r[j]].remaining_qty
        == o[r[j]].remaining_qty by {
        if j < k {
            assert(r[j] == ids[j]);
        } else {
            assert(r[j] == ids[j + 1]);
        }
    }
    lemma_level_sum_agree(o2, o, r);
}

/// Removing order `x`, not among `ids`, leaves their sum unchanged.
pub proof fn lemma_level_sum_without(o: Map<OrderId, Order>, ids: Seq<OrderId>, x: OrderId)
    requires
        !ids.contains(x),
    ensures
        level_sum(o.remove(x), ids) == level_sum(o, ids),
{
    assert forall|k: int| 0 <= k < ids.len() implies o.remove(x)[#[trigger] ids[k]].remaining_qty
        == o[ids[k]].remaining_qty by {
        assert(ids[k] != x);
    }
    lemma_level_sum_agree(o.remove(x), o, ids);
}

/// Updating order `x`, not among `ids`, leaves their sum unchanged.
pub proof fn lemma_level_sum_other(o: Map<OrderId, Order>, ids: Seq<OrderId>, x: OrderId, ox: Order)
    requires
        !ids.contains(x),
    ensures
        level_sum(o.insert(x, ox), ids) == level_sum(o, ids),
{
    assert forall|k: int| 0 <= k < ids.len() implies o.insert(x, ox)[#[trigger] ids[k]].remaining_qty
        == o[ids[k]].remaining_qty by {
        assert(ids[k] != x);
    }
    lemma_level_sum_agree(o.insert(x, ox), o, ids);
}

/// An order resting on one level of a well-formed side is in no other level.
pub proof fn lemma_unique_level(orders: Map<OrderId, Order>, levels: Seq<LevelView>, side: Side, i: int, j: int, k: int)
    requires
        side_wf(orders, levels, side),
        0 <= i < levels.len(),
        0 <= j < levels.len(),
        i != j,
        0 <= k < levels[i].ids.len(),
    ensures
        !levels[j].ids.contains(levels[i].ids[k]),
{
    if levels[j].ids.contains(levels[i].ids[k]) {
        let m = choose|m: int| 0 <= m < levels[j].ids.len() && levels[j].ids[m] == levels[i].ids[k];
        assert(resting_at(orders, levels[j].ids[m], side, levels[j].price));
        assert(resting_at(orders, levels[i].ids[k], side, levels[i].price));
        if i < j {
            assert(better(side, levels[i].price, levels[j].price));
        } else {
            assert(better(side, levels[j].price, levels[i].price));
        }
    }
}

/// Orders on one side are not on the other.
pub proof fn lemma_other_side(v: BookView, side: Side, i: int, k: int, x: OrderId)
    requires
        v.wf(),
        0 <= i < v.levels(side).len(),
        0 <= k < v.levels(side)[i].ids.len(),
        v.orders.contains_key(x),
        v.orders[x].side != side,
    ensures
        v.levels(side)[i].ids[k] != x,
{
    assert(resting_at(v.orders, v.levels(side)[i].ids[k], side, v.levels(side)[i].price));
}

/// If the orders of one side's ids agree between two order maps, the side stays well formed.
pub proof fn lemma_side_wf_agree(o1: Map<OrderId, Order>, o2: Map<OrderId, Order>, levels: Seq<LevelView>, side: Side)
    requires
        side_wf(o1, levels, side),
        forall|i: int, k: int|
            0 <= i < levels.len() && 0 <= k < levels[i].ids.len() ==> o2.contains_key(
                #[trigger] levels[i].ids[k],
            ) && o2[levels[i].ids[k]] == o1[levels[i].ids[k]],
    ensures
        side_wf(o2, levels, side),
{
    assert forall|i: int| 0 <= i < levels.len() implies level_sum(o2, #[trigger] levels[i].ids)
        <= u64::MAX by {
        assert forall|k: int| 0 <= k < levels[i].ids.len() implies o1[#[trigger] levels[i].ids[k]].remaining_qty
            == o2[levels[i].ids[k]].remaining_qty by {}
        lemma_level_sum_agree(o1, o2, levels[i].ids);
    }
    assert forall|i: int, k: int|
        0 <= i < levels.len() && 0 <= k < levels[i].ids.len() implies resting_at(
        o2,
        #[trigger] levels[i].ids[k],
        side,
        levels[i].price,
    ) by {
        assert(resting_at(o1, levels[i].ids[k], side, levels[i].price));
    }
}


/// Levels of a side other than `side` are untouched by `with_levels(side, ..)`.
pub proof fn lemma_with_levels(v: BookView, side: Side, levels: Seq<LevelView>, other: Side)
    ensures
        v.with_levels(side, levels).levels(side) == levels,
        other != side ==> v.with_levels(side, levels).levels(other) == v.levels(other),
        v.with_levels(side, levels).orders == v.orders,
        v.with_levels(side, levels).next_seq == v.next_seq,
{
}

/// One matching step keeps the book well formed.
pub proof fn lemma_match_step_wf(s: MatchState, agg: OrderId, side: Side)
    requires
        s.book.wf(),
        s.qty > 0,
        s.book.levels(side.spec_opposite()).len() > 0,
    ensures
        match_step(s, agg, side).book.wf(),
{
    let v = s.book;
    let opp = side.spec_opposite();
    let levels = v.levels(opp);
    let lvl = levels[0];
    let pid = lvl.ids[0];
    let p = v.orders[pid];
    let n = match_step(s, agg, side).book;
    lemma_with_levels(v, opp, n.levels(opp), side);
    assert(resting_at(v.orders, lvl.ids[0], opp, lvl.price));
    // The own side does not hold pid.
    assert forall|i: int, k: int|
        0 <= i < v.levels(side).len() && 0 <= k < v.levels(side)[i].ids.len() implies
        #[trigger] v.levels(side)[i].ids[k] != pid by {
        lemma_other_side(v, side, i, k, pid);
    }
    if s.qty >= p.remaining_qty {
        let o2 = v.orders.remove(pid);
        let rest = lvl.ids.drop_first();
        let tail = levels.drop_first();
        let nl = n.levels(opp);
        assert(n.orders == o2);
        // own side keeps its orders
        assert(n.levels(side) == v.levels(side));
        lemma_side_wf_agree(v.orders, o2, v.levels(side), side);
        // tail levels keep their orders
        assert forall|i: int, k: int| 0 <= i < tail.len() && 0 <= k < tail[i].ids.len() implies
            o2.contains_key(#[trigger] tail[i].ids[k]) && o2[tail[i].ids[k]] == v.orders[tail[i].ids[k]] by {
            assert(tail[i] == levels[i + 1]);
            lemma_unique_level(v.orders, levels, opp, i + 1, 0, k);
            assert(levels[i + 1].ids[k] != pid);
        }
        assert(side_wf(v.orders, tail, opp)) by {
            assert forall|i: int, j: int| 0 <= i < j < tail.len() implies better(opp, #[trigger] tail[i].price, #[trigger] tail[j].price) by {
                assert(tail[i] == levels[i + 1] && tail[j] == levels[j + 1]);
            }
            assert forall|i: int| 0 <= i < tail.len() implies {
                &&& (#[trigger] tail[i]).ids.len() > 0
                &&& tail[i].ids.no_duplicates()
                &&& level_sum(v.orders, tail[i].ids) <= u64::MAX
            } by {
                assert(tail[i] == levels[i + 1]);
            }
            assert forall|i: int, k: int| 0 <= i < tail.len() && 0 <= k < tail[i].ids.len() implies
                resting_at(v.orders, #[trigger] tail[i].ids[k], opp, tail[i].price) by {
                assert(tail[i] == levels[i + 1]);
            }
        }
        lemma_side_wf_agree(v.orders, o2, tail, opp);
        if rest.len() == 0 {
            assert(nl == tail);
        } else {
            let l2 = LevelView { price: lvl.price, ids: rest };
            assert(nl == seq![l2] + tail);
            assert(!rest.contains(pid)) by {
                if rest.contains(pid) {
                    let m = choose|m: int| 0 <= m < rest.len() && rest[m] == pid;
                    assert(lvl.ids[m + 1] == lvl.ids[0]);
                }
            }
            lemma_level_sum_without(v.orders, rest, pid);
            assert(level_sum(v.orders, lvl.ids) == p.remaining_qty + level_sum(v.orders, rest));
            assert(rest.no_duplicates()) by {
                assert forall|a: int, b: int| 0 <= a < b < rest.len() implies rest[a] != rest[b] by {
                    assert(rest[a] == lvl.ids[a + 1] && rest[b] == lvl.ids[b + 1]);
                }
            }
            assert forall|i: int, j: int| 0 <= i < j < nl.len() implies better(opp, #[trigger] nl[i].price, #[trigger] nl[j].price) by {
                assert(nl[j] == levels[j]);
                if i > 0 {
                    assert(nl[i] == levels[i]);
                } else {
                    assert(nl[i].price == levels[0].price);
                }
            }
            assert forall|i: int| 0 <= i < nl.len() implies {
                &&& (#[trigger] nl[i]).ids.len() > 0
                &&& nl[i].ids.no_duplicates()
                &&& level_sum(o2, nl[i].ids) <= u64::MAX
            } by {
                if i > 0 {
                    assert(nl[i] == tail[i - 1]);
                }
            }
            assert forall|i: int, k: int| 0 <= i < nl.len() && 0 <= k < nl[i].ids.len() implies
                resting_at(o2, #[trigger] nl[i].ids[k], opp, nl[i].price) by {
                if i > 0 {
                    assert(nl[i] == tail[i - 1]);
                } else {
                    assert(nl[0].ids[k] == lvl.ids[k + 1]);
                    assert(resting_at(v.orders, lvl.ids[k + 1], opp, lvl.price));
                    assert(lvl.ids[k + 1] != pid);
                }
            }
        }
        // Every remaining order is still in a level of its side.
        assert forall|id: OrderId| #[trigger] n.orders.contains_key(id) implies in_levels(
            n.levels(n.orders[id].side),
            id,
        ) by {
            assert(v.orders.contains_key(id) && id != pid);
            assert(in_levels(v.levels(v.orders[id].side), id));
            if v.orders[id].side == opp {
                let (i, k) = choose|i: int, k: int|
                    0 <= i < levels.len() && 0 <= k < levels[i].ids.len() && #[trigger] levels[i].ids[k] == id;
                if i == 0 {
                    assert(k > 0);
                    assert(rest[k - 1] == id);
                    assert(nl[0].ids[k - 1] == id);
                } else if rest.len() == 0 {
                    assert(nl[i - 1] == levels[i]);
                    assert(nl[i - 1].ids[k] == id);
                } else {
                    assert(nl[i] == levels[i]);
                    assert(nl[i].ids[k] == id);
                }
            } else {
                assert(v.orders[id].side == side);
            }
        }
    } else {
        let np = Order { remaining_qty: (p.remaining_qty - s.qty) as u64, ..p };
        let o2 = v.orders.insert(pid, np);
        assert(n.orders == o2);
        assert(n.levels(opp) == levels);
        assert(n.levels(side) == v.levels(side));
        lemma_side_wf_agree(v.orders, o2, v.levels(side), side);
        assert forall|i: int| 0 <= i < levels.len() implies {
            &&& (#[trigger] levels[i]).ids.len() > 0
            &&& levels[i].ids.no_duplicates()
            &&& level_sum(o2, levels[i].ids) <= u64::MAX
        } by {
            if i == 0 {
                lemma_level_sum_update(v.orders, lvl.ids, 0, pid, np);
            } else {
                lemma_unique_level(v.orders, levels, opp, 0, i, 0);
                lemma_level_sum_other(v.orders, levels[i].ids, pid, np);
            }
        }
        assert forall|i: int, k: int| 0 <= i < levels.len() && 0 <= k < levels[i].ids.len() implies
            resting_at(o2, #[trigger] levels[i].ids[k], opp, levels[i].price) by {
            assert(resting_at(v.orders, levels[i].ids[k], opp, levels[i].price));
        }
        assert forall|id: OrderId| #[trigger] n.orders.contains_key(id) implies in_levels(
            n.levels(n.orders[id].side),
            id,
        ) by {
            assert(v.orders.contains_key(id));
            assert(in_levels(v.levels(v.orders[id].side), id));
        }
    }
}


/// Matching keeps the book well formed, only shrinks the quantity and the set of
/// orders, and leaves the aggressor's own side untouched.
pub proof fn lemma_match_wf(s: MatchState, agg: OrderId, side: Side, limit: Price)
    requires
        s.book.wf(),
    ensures
        ({
            let m = match_spec(s, agg, side, limit);
            &&& m.book.wf()
            &&& m.qty <= s.qty
            &&& m.book.levels(side) == s.book.levels(side)
            &&& m.book.next_seq >= s.book.next_seq
            &&& m.book.next_seq - s.book.next_seq == m.events.len() - s.events.len()
            &&& m.events.len() >= s.events.len()
            &&& m.events.subrange(0, s.events.len() as int) == s.events
            &&& forall|id: OrderId| #[trigger] m.book.orders.contains_key(id) ==> s.book.orders.contains_key(id)
            &&& forall|id: OrderId|
                s.book.orders.contains_key(id) && s.book.orders[id].side == side ==> #[trigger] m.book.orders.contains_key(id)
                    && m.book.orders[id] == s.book.orders[id]
        }),
    decreases total_ids(s.book.levels(side.spec_opposite())),
{
    let opp = side.spec_opposite();
    let levels = s.book.levels(opp);
    if s.qty == 0 || levels.len() == 0 || !crosses(side, limit, levels[0].price) || levels[0].ids.len() == 0 {
        assert(s.events.subrange(0, s.events.len() as int) =~= s.events);
    } else {
        let next = match_step(s, agg, side);
        lemma_match_step_wf(s, agg, side);
        lemma_with_levels(s.book, opp, next.book.levels(opp), side);
        let pid = levels[0].ids[0];
        assert(resting_at(s.book.orders, levels[0].ids[0], opp, levels[0].price));
        assert(next.events.subrange(0, s.events.len() as int) =~= s.events);
        if next.qty == 0 {
        } else {
            lemma_match_step_shrinks(s, agg, side);
            lemma_match_wf(next, agg, side, limit);
            let m = match_spec(next, agg, side, limit);
            assert(m.events.subrange(0, s.events.len() as int) =~= next.events.subrange(0, next.events.len() as int).subrange(0, s.events.len() as int));
        }
    }
}


/// Where `insert_pos` lands in a sorted side.
pub proof fn lemma_insert_pos(levels: Seq<LevelView>, side: Side, price: Price)
    ensures
        insert_pos(levels, side, price) <= levels.len(),
        forall|j: int| 0 <= j < insert_pos(levels, side, price) ==> better(side, #[trigger] levels[j].price, price),
        insert_pos(levels, side, price) < levels.len() ==> !better(side, levels[insert_pos(levels, side, price) as int].price, price),
    decreases levels.len(),
{
    if levels.len() > 0 && better(side, levels[0].price, price) {
        let t = levels.drop_first();
        lemma_insert_pos(t, side, price);
        assert forall|j: int| 0 <= j < insert_pos(levels, side, price) implies better(side, #[trigger] levels[j].price, price) by {
            if j > 0 {
                assert(levels[j] == t[j - 1]);
            }
        }
    }
}

/// On a sorted side, at most one level has a given price.
pub proof fn lemma_level_index(orders: Map<OrderId, Order>, levels: Seq<LevelView>, side: Side, i: int)
    requires
        side_wf(orders, levels, side),
        0 <= i < levels.len(),
    ensures
        level_index(levels, levels[i].price) == i,
{
    let li = level_index(levels, levels[i].price);
    assert(0 <= li < levels.len() && levels[li].price == levels[i].price);
    if li < i {
        assert(better(side, levels[li].price, levels[i].price));
    } else if li > i {
        assert(better(side, levels[i].price, levels[li].price));
    }
}

#[verifier::spinoff_prover]
proof fn lemma_rest_wf_join(v: BookView, o: Order)

    requires
        (insert_pos(v.levels(o.side), o.side, o.price) as int) < v.levels(o.side).len() && v.levels(o.side)[insert_pos(v.levels(o.side), o.side, o.price) as int].price == o.price,
        v.wf(),
        !v.orders.contains_key(o.id),
        o.remaining_qty > 0,
        level_qty_at(v, o.side, o.price) + o.remaining_qty <= u64::MAX,
    ensures
        rest_order(v, o).wf(),
        rest_order(v, o).levels(o.side.spec_opposite()) == v.levels(o.side.spec_opposite()),
{
    let side = o.side;
    let opp = side.spec_opposite();
    let price = o.price;
    let id = o.id;
    let levels = v.levels(side);
    let p = insert_pos(levels, side, price) as int;
    let nl = insert_id(levels, side, price, id);
    let o2 = v.orders.insert(id, o);
    let n = rest_order(v, o);
    lemma_with_levels(v, side, nl, opp);
    lemma_insert_pos(levels, side, price);
    assert(n.orders == o2 && n.levels(side) == nl);
    // No level holds the fresh id.
    assert forall|s2: Side, i: int, k: int|
        0 <= i < v.levels(s2).len() && 0 <= k < v.levels(s2)[i].ids.len() implies
        #[trigger] v.levels(s2)[i].ids[k] != id by {
        if s2 == Side::Buy {
            assert(resting_at(v.orders, v.bids[i].ids[k], Side::Buy, v.bids[i].price));
        } else {
            assert(resting_at(v.orders, v.asks[i].ids[k], Side::Sell, v.asks[i].price));
        }
    }
    lemma_side_wf_agree(v.orders, o2, v.levels(opp), opp);
    assert forall|i: int| 0 <= i < levels.len() implies level_sum(o2, #[trigger] levels[i].ids) == level_sum(v.orders, levels[i].ids) by {
        assert(!levels[i].ids.contains(id)) by {
            if levels[i].ids.contains(id) {
                let m = choose|m: int| 0 <= m < levels[i].ids.len() && levels[i].ids[m] == id;
                assert(levels[i].ids[m] != id);
            }
        }
        lemma_level_sum_other(v.orders, levels[i].ids, id, o);
    }
    // Ordering facts about the insertion point.
    assert forall|j: int| p <= j < levels.len() implies !better(side, #[trigger] levels[j].price, price) by {
        if j > p {
            assert(better(side, levels[p].price, levels[j].price));
        }
    }
    let ids = levels[p].ids;
    lemma_level_index(v.orders, levels, side, p);
    assert(level_qty_at(v, side, price) == level_sum(v.orders, ids));
    let l2 = LevelView { price, ids: ids.push(id) };
    assert(nl == levels.update(p, l2));
    lemma_level_sum_push(o2, ids, id);
    assert(!ids.contains(id)) by {
        if ids.contains(id) {
            let m = choose|m: int| 0 <= m < ids.len() && ids[m] == id;
            assert(ids[m] != id);
        }
    }
    assert(ids.push(id).no_duplicates()) by {
        assert forall|a: int, b: int| 0 <= a < b < ids.push(id).len() implies ids.push(id)[a] != ids.push(id)[b] by {
            if b == ids.len() {
                assert(ids.push(id)[a] == ids[a]);
            }
        }
    }
    assert(side_wf(o2, nl, side)) by {
        assert forall|i: int, j: int| 0 <= i < j < nl.len() implies better(side, #[trigger] nl[i].price, #[trigger] nl[j].price) by {
            assert(nl[i].price == levels[i].price && nl[j].price == levels[j].price);
        }
        assert forall|i: int| 0 <= i < nl.len() implies {
            &&& (#[trigger] nl[i]).ids.len() > 0
            &&& nl[i].ids.no_duplicates()
            &&& level_sum(o2, nl[i].ids) <= u64::MAX
        } by {
            if i != p {
                assert(nl[i] == levels[i]);
            }
        }
        assert forall|i: int, k: int| 0 <= i < nl.len() && 0 <= k < nl[i].ids.len() implies
            resting_at(o2, #[trigger] nl[i].ids[k], side, nl[i].price) by {
            if i != p {
                assert(nl[i] == levels[i]);
                assert(resting_at(v.orders, levels[i].ids[k], side, levels[i].price));
            } else if k < ids.len() {
                assert(nl[i].ids[k] == ids[k]);
                assert(resting_at(v.orders, levels[i].ids[k], side, levels[i].price));
            }
        }
    }
    assert forall|x: OrderId| #[trigger] n.orders.contains_key(x) implies in_levels(n.levels(n.orders[x].side), x) by {
        if x == id {
            assert(nl[p].ids[ids.len() as int] == id);
        } else {
            assert(in_levels(v.levels(v.orders[x].side), x));
            if v.orders[x].side == side {
                let (i, k) = choose|i: int, k: int|
                    0 <= i < levels.len() && 0 <= k < levels[i].ids.len() && #[trigger] levels[i].ids[k] == x;
                if i == p {
                    assert(nl[p].ids[k] == x);
                } else {
                    assert(nl[i].ids[k] == x);
                }
            }
        }
    }

}

proof fn lemma_sorted_insert(levels: Seq<LevelView>, side: Side, p: int, l2: LevelView)
    requires
        0 <= p <= levels.len(),
        forall|i: int, j: int|
            0 <= i < j < levels.len() ==> better(side, #[trigger] levels[i].price, #[trigger] levels[j].price),
        forall|j: int| 0 <= j < p ==> better(side, #[trigger] levels[j].price, l2.price),
        forall|j: int| p <= j < levels.len() ==> better(side, l2.price, #[trigger] levels[j].price),
    ensures
        forall|i: int, j: int|
            0 <= i < j < levels.insert(p, l2).len() ==> better(
                side,
                #[trigger] levels.insert(p, l2)[i].price,
                #[trigger] levels.insert(p, l2)[j].price,
            ),
{
    let nl = levels.insert(p, l2);
    assert forall|i: int, j: int| 0 <= i < j < nl.len() implies better(side, #[trigger] nl[i].price, #[trigger] nl[j].price) by {
        if j < p {
            assert(nl[i] == levels[i] && nl[j] == levels[j]);
        } else if j == p {
            assert(nl[i] == levels[i]);
        } else if i == p {
            assert(nl[j] == levels[j - 1]);
        } else if i < p {
            assert(nl[i] == levels[i] && nl[j] == levels[j - 1]);
        } else {
            assert(nl[i] == levels[i - 1] && nl[j] == levels[j - 1]);
        }
    }
}

#[verifier::spinoff_prover]
proof fn lemma_rest_wf_new(v: BookView, o: Order)

    requires
        !((insert_pos(v.levels(o.side), o.side, o.price) as int) < v.levels(o.side).len() && v.levels(o.side)[insert_pos(v.levels(o.side), o.side, o.price) as int].price == o.price),
        v.wf(),
        !v.orders.contains_key(o.id),
        o.remaining_qty > 0,
        level_qty_at(v, o.side, o.price) + o.remaining_qty <= u64::MAX,
    ensures
        rest_order(v, o).wf(),
        rest_order(v, o).levels(o.side.spec_opposite()) == v.levels(o.side.spec_opposite()),
{
    let side = o.side;
    let opp = side.spec_opposite();
    let price = o.price;
    let id = o.id;
    let levels = v.levels(side);
    let p = insert_pos(levels, side, price) as int;
    let nl = insert_id(levels, side, price, id);
    let o2 = v.orders.insert(id, o);
    let n = rest_order(v, o);
    lemma_with_levels(v, side, nl, opp);
    lemma_insert_pos(levels, side, price);
    assert(n.orders == o2 && n.levels(side) == nl);
    // No level holds the fresh id.
    assert forall|s2: Side, i: int, k: int|
        0 <= i < v.levels(s2).len() && 0 <= k < v.levels(s2)[i].ids.len() implies
        #[trigger] v.levels(s2)[i].ids[k] != id by {
        if s2 == Side::Buy {
            assert(resting_at(v.orders, v.bids[i].ids[k], Side::Buy, v.bids[i].price));
        } else {
            assert(resting_at(v.orders, v.asks[i].ids[k], Side::Sell, v.asks[i].price));
        }
    }
    lemma_side_wf_agree(v.orders, o2, v.levels(opp), opp);
    assert forall|i: int| 0 <= i < levels.len() implies level_sum(o2, #[trigger] levels[i].ids) == level_sum(v.orders, levels[i].ids) by {
        assert(!levels[i].ids.contains(id)) by {
            if levels[i].ids.contains(id) {
                let m = choose|m: int| 0 <= m < levels[i].ids.len() && levels[i].ids[m] == id;
                assert(levels[i].ids[m] != id);
            }
        }
        lemma_level_sum_other(v.orders, levels[i].ids, id, o);
    }
    // Ordering facts about the insertion point.
    assert forall|j: int| p <= j < levels.len() implies !better(side, #[trigger] levels[j].price, price) by {
        if j > p {
            assert(better(side, levels[p].price, levels[j].price));
        }
    }
    let l2 = LevelView { price, ids: seq![id] };
    assert(nl == levels.insert(p, l2));
    assert(!(exists|i: int| 0 <= i < levels.len() && #[trigger] levels[i].price == price)) by {
        if exists|i: int| 0 <= i < levels.len() && #[trigger] levels[i].price == price {
            let i = choose|i: int| 0 <= i < levels.len() && #[trigger] levels[i].price == price;
            if i < p {
                assert(better(side, levels[i].price, price));
            } else if i > p {
                assert(better(side, levels[p].price, levels[i].price));
                assert(!better(side, levels[p].price, price));
            }
        }
    }
    assert(level_sum(o2, seq![id]) == o.remaining_qty) by {
        assert(seq![id].drop_first() =~= Seq::<OrderId>::empty());
        assert(level_sum(o2, seq![id].drop_first()) == 0);
        assert(seq![id][0] == id);
    }
    assert forall|j: int| p <= j < levels.len() implies better(side, price, #[trigger] levels[j].price) by {
        assert(!better(side, levels[j].price, price));
        assert(levels[j].price != price);
    }
    lemma_sorted_insert(levels, side, p, l2);
    assert(side_wf(o2, nl, side)) by {
        assert forall|i: int| 0 <= i < nl.len() implies {
            &&& (#[trigger] nl[i]).ids.len() > 0
            &&& nl[i].ids.no_duplicates()
            &&& level_sum(o2, nl[i].ids) <= u64::MAX
        } by {
            if i < p {
                assert(nl[i] == levels[i]);
            } else if i > p {
                assert(nl[i] == levels[i - 1]);
            }
        }
        assert forall|i: int, k: int| 0 <= i < nl.len() && 0 <= k < nl[i].ids.len() implies
            resting_at(o2, #[trigger] nl[i].ids[k], side, nl[i].price) by {
            if i < p {
                assert(nl[i] == levels[i]);
                assert(resting_at(v.orders, levels[i].ids[k], side, levels[i].price));
            } else if i > p {
                assert(nl[i] == levels[i - 1]);
                assert(resting_at(v.orders, levels[i - 1].ids[k], side, levels[i - 1].price));
            }
        }
    }
    assert forall|x: OrderId| #[trigger] n.orders.contains_key(x) implies in_levels(n.levels(n.orders[x].side), x) by {
        if x == id {
            assert(nl[p].ids[0] == id);
        } else {
            assert(in_levels(v.levels(v.orders[x].side), x));
            if v.orders[x].side == side {
                let (i, k) = choose|i: int, k: int|
                    0 <= i < levels.len() && 0 <= k < levels[i].ids.len() && #[trigger] levels[i].ids[k] == x;
                if i < p {
                    assert(nl[i].ids[k] == x);
                } else {
                    assert(nl[i + 1].ids[k] == x);
                }
            }
        }
    }
}

/// Resting a fresh order keeps the book well formed.
pub proof fn lemma_rest_wf(v: BookView, o: Order)
    requires
        v.wf(),
        !v.orders.contains_key(o.id),
        o.remaining_qty > 0,
        level_qty_at(v, o.side, o.price) + o.remaining_qty <= u64::MAX,
    ensures
        rest_order(v, o).wf(),
        rest_order(v, o).levels(o.side.spec_opposite()) == v.levels(o.side.spec_opposite()),
{
    let p = insert_pos(v.levels(o.side), o.side, o.price) as int;
    if p < v.levels(o.side).len() && v.levels(o.side)[p].price == o.price {
        lemma_rest_wf_join(v, o);
    } else {
        lemma_rest_wf_new(v, o);
    }
}


/// A resting order is found at its level.
pub proof fn lemma_locate(v: BookView, id: OrderId) -> (r: (int, int))
    requires
        v.wf(),
        v.orders.contains_key(id),
    ensures
        0 <= r.0 < v.levels(v.orders[id].side).len(),
        r.0 == level_index(v.levels(v.orders[id].side), v.orders[id].price),
        0 <= r.1 < v.levels(v.orders[id].side)[r.0].ids.len(),
        v.levels(v.orders[id].side)[r.0].ids[r.1] == id,
        r.1 == id_index(v.levels(v.orders[id].side)[r.0].ids, id),
        v.levels(v.orders[id].side)[r.0].price == v.orders[id].price,
{
    let side = v.orders[id].side;
    let levels = v.levels(side);
    assert(in_levels(levels, id));
    let (i, k) = choose|i: int, k: int|
        0 <= i < levels.len() && 0 <= k < levels[i].ids.len() && #[trigger] levels[i].ids[k] == id;
    assert(resting_at(v.orders, levels[i].ids[k], side, levels[i].price));
    lemma_level_index(v.orders, levels, side, i);
    let kk = id_index(levels[i].ids, id);
    assert(levels[i].ids[kk] == id);
    assert(levels[i].ids.no_duplicates());
    (i, k)
}

/// Cancelling a resting order keeps the book well formed.
#[verifier::spinoff_prover]
#[verifier::rlimit(40)]
pub proof fn lemma_cancel_wf(v: BookView, id: OrderId)
    requires
        v.wf(),
        v.orders.contains_key(id),
    ensures
        cancel_spec(v, id).book.wf(),
{
    let o = v.orders[id];
    let side = o.side;
    let opp = side.spec_opposite();
    let levels = v.levels(side);
    let (li, kk) = lemma_locate(v, id);
    let ids = levels[li].ids;
    let o2 = v.orders.remove(id);
    let nl = remove_id(levels, o.price, id);
    let n = cancel_spec(v, id).book;
    lemma_with_levels(v, side, nl, opp);
    assert(n.orders == o2 && n.levels(side) == nl && n.levels(opp) == v.levels(opp));
    assert forall|i: int, k: int| 0 <= i < v.levels(opp).len() && 0 <= k < v.levels(opp)[i].ids.len() implies
        o2.contains_key(#[trigger] v.levels(opp)[i].ids[k]) && o2[v.levels(opp)[i].ids[k]] == v.orders[v.levels(opp)[i].ids[k]] by {
        lemma_other_side(v, opp, i, k, id);
    }
    lemma_side_wf_agree(v.orders, o2, v.levels(opp), opp);
    // other levels of the side keep their sums
    assert forall|i: int| 0 <= i < levels.len() && i != li implies level_sum(o2, #[trigger] levels[i].ids) == level_sum(v.orders, levels[i].ids) by {
        lemma_unique_level(v.orders, levels, side, li, i, kk);
        lemma_level_sum_without(v.orders, levels[i].ids, id);
    }
    if ids.len() == 1 {
        assert(nl == levels.remove(li));
        assert(side_wf(o2, nl, side)) by {
            assert forall|i: int, j: int| 0 <= i < j < nl.len() implies better(side, #[trigger] nl[i].price, #[trigger] nl[j].price) by {
                let a = if i < li { i } else { i + 1 };
                let b = if j < li { j } else { j + 1 };
                assert(nl[i] == levels[a] && nl[j] == levels[b]);
            }
            assert forall|i: int| 0 <= i < nl.len() implies {
                &&& (#[trigger] nl[i]).ids.len() > 0
                &&& nl[i].ids.no_duplicates()
                &&& level_sum(o2, nl[i].ids) <= u64::MAX
            } by {
                let a = if i < li { i } else { i + 1 };
                assert(nl[i] == levels[a]);
            }
            assert forall|i: int, k: int| 0 <= i < nl.len() && 0 <= k < nl[i].ids.len() implies
                resting_at(o2, #[trigger] nl[i].ids[k], side, nl[i].price) by {
                let a = if i < li { i } else { i + 1 };
                assert(nl[i] == levels[a]);
                assert(resting_at(v.orders, levels[a].ids[k], side, levels[a].price));
                lemma_unique_level(v.orders, levels, side, li, a, kk);
            }
        }
        assert forall|x: OrderId| #[trigger] n.orders.contains_key(x) implies in_levels(n.levels(n.orders[x].side), x) by {
            assert(in_levels(v.levels(v.orders[x].side), x));
            if v.orders[x].side == side {
                let (i, k) = choose|i: int, k: int|
                    0 <= i < levels.len() && 0 <= k < levels[i].ids.len() && #[trigger] levels[i].ids[k] == x;
                if i == li {
                    assert(ids[k] == x && ids[0] == id);
                } else if i < li {
                    assert(nl[i].ids[k] == x);
                } else {
                    assert(nl[i - 1].ids[k] == x);
                }
            }
        }
    } else {
        let r = ids.remove(kk);
        let l2 = LevelView { price: o.price, ids: r };
        assert(nl == levels.update(li, l2));
        assert(!r.contains(id)) by {
            if r.contains(id) {
                let m = choose|m: int| 0 <= m < r.len() && r[m] == id;
                if m < kk {
                    assert(ids[m] == id);
                } else {
                    assert(ids[m + 1] == id);
                }
            }
        }
        assert(r.no_duplicates()) by {
            assert forall|a: int, b: int| 0 <= a < b < r.len() implies r[a] != r[b] by {
                let a2 = if a < kk { a } else { a + 1 };
                let b2 = if b < kk { b } else { b + 1 };
                assert(r[a] == ids[a2] && r[b] == ids[b2]);
            }
        }
        lemma_level_sum_remove(v.orders, ids, kk);
        lemma_level_sum_without(v.orders, r, id);
        assert(side_wf(o2, nl, side)) by {
            assert forall|i: int, j: int| 0 <= i < j < nl.len() implies better(side, #[trigger] nl[i].price, #[trigger] nl[j].price) by {
                assert(nl[i].price == levels[i].price && nl[j].price == levels[j].price);
            }
            assert forall|i: int| 0 <= i < nl.len() implies {
                &&& (#[trigger] nl[i]).ids.len() > 0
                &&& nl[i].ids.no_duplicates()
                &&& level_sum(o2, nl[i].ids) <= u64::MAX
            } by {
                if i != li {
                    assert(nl[i] == levels[i]);
                }
            }
            assert forall|i: int, k: int| 0 <= i < nl.len() && 0 <= k < nl[i].ids.len() implies
                resting_at(o2, #[trigger] nl[i].ids[k], side, nl[i].price) by {
                if i != li {
                    assert(nl[i] == levels[i]);
                    assert(resting_at(v.orders, levels[i].ids[k], side, levels[i].price));
                    lemma_unique_level(v.orders, levels, side, li, i, kk);
                } else {
                    let k2 = if k < kk { k } else { k + 1 };
                    assert(nl[i].ids[k] == ids[k2]);
                    assert(resting_at(v.orders, levels[li].ids[k2], side, levels[li].price));
                }
            }
        }
        assert forall|x: OrderId| #[trigger] n.orders.contains_key(x) implies in_levels(n.levels(n.orders[x].side), x) by {
            assert(in_levels(v.levels(v.orders[x].side), x));
            if v.orders[x].side == side {
                let (i, k) = choose|i: int, k: int|
                    0 <= i < levels.len() && 0 <= k < levels[i].ids.len() && #[trigger] levels[i].ids[k] == x;
                if i == li {
                    assert(k != kk);
                    let k2 = if k < kk { k } else { k - 1 };
                    assert(nl[li].ids[k2] == x);
                } else {
                    assert(nl[i].ids[k] == x);
                }
            }
        }
    }
}

/// Reducing a resting order by less than its open quantity keeps the book well formed.
pub proof fn lemma_reduce_wf(v: BookView, id: OrderId, qty: Qty)
    requires
        v.wf(),
        v.orders.contains_key(id),
        0 < qty < v.orders[id].remaining_qty,
    ensures
        reduce_spec(v, id, qty).book.wf(),
{
    let o = v.orders[id];
    let side = o.side;
    let opp = side.spec_opposite();
    let levels = v.levels(side);
    let (li, kk) = lemma_locate(v, id);
    let no = Order { remaining_qty: (o.remaining_qty - qty) as u64, ..o };
    let o2 = v.orders.insert(id, no);
    let n = reduce_spec(v, id, qty).book;
    assert(n.orders == o2 && n.bids == v.bids && n.asks == v.asks);
    assert forall|i: int, k: int| 0 <= i < v.levels(opp).len() && 0 <= k < v.levels(opp)[i].ids.len() implies
        o2.contains_key(#[trigger] v.levels(opp)[i].ids[k]) && o2[v.levels(opp)[i].ids[k]] == v.orders[v.levels(opp)[i].ids[k]] by {
        lemma_other_side(v, opp, i, k, id);
    }
    lemma_side_wf_agree(v.orders, o2, v.levels(opp), opp);
    assert forall|i: int| 0 <= i < levels.len() implies {
        &&& (#[trigger] levels[i]).ids.len() > 0
        &&& levels[i].ids.no_duplicates()
        &&& level_sum(o2, levels[i].ids) <= u64::MAX
    } by {
        if i == li {
            lemma_level_sum_update(v.orders, levels[li].ids, kk, id, no);
        } else {
            lemma_unique_level(v.orders, levels, side, li, i, kk);
            lemma_level_sum_other(v.orders, levels[i].ids, id, no);
        }
    }
    assert forall|i: int, k: int| 0 <= i < levels.len() && 0 <= k < levels[i].ids.len() implies
        resting_at(o2, #[trigger] levels[i].ids[k], side, levels[i].price) by {
        assert(resting_at(v.orders, levels[i].ids[k], side, levels[i].price));
    }
    assert(side_wf(o2, levels, side));
    assert forall|x: OrderId| #[trigger] n.orders.contains_key(x) implies in_levels(n.levels(n.orders[x].side), x) by {
        assert(v.orders.contains_key(x));
        assert(in_levels(v.levels(v.orders[x].side), x));
    }
}


/// `insert_pos` is the first index whose price is not better.
pub proof fn lemma_insert_pos_at(levels: Seq<LevelView>, side: Side, price: Price, i: int)
    requires
        0 <= i <= levels.len(),
        forall|j: int| 0 <= j < i ==> better(side, #[trigger] levels[j].price, price),
        i < levels.len() ==> !better(side, levels[i].price, price),
    ensures
        insert_pos(levels, side, price) == i,
    decreases i,
{
    if i > 0 {
        let t = levels.drop_first();
        assert forall|j: int| 0 <= j < i - 1 implies better(side, #[trigger] t[j].price, price) by {
            assert(t[j] == levels[j + 1]);
        }
        if i - 1 < t.len() {
            assert(t[i - 1] == levels[i]);
        }
        lemma_insert_pos_at(t, side, price, i - 1);
    }
}


/// Adding a fresh order changes no level's sum.
pub proof fn lemma_fresh_sums(v: BookView, o: Order)
    requires
        v.wf(),
        !v.orders.contains_key(o.id),
    ensures
        forall|s2: Side, a: int|
            0 <= a < v.levels(s2).len() ==> level_sum(v.orders.insert(o.id, o), #[trigger] v.levels(s2)[a].ids)
                == level_sum(v.orders, v.levels(s2)[a].ids),
{
    assert forall|s2: Side, a: int| 0 <= a < v.levels(s2).len() implies level_sum(
        v.orders.insert(o.id, o),
        #[trigger] v.levels(s2)[a].ids,
    ) == level_sum(v.orders, v.levels(s2)[a].ids) by {
        let ids = v.levels(s2)[a].ids;
        assert(!ids.contains(o.id)) by {
            if ids.contains(o.id) {
                let m = choose|m: int| 0 <= m < ids.len() && ids[m] == o.id;
                if s2 == Side::Buy {
                    assert(resting_at(v.orders, v.bids[a].ids[m], Side::Buy, v.bids[a].price));
                } else {
                    assert(resting_at(v.orders, v.asks[a].ids[m], Side::Sell, v.asks[a].price));
                }
            }
        }
        lemma_level_sum_other(v.orders, ids, o.id, o);
    }
}


/// Matching leaves the aggregate quantity of the aggressor's own side unchanged at every price.
pub proof fn lemma_match_level_qty(s: MatchState, agg: OrderId, side: Side, limit: Price, price: Price)
    requires
        s.book.wf(),
    ensures
        level_qty_at(match_spec(s, agg, side, limit).book, side, price) == level_qty_at(s.book, side, price),
{
    lemma_match_wf(s, agg, side, limit);
    let m = match_spec(s, agg, side, limit);
    let levels = s.book.levels(side);
    assert(m.book.levels(side) == levels);
    if exists|i: int| 0 <= i < levels.len() && #[trigger] levels[i].price == price {
        let li = level_index(levels, price);
        let ids = levels[li].ids;
        assert forall|k: int| 0 <= k < ids.len() implies s.book.orders[#[trigger] ids[k]].remaining_qty
            == m.book.orders[ids[k]].remaining_qty by {
            assert(resting_at(s.book.orders, levels[li].ids[k], side, levels[li].price));
        }
        lemma_level_sum_agree(s.book.orders, m.book.orders, ids);
    }
}

} // verus!
