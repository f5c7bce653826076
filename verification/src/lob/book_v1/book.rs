use vstd::prelude::*;
use crate::lob::order::Order;
use crate::lob::types::{OrderId, OrderSlabKey, Price, Qty, Side};
use crate::lob::book_v1::price_level::PriceLevel;

verus! {

/// Storage slot of a resting order, linked to its neighbours at the same level.
#[derive(Debug)]
pub struct OrderSlot {
    pub next: Option<OrderSlabKey>,
    pub prev: Option<OrderSlabKey>,
    pub order: Order,
}

/// Highest index below `end` that holds a level.
pub open spec fn last_some_below(levels: Seq<Option<PriceLevel>>, end: int) -> Option<int>
    decreases end,
{
    if end <= 0 {
        None
    } else if levels[end - 1] is Some {
        Some(end - 1)
    } else {
        last_some_below(levels, end - 1)
    }
}

/// Lowest index from `start` on that holds a level.
pub open spec fn first_some_from(levels: Seq<Option<PriceLevel>>, start: int) -> Option<int>
    decreases levels.len() - start,
{
    if start < 0 || start >= levels.len() {
        None
    } else if levels[start] is Some {
        Some(start)
    } else {
        first_some_from(levels, start + 1)
    }
}

/// The levels below `end`, highest index first.
pub open spec fn levels_down(levels: Seq<Option<PriceLevel>>, end: int) -> Seq<PriceLevel>
    decreases end,
{
    if end <= 0 {
        seq![]
    } else if levels[end - 1] is Some {
        seq![levels[end - 1]->Some_0] + levels_down(levels, end - 1)
    } else {
        levels_down(levels, end - 1)
    }
}

/// The levels from `start` on, lowest index first.
pub open spec fn levels_up(levels: Seq<Option<PriceLevel>>, start: int) -> Seq<PriceLevel>
    decreases levels.len() - start,
{
    if start < 0 || start >= levels.len() {
        seq![]
    } else if levels[start] is Some {
        seq![levels[start]->Some_0] + levels_up(levels, start + 1)
    } else {
        levels_up(levels, start + 1)
    }
}

/// Price levels in an array indexed by price minus the lowest price of the range.
#[derive(Debug)]
pub struct PriceLevels {
    /// One entry per price of the range.
    pub levels: Vec<Option<PriceLevel>>,
    /// Lowest price of the range.
    pub base_price: Price,
    /// Index of the best bid.
    pub best_bid_ix: Option<usize>,
    /// Index of the best ask.
    pub best_ask_ix: Option<usize>,
}

impl PriceLevels {
    /// Every price of the range fits a `Price`, every level sits at the index of its
    /// price, and the best indices lie inside the array.
    pub open spec fn wf(&self) -> bool {
        &&& self.base_price + self.levels@.len() - 1 <= u64::MAX
        &&& forall|i: int|
            0 <= i < self.levels@.len() && (#[trigger] self.levels@[i]) is Some ==> self.levels@[i]->Some_0.price
                == self.base_price + i
        &&& self.best_bid_ix matches Some(i) ==> i < self.levels@.len()
        &&& self.best_ask_ix matches Some(i) ==> i < self.levels@.len()
    }

    /// The best bid lies below the best ask, where both exist.
    pub open spec fn uncrossed(&self) -> bool {
        match (self.best_bid_ix, self.best_ask_ix) {
            (Some(b), Some(a)) => b < a,
            _ => true,
        }
    }

    /// An order at index `ix` on `side` does not cross the opposite best.
    pub open spec fn rests_without_crossing(&self, side: Side, ix: int) -> bool {
        match side {
            Side::Buy => self.best_ask_ix matches Some(a) ==> ix < a,
            Side::Sell => self.best_bid_ix matches Some(b) ==> ix > b,
        }
    }

    /// The best bid index, where there is one, points at a level.
    pub open spec fn bid_present(&self) -> bool {
        self.best_bid_ix matches Some(i) ==> self.levels@[i as int] is Some
    }

    /// The best ask index, where there is one, points at a level.
    pub open spec fn ask_present(&self) -> bool {
        self.best_ask_ix matches Some(i) ==> self.levels@[i as int] is Some
    }

    /// Levels for every price of `price_range`, all empty.
    pub fn new(price_range: (Price, Price)) -> (r: Self)
        requires
            price_range.0 <= price_range.1,
            price_range.1 - price_range.0 < u64::MAX,
            price_range.1 - price_range.0 + 1 <= usize::MAX,
        ensures
            r.wf(),
            r.levels@.len() == price_range.1 - price_range.0 + 1,
            forall|i: int| 0 <= i < r.levels@.len() ==> (#[trigger] r.levels@[i]) is None,
            r.base_price == price_range.0,
            r.best_bid_ix == None::<usize>,
            r.best_ask_ix == None::<usize>,
    {
        let (min_price, max_price) = price_range;
        let level_capacity = (max_price - min_price + 1) as usize;
        let mut levels: Vec<Option<PriceLevel>> = Vec::new();
        let mut i: usize = 0;
        while i < level_capacity
            invariant
                i <= level_capacity,
                levels@.len() == i,
                forall|j: int| 0 <= j < i ==> (#[trigger] levels@[j]) is None,
            decreases level_capacity - i,
        {
            levels.push(None);
            i = i + 1;
        }
        PriceLevels { levels, base_price: min_price, best_ask_ix: None, best_bid_ix: None }
    }

    /// The best bid level.
    pub fn best_bid(&self) -> (r: Option<&PriceLevel>)
        requires
            self.wf(),
            self.bid_present(),
        ensures
            match self.best_bid_ix {
                Some(i) => r == Some(&self.levels@[i as int]->Some_0),
                None => r is None,
            },
    {
        match self.best_bid_ix {
            Some(i) => self.levels[i].as_ref(),
            None => None,
        }
    }

    /// The best ask level.
    pub fn best_ask(&self) -> (r: Option<&PriceLevel>)
        requires
            self.wf(),
            self.ask_present(),
        ensures
            match self.best_ask_ix {
                Some(i) => r == Some(&self.levels@[i as int]->Some_0),
                None => r is None,
            },
    {
        match self.best_ask_ix {
            Some(i) => self.levels[i].as_ref(),
            None => None,
        }
    }

    /// The levels at or below the best bid, best first.
    pub fn bids_iter(&self) -> (r: Vec<&PriceLevel>)
        requires
            self.wf(),
        ensures
            r@.len() == levels_down(self.levels@, self.bid_end()).len(),
            forall|i: int| 0 <= i < r@.len() ==> *(#[trigger] r@[i]) == levels_down(self.levels@, self.bid_end())[i],
    {
        let _n = self.levels.len();
        let end = match self.best_bid_ix {
            Some(i) => i + 1,
            None => 0,
        };
        let mut out: Vec<&PriceLevel> = Vec::new();
        let mut k = end;
        while k > 0
            invariant
                k <= end <= self.levels@.len(),
                end == self.bid_end(),
                out@.len() + levels_down(self.levels@, k as int).len() == levels_down(self.levels@, end as int).len(),
                forall|i: int| 0 <= i < out@.len() ==> *(#[trigger] out@[i]) == levels_down(self.levels@, end as int)[i],
                forall|i: int|
                    0 <= i < levels_down(self.levels@, k as int).len() ==> #[trigger] levels_down(self.levels@, k as int)[i]
                        == levels_down(self.levels@, end as int)[out@.len() + i],
            decreases k,
        {
            let ghost before = levels_down(self.levels@, k as int);
            match &self.levels[k - 1] {
                Some(l) => {
                    assert(before[0] == *l);
                    out.push(l);
                    assert forall|i: int| 0 <= i < levels_down(self.levels@, k - 1).len() implies #[trigger] levels_down(
                        self.levels@,
                        k - 1,
                    )[i] == levels_down(self.levels@, end as int)[out@.len() + i] by {
                        assert(levels_down(self.levels@, k - 1)[i] == before[i + 1]);
                    }
                },
                None => {},
            }
            k = k - 1;
        }
        out
    }

    /// End (exclusive) of the bid scan: one past the best bid.
    pub open spec fn bid_end(&self) -> int {
        match self.best_bid_ix {
            Some(i) => i + 1,
            None => 0,
        }
    }

    /// Start of the ask scan: the best ask, or past the end.
    pub open spec fn ask_start(&self) -> int {
        match self.best_ask_ix {
            Some(i) => i as int,
            None => self.levels@.len() as int,
        }
    }

    /// The levels at or above the best ask, best first.
    pub fn asks_iter(&self) -> (r: Vec<&PriceLevel>)
        requires
            self.wf(),
        ensures
            r@.len() == levels_up(self.levels@, self.ask_start()).len(),
            forall|i: int| 0 <= i < r@.len() ==> *(#[trigger] r@[i]) == levels_up(self.levels@, self.ask_start())[i],
    {
        let n = self.levels.len();
        let start = match self.best_ask_ix {
            Some(i) => i,
            None => n,
        };
        let mut out: Vec<&PriceLevel> = Vec::new();
        let mut k = start;
        while k < n
            invariant
                start <= k <= n == self.levels@.len(),
                start == self.ask_start(),
                out@.len() + levels_up(self.levels@, k as int).len() == levels_up(self.levels@, start as int).len(),
                forall|i: int| 0 <= i < out@.len() ==> *(#[trigger] out@[i]) == levels_up(self.levels@, start as int)[i],
                forall|i: int|
                    0 <= i < levels_up(self.levels@, k as int).len() ==> #[trigger] levels_up(self.levels@, k as int)[i]
                        == levels_up(self.levels@, start as int)[out@.len() + i],
            decreases n - k,
        {
            let ghost before = levels_up(self.levels@, k as int);
            match &self.levels[k] {
                Some(l) => {
                    assert(before[0] == *l);
                    out.push(l);
                    assert forall|i: int| 0 <= i < levels_up(self.levels@, k + 1).len() implies #[trigger] levels_up(
                        self.levels@,
                        k + 1,
                    )[i] == levels_up(self.levels@, start as int)[out@.len() + i] by {
                        assert(levels_up(self.levels@, k + 1)[i] == before[i + 1]);
                    }
                },
                None => {},
            }
            k = k + 1;
        }
        out
    }

    /// The level at `price`, which must exist.
    pub fn existing_level(&mut self, price: Price) -> (r: &mut PriceLevel)
        requires
            old(self).base_price <= price,
            price - old(self).base_price < old(self).levels@.len(),
            old(self).levels@[price - old(self).base_price] is Some,
        ensures
            *r == old(self).levels@[price - old(self).base_price]->Some_0,
            final(self).levels@ == old(self).levels@.update(price - old(self).base_price, Some(*final(r))),
            final(self).base_price == old(self).base_price,
            final(self).best_bid_ix == old(self).best_bid_ix,
            final(self).best_ask_ix == old(self).best_ask_ix,
    {
        let _n = self.levels.len();
        let ix = (price - self.base_price) as usize;
        assert(ix as int == price - old(self).base_price);
        assert(self.levels@[ix as int] is Some);
        self.levels[ix].as_mut().expect("price level exists")
    }

    /// Add `order` at the back of its price level, creating the level if needed, and
    /// move the best index of its side if its price is better. The level's total grows
    /// by the order's open quantity. Returns the previous last order key of the level.
    pub fn add_order(&mut self, order: &Order) -> (r: Option<OrderId>)
        requires
            old(self).wf(),
            old(self).base_price <= order.price,
            order.price - old(self).base_price < old(self).levels@.len(),
            order.id <= usize::MAX,
            old(self).levels@[order.price - old(self).base_price] matches Some(l) ==> l.total_qty + order.remaining_qty
                <= u64::MAX,
        ensures
            final(self).wf(),
            old(self).uncrossed() && old(self).rests_without_crossing(order.side, order.price - old(self).base_price)
                ==> final(self).uncrossed(),
            ({
                let ix = order.price - old(self).base_price;
                let lvl = match old(self).levels@[ix] {
                    Some(l) => l,
                    None => PriceLevel { total_qty: 0, price: order.price, order_head: None, order_tail: None },
                };
                &&& final(self).base_price == old(self).base_price
                &&& final(self).levels@.len() == old(self).levels@.len()
                &&& forall|j: int| 0 <= j < old(self).levels@.len() && j != ix ==> #[trigger] final(self).levels@[j]
                    == old(self).levels@[j]
                &&& final(self).levels@[ix] matches Some(l2) && l2.total_qty == lvl.total_qty + order.remaining_qty && l2.price
                    == lvl.price && l2.order_tail == Some(order.id as OrderSlabKey) && (lvl.order_tail is None
                    ==> l2.order_head == Some(order.id as OrderSlabKey)) && (lvl.order_tail is Some ==> l2.order_head
                    == lvl.order_head)
                &&& r == (match lvl.order_tail {
                    Some(t) => Some(t as OrderId),
                    None => None::<OrderId>,
                })
                &&& final(self).best_bid_ix == (if order.side == Side::Buy && (old(self).best_bid_ix matches Some(
                    b,
                ) ==> order.price > old(self).base_price + b) {
                    Some(ix as usize)
                } else {
                    old(self).best_bid_ix
                })
                &&& final(self).best_ask_ix == (if order.side == Side::Sell && (old(self).best_ask_ix matches Some(
                    a,
                ) ==> order.price < old(self).base_price + a) {
                    Some(ix as usize)
                } else {
                    old(self).best_ask_ix
                })
            }),
    {
        let price = order.price;
        let n = self.levels.len();
        let ix = (price - self.base_price) as usize;
        assert(ix as int == order.price - old(self).base_price);
        match order.side {
            Side::Buy => {
                let better = match self.best_bid_ix {
                    None => true,
                    Some(b) => price > self.base_price + b as Price,
                };
                if better {
                    self.best_bid_ix = Some(ix);
                }
            },
            Side::Sell => {
                let better = match self.best_ask_ix {
                    None => true,
                    Some(a) => price < self.base_price + a as Price,
                };
                if better {
                    self.best_ask_ix = Some(ix);
                }
            },
        }
        let ghost lvl = match old(self).levels@[ix as int] {
            Some(l) => l,
            None => PriceLevel { total_qty: 0, price: order.price, order_head: None, order_tail: None },
        };
        if self.levels[ix].is_none() {
            self.levels[ix] = Some(PriceLevel::new(price));
        }
        assert(self.levels@[ix as int] == Some(lvl));
        let level = self.levels[ix].as_mut().expect("price level exists");
        let old_tail = level.append_order(order.id as OrderSlabKey, order.remaining_qty);
        assert(self.levels@ =~= old(self).levels@.update(ix as int, self.levels@[ix as int]));
        match old_tail {
            Some(t) => Some(t as OrderId),
            None => None,
        }
    }

    /// Drop the level at `price` if it holds no order, and move the best index of
    /// `side` to the next level in priority.
    pub fn remove_if_empty(&mut self, price: Price, side: Side)
        requires
            old(self).wf(),
            old(self).base_price <= price,
            price - old(self).base_price < old(self).levels@.len(),
        ensures
            final(self).wf(),
            final(self).base_price == old(self).base_price,
            ({
                let ix = price - old(self).base_price;
                if old(self).levels@[ix] matches Some(l) && l.order_head is None {
                    let lv = old(self).levels@.update(ix, None);
                    &&& final(self).levels@ == lv
                    &&& side == Side::Buy ==> final(self).best_bid_ix == (match last_some_below(
                        lv,
                        old(self).bid_end(),
                    ) {
                        Some(i) => Some(i as usize),
                        None => None::<usize>,
                    }) && final(self).best_ask_ix == old(self).best_ask_ix
                    &&& side == Side::Sell ==> final(self).best_ask_ix == (match first_some_from(
                        lv,
                        old(self).ask_start(),
                    ) {
                        Some(i) => Some(i as usize),
                        None => None::<usize>,
                    }) && final(self).best_bid_ix == old(self).best_bid_ix
                } else {
                    *final(self) == *old(self)
                }
            }),
    {
        let n = self.levels.len();
        let ix = (price - self.base_price) as usize;
        assert(ix as int == price - old(self).base_price);
        let empty = match &self.levels[ix] {
            Some(l) => l.is_empty(),
            None => false,
        };
        if !empty {
            return;
        }
        self.levels[ix] = None;
        assert(self.levels@ == old(self).levels@.update(ix as int, None));
        match side {
            Side::Buy => {
                let end = match self.best_bid_ix {
                    Some(i) => i + 1,
                    None => 0,
                };
                self.best_bid_ix = self.last_level_below(end);
            },
            Side::Sell => {
                let start = match self.best_ask_ix {
                    Some(i) => i,
                    None => n,
                };
                self.best_ask_ix = self.first_level_from(start);
            },
        }
    }

    /// Index of the highest level below `end`, from its price.
    fn last_level_below(&self, end: usize) -> (r: Option<usize>)
        requires
            end <= self.levels@.len(),
            forall|i: int|
                0 <= i < self.levels@.len() && (#[trigger] self.levels@[i]) is Some ==> self.levels@[i]->Some_0.price
                    == self.base_price + i,
        ensures
            r == (match last_some_below(self.levels@, end as int) {
                Some(i) => Some(i as usize),
                None => None::<usize>,
            }),
            r matches Some(i) ==> i < self.levels@.len() && self.levels@[i as int] is Some,
    {
        let mut k = end;
        while k > 0
            invariant
                k <= end <= self.levels@.len(),
                forall|i: int|
                    0 <= i < self.levels@.len() && (#[trigger] self.levels@[i]) is Some ==> self.levels@[i]->Some_0.price
                        == self.base_price + i,
                last_some_below(self.levels@, end as int) == last_some_below(self.levels@, k as int),
            decreases k,
        {
            match &self.levels[k - 1] {
                Some(pl) => {
                    return Some((pl.price - self.base_price) as usize);
                },
                None => {},
            }
            k = k - 1;
        }
        None
    }

    /// Index of the lowest level from `start` on, from its price.
    fn first_level_from(&self, start: usize) -> (r: Option<usize>)
        requires
            start <= self.levels@.len(),
            forall|i: int|
                0 <= i < self.levels@.len() && (#[trigger] self.levels@[i]) is Some ==> self.levels@[i]->Some_0.price
                    == self.base_price + i,
        ensures
            r == (match first_some_from(self.levels@, start as int) {
                Some(i) => Some(i as usize),
                None => None::<usize>,
            }),
            r matches Some(i) ==> i < self.levels@.len() && self.levels@[i as int] is Some,
    {
        let n = self.levels.len();
        let mut k = start;
        while k < n
            invariant
                start <= k <= n == self.levels@.len(),
                forall|i: int|
                    0 <= i < self.levels@.len() && (#[trigger] self.levels@[i]) is Some ==> self.levels@[i]->Some_0.price
                        == self.base_price + i,
                first_some_from(self.levels@, start as int) == first_some_from(self.levels@, k as int),
            decreases n - k,
        {
            match &self.levels[k] {
                Some(pl) => {
                    return Some((pl.price - self.base_price) as usize);
                },
                None => {},
            }
            k = k + 1;
        }
        None
    }
}

} // verus!
