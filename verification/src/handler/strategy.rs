//! Top-of-book quoter: post a passive buy one tick above the best bid while the
//! spread is wider than one tick; cancel it when the market moves away (the best bid
//! moves, or the spread closes), and keep it while the market stays.
use vstd::prelude::*;
use crate::handler::outbound::{OutboundBuf, cancel_order_bytes, new_order_bytes};
use crate::lob::book_api::LimitOrderBook;
use crate::lob::model::BookView;
use crate::lob::types::Side;

verus! {

/// The spread of `v` leaves room for a quote: both sides present and the best ask
/// more than one tick above the best bid.
pub open spec fn quotable(v: BookView) -> bool {
    match (v.top(Side::Buy), v.top(Side::Sell)) {
        (Some((b, _)), Some((a, _))) => b + 1 < a,
        _ => false,
    }
}

/// Price of a quote one tick above the best bid of `v`.
pub open spec fn target(v: BookView) -> int {
    v.top(Side::Buy)->Some_0.0 + 1
}

/// A quote resting at `price` is still where the quoter would post it on `v`.
pub open spec fn quote_stays(resting: Option<u64>, price: u64, v: BookView) -> bool {
    quotable(v) && resting is Some && price == target(v)
}

/// The quoter sends an order on book `v`: a new quote where the spread has room and
/// none rests, a cancel where one rests and the market moved away from it.
pub open spec fn quote_sends(resting: Option<u64>, price: u64, v: BookView) -> bool {
    if quotable(v) {
        !quote_stays(resting, price, v)
    } else {
        resting is Some
    }
}

/// The resting quote after an update on book `v`.
pub open spec fn quote_resting_after(resting: Option<u64>, price: u64, next_id: u64, v: BookView) -> Option<u64> {
    if quotable(v) && resting is None {
        Some(next_id)
    } else if quote_stays(resting, price, v) {
        resting
    } else {
        None
    }
}

/// The price of the resting quote after an update on book `v`.
pub open spec fn quote_price_after(resting: Option<u64>, price: u64, v: BookView) -> int {
    if quotable(v) && resting is None {
        target(v)
    } else {
        price as int
    }
}

/// The next order id after an update on book `v`.
pub open spec fn quote_next_after(resting: Option<u64>, next_id: u64, v: BookView) -> int {
    if quotable(v) && resting is None {
        next_id + 1
    } else {
        next_id as int
    }
}

/// An update on book `v` stays within machine limits: the best bid can be raised by a
/// tick where both sides are present, and a new order id is left where one is taken.
pub open spec fn quote_fits(resting: Option<u64>, next_id: u64, v: BookView) -> bool {
    &&& v.top(Side::Buy) is Some && v.top(Side::Sell) is Some ==> v.top(Side::Buy)->Some_0.0 < u64::MAX
    &&& quotable(v) && resting is None ==> next_id < u64::MAX
}

pub struct QuoterState {
    /// Order id of the resting passive buy, if any.
    resting_oid: Option<u64>,
    /// Price of the resting passive buy, where there is one.
    resting_price: u64,
    /// Id of the next order emitted; increases with every new order.
    next_oid: u64,
}

impl QuoterState {
    pub closed spec fn resting(&self) -> Option<u64> {
        self.resting_oid
    }

    /// Price of the resting quote (meaningful while one rests).
    pub closed spec fn quote_price(&self) -> u64 {
        self.resting_price
    }

    pub closed spec fn next_id(&self) -> u64 {
        self.next_oid
    }

    pub fn new() -> (r: Self)
        ensures
            r.resting() == None::<u64>,
            r.next_id() == 1,
    {
        QuoterState { resting_oid: None, resting_price: 0, next_oid: 1 }
    }

    /// React to a book update: write an outbound message into `out` and return `true`
    /// if one should be sent. With room in the spread and no resting quote, a new buy
    /// for 1 lot goes one tick above the best bid; a resting quote stays while it is
    /// still one tick above the best bid with room in the spread, and is cancelled
    /// once the market moves away from it.
    pub fn on_book_update<B: LimitOrderBook>(&mut self, book: &B, out: &mut OutboundBuf) -> (r: bool)
        requires
            book.valid(),
            quote_fits(old(self).resting(), old(self).next_id(), book.book()),
        ensures
            r == quote_sends(old(self).resting(), old(self).quote_price(), book.book()),
            final(self).resting() == quote_resting_after(
                old(self).resting(),
                old(self).quote_price(),
                old(self).next_id(),
                book.book(),
            ),
            final(self).quote_price() == quote_price_after(old(self).resting(), old(self).quote_price(), book.book()),
            final(self).next_id() == quote_next_after(old(self).resting(), old(self).next_id(), book.book()),
            ({
                let v = book.book();
                if quotable(v) {
                    match old(self).resting() {
                        Some(oid) => if old(self).quote_price() == target(v) {
                            !r && *final(out) == *old(out)
                        } else {
                            &&& final(out).len == 9
                            &&& final(out).bytes@.take(9) == cancel_order_bytes(oid)
                        },
                        None => {
                            &&& final(out).len == 18
                            &&& final(out).bytes@ == new_order_bytes(old(self).next_id(), Side::Buy, target(v) as u32, 1)
                        },
                    }
                } else {
                    match old(self).resting() {
                        Some(oid) => {
                            &&& final(out).len == 9
                            &&& final(out).bytes@.take(9) == cancel_order_bytes(oid)
                        },
                        None => *final(out) == *old(out),
                    }
                }
            }),
    {
        let bid = book.best_bid();
        let ask = book.best_ask();
        let spread_ok = match (bid, ask) {
            (Some((bid_price, _)), Some((ask_price, _))) => bid_price + 1 < ask_price,
            _ => false,
        };
        if spread_ok {
            let bid_price = match bid {
                Some((p, _)) => p,
                None => 0,
            };
            let target_price = bid_price + 1;
            match self.resting_oid {
                Some(oid) => {
                    if self.resting_price == target_price {
                        return false;
                    }
                    out.encode_cancel_order(oid);
                    self.resting_oid = None;
                    return true;
                },
                None => {},
            }
            let oid = self.next_oid;
            self.next_oid = self.next_oid + 1;
            out.encode_new_order(oid, Side::Buy, target_price as u32, 1);
            self.resting_oid = Some(oid);
            self.resting_price = target_price;
            true
        } else {
            match self.resting_oid {
                Some(oid) => {
                    out.encode_cancel_order(oid);
                    self.resting_oid = None;
                    true
                },
                None => false,
            }
        }
    }

    pub fn resting_oid(&self) -> (r: Option<u64>)
        ensures
            r == self.resting(),
    {
        self.resting_oid
    }
}

impl Default for QuoterState {
    fn default() -> (r: Self)
        ensures
            r.resting() == None::<u64>,
            r.next_id() == 1,
    {
        QuoterState::new()
    }
}

} // verus!
