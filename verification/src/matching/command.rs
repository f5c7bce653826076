use vstd::prelude::*;
use crate::lob::types::{OrderId, Price, Qty, Side};

verus! {

/// Command dispatched to the matching engine.
///
/// These are order-entry messages: instructions that make the matching engine act
/// (insert and match, or cancel). `Copy` and compact so they can travel through a
/// queue without allocation.
#[derive(Debug, Clone, Copy, PartialEq, Eq, Structural)]
pub enum OrderCommand {
    /// A new limit order: matched at once where it crosses; any remainder rests.
    NewOrder { order_id: OrderId, side: Side, price: Price, qty: Qty },
    /// A market order: matched at once against resting orders; any remainder is cancelled.
    MarketOrder { order_id: OrderId, side: Side, qty: Qty },
    /// Cancel a resting order by id.
    CancelOrder { order_id: OrderId },
}

} // verus!
