use vstd::prelude::*;
use crate::lob::types::{OrderId, Price, Qty, Side};

verus! {

/// A resting order.
#[derive(Debug, Clone, Copy, PartialEq, Eq, Structural)]
pub struct Order {
    /// Identifier assigned by the caller; used in cancel/reduce requests and fill reports.
    pub id: OrderId,
    pub side: Side,
    pub price: Price,
    /// Quantity originally submitted.
    pub qty: Qty,
    /// Quantity still open.
    pub remaining_qty: Qty,
    /// Event sequence number at acceptance; orders accepted later have larger values.
    pub sequence: u64,
}

} // verus!
