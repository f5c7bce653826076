//! ITCH-style message types; text fields borrow from the input buffer.
use vstd::prelude::*;

verus! {

#[derive(Debug, Clone, Copy, PartialEq, Eq, Structural)]
pub enum Side {
    Buy,
    Sell,
}

/// A decoded ITCH-style message, borrowing its text from the input buffer.
#[derive(Debug, Clone, Copy, PartialEq)]
pub enum ItchMessage<'a> {
    SystemEvent { text: &'a str },
    AddOrder { oid: u64, side: Side, qty: u32, price: u32, symbol: &'a str },
    OrderExecuted { oid: u64, qty: u32 },
    OrderCanceled { oid: u64, qty: u32 },
    Trade { oid: u64, side: Side, qty: u32, price: u32 },
}

} // verus!
