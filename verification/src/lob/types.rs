use vstd::prelude::*;

verus! {

/// Unique identifier assigned by the caller to an order.
pub type OrderId = u64;

/// Internal key of an order slot in slot storage.
pub type OrderSlabKey = usize;

/// Price in ticks (smallest price increment).
pub type Price = u64;

/// Quantity in lots (smallest tradeable unit).
pub type Qty = u64;

/// Side of an order.
#[derive(Debug, Clone, Copy, PartialEq, Eq, Hash, Structural)]
pub enum Side {
    Buy,
    Sell,
}

impl Side {
    /// The other side of the book.
    pub fn opposite(self) -> (r: Side)
        ensures
            r == self.spec_opposite(),
    {
        match self {
            Side::Buy => Side::Sell,
            Side::Sell => Side::Buy,
        }
    }

    pub open spec fn spec_opposite(self) -> Side {
        match self {
            Side::Buy => Side::Sell,
            Side::Sell => Side::Buy,
        }
    }
}

} // verus!
