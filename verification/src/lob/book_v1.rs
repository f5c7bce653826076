//! Order book storage with levels in a price-indexed array and orders chained per
//! level through slot keys.

pub mod price_level;
pub mod book;
pub mod orders;
