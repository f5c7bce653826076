//! Order book over sorted price levels and an order map.

pub mod price_level;
pub mod book;
