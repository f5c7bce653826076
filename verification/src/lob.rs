//! Limit order book: order and event types, the book model and its implementations.

pub mod types;
pub mod order;
pub mod event;
pub mod model;
pub mod book_v0;
pub mod book_v1;
pub mod book;
pub mod book_api;
pub mod model_proofs;
pub mod laws;
