//! Order-entry commands, the LOBSTER order-flow parser and command dispatch to a book.

pub mod command;
pub mod text;
pub mod lobster;
pub mod consumer;
