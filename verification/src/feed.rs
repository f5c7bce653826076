//! ITCH-style market data: the binary message format, its decoder and encoders,
//! datagram reassembly, and applying feed messages to an order book.

pub mod wire;
pub mod message;
pub mod error;
pub mod decode;
pub mod encode;
pub mod ingest;
pub mod feed_book;
