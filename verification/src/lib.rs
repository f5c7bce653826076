//! Low-latency trading building blocks with machine-checked contracts:
//! a price-time priority limit order book, ITCH-style and MoldUDP64 codecs,
//! a datagram reorder buffer, bounded queues and a LOBSTER order-flow parser.

pub mod lob;
pub mod matching;
pub mod queue;
pub mod feed;
pub mod handler;
pub mod bench;
