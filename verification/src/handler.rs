//! Market data handler building blocks: MoldUDP64 framing, datagram buffers, a
//! reorder ring, a top-of-book quoter and the outbound order encoder.

pub mod itch;
pub mod udp_receiver;
pub mod outbound;
pub mod strategy;
pub mod mold_udp64;
pub mod reorder;
pub mod pipeline;
