//! Bounded FIFO queues: a power-of-two ring buffer with one slot kept free, the
//! single-producer/single-consumer queue built on it, and a bounded multi-producer queue.

pub mod ring;
pub mod spsc;
pub mod mpsc;
