use vstd::prelude::*;

verus! {

/// Why a message did not decode.
#[derive(Debug, Clone, Copy, PartialEq, Eq, Structural)]
pub enum DecodeError {
    /// The payload is shorter than its layout needs.
    Truncated { needed: usize, have: usize },
    /// Unknown message type, or an invalid side byte.
    InvalidMessageType(u8),
    /// A text field is not valid UTF-8.
    InvalidUtf8,
}

impl DecodeError {
    pub fn truncated(needed: usize, have: usize) -> (r: Self)
        ensures
            r == (DecodeError::Truncated { needed, have }),
    {
        DecodeError::Truncated { needed, have }
    }
}

/// Why ingesting a datagram stopped.
#[derive(Debug, Clone, Copy, PartialEq, Eq, Structural)]
pub enum IngestError {
    Decode(DecodeError),
}

/// A packet arrived out of sequence.
#[derive(Debug, Clone, Copy, PartialEq, Eq, Structural)]
pub enum SeqOrderError {
    OutOfOrder { expected: u64, got: u64 },
}

} // verus!
