//! Receive buffers for batched UDP reception.
use vstd::prelude::*;
use vstd::slice::slice_subrange;

verus! {

/// Number of datagrams received per batch.
pub const BATCH_SIZE: usize = 64;

/// Largest datagram payload (Ethernet MTU minus IP and UDP headers).
pub const BUF_SIZE: usize = 1472;

/// One receive buffer: `data[..len]` is the datagram.
pub struct RecvBuf {
    pub data: [u8; 1472],
    pub len: usize,
}

impl Default for RecvBuf {
    fn default() -> (r: Self)
        ensures
            r.len == 0,
    {
        RecvBuf { data: [0u8; 1472], len: 0 }
    }
}

impl RecvBuf {
    /// The datagram held.
    pub fn as_slice(&self) -> (r: &[u8])
        requires
            self.len <= BUF_SIZE,
        ensures
            r@ == self.data@.subrange(0, self.len as int),
    {
        slice_subrange(self.data.as_slice(), 0, self.len)
    }
}

} // verus!
