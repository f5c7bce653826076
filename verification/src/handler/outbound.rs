//! Outbound order messages, encoded into a fixed buffer.
//!
//! Wire format (little-endian): `[msg_type: u8][oid: u64][side: u8][price: u32][qty: u32]`,
//! 18 bytes; a cancel carries the first 9.
use vstd::prelude::*;
use vstd::slice::slice_subrange;
use crate::feed::wire::{le32_bytes, le64_bytes};
use crate::lob::types::Side;

verus! {

pub const OUTBOUND_LEN: usize = 18;

/// One encoded outbound order message: `bytes[..len]`.
#[derive(Clone, Copy)]
pub struct OutboundBuf {
    pub bytes: [u8; 18],
    pub len: usize,
}

impl Default for OutboundBuf {
    fn default() -> (r: Self)
        ensures
            r.len == 0,
            r.bytes@ == Seq::new(18, |i: int| 0u8),
    {
        let r = OutboundBuf { bytes: [0u8; 18], len: 0 };
        assert(r.bytes@ =~= Seq::new(18, |i: int| 0u8));
        r
    }
}

pub open spec fn side_code(side: Side) -> u8 {
    match side {
        Side::Buy => 0,
        Side::Sell => 1,
    }
}

/// The bytes of a new-order message.
pub open spec fn new_order_bytes(oid: u64, side: Side, price: u32, qty: u32) -> Seq<u8> {
    seq![1u8] + le64_bytes(oid) + seq![side_code(side)] + le32_bytes(price) + le32_bytes(qty)
}

/// The bytes of a cancel-order message.
pub open spec fn cancel_order_bytes(oid: u64) -> Seq<u8> {
    seq![2u8] + le64_bytes(oid)
}

impl OutboundBuf {
    /// Write `v` little-endian over `bytes[at..at + 8]`.
    fn put_le64(&mut self, at: usize, v: u64)
        requires
            at + 8 <= 18,
        ensures
            final(self).len == old(self).len,
            final(self).bytes@ == old(self).bytes@.take(at as int) + le64_bytes(v) + old(self).bytes@.skip(at + 8),
    {
        self.bytes[at] = v as u8;
        self.bytes[at + 1] = (v >> 8u64) as u8;
        self.bytes[at + 2] = (v >> 16u64) as u8;
        self.bytes[at + 3] = (v >> 24u64) as u8;
        self.bytes[at + 4] = (v >> 32u64) as u8;
        self.bytes[at + 5] = (v >> 40u64) as u8;
        self.bytes[at + 6] = (v >> 48u64) as u8;
        self.bytes[at + 7] = (v >> 56u64) as u8;
        assert(self.bytes@ =~= old(self).bytes@.take(at as int) + le64_bytes(v) + old(self).bytes@.skip(at + 8));
    }

    /// Write `v` little-endian over `bytes[at..at + 4]`.
    fn put_le32(&mut self, at: usize, v: u32)
        requires
            at + 4 <= 18,
        ensures
            final(self).len == old(self).len,
            final(self).bytes@ == old(self).bytes@.take(at as int) + le32_bytes(v) + old(self).bytes@.skip(at + 4),
    {
        self.bytes[at] = v as u8;
        self.bytes[at + 1] = (v >> 8u32) as u8;
        self.bytes[at + 2] = (v >> 16u32) as u8;
        self.bytes[at + 3] = (v >> 24u32) as u8;
        assert(self.bytes@ =~= old(self).bytes@.take(at as int) + le32_bytes(v) + old(self).bytes@.skip(at + 4));
    }

    /// Encode a new-order message; returns the 18 bytes written.
    pub fn encode_new_order(&mut self, oid: u64, side: Side, price: u32, qty: u32) -> (r: &[u8])
        ensures
            final(self).len == 18,
            final(self).bytes@ == new_order_bytes(oid, side, price, qty),
            r@ == new_order_bytes(oid, side, price, qty),
    {
        self.bytes[0] = 1u8;
        self.put_le64(1, oid);
        self.bytes[9] = match side {
            Side::Buy => 0u8,
            Side::Sell => 1u8,
        };
        self.put_le32(10, price);
        self.put_le32(14, qty);
        self.len = 18;
        assert(self.bytes@ =~= new_order_bytes(oid, side, price, qty));
        slice_subrange(self.bytes.as_slice(), 0, 18)
    }

    /// Encode a cancel-order message; returns the 9 bytes written. The other bytes
    /// keep what they held.
    pub fn encode_cancel_order(&mut self, oid: u64) -> (r: &[u8])
        ensures
            final(self).len == 9,
            final(self).bytes@.take(9) == cancel_order_bytes(oid),
            final(self).bytes@.skip(9) == old(self).bytes@.skip(9),
            r@ == cancel_order_bytes(oid),
    {
        self.bytes[0] = 2u8;
        self.put_le64(1, oid);
        self.len = 9;
        assert(self.bytes@.take(9) =~= cancel_order_bytes(oid));
        assert(self.bytes@.skip(9) =~= old(self).bytes@.skip(9));
        slice_subrange(self.bytes.as_slice(), 0, 9)
    }

    /// The encoded message.
    pub fn as_slice(&self) -> (r: &[u8])
        requires
            self.len <= OUTBOUND_LEN,
        ensures
            r@ == self.bytes@.take(self.len as int),
    {
        slice_subrange(self.bytes.as_slice(), 0, self.len)
    }

    pub fn is_empty(&self) -> (r: bool)
        ensures
            r == (self.len == 0),
    {
        self.len == 0
    }
}

} // verus!
