//! Decoding of ITCH-style length-prefixed binary messages.
//!
//! Format: 2-byte big-endian length (of everything after it) + 1-byte type + payload.
//! Numeric fields are little-endian; text lengths are big-endian.
use vstd::prelude::*;
use vstd::slice::slice_subrange;
use vstd::string::StringSliceAdditionalSpecFns;
use vstd::utf8::valid_utf8;
use crate::feed::error::DecodeError;
use crate::feed::message::{ItchMessage, Side};
use crate::feed::wire::{be16_at, le32_at, le64_at, read_be16, read_le32, read_le64};

verus! {

/// A decoded message with its text fields as bytes.
pub enum Decoded {
    SystemEvent(Seq<u8>),
    AddOrder(u64, Side, u32, u32, Seq<u8>),
    OrderExecuted(u64, u32),
    OrderCanceled(u64, u32),
    Trade(u64, Side, u32, u32),
}

pub open spec fn side_of(b: u8) -> Option<Side> {
    if b == 0 {
        Some(Side::Buy)
    } else if b == 1 {
        Some(Side::Sell)
    } else {
        None
    }
}

/// Decoding of a payload of message type `t`; type 4 (trade) is known only when
/// `with_trade` holds.
pub open spec fn decode_payload(t: u8, p: Seq<u8>, with_trade: bool) -> Result<Decoded, DecodeError> {
    let have = p.len() as usize;
    if t == 0 {
        if p.len() < 2 {
            Err(DecodeError::Truncated { needed: 2, have })
        } else {
            let tl = be16_at(p, 0) as int;
            if p.len() < 2 + tl {
                Err(DecodeError::Truncated { needed: (2 + tl) as usize, have })
            } else if valid_utf8(p.subrange(2, 2 + tl)) {
                Ok(Decoded::SystemEvent(p.subrange(2, 2 + tl)))
            } else {
                Err(DecodeError::InvalidUtf8)
            }
        }
    } else if t == 1 {
        if p.len() < 19 {
            Err(DecodeError::Truncated { needed: 19, have })
        } else {
            match side_of(p[8]) {
                None => Err(DecodeError::InvalidMessageType(p[8])),
                Some(side) => {
                    let sl = be16_at(p, 17) as int;
                    if p.len() < 19 + sl {
                        Err(DecodeError::Truncated { needed: (19 + sl) as usize, have })
                    } else if valid_utf8(p.subrange(19, 19 + sl)) {
                        Ok(
                            Decoded::AddOrder(
                                le64_at(p, 0),
                                side,
                                le32_at(p, 9),
                                le32_at(p, 13),
                                p.subrange(19, 19 + sl),
                            ),
                        )
                    } else {
                        Err(DecodeError::InvalidUtf8)
                    }
                },
            }
        }
    } else if t == 2 || t == 3 {
        if p.len() < 12 {
            Err(DecodeError::Truncated { needed: 12, have })
        } else if t == 2 {
            Ok(Decoded::OrderExecuted(le64_at(p, 0), le32_at(p, 8)))
        } else {
            Ok(Decoded::OrderCanceled(le64_at(p, 0), le32_at(p, 8)))
        }
    } else if t == 4 && with_trade {
        if p.len() < 17 {
            Err(DecodeError::Truncated { needed: 17, have })
        } else {
            match side_of(p[8]) {
                None => Err(DecodeError::InvalidMessageType(p[8])),
                Some(side) => Ok(Decoded::Trade(le64_at(p, 0), side, le32_at(p, 9), le32_at(p, 13))),
            }
        }
    } else {
        Err(DecodeError::InvalidMessageType(t))
    }
}

/// Length of the frame at the start of `buf`: the prefix and what it counts.
pub open spec fn frame_len(buf: Seq<u8>) -> nat {
    (2 + be16_at(buf, 0)) as nat
}

/// The next message of `buf` and the bytes it takes, `None` if `buf` does not yet
/// hold a whole frame, or why it does not decode.
pub open spec fn pop_spec(buf: Seq<u8>, with_trade: bool) -> Result<Option<(Decoded, nat)>, DecodeError> {
    if buf.len() < 3 {
        Ok(None)
    } else if buf.len() < frame_len(buf) {
        Ok(None)
    } else {
        match decode_payload(buf[2], buf.subrange(3, frame_len(buf) as int), with_trade) {
            Ok(d) => Ok(Some((d, frame_len(buf)))),
            Err(e) => Err(e),
        }
    }
}

/// A frame at the start of `buf` does not declare length zero, which leaves no room
/// for its type byte.
pub open spec fn frame_fits(buf: Seq<u8>) -> bool {
    buf.len() >= 3 ==> be16_at(buf, 0) > 0
}

/// `m` is the decoded message `d`.
pub open spec fn message_is(m: ItchMessage, d: Decoded) -> bool {
    match d {
        Decoded::SystemEvent(t) => m matches ItchMessage::SystemEvent { text } && text.spec_bytes() == t,
        Decoded::AddOrder(o, s, q, p, sym) => m matches ItchMessage::AddOrder { oid, side, qty, price, symbol }
            && oid == o && side == s && qty == q && price == p && symbol.spec_bytes() == sym,
        Decoded::OrderExecuted(o, q) => m matches ItchMessage::OrderExecuted { oid, qty } && oid == o && qty
            == q,
        Decoded::OrderCanceled(o, q) => m matches ItchMessage::OrderCanceled { oid, qty } && oid == o && qty
            == q,
        Decoded::Trade(o, s, q, p) => m matches ItchMessage::Trade { oid, side, qty, price } && oid == o && side
            == s && qty == q && price == p,
    }
}

/// The exec result `r` is the decoding outcome `o`.
pub open spec fn pop_result_is(
    r: Result<Option<(ItchMessage, usize)>, DecodeError>,
    o: Result<Option<(Decoded, nat)>, DecodeError>,
) -> bool {
    match o {
        Ok(None) => r matches Ok(None),
        Ok(Some((d, n))) => r matches Ok(Some((m, k))) && message_is(m, d) && k == n,
        Err(e) => r == Err::<Option<(ItchMessage, usize)>, DecodeError>(e),
    }
}

/// `std::str::from_utf8`: the text of `bytes` if they are valid UTF-8. Stated: it
/// succeeds exactly on valid UTF-8, and the text's bytes are `bytes`.
#[verifier::external_body]
pub(crate) fn text_of<'a>(bytes: &'a [u8]) -> (r: Option<&'a str>)
    ensures
        match r {
            Some(s) => valid_utf8(bytes@) && s.spec_bytes() == bytes@,
            None => !valid_utf8(bytes@),
        },
{
    std::str::from_utf8(bytes).ok()
}

fn side_byte(b: u8) -> (r: Option<Side>)
    ensures
        r == side_of(b),
{
    if b == 0 {
        Some(Side::Buy)
    } else if b == 1 {
        Some(Side::Sell)
    } else {
        None
    }
}

/// Decode the payload `p` of a message of type `t`.
pub fn decode_payload_bytes<'a>(t: u8, p: &'a [u8], with_trade: bool) -> (r: Result<ItchMessage<'a>, DecodeError>)
    ensures
        match decode_payload(t, p@, with_trade) {
            Ok(d) => r matches Ok(m) && message_is(m, d),
            Err(e) => r == Err::<ItchMessage<'a>, DecodeError>(e),
        },
{
    let n = p.len();
    if t == 0 {
        if n < 2 {
            return Err(DecodeError::truncated(2, n));
        }
        let tl = read_be16(p, 0) as usize;
        if n < 2 + tl {
            return Err(DecodeError::truncated(2 + tl, n));
        }
        match text_of(slice_subrange(p, 2, 2 + tl)) {
            Some(text) => Ok(ItchMessage::SystemEvent { text }),
            None => Err(DecodeError::InvalidUtf8),
        }
    } else if t == 1 {
        if n < 19 {
            return Err(DecodeError::truncated(19, n));
        }
        let side = match side_byte(p[8]) {
            Some(s) => s,
            None => {
                return Err(DecodeError::InvalidMessageType(p[8]));
            },
        };
        let sl = read_be16(p, 17) as usize;
        if n < 19 + sl {
            return Err(DecodeError::truncated(19 + sl, n));
        }
        match text_of(slice_subrange(p, 19, 19 + sl)) {
            Some(symbol) => Ok(
                ItchMessage::AddOrder {
                    oid: read_le64(p, 0),
                    side,
                    qty: read_le32(p, 9),
                    price: read_le32(p, 13),
                    symbol,
                },
            ),
            None => Err(DecodeError::InvalidUtf8),
        }
    } else if t == 2 || t == 3 {
        if n < 12 {
            return Err(DecodeError::truncated(12, n));
        }
        let oid = read_le64(p, 0);
        let qty = read_le32(p, 8);
        if t == 2 {
            Ok(ItchMessage::OrderExecuted { oid, qty })
        } else {
            Ok(ItchMessage::OrderCanceled { oid, qty })
        }
    } else if t == 4 && with_trade {
        if n < 17 {
            return Err(DecodeError::truncated(17, n));
        }
        let side = match side_byte(p[8]) {
            Some(s) => s,
            None => {
                return Err(DecodeError::InvalidMessageType(p[8]));
            },
        };
        Ok(ItchMessage::Trade { oid: read_le64(p, 0), side, qty: read_le32(p, 9), price: read_le32(p, 13) })
    } else {
        Err(DecodeError::InvalidMessageType(t))
    }
}

/// Decode the frame at the start of `buf`: the message and the bytes it takes, or
/// `None` if `buf` does not yet hold a whole frame.
pub fn decode_frame<'a>(buf: &'a [u8], with_trade: bool) -> (r: Result<Option<(ItchMessage<'a>, usize)>, DecodeError>)
    requires
        frame_fits(buf@),
    ensures
        pop_result_is(r, pop_spec(buf@, with_trade)),
{
    let n = buf.len();
    if n < 3 {
        return Ok(None);
    }
    let total = 2 + read_be16(buf, 0) as usize;
    if n < total {
        return Ok(None);
    }
    match decode_payload_bytes(buf[2], slice_subrange(buf, 3, total), with_trade) {
        Ok(msg) => Ok(Some((msg, total))),
        Err(e) => Err(e),
    }
}

/// Decoder for ITCH-style messages (length-prefixed, big-endian length), trades included.
#[derive(Debug, Clone, Copy)]
pub struct ItchDecoder;

impl ItchDecoder {
    pub fn new() -> Self {
        ItchDecoder
    }

    /// Parse the next length-prefixed message of `buf`: `(message, consumed_bytes)` if
    /// a whole message is there, `None` if `buf` is shorter than a whole frame.
    pub fn pop_message<'a>(&mut self, buf: &'a [u8]) -> (r: Result<Option<(ItchMessage<'a>, usize)>, DecodeError>)
        requires
            frame_fits(buf@),
        ensures
            pop_result_is(r, pop_spec(buf@, true)),
    {
        decode_frame(buf, true)
    }
}

impl Default for ItchDecoder {
    fn default() -> Self {
        ItchDecoder::new()
    }
}

} // verus!
