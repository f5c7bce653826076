//! Encoding of ITCH-style messages, for tests and replay.
use vstd::prelude::*;
use vstd::string::StringSliceAdditionalSpecFns;
use vstd::utf8::{valid_utf8, encode_utf8_valid_utf8};
use crate::feed::message::Side;
use crate::feed::decode::{Decoded, frame_fits, pop_spec, frame_len, decode_payload, side_of};
use crate::feed::wire::{
    be16_bytes, le32_bytes, le64_bytes, push_be16, push_le32, push_le64, push_all, be16_at, le32_at, le64_at,
    lemma_be16_roundtrip, lemma_le32_roundtrip, lemma_le64_roundtrip,
};

verus! {

pub open spec fn side_code(side: Side) -> u8 {
    match side {
        Side::Buy => 0,
        Side::Sell => 1,
    }
}

/// Frame of a system event with text `text`.
pub open spec fn system_event_frame(text: Seq<u8>) -> Seq<u8> {
    be16_bytes(((3 + text.len()) % 65536) as u16) + seq![0u8] + be16_bytes((text.len() % 65536) as u16) + text
}

/// Frame of an add-order message.
pub open spec fn add_order_frame(oid: u64, side: Side, qty: u32, price: u32, symbol: Seq<u8>) -> Seq<u8> {
    be16_bytes(((20 + symbol.len()) % 65536) as u16) + seq![1u8] + le64_bytes(oid) + seq![side_code(side)]
        + le32_bytes(qty) + le32_bytes(price) + be16_bytes((symbol.len() % 65536) as u16) + symbol
}

/// Frame of an order-canceled message.
pub open spec fn order_canceled_frame(oid: u64, qty: u32) -> Seq<u8> {
    be16_bytes(13) + seq![3u8] + le64_bytes(oid) + le32_bytes(qty)
}

/// Encode a system event. The length fields are 16 bits wide: text longer than
/// 65532 bytes gives a frame whose lengths wrapped around.
pub fn encode_system_event(text: &str) -> (r: Vec<u8>)
    ensures
        r@ == system_event_frame(text.spec_bytes()),
{
    let text_bytes = text.as_bytes();
    let n = text_bytes.len();
    let m = n % 65536;
    let payload_len = if m + 3 >= 65536 { (m + 3 - 65536) as u16 } else { (m + 3) as u16 };
    assert(payload_len == ((3 + n) % 65536) as u16);
    let mut buf: Vec<u8> = Vec::new();
    push_be16(&mut buf, payload_len);
    buf.push(0u8);
    push_be16(&mut buf, m as u16);
    push_all(&mut buf, text_bytes);
    assert(buf@ =~= system_event_frame(text.spec_bytes()));
    buf
}

/// Encode an add-order message. Symbols longer than 65515 bytes give a frame whose
/// lengths wrapped around.
pub fn encode_add_order(oid: u64, side: Side, qty: u32, price: u32, symbol: &str) -> (r: Vec<u8>)
    ensures
        r@ == add_order_frame(oid, side, qty, price, symbol.spec_bytes()),
{
    let sym = symbol.as_bytes();
    let n = sym.len();
    let m = n % 65536;
    let payload_len = if m + 20 >= 65536 { (m + 20 - 65536) as u16 } else { (m + 20) as u16 };
    assert(payload_len == ((20 + n) % 65536) as u16);
    let mut buf: Vec<u8> = Vec::new();
    push_be16(&mut buf, payload_len);
    buf.push(1u8);
    push_le64(&mut buf, oid);
    buf.push(
        match side {
            Side::Buy => 0u8,
            Side::Sell => 1u8,
        },
    );
    push_le32(&mut buf, qty);
    push_le32(&mut buf, price);
    push_be16(&mut buf, m as u16);
    push_all(&mut buf, sym);
    assert(buf@ =~= add_order_frame(oid, side, qty, price, symbol.spec_bytes()));
    buf
}

/// Encode an order-canceled message.
pub fn encode_order_canceled(oid: u64, qty: u32) -> (r: Vec<u8>)
    ensures
        r@ == order_canceled_frame(oid, qty),
{
    let mut buf: Vec<u8> = Vec::new();
    push_be16(&mut buf, 13u16);
    buf.push(3u8);
    push_le64(&mut buf, oid);
    push_le32(&mut buf, qty);
    assert(buf@ =~= order_canceled_frame(oid, qty));
    buf
}

/// Decoding the frame of a system event gives back its text and consumes the whole
/// frame, for any text of valid UTF-8 that fits the 16-bit length fields.
pub proof fn lemma_system_event_roundtrip(text: Seq<u8>, with_trade: bool)
    requires
        valid_utf8(text),
        text.len() <= 65532,
    ensures
        frame_fits(system_event_frame(text)),
        pop_spec(system_event_frame(text), with_trade) == Ok::<Option<(Decoded, nat)>, crate::feed::error::DecodeError>(
            Some((Decoded::SystemEvent(text), system_event_frame(text).len())),
        ),
{
    let f = system_event_frame(text);
    let n = text.len();
    lemma_be16_roundtrip(((3 + n) % 65536) as u16);
    lemma_be16_roundtrip((n % 65536) as u16);
    assert(be16_at(f, 0) == be16_at(be16_bytes(((3 + n) % 65536) as u16), 0));
    assert(f.len() == 5 + n);
    assert(frame_len(f) == 5 + n);
    let p = f.subrange(3, 5 + n as int);
    assert(p =~= be16_bytes((n % 65536) as u16) + text);
    assert(be16_at(p, 0) == be16_at(be16_bytes((n % 65536) as u16), 0));
    assert(p.subrange(2, 2 + n as int) =~= text);
    assert(f[2] == 0);
}

/// Decoding the frame of an add order gives back its fields and consumes the whole
/// frame, for any symbol of valid UTF-8 that fits the 16-bit length fields.
pub proof fn lemma_add_order_roundtrip(oid: u64, side: Side, qty: u32, price: u32, symbol: Seq<u8>, with_trade: bool)
    requires
        valid_utf8(symbol),
        symbol.len() <= 65515,
    ensures
        frame_fits(add_order_frame(oid, side, qty, price, symbol)),
        pop_spec(add_order_frame(oid, side, qty, price, symbol), with_trade) == Ok::<
            Option<(Decoded, nat)>,
            crate::feed::error::DecodeError,
        >(Some((Decoded::AddOrder(oid, side, qty, price, symbol), add_order_frame(oid, side, qty, price, symbol).len()))),
{
    let f = add_order_frame(oid, side, qty, price, symbol);
    let n = symbol.len();
    lemma_be16_roundtrip(((20 + n) % 65536) as u16);
    lemma_be16_roundtrip((n % 65536) as u16);
    lemma_le64_roundtrip(oid);
    lemma_le32_roundtrip(qty);
    lemma_le32_roundtrip(price);
    assert(f.len() == 22 + n);
    assert(be16_at(f, 0) == be16_at(be16_bytes(((20 + n) % 65536) as u16), 0));
    let p = f.subrange(3, 22 + n as int);
    assert(p =~= le64_bytes(oid) + seq![side_code(side)] + le32_bytes(qty) + le32_bytes(price) + be16_bytes(
        (n % 65536) as u16,
    ) + symbol);
    assert(le64_at(p, 0) == le64_at(le64_bytes(oid), 0));
    assert(le32_at(p, 9) == le32_at(le32_bytes(qty), 0));
    assert(le32_at(p, 13) == le32_at(le32_bytes(price), 0));
    assert(be16_at(p, 17) == be16_at(be16_bytes((n % 65536) as u16), 0));
    assert(p[8] == side_code(side));
    assert(side_of(p[8]) == Some(side));
    assert(p.subrange(19, 19 + n as int) =~= symbol);
    assert(f[2] == 1);
}

/// Decoding the frame of an order-canceled message gives back its fields and
/// consumes the whole frame.
pub proof fn lemma_order_canceled_roundtrip(oid: u64, qty: u32, with_trade: bool)
    ensures
        frame_fits(order_canceled_frame(oid, qty)),
        pop_spec(order_canceled_frame(oid, qty), with_trade) == Ok::<
            Option<(Decoded, nat)>,
            crate::feed::error::DecodeError,
        >(Some((Decoded::OrderCanceled(oid, qty), 15))),
{
    let f = order_canceled_frame(oid, qty);
    lemma_be16_roundtrip(13);
    lemma_le64_roundtrip(oid);
    lemma_le32_roundtrip(qty);
    assert(f.len() == 15);
    assert(be16_at(f, 0) == be16_at(be16_bytes(13), 0));
    let p = f.subrange(3, 15);
    assert(p =~= le64_bytes(oid) + le32_bytes(qty));
    assert(le64_at(p, 0) == le64_at(le64_bytes(oid), 0));
    assert(le32_at(p, 8) == le32_at(le32_bytes(qty), 0));
    assert(f[2] == 3);
}

/// The bytes of a string are valid UTF-8, so the round trips above hold for every
/// encoded string that fits the length fields.
pub proof fn lemma_str_bytes_valid(s: &str)
    ensures
        valid_utf8(s.spec_bytes()),
{
    encode_utf8_valid_utf8(s@);
}

/// A frame that decodes whole decodes the same with more bytes after it, and still
/// consumes only itself: the round trips above hold for a frame at the front of a
/// longer stream.
pub proof fn lemma_frame_then_more(f: Seq<u8>, more: Seq<u8>, with_trade: bool)
    requires
        pop_spec(f, with_trade) matches Ok(Some((_, n))) && n == f.len(),
    ensures
        pop_spec(f + more, with_trade) == pop_spec(f, with_trade),
{
    let b = f + more;
    assert(f.len() >= 3);
    assert(b[0] == f[0] && b[1] == f[1] && b[2] == f[2]);
    assert(be16_at(b, 0) == be16_at(f, 0));
    assert(frame_len(b) == frame_len(f));
    assert(b.subrange(3, frame_len(f) as int) =~= f.subrange(3, frame_len(f) as int));
}

} // verus!
