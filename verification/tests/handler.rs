use hft_demos::handler::itch::{encode_add_order, encode_order_canceled, encode_system_event};
use hft_demos::handler::itch::{DecodeError, ItchDecoder, ItchMessage, Side};
use hft_demos::handler::mold_udp64::{
    decode_packet, encode_packet, parse_header, MoldDecodeError, PacketKind, HEADER_LEN, SESSION_LEN,
};
use hft_demos::handler::outbound::{OutboundBuf, OUTBOUND_LEN};
use hft_demos::handler::reorder::{
    PayloadTooLarge, PushError, PushOutcome, ReorderBuffer, ReorderStats, ReorderWindowExceeded,
};
use hft_demos::handler::strategy::QuoterState;
use hft_demos::handler::udp_receiver::RecvBuf;
use hft_demos::lob::book_v0::book::LimitOrderBookV0;
use hft_demos::lob::event::BookEvent;
use hft_demos::lob::types::Side as BookSide;

// --- itch ---

#[test]
fn itch_decoder_roundtrip_system_event() {
    let encoded = encode_system_event("START");
    let mut decoder = ItchDecoder::new();
    let (msg, consumed) = decoder.pop_message(&encoded).unwrap().unwrap();
    assert_eq!(consumed, encoded.len());
    assert!(matches!(msg, ItchMessage::SystemEvent { text } if text == "START"));
}

#[test]
fn itch_decoder_roundtrip_add_order() {
    let encoded = encode_add_order(1, Side::Buy, 100, 5000, "AAPL");
    let mut decoder = ItchDecoder::new();
    let (msg, consumed) = decoder.pop_message(&encoded).unwrap().unwrap();
    assert_eq!(consumed, encoded.len());
    assert!(matches!(
        msg,
        ItchMessage::AddOrder { oid: 1, side: Side::Buy, qty: 100, price: 5000, symbol } if symbol == "AAPL"
    ));
}

#[test]
fn itch_decoder_roundtrip_order_canceled() {
    let encoded = encode_order_canceled(42, 500);
    let mut decoder = ItchDecoder::new();
    let (msg, consumed) = decoder.pop_message(&encoded).unwrap().unwrap();
    assert_eq!(consumed, encoded.len());
    assert!(matches!(msg, ItchMessage::OrderCanceled { oid: 42, qty: 500 }));
}

#[test]
fn itch_decoder_refuses_trades() {
    let mut trade = vec![0u8, 18, 4];
    trade.extend_from_slice(&[0u8; 17]);
    assert_eq!(ItchDecoder::new().pop_message(&trade), Err(DecodeError::InvalidMessageType(4)));
}

// --- mold_udp64 ---

const SESSION: &[u8; SESSION_LEN] = b"DEMO      ";

#[test]
fn header_len_is_20() {
    assert_eq!(HEADER_LEN, 20);
}

#[test]
fn roundtrip_single_message() {
    let payload = b"hello world";
    let packet = encode_packet(SESSION, 42, &[payload]);
    let decoded = decode_packet(&packet).unwrap();
    assert_eq!(decoded.header.seq, 42);
    assert_eq!(decoded.header.msg_count, 1);
    assert_eq!(decoded.header.session, *SESSION);
    let PacketKind::Messages(iter) = decoded.kind else { panic!("expected Messages") };
    let msgs: Vec<_> = iter.collect_all();
    assert_eq!(msgs, vec![payload.as_slice()]);
}

#[test]
fn roundtrip_multiple_messages() {
    let a = b"msg-a";
    let b = b"msg-b-longer";
    let packet = encode_packet(SESSION, 7, &[a, b]);
    let decoded = decode_packet(&packet).unwrap();
    assert_eq!(decoded.header.seq, 7);
    assert_eq!(decoded.header.msg_count, 2);
    let PacketKind::Messages(iter) = decoded.kind else { panic!("expected Messages") };
    let msgs: Vec<_> = iter.collect_all();
    assert_eq!(msgs, vec![a.as_slice(), b.as_slice()]);
}

#[test]
fn parse_header_only() {
    let packet = encode_packet(SESSION, 99, &[b"x"]);
    let hdr = parse_header(&packet).unwrap();
    assert_eq!(hdr.seq, 99);
    assert_eq!(hdr.msg_count, 1);
    assert_eq!(&hdr.session, SESSION);
}

#[test]
fn truncated_header_returns_error() {
    assert!(matches!(
        decode_packet(&[0u8; 19]),
        Err(MoldDecodeError::HeaderTruncated { needed: HEADER_LEN, have: 19 })
    ));
}

#[test]
fn truncated_message_body_stops_early() {
    let packet = encode_packet(SESSION, 1, &[b"full"]);
    let truncated = &packet[..packet.len() - 1];
    let decoded = decode_packet(truncated).unwrap();
    let PacketKind::Messages(iter) = decoded.kind else { panic!("expected Messages") };
    assert_eq!(iter.collect_all(), Vec::<&[u8]>::new());
}

#[test]
fn fields_are_big_endian() {
    let packet = encode_packet(SESSION, 0x0102030405060708, &[b"x"]);
    assert_eq!(&packet[10..18], &[0x01, 0x02, 0x03, 0x04, 0x05, 0x06, 0x07, 0x08]);
    assert_eq!(&packet[18..20], &[0x00, 0x01]);
}

#[test]
fn heartbeat_and_end_of_session_and_session_text() {
    let mut hb = SESSION.to_vec();
    hb.extend_from_slice(&5u64.to_be_bytes());
    hb.extend_from_slice(&[0, 0]);
    let p = decode_packet(&hb).unwrap();
    assert!(matches!(p.kind, PacketKind::Heartbeat));
    assert_eq!(p.header.session_str(), Some("DEMO"));
    let mut eos = hb.clone();
    eos[18] = 0xFF;
    eos[19] = 0xFF;
    assert!(matches!(decode_packet(&eos).unwrap().kind, PacketKind::EndOfSession));
    let mut bad = hb.clone();
    bad[0] = 0xFF;
    assert_eq!(decode_packet(&bad).unwrap().header.session_str(), None);
}

// --- outbound ---

#[test]
fn new_order_roundtrip() {
    let mut buf = OutboundBuf::default();
    let bytes = buf.encode_new_order(99, BookSide::Buy, 5000, 10);
    assert_eq!(bytes[0], 0x01);
    assert_eq!(u64::from_le_bytes(bytes[1..9].try_into().unwrap()), 99);
    assert_eq!(bytes[9], 0);
    assert_eq!(u32::from_le_bytes(bytes[10..14].try_into().unwrap()), 5000);
    assert_eq!(u32::from_le_bytes(bytes[14..18].try_into().unwrap()), 10);
    assert_eq!(bytes.len(), OUTBOUND_LEN);
}

#[test]
fn cancel_order_roundtrip() {
    let mut buf = OutboundBuf::default();
    let bytes = buf.encode_cancel_order(42);
    assert_eq!(bytes[0], 0x02);
    assert_eq!(u64::from_le_bytes(bytes[1..9].try_into().unwrap()), 42);
    assert_eq!(bytes.len(), 9);
}

#[test]
fn outbound_slice_follows_last_encode() {
    let mut buf = OutboundBuf::default();
    assert!(buf.is_empty());
    buf.encode_new_order(1, BookSide::Sell, 2, 3);
    assert_eq!(buf.as_slice().len(), 18);
    assert_eq!(buf.as_slice()[9], 1);
    buf.encode_cancel_order(7);
    assert_eq!(buf.as_slice(), &[2, 7, 0, 0, 0, 0, 0, 0, 0]);
}

// --- reorder ---

fn push_seq(rb: &mut ReorderBuffer, seq: u64) -> Result<PushOutcome, PushError> {
    let b = [seq as u8; 4];
    rb.push(seq, &b, seq)
}

#[test]
fn permuted_321_drains_123() {
    let mut rb = ReorderBuffer::new(1, 8);
    assert!(matches!(push_seq(&mut rb, 3).unwrap(), PushOutcome::Buffered { arrived_ahead: true }));
    assert!(push_seq(&mut rb, 1).unwrap() == PushOutcome::Buffered { arrived_ahead: false });
    assert_eq!(rb.drain_ready().len(), 1);
    assert!(matches!(push_seq(&mut rb, 2).unwrap(), PushOutcome::Buffered { arrived_ahead: false }));
    let drained = rb.drain_ready();
    assert_eq!(drained.len(), 2);
    assert_eq!(drained[0].as_slice(), &[2u8; 4]);
    assert_eq!(drained[1].as_slice(), &[3u8; 4]);
    assert_eq!(rb.next_expected(), 4);
}

#[test]
fn late_packet_dropped() {
    let mut rb = ReorderBuffer::new(10, 4);
    assert_eq!(rb.push(9, &[1], 0).unwrap(), PushOutcome::LateDuplicate);
    assert!(rb.drain_ready().is_empty());
}

#[test]
fn duplicate_seq_rejected() {
    let mut rb = ReorderBuffer::new(1, 8);
    push_seq(&mut rb, 2).unwrap();
    assert_eq!(push_seq(&mut rb, 2).unwrap(), PushOutcome::DuplicateSeq);
}

#[test]
fn window_exceeded_err() {
    let mut rb = ReorderBuffer::new(0, 4);
    let err = rb.push(4, &[], 0).unwrap_err();
    assert!(matches!(
        err,
        PushError::WindowExceeded(ReorderWindowExceeded { seq: 4, next_expected: 0, window: 4 })
    ));
}

#[test]
fn ring_wraps_start() {
    let mut rb = ReorderBuffer::new(0, 4);
    for s in 0u64..4 {
        push_seq(&mut rb, s).unwrap();
    }
    assert_eq!(rb.drain_ready().len(), 4);
    assert_eq!(rb.next_expected(), 4);

    push_seq(&mut rb, 5).unwrap();
    push_seq(&mut rb, 4).unwrap();
    assert_eq!(rb.drain_ready().len(), 2);
    assert_eq!(rb.next_expected(), 6);
}

#[test]
fn reorder_stats_and_payload_limit() {
    let mut rb = ReorderBuffer::new(5, 2);
    let big = vec![0u8; 1473];
    assert_eq!(
        rb.push(5, &big, 0),
        Err(PushError::PayloadTooLarge(PayloadTooLarge { len: 1473, max: 1472 }))
    );
    push_seq(&mut rb, 6).unwrap();
    push_seq(&mut rb, 6).unwrap();
    push_seq(&mut rb, 1).unwrap();
    assert_eq!(
        rb.stats(),
        ReorderStats { packets_late_duplicate: 1, packets_duplicate_seq: 1, reorder_ahead_arrivals: 1 }
    );
    assert!(rb.pop_ready().is_none());
    rb.advance_in_order();
    let d = rb.pop_ready().unwrap();
    assert_eq!(d.as_slice(), &[6u8; 4]);
    assert_eq!(d.t0, 6);
    assert_eq!(d.len(), 4);
    assert_eq!(rb.next_expected(), 7);
}

// --- strategy and receive buffers ---

#[test]
fn quoter_posts_then_cancels() {
    let mut book = LimitOrderBookV0::new();
    let mut ev: Vec<BookEvent> = Vec::new();
    book.add_limit_order(1, BookSide::Buy, 100, 5, &mut ev);
    book.add_limit_order(2, BookSide::Sell, 105, 5, &mut ev);
    let mut q = QuoterState::new();
    let mut out = OutboundBuf::default();
    assert!(q.on_book_update(&book, &mut out));
    assert_eq!(q.resting_oid(), Some(1));
    assert_eq!(out.as_slice()[0], 1);
    assert_eq!(u32::from_le_bytes(out.as_slice()[10..14].try_into().unwrap()), 101);
    // the market has not moved: the quote stays and nothing is sent
    let mut same = OutboundBuf::default();
    assert!(!q.on_book_update(&book, &mut same));
    assert!(same.is_empty());
    assert_eq!(q.resting_oid(), Some(1));
    // the best bid moves up: the quote is no longer one tick above it, so it is cancelled
    book.add_limit_order(3, BookSide::Buy, 102, 1, &mut ev);
    let mut moved = OutboundBuf::default();
    assert!(q.on_book_update(&book, &mut moved));
    assert_eq!(q.resting_oid(), None);
    assert_eq!(moved.as_slice(), &[2, 1, 0, 0, 0, 0, 0, 0, 0]);
    // then a new quote goes one tick above the new best bid
    let mut again = OutboundBuf::default();
    assert!(q.on_book_update(&book, &mut again));
    assert_eq!(q.resting_oid(), Some(2));
    assert_eq!(u32::from_le_bytes(again.as_slice()[10..14].try_into().unwrap()), 103);
    // tighten the spread: the resting quote is cancelled, then nothing is sent
    book.add_limit_order(4, BookSide::Buy, 104, 1, &mut ev);
    let mut closed = OutboundBuf::default();
    assert!(q.on_book_update(&book, &mut closed));
    assert_eq!(closed.as_slice(), &[2, 2, 0, 0, 0, 0, 0, 0, 0]);
    let mut out2 = OutboundBuf::default();
    assert!(!q.on_book_update(&book, &mut out2));
    assert!(out2.is_empty());
}

#[test]
fn recv_buf_slice() {
    let mut b = RecvBuf::default();
    assert!(b.as_slice().is_empty());
    b.data[0] = 9;
    b.data[1] = 8;
    b.len = 2;
    assert_eq!(b.as_slice(), &[9, 8]);
}
