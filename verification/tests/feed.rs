use hft_demos::feed::decode::ItchDecoder;
use hft_demos::feed::encode::{encode_add_order, encode_order_canceled, encode_system_event};
use hft_demos::feed::error::{DecodeError, IngestError};
use hft_demos::feed::ingest::{DatagramIngestor, decode_stream, stream_fits_check};
use hft_demos::feed::feed_book::{FeedBookAction, FeedBookAdapter};
use hft_demos::feed::message::{ItchMessage, Side};
use hft_demos::lob::book_api::LimitOrderBook;
use hft_demos::lob::book_v0::book::LimitOrderBookV0;
use hft_demos::lob::event::CountingEventSink;

#[test]
fn decode_decoder_roundtrip_system_event() {
    let encoded = encode_system_event("START");
    let mut decoder = ItchDecoder::new();
    let (msg, consumed) = decoder.pop_message(&encoded).unwrap().unwrap();
    assert_eq!(consumed, encoded.len());
    assert!(matches!(msg, ItchMessage::SystemEvent { text } if text == "START"));
}

#[test]
fn decode_decoder_roundtrip_add_order() {
    let encoded = encode_add_order(1, Side::Buy, 100, 5000, "AAPL");
    let mut decoder = ItchDecoder::new();
    let (msg, consumed) = decoder.pop_message(&encoded).unwrap().unwrap();
    assert_eq!(consumed, encoded.len());
    assert!(matches!(
        msg,
        ItchMessage::AddOrder { oid: 1, side: Side::Buy, qty: 100, price: 5000, symbol } if symbol == "AAPL"
    ));
}

#[test]
fn decode_decoder_roundtrip_order_canceled() {
    let encoded = encode_order_canceled(42, 500);
    let mut decoder = ItchDecoder::new();
    let (msg, consumed) = decoder.pop_message(&encoded).unwrap().unwrap();
    assert_eq!(consumed, encoded.len());
    assert!(matches!(msg, ItchMessage::OrderCanceled { oid: 42, qty: 500 }));
}

#[test]
fn ingestor_decodes_single_message() {
    let datagram = encode_system_event("START");
    let mut ingestor = DatagramIngestor::new();
    let mut count = 0;
    ingestor
        .push_datagram(&datagram, |msg| {
            assert!(matches!(msg, ItchMessage::SystemEvent { text } if text == "START"));
            count += 1;
            Ok(())
        })
        .unwrap();
    assert_eq!(count, 1);
}

#[test]
fn ingestor_decodes_multiple_messages_in_one_datagram() {
    let mut datagram = encode_system_event("A");
    datagram.extend_from_slice(&encode_system_event("B"));
    datagram.extend_from_slice(&encode_add_order(1, Side::Buy, 100, 5000, "AAPL"));
    let mut ingestor = DatagramIngestor::new();
    let mut count = 0;
    ingestor
        .push_datagram(&datagram, |msg| {
            match count {
                0 => assert!(matches!(msg, ItchMessage::SystemEvent { text } if text == "A")),
                1 => assert!(matches!(msg, ItchMessage::SystemEvent { text } if text == "B")),
                2 => assert!(matches!(
                    msg,
                    ItchMessage::AddOrder { oid: 1, side: Side::Buy, qty: 100, price: 5000, symbol }
                        if symbol == "AAPL"
                )),
                _ => panic!("unexpected message"),
            }
            count += 1;
            Ok(())
        })
        .unwrap();
    assert_eq!(count, 3);
}

#[test]
fn ingestor_reassembles_message_split_across_datagrams() {
    let full = encode_system_event("SPLIT");
    let mid = full.len() / 2;
    let (first, second) = full.split_at(mid);
    let mut ingestor = DatagramIngestor::new();
    let mut count = 0;
    ingestor
        .push_datagram(first, |_msg| {
            count += 1;
            Ok(())
        })
        .unwrap();
    assert_eq!(count, 0);
    ingestor
        .push_datagram(second, |msg| {
            assert!(matches!(msg, ItchMessage::SystemEvent { text } if text == "SPLIT"));
            count += 1;
            Ok(())
        })
        .unwrap();
    assert_eq!(count, 1);
}

// --- further cases ---

#[test]
fn decoder_waits_for_a_whole_frame() {
    let encoded = encode_order_canceled(7, 9);
    let mut decoder = ItchDecoder::new();
    assert!(decoder.pop_message(&encoded[..2]).unwrap().is_none());
    assert!(decoder.pop_message(&encoded[..encoded.len() - 1]).unwrap().is_none());
}

#[test]
fn decoder_errors() {
    let mut decoder = ItchDecoder::new();
    // unknown type 9, payload of one byte
    assert_eq!(decoder.pop_message(&[0, 2, 9, 0]), Err(DecodeError::InvalidMessageType(9)));
    // order executed with a short payload
    assert_eq!(
        decoder.pop_message(&[0, 3, 2, 1, 2]),
        Err(DecodeError::Truncated { needed: 12, have: 2 })
    );
    // system event whose text is not UTF-8
    assert_eq!(decoder.pop_message(&[0, 4, 0, 0, 1, 0xFF]), Err(DecodeError::InvalidUtf8));
    // add order with side byte 7
    let mut bad_side = encode_add_order(1, Side::Sell, 1, 1, "X");
    bad_side[3 + 8] = 7;
    assert_eq!(decoder.pop_message(&bad_side), Err(DecodeError::InvalidMessageType(7)));
}

#[test]
fn decoder_reads_trades_and_executions() {
    let mut decoder = ItchDecoder::new();
    let mut trade = vec![0u8, 18, 4];
    trade.extend_from_slice(&5u64.to_le_bytes());
    trade.push(1);
    trade.extend_from_slice(&3u32.to_le_bytes());
    trade.extend_from_slice(&99u32.to_le_bytes());
    let (msg, n) = decoder.pop_message(&trade).unwrap().unwrap();
    assert_eq!(n, 20);
    assert_eq!(msg, ItchMessage::Trade { oid: 5, side: Side::Sell, qty: 3, price: 99 });
    let mut exec = vec![0u8, 13, 2];
    exec.extend_from_slice(&77u64.to_le_bytes());
    exec.extend_from_slice(&12u32.to_le_bytes());
    let (msg, n) = decoder.pop_message(&exec).unwrap().unwrap();
    assert_eq!(n, 15);
    assert_eq!(msg, ItchMessage::OrderExecuted { oid: 77, qty: 12 });
}

#[test]
fn ingestor_stops_on_callback_error_and_keeps_the_rest() {
    let mut datagram = encode_order_canceled(1, 1);
    datagram.extend_from_slice(&encode_order_canceled(2, 2));
    let mut ingestor = DatagramIngestor::new();
    let mut seen = 0;
    let r = ingestor.push_datagram(&datagram, |_msg| {
        seen += 1;
        Err(IngestError::Decode(DecodeError::InvalidUtf8))
    });
    assert!(r.is_err());
    assert_eq!(seen, 1);
    let mut seen2 = Vec::new();
    ingestor
        .push_datagram(&[], |msg| {
            if let ItchMessage::OrderCanceled { oid, .. } = msg {
                seen2.push(oid);
            }
            Ok(())
        })
        .unwrap();
    assert_eq!(seen2, vec![1, 2]);
}

#[test]
fn encoders_write_the_documented_bytes() {
    assert_eq!(encode_system_event("AB"), vec![0, 5, 0, 0, 2, b'A', b'B']);
    assert_eq!(encode_order_canceled(1, 2), vec![0, 13, 3, 1, 0, 0, 0, 0, 0, 0, 0, 2, 0, 0, 0]);
    let add = encode_add_order(0x0102, Side::Sell, 3, 4, "Z");
    assert_eq!(add[..3], [0, 21, 1]);
    assert_eq!(add[3..11], 0x0102u64.to_le_bytes());
    assert_eq!(add[11], 1);
    assert_eq!(add[20..], [0, 1, b'Z']);
}

#[test]
fn applies_add_and_full_cancel_messages_to_book() {
    let mut book = <LimitOrderBookV0 as LimitOrderBook>::with_config((90, 110), 32);
    let mut adapter = FeedBookAdapter::new();
    let mut events = CountingEventSink::default();

    let add = ItchMessage::AddOrder { oid: 10, side: Side::Buy, qty: 7, price: 100, symbol: "AAPL" };

    let action = adapter.apply(&mut book, &add, &mut events).unwrap();
    assert_eq!(action, FeedBookAction::AppliedAdd);
    assert_eq!(LimitOrderBook::order_count(&book), 1);
    assert_eq!(LimitOrderBook::best_bid(&book), Some((100, 7)));

    let cancel = ItchMessage::OrderCanceled { oid: 10, qty: 7 };
    let action = adapter.apply(&mut book, &cancel, &mut events).unwrap();
    assert_eq!(action, FeedBookAction::AppliedCancel);
    assert_eq!(LimitOrderBook::order_count(&book), 0);
    assert_eq!(LimitOrderBook::best_bid(&book), None);

    assert_eq!(events.accepted, 1);
    assert_eq!(events.cancelled, 1);
}

#[test]
fn applies_partial_cancel_and_order_executed_via_reduce_order() {
    let mut book = <LimitOrderBookV0 as LimitOrderBook>::with_config((90, 110), 32);
    let mut adapter = FeedBookAdapter::new();
    let mut events = CountingEventSink::default();

    let add = ItchMessage::AddOrder { oid: 20, side: Side::Sell, qty: 10, price: 101, symbol: "AAPL" };
    adapter.apply(&mut book, &add, &mut events).unwrap();
    assert_eq!(LimitOrderBook::best_ask(&book), Some((101, 10)));

    let partial_cancel = ItchMessage::OrderCanceled { oid: 20, qty: 3 };
    adapter.apply(&mut book, &partial_cancel, &mut events).unwrap();
    assert_eq!(LimitOrderBook::best_ask(&book), Some((101, 7)));

    let executed = ItchMessage::OrderExecuted { oid: 20, qty: 2 };
    adapter.apply(&mut book, &executed, &mut events).unwrap();
    assert_eq!(LimitOrderBook::best_ask(&book), Some((101, 5)));
}

#[test]
fn decode_stream_lists_whole_frames_and_rest() {
    let mut bytes = encode_system_event("A");
    bytes.extend(encode_order_canceled(5, 7));
    let full = bytes.len();
    bytes.extend(&encode_system_event("PARTIAL")[..4]);
    let (frames, outcome) = decode_stream(&bytes);
    assert_eq!(frames.len(), 2);
    assert!(matches!(frames[0].0, ItchMessage::SystemEvent { text } if text == "A"));
    assert!(matches!(frames[1].0, ItchMessage::OrderCanceled { oid: 5, qty: 7 }));
    assert_eq!(frames[0].1 + frames[1].1, full);
    assert_eq!(outcome, Ok(full));

    let mut bad = encode_system_event("B");
    bad.extend([0, 1, 9]);
    let (frames, outcome) = decode_stream(&bad);
    assert_eq!(frames.len(), 1);
    assert_eq!(outcome, Err(DecodeError::InvalidMessageType(9)));
}

#[test]
fn stream_fits_check_finds_zero_length_frames() {
    let mut bytes = encode_system_event("A");
    assert!(stream_fits_check(&bytes));
    bytes.extend([0, 0, 1]);
    assert!(!stream_fits_check(&bytes));
    assert!(stream_fits_check(&[0, 0]));
}

#[test]
fn ingestor_delivers_each_message_once_in_order() {
    let mut ing = DatagramIngestor::new();
    let mut all = encode_system_event("ONE");
    all.extend(encode_order_canceled(9, 3));
    all.extend(encode_system_event("THREE"));
    let cut = all.len() - 2;
    let mut seen: Vec<String> = Vec::new();
    ing.push_datagram(&all[..cut], |m| {
        seen.push(format!("{m:?}"));
        Ok(())
    })
    .unwrap();
    assert_eq!(seen.len(), 2);
    ing.push_datagram(&all[cut..], |m| {
        seen.push(format!("{m:?}"));
        Ok(())
    })
    .unwrap();
    assert_eq!(seen.len(), 3);
    assert!(seen[2].contains("THREE"));
}
