use hft_demos::lob::book::LimitOrderBook;
use hft_demos::lob::event::{BookEvent, BookEventKind, RejectReason};
use hft_demos::lob::types::Side;

#[test]
fn book_add_limit_order_rests_in_book() {
    let mut book = LimitOrderBook::new();
    let events = book.add_limit_order(1, Side::Buy, 100, 10);

    assert_eq!(events.len(), 1);
    assert!(matches!(events[0].kind, BookEventKind::Accepted { order_id: 1 }));
    assert_eq!(book.best_bid(), Some((100, 10)));
    assert_eq!(book.best_ask(), None);
    assert_eq!(book.order_count(), 1);
}

#[test]
fn book_add_and_cancel() {
    let mut book = LimitOrderBook::new();
    book.add_limit_order(1, Side::Buy, 100, 10);

    let events = book.cancel_order(1);
    assert_eq!(events.len(), 1);
    assert!(matches!(
        events[0].kind,
        BookEventKind::Cancelled { order_id: 1, remaining_qty: 10 }
    ));
    assert_eq!(book.best_bid(), None);
    assert_eq!(book.order_count(), 0);
}

#[test]
fn book_cancel_unknown_order() {
    let mut book = LimitOrderBook::new();
    let events = book.cancel_order(999);

    assert_eq!(events.len(), 1);
    assert!(matches!(
        events[0].kind,
        BookEventKind::Rejected { order_id: 999, reason: RejectReason::UnknownOrder }
    ));
}

#[test]
fn book_limit_order_full_match() {
    let mut book = LimitOrderBook::new();
    book.add_limit_order(1, Side::Sell, 100, 10);

    let events = book.add_limit_order(2, Side::Buy, 100, 10);
    assert_eq!(events.len(), 4);
    assert!(matches!(events[0].kind, BookEventKind::Accepted { order_id: 2 }));
    assert!(matches!(
        events[1].kind,
        BookEventKind::Fill { aggressor_order_id: 2, passive_order_id: 1, price: 100, qty: 10 }
    ));
    assert!(matches!(events[2].kind, BookEventKind::Filled { order_id: 1 }));
    assert!(matches!(events[3].kind, BookEventKind::Filled { order_id: 2 }));
    assert_eq!(book.order_count(), 0);
    assert_eq!(book.best_bid(), None);
    assert_eq!(book.best_ask(), None);
}

#[test]
fn book_limit_order_partial_match_passive_remains() {
    let mut book = LimitOrderBook::new();
    book.add_limit_order(1, Side::Sell, 100, 10);

    let events = book.add_limit_order(2, Side::Buy, 100, 5);
    assert_eq!(events.len(), 3);
    assert!(matches!(
        events[1].kind,
        BookEventKind::Fill { aggressor_order_id: 2, passive_order_id: 1, price: 100, qty: 5 }
    ));
    assert!(matches!(events[2].kind, BookEventKind::Filled { order_id: 2 }));

    assert_eq!(book.best_ask(), Some((100, 5)));
    assert_eq!(book.order(1).unwrap().remaining_qty, 5);
    assert_eq!(book.order_count(), 1);
}

#[test]
fn incoming_limit_rests_after_partial_fill() {
    let mut book = LimitOrderBook::new();
    book.add_limit_order(1, Side::Sell, 100, 5);
    book.add_limit_order(2, Side::Buy, 100, 10);

    assert_eq!(book.best_bid(), Some((100, 5)));
    assert_eq!(book.best_ask(), None);
    assert_eq!(book.order(2).unwrap().remaining_qty, 5);
}

#[test]
fn book_market_order_full_fill() {
    let mut book = LimitOrderBook::new();
    book.add_limit_order(1, Side::Sell, 100, 5);
    book.add_limit_order(2, Side::Sell, 101, 5);

    let events = book.add_market_order(3, Side::Buy, 8);

    let fills: Vec<&BookEvent> =
        events.iter().filter(|e| matches!(e.kind, BookEventKind::Fill { .. })).collect();
    assert_eq!(fills.len(), 2);
    assert!(matches!(fills[0].kind, BookEventKind::Fill { price: 100, qty: 5, .. }));
    assert!(matches!(fills[1].kind, BookEventKind::Fill { price: 101, qty: 3, .. }));
    assert!(events.iter().any(|e| matches!(e.kind, BookEventKind::Filled { order_id: 3 })));
    assert_eq!(book.best_ask(), Some((101, 2)));
}

#[test]
fn book_market_order_partial_fill_exhausts_book() {
    let mut book = LimitOrderBook::new();
    book.add_limit_order(1, Side::Sell, 100, 5);

    let events = book.add_market_order(2, Side::Buy, 10);
    assert!(events.iter().any(|e| matches!(
        e.kind,
        BookEventKind::Cancelled { order_id: 2, remaining_qty: 5 }
    )));
    assert_eq!(book.best_ask(), None);
}

#[test]
fn book_fifo_priority() {
    let mut book = LimitOrderBook::new();
    book.add_limit_order(1, Side::Sell, 100, 10);
    book.add_limit_order(2, Side::Sell, 100, 10);

    let events = book.add_limit_order(3, Side::Buy, 100, 10);
    assert!(matches!(events[1].kind, BookEventKind::Fill { passive_order_id: 1, qty: 10, .. }));
    assert!(matches!(events[2].kind, BookEventKind::Filled { order_id: 1 }));
    assert_eq!(book.order(2).unwrap().remaining_qty, 10);
    assert_eq!(book.best_ask(), Some((100, 10)));
}

#[test]
fn book_multi_level_sweep() {
    let mut book = LimitOrderBook::new();
    book.add_limit_order(1, Side::Sell, 100, 5);
    book.add_limit_order(2, Side::Sell, 101, 5);
    book.add_limit_order(3, Side::Sell, 102, 5);

    let events = book.add_limit_order(4, Side::Buy, 102, 12);

    let fills: Vec<&BookEvent> =
        events.iter().filter(|e| matches!(e.kind, BookEventKind::Fill { .. })).collect();
    assert_eq!(fills.len(), 3);
    assert!(matches!(
        fills[0].kind,
        BookEventKind::Fill { passive_order_id: 1, price: 100, qty: 5, .. }
    ));
    assert!(matches!(
        fills[1].kind,
        BookEventKind::Fill { passive_order_id: 2, price: 101, qty: 5, .. }
    ));
    assert!(matches!(
        fills[2].kind,
        BookEventKind::Fill { passive_order_id: 3, price: 102, qty: 2, .. }
    ));

    assert_eq!(book.best_ask(), Some((102, 3)));
    assert_eq!(book.order_count(), 1);
}

#[test]
fn book_no_match_when_prices_dont_cross() {
    let mut book = LimitOrderBook::new();
    book.add_limit_order(1, Side::Sell, 101, 10);
    book.add_limit_order(2, Side::Buy, 99, 10);

    assert_eq!(book.best_bid(), Some((99, 10)));
    assert_eq!(book.best_ask(), Some((101, 10)));
    assert_eq!(book.order_count(), 2);
    assert_eq!(book.spread(), Some(2));
}

#[test]
fn book_sell_side_matching_hits_best_bid_first() {
    let mut book = LimitOrderBook::new();
    book.add_limit_order(1, Side::Buy, 100, 10);
    book.add_limit_order(2, Side::Buy, 99, 10);

    let events = book.add_limit_order(3, Side::Sell, 99, 15);

    let fills: Vec<&BookEvent> =
        events.iter().filter(|e| matches!(e.kind, BookEventKind::Fill { .. })).collect();
    assert_eq!(fills.len(), 2);
    assert!(matches!(
        fills[0].kind,
        BookEventKind::Fill { passive_order_id: 1, price: 100, qty: 10, .. }
    ));
    assert!(matches!(
        fills[1].kind,
        BookEventKind::Fill { passive_order_id: 2, price: 99, qty: 5, .. }
    ));
    assert_eq!(book.best_bid(), Some((99, 5)));
    assert_eq!(book.best_ask(), None);
}

#[test]
fn book_reject_zero_quantity() {
    let mut book = LimitOrderBook::new();
    let events = book.add_limit_order(1, Side::Buy, 100, 0);
    assert!(matches!(
        events[0].kind,
        BookEventKind::Rejected { reason: RejectReason::InvalidQuantity, .. }
    ));
    assert_eq!(book.order_count(), 0);
}

#[test]
fn book_reject_zero_price() {
    let mut book = LimitOrderBook::new();
    let events = book.add_limit_order(1, Side::Buy, 0, 10);
    assert!(matches!(
        events[0].kind,
        BookEventKind::Rejected { reason: RejectReason::InvalidPrice, .. }
    ));
}

#[test]
fn book_reject_duplicate_id() {
    let mut book = LimitOrderBook::new();
    book.add_limit_order(1, Side::Buy, 100, 10);
    let events = book.add_limit_order(1, Side::Buy, 101, 5);
    assert!(matches!(
        events[0].kind,
        BookEventKind::Rejected { reason: RejectReason::DuplicateOrderId, .. }
    ));
    assert_eq!(book.order_count(), 1);
}

#[test]
fn book_event_sequences_are_monotonic() {
    let mut book = LimitOrderBook::new();
    let mut all: Vec<BookEvent> = Vec::new();
    all.extend(book.add_limit_order(1, Side::Sell, 100, 10));
    all.extend(book.add_limit_order(2, Side::Buy, 100, 10));
    all.extend(book.cancel_order(999));

    for w in all.windows(2) {
        assert!(
            w[0].sequence < w[1].sequence,
            "sequences must be strictly increasing: {} vs {}",
            w[0].sequence,
            w[1].sequence
        );
    }
}
