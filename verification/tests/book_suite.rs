//! The shared scenarios every limit order book must pass, run against
//! `LimitOrderBookV0` through the `LimitOrderBook` trait.

use hft_demos::lob::book_api::LimitOrderBook;
use hft_demos::lob::book_v0::book::LimitOrderBookV0;
use hft_demos::lob::event::{BookEvent, BookEventKind, RejectReason};
use hft_demos::lob::types::Side;

fn reject_zero_quantity<B: LimitOrderBook>(mut book: B) {
    let events = book.add_limit_order_vec(1, Side::Buy, 100, 0);
    assert_eq!(
        events[0].kind,
        BookEventKind::rejected(1, RejectReason::InvalidQuantity)
    );
    assert_eq!(book.order_count(), 0);
}

fn reject_zero_price<B: LimitOrderBook>(mut book: B) {
    let events = book.add_limit_order_vec(1, Side::Buy, 0, 10);
    assert_eq!(
        events[0].kind,
        BookEventKind::rejected(1, RejectReason::InvalidPrice)
    );
}

fn add_limit_order_rests_in_book<B: LimitOrderBook>(mut book: B) {
    let events = book.add_limit_order_vec(1, Side::Buy, 100, 10);

    assert_eq!(events.len(), 1);
    assert_eq!(events[0].kind, BookEventKind::Accepted { order_id: 1 });
    assert_eq!(book.best_bid(), Some((100, 10)));
    assert_eq!(book.best_ask(), None);
    assert_eq!(book.order_count(), 1);
}

fn add_and_cancel<B: LimitOrderBook>(mut book: B) {
    book.add_limit_order_vec(1, Side::Buy, 100, 10);

    let events = book.cancel_order_vec(1);
    assert_eq!(events.len(), 1);
    assert_eq!(events[0].kind, BookEventKind::cancelled(1, 10));
    assert_eq!(book.best_bid(), None);
    assert_eq!(book.best_ask(), None);
    assert_eq!(book.order_count(), 0);
}

fn cancel_unknown_order<B: LimitOrderBook>(mut book: B) {
    let events = book.cancel_order_vec(999);

    assert_eq!(events.len(), 1);
    assert_eq!(
        events[0].kind,
        BookEventKind::rejected(999, RejectReason::UnknownOrder)
    );
}

fn cancel_one_of_many_at_same_price<B: LimitOrderBook>(mut book: B) {
    book.add_limit_order_vec(1, Side::Sell, 100, 10);
    book.add_limit_order_vec(2, Side::Sell, 100, 20);
    book.add_limit_order_vec(3, Side::Sell, 100, 30);

    let events = book.cancel_order_vec(2);
    assert_eq!(events.len(), 1);
    assert_eq!(events[0].kind, BookEventKind::cancelled(2, 20));

    assert_eq!(book.order_count(), 2);
    assert_eq!(book.best_ask(), Some((100, 40)));
    assert!(book.order(1).is_some());
    assert!(book.order(2).is_none());
    assert!(book.order(3).is_some());
}

fn reduce_unknown_order<B: LimitOrderBook>(mut book: B) {
    let events = book.reduce_order_vec(999, 1);
    assert_eq!(events.len(), 1);
    assert_eq!(
        events[0].kind,
        BookEventKind::rejected(999, RejectReason::UnknownOrder)
    );
}

fn reduce_order_rejects_zero_quantity<B: LimitOrderBook>(mut book: B) {
    book.add_limit_order_vec(1, Side::Sell, 100, 10);
    let events = book.reduce_order_vec(1, 0);
    assert_eq!(events.len(), 1);
    assert_eq!(
        events[0].kind,
        BookEventKind::rejected(1, RejectReason::InvalidQuantity)
    );
    assert_eq!(book.best_ask(), Some((100, 10)));
}

fn reduce_order_partial_reduces_resting_qty<B: LimitOrderBook>(mut book: B) {
    book.add_limit_order_vec(1, Side::Sell, 100, 10);
    let events = book.reduce_order_vec(1, 4);
    assert!(events.is_empty(), "partial reduce should not emit events");
    assert_eq!(book.order_count(), 1);
    assert_eq!(book.best_ask(), Some((100, 6)));
    let order = book.order(1).expect("order remains after partial reduce");
    assert_eq!(order.qty, 10);
    assert_eq!(order.remaining_qty, 6);
}

fn reduce_order_full_reduction_removes_order<B: LimitOrderBook>(mut book: B) {
    book.add_limit_order_vec(1, Side::Sell, 100, 10);
    let events = book.reduce_order_vec(1, 10);
    assert_eq!(events.len(), 1);
    assert_eq!(events[0].kind, BookEventKind::cancelled(1, 10));
    assert_eq!(book.order_count(), 0);
    assert_eq!(book.best_ask(), None);
    assert!(book.order(1).is_none());
}

fn reject_duplicate_id<B: LimitOrderBook>(mut book: B) {
    book.add_limit_order_vec(1, Side::Buy, 100, 10);
    let events = book.add_limit_order_vec(1, Side::Buy, 101, 5);
    assert_eq!(
        events[0].kind,
        BookEventKind::rejected(1, RejectReason::DuplicateOrderId)
    );
    assert_eq!(book.order_count(), 1);
}

fn event_sequences_are_monotonic<B: LimitOrderBook>(mut book: B) {
    let mut all: Vec<BookEvent> = Vec::new();
    all.extend(book.add_limit_order_vec(1, Side::Sell, 100, 10));
    all.extend(book.add_limit_order_vec(2, Side::Buy, 100, 10));
    all.extend(book.cancel_order_vec(999));

    for window in all.windows(2) {
        assert!(
            window[0].sequence < window[1].sequence,
            "sequences must be strictly increasing: {} vs {}",
            window[0].sequence,
            window[1].sequence
        );
    }
}

fn best_bid_best_ask<B: LimitOrderBook>(mut book: B) {
    // Test best bid best ask over more complex cases
    book.add_limit_order_vec(1, Side::Buy, 100, 10);
    book.add_limit_order_vec(2, Side::Buy, 110, 20);
    book.add_limit_order_vec(3, Side::Sell, 120, 20);
    book.add_limit_order_vec(4, Side::Sell, 130, 10);

    assert_eq!(book.best_bid(), Some((110, 20)));
    assert_eq!(book.best_ask(), Some((120, 20)));

    assert_eq!(book.depth(Side::Buy, 3), vec![(110, 20), (100, 10)]);
    assert_eq!(book.depth(Side::Sell, 3), vec![(120, 20), (130, 10)]);

    book.cancel_order_vec(2);
    book.cancel_order_vec(3);

    assert_eq!(book.best_bid(), Some((100, 10)));
    assert_eq!(book.best_ask(), Some((130, 10)));

    assert_eq!(book.depth(Side::Buy, 3), vec![(100, 10)]);
    assert_eq!(book.depth(Side::Sell, 3), vec![(130, 10)]);
}

fn limit_order_full_match<B: LimitOrderBook>(mut book: B) {
    book.add_limit_order_vec(1, Side::Sell, 100, 10);

    let events = book.add_limit_order_vec(2, Side::Buy, 100, 10);
    assert_eq!(events.len(), 4);
    assert_eq!(events[0].kind, BookEventKind::Accepted { order_id: 2 });
    assert_eq!(
        events[1].kind,
        BookEventKind::Fill {
            aggressor_order_id: 2,
            passive_order_id: 1,
            price: 100,
            qty: 10
        }
    );
    assert_eq!(events[2].kind, BookEventKind::Filled { order_id: 1 });
    assert_eq!(events[3].kind, BookEventKind::Filled { order_id: 2 });
    assert!(book.order(1).is_none());
    assert!(book.order(2).is_none());
    assert_eq!(book.order_count(), 0);
    assert_eq!(book.best_bid(), None);
    assert_eq!(book.best_ask(), None);
}

fn limit_order_partial_match_passive_remains<B: LimitOrderBook>(mut book: B) {
    book.add_limit_order_vec(1, Side::Sell, 100, 10);

    let events = book.add_limit_order_vec(2, Side::Buy, 100, 5);
    assert_eq!(events.len(), 3);
    assert_eq!(
        events[1].kind,
        BookEventKind::Fill {
            aggressor_order_id: 2,
            passive_order_id: 1,
            price: 100,
            qty: 5
        }
    );
    assert_eq!(events[2].kind, BookEventKind::Filled { order_id: 2 });

    assert_eq!(book.best_ask(), Some((100, 5)));
    assert_eq!(book.best_bid(), None);
    // Incoming imit rests after partial fill:
    assert_eq!(book.order(1).unwrap().remaining_qty, 5);
    assert_eq!(book.order_count(), 1);
}

fn market_order_full_fill<B: LimitOrderBook>(mut book: B) {
    book.add_limit_order_vec(1, Side::Sell, 100, 5);
    book.add_limit_order_vec(2, Side::Sell, 101, 5);
    assert_eq!(book.order_count(), 2);
    assert!(book.order(1).is_some());

    let events = book.add_market_order_vec(3, Side::Buy, 8);

    let fills: Vec<_> = events
        .iter()
        .filter(|e| matches!(e.kind, BookEventKind::Fill { .. }))
        .collect();
    assert_eq!(fills.len(), 2);
    assert!(matches!(
        fills[0].kind,
        BookEventKind::Fill {
            price: 100,
            qty: 5,
            ..
        }
    ));
    assert!(matches!(
        fills[1].kind,
        BookEventKind::Fill {
            price: 101,
            qty: 3,
            ..
        }
    ));
    assert!(
        events
            .iter()
            .any(|e| matches!(e.kind, BookEventKind::Filled { order_id: 3 }))
    );
    assert_eq!(book.best_ask(), Some((101, 2)));
}

fn market_order_partial_fill_exhausts_book_and_emits_cancel<B: LimitOrderBook>(mut book: B) {
    book.add_limit_order_vec(1, Side::Sell, 100, 5);

    let events = book.add_market_order_vec(2, Side::Buy, 10);
    assert!(events
        .iter()
        .any(|e| e.kind == BookEventKind::cancelled(2, 5)));
    assert_eq!(book.best_ask(), None);
}

fn market_order_rejects_duplicate_id<B: LimitOrderBook>(mut book: B) {
    book.add_limit_order_vec(1, Side::Sell, 100, 10);

    let events = book.add_market_order_vec(1, Side::Buy, 5);
    assert_eq!(events.len(), 1);
    assert_eq!(
        events[0].kind,
        BookEventKind::rejected(1, RejectReason::DuplicateOrderId)
    );
    assert_eq!(book.best_ask(), Some((100, 10)));
}

fn market_order_emits_accepted_event<B: LimitOrderBook>(mut book: B) {
    book.add_limit_order_vec(1, Side::Sell, 100, 10);

    let events = book.add_market_order_vec(2, Side::Buy, 5);
    assert!(matches!(
        events[0].kind,
        BookEventKind::Accepted { order_id: 2 }
    ));
}


fn fifo_priority<B: LimitOrderBook>(mut book: B) {
    book.add_limit_order_vec(1, Side::Sell, 100, 10);
    book.add_limit_order_vec(2, Side::Sell, 100, 10);

    let events = book.add_limit_order_vec(3, Side::Buy, 100, 10);
    assert!(matches!(
        events[1].kind,
        BookEventKind::Fill {
            passive_order_id: 1,
            qty: 10,
            ..
        }
    ));
    assert_eq!(events[2].kind, BookEventKind::Filled { order_id: 1 });
    assert_eq!(book.order(2).unwrap().remaining_qty, 10);
    assert_eq!(book.best_ask(), Some((100, 10)));
}

fn cancel_front_preserves_fifo_for_remaining<B: LimitOrderBook>(mut book: B) {
    book.add_limit_order_vec(1, Side::Sell, 100, 10);
    book.add_limit_order_vec(2, Side::Sell, 100, 10);
    book.add_limit_order_vec(3, Side::Sell, 100, 10);

    book.cancel_order_vec(1);

    let events = book.add_limit_order_vec(4, Side::Buy, 100, 10);
    assert!(matches!(
        events[1].kind,
        BookEventKind::Fill {
            passive_order_id: 2,
            qty: 10,
            ..
        }
    ));
    assert_eq!(book.order(3).unwrap().remaining_qty, 10);
}

fn multi_level_sweep<B: LimitOrderBook>(mut book: B) {
    book.add_limit_order_vec(1, Side::Sell, 100, 5);
    book.add_limit_order_vec(2, Side::Sell, 101, 5);
    book.add_limit_order_vec(3, Side::Sell, 102, 5);

    let events = book.add_limit_order_vec(4, Side::Buy, 102, 12);

    let fills: Vec<_> = events
        .iter()
        .filter(|e| matches!(e.kind, BookEventKind::Fill { .. }))
        .collect();
    assert_eq!(fills.len(), 3);
    assert!(matches!(
        fills[0].kind,
        BookEventKind::Fill {
            aggressor_order_id: 4,
            passive_order_id: 1,
            price: 100,
            qty: 5,
        }
    ));
    assert!(matches!(
        fills[1].kind,
        BookEventKind::Fill {
            aggressor_order_id: 4,
            passive_order_id: 2,
            price: 101,
            qty: 5,
        }
    ));
    assert!(matches!(
        fills[2].kind,
        BookEventKind::Fill {
            aggressor_order_id: 4,
            passive_order_id: 3,
            price: 102,
            qty: 2,
        }
    ));

    assert_eq!(book.best_ask(), Some((102, 3)));
    assert_eq!(book.order_count(), 1);
}

fn no_match_when_prices_dont_cross<B: LimitOrderBook>(mut book: B) {
    book.add_limit_order_vec(1, Side::Sell, 101, 10);
    book.add_limit_order_vec(2, Side::Buy, 99, 10);

    assert_eq!(book.best_bid(), Some((99, 10)));
    assert_eq!(book.best_ask(), Some((101, 10)));
    assert_eq!(book.order_count(), 2);
    assert_eq!(book.spread(), Some(2));
}

fn sell_side_matching_hits_best_bid_first<B: LimitOrderBook>(mut book: B) {
    book.add_limit_order_vec(1, Side::Buy, 100, 10);
    book.add_limit_order_vec(2, Side::Buy, 99, 10);

    let events = book.add_limit_order_vec(3, Side::Sell, 99, 15);

    let fills: Vec<_> = events
        .iter()
        .filter(|e| matches!(e.kind, BookEventKind::Fill { .. }))
        .collect();
    assert_eq!(fills.len(), 2);
    assert!(matches!(
        fills[0].kind,
        BookEventKind::Fill {
            passive_order_id: 1,
            price: 100,
            qty: 10,
            ..
        }
    ));
    assert!(matches!(
        fills[1].kind,
        BookEventKind::Fill {
            passive_order_id: 2,
            price: 99,
            qty: 5,
            ..
        }
    ));
    assert_eq!(book.best_bid(), Some((99, 5)));
    assert_eq!(book.best_ask(), None);
}

fn order_preserves_original_qty_after_partial_fill<B: LimitOrderBook>(mut book: B) {
    book.add_limit_order_vec(1, Side::Sell, 100, 3);
    book.add_limit_order_vec(2, Side::Buy, 100, 10);

    let order = book.order(2).unwrap();
    assert_eq!(order.qty, 10, "original qty must be preserved");
    assert_eq!(order.remaining_qty, 7);
}

fn sweep_multiple_orders_at_same_level<B: LimitOrderBook>(mut book: B) {
    book.add_limit_order_vec(1, Side::Sell, 100, 5);
    book.add_limit_order_vec(2, Side::Sell, 100, 5);
    book.add_limit_order_vec(3, Side::Sell, 100, 5);

    let events = book.add_limit_order_vec(4, Side::Buy, 100, 12);

    let fills: Vec<_> = events
        .iter()
        .filter(|e| matches!(e.kind, BookEventKind::Fill { .. }))
        .collect();
    assert_eq!(fills.len(), 3);
    assert!(matches!(
        fills[0].kind,
        BookEventKind::Fill {
            passive_order_id: 1,
            qty: 5,
            ..
        }
    ));
    assert!(matches!(
        fills[1].kind,
        BookEventKind::Fill {
            passive_order_id: 2,
            qty: 5,
            ..
        }
    ));
    assert!(matches!(
        fills[2].kind,
        BookEventKind::Fill {
            passive_order_id: 3,
            qty: 2,
            ..
        }
    ));
    assert_eq!(book.best_ask(), Some((100, 3)));
    assert_eq!(book.best_bid(), None);
    assert_eq!(book.order_count(), 1);
}

fn order_book() -> LimitOrderBookV0 {
    <LimitOrderBookV0 as LimitOrderBook>::with_config((0, 10_000), 1_000)
}

#[test]
fn book_tests_reject_zero_quantity() {
    reject_zero_quantity(order_book());
}

#[test]
fn book_tests_reject_zero_price() {
    reject_zero_price(order_book());
}

#[test]
fn book_tests_add_limit_order_rests_in_book() {
    add_limit_order_rests_in_book(order_book());
}

#[test]
fn book_tests_add_and_cancel() {
    add_and_cancel(order_book());
}

#[test]
fn book_tests_cancel_unknown_order() {
    cancel_unknown_order(order_book());
}

#[test]
fn book_tests_cancel_one_of_many_at_same_price() {
    cancel_one_of_many_at_same_price(order_book());
}

#[test]
fn book_tests_reduce_unknown_order() {
    reduce_unknown_order(order_book());
}

#[test]
fn book_tests_reduce_order_rejects_zero_quantity() {
    reduce_order_rejects_zero_quantity(order_book());
}

#[test]
fn book_tests_reduce_order_partial_reduces_resting_qty() {
    reduce_order_partial_reduces_resting_qty(order_book());
}

#[test]
fn book_tests_reduce_order_full_reduction_removes_order() {
    reduce_order_full_reduction_removes_order(order_book());
}

#[test]
fn book_tests_reject_duplicate_id() {
    reject_duplicate_id(order_book());
}

#[test]
fn book_tests_event_sequences_are_monotonic() {
    event_sequences_are_monotonic(order_book());
}

#[test]
fn book_tests_best_bid_best_ask() {
    best_bid_best_ask(order_book());
}

#[test]
fn book_tests_limit_order_full_match() {
    limit_order_full_match(order_book());
}

#[test]
fn book_tests_limit_order_partial_match_passive_remains() {
    limit_order_partial_match_passive_remains(order_book());
}

#[test]
fn book_tests_market_order_full_fill() {
    market_order_full_fill(order_book());
}

#[test]
fn book_tests_market_order_partial_fill_exhausts_book() {
    market_order_partial_fill_exhausts_book_and_emits_cancel(order_book());
}

#[test]
fn book_tests_market_order_rejects_duplicate_id() {
    market_order_rejects_duplicate_id(order_book());
}

#[test]
fn book_tests_market_order_emits_accepted_event() {
    market_order_emits_accepted_event(order_book());
}

#[test]
fn book_tests_fifo_priority() {
    fifo_priority(order_book());
}

#[test]
fn book_tests_cancel_front_preserves_fifo_for_remaining() {
    cancel_front_preserves_fifo_for_remaining(order_book());
}

#[test]
fn book_tests_multi_level_sweep() {
    multi_level_sweep(order_book());
}

#[test]
fn book_tests_no_match_when_prices_dont_cross() {
    no_match_when_prices_dont_cross(order_book());
}

#[test]
fn book_tests_sell_side_matching_hits_best_bid_first() {
    sell_side_matching_hits_best_bid_first(order_book());
}

#[test]
fn book_tests_order_preserves_original_qty_after_partial_fill() {
    order_preserves_original_qty_after_partial_fill(order_book());
}

#[test]
fn book_tests_sweep_multiple_orders_at_same_level() {
    sweep_multiple_orders_at_same_level(order_book());
}
