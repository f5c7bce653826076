use hft_demos::lob::book_v1::book::{OrderSlot, PriceLevels};
use hft_demos::lob::book_v1::orders::BookOrders;
use hft_demos::lob::book_v1::price_level::PriceLevel;
use hft_demos::lob::order::Order;
use hft_demos::lob::types::{OrderSlabKey, Side};
use std::mem::size_of;

fn order_slot(
    id: u64,
    price: u64,
    remaining_qty: u64,
    prev: Option<OrderSlabKey>,
    next: Option<OrderSlabKey>,
) -> OrderSlot {
    OrderSlot {
        next,
        prev,
        order: Order { id, side: Side::Buy, price, qty: remaining_qty, remaining_qty, sequence: 0 },
    }
}

fn order(id: u64, side: Side, price: u64, qty: u64) -> Order {
    Order { id, side, price, qty, remaining_qty: qty, sequence: 0 }
}

#[test]
fn push_sets_head_tail_and_total_qty() {
    let mut level = PriceLevel::new(101);

    level.append_order(0, 7);
    assert_eq!(level.front(), Some(0));
    assert_eq!(level.order_head, Some(0));
    assert_eq!(level.order_tail, Some(0));
    assert_eq!(level.total_qty, 7);
    assert!(!level.is_empty());

    level.append_order(1, 5);
    assert_eq!(level.front(), Some(0));
    assert_eq!(level.order_head, Some(0));
    assert_eq!(level.order_tail, Some(1));
    assert_eq!(level.total_qty, 12);
}

#[test]
fn remove_head_updates_front_and_total_qty() {
    let mut level = PriceLevel::new(101);
    level.append_order(0, 7);
    level.append_order(1, 5);

    let head = order_slot(11, 101, 7, None, Some(1));
    level.remove(0, &head);

    assert_eq!(level.front(), Some(1));
    assert_eq!(level.order_head, Some(1));
    assert_eq!(level.order_tail, Some(1));
    assert_eq!(level.total_qty, 5);
    assert!(!level.is_empty());
}

#[test]
fn remove_tail_updates_tail_and_total_qty() {
    let mut level = PriceLevel::new(101);
    level.append_order(0, 7);
    level.append_order(1, 5);

    let tail = order_slot(12, 101, 5, Some(0), None);
    level.remove(1, &tail);

    assert_eq!(level.front(), Some(0));
    assert_eq!(level.order_head, Some(0));
    assert_eq!(level.order_tail, Some(0));
    assert_eq!(level.total_qty, 7);
    assert!(!level.is_empty());
}

#[test]
fn remove_last_order_clears_level() {
    let mut level = PriceLevel::new(101);
    level.append_order(0, 7);

    let only = order_slot(11, 101, 7, None, None);
    level.remove(0, &only);

    assert_eq!(level.front(), None);
    assert_eq!(level.order_head, None);
    assert_eq!(level.order_tail, None);
    assert_eq!(level.total_qty, 0);
    assert!(level.is_empty());
}

#[test]
fn remove_middle_order_only_reduces_total_qty() {
    let mut level = PriceLevel::new(101);
    level.append_order(0, 7);
    level.append_order(1, 5);
    level.append_order(2, 3);

    let middle = order_slot(12, 101, 5, Some(0), Some(2));
    level.remove(1, &middle);

    assert_eq!(level.front(), Some(0));
    assert_eq!(level.order_head, Some(0));
    assert_eq!(level.order_tail, Some(2));
    assert_eq!(level.total_qty, 10);
    assert!(!level.is_empty());
}

#[test]
fn test_option_order_slot_size() {
    println!("Size of Option<OrderSlot>: {}", size_of::<Option<OrderSlot>>());
}

#[test]
fn reduce_qty_takes_amount_off_total() {
    let mut level = PriceLevel::new(50);
    level.append_order(3, 9);
    level.reduce_qty(4);
    assert_eq!(level.total_qty, 5);
    assert_eq!(level.front(), Some(3));
    assert_eq!(level.price, 50);
}

#[test]
fn price_levels_start_empty() {
    let levels = PriceLevels::new((90, 110));
    assert_eq!(levels.levels.len(), 21);
    assert!(levels.levels.iter().all(|l| l.is_none()));
    assert!(levels.best_bid().is_none());
    assert!(levels.best_ask().is_none());
    assert!(levels.bids_iter().is_empty());
    assert!(levels.asks_iter().is_empty());
}

#[test]
fn price_levels_track_best_prices() {
    let mut levels = PriceLevels::new((90, 110));
    assert_eq!(levels.add_order(&order(1, Side::Buy, 100, 10)), None);
    assert_eq!(levels.add_order(&order(2, Side::Buy, 98, 4)), None);
    assert_eq!(levels.add_order(&order(3, Side::Buy, 100, 5)), Some(1));
    assert_eq!(levels.add_order(&order(4, Side::Sell, 105, 7)), None);
    assert_eq!(levels.add_order(&order(5, Side::Sell, 103, 2)), None);

    let bid = levels.best_bid().unwrap();
    assert_eq!((bid.price, bid.total_qty, bid.order_head, bid.order_tail), (100, 15, Some(1), Some(3)));
    let ask = levels.best_ask().unwrap();
    assert_eq!((ask.price, ask.total_qty), (103, 2));

    let bids: Vec<(u64, u64)> = levels.bids_iter().iter().map(|l| (l.price, l.total_qty)).collect();
    assert_eq!(bids, vec![(100, 15), (98, 4)]);
    let asks: Vec<(u64, u64)> = levels.asks_iter().iter().map(|l| (l.price, l.total_qty)).collect();
    assert_eq!(asks, vec![(103, 2), (105, 7)]);
}

#[test]
fn existing_level_gives_mutable_access() {
    let mut levels = PriceLevels::new((0, 10));
    levels.add_order(&order(1, Side::Sell, 7, 3));
    levels.existing_level(7).reduce_qty(1);
    assert_eq!(levels.best_ask().unwrap().total_qty, 2);
}

#[test]
fn remove_if_empty_moves_best_to_next_level() {
    let mut levels = PriceLevels::new((90, 110));
    levels.add_order(&order(1, Side::Buy, 100, 10));
    levels.add_order(&order(2, Side::Buy, 95, 4));
    levels.add_order(&order(3, Side::Sell, 104, 1));
    levels.add_order(&order(4, Side::Sell, 108, 1));

    // a level that still holds an order stays
    levels.remove_if_empty(100, Side::Buy);
    assert_eq!(levels.best_bid().unwrap().price, 100);

    let slot = order_slot(1, 100, 10, None, None);
    levels.existing_level(100).remove(1, &slot);
    levels.remove_if_empty(100, Side::Buy);
    assert!(levels.levels[10].is_none());
    assert_eq!(levels.best_bid().unwrap().price, 95);

    let slot = order_slot(3, 104, 1, None, None);
    levels.existing_level(104).remove(3, &slot);
    levels.remove_if_empty(104, Side::Sell);
    assert_eq!(levels.best_ask().unwrap().price, 108);

    let slot = order_slot(2, 95, 4, None, None);
    levels.existing_level(95).remove(2, &slot);
    levels.remove_if_empty(95, Side::Buy);
    assert!(levels.best_bid().is_none());
    assert_eq!(levels.best_bid_ix, None);
}

#[test]
fn book_orders_add_find_and_count() {
    let mut orders = BookOrders::new(8);
    assert_eq!(orders.order_count(), 0);
    let k1 = orders.add_order(order(11, Side::Buy, 100, 5));
    let k2 = orders.add_order(order(12, Side::Buy, 100, 7));
    assert_ne!(k1, k2);
    assert_eq!(orders.order_count(), 2);
    assert_eq!(orders.order(11).map(|o| o.qty), Some(5));
    assert_eq!(orders.order(12).map(|o| o.qty), Some(7));
    assert!(orders.order(13).is_none());
    assert_eq!(orders.order_key(12), Some(k2));
    assert_eq!(orders.order_key(13), None);
    let slot = orders.slot(k1);
    assert_eq!((slot.prev, slot.next, slot.order.id), (None, None, 11));
}

#[test]
fn book_orders_remove_relinks_neighbours() {
    let mut orders = BookOrders::new(4);
    let a = orders.add_order(order(1, Side::Sell, 100, 1));
    let b = orders.add_order(order(2, Side::Sell, 100, 2));
    let c = orders.add_order(order(3, Side::Sell, 100, 3));
    orders.slot_mut(a).next = Some(b);
    orders.slot_mut(b).prev = Some(a);
    orders.slot_mut(b).next = Some(c);
    orders.slot_mut(c).prev = Some(b);

    let removed = orders.remove_by_key(b);
    assert_eq!(removed.order.id, 2);
    assert_eq!((removed.prev, removed.next), (Some(a), Some(c)));
    assert_eq!(orders.slot(a).next, Some(c));
    assert_eq!(orders.slot(c).prev, Some(a));
    assert!(orders.order(2).is_none());
    assert_eq!(orders.order_count(), 2);

    let head = orders.remove_by_key(a);
    assert_eq!(head.next, Some(c));
    assert_eq!(orders.slot(c).prev, None);
    assert_eq!(orders.order_count(), 1);
    let k = orders.add_order(order(4, Side::Sell, 101, 4));
    assert_eq!(orders.order_key(4), Some(k));
    assert_eq!(orders.order_count(), 2);
}

#[test]
fn price_level_total_counts_open_quantity() {
    let mut levels = PriceLevels::new((90, 110));
    let partly_filled = Order { id: 7, side: Side::Sell, price: 101, qty: 10, remaining_qty: 4, sequence: 3 };
    levels.add_order(&partly_filled);
    assert_eq!(levels.best_ask().unwrap().total_qty, 4);
}
