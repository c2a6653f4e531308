use hybrid_exchange::book::OrderBook;
use hybrid_exchange::types::{EngineOrder, OrderId, Side};
use hybrid_exchange::uint::U256;

fn make_order(id: OrderId, side: Side, price: u64, qty: u64) -> EngineOrder {
    EngineOrder {
        id,
        side,
        price: U256::from(price),
        quantity: U256::from(qty),
    }
}

#[test]
fn empty_book_has_no_best() {
    let book = OrderBook::new();
    assert_eq!(book.best_bid(), None);
    assert_eq!(book.best_ask(), None);
}

#[test]
fn insert_bid_updates_best() {
    let mut book = OrderBook::new();
    book.insert(make_order(1, Side::Buy, 100, 10));
    assert_eq!(book.best_bid(), Some(U256::from(100)));
    assert_eq!(book.best_ask(), None);
}

#[test]
fn insert_ask_updates_best() {
    let mut book = OrderBook::new();
    book.insert(make_order(1, Side::Sell, 200, 5));
    assert_eq!(book.best_ask(), Some(U256::from(200)));
    assert_eq!(book.best_bid(), None);
}

#[test]
fn best_bid_is_highest() {
    let mut book = OrderBook::new();
    book.insert(make_order(1, Side::Buy, 100, 10));
    book.insert(make_order(2, Side::Buy, 150, 10));
    book.insert(make_order(3, Side::Buy, 120, 10));
    assert_eq!(book.best_bid(), Some(U256::from(150)));
}

#[test]
fn best_ask_is_lowest() {
    let mut book = OrderBook::new();
    book.insert(make_order(1, Side::Sell, 300, 5));
    book.insert(make_order(2, Side::Sell, 200, 5));
    book.insert(make_order(3, Side::Sell, 250, 5));
    assert_eq!(book.best_ask(), Some(U256::from(200)));
}

#[test]
fn cancel_removes_order() {
    let mut book = OrderBook::new();
    book.insert(make_order(1, Side::Buy, 100, 10));
    assert_eq!(book.bid_depth(), 1);
    let cancelled = book.cancel(1);
    assert!(cancelled.is_some());
    assert_eq!(book.bid_depth(), 0);
    assert_eq!(book.best_bid(), None);
}

#[test]
fn cancel_nonexistent_returns_none() {
    let mut book = OrderBook::new();
    assert!(book.cancel(999).is_none());
}

#[test]
fn price_time_priority_fifo_within_price() {
    let mut book = OrderBook::new();
    book.insert(make_order(1, Side::Sell, 200, 5));
    book.insert(make_order(2, Side::Sell, 200, 3));
    let queue = book.orders_at(Side::Sell, U256::from(200));
    assert!(!queue.is_empty(), "level exists");
    assert_eq!(queue[0].id, 1);
    assert_eq!(queue[1].id, 2);
}

#[test]
fn bid_levels_returns_highest_first() {
    let mut book = OrderBook::new();
    book.insert(make_order(1, Side::Buy, 100, 10));
    book.insert(make_order(2, Side::Buy, 200, 5));
    book.insert(make_order(3, Side::Buy, 100, 3)); // same price as order 1

    let levels = book.bid_levels(10);
    assert_eq!(levels.len(), 2);
    assert_eq!(levels[0], (U256::from(200), U256::from(5)));
    assert_eq!(levels[1], (U256::from(100), U256::from(13)));
}

#[test]
fn ask_levels_returns_lowest_first() {
    let mut book = OrderBook::new();
    book.insert(make_order(1, Side::Sell, 300, 7));
    book.insert(make_order(2, Side::Sell, 200, 4));
    book.insert(make_order(3, Side::Sell, 200, 6)); // same price as order 2

    let levels = book.ask_levels(10);
    assert_eq!(levels.len(), 2);
    assert_eq!(levels[0], (U256::from(200), U256::from(10)));
    assert_eq!(levels[1], (U256::from(300), U256::from(7)));
}

#[test]
fn levels_respects_limit() {
    let mut book = OrderBook::new();
    book.insert(make_order(1, Side::Buy, 100, 10));
    book.insert(make_order(2, Side::Buy, 200, 5));
    book.insert(make_order(3, Side::Buy, 300, 1));

    let levels = book.bid_levels(2);
    assert_eq!(levels.len(), 2);
    assert_eq!(levels[0].0, U256::from(300));
    assert_eq!(levels[1].0, U256::from(200));
}

#[test]
fn levels_empty_book() {
    let book = OrderBook::new();
    assert!(book.bid_levels(10).is_empty());
    assert!(book.ask_levels(10).is_empty());
}

#[test]
fn cancel_keeps_other_orders_of_the_level() {
    let mut book = OrderBook::new();
    book.insert(make_order(1, Side::Sell, 200, 5));
    book.insert(make_order(2, Side::Sell, 200, 3));
    book.insert(make_order(3, Side::Sell, 200, 4));
    let cancelled = book.cancel(2).expect("order 2 rests");
    assert_eq!(cancelled.quantity, U256::from(3));
    assert!(!book.has_order(2));
    assert!(book.has_order(1));
    let queue = book.orders_at(Side::Sell, U256::from(200));
    assert_eq!(queue.iter().map(|o| o.id).collect::<Vec<_>>(), vec![1, 3]);
    assert_eq!(book.ask_levels(10), vec![(U256::from(200), U256::from(9))]);
}

#[test]
fn totals_sum_all_levels() {
    let mut book = OrderBook::new();
    book.insert(make_order(1, Side::Sell, 300, 7));
    book.insert(make_order(2, Side::Sell, 200, 4));
    book.insert(make_order(3, Side::Buy, 100, 6));
    assert_eq!(book.total_ask_qty(), U256::from(11));
    assert_eq!(book.total_bid_qty(), U256::from(6));
    assert_eq!(book.ask_depth(), 2);
    assert_eq!(book.bid_depth(), 1);
}

#[test]
fn totals_wrap_modulo_two_pow_256() {
    let mut book = OrderBook::new();
    book.insert(EngineOrder { id: 1, side: Side::Sell, price: U256::from(10), quantity: U256::max_value() });
    book.insert(make_order(2, Side::Sell, 20, 2));
    assert_eq!(book.total_ask_qty(), U256::from(1));
}
