use hybrid_exchange::book::OrderBook;
use hybrid_exchange::ledger::Ledger;
use hybrid_exchange::primitives::Address;
use hybrid_exchange::types::{EngineOrder, Side};
use hybrid_exchange::uint::U256;

fn addr(n: u8) -> Address {
    Address::with_last_byte(n)
}

#[test]
fn release_after_reserve_gives_back_the_balance() {
    let mut ledger = Ledger::new();
    ledger.credit(addr(1), addr(10), U256::from(100u64));
    assert!(ledger.reserve(addr(1), addr(10), U256::from(30u64)));
    ledger.release(addr(1), addr(10), U256::from(30u64));
    assert_eq!(ledger.available(addr(1), addr(10)), U256::from(100u64));
    assert_eq!(ledger.total(addr(1), addr(10)), U256::from(100u64));
}

#[test]
fn settlement_conserves_each_token_between_the_parties() {
    let (seller, buyer, base, quote) = (addr(1), addr(2), addr(10), addr(11));
    let mut ledger = Ledger::new();
    ledger.credit(seller, base, U256::from(50u64));
    ledger.credit(buyer, quote, U256::from(900u64));
    assert!(ledger.reserve(seller, base, U256::from(5u64)));
    assert!(ledger.reserve(buyer, quote, U256::from(500u64)));
    let base_before = ledger.total(seller, base).wrapping_add(ledger.total(buyer, base));
    let quote_before = ledger.total(seller, quote).wrapping_add(ledger.total(buyer, quote));
    ledger.settle_fill(seller, buyer, base, quote, U256::from(5u64), U256::from(500u64));
    assert_eq!(ledger.total(seller, base).wrapping_add(ledger.total(buyer, base)), base_before);
    assert_eq!(ledger.total(seller, quote).wrapping_add(ledger.total(buyer, quote)), quote_before);
    assert_eq!(ledger.available(seller, quote), U256::from(500u64));
    assert_eq!(ledger.available(buyer, base), U256::from(5u64));
}

#[test]
fn cancel_right_after_insert_restores_the_book() {
    let mut book = OrderBook::new();
    book.insert(EngineOrder { id: 1, side: Side::Buy, price: U256::from(100u64), quantity: U256::from(4u64) });
    book.insert(EngineOrder { id: 2, side: Side::Buy, price: U256::from(99u64), quantity: U256::from(1u64) });
    let before = book.bid_levels(10);
    let order = EngineOrder { id: 3, side: Side::Buy, price: U256::from(100u64), quantity: U256::from(7u64) };
    book.insert(order);
    assert_eq!(book.cancel(3), Some(order));
    assert_eq!(book.bid_levels(10), before);
    assert!(!book.has_order(3));
    assert!(book.has_order(1));

    let fresh = EngineOrder { id: 4, side: Side::Sell, price: U256::from(120u64), quantity: U256::from(2u64) };
    book.insert(fresh);
    assert_eq!(book.cancel(4), Some(fresh));
    assert_eq!(book.best_ask(), None);
}

#[test]
fn cancel_of_an_unknown_id_changes_nothing() {
    let mut book = OrderBook::new();
    book.insert(EngineOrder { id: 1, side: Side::Sell, price: U256::from(10u64), quantity: U256::from(1u64) });
    assert_eq!(book.cancel(2), None);
    assert!(book.has_order(1));
    assert_eq!(book.best_ask(), Some(U256::from(10u64)));
}
