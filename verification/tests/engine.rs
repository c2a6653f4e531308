use hybrid_exchange::engine::MatchingEngine;
use hybrid_exchange::types::{OrderType, Side};
use hybrid_exchange::uint::U256;

#[test]
fn limit_order_rests_on_empty_book() {
    let mut engine = MatchingEngine::new();
    let result = engine.submit(Side::Buy, U256::from(100), U256::from(10), OrderType::Limit);
    assert!(result.fills.is_empty());
    assert!(result.resting);
    assert_eq!(result.resting_qty, U256::from(10));
    assert_eq!(engine.best_bid(), Some(U256::from(100)));
}

#[test]
fn crossing_limit_orders_produce_fill() {
    let mut engine = MatchingEngine::new();
    engine.submit(Side::Sell, U256::from(100), U256::from(5), OrderType::Limit);
    let result = engine.submit(Side::Buy, U256::from(100), U256::from(5), OrderType::Limit);
    assert_eq!(result.fills.len(), 1);
    assert_eq!(result.fills[0].quantity, U256::from(5));
    assert_eq!(result.fills[0].price, U256::from(100));
    assert!(!result.resting);
}

#[test]
fn partial_fill_leaves_remainder_on_book() {
    let mut engine = MatchingEngine::new();
    engine.submit(Side::Sell, U256::from(100), U256::from(3), OrderType::Limit);
    let result = engine.submit(Side::Buy, U256::from(100), U256::from(5), OrderType::Limit);
    assert_eq!(result.fills.len(), 1);
    assert_eq!(result.fills[0].quantity, U256::from(3));
    assert!(result.resting);
    assert_eq!(result.resting_qty, U256::from(2));
    assert_eq!(engine.best_bid(), Some(U256::from(100)));
}

#[test]
fn buy_does_not_cross_higher_ask() {
    let mut engine = MatchingEngine::new();
    engine.submit(Side::Sell, U256::from(200), U256::from(5), OrderType::Limit);
    let result = engine.submit(Side::Buy, U256::from(100), U256::from(5), OrderType::Limit);
    assert!(result.fills.is_empty());
    assert!(result.resting);
}

#[test]
fn sell_does_not_cross_lower_bid() {
    let mut engine = MatchingEngine::new();
    engine.submit(Side::Buy, U256::from(100), U256::from(5), OrderType::Limit);
    let result = engine.submit(Side::Sell, U256::from(200), U256::from(5), OrderType::Limit);
    assert!(result.fills.is_empty());
    assert!(result.resting);
}

#[test]
fn fills_at_maker_price() {
    let mut engine = MatchingEngine::new();
    engine.submit(Side::Sell, U256::from(100), U256::from(5), OrderType::Limit);
    let result = engine.submit(Side::Buy, U256::from(110), U256::from(5), OrderType::Limit);
    assert_eq!(result.fills[0].price, U256::from(100));
}

#[test]
fn multi_level_fill() {
    let mut engine = MatchingEngine::new();
    engine.submit(Side::Sell, U256::from(100), U256::from(3), OrderType::Limit);
    engine.submit(Side::Sell, U256::from(101), U256::from(3), OrderType::Limit);
    let result = engine.submit(Side::Buy, U256::from(101), U256::from(5), OrderType::Limit);
    assert_eq!(result.fills.len(), 2);
    assert_eq!(result.fills[0].price, U256::from(100));
    assert_eq!(result.fills[0].quantity, U256::from(3));
    assert_eq!(result.fills[1].price, U256::from(101));
    assert_eq!(result.fills[1].quantity, U256::from(2));
    assert!(!result.resting);
}

#[test]
fn cancel_removes_from_book() {
    let mut engine = MatchingEngine::new();
    engine.submit(Side::Buy, U256::from(100), U256::from(10), OrderType::Limit);
    let id = engine.last_order_id();
    assert!(engine.cancel(id));
    assert_eq!(engine.bid_depth(), 0);
}

#[test]
fn market_buy_fills_completely_or_rejects() {
    let mut engine = MatchingEngine::new();
    engine.submit(Side::Sell, U256::from(100), U256::from(5), OrderType::Limit);
    let result = engine.submit(Side::Buy, U256::zero(), U256::from(5), OrderType::Market);
    assert_eq!(result.fills.len(), 1);
    assert!(!result.resting);

    let result = engine.submit(Side::Buy, U256::zero(), U256::from(10), OrderType::Market);
    assert!(result.fills.is_empty());
}

#[test]
fn market_order_does_not_corrupt_book_on_insufficient_liquidity() {
    let mut engine = MatchingEngine::new();
    engine.submit(Side::Sell, U256::from(100), U256::from(3), OrderType::Limit);
    let maker_id = engine.last_order_id();

    let result = engine.submit(Side::Buy, U256::zero(), U256::from(5), OrderType::Market);
    assert!(result.fills.is_empty());

    assert_eq!(engine.ask_depth(), 1);
    assert_eq!(engine.best_ask(), Some(U256::from(100)));

    let result = engine.submit(Side::Buy, U256::from(100), U256::from(3), OrderType::Limit);
    assert_eq!(result.fills.len(), 1);
    assert_eq!(result.fills[0].maker_id, maker_id);
}

#[test]
fn restore_order_preserves_id() {
    let mut engine = MatchingEngine::new();
    engine.restore_order(5, Side::Sell, U256::from(100), U256::from(10));
    assert!(engine.has_order(5));
    // The next submitted order gets ID 1 (not 6), since restore doesn't advance next_id
    let result = engine.submit(Side::Buy, U256::from(100), U256::from(5), OrderType::Limit);
    assert_eq!(result.fills[0].maker_id, 5);
    assert_eq!(result.fills[0].taker_id, 1);
}

#[test]
fn restore_order_is_matchable() {
    let mut engine = MatchingEngine::new();
    engine.restore_order(10, Side::Sell, U256::from(100), U256::from(20));
    let result = engine.submit(Side::Buy, U256::from(100), U256::from(5), OrderType::Limit);
    assert_eq!(result.fills.len(), 1);
    assert_eq!(result.fills[0].maker_id, 10);
    assert_eq!(result.fills[0].quantity, U256::from(5));
}

#[test]
fn fifo_within_same_price() {
    let mut engine = MatchingEngine::new();
    engine.submit(Side::Sell, U256::from(100), U256::from(1), OrderType::Limit);
    let first_id = engine.last_order_id();
    engine.submit(Side::Sell, U256::from(100), U256::from(1), OrderType::Limit);
    let result = engine.submit(Side::Buy, U256::from(100), U256::from(1), OrderType::Limit);
    assert_eq!(result.fills[0].maker_id, first_id);
}

#[test]
fn submitted_orders_never_leave_a_crossed_book() {
    // A deterministic sweep over many order shapes: the best bid stays below the best ask.
    let mut engine = MatchingEngine::new();
    let mut seed: u64 = 7;
    for _ in 0..200 {
        seed = seed.wrapping_mul(6364136223846793005).wrapping_add(1442695040888963407);
        let side = if seed % 2 == 0 { Side::Buy } else { Side::Sell };
        let price = 1 + (seed >> 8) % 50;
        let qty = 1 + (seed >> 20) % 9;
        let result = engine.submit(side, U256::from(price), U256::from(qty), OrderType::Limit);
        let filled = result
            .fills
            .iter()
            .fold(0u64, |acc, f| acc + f.quantity.lo as u64);
        assert_eq!(filled + result.resting_qty.lo as u64, qty);
        for f in &result.fills {
            match side {
                Side::Buy => assert!(f.price.lo <= price as u128),
                Side::Sell => assert!(f.price.lo >= price as u128),
            }
        }
        if let (Some(bid), Some(ask)) = (engine.best_bid(), engine.best_ask()) {
            assert!(bid.lo < ask.lo, "bid {:?} >= ask {:?}", bid, ask);
        }
    }
}

#[test]
fn market_sell_walks_bids_best_first() {
    let mut engine = MatchingEngine::new();
    engine.submit(Side::Buy, U256::from(90), U256::from(2), OrderType::Limit);
    engine.submit(Side::Buy, U256::from(95), U256::from(2), OrderType::Limit);
    let result = engine.submit(Side::Sell, U256::from(1), U256::from(3), OrderType::Market);
    assert_eq!(result.fills.len(), 2);
    assert_eq!(result.fills[0].price, U256::from(95));
    assert_eq!(result.fills[1].price, U256::from(90));
    assert_eq!(result.fills[1].quantity, U256::from(1));
    assert!(!result.resting);
    assert_eq!(result.resting_qty, U256::zero());
    assert_eq!(engine.bid_levels(5), vec![(U256::from(90), U256::from(1))]);
}

#[test]
fn fillable_within_counts_only_levels_inside_the_limit() {
    let mut engine = MatchingEngine::new();
    engine.submit(Side::Sell, U256::from(100), U256::from(3), OrderType::Limit);
    engine.submit(Side::Sell, U256::from(200), U256::from(4), OrderType::Limit);
    engine.submit(Side::Buy, U256::from(50), U256::from(2), OrderType::Limit);
    engine.submit(Side::Buy, U256::from(40), U256::from(6), OrderType::Limit);
    // a buyer sees the asks: 3 at 100, then 4 at 200
    assert!(!engine.fillable_within(Side::Buy, U256::from(99), U256::from(1)));
    assert!(engine.fillable_within(Side::Buy, U256::from(100), U256::from(3)));
    assert!(!engine.fillable_within(Side::Buy, U256::from(199), U256::from(4)));
    assert!(engine.fillable_within(Side::Buy, U256::from(200), U256::from(7)));
    assert!(!engine.fillable_within(Side::Buy, U256::from(1000), U256::from(8)));
    // a seller sees the bids: 2 at 50, then 6 at 40
    assert!(!engine.fillable_within(Side::Sell, U256::from(51), U256::from(1)));
    assert!(engine.fillable_within(Side::Sell, U256::from(45), U256::from(2)));
    assert!(!engine.fillable_within(Side::Sell, U256::from(45), U256::from(3)));
    assert!(engine.fillable_within(Side::Sell, U256::from(40), U256::from(8)));
    assert!(engine.fillable_within(Side::Sell, U256::from(40), U256::zero()));
}
