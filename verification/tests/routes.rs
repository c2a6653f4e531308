use hybrid_exchange::engine::MatchingEngine;
use hybrid_exchange::primitives::Address;
use hybrid_exchange::routes::{
    accepted_response, balances_response, book_level, book_response, decimal_string,
    error_response,
};
use hybrid_exchange::state::{AppState, SubmitError};
use hybrid_exchange::types::{Fill, OrderType, Side};
use hybrid_exchange::uint::U256;

#[test]
fn decimal_strings() {
    assert_eq!(decimal_string(U256::zero()), "0");
    assert_eq!(decimal_string(U256::from(1000u64)), "1000");
    assert_eq!(
        decimal_string(U256::from_u128(7 * 10u128.pow(18))),
        "7000000000000000000"
    );
    assert_eq!(
        decimal_string(U256::max_value()),
        "115792089237316195423570985008687907853269984665640564039457584007913129639935"
    );
}

#[test]
fn accepted_order_response() {
    let fill = Fill {
        order_id: 2,
        price: U256::from(5u64),
        filled_qty: U256::from(1u64),
        remaining_qty: U256::zero(),
        is_maker: false,
    };
    let r = accepted_response(2, vec![fill]);
    assert_eq!(r.order_id, 2);
    assert_eq!(r.status, "accepted");
    assert_eq!(r.fills, vec![fill]);
}

#[test]
fn refused_order_responses_carry_the_error_text() {
    assert_eq!(error_response(&SubmitError::DuplicateNonce).error, "duplicate nonce");
    assert_eq!(error_response(&SubmitError::Expired).error, "order expired");
    assert_eq!(error_response(&SubmitError::InsufficientBalance).error, "insufficient balance");
    assert_eq!(
        error_response(&SubmitError::MarketNotFillable).error,
        "market order not fillable"
    );
    assert_eq!(
        error_response(&SubmitError::MarketPriceZero).error,
        "market order requires price > 0 for price protection"
    );
    assert_eq!(
        error_response(&SubmitError::SignerMismatch).error,
        "signature does not match maker"
    );
}

#[test]
fn orderbook_reflects_resting_orders() {
    let mut engine = MatchingEngine::new();
    let e18 = 10u128.pow(18);
    let price = U256::from_u128(50 * e18);
    let quantity = U256::from_u128(7 * e18);
    engine.submit(Side::Sell, price, quantity, OrderType::Limit);

    let book = book_response(&engine);
    assert!(book.bids.is_empty());
    assert_eq!(book.asks.len(), 1);
    assert_eq!(book.asks[0].price, "50000000000000000000");
    assert_eq!(book.asks[0].quantity, "7000000000000000000");
}

#[test]
fn orderbook_lists_best_levels_first_with_totals() {
    let mut engine = MatchingEngine::new();
    engine.submit(Side::Buy, U256::from(99u64), U256::from(1u64), OrderType::Limit);
    engine.submit(Side::Buy, U256::from(100u64), U256::from(2u64), OrderType::Limit);
    engine.submit(Side::Buy, U256::from(100u64), U256::from(3u64), OrderType::Limit);
    let book = book_response(&engine);
    assert_eq!(book.bids.len(), 2);
    assert_eq!(book.bids[0].price, "100");
    assert_eq!(book.bids[0].quantity, "5");
    assert_eq!(book.bids[1].price, "99");
    assert_eq!(book.bids[1].quantity, "1");
}

#[test]
fn book_level_text() {
    let l = book_level(U256::from(12u64), U256::from(340u64));
    assert_eq!(l.price, "12");
    assert_eq!(l.quantity, "340");
}

#[test]
fn balances_are_reported_in_decimal() {
    let mut state = AppState::new(
        1,
        Address::zero(),
        Address::with_last_byte(2),
        Address::with_last_byte(3),
    );
    let user = Address::with_last_byte(9);
    state.ledger.credit(user, Address::with_last_byte(2), U256::from(600u64));
    let r = balances_response(&state, user);
    assert_eq!(r.base, "600");
    assert_eq!(r.quote, "0");
}
