use hybrid_exchange::state::NonceSet;
use hybrid_exchange::state::{now_secs, stored_secs, unix_now};
use hybrid_exchange::state::is_expired_at;
use alloy::signers::local::PrivateKeySigner;
use alloy::signers::SignerSync;
use hybrid_exchange::eip712::{eip712_digest, order_hash};
use hybrid_exchange::primitives::{Address, B256};
use hybrid_exchange::settlement::next_batch;
use hybrid_exchange::state::{collateral_required, AppState, SubmitError};
use hybrid_exchange::types::{OrderType, Side, SignedOrder};
use hybrid_exchange::uint::U256;

fn setup_state() -> AppState {
    AppState::new(
        31337,
        Address::with_last_byte(99),
        Address::with_last_byte(1),
        Address::with_last_byte(2),
    )
}

fn signer(seed: u8) -> PrivateKeySigner {
    PrivateKeySigner::from_slice(&[seed; 32]).unwrap()
}

fn address_of(s: &PrivateKeySigner) -> Address {
    Address::from_bytes(s.address().as_slice())
}

fn fund() -> U256 {
    U256::from_u128(1_000_000u128 * 10u128.pow(18))
}

fn sign_order(order: &SignedOrder, s: &PrivateKeySigner, domain: B256) -> SignedOrder {
    let digest = eip712_digest(domain, order_hash(order));
    let h = alloy::primitives::B256::from_slice(&digest.to_bytes());
    let sig = s.sign_hash_sync(&h).unwrap();
    let mut signed = order.clone();
    signed.signature = sig.as_bytes().to_vec();
    signed
}

fn make_signed_order(
    price: U256,
    quantity: U256,
    side: Side,
    seed: u8,
    state: &mut AppState,
) -> SignedOrder {
    let s = signer(seed);
    let address = address_of(&s);
    let token = match side {
        Side::Buy => state.quote_token,
        Side::Sell => state.base_token,
    };
    state.ledger.credit(address, token, fund());
    let order = SignedOrder {
        side,
        maker: address,
        base_token: state.base_token,
        quote_token: state.quote_token,
        price,
        quantity,
        nonce: U256::from(1u64),
        expiry: U256::from(u64::MAX),
        signature: Vec::new(),
    };
    sign_order(&order, &s, state.domain_separator)
}

#[test]
fn market_order_rejects_zero_price() {
    let mut state = setup_state();
    let order = make_signed_order(U256::zero(), U256::from(5u64), Side::Buy, 1, &mut state);
    let result = state.submit_order(order, OrderType::Market);
    assert!(result.is_err());
    assert!(result.unwrap_err().message().contains("price"));
}

#[test]
fn market_order_rolls_back_on_no_fill() {
    let mut state = setup_state();
    let order = make_signed_order(U256::from(1000u64), U256::from(5u64), Side::Buy, 1, &mut state);

    let hash = order_hash(&order);
    let result = state.submit_order(order.clone(), OrderType::Market);

    assert!(result.is_err());
    assert!(result.unwrap_err().message().contains("not fillable"));
    assert!(!state.accepted_nonces.contains(&hash));

    let token = state.quote_token;
    let available = state.ledger.available(order.maker, token);
    assert_eq!(available, fund());
}

#[test]
fn market_order_fills_against_resting_limit() {
    let mut state = setup_state();
    let sell_signed =
        make_signed_order(U256::from(100u64), U256::from(5u64), Side::Sell, 1, &mut state);
    let (_sell_id, _, _) = state.submit_order(sell_signed, OrderType::Limit).unwrap();

    let buy_signed =
        make_signed_order(U256::from(100u64), U256::from(5u64), Side::Buy, 2, &mut state);
    let (_, fills, _) = state.submit_order(buy_signed, OrderType::Market).unwrap();

    assert_eq!(fills.len(), 1);
    assert_eq!(fills[0].filled_qty, U256::from(5u64));
    assert_eq!(fills[0].price, U256::from(100u64));
}

#[test]
fn new_state_uses_the_documented_batch_settings() {
    let state = setup_state();
    assert_eq!(state.batch_size, 10);
    assert_eq!(state.batch_timeout_secs, 5);
    assert_eq!(state.base_token, Address::with_last_byte(1));
    assert_eq!(state.quote_token, Address::with_last_byte(2));
}

#[test]
fn buy_collateral_is_quote_at_price_in_wad() {
    let mut state = setup_state();
    let order = make_signed_order(
        U256::from_u128(2 * 10u128.pow(18)),
        U256::from(3u64),
        Side::Buy,
        1,
        &mut state,
    );
    assert_eq!(collateral_required(&order), U256::from(6u64));
    let mut sell = order.clone();
    sell.side = Side::Sell;
    assert_eq!(collateral_required(&sell), U256::from(3u64));
}

#[test]
fn limit_order_reserves_collateral_and_rests() {
    let mut state = setup_state();
    let order = make_signed_order(U256::from(100u64), U256::from(5u64), Side::Sell, 1, &mut state);
    let maker = order.maker;
    let (id, fills, dispatches) = state.submit_order(order, OrderType::Limit).unwrap();
    assert_eq!(id, 1);
    assert!(fills.is_empty());
    assert!(dispatches.is_empty());
    let base = state.base_token;
    assert_eq!(state.ledger.available(maker, base), fund().wrapping_sub(U256::from(5u64)));
    assert_eq!(state.ledger.total(maker, base), fund());
    assert!(state.order_map.contains_key(&id));
    assert!(state.engine.has_order(id));
}

#[test]
fn duplicate_nonce_is_refused() {
    let mut state = setup_state();
    let order = make_signed_order(U256::from(100u64), U256::from(5u64), Side::Sell, 1, &mut state);
    state.submit_order(order.clone(), OrderType::Limit).unwrap();
    match state.submit_order(order, OrderType::Limit) {
        Err(e) => assert_eq!(e.message(), "duplicate nonce"),
        Ok(_) => panic!("accepted twice"),
    }
}

#[test]
fn expired_order_is_refused() {
    let mut state = setup_state();
    let s = signer(1);
    let mut order = make_signed_order(U256::from(100u64), U256::from(5u64), Side::Sell, 1, &mut state);
    order.expiry = U256::from(10u64);
    let order = sign_order(&order, &s, state.domain_separator);
    match state.submit_order_at(order, OrderType::Limit, 11) {
        Err(e) => assert_eq!(e.message(), "order expired"),
        Ok(_) => panic!("expired order accepted"),
    }
}

#[test]
fn order_at_expiry_second_is_accepted() {
    let mut state = setup_state();
    let s = signer(1);
    let mut order = make_signed_order(U256::from(100u64), U256::from(5u64), Side::Sell, 1, &mut state);
    order.expiry = U256::from(10u64);
    let order = sign_order(&order, &s, state.domain_separator);
    assert!(state.submit_order_at(order, OrderType::Limit, 10).is_ok());
}

#[test]
fn signature_by_someone_else_is_refused() {
    let mut state = setup_state();
    let mut order =
        make_signed_order(U256::from(100u64), U256::from(5u64), Side::Sell, 1, &mut state);
    order = sign_order(&order, &signer(9), state.domain_separator);
    match state.submit_order(order, OrderType::Limit) {
        Err(e) => assert_eq!(e.message(), "signature does not match maker"),
        Ok(_) => panic!("accepted a foreign signature"),
    }
}

#[test]
fn malformed_signature_is_refused() {
    let mut state = setup_state();
    let mut order =
        make_signed_order(U256::from(100u64), U256::from(5u64), Side::Sell, 1, &mut state);
    order.signature = vec![1, 2, 3];
    assert!(matches!(
        state.submit_order(order, OrderType::Limit),
        Err(SubmitError::Signature(_))
    ));
}

#[test]
fn insufficient_balance_is_refused_and_nothing_moves() {
    let mut state = setup_state();
    let s = signer(4);
    let maker = address_of(&s);
    let order = SignedOrder {
        side: Side::Sell,
        maker,
        base_token: state.base_token,
        quote_token: state.quote_token,
        price: U256::from(100u64),
        quantity: U256::from(5u64),
        nonce: U256::from(1u64),
        expiry: U256::from(u64::MAX),
        signature: Vec::new(),
    };
    let base = state.base_token;
    state.ledger.credit(maker, base, U256::from(4u64));
    let order = sign_order(&order, &s, state.domain_separator);
    match state.submit_order(order, OrderType::Limit) {
        Err(e) => assert_eq!(e.message(), "insufficient balance"),
        Ok(_) => panic!("accepted without collateral"),
    }
    assert_eq!(state.ledger.available(maker, base), U256::from(4u64));
    assert_eq!(state.engine.ask_depth(), 0);
}

#[test]
fn fill_records_trade_and_dispatches_to_both_sides() {
    let mut state = setup_state();
    let sell = make_signed_order(U256::from(100u64), U256::from(5u64), Side::Sell, 1, &mut state);
    let seller = sell.maker;
    let (sell_id, _, _) = state.submit_order(sell, OrderType::Limit).unwrap();
    let buy = make_signed_order(U256::from(100u64), U256::from(3u64), Side::Buy, 2, &mut state);
    let buyer = buy.maker;
    let (buy_id, fills, dispatches) = state.submit_order(buy, OrderType::Limit).unwrap();

    assert_eq!(fills.len(), 1);
    assert_eq!(fills[0].order_id, buy_id);
    assert_eq!(fills[0].filled_qty, U256::from(3u64));
    assert_eq!(fills[0].remaining_qty, U256::zero());
    assert!(!fills[0].is_maker);

    assert_eq!(dispatches.len(), 2);
    assert_eq!(dispatches[0].address, seller);
    assert_eq!(dispatches[0].message.msg_type, "fill");
    assert_eq!(dispatches[0].message.data.order_id, sell_id);
    assert!(dispatches[0].message.data.is_maker);
    assert_eq!(dispatches[0].message.data.remaining_qty, U256::zero());
    assert_eq!(dispatches[1].address, buyer);
    assert_eq!(dispatches[1].message.data, fills[0]);

    assert_eq!(state.pending_trades.len(), 1);
    assert_eq!(state.pending_trades[0].maker_order.maker, seller);
    assert_eq!(state.pending_trades[0].taker_order.maker, buyer);
    assert_eq!(state.pending_trades[0].quantity, U256::from(3u64));
    assert!(!state.order_map.contains_key(&buy_id));

    let batch = next_batch(&mut state).unwrap();
    assert_eq!(batch.trades.len(), 1);
    assert!(state.pending_trades.is_empty());
    assert!(next_batch(&mut state).is_none());
}

#[test]
fn taker_fills_report_what_is_left_after_each_level() {
    let mut state = setup_state();
    let a = make_signed_order(U256::from(100u64), U256::from(2u64), Side::Sell, 1, &mut state);
    state.submit_order(a, OrderType::Limit).unwrap();
    let b = make_signed_order(U256::from(101u64), U256::from(2u64), Side::Sell, 2, &mut state);
    state.submit_order(b, OrderType::Limit).unwrap();
    let buy = make_signed_order(U256::from(101u64), U256::from(5u64), Side::Buy, 3, &mut state);
    let (buy_id, fills, _) = state.submit_order(buy, OrderType::Limit).unwrap();
    assert_eq!(fills.len(), 2);
    assert_eq!(fills[0].price, U256::from(100u64));
    assert_eq!(fills[0].remaining_qty, U256::from(3u64));
    assert_eq!(fills[1].price, U256::from(101u64));
    assert_eq!(fills[1].remaining_qty, U256::from(1u64));
    assert!(state.order_map.contains_key(&buy_id));
    assert_eq!(state.engine.best_bid(), Some(U256::from(101u64)));
}

#[test]
fn expiry_is_compared_with_the_clock() {
    assert!(is_expired_at(U256::from(9u64), 10));
    assert!(!is_expired_at(U256::from(10u64), 10));
    assert!(!is_expired_at(U256::max_value(), u64::MAX));
}

#[test]
fn restored_order_is_matched_under_its_id() {
    let mut state = setup_state();
    let sell = make_signed_order(U256::from(100u64), U256::from(5u64), Side::Sell, 1, &mut state);
    assert!(state.ledger.reserve(sell.maker, state.base_token, U256::from(2u64)));
    state.engine.set_next_id(8);
    state.restore_order(7, sell, U256::from(2u64));
    assert!(state.engine.has_order(7));
    assert!(state.order_map.contains_key(&7));

    let buy = make_signed_order(U256::from(100u64), U256::from(2u64), Side::Buy, 2, &mut state);
    let (id, fills, dispatches) = state.submit_order(buy, OrderType::Limit).unwrap();
    assert_eq!(id, 8);
    assert_eq!(fills.len(), 1);
    assert_eq!(dispatches[0].message.data.order_id, 7);
    assert!(!state.engine.has_order(7));
}

#[test]
fn now_secs_is_the_clock_as_stored() {
    let before = unix_now().unwrap();
    let stored = now_secs().unwrap();
    assert!(stored >= before as i64);
    assert_eq!(stored_secs(5), 5);
    assert_eq!(stored_secs(i64::MAX as u64), i64::MAX);
    assert_eq!(stored_secs(u64::MAX), -1);
}

#[test]
fn stored_order_is_restored_unless_expired() {
    let mut state = setup_state();
    let sell = make_signed_order(U256::from(100u64), U256::from(5u64), Side::Sell, 1, &mut state);
    let mut old = sell.clone();
    old.expiry = U256::from(10u64);
    assert!(!state.restore_stored_order(3, old, U256::from(5u64), 11));
    assert!(!state.engine.has_order(3));
    assert!(state.restore_stored_order(4, sell.clone(), U256::from(5u64), 11));
    assert!(state.engine.has_order(4));
    assert!(state.accepted_nonces.contains(&order_hash(&sell)));
    state.engine.set_next_id(5);
    match state.submit_order(sell, OrderType::Limit) {
        Err(e) => assert_eq!(e.message(), "duplicate nonce"),
        Ok(_) => panic!("restored order accepted again"),
    }
}

#[test]
fn fill_record_gathers_what_a_fill_changed() {
    let mut state = setup_state();
    let sell = make_signed_order(U256::from(100u64), U256::from(5u64), Side::Sell, 1, &mut state);
    let seller = sell.maker;
    let (sell_id, _, _) = state.submit_order(sell, OrderType::Limit).unwrap();
    let buy = make_signed_order(U256::from(100u64), U256::from(8u64), Side::Buy, 2, &mut state);
    let before = state.pending_trades.len();
    let (buy_id, _, dispatches) = state.submit_order(buy.clone(), OrderType::Limit).unwrap();
    let record = state.fill_record(buy_id, &buy, before, &dispatches);
    assert_eq!(record.nonce, order_hash(&buy));
    assert_eq!(record.nonce_expires_at, u64::MAX);
    assert_eq!(record.trades.len(), 1);
    assert_eq!(record.balances.len(), 4);
    assert_eq!(record.balances[0].user, buy.maker);
    assert_eq!(record.balances[2].user, seller);
    assert_eq!(record.balances[2].token, state.base_token);
    assert_eq!(record.filled_makers, vec![sell_id]);
    assert_eq!(record.resting, Some((buy_id, buy.maker, U256::from(3u64))));
}

#[test]
fn market_buy_is_refused_where_its_price_is_below_the_book() {
    let mut state = setup_state();
    let sell = make_signed_order(U256::from(100u64), U256::from(3u64), Side::Sell, 1, &mut state);
    state.submit_order(sell, OrderType::Limit).unwrap();

    let buy = make_signed_order(U256::from(1u64), U256::from(3u64), Side::Buy, 2, &mut state);
    let hash = order_hash(&buy);
    let result = state.submit_order(buy.clone(), OrderType::Market);
    assert!(matches!(result, Err(SubmitError::MarketNotFillable)));
    assert!(!state.accepted_nonces.contains(&hash));
    assert_eq!(state.ledger.available(buy.maker, state.quote_token), fund());
    assert_eq!(state.engine.best_ask(), Some(U256::from(100u64)));
    assert_eq!(state.engine.ask_depth(), 1);
    assert!(state.pending_trades.is_empty());
}

#[test]
fn market_buy_fills_only_within_its_price() {
    let mut state = setup_state();
    let low = make_signed_order(U256::from(100u64), U256::from(3u64), Side::Sell, 1, &mut state);
    state.submit_order(low, OrderType::Limit).unwrap();
    let high = make_signed_order(U256::from(200u64), U256::from(3u64), Side::Sell, 2, &mut state);
    state.submit_order(high, OrderType::Limit).unwrap();

    // four wanted, but only three rest at or below 150
    let too_many = make_signed_order(U256::from(150u64), U256::from(4u64), Side::Buy, 3, &mut state);
    assert!(matches!(
        state.submit_order(too_many, OrderType::Market),
        Err(SubmitError::MarketNotFillable)
    ));
    assert_eq!(state.engine.ask_depth(), 2);

    let buy = make_signed_order(U256::from(150u64), U256::from(3u64), Side::Buy, 4, &mut state);
    let (_, fills, _) = state.submit_order(buy, OrderType::Market).unwrap();
    assert_eq!(fills.len(), 1);
    assert_eq!(fills[0].price, U256::from(100u64));
    assert_eq!(fills[0].filled_qty, U256::from(3u64));
    assert_eq!(fills[0].remaining_qty, U256::zero());
    assert_eq!(state.engine.best_ask(), Some(U256::from(200u64)));
}

#[test]
fn market_sell_fills_only_at_or_above_its_price() {
    let mut state = setup_state();
    let bid = make_signed_order(U256::from(100u64), U256::from(3u64), Side::Buy, 1, &mut state);
    state.submit_order(bid, OrderType::Limit).unwrap();

    let greedy = make_signed_order(U256::from(150u64), U256::from(3u64), Side::Sell, 2, &mut state);
    assert!(matches!(
        state.submit_order(greedy, OrderType::Market),
        Err(SubmitError::MarketNotFillable)
    ));
    assert_eq!(state.engine.best_bid(), Some(U256::from(100u64)));

    let sell = make_signed_order(U256::from(100u64), U256::from(3u64), Side::Sell, 3, &mut state);
    let (_, fills, _) = state.submit_order(sell, OrderType::Market).unwrap();
    assert_eq!(fills.len(), 1);
    assert_eq!(fills[0].price, U256::from(100u64));
    assert_eq!(state.engine.best_bid(), None);
}

#[test]
fn nonce_set_tells_hashes_apart_by_both_halves() {
    let mut set = NonceSet::new();
    let mut raw = [0u8; 32];
    raw[31] = 1;
    let h = B256::from_bytes(&raw);
    raw[0] = 1;
    let same_low = B256::from_bytes(&raw);
    raw[31] = 2;
    let other = B256::from_bytes(&raw);
    set.insert(h);
    assert!(set.contains(&h));
    assert!(!set.contains(&same_low));
    set.insert(same_low);
    assert!(set.contains(&same_low));
    assert!(!set.contains(&other));
    set.remove(&h);
    assert!(!set.contains(&h));
    assert!(set.contains(&same_low));
}
