use hybrid_exchange::primitives::Address;
use hybrid_exchange::types::{
    BalanceDelta, BatchSettlement, EngineOrder, OrderType, Side, SignedOrder, Trade, I256,
};
use hybrid_exchange::uint::U256;

#[test]
fn engine_order_fields() {
    let order = EngineOrder {
        id: 42,
        side: Side::Sell,
        price: U256::from(2000u64),
        quantity: U256::from(1u64),
    };
    assert_eq!(order.id, 42);
    assert_eq!(order.side, Side::Sell);
}

#[test]
fn order_type_default_is_limit() {
    assert_eq!(OrderType::default(), OrderType::Limit);
}

#[test]
fn wire_names() {
    assert_eq!(Side::Buy.as_str(), "buy");
    assert_eq!(Side::Sell.as_str(), "sell");
    assert_eq!(OrderType::Market.as_str(), "market");
    assert_eq!(OrderType::Limit.as_str(), "limit");
    assert_eq!(Side::Buy.opposite(), Side::Sell);
    assert_eq!(Side::Sell.opposite(), Side::Buy);
}

fn order() -> SignedOrder {
    SignedOrder {
        side: Side::Buy,
        maker: Address::zero(),
        base_token: Address::zero(),
        quote_token: Address::zero(),
        price: U256::from(2000u64),
        quantity: U256::from(1u64),
        nonce: U256::zero(),
        expiry: U256::from(u64::MAX),
        signature: Vec::new(),
    }
}

#[test]
fn trade_carries_both_orders() {
    let order = order();
    let trade = Trade {
        maker_order: order.clone(),
        taker_order: order,
        price: U256::from(2000u64),
        quantity: U256::from(1u64),
        timestamp: 0,
    };
    assert_eq!(trade.price, U256::from(2000u64));
    assert_eq!(trade.quantity, U256::from(1u64));
}

#[test]
fn duplicate_keeps_every_field() {
    let mut o = order();
    o.signature = vec![1, 2, 3];
    let d = o.duplicate();
    assert_eq!(d.signature, vec![1, 2, 3]);
    assert_eq!(d.price, o.price);
    assert_eq!(d.expiry, o.expiry);
    assert_eq!(d.side, o.side);
}

#[test]
fn empty_batch_is_valid() {
    let batch = BatchSettlement { trades: vec![] };
    assert!(batch.trades.is_empty());
}

#[test]
fn balance_delta_positive_and_negative() {
    let credit = BalanceDelta {
        user: Address::zero(),
        token: Address::zero(),
        delta: I256::from_i64(100),
    };
    assert!(I256::zero().lt(&credit.delta));

    let debit = BalanceDelta {
        user: Address::zero(),
        token: Address::zero(),
        delta: I256::from_i64(-50),
    };
    assert!(debit.delta.lt(&I256::zero()));
}

#[test]
fn i256_order_and_sign() {
    let values = [i64::MIN, -50, -1, 0, 1, 100, i64::MAX];
    for a in values {
        let x = I256::from_i64(a);
        assert_eq!(x.is_negative(), a < 0);
        assert_eq!(x.is_positive(), a > 0);
        for b in values {
            assert_eq!(x.lt(&I256::from_i64(b)), a < b);
        }
    }
    assert_eq!(I256::from_i64(-1).bits, U256::max_value());
}
