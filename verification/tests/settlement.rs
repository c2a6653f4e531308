use hybrid_exchange::primitives::Address;
use hybrid_exchange::settlement::{copy_bytes, settle_batch_args, signed_order_to_abi};
use hybrid_exchange::types::{BatchSettlement, Side, SignedOrder, Trade};
use hybrid_exchange::uint::U256;

fn order(side: Side, maker: u8, sig: Vec<u8>) -> SignedOrder {
    SignedOrder {
        side,
        maker: Address::with_last_byte(maker),
        base_token: Address::with_last_byte(1),
        quote_token: Address::with_last_byte(2),
        price: U256::from(100u64),
        quantity: U256::from(5u64),
        nonce: U256::from(maker as u64),
        expiry: U256::from(u64::MAX),
        signature: sig,
    }
}

#[test]
fn abi_order_codes_the_side() {
    assert_eq!(signed_order_to_abi(&order(Side::Buy, 3, vec![])).side, 0);
    let sell = signed_order_to_abi(&order(Side::Sell, 4, vec![]));
    assert_eq!(sell.side, 1);
    assert_eq!(sell.maker, Address::with_last_byte(4));
    assert_eq!(sell.nonce, U256::from(4u64));
    assert_eq!(sell.expiry, U256::from(u64::MAX));
}

#[test]
fn batch_arguments_keep_trade_order() {
    let t1 = Trade {
        maker_order: order(Side::Sell, 3, vec![1]),
        taker_order: order(Side::Buy, 4, vec![2]),
        price: U256::from(100u64),
        quantity: U256::from(2u64),
        timestamp: 1,
    };
    let t2 = Trade {
        maker_order: order(Side::Buy, 5, vec![3, 3]),
        taker_order: order(Side::Sell, 6, vec![4]),
        price: U256::from(99u64),
        quantity: U256::from(1u64),
        timestamp: 2,
    };
    let args = settle_batch_args(&BatchSettlement { trades: vec![t1, t2] });
    assert_eq!(args.maker_orders.len(), 2);
    assert_eq!(args.maker_orders[0].maker, Address::with_last_byte(3));
    assert_eq!(args.taker_orders[1].maker, Address::with_last_byte(6));
    assert_eq!(args.maker_sigs, vec![vec![1], vec![3, 3]]);
    assert_eq!(args.taker_sigs, vec![vec![2], vec![4]]);
    assert_eq!(args.quantities, vec![U256::from(2u64), U256::from(1u64)]);
    assert_eq!(args.prices, vec![U256::from(100u64), U256::from(99u64)]);
}

#[test]
fn empty_batch_has_empty_arguments() {
    let args = settle_batch_args(&BatchSettlement { trades: vec![] });
    assert!(args.maker_orders.is_empty() && args.prices.is_empty());
}

#[test]
fn copies_bytes() {
    assert_eq!(copy_bytes(&vec![9, 8, 7]), vec![9, 8, 7]);
}
