use hybrid_exchange::cli::{
    order_from_input, parse_amount, parse_side, unsigned_order, OrderInputError,
};
use hybrid_exchange::primitives::Address;
use hybrid_exchange::types::Side;
use hybrid_exchange::uint::U256;

#[test]
fn sides_are_read_without_case() {
    assert_eq!(parse_side("buy"), Some(Side::Buy));
    assert_eq!(parse_side("BUY"), Some(Side::Buy));
    assert_eq!(parse_side("Sell"), Some(Side::Sell));
    assert_eq!(parse_side("sel"), None);
    assert_eq!(parse_side("bid"), None);
    assert_eq!(parse_side(""), None);
}

#[test]
fn amounts_are_read_as_numbers() {
    assert_eq!(parse_amount("1000").ok(), Some(U256::from(1000u64)));
    assert_eq!(parse_amount("0x10").ok(), Some(U256::from(16u64)));
    assert_eq!(parse_amount("12a").ok(), None);
    assert_eq!(
        parse_amount(
            "115792089237316195423570985008687907853269984665640564039457584007913129639935"
        ).ok(),
        Some(U256::max_value())
    );
    assert_eq!(
        parse_amount(
            "115792089237316195423570985008687907853269984665640564039457584007913129639936"
        ).ok(),
        None
    );
}

#[test]
fn order_to_sign_expires_five_minutes_later() {
    let o = unsigned_order(
        Side::Buy,
        Address::with_last_byte(1),
        Address::with_last_byte(2),
        Address::with_last_byte(3),
        U256::from(10u64),
        U256::from(4u64),
        1_000,
    );
    assert_eq!(o.nonce, U256::from(1_000u64));
    assert_eq!(o.expiry, U256::from(1_300u64));
    assert!(o.signature.is_empty());
}

#[test]
fn order_input_reports_the_first_bad_field() {
    let a = Address::with_last_byte(1);
    let r = order_from_input("hold", "x", "y", a, a, a, 5);
    assert_eq!(r.unwrap_err(), OrderInputError::Side);
    let r = order_from_input("sell", "x", "y", a, a, a, 5);
    assert_eq!(r.unwrap_err(), OrderInputError::Price("invalid digit: x".to_string()));
    let r = order_from_input("sell", "7", "y", a, a, a, 5);
    let e = r.unwrap_err();
    assert_eq!(e, OrderInputError::Quantity("invalid digit: y".to_string()));
    assert_eq!(e.message(), "invalid digit: y");
    let o = order_from_input("SELL", "7", "3", a, a, a, 5).unwrap();
    assert_eq!(o.side, Side::Sell);
    assert_eq!(o.price, U256::from(7u64));
    assert_eq!(o.quantity, U256::from(3u64));
    assert_eq!(OrderInputError::Side.message(), "side must be 'buy' or 'sell'");
}
