use hybrid_exchange::ledger::TokenBalance;
use hybrid_exchange::ledger::BalanceRow;
use hybrid_exchange::ledger::Ledger;
use hybrid_exchange::primitives::Address;
use hybrid_exchange::uint::U256;

fn addr(n: u8) -> Address {
    Address::with_last_byte(n)
}

#[test]
fn credit_increases_available() {
    let mut ledger = Ledger::new();
    let user = addr(1);
    let token = addr(10);
    ledger.credit(user, token, U256::from(100));
    assert_eq!(ledger.available(user, token), U256::from(100));
}

#[test]
fn reserve_moves_to_reserved() {
    let mut ledger = Ledger::new();
    let user = addr(1);
    let token = addr(10);
    ledger.credit(user, token, U256::from(100));
    assert!(ledger.reserve(user, token, U256::from(60)));
    assert_eq!(ledger.available(user, token), U256::from(40));
    assert_eq!(ledger.total(user, token), U256::from(100));
}

#[test]
fn reserve_fails_on_insufficient() {
    let mut ledger = Ledger::new();
    let user = addr(1);
    let token = addr(10);
    ledger.credit(user, token, U256::from(50));
    assert!(!ledger.reserve(user, token, U256::from(60)));
    assert_eq!(ledger.available(user, token), U256::from(50));
}

#[test]
fn release_restores_available() {
    let mut ledger = Ledger::new();
    let user = addr(1);
    let token = addr(10);
    ledger.credit(user, token, U256::from(100));
    ledger.reserve(user, token, U256::from(60));
    ledger.release(user, token, U256::from(60));
    assert_eq!(ledger.available(user, token), U256::from(100));
}

#[test]
fn settle_fill_moves_tokens() {
    let mut ledger = Ledger::new();
    let seller = addr(1);
    let buyer = addr(2);
    let base = addr(10);
    let quote = addr(11);

    ledger.credit(seller, base, U256::from(100));
    ledger.reserve(seller, base, U256::from(10));
    ledger.credit(buyer, quote, U256::from(100));
    ledger.reserve(buyer, quote, U256::from(20));

    ledger.settle_fill(seller, buyer, base, quote, U256::from(10), U256::from(20));

    assert_eq!(ledger.available(seller, quote), U256::from(20));
    assert_eq!(ledger.available(buyer, base), U256::from(10));
    assert_eq!(ledger.total(seller, base), U256::from(90));
    assert_eq!(ledger.total(buyer, quote), U256::from(80));
}

#[test]
fn unknown_balance_is_zero() {
    let ledger = Ledger::new();
    assert_eq!(ledger.available(addr(3), addr(4)), U256::zero());
    assert_eq!(ledger.total(addr(3), addr(4)), U256::zero());
}

#[test]
fn set_from_chain_clears_reserved() {
    let mut ledger = Ledger::new();
    let user = addr(1);
    let token = addr(10);
    ledger.credit(user, token, U256::from(100));
    assert!(ledger.reserve(user, token, U256::from(30)));
    ledger.set_from_chain(user, token, U256::from(55));
    assert_eq!(ledger.available(user, token), U256::from(55));
    assert_eq!(ledger.total(user, token), U256::from(55));
}

#[test]
fn balances_are_per_user_and_token() {
    let mut ledger = Ledger::new();
    ledger.credit(addr(1), addr(10), U256::from(5));
    ledger.credit(addr(2), addr(10), U256::from(7));
    ledger.credit(addr(1), addr(11), U256::from(9));
    assert_eq!(ledger.available(addr(1), addr(10)), U256::from(5));
    assert_eq!(ledger.available(addr(2), addr(10)), U256::from(7));
    assert_eq!(ledger.available(addr(1), addr(11)), U256::from(9));
}

#[test]
fn credit_wraps_modulo_two_pow_256() {
    let mut ledger = Ledger::new();
    ledger.credit(addr(1), addr(10), U256::max_value());
    ledger.credit(addr(1), addr(10), U256::from(2));
    assert_eq!(ledger.available(addr(1), addr(10)), U256::from(1));
}

#[test]
fn stored_balances_are_restored_with_the_later_row_winning() {
    let rows = vec![
        BalanceRow { user: addr(1), token: addr(10), available: U256::from(5u64), reserved: U256::from(2u64) },
        BalanceRow { user: addr(2), token: addr(10), available: U256::from(7u64), reserved: U256::zero() },
        BalanceRow { user: addr(1), token: addr(10), available: U256::from(9u64), reserved: U256::from(1u64) },
    ];
    let ledger = Ledger::from_balances(&rows);
    assert_eq!(ledger.available(addr(1), addr(10)), U256::from(9u64));
    assert_eq!(ledger.total(addr(1), addr(10)), U256::from(10u64));
    assert_eq!(ledger.available(addr(2), addr(10)), U256::from(7u64));
    assert_eq!(ledger.available(addr(3), addr(10)), U256::zero());
}

#[test]
fn set_balance_replaces_both_parts() {
    let mut ledger = Ledger::new();
    ledger.credit(addr(1), addr(10), U256::from(100u64));
    ledger.set_balance(
        addr(1),
        addr(10),
        TokenBalance { available: U256::from(3u64), reserved: U256::from(4u64) },
    );
    assert_eq!(ledger.available(addr(1), addr(10)), U256::from(3u64));
    assert_eq!(ledger.total(addr(1), addr(10)), U256::from(7u64));
}

#[test]
fn token_balance_total_wraps() {
    let b = TokenBalance { available: U256::max_value(), reserved: U256::from(2u64) };
    assert_eq!(b.total(), U256::from(1u64));
    let c = TokenBalance { available: U256::from(3u64), reserved: U256::from(4u64) };
    assert_eq!(c.total(), U256::from(7u64));
}

#[test]
fn users_sharing_their_low_bytes_keep_separate_balances() {
    let mut ledger = Ledger::new();
    let a = Address::with_last_byte(5);
    let mut raw = [0u8; 20];
    raw[3] = 9;
    raw[19] = 5;
    let b = Address::from_bytes(&raw);
    let token = Address::with_last_byte(1);
    let other_token = Address::with_last_byte(2);
    ledger.credit(a, token, U256::from(10u64));
    ledger.credit(b, token, U256::from(3u64));
    ledger.credit(a, other_token, U256::from(4u64));
    assert!(ledger.reserve(b, token, U256::from(2u64)));
    assert_eq!(ledger.available(a, token), U256::from(10u64));
    assert_eq!(ledger.available(b, token), U256::from(1u64));
    assert_eq!(ledger.balance(b, token).reserved, U256::from(2u64));
    assert_eq!(ledger.available(a, other_token), U256::from(4u64));
    assert_eq!(ledger.available(b, other_token), U256::zero());
}
