use hybrid_exchange::primitives::{Address, B256};
use hybrid_exchange::serialization::{
    address_from_bytes, address_to_bytes, b256_from_bytes, b256_to_bytes, block_from_stored,
    block_to_stored, u256_from_bytes, u256_to_bytes,
};
use hybrid_exchange::uint::U256;

#[test]
fn u256_roundtrip() {
    let values = [
        U256::zero(),
        U256::from(1u64),
        U256::from(u64::MAX),
        U256::max_value(),
    ];
    for v in values {
        assert_eq!(u256_from_bytes(&u256_to_bytes(v)), v);
    }
}

#[test]
fn address_roundtrip() {
    let addr = Address::from_bytes(&[0xAB; 20]);
    assert_eq!(address_from_bytes(&address_to_bytes(addr)), addr);

    let zero = Address::zero();
    assert_eq!(address_from_bytes(&address_to_bytes(zero)), zero);
}

#[test]
fn b256_roundtrip() {
    let val = B256::from_bytes(&[0xCD; 32]);
    assert_eq!(b256_from_bytes(&b256_to_bytes(val)), val);

    let zero = B256::zero();
    assert_eq!(b256_from_bytes(&b256_to_bytes(zero)), zero);
}

#[test]
fn u256_bytes_are_big_endian() {
    let bytes = u256_to_bytes(U256::from(0x0102u64));
    assert_eq!(bytes.len(), 32);
    assert!(bytes[..30].iter().all(|b| *b == 0));
    assert_eq!(bytes[30], 0x01);
    assert_eq!(bytes[31], 0x02);
}

#[test]
fn short_u256_bytes_read_as_big_endian() {
    assert_eq!(u256_from_bytes(&[0x01, 0x00]), U256::from(256u64));
    assert_eq!(u256_from_bytes(&[]), U256::zero());
}

#[test]
fn address_bytes_keep_their_order() {
    let mut raw = [0u8; 20];
    for (i, b) in raw.iter_mut().enumerate() {
        *b = i as u8;
    }
    let addr = Address::from_bytes(&raw);
    assert_eq!(address_to_bytes(addr), raw.to_vec());
    assert_eq!(Address::with_last_byte(7).to_bytes()[19], 7);
}

#[test]
fn rejects_block_number_exceeding_i64_max() {
    assert_eq!(block_to_stored(u64::MAX), None);
    assert_eq!(block_to_stored(i64::MAX as u64 + 1), None);
}

#[test]
fn block_numbers_that_fit_roundtrip() {
    for block in [0u64, 1, 12_345_678, i64::MAX as u64] {
        let stored = block_to_stored(block).unwrap();
        assert_eq!(block_from_stored(stored), Some(block));
    }
}

#[test]
fn negative_stored_block_is_refused() {
    assert_eq!(block_from_stored(-1), None);
}
