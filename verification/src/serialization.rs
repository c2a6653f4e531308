//! Fixed-width byte encodings under which values are stored.
use crate::bytes::{be_bytes, be_value, lemma_be_roundtrip_small, lemma_pow256_values};
use crate::primitives::{lemma_address_view_injective, lemma_b256_view_injective, Address, B256};
use crate::uint::{lemma_u256_bound, lemma_u256_view_injective, U256};
use vstd::prelude::*;

verus! {

/// The 32-byte big-endian encoding of a 256-bit value.
pub fn u256_to_bytes(v: U256) -> (r: Vec<u8>)
    ensures
        r@ == be_bytes(v@, 32),
        r@.len() == 32,
{
    v.to_be_bytes()
}

/// The 256-bit value of a big-endian byte string of at most 32 bytes.
pub fn u256_from_bytes(b: &[u8]) -> (r: U256)
    requires
        b@.len() <= 32,
    ensures
        r@ == be_value(b@),
{
    U256::from_be_slice(b)
}

/// The 20 bytes of an address.
pub fn address_to_bytes(a: Address) -> (r: Vec<u8>)
    ensures
        r@ == a@,
        r@.len() == 20,
{
    a.to_bytes()
}

/// The address of exactly 20 bytes.
pub fn address_from_bytes(b: &[u8]) -> (r: Address)
    requires
        b@.len() == 20,
    ensures
        r@ == b@,
{
    Address::from_bytes(b)
}

/// The 32 bytes of a word.
pub fn b256_to_bytes(v: B256) -> (r: Vec<u8>)
    ensures
        r@ == v@,
        r@.len() == 32,
{
    v.to_bytes()
}

/// The word of exactly 32 bytes.
pub fn b256_from_bytes(b: &[u8]) -> (r: B256)
    requires
        b@.len() == 32,
    ensures
        r@ == b@,
{
    B256::from_bytes(b)
}

/// Decoding the encoding of a 256-bit value gives the value back.
pub proof fn law_u256_bytes_roundtrip(v: U256, r: U256)
    requires
        r@ == be_value(be_bytes(v@, 32)),
    ensures
        r == v,
{
    lemma_u256_bound(v);
    lemma_pow256_values();
    lemma_be_roundtrip_small(v@, 32);
    lemma_u256_view_injective(r, v);
}

/// Decoding the encoding of an address gives the address back.
pub proof fn law_address_bytes_roundtrip(a: Address, r: Address)
    requires
        r@ == a@,
    ensures
        r == a,
{
    lemma_address_view_injective(r, a);
}

/// Decoding the encoding of a word gives the word back.
pub proof fn law_b256_bytes_roundtrip(v: B256, r: B256)
    requires
        r@ == v@,
    ensures
        r == v,
{
    lemma_b256_view_injective(r, v);
}

/// A block number as SQLite stores it (a signed 64-bit integer); `None` when it
/// does not fit.
pub fn block_to_stored(block: u64) -> (r: Option<i64>)
    ensures
        block <= i64::MAX ==> r == Some(block as i64),
        block > i64::MAX ==> r is None,
{
    if block <= 0x7fff_ffff_ffff_ffffu64 {
        Some(block as i64)
    } else {
        None
    }
}

/// A stored block number read back; `None` when it is negative.
pub fn block_from_stored(v: i64) -> (r: Option<u64>)
    ensures
        v >= 0 ==> r == Some(v as u64),
        v < 0 ==> r is None,
{
    if v >= 0 {
        Some(v as u64)
    } else {
        None
    }
}

} // verus!
