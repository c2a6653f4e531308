//! 256-bit unsigned integers for prices, quantities and balances.
//!
//! Arithmetic follows the EVM word: addition, subtraction and multiplication
//! wrap modulo `2^256`.
use crate::bytes::{
    append_be, be_bytes, be_value, lemma_be_bytes_of_value, lemma_be_roundtrip_small,
    lemma_be_value_concat, lemma_pow256_values, read_be,
};
use vstd::prelude::*;

verus! {

/// `2^128`.
pub open spec fn two_pow_128() -> nat {
    0x1_0000_0000_0000_0000_0000_0000_0000_0000nat
}

/// `2^256`, the modulus of [`U256`] arithmetic.
pub open spec fn u256_modulus() -> nat {
    0x1_0000_0000_0000_0000_0000_0000_0000_0000_0000_0000_0000_0000_0000_0000_0000_0000nat
}

/// A 256-bit unsigned integer, held as its high and low 128-bit halves.
#[derive(Clone, Copy, Debug, PartialEq, Eq, Structural)]
pub struct U256 {
    pub hi: u128,
    pub lo: u128,
}

impl View for U256 {
    type V = nat;

    open spec fn view(&self) -> nat {
        self.hi as nat * two_pow_128() + self.lo as nat
    }
}

/// The [`U256`] whose value is `v` (taken modulo `2^256`).
pub open spec fn u256_of(v: nat) -> U256 {
    let w = v % u256_modulus();
    U256 { hi: (w / two_pow_128()) as u128, lo: (w % two_pow_128()) as u128 }
}

pub proof fn lemma_u256_bound(x: U256)
    ensures
        x@ < u256_modulus(),
{
}

/// Two values with the same number are the same value.
pub proof fn lemma_u256_view_injective(x: U256, y: U256)
    requires
        x@ == y@,
    ensures
        x == y,
{
    if x.hi < y.hi {
        assert(x@ < y@);
    } else if y.hi < x.hi {
        assert(y@ < x@);
    }
}

pub proof fn lemma_u256_of_view(x: U256)
    ensures
        u256_of(x@) == x,
{
    let w = x@ % u256_modulus();
    assert(w == x@) by {
        vstd::arithmetic::div_mod::lemma_small_mod(x@, u256_modulus());
    }
    vstd::arithmetic::div_mod::lemma_fundamental_div_mod_converse(
        x@ as int,
        two_pow_128() as int,
        x.hi as int,
        x.lo as int,
    );
}

pub proof fn lemma_view_of_u256_of(v: nat)
    ensures
        u256_of(v)@ == v % u256_modulus(),
{
    let w = v % u256_modulus();
    vstd::arithmetic::div_mod::lemma_fundamental_div_mod(w as int, two_pow_128() as int);
    assert(w / two_pow_128() < two_pow_128()) by {
        vstd::arithmetic::div_mod::lemma_div_is_ordered(
            w as int,
            u256_modulus() as int,
            two_pow_128() as int,
        );
        assert(u256_modulus() as int / two_pow_128() as int == two_pow_128());
    }
}

impl U256 {
    pub fn zero() -> (r: U256)
        ensures
            r@ == 0,
            r == (U256 { hi: 0, lo: 0 }),
            r == u256_of(0),
    {
        proof {
            lemma_u256_of_view(U256 { hi: 0, lo: 0 });
        }
        U256 { hi: 0, lo: 0 }
    }

    pub fn max_value() -> (r: U256)
        ensures
            r@ == u256_modulus() - 1,
    {
        U256 { hi: u128::MAX, lo: u128::MAX }
    }

    pub fn from_u64(v: u64) -> (r: U256)
        ensures
            r@ == v,
    {
        U256 { hi: 0, lo: v as u128 }
    }

    pub fn from_u128(v: u128) -> (r: U256)
        ensures
            r@ == v,
    {
        U256 { hi: 0, lo: v }
    }

    pub fn is_zero(&self) -> (r: bool)
        ensures
            r == (self@ == 0),
    {
        self.hi == 0 && self.lo == 0
    }

    /// `self < other`.
    pub fn lt(&self, other: &U256) -> (r: bool)
        ensures
            r == (self@ < other@),
    {
        self.hi < other.hi || (self.hi == other.hi && self.lo < other.lo)
    }

    /// `self <= other`.
    pub fn le(&self, other: &U256) -> (r: bool)
        ensures
            r == (self@ <= other@),
    {
        self.hi < other.hi || (self.hi == other.hi && self.lo <= other.lo)
    }

    /// `self == other`.
    pub fn same(&self, other: &U256) -> (r: bool)
        ensures
            r == (self@ == other@),
    {
        proof {
            if self@ == other@ {
                lemma_u256_view_injective(*self, *other);
            }
        }
        self.hi == other.hi && self.lo == other.lo
    }

    /// The smaller of two values.
    pub fn min(self, other: U256) -> (r: U256)
        ensures
            r@ == if self@ <= other@ { self@ } else { other@ },
            r == if self@ <= other@ { self } else { other },
    {
        if self.le(&other) {
            self
        } else {
            other
        }
    }

    /// `(self + other) mod 2^256`.
    pub fn wrapping_add(self, other: U256) -> (r: U256)
        ensures
            r@ == (self@ + other@) % u256_modulus(),
            r == u256_of(self@ + other@),
    {
        let (lo, carry) = if self.lo <= u128::MAX - other.lo {
            (self.lo + other.lo, 0u128)
        } else {
            (self.lo - (u128::MAX - other.lo) - 1, 1u128)
        };
        let h1 = if self.hi <= u128::MAX - other.hi {
            self.hi + other.hi
        } else {
            self.hi - (u128::MAX - other.hi) - 1
        };
        let hi = if h1 <= u128::MAX - carry {
            h1 + carry
        } else {
            0
        };
        let r = U256 { hi, lo };
        proof {
            lemma_u256_of_view(r);
            vstd::arithmetic::div_mod::lemma_mod_twice(
                (self@ + other@) as int,
                u256_modulus() as int,
            );
            let s = self@ + other@;
            let t = two_pow_128() as int;
            assert(self.lo + other.lo == lo + carry * t);
            if self.hi + other.hi + carry < t {
                assert(hi == self.hi + other.hi + carry);
                assert(r@ == s);
                vstd::arithmetic::div_mod::lemma_small_mod(s as nat, u256_modulus());
            } else {
                assert(hi == self.hi + other.hi + carry - t);
                assert(r@ == s - u256_modulus());
                vstd::arithmetic::div_mod::lemma_fundamental_div_mod_converse(
                    s as int,
                    u256_modulus() as int,
                    1,
                    r@ as int,
                );
            }
        }
        r
    }

    /// `(self - other) mod 2^256`.
    pub fn wrapping_sub(self, other: U256) -> (r: U256)
        ensures
            r@ == if self@ >= other@ {
                self@ - other@
            } else {
                self@ - other@ + u256_modulus()
            },
            r@ == (self@ + u256_modulus() - other@) % (u256_modulus() as int),
            r == u256_of((self@ + u256_modulus() - other@) as nat),
    {
        let (lo, borrow) = if self.lo >= other.lo {
            (self.lo - other.lo, 0u128)
        } else {
            (u128::MAX - (other.lo - self.lo) + 1, 1u128)
        };
        let hi = if self.hi >= other.hi && self.hi - other.hi >= borrow {
            self.hi - other.hi - borrow
        } else if self.hi < other.hi {
            (u128::MAX - other.hi) + self.hi + 1 - borrow
        } else {
            u128::MAX
        };
        let r = U256 { hi, lo };
        proof {
            lemma_u256_of_view(r);
            vstd::arithmetic::div_mod::lemma_mod_twice(
                self@ + u256_modulus() - other@,
                u256_modulus() as int,
            );
            let t = two_pow_128() as int;
            let m = u256_modulus() as int;
            assert(self.lo - other.lo == lo - borrow * t);
            if self.hi >= other.hi + borrow {
                assert(r@ == self@ - other@);
                vstd::arithmetic::div_mod::lemma_fundamental_div_mod_converse(
                    self@ + m - other@,
                    m,
                    1,
                    r@ as int,
                );
            } else {
                assert(hi == self.hi - other.hi - borrow + t);
                assert(r@ == self@ - other@ + m);
                vstd::arithmetic::div_mod::lemma_small_mod(
                    (self@ + m - other@) as nat,
                    m as nat,
                );
            }
        }
        r
    }

    /// `(self * other) mod 2^256`.
    pub fn wrapping_mul(self, other: U256) -> (r: U256)
        ensures
            r@ == (self@ * other@) % u256_modulus(),
    {
        ruint_wrapping_mul(self, other)
    }

    /// `self / other`, rounded down.
    pub fn checked_div(self, other: U256) -> (r: Option<U256>)
        ensures
            match r {
                Some(q) => other@ != 0 && q@ == self@ / other@,
                None => other@ == 0,
            },
    {
        if other.is_zero() {
            None
        } else {
            Some(ruint_div(self, other))
        }
    }

    /// The 32-byte big-endian encoding.
    pub fn to_be_bytes(&self) -> (r: Vec<u8>)
        ensures
            r@ == be_bytes(self@, 32),
            r@.len() == 32,
            be_value(r@) == self@,
    {
        let mut out: Vec<u8> = Vec::new();
        append_be(&mut out, self.hi, 16);
        append_be(&mut out, self.lo, 16);
        proof {
            let a = be_bytes(self.hi as nat, 16);
            let b = be_bytes(self.lo as nat, 16);
            assert(out@ =~= a + b);
            lemma_pow256_values();
            crate::bytes::lemma_be_bytes_len(self.hi as nat, 16);
            crate::bytes::lemma_be_bytes_len(self.lo as nat, 16);
            lemma_be_roundtrip_small(self.hi as nat, 16);
            lemma_be_roundtrip_small(self.lo as nat, 16);
            lemma_be_value_concat(a, b);
            lemma_be_bytes_of_value(out@);
        }
        out
    }

    /// The number that a big-endian byte string of at most 32 bytes denotes.
    pub fn from_be_slice(b: &[u8]) -> (r: U256)
        requires
            b@.len() <= 32,
        ensures
            r@ == be_value(b@),
    {
        let n = b.len();
        if n <= 16 {
            let lo = read_be(b, 0, n);
            proof {
                assert(b@.subrange(0, n as int) =~= b@);
            }
            U256 { hi: 0, lo }
        } else {
            let hi = read_be(b, 0, n - 16);
            let lo = read_be(b, n - 16, 16);
            proof {
                let x = b@.subrange(0, n - 16);
                let y = b@.subrange(n - 16, n as int);
                assert(b@ =~= x + y);
                lemma_be_value_concat(x, y);
                lemma_pow256_values();
            }
            U256 { hi, lo }
        }
    }
}

impl From<u64> for U256 {
    fn from(v: u64) -> (r: U256) {
        U256 { hi: 0, lo: v as u128 }
    }
}

impl vstd::std_specs::convert::FromSpecImpl<u64> for U256 {
    open spec fn obeys_from_spec() -> bool {
        true
    }

    open spec fn from_spec(v: u64) -> U256 {
        U256 { hi: 0, lo: v as u128 }
    }
}

/// Calls ruint's `Mul` on the two 256-bit values; ruint documents it as wrapping
/// multiplication, so the claim is that the result is the product modulo `2^256`.
#[verifier::external_body]
fn ruint_wrapping_mul(a: U256, b: U256) -> (r: U256)
    ensures
        r@ == (a@ * b@) % u256_modulus(),
{
    let x = alloy::primitives::U256::from_limbs([a.lo as u64, (a.lo >> 64) as u64, a.hi as u64, (a.hi >> 64) as u64]);
    let y = alloy::primitives::U256::from_limbs([b.lo as u64, (b.lo >> 64) as u64, b.hi as u64, (b.hi >> 64) as u64]);
    let l = (x * y).into_limbs();
    U256 { lo: (l[0] as u128) | ((l[1] as u128) << 64), hi: (l[2] as u128) | ((l[3] as u128) << 64) }
}

/// Calls ruint's `Div` on the two 256-bit values; ruint panics on a zero divisor,
/// which `requires` rules out, and otherwise returns the quotient rounded down.
#[verifier::external_body]
fn ruint_div(a: U256, b: U256) -> (r: U256)
    requires
        b@ != 0,
    ensures
        r@ == a@ / b@,
{
    let x = alloy::primitives::U256::from_limbs([a.lo as u64, (a.lo >> 64) as u64, a.hi as u64, (a.hi >> 64) as u64]);
    let y = alloy::primitives::U256::from_limbs([b.lo as u64, (b.lo >> 64) as u64, b.hi as u64, (b.hi >> 64) as u64]);
    let l = (x / y).into_limbs();
    U256 { lo: (l[0] as u128) | ((l[1] as u128) << 64), hi: (l[2] as u128) | ((l[3] as u128) << 64) }
}

} // verus!
