//! Fixed-size byte values: account addresses and 32-byte words.
use crate::bytes::{
    append_be, be_bytes, be_value, lemma_be_bytes_len, lemma_be_bytes_of_value,
    lemma_be_roundtrip_small, lemma_be_value_bound, lemma_be_value_concat, lemma_pow256_values,
    pow256, read_be,
};
use vstd::prelude::*;

verus! {

/// A 20-byte account address, held as its first 4 bytes and its last 16 bytes.
#[derive(Clone, Copy, Debug, PartialEq, Eq, Structural)]
pub struct Address {
    pub hi: u32,
    pub lo: u128,
}

impl View for Address {
    type V = Seq<u8>;

    open spec fn view(&self) -> Seq<u8> {
        be_bytes(self.hi as nat, 4) + be_bytes(self.lo as nat, 16)
    }
}

/// A 32-byte word (a hash, a nonce, a domain separator), held as two 16-byte halves.
#[derive(Clone, Copy, Debug, PartialEq, Eq, Structural)]
pub struct B256 {
    pub hi: u128,
    pub lo: u128,
}

impl View for B256 {
    type V = Seq<u8>;

    open spec fn view(&self) -> Seq<u8> {
        be_bytes(self.hi as nat, 16) + be_bytes(self.lo as nat, 16)
    }
}

proof fn lemma_halves(hi: nat, n: nat, lo: nat)
    requires
        n <= 16,
        hi < pow256(n),
        lo < pow256(16),
    ensures
        (be_bytes(hi, n) + be_bytes(lo, 16)).len() == n + 16,
        be_value(be_bytes(hi, n) + be_bytes(lo, 16)) == hi * pow256(16) + lo,
        be_bytes(hi, n) + be_bytes(lo, 16) == be_bytes(hi * pow256(16) + lo, n + 16),
{
    lemma_be_bytes_len(hi, n);
    lemma_be_bytes_len(lo, 16);
    lemma_be_roundtrip_small(hi, n);
    lemma_be_roundtrip_small(lo, 16);
    lemma_be_value_concat(be_bytes(hi, n), be_bytes(lo, 16));
    lemma_be_bytes_of_value(be_bytes(hi, n) + be_bytes(lo, 16));
}

impl Address {
    pub open spec fn spec_zero() -> Address {
        Address { hi: 0, lo: 0 }
    }

    pub fn zero() -> (r: Address)
        ensures
            r == Address::spec_zero(),
    {
        Address { hi: 0, lo: 0 }
    }

    /// The address whose first 19 bytes are zero and whose last byte is `b`.
    pub fn with_last_byte(b: u8) -> (r: Address)
        ensures
            r == (Address { hi: 0, lo: b as u128 }),
            r@.len() == 20,
            r@.last() == b,
            forall|i: int| 0 <= i < 19 ==> r@[i] == 0,
    {
        let r = Address { hi: 0, lo: b as u128 };
        proof {
            lemma_pow256_values();
            lemma_halves(0, 4, b as nat);
            lemma_be_bytes_len(0, 19);
            assert(be_bytes(b as nat, 20) =~= be_bytes(0, 19).push(b));
            lemma_zero_bytes(19);
        }
        r
    }

    /// The 20 bytes of the address.
    pub fn to_bytes(&self) -> (r: Vec<u8>)
        ensures
            r@ == self@,
            r@.len() == 20,
    {
        let mut out: Vec<u8> = Vec::new();
        append_be(&mut out, self.hi as u128, 4);
        append_be(&mut out, self.lo, 16);
        proof {
            lemma_be_bytes_len(self.hi as nat, 4);
            lemma_be_bytes_len(self.lo as nat, 16);
            assert(out@ =~= self@);
        }
        out
    }

    /// The address made of exactly 20 bytes.
    pub fn from_bytes(b: &[u8]) -> (r: Address)
        requires
            b@.len() == 20,
        ensures
            r@ == b@,
    {
        let hi = read_be(b, 0, 4);
        let lo = read_be(b, 4, 16);
        proof {
            let x = b@.subrange(0, 4);
            let y = b@.subrange(4, 20);
            assert(b@ =~= x + y);
            lemma_be_value_bound(x);
            lemma_be_value_bound(y);
            lemma_pow256_values();
            lemma_be_bytes_of_value(x);
            lemma_be_bytes_of_value(y);
        }
        Address { hi: hi as u32, lo }
    }
}

proof fn lemma_zero_bytes(n: nat)
    ensures
        forall|i: int| 0 <= i < n ==> be_bytes(0, n)[i] == 0,
    decreases n,
{
    lemma_be_bytes_len(0, n);
    if n > 0 {
        lemma_zero_bytes((n - 1) as nat);
        assert(be_bytes(0, n) == be_bytes(0, (n - 1) as nat).push(0u8));
    }
}

/// Equal byte views mean equal addresses.
pub proof fn lemma_address_view_injective(a: Address, b: Address)
    requires
        a@ == b@,
    ensures
        a == b,
{
    lemma_pow256_values();
    lemma_halves(a.hi as nat, 4, a.lo as nat);
    lemma_halves(b.hi as nat, 4, b.lo as nat);
    assert(a.hi * pow256(16) + a.lo == b.hi * pow256(16) + b.lo);
    if a.hi < b.hi {
        assert(a.hi * pow256(16) + a.lo < b.hi * pow256(16) + b.lo) by (nonlinear_arith)
            requires
                a.hi < b.hi,
                a.lo < pow256(16),
        ;
    } else if b.hi < a.hi {
        assert(b.hi * pow256(16) + b.lo < a.hi * pow256(16) + a.lo) by (nonlinear_arith)
            requires
                b.hi < a.hi,
                b.lo < pow256(16),
        ;
    }
}

/// Equal byte views mean equal words.
pub proof fn lemma_b256_view_injective(a: B256, b: B256)
    requires
        a@ == b@,
    ensures
        a == b,
{
    lemma_pow256_values();
    lemma_halves(a.hi as nat, 16, a.lo as nat);
    lemma_halves(b.hi as nat, 16, b.lo as nat);
    if a.hi < b.hi {
        assert(a.hi * pow256(16) + a.lo < b.hi * pow256(16) + b.lo) by (nonlinear_arith)
            requires
                a.hi < b.hi,
                a.lo < pow256(16),
        ;
    } else if b.hi < a.hi {
        assert(b.hi * pow256(16) + b.lo < a.hi * pow256(16) + a.lo) by (nonlinear_arith)
            requires
                b.hi < a.hi,
                b.lo < pow256(16),
        ;
    }
}

impl B256 {
    pub fn zero() -> (r: B256)
        ensures
            r == (B256 { hi: 0, lo: 0 }),
    {
        B256 { hi: 0, lo: 0 }
    }

    /// The 32 bytes of the word.
    pub fn to_bytes(&self) -> (r: Vec<u8>)
        ensures
            r@ == self@,
            r@.len() == 32,
    {
        let mut out: Vec<u8> = Vec::new();
        append_be(&mut out, self.hi, 16);
        append_be(&mut out, self.lo, 16);
        proof {
            lemma_be_bytes_len(self.hi as nat, 16);
            lemma_be_bytes_len(self.lo as nat, 16);
            assert(out@ =~= self@);
        }
        out
    }

    /// The word made of exactly 32 bytes.
    pub fn from_bytes(b: &[u8]) -> (r: B256)
        requires
            b@.len() == 32,
        ensures
            r@ == b@,
    {
        let hi = read_be(b, 0, 16);
        let lo = read_be(b, 16, 16);
        proof {
            let x = b@.subrange(0, 16);
            let y = b@.subrange(16, 32);
            assert(b@ =~= x + y);
            lemma_be_bytes_of_value(x);
            lemma_be_bytes_of_value(y);
        }
        B256 { hi, lo }
    }

    /// `self == other`.
    pub fn same(&self, other: &B256) -> (r: bool)
        ensures
            r == (*self == *other),
    {
        self.hi == other.hi && self.lo == other.lo
    }
}

impl Address {
    /// `self == other`.
    pub fn same(&self, other: &Address) -> (r: bool)
        ensures
            r == (*self == *other),
    {
        self.hi == other.hi && self.lo == other.lo
    }
}

} // verus!
