//! Big-endian byte encodings of unsigned integers.
use vstd::arithmetic::div_mod::{
    lemma_breakdown, lemma_fundamental_div_mod_converse, lemma_small_mod,
};
use vstd::prelude::*;

verus! {

/// `256^n`.
pub open spec fn pow256(n: nat) -> nat
    decreases n,
{
    if n == 0 {
        1
    } else {
        256 * pow256((n - 1) as nat)
    }
}

/// The `n` low-order bytes of `x`, most significant first.
pub open spec fn be_bytes(x: nat, n: nat) -> Seq<u8>
    decreases n,
{
    if n == 0 {
        Seq::empty()
    } else {
        be_bytes(x / 256, (n - 1) as nat).push((x % 256) as u8)
    }
}

/// The number that a big-endian byte string denotes.
pub open spec fn be_value(s: Seq<u8>) -> nat
    decreases s.len(),
{
    if s.len() == 0 {
        0
    } else {
        be_value(s.drop_last()) * 256 + s.last() as nat
    }
}

pub proof fn lemma_pow256_positive(n: nat)
    ensures
        pow256(n) > 0,
    decreases n,
{
    if n > 0 {
        lemma_pow256_positive((n - 1) as nat);
    }
}

pub proof fn lemma_pow256_values()
    ensures
        pow256(4) == 0x1_0000_0000,
        pow256(16) == 0x1_0000_0000_0000_0000_0000_0000_0000_0000,
        pow256(20) == 0x1_0000_0000_0000_0000_0000_0000_0000_0000_0000_0000,
        pow256(32) == 0x1_0000_0000_0000_0000_0000_0000_0000_0000_0000_0000_0000_0000_0000_0000_0000_0000,
{
    reveal_with_fuel(pow256, 21);
    lemma_pow256_adds(16, 16);
    let p = pow256(16);
    assert(p * p == 0x1_0000_0000_0000_0000_0000_0000_0000_0000_0000_0000_0000_0000_0000_0000_0000_0000)
        by (nonlinear_arith)
        requires
            p == 0x1_0000_0000_0000_0000_0000_0000_0000_0000,
    ;
}

pub proof fn lemma_pow256_adds(a: nat, b: nat)
    ensures
        pow256(a + b) == pow256(a) * pow256(b),
    decreases a,
{
    if a == 0 {
        assert(pow256(0) == 1);
    } else {
        lemma_pow256_adds((a - 1) as nat, b);
        assert(pow256(a) == 256 * pow256((a - 1) as nat));
        assert(pow256(a + b) == 256 * pow256((a - 1 + b) as nat));
        assert(256 * (pow256((a - 1) as nat) * pow256(b)) == (256 * pow256((a - 1) as nat))
            * pow256(b)) by (nonlinear_arith);
    }
}

pub proof fn lemma_be_bytes_len(x: nat, n: nat)
    ensures
        be_bytes(x, n).len() == n,
    decreases n,
{
    if n > 0 {
        lemma_be_bytes_len(x / 256, (n - 1) as nat);
    }
}

pub proof fn lemma_be_value_bound(s: Seq<u8>)
    ensures
        be_value(s) < pow256(s.len()),
    decreases s.len(),
{
    if s.len() > 0 {
        lemma_be_value_bound(s.drop_last());
        let a = be_value(s.drop_last());
        let p = pow256((s.len() - 1) as nat);
        assert(a * 256 + s.last() < p * 256) by (nonlinear_arith)
            requires
                a < p,
                s.last() < 256,
        ;
    }
}

/// Encoding then decoding gives back the number, reduced to `n` bytes.
pub proof fn lemma_be_value_of_bytes(x: nat, n: nat)
    ensures
        be_value(be_bytes(x, n)) == x % pow256(n),
    decreases n,
{
    lemma_pow256_positive(n);
    if n == 0 {
        assert(x % 1 == 0);
    } else {
        let p = pow256((n - 1) as nat);
        lemma_pow256_positive((n - 1) as nat);
        lemma_be_value_of_bytes(x / 256, (n - 1) as nat);
        let s = be_bytes(x, n);
        assert(s.drop_last() =~= be_bytes(x / 256, (n - 1) as nat));
        lemma_breakdown(x as int, 256, p as int);
        assert(256 * ((x / 256) % p) == ((x / 256) % p) * 256);
    }
}

/// A number below `256^n` survives encoding and decoding unchanged.
pub proof fn lemma_be_roundtrip_small(x: nat, n: nat)
    requires
        x < pow256(n),
    ensures
        be_value(be_bytes(x, n)) == x,
{
    lemma_be_value_of_bytes(x, n);
    lemma_pow256_positive(n);
    lemma_small_mod(x, pow256(n));
}

/// Decoding then encoding gives back the byte string.
pub proof fn lemma_be_bytes_of_value(s: Seq<u8>)
    ensures
        be_bytes(be_value(s), s.len()) == s,
    decreases s.len(),
{
    if s.len() == 0 {
        assert(be_bytes(be_value(s), 0) =~= s);
    } else {
        let t = s.drop_last();
        lemma_be_bytes_of_value(t);
        let v = be_value(s);
        let a = be_value(t);
        let b = s.last() as int;
        lemma_fundamental_div_mod_converse(v as int, 256, a as int, b);
        assert(v / 256 == a);
        assert(v % 256 == b);
        assert(be_bytes(v, s.len()) =~= t.push(s.last()));
        assert(t.push(s.last()) =~= s);
    }
}

/// The value of a concatenation.
pub proof fn lemma_be_value_concat(a: Seq<u8>, b: Seq<u8>)
    ensures
        be_value(a + b) == be_value(a) * pow256(b.len()) + be_value(b),
    decreases b.len(),
{
    if b.len() == 0 {
        assert(a + b =~= a);
        assert(pow256(0) == 1);
    } else {
        assert(pow256(b.len()) == 256 * pow256((b.len() - 1) as nat));
        let b2 = b.drop_last();
        lemma_be_value_concat(a, b2);
        assert((a + b).drop_last() =~= a + b2);
        assert((a + b).last() == b.last());
        let va = be_value(a);
        let p = pow256(b2.len());
        let vb2 = be_value(b2);
        assert((va * p + vb2) * 256 + b.last() == va * (256 * p) + (vb2 * 256 + b.last()))
            by (nonlinear_arith);
    }
}

/// Appends the `n` low-order bytes of `x`, most significant first.
pub fn append_be(out: &mut Vec<u8>, x: u128, n: usize)
    requires
        n <= 16,
    ensures
        final(out)@ == old(out)@ + be_bytes(x as nat, n as nat),
    decreases n,
{
    if n > 0 {
        append_be(out, x / 256, n - 1);
        let b = (x % 256) as u8;
        out.push(b);
        proof {
            let prev = old(out)@ + be_bytes((x / 256) as nat, (n - 1) as nat);
            assert(prev.push(b) =~= old(out)@ + be_bytes(x as nat, n as nat));
        }
    }
}

/// Reads `n` bytes starting at `start` as a big-endian number.
pub fn read_be(s: &[u8], start: usize, n: usize) -> (r: u128)
    requires
        n <= 16,
        start + n <= s@.len(),
    ensures
        r as nat == be_value(s@.subrange(start as int, start + n)),
{
    let mut acc: u128 = 0;
    let mut i: usize = 0;
    proof {
        lemma_pow256_values();
        assert(s@.subrange(start as int, start as int) =~= Seq::<u8>::empty());
    }
    while i < n
        invariant
            i <= n <= 16,
            start + n <= s@.len(),
            s@.len() == s.len(),
            acc as nat == be_value(s@.subrange(start as int, start + i)),
        decreases n - i,
    {
        let ghost sub = s@.subrange(start as int, start + i + 1);
        proof {
            assert(sub.drop_last() =~= s@.subrange(start as int, start + i));
            lemma_be_value_bound(s@.subrange(start as int, start + i));
            lemma_pow256_adds(i as nat, (16 - i) as nat);
            lemma_pow256_values();
            lemma_pow256_positive((16 - i) as nat);
            lemma_pow256_adds((i + 1) as nat, (15 - i) as nat);
            lemma_pow256_positive((15 - i) as nat);
            assert(pow256((i + 1) as nat) == 256 * pow256(i as nat));
            assert(pow256((i + 1) as nat) <= pow256(16)) by (nonlinear_arith)
                requires
                    pow256(16) == pow256((i + 1) as nat) * pow256((15 - i) as nat),
                    pow256((15 - i) as nat) > 0,
            ;
            assert(acc * 256 + 255 < pow256(16)) by (nonlinear_arith)
                requires
                    acc < pow256(i as nat),
                    pow256((i + 1) as nat) == 256 * pow256(i as nat),
                    pow256((i + 1) as nat) <= pow256(16),
            ;
        }
        acc = acc * 256 + s[start + i] as u128;
        i = i + 1;
    }
    acc
}

} // verus!
