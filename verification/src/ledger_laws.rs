//! Properties of the ledger's balance moves.
use crate::ledger::{add_u256, balance_in, released, reserved, settle_spec, sub_u256, TokenBalance};
use crate::primitives::Address;
use crate::uint::{lemma_u256_bound, lemma_u256_view_injective, lemma_view_of_u256_of, u256_modulus, U256};
use vstd::arithmetic::div_mod::{lemma_add_mod_noop, lemma_mod_add_multiples_vanish};
use vstd::prelude::*;

verus! {

/// Available plus reserved, modulo `2^256`, as [`crate::ledger::Ledger::total`] reports it.
pub open spec fn total_in(m: Map<(Address, Address), TokenBalance>, user: Address, token: Address) -> U256 {
    add_u256(balance_in(m, user, token).available, balance_in(m, user, token).reserved)
}

/// The number of `add_u256(a, b)`.
proof fn lemma_add_view(a: U256, b: U256)
    ensures
        add_u256(a, b)@ == (a@ + b@) % u256_modulus(),
{
    lemma_view_of_u256_of(a@ + b@);
}

/// The number of `sub_u256(a, b)`.
proof fn lemma_sub_view(a: U256, b: U256)
    ensures
        sub_u256(a, b)@ == ((a@ + u256_modulus() - b@) as nat) % u256_modulus(),
{
    lemma_u256_bound(b);
    lemma_view_of_u256_of((a@ + u256_modulus() - b@) as nat);
}

/// `x - y + y` is `x` modulo `2^256`.
proof fn lemma_sub_add(x: U256, y: U256)
    ensures
        add_u256(sub_u256(x, y), y) == x,
        sub_u256(add_u256(x, y), y) == x,
{
    let m = u256_modulus() as int;
    lemma_u256_bound(x);
    lemma_u256_bound(y);
    lemma_sub_view(x, y);
    lemma_add_view(sub_u256(x, y), y);
    lemma_add_mod_noop(x@ + m - y@, y@ as int, m);
    vstd::arithmetic::div_mod::lemma_small_mod(y@, m as nat);
    lemma_mod_add_multiples_vanish(x@ as int, m);
    vstd::arithmetic::div_mod::lemma_small_mod(x@, m as nat);
    assert(add_u256(sub_u256(x, y), y)@ == x@);
    lemma_u256_view_injective(add_u256(sub_u256(x, y), y), x);
    lemma_add_view(x, y);
    lemma_sub_view(add_u256(x, y), y);
    vstd::arithmetic::div_mod::lemma_add_mod_noop_right(m - y@, (x@ + y@) as int, m);
    assert(sub_u256(add_u256(x, y), y)@ == x@);
    lemma_u256_view_injective(sub_u256(add_u256(x, y), y), x);
}

/// Moving `y` from one summand to the other keeps the sum modulo `2^256`.
proof fn lemma_shift(a: U256, r: U256, y: U256)
    ensures
        add_u256(sub_u256(a, y), add_u256(r, y)) == add_u256(a, r),
        add_u256(add_u256(a, y), sub_u256(r, y)) == add_u256(a, r),
{
    let m = u256_modulus() as int;
    lemma_u256_bound(a);
    lemma_u256_bound(r);
    lemma_u256_bound(y);
    lemma_sub_view(a, y);
    lemma_add_view(r, y);
    lemma_add_view(a, r);
    lemma_add_view(sub_u256(a, y), add_u256(r, y));
    lemma_add_mod_noop(a@ + m - y@, (r@ + y@) as int, m);
    lemma_mod_add_multiples_vanish((a@ + r@) as int, m);
    assert(add_u256(sub_u256(a, y), add_u256(r, y))@ == add_u256(a, r)@);
    lemma_u256_view_injective(add_u256(sub_u256(a, y), add_u256(r, y)), add_u256(a, r));
    lemma_add_view(a, y);
    lemma_sub_view(r, y);
    lemma_add_view(add_u256(a, y), sub_u256(r, y));
    lemma_add_mod_noop((a@ + y@) as int, r@ + m - y@, m);
    assert(add_u256(add_u256(a, y), sub_u256(r, y))@ == add_u256(a, r)@);
    lemma_u256_view_injective(add_u256(add_u256(a, y), sub_u256(r, y)), add_u256(a, r));
}

/// Releasing what a successful reserve locked gives back the balance as it
/// was, and touches no other balance.
pub proof fn law_release_undoes_reserve(
    m: Map<(Address, Address), TokenBalance>,
    user: Address,
    token: Address,
    amount: U256,
)
    requires
        balance_in(m, user, token).available@ >= amount@,
    ensures
        released(reserved(m, user, token, amount), user, token, amount) == m.insert(
            (user, token),
            balance_in(m, user, token),
        ),
{
    let b = balance_in(m, user, token);
    lemma_sub_add(b.available, amount);
    lemma_sub_add(b.reserved, amount);
    assert(released(reserved(m, user, token, amount), user, token, amount) =~= m.insert(
        (user, token),
        b,
    ));
}

/// A reserve or a release only moves tokens between available and reserved:
/// the total is unchanged, and so is every other balance.
pub proof fn law_reserve_and_release_keep_total(
    m: Map<(Address, Address), TokenBalance>,
    user: Address,
    token: Address,
    amount: U256,
)
    ensures
        total_in(reserved(m, user, token, amount), user, token) == total_in(m, user, token),
        total_in(released(m, user, token, amount), user, token) == total_in(m, user, token),
        forall|k: (Address, Address)|
            k != (user, token) ==> balance_in(reserved(m, user, token, amount), k.0, k.1)
                == balance_in(m, k.0, k.1) && balance_in(released(m, user, token, amount), k.0, k.1)
                == balance_in(m, k.0, k.1),
{
    let b = balance_in(m, user, token);
    lemma_shift(b.available, b.reserved, amount);
}

/// In each token the seller's and the buyer's totals add up, modulo
/// `2^256`, to what they did before; when the seller is the buyer, that
/// user's total in each token is what it was; and no other balance changes.
pub open spec fn settle_conserves(
    m: Map<(Address, Address), TokenBalance>,
    seller: Address,
    buyer: Address,
    base_token: Address,
    quote_token: Address,
    base_amount: U256,
    quote_amount: U256,
) -> bool {
    let m2 = settle_spec(m, seller, buyer, base_token, quote_token, base_amount, quote_amount);
    &&& add_u256(total_in(m2, seller, base_token), total_in(m2, buyer, base_token)) == add_u256(
        total_in(m, seller, base_token),
        total_in(m, buyer, base_token),
    )
    &&& add_u256(total_in(m2, seller, quote_token), total_in(m2, buyer, quote_token)) == add_u256(
        total_in(m, seller, quote_token),
        total_in(m, buyer, quote_token),
    )
    &&& seller == buyer ==> total_in(m2, seller, base_token) == total_in(m, seller, base_token)
        && total_in(m2, seller, quote_token) == total_in(m, seller, quote_token)
    &&& forall|k: (Address, Address)|
        k != (seller, base_token) && k != (seller, quote_token) && k != (buyer, base_token) && k != (
        buyer,
        quote_token,
    ) ==> balance_in(m2, k.0, k.1) == balance_in(m, k.0, k.1)
}

/// Settling a fill moves tokens between the seller and the buyer and creates
/// or destroys none: in each token the two users' totals add up, modulo
/// `2^256`, to what they did before; a user who is both seller and buyer
/// keeps its total in each token; and no other balance changes.
pub proof fn law_settle_conserves_tokens(
    m: Map<(Address, Address), TokenBalance>,
    seller: Address,
    buyer: Address,
    base_token: Address,
    quote_token: Address,
    base_amount: U256,
    quote_amount: U256,
)
    ensures
        settle_conserves(m, seller, buyer, base_token, quote_token, base_amount, quote_amount),
{
    if seller != buyer && base_token != quote_token {
        lemma_settle_distinct(m, seller, buyer, base_token, quote_token, base_amount, quote_amount);
    } else if seller == buyer && base_token != quote_token {
        lemma_settle_one_user(m, seller, base_token, quote_token, base_amount, quote_amount);
    } else if seller != buyer {
        lemma_settle_one_token(m, seller, buyer, base_token, base_amount, quote_amount);
    } else {
        lemma_settle_one_balance(m, seller, base_token, base_amount, quote_amount);
    }
}

proof fn lemma_settle_distinct(
    m: Map<(Address, Address), TokenBalance>,
    seller: Address,
    buyer: Address,
    base_token: Address,
    quote_token: Address,
    base_amount: U256,
    quote_amount: U256,
)
    requires
        seller != buyer,
        base_token != quote_token,
    ensures
        settle_conserves(m, seller, buyer, base_token, quote_token, base_amount, quote_amount),
{
    let sb = balance_in(m, seller, base_token);
    let sq = balance_in(m, seller, quote_token);
    let bq = balance_in(m, buyer, quote_token);
    let bb = balance_in(m, buyer, base_token);
    // totals after the fill, each one moved by the amount that changed hands
    let ts = add_u256(sb.available, sub_u256(sb.reserved, base_amount));
    let tb = add_u256(add_u256(bb.available, base_amount), bb.reserved);
    let tsq = add_u256(add_u256(sq.available, quote_amount), sq.reserved);
    let tbq = add_u256(bq.available, sub_u256(bq.reserved, quote_amount));
    let m2 = settle_spec(m, seller, buyer, base_token, quote_token, base_amount, quote_amount);
    assert(total_in(m2, seller, base_token) == ts);
    assert(total_in(m2, buyer, base_token) == tb);
    assert(total_in(m2, seller, quote_token) == tsq);
    assert(total_in(m2, buyer, quote_token) == tbq);
    lemma_pair_shift(add_u256(sb.available, sb.reserved), add_u256(bb.available, bb.reserved), sb.available, sb.reserved, bb.available, bb.reserved, base_amount);
    lemma_pair_shift(add_u256(bq.available, bq.reserved), add_u256(sq.available, sq.reserved), bq.available, bq.reserved, sq.available, sq.reserved, quote_amount);
    lemma_add_comm(tbq, tsq);
    lemma_add_comm(add_u256(bq.available, bq.reserved), add_u256(sq.available, sq.reserved));
    assert(add_u256(tsq, tbq) == add_u256(total_in(m, seller, quote_token), total_in(m, buyer, quote_token)));
}

proof fn lemma_settle_one_user(
    m: Map<(Address, Address), TokenBalance>,
    user: Address,
    base_token: Address,
    quote_token: Address,
    base_amount: U256,
    quote_amount: U256,
)
    requires
        base_token != quote_token,
    ensures
        settle_conserves(m, user, user, base_token, quote_token, base_amount, quote_amount),
{
    let sb = balance_in(m, user, base_token);
    let sq = balance_in(m, user, quote_token);
    // each token moves between the user's reserved and available balance
    lemma_shift(sb.available, sb.reserved, base_amount);
    lemma_shift(sq.available, sq.reserved, quote_amount);
}

proof fn lemma_settle_one_token(
    m: Map<(Address, Address), TokenBalance>,
    seller: Address,
    buyer: Address,
    token: Address,
    base_amount: U256,
    quote_amount: U256,
)
    requires
        seller != buyer,
    ensures
        settle_conserves(m, seller, buyer, token, token, base_amount, quote_amount),
{
    let s = balance_in(m, seller, token);
    let b = balance_in(m, buyer, token);
    lemma_cross_shift(s.available, s.reserved, b.available, b.reserved, base_amount, quote_amount);
}

proof fn lemma_settle_one_balance(
    m: Map<(Address, Address), TokenBalance>,
    user: Address,
    token: Address,
    base_amount: U256,
    quote_amount: U256,
)
    ensures
        settle_conserves(m, user, user, token, token, base_amount, quote_amount),
{
    let b = balance_in(m, user, token);
    lemma_double_shift(b.available, b.reserved, base_amount, quote_amount);
}

proof fn lemma_add_comm(a: U256, b: U256)
    ensures
        add_u256(a, b) == add_u256(b, a),
{
    assert(a@ + b@ == b@ + a@);
}

/// When one user's reserved side loses `y` and another's available side
/// gains `y`, the sum of their totals is unchanged modulo `2^256`.
proof fn lemma_pair_shift(t1: U256, t2: U256, a1: U256, r1: U256, a2: U256, r2: U256, y: U256)
    requires
        t1 == add_u256(a1, r1),
        t2 == add_u256(a2, r2),
    ensures
        add_u256(add_u256(a1, sub_u256(r1, y)), add_u256(add_u256(a2, y), r2)) == add_u256(t1, t2),
{
    let m = u256_modulus() as int;
    lemma_u256_bound(a1);
    lemma_u256_bound(r1);
    lemma_u256_bound(a2);
    lemma_u256_bound(r2);
    lemma_u256_bound(y);
    let u = add_u256(a1, sub_u256(r1, y));
    let v = add_u256(add_u256(a2, y), r2);
    lemma_sub_view(r1, y);
    lemma_add_view(a1, sub_u256(r1, y));
    lemma_add_mod_noop(a1@ as int, r1@ + m - y@, m);
    vstd::arithmetic::div_mod::lemma_small_mod(a1@, m as nat);
    assert(u@ == (a1@ + r1@ + m - y@) % m);
    lemma_add_view(a2, y);
    lemma_add_view(add_u256(a2, y), r2);
    lemma_add_mod_noop((a2@ + y@) as int, r2@ as int, m);
    vstd::arithmetic::div_mod::lemma_small_mod(r2@, m as nat);
    assert(v@ == ((a2@ + y@ + r2@) as int) % m);
    lemma_add_view(u, v);
    lemma_add_mod_noop(a1@ + r1@ + m - y@, (a2@ + y@ + r2@) as int, m);
    assert(add_u256(u, v)@ == (m + (a1@ + r1@ + a2@ + r2@)) % m);
    lemma_mod_add_multiples_vanish((a1@ + r1@ + a2@ + r2@) as int, m);
    lemma_add_view(a1, r1);
    lemma_add_view(a2, r2);
    lemma_add_view(t1, t2);
    lemma_add_mod_noop((a1@ + r1@) as int, (a2@ + r2@) as int, m);
    assert(add_u256(u, v)@ == add_u256(t1, t2)@);
    lemma_u256_view_injective(add_u256(u, v), add_u256(t1, t2));
}


/// One user pays `x` and receives `y` of a token, the other pays `y` and
/// receives `x`: the sum of their totals is unchanged modulo `2^256`.
proof fn lemma_cross_shift(a1: U256, r1: U256, a2: U256, r2: U256, x: U256, y: U256)
    ensures
        add_u256(
            add_u256(add_u256(a1, y), sub_u256(r1, x)),
            add_u256(add_u256(a2, x), sub_u256(r2, y)),
        ) == add_u256(add_u256(a1, r1), add_u256(a2, r2)),
{
    let m = u256_modulus() as int;
    lemma_u256_bound(a1);
    lemma_u256_bound(r1);
    lemma_u256_bound(a2);
    lemma_u256_bound(r2);
    lemma_u256_bound(x);
    lemma_u256_bound(y);
    let p = add_u256(add_u256(a1, y), sub_u256(r1, x));
    let q = add_u256(add_u256(a2, x), sub_u256(r2, y));
    lemma_add_view(a1, y);
    lemma_sub_view(r1, x);
    lemma_add_view(add_u256(a1, y), sub_u256(r1, x));
    lemma_add_mod_noop((a1@ + y@) as int, r1@ + m - x@, m);
    assert(p@ == (a1@ + y@ + r1@ + m - x@) % m);
    lemma_add_view(a2, x);
    lemma_sub_view(r2, y);
    lemma_add_view(add_u256(a2, x), sub_u256(r2, y));
    lemma_add_mod_noop((a2@ + x@) as int, r2@ + m - y@, m);
    assert(q@ == (a2@ + x@ + r2@ + m - y@) % m);
    lemma_add_view(p, q);
    lemma_add_mod_noop(a1@ + y@ + r1@ + m - x@, a2@ + x@ + r2@ + m - y@, m);
    let base = (a1@ + r1@ + a2@ + r2@) as int;
    assert(add_u256(p, q)@ == (m * 2 + base) % m);
    vstd::arithmetic::div_mod::lemma_mod_multiples_vanish(2, base, m);
    lemma_add_view(a1, r1);
    lemma_add_view(a2, r2);
    lemma_add_view(add_u256(a1, r1), add_u256(a2, r2));
    lemma_add_mod_noop((a1@ + r1@) as int, (a2@ + r2@) as int, m);
    assert(add_u256(p, q)@ == add_u256(add_u256(a1, r1), add_u256(a2, r2))@);
    lemma_u256_view_injective(add_u256(p, q), add_u256(add_u256(a1, r1), add_u256(a2, r2)));
}

/// A user who both pays and receives `x` and `y` of the same token keeps its total.
proof fn lemma_double_shift(a: U256, r: U256, x: U256, y: U256)
    ensures
        add_u256(add_u256(add_u256(a, y), x), sub_u256(sub_u256(r, x), y)) == add_u256(a, r),
{
    let m = u256_modulus() as int;
    lemma_u256_bound(a);
    lemma_u256_bound(r);
    lemma_u256_bound(x);
    lemma_u256_bound(y);
    let u = add_u256(add_u256(a, y), x);
    let v = sub_u256(sub_u256(r, x), y);
    lemma_add_view(a, y);
    lemma_add_view(add_u256(a, y), x);
    lemma_add_mod_noop((a@ + y@) as int, x@ as int, m);
    vstd::arithmetic::div_mod::lemma_small_mod(x@, m as nat);
    assert(u@ == ((a@ + y@ + x@) as int) % m);
    lemma_sub_view(r, x);
    lemma_sub_view(sub_u256(r, x), y);
    lemma_add_mod_noop(r@ + m - x@, m - y@, m);
    assert(v@ == (r@ + m - x@ + m - y@) % m) by {
        vstd::arithmetic::div_mod::lemma_add_mod_noop_right(m - y@, r@ + m - x@, m);
    }
    lemma_add_view(u, v);
    lemma_add_mod_noop((a@ + y@ + x@) as int, r@ + m - x@ + m - y@, m);
    let base = (a@ + r@) as int;
    assert(add_u256(u, v)@ == (m * 2 + base) % m);
    vstd::arithmetic::div_mod::lemma_mod_multiples_vanish(2, base, m);
    lemma_add_view(a, r);
    assert(add_u256(u, v)@ == add_u256(a, r)@);
    lemma_u256_view_injective(add_u256(u, v), add_u256(a, r));
}

} // verus!
