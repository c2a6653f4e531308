//! Off-chain balances: what each user has available and what open orders hold.
use crate::primitives::Address;
use crate::uint::{lemma_u256_of_view, u256_modulus, u256_of, U256};
use std::collections::HashMap;
use vstd::prelude::*;

verus! {

broadcast use vstd::std_specs::hash::group_hash_axioms;

/// The balance of one user in one token.
#[derive(Clone, Copy, Debug, PartialEq, Eq, Structural)]
pub struct TokenBalance {
    pub available: U256,
    pub reserved: U256,
}

impl TokenBalance {
    /// Available plus reserved, modulo `2^256`.
    pub fn total(&self) -> (r: U256)
        ensures
            r == add_u256(self.available, self.reserved),
    {
        let t = self.available.wrapping_add(self.reserved);
        proof {
            lemma_u256_of_view(t);
        }
        t
    }
}

#[derive(Clone, Copy, Debug, PartialEq, Eq, Structural)]
struct LedgerEntry {
    user: Address,
    token: Address,
    balance: TokenBalance,
}

/// Balances by (user, token), kept as buckets keyed by the low 128 bits of
/// the user's address; each bucket lists the entries of the users with that key.
#[derive(Debug)]
pub struct Ledger {
    buckets: HashMap<u128, Vec<LedgerEntry>>,
}

/// `a + b` modulo `2^256`.
pub open spec fn add_u256(a: U256, b: U256) -> U256 {
    u256_of(a@ + b@)
}

/// `a - b` modulo `2^256`.
pub open spec fn sub_u256(a: U256, b: U256) -> U256 {
    u256_of((a@ + u256_modulus() - b@) as nat)
}

pub open spec fn zero_balance() -> TokenBalance {
    TokenBalance { available: u256_of(0), reserved: u256_of(0) }
}

/// The balance that `m` records for `(user, token)`, zero where it records none.
pub open spec fn balance_in(m: Map<(Address, Address), TokenBalance>, user: Address, token: Address) -> TokenBalance {
    if m.contains_key((user, token)) {
        m[(user, token)]
    } else {
        zero_balance()
    }
}

spec fn is_first_key(s: Seq<LedgerEntry>, k: (Address, Address), i: int) -> bool {
    &&& 0 <= i < s.len()
    &&& (s[i].user, s[i].token) == k
    &&& forall|j: int| 0 <= j < i ==> (#[trigger] s[j].user, s[j].token) != k
}

spec fn has_key(s: Seq<LedgerEntry>, k: (Address, Address)) -> bool {
    exists|i: int| is_first_key(s, k, i)
}

spec fn first_key(s: Seq<LedgerEntry>, k: (Address, Address)) -> int {
    choose|i: int| is_first_key(s, k, i)
}

spec fn entries_map(s: Seq<LedgerEntry>) -> Map<(Address, Address), TokenBalance> {
    Map::new(|k: (Address, Address)| has_key(s, k), |k: (Address, Address)| s[first_key(s, k)].balance)
}

proof fn lemma_first_key_unique(s: Seq<LedgerEntry>, k: (Address, Address), i: int)
    requires
        is_first_key(s, k, i),
    ensures
        has_key(s, k),
        first_key(s, k) == i,
{
    let c = first_key(s, k);
    if c < i {
        assert((s[c].user, s[c].token) != k);
    } else if i < c {
        assert((s[i].user, s[i].token) != k);
    }
}

proof fn lemma_update_entry(s: Seq<LedgerEntry>, i: int, b: TokenBalance)
    requires
        0 <= i < s.len(),
        is_first_key(s, (s[i].user, s[i].token), i),
    ensures
        entries_map(s.update(i, LedgerEntry { balance: b, ..s[i] })) == entries_map(s).insert(
            (s[i].user, s[i].token),
            b,
        ),
{
    let k = (s[i].user, s[i].token);
    let t = s.update(i, LedgerEntry { balance: b, ..s[i] });
    assert forall|k2: (Address, Address)| #![auto] has_key(t, k2) == has_key(s, k2) && (has_key(
        t,
        k2,
    ) ==> first_key(t, k2) == first_key(s, k2)) by {
        if has_key(s, k2) {
            let j = first_key(s, k2);
            assert(is_first_key(t, k2, j));
            lemma_first_key_unique(t, k2, j);
        }
        if has_key(t, k2) {
            let j = first_key(t, k2);
            assert forall|q: int| 0 <= q < j implies (#[trigger] s[q].user, s[q].token) != k2 by {
                assert(t[q].user == s[q].user && t[q].token == s[q].token);
            }
            assert(is_first_key(s, k2, j));
            lemma_first_key_unique(s, k2, j);
        }
    }
    lemma_first_key_unique(s, k, i);
    assert(entries_map(t) =~= entries_map(s).insert(k, b));
}

proof fn lemma_push_entry(s: Seq<LedgerEntry>, e: LedgerEntry)
    requires
        !has_key(s, (e.user, e.token)),
    ensures
        entries_map(s.push(e)) == entries_map(s).insert((e.user, e.token), e.balance),
{
    let k = (e.user, e.token);
    let t = s.push(e);
    assert(is_first_key(t, k, s.len() as int)) by {
        assert forall|j: int| 0 <= j < s.len() implies (#[trigger] t[j].user, t[j].token) != k by {
            if (s[j].user, s[j].token) == k {
                lemma_least_key(s, k, j);
            }
        }
    }
    lemma_first_key_unique(t, k, s.len() as int);
    assert forall|k2: (Address, Address)| k2 != k implies #[trigger] has_key(t, k2) == has_key(s, k2)
        && (has_key(t, k2) ==> first_key(t, k2) == first_key(s, k2)) by {
        if has_key(s, k2) {
            let j = first_key(s, k2);
            assert(is_first_key(t, k2, j));
            lemma_first_key_unique(t, k2, j);
        }
        if has_key(t, k2) {
            let j = first_key(t, k2);
            assert forall|q: int| 0 <= q < j implies (#[trigger] s[q].user, s[q].token) != k2 by {
                assert(t[q].user == s[q].user && t[q].token == s[q].token);
            }
            assert(is_first_key(s, k2, j));
            lemma_first_key_unique(s, k2, j);
        }
    }
    assert(entries_map(t) =~= entries_map(s).insert(k, e.balance));
}

proof fn lemma_least_key(s: Seq<LedgerEntry>, k: (Address, Address), j: int)
    requires
        0 <= j < s.len(),
        (s[j].user, s[j].token) == k,
    ensures
        has_key(s, k),
    decreases j,
{
    if exists|q: int| 0 <= q < j && (#[trigger] s[q].user, s[q].token) == k {
        let q = choose|q: int| 0 <= q < j && (#[trigger] s[q].user, s[q].token) == k;
        lemma_least_key(s, k, q);
    } else {
        assert(is_first_key(s, k, j));
    }
}

/// The entries kept under key `lo`; none where there is no such bucket.
spec fn bucket(m: Map<u128, Vec<LedgerEntry>>, lo: u128) -> Seq<LedgerEntry> {
    if m.contains_key(lo) {
        m[lo]@
    } else {
        Seq::empty()
    }
}

/// The balance `entries` record for `(user, token)`.
fn bucket_find(entries: &Vec<LedgerEntry>, user: Address, token: Address) -> (r: Option<TokenBalance>)
    ensures
        r == (if entries_map(entries@).contains_key((user, token)) {
            Some(entries_map(entries@)[(user, token)])
        } else {
            None
        }),
{
    let mut i: usize = 0;
    while i < entries.len()
        invariant
            i <= entries@.len(),
            forall|j: int| 0 <= j < i ==> (#[trigger] entries@[j].user, entries@[j].token) != (user, token),
        decreases entries@.len() - i,
    {
        if entries[i].user.same(&user) && entries[i].token.same(&token) {
            proof {
                lemma_first_key_unique(entries@, (user, token), i as int);
            }
            return Some(entries[i].balance);
        }
        i = i + 1;
    }
    proof {
        if has_key(entries@, (user, token)) {
            let j = first_key(entries@, (user, token));
            assert((entries@[j].user, entries@[j].token) == (user, token));
        }
    }
    None
}

/// Records `balance` for `(user, token)` in `entries`.
fn bucket_put(entries: &mut Vec<LedgerEntry>, user: Address, token: Address, balance: TokenBalance)
    ensures
        entries_map(final(entries)@) == entries_map(old(entries)@).insert((user, token), balance),
{
    let mut i: usize = 0;
    while i < entries.len()
        invariant
            i <= entries@.len(),
            entries@ == old(entries)@,
            forall|j: int| 0 <= j < i ==> (#[trigger] entries@[j].user, entries@[j].token) != (user, token),
        decreases entries@.len() - i,
    {
        if entries[i].user.same(&user) && entries[i].token.same(&token) {
            let e = entries[i];
            proof {
                assert(is_first_key(entries@, (user, token), i as int));
                lemma_update_entry(entries@, i as int, balance);
            }
            entries.set(i, LedgerEntry { balance, ..e });
            return;
        }
        i = i + 1;
    }
    proof {
        if has_key(entries@, (user, token)) {
            let j = first_key(entries@, (user, token));
            assert((entries@[j].user, entries@[j].token) == (user, token));
        }
    }
    let e = LedgerEntry { user, token, balance };
    proof {
        lemma_push_entry(entries@, e);
    }
    entries.push(e);
}

impl View for Ledger {
    type V = Map<(Address, Address), TokenBalance>;

    closed spec fn view(&self) -> Map<(Address, Address), TokenBalance> {
        Map::new(
            |k: (Address, Address)| entries_map(bucket(self.buckets@, k.0.lo)).contains_key(k),
            |k: (Address, Address)| entries_map(bucket(self.buckets@, k.0.lo))[k],
        )
    }
}

impl Ledger {
    pub fn new() -> (r: Ledger)
        ensures
            r@ == Map::<(Address, Address), TokenBalance>::empty(),
    {
        let r = Ledger { buckets: HashMap::new() };
        proof {
            assert forall|k: (Address, Address)| !#[trigger] has_key(Seq::<LedgerEntry>::empty(), k) by {}
            assert(r@ =~= Map::<(Address, Address), TokenBalance>::empty());
        }
        r
    }

    /// Sets the whole balance of `user` in `token`, as it was stored.
    pub fn set_balance(&mut self, user: Address, token: Address, balance: TokenBalance)
        ensures
            final(self)@ == old(self)@.insert((user, token), balance),
    {
        let ghost pre = self.buckets@;
        let mut entries = match self.buckets.remove(&user.lo) {
            Some(v) => v,
            None => Vec::new(),
        };
        proof {
            assert(entries@ == bucket(pre, user.lo));
        }
        bucket_put(&mut entries, user, token, balance);
        self.buckets.insert(user.lo, entries);
        proof {
            assert forall|k: (Address, Address)| k.0.lo != user.lo implies bucket(self.buckets@, k.0.lo)
                == #[trigger] bucket(pre, k.0.lo) by {}
            assert(self@ =~= old(self)@.insert((user, token), balance));
        }
    }

    /// The ledger holding the stored balances, a later row for the same
    /// (user, token) replacing an earlier one.
    pub fn from_balances(rows: &Vec<BalanceRow>) -> (r: Ledger)
        ensures
            r@ == stored_balances(rows@, rows@.len()),
    {
        let mut ledger = Ledger::new();
        let mut i: usize = 0;
        while i < rows.len()
            invariant
                i <= rows@.len(),
                ledger@ == stored_balances(rows@, i as nat),
            decreases rows@.len() - i,
        {
            let row = rows[i];
            ledger.set_balance(row.user, row.token, TokenBalance { available: row.available, reserved: row.reserved });
            i = i + 1;
        }
        ledger
    }

    /// Adds `amount` to what `user` has available in `token`.
    pub fn credit(&mut self, user: Address, token: Address, amount: U256)
        ensures
            final(self)@ == old(self)@.insert(
                (user, token),
                TokenBalance {
                    available: add_u256(balance_in(old(self)@, user, token).available, amount),
                    ..balance_in(old(self)@, user, token)
                },
            ),
    {
        let b = self.balance(user, token);
        let available = b.available.wrapping_add(amount);
        proof {
            lemma_u256_of_view(available);
        }
        self.set_balance(user, token, TokenBalance { available, ..b });
    }

    /// Moves `amount` from available to reserved; false, with nothing moved,
    /// when less than `amount` is available.
    pub fn reserve(&mut self, user: Address, token: Address, amount: U256) -> (r: bool)
        ensures
            ({
                let b = balance_in(old(self)@, user, token);
                &&& r == (b.available@ >= amount@)
                &&& r ==> final(self)@ == reserved(old(self)@, user, token, amount)
                &&& !r ==> final(self)@ == old(self)@.insert((user, token), b)
            }),
    {
        let b = self.balance(user, token);
        if b.available.lt(&amount) {
            self.set_balance(user, token, b);
            return false;
        }
        let available = b.available.wrapping_sub(amount);
        let reserved = b.reserved.wrapping_add(amount);
        proof {
            lemma_u256_of_view(available);
            lemma_u256_of_view(reserved);
        }
        self.set_balance(user, token, TokenBalance { available, reserved });
        true
    }

    /// Moves `amount` from reserved back to available.
    pub fn release(&mut self, user: Address, token: Address, amount: U256)
        ensures
            final(self)@ == released(old(self)@, user, token, amount),
    {
        let b = self.balance(user, token);
        let reserved = b.reserved.wrapping_sub(amount);
        let available = b.available.wrapping_add(amount);
        proof {
            lemma_u256_of_view(available);
            lemma_u256_of_view(reserved);
        }
        self.set_balance(user, token, TokenBalance { available, reserved });
    }

    /// Settles one fill: the seller's reserved base pays for the buyer's
    /// reserved quote, and each side receives the other's tokens as available.
    pub fn settle_fill(
        &mut self,
        seller: Address,
        buyer: Address,
        base_token: Address,
        quote_token: Address,
        base_amount: U256,
        quote_amount: U256,
    )
        ensures
            final(self)@ == settle_spec(
                old(self)@,
                seller,
                buyer,
                base_token,
                quote_token,
                base_amount,
                quote_amount,
            ),
    {
        let b = self.balance(seller, base_token);
        let reserved = b.reserved.wrapping_sub(base_amount);
        proof {
            lemma_u256_of_view(reserved);
        }
        self.set_balance(seller, base_token, TokenBalance { reserved, ..b });
        self.credit(seller, quote_token, quote_amount);
        let b = self.balance(buyer, quote_token);
        let reserved = b.reserved.wrapping_sub(quote_amount);
        proof {
            lemma_u256_of_view(reserved);
        }
        self.set_balance(buyer, quote_token, TokenBalance { reserved, ..b });
        self.credit(buyer, base_token, base_amount);
    }

    fn lookup(&self, user: Address, token: Address) -> (r: Option<TokenBalance>)
        ensures
            r == (if self@.contains_key((user, token)) {
                Some(self@[(user, token)])
            } else {
                None
            }),
    {
        match self.buckets.get(&user.lo) {
            Some(entries) => bucket_find(entries, user, token),
            None => {
                proof {
                    assert(!has_key(Seq::<LedgerEntry>::empty(), (user, token)));
                }
                None
            },
        }
    }

    /// The whole balance of `user` in `token`.
    pub fn balance(&self, user: Address, token: Address) -> (r: TokenBalance)
        ensures
            r == balance_in(self@, user, token),
    {
        proof {
            lemma_u256_of_view(U256 { hi: 0, lo: 0 });
        }
        match self.lookup(user, token) {
            Some(b) => b,
            None => TokenBalance { available: U256::zero(), reserved: U256::zero() },
        }
    }

    /// What `user` has available in `token`.
    pub fn available(&self, user: Address, token: Address) -> (r: U256)
        ensures
            r == balance_in(self@, user, token).available,
    {
        proof {
            lemma_u256_of_view(U256 { hi: 0, lo: 0 });
        }
        match self.lookup(user, token) {
            Some(b) => b.available,
            None => U256::zero(),
        }
    }

    /// Available plus reserved, modulo `2^256`.
    pub fn total(&self, user: Address, token: Address) -> (r: U256)
        ensures
            r == add_u256(balance_in(self@, user, token).available, balance_in(self@, user, token).reserved),
    {
        proof {
            lemma_u256_of_view(U256 { hi: 0, lo: 0 });
            crate::uint::lemma_view_of_u256_of(0);
        }
        match self.lookup(user, token) {
            Some(b) => {
                let t = b.available.wrapping_add(b.reserved);
                proof {
                    lemma_u256_of_view(t);
                }
                t
            },
            None => U256::zero(),
        }
    }

    /// Replaces the balance with what the chain reports: all of it available.
    pub fn set_from_chain(&mut self, user: Address, token: Address, amount: U256)
        ensures
            final(self)@ == old(self)@.insert(
                (user, token),
                TokenBalance { available: amount, reserved: u256_of(0) },
            ),
    {
        proof {
            lemma_u256_of_view(U256 { hi: 0, lo: 0 });
        }
        self.set_balance(user, token, TokenBalance { available: amount, reserved: U256::zero() });
    }
}

/// The balances after a reserve of `amount` that succeeded.
pub open spec fn reserved(
    m: Map<(Address, Address), TokenBalance>,
    user: Address,
    token: Address,
    amount: U256,
) -> Map<(Address, Address), TokenBalance> {
    let b = balance_in(m, user, token);
    m.insert(
        (user, token),
        TokenBalance { available: sub_u256(b.available, amount), reserved: add_u256(b.reserved, amount) },
    )
}

/// The balances after a release of `amount`.
pub open spec fn released(
    m: Map<(Address, Address), TokenBalance>,
    user: Address,
    token: Address,
    amount: U256,
) -> Map<(Address, Address), TokenBalance> {
    let b = balance_in(m, user, token);
    m.insert(
        (user, token),
        TokenBalance { available: add_u256(b.available, amount), reserved: sub_u256(b.reserved, amount) },
    )
}

/// One stored balance row.
#[derive(Clone, Copy, Debug, PartialEq, Eq, Structural)]
pub struct BalanceRow {
    pub user: Address,
    pub token: Address,
    pub available: U256,
    pub reserved: U256,
}

/// The balances of the first `k` rows, each row setting its (user, token).
pub open spec fn stored_balances(rows: Seq<BalanceRow>, k: nat) -> Map<(Address, Address), TokenBalance>
    decreases k,
{
    if k == 0 || k > rows.len() {
        Map::empty()
    } else {
        let r = rows[k - 1];
        stored_balances(rows, (k - 1) as nat).insert(
            (r.user, r.token),
            TokenBalance { available: r.available, reserved: r.reserved },
        )
    }
}

/// The balances after [`Ledger::settle_fill`].
pub open spec fn settle_spec(
    m: Map<(Address, Address), TokenBalance>,
    seller: Address,
    buyer: Address,
    base_token: Address,
    quote_token: Address,
    base_amount: U256,
    quote_amount: U256,
) -> Map<(Address, Address), TokenBalance> {
    let b1 = balance_in(m, seller, base_token);
    let m1 = m.insert((seller, base_token), TokenBalance { reserved: sub_u256(b1.reserved, base_amount), ..b1 });
    let b2 = balance_in(m1, seller, quote_token);
    let m2 = m1.insert((seller, quote_token), TokenBalance { available: add_u256(b2.available, quote_amount), ..b2 });
    let b3 = balance_in(m2, buyer, quote_token);
    let m3 = m2.insert((buyer, quote_token), TokenBalance { reserved: sub_u256(b3.reserved, quote_amount), ..b3 });
    let b4 = balance_in(m3, buyer, base_token);
    m3.insert((buyer, base_token), TokenBalance { available: add_u256(b4.available, base_amount), ..b4 })
}

} // verus!
