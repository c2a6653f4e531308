//! What an accepted order changed, gathered for storage in one transaction.
use crate::eip712::{order_hash, order_hash_spec, sol_order_spec};
use crate::ledger::{balance_in, BalanceRow, TokenBalance};
use crate::primitives::{Address, B256};
use crate::state::{trades_view, AppState, FillDispatch};
use crate::types::{OrderId, SignedOrder, Trade, TradeView};
use crate::uint::{u256_modulus, u256_of, U256};
use vstd::prelude::*;

verus! {

/// What to store after an order was accepted.
pub struct FillRecord {
    /// The order's hash, kept as its accepted nonce.
    pub nonce: B256,
    /// When the nonce may be forgotten: the order's expiry in seconds, or
    /// `u64::MAX` when it is later than that.
    pub nonce_expires_at: u64,
    /// The trades the order made.
    pub trades: Vec<Trade>,
    /// The base and quote balances of the taker, then of each trade's maker.
    pub balances: Vec<BalanceRow>,
    /// The makers this order filled completely.
    pub filled_makers: Vec<OrderId>,
    /// The order's id, maker and the quantity left of it, when it rests.
    pub resting: Option<(OrderId, Address, U256)>,
}

/// The expiry as a count of seconds, `u64::MAX` where it does not fit.
pub open spec fn expiry_secs(expiry: U256) -> u64 {
    if expiry@ <= u64::MAX {
        expiry@ as u64
    } else {
        u64::MAX
    }
}

/// The users whose balances a fill touches: the taker, then each trade's maker.
pub open spec fn record_users(taker: Address, trades: Seq<TradeView>) -> Seq<Address> {
    seq![taker] + trades.map_values(|t: TradeView| t.maker_order.maker)
}

/// The stored row of a balance.
pub open spec fn row_of(m: Map<(Address, Address), TokenBalance>, user: Address, token: Address) -> BalanceRow {
    let b = balance_in(m, user, token);
    BalanceRow { user, token, available: b.available, reserved: b.reserved }
}

/// The ids of the maker fills among `ds` whose order left the book.
pub open spec fn filled_ids(ds: Seq<FillDispatch>, on_book: spec_fn(OrderId) -> bool) -> Seq<OrderId>
    decreases ds.len(),
{
    if ds.len() == 0 {
        Seq::empty()
    } else {
        let r = filled_ids(ds.drop_last(), on_book);
        let f = ds.last().message.data;
        if f.is_maker && !on_book(f.order_id) {
            r.push(f.order_id)
        } else {
            r
        }
    }
}

/// `quantity` less each trade's quantity, modulo `2^256`.
pub open spec fn left_after(quantity: U256, trades: Seq<TradeView>) -> U256
    decreases trades.len(),
{
    if trades.len() == 0 {
        quantity
    } else {
        let l = left_after(quantity, trades.drop_last());
        u256_of((l@ + u256_modulus() - trades.last().quantity@) as nat)
    }
}

/// The expiry in seconds, or `u64::MAX` where it is later than that.
pub fn expiry_as_secs(expiry: U256) -> (r: u64)
    ensures
        r == expiry_secs(expiry),
{
    if expiry.hi == 0 && expiry.lo <= 0xffff_ffff_ffff_ffffu128 {
        expiry.lo as u64
    } else {
        proof {
            if expiry.hi > 0 {
                assert(expiry@ >= crate::uint::two_pow_128());
            }
        }
        u64::MAX
    }
}

fn copy_trades(s: &Vec<Trade>, from: usize) -> (r: Vec<Trade>)
    requires
        from <= s@.len(),
    ensures
        trades_view(r@) == trades_view(s@.subrange(from as int, s@.len() as int)),
{
    let mut out: Vec<Trade> = Vec::new();
    let mut i = from;
    while i < s.len()
        invariant
            from <= i <= s@.len(),
            trades_view(out@) == trades_view(s@.subrange(from as int, i as int)),
        decreases s@.len() - i,
    {
        let t = &s[i];
        let c = Trade {
            maker_order: t.maker_order.duplicate(),
            taker_order: t.taker_order.duplicate(),
            price: t.price,
            quantity: t.quantity,
            timestamp: t.timestamp,
        };
        let ghost prev = out@;
        out.push(c);
        proof {
            assert(trades_view(out@) =~= trades_view(prev).push(c@));
            assert(trades_view(s@.subrange(from as int, i + 1)) =~= trades_view(
                s@.subrange(from as int, i as int),
            ).push(s@[i as int]@));
        }
        i = i + 1;
    }
    out
}

impl AppState {
    /// What to store after `order` was accepted as `order_id`, given the
    /// number of pending trades before it and the fill messages it produced.
    pub fn fill_record(
        &self,
        order_id: OrderId,
        order: &SignedOrder,
        trades_before: usize,
        dispatches: &Vec<FillDispatch>,
    ) -> (r: FillRecord)
        requires
            trades_before <= self.pending_trades@.len(),
        ensures
            r.nonce == order_hash_spec(sol_order_spec(order@)),
            r.nonce_expires_at == expiry_secs(order.expiry),
            trades_view(r.trades@) == trades_view(
                self.pending_trades@.subrange(trades_before as int, self.pending_trades@.len() as int),
            ),
            ({
                let users = record_users(order.maker, trades_view(r.trades@));
                &&& r.balances@.len() == 2 * users.len()
                &&& forall|i: int|
                    0 <= i < users.len() ==> r.balances@[2 * i] == row_of(self.ledger@, users[i], self.base_token)
                        && r.balances@[2 * i + 1] == row_of(self.ledger@, users[i], self.quote_token)
            }),
            r.filled_makers@ == filled_ids(
                dispatches@,
                |id: OrderId| self.engine@.book.locations.contains_key(id),
            ),
            (self.order_map@.contains_key(order_id) && self.engine@.book.locations.contains_key(order_id))
                ==> r.resting == Some((order_id, order.maker, left_after(order.quantity, trades_view(r.trades@)))),
            !(self.order_map@.contains_key(order_id) && self.engine@.book.locations.contains_key(order_id))
                ==> r.resting is None,
    {
        let trades = copy_trades(&self.pending_trades, trades_before);
        let ghost tv = trades_view(trades@);
        let ghost users = record_users(order.maker, tv);
        // balances of the taker, then of each trade's maker
        let mut balances: Vec<BalanceRow> = Vec::new();
        let b = self.ledger.balance(order.maker, self.base_token);
        let q = self.ledger.balance(order.maker, self.quote_token);
        balances.push(BalanceRow { user: order.maker, token: self.base_token, available: b.available, reserved: b.reserved });
        balances.push(BalanceRow { user: order.maker, token: self.quote_token, available: q.available, reserved: q.reserved });
        let mut k: usize = 0;
        while k < trades.len()
            invariant
                k <= trades@.len(),
                tv == trades_view(trades@),
                users == record_users(order.maker, tv),
                balances@.len() == 2 * (k + 1),
                forall|i: int|
                    0 <= i <= k ==> balances@[2 * i] == row_of(self.ledger@, users[i], self.base_token)
                        && balances@[2 * i + 1] == row_of(self.ledger@, users[i], self.quote_token),
            decreases trades@.len() - k,
        {
            let user = trades[k].maker_order.maker;
            proof {
                assert(users[k + 1] == user);
            }
            let b = self.ledger.balance(user, self.base_token);
            let q = self.ledger.balance(user, self.quote_token);
            balances.push(BalanceRow { user, token: self.base_token, available: b.available, reserved: b.reserved });
            balances.push(BalanceRow { user, token: self.quote_token, available: q.available, reserved: q.reserved });
            k = k + 1;
        }
        // makers filled completely: their order left the book
        let ghost on_book = |id: OrderId| self.engine@.book.locations.contains_key(id);
        let mut filled: Vec<OrderId> = Vec::new();
        let mut j: usize = 0;
        while j < dispatches.len()
            invariant
                j <= dispatches@.len(),
                on_book == (|id: OrderId| self.engine@.book.locations.contains_key(id)),
                filled@ == filled_ids(dispatches@.subrange(0, j as int), on_book),
            decreases dispatches@.len() - j,
        {
            let f = dispatches[j].message.data;
            proof {
                assert(dispatches@.subrange(0, j + 1).drop_last() =~= dispatches@.subrange(0, j as int));
            }
            if f.is_maker && !self.engine.has_order(f.order_id) {
                filled.push(f.order_id);
            }
            j = j + 1;
        }
        proof {
            assert(dispatches@.subrange(0, j as int) =~= dispatches@);
        }
        // what is left of the order, if it rests
        let resting = if self.order_map.contains_key(&order_id) && self.engine.has_order(order_id) {
            let mut left = order.quantity;
            let mut i: usize = 0;
            while i < trades.len()
                invariant
                    i <= trades@.len(),
                    tv == trades_view(trades@),
                    left == left_after(order.quantity, tv.subrange(0, i as int)),
                decreases trades@.len() - i,
            {
                left = left.wrapping_sub(trades[i].quantity);
                proof {
                    assert(tv.subrange(0, i + 1).drop_last() =~= tv.subrange(0, i as int));
                }
                i = i + 1;
            }
            proof {
                assert(tv.subrange(0, i as int) =~= tv);
            }
            Some((order_id, order.maker, left))
        } else {
            None
        };
        FillRecord {
            nonce: order_hash(order),
            nonce_expires_at: expiry_as_secs(order.expiry),
            trades,
            balances,
            filled_makers: filled,
            resting,
        }
    }
}

} // verus!
