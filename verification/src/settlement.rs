//! Settlement batches: which trades go on chain together, and the arguments
//! of the exchange contract's `settleBatch` call that settles them.
use crate::primitives::Address;
use crate::state::AppState;
use crate::types::{BatchSettlement, Side, SignedOrder, SignedOrderView, Trade, TradeView};
use crate::uint::U256;
use vstd::prelude::*;

verus! {

/// An order as the exchange contract's `Order` struct holds it: the side as
/// `0` (buy) or `1` (sell), without the signature.
#[derive(Clone, Copy, Debug, PartialEq, Eq, Structural)]
pub struct AbiOrder {
    pub side: u8,
    pub maker: Address,
    pub base_token: Address,
    pub quote_token: Address,
    pub price: U256,
    pub quantity: U256,
    pub nonce: U256,
    pub expiry: U256,
}

/// The arguments of `settleBatch`: one entry per trade in each array.
pub struct SettleBatchArgs {
    pub maker_orders: Vec<AbiOrder>,
    pub taker_orders: Vec<AbiOrder>,
    pub maker_sigs: Vec<Vec<u8>>,
    pub taker_sigs: Vec<Vec<u8>>,
    pub quantities: Vec<U256>,
    pub prices: Vec<U256>,
}

/// The contract's form of an order.
pub open spec fn abi_order_spec(o: SignedOrderView) -> AbiOrder {
    AbiOrder {
        side: match o.side {
            Side::Buy => 0,
            Side::Sell => 1,
        },
        maker: o.maker,
        base_token: o.base_token,
        quote_token: o.quote_token,
        price: o.price,
        quantity: o.quantity,
        nonce: o.nonce,
        expiry: o.expiry,
    }
}

/// `args` carries the trades `trades`, in order.
pub open spec fn carries(args: SettleBatchArgs, trades: Seq<TradeView>) -> bool {
    &&& args.maker_orders@.len() == trades.len()
    &&& args.taker_orders@.len() == trades.len()
    &&& args.maker_sigs@.len() == trades.len()
    &&& args.taker_sigs@.len() == trades.len()
    &&& args.quantities@.len() == trades.len()
    &&& args.prices@.len() == trades.len()
    &&& forall|i: int|
        0 <= i < trades.len() ==> {
            &&& #[trigger] args.maker_orders@[i] == abi_order_spec(trades[i].maker_order)
            &&& args.taker_orders@[i] == abi_order_spec(trades[i].taker_order)
            &&& args.maker_sigs@[i]@ == trades[i].maker_order.signature
            &&& args.taker_sigs@[i]@ == trades[i].taker_order.signature
            &&& args.quantities@[i] == trades[i].quantity
            &&& args.prices@[i] == trades[i].price
        }
}

/// The contract form of an order keeps every field of the signed order in
/// its own field, the side as 0 for a buy and 1 for a sell, so it is the
/// struct the maker signed.
pub proof fn law_abi_order_keeps_the_signed_fields(o: SignedOrderView)
    ensures
        abi_order_spec(o).side == (if o.side == Side::Buy {
            0u8
        } else {
            1u8
        }),
        abi_order_spec(o).maker == o.maker,
        abi_order_spec(o).base_token == o.base_token,
        abi_order_spec(o).quote_token == o.quote_token,
        abi_order_spec(o).price == o.price,
        abi_order_spec(o).quantity == o.quantity,
        abi_order_spec(o).nonce == o.nonce,
        abi_order_spec(o).expiry == o.expiry,
{
}

/// A copy of a byte string.
pub fn copy_bytes(b: &Vec<u8>) -> (r: Vec<u8>)
    ensures
        r@ == b@,
{
    let r = b.clone();
    proof {
        assert(r@ =~= b@);
    }
    r
}

/// The contract's form of a signed order.
pub fn signed_order_to_abi(order: &SignedOrder) -> (r: AbiOrder)
    ensures
        r == abi_order_spec(order@),
{
    AbiOrder {
        side: match order.side {
            Side::Buy => 0,
            Side::Sell => 1,
        },
        maker: order.maker,
        base_token: order.base_token,
        quote_token: order.quote_token,
        price: order.price,
        quantity: order.quantity,
        nonce: order.nonce,
        expiry: order.expiry,
    }
}

/// The `settleBatch` arguments that settle the trades of `batch`.
pub fn settle_batch_args(batch: &BatchSettlement) -> (r: SettleBatchArgs)
    ensures
        carries(r, batch.trades@.map_values(|t: Trade| t@)),
{
    let ghost trades = batch.trades@.map_values(|t: Trade| t@);
    let mut args = SettleBatchArgs {
        maker_orders: Vec::new(),
        taker_orders: Vec::new(),
        maker_sigs: Vec::new(),
        taker_sigs: Vec::new(),
        quantities: Vec::new(),
        prices: Vec::new(),
    };
    let mut i: usize = 0;
    while i < batch.trades.len()
        invariant
            i <= batch.trades@.len(),
            trades == batch.trades@.map_values(|t: Trade| t@),
            carries(args, trades.subrange(0, i as int)),
        decreases batch.trades@.len() - i,
    {
        let trade = &batch.trades[i];
        args.maker_orders.push(signed_order_to_abi(&trade.maker_order));
        args.taker_orders.push(signed_order_to_abi(&trade.taker_order));
        args.maker_sigs.push(copy_bytes(&trade.maker_order.signature));
        args.taker_sigs.push(copy_bytes(&trade.taker_order.signature));
        args.quantities.push(trade.quantity);
        args.prices.push(trade.price);
        proof {
            let s = trades.subrange(0, i + 1);
            assert forall|j: int| 0 <= j < s.len() implies {
                &&& #[trigger] args.maker_orders@[j] == abi_order_spec(s[j].maker_order)
                &&& args.taker_orders@[j] == abi_order_spec(s[j].taker_order)
                &&& args.maker_sigs@[j]@ == s[j].maker_order.signature
                &&& args.taker_sigs@[j]@ == s[j].taker_order.signature
                &&& args.quantities@[j] == s[j].quantity
                &&& args.prices@[j] == s[j].price
            } by {
                if j < i {
                    assert(s[j] == trades.subrange(0, i as int)[j]);
                }
            }
        }
        i = i + 1;
    }
    proof {
        assert(trades.subrange(0, i as int) =~= trades);
    }
    args
}

/// The next batch to settle: all pending trades, taken out of the state;
/// none, with the state untouched, when no trade is pending.
pub fn next_batch(state: &mut AppState) -> (r: Option<BatchSettlement>)
    ensures
        old(state).pending_trades@.len() == 0 ==> r is None,
        old(state).pending_trades@.len() > 0 ==> (r matches Some(b) && b.trades@ == old(
            state,
        ).pending_trades@),
        old(state).pending_trades@.len() > 0 ==> final(state).pending_trades@ == Seq::<Trade>::empty(),
        final(state).engine@ == old(state).engine@,
        final(state).ledger@ == old(state).ledger@,
        final(state).accepted_nonces@ == old(state).accepted_nonces@,
        final(state).order_map@ == old(state).order_map@,
        old(state).pending_trades@.len() == 0 ==> final(state).pending_trades@ == old(state).pending_trades@,
{
    if state.pending_trades.len() == 0 {
        return None;
    }
    Some(BatchSettlement { trades: state.drain_batch() })
}

} // verus!
