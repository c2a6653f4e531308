//! Properties of order submission that hold across calls.
use crate::eip712::{order_hash_spec, sol_order_spec};
use crate::ledger::{balance_in, released, reserved};
use crate::ledger_laws::law_release_undoes_reserve;
use crate::primitives::Address;
use crate::state::{orders_view, trade_spec, trades_view, collateral_spec, collateral_token_spec, submit_outcome, AppState, FillDispatch, SubmitError};
use crate::book::within_limit;
use crate::engine::{submit_takes_id, sweep};
use crate::engine_laws::{fills_qty, law_market_order_fills_within_price};
use crate::types::{Fill, OrderId, OrderType, SignedOrderView};
use vstd::prelude::*;

verus! {

/// An accepted order is never accepted again: submitted a second time, at
/// any time, it fails one of the checks, the duplicate-nonce check at the
/// latest.
pub proof fn law_accepted_order_is_not_accepted_again(
    pre: AppState,
    post: AppState,
    order: SignedOrderView,
    order_type: OrderType,
    now: u64,
    r: Result<(OrderId, Vec<Fill>, Vec<FillDispatch>), SubmitError>,
    later: u64,
    order_type_again: OrderType,
)
    requires
        submit_outcome(pre, post, order, order_type, now, r),
        r is Ok,
    ensures
        !(post.precheck(order, order_type_again, later) is Passed),
{
    let hash = order_hash_spec(sol_order_spec(order));
    assert(pre.precheck(order, order_type, now) is Passed);
    assert(post.accepted_nonces@.contains(hash));
}

/// A market order refused as not fillable (its quantity does not rest within
/// its price, or it finds nothing to trade against) is rolled back: the book,
/// every balance, the accepted nonces, the resting orders and the pending
/// trades are as they were before it came in.
pub proof fn law_unfillable_market_order_changes_nothing(
    pre: AppState,
    post: AppState,
    order: SignedOrderView,
    now: u64,
    r: Result<(OrderId, Vec<Fill>, Vec<FillDispatch>), SubmitError>,
)
    requires
        submit_outcome(pre, post, order, OrderType::Market, now, r),
        r matches Err(SubmitError::MarketNotFillable),
    ensures
        post.engine@.book == pre.engine@.book,
        forall|user: Address, token: Address|
            #[trigger] balance_in(post.ledger@, user, token) == balance_in(pre.ledger@, user, token),
        post.accepted_nonces@ == pre.accepted_nonces@,
        post.order_map@ == pre.order_map@,
        post.pending_trades@ == pre.pending_trades@,
{
    let check = pre.precheck(order, OrderType::Market, now);
    let hash = order_hash_spec(sol_order_spec(order));
    let token = collateral_token_spec(order);
    let amount = collateral_spec(order);
    assert(check is Passed);
    let e = pre.engine@;
    let sw = sweep(e.book, order.side, None, order.quantity, e.next_id);
    assert(sw.fills.len() == 0 ==> sw.book == e.book);
    assert(!pre.accepted_nonces@.contains(hash));
    assert(pre.accepted_nonces@.insert(hash).remove(hash) =~= pre.accepted_nonces@);
    assert(balance_in(pre.ledger@, order.maker, token).available@ >= amount@);
    assert(reserved(pre.ledger@, order.maker, token, amount) == pre.reserved_ledger(order));
    assert(post.ledger@ == released(reserved(pre.ledger@, order.maker, token, amount), order.maker, token, amount));
    law_release_undoes_reserve(pre.ledger@, order.maker, token, amount);
    assert forall|user: Address, token2: Address| #[trigger] balance_in(post.ledger@, user, token2) == balance_in(
        pre.ledger@,
        user,
        token2,
    ) by {
        if (user, token2) != (order.maker, token) {
            assert(post.ledger@.contains_key((user, token2)) == pre.ledger@.contains_key((user, token2)));
        }
    }
}


/// Submitting an accepted order again, before it expires and with a market
/// order's price protection met, is refused as a duplicate nonce, and the
/// state is left as it was.
pub proof fn law_resubmitted_order_is_a_duplicate(
    pre: AppState,
    mid: AppState,
    post: AppState,
    order: SignedOrderView,
    order_type: OrderType,
    now: u64,
    r: Result<(OrderId, Vec<Fill>, Vec<FillDispatch>), SubmitError>,
    later: u64,
    order_type_again: OrderType,
    r_again: Result<(OrderId, Vec<Fill>, Vec<FillDispatch>), SubmitError>,
)
    requires
        submit_outcome(pre, mid, order, order_type, now, r),
        r is Ok,
        submit_outcome(mid, post, order, order_type_again, later, r_again),
        order.expiry@ >= later,
        order_type_again == OrderType::Market ==> order.price@ > 0,
    ensures
        r_again matches Err(SubmitError::DuplicateNonce),
        post.engine@ == mid.engine@,
        post.ledger@ == mid.ledger@,
        post.accepted_nonces@ == mid.accepted_nonces@,
        post.order_map@ == mid.order_map@,
        post.pending_trades@ == mid.pending_trades@,
{
    let hash = order_hash_spec(sol_order_spec(order));
    assert(pre.precheck(order, order_type, now) is Passed);
    assert(mid.accepted_nonces@.contains(hash));
    assert(mid.precheck(order, order_type_again, later) is DuplicateNonce);
}

/// An accepted market order fills its whole quantity, and every fill is
/// within its price protection: at or below its price for a buy, at or above
/// it for a sell.
pub proof fn law_market_order_fills_within_its_price(
    pre: AppState,
    post: AppState,
    order: SignedOrderView,
    now: u64,
    r: Result<(OrderId, Vec<Fill>, Vec<FillDispatch>), SubmitError>,
)
    requires
        pre.engine@.book.wf(),
        submit_outcome(pre, post, order, OrderType::Market, now, r),
        r is Ok,
    ensures
        ({
            let (e2, mr) = pre.engine_outcome(order, OrderType::Market);
            &&& post.engine@ == e2
            &&& !mr.resting
            &&& fills_qty(mr.fills) == order.quantity@
            &&& forall|k: int| 0 <= k < mr.fills.len() ==> within_limit(order.side, order.price, #[trigger] mr.fills[k].price)
        }),
        r matches Ok((_, fills, _)) && forall|k: int|
            0 <= k < fills@.len() ==> within_limit(order.side, order.price, #[trigger] fills@[k].price),
{
    let e = pre.engine@;
    assert(pre.precheck(order, OrderType::Market, now) is Passed);
    assert(pre.market_fillable(order));
    assert(submit_takes_id(e, order.side, order.quantity, OrderType::Market));
    law_market_order_fills_within_price(e, order.side, order.price, order.quantity);
}

/// Every trade an accepted order records is the engine fill it stands for:
/// the trades already pending stay, and the `k`-th new one carries the price
/// and quantity of the `k`-th fill, the resting order it traded with as
/// maker, the accepted order as taker and the time of acceptance; its price
/// and quantity are those of the fill message the taker gets for it.
pub proof fn law_recorded_trades_are_the_fills(
    pre: AppState,
    post: AppState,
    order: SignedOrderView,
    order_type: OrderType,
    now: u64,
    r: Result<(OrderId, Vec<Fill>, Vec<FillDispatch>), SubmitError>,
)
    requires
        submit_outcome(pre, post, order, order_type, now, r),
        r is Ok,
    ensures
        ({
            let mr = pre.engine_outcome(order, order_type).1;
            let n = pre.pending_trades@.len();
            &&& post.pending_trades@.len() == n + mr.fills.len()
            &&& forall|j: int| 0 <= j < n ==> #[trigger] post.pending_trades@[j]@ == pre.pending_trades@[j]@
            &&& forall|k: int|
                0 <= k < mr.fills.len() ==> {
                    let t = #[trigger] post.pending_trades@[n + k]@;
                    &&& t.price == mr.fills[k].price
                    &&& t.quantity == mr.fills[k].quantity
                    &&& t.maker_order == orders_view(pre.order_map@)[mr.fills[k].maker_id]
                    &&& t.taker_order == order
                    &&& t.timestamp == now
                }
        }),
        r matches Ok((_, fills, _)) && fills@.len() == post.pending_trades@.len()
            - pre.pending_trades@.len() && forall|k: int|
            0 <= k < fills@.len() ==> {
                let t = #[trigger] post.pending_trades@[pre.pending_trades@.len() + k]@;
                &&& t.price == fills@[k].price
                &&& t.quantity == fills@[k].filled_qty
            },
{
    let mr = pre.engine_outcome(order, order_type).1;
    let n = pre.pending_trades@.len();
    let makers = orders_view(pre.order_map@);
    let added = Seq::new(mr.fills.len(), |k: int| trade_spec(makers, order, mr.fills, k, now));
    assert(trades_view(post.pending_trades@) == trades_view(pre.pending_trades@) + added);
    assert(trades_view(post.pending_trades@).len() == post.pending_trades@.len());
    assert forall|j: int| 0 <= j < n implies #[trigger] post.pending_trades@[j]@ == pre.pending_trades@[j]@ by {
        assert(trades_view(post.pending_trades@)[j] == post.pending_trades@[j]@);
        assert(trades_view(pre.pending_trades@)[j] == pre.pending_trades@[j]@);
    }
    assert forall|k: int| 0 <= k < mr.fills.len() implies {
        let t = #[trigger] post.pending_trades@[n + k]@;
        &&& t.price == mr.fills[k].price
        &&& t.quantity == mr.fills[k].quantity
        &&& t.maker_order == orders_view(pre.order_map@)[mr.fills[k].maker_id]
        &&& t.taker_order == order
        &&& t.timestamp == now
    } by {
        assert(trades_view(post.pending_trades@)[n + k] == post.pending_trades@[n + k]@);
        assert(trades_view(post.pending_trades@)[n + k] == added[k]);
    }
}

} // verus!
