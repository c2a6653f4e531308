//! Properties of matching that hold for every order the engine accepts.
use crate::book::{
    better, crossing_qty, within_limit, cancel_spec, level_cancel, level_index, front_maker, is_insert_pos, level_insert, level_take, levels_qty, levels_wf,
    min_u256, orders_qty, take_spec, BookView, LevelView,
};
use crate::engine::{crosses, limit_of, submit_spec, submit_takes_id, sweep, EngineFill, EngineView};
use crate::types::{EngineOrder, OrderId, OrderType, Side};
use crate::uint::{u256_modulus, u256_of, U256};
use vstd::prelude::*;

verus! {

/// No bid is at or above the lowest ask.
pub open spec fn uncrossed(book: BookView) -> bool {
    book.bids.len() > 0 && book.asks.len() > 0 ==> book.bids.last().price@
        < book.asks.last().price@
}

/// Sum of the quantities of a sequence of fills.
pub open spec fn fills_qty(fills: Seq<EngineFill>) -> nat
    decreases fills.len(),
{
    if fills.len() == 0 {
        0
    } else {
        fills[0].quantity@ + fills_qty(fills.drop_first())
    }
}

/// `a` keeps the prices of the first `a.len()` levels of `b`.
pub open spec fn price_prefix(a: Seq<LevelView>, b: Seq<LevelView>) -> bool {
    &&& a.len() <= b.len()
    &&& forall|i: int| 0 <= i < a.len() ==> #[trigger] a[i].price == b[i].price
}

proof fn lemma_level_take_wf(levels: Seq<LevelView>, side: Side, max_qty: U256)
    requires
        levels_wf(levels, side),
        levels.len() > 0,
    ensures
        levels_wf(level_take(levels, max_qty), side),
        price_prefix(level_take(levels, max_qty), levels),
{
    let best = levels.last();
    let maker = best.orders[0];
    let fill = min_u256(max_qty, maker.quantity);
    let left = (maker.quantity@ - fill@) as nat;
    let nl = level_take(levels, max_qty);
    assert(best.orders[0].price == best.price);
    assert forall|i: int, k: int|
        #![trigger nl[i].orders[k]]
        0 <= i < nl.len() && 0 <= k < nl[i].orders.len() implies nl[i].orders[k].price
        == nl[i].price && nl[i].orders[k].side == side by {
        if i == levels.len() - 1 {
            if left == 0 {
                assert(nl[i].orders[k] == best.orders[k + 1]);
            } else if k > 0 {
                assert(nl[i].orders[k] == best.orders[k]);
            }
        } else {
            assert(nl[i] == levels[i]);
        }
    }
    assert forall|i: int, j: int|
        #![trigger nl[i], nl[j]]
        0 <= i < j < nl.len() implies better(side, nl[j].price, nl[i].price) by {
        assert(better(side, levels[j].price, levels[i].price));
    }
    assert forall|i: int| 0 <= i < nl.len() implies #[trigger] nl[i].orders.len() > 0 by {
        if i < levels.len() - 1 {
            assert(nl[i] == levels[i]);
        }
    }
}

proof fn lemma_orders_qty_front(s: Seq<EngineOrder>)
    requires
        s.len() > 0,
    ensures
        orders_qty(s) == s[0].quantity@ + orders_qty(s.drop_first()),
    decreases s.len(),
{
    if s.len() > 1 {
        lemma_orders_qty_front(s.drop_last());
        assert(s.drop_last().drop_first() =~= s.drop_first().drop_last());
    } else {
        assert(s.drop_first() =~= Seq::<EngineOrder>::empty());
        assert(s.drop_last() =~= Seq::<EngineOrder>::empty());
    }
}

proof fn lemma_orders_qty_update_front(s: Seq<EngineOrder>, o: EngineOrder)
    requires
        s.len() > 0,
    ensures
        orders_qty(s.update(0, o)) + s[0].quantity@ == orders_qty(s) + o.quantity@,
{
    lemma_orders_qty_front(s);
    lemma_orders_qty_front(s.update(0, o));
    assert(s.update(0, o).drop_first() =~= s.drop_first());
}

/// A take removes exactly the quantity it fills.
proof fn lemma_level_take_qty(levels: Seq<LevelView>, max_qty: U256)
    requires
        levels.len() > 0,
        levels.last().orders.len() > 0,
    ensures
        levels_qty(level_take(levels, max_qty)) + min_u256(
            max_qty,
            levels.last().orders[0].quantity,
        )@ == levels_qty(levels),
{
    let best = levels.last();
    let maker = best.orders[0];
    let fill = min_u256(max_qty, maker.quantity);
    let left = (maker.quantity@ - fill@) as nat;
    crate::uint::lemma_u256_bound(maker.quantity);
    crate::uint::lemma_view_of_u256_of(left);
    vstd::arithmetic::div_mod::lemma_small_mod(left, u256_modulus());
    lemma_orders_qty_front(best.orders);
    let q2 = if left == 0 {
        best.orders.drop_first()
    } else {
        best.orders.update(0, EngineOrder { quantity: u256_of(left), ..maker })
    };
    if left != 0 {
        lemma_orders_qty_update_front(best.orders, EngineOrder { quantity: u256_of(left), ..maker });
    }
    assert(orders_qty(q2) + fill@ == orders_qty(best.orders));
    let nl = level_take(levels, max_qty);
    if q2.len() == 0 {
        assert(orders_qty(q2) == 0);
    } else {
        assert(nl.drop_last() =~= levels.drop_last());
    }
}

/// The sweep leaves the taker's own side alone, keeps the opposite side's
/// prices as a prefix, and stops only when the taker is done, the opposite
/// side is empty, or its best price no longer crosses.
proof fn lemma_sweep_shape(
    book: BookView,
    taker_side: Side,
    limit: Option<U256>,
    remaining: U256,
    taker_id: OrderId,
)
    requires
        book.wf(),
    ensures
        ({
            let s = taker_side.spec_opposite();
            let sw = sweep(book, taker_side, limit, remaining, taker_id);
            &&& sw.book.wf()
            &&& sw.book.levels(taker_side) == book.levels(taker_side)
            &&& price_prefix(sw.book.levels(s), book.levels(s))
            &&& sw.remaining@ <= remaining@
            &&& fills_qty(sw.fills) + sw.remaining@ == remaining@
            &&& forall|i: int| 0 <= i < sw.fills.len() ==> crosses(taker_side, limit, #[trigger] sw.fills[i].price)
            &&& sw.remaining@ > 0 ==> (sw.book.levels(s).len() == 0 || !crosses(
                taker_side,
                limit,
                sw.book.levels(s).last().price,
            ))
        }),
    decreases crate::book::levels_count(book.levels(taker_side.spec_opposite())), remaining@,
{
    let s = taker_side.spec_opposite();
    let levels = book.levels(s);
    if remaining@ == 0 || levels.len() == 0 || levels.last().orders.len() == 0 || !crosses(
        taker_side,
        limit,
        levels.last().price,
    ) {
        if levels.len() > 0 {
            assert(levels[levels.len() - 1].orders.len() > 0);
        }
    } else {
        let maker = front_maker(book, s);
        let fill = min_u256(remaining, maker.quantity);
        let next = take_spec(book, s, remaining);
        let left = u256_of((remaining@ - fill@) as nat);
        crate::engine::lemma_take_decreases(book, s, remaining);
        lemma_level_take_wf(levels, s, remaining);
        assert(next.wf()) by {
            match s {
                Side::Buy => {},
                Side::Sell => {},
            }
        }
        lemma_sweep_shape(next, taker_side, limit, left, taker_id);
        let rest = sweep(next, taker_side, limit, left, taker_id);
        let sw = sweep(book, taker_side, limit, remaining, taker_id);
        let f = EngineFill { maker_id: maker.id, taker_id, price: levels.last().price, quantity: fill };
        assert(sw.fills == seq![f] + rest.fills);
        assert((seq![f] + rest.fills).drop_first() =~= rest.fills);
        assert forall|i: int| 0 <= i < sw.fills.len() implies crosses(
            taker_side,
            limit,
            #[trigger] sw.fills[i].price,
        ) by {
            if i > 0 {
                assert(sw.fills[i] == rest.fills[i - 1]);
            }
        }
        let nl = next.levels(s);
        assert forall|i: int| 0 <= i < rest.book.levels(s).len() implies #[trigger] rest.book.levels(
            s,
        )[i].price == levels[i].price by {
            assert(rest.book.levels(s)[i].price == nl[i].price);
        }
    }
}

/// The best price after an insert is the better of the old best and the new price.
proof fn lemma_insert_best(levels: Seq<LevelView>, side: Side, order: EngineOrder)
    requires
        levels_wf(levels, side),
    ensures
        ({
            let nl = level_insert(levels, side, order);
            &&& nl.len() > 0
            &&& (levels.len() == 0 || better(side, order.price, levels.last().price))
                ==> nl.last().price == order.price
            &&& (levels.len() > 0 && !better(side, order.price, levels.last().price))
                ==> nl.last().price == levels.last().price
        }),
{
    let p = order.price;
    assert(exists|k: int| is_insert_pos(levels, side, p, k)) by {
        let kk = first_not_worse(levels, side, p, 0);
        lemma_first_not_worse(levels, side, p, 0);
        assert(is_insert_pos(levels, side, p, kk));
    }
    let kp = crate::book::insert_pos(levels, side, p);
    assert(is_insert_pos(levels, side, p, kp));
    let nl = level_insert(levels, side, order);
    if kp < levels.len() && levels[kp].price == p {
        assert(nl.len() == levels.len());
        if kp < levels.len() - 1 {
            assert(nl.last() == levels.last());
            assert(better(side, levels.last().price, levels[kp].price));
        }
    } else {
        assert(nl.len() == levels.len() + 1);
        if kp < levels.len() {
            assert(nl.last() == levels.last());
            assert(!better(side, p, levels[levels.len() - 1].price));
        } else {
            assert(nl.last().price == p);
            if levels.len() > 0 {
                assert(better(side, p, levels[levels.len() - 1].price));
            }
        }
    }
}

spec fn first_not_worse(levels: Seq<LevelView>, side: Side, p: U256, i: int) -> int
    decreases levels.len() - i,
{
    if i >= levels.len() || !better(side, p, levels[i].price) {
        i
    } else {
        first_not_worse(levels, side, p, i + 1)
    }
}

proof fn lemma_first_not_worse(levels: Seq<LevelView>, side: Side, p: U256, i: int)
    requires
        levels_wf(levels, side),
        0 <= i <= levels.len(),
        forall|j: int| 0 <= j < i ==> better(side, p, #[trigger] levels[j].price),
    ensures
        is_insert_pos(levels, side, p, first_not_worse(levels, side, p, i)),
    decreases levels.len() - i,
{
    if i >= levels.len() {
    } else if !better(side, p, levels[i].price) {
        assert forall|j: int| i <= j < levels.len() implies !better(
            side,
            p,
            #[trigger] levels[j].price,
        ) by {
            if j > i {
                assert(better(side, levels[j].price, levels[i].price));
            }
        }
    } else {
        lemma_first_not_worse(levels, side, p, i + 1);
    }
}

/// A book that has no crossed prices keeps none after any order is submitted.
pub proof fn law_submit_keeps_book_uncrossed(
    e: EngineView,
    side: Side,
    price: U256,
    quantity: U256,
    order_type: OrderType,
)
    requires
        e.book.wf(),
        uncrossed(e.book),
    ensures
        uncrossed(submit_spec(e, side, price, quantity, order_type).0.book),
{
    if submit_takes_id(e, side, quantity, order_type) {
        let s = side.spec_opposite();
        let sw = sweep(e.book, side, limit_of(order_type, price), quantity, e.next_id);
        lemma_sweep_shape(e.book, side, limit_of(order_type, price), quantity, e.next_id);
        let resting = sw.remaining@ > 0 && order_type == OrderType::Limit;
        let old_s = e.book.levels(s);
        let new_s = sw.book.levels(s);
        // the opposite side only loses levels from its best end
        if new_s.len() > 0 {
            let a = new_s.len() - 1;
            let b = old_s.len() - 1;
            if a < b {
                assert(better(s, old_s[b].price, old_s[a].price));
            }
            assert(new_s.last().price == old_s[a].price);
        }
        if resting {
            let order = EngineOrder { id: e.next_id, side, price, quantity: sw.remaining };
            lemma_insert_best(sw.book.levels(side), side, order);
        }
    }
}

/// The remainder of a limit order that rests joins the back of the queue at
/// its price on its own side, under the id the order was given and with
/// exactly the quantity reported as resting; the orders already queued there
/// stay ahead of it. When nothing rests, the order's own side is as it was.
pub proof fn law_resting_remainder_is_what_rests(
    e: EngineView,
    side: Side,
    price: U256,
    quantity: U256,
    order_type: OrderType,
)
    requires
        e.book.wf(),
    ensures
        ({
            let (e2, r) = submit_spec(e, side, price, quantity, order_type);
            let levels = e.book.levels(side);
            let nl = e2.book.levels(side);
            let i = level_index(nl, price);
            let before = if level_index(levels, price) >= 0 {
                levels[level_index(levels, price)].orders
            } else {
                Seq::<EngineOrder>::empty()
            };
            &&& r.resting ==> 0 <= i < nl.len() && nl[i].orders == before.push(
                EngineOrder { id: e.next_id, side, price, quantity: r.resting_qty },
            )
            &&& r.resting ==> r.resting_qty@ > 0 && order_type == OrderType::Limit
            &&& !r.resting ==> nl == levels
        }),
{
    if submit_takes_id(e, side, quantity, order_type) {
        let sw = sweep(e.book, side, limit_of(order_type, price), quantity, e.next_id);
        lemma_sweep_shape(e.book, side, limit_of(order_type, price), quantity, e.next_id);
        let resting = sw.remaining@ > 0 && order_type == OrderType::Limit;
        if resting {
            let order = EngineOrder { id: e.next_id, side, price, quantity: sw.remaining };
            law_insert_joins_back_of_its_level(sw.book, order);
        }
    }
}

/// Every fill of a submitted order trades its taker's whole quantity out
/// exactly once: the fills and the remainder add up to the order's quantity,
/// and every fill price is at or inside the taker's limit.
pub proof fn law_submit_conserves_quantity(
    e: EngineView,
    side: Side,
    price: U256,
    quantity: U256,
    order_type: OrderType,
)
    requires
        e.book.wf(),
        submit_takes_id(e, side, quantity, order_type),
    ensures
        ({
            let r = submit_spec(e, side, price, quantity, order_type).1;
            &&& fills_qty(r.fills) + r.resting_qty@ == quantity@
            &&& forall|i: int| 0 <= i < r.fills.len() ==> crosses(side, limit_of(order_type, price), #[trigger] r.fills[i].price)
            &&& order_type == OrderType::Limit && side == Side::Buy ==> forall|i: int| 0 <= i < r.fills.len() ==> #[trigger] r.fills[i].price@ <= price@
            &&& order_type == OrderType::Limit && side == Side::Sell ==> forall|i: int| 0 <= i < r.fills.len() ==> #[trigger] r.fills[i].price@ >= price@
        }),
{
    lemma_sweep_shape(e.book, side, limit_of(order_type, price), quantity, e.next_id);
}

proof fn lemma_sweep_exhausts(
    book: BookView,
    taker_side: Side,
    remaining: U256,
    taker_id: OrderId,
)
    requires
        book.wf(),
        levels_qty(book.levels(taker_side.spec_opposite())) >= remaining@,
    ensures
        sweep(book, taker_side, None, remaining, taker_id).remaining@ == 0,
    decreases crate::book::levels_count(book.levels(taker_side.spec_opposite())), remaining@,
{
    let s = taker_side.spec_opposite();
    let levels = book.levels(s);
    if remaining@ == 0 {
    } else if levels.len() == 0 {
        assert(levels_qty(levels) == 0);
    } else {
        assert(levels[levels.len() - 1].orders.len() > 0);
        let maker = front_maker(book, s);
        let fill = min_u256(remaining, maker.quantity);
        let next = take_spec(book, s, remaining);
        let left = u256_of((remaining@ - fill@) as nat);
        crate::engine::lemma_take_decreases(book, s, remaining);
        lemma_level_take_wf(levels, s, remaining);
        lemma_level_take_qty(levels, remaining);
        assert(next.wf()) by {
            match s {
                Side::Buy => {},
                Side::Sell => {},
            }
        }
        lemma_sweep_exhausts(next, taker_side, left, taker_id);
    }
}

/// A take from a best level within the limit removes exactly its fill from
/// the quantity within the limit.
proof fn lemma_level_take_crossing(levels: Seq<LevelView>, taker_side: Side, limit: U256, max_qty: U256)
    requires
        levels.len() > 0,
        levels.last().orders.len() > 0,
        within_limit(taker_side, limit, levels.last().price),
    ensures
        crossing_qty(level_take(levels, max_qty), taker_side, limit) + min_u256(
            max_qty,
            levels.last().orders[0].quantity,
        )@ == crossing_qty(levels, taker_side, limit),
{
    let best = levels.last();
    let maker = best.orders[0];
    let fill = min_u256(max_qty, maker.quantity);
    let left = (maker.quantity@ - fill@) as nat;
    crate::uint::lemma_u256_bound(maker.quantity);
    crate::uint::lemma_view_of_u256_of(left);
    vstd::arithmetic::div_mod::lemma_small_mod(left, u256_modulus());
    lemma_orders_qty_front(best.orders);
    let q2 = if left == 0 {
        best.orders.drop_first()
    } else {
        best.orders.update(0, EngineOrder { quantity: u256_of(left), ..maker })
    };
    if left != 0 {
        lemma_orders_qty_update_front(best.orders, EngineOrder { quantity: u256_of(left), ..maker });
    }
    assert(orders_qty(q2) + fill@ == orders_qty(best.orders));
    let nl = level_take(levels, max_qty);
    if q2.len() == 0 {
        assert(orders_qty(q2) == 0);
    } else {
        assert(nl.drop_last() =~= levels.drop_last());
    }
}

/// While the quantity within `limit` covers what is left of the taker, a
/// sweep without a limit takes the same steps as one with it, and leaves
/// nothing of the taker.
proof fn lemma_sweep_within(
    book: BookView,
    taker_side: Side,
    limit: U256,
    remaining: U256,
    taker_id: OrderId,
)
    requires
        book.wf(),
        crossing_qty(book.levels(taker_side.spec_opposite()), taker_side, limit) >= remaining@,
    ensures
        sweep(book, taker_side, None, remaining, taker_id) == sweep(
            book,
            taker_side,
            Some(limit),
            remaining,
            taker_id,
        ),
        sweep(book, taker_side, None, remaining, taker_id).remaining@ == 0,
    decreases crate::book::levels_count(book.levels(taker_side.spec_opposite())), remaining@,
{
    let s = taker_side.spec_opposite();
    let levels = book.levels(s);
    if remaining@ == 0 {
    } else {
        assert(levels.len() > 0);
        assert(within_limit(taker_side, limit, levels.last().price));
        assert(levels[levels.len() - 1].orders.len() > 0);
        let maker = front_maker(book, s);
        let fill = min_u256(remaining, maker.quantity);
        let next = take_spec(book, s, remaining);
        let left = u256_of((remaining@ - fill@) as nat);
        crate::engine::lemma_take_decreases(book, s, remaining);
        lemma_level_take_wf(levels, s, remaining);
        lemma_level_take_crossing(levels, taker_side, limit, remaining);
        assert(next.wf()) by {
            match s {
                Side::Buy => {},
                Side::Sell => {},
            }
        }
        assert(next.levels(s) == level_take(levels, remaining));
        lemma_sweep_within(next, taker_side, limit, left, taker_id);
    }
}

/// A market order whose quantity rests within its price fills completely,
/// and only at prices within that price: a buy at or below it, a sell at or
/// above it.
pub proof fn law_market_order_fills_within_price(
    e: EngineView,
    side: Side,
    price: U256,
    quantity: U256,
)
    requires
        e.book.wf(),
        crossing_qty(e.book.levels(side.spec_opposite()), side, price) >= quantity@,
        submit_takes_id(e, side, quantity, OrderType::Market),
    ensures
        ({
            let r = submit_spec(e, side, price, quantity, OrderType::Market).1;
            &&& r.resting_qty@ == 0
            &&& !r.resting
            &&& fills_qty(r.fills) == quantity@
            &&& forall|i: int| 0 <= i < r.fills.len() ==> within_limit(side, price, #[trigger] r.fills[i].price)
        }),
{
    lemma_sweep_within(e.book, side, price, quantity, e.next_id);
    lemma_sweep_shape(e.book, side, Some(price), quantity, e.next_id);
}

/// A market order is all or nothing: when the opposite side holds less than
/// its quantity it is turned away and the engine is left as it was; otherwise
/// it fills completely and nothing of it rests.
pub proof fn law_market_order_all_or_nothing(
    e: EngineView,
    side: Side,
    price: U256,
    quantity: U256,
)
    requires
        e.book.wf(),
        levels_qty(e.book.levels(side.spec_opposite())) < u256_modulus(),
    ensures
        ({
            let (e2, r) = submit_spec(e, side, price, quantity, OrderType::Market);
            let available = levels_qty(e.book.levels(side.spec_opposite()));
            &&& available < quantity@ ==> r.fills.len() == 0 && !r.resting && e2 == e
            &&& available >= quantity@ ==> r.resting_qty@ == 0 && !r.resting
        }),
{
    let available = levels_qty(e.book.levels(side.spec_opposite()));
    vstd::arithmetic::div_mod::lemma_small_mod(available, u256_modulus());
    if available >= quantity@ {
        lemma_sweep_exhausts(e.book, side, quantity, e.next_id);
    }
}

/// Some order with id `id` rests on `levels`.
pub open spec fn holds_id(levels: Seq<LevelView>, id: OrderId) -> bool {
    exists|i: int, k: int|
        0 <= i < levels.len() && 0 <= k < levels[i].orders.len() && (#[trigger] levels[i].orders[k]).id
            == id
}

/// Some order with id `id` rests on either side of the book.
pub open spec fn book_holds(book: BookView, id: OrderId) -> bool {
    holds_id(book.bids, id) || holds_id(book.asks, id)
}

proof fn lemma_level_take_ids(levels: Seq<LevelView>, max_qty: U256)
    requires
        levels.len() > 0,
        levels.last().orders.len() > 0,
    ensures
        forall|id: OrderId| #[trigger] holds_id(level_take(levels, max_qty), id) ==> holds_id(levels, id),
{
    let best = levels.last();
    let maker = best.orders[0];
    let fill = min_u256(max_qty, maker.quantity);
    let left = (maker.quantity@ - fill@) as nat;
    let nl = level_take(levels, max_qty);
    let last = levels.len() - 1;
    assert forall|id: OrderId| #[trigger] holds_id(nl, id) implies holds_id(levels, id) by {
        let (i, k) = choose|i: int, k: int|
            0 <= i < nl.len() && 0 <= k < nl[i].orders.len() && (#[trigger] nl[i].orders[k]).id == id;
        if i == last {
            if left == 0 {
                assert(nl[i].orders[k] == levels[last].orders[k + 1]);
            } else if k == 0 {
                assert(nl[i].orders[k].id == levels[last].orders[0].id);
            } else {
                assert(nl[i].orders[k] == levels[last].orders[k]);
            }
        } else {
            assert(nl[i] == levels[i]);
            assert(levels[i].orders[k].id == id);
        }
    }
}

proof fn lemma_level_insert_ids(levels: Seq<LevelView>, side: Side, order: EngineOrder)
    requires
        levels_wf(levels, side),
    ensures
        forall|id: OrderId| #[trigger] holds_id(level_insert(levels, side, order), id) ==> holds_id(levels, id)
            || id == order.id,
{
    let p = order.price;
    assert(exists|k: int| is_insert_pos(levels, side, p, k)) by {
        let kk = first_not_worse(levels, side, p, 0);
        lemma_first_not_worse(levels, side, p, 0);
        assert(is_insert_pos(levels, side, p, kk));
    }
    let kp = crate::book::insert_pos(levels, side, p);
    assert(is_insert_pos(levels, side, p, kp));
    let nl = level_insert(levels, side, order);
    assert forall|id: OrderId| #[trigger] holds_id(nl, id) implies holds_id(levels, id) || id == order.id by {
        let (i, k) = choose|i: int, k: int|
            0 <= i < nl.len() && 0 <= k < nl[i].orders.len() && (#[trigger] nl[i].orders[k]).id == id;
        if kp < levels.len() && levels[kp].price == p {
            if i == kp {
                if k < levels[kp].orders.len() {
                    assert(nl[i].orders[k] == levels[kp].orders[k]);
                }
            } else {
                assert(nl[i] == levels[i]);
                assert(levels[i].orders[k].id == id);
            }
        } else {
            if i < kp {
                assert(nl[i] == levels[i]);
                assert(levels[i].orders[k].id == id);
            } else if i > kp {
                assert(nl[i] == levels[i - 1]);
                assert(levels[i - 1].orders[k].id == id);
            }
        }
    }
}

/// Every fill of a sweep trades against an order resting on the opposite
/// side, and the sweep adds no order to the book.
proof fn lemma_sweep_ids(
    book: BookView,
    taker_side: Side,
    limit: Option<U256>,
    remaining: U256,
    taker_id: OrderId,
)
    ensures
        ({
            let sw = sweep(book, taker_side, limit, remaining, taker_id);
            &&& forall|j: int|
                0 <= j < sw.fills.len() ==> holds_id(
                    book.levels(taker_side.spec_opposite()),
                    #[trigger] sw.fills[j].maker_id,
                )
            &&& forall|id: OrderId| #[trigger] book_holds(sw.book, id) ==> book_holds(book, id)
        }),
    decreases crate::book::levels_count(book.levels(taker_side.spec_opposite())), remaining@,
{
    let s = taker_side.spec_opposite();
    let levels = book.levels(s);
    if remaining@ == 0 || levels.len() == 0 || levels.last().orders.len() == 0 || !crosses(
        taker_side,
        limit,
        levels.last().price,
    ) {
    } else {
        let maker = front_maker(book, s);
        let fill = min_u256(remaining, maker.quantity);
        let next = take_spec(book, s, remaining);
        let left = u256_of((remaining@ - fill@) as nat);
        crate::engine::lemma_take_decreases(book, s, remaining);
        lemma_level_take_ids(levels, remaining);
        lemma_sweep_ids(next, taker_side, limit, left, taker_id);
        let rest = sweep(next, taker_side, limit, left, taker_id);
        let sw = sweep(book, taker_side, limit, remaining, taker_id);
        let f = EngineFill { maker_id: maker.id, taker_id, price: levels.last().price, quantity: fill };
        assert(sw.fills == seq![f] + rest.fills);
        assert(next.levels(s) == level_take(levels, remaining));
        assert(next.levels(taker_side) == book.levels(taker_side)) by {
            match s {
                Side::Buy => {},
                Side::Sell => {},
            }
        }
        assert(holds_id(levels, maker.id)) by {
            assert(levels[levels.len() - 1].orders[0].id == maker.id);
        }
        assert forall|j: int| 0 <= j < sw.fills.len() implies holds_id(
            levels,
            #[trigger] sw.fills[j].maker_id,
        ) by {
            if j > 0 {
                assert(sw.fills[j] == rest.fills[j - 1]);
                assert(holds_id(next.levels(s), rest.fills[j - 1].maker_id));
            }
        }
        assert forall|id: OrderId| #[trigger] book_holds(sw.book, id) implies book_holds(book, id) by {
            assert(book_holds(next, id));
            if holds_id(next.levels(s), id) {
                assert(holds_id(levels, id));
            }
            match s {
                Side::Buy => {},
                Side::Sell => {},
            }
        }
    }
}

/// Submitting an order trades only against orders that were resting on the
/// book, and afterwards the book holds no order but those and the new order,
/// when its remainder rests.
pub proof fn law_submit_trades_with_resting_orders(
    e: EngineView,
    side: Side,
    price: U256,
    quantity: U256,
    order_type: OrderType,
)
    requires
        e.book.wf(),
    ensures
        ({
            let (e2, r) = submit_spec(e, side, price, quantity, order_type);
            &&& forall|j: int| 0 <= j < r.fills.len() ==> book_holds(e.book, #[trigger] r.fills[j].maker_id)
            &&& forall|id: OrderId| #[trigger] book_holds(e2.book, id) ==> book_holds(e.book, id) || (
                r.resting && id == e.next_id)
        }),
{
    let (e2, r) = submit_spec(e, side, price, quantity, order_type);
    if submit_takes_id(e, side, quantity, order_type) {
        let s = side.spec_opposite();
        let sw = sweep(e.book, side, limit_of(order_type, price), quantity, e.next_id);
        lemma_sweep_ids(e.book, side, limit_of(order_type, price), quantity, e.next_id);
        lemma_sweep_shape(e.book, side, limit_of(order_type, price), quantity, e.next_id);
        assert forall|j: int| 0 <= j < r.fills.len() implies book_holds(e.book, #[trigger] r.fills[j].maker_id) by {
            assert(holds_id(e.book.levels(s), sw.fills[j].maker_id));
            match s {
                Side::Buy => {},
                Side::Sell => {},
            }
        }
        if r.resting {
            let order = EngineOrder { id: e.next_id, side, price, quantity: sw.remaining };
            lemma_level_insert_ids(sw.book.levels(side), side, order);
            assert forall|id: OrderId| #[trigger] book_holds(e2.book, id) implies book_holds(e.book, id)
                || id == e.next_id by {
                if holds_id(e2.book.levels(side), id) {
                    assert(e2.book.levels(side) == level_insert(sw.book.levels(side), side, order));
                    if id != e.next_id {
                        assert(holds_id(sw.book.levels(side), id));
                        assert(book_holds(sw.book, id)) by {
                            match side {
                                Side::Buy => {},
                                Side::Sell => {},
                            }
                        }
                    }
                } else {
                    assert(e2.book.levels(side.spec_opposite()) == sw.book.levels(side.spec_opposite()));
                    assert(book_holds(sw.book, id)) by {
                        match side {
                            Side::Buy => {},
                            Side::Sell => {},
                        }
                    }
                }
                match side {
                    Side::Buy => {},
                    Side::Sell => {},
                }
            }
        }
    }
}

/// Cancelling an order right after it was added to the book gives back that
/// order and the book as it was, when no order of that id rested before.
pub proof fn law_cancel_undoes_insert(book: BookView, order: EngineOrder)
    requires
        book.wf(),
        !book.locations.contains_key(order.id),
        !holds_id(book.levels(order.side), order.id),
    ensures
        cancel_spec(book.inserted(order), order.id) == (book, Some(order)),
{
    let side = order.side;
    let p = order.price;
    let id = order.id;
    let levels = book.levels(side);
    assert(levels_wf(levels, side)) by {
        match side {
            Side::Buy => {},
            Side::Sell => {},
        }
    }
    assert(exists|k: int| is_insert_pos(levels, side, p, k)) by {
        let kk = first_not_worse(levels, side, p, 0);
        lemma_first_not_worse(levels, side, p, 0);
        assert(is_insert_pos(levels, side, p, kk));
    }
    let kp = crate::book::insert_pos(levels, side, p);
    assert(is_insert_pos(levels, side, p, kp));
    let nl = level_insert(levels, side, order);
    let b2 = book.inserted(order);
    assert(b2.levels(side) == nl) by {
        match side {
            Side::Buy => {},
            Side::Sell => {},
        }
    }
    assert(b2.locations.contains_key(id));
    let (lv2, r) = level_cancel(nl, p, id);
    if kp < levels.len() && levels[kp].price == p {
        let q = levels[kp].orders;
        let q2 = q.push(order);
        assert(nl[kp].price == p);
        assert(level_index(nl, p) == kp) by {
            let c = level_index(nl, p);
            assert(0 <= c < nl.len() && nl[c].price == p);
            if c != kp {
                assert(nl[c].price == levels[c].price);
                if c < kp {
                    assert(better(side, levels[kp].price, levels[c].price));
                } else {
                    assert(better(side, levels[c].price, levels[kp].price));
                }
            }
        }
        assert(nl[kp].orders == q2);
        assert(crate::book::is_first_id(q2, id, q.len() as int)) by {
            assert forall|k: int| 0 <= k < q.len() implies #[trigger] q2[k].id != id by {
                assert(q2[k] == levels[kp].orders[k]);
            }
        }
        crate::book::lemma_order_pos_unique(q2, id, q.len() as int);
        assert(q2.remove(q.len() as int) =~= q);
        assert(q.len() > 0);
        assert(lv2 =~= levels);
        assert(r == Some(order));
    } else {
        assert(level_index(nl, p) == kp) by {
            let c = level_index(nl, p);
            assert(nl[kp].price == p);
            assert(0 <= c < nl.len() && nl[c].price == p);
            if c < kp {
                assert(nl[c] == levels[c]);
                assert(better(side, p, levels[c].price));
            } else if c > kp {
                assert(nl[c] == levels[c - 1]);
                assert(!better(side, p, levels[c - 1].price));
                if c - 1 > kp {
                    assert(better(side, levels[c - 1].price, levels[kp].price));
                    assert(!better(side, p, levels[kp].price));
                }
            }
        }
        assert(nl[kp].orders == seq![order]);
        assert(crate::book::is_first_id(seq![order], id, 0));
        crate::book::lemma_order_pos_unique(seq![order], id, 0);
        assert(seq![order].remove(0) =~= Seq::<EngineOrder>::empty());
        assert(lv2 =~= levels);
        assert(r == Some(order));
    }
    assert(b2.locations.remove(id) =~= book.locations);
    let (b3, r3) = cancel_spec(b2, id);
    assert(b3.bids =~= book.bids && b3.asks =~= book.asks) by {
        match side {
            Side::Buy => {},
            Side::Sell => {},
        }
    }
}

/// Adding an order to a book adds no order but that one.
pub proof fn law_insert_adds_only_its_order(book: BookView, order: EngineOrder)
    requires
        book.wf(),
    ensures
        forall|id: OrderId| #[trigger] book_holds(book.inserted(order), id) ==> book_holds(book, id)
            || id == order.id,
{
    let side = order.side;
    assert(levels_wf(book.levels(side), side)) by {
        match side {
            Side::Buy => {},
            Side::Sell => {},
        }
    }
    lemma_level_insert_ids(book.levels(side), side, order);
    let b2 = book.inserted(order);
    assert forall|id: OrderId| #[trigger] book_holds(b2, id) implies book_holds(book, id) || id == order.id by {
        assert(b2.levels(side) == level_insert(book.levels(side), side, order));
        assert(b2.levels(side.spec_opposite()) == book.levels(side.spec_opposite())) by {
            match side {
                Side::Buy => {},
                Side::Sell => {},
            }
        }
        if holds_id(b2.levels(side), id) {
            if id != order.id {
                assert(holds_id(book.levels(side), id));
            }
        } else {
            assert(holds_id(b2.levels(side.spec_opposite()), id)) by {
                match side {
                    Side::Buy => {},
                    Side::Sell => {},
                }
            }
        }
        match side {
            Side::Buy => {},
            Side::Sell => {},
        }
    }
}

/// The prices of a sweep's fills never improve for the taker from one fill to
/// the next, and none is better than the opposite side's best price.
proof fn lemma_sweep_best_first(
    book: BookView,
    taker_side: Side,
    limit: Option<U256>,
    remaining: U256,
    taker_id: OrderId,
)
    requires
        book.wf(),
    ensures
        ({
            let s = taker_side.spec_opposite();
            let sw = sweep(book, taker_side, limit, remaining, taker_id);
            &&& forall|i: int, j: int|
                0 <= i < j < sw.fills.len() ==> !better(s, #[trigger] sw.fills[j].price, #[trigger] sw.fills[i].price)
            &&& sw.fills.len() > 0 ==> book.levels(s).len() > 0 && sw.fills[0].price == book.levels(s).last().price
            &&& forall|j: int|
                0 <= j < sw.fills.len() ==> !better(s, #[trigger] sw.fills[j].price, book.levels(s).last().price)
        }),
    decreases crate::book::levels_count(book.levels(taker_side.spec_opposite())), remaining@,
{
    let s = taker_side.spec_opposite();
    let levels = book.levels(s);
    if remaining@ == 0 || levels.len() == 0 || levels.last().orders.len() == 0 || !crosses(
        taker_side,
        limit,
        levels.last().price,
    ) {
    } else {
        let maker = front_maker(book, s);
        let fill = min_u256(remaining, maker.quantity);
        let next = take_spec(book, s, remaining);
        let left = u256_of((remaining@ - fill@) as nat);
        crate::engine::lemma_take_decreases(book, s, remaining);
        lemma_level_take_wf(levels, s, remaining);
        assert(next.wf()) by {
            match s {
                Side::Buy => {},
                Side::Sell => {},
            }
        }
        lemma_sweep_best_first(next, taker_side, limit, left, taker_id);
        let rest = sweep(next, taker_side, limit, left, taker_id);
        let sw = sweep(book, taker_side, limit, remaining, taker_id);
        let f = EngineFill { maker_id: maker.id, taker_id, price: levels.last().price, quantity: fill };
        assert(sw.fills == seq![f] + rest.fills);
        let nl = next.levels(s);
        assert(nl == level_take(levels, remaining));
        // every level left is at or behind the best price taken from
        if nl.len() > 0 {
            let a = nl.len() - 1;
            assert(nl[a].price == levels[a].price);
            if a < levels.len() - 1 {
                assert(better(s, levels[levels.len() - 1].price, levels[a].price));
            }
            assert(!better(s, nl.last().price, levels.last().price)) by {
                match s {
                    Side::Buy => {},
                    Side::Sell => {},
                }
            }
        }
        assert forall|j: int| 0 <= j < sw.fills.len() implies !better(
            s,
            #[trigger] sw.fills[j].price,
            levels.last().price,
        ) by {
            if j > 0 {
                assert(sw.fills[j] == rest.fills[j - 1]);
                assert(!better(s, rest.fills[j - 1].price, nl.last().price));
                match s {
                    Side::Buy => {},
                    Side::Sell => {},
                }
            }
        }
        assert forall|i: int, j: int| 0 <= i < j < sw.fills.len() implies !better(
            s,
            #[trigger] sw.fills[j].price,
            #[trigger] sw.fills[i].price,
        ) by {
            assert(sw.fills[j] == rest.fills[j - 1]);
            if i > 0 {
                assert(sw.fills[i] == rest.fills[i - 1]);
            } else {
                assert(!better(s, sw.fills[j].price, levels.last().price));
            }
        }
    }
}

/// Best price first: each fill of a submitted order is at a price no better
/// for the taker than the fill before it, the first one at the best opposite
/// price on the book. A buyer pays non-decreasing prices, a seller receives
/// non-increasing ones.
pub proof fn law_fills_best_price_first(
    e: EngineView,
    side: Side,
    price: U256,
    quantity: U256,
    order_type: OrderType,
)
    requires
        e.book.wf(),
    ensures
        ({
            let r = submit_spec(e, side, price, quantity, order_type).1;
            &&& r.fills.len() > 0 ==> e.book.best(side.spec_opposite()) == Some(r.fills[0].price)
            &&& side == Side::Buy ==> forall|i: int, j: int|
                0 <= i < j < r.fills.len() ==> (#[trigger] r.fills[i]).price@ <= (#[trigger] r.fills[j]).price@
            &&& side == Side::Sell ==> forall|i: int, j: int|
                0 <= i < j < r.fills.len() ==> (#[trigger] r.fills[i]).price@ >= (#[trigger] r.fills[j]).price@
        }),
{
    if submit_takes_id(e, side, quantity, order_type) {
        lemma_sweep_best_first(e.book, side, limit_of(order_type, price), quantity, e.next_id);
        let r = submit_spec(e, side, price, quantity, order_type).1;
        assert forall|i: int, j: int| 0 <= i < j < r.fills.len() implies (side == Side::Buy ==> (
        #[trigger] r.fills[i]).price@ <= (#[trigger] r.fills[j]).price@) && (side == Side::Sell ==> r.fills[i].price@
            >= r.fills[j].price@) by {
            assert(!better(side.spec_opposite(), r.fills[j].price, r.fills[i].price));
        }
    }
}


/// After a cancel the order is no longer on the book; a cancel of an id that
/// is not on the book changes nothing and returns nothing.
pub proof fn law_cancel_removes_order(book: BookView, id: OrderId)
    ensures
        !cancel_spec(book, id).0.locations.contains_key(id),
        !book.locations.contains_key(id) ==> cancel_spec(book, id) == (book, None::<EngineOrder>),
{
}


/// Time priority: an order added to the book joins the back of the queue at
/// its price, behind every order already resting there, which keep their order.
pub proof fn law_insert_joins_back_of_its_level(book: BookView, order: EngineOrder)
    requires
        book.wf(),
    ensures
        ({
            let side = order.side;
            let p = order.price;
            let levels = book.levels(side);
            let nl = book.inserted(order).levels(side);
            let i = level_index(nl, p);
            let before = if level_index(levels, p) >= 0 {
                levels[level_index(levels, p)].orders
            } else {
                Seq::<EngineOrder>::empty()
            };
            &&& 0 <= i < nl.len()
            &&& nl[i].orders == before.push(order)
        }),
{
    let side = order.side;
    let p = order.price;
    let levels = book.levels(side);
    assert(levels_wf(levels, side)) by {
        match side {
            Side::Buy => {},
            Side::Sell => {},
        }
    }
    assert(exists|k: int| is_insert_pos(levels, side, p, k)) by {
        let kk = first_not_worse(levels, side, p, 0);
        lemma_first_not_worse(levels, side, p, 0);
        assert(is_insert_pos(levels, side, p, kk));
    }
    let kp = crate::book::insert_pos(levels, side, p);
    assert(is_insert_pos(levels, side, p, kp));
    let nl = level_insert(levels, side, order);
    assert(book.inserted(order).levels(side) == nl) by {
        match side {
            Side::Buy => {},
            Side::Sell => {},
        }
    }
    if kp < levels.len() && levels[kp].price == p {
        crate::book::lemma_level_index_unique(levels, side, p, kp);
        assert(level_index(nl, p) == kp) by {
            let c = level_index(nl, p);
            assert(nl[kp].price == p);
            assert(0 <= c < nl.len() && nl[c].price == p);
            if c != kp {
                assert(nl[c].price == levels[c].price);
                if c < kp {
                    assert(better(side, levels[kp].price, levels[c].price));
                } else {
                    assert(better(side, levels[c].price, levels[kp].price));
                }
            }
        }
    } else {
        assert(level_index(levels, p) < 0) by {
            if exists|i: int| 0 <= i < levels.len() && #[trigger] levels[i].price == p {
                let c = choose|i: int| 0 <= i < levels.len() && #[trigger] levels[i].price == p;
                if c < kp {
                    assert(better(side, p, levels[c].price));
                } else if c > kp {
                    assert(better(side, levels[c].price, levels[kp].price));
                    assert(!better(side, p, levels[kp].price));
                }
            }
        }
        assert(level_index(nl, p) == kp) by {
            let c = level_index(nl, p);
            assert(nl[kp].price == p);
            assert(0 <= c < nl.len() && nl[c].price == p);
            if c < kp {
                assert(nl[c] == levels[c]);
                assert(better(side, p, levels[c].price));
            } else if c > kp {
                assert(nl[c] == levels[c - 1]);
                assert(!better(side, p, levels[c - 1].price));
                if c - 1 > kp {
                    assert(better(side, levels[c - 1].price, levels[kp].price));
                    assert(!better(side, p, levels[kp].price));
                }
            }
        }
        assert(nl[kp].orders =~= Seq::<EngineOrder>::empty().push(order));
    }
}

} // verus!
