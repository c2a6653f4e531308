//! The price-time priority order book.
//!
//! Each side holds its price levels ordered from the worst price to the best,
//! so the best level is the last one; within a level, orders queue in
//! arrival order.
use crate::types::{EngineOrder, OrderId, Side};
use crate::uint::{lemma_u256_of_view, u256_modulus, u256_of, U256};
use std::collections::{HashMap, VecDeque};
use vstd::prelude::*;

verus! {

broadcast use vstd::std_specs::hash::group_hash_axioms;

/// Where a resting order sits: its side and its price level.
#[derive(Clone, Copy, Debug, PartialEq, Eq, Structural)]
pub struct OrderLocation {
    pub side: Side,
    pub price: U256,
}

/// The contents of one price level.
pub struct LevelView {
    pub price: U256,
    pub orders: Seq<EngineOrder>,
}

/// The contents of a book.
pub struct BookView {
    pub bids: Seq<LevelView>,
    pub asks: Seq<LevelView>,
    pub locations: Map<OrderId, OrderLocation>,
}

/// What one take from the best level filled.
#[derive(Clone, Copy, Debug, PartialEq, Eq, Structural)]
pub struct TakeResult {
    pub maker_id: OrderId,
    pub fill_qty: U256,
}

struct PriceLevel {
    price: U256,
    orders: VecDeque<EngineOrder>,
}

impl View for PriceLevel {
    type V = LevelView;

    closed spec fn view(&self) -> LevelView {
        LevelView { price: self.price, orders: self.orders@ }
    }
}

/// A price-time priority book of resting orders.
pub struct OrderBook {
    bids: Vec<PriceLevel>,
    asks: Vec<PriceLevel>,
    locations: HashMap<OrderId, OrderLocation>,
}

// ---------------------------------------------------------------------------
// The model
// ---------------------------------------------------------------------------

/// `p` is a strictly better price than `q` for orders resting on `side`:
/// higher for bids, lower for asks.
pub open spec fn better(side: Side, p: U256, q: U256) -> bool {
    match side {
        Side::Buy => p@ > q@,
        Side::Sell => p@ < q@,
    }
}

/// Levels of one side: strictly improving in price, none empty, and each
/// holding only orders of its side at its price.
pub open spec fn levels_wf(levels: Seq<LevelView>, side: Side) -> bool {
    &&& forall|i: int, j: int|
        #![trigger levels[i], levels[j]]
        0 <= i < j < levels.len() ==> better(side, levels[j].price, levels[i].price)
    &&& forall|i: int| 0 <= i < levels.len() ==> #[trigger] levels[i].orders.len() > 0
    &&& forall|i: int, k: int|
        #![trigger levels[i].orders[k]]
        0 <= i < levels.len() && 0 <= k < levels[i].orders.len() ==> levels[i].orders[k].price
            == levels[i].price && levels[i].orders[k].side == side
}

impl BookView {
    pub open spec fn wf(self) -> bool {
        levels_wf(self.bids, Side::Buy) && levels_wf(self.asks, Side::Sell)
    }

    /// The levels on which orders of `side` rest.
    pub open spec fn levels(self, side: Side) -> Seq<LevelView> {
        match side {
            Side::Buy => self.bids,
            Side::Sell => self.asks,
        }
    }

    /// The book with the levels of `side` replaced.
    pub open spec fn with_levels(self, side: Side, levels: Seq<LevelView>) -> BookView {
        match side {
            Side::Buy => BookView { bids: levels, ..self },
            Side::Sell => BookView { asks: levels, ..self },
        }
    }

    /// The best price on `side`, if any order rests there.
    pub open spec fn best(self, side: Side) -> Option<U256> {
        let l = self.levels(side);
        if l.len() == 0 {
            None
        } else {
            Some(l.last().price)
        }
    }

    /// The book after `order` is added to the back of its price level.
    pub open spec fn inserted(self, order: EngineOrder) -> BookView {
        BookView {
            locations: self.locations.insert(
                order.id,
                OrderLocation { side: order.side, price: order.price },
            ),
            ..self.with_levels(order.side, level_insert(self.levels(order.side), order.side, order))
        }
    }
}

/// `k` splits the levels into those worse than `p` (before `k`) and the rest.
pub open spec fn is_insert_pos(levels: Seq<LevelView>, side: Side, p: U256, k: int) -> bool {
    &&& 0 <= k <= levels.len()
    &&& forall|i: int| 0 <= i < k ==> better(side, p, #[trigger] levels[i].price)
    &&& forall|i: int| k <= i < levels.len() ==> !better(side, p, #[trigger] levels[i].price)
}

pub open spec fn insert_pos(levels: Seq<LevelView>, side: Side, p: U256) -> int {
    choose|k: int| is_insert_pos(levels, side, p, k)
}

/// The levels after `order` joins the back of the level at its price, or
/// opens a new level at its place in price order.
pub open spec fn level_insert(levels: Seq<LevelView>, side: Side, order: EngineOrder) -> Seq<
    LevelView,
> {
    let k = insert_pos(levels, side, order.price);
    if k < levels.len() && levels[k].price == order.price {
        levels.update(k, LevelView { price: levels[k].price, orders: levels[k].orders.push(order) })
    } else {
        levels.insert(k, LevelView { price: order.price, orders: seq![order] })
    }
}

/// Index of the level at price `p`, or -1.
pub open spec fn level_index(levels: Seq<LevelView>, p: U256) -> int {
    if exists|i: int| 0 <= i < levels.len() && #[trigger] levels[i].price == p {
        choose|i: int| 0 <= i < levels.len() && #[trigger] levels[i].price == p
    } else {
        -1
    }
}

/// Index of the first order with id `id`, or -1.
pub open spec fn order_pos(orders: Seq<EngineOrder>, id: OrderId) -> int {
    if exists|j: int| is_first_id(orders, id, j) {
        choose|j: int| is_first_id(orders, id, j)
    } else {
        -1
    }
}

pub open spec fn is_first_id(orders: Seq<EngineOrder>, id: OrderId, j: int) -> bool {
    &&& 0 <= j < orders.len()
    &&& orders[j].id == id
    &&& forall|k: int| 0 <= k < j ==> #[trigger] orders[k].id != id
}

/// The levels after the first order `id` leaves the level at price `p`, and that order.
pub open spec fn level_cancel(levels: Seq<LevelView>, p: U256, id: OrderId) -> (
    Seq<LevelView>,
    Option<EngineOrder>,
) {
    let i = level_index(levels, p);
    if i < 0 {
        (levels, None)
    } else {
        let q = levels[i].orders;
        let j = order_pos(q, id);
        if j < 0 {
            (levels, None)
        } else {
            let q2 = q.remove(j);
            if q2.len() == 0 {
                (levels.remove(i), Some(q[j]))
            } else {
                (levels.update(i, LevelView { price: levels[i].price, orders: q2 }), Some(q[j]))
            }
        }
    }
}

/// The book after `cancel(id)`, and what it returns.
pub open spec fn cancel_spec(book: BookView, id: OrderId) -> (BookView, Option<EngineOrder>) {
    if !book.locations.contains_key(id) {
        (book, None)
    } else {
        let loc = book.locations[id];
        let (levels, r) = level_cancel(book.levels(loc.side), loc.price, id);
        (BookView { locations: book.locations.remove(id), ..book.with_levels(loc.side, levels) }, r)
    }
}

/// The smaller of two values.
pub open spec fn min_u256(a: U256, b: U256) -> U256 {
    if a@ <= b@ {
        a
    } else {
        b
    }
}

/// The levels after up to `max_qty` is taken from the front order of the best
/// level; the front order leaves once nothing of it is left.
pub open spec fn level_take(levels: Seq<LevelView>, max_qty: U256) -> Seq<LevelView> {
    let best = levels.last();
    let maker = best.orders[0];
    let fill = min_u256(max_qty, maker.quantity);
    let left = (maker.quantity@ - fill@) as nat;
    let q2 = if left == 0 {
        best.orders.drop_first()
    } else {
        best.orders.update(0, EngineOrder { quantity: u256_of(left), ..maker })
    };
    if q2.len() == 0 {
        levels.drop_last()
    } else {
        levels.drop_last().push(LevelView { price: best.price, orders: q2 })
    }
}

/// The order at the front of the best level of `side`.
pub open spec fn front_maker(book: BookView, side: Side) -> EngineOrder {
    book.levels(side).last().orders[0]
}

/// The book after a take of up to `max_qty` from the best level of `side`.
pub open spec fn take_spec(book: BookView, side: Side, max_qty: U256) -> BookView {
    let maker = front_maker(book, side);
    let fill = min_u256(max_qty, maker.quantity);
    let levels = level_take(book.levels(side), max_qty);
    let locations = if maker.quantity@ == fill@ {
        book.locations.remove(maker.id)
    } else {
        book.locations
    };
    BookView { locations, ..book.with_levels(side, levels) }
}

/// Sum of the quantities of a queue.
pub open spec fn orders_qty(s: Seq<EngineOrder>) -> nat
    decreases s.len(),
{
    if s.len() == 0 {
        0
    } else {
        orders_qty(s.drop_last()) + s.last().quantity@
    }
}

/// Sum of the quantities on a side.
pub open spec fn levels_qty(levels: Seq<LevelView>) -> nat
    decreases levels.len(),
{
    if levels.len() == 0 {
        0
    } else {
        levels_qty(levels.drop_last()) + orders_qty(levels.last().orders)
    }
}

/// Number of orders on a side.
pub open spec fn levels_count(levels: Seq<LevelView>) -> nat
    decreases levels.len(),
{
    if levels.len() == 0 {
        0
    } else {
        levels_count(levels.drop_last()) + levels.last().orders.len()
    }
}

/// A taker on `taker_side` whose worst acceptable price is `limit` trades at
/// `p`: a buyer at or below its limit, a seller at or above it.
pub open spec fn within_limit(taker_side: Side, limit: U256, p: U256) -> bool {
    match taker_side {
        Side::Buy => p@ <= limit@,
        Side::Sell => p@ >= limit@,
    }
}

/// The quantity resting on `levels`, the side opposite a taker on
/// `taker_side`, that the taker can trade within `limit`: every level from
/// the best one down to the first whose price lies outside the limit.
pub open spec fn crossing_qty(levels: Seq<LevelView>, taker_side: Side, limit: U256) -> nat
    decreases levels.len(),
{
    if levels.len() == 0 || !within_limit(taker_side, limit, levels.last().price) {
        0
    } else {
        crossing_qty(levels.drop_last(), taker_side, limit) + orders_qty(levels.last().orders)
    }
}

/// One aggregated level as the feed shows it: the price and the total quantity.
pub open spec fn level_summary(l: LevelView) -> (U256, U256) {
    (l.price, u256_of(orders_qty(l.orders)))
}

/// The first `limit` levels of a side from the best, aggregated.
pub open spec fn top_levels(levels: Seq<LevelView>, limit: nat) -> Seq<(U256, U256)> {
    let n = if limit < levels.len() {
        limit
    } else {
        levels.len()
    };
    Seq::new(n, |j: int| level_summary(levels[levels.len() - 1 - j]))
}

// ---------------------------------------------------------------------------
// Lemmas on the model
// ---------------------------------------------------------------------------

proof fn lemma_insert_pos_unique(levels: Seq<LevelView>, side: Side, p: U256, k1: int, k2: int)
    requires
        is_insert_pos(levels, side, p, k1),
        is_insert_pos(levels, side, p, k2),
    ensures
        k1 == k2,
{
    if k1 < k2 {
        assert(better(side, p, levels[k1].price));
    } else if k2 < k1 {
        assert(better(side, p, levels[k2].price));
    }
}

pub(crate) proof fn lemma_level_index_unique(levels: Seq<LevelView>, side: Side, p: U256, i: int)
    requires
        levels_wf(levels, side),
        0 <= i < levels.len(),
        levels[i].price == p,
    ensures
        level_index(levels, p) == i,
{
    let c = level_index(levels, p);
    assert(0 <= c < levels.len() && levels[c].price == p);
    if c < i {
        assert(better(side, levels[i].price, levels[c].price));
    } else if i < c {
        assert(better(side, levels[c].price, levels[i].price));
    }
}

pub(crate) proof fn lemma_order_pos_unique(orders: Seq<EngineOrder>, id: OrderId, j: int)
    requires
        is_first_id(orders, id, j),
    ensures
        order_pos(orders, id) == j,
{
    let c = order_pos(orders, id);
    assert(is_first_id(orders, id, c));
    if c < j {
        assert(orders[c].id != id);
    } else if j < c {
        assert(orders[j].id != id);
    }
}

proof fn lemma_orders_qty_push(s: Seq<EngineOrder>, o: EngineOrder)
    ensures
        orders_qty(s.push(o)) == orders_qty(s) + o.quantity@,
{
    assert(s.push(o).drop_last() =~= s);
}

// ---------------------------------------------------------------------------
// Level-vector operations
// ---------------------------------------------------------------------------

spec fn levels_view(levels: Seq<PriceLevel>) -> Seq<LevelView> {
    levels.map_values(|l: PriceLevel| l@)
}

fn is_better(side: Side, p: &U256, q: &U256) -> (r: bool)
    ensures
        r == better(side, *p, *q),
{
    match side {
        Side::Buy => q.lt(p),
        Side::Sell => p.lt(q),
    }
}

fn levels_insert(levels: &mut Vec<PriceLevel>, side: Side, order: EngineOrder)
    requires
        levels_wf(levels_view(old(levels)@), side),
        order.side == side,
    ensures
        levels_view(final(levels)@) == level_insert(levels_view(old(levels)@), side, order),
        levels_wf(levels_view(final(levels)@), side),
{
    let ghost lv = levels_view(levels@);
    let mut k: usize = 0;
    while k < levels.len() && is_better(side, &order.price, &levels[k].price)
        invariant
            k <= levels@.len(),
            lv == levels_view(levels@),
            forall|i: int| 0 <= i < k ==> better(side, order.price, #[trigger] lv[i].price),
        decreases levels@.len() - k,
    {
        k = k + 1;
    }
    proof {
        assert forall|i: int| k <= i < lv.len() implies !better(
            side,
            order.price,
            #[trigger] lv[i].price,
        ) by {
            if i > k {
                assert(better(side, lv[i].price, lv[k as int].price));
            }
        }
        assert(is_insert_pos(lv, side, order.price, k as int));
        lemma_insert_pos_unique(lv, side, order.price, k as int, insert_pos(lv, side, order.price));
    }
    if k < levels.len() && levels[k].price == order.price {
        let mut level = levels.remove(k);
        level.orders.push_back(order);
        levels.insert(k, level);
        proof {
            let target = lv.update(
                k as int,
                LevelView { price: lv[k as int].price, orders: lv[k as int].orders.push(order) },
            );
            assert(levels_view(levels@) =~= target);
        }
    } else {
        let mut orders: VecDeque<EngineOrder> = VecDeque::new();
        orders.push_back(order);
        levels.insert(k, PriceLevel { price: order.price, orders });
        proof {
            let target = lv.insert(k as int, LevelView { price: order.price, orders: seq![order] });
            assert(levels_view(levels@) =~= target);
            let nv = levels_view(levels@);
            assert forall|i: int, j: int|
                #![trigger nv[i], nv[j]]
                0 <= i < j < nv.len() implies better(side, nv[j].price, nv[i].price) by {
                if i < k && j > k {
                    assert(better(side, lv[j - 1].price, order.price) || lv[j - 1].price@
                        == order.price@);
                    if k < lv.len() {
                        assert(!better(side, order.price, lv[k as int].price));
                        assert(lv[k as int].price != order.price);
                        if lv[k as int].price@ == order.price@ {
                            crate::uint::lemma_u256_view_injective(lv[k as int].price, order.price);
                        }
                    }
                    if j - 1 > k {
                        assert(better(side, lv[j - 1].price, lv[k as int].price));
                    }
                } else if i == k && j > k {
                    if k < lv.len() && lv[k as int].price@ == order.price@ {
                        crate::uint::lemma_u256_view_injective(lv[k as int].price, order.price);
                    }
                    if j - 1 > k {
                        assert(better(side, lv[j - 1].price, lv[k as int].price));
                    }
                } else if i < k && j == k {
                    assert(better(side, order.price, lv[i].price));
                }
            }
        }
    }
}

fn levels_find(levels: &Vec<PriceLevel>, side: Side, price: &U256) -> (r: Option<usize>)
    requires
        levels_wf(levels_view(levels@), side),
    ensures
        match r {
            Some(i) => i < levels@.len() && level_index(levels_view(levels@), *price) == i,
            None => level_index(levels_view(levels@), *price) == -1,
        },
{
    let ghost lv = levels_view(levels@);
    let mut i: usize = 0;
    while i < levels.len()
        invariant
            i <= levels@.len(),
            lv == levels_view(levels@),
            levels_wf(lv, side),
            forall|k: int| 0 <= k < i ==> #[trigger] lv[k].price != *price,
        decreases levels@.len() - i,
    {
        if levels[i].price == *price {
            proof {
                lemma_level_index_unique(lv, side, *price, i as int);
            }
            return Some(i);
        }
        i = i + 1;
    }
    proof {
        assert(!exists|k: int| 0 <= k < lv.len() && #[trigger] lv[k].price == *price);
    }
    None
}

fn queue_find(orders: &VecDeque<EngineOrder>, id: OrderId) -> (r: Option<usize>)
    ensures
        match r {
            Some(j) => j < orders@.len() && order_pos(orders@, id) == j,
            None => order_pos(orders@, id) == -1,
        },
{
    let mut j: usize = 0;
    while j < orders.len()
        invariant
            j <= orders@.len(),
            forall|k: int| 0 <= k < j ==> #[trigger] orders@[k].id != id,
        decreases orders@.len() - j,
    {
        if orders[j].id == id {
            proof {
                lemma_order_pos_unique(orders@, id, j as int);
            }
            return Some(j);
        }
        j = j + 1;
    }
    proof {
        assert(!exists|k: int| is_first_id(orders@, id, k));
    }
    None
}

fn levels_cancel(levels: &mut Vec<PriceLevel>, side: Side, price: U256, id: OrderId) -> (r:
    Option<EngineOrder>)
    requires
        levels_wf(levels_view(old(levels)@), side),
    ensures
        (levels_view(final(levels)@), r) == level_cancel(levels_view(old(levels)@), price, id),
        levels_wf(levels_view(final(levels)@), side),
{
    let ghost lv = levels_view(levels@);
    let i = match levels_find(levels, side, &price) {
        Some(i) => i,
        None => return None,
    };
    let j = match queue_find(&levels[i].orders, id) {
        Some(j) => j,
        None => return None,
    };
    let mut level = levels.remove(i);
    let removed = level.orders.remove(j);
    let order = match removed {
        Some(o) => o,
        None => {
            proof {
                assert(false);
            }
            return None;
        },
    };
    if level.orders.len() > 0 {
        levels.insert(i, level);
        proof {
            let target = lv.update(
                i as int,
                LevelView { price: lv[i as int].price, orders: lv[i as int].orders.remove(j as int) },
            );
            assert(levels_view(levels@) =~= target);
            let nv = levels_view(levels@);
            assert forall|a: int, k: int|
                #![trigger nv[a].orders[k]]
                0 <= a < nv.len() && 0 <= k < nv[a].orders.len() implies nv[a].orders[k].price
                == nv[a].price && nv[a].orders[k].side == side by {
                if a == i {
                    if k < j {
                        assert(nv[a].orders[k] == lv[a].orders[k]);
                    } else {
                        assert(nv[a].orders[k] == lv[a].orders[k + 1]);
                    }
                }
            }
        }
    } else {
        proof {
            assert(levels_view(levels@) =~= lv.remove(i as int));
        }
    }
    Some(order)
}

/// Takes up to `max_qty` from the front order of the best level.
/// Returns that order and the quantity taken.
fn levels_take(levels: &mut Vec<PriceLevel>, side: Side, max_qty: U256) -> (r: (EngineOrder, U256))
    requires
        levels_wf(levels_view(old(levels)@), side),
        old(levels)@.len() > 0,
    ensures
        levels_view(final(levels)@) == level_take(levels_view(old(levels)@), max_qty),
        levels_wf(levels_view(final(levels)@), side),
        r.0 == levels_view(old(levels)@).last().orders[0],
        r.1 == min_u256(max_qty, r.0.quantity),
{
    let ghost lv = levels_view(levels@);
    let mut level = match levels.pop() {
        Some(l) => l,
        None => {
            proof {
                assert(false);
            }
            return (EngineOrder { id: 0, side, price: max_qty, quantity: max_qty }, max_qty);
        },
    };
    proof {
        assert(levels_view(levels@) =~= lv.drop_last());
        assert(level@ == lv.last());
    }
    let maker = match level.orders.pop_front() {
        Some(m) => m,
        None => {
            proof {
                assert(false);
            }
            return (EngineOrder { id: 0, side, price: max_qty, quantity: max_qty }, max_qty);
        },
    };
    let fill = max_qty.min(maker.quantity);
    let left = maker.quantity.wrapping_sub(fill);
    if !left.is_zero() {
        level.orders.push_front(EngineOrder { quantity: left, ..maker });
        proof {
            lemma_u256_of_view(left);
            assert(level.orders@ =~= lv.last().orders.update(0, EngineOrder { quantity: u256_of((maker.quantity@ - fill@) as nat), ..maker }));
        }
    } else {
        proof {
            assert(level.orders@ =~= lv.last().orders.drop_first());
        }
    }
    if level.orders.len() > 0 {
        levels.push(level);
        proof {
            assert(levels_view(levels@) =~= lv.drop_last().push(level@));
            let nv = levels_view(levels@);
            assert forall|a: int, k: int|
                #![trigger nv[a].orders[k]]
                0 <= a < nv.len() && 0 <= k < nv[a].orders.len() implies nv[a].orders[k].price
                == nv[a].price && nv[a].orders[k].side == side by {
                if a == nv.len() - 1 {
                    if k > 0 || left@ == 0 {
                        if left@ == 0 {
                            assert(nv[a].orders[k] == lv.last().orders[k + 1]);
                        } else {
                            assert(nv[a].orders[k] == lv.last().orders[k]);
                        }
                    } else {
                        assert(lv.last().orders[0].price == lv.last().price);
                    }
                } else {
                    assert(nv[a] == lv[a]);
                }
            }
        }
    }
    (maker, fill)
}

fn levels_summary(levels: &Vec<PriceLevel>, limit: usize) -> (r: Vec<(U256, U256)>)
    ensures
        r@ == top_levels(levels_view(levels@), limit as nat),
{
    let ghost lv = levels_view(levels@);
    let n = levels.len();
    let count = if limit < n {
        limit
    } else {
        n
    };
    let mut out: Vec<(U256, U256)> = Vec::new();
    let mut j: usize = 0;
    while j < count
        invariant
            count <= n == levels@.len(),
            lv == levels_view(levels@),
            count == (if limit < n { limit } else { n }),
            j <= count,
            out@ =~= top_levels(lv, limit as nat).subrange(0, j as int),
        decreases count - j,
    {
        let level = &levels[n - 1 - j];
        let qty = queue_qty(&level.orders);
        out.push((level.price, qty));
        proof {
            lemma_u256_of_view(qty);
            crate::uint::lemma_view_of_u256_of(orders_qty(level.orders@));
        }
        j = j + 1;
    }
    out
}

/// Sum of the quantities of a queue, modulo `2^256`.
fn queue_qty(orders: &VecDeque<EngineOrder>) -> (r: U256)
    ensures
        r@ == orders_qty(orders@) % u256_modulus(),
        r == u256_of(orders_qty(orders@)),
{
    let mut acc = U256::zero();
    let mut k: usize = 0;
    proof {
        assert(orders@.subrange(0, 0) =~= Seq::<EngineOrder>::empty());
    }
    while k < orders.len()
        invariant
            k <= orders@.len(),
            acc@ == orders_qty(orders@.subrange(0, k as int)) % u256_modulus(),
        decreases orders@.len() - k,
    {
        let q = orders[k].quantity;
        let ghost prefix = orders@.subrange(0, k as int);
        acc = acc.wrapping_add(q);
        proof {
            assert(orders@.subrange(0, k + 1) =~= prefix.push(orders@[k as int]));
            lemma_orders_qty_push(prefix, orders@[k as int]);
            vstd::arithmetic::div_mod::lemma_add_mod_noop(
                orders_qty(prefix) as int,
                q@ as int,
                u256_modulus() as int,
            );
            crate::uint::lemma_u256_bound(q);
            vstd::arithmetic::div_mod::lemma_small_mod(q@, u256_modulus());
        }
        k = k + 1;
    }
    proof {
        assert(orders@.subrange(0, k as int) =~= orders@);
        crate::uint::lemma_view_of_u256_of(orders_qty(orders@));
        crate::uint::lemma_u256_view_injective(acc, u256_of(orders_qty(orders@)));
    }
    acc
}

/// Sum of the quantities on a side, modulo `2^256`.
fn side_qty(levels: &Vec<PriceLevel>) -> (r: U256)
    ensures
        r@ == levels_qty(levels_view(levels@)) % u256_modulus(),
{
    let ghost lv = levels_view(levels@);
    let mut acc = U256::zero();
    let mut i: usize = 0;
    proof {
        assert(lv.subrange(0, 0) =~= Seq::<LevelView>::empty());
    }
    while i < levels.len()
        invariant
            i <= levels@.len(),
            lv == levels_view(levels@),
            acc@ == levels_qty(lv.subrange(0, i as int)) % u256_modulus(),
        decreases levels@.len() - i,
    {
        let q = queue_qty(&levels[i].orders);
        let ghost prefix = lv.subrange(0, i as int);
        acc = acc.wrapping_add(q);
        proof {
            assert(lv.subrange(0, i + 1).drop_last() =~= prefix);
            vstd::arithmetic::div_mod::lemma_add_mod_noop(
                levels_qty(prefix) as int,
                orders_qty(lv[i as int].orders) as int,
                u256_modulus() as int,
            );
            vstd::arithmetic::div_mod::lemma_mod_twice(
                orders_qty(lv[i as int].orders) as int,
                u256_modulus() as int,
            );
        }
        i = i + 1;
    }
    proof {
        assert(lv.subrange(0, i as int) =~= lv);
    }
    acc
}

/// Number of orders on a side, modulo `usize::MAX + 1`.
fn side_count(levels: &Vec<PriceLevel>) -> (r: usize)
    ensures
        r as nat == levels_count(levels_view(levels@)) % (usize::MAX as nat + 1),
{
    let ghost lv = levels_view(levels@);
    let mut acc: usize = 0;
    let mut i: usize = 0;
    proof {
        assert(lv.subrange(0, 0) =~= Seq::<LevelView>::empty());
        vstd::arithmetic::div_mod::lemma_small_mod(0, usize::MAX as nat + 1);
    }
    while i < levels.len()
        invariant
            i <= levels@.len(),
            lv == levels_view(levels@),
            acc as nat == levels_count(lv.subrange(0, i as int)) % (usize::MAX as nat + 1),
        decreases levels@.len() - i,
    {
        let c = levels[i].orders.len();
        let ghost prefix = lv.subrange(0, i as int);
        acc = acc.wrapping_add(c);
        proof {
            assert(lv.subrange(0, i + 1).drop_last() =~= prefix);
            vstd::arithmetic::div_mod::lemma_add_mod_noop(
                levels_count(prefix) as int,
                c as int,
                usize::MAX as int + 1,
            );
            vstd::arithmetic::div_mod::lemma_small_mod(c as nat, usize::MAX as nat + 1);
        }
        i = i + 1;
    }
    proof {
        assert(lv.subrange(0, i as int) =~= lv);
    }
    acc
}

fn is_within(taker_side: Side, limit: &U256, p: &U256) -> (r: bool)
    ensures
        r == within_limit(taker_side, *limit, *p),
{
    match taker_side {
        Side::Buy => p.le(limit),
        Side::Sell => limit.le(p),
    }
}

proof fn lemma_orders_qty_prefix(s: Seq<EngineOrder>, k: int)
    requires
        0 <= k <= s.len(),
    ensures
        orders_qty(s.subrange(0, k)) <= orders_qty(s),
    decreases s.len(),
{
    if k < s.len() {
        assert(s.drop_last().subrange(0, k) =~= s.subrange(0, k));
        lemma_orders_qty_prefix(s.drop_last(), k);
    } else {
        assert(s.subrange(0, k) =~= s);
    }
}

/// Whether `levels`, resting opposite a taker on `taker_side`, hold at least
/// `quantity` within `limit`. Counts from the best level and stops as soon as
/// the quantity is reached, so the count never overflows.
fn levels_fill_within(levels: &Vec<PriceLevel>, taker_side: Side, limit: &U256, quantity: &U256) -> (r: bool)
    ensures
        r == (crossing_qty(levels_view(levels@), taker_side, *limit) >= quantity@),
{
    let ghost lv = levels_view(levels@);
    if quantity.is_zero() {
        return true;
    }
    let mut acc = U256::zero();
    let mut i: usize = levels.len();
    proof {
        assert(lv.subrange(0, i as int) =~= lv);
    }
    while i > 0
        invariant
            i <= levels@.len(),
            lv == levels_view(levels@),
            acc@ < quantity@,
            crossing_qty(lv, taker_side, *limit) == acc@ + crossing_qty(
                lv.subrange(0, i as int),
                taker_side,
                *limit,
            ),
        decreases i,
    {
        let level = &levels[i - 1];
        let ghost sub = lv.subrange(0, i as int);
        proof {
            assert(sub.last() == lv[i - 1]);
            assert(sub.drop_last() =~= lv.subrange(0, i - 1));
        }
        if !is_within(taker_side, limit, &level.price) {
            return false;
        }
        let ghost acc0 = acc@;
        let mut k: usize = 0;
        proof {
            assert(level.orders@.subrange(0, 0) =~= Seq::<EngineOrder>::empty());
        }
        while k < level.orders.len()
            invariant
                k <= level.orders@.len(),
                0 < i <= lv.len(),
                lv == levels_view(levels@),
                lv[i - 1].orders == level.orders@,
                acc@ == acc0 + orders_qty(level.orders@.subrange(0, k as int)),
                acc@ < quantity@,
                crossing_qty(lv, taker_side, *limit) == acc0 + crossing_qty(
                    lv.subrange(0, i - 1),
                    taker_side,
                    *limit,
                ) + orders_qty(level.orders@),
            decreases level.orders@.len() - k,
        {
            let q = level.orders[k].quantity;
            proof {
                let pre = level.orders@.subrange(0, k as int);
                assert(level.orders@.subrange(0, k + 1) =~= pre.push(level.orders@[k as int]));
                lemma_orders_qty_push(pre, level.orders@[k as int]);
            }
            let gap = quantity.wrapping_sub(acc);
            if gap.le(&q) {
                proof {
                    lemma_orders_qty_prefix(level.orders@, k + 1);
                    assert(quantity@ <= acc@ + q@);
                }
                return true;
            }
            acc = acc.wrapping_add(q);
            proof {
                vstd::arithmetic::div_mod::lemma_small_mod((acc0 + orders_qty(level.orders@.subrange(0, k + 1))) as nat, u256_modulus());
                crate::uint::lemma_u256_bound(*quantity);
            }
            k = k + 1;
        }
        proof {
            assert(level.orders@.subrange(0, k as int) =~= level.orders@);
        }
        i = i - 1;
    }
    false
}

// ---------------------------------------------------------------------------
// The book
// ---------------------------------------------------------------------------

impl View for OrderBook {
    type V = BookView;

    closed spec fn view(&self) -> BookView {
        BookView {
            bids: levels_view(self.bids@),
            asks: levels_view(self.asks@),
            locations: self.locations@,
        }
    }
}

impl OrderBook {
    #[verifier::type_invariant]
    pub open spec fn inv(&self) -> bool {
        self@.wf()
    }

    /// Moves the levels of `side` out, leaving that side empty.
    fn take_levels(&mut self, side: Side) -> (r: Vec<PriceLevel>)
        ensures
            levels_view(r@) == old(self)@.levels(side),
            final(self)@ == old(self)@.with_levels(side, Seq::empty()),
            levels_wf(levels_view(r@), side),
    {
        proof {
            use_type_invariant(&*self);
        }
        let mut levels = Vec::new();
        match side {
            Side::Buy => std::mem::swap(&mut levels, &mut self.bids),
            Side::Sell => std::mem::swap(&mut levels, &mut self.asks),
        }
        proof {
            assert(levels_view(Seq::<PriceLevel>::empty()) =~= Seq::<LevelView>::empty());
            assert(self@ =~= old(self)@.with_levels(side, Seq::empty()));
        }
        levels
    }

    /// Puts `levels` back as the levels of `side`.
    fn put_levels(&mut self, side: Side, levels: Vec<PriceLevel>)
        requires
            levels_wf(levels_view(levels@), side),
        ensures
            final(self)@ == old(self)@.with_levels(side, levels_view(levels@)),
    {
        proof {
            use_type_invariant(&*self);
        }
        match side {
            Side::Buy => self.bids = levels,
            Side::Sell => self.asks = levels,
        }
        proof {
            assert(self@ =~= old(self)@.with_levels(side, levels_view(levels@)));
        }
    }

    pub fn new() -> (r: OrderBook)
        ensures
            r@.bids == Seq::<LevelView>::empty(),
            r@.asks == Seq::<LevelView>::empty(),
            r@.locations == Map::<OrderId, OrderLocation>::empty(),
    {
        let r = OrderBook { bids: Vec::new(), asks: Vec::new(), locations: HashMap::new() };
        proof {
            assert(levels_view(r.bids@) =~= Seq::<LevelView>::empty());
            assert(levels_view(r.asks@) =~= Seq::<LevelView>::empty());
        }
        r
    }

    /// Adds `order` at the back of its price level.
    pub fn insert(&mut self, order: EngineOrder)
        ensures
            final(self)@ == old(self)@.inserted(order),
            final(self)@.wf(),
    {
        proof {
            use_type_invariant(&*self);
        }
        let mut levels = self.take_levels(order.side);
        levels_insert(&mut levels, order.side, order);
        self.put_levels(order.side, levels);
        let mut locations = HashMap::new();
        std::mem::swap(&mut locations, &mut self.locations);
        locations.insert(order.id, OrderLocation { side: order.side, price: order.price });
        self.locations = locations;
        proof {
            assert(self@ == old(self)@.inserted(order));
        }
    }

    /// Removes the order `order_id` from the book and returns it.
    pub fn cancel(&mut self, order_id: OrderId) -> (r: Option<EngineOrder>)
        ensures
            (final(self)@, r) == cancel_spec(old(self)@, order_id),
            final(self)@.wf(),
    {
        proof {
            use_type_invariant(&*self);
        }
        let mut locations = HashMap::new();
        std::mem::swap(&mut locations, &mut self.locations);
        let removed = locations.remove(&order_id);
        self.locations = locations;
        let location = match removed {
            Some(l) => l,
            None => {
                proof {
                    assert(self@.locations =~= old(self)@.locations);
                    assert(self@ == old(self)@);
                }
                return None;
            },
        };
        let mut levels = self.take_levels(location.side);
        let r = levels_cancel(&mut levels, location.side, location.price, order_id);
        self.put_levels(location.side, levels);
        proof {
            let (b, rr) = cancel_spec(old(self)@, order_id);
            assert(self@ == b);
        }
        r
    }

    pub fn best_bid(&self) -> (r: Option<U256>)
        ensures
            r == self@.best(Side::Buy),
            self@.wf(),
    {
        proof {
            use_type_invariant(self);
        }
        let n = self.bids.len();
        if n == 0 {
            None
        } else {
            Some(self.bids[n - 1].price)
        }
    }

    pub fn best_ask(&self) -> (r: Option<U256>)
        ensures
            r == self@.best(Side::Sell),
            self@.wf(),
    {
        proof {
            use_type_invariant(self);
        }
        let n = self.asks.len();
        if n == 0 {
            None
        } else {
            Some(self.asks[n - 1].price)
        }
    }

    /// Takes up to `max_qty` from the front order of the best level of `side`.
    pub(crate) fn take_best(&mut self, side: Side, max_qty: U256) -> (r: Option<TakeResult>)
        ensures
            old(self)@.levels(side).len() == 0 ==> r is None && final(self)@ == old(self)@,
            old(self)@.levels(side).len() > 0 ==> {
                let maker = front_maker(old(self)@, side);
                &&& r == Some(
                    TakeResult { maker_id: maker.id, fill_qty: min_u256(max_qty, maker.quantity) },
                )
                &&& final(self)@ == take_spec(old(self)@, side, max_qty)
            },
            final(self)@.wf(),
    {
        proof {
            use_type_invariant(&*self);
        }
        let empty = match side {
            Side::Buy => self.bids.len() == 0,
            Side::Sell => self.asks.len() == 0,
        };
        if empty {
            return None;
        }
        let mut levels = self.take_levels(side);
        let (maker, fill) = levels_take(&mut levels, side, max_qty);
        self.put_levels(side, levels);
        if maker.quantity.same(&fill) {
            let mut locations = HashMap::new();
            std::mem::swap(&mut locations, &mut self.locations);
            locations.remove(&maker.id);
            self.locations = locations;
        }
        proof {
            assert(self@ == take_spec(old(self)@, side, max_qty));
        }
        Some(TakeResult { maker_id: maker.id, fill_qty: fill })
    }

    /// Fill up to `max_qty` from the best ask.
    pub(crate) fn take_best_ask(&mut self, max_qty: U256) -> (r: Option<TakeResult>)
        ensures
            old(self)@.asks.len() == 0 ==> r is None && final(self)@ == old(self)@,
            old(self)@.asks.len() > 0 ==> {
                let maker = front_maker(old(self)@, Side::Sell);
                &&& r == Some(
                    TakeResult { maker_id: maker.id, fill_qty: min_u256(max_qty, maker.quantity) },
                )
                &&& final(self)@ == take_spec(old(self)@, Side::Sell, max_qty)
            },
            final(self)@.wf(),
    {
        self.take_best(Side::Sell, max_qty)
    }

    /// Fill up to `max_qty` from the best bid.
    pub(crate) fn take_best_bid(&mut self, max_qty: U256) -> (r: Option<TakeResult>)
        ensures
            old(self)@.bids.len() == 0 ==> r is None && final(self)@ == old(self)@,
            old(self)@.bids.len() > 0 ==> {
                let maker = front_maker(old(self)@, Side::Buy);
                &&& r == Some(
                    TakeResult { maker_id: maker.id, fill_qty: min_u256(max_qty, maker.quantity) },
                )
                &&& final(self)@ == take_spec(old(self)@, Side::Buy, max_qty)
            },
            final(self)@.wf(),
    {
        self.take_best(Side::Buy, max_qty)
    }

    /// Total quantity resting on `side`, modulo `2^256`.
    pub fn total_qty(&self, side: Side) -> (r: U256)
        ensures
            r@ == levels_qty(self@.levels(side)) % u256_modulus(),
            self@.wf(),
    {
        proof {
            use_type_invariant(self);
        }
        match side {
            Side::Buy => side_qty(&self.bids),
            Side::Sell => side_qty(&self.asks),
        }
    }

    pub fn total_ask_qty(&self) -> (r: U256)
        ensures
            r@ == levels_qty(self@.asks) % u256_modulus(),
    {
        self.total_qty(Side::Sell)
    }

    pub fn total_bid_qty(&self) -> (r: U256)
        ensures
            r@ == levels_qty(self@.bids) % u256_modulus(),
    {
        self.total_qty(Side::Buy)
    }

    pub fn bid_depth(&self) -> (r: usize)
        ensures
            r as nat == levels_count(self@.bids) % (usize::MAX as nat + 1),
    {
        side_count(&self.bids)
    }

    pub fn ask_depth(&self) -> (r: usize)
        ensures
            r as nat == levels_count(self@.asks) % (usize::MAX as nat + 1),
    {
        side_count(&self.asks)
    }

    /// Aggregated bid levels, highest price first.
    pub fn bid_levels(&self, limit: usize) -> (r: Vec<(U256, U256)>)
        ensures
            r@ == top_levels(self@.bids, limit as nat),
    {
        levels_summary(&self.bids, limit)
    }

    /// Aggregated ask levels, lowest price first.
    pub fn ask_levels(&self, limit: usize) -> (r: Vec<(U256, U256)>)
        ensures
            r@ == top_levels(self@.asks, limit as nat),
    {
        levels_summary(&self.asks, limit)
    }

    /// The orders resting at `price` on `side`, oldest first.
    pub fn orders_at(&self, side: Side, price: U256) -> (r: Vec<EngineOrder>)
        ensures
            ({
                let levels = self@.levels(side);
                let i = level_index(levels, price);
                &&& i >= 0 ==> r@ == levels[i].orders
                &&& i < 0 ==> r@ == Seq::<EngineOrder>::empty()
            }),
    {
        proof {
            use_type_invariant(self);
        }
        let levels = match side {
            Side::Buy => &self.bids,
            Side::Sell => &self.asks,
        };
        let mut out: Vec<EngineOrder> = Vec::new();
        match levels_find(levels, side, &price) {
            Some(i) => {
                let orders = &levels[i].orders;
                let mut k: usize = 0;
                while k < orders.len()
                    invariant
                        k <= orders@.len(),
                        out@ == orders@.subrange(0, k as int),
                    decreases orders@.len() - k,
                {
                    out.push(orders[k]);
                    k = k + 1;
                    proof {
                        assert(out@ =~= orders@.subrange(0, k as int));
                    }
                }
                proof {
                    assert(out@ =~= orders@);
                }
            },
            None => {},
        }
        out
    }

    /// Whether the orders resting opposite a taker on `taker_side`, at prices
    /// within `limit`, hold at least `quantity` in all.
    pub fn fillable_within(&self, taker_side: Side, limit: U256, quantity: U256) -> (r: bool)
        ensures
            r == (crossing_qty(self@.levels(taker_side.spec_opposite()), taker_side, limit)
                >= quantity@),
    {
        match taker_side {
            Side::Buy => levels_fill_within(&self.asks, taker_side, &limit, &quantity),
            Side::Sell => levels_fill_within(&self.bids, taker_side, &limit, &quantity),
        }
    }

    /// Whether the order `id` is still on the book.
    pub fn has_order(&self, id: OrderId) -> (r: bool)
        ensures
            r == self@.locations.contains_key(id),
    {
        self.locations.contains_key(&id)
    }
}

} // verus!
