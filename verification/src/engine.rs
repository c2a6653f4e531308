//! The matching engine: price-time priority matching of limit and market orders.
use crate::book::{
    crossing_qty, front_maker, levels_count, levels_qty, min_u256, take_spec, top_levels, BookView, LevelView,
    OrderBook, OrderLocation,
};
use crate::types::{EngineOrder, OrderId, OrderType, Side};
use crate::uint::{lemma_u256_of_view, lemma_view_of_u256_of, u256_modulus, u256_of, U256};
use vstd::prelude::*;

verus! {

/// One match between a resting maker order and an incoming taker order.
#[derive(Clone, Copy, Debug, PartialEq, Eq, Structural)]
pub struct EngineFill {
    pub maker_id: OrderId,
    pub taker_id: OrderId,
    pub price: U256,
    pub quantity: U256,
}

/// What submitting an order did.
#[derive(Debug)]
pub struct MatchResult {
    pub fills: Vec<EngineFill>,
    pub resting_qty: U256,
    pub resting: bool,
}

pub struct MatchResultView {
    pub fills: Seq<EngineFill>,
    pub resting_qty: U256,
    pub resting: bool,
}

impl View for MatchResult {
    type V = MatchResultView;

    open spec fn view(&self) -> MatchResultView {
        MatchResultView { fills: self.fills@, resting_qty: self.resting_qty, resting: self.resting }
    }
}

/// The engine's contents: the book and the next order id.
pub struct EngineView {
    pub book: BookView,
    pub next_id: OrderId,
}

pub struct MatchingEngine {
    book: OrderBook,
    next_id: OrderId,
}

// ---------------------------------------------------------------------------
// The model of matching
// ---------------------------------------------------------------------------

/// The limit price of an order: none for a market order.
pub open spec fn limit_of(order_type: OrderType, price: U256) -> Option<U256> {
    match order_type {
        OrderType::Limit => Some(price),
        OrderType::Market => None,
    }
}

/// A taker on `taker_side` with limit `limit` trades at the opposite best price `best`.
pub open spec fn crosses(taker_side: Side, limit: Option<U256>, best: U256) -> bool {
    match limit {
        None => true,
        Some(p) => match taker_side {
            Side::Buy => best@ <= p@,
            Side::Sell => best@ >= p@,
        },
    }
}

/// What a sweep of the opposite side produced.
pub struct Sweep {
    pub fills: Seq<EngineFill>,
    pub book: BookView,
    pub remaining: U256,
}

/// The taker `taker_id` on `taker_side` trades `remaining` against the best
/// opposite orders, best price first and oldest first within a price, for as
/// long as the best price crosses its limit.
pub open spec fn sweep(
    book: BookView,
    taker_side: Side,
    limit: Option<U256>,
    remaining: U256,
    taker_id: OrderId,
) -> Sweep
    decreases levels_count(book.levels(taker_side.spec_opposite())), remaining@,
{
    let s = taker_side.spec_opposite();
    let levels = book.levels(s);
    if remaining@ == 0 || levels.len() == 0 || levels.last().orders.len() == 0 || !crosses(
        taker_side,
        limit,
        levels.last().price,
    ) {
        Sweep { fills: Seq::empty(), book, remaining }
    } else {
        let maker = front_maker(book, s);
        let fill = min_u256(remaining, maker.quantity);
        let next = take_spec(book, s, remaining);
        let left = u256_of((remaining@ - fill@) as nat);
        proof {
            lemma_take_decreases(book, s, remaining);
        }
        let rest = sweep(next, taker_side, limit, left, taker_id);
        Sweep {
            fills: seq![
                EngineFill { maker_id: maker.id, taker_id, price: levels.last().price, quantity: fill },
            ] + rest.fills,
            book: rest.book,
            remaining: rest.remaining,
        }
    }
}

/// Each take either removes the front order or leaves nothing of the taker.
pub proof fn lemma_take_decreases(book: BookView, s: Side, remaining: U256)
    requires
        book.levels(s).len() > 0,
        book.levels(s).last().orders.len() > 0,
        remaining@ > 0,
    ensures
        ({
            let maker = front_maker(book, s);
            let fill = min_u256(remaining, maker.quantity);
            let next = take_spec(book, s, remaining);
            let left = u256_of((remaining@ - fill@) as nat);
            &&& fill@ <= remaining@
            &&& left@ == remaining@ - fill@
            &&& (levels_count(next.levels(s)) < levels_count(book.levels(s)) || (levels_count(
                next.levels(s),
            ) == levels_count(book.levels(s)) && left@ < remaining@))
        }),
{
    let levels = book.levels(s);
    let maker = front_maker(book, s);
    let fill = min_u256(remaining, maker.quantity);
    let next = take_spec(book, s, remaining);
    let best = levels.last();
    crate::uint::lemma_u256_bound(remaining);
    lemma_view_of_u256_of((remaining@ - fill@) as nat);
    vstd::arithmetic::div_mod::lemma_small_mod((remaining@ - fill@) as nat, u256_modulus());
    let left = (maker.quantity@ - fill@) as nat;
    assert(next.levels(s) == crate::book::level_take(levels, remaining));
    if left == 0 {
        let q2 = best.orders.drop_first();
        if q2.len() == 0 {
            assert(levels_count(levels) == levels_count(levels.drop_last()) + best.orders.len());
        } else {
            let nl = levels.drop_last().push(LevelView { price: best.price, orders: q2 });
            assert(nl.drop_last() =~= levels.drop_last());
        }
    } else {
        let q2 = best.orders.update(0, EngineOrder { quantity: u256_of(left), ..maker });
        let nl = levels.drop_last().push(LevelView { price: best.price, orders: q2 });
        assert(nl.drop_last() =~= levels.drop_last());
    }
}

/// The engine and the result after an order is submitted.
pub open spec fn submit_spec(
    e: EngineView,
    side: Side,
    price: U256,
    quantity: U256,
    order_type: OrderType,
) -> (EngineView, MatchResultView) {
    let available = levels_qty(e.book.levels(side.spec_opposite())) % u256_modulus();
    if order_type == OrderType::Market && available < quantity@ {
        (e, MatchResultView { fills: Seq::empty(), resting_qty: u256_of(0), resting: false })
    } else {
        let id = e.next_id;
        let sw = sweep(e.book, side, limit_of(order_type, price), quantity, id);
        let resting = sw.remaining@ > 0 && order_type == OrderType::Limit;
        let book = if resting {
            sw.book.inserted(EngineOrder { id, side, price, quantity: sw.remaining })
        } else {
            sw.book
        };
        (
            EngineView { book, next_id: (id + 1) as OrderId },
            MatchResultView { fills: sw.fills, resting_qty: sw.remaining, resting },
        )
    }
}

/// Submitting consumes an id: all but a market order turned away for want of liquidity.
pub open spec fn submit_takes_id(
    e: EngineView,
    side: Side,
    quantity: U256,
    order_type: OrderType,
) -> bool {
    !(order_type == OrderType::Market && levels_qty(e.book.levels(side.spec_opposite()))
        % u256_modulus() < quantity@)
}

// ---------------------------------------------------------------------------
// The engine
// ---------------------------------------------------------------------------

impl View for MatchingEngine {
    type V = EngineView;

    closed spec fn view(&self) -> EngineView {
        EngineView { book: self.book@, next_id: self.next_id }
    }
}

impl Default for MatchingEngine {
    fn default() -> (r: MatchingEngine)
        ensures
            r@.book.bids == Seq::<LevelView>::empty(),
            r@.book.asks == Seq::<LevelView>::empty(),
            r@.book.locations == Map::<OrderId, OrderLocation>::empty(),
            r@.next_id == 1,
    {
        MatchingEngine { book: OrderBook::new(), next_id: 1 }
    }
}

impl MatchingEngine {
    pub fn new() -> (r: MatchingEngine)
        ensures
            r@.book.bids == Seq::<LevelView>::empty(),
            r@.book.asks == Seq::<LevelView>::empty(),
            r@.book.locations == Map::<OrderId, OrderLocation>::empty(),
            r@.next_id == 1,
    {
        MatchingEngine::default()
    }

    /// The book is always well formed.
    pub fn book_is_wf(&self)
        ensures
            self@.book.wf(),
    {
        proof {
            use_type_invariant(&self.book);
        }
    }

    /// Matches an order against the book; a limit order's remainder rests,
    /// a market order is all-or-nothing against the liquidity on the book.
    pub fn submit(&mut self, side: Side, price: U256, quantity: U256, order_type: OrderType) -> (r:
        MatchResult)
        requires
            submit_takes_id(old(self)@, side, quantity, order_type) ==> old(self)@.next_id
                < u64::MAX,
        ensures
            (final(self)@, r@) == submit_spec(old(self)@, side, price, quantity, order_type),
            final(self)@.book.wf(),
            crate::engine_laws::uncrossed(old(self)@.book) ==> crate::engine_laws::uncrossed(
                final(self)@.book,
            ),
    {
        proof {
            use_type_invariant(&self.book);
            if crate::engine_laws::uncrossed(self@.book) {
                crate::engine_laws::law_submit_keeps_book_uncrossed(self@, side, price, quantity, order_type);
            }
        }
        let opposite = side.opposite();
        // Market orders are all-or-nothing: reject upfront if the book cannot fill them.
        if order_type == OrderType::Market {
            let available = self.book.total_qty(opposite);
            if available.lt(&quantity) {
                return MatchResult { fills: Vec::new(), resting_qty: U256::zero(), resting: false };
            }
        }
        let id = self.next_id;
        self.next_id = self.next_id + 1;
        let ghost limit = limit_of(order_type, price);
        let ghost target = sweep(self.book@, side, limit, quantity, id);
        let mut fills: Vec<EngineFill> = Vec::new();
        let mut remaining = quantity;
        loop
            invariant_except_break
                opposite == side.spec_opposite(),
                limit == limit_of(order_type, price),
                self.book@.wf(),
                self.next_id == id + 1,
                fills@ + sweep(self.book@, side, limit, remaining, id).fills == target.fills,
                sweep(self.book@, side, limit, remaining, id).book == target.book,
                sweep(self.book@, side, limit, remaining, id).remaining == target.remaining,
            ensures
                self.book@.wf(),
                self.next_id == id + 1,
                fills@ == target.fills,
                self.book@ == target.book,
                remaining == target.remaining,
            decreases levels_count(self.book@.levels(opposite)), remaining@,
        {
            let ghost cur = self.book@;
            if remaining.is_zero() {
                proof {
                    assert(fills@ + Seq::<EngineFill>::empty() =~= fills@);
                }
                break;
            }
            let best = match opposite {
                Side::Buy => self.book.best_bid(),
                Side::Sell => self.book.best_ask(),
            };
            let best_price = match best {
                Some(p) => p,
                None => {
                    proof {
                        assert(self.book@.levels(side.spec_opposite()).len() == 0);
                        assert(sweep(self.book@, side, limit, remaining, id).fills =~= Seq::<
                            EngineFill,
                        >::empty());
                        assert(fills@ + Seq::<EngineFill>::empty() =~= fills@);
                    }
                    break;
                },
            };
            if order_type == OrderType::Limit {
                let stop = match side {
                    Side::Buy => price.lt(&best_price),
                    Side::Sell => best_price.lt(&price),
                };
                if stop {
                    proof {
                        assert(fills@ + Seq::<EngineFill>::empty() =~= fills@);
                    }
                    break;
                }
            }
            let take = match self.book.take_best(opposite, remaining) {
                Some(t) => t,
                None => {
                    proof {
                        assert(false);
                    }
                    break;
                },
            };
            proof {
                let lv = cur.levels(opposite);
                assert(lv[lv.len() - 1].orders.len() > 0);
                assert(crosses(side, limit, lv.last().price));
                lemma_take_decreases(cur, opposite, remaining);
                let f = EngineFill {
                    maker_id: take.maker_id,
                    taker_id: id,
                    price: best_price,
                    quantity: take.fill_qty,
                };
                assert(seq![f] + sweep(self.book@, side, limit, u256_of((remaining@ - take.fill_qty@) as nat), id).fills
                    == sweep(cur, side, limit, remaining, id).fills);
                assert(fills@.push(f) + sweep(self.book@, side, limit, u256_of((remaining@ - take.fill_qty@) as nat), id).fills
                    =~= fills@ + (seq![f] + sweep(self.book@, side, limit, u256_of((remaining@ - take.fill_qty@) as nat), id).fills));
            }
            fills.push(
                EngineFill {
                    maker_id: take.maker_id,
                    taker_id: id,
                    price: best_price,
                    quantity: take.fill_qty,
                },
            );
            let ghost prev = remaining;
            remaining = remaining.wrapping_sub(take.fill_qty);
            proof {
                lemma_u256_of_view(remaining);
                assert(remaining == u256_of((prev@ - take.fill_qty@) as nat));
            }
        }
        let resting = !remaining.is_zero() && order_type == OrderType::Limit;
        if resting {
            self.book.insert(EngineOrder { id, side, price, quantity: remaining });
        }
        proof {
            crate::uint::lemma_u256_of_view(U256 { hi: 0, lo: 0 });
        }
        MatchResult { fills, resting_qty: remaining, resting }
    }

    /// Removes a resting order; true when it was on the book.
    pub fn cancel(&mut self, order_id: OrderId) -> (r: bool)
        ensures
            final(self)@.book == crate::book::cancel_spec(old(self)@.book, order_id).0,
            final(self)@.next_id == old(self)@.next_id,
            r == crate::book::cancel_spec(old(self)@.book, order_id).1 is Some,
            final(self)@.book.wf(),
    {
        self.book.cancel(order_id).is_some()
    }

    /// Inserts an order under an id it already had, without advancing the id counter.
    pub fn restore_order(&mut self, id: OrderId, side: Side, price: U256, quantity: U256)
        ensures
            final(self)@.book == old(self)@.book.inserted(
                EngineOrder { id, side, price, quantity },
            ),
            final(self)@.next_id == old(self)@.next_id,
            final(self)@.book.wf(),
    {
        self.book.insert(EngineOrder { id, side, price, quantity });
    }

    /// Whether the orders resting opposite a taker on `side`, at prices within
    /// `limit`, hold at least `quantity` in all.
    pub fn fillable_within(&self, side: Side, limit: U256, quantity: U256) -> (r: bool)
        ensures
            r == (crossing_qty(self@.book.levels(side.spec_opposite()), side, limit) >= quantity@),
    {
        self.book.fillable_within(side, limit, quantity)
    }

    pub fn best_bid(&self) -> (r: Option<U256>)
        ensures
            r == self@.book.best(Side::Buy),
    {
        self.book.best_bid()
    }

    pub fn best_ask(&self) -> (r: Option<U256>)
        ensures
            r == self@.book.best(Side::Sell),
    {
        self.book.best_ask()
    }

    pub fn bid_depth(&self) -> (r: usize)
        ensures
            r as nat == levels_count(self@.book.bids) % (usize::MAX as nat + 1),
    {
        self.book.bid_depth()
    }

    pub fn ask_depth(&self) -> (r: usize)
        ensures
            r as nat == levels_count(self@.book.asks) % (usize::MAX as nat + 1),
    {
        self.book.ask_depth()
    }

    /// The id the next accepted order will get.
    pub fn next_order_id(&self) -> (r: OrderId)
        ensures
            r == self@.next_id,
    {
        self.next_id
    }

    /// The id given to the most recently submitted order.
    pub fn last_order_id(&self) -> (r: OrderId)
        requires
            self@.next_id > 0,
        ensures
            r == self@.next_id - 1,
    {
        self.next_id - 1
    }

    pub fn bid_levels(&self, limit: usize) -> (r: Vec<(U256, U256)>)
        ensures
            r@ == top_levels(self@.book.bids, limit as nat),
    {
        self.book.bid_levels(limit)
    }

    pub fn ask_levels(&self, limit: usize) -> (r: Vec<(U256, U256)>)
        ensures
            r@ == top_levels(self@.book.asks, limit as nat),
    {
        self.book.ask_levels(limit)
    }

    pub fn set_next_id(&mut self, id: u64)
        ensures
            final(self)@.book == old(self)@.book,
            final(self)@.next_id == id,
    {
        self.next_id = id;
    }

    /// Whether the order is still resting on the book.
    pub fn has_order(&self, id: OrderId) -> (r: bool)
        ensures
            r == self@.book.locations.contains_key(id),
    {
        self.book.has_order(id)
    }
}

} // verus!
