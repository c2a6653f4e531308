//! The HTTP API's response bodies and how they are made from the trading state.
use crate::book::top_levels;
use crate::engine::MatchingEngine;
use crate::ledger::balance_in;
use crate::primitives::Address;
use crate::state::{AppState, SubmitError};
use crate::types::Fill;
use crate::uint::U256;
use vstd::prelude::*;

verus! {

/// The answer to an accepted order.
#[derive(Clone, Debug)]
pub struct OrderResponse {
    pub order_id: u64,
    pub status: String,
    pub fills: Vec<Fill>,
}

/// The answer to a refused request.
#[derive(Clone, Debug)]
pub struct ErrorResponse {
    pub error: String,
}

/// One aggregated level of the order book, as decimal strings.
#[derive(Clone, Debug)]
pub struct BookLevel {
    pub price: String,
    pub quantity: String,
}

/// The order book as the API shows it.
#[derive(Clone, Debug)]
pub struct BookResponse {
    pub bids: Vec<BookLevel>,
    pub asks: Vec<BookLevel>,
}

/// A user's available balances in the two tokens of the market, as decimal strings.
#[derive(Clone, Debug)]
pub struct BalancesResponse {
    pub base: String,
    pub quote: String,
}

/// The character of a decimal digit.
pub open spec fn digit_char(d: nat) -> char {
    if d == 0 { '0' }
    else if d == 1 { '1' }
    else if d == 2 { '2' }
    else if d == 3 { '3' }
    else if d == 4 { '4' }
    else if d == 5 { '5' }
    else if d == 6 { '6' }
    else if d == 7 { '7' }
    else if d == 8 { '8' }
    else { '9' }
}

/// The decimal digits of `v`, most significant first, without leading zeros.
pub open spec fn decimal(v: nat) -> Seq<char>
    decreases v,
{
    if v < 10 {
        seq![digit_char(v)]
    } else {
        decimal(v / 10).push(digit_char(v % 10))
    }
}

/// Formats with ruint's `Display`, which prints the number in base 10 without
/// leading zeros; that is the claim.
#[verifier::external_body]
fn u256_to_decimal(v: U256) -> (r: String)
    ensures
        r@ == decimal(v@),
{
    alloy::primitives::U256::from_limbs([v.lo as u64, (v.lo >> 64) as u64, v.hi as u64, (v.hi >> 64) as u64]).to_string()
}

/// The decimal string of a 256-bit value.
pub fn decimal_string(v: U256) -> (r: String)
    ensures
        r@ == decimal(v@),
{
    u256_to_decimal(v)
}

/// The response to an accepted order.
pub fn accepted_response(order_id: u64, fills: Vec<Fill>) -> (r: OrderResponse)
    ensures
        r.order_id == order_id,
        r.status@ == "accepted"@,
        r.fills@ == fills@,
{
    OrderResponse { order_id, status: "accepted".to_owned(), fills }
}

/// The response to a refused order: the error's message.
pub fn error_response(e: &SubmitError) -> (r: ErrorResponse)
    ensures
        e is MarketPriceZero ==> r.error@ == "market order requires price > 0 for price protection"@,
        e is SignerMismatch ==> r.error@ == "signature does not match maker"@,
        e is ClockBeforeEpoch ==> r.error@ == "system clock before epoch"@,
        e is Expired ==> r.error@ == "order expired"@,
        e is DuplicateNonce ==> r.error@ == "duplicate nonce"@,
        e is InsufficientBalance ==> r.error@ == "insufficient balance"@,
        e is MarketNotFillable ==> r.error@ == "market order not fillable"@,
{
    ErrorResponse { error: e.message() }
}

/// One book level as decimal strings.
pub fn book_level(price: U256, quantity: U256) -> (r: BookLevel)
    ensures
        r.price@ == decimal(price@),
        r.quantity@ == decimal(quantity@),
{
    BookLevel { price: decimal_string(price), quantity: decimal_string(quantity) }
}

/// Aggregated levels as decimal strings, in the order given.
pub open spec fn levels_text(levels: Seq<(U256, U256)>, r: Seq<BookLevel>) -> bool {
    &&& r.len() == levels.len()
    &&& forall|j: int|
        0 <= j < levels.len() ==> (#[trigger] r[j]).price@ == decimal(levels[j].0@)
            && r[j].quantity@ == decimal(levels[j].1@)
}

fn levels_as_text(levels: &Vec<(U256, U256)>) -> (r: Vec<BookLevel>)
    ensures
        levels_text(levels@, r@),
{
    let mut out: Vec<BookLevel> = Vec::new();
    let mut j: usize = 0;
    while j < levels.len()
        invariant
            j <= levels@.len(),
            out@.len() == j,
            forall|i: int|
                0 <= i < j ==> (#[trigger] out@[i]).price@ == decimal(levels@[i].0@)
                    && out@[i].quantity@ == decimal(levels@[i].1@),
        decreases levels@.len() - j,
    {
        let (price, quantity) = levels[j];
        out.push(book_level(price, quantity));
        j = j + 1;
    }
    out
}

/// The whole book, best levels first on each side, each level with its total quantity.
pub fn book_response(engine: &MatchingEngine) -> (r: BookResponse)
    ensures
        levels_text(top_levels(engine@.book.bids, usize::MAX as nat), r.bids@),
        levels_text(top_levels(engine@.book.asks, usize::MAX as nat), r.asks@),
{
    let bids = engine.bid_levels(usize::MAX);
    let asks = engine.ask_levels(usize::MAX);
    BookResponse { bids: levels_as_text(&bids), asks: levels_as_text(&asks) }
}

/// The available balances of `address` in the market's base and quote tokens.
pub fn balances_response(state: &AppState, address: Address) -> (r: BalancesResponse)
    ensures
        r.base@ == decimal(balance_in(state.ledger@, address, state.base_token).available@),
        r.quote@ == decimal(balance_in(state.ledger@, address, state.quote_token).available@),
{
    let base = state.ledger.available(address, state.base_token);
    let quote = state.ledger.available(address, state.quote_token);
    BalancesResponse { base: decimal_string(base), quote: decimal_string(quote) }
}

} // verus!
