//! The gateway's trading state: accepting signed orders, matching them and
//! recording the trades to settle.
use crate::eip712::{
    compute_domain_separator, domain_separator_spec, order_digest_spec, order_hash,
    order_hash_spec, recover_signer, recovered_signer, sol_order_spec,
};
use crate::book::crossing_qty;
use crate::engine_laws::{book_holds, law_insert_adds_only_its_order, law_submit_trades_with_resting_orders};
use crate::engine::{submit_spec, submit_takes_id, EngineFill, MatchingEngine, MatchResultView};
use crate::ledger::{add_u256, balance_in, sub_u256, Ledger, TokenBalance};
use crate::primitives::{Address, B256};
use crate::types::{Fill, OrderId, OrderType, Side, SignedOrder, SignedOrderView, Trade, TradeView};
use crate::uint::{u256_modulus, u256_of, U256};
use std::collections::{HashMap, HashSet};
use vstd::prelude::*;

verus! {

broadcast use vstd::std_specs::hash::group_hash_axioms;

/// `std::time::SystemTime`.
#[verifier::external_type_specification]
#[verifier::external_body]
pub struct ExSystemTime(std::time::SystemTime);

/// Calls `std::time::SystemTime::now`; nothing is claimed of the time it reads.
#[verifier::external_body]
fn system_now() -> std::time::SystemTime {
    std::time::SystemTime::now()
}

/// Calls `SystemTime::duration_since(UNIX_EPOCH)`; `None` where the clock
/// reads before the epoch. Nothing is claimed of the value.
#[verifier::external_body]
fn duration_since_epoch(t: &std::time::SystemTime) -> Option<std::time::Duration> {
    t.duration_since(std::time::UNIX_EPOCH).ok()
}

/// Calls `Duration::as_secs`; nothing is claimed of the value.
#[verifier::external_body]
fn whole_secs(d: &std::time::Duration) -> u64 {
    d.as_secs()
}

/// Seconds since the Unix epoch by the system clock; `None` when the clock
/// reads before the epoch.
pub fn unix_now() -> Option<u64> {
    let t = system_now();
    match duration_since_epoch(&t) {
        Some(d) => Some(whole_secs(&d)),
        None => None,
    }
}

/// A count of seconds as the database stores it: the bits of the unsigned
/// count read as a signed number (what `cast_signed` gives).
pub fn stored_secs(secs: u64) -> (r: i64)
    ensures
        r == secs as i64,
        secs <= i64::MAX ==> r == secs,
        secs > i64::MAX ==> r == secs - 0x1_0000_0000_0000_0000int,
{
    proof {
        assert(secs <= i64::MAX ==> secs as i64 == secs) by (bit_vector);
        assert(secs > i64::MAX ==> secs as i64 == secs - 0x1_0000_0000_0000_0000int) by (bit_vector);
    }
    secs as i64
}

/// Seconds since the Unix epoch by the system clock, as the database stores
/// them ([`stored_secs`] of [`unix_now`]'s reading); `None` when the clock
/// reads before the epoch.
pub fn now_secs() -> Option<i64> {
    match unix_now() {
        Some(s) => Some(stored_secs(s)),
        None => None,
    }
}

/// Calls `Display::to_string` on alloy's signature error; nothing is claimed of the text.
#[verifier::external_body]
fn signature_error_text(e: &alloy::primitives::SignatureError) -> String {
    e.to_string()
}

// ---------------------------------------------------------------------------
// Accepted nonces
// ---------------------------------------------------------------------------

/// A set of order hashes already accepted, kept as buckets keyed by the high
/// half of a hash, each holding the low halves of the hashes in it.
#[derive(Debug)]
pub struct NonceSet {
    buckets: HashMap<u128, HashSet<u128>>,
}

impl View for NonceSet {
    type V = Set<B256>;

    closed spec fn view(&self) -> Set<B256> {
        Set::new(|h: B256| self.buckets@.contains_key(h.hi) && self.buckets@[h.hi]@.contains(h.lo))
    }
}

impl NonceSet {
    pub fn new() -> (r: NonceSet)
        ensures
            r@ == Set::<B256>::empty(),
    {
        let r = NonceSet { buckets: HashMap::new() };
        proof {
            assert(r@ =~= Set::<B256>::empty());
        }
        r
    }

    pub fn contains(&self, h: &B256) -> (r: bool)
        ensures
            r == self@.contains(*h),
    {
        match self.buckets.get(&h.hi) {
            Some(bucket) => bucket.contains(&h.lo),
            None => false,
        }
    }

    pub fn insert(&mut self, h: B256)
        ensures
            final(self)@ == old(self)@.insert(h),
    {
        let mut bucket = match self.buckets.remove(&h.hi) {
            Some(b) => b,
            None => HashSet::new(),
        };
        bucket.insert(h.lo);
        self.buckets.insert(h.hi, bucket);
        proof {
            assert(self@ =~= old(self)@.insert(h));
        }
    }

    pub fn remove(&mut self, h: &B256)
        ensures
            final(self)@ == old(self)@.remove(*h),
    {
        match self.buckets.remove(&h.hi) {
            Some(b) => {
                let mut bucket = b;
                bucket.remove(&h.lo);
                self.buckets.insert(h.hi, bucket);
            },
            None => {},
        }
        proof {
            assert(self@ =~= old(self)@.remove(*h));
        }
    }
}

// ---------------------------------------------------------------------------
// Submission
// ---------------------------------------------------------------------------

/// Why an order was turned away.
#[derive(Debug)]
pub enum SubmitError {
    /// A market order must carry a price above zero as its price protection.
    MarketPriceZero,
    /// The signature could not be parsed or no signer could be recovered.
    Signature(alloy::primitives::SignatureError),
    /// The recovered signer is not the order's maker.
    SignerMismatch,
    /// The system clock reads before the Unix epoch.
    ClockBeforeEpoch,
    /// The order's expiry is in the past.
    Expired,
    /// An order with the same hash was already accepted.
    DuplicateNonce,
    /// The maker has less available than the order locks.
    InsufficientBalance,
    /// A market order's quantity does not rest within its price, or it found
    /// nothing to trade against.
    MarketNotFillable,
}

impl SubmitError {
    /// The error message the API reports.
    pub fn message(&self) -> (r: String)
        ensures
            self is MarketPriceZero ==> r@ == "market order requires price > 0 for price protection"@,
            self is SignerMismatch ==> r@ == "signature does not match maker"@,
            self is ClockBeforeEpoch ==> r@ == "system clock before epoch"@,
            self is Expired ==> r@ == "order expired"@,
            self is DuplicateNonce ==> r@ == "duplicate nonce"@,
            self is InsufficientBalance ==> r@ == "insufficient balance"@,
            self is MarketNotFillable ==> r@ == "market order not fillable"@,
    {
        match self {
            SubmitError::MarketPriceZero => "market order requires price > 0 for price protection".to_owned(),
            SubmitError::Signature(e) => signature_error_text(e),
            SubmitError::SignerMismatch => "signature does not match maker".to_owned(),
            SubmitError::ClockBeforeEpoch => "system clock before epoch".to_owned(),
            SubmitError::Expired => "order expired".to_owned(),
            SubmitError::DuplicateNonce => "duplicate nonce".to_owned(),
            SubmitError::InsufficientBalance => "insufficient balance".to_owned(),
            SubmitError::MarketNotFillable => "market order not fillable".to_owned(),
        }
    }
}

/// A message pushed to a websocket client.
#[derive(Clone, Debug)]
pub struct WsMessage {
    pub msg_type: String,
    pub data: Fill,
}

/// A fill message addressed to one user.
#[derive(Clone, Debug)]
pub struct FillDispatch {
    pub address: Address,
    pub message: WsMessage,
}

/// Whether an order with this expiry has expired at time `now` (seconds since the epoch).
pub fn is_expired_at(expiry: U256, now: u64) -> (r: bool)
    ensures
        r == (expiry@ < now),
{
    expiry.lt(&U256::from_u64(now))
}

/// The token an order locks: quote for a buy, base for a sell.
pub open spec fn collateral_token_spec(order: SignedOrderView) -> Address {
    match order.side {
        Side::Buy => order.quote_token,
        Side::Sell => order.base_token,
    }
}

/// `10^18`: the fixed-point scale of prices.
pub open spec fn wad() -> nat {
    1_000_000_000_000_000_000
}

/// What an order locks: `quantity * price / 10^18` of quote for a buy (the
/// product taken modulo `2^256`), `quantity` of base for a sell.
pub open spec fn collateral_spec(order: SignedOrderView) -> U256 {
    match order.side {
        Side::Buy => u256_of(((order.quantity@ * order.price@) % u256_modulus()) / wad()),
        Side::Sell => order.quantity,
    }
}

/// The collateral an order locks: for a buy, quantity times price scaled down
/// by `10^18` (the product taken modulo `2^256`); for a sell, the quantity.
pub fn collateral_required(order: &SignedOrder) -> (r: U256)
    ensures
        r == collateral_spec(order@),
{
    match order.side {
        Side::Buy => {
            let product = order.quantity.wrapping_mul(order.price);
            let scale = U256::from_u128(1_000_000_000_000_000_000u128);
            match product.checked_div(scale) {
                Some(q) => {
                    proof {
                        crate::uint::lemma_u256_of_view(q);
                        crate::uint::lemma_u256_bound(q);
                        vstd::arithmetic::div_mod::lemma_small_mod(q@, u256_modulus());
                    }
                    q
                },
                None => {
                    proof {
                        assert(false);
                    }
                    product
                },
            }
        },
        Side::Sell => order.quantity,
    }
}

/// The taker's quantity left after its first `k` fills, each subtracted modulo `2^256`.
pub open spec fn taker_left(quantity: U256, fills: Seq<EngineFill>, k: nat) -> U256
    decreases k,
{
    if k == 0 {
        quantity
    } else {
        sub_u256(taker_left(quantity, fills, (k - 1) as nat), fills[k - 1].quantity)
    }
}

/// The fill the taker sees for its `k`-th match.
pub open spec fn taker_fill_spec(order_id: OrderId, quantity: U256, fills: Seq<EngineFill>, k: int) -> Fill {
    Fill {
        order_id,
        price: fills[k].price,
        filled_qty: fills[k].quantity,
        remaining_qty: taker_left(quantity, fills, (k + 1) as nat),
        is_maker: false,
    }
}

/// The fill the maker sees for the `k`-th match.
pub open spec fn maker_fill_spec(fills: Seq<EngineFill>, k: int) -> Fill {
    Fill {
        order_id: fills[k].maker_id,
        price: fills[k].price,
        filled_qty: fills[k].quantity,
        remaining_qty: u256_of(0),
        is_maker: true,
    }
}

/// The trade recorded for the `k`-th match.
pub open spec fn trade_spec(
    makers: Map<OrderId, SignedOrderView>,
    taker: SignedOrderView,
    fills: Seq<EngineFill>,
    k: int,
    now: u64,
) -> TradeView {
    TradeView {
        maker_order: makers[fills[k].maker_id],
        taker_order: taker,
        price: fills[k].price,
        quantity: fills[k].quantity,
        timestamp: now,
    }
}

pub open spec fn orders_view(m: Map<OrderId, SignedOrder>) -> Map<OrderId, SignedOrderView> {
    m.map_values(|o: SignedOrder| o@)
}

pub open spec fn trades_view(s: Seq<Trade>) -> Seq<TradeView> {
    s.map_values(|t: Trade| t@)
}

/// The signed orders still resting, by the id the engine gave them.
pub struct AppState {
    pub engine: MatchingEngine,
    pub ledger: Ledger,
    pub accepted_nonces: NonceSet,
    pub order_map: HashMap<OrderId, SignedOrder>,
    pub pending_trades: Vec<Trade>,
    pub domain_separator: B256,
    pub base_token: Address,
    pub quote_token: Address,
    pub batch_size: usize,
    pub batch_timeout_secs: u64,
}

/// How an order fares in the checks before it reaches the engine.
pub enum Precheck {
    MarketPriceZero,
    BadSignature,
    SignerMismatch,
    Expired,
    DuplicateNonce,
    InsufficientBalance,
    Passed,
}

/// What submitting `order` at time `now` does to the state and returns.
pub open spec fn submit_outcome(
    pre: AppState,
    post: AppState,
    order: SignedOrderView,
    order_type: OrderType,
    now: u64,
    r: Result<(OrderId, Vec<Fill>, Vec<FillDispatch>), SubmitError>,
) -> bool {
    &&& post.domain_separator == pre.domain_separator
    &&& post.base_token == pre.base_token
    &&& post.quote_token == pre.quote_token
    &&& post.batch_size == pre.batch_size
    &&& post.batch_timeout_secs == pre.batch_timeout_secs
    &&& {
                let check = pre.precheck(order, order_type, now);
                let token = collateral_token_spec(order);
                &&& check is MarketPriceZero ==> (r matches Err(SubmitError::MarketPriceZero))
                &&& check is BadSignature ==> (r matches Err(SubmitError::Signature(_)))
                &&& check is SignerMismatch ==> (r matches Err(SubmitError::SignerMismatch))
                &&& check is Expired ==> (r matches Err(SubmitError::Expired))
                &&& check is DuplicateNonce ==> (r matches Err(SubmitError::DuplicateNonce))
                &&& check is InsufficientBalance ==> (r matches Err(SubmitError::InsufficientBalance))
                &&& !(check is Passed) ==> {
                    &&& post.engine@ == pre.engine@
                    &&& post.accepted_nonces@ == pre.accepted_nonces@
                    &&& post.order_map@ == pre.order_map@
                    &&& post.pending_trades@ == pre.pending_trades@
                    &&& check is InsufficientBalance ==> post.ledger@ == pre.ledger@.insert(
                        (order.maker, token),
                        balance_in(pre.ledger@, order.maker, token),
                    )
                    &&& !(check is InsufficientBalance) ==> post.ledger@ == pre.ledger@
                }
                &&& check is Passed ==> {
                    let (e2, mr) = pre.engine_outcome(order, order_type);
                    let hash = order_hash_spec(sol_order_spec(order));
                    let order_id = (e2.next_id - 1) as OrderId;
                    let makers = orders_view(pre.order_map@);
                    let unprotected = order_type == OrderType::Market && !pre.market_fillable(order);
                    &&& post.engine@ == if unprotected { pre.engine@ } else { e2 }
                    &&& if unprotected || (order_type == OrderType::Market && mr.fills.len() == 0) {
                        &&& r matches Err(SubmitError::MarketNotFillable)
                        &&& post.accepted_nonces@ == pre.accepted_nonces@.insert(hash).remove(hash)
                        &&& post.ledger@ == {
                            let m = pre.reserved_ledger(order);
                            let b = balance_in(m, order.maker, token);
                            m.insert(
                                (order.maker, token),
                                TokenBalance {
                                    available: add_u256(b.available, collateral_spec(order)),
                                    reserved: sub_u256(b.reserved, collateral_spec(order)),
                                },
                            )
                        }
                        &&& post.order_map@ == pre.order_map@
                        &&& post.pending_trades@ == pre.pending_trades@
                    } else {
                        &&& r is Ok
                        &&& r matches Ok((id, client_fills, dispatches)) && {
                            &&& id == order_id
                            &&& client_fills@.len() == mr.fills.len()
                            &&& dispatches@.len() == 2 * mr.fills.len()
                            &&& forall|k: int| 0 <= k < mr.fills.len() ==> {
                                &&& #[trigger] client_fills@[k] == taker_fill_spec(order_id, order.quantity, mr.fills, k)
                                &&& dispatches@[2 * k].address == makers[mr.fills[k].maker_id].maker
                                &&& dispatches@[2 * k].message.msg_type@ == "fill"@
                                &&& dispatches@[2 * k].message.data == maker_fill_spec(mr.fills, k)
                                &&& dispatches@[2 * k + 1].address == order.maker
                                &&& dispatches@[2 * k + 1].message.msg_type@ == "fill"@
                                &&& dispatches@[2 * k + 1].message.data == client_fills@[k]
                            }
                        }
                        &&& post.accepted_nonces@ == pre.accepted_nonces@.insert(hash)
                        &&& post.ledger@ == pre.reserved_ledger(order)
                        &&& trades_view(post.pending_trades@) == trades_view(pre.pending_trades@)
                            + Seq::new(mr.fills.len(), |k: int| trade_spec(makers, order, mr.fills, k, now))
                        &&& orders_view(post.order_map@) == if mr.resting {
                            orders_view(pre.order_map@).insert(order_id, order)
                        } else {
                            orders_view(pre.order_map@)
                        }
                    }
                }
            }
}

impl AppState {
    pub fn new(chain_id: u64, contract_address: Address, base_token: Address, quote_token: Address) -> (r: AppState)
        ensures
            r.engine@.book.bids.len() == 0,
            r.engine@.book.asks.len() == 0,
            r.engine@.book.locations == Map::<OrderId, crate::book::OrderLocation>::empty(),
            r.engine@.next_id == 1,
            r.ledger@ == Map::<(Address, Address), TokenBalance>::empty(),
            r.accepted_nonces@ == Set::<B256>::empty(),
            r.order_map@ == Map::<OrderId, SignedOrder>::empty(),
            r.pending_trades@ == Seq::<Trade>::empty(),
            r.domain_separator == domain_separator_spec(chain_id, contract_address),
            r.base_token == base_token,
            r.quote_token == quote_token,
            r.batch_size == 10,
            r.batch_timeout_secs == 5,
            r.wf(),
    {
        AppState {
            engine: MatchingEngine::new(),
            ledger: Ledger::new(),
            accepted_nonces: NonceSet::new(),
            order_map: HashMap::new(),
            pending_trades: Vec::new(),
            domain_separator: compute_domain_separator(chain_id, contract_address),
            base_token,
            quote_token,
            batch_size: 10,
            batch_timeout_secs: 5,
        }
    }

    /// Every order resting on the book has its signed order on record.
    pub open spec fn wf(&self) -> bool {
        forall|id: OrderId| #[trigger] book_holds(self.engine@.book, id) ==> self.order_map@.contains_key(id)
    }

    /// The checks made before the clock is read: a market order's price
    /// protection, then the signature and its signer.
    pub open spec fn signed_check(&self, order: SignedOrderView, order_type: OrderType) -> Precheck {
        let signer = recovered_signer(order.signature, order_digest_spec(order, self.domain_separator));
        if order_type == OrderType::Market && order.price@ == 0 {
            Precheck::MarketPriceZero
        } else if signer is None {
            Precheck::BadSignature
        } else if signer != Some(order.maker) {
            Precheck::SignerMismatch
        } else {
            Precheck::Passed
        }
    }

    /// The error of the checks made before the clock is read, if any.
    fn check_signed(&self, order: &SignedOrder, order_type: OrderType) -> (r: Option<SubmitError>)
        ensures
            self.signed_check(order@, order_type) is MarketPriceZero ==> (r matches Some(
                SubmitError::MarketPriceZero,
            )),
            self.signed_check(order@, order_type) is BadSignature ==> (r matches Some(
                SubmitError::Signature(_),
            )),
            self.signed_check(order@, order_type) is SignerMismatch ==> (r matches Some(
                SubmitError::SignerMismatch,
            )),
            self.signed_check(order@, order_type) is Passed ==> r is None,
    {
        if order_type == OrderType::Market && order.price.is_zero() {
            return Some(SubmitError::MarketPriceZero);
        }
        let signer = match recover_signer(order, self.domain_separator) {
            Ok(a) => a,
            Err(e) => return Some(SubmitError::Signature(e)),
        };
        if !signer.same(&order.maker) {
            return Some(SubmitError::SignerMismatch);
        }
        None
    }

    /// The first check that `order` fails at time `now`, or `Passed`.
    pub open spec fn precheck(&self, order: SignedOrderView, order_type: OrderType, now: u64) -> Precheck {
        let hash = order_hash_spec(sol_order_spec(order));
        if !(self.signed_check(order, order_type) is Passed) {
            self.signed_check(order, order_type)
        } else if order.expiry@ < now {
            Precheck::Expired
        } else if self.accepted_nonces@.contains(hash) {
            Precheck::DuplicateNonce
        } else if balance_in(self.ledger@, order.maker, collateral_token_spec(order)).available@
            < collateral_spec(order)@ {
            Precheck::InsufficientBalance
        } else {
            Precheck::Passed
        }
    }

    /// A market order finds at least its quantity resting at prices within
    /// its price protection: at or below its price for a buy, at or above it
    /// for a sell.
    pub open spec fn market_fillable(&self, order: SignedOrderView) -> bool {
        crossing_qty(self.engine@.book.levels(order.side.spec_opposite()), order.side, order.price)
            >= order.quantity@
    }

    /// What the engine does with an order that passed the checks.
    pub open spec fn engine_outcome(&self, order: SignedOrderView, order_type: OrderType) -> (
        crate::engine::EngineView,
        MatchResultView,
    ) {
        submit_spec(self.engine@, order.side, order.price, order.quantity, order_type)
    }

    /// The ledger after the order's collateral is reserved.
    pub open spec fn reserved_ledger(&self, order: SignedOrderView) -> Map<(Address, Address), TokenBalance> {
        let token = collateral_token_spec(order);
        let b = balance_in(self.ledger@, order.maker, token);
        self.ledger@.insert(
            (order.maker, token),
            TokenBalance {
                available: sub_u256(b.available, collateral_spec(order)),
                reserved: add_u256(b.reserved, collateral_spec(order)),
            },
        )
    }

    /// Accepts, matches and records a signed order at time `now` (seconds since the epoch).
    #[verifier::spinoff_prover]
    #[verifier::rlimit(50)]
    pub fn submit_order_at(&mut self, order: SignedOrder, order_type: OrderType, now: u64) -> (r: Result<
        (OrderId, Vec<Fill>, Vec<FillDispatch>),
        SubmitError,
    >)
        requires
            old(self).wf(),
            old(self).precheck(order@, order_type, now) is Passed && (order_type
                == OrderType::Market ==> old(self).market_fillable(order@)) && submit_takes_id(
                old(self).engine@,
                order.side,
                order.quantity,
                order_type,
            ) ==> old(self).engine@.next_id < u64::MAX,
        ensures
            submit_outcome(*old(self), *final(self), order@, order_type, now, r),
            final(self).wf(),
    {
        self.engine.book_is_wf();
        let ghost engine_pre = self.engine@;
        let ghost map_pre = self.order_map@;
        match self.check_signed(&order, order_type) {
            Some(e) => {
                return Err(e);
            },
            None => {},
        }
        if order.expiry.lt(&U256::from_u64(now)) {
            return Err(SubmitError::Expired);
        }
        let hash = order_hash(&order);
        if self.accepted_nonces.contains(&hash) {
            return Err(SubmitError::DuplicateNonce);
        }
        let required = collateral_required(&order);
        let collateral_token = match order.side {
            Side::Buy => order.quote_token,
            Side::Sell => order.base_token,
        };
        if !self.ledger.reserve(order.maker, collateral_token, required) {
            return Err(SubmitError::InsufficientBalance);
        }
        self.accepted_nonces.insert(hash);
        // A market order's price is its protection: it goes ahead only when
        // its whole quantity rests within that price.
        if order_type == OrderType::Market && !self.engine.fillable_within(
            order.side,
            order.price,
            order.quantity,
        ) {
            self.accepted_nonces.remove(&hash);
            self.ledger.release(order.maker, collateral_token, required);
            return Err(SubmitError::MarketNotFillable);
        }
        let result = self.engine.submit(order.side, order.price, order.quantity, order_type);
        proof {
            law_submit_trades_with_resting_orders(engine_pre, order.side, order.price, order.quantity, order_type);
            assert forall|i: int| 0 <= i < result.fills@.len() implies self.order_map@.contains_key(
                #[trigger] result.fills@[i].maker_id,
            ) by {
                assert(book_holds(engine_pre.book, result.fills@[i].maker_id));
            }
        }
        if order_type == OrderType::Market && result.fills.len() == 0 {
            self.accepted_nonces.remove(&hash);
            self.ledger.release(order.maker, collateral_token, required);
            proof {
                assert forall|id: OrderId| #[trigger] book_holds(self.engine@.book, id) implies self.order_map@.contains_key(id) by {
                    assert(book_holds(engine_pre.book, id));
                }
            }
            return Err(SubmitError::MarketNotFillable);
        }
        let order_id = self.engine.last_order_id();
        let ghost makers = orders_view(self.order_map@);
        let ghost old_trades = trades_view(self.pending_trades@);
        let ghost map0 = self.order_map@;
        let ghost engine0 = self.engine@;
        let ghost ledger0 = self.ledger@;
        let ghost nonces0 = self.accepted_nonces@;
        let ghost fills = result.fills@;
        let mut client_fills: Vec<Fill> = Vec::new();
        let mut dispatches: Vec<FillDispatch> = Vec::new();
        let mut remaining = order.quantity;
        let mut k: usize = 0;
        while k < result.fills.len()
            invariant
                k <= fills.len(),
                fills == result.fills@,
                self.order_map@ == map0,
                self.engine@ == engine0,
                self.ledger@ == ledger0,
                self.accepted_nonces@ == nonces0,
                self.domain_separator == old(self).domain_separator,
                self.base_token == old(self).base_token,
                self.quote_token == old(self).quote_token,
                self.batch_size == old(self).batch_size,
                self.batch_timeout_secs == old(self).batch_timeout_secs,
                forall|i: int| 0 <= i < fills.len() ==> self.order_map@.contains_key(#[trigger] fills[i].maker_id),
                makers == orders_view(self.order_map@),
                remaining == taker_left(order.quantity, fills, k as nat),
                client_fills@.len() == k,
                dispatches@.len() == 2 * k,
                forall|j: int| 0 <= j < k ==> {
                    &&& #[trigger] client_fills@[j] == taker_fill_spec(order_id, order.quantity, fills, j)
                    &&& dispatches@[2 * j].address == makers[fills[j].maker_id].maker
                    &&& dispatches@[2 * j].message.msg_type@ == "fill"@
                    &&& dispatches@[2 * j].message.data == maker_fill_spec(fills, j)
                    &&& dispatches@[2 * j + 1].address == order.maker
                    &&& dispatches@[2 * j + 1].message.msg_type@ == "fill"@
                    &&& dispatches@[2 * j + 1].message.data == client_fills@[j]
                },
                trades_view(self.pending_trades@) == old_trades + Seq::new(k as nat, |j: int| trade_spec(makers, order@, fills, j, now)),
            decreases fills.len() - k,
        {
            let engine_fill = result.fills[k];
            let next = remaining.wrapping_sub(engine_fill.quantity);
            proof {
                crate::uint::lemma_u256_of_view(next);
            }
            remaining = next;
            let maker_signed = match self.order_map.get(&engine_fill.maker_id) {
                Some(o) => o.duplicate(),
                None => {
                    proof {
                        assert(self.order_map@.contains_key(fills[k as int].maker_id));
                        assert(false);
                    }
                    order.duplicate()
                },
            };
            let trade = Trade {
                maker_order: maker_signed.duplicate(),
                taker_order: order.duplicate(),
                price: engine_fill.price,
                quantity: engine_fill.quantity,
                timestamp: now,
            };
            let ghost prev_trades = self.pending_trades@;
            self.pending_trades.push(trade);
            proof {
                assert(trades_view(self.pending_trades@) =~= trades_view(prev_trades).push(trade@));
                assert(trade@ == trade_spec(makers, order@, fills, k as int, now));
                assert(old_trades + Seq::new((k + 1) as nat, |j: int| trade_spec(makers, order@, fills, j, now))
                    =~= (old_trades + Seq::new(k as nat, |j: int| trade_spec(makers, order@, fills, j, now))).push(trade@));
            }
            let maker_fill = Fill {
                order_id: engine_fill.maker_id,
                price: engine_fill.price,
                filled_qty: engine_fill.quantity,
                remaining_qty: U256::zero(),
                is_maker: true,
            };
            let taker_fill = Fill {
                order_id,
                price: engine_fill.price,
                filled_qty: engine_fill.quantity,
                remaining_qty: remaining,
                is_maker: false,
            };
            dispatches.push(FillDispatch {
                address: maker_signed.maker,
                message: WsMessage { msg_type: "fill".to_owned(), data: maker_fill },
            });
            dispatches.push(FillDispatch {
                address: order.maker,
                message: WsMessage { msg_type: "fill".to_owned(), data: taker_fill },
            });
            client_fills.push(taker_fill);
            k = k + 1;
        }
        if result.resting {
            let ghost prev = self.order_map@;
            self.order_map.insert(order_id, order);
            proof {
                assert(orders_view(self.order_map@) =~= orders_view(prev).insert(order_id, order@));
            }
        }
        proof {
            let (e2, mr) = submit_spec(engine_pre, order.side, order.price, order.quantity, order_type);
            assert(self.engine@ == e2);
            assert(mr.resting == result.resting);
            assert(mr.resting ==> order_id == engine_pre.next_id);
            assert forall|id: OrderId| #[trigger] book_holds(self.engine@.book, id) implies self.order_map@.contains_key(id) by {
                if book_holds(engine_pre.book, id) {
                    assert(map_pre.contains_key(id));
                } else {
                    assert(mr.resting && id == engine_pre.next_id);
                }
            }
        }
        Ok((order_id, client_fills, dispatches))
    }

    /// Accepts, matches and records a signed order at the current time.
    pub fn submit_order(&mut self, order: SignedOrder, order_type: OrderType) -> (r: Result<
        (OrderId, Vec<Fill>, Vec<FillDispatch>),
        SubmitError,
    >)
        requires
            old(self).wf(),
            old(self).engine@.next_id < u64::MAX,
        ensures
            final(self).wf(),
            ({
                let c = old(self).signed_check(order@, order_type);
                &&& *final(self) == *old(self)
                &&& c is MarketPriceZero ==> (r matches Err(SubmitError::MarketPriceZero))
                &&& c is BadSignature ==> (r matches Err(SubmitError::Signature(_)))
                &&& c is SignerMismatch ==> (r matches Err(SubmitError::SignerMismatch))
                &&& c is Passed ==> (r matches Err(SubmitError::ClockBeforeEpoch))
            }) || exists|now: u64| submit_outcome(*old(self), *final(self), order@, order_type, now, r),
    {
        match unix_now() {
            Some(now) => self.submit_order_at(order, order_type, now),
            None => match self.check_signed(&order, order_type) {
                Some(e) => Err(e),
                None => Err(SubmitError::ClockBeforeEpoch),
            },
        }
    }

    /// Puts a resting order back on the book under the id it had, with the
    /// quantity it had left, and records its signed order.
    pub fn restore_order(&mut self, order_id: OrderId, order: SignedOrder, quantity: U256)
        requires
            old(self).wf(),
        ensures
            final(self).wf(),
            final(self).engine@.book == old(self).engine@.book.inserted(
                crate::types::EngineOrder { id: order_id, side: order.side, price: order.price, quantity },
            ),
            final(self).engine@.next_id == old(self).engine@.next_id,
            orders_view(final(self).order_map@) == orders_view(old(self).order_map@).insert(order_id, order@),
            final(self).ledger@ == old(self).ledger@,
            final(self).accepted_nonces@ == old(self).accepted_nonces@,
            final(self).pending_trades@ == old(self).pending_trades@,
            final(self).domain_separator == old(self).domain_separator,
            final(self).base_token == old(self).base_token,
            final(self).quote_token == old(self).quote_token,
            final(self).batch_size == old(self).batch_size,
            final(self).batch_timeout_secs == old(self).batch_timeout_secs,
    {
        self.engine.book_is_wf();
        let ghost pre = *self;
        self.engine.restore_order(order_id, order.side, order.price, quantity);
        let ghost prev = self.order_map@;
        self.order_map.insert(order_id, order);
        proof {
            assert(orders_view(self.order_map@) =~= orders_view(prev).insert(order_id, order@));
            law_insert_adds_only_its_order(
                pre.engine@.book,
                crate::types::EngineOrder { id: order_id, side: order@.side, price: order@.price, quantity },
            );
            assert forall|id: OrderId| #[trigger] book_holds(self.engine@.book, id) implies self.order_map@.contains_key(id) by {
                if id != order_id {
                    assert(book_holds(pre.engine@.book, id));
                }
            }
        }
    }

    /// Brings back a stored resting order at startup at time `now`: an order
    /// that has expired is left out (`false`); any other is restored under its
    /// id with the quantity it had left, and its hash is accepted again so the
    /// same order cannot be submitted twice (`true`).
    pub fn restore_stored_order(&mut self, order_id: OrderId, order: SignedOrder, quantity: U256, now: u64) -> (r: bool)
        requires
            old(self).wf(),
        ensures
            final(self).wf(),
            r == !(order.expiry@ < now),
            !r ==> *final(self) == *old(self),
            r ==> final(self).engine@.book == old(self).engine@.book.inserted(
                crate::types::EngineOrder { id: order_id, side: order.side, price: order.price, quantity },
            ),
            final(self).engine@.next_id == old(self).engine@.next_id,
            r ==> orders_view(final(self).order_map@) == orders_view(old(self).order_map@).insert(order_id, order@),
            r ==> final(self).accepted_nonces@ == old(self).accepted_nonces@.insert(
                order_hash_spec(sol_order_spec(order@)),
            ),
            final(self).ledger@ == old(self).ledger@,
            final(self).pending_trades@ == old(self).pending_trades@,
            final(self).domain_separator == old(self).domain_separator,
            final(self).base_token == old(self).base_token,
            final(self).quote_token == old(self).quote_token,
            final(self).batch_size == old(self).batch_size,
            final(self).batch_timeout_secs == old(self).batch_timeout_secs,
    {
        if is_expired_at(order.expiry, now) {
            return false;
        }
        let hash = order_hash(&order);
        self.accepted_nonces.insert(hash);
        self.restore_order(order_id, order, quantity);
        true
    }

    /// Takes all pending trades for settlement.
    pub fn drain_batch(&mut self) -> (r: Vec<Trade>)
        ensures
            r@ == old(self).pending_trades@,
            final(self).pending_trades@ == Seq::<Trade>::empty(),
            final(self).engine@ == old(self).engine@,
            final(self).ledger@ == old(self).ledger@,
            final(self).accepted_nonces@ == old(self).accepted_nonces@,
            final(self).order_map@ == old(self).order_map@,
            final(self).domain_separator == old(self).domain_separator,
            final(self).base_token == old(self).base_token,
            final(self).quote_token == old(self).quote_token,
            final(self).batch_size == old(self).batch_size,
            final(self).batch_timeout_secs == old(self).batch_timeout_secs,
    {
        let mut batch: Vec<Trade> = Vec::new();
        std::mem::swap(&mut batch, &mut self.pending_trades);
        batch
    }
}

} // verus!
