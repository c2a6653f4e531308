//! Orders, trades, fills and settlement records shared by the engine and the gateway.
use crate::primitives::Address;
use crate::uint::{u256_modulus, U256};
use vstd::prelude::*;

verus! {

/// Identifier the engine gives an order.
pub type OrderId = u64;

#[derive(Clone, Copy, Debug, PartialEq, Eq, Structural)]
pub enum Side {
    Buy,
    Sell,
}

impl Side {
    /// The side that an order on `self` trades against.
    pub open spec fn spec_opposite(self) -> Side {
        match self {
            Side::Buy => Side::Sell,
            Side::Sell => Side::Buy,
        }
    }

    pub fn opposite(self) -> (r: Side)
        ensures
            r == self.spec_opposite(),
    {
        match self {
            Side::Buy => Side::Sell,
            Side::Sell => Side::Buy,
        }
    }

    /// The wire name of the side (`"buy"` or `"sell"`).
    pub fn as_str(&self) -> (r: &'static str)
        ensures
            r@ == (match self {
                Side::Buy => "buy"@,
                Side::Sell => "sell"@,
            }),
    {
        match self {
            Side::Buy => "buy",
            Side::Sell => "sell",
        }
    }
}

#[derive(Clone, Copy, Debug, PartialEq, Eq, Structural)]
pub enum OrderType {
    Limit,
    Market,
}

impl Default for OrderType {
    fn default() -> (r: OrderType)
        ensures
            r == OrderType::Limit,
    {
        OrderType::Limit
    }
}

impl OrderType {
    /// The wire name of the order type (`"limit"` or `"market"`).
    pub fn as_str(&self) -> (r: &'static str)
        ensures
            r@ == (match self {
                OrderType::Limit => "limit"@,
                OrderType::Market => "market"@,
            }),
    {
        match self {
            OrderType::Limit => "limit",
            OrderType::Market => "market",
        }
    }
}

/// Internal order: no crypto, no addresses.
#[derive(Clone, Copy, Debug, PartialEq, Eq, Structural)]
pub struct EngineOrder {
    pub id: OrderId,
    pub side: Side,
    pub price: U256,
    pub quantity: U256,
}

/// An order as its maker signed it (EIP-712), with the signature bytes.
#[derive(Clone, Debug)]
pub struct SignedOrder {
    pub side: Side,
    pub maker: Address,
    pub base_token: Address,
    pub quote_token: Address,
    pub price: U256,
    pub quantity: U256,
    pub nonce: U256,
    pub expiry: U256,
    pub signature: Vec<u8>,
}

/// The contents of a [`SignedOrder`].
pub struct SignedOrderView {
    pub side: Side,
    pub maker: Address,
    pub base_token: Address,
    pub quote_token: Address,
    pub price: U256,
    pub quantity: U256,
    pub nonce: U256,
    pub expiry: U256,
    pub signature: Seq<u8>,
}

impl View for SignedOrder {
    type V = SignedOrderView;

    open spec fn view(&self) -> SignedOrderView {
        SignedOrderView {
            side: self.side,
            maker: self.maker,
            base_token: self.base_token,
            quote_token: self.quote_token,
            price: self.price,
            quantity: self.quantity,
            nonce: self.nonce,
            expiry: self.expiry,
            signature: self.signature@,
        }
    }
}

impl SignedOrder {
    /// A copy of the order with the same contents.
    pub fn duplicate(&self) -> (r: SignedOrder)
        ensures
            r@ == self@,
    {
        let mut signature: Vec<u8> = Vec::new();
        let mut i: usize = 0;
        while i < self.signature.len()
            invariant
                i <= self.signature@.len(),
                signature@ == self.signature@.subrange(0, i as int),
            decreases self.signature@.len() - i,
        {
            signature.push(self.signature[i]);
            i = i + 1;
            proof {
                assert(signature@ =~= self.signature@.subrange(0, i as int));
            }
        }
        proof {
            assert(signature@ =~= self.signature@);
        }
        SignedOrder {
            side: self.side,
            maker: self.maker,
            base_token: self.base_token,
            quote_token: self.quote_token,
            price: self.price,
            quantity: self.quantity,
            nonce: self.nonce,
            expiry: self.expiry,
            signature,
        }
    }
}

/// A matched trade: keeps both signed orders for the on-chain signature checks.
#[derive(Clone, Debug)]
pub struct Trade {
    pub maker_order: SignedOrder,
    pub taker_order: SignedOrder,
    pub price: U256,
    pub quantity: U256,
    pub timestamp: u64,
}

pub struct TradeView {
    pub maker_order: SignedOrderView,
    pub taker_order: SignedOrderView,
    pub price: U256,
    pub quantity: U256,
    pub timestamp: u64,
}

impl View for Trade {
    type V = TradeView;

    open spec fn view(&self) -> TradeView {
        TradeView {
            maker_order: self.maker_order@,
            taker_order: self.taker_order@,
            price: self.price,
            quantity: self.quantity,
            timestamp: self.timestamp,
        }
    }
}

/// A fill as pushed to clients.
#[derive(Clone, Copy, Debug, PartialEq, Eq, Structural)]
pub struct Fill {
    pub order_id: OrderId,
    pub price: U256,
    pub filled_qty: U256,
    pub remaining_qty: U256,
    pub is_maker: bool,
}

/// Trades to settle in one on-chain batch.
#[derive(Clone, Debug)]
pub struct BatchSettlement {
    pub trades: Vec<Trade>,
}

/// A deposit event of the exchange contract.
#[derive(Clone, Copy, Debug, PartialEq, Eq, Structural)]
pub struct Deposit {
    pub user: Address,
    pub token: Address,
    pub amount: U256,
    pub block_number: u64,
}

/// `2^255`: the values of [`I256`] run from `-2^255` to `2^255 - 1`.
pub open spec fn two_pow_255() -> nat {
    0x8000_0000_0000_0000_0000_0000_0000_0000_0000_0000_0000_0000_0000_0000_0000_0000nat
}

/// A signed 256-bit integer in two's complement.
#[derive(Clone, Copy, Debug, PartialEq, Eq, Structural)]
pub struct I256 {
    pub bits: U256,
}

impl View for I256 {
    type V = int;

    open spec fn view(&self) -> int {
        if self.bits@ < two_pow_255() {
            self.bits@ as int
        } else {
            self.bits@ - u256_modulus()
        }
    }
}

impl I256 {
    pub fn zero() -> (r: I256)
        ensures
            r@ == 0,
    {
        I256 { bits: U256::zero() }
    }

    /// The value of `v`; every `i64` fits.
    pub fn from_i64(v: i64) -> (r: I256)
        ensures
            r@ == v,
    {
        if v >= 0 {
            I256 { bits: U256::from_u64(v as u64) }
        } else {
            let m: u128 = (-(v as i128)) as u128;
            let bits = U256::zero().wrapping_sub(U256::from_u128(m));
            I256 { bits }
        }
    }

    /// `self < 0`.
    pub fn is_negative(&self) -> (r: bool)
        ensures
            r == (self@ < 0),
    {
        self.bits.hi >= 0x8000_0000_0000_0000_0000_0000_0000_0000u128
    }

    /// `self > 0`.
    pub fn is_positive(&self) -> (r: bool)
        ensures
            r == (self@ > 0),
    {
        !self.is_negative() && !self.bits.is_zero()
    }

    /// `self < other`.
    pub fn lt(&self, other: &I256) -> (r: bool)
        ensures
            r == (self@ < other@),
    {
        let a = self.is_negative();
        let b = other.is_negative();
        if a != b {
            a
        } else {
            self.bits.lt(&other.bits)
        }
    }
}

/// The net change of one user's balance in one token.
#[derive(Clone, Copy, Debug, PartialEq, Eq, Structural)]
pub struct BalanceDelta {
    pub user: Address,
    pub token: Address,
    pub delta: I256,
}

} // verus!
