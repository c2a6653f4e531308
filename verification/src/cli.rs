//! The operator tool's order entry: reading a side and amounts typed on the
//! command line and building the order to sign.
use crate::primitives::Address;
use crate::types::{Side, SignedOrder};
use crate::uint::{u256_modulus, U256};
use vstd::prelude::*;
use vstd::string::StrSliceExecFns;

verus! {

/// How long an order from the tool stays valid, in seconds.
pub const ORDER_LIFETIME_SECS: u64 = 300;

/// The character with ASCII letters in lower case.
pub open spec fn ascii_lower(c: char) -> char {
    if 'A' <= c && c <= 'Z' {
        ((c as u32) + 32) as char
    } else {
        c
    }
}

/// `s` equals `word` when ASCII letters are compared without case.
pub open spec fn same_ignoring_case(s: Seq<char>, word: Seq<char>) -> bool {
    &&& s.len() == word.len()
    &&& forall|i: int| 0 <= i < s.len() ==> #[trigger] ascii_lower(s[i]) == word[i]
}

/// Whether every character is a decimal digit.
pub open spec fn all_decimal_digits(s: Seq<char>) -> bool {
    forall|i: int| 0 <= i < s.len() ==> '0' <= #[trigger] s[i] && s[i] <= '9'
}

/// The number written by decimal digits, most significant first.
pub open spec fn digits_value(s: Seq<char>) -> nat
    decreases s.len(),
{
    if s.len() == 0 {
        0
    } else {
        digits_value(s.drop_last()) * 10 + (s.last() as u32 - '0' as u32) as nat
    }
}

/// The number that ruint's `Uint::from_str` reads from a text (decimal, or
/// hexadecimal, octal or binary after a `0x`, `0o` or `0b` prefix, with `_`
/// ignored), where it reads one that fits in 256 bits.
pub uninterp spec fn parsed_uint(text: Seq<char>) -> Option<nat>;

/// The error of ruint's number parsing.
#[verifier::external_type_specification]
#[verifier::external_body]
pub struct ExParseError(alloy::primitives::ruint::ParseError);

/// Calls `alloy::primitives::U256::from_str`. The claim is that the outcome
/// is a function of the text, named `parsed_uint`, and that a non-empty run
/// of decimal digits is read as the number it writes, and refused when that
/// number does not fit in 256 bits (the radix-10 path of its source).
#[verifier::external_body]
fn uint_from_str(s: &str) -> (r: Result<U256, alloy::primitives::ruint::ParseError>)
    ensures
        r is Err <==> parsed_uint(s@) is None,
        r matches Ok(v) ==> parsed_uint(s@) == Some(v@),
        s@.len() > 0 && all_decimal_digits(s@) ==> (r is Ok <==> digits_value(s@)
            < u256_modulus()),
        s@.len() > 0 && all_decimal_digits(s@) && r is Ok ==> r->Ok_0@ == digits_value(s@),
{
    let v = s.parse::<alloy::primitives::U256>()?;
    let l = v.as_limbs();
    Ok(U256 { hi: (l[3] as u128) << 64 | l[2] as u128, lo: (l[1] as u128) << 64 | l[0] as u128 })
}

/// Calls `Display::to_string` on ruint's parse error; nothing is claimed of the text.
#[verifier::external_body]
fn parse_error_text(e: &alloy::primitives::ruint::ParseError) -> String {
    e.to_string()
}

/// An amount typed on the command line.
pub fn parse_amount(s: &str) -> (r: Result<U256, alloy::primitives::ruint::ParseError>)
    ensures
        r is Err <==> parsed_uint(s@) is None,
        r matches Ok(v) ==> parsed_uint(s@) == Some(v@),
        s@.len() > 0 && all_decimal_digits(s@) ==> (r is Ok <==> digits_value(s@)
            < u256_modulus()),
        s@.len() > 0 && all_decimal_digits(s@) && r is Ok ==> r->Ok_0@ == digits_value(s@),
{
    uint_from_str(s)
}

fn equals_ignoring_case(s: &str, word: &str) -> (r: bool)
    ensures
        r == same_ignoring_case(s@, word@),
{
    let n = s.unicode_len();
    if n != word.unicode_len() {
        return false;
    }
    let mut i: usize = 0;
    while i < n
        invariant
            n == s@.len(),
            n == word@.len(),
            i <= n,
            forall|j: int| 0 <= j < i ==> #[trigger] ascii_lower(s@[j]) == word@[j],
        decreases n - i,
    {
        let c = s.get_char(i);
        let w = word.get_char(i);
        let lower = if 'A' <= c && c <= 'Z' {
            (c as u32) + 32
        } else {
            c as u32
        };
        if lower != w as u32 {
            proof {
                assert(ascii_lower(s@[i as int]) != word@[i as int]);
            }
            return false;
        }
        proof {
            assert(ascii_lower(s@[i as int]) == word@[i as int]);
        }
        i = i + 1;
    }
    true
}

/// The side named `buy` or `sell`, in any case of ASCII letters.
pub fn parse_side(text: &str) -> (r: Option<Side>)
    ensures
        same_ignoring_case(text@, "buy"@) ==> r == Some(Side::Buy),
        same_ignoring_case(text@, "sell"@) ==> r == Some(Side::Sell),
        !same_ignoring_case(text@, "buy"@) && !same_ignoring_case(text@, "sell"@) ==> r is None,
{
    proof {
        reveal_strlit("buy");
        reveal_strlit("sell");
    }
    if equals_ignoring_case(text, "buy") {
        Some(Side::Buy)
    } else if equals_ignoring_case(text, "sell") {
        Some(Side::Sell)
    } else {
        None
    }
}

/// Why the order entry was refused: the side, or the price or quantity with
/// ruint's text for its parse error.
#[derive(Clone, Debug, PartialEq, Eq)]
pub enum OrderInputError {
    Side,
    Price(String),
    Quantity(String),
}

impl OrderInputError {
    /// The text reported to the user.
    pub fn message(&self) -> (r: String)
        ensures
            self is Side ==> r@ == "side must be 'buy' or 'sell'"@,
            self matches OrderInputError::Price(t) ==> r@ == t@,
            self matches OrderInputError::Quantity(t) ==> r@ == t@,
    {
        match self {
            OrderInputError::Side => "side must be 'buy' or 'sell'".to_owned(),
            OrderInputError::Price(t) => t.clone(),
            OrderInputError::Quantity(t) => t.clone(),
        }
    }
}

/// The order the tool signs at time `now`: its nonce is `now`, it expires
/// [`ORDER_LIFETIME_SECS`] later, and it carries no signature yet.
pub fn unsigned_order(
    side: Side,
    maker: Address,
    base_token: Address,
    quote_token: Address,
    price: U256,
    quantity: U256,
    now: u64,
) -> (r: SignedOrder)
    requires
        now <= u64::MAX - ORDER_LIFETIME_SECS,
    ensures
        r.side == side,
        r.maker == maker,
        r.base_token == base_token,
        r.quote_token == quote_token,
        r.price == price,
        r.quantity == quantity,
        r.nonce@ == now,
        r.expiry@ == now + ORDER_LIFETIME_SECS,
        r.signature@.len() == 0,
{
    SignedOrder {
        side,
        maker,
        base_token,
        quote_token,
        price,
        quantity,
        nonce: U256::from_u64(now),
        expiry: U256::from_u64(now + ORDER_LIFETIME_SECS),
        signature: Vec::new(),
    }
}

/// Reads the side, price and quantity typed for a new order and builds the
/// order to sign at time `now`; the first input that does not read is reported.
pub fn order_from_input(
    side: &str,
    price: &str,
    quantity: &str,
    maker: Address,
    base_token: Address,
    quote_token: Address,
    now: u64,
) -> (r: Result<SignedOrder, OrderInputError>)
    requires
        now <= u64::MAX - ORDER_LIFETIME_SECS,
    ensures
        !same_ignoring_case(side@, "buy"@) && !same_ignoring_case(side@, "sell"@) ==> r
            == Err::<SignedOrder, OrderInputError>(OrderInputError::Side),
        (same_ignoring_case(side@, "buy"@) || same_ignoring_case(side@, "sell"@)) && parsed_uint(
            price@,
        ) is None ==> (r matches Err(OrderInputError::Price(_))),
        (same_ignoring_case(side@, "buy"@) || same_ignoring_case(side@, "sell"@)) && parsed_uint(
            price@,
        ) is Some && parsed_uint(quantity@) is None ==> (r matches Err(OrderInputError::Quantity(_))),
        r matches Ok(o) ==> {
            &&& same_ignoring_case(side@, "buy"@) ==> o.side == Side::Buy
            &&& same_ignoring_case(side@, "sell"@) ==> o.side == Side::Sell
            &&& parsed_uint(price@) == Some(o.price@)
            &&& parsed_uint(quantity@) == Some(o.quantity@)
            &&& o.maker == maker
            &&& o.base_token == base_token
            &&& o.quote_token == quote_token
            &&& o.nonce@ == now
            &&& o.expiry@ == now + ORDER_LIFETIME_SECS
            &&& o.signature@.len() == 0
        },
        r is Ok <==> ((same_ignoring_case(side@, "buy"@) || same_ignoring_case(side@, "sell"@))
            && parsed_uint(price@) is Some && parsed_uint(quantity@) is Some),
{
    let s = match parse_side(side) {
        Some(s) => s,
        None => {
            return Err(OrderInputError::Side);
        },
    };
    let p = match parse_amount(price) {
        Ok(p) => p,
        Err(e) => {
            return Err(OrderInputError::Price(parse_error_text(&e)));
        },
    };
    let q = match parse_amount(quantity) {
        Ok(q) => q,
        Err(e) => {
            return Err(OrderInputError::Quantity(parse_error_text(&e)));
        },
    };
    Ok(unsigned_order(s, maker, base_token, quote_token, p, q, now))
}

} // verus!
