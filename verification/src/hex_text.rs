//! Hexadecimal text: decoding signatures and account addresses, encoding nonces.
use crate::primitives::Address;
use vstd::prelude::*;
use vstd::string::StrSliceExecFns;

verus! {

/// The value of a hexadecimal digit, either case.
pub open spec fn hex_digit(c: char) -> Option<u8> {
    if '0' <= c && c <= '9' {
        Some((c as u32 - '0' as u32) as u8)
    } else if 'a' <= c && c <= 'f' {
        Some((c as u32 - 'a' as u32 + 10) as u8)
    } else if 'A' <= c && c <= 'F' {
        Some((c as u32 - 'A' as u32 + 10) as u8)
    } else {
        None
    }
}

/// The lowercase hexadecimal digit of `d < 16`.
pub open spec fn lower_hex_char(d: nat) -> char {
    if d < 10 {
        ('0' as u32 + d) as char
    } else {
        ('a' as u32 + (d - 10)) as char
    }
}

/// Two lowercase digits per byte, high nibble first.
pub open spec fn hex_lower(bytes: Seq<u8>) -> Seq<char> {
    Seq::new(
        2 * bytes.len(),
        |i: int|
            if i % 2 == 0 {
                lower_hex_char(bytes[i / 2] as nat / 16)
            } else {
                lower_hex_char(bytes[i / 2] as nat % 16)
            },
    )
}

/// The bytes a hexadecimal text stands for: `None` when its length is odd or a
/// character is not a hexadecimal digit.
pub open spec fn hex_decoded(s: Seq<char>) -> Option<Seq<u8>> {
    if s.len() % 2 == 0 && forall|i: int| 0 <= i < s.len() ==> (#[trigger] hex_digit(s[i])) is Some {
        Some(
            Seq::new(
                s.len() / 2,
                |k: int| (16 * hex_digit(s[2 * k])->0 + hex_digit(s[2 * k + 1])->0) as u8,
            ),
        )
    } else {
        None
    }
}

/// The text without a leading `0x`, where it has one.
pub open spec fn strip_0x(s: Seq<char>) -> Seq<char> {
    if s.len() >= 2 && s[0] == '0' && s[1] == 'x' {
        s.subrange(2, s.len() as int)
    } else {
        s
    }
}

/// Calls `hex::encode`, which writes each byte as two lowercase digits, high
/// nibble first; that is the claim.
#[verifier::external_body]
pub(crate) fn hex_encode(bytes: &[u8]) -> (r: String)
    ensures
        r@ == hex_lower(bytes@),
{
    hex::encode(bytes)
}

/// Calls `hex::decode`. Its source refuses an odd length and any byte that is
/// not a digit in `0-9a-fA-F`, and otherwise reads two digits per byte, high
/// nibble first; that is the claim (a text that is not ASCII is refused either
/// way).
#[verifier::external_body]
pub(crate) fn hex_decode(s: &str) -> (r: Option<Vec<u8>>)
    ensures
        r is None <==> hex_decoded(s@) is None,
        r matches Some(v) ==> hex_decoded(s@) == Some(v@),
{
    hex::decode(s).ok()
}

/// `s` without a leading `0x`.
pub fn strip_hex_prefix(s: &str) -> (r: &str)
    ensures
        r@ == strip_0x(s@),
{
    let n = s.unicode_len();
    if n >= 2 && s.get_char(0) == '0' && s.get_char(1) == 'x' {
        s.substring_char(2, n)
    } else {
        s
    }
}

/// `s` without a leading `0x` or `0X`, where it has one.
pub open spec fn strip_0x_either(s: Seq<char>) -> Seq<char> {
    if s.len() >= 2 && s[0] == '0' && (s[1] == 'x' || s[1] == 'X') {
        s.subrange(2, s.len() as int)
    } else {
        s
    }
}

/// The 20 bytes an address text stands for: 40 hexadecimal digits, with or
/// without a leading `0x` or `0X`.
pub open spec fn parsed_address_bytes(s: Seq<char>) -> Option<Seq<u8>> {
    let t = strip_0x_either(s);
    if t.len() == 40 {
        hex_decoded(t)
    } else {
        None
    }
}

/// Calls alloy's `Address::from_str` and hands back the address's bytes. Its
/// source (`const_hex::decode_to_array`) strips one leading `0x` or `0X` and
/// then wants exactly 40 digits in `0-9a-fA-F`, two per byte, high nibble
/// first; that is the claim.
#[verifier::external_body]
fn address_bytes_from_str(s: &str) -> (r: Option<Vec<u8>>)
    ensures
        r is None <==> parsed_address_bytes(s@) is None,
        r matches Some(v) ==> parsed_address_bytes(s@) == Some(v@),
{
    match s.parse::<alloy::primitives::Address>() {
        Ok(a) => Some(a.to_vec()),
        Err(_) => None,
    }
}

/// The address written in `s`, if `s` is one.
pub fn parse_address(s: &str) -> (r: Option<Address>)
    ensures
        r is None <==> parsed_address_bytes(s@) is None,
        r matches Some(a) ==> parsed_address_bytes(s@) == Some(a@),
{
    match address_bytes_from_str(s) {
        Some(b) => Some(Address::from_bytes(b.as_slice())),
        None => None,
    }
}

/// The address written in `s`, or the zero address when `s` is not one.
pub fn address_or_zero(s: &str) -> (r: Address)
    ensures
        parsed_address_bytes(s@) matches Some(b) ==> r@ == b,
        parsed_address_bytes(s@) is None ==> r == Address::spec_zero(),
{
    match parse_address(s) {
        Some(a) => a,
        None => Address::zero(),
    }
}

} // verus!
