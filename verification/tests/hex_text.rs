use hybrid_exchange::hex_text::{address_or_zero, parse_address, strip_hex_prefix};
use hybrid_exchange::primitives::Address;

#[test]
fn parses_an_address_with_or_without_prefix() {
    let text = "0x0000000000000000000000000000000000000001";
    assert_eq!(parse_address(text), Some(Address::with_last_byte(1)));
    assert_eq!(parse_address(&text[2..]), Some(Address::with_last_byte(1)));
    assert_eq!(
        parse_address("0XABABABABABABABABABABABABABABABABABABABAB"),
        Some(Address::from_bytes(&[0xAB; 20]))
    );
    assert_eq!(
        parse_address("abababababababababababababababababababab"),
        Some(Address::from_bytes(&[0xAB; 20]))
    );
}

#[test]
fn refuses_what_is_not_an_address() {
    assert_eq!(parse_address(""), None);
    assert_eq!(parse_address("0x"), None);
    assert_eq!(parse_address("0x00000000000000000000000000000000000001"), None);
    assert_eq!(parse_address("0x000000000000000000000000000000000000000001"), None);
    assert_eq!(parse_address("0x000000000000000000000000000000000000000g"), None);
    assert_eq!(parse_address("0x0x00000000000000000000000000000000000001"), None);
}

#[test]
fn unparsable_address_falls_back_to_zero() {
    assert_eq!(address_or_zero("nonsense"), Address::zero());
    assert_eq!(
        address_or_zero("0x0000000000000000000000000000000000000002"),
        Address::with_last_byte(2)
    );
}

#[test]
fn strips_only_a_lowercase_0x() {
    assert_eq!(strip_hex_prefix("0xabc"), "abc");
    assert_eq!(strip_hex_prefix("0Xabc"), "0Xabc");
    assert_eq!(strip_hex_prefix("0x"), "");
    assert_eq!(strip_hex_prefix("x"), "x");
}
