use alloy::signers::local::PrivateKeySigner;
use alloy::signers::SignerSync;
use hybrid_exchange::eip712::{
    auth_message_hash, cancel_order_hash, compute_domain_separator, eip712_digest, order_hash,
    recover_cancel_signer, recover_signer, verify_auth,
};
use hybrid_exchange::primitives::{Address, B256};
use hybrid_exchange::types::{Side, SignedOrder};
use hybrid_exchange::uint::U256;

const KEY_A: [u8; 32] = [0x11; 32];
const KEY_B: [u8; 32] = [0x22; 32];

fn signer(key: &[u8; 32]) -> PrivateKeySigner {
    PrivateKeySigner::from_slice(key).unwrap()
}

fn address_of(s: &PrivateKeySigner) -> Address {
    Address::from_bytes(s.address().as_slice())
}

fn sign(s: &PrivateKeySigner, digest: B256) -> Vec<u8> {
    let h = alloy::primitives::B256::from_slice(&digest.to_bytes());
    s.sign_hash_sync(&h).unwrap().as_bytes().to_vec()
}

fn keccak(data: &[u8]) -> [u8; 32] {
    alloy::primitives::keccak256(data).0
}

fn word_u64(v: u64) -> [u8; 32] {
    let mut w = [0u8; 32];
    w[24..].copy_from_slice(&v.to_be_bytes());
    w
}

fn word_address(a: &Address) -> [u8; 32] {
    let mut w = [0u8; 32];
    w[12..].copy_from_slice(&a.to_bytes());
    w
}

fn order_for(maker: Address) -> SignedOrder {
    SignedOrder {
        side: Side::Buy,
        maker,
        base_token: Address::with_last_byte(1),
        quote_token: Address::with_last_byte(2),
        price: U256::from(1000u64),
        quantity: U256::from(5u64),
        nonce: U256::from(1u64),
        expiry: U256::from(u64::MAX),
        signature: Vec::new(),
    }
}

#[test]
fn recover_signer_roundtrip() {
    let s = signer(&KEY_A);
    let address = address_of(&s);
    let contract_addr = Address::with_last_byte(99);
    let domain_separator = compute_domain_separator(31337, contract_addr);

    let mut order = order_for(address);
    let digest = eip712_digest(domain_separator, order_hash(&order));
    order.signature = sign(&s, digest);

    let recovered = recover_signer(&order, domain_separator).unwrap();
    assert_eq!(recovered, address);
}

#[test]
fn verify_auth_roundtrip() {
    let s = signer(&KEY_A);
    let address = address_of(&s);
    let domain_separator = compute_domain_separator(31337, Address::with_last_byte(99));

    let nonce = B256::from_bytes(&rand::random::<[u8; 32]>());
    let timestamp = 1_700_000_000_u64;

    let digest = eip712_digest(domain_separator, auth_message_hash(nonce, timestamp));
    let sig = sign(&s, digest);

    let recovered = verify_auth(nonce, timestamp, &sig, domain_separator).unwrap();
    assert_eq!(recovered, address);
}

#[test]
fn cancel_order_roundtrip() {
    let s = signer(&KEY_B);
    let domain_separator = compute_domain_separator(31337, Address::with_last_byte(99));

    let nonce = U256::from(42u64);
    let hash = cancel_order_hash(nonce);
    let mut data = vec![0x19, 0x01];
    data.extend_from_slice(&domain_separator.to_bytes());
    data.extend_from_slice(&hash.to_bytes());
    let digest = B256::from_bytes(&keccak(&data));
    let sig = sign(&s, digest);

    let recovered = recover_cancel_signer(nonce, &sig, domain_separator).unwrap();
    assert_eq!(recovered, address_of(&s));
}

#[test]
fn domain_separator_matches_its_abi_encoding() {
    let contract = Address::with_last_byte(99);
    let mut data = Vec::new();
    data.extend_from_slice(&keccak(
        b"EIP712Domain(string name,string version,uint256 chainId,address verifyingContract)",
    ));
    data.extend_from_slice(&keccak(b"HybridExchange"));
    data.extend_from_slice(&keccak(b"1"));
    data.extend_from_slice(&word_u64(31337));
    data.extend_from_slice(&word_address(&contract));
    let expected = B256::from_bytes(&keccak(&data));
    assert_eq!(compute_domain_separator(31337, contract), expected);
    assert_ne!(compute_domain_separator(1, contract), expected);
}

#[test]
fn order_hash_matches_its_abi_encoding() {
    let order = order_for(Address::with_last_byte(7));
    let mut data = Vec::new();
    data.extend_from_slice(&keccak(
        b"Order(uint8 side,address maker,address baseToken,address quoteToken,uint256 price,uint256 quantity,uint256 nonce,uint256 expiry)",
    ));
    data.extend_from_slice(&word_u64(0));
    data.extend_from_slice(&word_address(&order.maker));
    data.extend_from_slice(&word_address(&order.base_token));
    data.extend_from_slice(&word_address(&order.quote_token));
    data.extend_from_slice(&word_u64(1000));
    data.extend_from_slice(&word_u64(5));
    data.extend_from_slice(&word_u64(1));
    data.extend_from_slice(&[0u8; 24]);
    data.extend_from_slice(&[0xff; 8]);
    assert_eq!(order_hash(&order), B256::from_bytes(&keccak(&data)));

    let mut sell = order.clone();
    sell.side = Side::Sell;
    assert_ne!(order_hash(&sell), order_hash(&order));
}

#[test]
fn auth_and_cancel_hashes_match_their_encoding() {
    let nonce = B256::from_bytes(&[0x5a; 32]);
    let mut data = Vec::new();
    data.extend_from_slice(&keccak(b"AuthMessage(bytes32 nonce,uint256 timestamp)"));
    data.extend_from_slice(&[0x5a; 32]);
    data.extend_from_slice(&word_u64(99));
    assert_eq!(auth_message_hash(nonce, 99), B256::from_bytes(&keccak(&data)));

    let mut data = Vec::new();
    data.extend_from_slice(&keccak(b"CancelOrder(uint256 nonce)"));
    data.extend_from_slice(&word_u64(42));
    assert_eq!(cancel_order_hash(U256::from(42u64)), B256::from_bytes(&keccak(&data)));
}

#[test]
fn eip712_digest_prefixes_domain_and_struct_hash() {
    let d = B256::from_bytes(&[1; 32]);
    let h = B256::from_bytes(&[2; 32]);
    let mut data = vec![0x19, 0x01];
    data.extend_from_slice(&[1; 32]);
    data.extend_from_slice(&[2; 32]);
    assert_eq!(eip712_digest(d, h), B256::from_bytes(&keccak(&data)));
}

#[test]
fn signature_of_wrong_length_is_refused() {
    let domain_separator = compute_domain_separator(31337, Address::with_last_byte(99));
    let mut order = order_for(Address::with_last_byte(3));
    order.signature = vec![0u8; 64];
    assert!(recover_signer(&order, domain_separator).is_err());
    assert!(verify_auth(B256::zero(), 0, &[], domain_separator).is_err());
}

#[test]
fn signature_over_another_order_recovers_another_address() {
    let s = signer(&KEY_A);
    let address = address_of(&s);
    let domain_separator = compute_domain_separator(31337, Address::with_last_byte(99));
    let mut order = order_for(address);
    order.signature = sign(&s, eip712_digest(domain_separator, order_hash(&order)));
    order.quantity = U256::from(6u64);
    match recover_signer(&order, domain_separator) {
        Ok(a) => assert_ne!(a, address),
        Err(_) => {}
    }
}

#[test]
fn domain_separator_matches_alloy() {
    let contract = Address::with_last_byte(99);
    let domain = alloy::sol_types::Eip712Domain::new(
        Some("HybridExchange".into()),
        Some("1".into()),
        Some(alloy::primitives::U256::from(31337u64)),
        Some(alloy::primitives::Address::from_slice(&contract.to_bytes())),
        None,
    );
    let expected = B256::from_bytes(domain.separator().as_slice());
    assert_eq!(compute_domain_separator(31337, contract), expected);
}
