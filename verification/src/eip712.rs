//! EIP-712 hashing of orders, cancellations and authentication messages, and
//! recovery of their signers.
use crate::bytes::be_bytes;
use crate::primitives::{Address, B256};
use crate::types::{SignedOrder, Side};
use crate::uint::U256;
use vstd::prelude::*;
use vstd::string::StringSliceAdditionalSpecFns;

verus! {

/// The error of alloy's signature parsing and recovery.
#[verifier::external_type_specification]
#[verifier::external_body]
pub struct ExSignatureError(alloy::primitives::SignatureError);

/// The Keccak-256 digest of a byte string.
pub uninterp spec fn keccak256_of(data: Seq<u8>) -> B256;

/// The address whose key signed `digest`, as secp256k1 public-key recovery
/// finds it from a 65-byte `r || s || v` signature; none where recovery fails.
pub uninterp spec fn recovered_signer(signature: Seq<u8>, digest: B256) -> Option<Address>;

/// Calls `alloy::primitives::keccak256`; the claim is that the digest is a
/// function of the bytes alone, named `keccak256_of`.
#[verifier::external_body]
fn keccak256(data: &[u8]) -> (r: B256)
    ensures
        r == keccak256_of(data@),
{
    let h = alloy::primitives::keccak256(data).0;
    B256 {
        hi: u128::from_be_bytes(h[..16].try_into().unwrap()),
        lo: u128::from_be_bytes(h[16..].try_into().unwrap()),
    }
}

/// Parses the signature with `alloy::primitives::Signature::try_from` and calls
/// its `recover_address_from_prehash`. The claim is that the outcome is a
/// function of the signature bytes and the digest, named `recovered_signer`,
/// and that parsing refuses any signature that is not 65 bytes long.
#[verifier::external_body]
fn recover_address(signature: &[u8], digest: B256) -> (r: Result<
    Address,
    alloy::primitives::SignatureError,
>)
    ensures
        r is Ok <==> recovered_signer(signature@, digest) is Some,
        r matches Ok(a) ==> recovered_signer(signature@, digest) == Some(a),
        signature@.len() != 65 ==> r is Err,
{
    let mut d = [0u8; 32];
    d[..16].copy_from_slice(&digest.hi.to_be_bytes());
    d[16..].copy_from_slice(&digest.lo.to_be_bytes());
    let sig = alloy::primitives::Signature::try_from(signature)?;
    let a = sig.recover_address_from_prehash(&alloy::primitives::B256::from(d))?.0 .0;
    Ok(Address {
        hi: u32::from_be_bytes(a[..4].try_into().unwrap()),
        lo: u128::from_be_bytes(a[4..].try_into().unwrap()),
    })
}

// ---------------------------------------------------------------------------
// The encodings
// ---------------------------------------------------------------------------

/// A 256-bit word holding a number, big-endian.
pub open spec fn word_of_nat(v: nat) -> Seq<u8> {
    be_bytes(v, 32)
}

/// A 256-bit word holding an address: 12 zero bytes, then the address.
pub open spec fn word_of_address(a: Address) -> Seq<u8> {
    Seq::new(12, |i: int| 0u8) + a@
}

/// The number EIP-712 encodes for a side.
pub open spec fn side_code(side: Side) -> nat {
    match side {
        Side::Buy => 0,
        Side::Sell => 1,
    }
}

pub open spec fn domain_type_bytes() -> Seq<u8> {
    "EIP712Domain(string name,string version,uint256 chainId,address verifyingContract)".spec_bytes()
}

pub open spec fn domain_name_bytes() -> Seq<u8> {
    "HybridExchange".spec_bytes()
}

pub open spec fn domain_version_bytes() -> Seq<u8> {
    "1".spec_bytes()
}

pub open spec fn order_type_bytes() -> Seq<u8> {
    "Order(uint8 side,address maker,address baseToken,address quoteToken,uint256 price,uint256 quantity,uint256 nonce,uint256 expiry)".spec_bytes()
}

pub open spec fn auth_type_bytes() -> Seq<u8> {
    "AuthMessage(bytes32 nonce,uint256 timestamp)".spec_bytes()
}

pub open spec fn cancel_type_bytes() -> Seq<u8> {
    "CancelOrder(uint256 nonce)".spec_bytes()
}

/// The EIP-712 domain separator of the exchange contract on a chain.
pub open spec fn domain_separator_spec(chain_id: u64, contract: Address) -> B256 {
    keccak256_of(
        keccak256_of(domain_type_bytes())@ + keccak256_of(domain_name_bytes())@ + keccak256_of(
            domain_version_bytes(),
        )@ + word_of_nat(chain_id as nat) + word_of_address(contract),
    )
}

/// The digest that a signer signs: `keccak256(0x19 0x01 || domain || struct hash)`.
pub open spec fn digest_spec(domain_separator: B256, struct_hash: B256) -> B256 {
    keccak256_of(seq![0x19u8, 0x01u8] + domain_separator@ + struct_hash@)
}

/// The EIP-712 struct hash of an order.
pub open spec fn order_hash_spec(o: SolOrder) -> B256 {
    keccak256_of(
        keccak256_of(order_type_bytes())@ + word_of_nat(o.side as nat) + word_of_address(o.maker)
            + word_of_address(o.base_token) + word_of_address(o.quote_token) + word_of_nat(
            o.price@,
        ) + word_of_nat(o.quantity@) + word_of_nat(o.nonce@) + word_of_nat(o.expiry@),
    )
}

/// The EIP-712 struct hash of an authentication message.
pub open spec fn auth_hash_spec(nonce: B256, timestamp: u64) -> B256 {
    keccak256_of(keccak256_of(auth_type_bytes())@ + nonce@ + word_of_nat(timestamp as nat))
}

/// The EIP-712 struct hash of a cancellation.
pub open spec fn cancel_hash_spec(nonce: U256) -> B256 {
    keccak256_of(keccak256_of(cancel_type_bytes())@ + word_of_nat(nonce@))
}

/// The order as the contract's `Order` struct sees it.
#[derive(Clone, Copy, Debug, PartialEq, Eq, Structural)]
pub struct SolOrder {
    pub side: u8,
    pub maker: Address,
    pub base_token: Address,
    pub quote_token: Address,
    pub price: U256,
    pub quantity: U256,
    pub nonce: U256,
    pub expiry: U256,
}

pub open spec fn sol_order_spec(order: crate::types::SignedOrderView) -> SolOrder {
    SolOrder {
        side: side_code(order.side) as u8,
        maker: order.maker,
        base_token: order.base_token,
        quote_token: order.quote_token,
        price: order.price,
        quantity: order.quantity,
        nonce: order.nonce,
        expiry: order.expiry,
    }
}

/// The struct hash of a signed order is keccak256 of the `Order` type hash
/// followed by the ABI words of its side (0 for a buy, 1 for a sell), maker,
/// base token, quote token, price, quantity, nonce and expiry, in that order.
pub proof fn law_order_hash_encodes_its_fields(order: crate::types::SignedOrderView)
    ensures
        order_hash_spec(sol_order_spec(order)) == keccak256_of(
            keccak256_of(order_type_bytes())@ + word_of_nat(
                if order.side == Side::Buy {
                    0
                } else {
                    1
                },
            ) + word_of_address(order.maker) + word_of_address(order.base_token)
                + word_of_address(order.quote_token) + word_of_nat(order.price@) + word_of_nat(
                order.quantity@,
            ) + word_of_nat(order.nonce@) + word_of_nat(order.expiry@),
        ),
{
}

// ---------------------------------------------------------------------------
// Executable encoders
// ---------------------------------------------------------------------------

fn push_all(out: &mut Vec<u8>, bytes: &[u8])
    ensures
        final(out)@ == old(out)@ + bytes@,
{
    let mut i: usize = 0;
    while i < bytes.len()
        invariant
            i <= bytes@.len(),
            out@ == old(out)@ + bytes@.subrange(0, i as int),
        decreases bytes@.len() - i,
    {
        out.push(bytes[i]);
        i = i + 1;
        proof {
            assert(out@ =~= old(out)@ + bytes@.subrange(0, i as int));
        }
    }
    proof {
        assert(bytes@.subrange(0, i as int) =~= bytes@);
    }
}

fn push_word_u256(out: &mut Vec<u8>, v: U256)
    ensures
        final(out)@ == old(out)@ + word_of_nat(v@),
{
    let b = v.to_be_bytes();
    push_all(out, b.as_slice());
}

fn push_word_address(out: &mut Vec<u8>, a: Address)
    ensures
        final(out)@ == old(out)@ + word_of_address(a),
{
    let mut i: usize = 0;
    while i < 12
        invariant
            i <= 12,
            out@ == old(out)@ + Seq::new(i as nat, |j: int| 0u8),
        decreases 12 - i,
    {
        out.push(0u8);
        i = i + 1;
        proof {
            assert(out@ =~= old(out)@ + Seq::new(i as nat, |j: int| 0u8));
        }
    }
    let b = a.to_bytes();
    push_all(out, b.as_slice());
    proof {
        assert(out@ =~= old(out)@ + word_of_address(a));
    }
}

fn push_word_b256(out: &mut Vec<u8>, w: B256)
    ensures
        final(out)@ == old(out)@ + w@,
{
    let b = w.to_bytes();
    push_all(out, b.as_slice());
}

/// `keccak256(0x19 0x01 || domain_separator || struct_hash)`.
pub fn eip712_digest(domain_separator: B256, struct_hash: B256) -> (r: B256)
    ensures
        r == digest_spec(domain_separator, struct_hash),
{
    let mut data: Vec<u8> = Vec::new();
    data.push(0x19u8);
    data.push(0x01u8);
    push_word_b256(&mut data, domain_separator);
    push_word_b256(&mut data, struct_hash);
    proof {
        assert(data@ =~= seq![0x19u8, 0x01u8] + domain_separator@ + struct_hash@);
    }
    keccak256(data.as_slice())
}

/// The domain separator of the `HybridExchange` contract, version 1.
pub fn compute_domain_separator(chain_id: u64, contract_address: Address) -> (r: B256)
    ensures
        r == domain_separator_spec(chain_id, contract_address),
{
    let domain_type_hash = keccak256(
        "EIP712Domain(string name,string version,uint256 chainId,address verifyingContract)".as_bytes(),
    );
    let name_hash = keccak256("HybridExchange".as_bytes());
    let version_hash = keccak256("1".as_bytes());
    let mut data: Vec<u8> = Vec::new();
    push_word_b256(&mut data, domain_type_hash);
    push_word_b256(&mut data, name_hash);
    push_word_b256(&mut data, version_hash);
    push_word_u256(&mut data, U256::from_u64(chain_id));
    push_word_address(&mut data, contract_address);
    proof {
        assert(data@ =~= keccak256_of(domain_type_bytes())@ + keccak256_of(domain_name_bytes())@
            + keccak256_of(domain_version_bytes())@ + word_of_nat(chain_id as nat)
            + word_of_address(contract_address));
    }
    keccak256(data.as_slice())
}

/// The order as the contract's `Order` struct: the side as 0 (buy) or 1 (sell).
pub fn to_sol_order(order: &SignedOrder) -> (r: SolOrder)
    ensures
        r == sol_order_spec(order@),
{
    SolOrder {
        side: match order.side {
            Side::Buy => 0,
            Side::Sell => 1,
        },
        maker: order.maker,
        base_token: order.base_token,
        quote_token: order.quote_token,
        price: order.price,
        quantity: order.quantity,
        nonce: order.nonce,
        expiry: order.expiry,
    }
}

/// The EIP-712 struct hash of a contract `Order`.
pub fn sol_order_hash(o: &SolOrder) -> (r: B256)
    ensures
        r == order_hash_spec(*o),
{
    let type_hash = keccak256(
        "Order(uint8 side,address maker,address baseToken,address quoteToken,uint256 price,uint256 quantity,uint256 nonce,uint256 expiry)".as_bytes(),
    );
    let mut data: Vec<u8> = Vec::new();
    push_word_b256(&mut data, type_hash);
    push_word_u256(&mut data, U256::from_u64(o.side as u64));
    push_word_address(&mut data, o.maker);
    push_word_address(&mut data, o.base_token);
    push_word_address(&mut data, o.quote_token);
    push_word_u256(&mut data, o.price);
    push_word_u256(&mut data, o.quantity);
    push_word_u256(&mut data, o.nonce);
    push_word_u256(&mut data, o.expiry);
    proof {
        assert(data@ =~= keccak256_of(order_type_bytes())@ + word_of_nat(o.side as nat)
            + word_of_address(o.maker) + word_of_address(o.base_token) + word_of_address(
            o.quote_token,
        ) + word_of_nat(o.price@) + word_of_nat(o.quantity@) + word_of_nat(o.nonce@)
            + word_of_nat(o.expiry@));
    }
    keccak256(data.as_slice())
}

/// The EIP-712 struct hash of a signed order; it identifies the order for replay protection.
pub fn order_hash(order: &SignedOrder) -> (r: B256)
    ensures
        r == order_hash_spec(sol_order_spec(order@)),
{
    let sol_order = to_sol_order(order);
    sol_order_hash(&sol_order)
}

/// The EIP-712 struct hash of `CancelOrder(uint256 nonce)`.
pub fn cancel_order_hash(nonce: U256) -> (r: B256)
    ensures
        r == cancel_hash_spec(nonce),
{
    let type_hash = keccak256("CancelOrder(uint256 nonce)".as_bytes());
    let mut data: Vec<u8> = Vec::new();
    push_word_b256(&mut data, type_hash);
    push_word_u256(&mut data, nonce);
    proof {
        assert(data@ =~= keccak256_of(cancel_type_bytes())@ + word_of_nat(nonce@));
    }
    keccak256(data.as_slice())
}

/// The EIP-712 struct hash of `AuthMessage(bytes32 nonce, uint256 timestamp)`.
pub fn auth_message_hash(nonce: B256, timestamp: u64) -> (r: B256)
    ensures
        r == auth_hash_spec(nonce, timestamp),
{
    let type_hash = keccak256("AuthMessage(bytes32 nonce,uint256 timestamp)".as_bytes());
    let mut data: Vec<u8> = Vec::new();
    push_word_b256(&mut data, type_hash);
    push_word_b256(&mut data, nonce);
    push_word_u256(&mut data, U256::from_u64(timestamp));
    proof {
        assert(data@ =~= keccak256_of(auth_type_bytes())@ + nonce@ + word_of_nat(timestamp as nat));
    }
    keccak256(data.as_slice())
}

/// The address that signed an authentication challenge.
pub fn verify_auth(nonce: B256, timestamp: u64, signature: &[u8], domain_separator: B256) -> (r:
    Result<Address, alloy::primitives::SignatureError>)
    ensures
        r is Ok <==> recovered_signer(
            signature@,
            digest_spec(domain_separator, auth_hash_spec(nonce, timestamp)),
        ) is Some,
        r matches Ok(a) ==> Some(a) == recovered_signer(
            signature@,
            digest_spec(domain_separator, auth_hash_spec(nonce, timestamp)),
        ),
{
    let struct_hash = auth_message_hash(nonce, timestamp);
    let digest = eip712_digest(domain_separator, struct_hash);
    recover_address(signature, digest)
}

/// The digest that the maker of `order` signs.
pub open spec fn order_digest_spec(order: crate::types::SignedOrderView, domain_separator: B256) -> B256 {
    digest_spec(domain_separator, order_hash_spec(sol_order_spec(order)))
}

/// The address that signed an order.
pub fn recover_signer(order: &SignedOrder, domain_separator: B256) -> (r: Result<
    Address,
    alloy::primitives::SignatureError,
>)
    ensures
        r is Ok <==> recovered_signer(order@.signature, order_digest_spec(order@, domain_separator))
            is Some,
        r matches Ok(a) ==> Some(a) == recovered_signer(
            order@.signature,
            order_digest_spec(order@, domain_separator),
        ),
{
    let struct_hash = order_hash(order);
    let digest = eip712_digest(domain_separator, struct_hash);
    recover_address(order.signature.as_slice(), digest)
}

/// The address that signed the cancellation of the order with `nonce`.
pub fn recover_cancel_signer(nonce: U256, signature: &[u8], domain_separator: B256) -> (r: Result<
    Address,
    alloy::primitives::SignatureError,
>)
    ensures
        r is Ok <==> recovered_signer(
            signature@,
            digest_spec(domain_separator, cancel_hash_spec(nonce)),
        ) is Some,
        r matches Ok(a) ==> Some(a) == recovered_signer(
            signature@,
            digest_spec(domain_separator, cancel_hash_spec(nonce)),
        ),
{
    let struct_hash = cancel_order_hash(nonce);
    let digest = eip712_digest(domain_separator, struct_hash);
    recover_address(signature, digest)
}

} // verus!
