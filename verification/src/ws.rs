//! Websocket clients: the signed challenge a client answers to authenticate,
//! and the table of open connections that fills are pushed to.
use crate::eip712::{auth_hash_spec, digest_spec, recovered_signer, verify_auth};
use crate::hex_text::{hex_decode, hex_decoded, hex_encode, hex_lower, strip_0x, strip_hex_prefix};
use crate::primitives::{Address, B256};
use crate::state::WsMessage;
use std::collections::HashMap;
use tokio::sync::mpsc::{UnboundedReceiver, UnboundedSender};
use vstd::prelude::*;

verus! {

broadcast use vstd::std_specs::hash::group_hash_axioms;

// ---------------------------------------------------------------------------
// Authentication
// ---------------------------------------------------------------------------

/// Calls `rand::random` for 32 bytes; nothing is claimed of them but their number.
#[verifier::external_body]
fn random_bytes32() -> (r: Vec<u8>)
    ensures
        r@.len() == 32,
{
    rand::random::<[u8; 32]>().to_vec()
}

/// The challenge sent to a client that opens a websocket: a fresh random nonce,
/// and the nonce as `0x` and 64 lowercase hex digits.
pub struct Challenge {
    pub nonce: B256,
    pub nonce_hex: String,
}

/// The challenge for `nonce`.
pub fn challenge_for(nonce: B256) -> (r: Challenge)
    ensures
        r.nonce == nonce,
        r.nonce_hex@ == seq!['0', 'x'] + hex_lower(nonce@),
{
    let bytes = nonce.to_bytes();
    let digits = hex_encode(bytes.as_slice());
    let mut text = "0x".to_owned();
    text.append(digits.as_str());
    proof {
        reveal_strlit("0x");
    }
    Challenge { nonce, nonce_hex: text }
}

/// A challenge with a fresh random nonce.
pub fn new_challenge() -> (r: Challenge)
    ensures
        r.nonce_hex@ == seq!['0', 'x'] + hex_lower(r.nonce@),
{
    let bytes = random_bytes32();
    challenge_for(B256::from_bytes(bytes.as_slice()))
}

/// Why a client's answer to the challenge was refused.
#[derive(Clone, Copy, Debug, PartialEq, Eq, Structural)]
pub enum AuthFailure {
    /// No text message arrived in time.
    Timeout,
    /// The answer is not an authentication request.
    Malformed,
    /// The signature is not hexadecimal.
    SignatureHex,
    /// No signer could be recovered from the signature.
    Verification,
    /// The signer is not the address the client claimed.
    AddressMismatch,
}

impl AuthFailure {
    /// The error text sent to the client before the socket is closed.
    pub fn message(&self) -> (r: String)
        ensures
            self is Timeout ==> r@ == "auth timeout"@,
            self is Malformed ==> r@ == "invalid auth message"@,
            self is SignatureHex ==> r@ == "invalid signature hex"@,
            self is Verification ==> r@ == "signature verification failed"@,
            self is AddressMismatch ==> r@ == "address mismatch"@,
    {
        match self {
            AuthFailure::Timeout => "auth timeout".to_owned(),
            AuthFailure::Malformed => "invalid auth message".to_owned(),
            AuthFailure::SignatureHex => "invalid signature hex".to_owned(),
            AuthFailure::Verification => "signature verification failed".to_owned(),
            AuthFailure::AddressMismatch => "address mismatch".to_owned(),
        }
    }
}

/// The address that signed the challenge `nonce` at `timestamp`, by the
/// signature written in hex (with or without `0x`).
pub open spec fn auth_signer(
    nonce: B256,
    timestamp: u64,
    signature: Seq<char>,
    domain_separator: B256,
) -> Option<Address> {
    match hex_decoded(strip_0x(signature)) {
        Some(sig) => recovered_signer(sig, digest_spec(domain_separator, auth_hash_spec(nonce, timestamp))),
        None => None,
    }
}

/// Checks a client's answer to the challenge `nonce`: the signature (hex, with
/// or without `0x`) must decode, recover a signer over the EIP-712
/// authentication message, and that signer must be the claimed `address`.
pub fn authenticate(
    nonce: B256,
    address: Address,
    signature: &str,
    timestamp: u64,
    domain_separator: B256,
) -> (r: Result<Address, AuthFailure>)
    ensures
        hex_decoded(strip_0x(signature@)) is None <==> r == Err::<Address, AuthFailure>(
            AuthFailure::SignatureHex,
        ),
        r == Err::<Address, AuthFailure>(AuthFailure::Verification) <==> (hex_decoded(
            strip_0x(signature@),
        ) is Some && auth_signer(nonce, timestamp, signature@, domain_separator) is None),
        r == Err::<Address, AuthFailure>(AuthFailure::AddressMismatch) <==> (auth_signer(
            nonce,
            timestamp,
            signature@,
            domain_separator,
        ) matches Some(a) && a != address),
        r is Ok <==> auth_signer(nonce, timestamp, signature@, domain_separator) == Some(address),
        r matches Ok(a) ==> a == address,
{
    let digits = strip_hex_prefix(signature);
    let sig = match hex_decode(digits) {
        Some(b) => b,
        None => {
            return Err(AuthFailure::SignatureHex);
        },
    };
    let recovered = match verify_auth(nonce, timestamp, sig.as_slice(), domain_separator) {
        Ok(a) => a,
        Err(_) => {
            return Err(AuthFailure::Verification);
        },
    };
    if !recovered.same(&address) {
        return Err(AuthFailure::AddressMismatch);
    }
    Ok(recovered)
}

// ---------------------------------------------------------------------------
// Open connections
// ---------------------------------------------------------------------------

/// `tokio::sync::mpsc::UnboundedSender`.
#[verifier::external_type_specification]
#[verifier::external_body]
#[verifier::reject_recursive_types(T)]
pub struct ExUnboundedSender<T>(UnboundedSender<T>);

/// `tokio::sync::mpsc::UnboundedReceiver`.
#[verifier::external_type_specification]
#[verifier::external_body]
#[verifier::reject_recursive_types(T)]
pub struct ExUnboundedReceiver<T>(UnboundedReceiver<T>);

/// The sending end of a client's channel, with a model of it: the label the
/// channel was opened under, the messages queued on it, and whether it was
/// found closed (its receiving end gone).
struct Outbox {
    sender: UnboundedSender<WsMessage>,
    channel: Ghost<usize>,
    queued: Ghost<Seq<WsMessage>>,
    closed: Ghost<bool>,
}

/// The receiving end of a client's channel, and the label it was opened under.
pub struct Inbox {
    receiver: UnboundedReceiver<WsMessage>,
    channel: Ghost<usize>,
}

impl View for Inbox {
    type V = usize;

    closed spec fn view(&self) -> usize {
        self.channel@
    }
}

impl Inbox {
    /// The receiving end itself.
    pub fn into_receiver(self) -> UnboundedReceiver<WsMessage> {
        self.receiver
    }
}

/// Calls `tokio::sync::mpsc::unbounded_channel` once and gives both ends of
/// the new channel the label `label`: the channel is open and nothing is
/// queued on it yet. That another call with the same label opens another
/// channel is not told apart here.
#[verifier::external_body]
fn new_channel(label: usize) -> (r: (Outbox, Inbox))
    ensures
        r.0.channel@ == label,
        r.1.channel@ == label,
        r.0.queued@ == Seq::<WsMessage>::empty(),
        !r.0.closed@,
{
    let (sender, receiver) = tokio::sync::mpsc::unbounded_channel();
    (
        Outbox { sender, channel: Ghost(label), queued: Ghost(Seq::empty()), closed: Ghost(false) },
        Inbox { receiver, channel: Ghost(label) },
    )
}

/// Calls `UnboundedSender::send` with a clone of `msg`. It succeeds (`true`)
/// exactly when the channel's receiving end is still there, and then `msg`
/// is queued on the channel; otherwise nothing is queued and the channel is
/// closed for good.
#[verifier::external_body]
fn deliver(outbox: &mut Outbox, msg: &WsMessage) -> (r: bool)
    ensures
        final(outbox).sender == old(outbox).sender,
        final(outbox).channel == old(outbox).channel,
        r ==> final(outbox).queued@ == old(outbox).queued@.push(*msg) && final(outbox).closed
            == old(outbox).closed,
        !r ==> final(outbox).queued == old(outbox).queued && final(outbox).closed@,
{
    outbox.sender.send(msg.clone()).is_ok()
}

/// One open connection of an authenticated address.
struct Connection {
    address: Address,
    id: usize,
    outbox: Outbox,
}

/// What one connection stands for: its id, the label of its channel, the
/// messages queued on that channel, and whether the channel was found closed.
pub struct ConnectionView {
    pub id: usize,
    pub channel: usize,
    pub queued: Seq<WsMessage>,
    pub closed: bool,
}

/// What the registry holds: for each address, its open connections in the
/// order they were registered (none for most addresses), and the next id to
/// hand out.
pub struct WsRegistryView {
    pub connections: Map<Address, Seq<ConnectionView>>,
    pub next_id: nat,
}

/// The open websocket connections, kept as buckets keyed by the low 128 bits
/// of an address; each bucket lists, in registration order, the connections
/// of the addresses with that key.
pub struct WsRegistry {
    buckets: HashMap<u128, Vec<Connection>>,
    next_id: usize,
}

spec fn conn_view(c: Connection) -> ConnectionView {
    ConnectionView {
        id: c.id,
        channel: c.outbox.channel@,
        queued: c.outbox.queued@,
        closed: c.outbox.closed@,
    }
}

/// The connections of `address` among `s`, in order.
spec fn views_at(s: Seq<Connection>, address: Address) -> Seq<ConnectionView>
    decreases s.len(),
{
    if s.len() == 0 {
        Seq::empty()
    } else {
        let r = views_at(s.drop_last(), address);
        if s.last().address == address {
            r.push(conn_view(s.last()))
        } else {
            r
        }
    }
}

/// The connections kept under key `lo`.
spec fn bucket_conns(m: Map<u128, Vec<Connection>>, lo: u128) -> Seq<Connection> {
    if m.contains_key(lo) {
        m[lo]@
    } else {
        Seq::empty()
    }
}

/// No connection in `s` was found closed.
spec fn all_open(s: Seq<Connection>) -> bool {
    forall|i: int| 0 <= i < s.len() ==> !(#[trigger] s[i]).outbox.closed@
}

impl View for WsRegistry {
    type V = WsRegistryView;

    closed spec fn view(&self) -> WsRegistryView {
        WsRegistryView {
            connections: Map::new(
                |a: Address| true,
                |a: Address| views_at(bucket_conns(self.buckets@, a.lo), a),
            ),
            next_id: self.next_id as nat,
        }
    }
}

/// Keeps the connections whose channel is still open.
pub open spec fn is_open() -> spec_fn(ConnectionView) -> bool {
    |c: ConnectionView| !c.closed
}

/// Keeps every connection but `id`.
pub open spec fn other_than(id: usize) -> spec_fn(ConnectionView) -> bool {
    |c: ConnectionView| c.id != id
}

/// `after` is `c` once `msg` was offered to its channel: queued on it, or
/// the channel found closed with nothing queued.
pub open spec fn offered(c: ConnectionView, after: ConnectionView, msg: WsMessage) -> bool {
    ||| after == ConnectionView { queued: c.queued.push(msg), ..c }
    ||| after == ConnectionView { closed: true, ..c }
}

proof fn lemma_views_at_push(s: Seq<Connection>, c: Connection)
    ensures
        forall|a: Address|
            #[trigger] views_at(s.push(c), a) == if c.address == a {
                views_at(s, a).push(conn_view(c))
            } else {
                views_at(s, a)
            },
{
    assert(s.push(c).drop_last() =~= s);
}

proof fn lemma_filter_push<A>(s: Seq<A>, x: A, p: spec_fn(A) -> bool)
    ensures
        s.push(x).filter(p) == (if p(x) {
            s.filter(p).push(x)
        } else {
            s.filter(p)
        }),
{
    reveal(Seq::filter);
    assert(s.push(x).drop_last() =~= s);
}

proof fn lemma_prefix_step<A>(s: Seq<A>, k: int)
    requires
        0 <= k < s.len(),
    ensures
        s.subrange(0, k + 1) == s.subrange(0, k).push(s[k]),
{
    assert(s.subrange(0, k + 1) =~= s.subrange(0, k).push(s[k]));
}

/// Offers `msg` to every connection of `address` in `conns`, in order, and
/// keeps those whose channel took it; returns the connections kept and each
/// offered connection as the offer left it.
fn bucket_send(conns: Vec<Connection>, address: &Address, msg: &WsMessage) -> (r: (
    Vec<Connection>,
    Ghost<Seq<ConnectionView>>,
))
    requires
        all_open(conns@),
    ensures
        r.1@.len() == views_at(conns@, *address).len(),
        forall|i: int|
            0 <= i < r.1@.len() ==> offered(views_at(conns@, *address)[i], #[trigger] r.1@[i], *msg),
        views_at(r.0@, *address) == r.1@.filter(is_open()),
        forall|a: Address| a != *address ==> #[trigger] views_at(r.0@, a) == views_at(conns@, a),
        all_open(r.0@),
{
    let mut rest = conns;
    let ghost old_conns = rest@;
    let mut kept: Vec<Connection> = Vec::new();
    let ghost mut offers: Seq<ConnectionView> = Seq::empty();
    let ghost mut done: int = 0;
    proof {
        assert(rest@ =~= old_conns.subrange(0, old_conns.len() as int));
        assert(old_conns.subrange(0, 0) =~= Seq::<Connection>::empty());
        reveal(Seq::filter);
        assert(offers.filter(is_open()) =~= Seq::<ConnectionView>::empty());
    }
    while rest.len() > 0
        invariant
            0 <= done <= old_conns.len(),
            all_open(old_conns),
            rest@ == old_conns.subrange(done, old_conns.len() as int),
            offers.len() == views_at(old_conns.subrange(0, done), *address).len(),
            forall|i: int|
                0 <= i < offers.len() ==> offered(
                    views_at(old_conns.subrange(0, done), *address)[i],
                    #[trigger] offers[i],
                    *msg,
                ),
            views_at(kept@, *address) == offers.filter(is_open()),
            forall|a: Address|
                a != *address ==> #[trigger] views_at(kept@, a) == views_at(
                    old_conns.subrange(0, done),
                    a,
                ),
            all_open(kept@),
        decreases rest.len(),
    {
        let ghost before = kept@;
        let ghost prefix = old_conns.subrange(0, done);
        let ghost offers_before = offers;
        let mut c = rest.remove(0);
        proof {
            assert(c == old_conns[done]);
            assert(rest@ =~= old_conns.subrange(done + 1, old_conns.len() as int));
            lemma_prefix_step(old_conns, done);
            lemma_views_at_push(prefix, c);
            assert(!c.outbox.closed@);
        }
        if c.address.same(address) {
            let ghost c0 = c;
            let accepted = deliver(&mut c.outbox, msg);
            proof {
                offers = offers.push(conn_view(c));
                assert(offered(conn_view(c0), conn_view(c), *msg));
                lemma_filter_push(offers_before, conn_view(c), is_open());
                assert forall|i: int| 0 <= i < offers.len() implies offered(
                    views_at(old_conns.subrange(0, done + 1), *address)[i],
                    #[trigger] offers[i],
                    *msg,
                ) by {
                    if i < offers_before.len() {
                        assert(offers[i] == offers_before[i]);
                    }
                }
            }
            if accepted {
                kept.push(c);
                proof {
                    lemma_views_at_push(before, c);
                    assert(kept@ == before.push(c));
                }
            }
        } else {
            kept.push(c);
            proof {
                lemma_views_at_push(before, c);
                assert(kept@ == before.push(c));
            }
        }
        proof {
            done = done + 1;
        }
    }
    proof {
        assert(old_conns.subrange(0, done) =~= old_conns);
    }
    (kept, Ghost(offers))
}

/// `conns` without the connection `sender_id` of `address`.
fn bucket_remove(conns: Vec<Connection>, address: &Address, sender_id: usize) -> (r: Vec<Connection>)
    requires
        all_open(conns@),
    ensures
        views_at(r@, *address) == views_at(conns@, *address).filter(other_than(sender_id)),
        forall|a: Address| a != *address ==> #[trigger] views_at(r@, a) == views_at(conns@, a),
        all_open(r@),
{
    let mut rest = conns;
    let ghost old_conns = rest@;
    let mut kept: Vec<Connection> = Vec::new();
    let ghost mut done: int = 0;
    proof {
        assert(rest@ =~= old_conns.subrange(0, old_conns.len() as int));
        assert(old_conns.subrange(0, 0) =~= Seq::<Connection>::empty());
        reveal(Seq::filter);
        assert(Seq::<ConnectionView>::empty().filter(other_than(sender_id)) =~= Seq::<ConnectionView>::empty());
    }
    while rest.len() > 0
        invariant
            0 <= done <= old_conns.len(),
            all_open(old_conns),
            rest@ == old_conns.subrange(done, old_conns.len() as int),
            views_at(kept@, *address) == views_at(old_conns.subrange(0, done), *address).filter(
                other_than(sender_id),
            ),
            forall|a: Address|
                a != *address ==> #[trigger] views_at(kept@, a) == views_at(
                    old_conns.subrange(0, done),
                    a,
                ),
            all_open(kept@),
        decreases rest.len(),
    {
        let ghost before = kept@;
        let ghost prefix = old_conns.subrange(0, done);
        let c = rest.remove(0);
        proof {
            assert(c == old_conns[done]);
            assert(rest@ =~= old_conns.subrange(done + 1, old_conns.len() as int));
            lemma_prefix_step(old_conns, done);
            lemma_views_at_push(prefix, c);
            lemma_filter_push(views_at(prefix, *address), conn_view(c), other_than(sender_id));
        }
        if !(c.address.same(address) && c.id == sender_id) {
            kept.push(c);
            proof {
                lemma_views_at_push(before, c);
                assert(kept@ == before.push(c));
            }
        }
        proof {
            done = done + 1;
        }
    }
    proof {
        assert(old_conns.subrange(0, done) =~= old_conns);
    }
    kept
}

impl WsRegistry {
    #[verifier::type_invariant]
    spec fn inv(self) -> bool {
        forall|lo: u128| #[trigger] self.buckets@.contains_key(lo) ==> all_open(self.buckets@[lo]@)
    }

    /// An empty registry.
    pub fn new() -> (r: WsRegistry)
        ensures
            forall|a: Address| #[trigger] r@.connections[a] == Seq::<ConnectionView>::empty(),
            r@.next_id == 0,
    {
        WsRegistry { buckets: HashMap::new(), next_id: 0 }
    }

    /// Opens a channel for `address`; returns the connection's id and the
    /// receiving end of its channel. Ids are handed out in increasing order,
    /// and each channel is opened under its connection's id.
    pub fn register(&mut self, address: Address) -> (r: (usize, Inbox))
        requires
            old(self)@.next_id < usize::MAX,
        ensures
            r.0 == old(self)@.next_id,
            r.1@ == r.0,
            final(self)@.connections == old(self)@.connections.insert(
                address,
                old(self)@.connections[address].push(
                    ConnectionView { id: r.0, channel: r.0, queued: Seq::empty(), closed: false },
                ),
            ),
            final(self)@.next_id == old(self)@.next_id + 1,
    {
        proof {
            use_type_invariant(&*self);
        }
        let id = self.next_id;
        let (outbox, inbox) = new_channel(id);
        let mut buckets: HashMap<u128, Vec<Connection>> = HashMap::new();
        std::mem::swap(&mut buckets, &mut self.buckets);
        let ghost pre = buckets@;
        let mut conns = match buckets.remove(&address.lo) {
            Some(v) => v,
            None => Vec::new(),
        };
        let ghost before = conns@;
        proof {
            assert(before == bucket_conns(pre, address.lo));
        }
        let c = Connection { address, id, outbox };
        conns.push(c);
        proof {
            lemma_views_at_push(before, c);
            assert(conns@ == before.push(c));
        }
        buckets.insert(address.lo, conns);
        *self = WsRegistry { buckets, next_id: id + 1 };
        proof {
            let target = old(self)@.connections.insert(
                address,
                old(self)@.connections[address].push(
                    ConnectionView { id, channel: id, queued: Seq::empty(), closed: false },
                ),
            );
            assert forall|a: Address| #[trigger] self@.connections[a] == target[a] by {
                if a.lo == address.lo {
                    assert(views_at(before.push(c), a) == views_at(bucket_conns(self.buckets@, a.lo), a));
                }
            }
            assert(self@.connections =~= target);
        }
        (id, inbox)
    }

    /// The id the next registered connection will get.
    pub fn next_id(&self) -> (r: usize)
        ensures
            r == self@.next_id,
    {
        self.next_id
    }

    /// Offers `msg` to every connection of `address`, in registration order,
    /// and to no other: each one whose channel is still there gets it queued
    /// once; those whose channel was found closed are dropped. Returns each
    /// connection of `address` as the offer left it.
    pub fn send_to(&mut self, address: &Address, msg: &WsMessage) -> (offers: Ghost<Seq<ConnectionView>>)
        ensures
            offers@.len() == old(self)@.connections[*address].len(),
            forall|i: int|
                0 <= i < offers@.len() ==> offered(
                    old(self)@.connections[*address][i],
                    #[trigger] offers@[i],
                    *msg,
                ),
            final(self)@.connections == old(self)@.connections.insert(
                *address,
                offers@.filter(is_open()),
            ),
            final(self)@.next_id == old(self)@.next_id,
    {
        proof {
            use_type_invariant(&*self);
        }
        let next_id = self.next_id;
        let mut buckets: HashMap<u128, Vec<Connection>> = HashMap::new();
        std::mem::swap(&mut buckets, &mut self.buckets);
        let ghost pre = buckets@;
        let conns = match buckets.remove(&address.lo) {
            Some(v) => v,
            None => Vec::new(),
        };
        let ghost old_bucket = conns@;
        proof {
            assert(old_bucket == bucket_conns(pre, address.lo));
        }
        let (kept, offers) = bucket_send(conns, address, msg);
        buckets.insert(address.lo, kept);
        *self = WsRegistry { buckets, next_id };
        proof {
            let target = old(self)@.connections.insert(*address, offers@.filter(is_open()));
            assert forall|a: Address| #[trigger] self@.connections[a] == target[a] by {
                if a.lo == address.lo && a != *address {
                    assert(views_at(bucket_conns(self.buckets@, a.lo), a) == views_at(old_bucket, a));
                }
            }
            assert(self@.connections =~= target);
        }
        offers
    }

    /// Drops the connection `sender_id` of `address`.
    pub fn remove(&mut self, address: &Address, sender_id: usize)
        ensures
            final(self)@.connections == old(self)@.connections.insert(
                *address,
                old(self)@.connections[*address].filter(other_than(sender_id)),
            ),
            final(self)@.next_id == old(self)@.next_id,
    {
        proof {
            use_type_invariant(&*self);
        }
        let next_id = self.next_id;
        let mut buckets: HashMap<u128, Vec<Connection>> = HashMap::new();
        std::mem::swap(&mut buckets, &mut self.buckets);
        let ghost pre = buckets@;
        let conns = match buckets.remove(&address.lo) {
            Some(v) => v,
            None => Vec::new(),
        };
        let ghost old_bucket = conns@;
        proof {
            assert(old_bucket == bucket_conns(pre, address.lo));
        }
        let kept = bucket_remove(conns, address, sender_id);
        buckets.insert(address.lo, kept);
        *self = WsRegistry { buckets, next_id };
        proof {
            let target = old(self)@.connections.insert(
                *address,
                old(self)@.connections[*address].filter(other_than(sender_id)),
            );
            assert forall|a: Address| #[trigger] self@.connections[a] == target[a] by {
                if a.lo == address.lo && a != *address {
                    assert(views_at(bucket_conns(self.buckets@, a.lo), a) == views_at(old_bucket, a));
                }
            }
            assert(self@.connections =~= target);
        }
    }
}

} // verus!
