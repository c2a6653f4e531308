//! Crediting on-chain deposits: the replay of past blocks in chunks, the
//! filtering of live events, and what the supervisor logs about the stream task.
use crate::ledger::{add_u256, balance_in, Ledger, TokenBalance};
use crate::primitives::Address;
use crate::ledger_laws::total_in;
use crate::types::Deposit;
use crate::uint::{lemma_u256_bound, lemma_view_of_u256_of, u256_modulus};
use vstd::arithmetic::div_mod::{lemma_add_mod_noop, lemma_mod_twice, lemma_small_mod};
use vstd::prelude::*;

verus! {

/// Blocks per historical query.
pub const CHUNK_SIZE: u64 = 2000;

/// The first block to replay: one past the last synced block, or the
/// contract's deployment block when nothing was synced yet.
pub fn sync_start_block(last_synced: Option<u64>, contract_deploy_block: u64) -> (r: u64)
    requires
        last_synced matches Some(b) ==> b < u64::MAX,
    ensures
        r == match last_synced {
            Some(b) => (b + 1) as u64,
            None => contract_deploy_block,
        },
{
    match last_synced {
        Some(b) => b + 1,
        None => contract_deploy_block,
    }
}

/// The replay of blocks `start..=head` in chunks of at most [`CHUNK_SIZE`] blocks.
pub struct HistoricalSync {
    next: u64,
    head: u64,
    finished: bool,
}

pub struct HistoricalSyncView {
    pub next: u64,
    pub head: u64,
    pub finished: bool,
}

impl View for HistoricalSync {
    type V = HistoricalSyncView;

    closed spec fn view(&self) -> HistoricalSyncView {
        HistoricalSyncView { next: self.next, head: self.head, finished: self.finished }
    }
}

impl HistoricalSync {
    #[verifier::type_invariant]
    spec fn inv(self) -> bool {
        !self.finished ==> self.next <= self.head
    }

    /// The replay from `start` to `head`; already finished when `start > head`.
    pub fn new(start: u64, head: u64) -> (r: HistoricalSync)
        ensures
            r@.finished == (start > head),
            !r@.finished ==> r@.next == start,
            r@.head == head,
    {
        HistoricalSync { next: start, head, finished: start > head }
    }

    pub fn is_finished(&self) -> (r: bool)
        ensures
            r == self@.finished,
    {
        self.finished
    }

    /// The next chunk `(from, to)` to query; `None` once `head` was reached.
    /// Chunks follow each other without gap or overlap and the last one ends at `head`.
    pub fn next_range(&mut self) -> (r: Option<(u64, u64)>)
        ensures
            old(self)@.finished ==> r is None && final(self)@ == old(self)@,
            !old(self)@.finished ==> {
                let from = old(self)@.next;
                let head = old(self)@.head;
                let to = if head - from >= CHUNK_SIZE - 1 {
                    (from + CHUNK_SIZE - 1) as u64
                } else {
                    head
                };
                &&& r == Some((from, to))
                &&& from <= to <= head
                &&& to - from < CHUNK_SIZE
                &&& final(self)@.head == head
                &&& final(self)@.finished == (to == head)
                &&& to < head ==> final(self)@.next == to + 1
            },
    {
        proof {
            use_type_invariant(&*self);
        }
        if self.finished {
            return None;
        }
        let from = self.next;
        let to = if self.head - from >= CHUNK_SIZE - 1 {
            from + (CHUNK_SIZE - 1)
        } else {
            self.head
        };
        if to == self.head {
            self.finished = true;
        } else {
            self.next = to + 1;
        }
        Some((from, to))
    }
}

/// The ledger after each deposit in `deposits[..k]` was credited in order.
pub open spec fn credited(m: Map<(Address, Address), TokenBalance>, deposits: Seq<Deposit>, k: nat) -> Map<
    (Address, Address),
    TokenBalance,
>
    decreases k,
{
    if k == 0 {
        m
    } else {
        let prev = credited(m, deposits, (k - 1) as nat);
        let d = deposits[k - 1];
        let b = balance_in(prev, d.user, d.token);
        prev.insert((d.user, d.token), TokenBalance { available: add_u256(b.available, d.amount), ..b })
    }
}

/// The sum of the amounts of the deposits in `deposits[..k]` made by `user`
/// in `token`.
pub open spec fn deposited(deposits: Seq<Deposit>, k: nat, user: Address, token: Address) -> nat
    decreases k,
{
    if k == 0 || k > deposits.len() {
        0
    } else {
        deposited(deposits, (k - 1) as nat, user, token) + if deposits[k - 1].user == user
            && deposits[k - 1].token == token {
            deposits[k - 1].amount@
        } else {
            0
        }
    }
}

/// Crediting deposits changes only available balances: for every (user,
/// token) the reserved balance stays as it was, while the available balance
/// and the total grow by the sum of that pair's deposits, modulo `2^256`.
pub proof fn law_credit_deposits_adds_to_available_only(
    m: Map<(Address, Address), TokenBalance>,
    deposits: Seq<Deposit>,
    k: nat,
    user: Address,
    token: Address,
)
    requires
        k <= deposits.len(),
    ensures
        balance_in(credited(m, deposits, k), user, token).reserved == balance_in(m, user, token).reserved,
        balance_in(credited(m, deposits, k), user, token).available@ == (balance_in(m, user, token).available@
            + deposited(deposits, k, user, token)) % u256_modulus(),
        total_in(credited(m, deposits, k), user, token)@ == (total_in(m, user, token)@ + deposited(
            deposits,
            k,
            user,
            token,
        )) % u256_modulus(),
    decreases k,
{
    lemma_credited_parts(m, deposits, k, user, token);
    let b0 = balance_in(m, user, token);
    let b1 = balance_in(credited(m, deposits, k), user, token);
    lemma_total_after_adding(b0.available@, b0.reserved@, deposited(deposits, k, user, token));
    lemma_view_of_u256_of(b1.available@ + b1.reserved@);
    lemma_view_of_u256_of(b0.available@ + b0.reserved@);
}

proof fn lemma_credited_parts(
    m: Map<(Address, Address), TokenBalance>,
    deposits: Seq<Deposit>,
    k: nat,
    user: Address,
    token: Address,
)
    requires
        k <= deposits.len(),
    ensures
        balance_in(credited(m, deposits, k), user, token).reserved == balance_in(m, user, token).reserved,
        balance_in(credited(m, deposits, k), user, token).available@ == (balance_in(m, user, token).available@
            + deposited(deposits, k, user, token)) % u256_modulus(),
    decreases k,
{
    let b0 = balance_in(m, user, token);
    let md = u256_modulus() as int;
    if k > 0 {
        lemma_credited_parts(m, deposits, (k - 1) as nat, user, token);
        let prev = credited(m, deposits, (k - 1) as nat);
        let d = deposits[k - 1];
        let b = balance_in(prev, d.user, d.token);
        let s1 = deposited(deposits, (k - 1) as nat, user, token);
        if d.user == user && d.token == token {
            lemma_view_of_u256_of(b.available@ + d.amount@);
            lemma_add_mod_noop((b0.available@ + s1) as int, d.amount@ as int, md);
            lemma_u256_bound(d.amount);
            lemma_small_mod(d.amount@, md as nat);
        }
    } else {
        lemma_u256_bound(b0.available);
        lemma_small_mod(b0.available@, md as nat);
    }
}

/// `((a + s) mod M + r) mod M == ((a + r) mod M + s) mod M` for `r < M`.
proof fn lemma_total_after_adding(a: nat, r: nat, s: nat)
    requires
        r < u256_modulus(),
    ensures
        ((a + s) % u256_modulus() + r) % u256_modulus() == ((a + r) % u256_modulus() + s)
            % u256_modulus(),
{
    let md = u256_modulus() as int;
    lemma_add_mod_noop((a + s) as int, r as int, md);
    lemma_small_mod(r, md as nat);
    lemma_add_mod_noop((a + r) as int, s as int, md);
    lemma_mod_twice(s as int, md);
    lemma_add_mod_noop((a + s) as int, 0, md);
    assert((a + s) + r == (a + r) + s);
    lemma_mod_twice((a + s + r) as int, md);
    lemma_add_mod_noop(((a + r) % (md as nat)) as int, s as int, md);
    lemma_mod_twice((a + r) as int, md);
}

/// Credits every deposit, in order, to its user's available balance.
pub fn credit_deposits(ledger: &mut Ledger, deposits: &Vec<Deposit>)
    ensures
        final(ledger)@ == credited(old(ledger)@, deposits@, deposits@.len()),
{
    let mut i: usize = 0;
    while i < deposits.len()
        invariant
            i <= deposits@.len(),
            ledger@ == credited(old(ledger)@, deposits@, i as nat),
        decreases deposits@.len() - i,
    {
        let d = deposits[i];
        ledger.credit(d.user, d.token, d.amount);
        i = i + 1;
    }
}

/// The block up to which the replay covered deposits: the higher of the
/// chain head and the persisted cursor, which after a long downtime may be ahead.
pub fn live_boundary(persisted: Option<u64>, head: u64) -> (r: u64)
    ensures
        r == match persisted {
            Some(b) => if b >= head {
                b
            } else {
                head
            },
            None => head,
        },
{
    match persisted {
        Some(b) => if b >= head {
            b
        } else {
            head
        },
        None => head,
    }
}

/// The filter on live deposit events.
pub struct LiveSync {
    pub last_synced: u64,
    pub last_persisted: u64,
}

/// What to do with one live deposit event.
#[derive(Clone, Copy, Debug, PartialEq, Eq, Structural)]
pub struct LiveAction {
    /// Credit the deposit to the ledger.
    pub credit: bool,
    /// Persist this block as the sync cursor.
    pub persist: Option<u64>,
}

impl LiveSync {
    /// Live events start after `last_synced`, which is also the persisted cursor.
    pub fn new(last_synced: u64) -> (r: LiveSync)
        ensures
            r.last_synced == last_synced,
            r.last_persisted == last_synced,
    {
        LiveSync { last_synced, last_persisted: last_synced }
    }

    /// Events at or before the replayed blocks are skipped; the others are
    /// credited, and the cursor is persisted when the event is in a new block.
    pub fn on_deposit(&mut self, block_number: u64) -> (r: LiveAction)
        ensures
            final(self).last_synced == old(self).last_synced,
            block_number <= old(self).last_synced ==> r == (LiveAction { credit: false, persist: None })
                && final(self).last_persisted == old(self).last_persisted,
            block_number > old(self).last_synced && block_number > old(self).last_persisted ==> r
                == (LiveAction { credit: true, persist: Some(block_number) })
                && final(self).last_persisted == block_number,
            block_number > old(self).last_synced && block_number <= old(self).last_persisted ==> r
                == (LiveAction { credit: true, persist: None }) && final(self).last_persisted
                == old(self).last_persisted,
    {
        if block_number <= self.last_synced {
            return LiveAction { credit: false, persist: None };
        }
        if block_number > self.last_persisted {
            self.last_persisted = block_number;
            LiveAction { credit: true, persist: Some(block_number) }
        } else {
            LiveAction { credit: true, persist: None }
        }
    }
}

/// The longest wait between two attempts to resubscribe, in seconds.
pub const MAX_BACKOFF_SECS: u64 = 60;

/// The wait before the next attempt to resubscribe: twice the last one, at
/// most [`MAX_BACKOFF_SECS`].
pub fn next_backoff(secs: u64) -> (r: u64)
    ensures
        r == (if 2 * secs <= MAX_BACKOFF_SECS { 2 * secs } else { MAX_BACKOFF_SECS as int }),
{
    if secs <= MAX_BACKOFF_SECS / 2 {
        secs * 2
    } else {
        MAX_BACKOFF_SECS
    }
}

#[derive(Clone, Copy, Debug, PartialEq, Eq, Structural)]
pub enum LogLevel {
    Info,
    Warn,
    Error,
}

/// A line for the log.
#[derive(Clone, Debug)]
pub struct LogLine {
    pub level: LogLevel,
    pub message: String,
    pub error: Option<String>,
}

/// What to log when the live deposit task ends: a clean end, a failure of the
/// stream, or a panic of the task (the outer error).
pub fn log_handle_result(result: Result<Result<(), String>, String>) -> (r: LogLine)
    ensures
        result matches Ok(Ok(())) ==> r.level == LogLevel::Info && r.message@
            == "deposit stream ended cleanly, restarting"@ && r.error is None,
        result matches Ok(Err(e)) ==> r.level == LogLevel::Warn && r.message@
            == "deposit stream failed, reconnecting"@ && r.error == Some(e),
        result matches Err(e) ==> r.level == LogLevel::Error && r.message@
            == "deposit task panicked, reconnecting"@ && r.error == Some(e),
{
    match result {
        Ok(Ok(())) => LogLine {
            level: LogLevel::Info,
            message: "deposit stream ended cleanly, restarting".to_owned(),
            error: None,
        },
        Ok(Err(e)) => LogLine {
            level: LogLevel::Warn,
            message: "deposit stream failed, reconnecting".to_owned(),
            error: Some(e),
        },
        Err(e) => LogLine {
            level: LogLevel::Error,
            message: "deposit task panicked, reconnecting".to_owned(),
            error: Some(e),
        },
    }
}

} // verus!
