use hybrid_exchange::deposit::next_backoff;
use hybrid_exchange::deposit::{
    credit_deposits, live_boundary, log_handle_result, sync_start_block, HistoricalSync, LiveAction,
    LiveSync, LogLevel, CHUNK_SIZE,
};
use hybrid_exchange::ledger::Ledger;
use hybrid_exchange::primitives::Address;
use hybrid_exchange::types::Deposit;
use hybrid_exchange::uint::U256;

fn user() -> Address {
    Address::from_bytes(&[0x11; 20])
}

fn token() -> Address {
    Address::from_bytes(&[0x22; 20])
}

fn test_deposits() -> Vec<Deposit> {
    vec![
        Deposit { user: user(), token: token(), amount: U256::from(100u64), block_number: 10 },
        Deposit { user: user(), token: token(), amount: U256::from(200u64), block_number: 15 },
        Deposit { user: user(), token: token(), amount: U256::from(300u64), block_number: 2005 },
    ]
}

/// Replays `start..=head` against a list of chain deposits the way the
/// deposit service does: chunk by chunk, crediting and persisting the cursor.
fn replay(
    chain: &[Deposit],
    last_synced: Option<u64>,
    deploy_block: u64,
    head: u64,
    ledger: &mut Ledger,
) -> (Option<u64>, Vec<(u64, u64)>) {
    let start = sync_start_block(last_synced, deploy_block);
    let mut sync = HistoricalSync::new(start, head);
    let mut persisted = last_synced;
    let mut ranges = Vec::new();
    while let Some((from, to)) = sync.next_range() {
        let found: Vec<Deposit> = chain
            .iter()
            .filter(|d| d.block_number >= from && d.block_number <= to)
            .cloned()
            .collect();
        credit_deposits(ledger, &found);
        persisted = Some(to);
        ranges.push((from, to));
    }
    (persisted, ranges)
}

#[test]
fn sync_historical_credits_ledger() {
    let mut ledger = Ledger::new();
    replay(&test_deposits(), None, 0, 2100, &mut ledger);
    assert_eq!(ledger.available(user(), token()), U256::from(600u64));
}

#[test]
fn sync_historical_persists_block_number() {
    let mut ledger = Ledger::new();
    let (persisted, ranges) = replay(&test_deposits(), None, 0, 2100, &mut ledger);
    assert_eq!(persisted, Some(2100));
    assert_eq!(ranges, vec![(0, 1999), (2000, 2100)]);
}

#[test]
fn sync_resumes_from_last_synced_block() {
    let mut ledger = Ledger::new();
    replay(&test_deposits(), Some(12), 0, 2100, &mut ledger);
    assert_eq!(ledger.available(user(), token()), U256::from(500u64));
}

#[test]
fn sync_with_empty_deposits() {
    let mut ledger = Ledger::new();
    let (persisted, _) = replay(&[], None, 0, 100, &mut ledger);
    assert_eq!(persisted, Some(100));
}

#[test]
fn already_synced_replays_nothing() {
    let mut ledger = Ledger::new();
    let (persisted, ranges) = replay(&test_deposits(), Some(100), 0, 100, &mut ledger);
    assert_eq!(persisted, Some(100));
    assert!(ranges.is_empty());
    assert_eq!(ledger.available(user(), token()), U256::zero());
}

#[test]
fn chunks_are_at_most_chunk_size_blocks() {
    let mut sync = HistoricalSync::new(5, 5 + 2 * CHUNK_SIZE);
    assert_eq!(sync.next_range(), Some((5, 5 + CHUNK_SIZE - 1)));
    assert_eq!(sync.next_range(), Some((5 + CHUNK_SIZE, 5 + 2 * CHUNK_SIZE - 1)));
    assert!(!sync.is_finished());
    assert_eq!(sync.next_range(), Some((5 + 2 * CHUNK_SIZE, 5 + 2 * CHUNK_SIZE)));
    assert!(sync.is_finished());
    assert_eq!(sync.next_range(), None);
}

#[test]
fn replay_starts_at_deploy_block_on_a_fresh_cursor() {
    assert_eq!(sync_start_block(None, 77), 77);
    assert_eq!(sync_start_block(Some(77), 5), 78);
}

#[test]
fn live_boundary_takes_the_later_block() {
    assert_eq!(live_boundary(None, 50), 50);
    assert_eq!(live_boundary(Some(60), 50), 60);
    assert_eq!(live_boundary(Some(40), 50), 50);
}

#[test]
fn live_events_skip_replayed_blocks() {
    let mut live = LiveSync::new(100);
    assert_eq!(live.on_deposit(99), LiveAction { credit: false, persist: None });
    assert_eq!(live.on_deposit(100), LiveAction { credit: false, persist: None });
    assert_eq!(live.on_deposit(101), LiveAction { credit: true, persist: Some(101) });
    assert_eq!(live.on_deposit(101), LiveAction { credit: true, persist: None });
    assert_eq!(live.on_deposit(105), LiveAction { credit: true, persist: Some(105) });
    assert_eq!(live.last_persisted, 105);
}

#[test]
fn credit_deposits_adds_each_in_order() {
    let mut ledger = Ledger::new();
    credit_deposits(&mut ledger, &test_deposits());
    assert_eq!(ledger.available(user(), token()), U256::from(600u64));
    assert_eq!(ledger.available(token(), user()), U256::zero());
}

#[test]
fn supervisor_log_lines() {
    let ok = log_handle_result(Ok(Ok(())));
    assert_eq!(ok.level, LogLevel::Info);
    assert_eq!(ok.message, "deposit stream ended cleanly, restarting");
    assert_eq!(ok.error, None);

    let failed = log_handle_result(Ok(Err("boom".to_string())));
    assert_eq!(failed.level, LogLevel::Warn);
    assert_eq!(failed.message, "deposit stream failed, reconnecting");
    assert_eq!(failed.error.as_deref(), Some("boom"));

    let panicked = log_handle_result(Err("panic".to_string()));
    assert_eq!(panicked.level, LogLevel::Error);
    assert_eq!(panicked.message, "deposit task panicked, reconnecting");
    assert_eq!(panicked.error.as_deref(), Some("panic"));
}

#[test]
fn backoff_doubles_up_to_a_minute() {
    assert_eq!(next_backoff(1), 2);
    assert_eq!(next_backoff(16), 32);
    assert_eq!(next_backoff(30), 60);
    assert_eq!(next_backoff(32), 60);
    assert_eq!(next_backoff(60), 60);
    assert_eq!(next_backoff(u64::MAX), 60);
}
