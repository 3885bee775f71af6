use evm_indexer::abi::{encode_event, EventParam, EventSchema, ParamKind, TokenValue};
use evm_indexer::decoder::EventDecoder;
use evm_indexer::historical::{historical_range, HistoricalSync, KnownEvents, LogAction};
use evm_indexer::metrics::MetricsCollector;

fn word_with_trailing(byte: u8) -> Vec<u8> {
    let mut w = vec![0u8; 32];
    w[31] = byte;
    w
}

fn transfer_schema() -> EventSchema {
    EventSchema {
        name: "DevTaxSent".to_string(),
        topic0: word_with_trailing(0x11),
        params: vec![
            EventParam { name: "amount".to_string(), kind: ParamKind::Uint, indexed: false },
        ],
    }
}

fn sync_engine() -> HistoricalSync {
    HistoricalSync::new(
        "testchain".to_string(),
        "0x00000000000000000000000000000000000000ab".to_string(),
        EventDecoder::from_schemas(vec![transfer_schema()]),
        MetricsCollector::new("testchain", "http://endpoint"),
        1_000,
    )
}

fn log_at(block: u64, tx_byte: u8, amount: u8) -> evm_indexer::abi::RawLog {
    let mut log = encode_event(
        &transfer_schema(),
        &vec![TokenValue::Uint(word_with_trailing(amount))],
    );
    log.block_number = Some(block);
    let mut tx = vec![0u8; 32];
    tx[31] = tx_byte;
    log.transaction_hash = Some(tx);
    log
}

#[test]
fn windows_tile_the_range_in_batches() {
    let sync = sync_engine();
    // each window holds at most batch_size (1000) blocks
    assert_eq!(
        sync.plan_windows(1_000, 2_000),
        vec![(1_000, 1_999), (2_000, 2_000)]
    );
    assert_eq!(
        sync.plan_windows(0, 2_500),
        vec![(0, 999), (1_000, 1_999), (2_000, 2_500)]
    );
    // a single block is one window of one block
    assert_eq!(sync.plan_windows(7, 7), vec![(7, 7)]);
    // an inverted range holds no window
    assert_eq!(sync.plan_windows(8, 7), Vec::<(u64, u64)>::new());
}

#[test]
fn next_window_respects_the_ceiling() {
    let sync = sync_engine();
    assert_eq!(sync.next_window(1_000, 2_000), Some((1_000, 1_999)));
    assert_eq!(sync.next_window(1_500, 3_500), Some((1_500, 2_499)));
    assert_eq!(sync.next_window(1_950, 2_000), Some((1_950, 2_000)));
    assert_eq!(sync.next_window(2_001, 2_000), None);
}

#[test]
fn prepopulated_pairs_cause_zero_inserts() {
    let sync = sync_engine();
    let logs = vec![log_at(100, 0xaa, 1), log_at(101, 0xbb, 2)];
    let mut known = KnownEvents::new();
    for log in &logs {
        known.insert(
            evm_indexer::historical::tx_hash_string(log),
            log.block_number.unwrap(),
        );
    }
    let actions = sync.plan_batch(&logs, &known, 5_000);
    assert_eq!(actions.len(), 2);
    assert!(actions.iter().all(|a| matches!(a, LogAction::Skip)));
}

#[test]
fn second_run_over_the_same_logs_inserts_nothing() {
    let sync = sync_engine();
    let logs = vec![log_at(1_200, 0x01, 5), log_at(1_300, 0x02, 6)];
    let mut known = KnownEvents::new();
    let first_run = sync.plan_batch(&logs, &known, 1_000);
    let inserts: Vec<_> = first_run
        .iter()
        .filter_map(|a| match a {
            LogAction::Insert(e) => Some(e.clone()),
            _ => None,
        })
        .collect();
    assert_eq!(inserts.len(), 2);
    assert_eq!(inserts[0].event_name, "DevTaxSent");
    assert_eq!(inserts[0].block_number, 1_200);
    for e in &inserts {
        known.insert(e.transaction_hash.clone(), e.block_number);
    }
    let second_run = sync.plan_batch(&logs, &known, 2_000);
    assert!(second_run.iter().all(|a| matches!(a, LogAction::Skip)));
}

#[test]
fn empty_batch_plans_no_actions() {
    let sync = sync_engine();
    let known = KnownEvents::new();
    let actions = sync.plan_batch(&Vec::new(), &known, 0);
    assert!(actions.is_empty());
}

#[test]
fn undecodable_log_is_a_counted_failure_not_an_insert() {
    let mut sync = sync_engine();
    let mut log = log_at(100, 0xcc, 1);
    log.topics[0] = word_with_trailing(0x99);
    let known = KnownEvents::new();
    let action = sync.plan_log_action(&log, &known, 0);
    assert!(matches!(action, LogAction::DecodeFailure));
    sync.record_action(&action);
    assert_eq!(sync.metrics.events_received, 1);
    assert_eq!(
        sync.metrics.decode_failures,
        vec![("decode_error".to_string(), 1)]
    );
}

#[test]
fn inserted_events_are_counted_by_type() {
    let mut sync = sync_engine();
    let known = KnownEvents::new();
    let action = sync.plan_log_action(&log_at(100, 0xdd, 9), &known, 42);
    match &action {
        LogAction::Insert(e) => {
            assert_eq!(e.chain_name, "testchain");
            assert_eq!(e.timestamp, 42);
            assert_eq!(
                e.transaction_hash,
                "0x00000000000000000000000000000000000000000000000000000000000000dd"
            );
        }
        _ => panic!("a fresh decodable log must be inserted"),
    }
    sync.record_action(&action);
    assert_eq!(sync.metrics.events_received, 1);
    assert_eq!(
        sync.metrics.events_processed,
        vec![("DevTaxSent".to_string(), 1)]
    );
    assert_eq!(
        sync.metrics.events_by_type,
        vec![("DevTaxSent".to_string(), 1)]
    );
}

#[test]
fn missing_starting_block_skips_the_backfill() {
    assert_eq!(historical_range(None, 9_000), None);
    assert_eq!(historical_range(Some(1_000), 9_000), Some((1_000, 9_000)));
}
