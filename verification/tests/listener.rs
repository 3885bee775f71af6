use evm_indexer::abi::{encode_event, EventParam, EventSchema, ParamKind, TokenValue};
use evm_indexer::circuit_breaker::CircuitState;
use evm_indexer::config::{
    ChainConfig, CircuitBreakerConfig, HealthCheckConfig, RpcEndpoint, RpcType,
};
use evm_indexer::connection::ChainConnection;
use evm_indexer::decoder::{EventDecoder, FieldValue};
use evm_indexer::error::Error;
use evm_indexer::listener::{Backoff, EventListener};
use evm_indexer::metrics::MetricsCollector;

fn word_with_trailing(byte: u8) -> Vec<u8> {
    let mut w = vec![0u8; 32];
    w[31] = byte;
    w
}

fn sample_address() -> Vec<u8> {
    let mut a = vec![0u8; 20];
    a[18] = 0xde;
    a[19] = 0xad;
    a
}

fn tickets_bought_schema() -> EventSchema {
    EventSchema {
        name: "TicketsBought".to_string(),
        topic0: word_with_trailing(0x77),
        params: vec![
            EventParam { name: "buyer".to_string(), kind: ParamKind::Address, indexed: true },
            EventParam { name: "amount".to_string(), kind: ParamKind::Uint, indexed: false },
        ],
    }
}

fn test_listener(failure_threshold: u32) -> EventListener {
    let config = ChainConfig {
        name: "testchain".to_string(),
        contract_address: "0x00000000000000000000000000000000000000ab".to_string(),
        rpcs: vec![RpcEndpoint {
            url: "ws://endpoint".to_string(),
            rpc_type: RpcType::WebSocket,
            priority: 0,
            health_check: HealthCheckConfig {
                interval_secs: 30,
                timeout_secs: 5,
                min_peers: 1,
                max_blocks_behind: 10,
            },
            circuit_breaker: CircuitBreakerConfig {
                failure_threshold,
                reset_timeout: 60,
                half_open_timeout: 10,
            },
        }],
        starting_block: None,
    };
    let connection = ChainConnection::new(config, MetricsCollector::new("testchain", "ws://endpoint"));
    EventListener::new(connection, EventDecoder::from_schemas(vec![tickets_bought_schema()]))
}

fn tickets_log(block: u64, amount: u8) -> evm_indexer::abi::RawLog {
    let mut log = encode_event(
        &tickets_bought_schema(),
        &vec![
            TokenValue::Address(sample_address()),
            TokenValue::Uint(word_with_trailing(amount)),
        ],
    );
    log.block_number = Some(block);
    let mut tx = vec![0u8; 32];
    tx[30] = 0x0a;
    tx[31] = 0xbc;
    log.transaction_hash = Some(tx);
    log
}

#[test]
fn happy_path_builds_the_document_and_counts_it() {
    let mut listener = test_listener(3);
    let log = tickets_log(100, 42);
    let prepared = listener.prepare_event(&log, 7_000).expect("log must decode");
    assert!(prepared.write_allowed);
    let e = &prepared.event_log;
    assert_eq!(e.chain_name, "testchain");
    assert_eq!(e.event_name, "TicketsBought");
    assert_eq!(e.block_number, 100);
    assert_eq!(
        e.transaction_hash,
        "0x0000000000000000000000000000000000000000000000000000000000000abc"
    );
    assert_eq!(e.timestamp, 7_000);
    assert_eq!(e.params[0].0, "buyer");
    match &e.params[0].1 {
        FieldValue::S(s) => assert_eq!(s, "0x000000000000000000000000000000000000dead"),
        _ => panic!("buyer must be a string"),
    }
    match &e.params[1].1 {
        FieldValue::S(s) => assert_eq!(s, "42"),
        _ => panic!("amount must be a string"),
    }
    let metrics = &listener.connection.state.metrics;
    assert_eq!(metrics.events_received, 1);
    assert_eq!(metrics.events_by_type, vec![("TicketsBought".to_string(), 1)]);
    assert_eq!(metrics.last_block_height, 100);
    listener.on_write_success("TicketsBought");
    assert_eq!(
        listener.connection.state.metrics.events_processed,
        vec![("TicketsBought".to_string(), 1)]
    );
}

#[test]
fn decode_failure_is_counted_and_does_not_stop_the_listener() {
    let mut listener = test_listener(3);
    let mut log = tickets_log(100, 42);
    log.topics[0] = word_with_trailing(0x01);
    let r = listener.prepare_event(&log, 7_000);
    assert_eq!(r.err(), Some(Error::UnknownEvent));
    let metrics = &listener.connection.state.metrics;
    assert_eq!(metrics.events_received, 1);
    assert_eq!(metrics.decode_failures, vec![("decode_error".to_string(), 1)]);
    // a failed decode counts nothing as processed and moves no breaker state
    assert!(metrics.events_processed.is_empty());
    assert!(metrics.events_by_type.is_empty());
    assert_eq!(listener.connection.circuit_breaker.failures, 0);
    // the next log still goes through
    let prepared = listener.prepare_event(&tickets_log(101, 1), 8_000);
    assert!(prepared.is_ok());
}

#[test]
fn writes_are_suppressed_while_the_breaker_is_open() {
    let mut listener = test_listener(3);
    // three consecutive write failures open the breaker
    for t in [1_000, 2_000, 3_000] {
        let err = listener.on_write_failure("insert refused".to_string(), t);
        assert_eq!(err, Error::StorageError("insert refused".to_string()));
    }
    assert_eq!(
        listener.connection.circuit_breaker.state,
        CircuitState::Open(3_000)
    );
    let prepared = listener.prepare_event(&tickets_log(102, 2), 4_000).unwrap();
    assert!(!prepared.write_allowed);
    // after the reset timeout a probe may pass
    let probing = listener.prepare_event(&tickets_log(103, 3), 63_001).unwrap();
    assert!(probing.write_allowed);
    // a failure reported after the reset timeout moves the breaker to its
    // probe window, and a success there closes it again
    let _ = listener.on_write_failure("probe refused".to_string(), 63_001);
    assert_eq!(
        listener.connection.circuit_breaker.state,
        CircuitState::HalfOpen(63_001)
    );
    listener.on_write_success("TicketsBought");
    assert_eq!(listener.connection.circuit_breaker.state, CircuitState::Closed);
    assert_eq!(listener.connection.circuit_breaker.failures, 0);
}

#[test]
fn backoff_doubles_to_the_cap_and_resets() {
    let mut b = Backoff::new(1_000, 30_000);
    assert_eq!(b.next(), 1_000);
    assert_eq!(b.next(), 2_000);
    assert_eq!(b.next(), 4_000);
    assert_eq!(b.next(), 8_000);
    assert_eq!(b.next(), 16_000);
    assert_eq!(b.next(), 30_000);
    assert_eq!(b.next(), 30_000);
    b.reset();
    assert_eq!(b.next(), 1_000);
}

#[test]
fn subscription_lifecycle_delays() {
    let mut listener = test_listener(3);
    assert_eq!(listener.on_subscribe_failure(), 1_000);
    assert_eq!(listener.on_subscribe_failure(), 2_000);
    listener.on_subscribe_success();
    assert_eq!(listener.backoff.current_ms, 1_000);
    assert_eq!(listener.on_epoch_end(), 5_000);
}
