use evm_indexer::metrics::MetricsCollector;

#[test]
fn fresh_collector_is_all_zero() {
    let m = MetricsCollector::new("testchain", "ws://endpoint");
    assert_eq!(m.chain_name, "testchain");
    assert_eq!(m.endpoint_url, "ws://endpoint");
    assert_eq!(m.endpoint_failures, 0);
    assert_eq!(m.events_received, 0);
    assert_eq!(m.circuit_breaker_trips, 0);
    assert_eq!(m.last_block_height, 0);
    assert!(!m.connected);
    assert!(m.events_processed.is_empty());
    assert!(m.events_by_type.is_empty());
    assert!(m.decode_failures.is_empty());
}

#[test]
fn plain_counters_count() {
    let mut m = MetricsCollector::new("testchain", "ws://endpoint");
    m.record_failure();
    m.record_failure();
    m.record_event_received();
    m.record_circuit_breaker_trip();
    m.set_connection_status(true);
    m.update_block_height(777);
    assert_eq!(m.endpoint_failures, 2);
    assert_eq!(m.events_received, 1);
    assert_eq!(m.circuit_breaker_trips, 1);
    assert!(m.connected);
    assert_eq!(m.last_block_height, 777);
}

#[test]
fn latency_samples_accumulate() {
    let mut m = MetricsCollector::new("testchain", "ws://endpoint");
    m.record_latency(120);
    m.record_latency(30);
    assert_eq!(m.latency_samples, 2);
    assert_eq!(m.latency_total_ms, 150);
}

#[test]
fn labelled_counters_keep_labels_apart() {
    let mut m = MetricsCollector::new("testchain", "ws://endpoint");
    m.record_event_processed("TicketsBought");
    m.record_event_processed("TicketsBought");
    m.record_event_processed("DevTaxSent");
    m.record_event_by_type("TicketsBought");
    m.record_event_decode_failure("decode_error");
    assert_eq!(
        m.events_processed,
        vec![("TicketsBought".to_string(), 2), ("DevTaxSent".to_string(), 1)]
    );
    assert_eq!(m.events_by_type, vec![("TicketsBought".to_string(), 1)]);
    assert_eq!(m.decode_failures, vec![("decode_error".to_string(), 1)]);
}
