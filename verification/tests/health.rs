use evm_indexer::config::{CircuitBreakerConfig, HealthCheckConfig, RpcEndpoint, RpcType};
use evm_indexer::health::HealthCheck;
use evm_indexer::metrics::MetricsCollector;

fn endpoint(url: &str, kind: RpcType, priority: u8) -> RpcEndpoint {
    RpcEndpoint {
        url: url.to_string(),
        rpc_type: kind,
        priority,
        health_check: HealthCheckConfig {
            interval_secs: 30,
            timeout_secs: 5,
            min_peers: 1,
            max_blocks_behind: 10,
        },
        circuit_breaker: CircuitBreakerConfig {
            failure_threshold: 3,
            reset_timeout: 60,
            half_open_timeout: 10,
        },
    }
}

fn three_endpoints() -> Vec<RpcEndpoint> {
    vec![
        endpoint("ws://a", RpcType::WebSocket, 1),
        endpoint("http://b", RpcType::Http, 0),
        endpoint("ws://c", RpcType::WebSocket, 0),
    ]
}

#[test]
fn lowest_priority_healthy_endpoint_wins() {
    let endpoints = three_endpoints();
    let mut hc = HealthCheck::new(MetricsCollector::new("testchain", "ws://a"));
    hc.record_success(0, 1_000, 50, 100, 8);
    hc.record_success(1, 1_000, 50, 100, 8);
    hc.record_success(2, 1_000, 50, 100, 8);
    // priorities 1, 0, 0 with equal latency: the first of priority 0 wins
    assert_eq!(hc.get_best_endpoint(&endpoints), Some(1));
}

#[test]
fn ties_broken_by_lowest_latency() {
    let endpoints = three_endpoints();
    let mut hc = HealthCheck::new(MetricsCollector::new("testchain", "ws://a"));
    hc.record_success(1, 1_000, 80, 100, 8);
    hc.record_success(2, 1_000, 20, 100, 8);
    assert_eq!(hc.get_best_endpoint(&endpoints), Some(2));
}

#[test]
fn unknown_endpoints_start_healthy_with_pessimistic_latency() {
    let endpoints = three_endpoints();
    let mut hc = HealthCheck::new(MetricsCollector::new("testchain", "ws://a"));
    // nothing probed yet: everyone is a candidate; first of lowest priority wins
    assert_eq!(hc.get_best_endpoint(&endpoints), Some(1));
    // a probed endpoint of equal priority with any real latency beats the
    // unprobed default of one minute
    hc.record_success(2, 1_000, 59_999, 100, 8);
    assert_eq!(hc.get_best_endpoint(&endpoints), Some(2));
}

#[test]
fn unhealthy_endpoints_are_skipped_and_recover() {
    let endpoints = three_endpoints();
    let mut hc = HealthCheck::new(MetricsCollector::new("testchain", "ws://a"));
    hc.record_success(0, 1_000, 50, 100, 8);
    hc.record_success(1, 1_000, 50, 100, 8);
    hc.record_success(2, 1_000, 50, 100, 8);
    hc.record_failure(1);
    hc.record_failure(2);
    assert_eq!(hc.get_best_endpoint(&endpoints), Some(0));
    // recovery: a later successful probe makes it eligible again
    hc.record_success(1, 2_000, 40, 120, 9);
    assert_eq!(hc.get_best_endpoint(&endpoints), Some(1));
}

#[test]
fn all_unhealthy_yields_none() {
    let endpoints = three_endpoints();
    let mut hc = HealthCheck::new(MetricsCollector::new("testchain", "ws://a"));
    for i in 0..3 {
        hc.record_success(i, 1_000, 50, 100, 8);
        hc.record_failure(i);
    }
    assert_eq!(hc.get_best_endpoint(&endpoints), None);
}

#[test]
fn empty_endpoint_list_yields_none() {
    let hc = HealthCheck::new(MetricsCollector::new("testchain", "ws://a"));
    assert_eq!(hc.get_best_endpoint(&Vec::new()), None);
}

#[test]
fn probes_feed_the_metrics() {
    let mut hc = HealthCheck::new(MetricsCollector::new("testchain", "ws://a"));
    hc.record_success(0, 1_000, 75, 100, 8);
    hc.record_failure(1);
    assert_eq!(hc.metrics.latency_samples, 1);
    assert_eq!(hc.metrics.latency_total_ms, 75);
    assert_eq!(hc.metrics.endpoint_failures, 1);
}
