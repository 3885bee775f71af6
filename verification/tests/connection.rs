use evm_indexer::circuit_breaker::CircuitState;
use evm_indexer::config::{
    ChainConfig, CircuitBreakerConfig, HealthCheckConfig, RpcEndpoint, RpcType,
};
use evm_indexer::connection::{ChainConnection, ConnectSchedule};
use evm_indexer::metrics::MetricsCollector;

fn endpoint(url: &str, kind: RpcType, priority: u8) -> RpcEndpoint {
    RpcEndpoint {
        url: url.to_string(),
        rpc_type: kind,
        priority,
        health_check: HealthCheckConfig {
            interval_secs: 30,
            timeout_secs: 5,
            min_peers: 1,
            max_blocks_behind: 10,
        },
        circuit_breaker: CircuitBreakerConfig {
            failure_threshold: 3,
            reset_timeout: 60,
            half_open_timeout: 10,
        },
    }
}

fn chain_config(n_endpoints: usize) -> ChainConfig {
    let mut rpcs = Vec::new();
    for i in 0..n_endpoints {
        let kind = if i % 2 == 0 { RpcType::WebSocket } else { RpcType::Http };
        rpcs.push(endpoint(&format!("ws://endpoint{}", i), kind, i as u8));
    }
    ChainConfig {
        name: "testchain".to_string(),
        contract_address: "0x00000000000000000000000000000000000000ab".to_string(),
        rpcs,
        starting_block: Some(1_000),
    }
}

#[test]
fn single_endpoint_still_gets_three_attempts() {
    let mut s = ConnectSchedule::new(1);
    assert_eq!(s.next_attempt(), Some((0, 0)));
    assert_eq!(s.next_attempt(), Some((0, 5_000)));
    assert_eq!(s.next_attempt(), Some((0, 5_000)));
    assert_eq!(s.next_attempt(), None);
}

#[test]
fn endpoints_are_walked_in_declared_order() {
    let mut s = ConnectSchedule::new(2);
    let mut seen = Vec::new();
    while let Some((idx, delay)) = s.next_attempt() {
        seen.push((idx, delay));
    }
    assert_eq!(
        seen,
        vec![(0, 0), (0, 5_000), (0, 5_000), (1, 0), (1, 5_000), (1, 5_000)]
    );
}

#[test]
fn fresh_connection_is_not_dialed() {
    let conn = ChainConnection::new(chain_config(2), MetricsCollector::new("testchain", "ws://endpoint0"));
    assert!(!conn.connected);
    assert_eq!(conn.current_endpoint, None);
    assert_eq!(conn.polling_interval_ms, 2_000);
    assert_eq!(conn.circuit_breaker.state, CircuitState::Closed);
    // breaker settings come from the first endpoint, seconds turned to ms
    assert_eq!(conn.circuit_breaker.config.reset_timeout, 60_000);
    assert_eq!(conn.circuit_breaker.config.failure_threshold, 3);
}

#[test]
fn connect_success_marks_the_endpoint_and_gauge() {
    let mut conn = ChainConnection::new(chain_config(3), MetricsCollector::new("testchain", "ws://endpoint0"));
    conn.on_connected(1);
    assert!(conn.connected);
    assert_eq!(conn.current_endpoint, Some(1));
    assert!(conn.state.metrics.connected);
    assert_eq!(conn.current_rpc_type(), Some(RpcType::Http));
    conn.on_connection_lost();
    assert!(!conn.connected);
    assert_eq!(conn.current_endpoint, None);
    assert!(!conn.state.metrics.connected);
}

#[test]
fn reconnect_exactly_when_probe_fails_or_nothing_stands() {
    let mut conn = ChainConnection::new(chain_config(1), MetricsCollector::new("testchain", "ws://endpoint0"));
    assert!(conn.needs_reconnect(true));
    conn.on_connected(0);
    assert!(!conn.needs_reconnect(true));
    assert!(conn.needs_reconnect(false));
}

#[test]
fn block_updates_move_the_gauge() {
    let mut conn = ChainConnection::new(chain_config(1), MetricsCollector::new("testchain", "ws://endpoint0"));
    conn.state.update_block(12_345);
    assert_eq!(conn.state.last_processed_block, 12_345);
    assert_eq!(conn.state.metrics.last_block_height, 12_345);
}

#[test]
fn subscribe_schedule_holds_three_attempts() {
    let conn = ChainConnection::new(chain_config(2), MetricsCollector::new("testchain", "ws://endpoint0"));
    let mut s = conn.subscribe_schedule();
    let mut count = 0;
    while s.next_attempt().is_some() {
        count += 1;
    }
    assert_eq!(count, 3);
}
