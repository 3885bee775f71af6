use evm_indexer::circuit_breaker::{CircuitBreaker, CircuitState, InternalCircuitBreakerConfig};
use evm_indexer::metrics::MetricsCollector;

fn test_config(threshold: u32, reset_ms: u64, half_open_ms: u64) -> InternalCircuitBreakerConfig {
    InternalCircuitBreakerConfig {
        failure_threshold: threshold,
        reset_timeout: reset_ms,
        half_open_timeout: half_open_ms,
    }
}

fn fresh(threshold: u32, reset_ms: u64, half_open_ms: u64) -> CircuitBreaker {
    CircuitBreaker::new(
        test_config(threshold, reset_ms, half_open_ms),
        MetricsCollector::new("testchain", "ws://endpoint"),
    )
}

#[test]
fn opens_after_exactly_threshold_failures() {
    let mut cb = fresh(3, 10_000, 2_000);
    assert!(!cb.record_failure_at(100));
    assert_eq!(cb.state, CircuitState::Closed);
    assert!(!cb.record_failure_at(200));
    assert_eq!(cb.state, CircuitState::Closed);
    assert!(cb.record_failure_at(300));
    assert_eq!(cb.state, CircuitState::Open(300));
    assert_eq!(cb.failures, 3);
    // closed to traffic until the reset timeout elapses
    assert!(!cb.can_execute_at(300));
    assert!(!cb.can_execute_at(10_299));
    assert!(cb.can_execute_at(10_300));
}

#[test]
fn below_threshold_stays_closed_and_executes() {
    let mut cb = fresh(5, 10_000, 2_000);
    for t in [10, 20, 30, 40] {
        assert!(!cb.record_failure_at(t));
        assert_eq!(cb.state, CircuitState::Closed);
        assert!(cb.can_execute_at(t));
    }
    assert_eq!(cb.failures, 4);
}

#[test]
fn success_in_half_open_closes_and_clears_failures() {
    let mut cb = fresh(3, 10_000, 2_000);
    cb.state = CircuitState::HalfOpen(500);
    cb.failures = 2;
    cb.record_success();
    assert_eq!(cb.state, CircuitState::Closed);
    assert_eq!(cb.failures, 0);
}

#[test]
fn success_while_closed_clears_failures() {
    let mut cb = fresh(3, 10_000, 2_000);
    assert!(!cb.record_failure_at(100));
    assert_eq!(cb.failures, 1);
    cb.record_success();
    assert_eq!(cb.state, CircuitState::Closed);
    assert_eq!(cb.failures, 0);
}

#[test]
fn failure_in_half_open_reopens() {
    let mut cb = fresh(3, 10_000, 2_000);
    cb.state = CircuitState::HalfOpen(500);
    assert!(cb.record_failure_at(700));
    assert_eq!(cb.state, CircuitState::Open(700));
}

#[test]
fn failure_after_reset_timeout_probes_half_open() {
    let mut cb = fresh(1, 10_000, 2_000);
    assert!(cb.record_failure_at(1_000));
    assert_eq!(cb.state, CircuitState::Open(1_000));
    // before the reset timeout: still tripped, still Open
    assert!(cb.record_failure_at(5_000));
    assert_eq!(cb.state, CircuitState::Open(1_000));
    // at the reset timeout: the next failure report moves to HalfOpen
    assert!(!cb.record_failure_at(11_000));
    assert_eq!(cb.state, CircuitState::HalfOpen(11_000));
    assert_eq!(cb.failures, 0);
}

#[test]
fn half_open_gates_until_half_open_timeout() {
    let mut cb = fresh(3, 10_000, 2_000);
    cb.state = CircuitState::HalfOpen(4_000);
    assert!(!cb.can_execute_at(4_000));
    assert!(!cb.can_execute_at(5_999));
    assert!(cb.can_execute_at(6_000));
}

#[test]
fn trips_are_counted() {
    let mut cb = fresh(2, 10_000, 2_000);
    assert_eq!(cb.metrics.circuit_breaker_trips, 0);
    cb.record_failure_at(10);
    cb.record_failure_at(20);
    assert_eq!(cb.state, CircuitState::Open(20));
    assert_eq!(cb.metrics.circuit_breaker_trips, 1);
}

#[test]
fn config_seconds_become_milliseconds() {
    let cb = CircuitBreaker::new_from_config(
        evm_indexer::config::CircuitBreakerConfig {
            failure_threshold: 3,
            reset_timeout: 5,
            half_open_timeout: 1,
        },
        MetricsCollector::new("testchain", "ws://endpoint"),
    );
    assert_eq!(cb.config.reset_timeout, 5_000);
    assert_eq!(cb.config.half_open_timeout, 1_000);
}
