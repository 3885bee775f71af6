use vstd::prelude::*;

use crate::circuit_breaker::{spec_secs_to_millis, CircuitBreaker, CircuitState};
use crate::config::ChainConfig;
use crate::metrics::MetricsCollector;

verus! {

/// How many times one endpoint is tried before the walk moves on.
pub const CONNECT_MAX_ATTEMPTS: u8 = 3;

/// The pause between two attempts on the same endpoint, in milliseconds.
pub const CONNECT_RETRY_DELAY_MS: u64 = 5000;

/// The cadence of HTTP log polling, in milliseconds.
pub const POLLING_INTERVAL_MS: u64 = 2000;

/// Per-chain progress shared by the listener and the supervisor.
pub struct ChainState {
    pub last_processed_block: u64,
    pub metrics: MetricsCollector,
}

impl ChainState {
    /// Fresh progress: nothing processed yet.
    pub fn new(metrics: MetricsCollector) -> (r: ChainState)
        ensures
            r.last_processed_block == 0,
            r.metrics == metrics,
    {
        ChainState { last_processed_block: 0, metrics }
    }

    /// Moves the high-water mark and the block-height gauge to `block`.
    pub fn update_block(&mut self, block: u64)
        ensures
            final(self).last_processed_block == block,
            final(self).metrics == (MetricsCollector {
                last_block_height: block,
                ..old(self).metrics
            }),
    {
        self.last_processed_block = block;
        self.metrics.update_block_height(block);
    }
}

/// The walk `connect` makes over the endpoint list: each endpoint in
/// declared order, each tried up to `CONNECT_MAX_ATTEMPTS` times with a
/// `CONNECT_RETRY_DELAY_MS` pause between attempts on the same endpoint.
/// When the walk ends with no success, no healthy endpoint exists.
pub struct ConnectSchedule {
    pub endpoint_count: usize,
    pub endpoint: usize,
    pub attempt: u8,
}

impl ConnectSchedule {
    /// The schedule keeps its cursor inside the walk.
    pub open spec fn wf(self) -> bool {
        self.attempt < CONNECT_MAX_ATTEMPTS && self.endpoint <= self.endpoint_count
    }

    /// How many attempts the walk still holds.
    pub open spec fn spec_remaining(self) -> int {
        CONNECT_MAX_ATTEMPTS * (self.endpoint_count - self.endpoint) - self.attempt
    }

    /// A walk over `endpoint_count` endpoints, standing at its first attempt.
    pub fn new(endpoint_count: usize) -> (r: ConnectSchedule)
        ensures
            r.wf(),
            r.endpoint_count == endpoint_count,
            r.endpoint == 0,
            r.attempt == 0,
            r.spec_remaining() == CONNECT_MAX_ATTEMPTS * endpoint_count,
    {
        ConnectSchedule { endpoint_count, endpoint: 0, attempt: 0 }
    }

    /// The next attempt to make: which endpoint to dial and how long to
    /// pause first — no pause on an endpoint's first attempt, the retry
    /// delay otherwise. `None` once every endpoint has had its three
    /// attempts.
    pub fn next_attempt(&mut self) -> (r: Option<(usize, u64)>)
        requires
            old(self).wf(),
        ensures
            final(self).wf(),
            final(self).endpoint_count == old(self).endpoint_count,
            old(self).spec_remaining() == 0 ==> r is None && *final(self) == *old(self),
            old(self).spec_remaining() > 0 ==> {
                &&& r == Some(
                    (
                        old(self).endpoint,
                        if old(self).attempt == 0 {
                            0u64
                        } else {
                            CONNECT_RETRY_DELAY_MS
                        },
                    ),
                )
                &&& old(self).endpoint < old(self).endpoint_count
                &&& final(self).spec_remaining() == old(self).spec_remaining() - 1
                &&& final(self).endpoint >= old(self).endpoint
            },
    {
        if self.endpoint >= self.endpoint_count {
            return None;
        }
        let delay = if self.attempt == 0 {
            0u64
        } else {
            CONNECT_RETRY_DELAY_MS
        };
        let chosen = self.endpoint;
        if self.attempt + 1 == CONNECT_MAX_ATTEMPTS {
            self.attempt = 0;
            self.endpoint = self.endpoint + 1;
        } else {
            self.attempt = self.attempt + 1;
        }
        Some((chosen, delay))
    }
}

/// A list of one endpoint offers no failover, yet the walk still holds all
/// three attempts on it.
pub proof fn lemma_single_endpoint_keeps_retries(s: ConnectSchedule)
    requires
        s.endpoint_count == 1,
        s.endpoint == 0,
        s.attempt == 0,
    ensures
        s.spec_remaining() == CONNECT_MAX_ATTEMPTS,
{
}

/// One chain's connection: who it talks to and through which endpoint. The
/// live transport handle stays with the caller; this state records which
/// endpoint it was dialed to, and owns the chain's progress and breaker.
pub struct ChainConnection {
    pub config: ChainConfig,
    pub connected: bool,
    pub current_endpoint: Option<usize>,
    pub state: ChainState,
    pub circuit_breaker: CircuitBreaker,
    pub polling_interval_ms: u64,
}

impl ChainConnection {
    /// A connection for `config`, not yet dialed. The breaker takes the
    /// first endpoint's settings, as the chain's single write breaker.
    pub fn new(config: ChainConfig, metrics: MetricsCollector) -> (r: ChainConnection)
        requires
            config.rpcs@.len() >= 1,
        ensures
            r.config == config,
            !r.connected,
            r.current_endpoint is None,
            r.state.last_processed_block == 0,
            r.state.metrics == metrics,
            r.circuit_breaker.state == CircuitState::Closed,
            r.circuit_breaker.failures == 0,
            r.circuit_breaker.config.failure_threshold
                == config.rpcs@[0].circuit_breaker.failure_threshold,
            r.circuit_breaker.config.reset_timeout == spec_secs_to_millis(
                config.rpcs@[0].circuit_breaker.reset_timeout,
            ),
            r.circuit_breaker.config.half_open_timeout == spec_secs_to_millis(
                config.rpcs@[0].circuit_breaker.half_open_timeout,
            ),
            r.polling_interval_ms == POLLING_INTERVAL_MS,
    {
        let breaker_metrics = MetricsCollector::new(config.name.as_str(), config.rpcs[0].url.as_str());
        let circuit_breaker = CircuitBreaker::new_from_config(
            crate::config::CircuitBreakerConfig {
                failure_threshold: config.rpcs[0].circuit_breaker.failure_threshold,
                reset_timeout: config.rpcs[0].circuit_breaker.reset_timeout,
                half_open_timeout: config.rpcs[0].circuit_breaker.half_open_timeout,
            },
            breaker_metrics,
        );
        let state = ChainState::new(metrics);
        ChainConnection {
            config,
            connected: false,
            current_endpoint: None,
            state,
            circuit_breaker,
            polling_interval_ms: POLLING_INTERVAL_MS,
        }
    }

    /// The walk `connect` makes over this chain's endpoints.
    pub fn connect_schedule(&self) -> (r: ConnectSchedule)
        ensures
            r.wf(),
            r.endpoint_count == self.config.rpcs@.len(),
            r.endpoint == 0,
            r.attempt == 0,
    {
        ConnectSchedule::new(self.config.rpcs.len())
    }

    /// Records that a dial of endpoint `endpoint_index` succeeded: the
    /// connection now stands on that endpoint and the gauge shows it.
    pub fn on_connected(&mut self, endpoint_index: usize)
        requires
            endpoint_index < old(self).config.rpcs@.len(),
        ensures
            final(self).connected,
            final(self).current_endpoint == Some(endpoint_index),
            final(self).config == old(self).config,
            final(self).circuit_breaker == old(self).circuit_breaker,
            final(self).polling_interval_ms == old(self).polling_interval_ms,
            final(self).state.last_processed_block == old(self).state.last_processed_block,
            final(self).state.metrics == (MetricsCollector {
                connected: true,
                ..old(self).state.metrics
            }),
    {
        self.connected = true;
        self.current_endpoint = Some(endpoint_index);
        self.state.metrics.set_connection_status(true);
    }

    /// Records that the transport is gone: a probe failed or the stream
    /// ended, and the next use must reconnect.
    pub fn on_connection_lost(&mut self)
        ensures
            !final(self).connected,
            final(self).current_endpoint is None,
            final(self).config == old(self).config,
            final(self).circuit_breaker == old(self).circuit_breaker,
            final(self).polling_interval_ms == old(self).polling_interval_ms,
            final(self).state.last_processed_block == old(self).state.last_processed_block,
            final(self).state.metrics == (MetricsCollector {
                connected: false,
                ..old(self).state.metrics
            }),
    {
        self.connected = false;
        self.current_endpoint = None;
        self.state.metrics.set_connection_status(false);
    }

    /// The decision `ensure_connection` makes once the cheap probe has
    /// answered: reconnect exactly when no transport stands or the probe
    /// failed.
    pub fn needs_reconnect(&self, probe_ok: bool) -> (r: bool)
        ensures
            r == (!self.connected || !probe_ok),
    {
        !self.connected || !probe_ok
    }

    /// The transport kind of the endpoint the connection stands on.
    pub fn current_rpc_type(&self) -> (r: Option<crate::config::RpcType>)
        ensures
            match self.current_endpoint {
                Some(i) => i < self.config.rpcs@.len() ==> r == Some(
                    self.config.rpcs@[i as int].rpc_type,
                ),
                None => r is None,
            },
    {
        match self.current_endpoint {
            Some(i) => {
                if i < self.config.rpcs.len() {
                    Some(self.config.rpcs[i].rpc_type)
                } else {
                    None
                }
            },
            None => None,
        }
    }

    /// The walk `subscribe_to_events` makes: three attempts on the standing
    /// connection with the retry pause between them.
    pub fn subscribe_schedule(&self) -> (r: ConnectSchedule)
        ensures
            r.wf(),
            r.endpoint_count == 1,
            r.endpoint == 0,
            r.attempt == 0,
            r.spec_remaining() == CONNECT_MAX_ATTEMPTS,
    {
        ConnectSchedule::new(1)
    }
}

} // verus!
