use vstd::prelude::*;

use crate::abi::{schemas_deep_view, spec_decode_log, RawLog};
use crate::circuit_breaker::{spec_can_execute, spec_failure_step, spec_success_step, CircuitState};
use crate::connection::ChainConnection;
use crate::db::EventLog;
use crate::decoder::{fields_deep_view, spec_fields, EventDecoder};
use crate::error::Error;
use crate::historical::{spec_tx_hash_string, tx_hash_string};
use crate::metrics::{counter_of, inc64, MetricsCollector};

verus! {

/// The listener's initial retry delay after a failed subscription, in
/// milliseconds.
pub const BACKOFF_BASE_MS: u64 = 1000;

/// The cap on the retry delay, in milliseconds.
pub const BACKOFF_CAP_MS: u64 = 30000;

/// How long the listener waits before resubscribing after a stream ends,
/// in milliseconds.
pub const RESUBSCRIBE_DELAY_MS: u64 = 5000;

/// An exponential backoff: each delay doubles the one before, up to the
/// cap; there is no bound on the total.
pub struct Backoff {
    pub current_ms: u64,
    pub base_ms: u64,
    pub cap_ms: u64,
}

/// A delay doubled, pinned at the cap.
pub open spec fn spec_next_backoff(current: u64, cap: u64) -> u64 {
    if 2 * current <= cap {
        (2 * current) as u64
    } else {
        cap
    }
}

impl Backoff {
    /// A backoff standing at its base delay.
    pub fn new(base_ms: u64, cap_ms: u64) -> (r: Backoff)
        ensures
            r.current_ms == base_ms,
            r.base_ms == base_ms,
            r.cap_ms == cap_ms,
    {
        Backoff { current_ms: base_ms, base_ms, cap_ms }
    }

    /// The next delay to wait: the current one, doubling what follows.
    pub fn next(&mut self) -> (delay: u64)
        ensures
            delay == old(self).current_ms,
            final(self).current_ms == spec_next_backoff(old(self).current_ms, old(self).cap_ms),
            final(self).base_ms == old(self).base_ms,
            final(self).cap_ms == old(self).cap_ms,
    {
        let delay = self.current_ms;
        if self.current_ms <= self.cap_ms / 2 {
            self.current_ms = 2 * self.current_ms;
            proof {
                assert(2 * old(self).current_ms <= old(self).cap_ms);
            }
        } else {
            self.current_ms = self.cap_ms;
        }
        delay
    }

    /// Back to the base delay, after a successful subscription.
    pub fn reset(&mut self)
        ensures
            final(self).current_ms == old(self).base_ms,
            final(self).base_ms == old(self).base_ms,
            final(self).cap_ms == old(self).cap_ms,
    {
        self.current_ms = self.base_ms;
    }
}

/// One decoded event ready to persist, and whether the circuit breaker lets
/// the write proceed.
pub struct PreparedEvent {
    pub event_log: EventLog,
    pub write_allowed: bool,
}

/// Consumes the unified event stream for one chain: decodes each log,
/// builds the document to store, and holds writes behind the circuit
/// breaker. The stream itself, the clock and the store act outside; every
/// decision they need stands here.
pub struct EventListener {
    pub connection: ChainConnection,
    pub decoder: EventDecoder,
    pub backoff: Backoff,
}

impl EventListener {
    /// A listener over an established connection and a loaded decoder.
    pub fn new(connection: ChainConnection, decoder: EventDecoder) -> (r: EventListener)
        ensures
            r.connection == connection,
            r.decoder == decoder,
            r.backoff.current_ms == BACKOFF_BASE_MS,
            r.backoff.base_ms == BACKOFF_BASE_MS,
            r.backoff.cap_ms == BACKOFF_CAP_MS,
    {
        EventListener {
            connection,
            decoder,
            backoff: Backoff::new(BACKOFF_BASE_MS, BACKOFF_CAP_MS),
        }
    }

    /// Handles one log from the stream at clock reading `now_ms`: counts it,
    /// moves the block gauge when the log names its block, and decodes it.
    /// A decode failure is `UnknownEvent`, counted, never fatal. On success
    /// the persisted document is built, and `write_allowed` says whether the
    /// breaker lets its write proceed at `now_ms`.
    pub fn prepare_event(&mut self, log: &RawLog, now_ms: u64) -> (r: Result<PreparedEvent, Error>)
        ensures
            final(self).decoder == old(self).decoder,
            final(self).backoff == old(self).backoff,
            final(self).connection.config == old(self).connection.config,
            final(self).connection.connected == old(self).connection.connected,
            final(self).connection.current_endpoint == old(self).connection.current_endpoint,
            final(self).connection.polling_interval_ms == old(self).connection.polling_interval_ms,
            final(self).connection.circuit_breaker == old(self).connection.circuit_breaker,
            final(self).connection.state.last_processed_block == (match log@.block_number {
                Some(b) => b,
                None => old(self).connection.state.last_processed_block,
            }),
            final(self).connection.state.metrics.last_block_height == (match log@.block_number {
                Some(b) => b,
                None => old(self).connection.state.metrics.last_block_height,
            }),
            final(self).connection.state.metrics.events_received == inc64(
                old(self).connection.state.metrics.events_received,
            ),
            final(self).connection.state.metrics.chain_name == old(
                self,
            ).connection.state.metrics.chain_name,
            final(self).connection.state.metrics.endpoint_url == old(
                self,
            ).connection.state.metrics.endpoint_url,
            final(self).connection.state.metrics.endpoint_failures == old(
                self,
            ).connection.state.metrics.endpoint_failures,
            final(self).connection.state.metrics.latency_samples == old(
                self,
            ).connection.state.metrics.latency_samples,
            final(self).connection.state.metrics.latency_total_ms == old(
                self,
            ).connection.state.metrics.latency_total_ms,
            final(self).connection.state.metrics.connected == old(
                self,
            ).connection.state.metrics.connected,
            final(self).connection.state.metrics.circuit_breaker_trips == old(
                self,
            ).connection.state.metrics.circuit_breaker_trips,
            final(self).connection.state.metrics.events_processed == old(
                self,
            ).connection.state.metrics.events_processed,
            match spec_decode_log(schemas_deep_view(old(self).decoder.schemas@), log@) {
                Some(kts) => {
                    let schema = schemas_deep_view(old(self).decoder.schemas@)[kts.0];
                    &&& r matches Ok(p)
                    &&& p.event_log.chain_name@ == old(self).connection.config.name@
                    &&& p.event_log.event_name@ == schema.name
                    &&& p.event_log.block_number == (match log@.block_number {
                        Some(b) => b,
                        None => 0u64,
                    })
                    &&& p.event_log.transaction_hash@ == spec_tx_hash_string(log@)
                    &&& fields_deep_view(p.event_log.params@) == spec_fields(schema.params, kts.1)
                    &&& p.event_log.timestamp == now_ms
                    &&& p.write_allowed == spec_can_execute(
                        old(self).connection.circuit_breaker.state,
                        old(self).connection.circuit_breaker.config,
                        now_ms,
                    )
                    &&& counter_of(
                        final(self).connection.state.metrics.events_by_type@,
                        schema.name,
                    ) == inc64(
                        counter_of(
                            old(self).connection.state.metrics.events_by_type@,
                            schema.name,
                        ),
                    )
                    &&& forall|k: Seq<char>|
                        k != schema.name ==> counter_of(
                            final(self).connection.state.metrics.events_by_type@,
                            k,
                        ) == counter_of(old(self).connection.state.metrics.events_by_type@, k)
                    &&& final(self).connection.state.metrics.decode_failures == old(
                        self,
                    ).connection.state.metrics.decode_failures
                },
                None => {
                    &&& r == Err::<PreparedEvent, Error>(Error::UnknownEvent)
                    &&& counter_of(
                        final(self).connection.state.metrics.decode_failures@,
                        "decode_error"@,
                    ) == inc64(
                        counter_of(
                            old(self).connection.state.metrics.decode_failures@,
                            "decode_error"@,
                        ),
                    )
                    &&& forall|k: Seq<char>|
                        k != "decode_error"@ ==> counter_of(
                            final(self).connection.state.metrics.decode_failures@,
                            k,
                        ) == counter_of(old(self).connection.state.metrics.decode_failures@, k)
                    &&& final(self).connection.state.metrics.events_by_type == old(
                        self,
                    ).connection.state.metrics.events_by_type
                },
            },
    {
        self.connection.state.metrics.record_event_received();
        if let Some(block) = log.block_number {
            self.connection.state.update_block(block);
        }
        let decoded = self.decoder.decode_log(log);
        match decoded {
            Err(_) => {
                self.connection.state.metrics.record_event_decode_failure("decode_error");
                Err(Error::UnknownEvent)
            },
            Ok((event_name, params)) => {
                self.connection.state.metrics.record_event_by_type(event_name.as_str());
                let block = match log.block_number {
                    Some(b) => b,
                    None => 0,
                };
                let tx = tx_hash_string(log);
                let event_log = EventLog {
                    chain_name: self.connection.config.name.clone(),
                    event_name,
                    block_number: block,
                    transaction_hash: tx,
                    params,
                    timestamp: now_ms,
                };
                let write_allowed = self.connection.circuit_breaker.can_execute_at(now_ms);
                Ok(PreparedEvent { event_log, write_allowed })
            },
        }
    }

    /// Reports a stored document: the breaker hears a success and the event
    /// counts as processed under its type.
    pub fn on_write_success(&mut self, event_name: &str)
        ensures
            final(self).decoder == old(self).decoder,
            final(self).backoff == old(self).backoff,
            final(self).connection.config == old(self).connection.config,
            final(self).connection.connected == old(self).connection.connected,
            final(self).connection.current_endpoint == old(self).connection.current_endpoint,
            final(self).connection.polling_interval_ms == old(self).connection.polling_interval_ms,
            final(self).connection.state.last_processed_block == old(
                self,
            ).connection.state.last_processed_block,
            (
                final(self).connection.circuit_breaker.state,
                final(self).connection.circuit_breaker.failures,
            ) == spec_success_step(
                old(self).connection.circuit_breaker.state,
                old(self).connection.circuit_breaker.failures,
            ),
            final(self).connection.circuit_breaker.config == old(
                self,
            ).connection.circuit_breaker.config,
            final(self).connection.circuit_breaker.metrics == old(
                self,
            ).connection.circuit_breaker.metrics,
            counter_of(final(self).connection.state.metrics.events_processed@, event_name@)
                == inc64(
                counter_of(old(self).connection.state.metrics.events_processed@, event_name@),
            ),
            forall|k: Seq<char>|
                k != event_name@ ==> counter_of(
                    final(self).connection.state.metrics.events_processed@,
                    k,
                ) == counter_of(old(self).connection.state.metrics.events_processed@, k),
            final(self).connection.state.metrics == (MetricsCollector {
                events_processed: final(self).connection.state.metrics.events_processed,
                ..old(self).connection.state.metrics
            }),
    {
        self.connection.circuit_breaker.record_success();
        self.connection.state.metrics.record_event_processed(event_name);
    }

    /// Reports a failed write at clock reading `now_ms`. The breaker hears
    /// the failure — sustained storage failure is what trips the breaker — and
    /// the listener surfaces a storage error while the loop goes on.
    pub fn on_write_failure(&mut self, message: String, now_ms: u64) -> (r: Error)
        ensures
            r == Error::StorageError(message),
            final(self).decoder == old(self).decoder,
            final(self).backoff == old(self).backoff,
            final(self).connection.config == old(self).connection.config,
            final(self).connection.connected == old(self).connection.connected,
            final(self).connection.current_endpoint == old(self).connection.current_endpoint,
            final(self).connection.polling_interval_ms == old(self).connection.polling_interval_ms,
            final(self).connection.state == old(self).connection.state,
            final(self).connection.circuit_breaker.config == old(
                self,
            ).connection.circuit_breaker.config,
            ({
                let stepped = spec_failure_step(
                    old(self).connection.circuit_breaker.state,
                    old(self).connection.circuit_breaker.failures,
                    old(self).connection.circuit_breaker.config,
                    now_ms,
                );
                &&& (
                    final(self).connection.circuit_breaker.state,
                    final(self).connection.circuit_breaker.failures,
                ) == (stepped.0, stepped.1)
                &&& if stepped.2 && !(old(self).connection.circuit_breaker.state
                    matches CircuitState::Open(_)) {
                    final(self).connection.circuit_breaker.metrics == (MetricsCollector {
                        circuit_breaker_trips: inc64(
                            old(self).connection.circuit_breaker.metrics.circuit_breaker_trips,
                        ),
                        ..old(self).connection.circuit_breaker.metrics
                    })
                } else {
                    final(self).connection.circuit_breaker.metrics == old(
                        self,
                    ).connection.circuit_breaker.metrics
                }
            }),
    {
        let _tripped = self.connection.circuit_breaker.record_failure_at(now_ms);
        Error::StorageError(message)
    }

    /// A subscription came up: the retry delay falls back to its base.
    pub fn on_subscribe_success(&mut self)
        ensures
            final(self).connection == old(self).connection,
            final(self).decoder == old(self).decoder,
            final(self).backoff.current_ms == old(self).backoff.base_ms,
            final(self).backoff.base_ms == old(self).backoff.base_ms,
            final(self).backoff.cap_ms == old(self).backoff.cap_ms,
    {
        self.backoff.reset();
    }

    /// A subscription attempt failed: how long to wait before retrying,
    /// doubling for the next time up to the cap.
    pub fn on_subscribe_failure(&mut self) -> (delay: u64)
        ensures
            final(self).connection == old(self).connection,
            final(self).decoder == old(self).decoder,
            delay == old(self).backoff.current_ms,
            final(self).backoff.current_ms == spec_next_backoff(
                old(self).backoff.current_ms,
                old(self).backoff.cap_ms,
            ),
            final(self).backoff.base_ms == old(self).backoff.base_ms,
            final(self).backoff.cap_ms == old(self).backoff.cap_ms,
    {
        self.backoff.next()
    }

    /// An epoch ended with its stream: how long to wait before
    /// resubscribing.
    pub fn on_epoch_end(&self) -> (delay: u64)
        ensures
            delay == RESUBSCRIBE_DELAY_MS,
    {
        RESUBSCRIBE_DELAY_MS
    }
}

} // verus!
