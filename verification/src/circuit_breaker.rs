use vstd::prelude::*;

use crate::clock::now_millis;
use crate::metrics::{inc64, MetricsCollector};

verus! {

/// Circuit breaker settings with both timeouts in milliseconds.
#[derive(Clone, Copy, Debug)]
pub struct CircuitBreakerConfig {
    pub failure_threshold: u32,
    pub reset_timeout: u64,
    pub half_open_timeout: u64,
}

/// The settings the breaker runs on, in milliseconds.
#[derive(Clone, Copy, Debug)]
pub struct InternalCircuitBreakerConfig {
    pub failure_threshold: u32,
    pub reset_timeout: u64,
    pub half_open_timeout: u64,
}

/// How often an endpoint is probed and what counts as healthy.
#[derive(Clone, Copy, Debug)]
pub struct HealthCheckConfig {
    pub interval_secs: u64,
    pub timeout_secs: u64,
    pub min_peers: u32,
    pub max_blocks_behind: u64,
}

/// Seconds turned into milliseconds, pinned at the top of the range.
pub open spec fn spec_secs_to_millis(secs: u64) -> u64 {
    if secs > u64::MAX as int / 1000 {
        u64::MAX
    } else {
        (secs * 1000) as u64
    }
}

fn secs_to_millis(secs: u64) -> (r: u64)
    ensures
        r == spec_secs_to_millis(secs),
{
    if secs > u64::MAX / 1000 {
        u64::MAX
    } else {
        secs * 1000
    }
}

impl From<crate::config::CircuitBreakerConfig> for InternalCircuitBreakerConfig {
    /// The configuration file gives the timeouts in whole seconds; the
    /// breaker keeps them in milliseconds.
    fn from(config: crate::config::CircuitBreakerConfig) -> (r: InternalCircuitBreakerConfig) {
        InternalCircuitBreakerConfig {
            failure_threshold: config.failure_threshold,
            reset_timeout: secs_to_millis(config.reset_timeout),
            half_open_timeout: secs_to_millis(config.half_open_timeout),
        }
    }
}

impl vstd::std_specs::convert::FromSpecImpl<crate::config::CircuitBreakerConfig> for InternalCircuitBreakerConfig {
    open spec fn obeys_from_spec() -> bool {
        true
    }

    open spec fn from_spec(config: crate::config::CircuitBreakerConfig) -> InternalCircuitBreakerConfig {
        InternalCircuitBreakerConfig {
            failure_threshold: config.failure_threshold,
            reset_timeout: spec_secs_to_millis(config.reset_timeout),
            half_open_timeout: spec_secs_to_millis(config.half_open_timeout),
        }
    }
}

/// Where the breaker stands: traffic flows in `Closed`; `Open` holds the
/// monotonic millisecond timestamp of the trip; `HalfOpen` holds the
/// timestamp of the probe window's start.
#[derive(Clone, Copy, Debug, PartialEq, Eq, Structural)]
pub enum CircuitState {
    Closed,
    Open(u64),
    HalfOpen(u64),
}

/// A failure count bumped by one, pinned at the top of its range.
pub open spec fn inc32(f: u32) -> u32 {
    if f == u32::MAX {
        f
    } else {
        (f + 1) as u32
    }
}

/// What one reported success does to the breaker: any success while Closed or
/// HalfOpen closes the breaker and clears the failure count; an Open breaker is
/// untouched.
pub open spec fn spec_success_step(s: CircuitState, f: u32) -> (CircuitState, u32) {
    match s {
        CircuitState::Closed => (CircuitState::Closed, 0u32),
        CircuitState::HalfOpen(_) => (CircuitState::Closed, 0u32),
        CircuitState::Open(t0) => (CircuitState::Open(t0), f),
    }
}

/// What one reported failure at time `now` does to the breaker; the third
/// component says whether the caller must treat the dependency as tripped.
pub open spec fn spec_failure_step(
    s: CircuitState,
    f: u32,
    cfg: InternalCircuitBreakerConfig,
    now: u64,
) -> (CircuitState, u32, bool) {
    match s {
        CircuitState::Closed => {
            let nf = inc32(f);
            if nf >= cfg.failure_threshold {
                (CircuitState::Open(now), nf, true)
            } else {
                (CircuitState::Closed, nf, false)
            }
        },
        CircuitState::HalfOpen(_) => (CircuitState::Open(now), f, true),
        CircuitState::Open(t0) => {
            if t0 + cfg.reset_timeout <= now {
                (CircuitState::HalfOpen(now), 0u32, false)
            } else {
                (CircuitState::Open(t0), f, true)
            }
        },
    }
}

/// Whether traffic may pass at time `now`: always in Closed; in Open only
/// once the reset timeout has elapsed; in HalfOpen only once the half-open
/// timeout has elapsed.
pub open spec fn spec_can_execute(
    s: CircuitState,
    cfg: InternalCircuitBreakerConfig,
    now: u64,
) -> bool {
    match s {
        CircuitState::Closed => true,
        CircuitState::Open(t0) => t0 + cfg.reset_timeout <= now,
        CircuitState::HalfOpen(th) => th + cfg.half_open_timeout <= now,
    }
}

/// The three-state breaker in front of a dependency that keeps failing.
pub struct CircuitBreaker {
    pub state: CircuitState,
    pub failures: u32,
    pub config: InternalCircuitBreakerConfig,
    pub metrics: MetricsCollector,
}

impl CircuitBreaker {
    /// A fresh breaker: Closed, with no failures recorded.
    pub fn new(config: InternalCircuitBreakerConfig, metrics: MetricsCollector) -> (r:
        CircuitBreaker)
        ensures
            r.state == CircuitState::Closed,
            r.failures == 0,
            r.config == config,
            r.metrics == metrics,
    {
        CircuitBreaker { state: CircuitState::Closed, failures: 0, config, metrics }
    }

    /// A fresh breaker from the configuration file's settings.
    pub fn new_from_config(config: crate::config::CircuitBreakerConfig, metrics: MetricsCollector)
        -> (r: CircuitBreaker)
        ensures
            r.state == CircuitState::Closed,
            r.failures == 0,
            r.config.failure_threshold == config.failure_threshold,
            r.config.reset_timeout == spec_secs_to_millis(config.reset_timeout),
            r.config.half_open_timeout == spec_secs_to_millis(config.half_open_timeout),
            r.metrics == metrics,
    {
        let internal = InternalCircuitBreakerConfig::from(config);
        CircuitBreaker::new(internal, metrics)
    }

    /// Reports one success. Needs no clock: any success while Closed or
    /// HalfOpen closes the breaker and clears the count.
    pub fn record_success(&mut self)
        ensures
            (final(self).state, final(self).failures) == spec_success_step(
                old(self).state,
                old(self).failures,
            ),
            final(self).config == old(self).config,
            final(self).metrics == old(self).metrics,
    {
        match self.state {
            CircuitState::HalfOpen(_) => {
                self.state = CircuitState::Closed;
                self.failures = 0;
            },
            CircuitState::Closed => {
                self.failures = 0;
            },
            CircuitState::Open(_) => {},
        }
    }

    /// Reports one failure observed at monotonic millisecond `now_ms`.
    /// Returns whether the dependency stands tripped; a trip is also counted
    /// in the metrics.
    pub fn record_failure_at(&mut self, now_ms: u64) -> (tripped: bool)
        ensures
            (final(self).state, final(self).failures, tripped) == spec_failure_step(
                old(self).state,
                old(self).failures,
                old(self).config,
                now_ms,
            ),
            final(self).config == old(self).config,
            ({
                if tripped && !(old(self).state matches CircuitState::Open(_)) {
                    final(self).metrics == (MetricsCollector {
                        circuit_breaker_trips: inc64(old(self).metrics.circuit_breaker_trips),
                        ..old(self).metrics
                    })
                } else {
                    final(self).metrics == old(self).metrics
                }
            }),
    {
        match self.state {
            CircuitState::Closed => {
                let nf = if self.failures == u32::MAX {
                    self.failures
                } else {
                    self.failures + 1
                };
                self.failures = nf;
                if nf >= self.config.failure_threshold {
                    self.state = CircuitState::Open(now_ms);
                    self.metrics.record_circuit_breaker_trip();
                    true
                } else {
                    false
                }
            },
            CircuitState::HalfOpen(_) => {
                self.state = CircuitState::Open(now_ms);
                self.metrics.record_circuit_breaker_trip();
                true
            },
            CircuitState::Open(t0) => {
                if now_ms >= t0 && now_ms - t0 >= self.config.reset_timeout {
                    self.state = CircuitState::HalfOpen(now_ms);
                    self.failures = 0;
                    false
                } else {
                    true
                }
            },
        }
    }

    /// Reports one failure at the wall clock's current reading. The step
    /// taken is `spec_failure_step` for some clock value; nothing more can
    /// be said of a wall-clock reading.
    pub fn record_failure(&mut self) -> (tripped: bool)
        ensures
            exists|now: u64|
                (final(self).state, final(self).failures, tripped) == spec_failure_step(
                    old(self).state,
                    old(self).failures,
                    old(self).config,
                    now,
                ),
            final(self).config == old(self).config,
    {
        let now = now_millis();
        let tripped = self.record_failure_at(now);
        proof {
            assert((self.state, self.failures, tripped) == spec_failure_step(
                old(self).state,
                old(self).failures,
                old(self).config,
                now,
            ));
        }
        tripped
    }

    /// Whether traffic may pass at monotonic millisecond `now_ms`.
    pub fn can_execute_at(&self, now_ms: u64) -> (r: bool)
        ensures
            r == spec_can_execute(self.state, self.config, now_ms),
    {
        match self.state {
            CircuitState::Closed => true,
            CircuitState::Open(t0) => now_ms >= t0 && now_ms - t0 >= self.config.reset_timeout,
            CircuitState::HalfOpen(th) => now_ms >= th && now_ms - th
                >= self.config.half_open_timeout,
        }
    }

    /// Whether traffic may pass at the wall clock's current reading.
    pub fn can_execute(&self) -> (r: bool)
        ensures
            exists|now: u64| r == spec_can_execute(self.state, self.config, now),
            self.state == CircuitState::Closed ==> r,
    {
        let now = now_millis();
        let r = self.can_execute_at(now);
        proof {
            assert(r == spec_can_execute(self.state, self.config, now));
        }
        r
    }
}

/// The state and count after a run of failures, each observed at the
/// matching clock reading.
pub open spec fn spec_apply_failures(
    s: CircuitState,
    f: u32,
    cfg: InternalCircuitBreakerConfig,
    nows: Seq<u64>,
) -> (CircuitState, u32)
    decreases nows.len(),
{
    if nows.len() == 0 {
        (s, f)
    } else {
        let stepped = spec_failure_step(s, f, cfg, nows[0]);
        spec_apply_failures(stepped.0, stepped.1, cfg, nows.drop_first())
    }
}

/// A failure from Closed below the threshold leaves the breaker Closed: the
/// breaker opens after the threshold is reached, not before.
pub proof fn lemma_closed_below_threshold(
    f: u32,
    cfg: InternalCircuitBreakerConfig,
    now: u64,
)
    requires
        inc32(f) < cfg.failure_threshold,
    ensures
        spec_failure_step(CircuitState::Closed, f, cfg, now) == (
            CircuitState::Closed,
            inc32(f),
            false,
        ),
{
}

proof fn lemma_failures_close_to_open(
    f: u32,
    cfg: InternalCircuitBreakerConfig,
    nows: Seq<u64>,
)
    requires
        f < cfg.failure_threshold,
        nows.len() == cfg.failure_threshold - f,
    ensures
        spec_apply_failures(CircuitState::Closed, f, cfg, nows) == (
            CircuitState::Open(nows.last()),
            cfg.failure_threshold,
        ),
    decreases nows.len(),
{
    let stepped = spec_failure_step(CircuitState::Closed, f, cfg, nows[0]);
    assert(spec_apply_failures(CircuitState::Closed, f, cfg, nows) == spec_apply_failures(
        stepped.0,
        stepped.1,
        cfg,
        nows.drop_first(),
    ));
    if nows.len() == 1 {
        assert(inc32(f) == cfg.failure_threshold);
        assert(stepped == (CircuitState::Open(nows[0]), cfg.failure_threshold, true));
        assert(nows.drop_first().len() == 0);
        assert(spec_apply_failures(stepped.0, stepped.1, cfg, nows.drop_first()) == (
            stepped.0,
            stepped.1,
        ));
        assert(nows.last() == nows[0]);
    } else {
        assert(inc32(f) == f + 1 && f + 1 < cfg.failure_threshold);
        assert(stepped == (CircuitState::Closed, (f + 1) as u32, false));
        lemma_failures_close_to_open((f + 1) as u32, cfg, nows.drop_first());
        assert(nows.drop_first().last() == nows.last());
    }
}

/// After exactly `failure_threshold` consecutive failures from a fresh
/// Closed breaker, the state is Open at the last failure's timestamp, and
/// `can_execute` stays false for every reading before that timestamp plus
/// the reset timeout.
pub proof fn lemma_threshold_failures_open_breaker(
    cfg: InternalCircuitBreakerConfig,
    nows: Seq<u64>,
)
    requires
        cfg.failure_threshold >= 1,
        nows.len() == cfg.failure_threshold,
    ensures
        spec_apply_failures(CircuitState::Closed, 0u32, cfg, nows) == (
            CircuitState::Open(nows.last()),
            cfg.failure_threshold,
        ),
        forall|t: u64|
            t < nows.last() + cfg.reset_timeout ==> !spec_can_execute(
                CircuitState::Open(nows.last()),
                cfg,
                t,
            ),
        forall|t: u64|
            t >= nows.last() + cfg.reset_timeout ==> spec_can_execute(
                CircuitState::Open(nows.last()),
                cfg,
                t,
            ),
{
    lemma_failures_close_to_open(0u32, cfg, nows);
}

/// Any success while HalfOpen closes the breaker with the failure count
/// cleared.
pub proof fn lemma_half_open_success_closes(s: CircuitState, f: u32)
    requires
        s matches CircuitState::HalfOpen(_),
    ensures
        spec_success_step(s, f) == (CircuitState::Closed, 0u32),
{
}

} // verus!
