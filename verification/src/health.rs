use vstd::prelude::*;

use crate::config::RpcEndpoint;
use crate::metrics::{inc64, sat_add64, MetricsCollector};

verus! {

/// The default latency, in milliseconds, assumed of an endpoint that has
/// never been probed: new endpoints start with optimistic health and a
/// pessimistic one-minute latency.
pub const UNPROBED_LATENCY_MS: u64 = 60000;

/// What the last probe of one endpoint found.
#[derive(Clone, Copy, Debug, PartialEq, Eq, Structural)]
pub struct EndpointHealth {
    pub last_checked: u64,
    pub is_healthy: bool,
    pub latency: u64,
    pub block_height: u64,
    pub peer_count: u64,
}

/// Per-endpoint health records for one chain, keyed by the endpoint's
/// position in the chain's configured list, plus the chain's metrics sink.
pub struct HealthCheck {
    pub metrics: MetricsCollector,
    pub endpoint_states: Vec<Option<EndpointHealth>>,
}

/// The record held for endpoint `i`: `None` both for a slot never written
/// and for an index past the recorded range.
pub open spec fn record_of(states: Seq<Option<EndpointHealth>>, i: int) -> Option<EndpointHealth> {
    if 0 <= i < states.len() {
        states[i]
    } else {
        None
    }
}

/// Whether endpoint `i` may be selected: unknown endpoints count as healthy.
pub open spec fn spec_candidate(states: Seq<Option<EndpointHealth>>, i: int) -> bool {
    match record_of(states, i) {
        Some(h) => h.is_healthy,
        None => true,
    }
}

/// The latency used to rank endpoint `i`: its recorded latency, or the
/// unprobed default.
pub open spec fn spec_latency_key(states: Seq<Option<EndpointHealth>>, i: int) -> u64 {
    match record_of(states, i) {
        Some(h) => h.latency,
        None => UNPROBED_LATENCY_MS,
    }
}

/// Strict order on the selection key (priority, latency).
pub open spec fn spec_key_lt(p1: u8, l1: u64, p2: u8, l2: u64) -> bool {
    p1 < p2 || (p1 == p2 && l1 < l2)
}

/// Endpoint `i` is what selection must return: a candidate, with no
/// candidate of strictly smaller key, and no earlier candidate of equal key.
pub open spec fn spec_is_best(
    endpoints: Seq<RpcEndpoint>,
    states: Seq<Option<EndpointHealth>>,
    i: int,
) -> bool {
    &&& 0 <= i < endpoints.len()
    &&& spec_candidate(states, i)
    &&& forall|j: int|
        0 <= j < endpoints.len() && spec_candidate(states, j) ==> !spec_key_lt(
            (#[trigger] endpoints[j]).priority,
            spec_latency_key(states, j),
            endpoints[i].priority,
            spec_latency_key(states, i),
        )
    &&& forall|j: int|
        0 <= j < i && spec_candidate(states, j) ==> spec_key_lt(
            endpoints[i].priority,
            spec_latency_key(states, i),
            (#[trigger] endpoints[j]).priority,
            spec_latency_key(states, j),
        )
}

impl HealthCheck {
    /// A fresh checker with no records.
    pub fn new(metrics: MetricsCollector) -> (r: HealthCheck)
        ensures
            r.metrics == metrics,
            r.endpoint_states@ =~= Seq::<Option<EndpointHealth>>::empty(),
    {
        HealthCheck { metrics, endpoint_states: Vec::new() }
    }

    /// Stores a successful probe of endpoint `index`: the endpoint is
    /// healthy with the observed latency, height and peer count, the
    /// latency is sampled into the metrics, and no other record moves.
    pub fn record_success(
        &mut self,
        index: usize,
        now_ms: u64,
        latency_ms: u64,
        block_height: u64,
        peer_count: u64,
    )
        ensures
            record_of(final(self).endpoint_states@, index as int) == Some(
                EndpointHealth {
                    last_checked: now_ms,
                    is_healthy: true,
                    latency: latency_ms,
                    block_height,
                    peer_count,
                },
            ),
            forall|j: int|
                0 <= j && j != index ==> record_of(final(self).endpoint_states@, j) == record_of(
                    old(self).endpoint_states@,
                    j,
                ),
            final(self).metrics == (MetricsCollector {
                latency_samples: inc64(old(self).metrics.latency_samples),
                latency_total_ms: sat_add64(old(self).metrics.latency_total_ms, latency_ms),
                ..old(self).metrics
            }),
    {
        self.metrics.record_latency(latency_ms);
        let ghost metrics_after = self.metrics;
        while self.endpoint_states.len() <= index
            invariant
                forall|j: int|
                    0 <= j < old(self).endpoint_states@.len() && j < self.endpoint_states@.len()
                        ==> self.endpoint_states@[j] == old(self).endpoint_states@[j],
                forall|j: int|
                    old(self).endpoint_states@.len() <= j < self.endpoint_states@.len()
                        ==> self.endpoint_states@[j] is None,
                self.endpoint_states@.len() >= old(self).endpoint_states@.len(),
                self.metrics == metrics_after,
            decreases index + 1 - self.endpoint_states.len(),
        {
            self.endpoint_states.push(None);
        }
        let record = EndpointHealth {
            last_checked: now_ms,
            is_healthy: true,
            latency: latency_ms,
            block_height,
            peer_count,
        };
        self.endpoint_states[index] = Some(record);
    }

    /// Stores a failed probe of endpoint `index`: an existing record is
    /// marked unhealthy in place, a missing one stays missing, the failure
    /// is counted, and no other record moves.
    pub fn record_failure(&mut self, index: usize)
        ensures
            record_of(final(self).endpoint_states@, index as int) == (match record_of(
                old(self).endpoint_states@,
                index as int,
            ) {
                Some(h) => Some(EndpointHealth { is_healthy: false, ..h }),
                None => None::<EndpointHealth>,
            }),
            forall|j: int|
                0 <= j && j != index ==> record_of(final(self).endpoint_states@, j) == record_of(
                    old(self).endpoint_states@,
                    j,
                ),
            final(self).metrics == (MetricsCollector {
                endpoint_failures: inc64(old(self).metrics.endpoint_failures),
                ..old(self).metrics
            }),
    {
        self.metrics.record_failure();
        if index < self.endpoint_states.len() {
            match self.endpoint_states[index] {
                Some(h) => {
                    self.endpoint_states[index] = Some(
                        EndpointHealth { is_healthy: false, ..h },
                    );
                },
                None => {},
            }
        }
    }

    /// Whether endpoint `index` may be selected.
    fn candidate_at(&self, index: usize) -> (r: bool)
        ensures
            r == spec_candidate(self.endpoint_states@, index as int),
    {
        if index < self.endpoint_states.len() {
            match &self.endpoint_states[index] {
                Some(h) => h.is_healthy,
                None => true,
            }
        } else {
            true
        }
    }

    /// The latency that ranks endpoint `index`.
    fn latency_key_at(&self, index: usize) -> (r: u64)
        ensures
            r == spec_latency_key(self.endpoint_states@, index as int),
    {
        if index < self.endpoint_states.len() {
            match &self.endpoint_states[index] {
                Some(h) => h.latency,
                None => UNPROBED_LATENCY_MS,
            }
        } else {
            UNPROBED_LATENCY_MS
        }
    }

    /// Selects the endpoint to connect through: among the endpoints that are
    /// healthy or unprobed, the first of lowest priority, ties broken by
    /// lowest recorded latency. `None` exactly when every endpoint stands
    /// unhealthy.
    pub fn get_best_endpoint(&self, endpoints: &Vec<RpcEndpoint>) -> (r: Option<usize>)
        ensures
            match r {
                Some(i) => spec_is_best(endpoints@, self.endpoint_states@, i as int),
                None => forall|j: int|
                    0 <= j < endpoints@.len() ==> !spec_candidate(self.endpoint_states@, j),
            },
    {
        let mut best: Option<usize> = None;
        let mut best_priority: u8 = 0;
        let mut best_latency: u64 = 0;
        let mut k: usize = 0;
        while k < endpoints.len()
            invariant
                k <= endpoints@.len(),
                match best {
                    Some(i) => {
                        &&& i < k
                        &&& spec_candidate(self.endpoint_states@, i as int)
                        &&& best_priority == endpoints@[i as int].priority
                        &&& best_latency == spec_latency_key(self.endpoint_states@, i as int)
                        &&& forall|j: int|
                            0 <= j < k && spec_candidate(self.endpoint_states@, j) ==> !spec_key_lt(
                                (#[trigger] endpoints@[j]).priority,
                                spec_latency_key(self.endpoint_states@, j),
                                best_priority,
                                best_latency,
                            )
                        &&& forall|j: int|
                            0 <= j < i && spec_candidate(self.endpoint_states@, j) ==> spec_key_lt(
                                best_priority,
                                best_latency,
                                (#[trigger] endpoints@[j]).priority,
                                spec_latency_key(self.endpoint_states@, j),
                            )
                    },
                    None => forall|j: int|
                        0 <= j < k ==> !spec_candidate(self.endpoint_states@, j),
                },
            decreases endpoints@.len() - k,
        {
            if self.candidate_at(k) {
                let pri = endpoints[k].priority;
                let lat = self.latency_key_at(k);
                match best {
                    Some(_) => {
                        if pri < best_priority || (pri == best_priority && lat < best_latency) {
                            best = Some(k);
                            best_priority = pri;
                            best_latency = lat;
                        }
                    },
                    None => {
                        best = Some(k);
                        best_priority = pri;
                        best_latency = lat;
                    },
                }
            }
            k = k + 1;
        }
        best
    }
}

/// When exactly one candidate has the strictly smallest (priority, latency)
/// key, selection returns it: in particular the unique healthy endpoint of
/// lowest priority, and under equal priorities the one of lowest latency.
pub proof fn lemma_best_endpoint_unique(
    endpoints: Seq<RpcEndpoint>,
    states: Seq<Option<EndpointHealth>>,
    i: int,
    u: int,
)
    requires
        spec_is_best(endpoints, states, i),
        0 <= u < endpoints.len(),
        spec_candidate(states, u),
        forall|j: int|
            0 <= j < endpoints.len() && spec_candidate(states, j) && j != u ==> spec_key_lt(
                endpoints[u].priority,
                spec_latency_key(states, u),
                (#[trigger] endpoints[j]).priority,
                spec_latency_key(states, j),
            ),
    ensures
        i == u,
{
    if i != u {
        assert(spec_key_lt(
            endpoints[u].priority,
            spec_latency_key(states, u),
            endpoints[i].priority,
            spec_latency_key(states, i),
        ));
        assert(!spec_key_lt(
            endpoints[u].priority,
            spec_latency_key(states, u),
            endpoints[i].priority,
            spec_latency_key(states, i),
        ));
    }
}

} // verus!
