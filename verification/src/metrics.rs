use vstd::prelude::*;

verus! {

/// A counter bumped by one, pinned at the top of its range.
pub open spec fn inc64(x: u64) -> u64 {
    if x == u64::MAX {
        x
    } else {
        (x + 1) as u64
    }
}

/// A sum pinned at the top of its range.
pub open spec fn sat_add64(x: u64, y: u64) -> u64 {
    if x + y > u64::MAX {
        u64::MAX
    } else {
        (x + y) as u64
    }
}

/// The value of a label-keyed counter family: the entry of the first pair
/// whose label matches, zero when none does.
pub open spec fn counter_of(pairs: Seq<(String, u64)>, key: Seq<char>) -> u64
    decreases pairs.len(),
{
    if pairs.len() == 0 {
        0
    } else if pairs[0].0@ == key {
        pairs[0].1
    } else {
        counter_of(pairs.drop_first(), key)
    }
}

proof fn lemma_counter_absent(pairs: Seq<(String, u64)>, key: Seq<char>)
    requires
        forall|j: int| 0 <= j < pairs.len() ==> (#[trigger] pairs[j]).0@ != key,
    ensures
        counter_of(pairs, key) == 0,
    decreases pairs.len(),
{
    if pairs.len() > 0 {
        lemma_counter_absent(pairs.drop_first(), key);
    }
}

proof fn lemma_counter_push_fresh(pairs: Seq<(String, u64)>, entry: (String, u64))
    requires
        forall|j: int| 0 <= j < pairs.len() ==> (#[trigger] pairs[j]).0@ != entry.0@,
    ensures
        counter_of(pairs.push(entry), entry.0@) == entry.1,
        forall|k: Seq<char>| k != entry.0@ ==> counter_of(pairs.push(entry), k) == counter_of(
            pairs,
            k,
        ),
    decreases pairs.len(),
{
    if pairs.len() == 0 {
        assert(pairs.push(entry)[0] == entry);
        assert(pairs.push(entry).drop_first() =~= Seq::<(String, u64)>::empty());
        assert forall|k: Seq<char>| k != entry.0@ implies counter_of(pairs.push(entry), k)
            == counter_of(pairs, k) by {
            assert(counter_of(pairs.push(entry), k) == counter_of(
                pairs.push(entry).drop_first(),
                k,
            ));
        }
    } else {
        lemma_counter_push_fresh(pairs.drop_first(), entry);
        assert(pairs.push(entry).drop_first() =~= pairs.drop_first().push(entry));
        assert(pairs.push(entry)[0] == pairs[0]);
        assert forall|k: Seq<char>| k != entry.0@ implies counter_of(pairs.push(entry), k)
            == counter_of(pairs, k) by {
            assert(counter_of(pairs.push(entry).drop_first(), k) == counter_of(
                pairs.drop_first(),
                k,
            ));
        }
    }
}

proof fn lemma_counter_update(pairs: Seq<(String, u64)>, i: int, entry: (String, u64))
    requires
        0 <= i < pairs.len(),
        entry.0@ == pairs[i].0@,
        forall|j: int| 0 <= j < i ==> (#[trigger] pairs[j]).0@ != pairs[i].0@,
    ensures
        counter_of(pairs.update(i, entry), pairs[i].0@) == entry.1,
        forall|k: Seq<char>| k != pairs[i].0@ ==> counter_of(pairs.update(i, entry), k)
            == counter_of(pairs, k),
    decreases i,
{
    if i == 0 {
        assert(pairs.update(0, entry).drop_first() =~= pairs.drop_first());
    } else {
        lemma_counter_update(pairs.drop_first(), i - 1, entry);
        assert(pairs.update(i, entry).drop_first() =~= pairs.drop_first().update(i - 1, entry));
        assert(pairs.update(i, entry)[0] == pairs[0]);
        assert forall|k: Seq<char>| k != pairs[i].0@ implies counter_of(pairs.update(i, entry), k)
            == counter_of(pairs, k) by {
            assert(counter_of(pairs.update(i, entry).drop_first(), k) == counter_of(
                pairs.drop_first(),
                k,
            ));
        }
    }
}

/// Adds one to the counter labelled `key`, creating the label at one when it
/// is new; every other label keeps its count.
fn bump(pairs: &mut Vec<(String, u64)>, key: &str)
    ensures
        counter_of(final(pairs)@, key@) == inc64(counter_of(old(pairs)@, key@)),
        forall|k: Seq<char>| k != key@ ==> counter_of(final(pairs)@, k) == counter_of(
            old(pairs)@,
            k,
        ),
{
    let key_string = key.to_owned();
    let mut i: usize = 0;
    while i < pairs.len()
        invariant
            key_string@ == key@,
            pairs@ == old(pairs)@,
            i <= pairs@.len(),
            forall|j: int| 0 <= j < i ==> (#[trigger] pairs@[j]).0@ != key@,
        decreases pairs@.len() - i,
    {
        if pairs[i].0 == key_string {
            let cur = pairs[i].1;
            let bumped = if cur == u64::MAX {
                cur
            } else {
                cur + 1
            };
            let label = pairs[i].0.clone();
            let ghost old_pairs = pairs@;
            pairs[i] = (label, bumped);
            proof {
                lemma_counter_update(old_pairs, i as int, (label, bumped));
                lemma_counter_first_match(old_pairs, i as int);
            }
            return ;
        }
        i = i + 1;
    }
    let ghost old_pairs = pairs@;
    pairs.push((key_string, 1));
    proof {
        lemma_counter_absent(old_pairs, key@);
        lemma_counter_push_fresh(old_pairs, (key_string, 1u64));
    }
}

proof fn lemma_counter_first_match(pairs: Seq<(String, u64)>, i: int)
    requires
        0 <= i < pairs.len(),
        forall|j: int| 0 <= j < i ==> (#[trigger] pairs[j]).0@ != pairs[i].0@,
    ensures
        counter_of(pairs, pairs[i].0@) == pairs[i].1,
    decreases i,
{
    if i > 0 {
        lemma_counter_first_match(pairs.drop_first(), i - 1);
    }
}

/// Label-keyed counters and gauges for one chain and its active endpoint.
/// The process-wide exposition of these series lives outside the library;
/// this collector is the sink the components write into.
pub struct MetricsCollector {
    pub chain_name: String,
    pub endpoint_url: String,
    pub endpoint_failures: u64,
    pub latency_samples: u64,
    pub latency_total_ms: u64,
    pub connected: bool,
    pub events_received: u64,
    pub circuit_breaker_trips: u64,
    pub last_block_height: u64,
    pub events_processed: Vec<(String, u64)>,
    pub events_by_type: Vec<(String, u64)>,
    pub decode_failures: Vec<(String, u64)>,
}

impl MetricsCollector {
    /// A fresh collector: every series at zero.
    pub fn new(chain_name: &str, endpoint_url: &str) -> (r: MetricsCollector)
        ensures
            r.chain_name@ == chain_name@,
            r.endpoint_url@ == endpoint_url@,
            r.endpoint_failures == 0,
            r.latency_samples == 0,
            r.latency_total_ms == 0,
            !r.connected,
            r.events_received == 0,
            r.circuit_breaker_trips == 0,
            r.last_block_height == 0,
            r.events_processed@ =~= Seq::<(String, u64)>::empty(),
            r.events_by_type@ =~= Seq::<(String, u64)>::empty(),
            r.decode_failures@ =~= Seq::<(String, u64)>::empty(),
    {
        MetricsCollector {
            chain_name: chain_name.to_owned(),
            endpoint_url: endpoint_url.to_owned(),
            endpoint_failures: 0,
            latency_samples: 0,
            latency_total_ms: 0,
            connected: false,
            events_received: 0,
            circuit_breaker_trips: 0,
            last_block_height: 0,
            events_processed: Vec::new(),
            events_by_type: Vec::new(),
            decode_failures: Vec::new(),
        }
    }

    /// One more endpoint failure.
    pub fn record_failure(&mut self)
        ensures
            *final(self) == (MetricsCollector {
                endpoint_failures: inc64(old(self).endpoint_failures),
                ..*old(self)
            }),
    {
        if self.endpoint_failures < u64::MAX {
            self.endpoint_failures = self.endpoint_failures + 1;
        }
    }

    /// One more latency observation, in milliseconds.
    pub fn record_latency(&mut self, duration_ms: u64)
        ensures
            *final(self) == (MetricsCollector {
                latency_samples: inc64(old(self).latency_samples),
                latency_total_ms: sat_add64(old(self).latency_total_ms, duration_ms),
                ..*old(self)
            }),
    {
        if self.latency_samples < u64::MAX {
            self.latency_samples = self.latency_samples + 1;
        }
        if duration_ms <= u64::MAX - self.latency_total_ms {
            self.latency_total_ms = self.latency_total_ms + duration_ms;
        } else {
            self.latency_total_ms = u64::MAX;
        }
    }

    /// The 0/1 gauge of the active connection.
    pub fn set_connection_status(&mut self, is_connected: bool)
        ensures
            *final(self) == (MetricsCollector { connected: is_connected, ..*old(self) }),
    {
        self.connected = is_connected;
    }

    /// One more processed event of the given type.
    pub fn record_event_processed(&mut self, event_type: &str)
        ensures
            counter_of(final(self).events_processed@, event_type@) == inc64(
                counter_of(old(self).events_processed@, event_type@),
            ),
            forall|k: Seq<char>| k != event_type@ ==> counter_of(final(self).events_processed@, k)
                == counter_of(old(self).events_processed@, k),
            final(self).chain_name == old(self).chain_name,
            final(self).endpoint_url == old(self).endpoint_url,
            final(self).endpoint_failures == old(self).endpoint_failures,
            final(self).latency_samples == old(self).latency_samples,
            final(self).latency_total_ms == old(self).latency_total_ms,
            final(self).connected == old(self).connected,
            final(self).events_received == old(self).events_received,
            final(self).circuit_breaker_trips == old(self).circuit_breaker_trips,
            final(self).last_block_height == old(self).last_block_height,
            final(self).events_by_type == old(self).events_by_type,
            final(self).decode_failures == old(self).decode_failures,
    {
        bump(&mut self.events_processed, event_type);
    }

    /// The block-height gauge.
    pub fn update_block_height(&mut self, height: u64)
        ensures
            *final(self) == (MetricsCollector { last_block_height: height, ..*old(self) }),
    {
        self.last_block_height = height;
    }

    /// One more circuit breaker trip.
    pub fn record_circuit_breaker_trip(&mut self)
        ensures
            *final(self) == (MetricsCollector {
                circuit_breaker_trips: inc64(old(self).circuit_breaker_trips),
                ..*old(self)
            }),
    {
        if self.circuit_breaker_trips < u64::MAX {
            self.circuit_breaker_trips = self.circuit_breaker_trips + 1;
        }
    }

    /// One more event received, before decoding.
    pub fn record_event_received(&mut self)
        ensures
            *final(self) == (MetricsCollector {
                events_received: inc64(old(self).events_received),
                ..*old(self)
            }),
    {
        if self.events_received < u64::MAX {
            self.events_received = self.events_received + 1;
        }
    }

    /// One more decode failure under the given reason.
    pub fn record_event_decode_failure(&mut self, reason: &str)
        ensures
            counter_of(final(self).decode_failures@, reason@) == inc64(
                counter_of(old(self).decode_failures@, reason@),
            ),
            forall|k: Seq<char>| k != reason@ ==> counter_of(final(self).decode_failures@, k)
                == counter_of(old(self).decode_failures@, k),
            final(self).chain_name == old(self).chain_name,
            final(self).endpoint_url == old(self).endpoint_url,
            final(self).endpoint_failures == old(self).endpoint_failures,
            final(self).latency_samples == old(self).latency_samples,
            final(self).latency_total_ms == old(self).latency_total_ms,
            final(self).connected == old(self).connected,
            final(self).events_received == old(self).events_received,
            final(self).circuit_breaker_trips == old(self).circuit_breaker_trips,
            final(self).last_block_height == old(self).last_block_height,
            final(self).events_processed == old(self).events_processed,
            final(self).events_by_type == old(self).events_by_type,
    {
        bump(&mut self.decode_failures, reason);
    }

    /// One more event seen of the given type, counted whether or not its
    /// write succeeds.
    pub fn record_event_by_type(&mut self, event_type: &str)
        ensures
            counter_of(final(self).events_by_type@, event_type@) == inc64(
                counter_of(old(self).events_by_type@, event_type@),
            ),
            forall|k: Seq<char>| k != event_type@ ==> counter_of(final(self).events_by_type@, k)
                == counter_of(old(self).events_by_type@, k),
            final(self).chain_name == old(self).chain_name,
            final(self).endpoint_url == old(self).endpoint_url,
            final(self).endpoint_failures == old(self).endpoint_failures,
            final(self).latency_samples == old(self).latency_samples,
            final(self).latency_total_ms == old(self).latency_total_ms,
            final(self).connected == old(self).connected,
            final(self).events_received == old(self).events_received,
            final(self).circuit_breaker_trips == old(self).circuit_breaker_trips,
            final(self).last_block_height == old(self).last_block_height,
            final(self).events_processed == old(self).events_processed,
            final(self).decode_failures == old(self).decode_failures,
    {
        bump(&mut self.events_by_type, event_type);
    }
}

} // verus!
