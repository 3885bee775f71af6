use vstd::prelude::*;

use crate::abi::{schemas_deep_view, spec_decode_log, RawLog, RawLogV};
use crate::db::EventLog;
use crate::decoder::{fields_deep_view, spec_fields, EventDecoder};
use crate::hexstr::{prefixed_hex, prefixed_hex_of};
use crate::metrics::{counter_of, inc64, MetricsCollector};

verus! {

/// The default width of one ranged log query, in blocks.
pub const DEFAULT_BATCH_SIZE: u64 = 1000;

/// The pairs `(transaction hash, block number)` already stored: what the
/// backfill deduplicates against.
pub struct KnownEvents {
    pub pairs: Vec<(String, u64)>,
}

/// Whether a pair stands among the known ones.
pub open spec fn contains_pair(pairs: Seq<(String, u64)>, tx: Seq<char>, block: u64) -> bool {
    exists|i: int| 0 <= i < pairs.len() && (#[trigger] pairs[i]).0@ == tx && pairs[i].1 == block
}

impl KnownEvents {
    /// No pairs known.
    pub fn new() -> (r: KnownEvents)
        ensures
            r.pairs@ =~= Seq::<(String, u64)>::empty(),
    {
        KnownEvents { pairs: Vec::new() }
    }

    /// Adds one stored pair.
    pub fn insert(&mut self, transaction_hash: String, block_number: u64)
        ensures
            final(self).pairs@ == old(self).pairs@.push((transaction_hash, block_number)),
    {
        self.pairs.push((transaction_hash, block_number));
    }

    /// Whether the pair is already stored.
    pub fn contains(&self, transaction_hash: &str, block_number: u64) -> (r: bool)
        ensures
            r == contains_pair(self.pairs@, transaction_hash@, block_number),
    {
        let key = transaction_hash.to_owned();
        let mut i: usize = 0;
        while i < self.pairs.len()
            invariant
                key@ == transaction_hash@,
                i <= self.pairs@.len(),
                forall|j: int|
                    0 <= j < i ==> !((#[trigger] self.pairs@[j]).0@ == transaction_hash@
                        && self.pairs@[j].1 == block_number),
            decreases self.pairs@.len() - i,
        {
            if self.pairs[i].0 == key && self.pairs[i].1 == block_number {
                return true;
            }
            i = i + 1;
        }
        false
    }
}

/// The string a transaction hash is persisted under: its 0x-prefixed hex
/// spelling, the all-zero hash standing in when the transport gave none.
pub open spec fn spec_tx_hash_string(log: RawLogV) -> Seq<char> {
    match log.transaction_hash {
        Some(h) => prefixed_hex_of(h),
        None => prefixed_hex_of(crate::abi::zeros(32)),
    }
}

/// Writes the persistence key of a log's transaction hash.
pub fn tx_hash_string(log: &RawLog) -> (r: String)
    ensures
        r@ == spec_tx_hash_string(log@),
{
    match &log.transaction_hash {
        Some(h) => prefixed_hex(h),
        None => {
            let mut zeros_vec: Vec<u8> = Vec::new();
            let mut i: usize = 0;
            while i < 32
                invariant
                    i <= 32,
                    zeros_vec@ =~= crate::abi::zeros(i as int),
                decreases 32 - i,
            {
                zeros_vec.push(0);
                proof {
                    assert(zeros_vec@ =~= crate::abi::zeros(i + 1));
                }
                i = i + 1;
            }
            prefixed_hex(&zeros_vec)
        },
    }
}

/// What the backfill decides to do with one fetched log.
pub enum LogAction {
    /// The pair is already stored: nothing is written.
    Skip,
    /// A new, decodable log: this document is inserted.
    Insert(EventLog),
    /// A new log no declared event matches: counted and dropped.
    DecodeFailure,
}

/// What a correct decision for `log` looks like, given the known pairs and
/// the decoder's declared events.
pub open spec fn spec_log_action(
    schemas: Seq<crate::abi::SchemaV>,
    chain_name: Seq<char>,
    known: Seq<(String, u64)>,
    log: RawLogV,
    now_ms: u64,
    action: LogAction,
) -> bool {
    let tx = spec_tx_hash_string(log);
    let block = match log.block_number {
        Some(b) => b,
        None => 0u64,
    };
    if contains_pair(known, tx, block) {
        action is Skip
    } else {
        match spec_decode_log(schemas, log) {
            Some(kts) => action matches LogAction::Insert(e) && e.chain_name@ == chain_name
                && e.event_name@ == schemas[kts.0].name && e.block_number == block
                && e.transaction_hash@ == tx && fields_deep_view(e.params@) == spec_fields(
                schemas[kts.0].params,
                kts.1,
            ) && e.timestamp == now_ms,
            None => action is DecodeFailure,
        }
    }
}

/// How far past its first block one window of `batch` blocks may reach:
/// a window covers `[lo, lo + span]`, so `batch` blocks means a span of
/// `batch - 1`. A width of zero would never advance, so it is read as one
/// block per window.
pub open spec fn window_span(batch: int) -> int {
    if batch <= 1 {
        0
    } else {
        batch - 1
    }
}

/// The ranged windows that cover `[from, to]`, each of at most `batch`
/// blocks, in ascending order.
pub open spec fn spec_windows(from: int, to: int, batch: int) -> Seq<(u64, u64)>
    decreases to - from + 1,
{
    if from > to || from < 0 || batch < 0 {
        Seq::<(u64, u64)>::empty()
    } else {
        let hi = if from + window_span(batch) <= to {
            from + window_span(batch)
        } else {
            to
        };
        seq![(from as u64, hi as u64)] + spec_windows(hi + 1, to, batch)
    }
}

/// The windows tile the range: consecutive, in order, first at `from`,
/// last at `to`, each within the range and at most `batch` blocks wide.
pub proof fn lemma_windows_tile(from: int, to: int, batch: int)
    requires
        0 <= from <= to <= u64::MAX,
        batch >= 0,
    ensures
        spec_windows(from, to, batch).len() >= 1,
        spec_windows(from, to, batch)[0].0 == from,
        spec_windows(from, to, batch).last().1 == to,
        forall|i: int|
            0 <= i < spec_windows(from, to, batch).len() ==> from
                <= (#[trigger] spec_windows(from, to, batch)[i]).0 <= spec_windows(
                from,
                to,
                batch,
            )[i].1 <= to,
        forall|i: int|
            0 <= i < spec_windows(from, to, batch).len() ==> (#[trigger] spec_windows(
                from,
                to,
                batch,
            )[i]).1 <= spec_windows(from, to, batch)[i].0 + window_span(batch),
        forall|i: int|
            0 < i < spec_windows(from, to, batch).len() ==> (#[trigger] spec_windows(
                from,
                to,
                batch,
            )[i]).0 == spec_windows(from, to, batch)[i - 1].1 + 1,
    decreases to - from + 1,
{
    let ws = spec_windows(from, to, batch);
    let hi = if from + window_span(batch) <= to {
        from + window_span(batch)
    } else {
        to
    };
    if hi == to {
        assert(spec_windows(to + 1, to, batch) =~= Seq::<(u64, u64)>::empty());
        assert(ws =~= seq![(from as u64, to as u64)]);
        assert(ws.len() == 1);
        assert(ws[0] == (from as u64, to as u64));
        assert(ws.last() == (from as u64, to as u64));
    } else {
        lemma_windows_tile(hi + 1, to, batch);
        let rest = spec_windows(hi + 1, to, batch);
        assert(ws == seq![(from as u64, hi as u64)] + rest);
        assert(ws.last() == rest.last());
        assert forall|i: int| 0 < i < ws.len() implies (#[trigger] ws[i]).0 == ws[i - 1].1
            + 1 by {
            if i == 1 {
                assert(ws[1] == rest[0]);
            } else {
                assert(ws[i] == rest[i - 1]);
                assert(ws[i - 1] == rest[i - 2]);
            }
        }
    }
}

/// The backfill engine for one chain: plans ranged queries over a block
/// range, deduplicates fetched logs against the stored pairs, and decides
/// what to insert. The transport and the store act on its decisions
/// outside.
pub struct HistoricalSync {
    pub chain_name: String,
    pub contract_address: String,
    pub decoder: EventDecoder,
    pub metrics: MetricsCollector,
    pub batch_size: u64,
}

impl HistoricalSync {
    /// A backfill engine for `chain_name`, batching `batch_size` blocks per
    /// query.
    pub fn new(
        chain_name: String,
        contract_address: String,
        decoder: EventDecoder,
        metrics: MetricsCollector,
        batch_size: u64,
    ) -> (r: HistoricalSync)
        ensures
            r.chain_name == chain_name,
            r.contract_address == contract_address,
            r.decoder == decoder,
            r.metrics == metrics,
            r.batch_size == batch_size,
    {
        HistoricalSync { chain_name, contract_address, decoder, metrics, batch_size }
    }

    /// The next window to fetch: at most `batch_size` blocks starting at
    /// `current`, never past `to`; `None` once `current` has passed `to`.
    pub fn next_window(&self, current: u64, to: u64) -> (r: Option<(u64, u64)>)
        ensures
            current > to ==> r is None,
            current <= to ==> r == Some(
                (
                    current,
                    if current + window_span(self.batch_size as int) <= to {
                        (current + window_span(self.batch_size as int)) as u64
                    } else {
                        to
                    },
                ),
            ),
    {
        if current > to {
            None
        } else {
            let span = if self.batch_size == 0 {
                0
            } else {
                self.batch_size - 1
            };
            let hi = if span <= to - current {
                current + span
            } else {
                to
            };
            Some((current, hi))
        }
    }

    /// Every window of the whole run over `[from, to]`, in order.
    pub fn plan_windows(&self, from: u64, to: u64) -> (r: Vec<(u64, u64)>)
        ensures
            r@ == spec_windows(from as int, to as int, self.batch_size as int),
    {
        let mut out: Vec<(u64, u64)> = Vec::new();
        if from > to {
            return out;
        }
        let mut current = from;
        loop
            invariant
                from <= current <= to,
                self.batch_size >= 0,
                out@ + spec_windows(current as int, to as int, self.batch_size as int)
                    =~= spec_windows(from as int, to as int, self.batch_size as int),
            decreases to - current,
        {
            let span = if self.batch_size == 0 {
                0
            } else {
                self.batch_size - 1
            };
            let hi = if span <= to - current {
                current + span
            } else {
                to
            };
            let ghost before = out@;
            out.push((current, hi));
            proof {
                assert(spec_windows(current as int, to as int, self.batch_size as int) == seq![
                    (current, hi),
                ] + spec_windows(hi + 1, to as int, self.batch_size as int));
                assert(out@ + spec_windows(hi + 1, to as int, self.batch_size as int) =~= before
                    + spec_windows(current as int, to as int, self.batch_size as int));
            }
            if hi == to {
                proof {
                    assert(spec_windows(to + 1, to as int, self.batch_size as int) =~= Seq::<
                        (u64, u64),
                    >::empty());
                    assert(out@ =~= out@ + spec_windows(
                        to + 1,
                        to as int,
                        self.batch_size as int,
                    ));
                }
                return out;
            }
            current = hi + 1;
        }
    }

    /// Decides one fetched log: skip a stored pair, insert a decoded
    /// document, or count a decode failure.
    pub fn plan_log_action(&self, log: &RawLog, known: &KnownEvents, now_ms: u64) -> (r: LogAction)
        ensures
            spec_log_action(
                schemas_deep_view(self.decoder.schemas@),
                self.chain_name@,
                known.pairs@,
                log@,
                now_ms,
                r,
            ),
    {
        let tx = tx_hash_string(log);
        let block = match log.block_number {
            Some(b) => b,
            None => 0,
        };
        if known.contains(tx.as_str(), block) {
            return LogAction::Skip;
        }
        match self.decoder.decode_log(log) {
            Ok((event_name, params)) => LogAction::Insert(
                EventLog {
                    chain_name: self.chain_name.clone(),
                    event_name,
                    block_number: block,
                    transaction_hash: tx,
                    params,
                    timestamp: now_ms,
                },
            ),
            Err(_) => LogAction::DecodeFailure,
        }
    }

    /// Decides a whole fetched batch, log by log, in order. An empty batch
    /// yields no actions: nothing is written and nothing else moves.
    pub fn plan_batch(&self, logs: &Vec<RawLog>, known: &KnownEvents, now_ms: u64) -> (r: Vec<
        LogAction,
    >)
        ensures
            r@.len() == logs@.len(),
            forall|i: int|
                0 <= i < logs@.len() ==> spec_log_action(
                    schemas_deep_view(self.decoder.schemas@),
                    self.chain_name@,
                    known.pairs@,
                    (#[trigger] logs@[i])@,
                    now_ms,
                    r@[i],
                ),
    {
        let mut out: Vec<LogAction> = Vec::new();
        let mut i: usize = 0;
        while i < logs.len()
            invariant
                i <= logs@.len(),
                out@.len() == i,
                forall|j: int|
                    0 <= j < i ==> spec_log_action(
                        schemas_deep_view(self.decoder.schemas@),
                        self.chain_name@,
                        known.pairs@,
                        (#[trigger] logs@[j])@,
                        now_ms,
                        out@[j],
                    ),
            decreases logs@.len() - i,
        {
            let action = self.plan_log_action(&logs[i], known, now_ms);
            out.push(action);
            i = i + 1;
        }
        out
    }

    /// Counts one decided action into the metrics: a new log is one event
    /// received; an inserted one is counted under its type and as
    /// processed; an undecodable one is a decode failure. A skipped pair
    /// touches nothing.
    pub fn record_action(&mut self, action: &LogAction)
        ensures
            final(self).chain_name == old(self).chain_name,
            final(self).contract_address == old(self).contract_address,
            final(self).decoder == old(self).decoder,
            final(self).batch_size == old(self).batch_size,
            match action {
                LogAction::Skip => final(self).metrics == old(self).metrics,
                LogAction::Insert(e) => {
                    &&& final(self).metrics.events_received == inc64(
                        old(self).metrics.events_received,
                    )
                    &&& counter_of(final(self).metrics.events_by_type@, e.event_name@) == inc64(
                        counter_of(old(self).metrics.events_by_type@, e.event_name@),
                    )
                    &&& counter_of(final(self).metrics.events_processed@, e.event_name@) == inc64(
                        counter_of(old(self).metrics.events_processed@, e.event_name@),
                    )
                    &&& final(self).metrics.last_block_height
                        == old(self).metrics.last_block_height
                },
                LogAction::DecodeFailure => {
                    &&& final(self).metrics.events_received == inc64(
                        old(self).metrics.events_received,
                    )
                    &&& counter_of(final(self).metrics.decode_failures@, "decode_error"@) == inc64(
                        counter_of(old(self).metrics.decode_failures@, "decode_error"@),
                    )
                },
            },
    {
        match action {
            LogAction::Skip => {},
            LogAction::Insert(e) => {
                self.metrics.record_event_received();
                self.metrics.record_event_by_type(e.event_name.as_str());
                self.metrics.record_event_processed(e.event_name.as_str());
            },
            LogAction::DecodeFailure => {
                self.metrics.record_event_received();
                self.metrics.record_event_decode_failure("decode_error");
            },
        }
    }
}

/// The range the supervisor backfills at startup: from the configured
/// starting block to the chain's current tip. With no starting block
/// configured, the historical sync is skipped entirely.
pub fn historical_range(starting_block: Option<u64>, current_block: u64) -> (r: Option<(u64, u64)>)
    ensures
        r == (match starting_block {
            Some(s) => Some((s, current_block)),
            None => None::<(u64, u64)>,
        }),
{
    match starting_block {
        Some(s) => Some((s, current_block)),
        None => None,
    }
}

/// Backfill idempotency: over a batch whose pairs are all already stored,
/// the plan holds no insert at all.
pub proof fn lemma_prepopulated_batch_skips(
    schemas: Seq<crate::abi::SchemaV>,
    chain_name: Seq<char>,
    known: Seq<(String, u64)>,
    logs: Seq<RawLogV>,
    now_ms: u64,
    actions: Seq<LogAction>,
)
    requires
        actions.len() == logs.len(),
        forall|i: int|
            0 <= i < logs.len() ==> spec_log_action(
                schemas,
                chain_name,
                known,
                #[trigger] logs[i],
                now_ms,
                actions[i],
            ),
        forall|i: int|
            0 <= i < logs.len() ==> contains_pair(
                known,
                spec_tx_hash_string(#[trigger] logs[i]),
                match logs[i].block_number {
                    Some(b) => b,
                    None => 0u64,
                },
            ),
    ensures
        forall|i: int| 0 <= i < actions.len() ==> (#[trigger] actions[i]) is Skip,
{
    assert forall|i: int| 0 <= i < actions.len() implies (#[trigger] actions[i]) is Skip by {
        assert(spec_log_action(schemas, chain_name, known, logs[i], now_ms, actions[i]));
    }
}

} // verus!
