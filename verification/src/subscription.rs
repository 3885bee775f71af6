use vstd::prelude::*;

verus! {

/// The pull half of the unified event stream: remembers the newest block a
/// poll has covered, so each tick asks only for what is new.
pub struct PollState {
    pub last_seen: u64,
    pub polling_interval_ms: u64,
}

impl PollState {
    /// A poller anchored at `current_block`: only later blocks are fetched.
    pub fn new(current_block: u64, polling_interval_ms: u64) -> (r: PollState)
        ensures
            r.last_seen == current_block,
            r.polling_interval_ms == polling_interval_ms,
    {
        PollState { last_seen: current_block, polling_interval_ms }
    }

    /// The window one tick must fetch when the chain tip stands at
    /// `current_block`: everything after the last covered block, or nothing
    /// when the tip has not moved.
    pub fn poll_window(&self, current_block: u64) -> (r: Option<(u64, u64)>)
        ensures
            current_block > self.last_seen ==> r == Some((
                (self.last_seen + 1) as u64,
                current_block,
            )),
            current_block <= self.last_seen ==> r is None,
    {
        if current_block > self.last_seen {
            Some((self.last_seen + 1, current_block))
        } else {
            None
        }
    }

    /// Marks a window as covered, after its logs were fetched successfully.
    /// A failed fetch must not advance the poller: the same window is asked
    /// for again on the next tick.
    pub fn advance(&mut self, to_block: u64)
        ensures
            final(self).last_seen == to_block,
            final(self).polling_interval_ms == old(self).polling_interval_ms,
    {
        self.last_seen = to_block;
    }
}

/// The logs with a block number inside `[lo, hi]`, in chain order. The
/// payload type stands for whatever one log carries.
pub open spec fn range_pred<T>(lo: int, hi: int) -> spec_fn((u64, T)) -> bool {
    |e: (u64, T)| lo <= e.0 as int <= hi
}

/// What a server-side filter over `[lo, hi]` returns of a chain's logs.
pub open spec fn logs_in_range<T>(chain: Seq<(u64, T)>, lo: int, hi: int) -> Seq<(u64, T)> {
    chain.filter(range_pred(lo, hi))
}

/// What the push subscription yields when consumed to completion: a
/// server-side filter anchored at `anchor` (inclusive), up to the tip.
pub open spec fn ws_yield<T>(chain: Seq<(u64, T)>, anchor: u64, tip: int) -> Seq<(u64, T)> {
    logs_in_range(chain, anchor as int, tip)
}

/// What the poll loop yields over a run of observed tips: each tick fetches
/// the window after the newest covered block, and a tip that has not moved
/// fetches nothing.
pub open spec fn http_yield<T>(chain: Seq<(u64, T)>, last_seen: u64, tips: Seq<u64>) -> Seq<
    (u64, T),
>
    decreases tips.len(),
{
    if tips.len() == 0 {
        Seq::<(u64, T)>::empty()
    } else {
        let next = if tips[0] > last_seen {
            tips[0]
        } else {
            last_seen
        };
        logs_in_range(chain, last_seen + 1, tips[0] as int) + http_yield(
            chain,
            next,
            tips.drop_first(),
        )
    }
}

/// The newest block a poll run has covered after observing `tips`.
pub open spec fn max_seen(last_seen: u64, tips: Seq<u64>) -> u64
    decreases tips.len(),
{
    if tips.len() == 0 {
        last_seen
    } else {
        max_seen(
            if tips[0] > last_seen {
                tips[0]
            } else {
                last_seen
            },
            tips.drop_first(),
        )
    }
}

/// The chain hands logs out in block order.
pub open spec fn sorted_by_block<T>(chain: Seq<(u64, T)>) -> bool {
    forall|i: int, j: int| 0 <= i <= j < chain.len() ==> (#[trigger] chain[i]).0 <= (#[trigger] chain[j]).0
}

proof fn lemma_filter_none<A>(s: Seq<A>, pred: spec_fn(A) -> bool)
    requires
        forall|i: int| 0 <= i < s.len() ==> !pred(#[trigger] s[i]),
    ensures
        s.filter(pred) =~= Seq::<A>::empty(),
    decreases s.len(),
{
    reveal(Seq::filter);
    if s.len() > 0 {
        lemma_filter_none(s.drop_last(), pred);
    }
}

proof fn lemma_range_empty<T>(chain: Seq<(u64, T)>, lo: int, hi: int)
    requires
        forall|i: int| 0 <= i < chain.len() ==> !(lo <= (#[trigger] chain[i]).0 as int <= hi),
    ensures
        logs_in_range(chain, lo, hi) =~= Seq::<(u64, T)>::empty(),
{
    lemma_filter_none(chain, range_pred(lo, hi));
}

/// Two adjacent server-side windows of a sorted chain concatenate to the
/// window of their union.
proof fn lemma_range_split<T>(chain: Seq<(u64, T)>, a: int, m: int, c: int)
    requires
        sorted_by_block(chain),
        a <= m + 1,
        m <= c,
    ensures
        logs_in_range(chain, a, m) + logs_in_range(chain, m + 1, c) =~= logs_in_range(chain, a, c),
    decreases chain.len(),
{
    reveal(Seq::filter);
    if chain.len() == 0 {
        assert(logs_in_range(chain, a, m) =~= Seq::<(u64, T)>::empty());
    } else {
        let dl = chain.drop_last();
        let last = chain.last();
        assert(sorted_by_block(dl)) by {
            assert(forall|i: int, j: int|
                0 <= i <= j < dl.len() ==> (#[trigger] dl[i]).0 <= (#[trigger] dl[j]).0);
        }
        lemma_range_split(dl, a, m, c);
        let w1 = logs_in_range(dl, a, m);
        let w2 = logs_in_range(dl, m + 1, c);
        if a <= last.0 as int <= m {
            // every block sits at or below the last one, so the upper
            // window holds nothing
            assert(forall|i: int|
                0 <= i < chain.len() ==> !(m + 1 <= (#[trigger] chain[i]).0 as int <= c)) by {
                assert(forall|i: int|
                    0 <= i < chain.len() ==> (#[trigger] chain[i]).0 <= last.0);
            }
            lemma_range_empty(chain, m + 1, c);
            lemma_range_empty(dl, m + 1, c);
            assert(logs_in_range(chain, a, m) =~= w1.push(last));
            assert(logs_in_range(chain, a, c) =~= logs_in_range(dl, a, c).push(last));
            assert(w1.push(last) + logs_in_range(chain, m + 1, c) =~= (w1 + w2).push(last));
        } else if m + 1 <= last.0 as int <= c {
            assert(logs_in_range(chain, m + 1, c) =~= w2.push(last));
            assert(logs_in_range(chain, a, c) =~= logs_in_range(dl, a, c).push(last));
            assert(w1 + w2.push(last) =~= (w1 + w2).push(last));
        } else {
            assert(logs_in_range(chain, a, m) =~= w1);
            assert(logs_in_range(chain, m + 1, c) =~= w2);
            assert(logs_in_range(chain, a, c) =~= logs_in_range(dl, a, c));
        }
    }
}

proof fn lemma_max_seen_ge(last_seen: u64, tips: Seq<u64>)
    ensures
        max_seen(last_seen, tips) >= last_seen,
    decreases tips.len(),
{
    if tips.len() > 0 {
        let next = if tips[0] > last_seen {
            tips[0]
        } else {
            last_seen
        };
        lemma_max_seen_ge(next, tips.drop_first());
    }
}

/// A whole poll run over a sorted chain yields exactly the window from just
/// past its anchor to the newest tip it saw.
proof fn lemma_http_total<T>(chain: Seq<(u64, T)>, last_seen: u64, tips: Seq<u64>)
    requires
        sorted_by_block(chain),
    ensures
        http_yield(chain, last_seen, tips) =~= logs_in_range(
            chain,
            last_seen + 1,
            max_seen(last_seen, tips) as int,
        ),
    decreases tips.len(),
{
    if tips.len() == 0 {
        lemma_range_empty(chain, last_seen + 1, last_seen as int);
    } else {
        let next = if tips[0] > last_seen {
            tips[0]
        } else {
            last_seen
        };
        lemma_http_total(chain, next, tips.drop_first());
        lemma_max_seen_ge(next, tips.drop_first());
        if tips[0] > last_seen {
            lemma_range_split(
                chain,
                last_seen + 1,
                tips[0] as int,
                max_seen(next, tips.drop_first()) as int,
            );
        } else {
            lemma_range_empty(chain, last_seen + 1, tips[0] as int);
        }
    }
}

/// Both transports yield the same sequence. For a chain whose logs all sit
/// past the anchor block, the push subscription anchored at `anchor` and a
/// poll run started at `anchor`, consumed to completion, deliver exactly the
/// same logs in the same order.
pub proof fn lemma_subscription_unified<T>(chain: Seq<(u64, T)>, anchor: u64, tips: Seq<u64>)
    requires
        sorted_by_block(chain),
        forall|i: int| 0 <= i < chain.len() ==> (#[trigger] chain[i]).0 > anchor,
    ensures
        http_yield(chain, anchor, tips) =~= ws_yield(
            chain,
            anchor,
            max_seen(anchor, tips) as int,
        ),
{
    let m = max_seen(anchor, tips);
    lemma_max_seen_ge(anchor, tips);
    lemma_http_total(chain, anchor, tips);
    lemma_range_split(chain, anchor as int, anchor as int, m as int);
    lemma_range_empty(chain, anchor as int, anchor as int);
    assert(Seq::<(u64, T)>::empty() + logs_in_range(chain, anchor + 1, m as int) =~= logs_in_range(
        chain,
        anchor + 1,
        m as int,
    ));
}

} // verus!
