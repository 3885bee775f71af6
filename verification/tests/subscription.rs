use evm_indexer::subscription::PollState;

/// Drains a mock chain through the poller: for each observed tip, fetch the
/// window the poller asks for and collect the matching logs.
fn poll_all(chain: &[(u64, u32)], anchor: u64, tips: &[u64]) -> Vec<(u64, u32)> {
    let mut poller = PollState::new(anchor, 2_000);
    let mut out = Vec::new();
    for &tip in tips {
        if let Some((lo, hi)) = poller.poll_window(tip) {
            for &(block, payload) in chain {
                if lo <= block && block <= hi {
                    out.push((block, payload));
                }
            }
            poller.advance(hi);
        }
    }
    out
}

/// What the push subscription would deliver: a server-side filter anchored
/// at `anchor`, up to the tip.
fn ws_all(chain: &[(u64, u32)], anchor: u64, tip: u64) -> Vec<(u64, u32)> {
    chain
        .iter()
        .copied()
        .filter(|&(block, _)| anchor <= block && block <= tip)
        .collect()
}

#[test]
fn poll_window_opens_only_past_the_tip() {
    let poller = PollState::new(10, 2_000);
    assert_eq!(poller.poll_window(10), None);
    assert_eq!(poller.poll_window(9), None);
    assert_eq!(poller.poll_window(12), Some((11, 12)));
}

#[test]
fn advance_moves_the_anchor_only_when_told() {
    let mut poller = PollState::new(10, 2_000);
    // a failed fetch does not advance: the same window is asked again
    assert_eq!(poller.poll_window(12), Some((11, 12)));
    assert_eq!(poller.poll_window(12), Some((11, 12)));
    poller.advance(12);
    assert_eq!(poller.poll_window(12), None);
    assert_eq!(poller.poll_window(14), Some((13, 14)));
}

#[test]
fn ws_and_http_yield_the_same_sequence() {
    // a mock chain producing one log per block from 5 to 9
    let chain: Vec<(u64, u32)> = (5..=9).map(|b| (b, b as u32 * 10)).collect();
    let anchor = 4;
    let tips = [5, 5, 7, 7, 9];
    let polled = poll_all(&chain, anchor, &tips);
    let pushed = ws_all(&chain, anchor + 1, 9);
    assert_eq!(polled, pushed);
    assert_eq!(polled.len(), 5);
}

#[test]
fn stalled_tip_yields_nothing_new() {
    let chain: Vec<(u64, u32)> = vec![(5, 1), (6, 2)];
    let polled = poll_all(&chain, 6, &[6, 6, 6]);
    assert!(polled.is_empty());
}

#[test]
fn bursty_tips_and_steady_tips_agree() {
    let chain: Vec<(u64, u32)> = (1..=12).map(|b| (b, b as u32)).collect();
    let steady = poll_all(&chain, 0, &[1, 2, 3, 4, 5, 6, 7, 8, 9, 10, 11, 12]);
    let bursty = poll_all(&chain, 0, &[3, 12]);
    assert_eq!(steady, bursty);
    assert_eq!(steady, ws_all(&chain, 1, 12));
}
