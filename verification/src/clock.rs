use vstd::prelude::*;

verus! {

/// Relies on chrono::Utc::now, read out through
/// chrono::DateTime::timestamp_millis as milliseconds since the Unix epoch.
/// Nothing is promised of the reading: every caller must hold for every
/// value the clock can hand back.
#[verifier::external_body]
fn wall_clock_millis() -> (t: i64) {
    chrono::Utc::now().timestamp_millis()
}

/// The wall clock in milliseconds, clamped below at zero so that the state
/// machines can work in unsigned arithmetic.
pub fn now_millis() -> u64 {
    let t = wall_clock_millis();
    if t < 0 {
        0
    } else {
        t as u64
    }
}

} // verus!
