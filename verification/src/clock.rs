//! The wall clock that stamps transactions and blocks.

use vstd::prelude::*;

verus! {

/// Reads the system clock with `chrono::Utc::now` and converts the instant
/// with `chrono::DateTime::timestamp_millis`.
///
/// Trusted: the reading is not negative, since `Utc::now` measures the time
/// elapsed since the Unix epoch and does not return for a clock set before
/// it. Two readings need not agree, so nothing more is claimed.
#[verifier::external_body]
fn utc_now_millis() -> (ms: i64)
    ensures
        ms >= 0,
{
    chrono::Utc::now().timestamp_millis()
}

/// The current time in milliseconds since the Unix epoch.
pub fn now() -> (timestamp: u128)
    ensures
        timestamp <= i64::MAX,
{
    let ms: i64 = utc_now_millis();
    ms as u128
}

} // verus!
