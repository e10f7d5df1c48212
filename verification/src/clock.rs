//! Wall-clock readings and timestamp rendering.
//!
//! Timestamps travel through the library as milliseconds since the Unix
//! epoch, clamped to a range that every formatter accepts.

use vstd::prelude::*;

verus! {

/// Highest timestamp the library handles: 9999-12-31T23:59:59.999Z.
pub const MAX_TIMESTAMP_MS: i64 = 253_402_300_799_999;

/// The RFC 3339 rendering of a millisecond timestamp.
pub uninterp spec fn rfc3339_of(ms: int) -> Seq<char>;

/// Relies on chrono's `Utc::now`: milliseconds elapsed since the Unix epoch.
#[verifier::external_body]
fn clock_now_millis() -> i64 {
    chrono::Utc::now().timestamp_millis()
}

/// The current time in milliseconds, clamped into the library's range.
pub fn current_time_millis() -> (r: i64)
    ensures
        0 <= r <= MAX_TIMESTAMP_MS,
{
    let t = clock_now_millis();
    if t < 0 {
        0
    } else if t > MAX_TIMESTAMP_MS {
        MAX_TIMESTAMP_MS
    } else {
        t
    }
}

/// Relies on chrono's `DateTime::to_rfc3339`: the rendering is a function of
/// the timestamp alone.
#[verifier::external_body]
pub fn format_rfc3339(ms: i64) -> (r: String)
    requires
        0 <= ms <= MAX_TIMESTAMP_MS,
    ensures
        r@ == rfc3339_of(ms as int),
{
    chrono::DateTime::<chrono::Utc>::from_timestamp_millis(ms).unwrap().to_rfc3339()
}

} // verus!
