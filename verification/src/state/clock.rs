use vstd::prelude::*;

verus! {

/// Largest timestamp magnitude, in whole seconds since the Unix epoch, that
/// the scheduling arithmetic accepts; the wall clock is clamped into this
/// range before any computation uses it.
pub const MAX_TIME: i64 = 100_000_000_000_000;

/// A timestamp the scheduler can work with.
pub open spec fn valid_time(t: i64) -> bool {
    -MAX_TIME <= t <= MAX_TIME
}

/// Relies on std's `SystemTime::now` and `SystemTime::duration_since`: the
/// wall clock as whole seconds since the Unix epoch, negative when the
/// clock reads before the epoch. Both arms of `duration_since` are handled
/// and the seconds are saturated into `i64`, so no clock state panics
/// here; nothing is promised of the value, and `now_seconds` clamps it
/// before anything computes with it.
#[verifier::external_body]
fn now_seconds_raw() -> i64 {
    match std::time::SystemTime::now().duration_since(std::time::UNIX_EPOCH) {
        Ok(elapsed) => i64::try_from(elapsed.as_secs()).unwrap_or(i64::MAX),
        Err(earlier) => i64::try_from(earlier.duration().as_secs()).map_or(i64::MIN, |s| -s),
    }
}

/// The wall clock, clamped into the range the scheduling arithmetic accepts.
pub fn now_seconds() -> (r: i64)
    ensures
        valid_time(r),
{
    let t: i64 = now_seconds_raw();
    if t > MAX_TIME {
        MAX_TIME
    } else if t < -MAX_TIME {
        -MAX_TIME
    } else {
        t
    }
}

} // verus!
