//! The wall clock.

use std::time::{Duration, SystemTime};
use vstd::prelude::*;

verus! {

/// `std::time::SystemTime`, carried as it is.
#[verifier::external_type_specification]
#[verifier::external_body]
pub struct ExSystemTime(std::time::SystemTime);

/// `SystemTime::now` reads the clock; nothing is claimed of what it shows.
pub assume_specification[ SystemTime::now ]() -> SystemTime;

/// `Duration::as_secs` gives the whole seconds of a span of time; nothing is claimed of
/// how many a span that the clock gave holds.
pub assume_specification[ Duration::as_secs ](d: &Duration) -> u64;

/// `SystemTime::duration_since`, from the Unix epoch on; an error (the time lies before the
/// epoch) becomes `None`. Nothing is claimed of the span.
#[verifier::external_body]
fn since_epoch(t: &SystemTime) -> (r: Option<Duration>) {
    t.duration_since(std::time::UNIX_EPOCH).ok()
}

/// The Unix time, in seconds, at which the clock shows `elapsed` seconds since the epoch, or
/// a time before the epoch.
pub open spec fn unix_time(elapsed: Option<u64>) -> i64 {
    match elapsed {
        Some(s) => if s <= i64::MAX {
            s as i64
        } else {
            i64::MAX
        },
        None => 0,
    }
}

/// The Unix time that a reading of the clock stands for.
pub fn unix_seconds(elapsed: Option<u64>) -> (r: i64)
    ensures
        r == unix_time(elapsed),
{
    match elapsed {
        Some(s) => if s <= i64::MAX as u64 {
            s as i64
        } else {
            i64::MAX
        },
        None => 0,
    }
}

/// The current Unix time in seconds; 0 where the clock stands before 1970.
pub fn unix_now() -> (r: i64)
    ensures
        0 <= r,
{
    let now = SystemTime::now();
    let elapsed: Option<u64> = match since_epoch(&now) {
        Some(d) => Some(d.as_secs()),
        None => None,
    };
    unix_seconds(elapsed)
}

} // verus!
