//! The clock by which deadlines are set and judged.

use std::time::UNIX_EPOCH;
use vstd::prelude::*;

verus! {

/// Asks `std::time::SystemTime::elapsed`, on the Unix epoch, how long ago the
/// epoch was, and gives the answer in whole nanoseconds; `None` where the
/// system clock stands before the epoch. Nothing is taken for granted about
/// the answer: two readings may differ in either direction.
#[verifier::external_body]
fn since_epoch() -> Option<u128> {
    match UNIX_EPOCH.elapsed() {
        Ok(elapsed) => Some(elapsed.as_nanos()),
        Err(_) => None,
    }
}

/// Reads the system clock in nanoseconds since the Unix epoch. A clock
/// that stands before the epoch reads as the epoch, and one that has run
/// past what a `u64` holds reads as the largest `u64`.
pub(crate) fn now_nanos() -> u64 {
    instant_of(since_epoch())
}

/// The instant, in nanoseconds since the Unix epoch, for which a reading
/// of the clock stands: the nanoseconds that were read, the largest `u64`
/// where they are more than a `u64` holds, and the epoch itself where the
/// clock stood before it.
pub open spec fn instant_for(reading: Option<u128>) -> u64 {
    match reading {
        Some(nanos) => if nanos > u64::MAX {
            u64::MAX
        } else {
            nanos as u64
        },
        None => 0,
    }
}

/// Works out the instant for which a reading of the clock stands.
pub(crate) fn instant_of(reading: Option<u128>) -> (instant: u64)
    ensures
        instant == instant_for(reading),
{
    match reading {
        Some(nanos) => if nanos > u64::MAX as u128 {
            u64::MAX
        } else {
            nanos as u64
        },
        None => 0,
    }
}

} // verus!
