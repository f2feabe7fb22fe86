//! Timestamp unit conversions.
use vstd::prelude::*;

verus! {

/// Converts seconds to nanoseconds.
pub fn timestamp_secs_to_nsecs(secs: i64) -> (r: i128)
    ensures
        r == secs * 1_000_000_000,
{
    (secs as i128) * 1_000_000_000
}

} // verus!
