//! The collection window given on the command line as a human-readable
//! duration (`2h 37min`, `3d`).
use vstd::prelude::*;

use crate::text::chars_of;

verus! {

/// One day, in nanoseconds: the window when none is given or it cannot be read.
pub const DEFAULT_WINDOW_NANOS: i128 = 86_400_000_000_000;

/// The duration that a human-readable string denotes, as whole seconds and
/// the remaining nanoseconds, or `None` when the string is not a duration.
pub uninterp spec fn humantime_duration(s: Seq<char>) -> Option<(u64, u32)>;

/// Longest duration text that is read. Longer texts are refused before they
/// reach the parser, which can panic on a few very long inputs (a total of
/// `u64::MAX` seconds whose sub-second parts add up to exactly one second).
pub const MAX_DURATION_CHARS: usize = 20;

/// Relies on `humantime::parse_duration`: reads a duration such as
/// `2h 37min`; `"0"` is zero and an empty string is not a duration. The
/// nanoseconds are `Duration::subsec_nanos`, below one second.
#[verifier::external_body]
fn parse_duration(s: &str) -> (r: Option<(u64, u32)>)
    requires
        s@.len() <= MAX_DURATION_CHARS,
    ensures
        r == humantime_duration(s@),
        s@.len() == 0 ==> r is None,
        s@ == "0"@ ==> r == Some((0u64, 0u32)),
        r matches Some(p) ==> p.1 < 1_000_000_000,
{
    match humantime::parse_duration(s) {
        Ok(d) => Some((d.as_secs(), d.subsec_nanos())),
        Err(_) => None,
    }
}

/// The window, in nanoseconds, for a parsed duration: one day when the
/// duration could not be read or does not fit a signed count of seconds.
pub open spec fn window_of(parsed: Option<(u64, u32)>) -> i128 {
    match parsed {
        None => DEFAULT_WINDOW_NANOS,
        Some(p) => if p.0 > i64::MAX {
            DEFAULT_WINDOW_NANOS
        } else {
            (p.0 * 1_000_000_000 + p.1) as i128
        },
    }
}

/// The window, in nanoseconds, for a parsed duration.
pub fn window_from_parsed(parsed: Option<(u64, u32)>) -> (r: i128)
    requires
        parsed matches Some(p) ==> p.1 < 1_000_000_000,
    ensures
        r == window_of(parsed),
{
    match parsed {
        None => DEFAULT_WINDOW_NANOS,
        Some((secs, nanos)) => {
            if secs > i64::MAX as u64 {
                DEFAULT_WINDOW_NANOS
            } else {
                (secs as i128) * 1_000_000_000 + nanos as i128
            }
        },
    }
}

/// The collection window, in nanoseconds: the duration given, or one day
/// when none is given, when it is longer than `MAX_DURATION_CHARS`
/// characters, or when it cannot be read.
pub fn get_duration(duration_str: &Option<String>) -> (r: i128)
    ensures
        duration_str is None ==> r == DEFAULT_WINDOW_NANOS,
        duration_str matches Some(s) ==> r == if s@.len() > MAX_DURATION_CHARS {
            DEFAULT_WINDOW_NANOS
        } else {
            window_of(humantime_duration(s@))
        },
{
    match duration_str {
        None => DEFAULT_WINDOW_NANOS,
        Some(s) => {
            let chars = chars_of(s.as_str());
            if chars.len() > MAX_DURATION_CHARS {
                return DEFAULT_WINDOW_NANOS;
            }
            let parsed = parse_duration(s.as_str());
            window_from_parsed(parsed)
        },
    }
}

} // verus!
