//! Shell history records and the choice of the recent ones.
use vstd::prelude::*;

verus! {

/// A shell history record as the history store keeps it.
pub struct ShellRecord {
    /// When the command ran, in nanoseconds since the Unix epoch.
    pub timestamp: i128,
    /// How long it ran, in nanoseconds; negative when unknown.
    pub duration: i64,
    pub hostname: String,
    pub cwd: String,
    pub command: String,
    pub exit: i64,
    pub session: String,
    /// Whether the record was deleted.
    pub deleted: bool,
}

/// Whether a record is kept: not deleted, and not older than `cutoff`.
pub open spec fn is_recent(r: ShellRecord, cutoff: i128) -> bool {
    !r.deleted && r.timestamp >= cutoff
}

/// Indices of the kept records among the first `upto`, ascending.
pub open spec fn recent_upto(records: Seq<ShellRecord>, cutoff: i128, upto: int) -> Seq<usize>
    decreases upto,
{
    if upto <= 0 {
        Seq::empty()
    } else if is_recent(records[upto - 1], cutoff) {
        recent_upto(records, cutoff, upto - 1).push((upto - 1) as usize)
    } else {
        recent_upto(records, cutoff, upto - 1)
    }
}

/// The indices of the records that are not deleted and ran at or after
/// `cutoff` (nanoseconds since the Unix epoch), in order.
pub fn filter_recent_history(records: &Vec<ShellRecord>, cutoff: i128) -> (r: Vec<usize>)
    ensures
        r@ == recent_upto(records@, cutoff, records.len() as int),
{
    let mut r: Vec<usize> = Vec::new();
    for i in 0..records.len()
        invariant
            r@ == recent_upto(records@, cutoff, i as int),
    {
        let rec = &records[i];
        if !rec.deleted && rec.timestamp >= cutoff {
            r.push(i);
        }
    }
    r
}

/// The duration of a record as reported: unknown (negative) durations count
/// as zero.
pub fn reported_duration(r: &ShellRecord) -> (d: i64)
    ensures
        d == if r.duration < 0 {
            0
        } else {
            r.duration
        },
{
    if r.duration < 0 {
        0
    } else {
        r.duration
    }
}

} // verus!
