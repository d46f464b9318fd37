//! Derivation of report values from a stored log: per-entry split and lap
//! durations, and the single-point "elapsed now" query.
//!
//! A split is the time from the first entry (the start marker) to a given
//! entry; a lap is the time from the immediately preceding entry.  Both
//! are signed nanosecond differences: timestamps supplied out of order
//! simply yield negative values.

use vstd::prelude::*;
use vstd::string::StringExecFns;

use crate::codec::LogEntry;
use crate::errors::SwError;
use crate::numtext::{dec_str, u64_to_dec};

verus! {

/// One derived report row: an entry's label with its split and lap
/// durations in nanoseconds.
#[derive(Clone, Debug)]
pub struct DerivedTime {
    pub label: String,
    pub split_ns: i128,
    pub lap_ns: i128,
}

/// The split of entry `k`: its distance from the first entry.
pub open spec fn split_ns_at(log: Seq<LogEntry>, k: int) -> int {
    log[k].timestamp - log[0].timestamp
}

/// The lap of entry `k`: its distance from the entry before it.
pub open spec fn lap_ns_at(log: Seq<LogEntry>, k: int) -> int {
    log[k].timestamp - log[k - 1].timestamp
}

/// The first position at or after `k` whose entry carries `label`, if
/// any.
pub open spec fn find_label_from(log: Seq<LogEntry>, label: Seq<char>, k: int) -> Option<int>
    decreases log.len() - k,
{
    if k < 0 || k >= log.len() {
        None
    } else if log[k].label@ == label {
        Some(k)
    } else {
        find_label_from(log, label, k + 1)
    }
}

/// The derived row for every entry after the start marker, in order.
/// A log holding only the start marker yields no rows.
pub fn all_times(log: &Vec<LogEntry>) -> (r: Vec<DerivedTime>)
    requires
        log@.len() >= 1,
    ensures
        r@.len() == log@.len() - 1,
        forall|k: int| 0 <= k < r@.len() ==> (#[trigger] r@[k]).label@ == log@[k + 1].label@
            && r@[k].split_ns == split_ns_at(log@, k + 1) && r@[k].lap_ns == lap_ns_at(log@, k + 1),
{
    let mut r: Vec<DerivedTime> = Vec::new();
    let start: u64 = log[0].timestamp;
    let mut k: usize = 1;
    while k < log.len()
        invariant
            1 <= k <= log@.len(),
            start == log@[0].timestamp,
            r@.len() == k - 1,
            forall|j: int| 0 <= j < r@.len() ==> (#[trigger] r@[j]).label@ == log@[j + 1].label@
                && r@[j].split_ns == split_ns_at(log@, j + 1) && r@[j].lap_ns == lap_ns_at(
                log@,
                j + 1,
            ),
        decreases log@.len() - k,
    {
        let split_ns: i128 = log[k].timestamp as i128 - start as i128;
        let lap_ns: i128 = log[k].timestamp as i128 - log[k - 1].timestamp as i128;
        let label = log[k].label.clone();
        r.push(DerivedTime { label, split_ns, lap_ns });
        k = k + 1;
    }
    r
}

/// The synthetic "elapsed now" row: split and lap measured from the
/// supplied current time against the first and last stored entries, under
/// the label the next default-labeled record would get.
pub fn elapsed_now(log: &Vec<LogEntry>, now: u64) -> (r: DerivedTime)
    requires
        log@.len() >= 1,
    ensures
        r.label@ == dec_str(log@.len() as nat),
        r.split_ns == now - log@[0].timestamp,
        r.lap_ns == now - log@[log@.len() - 1].timestamp,
{
    let label = u64_to_dec(log.len() as u64);
    let split_ns: i128 = now as i128 - log[0].timestamp as i128;
    let lap_ns: i128 = now as i128 - log[log.len() - 1].timestamp as i128;
    DerivedTime { label, split_ns, lap_ns }
}

/// The derived row for the first entry carrying the requested label, or
/// `InvalidLabel` when no entry after the start marker does.
pub fn elapsed_at_label(log: &Vec<LogEntry>, label: &str) -> (r: Result<DerivedTime, SwError>)
    requires
        log@.len() >= 1,
    ensures
        match find_label_from(log@, label@, 1) {
            None => r matches Err(e) && e matches SwError::InvalidLabel(l) && l@ == label@,
            Some(k) => r matches Ok(t) && t.label@ == label@ && t.split_ns == split_ns_at(log@, k)
                && t.lap_ns == lap_ns_at(log@, k),
        },
{
    let owned = label.to_owned();
    let start: u64 = log[0].timestamp;
    let mut k: usize = 1;
    while k < log.len()
        invariant
            1 <= k <= log@.len(),
            owned@ == label@,
            start == log@[0].timestamp,
            find_label_from(log@, label@, 1) == find_label_from(log@, label@, k as int),
        decreases log@.len() - k,
    {
        if log[k].label == owned {
            let split_ns: i128 = log[k].timestamp as i128 - start as i128;
            let lap_ns: i128 = log[k].timestamp as i128 - log[k - 1].timestamp as i128;
            return Ok(DerivedTime { label: owned, split_ns, lap_ns });
        }
        k = k + 1;
    }
    Err(SwError::InvalidLabel(owned))
}

} // verus!
