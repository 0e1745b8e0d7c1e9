use vstd::prelude::*;

use chrono::{Datelike, Timelike};

use crate::timestamp::{format_payload, lemma_payload_single_newline, payload, Timestamp, NEWLINE};

verus! {

/// Relies on chrono's `From<SystemTime> for DateTime<Local>` for the current
/// local time (a clock before 1970 included), read through
/// `Datelike::{year, month, day}`, `Timelike::{hour, minute, second, nanosecond}`
/// and `FixedOffset::local_minus_utc`, whose documented ranges are those of `wf`.
/// chrono still panics where the system's time-zone data cannot be resolved, or
/// on a clock reading beyond the years it represents (about 262 000 either side
/// of year 0): a broken system setup, not a clock value that occurs.
#[verifier::external_body]
fn local_now() -> (r: Timestamp)
    ensures
        r.wf(),
{
    let now = chrono::DateTime::<chrono::Local>::from(std::time::SystemTime::now());
    Timestamp {
        year: now.year(),
        month: now.month(),
        day: now.day(),
        hour: now.hour(),
        minute: now.minute(),
        second: now.second(),
        nanosecond: now.nanosecond(),
        offset_seconds: now.offset().local_minus_utc(),
    }
}

/// The payload for the current local time: the rendering of some clock
/// reading, followed by its only newline.
pub fn now_str_bytes() -> (r: Vec<u8>)
    ensures
        exists|t: Timestamp| t.wf() && r@ == payload(t),
        r@.len() > 0,
        r@.last() == NEWLINE,
        forall|i: int| 0 <= i < r@.len() - 1 ==> r@[i] != NEWLINE,
{
    let now = local_now();
    proof {
        lemma_payload_single_newline(now);
    }
    format_payload(&now)
}

} // verus!
