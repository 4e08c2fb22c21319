//! The current time, read through the `time` crate.

use crate::attr::Timestamp;
use vstd::prelude::*;

verus! {

/// Relies on `time::get_time`: the wall-clock time, built through
/// `Timespec::new`, which asserts `0 <= nsec < 1_000_000_000`.
#[verifier::external_body]
pub(crate) fn current_time() -> (r: Timestamp)
    ensures
        0 <= r.nsec < 1_000_000_000,
{
    let t = time::get_time();
    Timestamp { sec: t.sec, nsec: t.nsec }
}

} // verus!
