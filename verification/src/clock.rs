//! Wall-clock access for timestamping job records.

use vstd::prelude::*;

verus! {

/// Relies on chrono's `Utc::now` and `DateTime::timestamp_millis`: the
/// current Unix time in milliseconds. The result depends on the wall clock,
/// so nothing is promised of its value.
#[verifier::external_body]
pub(crate) fn now_millis() -> i64 {
    chrono::Utc::now().timestamp_millis()
}

} // verus!
