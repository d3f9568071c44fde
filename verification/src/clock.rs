use vstd::prelude::*;

verus! {

/// Reads the wall clock: calls `chrono::Utc::now()` and returns `timestamp_micros()` of it.
/// Nothing is promised of the value: it is whatever time the machine reports.
#[verifier::external_body]
pub(crate) fn now_micros() -> (now: i64) {
    chrono::Utc::now().timestamp_micros()
}

} // verus!
