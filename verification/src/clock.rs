use vstd::prelude::*;

verus! {

/// Relies on chrono's `Local::now` for the current time as milliseconds
/// since the epoch. Nothing is promised of the value: callers state what
/// holds whatever time comes back.
#[verifier::external_body]
pub(crate) fn now_millis() -> i64 {
    chrono::Local::now().timestamp_millis()
}

} // verus!
