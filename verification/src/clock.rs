//! Wall clock access for creation and modification stamps.
use vstd::prelude::*;

verus! {

/// Relies on chrono's Utc::now: the current time as seconds since the epoch.
/// Nothing is assumed of the value; callers state what holds of every
/// outcome.
#[verifier::external_body]
pub fn now_timestamp() -> (r: i64) {
    chrono::Utc::now().timestamp()
}

} // verus!
