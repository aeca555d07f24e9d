//! The one nondeterministic input of the collector: the current wall-clock
//! time, read through `chrono`.

use vstd::prelude::*;

verus! {

/// Relies on chrono::Utc::now and chrono::DateTime::timestamp: the current
/// time as whole seconds since the Unix epoch. The result depends on the
/// wall clock, so nothing is promised of it; callers state what holds of
/// every outcome.
#[verifier::external_body]
pub(crate) fn now_timestamp() -> i64 {
    chrono::Utc::now().timestamp()
}

} // verus!
