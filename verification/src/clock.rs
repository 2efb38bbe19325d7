//! Wall-clock access for creation timestamps and the identifier generator.

use vstd::prelude::*;

verus! {

/// Relies on chrono's `Utc::now` and `DateTime::timestamp_millis`: the
/// current wall-clock time in milliseconds since the Unix epoch.  The value
/// depends on the machine's clock, so nothing is assumed of it; every caller
/// must hold for every outcome.
#[verifier::external_body]
pub(crate) fn now_millis() -> i64 {
    chrono::Utc::now().timestamp_millis()
}

} // verus!
