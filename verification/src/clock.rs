//! The time of day, as the `chrono` crate reads it.

use vstd::prelude::*;

verus! {

/// Reads the clock with `chrono::Utc::now` and formats the moment with
/// `DateTime::to_rfc3339`. Nothing is claimed of the text: it differs from
/// call to call. `Utc::now` panics on a machine whose clock stands before the
/// year 1970.
#[verifier::external_body]
pub(crate) fn now_rfc3339() -> (now: String) {
    chrono::Utc::now().to_rfc3339()
}

} // verus!
