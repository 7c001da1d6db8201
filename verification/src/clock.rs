//! The time of day, for the functions that stamp what they do.

use vstd::prelude::*;

verus! {

/// `chrono::Utc::now`, in the notation of RFC 3339 (`to_rfc3339`). The time
/// differs from one call to the next, so nothing is claimed of the result.
#[verifier::external_body]
pub(crate) fn current_time() -> (now: String) {
    chrono::Utc::now().to_rfc3339()
}

} // verus!
