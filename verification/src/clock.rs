//! The time of a merge, as text.

use vstd::prelude::*;

verus! {

/// The local time of the call as an RFC 3339 string, by
/// `chrono::Local::now().to_rfc3339()`. The text depends on the clock and on
/// the machine's time zone, so nothing is claimed of it.
#[verifier::external_body]
pub(crate) fn now_rfc3339() -> (stamp: String) {
    chrono::Local::now().to_rfc3339()
}

} // verus!
