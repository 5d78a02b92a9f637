//! The wall clock, read in whole seconds.

use vstd::prelude::*;

verus! {

/// The current time as seconds since the Unix epoch, read with
/// `chrono::Utc::now` and converted with `DateTime::timestamp`.
///
/// Nothing is claimed of the value: it is whatever the system clock says.
/// The call panics if the system clock stands before the epoch.
#[verifier::external_body]
pub(crate) fn unix_now() -> (now: i64) {
    chrono::Utc::now().timestamp()
}

} // verus!
