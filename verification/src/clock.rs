//! The time of day, as text.

use vstd::prelude::*;

verus! {

/// The current time in UTC as an RFC 3339 string, from
/// `chrono::Utc::now()` and `chrono::DateTime::to_rfc3339`.
///
/// Nothing is claimed of the result: it depends on the system clock, so two
/// calls may differ. `Utc::now` panics if the system clock stands before the
/// Unix epoch.
#[verifier::external_body]
pub(crate) fn current_timestamp() -> String {
    chrono::Utc::now().to_rfc3339()
}

} // verus!
