//! The one place the crate asks the environment for anything: the calendar
//! year of the current instant, used as the reference year of heat maps.

use chrono::Datelike;
use vstd::prelude::*;

verus! {

/// Relies on chrono's Utc::now and Datelike::year: the year of the current
/// UTC date. It depends on the system clock, so nothing is promised of it;
/// every consumer is verified for all year values.
#[verifier::external_body]
pub(crate) fn current_year() -> i32 {
    chrono::Utc::now().date_naive().year()
}

} // verus!
