//! The few places where the library leans on outside code: Unicode case
//! folding from std, and local-timezone date rendering from chrono.

use vstd::prelude::*;
use crate::time::Timestamp;

verus! {

/// What `str::to_lowercase` returns for a given character sequence.
pub uninterp spec fn lower_of(s: Seq<char>) -> Seq<char>;

/// Relies on std's `str::to_lowercase`: Unicode lowercasing, independent of
/// locale and environment, so the result is a function of the characters
/// alone; an empty string stays empty.
#[verifier::external_body]
pub(crate) fn lowercase(s: &str) -> (r: String)
    ensures
        r@ == lower_of(s@),
        s@.len() == 0 ==> r@.len() == 0,
{
    s.to_lowercase()
}

/// Relies on chrono: the civil UTC fields rebuilt as a `DateTime<Utc>`
/// (`TimeZone::with_ymd_and_hms`), shifted to the machine's local timezone
/// (`DateTime::with_timezone`), and rendered as a year-month-day date
/// (`DateTime::format` with `"%Y-%m-%d"`). The text depends on the machine's
/// timezone, so nothing is promised of it; a timestamp naming no real
/// calendar day renders as the empty string.
#[verifier::external_body]
pub(crate) fn local_date_string(ts: &Timestamp) -> String {
    let built = chrono::TimeZone::with_ymd_and_hms(
        &chrono::Utc,
        ts.year as i32,
        ts.month as u32,
        ts.day as u32,
        ts.hour as u32,
        ts.minute as u32,
        ts.second as u32,
    );
    match built.single() {
        Some(dt) => dt.with_timezone(&chrono::Local).format("%Y-%m-%d").to_string(),
        None => String::new(),
    }
}

} // verus!
