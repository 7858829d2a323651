//! The calendar facts the library takes from `chrono`.
//!
//! Everything here is believed, not proved: each function hands plain values to
//! `chrono` and plain values back, and its contract repeats what `chrono`
//! documents.

use chrono::{Datelike, TimeZone, Utc};
use vstd::prelude::*;

verus! {

/// Midnight at the start of the last calendar day `chrono` can represent
/// (31 December of the year 262142), in milliseconds since the Unix epoch.
pub const LAST_MIDNIGHT_MILLIS: i64 = 8_210_266_790_400_000;

/// The day of the month, from 1, of the UTC calendar date that holds the
/// instant `millis` milliseconds after the Unix epoch.
pub uninterp spec fn utc_day_of_month(millis: int) -> int;

/// The text `chrono` writes for the UTC instant `millis` milliseconds after the
/// Unix epoch under the strftime pattern `pattern`.
pub uninterp spec fn utc_formatted(millis: int, pattern: Seq<char>) -> Seq<char>;

/// The three strftime patterns the library writes labels with.
pub open spec fn is_label_pattern(pattern: Seq<char>) -> bool {
    pattern == "%m/%d/%y"@ || pattern == "%B %d"@ || pattern == "%A"@
}

/// Calls `Datelike::day` on the `DateTime<Utc>` that `TimeZone::timestamp_millis_opt`
/// builds for `millis`.
///
/// Believed: the instant is within `chrono`'s range, so the date exists; the
/// result is that date's day of the month, which `chrono` documents as lying
/// between 1 and 31.
#[verifier::external_body]
pub(crate) fn day_of_month_at(millis: i64) -> (r: u32)
    requires
        0 <= millis <= LAST_MIDNIGHT_MILLIS,
    ensures
        r == utc_day_of_month(millis as int),
        1 <= r <= 31,
{
    Utc.timestamp_millis_opt(millis).single().unwrap().day()
}

/// Calls `DateTime::format` with `pattern` on the `DateTime<Utc>` that
/// `TimeZone::timestamp_millis_opt` builds for `millis`, and collects the text.
///
/// Believed: the instant is within `chrono`'s range and the pattern is one of
/// three that `chrono` accepts, so formatting succeeds; each of the three
/// writes a month, a day or a weekday name, so the text is never empty.
#[verifier::external_body]
pub(crate) fn format_at(millis: i64, pattern: &str) -> (r: String)
    requires
        0 <= millis <= LAST_MIDNIGHT_MILLIS,
        is_label_pattern(pattern@),
    ensures
        r@ == utc_formatted(millis as int, pattern@),
        r@.len() > 0,
{
    Utc.timestamp_millis_opt(millis).single().unwrap().format(pattern).to_string()
}

/// Calls `Utc::now` and `DateTime::timestamp`: the wall clock, in whole
/// seconds since the Unix epoch. Nothing is claimed of the value. `chrono`
/// gives up on a machine whose clock stands before 1970.
#[verifier::external_body]
pub(crate) fn wall_clock_seconds() -> (r: i64) {
    Utc::now().timestamp()
}

} // verus!
