//! Calendar-date handling.
//!
//! Callers hand dates to the library as `YYYY-MM-DD` strings; internally
//! every sync and analytics decision is made on Unix seconds.  The
//! conversion is delegated to `chrono`.
use vstd::prelude::*;

verus! {

/// What `chrono` computes for a calendar date string: the Unix timestamp,
/// in seconds, of that date's midnight (UTC), or `None` when the string is
/// not a valid `YYYY-MM-DD` date.  The result is a function of the string
/// alone.
pub uninterp spec fn day_sec_of(s: Seq<char>) -> Option<int>;

/// Relies on `chrono::NaiveDate::parse_from_str` with the `%Y-%m-%d`
/// format, and on `NaiveDateTime::and_utc().timestamp()`: both are pure
/// functions of the string, and parsing fails exactly on strings that are
/// not valid calendar dates in that format.
#[verifier::external_body]
pub(crate) fn parse_day_sec(s: &String) -> (r: Option<i64>)
    ensures
        match r {
            Some(v) => day_sec_of(s@) == Some(v as int),
            None => day_sec_of(s@) is None,
        },
{
    match chrono::NaiveDate::parse_from_str(s.as_str(), "%Y-%m-%d") {
        Ok(d) => match d.and_hms_opt(0, 0, 0) {
            Some(dt) => Some(dt.and_utc().timestamp()),
            None => None,
        },
        Err(_) => None,
    }
}

} // verus!
