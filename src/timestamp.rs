//! Instants as whole seconds since the Unix epoch, and the calendar library
//! calls behind them.
use vstd::prelude::*;

verus! {

/// Seconds in a day.
pub const SECONDS_PER_DAY: i64 = 86400;

/// The earliest whole second the calendar represents (in year -262143).
pub const MIN_TIMESTAMP: i64 = -8334601228800;

/// The latest whole second the calendar represents (the end of year 262142).
pub const MAX_TIMESTAMP: i64 = 8210266876799;

/// Whether the calendar represents the instant `seconds`.
pub open spec fn in_calendar(seconds: int) -> bool {
    MIN_TIMESTAMP <= seconds <= MAX_TIMESTAMP
}

/// Relies on `chrono::DateTime::from_timestamp` (whole seconds) and
/// `DateTime::timestamp`: `Some` of the same count exactly where the instant
/// lies between the calendar's first and last day.
#[verifier::external_body]
pub(crate) fn representable(seconds: i64) -> (r: Option<i64>)
    ensures
        r == if in_calendar(seconds as int) {
            Some(seconds)
        } else {
            None
        },
{
    chrono::DateTime::from_timestamp(seconds, 0).map(|d| d.timestamp())
}

/// The date a commit is filed under: its epoch seconds with its UTC offset
/// added. `None` where the calendar cannot represent the seconds, or the sum
/// does not fit.
pub fn offset_date(seconds: i64, offset_minutes: i32) -> (r: Option<i64>)
    ensures
        r is Some <==> (in_calendar(seconds as int) && i64::MIN <= seconds + 60 * offset_minutes
            <= i64::MAX),
        r matches Some(d) ==> d == seconds + 60 * offset_minutes,
{
    match representable(seconds) {
        Some(s) => s.checked_add(60 * (offset_minutes as i64)),
        None => None,
    }
}

} // verus!
