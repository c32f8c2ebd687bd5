//! Calendar dates and the reading of stored times.
//!
//! A point in time is a number of milliseconds since the start of 1970, UTC.
use chrono::Datelike;
use vstd::prelude::*;

use crate::cache::QuotaWindow;
use crate::text::{trim, trimmed};

verus! {

/// The year, month and day, in UTC, of a point in time that chrono can represent.
pub uninterp spec fn calendar_date_of(ms: i64) -> Option<(i32, u32, u32)>;

/// `chrono::DateTime::from_timestamp_millis` with `year`, `month` and `day` of its result: they
/// depend on the point in time alone.
#[verifier::external_body]
fn calendar_date(ms: i64) -> (r: Option<(i32, u32, u32)>)
    ensures
        r == calendar_date_of(ms),
{
    chrono::DateTime::from_timestamp_millis(ms).map(|d| (d.year(), d.month(), d.day()))
}

/// The point in time that a text names under a format of `NaiveDateTime::parse_from_str`, read
/// as UTC.
pub uninterp spec fn parsed_in_format(text: Seq<char>, format: Seq<char>) -> Option<i64>;

/// `chrono::NaiveDateTime::parse_from_str`: its result depends on the text and the format alone.
#[verifier::external_body]
fn parse_in_format(text: &str, format: &str) -> (r: Option<i64>)
    ensures
        r == parsed_in_format(text@, format@),
{
    chrono::NaiveDateTime::parse_from_str(text, format).ok().map(|d| d.and_utc().timestamp_millis())
}

/// The point in time that a text names in the notation of RFC 3339.
pub uninterp spec fn parsed_rfc3339(text: Seq<char>) -> Option<i64>;

/// `chrono::DateTime::parse_from_rfc3339`: its result depends on the text alone.
#[verifier::external_body]
fn parse_rfc3339(text: &str) -> (r: Option<i64>)
    ensures
        r == parsed_rfc3339(text@),
{
    chrono::DateTime::parse_from_rfc3339(text).ok().map(|d| d.timestamp_millis())
}

/// The first reading of a stored time that succeeds.
pub open spec fn first_reading(stored: Option<i64>, rfc3339: Option<i64>) -> Option<i64> {
    match stored {
        Some(ms) => Some(ms),
        None => rfc3339,
    }
}

/// The first reading of a stored time that succeeds.
pub fn choose_reading(stored: Option<i64>, rfc3339: Option<i64>) -> (r: Option<i64>)
    ensures
        r == first_reading(stored, rfc3339),
{
    match stored {
        Some(ms) => Some(ms),
        None => rfc3339,
    }
}

/// What a stored time means.
pub open spec fn spec_db_datetime(s: Seq<char>) -> Option<i64> {
    first_reading(
        parsed_in_format(trim(s), "%Y-%m-%d %H:%M:%S"@),
        parsed_rfc3339(trim(s)),
    )
}

/// Reads a stored time: a date and a time of day, or the notation of RFC 3339; white space
/// around it is ignored.
pub fn parse_db_datetime(s: &str) -> (r: Option<i64>)
    ensures
        r == spec_db_datetime(s@),
{
    let t = trimmed(s);
    choose_reading(parse_in_format(t.as_str(), "%Y-%m-%d %H:%M:%S"), parse_rfc3339(t.as_str()))
}

/// The two dates lie in different periods of the window.
pub open spec fn dates_differ(
    window: QuotaWindow,
    last: Option<(i32, u32, u32)>,
    now: Option<(i32, u32, u32)>,
) -> bool {
    match window {
        QuotaWindow::Total => false,
        QuotaWindow::Day => last != now,
        QuotaWindow::Month => match (last, now) {
            (Some(a), Some(b)) => a.0 != b.0 || a.1 != b.1,
            (None, None) => false,
            _ => true,
        },
    }
}

/// Whether two dates lie in different periods of the window.
pub fn in_different_periods(
    window: QuotaWindow,
    last: Option<(i32, u32, u32)>,
    now: Option<(i32, u32, u32)>,
) -> (r: bool)
    ensures
        r == dates_differ(window, last, now),
{
    match window {
        QuotaWindow::Total => false,
        QuotaWindow::Day => match (last, now) {
            (Some(a), Some(b)) => a.0 != b.0 || a.1 != b.1 || a.2 != b.2,
            (None, None) => false,
            _ => true,
        },
        QuotaWindow::Month => match (last, now) {
            (Some(a), Some(b)) => a.0 != b.0 || a.1 != b.1,
            (None, None) => false,
            _ => true,
        },
    }
}

/// A new period of the window has begun since the last reset; with no reset yet, one has
/// begun in any window that has periods.
pub open spec fn spec_period_rolled(
    window: QuotaWindow,
    last_reset_at: Option<i64>,
    now: i64,
) -> bool {
    match last_reset_at {
        None => window != QuotaWindow::Total,
        Some(t) => dates_differ(window, calendar_date_of(t), calendar_date_of(now)),
    }
}

/// Whether a new period of the window has begun since the last reset.
pub fn period_rolled(window: QuotaWindow, last_reset_at: Option<i64>, now: i64) -> (r: bool)
    ensures
        r == spec_period_rolled(window, last_reset_at, now),
{
    match last_reset_at {
        None => match window {
            QuotaWindow::Total => false,
            _ => true,
        },
        Some(t) => in_different_periods(window, calendar_date(t), calendar_date(now)),
    }
}

/// A quota without periods never starts anew.
pub proof fn law_total_window_never_rolls(last_reset_at: Option<i64>, now: i64)
    ensures
        !spec_period_rolled(QuotaWindow::Total, last_reset_at, now),
{
}

/// A quota that was just reset is not due for another reset.
pub proof fn law_reset_settles_the_period(window: QuotaWindow, now: i64)
    ensures
        !spec_period_rolled(window, Some(now), now),
{
}

/// When the month has changed the day has changed too.
pub proof fn law_new_month_is_new_day(last_reset_at: Option<i64>, now: i64)
    ensures
        spec_period_rolled(QuotaWindow::Month, last_reset_at, now) ==> spec_period_rolled(
            QuotaWindow::Day,
            last_reset_at,
            now,
        ),
{
}

/// A quota with periods that was never reset is due, by day as by month; one that has none is not.
pub proof fn law_quota_without_reset_is_due(window: QuotaWindow, now: i64)
    ensures
        spec_period_rolled(window, None, now) <==> (window == QuotaWindow::Day || window
            == QuotaWindow::Month),
{
}

/// A quota by day is due on every other date than that of its last reset, a quota by month in
/// every other month, be it the same month of another year. On the same date neither is due.
pub proof fn law_quota_is_due_in_another_period(
    last: i64,
    now: i64,
    from: (i32, u32, u32),
    to: (i32, u32, u32),
)
    requires
        calendar_date_of(last) == Some(from),
        calendar_date_of(now) == Some(to),
    ensures
        spec_period_rolled(QuotaWindow::Day, Some(last), now) <==> from != to,
        from.0 != to.0 ==> spec_period_rolled(QuotaWindow::Month, Some(last), now),
        from.1 != to.1 ==> spec_period_rolled(QuotaWindow::Month, Some(last), now),
        from.0 == to.0 && from.1 == to.1 ==> !spec_period_rolled(
            QuotaWindow::Month,
            Some(last),
            now,
        ),
        !spec_period_rolled(QuotaWindow::Total, Some(last), now),
{
}

/// Whether a period lies between two times does not depend on which of them comes first.
pub proof fn law_periods_are_symmetric(window: QuotaWindow, a: i64, b: i64)
    ensures
        spec_period_rolled(window, Some(a), b) == spec_period_rolled(window, Some(b), a),
{
}

/// A stored time is read in the format of the database; only where that fails, as RFC 3339.
/// Space around it is immaterial.
pub proof fn law_stored_time_is_read(s: Seq<char>, t: Seq<char>, ms: i64)
    requires
        trim(s) == trim(t),
    ensures
        spec_db_datetime(s) == spec_db_datetime(t),
        parsed_in_format(trim(s), "%Y-%m-%d %H:%M:%S"@) == Some(ms) ==> spec_db_datetime(s)
            == Some(ms),
        parsed_in_format(trim(s), "%Y-%m-%d %H:%M:%S"@) is None ==> spec_db_datetime(s)
            == parsed_rfc3339(trim(s)),
{
}

} // verus!
