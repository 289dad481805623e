//! Calendar dates as day numbers, and the current month, both from chrono.
use vstd::prelude::*;

verus! {

/// The day number (days since the first of January of year 1, that day being
/// 1) of a calendar date written year, month and day with dashes between them,
/// as chrono reads the format `%Y-%m-%d`, or `None` when the text is not such
/// a date. Besides `YYYY-MM-DD` chrono takes one-digit months and days, spaces
/// before each number, and a year with a sign or more than four digits.
pub uninterp spec fn iso_day(s: Seq<char>) -> Option<i32>;

/// Relies on chrono's `NaiveDate::parse_from_str` with the format `%Y-%m-%d`
/// to read the date, and on `Datelike::num_days_from_ce` to number it; the
/// result depends on the text alone.
#[verifier::external_body]
fn parse_iso_day(s: &str) -> (r: Option<i32>)
    ensures
        r == iso_day(s@),
{
    match chrono::NaiveDate::parse_from_str(s, "%Y-%m-%d") {
        Ok(d) => Some(chrono::Datelike::num_days_from_ce(&d)),
        Err(_) => None,
    }
}

/// The day number of a date written `YYYY-MM-DD`, or `None` when the text is
/// not a calendar date. The reading is chrono's `%Y-%m-%d`, which also takes
/// one-digit months and days, spaces before each number, and a year with a
/// sign or more than four digits.
pub fn day_number(s: &str) -> (r: Option<i32>)
    ensures
        r == iso_day(s@),
{
    parse_iso_day(s)
}

/// Relies on std's `SystemTime::now` with `duration_since(UNIX_EPOCH)`: the
/// time since the Unix epoch in whole seconds and nanoseconds, `None` when the
/// clock reads before the epoch. `subsec_nanos` is below one billion.
#[verifier::external_body]
fn clock_since_epoch() -> (r: Option<(u64, u32)>)
    ensures
        r matches Some(t) ==> t.1 < 1_000_000_000,
{
    match std::time::SystemTime::now().duration_since(std::time::UNIX_EPOCH) {
        Ok(d) => Some((d.as_secs(), d.subsec_nanos())),
        Err(_) => None,
    }
}

/// Relies on chrono's `DateTime::from_timestamp`, `with_timezone(&Local)`
/// and `Datelike::year` / `Datelike::month`: the local year and month at the
/// instant `secs`, `nanos` after the Unix epoch, `None` when the instant is
/// outside chrono's range. The month is in 1..=12; the result depends on the
/// machine's time zone.
#[verifier::external_body]
fn local_year_month_at(secs: i64, nanos: u32) -> (r: Option<(i32, u32)>)
    ensures
        r matches Some(ym) ==> 1 <= ym.1 <= 12,
{
    match chrono::DateTime::from_timestamp(secs, nanos) {
        Some(utc) => {
            let local = utc.with_timezone(&chrono::Local);
            Some((chrono::Datelike::year(&local), chrono::Datelike::month(&local)))
        },
        None => None,
    }
}

/// The year and month (`month` in 1..=12) as identifiers can encode them:
/// `None` when the year has more than four digits or is negative.
pub fn year_month_for_ids(year: i32, month: u32) -> (r: Option<(i32, u32)>)
    requires
        1 <= month <= 12,
    ensures
        r == (if 0 <= year <= 9999 {
            Some((year, month))
        } else {
            None
        }),
{
    if 0 <= year && year <= 9999 {
        Some((year, month))
    } else {
        None
    }
}

/// The current local year and month, as `year_month_for_ids` gives them for
/// the clock's reading; `None` when the clock reads before the Unix epoch or
/// beyond what a date can hold.
pub fn current_year_month() -> (r: Option<(i32, u32)>)
    ensures
        r matches Some(ym) ==> 0 <= ym.0 <= 9999 && 1 <= ym.1 <= 12,
{
    let (secs, nanos) = match clock_since_epoch() {
        Some(t) => t,
        None => {
            return None;
        },
    };
    if secs > i64::MAX as u64 {
        return None;
    }
    match local_year_month_at(secs as i64, nanos) {
        Some((year, month)) => year_month_for_ids(year, month),
        None => None,
    }
}

} // verus!
