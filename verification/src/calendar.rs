//! Dates as day numbers of the proleptic Gregorian calendar (January 1 of
//! year 1 is day 1), with `chrono` computing what the calendar says of them.

use vstd::prelude::*;
use crate::text::{digits_of, padded_digits};
use chrono::{Datelike, NaiveDate, NaiveDateTime, NaiveTime};

verus! {

/// The day number of `NaiveDate::MIN`, January 1 of year -262143.
pub const FIRST_DAY: i32 = -95_746_129;

/// The day number of `NaiveDate::MAX`, December 31 of year 262142.
pub const LAST_DAY: i32 = 95_745_399;

/// A day number that `chrono` can hold as a date.
pub open spec fn day_in_range(days: int) -> bool {
    FIRST_DAY <= days <= LAST_DAY
}

/// The years that `chrono` can hold.
pub open spec fn year_in_range(year: int) -> bool {
    -262_143 <= year <= 262_142
}

pub open spec fn is_leap_year(year: int) -> bool {
    year % 4 == 0 && (year % 100 != 0 || year % 400 == 0)
}

pub open spec fn days_in_month(year: int, month: int) -> int {
    if month == 2 {
        if is_leap_year(year) {
            29
        } else {
            28
        }
    } else if month == 4 || month == 6 || month == 9 || month == 11 {
        30
    } else {
        31
    }
}

/// A year, month and day that name a date `chrono` can hold.
pub open spec fn valid_ymd(year: int, month: int, day: int) -> bool {
    &&& year_in_range(year)
    &&& 1 <= month <= 12
    &&& 1 <= day <= days_in_month(year, month)
}

/// The weekday of a day number, Monday being 0 and Sunday 6; day 1 was a
/// Monday.
pub open spec fn weekday_of(days: int) -> int {
    (days - 1) % 7
}

/// The year, month and day of a day number in the proleptic Gregorian
/// calendar, counted in eras of 400 years (146097 days) from March 1 of
/// year 0, day -305, so that a leap day ends each counted year.
pub open spec fn civil_of(days: int) -> (int, int, int) {
    let z = days + 305;
    let era = z / 146097;
    let doe = z - era * 146097;
    let yoe = (doe - doe / 1460 + doe / 36524 - doe / 146096) / 365;
    let doy = doe - (365 * yoe + yoe / 4 - yoe / 100);
    let mp = (5 * doy + 2) / 153;
    let d = doy - (153 * mp + 2) / 5 + 1;
    let m = if mp < 10 {
        mp + 3
    } else {
        mp - 9
    };
    let y = yoe + era * 400;
    (if m <= 2 {
        y + 1
    } else {
        y
    }, m, d)
}

/// The day number of a year, month and day in the proleptic Gregorian
/// calendar, January 1 of year 1 being day 1.
pub open spec fn day_number_of(year: int, month: int, day: int) -> int {
    let y = if month <= 2 {
        year - 1
    } else {
        year
    };
    let era = y / 400;
    let yoe = y - era * 400;
    let mp = if month > 2 {
        month - 3
    } else {
        month + 9
    };
    let doy = (153 * mp + 2) / 5 + day - 1;
    let doe = yoe * 365 + yoe / 4 - yoe / 100 + doy;
    era * 146097 + doe - 305
}

/// A day number's year, month, day of the month and day of the year.
pub open spec fn calendar_of(days: int) -> (int, int, int, int) {
    let (y, m, d) = civil_of(days);
    (y, m, d, days - day_number_of(y, 1, 1) + 1)
}

/// A year as `%Y` writes it: four digits at least, zero-padded, with a sign
/// before a year outside 0 to 9999.
pub open spec fn year_text(y: int) -> Seq<char> {
    if 0 <= y <= 9999 {
        padded_digits(y as nat, 4)
    } else if y > 9999 {
        seq!['+'] + digits_of(y as nat)
    } else if y >= -9999 {
        seq!['-'] + padded_digits((-y) as nat, 4)
    } else {
        seq!['-'] + digits_of((-y) as nat)
    }
}

/// The `%Y-%m-%d` text of a date.
pub open spec fn date_text(days: int) -> Seq<char> {
    let c = calendar_of(days);
    year_text(c.0) + seq!['-'] + padded_digits(c.1 as nat, 2) + seq!['-'] + padded_digits(c.2 as nat, 2)
}

/// The `%Y-%m-%dT%H:%M:%S` text of a date and a whole minute of it.
pub open spec fn date_time_text(days: int, hour: int, minute: int) -> Seq<char> {
    date_text(days) + seq!['T'] + padded_digits(hour as nat, 2) + seq![':'] + padded_digits(minute as nat, 2)
        + seq![':', '0', '0']
}

/// The date that `chrono` reads from a `%Y-%m-%d` text, if it reads one.
pub uninterp spec fn parsed_date(text: Seq<char>) -> Option<int>;

/// The texts that `chrono` gives a `ParseError`.
pub open spec fn is_parse_error_text(s: Seq<char>) -> bool {
    ||| s == "input is out of range"@
    ||| s == "no possible date and time matching input"@
    ||| s == "input is not enough for unique date and time"@
    ||| s == "input contains invalid characters"@
    ||| s == "premature end of input"@
    ||| s == "trailing input"@
    ||| s == "bad or unsupported format string"@
}

/// `NaiveDate::from_num_days_from_ce_opt`, then `year`, `month`, `day` and
/// `ordinal`: the calendar fields of a day number, claimed to be those of
/// the proleptic Gregorian calendar that chrono documents, `calendar_of`;
/// claimed besides are the ranges that chrono documents for the month, the
/// day of the month and the day of the year, and that the year is one
/// chrono holds.
#[verifier::external_body]
pub(crate) fn calendar_fields(days: i32) -> (r: (i32, u32, u32, u32))
    requires
        day_in_range(days as int),
    ensures
        (r.0 as int, r.1 as int, r.2 as int, r.3 as int) == calendar_of(days as int),
        year_in_range(r.0 as int),
        1 <= r.1 <= 12,
        1 <= r.2 <= 31,
        1 <= r.3 <= 366,
{
    let date = NaiveDate::from_num_days_from_ce_opt(days).unwrap();
    (date.year(), date.month(), date.day(), date.ordinal())
}

/// `Weekday::num_days_from_monday` of the date with this day number: claimed
/// to be the day number's place in the seven-day week, Monday being 0, as
/// January 1 of year 1 (day 1) was a Monday in the proleptic Gregorian
/// calendar.
#[verifier::external_body]
pub(crate) fn weekday_from_monday(days: i32) -> (r: u32)
    requires
        day_in_range(days as int),
    ensures
        r as int == weekday_of(days as int),
{
    NaiveDate::from_num_days_from_ce_opt(days).unwrap().weekday().num_days_from_monday()
}

/// `NaiveDate::from_ymd_opt`, then `num_days_from_ce`. chrono documents that
/// it gives `None` exactly for a month or day that does not exist and for a
/// year out of its range; the day number is claimed to be the proleptic
/// Gregorian one, `day_number_of`, and the date it names to have this
/// year, month and day.
#[verifier::external_body]
pub(crate) fn day_number_from_ymd(year: i32, month: u32, day: u32) -> (r: Option<i32>)
    ensures
        r is Some <==> valid_ymd(year as int, month as int, day as int),
        r matches Some(n) ==> {
            &&& n as int == day_number_of(year as int, month as int, day as int)
            &&& day_in_range(n as int)
            &&& calendar_of(n as int).0 == year
            &&& calendar_of(n as int).1 == month
            &&& calendar_of(n as int).2 == day
        },
{
    match NaiveDate::from_ymd_opt(year, month, day) {
        Some(date) => Some(date.num_days_from_ce()),
        None => None,
    }
}

/// `NaiveDate::format("%Y-%m-%d").to_string()`: chrono's source writes the
/// year as `date_text` says (four digits at least, a sign outside 0 to
/// 9999), then the month and the day as two digits each.
#[verifier::external_body]
pub(crate) fn format_date(days: i32) -> (r: String)
    requires
        day_in_range(days as int),
    ensures
        r@ == date_text(days as int),
{
    NaiveDate::from_num_days_from_ce_opt(days).unwrap().format("%Y-%m-%d").to_string()
}

/// `NaiveDateTime::format("%Y-%m-%dT%H:%M:%S").to_string()` of a date at a
/// whole minute: the date as `format_date` writes it, `T`, then the hour,
/// the minute and the second (zero) as two digits each.
#[verifier::external_body]
pub(crate) fn format_date_time(days: i32, hour: u32, minute: u32) -> (r: String)
    requires
        day_in_range(days as int),
        hour < 24,
        minute < 60,
    ensures
        r@ == date_time_text(days as int, hour as int, minute as int),
{
    let date = NaiveDate::from_num_days_from_ce_opt(days).unwrap();
    let time = NaiveTime::from_hms_opt(hour, minute, 0).unwrap();
    NaiveDateTime::new(date, time).format("%Y-%m-%dT%H:%M:%S").to_string()
}

/// The text of the error that `chrono` gives when it cannot read a
/// `%Y-%m-%d` text as a date.
pub uninterp spec fn parse_failure_text(text: Seq<char>) -> Seq<char>;

/// `NaiveDate::parse_from_str(text, "%Y-%m-%d")`, then `num_days_from_ce`,
/// or the error's text. Which texts it reads, and as which dates, is named
/// `parsed_date`; a date it reads is one chrono holds. The error's text is
/// named `parse_failure_text`; chrono's source gives it as one of seven
/// texts, by the kind of the error.
#[verifier::external_body]
pub(crate) fn parse_date(text: &str) -> (r: Result<i32, String>)
    ensures
        r is Err <==> parsed_date(text@) is None,
        r matches Ok(n) ==> parsed_date(text@) == Some(n as int) && day_in_range(n as int),
        r matches Err(m) ==> m@ == parse_failure_text(text@) && is_parse_error_text(m@),
{
    match NaiveDate::parse_from_str(text, "%Y-%m-%d") {
        Ok(date) => Ok(date.num_days_from_ce()),
        Err(e) => Err(e.to_string()),
    }
}

/// A moment at a whole minute, as the minutes since the start of day 0.
pub open spec fn minute_stamp(days: int, minute_of_day: int) -> int {
    days * 1440 + minute_of_day
}

/// The day number of a moment.
pub open spec fn stamp_day(stamp: int) -> int {
    stamp / 1440
}

/// `chrono`'s `%Y-%m-%dT%H:%M:%S` text of a moment.
pub open spec fn stamp_text(stamp: int) -> Seq<char> {
    date_time_text(stamp / 1440, (stamp % 1440) / 60, (stamp % 1440) % 60)
}

/// The day number of a moment.
pub fn day_of_stamp(stamp: i64) -> (r: i64)
    ensures
        r == stamp_day(stamp as int),
{
    let day: i64 = if stamp >= 0 {
        stamp / 1440
    } else {
        -((-(stamp + 1)) / 1440) - 1
    };
    assert(day == stamp as int / 1440) by (nonlinear_arith)
        requires
            day == (if stamp >= 0 {
                stamp as int / 1440
            } else {
                -((-(stamp + 1)) / 1440) - 1
            }),
    ;
    day
}

/// The `%Y-%m-%dT%H:%M:%S` text of a moment.
pub fn format_stamp(stamp: i64) -> (r: String)
    requires
        day_in_range(stamp_day(stamp as int)),
    ensures
        r@ == stamp_text(stamp as int),
{
    let day = day_of_stamp(stamp);
    let minute: i64 = stamp - day * 1440;
    assert(minute == stamp as int % 1440) by (nonlinear_arith)
        requires
            day == stamp as int / 1440,
            minute == stamp - day * 1440,
    ;
    format_date_time(day as i32, (minute / 60) as u32, (minute % 60) as u32)
}

} // verus!
