//! The proleptic Gregorian calendar over day numbers, and the calls into
//! `chrono` that convert between day numbers, calendar dates and ISO week
//! dates.
//!
//! A day number counts days from 1970-01-01, which is day 0.

use vstd::prelude::*;
use chrono::Datelike;
use crate::time::Weekday;

verus! {

/// The first year that `chrono::NaiveDate` can hold.
pub const MIN_YEAR: i32 = -262143;

/// The last year that `chrono::NaiveDate` can hold.
pub const MAX_YEAR: i32 = 262142;

/// A calendar date: year, month (1 to 12) and day of the month (from 1).
#[derive(Clone, Copy, Debug, PartialEq, Eq, Structural)]
pub struct Date {
    pub year: i32,
    pub month: u32,
    pub day: u32,
}

/// An ISO 8601 week: the week-numbering year and the week in it (from 1).
#[derive(Clone, Copy, Debug, PartialEq, Eq, Structural)]
pub struct IsoWeek {
    pub year: i32,
    pub week: u32,
}

/// The year has a 29th of February.
pub open spec fn is_leap_year(year: int) -> bool {
    year % 4 == 0 && (year % 100 != 0 || year % 400 == 0)
}

/// The number of days of the year.
pub open spec fn days_in_year(year: int) -> int {
    if is_leap_year(year) {
        366
    } else {
        365
    }
}

/// The number of days of the month.
pub open spec fn days_in_month(year: int, month: int) -> int {
    if month == 2 {
        if is_leap_year(year) {
            29
        } else {
            28
        }
    } else if month == 4 || month == 6 || month == 9 || month == 11 {
        30
    } else {
        31
    }
}

/// The date exists in the calendar.
pub open spec fn valid_date(year: int, month: int, day: int) -> bool {
    1 <= month <= 12 && 1 <= day <= days_in_month(year, month)
}

/// Days from 0001-01-01 to the first day of `year`.
pub open spec fn days_before_year(year: int) -> int {
    365 * (year - 1) + (year - 1) / 4 - (year - 1) / 100 + (year - 1) / 400
}

/// Days from the first day of `year` to the first day of `month` in it.
pub open spec fn days_before_month(year: int, month: int) -> int
    decreases month,
{
    if month <= 1 {
        0
    } else {
        days_before_month(year, month - 1) + days_in_month(year, month - 1)
    }
}

/// Days from 0001-01-01 to 1970-01-01.
pub open spec fn epoch_offset() -> int {
    719162
}

/// The day number of a calendar date.
pub open spec fn day_number(year: int, month: int, day: int) -> int {
    days_before_year(year) + days_before_month(year, month) + day - 1 - epoch_offset()
}

/// The years `MIN_YEAR` to `MAX_YEAR`.
pub open spec fn year_in_range(year: int) -> bool {
    MIN_YEAR <= year <= MAX_YEAR
}

/// The week-numbering years of the dates in the years `MIN_YEAR` to
/// `MAX_YEAR`.
pub open spec fn iso_year_in_range(year: int) -> bool {
    MIN_YEAR - 1 <= year <= MAX_YEAR + 1
}

/// The day numbers whose dates lie in the years `MIN_YEAR` to `MAX_YEAR`.
pub open spec fn in_calendar_range(day: int) -> bool {
    day_number(MIN_YEAR as int, 1, 1) <= day <= day_number(MAX_YEAR as int, 12, 31)
}

/// `date` is the calendar date of day number `day`.
pub open spec fn is_date_of(date: Date, day: int) -> bool {
    &&& valid_date(date.year as int, date.month as int, date.day as int)
    &&& day_number(date.year as int, date.month as int, date.day as int) == day
}

/// The calendar date of a day number.
pub open spec fn date_of_day(day: int) -> Date {
    choose|date: Date| is_date_of(date, day)
}

/// Days from Monday to the weekday of day number `day` (1970-01-01 was a
/// Thursday).
pub open spec fn weekday_of_day(day: int) -> int {
    (day + 3) % 7
}

/// The Monday of the week that holds day number `day`.
pub open spec fn week_start(day: int) -> int {
    day - weekday_of_day(day)
}

/// The Monday that begins week 1 of the week-numbering year `year`: the
/// week that holds January 4th.
pub open spec fn first_week_start(year: int) -> int {
    week_start(day_number(year, 1, 4))
}

/// `week` is the ISO week that holds day number `day`.
pub open spec fn is_iso_week_of(week: IsoWeek, day: int) -> bool {
    &&& first_week_start(week.year as int) <= day < first_week_start(week.year + 1)
    &&& week.week == (day - first_week_start(week.year as int)) / 7 + 1
}

/// The ISO week of a day number.
pub open spec fn iso_week_of_day(day: int) -> IsoWeek {
    choose|week: IsoWeek| is_iso_week_of(week, day)
}

/// The week-numbering year `year` has a week numbered `week`.
pub open spec fn valid_iso_week(year: int, week: int) -> bool {
    1 <= week && first_week_start(year) + 7 * (week - 1) < first_week_start(year + 1)
}

/// The day number of the ISO week date (`year`, `week`, `weekday`), with
/// `weekday` counted in days from Monday.
pub open spec fn iso_week_day(year: int, week: int, weekday: int) -> int {
    first_week_start(year) + 7 * (week - 1) + weekday
}

/// Calls `chrono::NaiveDate::from_epoch_days` and reads `year`, `month`,
/// `day` and `iso_week` of the date. Trusted: `None` exactly for a day
/// outside chrono's years, else the calendar date whose day number is `day`,
/// and the ISO 8601 week-numbering year and week that hold the day.
#[verifier::external_body]
pub(crate) fn civil_date(day: i32) -> (r: Option<(Date, IsoWeek)>)
    ensures
        r is Some <==> in_calendar_range(day as int),
        r is Some ==> is_date_of((r->0).0, day as int) && year_in_range((r->0).0.year as int),
        r is Some ==> is_iso_week_of((r->0).1, day as int) && iso_year_in_range(
            (r->0).1.year as int,
        ),
{
    chrono::NaiveDate::from_epoch_days(day).map(
        |d|
            (
                Date { year: d.year(), month: d.month(), day: d.day() },
                IsoWeek { year: d.iso_week().year(), week: d.iso_week().week() },
            ),
    )
}

/// Calls `chrono::NaiveDate::from_ymd_opt` and `to_epoch_days`. Trusted:
/// `None` exactly where the date does not exist or its year is outside
/// chrono's years, else the day number of the date.
#[verifier::external_body]
pub(crate) fn date_to_day(year: i32, month: u32, day: u32) -> (r: Option<i32>)
    ensures
        r is Some <==> (valid_date(year as int, month as int, day as int) && year_in_range(
            year as int,
        )),
        r is Some ==> r->0 == day_number(year as int, month as int, day as int),
{
    chrono::NaiveDate::from_ymd_opt(year, month, day).map(|d| d.to_epoch_days())
}

/// Calls `chrono::NaiveDate::from_isoywd_opt` and `to_epoch_days`. Trusted:
/// `None` exactly where the year has no such week or the date lies outside
/// chrono's years, else the day number of the ISO week date.
#[verifier::external_body]
pub(crate) fn iso_week_date_to_day(year: i32, week: u32, weekday: Weekday) -> (r: Option<i32>)
    requires
        iso_year_in_range(year as int),
    ensures
        r is Some <==> (valid_iso_week(year as int, week as int) && in_calendar_range(
            iso_week_day(year as int, week as int, weekday.days_from_monday() as int),
        )),
        r is Some ==> r->0 == iso_week_day(
            year as int,
            week as int,
            weekday.days_from_monday() as int,
        ),
{
    let wd = match weekday {
        Weekday::Mon => chrono::Weekday::Mon,
        Weekday::Tue => chrono::Weekday::Tue,
        Weekday::Wed => chrono::Weekday::Wed,
        Weekday::Thu => chrono::Weekday::Thu,
        Weekday::Fri => chrono::Weekday::Fri,
        Weekday::Sat => chrono::Weekday::Sat,
        Weekday::Sun => chrono::Weekday::Sun,
    };
    chrono::NaiveDate::from_isoywd_opt(year, week, wd).map(|d| d.to_epoch_days())
}

/// A year is followed by the next after 365 or 366 days.
pub proof fn lemma_year_length(year: int)
    ensures
        days_before_year(year + 1) == days_before_year(year) + days_in_year(year),
{
}

/// Later years begin later, by at least 365 days a year.
pub proof fn lemma_years_increase(first: int, second: int)
    requires
        first <= second,
    ensures
        days_before_year(second) >= days_before_year(first) + 365 * (second - first),
    decreases second - first,
{
    if first < second {
        lemma_years_increase(first, second - 1);
        lemma_year_length(second - 1);
    }
}

/// The months of a year add up to the year, and each begins where the one
/// before it ends.
pub proof fn lemma_months(year: int)
    ensures
        days_before_month(year, 1) == 0,
        days_before_month(year, 13) == days_in_year(year),
        forall|m: int|
            1 <= m <= 12 ==> #[trigger] days_before_month(year, m + 1) == days_before_month(
                year,
                m,
            ) + days_in_month(year, m),
        forall|m: int, n: int|
            1 <= m < n <= 13 ==> #[trigger] days_before_month(year, m) + days_in_month(year, m)
                <= #[trigger] days_before_month(year, n),
{
    reveal_with_fuel(days_before_month, 14);
}

/// A valid date lies within its year.
pub proof fn lemma_day_number_in_year(year: int, month: int, day: int)
    requires
        valid_date(year, month, day),
    ensures
        days_before_year(year) - epoch_offset() <= day_number(year, month, day)
            < days_before_year(year + 1) - epoch_offset(),
{
    lemma_months(year);
    lemma_year_length(year);
    reveal_with_fuel(days_before_month, 14);
}

/// Dates are numbered in calendar order: a date that comes later by year,
/// then month, then day has the greater day number.
pub proof fn lemma_day_number_increases(y1: int, m1: int, d1: int, y2: int, m2: int, d2: int)
    requires
        valid_date(y1, m1, d1),
        valid_date(y2, m2, d2),
        y1 < y2 || (y1 == y2 && (m1 < m2 || (m1 == m2 && d1 < d2))),
    ensures
        day_number(y1, m1, d1) < day_number(y2, m2, d2),
{
    lemma_day_number_in_year(y1, m1, d1);
    lemma_day_number_in_year(y2, m2, d2);
    if y1 < y2 {
        lemma_years_increase(y1 + 1, y2);
    } else if m1 < m2 {
        lemma_months(y1);
    }
}

/// The dates of the years `MIN_YEAR` to `MAX_YEAR` have their day numbers
/// in the calendar range.
pub proof fn lemma_date_in_range(year: int, month: int, day: int)
    requires
        valid_date(year, month, day),
        year_in_range(year),
    ensures
        in_calendar_range(day_number(year, month, day)),
{
    lemma_day_number_in_year(year, month, day);
    lemma_day_number_in_year(MIN_YEAR as int, 1, 1);
    lemma_day_number_in_year(MAX_YEAR as int, 12, 31);
    lemma_months(MAX_YEAR as int);
    lemma_year_length(MAX_YEAR as int);
    lemma_years_increase(MIN_YEAR as int, year);
    lemma_years_increase(year + 1, MAX_YEAR + 1);
}

/// A day number has at most one calendar date.
pub proof fn lemma_date_unique(a: Date, b: Date, day: int)
    requires
        is_date_of(a, day),
        is_date_of(b, day),
    ensures
        a == b,
{
    let (y1, m1, d1) = (a.year as int, a.month as int, a.day as int);
    let (y2, m2, d2) = (b.year as int, b.month as int, b.day as int);
    if y1 < y2 || (y1 == y2 && (m1 < m2 || (m1 == m2 && d1 < d2))) {
        lemma_day_number_increases(y1, m1, d1, y2, m2, d2);
    } else if y2 < y1 || (y2 == y1 && (m2 < m1 || (m2 == m1 && d2 < d1))) {
        lemma_day_number_increases(y2, m2, d2, y1, m1, d1);
    }
}

/// Two days that lie 365 or 366 days apart have their weeks begin 52 or 53
/// weeks apart.
proof fn lemma_week_start_step(a: int, b: int)
    requires
        b == a + 365 || b == a + 366,
    ensures
        week_start(b) == week_start(a) + 364 || week_start(b) == week_start(a) + 371,
{
}

/// Week 1 of the next week-numbering year begins 52 or 53 weeks after week 1
/// of this one.
pub proof fn lemma_iso_year_length(year: int)
    ensures
        first_week_start(year + 1) == first_week_start(year) + 364 || first_week_start(year + 1)
            == first_week_start(year) + 371,
{
    lemma_year_length(year);
    lemma_months(year);
    lemma_months(year + 1);
    let a = day_number(year, 1, 4);
    let b = day_number(year + 1, 1, 4);
    assert(b == a + days_in_year(year));
    lemma_week_start_step(a, b);
}

/// Later week-numbering years begin later.
pub proof fn lemma_iso_years_increase(first: int, second: int)
    requires
        first <= second,
    ensures
        first_week_start(second) >= first_week_start(first) + 364 * (second - first),
    decreases second - first,
{
    if first < second {
        lemma_iso_years_increase(first, second - 1);
        lemma_iso_year_length(second - 1);
    }
}

/// Counting whole weeks from a Monday `monday` up to `day` gives the Monday
/// of the week of `day`.
proof fn lemma_weeks_from_monday(monday: int, day: int)
    requires
        weekday_of_day(monday) == 0,
        monday <= day,
    ensures
        week_start(day) == monday + 7 * ((day - monday) / 7),
{
}

/// The week of a day is a week that its week-numbering year has, and its
/// Monday is the Monday of the week of the day.
pub proof fn lemma_week_of_day(week: IsoWeek, day: int)
    requires
        is_iso_week_of(week, day),
    ensures
        valid_iso_week(week.year as int, week.week as int),
        iso_week_day(week.year as int, week.week as int, 0) == week_start(day),
{
    let first = first_week_start(week.year as int);
    let next = first_week_start(week.year + 1);
    assert(weekday_of_day(first) == 0) by {
        let d = day_number(week.year as int, 1, 4);
        assert(first == d - (d + 3) % 7);
    }
    lemma_weeks_from_monday(first, day);
    assert(week.week - 1 == (day - first) / 7);
    assert(7 * ((day - first) / 7) <= day - first);
}

/// The day numbers of the first and the last date that `chrono` can hold.
pub proof fn lemma_calendar_range()
    ensures
        day_number(MIN_YEAR as int, 1, 1) == -96465292,
        day_number(MAX_YEAR as int, 12, 31) == 95026236,
{
    reveal_with_fuel(days_before_month, 13);
}

/// Searches upwards from `year` for the year that holds day `n`, counted
/// from 0001-01-01.
proof fn lemma_year_search(n: int, year: int) -> (r: int)
    requires
        days_before_year(year) <= n,
    ensures
        days_before_year(r) <= n < days_before_year(r + 1),
    decreases n - days_before_year(year),
{
    lemma_year_length(year);
    if n < days_before_year(year + 1) {
        year
    } else {
        lemma_year_search(n, year + 1)
    }
}

/// Every day lies in some year.
pub proof fn lemma_year_exists(n: int) -> (year: int)
    ensures
        days_before_year(year) <= n < days_before_year(year + 1),
{
    let start = if n < 0 {
        n
    } else {
        0
    };
    lemma_years_increase(start, 1);
    lemma_year_search(n, start)
}

/// A year that holds a day of the calendar range is a year of the range.
proof fn lemma_year_of_range(day: int, year: int)
    requires
        in_calendar_range(day),
        days_before_year(year) <= day + epoch_offset() < days_before_year(year + 1),
    ensures
        year_in_range(year),
{
    lemma_day_number_in_year(MIN_YEAR as int, 1, 1);
    lemma_day_number_in_year(MAX_YEAR as int, 12, 31);
    if year < MIN_YEAR {
        lemma_years_increase(year + 1, MIN_YEAR as int);
    }
    if year > MAX_YEAR {
        lemma_years_increase(MAX_YEAR + 1, year);
    }
}

/// Every day number of the calendar range has a calendar date.
pub proof fn lemma_date_exists(day: int) -> (date: Date)
    requires
        in_calendar_range(day),
    ensures
        is_date_of(date, day),
        year_in_range(date.year as int),
        date_of_day(day) == date,
{
    let n = day + epoch_offset();
    let year = lemma_year_exists(n);
    lemma_year_of_range(day, year);
    lemma_year_length(year);
    lemma_months(year);
    let rest = n - days_before_year(year);
    let month: int = if rest < days_before_month(year, 2) {
        1
    } else if rest < days_before_month(year, 3) {
        2
    } else if rest < days_before_month(year, 4) {
        3
    } else if rest < days_before_month(year, 5) {
        4
    } else if rest < days_before_month(year, 6) {
        5
    } else if rest < days_before_month(year, 7) {
        6
    } else if rest < days_before_month(year, 8) {
        7
    } else if rest < days_before_month(year, 9) {
        8
    } else if rest < days_before_month(year, 10) {
        9
    } else if rest < days_before_month(year, 11) {
        10
    } else if rest < days_before_month(year, 12) {
        11
    } else {
        12
    };
    assert(days_before_month(year, month) <= rest < days_before_month(year, month + 1));
    let date = Date {
        year: year as i32,
        month: month as u32,
        day: (rest - days_before_month(year, month) + 1) as u32,
    };
    assert(is_date_of(date, day));
    lemma_date_unique(date, date_of_day(day), day);
    date
}

/// Every day number of the calendar range lies in an ISO week.
pub proof fn lemma_iso_week_exists(day: int) -> (week: IsoWeek)
    requires
        in_calendar_range(day),
    ensures
        is_iso_week_of(week, day),
        iso_year_in_range(week.year as int),
        iso_week_of_day(day) == week,
{
    // The week belongs to the year that holds its Thursday.
    let thursday = week_start(day) + 3;
    let year = lemma_year_exists(thursday + epoch_offset());
    lemma_months(year);
    lemma_months(year + 1);
    lemma_year_length(year);
    let first = first_week_start(year);
    let next = first_week_start(year + 1);
    assert(first <= day < next) by {
        let a = day_number(year, 1, 4);
        let b = day_number(year + 1, 1, 4);
        assert(a == days_before_year(year) + 3 - epoch_offset());
        assert(b == days_before_year(year + 1) + 3 - epoch_offset());
        lemma_monday_order(week_start(day), week_start(a), day, a);
        lemma_monday_order(week_start(day), week_start(b), day, b);
    }
    lemma_iso_year_range(day, year);
    lemma_iso_year_length(year);
    let week = IsoWeek { year: year as i32, week: ((day - first) / 7 + 1) as u32 };
    assert(is_iso_week_of(week, day));
    lemma_iso_week_unique(week, iso_week_of_day(day), day);
    week
}

/// Two Mondays of weeks are the same or at least seven days apart.
proof fn lemma_monday_order(m1: int, m2: int, d1: int, d2: int)
    requires
        m1 == week_start(d1),
        m2 == week_start(d2),
    ensures
        m1 < m2 ==> m1 + 7 <= m2,
        m2 < m1 ==> m2 + 7 <= m1,
        m1 <= d1 <= m1 + 6,
        m2 <= d2 <= m2 + 6,
{
}

/// The week-numbering year of a day of the calendar range is at most one
/// year outside the range.
proof fn lemma_iso_year_range(day: int, year: int)
    requires
        in_calendar_range(day),
        first_week_start(year) <= day < first_week_start(year + 1),
    ensures
        iso_year_in_range(year),
{
    lemma_calendar_range();
    lemma_months(MIN_YEAR as int);
    lemma_months(MAX_YEAR + 2);
    lemma_year_length(MAX_YEAR as int);
    lemma_year_length(MAX_YEAR + 1);
    lemma_day_number_in_year(MAX_YEAR as int, 12, 31);
    let low = day_number(MIN_YEAR as int, 1, 4);
    let high = day_number(MAX_YEAR + 2, 1, 4);
    assert(first_week_start(MIN_YEAR as int) <= low);
    assert(first_week_start(MAX_YEAR + 2) >= high - 6);
    if year < MIN_YEAR - 1 {
        lemma_iso_years_increase(year + 1, MIN_YEAR as int);
    }
    if year > MAX_YEAR + 1 {
        lemma_iso_years_increase(MAX_YEAR + 2, year);
    }
}

/// A day number lies in at most one ISO week.
pub proof fn lemma_iso_week_unique(a: IsoWeek, b: IsoWeek, day: int)
    requires
        is_iso_week_of(a, day),
        is_iso_week_of(b, day),
    ensures
        a == b,
{
    if a.year < b.year {
        lemma_iso_years_increase(a.year + 1, b.year as int);
    } else if b.year < a.year {
        lemma_iso_years_increase(b.year + 1, a.year as int);
    }
}

} // verus!
