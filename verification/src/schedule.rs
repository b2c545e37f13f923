//! The next due time of a recurrence rule, counted from an anchor time.

use vstd::prelude::*;
use crate::calendar::{
    civil_date, date_of_day, date_to_day, day_number, in_calendar_range, is_date_of,
    is_iso_week_of, iso_week_date_to_day, iso_week_day, iso_week_of_day, iso_year_in_range,
    lemma_calendar_range, lemma_date_exists, lemma_date_in_range, lemma_date_unique,
    lemma_day_number_increases, lemma_iso_week_exists, lemma_iso_week_unique, lemma_week_of_day,
    valid_date, year_in_range, Date, IsoWeek, MAX_YEAR, MIN_YEAR,
};
use crate::error::ScheduleError;
use crate::interval::{
    AnnualDay, Interval, IntervalView, MonthlyDay, TimePeriod, TimePeriodView,
};
use crate::time::{Time, TimeOfDay, Weekday};

verus! {

/// `candidate`, unless it lies before `anchor`: then `later`.
pub open spec fn not_before(anchor: Time, candidate: Time, later: Time) -> Time {
    if candidate.before(anchor) {
        later
    } else {
        candidate
    }
}

/// The daily slot at `time`: on the day of the anchor, or on the day after
/// if that lies before the anchor.
pub open spec fn next_daily(time: TimeOfDay, anchor: Time) -> Result<Time, ScheduleError> {
    let day = anchor.day();
    let seconds = time.seconds_from_midnight();
    if !in_calendar_range(day) {
        Err(ScheduleError::OutOfRange)
    } else {
        Ok(not_before(anchor, Time::on_day(day, seconds), Time::on_day(day + 1, seconds)))
    }
}

/// The weekly slot on `weekday` at `time`: in the ISO week of the anchor,
/// or a week later if that lies before the anchor.
pub open spec fn next_weekly(weekday: Weekday, time: TimeOfDay, anchor: Time) -> Result<
    Time,
    ScheduleError,
> {
    let day = anchor.day();
    let seconds = time.seconds_from_midnight();
    let week = iso_week_of_day(day);
    let slot = iso_week_day(week.year as int, week.week as int, weekday.days_from_monday() as int);
    if !in_calendar_range(day) || !in_calendar_range(slot) {
        Err(ScheduleError::OutOfRange)
    } else {
        Ok(not_before(anchor, Time::on_day(slot, seconds), Time::on_day(slot + 7, seconds)))
    }
}

/// The instant at which a clock shows `time` on the given date, where the
/// calendar has the date and its year can be held.
pub open spec fn slot_on(year: int, month: int, day: int, time: TimeOfDay) -> Result<
    Time,
    ScheduleError,
> {
    if !year_in_range(year) {
        Err(ScheduleError::OutOfRange)
    } else if !valid_date(year, month, day) {
        Err(ScheduleError::InvalidDate)
    } else {
        Ok(Time::on_day(day_number(year, month, day), time.seconds_from_midnight()))
    }
}

/// The slot on the given date, unless it lies before `anchor`: then the
/// slot on the later date.
pub open spec fn first_slot(
    anchor: Time,
    time: TimeOfDay,
    date: (int, int, int),
    later: (int, int, int),
) -> Result<Time, ScheduleError> {
    match slot_on(date.0, date.1, date.2, time) {
        Err(e) => Err(e),
        Ok(candidate) => if candidate.before(anchor) {
            slot_on(later.0, later.1, later.2, time)
        } else {
            Ok(candidate)
        },
    }
}

/// The monthly slot on day `day` at `time`: in the month of the anchor, or
/// in the month after if that lies before the anchor; January of the next
/// year follows December.
pub open spec fn next_monthly(day: MonthlyDay, time: TimeOfDay, anchor: Time) -> Result<
    Time,
    ScheduleError,
> {
    let date = date_of_day(anchor.day());
    let later = if date.month == 12 {
        (date.year + 1, 1int, day.day as int)
    } else {
        (date.year as int, date.month + 1, day.day as int)
    };
    if !in_calendar_range(anchor.day()) {
        Err(ScheduleError::OutOfRange)
    } else {
        first_slot(anchor, time, (date.year as int, date.month as int, day.day as int), later)
    }
}

/// The annual slot on `day` at `time`: in the year of the anchor, or in the
/// year after if that lies before the anchor.
pub open spec fn next_annual(day: AnnualDay, time: TimeOfDay, anchor: Time) -> Result<
    Time,
    ScheduleError,
> {
    let date = date_of_day(anchor.day());
    if !in_calendar_range(anchor.day()) {
        Err(ScheduleError::OutOfRange)
    } else {
        first_slot(
            anchor,
            time,
            (date.year as int, day.month as int, day.day as int),
            (date.year + 1, day.month as int, day.day as int),
        )
    }
}

/// The next due time of a recurrence rule, counted from `anchor`.
pub open spec fn next_due(interval: IntervalView, anchor: Time) -> Result<Time, ScheduleError> {
    match interval {
        IntervalView::FromLastCompletion(delta) => match anchor.shifted(delta.seconds()) {
            Some(t) => Ok(t),
            None => Err(ScheduleError::OutOfRange),
        },
        IntervalView::Periodic(TimePeriodView::Daily(time)) => next_daily(time, anchor),
        IntervalView::Periodic(TimePeriodView::Weekly(weekday, time)) => next_weekly(
            weekday,
            time,
            anchor,
        ),
        IntervalView::Periodic(TimePeriodView::Monthly(day, time)) => next_monthly(
            day,
            time,
            anchor,
        ),
        IntervalView::Periodic(TimePeriodView::Annual(day, time)) => next_annual(
            day,
            time,
            anchor,
        ),
        IntervalView::Periodic(TimePeriodView::MultiAnnual(_)) => Err(ScheduleError::Unsupported),
    }
}

/// A slot on a day after the day of the anchor does not lie before the
/// anchor.
proof fn lemma_later_day(anchor: Time, day: int, seconds: int)
    requires
        anchor.day() < day,
        in_calendar_range(day - 7) || in_calendar_range(day - 1) || in_calendar_range(day),
        0 <= seconds <= 0xffff_ffff * 3661,
    ensures
        Time::on_day(day, seconds).at_or_after(anchor),
{
    lemma_calendar_range();
}

/// Forward only: the next due time of a rule never lies before the anchor
/// from which it is counted. For a span from the last completion this holds
/// where the span is not negative.
pub proof fn lemma_next_due_not_before_anchor(interval: IntervalView, anchor: Time)
    requires
        interval matches IntervalView::FromLastCompletion(delta) ==> delta.seconds() >= 0,
    ensures
        next_due(interval, anchor) matches Ok(due) ==> due.at_or_after(anchor),
{
    let day = anchor.day();
    if next_due(interval, anchor) is Ok {
        match interval {
            IntervalView::FromLastCompletion(_) => {},
            IntervalView::Periodic(TimePeriodView::Daily(time)) => {
                lemma_later_day(anchor, day + 1, time.seconds_from_midnight());
            },
            IntervalView::Periodic(TimePeriodView::Weekly(weekday, time)) => {
                let week = lemma_iso_week_exists(day);
                lemma_week_of_day(week, day);
                let slot = iso_week_day(
                    week.year as int,
                    week.week as int,
                    weekday.days_from_monday() as int,
                );
                lemma_later_day(anchor, slot + 7, time.seconds_from_midnight());
            },
            IntervalView::Periodic(TimePeriodView::Monthly(md, time)) => {
                let date = lemma_date_exists(day);
                let (year, month) = if date.month == 12 {
                    (date.year + 1, 1int)
                } else {
                    (date.year as int, date.month + 1)
                };
                if slot_on(year, month, md.day as int, time) is Ok {
                    lemma_day_number_increases(
                        date.year as int,
                        date.month as int,
                        date.day as int,
                        year,
                        month,
                        md.day as int,
                    );
                    lemma_date_in_range(year, month, md.day as int);
                    lemma_later_day(
                        anchor,
                        day_number(year, month, md.day as int),
                        time.seconds_from_midnight(),
                    );
                }
            },
            IntervalView::Periodic(TimePeriodView::Annual(ad, time)) => {
                let date = lemma_date_exists(day);
                if slot_on(date.year + 1, ad.month as int, ad.day as int, time) is Ok {
                    lemma_day_number_increases(
                        date.year as int,
                        date.month as int,
                        date.day as int,
                        date.year + 1,
                        ad.month as int,
                        ad.day as int,
                    );
                    lemma_date_in_range(date.year + 1, ad.month as int, ad.day as int);
                    lemma_later_day(
                        anchor,
                        day_number(date.year + 1, ad.month as int, ad.day as int),
                        time.seconds_from_midnight(),
                    );
                }
            },
            IntervalView::Periodic(TimePeriodView::MultiAnnual(_)) => {},
        }
    }
}

/// The calendar date of the anchor and the ISO week that holds it.
fn anchor_date(anchor: Time) -> (r: Option<(Date, IsoWeek)>)
    ensures
        r is Some <==> in_calendar_range(anchor.day()),
        r is Some ==> (r->0).0 == date_of_day(anchor.day()) && is_date_of(
            (r->0).0,
            anchor.day(),
        ) && year_in_range((r->0).0.year as int),
        r is Some ==> (r->0).1 == iso_week_of_day(anchor.day()) && is_iso_week_of(
            (r->0).1,
            anchor.day(),
        ) && iso_year_in_range((r->0).1.year as int),
{
    proof {
        lemma_calendar_range();
    }
    let day: i64 = anchor.day_number();
    if day < -2147483648 || day > 2147483647 {
        return None;
    }
    let day: i32 = day as i32;
    match civil_date(day) {
        None => None,
        Some((date, week)) => {
            proof {
                lemma_date_unique(date, date_of_day(day as int), day as int);
                lemma_iso_week_unique(week, iso_week_of_day(day as int), day as int);
            }
            Some((date, week))
        },
    }
}

/// The slot at `time` on the given date.
fn slot(year: i32, month: u32, day: u32, time: &TimeOfDay) -> (r: Result<Time, ScheduleError>)
    ensures
        r == slot_on(year as int, month as int, day as int, *time),
{
    if year > MAX_YEAR {
        return Err(ScheduleError::OutOfRange);
    }
    match date_to_day(year, month, day) {
        Some(number) => Ok(Time::at_day(number, time)),
        None => {
            if year < MIN_YEAR {
                Err(ScheduleError::OutOfRange)
            } else {
                Err(ScheduleError::InvalidDate)
            }
        },
    }
}

fn daily(time: &TimeOfDay, anchor: Time) -> (r: Result<Time, ScheduleError>)
    ensures
        r == next_daily(*time, anchor),
{
    match anchor_date(anchor) {
        None => Err(ScheduleError::OutOfRange),
        Some((date, _)) => {
            proof {
                lemma_calendar_range();
            }
            // The slot on the date of the anchor is the slot on its day.
            let candidate = slot(date.year, date.month, date.day, time)?;
            if candidate.is_before(&anchor) {
                Ok(Time { secs: candidate.secs + 86400, nanos: 0 })
            } else {
                Ok(candidate)
            }
        },
    }
}

fn weekly(weekday: Weekday, time: &TimeOfDay, anchor: Time) -> (r: Result<Time, ScheduleError>)
    ensures
        r == next_weekly(weekday, *time, anchor),
{
    match anchor_date(anchor) {
        None => Err(ScheduleError::OutOfRange),
        Some((_, week)) => {
            proof {
                lemma_week_of_day(week, anchor.day());
                lemma_calendar_range();
            }
            match iso_week_date_to_day(week.year, week.week, weekday) {
                None => Err(ScheduleError::OutOfRange),
                Some(number) => {
                    let candidate = Time::at_day(number, time);
                    if candidate.is_before(&anchor) {
                        Ok(Time { secs: candidate.secs + 7 * 86400, nanos: 0 })
                    } else {
                        Ok(candidate)
                    }
                },
            }
        },
    }
}

fn monthly(day: &MonthlyDay, time: &TimeOfDay, anchor: Time) -> (r: Result<Time, ScheduleError>)
    ensures
        r == next_monthly(*day, *time, anchor),
{
    match anchor_date(anchor) {
        None => Err(ScheduleError::OutOfRange),
        Some((date, _)) => {
            let candidate = slot(date.year, date.month, day.day, time)?;
            if candidate.is_before(&anchor) {
                if date.month == 12 {
                    slot(date.year + 1, 1, day.day, time)
                } else {
                    slot(date.year, date.month + 1, day.day, time)
                }
            } else {
                Ok(candidate)
            }
        },
    }
}

fn annual(day: &AnnualDay, time: &TimeOfDay, anchor: Time) -> (r: Result<Time, ScheduleError>)
    ensures
        r == next_annual(*day, *time, anchor),
{
    match anchor_date(anchor) {
        None => Err(ScheduleError::OutOfRange),
        Some((date, _)) => {
            let candidate = slot(date.year, day.month, day.day, time)?;
            if candidate.is_before(&anchor) {
                slot(date.year + 1, day.month, day.day, time)
            } else {
                Ok(candidate)
            }
        },
    }
}

impl Interval {
    /// The next due time of the rule, counted from `anchor`: the anchor plus
    /// the span, or the first slot of the period that does not lie before
    /// the anchor, looking no further than one period ahead.
    pub fn next_due(&self, anchor: Time) -> (r: Result<Time, ScheduleError>)
        ensures
            r == next_due(self@, anchor),
    {
        match self {
            Interval::FromLastCompletion(delta) => match delta.apply_to(anchor) {
                Some(t) => Ok(t),
                None => Err(ScheduleError::OutOfRange),
            },
            Interval::Periodic(TimePeriod::Daily(time)) => daily(time, anchor),
            Interval::Periodic(TimePeriod::Weekly(weekday, time)) => weekly(*weekday, time, anchor),
            Interval::Periodic(TimePeriod::Monthly(day, time)) => monthly(day, time, anchor),
            Interval::Periodic(TimePeriod::Annual(day, time)) => annual(day, time, anchor),
            Interval::Periodic(TimePeriod::MultiAnnual(_)) => Err(ScheduleError::Unsupported),
        }
    }
}

} // verus!
