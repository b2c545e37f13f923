//! Recurrence rules: when an event comes due again.

use vstd::prelude::*;
use vstd::string::StringExecFns;
use crate::text::{decimal, push_decimal};
use crate::time::{Duration, Time, TimeOfDay, Weekday};

verus! {

/// A span between one completion of an event and its next trigger.
#[derive(Clone, Copy, Debug, PartialEq, Eq, Structural)]
pub enum TimeDelta {
    /// A number of days.
    Days(i64),
    /// Hours and minutes.
    Hm(i64, i64),
}

/// A day of the year: month (1 to 12) and day of the month.
#[derive(Clone, Copy, Debug, PartialEq, Eq, Structural)]
pub struct AnnualDay {
    pub month: u32,
    pub day: u32,
}

/// A day of the month.
#[derive(Clone, Copy, Debug, PartialEq, Eq, Structural)]
pub struct MonthlyDay {
    pub day: u32,
}

/// A fixed slot in the calendar at which an event recurs.
#[derive(Debug)]
pub enum TimePeriod {
    Annual(AnnualDay, TimeOfDay),
    Monthly(MonthlyDay, TimeOfDay),
    Weekly(Weekday, TimeOfDay),
    Daily(TimeOfDay),
    /// Several days of the year. No scheduling rule exists for it.
    MultiAnnual(Vec<AnnualDay>),
}

/// When an event recurs.
#[derive(Debug)]
pub enum Interval {
    /// A span counted from the last completion.
    FromLastCompletion(TimeDelta),
    /// A fixed slot in the calendar.
    Periodic(TimePeriod),
}

/// What a `TimePeriod` holds.
pub enum TimePeriodView {
    Annual(AnnualDay, TimeOfDay),
    Monthly(MonthlyDay, TimeOfDay),
    Weekly(Weekday, TimeOfDay),
    Daily(TimeOfDay),
    MultiAnnual(Seq<AnnualDay>),
}

/// What an `Interval` holds.
pub enum IntervalView {
    FromLastCompletion(TimeDelta),
    Periodic(TimePeriodView),
}

impl View for TimePeriod {
    type V = TimePeriodView;

    open spec fn view(&self) -> TimePeriodView {
        match *self {
            TimePeriod::Annual(day, time) => TimePeriodView::Annual(day, time),
            TimePeriod::Monthly(day, time) => TimePeriodView::Monthly(day, time),
            TimePeriod::Weekly(weekday, time) => TimePeriodView::Weekly(weekday, time),
            TimePeriod::Daily(time) => TimePeriodView::Daily(time),
            TimePeriod::MultiAnnual(days) => TimePeriodView::MultiAnnual(days@),
        }
    }
}

impl View for Interval {
    type V = IntervalView;

    open spec fn view(&self) -> IntervalView {
        match *self {
            Interval::FromLastCompletion(delta) => IntervalView::FromLastCompletion(delta),
            Interval::Periodic(period) => IntervalView::Periodic(period@),
        }
    }
}

impl Clone for TimePeriod {
    fn clone(&self) -> (r: TimePeriod)
        ensures
            r@ == self@,
    {
        match self {
            TimePeriod::Annual(day, time) => TimePeriod::Annual(*day, *time),
            TimePeriod::Monthly(day, time) => TimePeriod::Monthly(*day, *time),
            TimePeriod::Weekly(weekday, time) => TimePeriod::Weekly(*weekday, *time),
            TimePeriod::Daily(time) => TimePeriod::Daily(*time),
            TimePeriod::MultiAnnual(days) => TimePeriod::MultiAnnual(days.clone()),
        }
    }
}

impl Clone for Interval {
    fn clone(&self) -> (r: Interval)
        ensures
            r@ == self@,
    {
        match self {
            Interval::FromLastCompletion(delta) => Interval::FromLastCompletion(*delta),
            Interval::Periodic(period) => Interval::Periodic(period.clone()),
        }
    }
}

impl TimeDelta {
    /// The span in seconds.
    pub open spec fn seconds(self) -> int {
        match self {
            TimeDelta::Days(days) => days * 86400,
            TimeDelta::Hm(hours, minutes) => hours * 3600 + minutes * 60,
        }
    }

    /// The span as a `Duration`, where its seconds fit one.
    pub open spec fn duration(self) -> Option<Duration> {
        if i64::MIN <= self.seconds() <= i64::MAX {
            Some(Duration { secs: self.seconds() as i64 })
        } else {
            None
        }
    }

    /// How the span is written: `3 days`, `1h20m`, `15m`, `5h`. Hours or
    /// minutes that are zero are left out.
    pub open spec fn text(self) -> Seq<char> {
        match self {
            TimeDelta::Days(days) => decimal(days as int) + " days"@,
            TimeDelta::Hm(hours, minutes) => {
                let h = if hours == 0 {
                    Seq::<char>::empty()
                } else {
                    decimal(hours as int) + "h"@
                };
                let m = if minutes == 0 {
                    Seq::<char>::empty()
                } else {
                    decimal(minutes as int) + "m"@
                };
                h + m
            },
        }
    }

    fn total_seconds(&self) -> (n: i128)
        ensures
            n == self.seconds(),
    {
        match self {
            TimeDelta::Days(days) => {
                let d: i128 = *days as i128;
                d * 86400
            },
            TimeDelta::Hm(hours, minutes) => {
                let h: i128 = *hours as i128;
                let m: i128 = *minutes as i128;
                h * 3600 + m * 60
            },
        }
    }

    /// The span as a `Duration`; `None` where its seconds do not fit in
    /// `i64`.
    pub fn to_duration(&self) -> (r: Option<Duration>)
        ensures
            r == self.duration(),
    {
        let n: i128 = self.total_seconds();
        if n < i64::MIN as i128 || n > i64::MAX as i128 {
            None
        } else {
            Some(Duration { secs: n as i64 })
        }
    }

    /// The instant that lies this span after `time`; `None` where it cannot
    /// be held.
    pub fn apply_to(&self, time: Time) -> (r: Option<Time>)
        ensures
            r == time.shifted(self.seconds()),
    {
        let n: i128 = self.total_seconds() + time.secs as i128;
        if n < i64::MIN as i128 || n > i64::MAX as i128 {
            None
        } else {
            Some(Time { secs: n as i64, nanos: time.nanos })
        }
    }

    /// The span as text.
    pub fn to_string(&self) -> (s: String)
        ensures
            s@ == self.text(),
    {
        let mut out = String::new();
        match self {
            TimeDelta::Days(days) => {
                push_decimal(&mut out, *days);
                out.append(" days");
            },
            TimeDelta::Hm(hours, minutes) => {
                if *hours != 0 {
                    push_decimal(&mut out, *hours);
                    out.append("h");
                }
                if *minutes != 0 {
                    push_decimal(&mut out, *minutes);
                    out.append("m");
                }
            },
        }
        assert(out@ =~= self.text());
        out
    }
}

impl AnnualDay {
    /// The day as month and day of the month, a full stop after each:
    /// `12.24.`.
    pub open spec fn text(self) -> Seq<char> {
        decimal(self.month as int) + "."@ + decimal(self.day as int) + "."@
    }

    /// The day as the fields of the struct, by name.
    pub open spec fn debug_text(self) -> Seq<char> {
        "AnnualDay { month: "@ + decimal(self.month as int) + ", day: "@ + decimal(
            self.day as int,
        ) + " }"@
    }

    /// The day as text.
    pub fn to_string(&self) -> (s: String)
        ensures
            s@ == self.text(),
    {
        let mut out = String::new();
        push_decimal(&mut out, self.month as i64);
        out.append(".");
        push_decimal(&mut out, self.day as i64);
        out.append(".");
        assert(out@ =~= self.text());
        out
    }

    /// Appends the fields of the struct, by name, to `out`.
    pub fn push_debug(&self, out: &mut String)
        ensures
            final(out)@ == old(out)@ + self.debug_text(),
    {
        out.append("AnnualDay { month: ");
        push_decimal(out, self.month as i64);
        out.append(", day: ");
        push_decimal(out, self.day as i64);
        out.append(" }");
        assert(out@ =~= old(out)@ + self.debug_text());
    }
}

impl MonthlyDay {
    /// The day of the month with a full stop after it: `24.`.
    pub open spec fn text(self) -> Seq<char> {
        decimal(self.day as int) + "."@
    }

    /// The day as text.
    pub fn to_string(&self) -> (s: String)
        ensures
            s@ == self.text(),
    {
        let mut out = String::new();
        push_decimal(&mut out, self.day as i64);
        out.append(".");
        assert(out@ =~= self.text());
        out
    }
}

/// The days in a row with a comma and a blank between them.
pub open spec fn days_text(days: Seq<AnnualDay>) -> Seq<char>
    decreases days.len(),
{
    if days.len() == 0 {
        Seq::empty()
    } else if days.len() == 1 {
        days[0].debug_text()
    } else {
        days_text(days.drop_last()) + ", "@ + days.last().debug_text()
    }
}

impl TimePeriodView {
    /// The period in words.
    pub open spec fn text(self) -> Seq<char> {
        match self {
            TimePeriodView::MultiAnnual(days) =>
                "triggers multi-annually on following dates and times ["@ + days_text(days)
                    + "]"@,
            TimePeriodView::Annual(day, time) => "triggers annually on "@ + day.text() + " at "@
                + time.text(),
            TimePeriodView::Monthly(day, time) => "triggers monthly on "@ + day.text() + " at "@
                + time.text(),
            TimePeriodView::Weekly(weekday, time) => "triggers weekly on "@ + weekday.text()
                + " at "@ + time.text(),
            TimePeriodView::Daily(time) => "triggers daily at "@ + time.text(),
        }
    }
}

impl IntervalView {
    /// The rule in words.
    pub open spec fn text(self) -> Seq<char> {
        match self {
            IntervalView::FromLastCompletion(delta) => "triggers "@ + delta.text()
                + " after previous completion"@,
            IntervalView::Periodic(period) => period.text(),
        }
    }
}

impl TimePeriod {
    /// The period in words.
    pub fn to_string(&self) -> (s: String)
        ensures
            s@ == self@.text(),
    {
        let mut out = String::new();
        match self {
            TimePeriod::MultiAnnual(days) => {
                out.append("triggers multi-annually on following dates and times [");
                let ghost start = out@;
                let mut i: usize = 0;
                proof {
                    assert(days@.take(0) =~= Seq::<AnnualDay>::empty());
                }
                while i < days.len()
                    invariant
                        i <= days@.len(),
                        out@ == start + days_text(days@.take(i as int)),
                    decreases days@.len() - i,
                {
                    proof {
                        assert(days@.take(i + 1).drop_last() =~= days@.take(i as int));
                        assert(days@.take(i + 1).last() == days@[i as int]);
                        assert(days@.take(i + 1)[0] == days@[0]);
                    }
                    let ghost before = out@;
                    if i > 0 {
                        out.append(", ");
                    }
                    days[i].push_debug(&mut out);
                    proof {
                        assert(out@ =~= start + days_text(days@.take(i + 1)));
                    }
                    i += 1;
                }
                proof {
                    assert(days@.take(i as int) =~= days@);
                }
                out.append("]");
            },
            TimePeriod::Annual(day, time) => {
                out.append("triggers annually on ");
                out.append(day.to_string().as_str());
                out.append(" at ");
                out.append(time.to_string().as_str());
            },
            TimePeriod::Monthly(day, time) => {
                out.append("triggers monthly on ");
                out.append(day.to_string().as_str());
                out.append(" at ");
                out.append(time.to_string().as_str());
            },
            TimePeriod::Weekly(weekday, time) => {
                out.append("triggers weekly on ");
                out.append(weekday.name());
                out.append(" at ");
                out.append(time.to_string().as_str());
            },
            TimePeriod::Daily(time) => {
                out.append("triggers daily at ");
                out.append(time.to_string().as_str());
            },
        }
        assert(out@ =~= self@.text());
        out
    }
}

impl Interval {
    /// The rule in words.
    pub fn to_string(&self) -> (s: String)
        ensures
            s@ == self@.text(),
    {
        match self {
            Interval::FromLastCompletion(delta) => {
                let mut out = String::new();
                out.append("triggers ");
                out.append(delta.to_string().as_str());
                out.append(" after previous completion");
                assert(out@ =~= self@.text());
                out
            },
            Interval::Periodic(period) => period.to_string(),
        }
    }
}

impl TimePeriodView {
    /// The rough length of one period: a day, a week, 30 days for a month,
    /// 365 days for a year. Undefined for several days of the year.
    pub open spec fn duration_heuristic(self) -> Option<Duration> {
        match self {
            TimePeriodView::Annual(_, _) => Some(Duration { secs: 31536000 }),
            TimePeriodView::Monthly(_, _) => Some(Duration { secs: 2592000 }),
            TimePeriodView::Weekly(_, _) => Some(Duration { secs: 604800 }),
            TimePeriodView::Daily(_) => Some(Duration { secs: 86400 }),
            TimePeriodView::MultiAnnual(_) => None,
        }
    }
}

impl IntervalView {
    /// The rough length of one recurrence: the span itself, or the rough
    /// length of the period.
    pub open spec fn duration_heuristic(self) -> Option<Duration> {
        match self {
            IntervalView::FromLastCompletion(delta) => delta.duration(),
            IntervalView::Periodic(period) => period.duration_heuristic(),
        }
    }
}

impl TimePeriod {
    /// The rough length of one period, for ranking events only.
    pub fn to_duration_heuristic(&self) -> (r: Option<Duration>)
        ensures
            r == self@.duration_heuristic(),
    {
        match self {
            TimePeriod::Annual(_, _) => Duration::days(365),
            TimePeriod::Monthly(_, _) => Duration::days(30),
            TimePeriod::Weekly(_, _) => Duration::days(7),
            TimePeriod::Daily(_) => Duration::days(1),
            TimePeriod::MultiAnnual(_) => None,
        }
    }
}

impl Interval {
    /// The rough length of one recurrence, for ranking events only.
    pub fn to_duration_heuristic(&self) -> (r: Option<Duration>)
        ensures
            r == self@.duration_heuristic(),
    {
        match self {
            Interval::FromLastCompletion(delta) => delta.to_duration(),
            Interval::Periodic(period) => period.to_duration_heuristic(),
        }
    }
}

} // verus!
