//! Instants, times of day and weekdays as plain values.

use vstd::prelude::*;
use vstd::string::StringExecFns;
use crate::text::{push_two_digits, two_digits};

verus! {

/// The seconds of a minute.
pub const SECONDS_PER_MINUTE: i64 = 60;

/// The seconds of an hour.
pub const SECONDS_PER_HOUR: i64 = 3600;

/// The seconds of a day.
pub const SECONDS_PER_DAY: i64 = 86400;

/// An instant: whole seconds since 1970-01-01T00:00:00 and the nanoseconds
/// past that second. Instants are ordered by `secs`, then by `nanos`.
#[derive(Clone, Copy, Debug, PartialEq, Eq, Structural)]
pub struct Time {
    pub secs: i64,
    pub nanos: u32,
}

/// A length of time in whole seconds; negative lengths point backwards.
#[derive(Clone, Copy, Debug, PartialEq, Eq, Structural)]
pub struct Duration {
    pub secs: i64,
}

impl Duration {
    /// The length of `count` units of `unit` seconds each, where it can be
    /// held.
    pub open spec fn of_units(count: int, unit: int) -> Option<Duration> {
        if i64::MIN <= count * unit <= i64::MAX {
            Some(Duration { secs: (count * unit) as i64 })
        } else {
            None
        }
    }

    /// The sum of two lengths, where it can be held.
    pub open spec fn sum(self, other: Duration) -> Option<Duration> {
        if i64::MIN <= self.secs + other.secs <= i64::MAX {
            Some(Duration { secs: (self.secs + other.secs) as i64 })
        } else {
            None
        }
    }

    /// A length of `secs` seconds.
    pub fn seconds(secs: i64) -> (d: Duration)
        ensures
            d.secs == secs,
    {
        Duration { secs }
    }

    /// A length of `count` minutes; `None` where its seconds do not fit in
    /// `i64`.
    pub fn minutes(count: i64) -> (d: Option<Duration>)
        ensures
            d == Duration::of_units(count as int, 60),
    {
        match count.checked_mul(SECONDS_PER_MINUTE) {
            Some(secs) => Some(Duration { secs }),
            None => None,
        }
    }

    /// A length of `count` hours; `None` where its seconds do not fit in
    /// `i64`.
    pub fn hours(count: i64) -> (d: Option<Duration>)
        ensures
            d == Duration::of_units(count as int, 3600),
    {
        match count.checked_mul(SECONDS_PER_HOUR) {
            Some(secs) => Some(Duration { secs }),
            None => None,
        }
    }

    /// A length of `count` days of 86400 seconds; `None` where its seconds
    /// do not fit in `i64`.
    pub fn days(count: i64) -> (d: Option<Duration>)
        ensures
            d == Duration::of_units(count as int, 86400),
    {
        match count.checked_mul(SECONDS_PER_DAY) {
            Some(secs) => Some(Duration { secs }),
            None => None,
        }
    }

    /// The sum of the two lengths; `None` where it does not fit in `i64`.
    pub fn checked_add(&self, other: &Duration) -> (d: Option<Duration>)
        ensures
            d == self.sum(*other),
    {
        match self.secs.checked_add(other.secs) {
            Some(secs) => Some(Duration { secs }),
            None => None,
        }
    }

    /// The length in seconds.
    pub fn num_seconds(&self) -> (n: i64)
        ensures
            n == self.secs,
    {
        self.secs
    }
}

/// A time of day as it stands on a clock. A time that a clock can show has
/// `hour < 24`, `minute < 60` and `second < 60`.
#[derive(Clone, Copy, Debug, PartialEq, Eq, Structural)]
pub struct TimeOfDay {
    pub hour: u32,
    pub minute: u32,
    pub second: u32,
}

impl TimeOfDay {
    /// A clock can show this time.
    pub open spec fn on_clock(self) -> bool {
        self.hour < 24 && self.minute < 60 && self.second < 60
    }

    /// Seconds from midnight to this time of day.
    pub open spec fn seconds_from_midnight(self) -> int {
        self.hour * 3600 + self.minute * 60 + self.second
    }

    /// The time of day with the given fields, if a clock can show it.
    pub fn from_hms(hour: u32, minute: u32, second: u32) -> (r: Option<TimeOfDay>)
        ensures
            r is Some <==> (TimeOfDay { hour, minute, second }).on_clock(),
            r is Some ==> r->0 == (TimeOfDay { hour, minute, second }),
    {
        if hour < 24 && minute < 60 && second < 60 {
            Some(TimeOfDay { hour, minute, second })
        } else {
            None
        }
    }

    /// The time as hours and minutes in two digits each: `08:05`.
    pub open spec fn text(self) -> Seq<char> {
        two_digits(self.hour as nat) + ":"@ + two_digits(self.minute as nat)
    }

    /// The time as text.
    pub fn to_string(&self) -> (s: String)
        ensures
            s@ == self.text(),
    {
        let mut out = String::new();
        push_two_digits(&mut out, self.hour);
        out.append(":");
        push_two_digits(&mut out, self.minute);
        assert(out@ =~= self.text());
        out
    }

    /// Seconds from midnight to this time of day.
    pub fn num_seconds_from_midnight(&self) -> (n: i64)
        ensures
            n == self.seconds_from_midnight(),
            0 <= n,
    {
        let h: i64 = self.hour as i64;
        let m: i64 = self.minute as i64;
        let s: i64 = self.second as i64;
        h * SECONDS_PER_HOUR + m * SECONDS_PER_MINUTE + s
    }
}

/// A day of the week.
#[derive(Clone, Copy, Debug, PartialEq, Eq, Structural)]
pub enum Weekday {
    Mon,
    Tue,
    Wed,
    Thu,
    Fri,
    Sat,
    Sun,
}

impl Weekday {
    /// Days from Monday to this weekday: 0 for Monday, 6 for Sunday.
    pub open spec fn days_from_monday(self) -> nat {
        match self {
            Weekday::Mon => 0,
            Weekday::Tue => 1,
            Weekday::Wed => 2,
            Weekday::Thu => 3,
            Weekday::Fri => 4,
            Weekday::Sat => 5,
            Weekday::Sun => 6,
        }
    }

    /// The name of the weekday in three letters.
    pub open spec fn text(self) -> Seq<char> {
        match self {
            Weekday::Mon => "Mon"@,
            Weekday::Tue => "Tue"@,
            Weekday::Wed => "Wed"@,
            Weekday::Thu => "Thu"@,
            Weekday::Fri => "Fri"@,
            Weekday::Sat => "Sat"@,
            Weekday::Sun => "Sun"@,
        }
    }

    /// The name of the weekday.
    pub fn name(&self) -> (s: &'static str)
        ensures
            s@ == self.text(),
    {
        match self {
            Weekday::Mon => "Mon",
            Weekday::Tue => "Tue",
            Weekday::Wed => "Wed",
            Weekday::Thu => "Thu",
            Weekday::Fri => "Fri",
            Weekday::Sat => "Sat",
            Weekday::Sun => "Sun",
        }
    }

    /// The weekday that lies `days` days after Monday, for up to six days.
    pub fn from_days_from_monday(days: usize) -> (r: Option<Weekday>)
        ensures
            r is Some <==> days < 7,
            r is Some ==> (r->0).days_from_monday() == days,
    {
        if days == 0 {
            Some(Weekday::Mon)
        } else if days == 1 {
            Some(Weekday::Tue)
        } else if days == 2 {
            Some(Weekday::Wed)
        } else if days == 3 {
            Some(Weekday::Thu)
        } else if days == 4 {
            Some(Weekday::Fri)
        } else if days == 5 {
            Some(Weekday::Sat)
        } else if days == 6 {
            Some(Weekday::Sun)
        } else {
            None
        }
    }

    /// Days from Monday to this weekday.
    pub fn num_days_from_monday(&self) -> (n: u32)
        ensures
            n == self.days_from_monday(),
    {
        match self {
            Weekday::Mon => 0,
            Weekday::Tue => 1,
            Weekday::Wed => 2,
            Weekday::Thu => 3,
            Weekday::Fri => 4,
            Weekday::Sat => 5,
            Weekday::Sun => 6,
        }
    }
}

impl Time {
    /// `self` is strictly earlier than `other`.
    pub open spec fn before(self, other: Time) -> bool {
        self.secs < other.secs || (self.secs == other.secs && self.nanos < other.nanos)
    }

    /// `self` is `other` or later.
    pub open spec fn at_or_after(self, other: Time) -> bool {
        !self.before(other)
    }

    /// The number of the day that holds the instant, counted from
    /// 1970-01-01 as day 0.
    pub open spec fn day(self) -> int {
        self.secs as int / 86400
    }

    /// The instant `seconds` after the start of day number `day`.
    pub open spec fn on_day(day: int, seconds: int) -> Time {
        Time { secs: (day * 86400 + seconds) as i64, nanos: 0 }
    }

    /// Whole seconds from `self` to `later`, rounded towards zero; negative
    /// where `later` is the earlier of the two.
    pub open spec fn whole_seconds_until(self, later: Time) -> int {
        let nanos = (later.secs - self.secs) * 1_000_000_000 + (later.nanos - self.nanos);
        if nanos >= 0 {
            nanos / 1_000_000_000
        } else {
            -((-nanos) / 1_000_000_000)
        }
    }

    /// The instant `delta` whole seconds after `self`, where it can be held.
    pub open spec fn shifted(self, delta: int) -> Option<Time> {
        if i64::MIN <= self.secs + delta <= i64::MAX {
            Some(Time { secs: (self.secs + delta) as i64, nanos: self.nanos })
        } else {
            None
        }
    }

    /// The instant `nanos` nanoseconds past second `secs`.
    pub fn new(secs: i64, nanos: u32) -> (t: Time)
        ensures
            t.secs == secs,
            t.nanos == nanos,
    {
        Time { secs, nanos }
    }

    /// Reads the system clock through `chrono::Local::now`. Trusted; nothing
    /// is promised of the instant that comes back.
    #[verifier::external_body]
    pub fn now() -> (t: Time) {
        let n = chrono::Local::now();
        Time { secs: n.timestamp(), nanos: n.timestamp_subsec_nanos() }
    }

    /// Whether `self` is strictly earlier than `other`.
    pub fn is_before(&self, other: &Time) -> (r: bool)
        ensures
            r == self.before(*other),
    {
        self.secs < other.secs || (self.secs == other.secs && self.nanos < other.nanos)
    }

    /// Whether `self` is `other` or later.
    pub fn is_at_or_after(&self, other: &Time) -> (r: bool)
        ensures
            r == self.at_or_after(*other),
    {
        !self.is_before(other)
    }

    /// The number of the day that holds the instant.
    pub fn day_number(&self) -> (d: i64)
        ensures
            d == self.day(),
    {
        if self.secs >= 0 {
            self.secs / SECONDS_PER_DAY
        } else {
            -((-(self.secs + 1)) / SECONDS_PER_DAY) - 1
        }
    }

    /// The instant at which a clock shows `time` on day number `day`.
    pub fn at_day(day: i32, time: &TimeOfDay) -> (r: Time)
        ensures
            r == Time::on_day(day as int, time.seconds_from_midnight()),
            r.secs == day * 86400 + time.seconds_from_midnight(),
    {
        let d: i64 = day as i64;
        Time { secs: d * SECONDS_PER_DAY + time.num_seconds_from_midnight(), nanos: 0 }
    }

    /// Whether the two instants lie on the same day.
    pub fn is_same_day(&self, other: &Time) -> (r: bool)
        ensures
            r == (self.day() == other.day()),
    {
        self.day_number() == other.day_number()
    }

    /// Whether the instant lies on the day that the clock shows.
    pub fn is_today(&self) -> (r: bool)
        ensures
            exists|now: Time| r == (#[trigger] now.day() == self.day()),
    {
        let now = Time::now();
        now.is_same_day(self)
    }

    /// Adds whole seconds, keeping the nanoseconds. `None` where the sum
    /// leaves the range of `i64`.
    pub fn plus_seconds(&self, delta: i64) -> (r: Option<Time>)
        ensures
            r == self.shifted(delta as int),
    {
        match self.secs.checked_add(delta) {
            Some(secs) => Some(Time { secs, nanos: self.nanos }),
            None => None,
        }
    }
}

} // verus!
