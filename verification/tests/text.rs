use oil::error::{CommandError, ScheduleError};
use oil::event::EventData;
use oil::interval::{AnnualDay, Interval, MonthlyDay, TimeDelta, TimePeriod};
use oil::time::{Duration, Time, TimeOfDay, Weekday};
use oil::tracked_event::Uid;

fn clock(h: u32, m: u32) -> TimeOfDay {
    TimeOfDay::from_hms(h, m, 0).unwrap()
}

#[test]
fn spans_in_words() {
    assert_eq!(TimeDelta::Days(3).to_string(), "3 days");
    assert_eq!(TimeDelta::Days(-3).to_string(), "-3 days");
    assert_eq!(TimeDelta::Hm(0, 0).to_string(), "");
    assert_eq!(TimeDelta::Hm(-1, 5).to_string(), "-1h5m");
    assert_eq!(
        Interval::FromLastCompletion(TimeDelta::Hm(1, 20)).to_string(),
        "triggers 1h20m after previous completion"
    );
}

#[test]
fn periods_in_words() {
    assert_eq!(
        TimePeriod::Daily(clock(8, 5)).to_string(),
        "triggers daily at 08:05"
    );
    assert_eq!(
        TimePeriod::Weekly(Weekday::Thu, clock(23, 59)).to_string(),
        "triggers weekly on Thu at 23:59"
    );
    assert_eq!(
        TimePeriod::Monthly(MonthlyDay { day: 24 }, clock(0, 0)).to_string(),
        "triggers monthly on 24. at 00:00"
    );
    assert_eq!(
        TimePeriod::Annual(AnnualDay { month: 12, day: 24 }, clock(18, 30)).to_string(),
        "triggers annually on 12.24. at 18:30"
    );
    assert_eq!(
        Interval::Periodic(TimePeriod::MultiAnnual(vec![])).to_string(),
        "triggers multi-annually on following dates and times []"
    );
    assert_eq!(
        TimePeriod::MultiAnnual(vec![AnnualDay { month: 1, day: 2 }]).to_string(),
        "triggers multi-annually on following dates and times [AnnualDay { month: 1, day: 2 }]"
    );
    assert_eq!(
        TimePeriod::MultiAnnual(vec![
            AnnualDay { month: 1, day: 2 },
            AnnualDay { month: 3, day: 4 },
            AnnualDay { month: 12, day: 31 },
        ])
        .to_string(),
        format!(
            "triggers multi-annually on following dates and times {:?}",
            vec![
                AnnualDay { month: 1, day: 2 },
                AnnualDay { month: 3, day: 4 },
                AnnualDay { month: 12, day: 31 },
            ]
        )
    );
    assert_eq!(AnnualDay { month: 2, day: 29 }.to_string(), "2.29.");
    assert_eq!(MonthlyDay { day: 1 }.to_string(), "1.");
    for (weekday, name) in [
        (Weekday::Mon, "Mon"),
        (Weekday::Tue, "Tue"),
        (Weekday::Wed, "Wed"),
        (Weekday::Thu, "Thu"),
        (Weekday::Fri, "Fri"),
        (Weekday::Sat, "Sat"),
        (Weekday::Sun, "Sun"),
    ] {
        assert_eq!(weekday.name(), name);
    }
}

#[test]
fn events_in_words() {
    let plain = EventData::new(
        Interval::Periodic(TimePeriod::Daily(clock(15, 0))),
        "Water the plants".to_string(),
    );
    assert_eq!(
        plain.to_string(),
        "EventData { \"Water the plants\", interval: triggers daily at 15:00 (re-trigger overrides) }"
    );
    assert_eq!(plain.text(), "Water the plants");
    assert!(!plain.stacks());
    assert!(matches!(
        plain.interval(),
        Interval::Periodic(TimePeriod::Daily(_))
    ));
    let stacking = EventData::with_stacks(
        Interval::FromLastCompletion(TimeDelta::Days(2)),
        "Run".to_string(),
        true,
    );
    assert_eq!(
        stacking.to_string(),
        "EventData { \"Run\", interval: triggers 2 days after previous completion (re-trigger stacks) }"
    );
    assert!(stacking.stacks());
    assert_eq!(stacking.clone().to_string(), stacking.to_string());
}

#[test]
fn uids_and_errors_in_words() {
    assert_eq!(Uid(0).to_string(), "0");
    assert_eq!(Uid(1234567890).to_string(), "1234567890");
    assert_eq!(
        CommandError::EventNotFound(Uid(3)).to_string(),
        "cannot apply command"
    );
    assert_eq!(
        CommandError::InvalidReceiver("x".to_string()).to_string(),
        "cannot apply command"
    );
    assert_eq!(
        ScheduleError::InvalidDate.to_string(),
        "the rule names a date that does not exist"
    );
}

#[test]
fn durations() {
    assert_eq!(Duration::days(2).unwrap().num_seconds(), 172800);
    assert_eq!(Duration::hours(-2).unwrap().num_seconds(), -7200);
    assert_eq!(Duration::minutes(3).unwrap().num_seconds(), 180);
    assert_eq!(Duration::days(i64::MAX), None);
    assert_eq!(Duration::hours(i64::MIN), None);
    assert_eq!(Duration::minutes(i64::MAX / 2), None);
    let a = Duration::seconds(i64::MAX);
    assert_eq!(a.checked_add(&Duration::seconds(1)), None);
    assert_eq!(
        a.checked_add(&Duration::seconds(-1)),
        Some(Duration::seconds(i64::MAX - 1))
    );
    assert!(Time::now().is_today());
    assert!(!Time::new(0, 0).is_today());
}
