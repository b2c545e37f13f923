use oil::event::EventData;
use oil::interval::{Interval, TimeDelta, TimePeriod};
use oil::listing::{split_index, Line, Rank};
use oil::status::Status;
use oil::time::{Duration, Time, TimeOfDay, Weekday};
use oil::tracked_event::{TrackedEvent, Uid};
use oil::tracker::Tracker;
use oil::view::{TrackerCli, ViewState};

fn t(secs: i64) -> Time {
    Time::new(secs, 0)
}

fn span(minutes: i64) -> Interval {
    Interval::FromLastCompletion(TimeDelta::Hm(0, minutes))
}

fn sample() -> Tracker {
    let mut tracker = Tracker::empty();
    // uid 0: due at 6000
    tracker.add_event_with_state(EventData::new(span(100), "0".to_string()), Status::from_time(t(0)));
    // uid 1: due at 600
    tracker.add_event_with_state(EventData::new(span(10), "1".to_string()), Status::from_time(t(0)));
    // uid 2: triggered, rough length 3000
    tracker.add_event_with_state(EventData::new(span(50), "2".to_string()), Status::from_time(t(0)));
    // uid 3: triggered, rough length 60
    tracker.add_event_with_state(EventData::new(span(1), "3".to_string()), Status::from_time(t(0)));
    // uid 4: due at 600 as well
    tracker.add_event_with_state(EventData::new(span(5), "4".to_string()), Status::from_time(t(300)));
    // uid 5: triggered, no rough length
    tracker.add_event_with_state(
        EventData::new(
            Interval::Periodic(TimePeriod::MultiAnnual(vec![])),
            "5".to_string(),
        ),
        Status::from_time(t(0)),
    );
    // uid 6: triggered, rough length 60 as uid 3
    tracker.add_event_with_state(EventData::new(span(1), "6".to_string()), Status::from_time(t(0)));
    for uid in [2, 3, 5, 6] {
        tracker.get_event_mut(Uid(uid)).unwrap().trigger_at(t(1));
    }
    tracker
}

#[test]
fn ranks_order_events() {
    let none = Rank { due: None, length: None };
    let short = Rank { due: None, length: Some(Duration::seconds(60)) };
    let long = Rank { due: None, length: Some(Duration::seconds(61)) };
    let early = Rank { due: Some(t(5)), length: Some(Duration::seconds(1)) };
    let late = Rank { due: Some(Time::new(5, 1)), length: None };
    let order = [none, short, long, early, late];
    for (i, a) in order.iter().enumerate() {
        for (j, b) in order.iter().enumerate() {
            assert_eq!(a.is_before(b), i < j, "{} {}", i, j);
        }
    }
}

#[test]
fn the_extended_view_lists_every_event_in_order() {
    let cli = TrackerCli::new(sample());
    let list = cli.generate_events_list(&t(0));
    let uids: Vec<usize> = list.iter().map(|(uid, _)| uid.0).collect();
    assert_eq!(uids, vec![5, 3, 6, 2, 1, 4, 0]);
    for (uid, event) in list.iter() {
        assert_eq!(event.text(), uid.0.to_string());
    }
    let rows = cli.tracker().listing(ViewState::Extended, &t(0));
    assert_eq!(rows.len(), 7);
    assert_eq!(rows[0].1, Uid(5));
    assert_eq!(rows[4].0.due, Some(t(600)));
    assert_eq!(rows[1].0.length, Some(Duration::seconds(60)));
}

#[test]
fn the_standard_view_lists_what_is_triggered_or_close() {
    let mut cli = TrackerCli::new(sample());
    cli.set_state(ViewState::Standard);
    // At 0 nothing is within a twelfth of its length.
    let uids: Vec<usize> = cli
        .generate_events_list(&t(0))
        .iter()
        .map(|(uid, _)| uid.0)
        .collect();
    assert_eq!(uids, vec![5, 3, 6, 2]);
    // At 551, 49 of 600 seconds are left for uid 1: less than a twelfth.
    // For uid 4, 49 of 300 seconds are left: more than a twelfth.
    let uids: Vec<usize> = cli
        .generate_events_list(&t(551))
        .iter()
        .map(|(uid, _)| uid.0)
        .collect();
    assert_eq!(uids, vec![5, 3, 6, 2, 1]);
    // At 550 exactly a twelfth is left for uid 1, which is not less.
    let uids: Vec<usize> = cli
        .generate_events_list(&t(550))
        .iter()
        .map(|(uid, _)| uid.0)
        .collect();
    assert_eq!(uids, vec![5, 3, 6, 2]);
    // Past due counts as close.
    let uids: Vec<usize> = cli
        .generate_events_list(&t(7000))
        .iter()
        .map(|(uid, _)| uid.0)
        .collect();
    assert_eq!(uids, vec![5, 3, 6, 2, 1, 4, 0]);
}

#[test]
fn events_decide_themselves_whether_they_are_listed() {
    let event = TrackedEvent::with_state(
        EventData::new(
            Interval::Periodic(TimePeriod::Daily(TimeOfDay::from_hms(12, 0, 0).unwrap())),
            "daily".to_string(),
        ),
        Status::from_time(t(0)),
    );
    assert_eq!(event.rank().due, Some(t(43200)));
    assert_eq!(event.rank().length, Some(Duration::seconds(86400)));
    assert!(event.is_listed(ViewState::Extended, &t(0)));
    assert!(!event.is_listed(ViewState::Standard, &t(0)));
    assert!(!event.is_listed(ViewState::Standard, &t(36000)));
    assert!(event.is_listed(ViewState::Standard, &t(36001)));
}

#[test]
fn lines_name_events_by_their_place_in_the_list() {
    let mut cli = TrackerCli::new(sample());
    // Place 4 is uid 1, place 0 is uid 5.
    assert!(cli.call_at("rm 4", t(0)).is_ok());
    assert!(cli.tracker().get_event(Uid(1)).is_none());
    assert!(cli.call_at("0", t(0)).is_ok());
    assert!(!cli.tracker().get_event(Uid(5)).unwrap().is_triggered());
    assert!(cli.call_at("undo", t(0)).is_ok());
    assert!(cli.tracker().get_event(Uid(5)).unwrap().is_triggered());
    assert!(cli.call_at("u", t(0)).is_ok());
    assert!(cli.tracker().get_event(Uid(1)).is_some());
    assert!(cli.call_at("hide", t(0)).is_ok());
    assert_eq!(cli.state(), ViewState::Standard);
    assert!(cli.call_at("undo", t(0)).is_ok());
    assert_eq!(cli.state(), ViewState::Extended);
}

#[test]
fn lines_of_the_standard_and_the_extended_view() {
    let mut event = TrackedEvent::with_state(
        EventData::new(span(10), "line".to_string()),
        Status::from_time(t(0)),
    );
    assert_eq!(event.line(ViewState::Standard, &t(0)), Line::Upcoming(t(600)));
    assert_eq!(
        event.line(ViewState::Extended, &t(0)),
        Line::Full { triggered: false, next: Some(t(600)) }
    );
    event.trigger_at(t(700));
    assert_eq!(event.line(ViewState::Standard, &t(800)), Line::Due);
    assert_eq!(
        event.line(ViewState::Extended, &t(800)),
        Line::Full { triggered: true, next: None }
    );
    event.1.skip_at(t(900));
    assert_eq!(event.line(ViewState::Standard, &t(1000)), Line::Hidden);
    assert_eq!(
        event.line(ViewState::Extended, &t(1000)),
        Line::Full { triggered: false, next: Some(t(1500)) }
    );
    let unsupported = TrackedEvent::with_state(
        EventData::new(
            Interval::Periodic(TimePeriod::MultiAnnual(vec![])),
            "none".to_string(),
        ),
        Status::from_time(t(0)),
    );
    assert_eq!(unsupported.line(ViewState::Standard, &t(0)), Line::Hidden);
    assert_eq!(
        unsupported.line(ViewState::Extended, &t(0)),
        Line::Full { triggered: false, next: None }
    );
}

#[test]
fn lists_are_split_where_recurrences_get_long() {
    let day = TrackedEvent::with_state(
        EventData::new(span(24 * 60), "day".to_string()),
        Status::from_time(t(0)),
    );
    let day_and_hour = TrackedEvent::with_state(
        EventData::new(span(25 * 60), "day and hour".to_string()),
        Status::from_time(t(0)),
    );
    let week = TrackedEvent::with_state(
        EventData::new(
            Interval::Periodic(TimePeriod::Weekly(
                Weekday::Mon,
                TimeOfDay::from_hms(1, 0, 0).unwrap(),
            )),
            "week".to_string(),
        ),
        Status::from_time(t(0)),
    );
    assert!(!day.recurs_slowly());
    assert!(day_and_hour.recurs_slowly());
    assert!(week.recurs_slowly());
    assert_eq!(split_index(&vec![]), None);
    assert_eq!(split_index(&vec![(Uid(0), &day), (Uid(1), &day)]), None);
    assert_eq!(
        split_index(&vec![(Uid(0), &day), (Uid(1), &week), (Uid(2), &day)]),
        Some(1)
    );
    assert_eq!(split_index(&vec![(Uid(1), &day_and_hour)]), Some(0));
    assert_eq!(Weekday::from_days_from_monday(0), Some(Weekday::Mon));
    assert_eq!(Weekday::from_days_from_monday(6), Some(Weekday::Sun));
    assert_eq!(Weekday::from_days_from_monday(7), None);
}
