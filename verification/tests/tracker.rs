use chrono::{DateTime, Datelike, NaiveTime, Timelike};
use oil::command::{Command, CompleteCommand, TriggerCommand};
use oil::event::EventData;
use oil::interval::{Interval, TimeDelta, TimePeriod};
use oil::resolve::{CommandKind, Matched};
use oil::status::{Status, StatusKind};
use oil::time::{Time, TimeOfDay};
use oil::tracked_event::Uid;
use oil::tracker::Tracker;
use oil::view::{Applied, TrackerCli};

fn test_event() -> EventData {
    EventData::new(
        Interval::FromLastCompletion(TimeDelta::Hm(0, 1)),
        "Test EventData".to_string(),
    )
}

#[test]
fn test_event_lifecycle() {
    let mut tracker = Tracker::empty();

    let handle = tracker.add_event(test_event());

    // Verify that the event is accessible with its handle
    let event = tracker.get_event_mut(handle).unwrap();

    // Verify that the event is in dormant state
    match event.1.status {
        StatusKind::Dormant { .. } => {}
        _ => unreachable!(),
    }

    // Remove the event
    tracker.remove_event(handle);

    // Verify that the event is removed
    assert!(tracker.get_event_mut(handle).is_none());
}

#[test]
fn tests_event_lifecycle() {
    let mut tracker = Tracker::empty();

    let handle = tracker.add_event(EventData::new(
        Interval::FromLastCompletion(TimeDelta::Hm(0, 5)),
        "Test Event".to_string(),
    ));

    // Verify that the event is accessible with its handle
    let event = tracker.get_event_mut(handle).unwrap();

    // Verify that the event is in dormant state
    match event.1.kind() {
        StatusKind::Dormant { .. } => {}
        _ => unreachable!(),
    }

    // Remove the event
    tracker.remove_event(handle);

    // Verify that the event is removed
    assert!(tracker.get_event_mut(handle).is_none());
}

#[test]
fn multiset_done() {
    let mut cli = TrackerCli::new(Tracker::empty());
    let ev = test_event();

    let events: Vec<Uid> = {
        let tracker = &mut cli.tracker;

        // Add three events
        let evs = (0..3)
            .into_iter()
            .map(|_| tracker.add_event(ev.clone()))
            .collect::<Vec<Uid>>();

        // Set events as triggered
        evs.into_iter().for_each(|uid| {
            tracker.get_event_mut(uid).unwrap().trigger_now();
        });

        // Check that all events are triggered
        assert!(tracker.events().iter().all(|(_, ev)| ev.is_triggered()));

        tracker.events().iter().map(|(uid, _)| *uid).collect()
    };

    // Pick two of the events to be set as done
    let mut ev_it = events.iter().enumerate();
    let set_ev_ids = ev_it
        .by_ref()
        .take(2)
        .map(|(idx, uid)| (idx, uid.clone()))
        .collect::<Vec<(usize, Uid)>>();
    let unset_ev_ids = ev_it
        .take(1)
        .map(|(idx, uid)| (idx, uid.clone()))
        .collect::<Vec<(usize, Uid)>>();

    // Command to set two of the events as done, ie. "0 1"
    let cmd = format!("{} {}", set_ev_ids[0].0, set_ev_ids[1].0);

    // Set two events as done
    let called = cli.call(&cmd);
    assert!(matches!(called, Ok(Applied::Done)));

    let tracker = &mut cli.tracker;

    // Verify that the two events are done, and the last one is still triggered
    assert!(
        tracker.get_event(set_ev_ids[0].1).unwrap().is_done(),
        "first event was not done after setting it done"
    );
    assert!(tracker.get_event(set_ev_ids[1].1).unwrap().is_done());
    assert!(tracker.get_event(unset_ev_ids[0].1).unwrap().is_triggered());
}

#[test]
fn batch_complete_by_uid() {
    let mut tracker = Tracker::empty();
    let t0 = Time::new(1_600_000_000, 0);
    let uids: Vec<Uid> = (0..3)
        .map(|_| tracker.add_event_with_state(test_event(), Status::from_time(t0)))
        .collect();
    for uid in &uids {
        tracker.get_event_mut(*uid).unwrap().trigger_at(Time::new(1_600_000_100, 0));
    }
    assert!(tracker.events().iter().all(|(_, ev)| ev.is_triggered()));

    let cmd = Command::Complete(CompleteCommand(vec![uids[0], uids[1]]));
    assert!(tracker.apply_command_at(&cmd, Time::new(1_600_000_200, 0)).is_ok());

    assert!(
        tracker.get_event(uids[0]).unwrap().is_done(),
        "first event was not done after setting it done"
    );
    assert!(tracker.get_event(uids[1]).unwrap().is_done());
    assert!(tracker.get_event(uids[2]).unwrap().is_triggered());
}

#[test]
fn trigger() {
    let mut cli = TrackerCli::new(Tracker::empty());
    let ev = test_event();

    let events: Vec<Uid> = {
        let tracker = &mut cli.tracker;

        // Add two events
        tracker.add_event(ev.clone());
        tracker.add_event(ev.clone());

        // Check that all events are not triggered
        assert!(tracker.events().iter().all(|(_, ev)| !ev.is_triggered()));

        tracker.events().iter().map(|(uid, _)| *uid).collect()
    };

    // Pick an event to be set as done
    let mut ev_it = events.into_iter().enumerate();
    let (trig_ev_id, trig_uid) = ev_it.next().unwrap();
    let untrig_uid = ev_it.next().unwrap().1;

    // Trigger an event
    // Command to trigger an event, ie. "trigger 1"
    let cmd = format!("trigger {}", trig_ev_id);
    let called = cli.call(&cmd);
    assert!(matches!(called, Ok(Applied::Done)));

    let tracker = &mut cli.tracker;

    // Verify that one event is triggered, one is not
    assert!(
        tracker.get_event(trig_uid).unwrap().is_triggered(),
        "first event was not triggered after setting it "
    );
    assert!(!tracker.get_event(untrig_uid).unwrap().is_triggered());
}

#[test]
fn trigger_by_uid() {
    let mut tracker = Tracker::empty();
    let first = tracker.add_event(test_event());
    let second = tracker.add_event(test_event());
    let cmd = TriggerCommand(first);
    assert!(tracker.apply_command(&cmd).is_ok());
    assert!(tracker.get_event(first).unwrap().is_triggered());
    assert!(!tracker.get_event(second).unwrap().is_triggered());
}

#[test]
fn complete() {
    let mut tracker = Tracker::empty();

    let handle = tracker.add_event(test_event());

    // Verify that the event is accessible with its handle
    let event = tracker.get_event_mut(handle).unwrap();

    // Verify that the event is in dormant state
    match event.1.status {
        StatusKind::Dormant { .. } => {}
        _ => unreachable!(),
    }

    // Trigger the event
    event.trigger_now();

    // Verify it's triggered
    assert!(tracker.get_event_mut(handle).unwrap().is_triggered());

    let event = tracker.get_event_mut(handle).unwrap();

    // Complete the event handle
    event.complete_now();

    // Verify it's completed
    assert!(tracker.get_event_mut(handle).unwrap().is_completed());
}

#[test]
fn month_end_triggers_next_day() {
    let mut tracker = Tracker::empty();

    let time = NaiveTime::parse_from_str("15:00", "%H:%M").unwrap();
    let event = EventData::new(
        Interval::Periodic(TimePeriod::Daily(
            TimeOfDay::from_hms(time.hour(), time.minute(), time.second()).unwrap(),
        )),
        "Daily event".to_string(),
    );

    let anchor = DateTime::parse_from_rfc3339("2020-01-31T14:00:00-02:00").unwrap();
    let handle = tracker.add_event_with_state(
        event,
        Status::from_time(Time::new(anchor.timestamp(), anchor.timestamp_subsec_nanos())),
    );

    // Verify event triggers next on Feb. 1st
    let next = tracker
        .get_event(handle)
        .unwrap()
        .next_trigger_time()
        .unwrap()
        .unwrap();
    let trigger_date = DateTime::from_timestamp(next.secs, next.nanos)
        .unwrap()
        .date_naive();
    assert!(trigger_date.month() == 2 && trigger_date.day() == 1);
    assert_eq!(trigger_date.year(), 2020);
    assert_eq!(next.secs, 1_580_569_200);
}

#[test]
fn call_hands_back_what_needs_more_input() {
    let mut cli = TrackerCli::new(Tracker::empty());
    cli.tracker.add_event(test_event());
    assert!(matches!(cli.call("create"), Err(Matched::Create)));
    assert!(matches!(cli.call("alter 0"), Err(Matched::Alter(Uid(0)))));
    assert!(matches!(cli.call("rm"), Err(Matched::MissingId)));
    assert!(matches!(cli.call("rm x"), Err(Matched::InvalidId(_))));
    assert!(matches!(cli.call("rm 7"), Err(Matched::UnknownId(7))));
    assert!(matches!(cli.call("frobnicate"), Err(Matched::Nothing)));
    assert!(matches!(cli.call("exit"), Ok(Applied::Exit)));
    assert!(matches!(cli.call(""), Ok(Applied::Done)));
    assert!(matches!(
        cli.apply_command(Some(CommandKind::Exit)),
        Applied::Exit
    ));
}
