use oil::event::EventData;
use oil::event_store::EventStore;
use oil::interval::{Interval, MonthlyDay, TimeDelta, TimePeriod};
use oil::status::{Status, StatusKind};
use oil::time::{Time, TimeOfDay};
use oil::tracked_event::{TrackedEvent, Uid};

fn event(text: &str, minutes: i64, registered: i64) -> TrackedEvent {
    TrackedEvent::with_state(
        EventData::new(
            Interval::FromLastCompletion(TimeDelta::Hm(0, minutes)),
            text.to_string(),
        ),
        Status::from_time(Time::new(registered, 0)),
    )
}

#[test]
fn next_free_uid_is_one_past_the_greatest() {
    let mut store = EventStore::new();
    assert_eq!(store.next_free_uid(), Uid(0));
    for key in 0..3 {
        assert!(store.add(Uid(key), event("e", 1, 0)).is_ok());
    }
    assert_eq!(store.next_free_uid(), Uid(3));
    // A uid freed below the greatest is not handed out again.
    assert!(store.remove(Uid(1)).is_ok());
    assert_eq!(store.next_free_uid(), Uid(3));
    // Once the greatest is freed, its number is.
    assert!(store.remove(Uid(2)).is_ok());
    assert_eq!(store.next_free_uid(), Uid(1));
    assert!(store.remove(Uid(0)).is_ok());
    assert_eq!(store.next_free_uid(), Uid(0));
    assert_eq!(Uid(41).next(), Uid(42));
}

#[test]
fn the_greatest_uid_leaves_no_free_one() {
    let mut store = EventStore::new();
    assert!(store.has_free_uid());
    assert!(store.add(Uid(usize::MAX - 1), event("e", 1, 0)).is_ok());
    assert!(store.has_free_uid());
    assert_eq!(store.next_free_uid(), Uid(usize::MAX));
    assert!(store.add(Uid(usize::MAX), event("e", 1, 0)).is_ok());
    assert!(!store.has_free_uid());
}

#[test]
fn add_never_overwrites() {
    let mut store = EventStore::new();
    assert!(store.add(Uid(5), event("first", 1, 0)).is_ok());
    let err = store.add(Uid(5), event("second", 2, 0)).unwrap_err();
    assert_eq!(err.0, Uid(5));
    assert_eq!(err.1.text(), "first");
    assert_eq!(err.2.text(), "second");
    assert_eq!(store.get(Uid(5)).unwrap().text(), "first");
    assert_eq!(store.len(), 1);
}

#[test]
fn remove_and_get_mut_report_what_is_missing() {
    let mut store = EventStore::new();
    assert_eq!(store.remove(Uid(3)).unwrap_err().0, Uid(3));
    assert_eq!(store.get_mut(Uid(4)).unwrap_err().0, Uid(4));
    assert!(store.get(Uid(4)).is_none());
    assert!(!store.contains(Uid(4)));

    assert!(store.add(Uid(4), event("four", 1, 0)).is_ok());
    assert!(store.contains(Uid(4)));
    store.get_mut(Uid(4)).unwrap().trigger_at(Time::new(9, 0));
    assert!(store.get(Uid(4)).unwrap().is_triggered());
    let removed = store.remove(Uid(4)).unwrap();
    assert_eq!(removed.text(), "four");
    assert!(removed.is_triggered());
    assert_eq!(store.len(), 0);
}

#[test]
fn uids_are_listed_once_each() {
    let mut store = EventStore::new();
    for key in [7, 2, 9, 0] {
        assert!(store.add(Uid(key), event("e", 1, 0)).is_ok());
    }
    let mut uids = store.uids();
    assert_eq!(uids.len(), 4);
    uids.sort();
    assert_eq!(uids, vec![Uid(0), Uid(2), Uid(7), Uid(9)]);
}

#[test]
fn update_events_triggers_what_is_due() {
    let mut store = EventStore::new();
    assert!(store.add(Uid(0), event("due", 1, 0)).is_ok());
    assert!(store.add(Uid(1), event("not yet", 10, 0)).is_ok());
    let broken = TrackedEvent::with_state(
        EventData::new(
            Interval::Periodic(TimePeriod::Monthly(
                MonthlyDay { day: 31 },
                TimeOfDay::from_hms(0, 0, 0).unwrap(),
            )),
            "broken".to_string(),
        ),
        // 1970-02-01
        Status::from_time(Time::new(31 * 86400, 0)),
    );
    assert!(store.add(Uid(2), broken).is_ok());

    let failed = store.update_events_at(Time::new(120, 0));
    assert_eq!(failed, vec![Uid(2)]);
    assert!(store.get(Uid(0)).unwrap().is_triggered());
    assert_eq!(
        store.get(Uid(0)).unwrap().1.prev_trigger_time(),
        Some(Time::new(120, 0))
    );
    assert!(!store.get(Uid(1)).unwrap().is_triggered());
    assert!(matches!(
        store.get(Uid(2)).unwrap().1.kind(),
        StatusKind::Dormant(_)
    ));

    let failed = store.update_events();
    assert_eq!(failed, vec![Uid(2)]);
    assert!(store.get(Uid(1)).unwrap().is_triggered());
}

#[test]
fn events_hand_out_their_parts() {
    let mut entry = event("parts", 1, 7);
    assert_eq!(entry.event().text(), "parts");
    assert!(matches!(entry.state().kind(), StatusKind::Dormant(_)));
    entry.state_mut().skip_at(Time::new(9, 0));
    assert!(matches!(entry.state().kind(), StatusKind::Skip(at) if at == Time::new(9, 0)));
    let copy = entry.clone();
    assert_eq!(copy.text(), "parts");
    assert!(matches!(copy.1.kind(), StatusKind::Skip(_)));
}
