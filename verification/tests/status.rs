use oil::status::{Status, StatusKind};
use oil::time::Time;

fn t(secs: i64) -> Time {
    Time::new(secs, 0)
}

#[test]
fn a_new_status_is_dormant() {
    let status = Status::from_time(t(10));
    assert!(matches!(status.kind(), StatusKind::Dormant(at) if at == t(10)));
    assert!(status.trigger_times().is_empty());
    assert!(!status.is_triggered());
    assert!(!status.is_done());
    assert_eq!(status.prev_trigger_time(), None);
    let now = Status::default();
    assert!(matches!(now.kind(), StatusKind::Dormant(_)));
    assert!(matches!(StatusKind::default(), StatusKind::Dormant(_)));
}

#[test]
fn trigger_from_dormant_and_completed() {
    let mut status = Status::from_time(t(10));
    assert!(status.trigger_at(t(20)));
    assert!(status.is_triggered());
    assert_eq!(status.trigger_times(), &vec![t(20)]);
    assert_eq!(status.prev_trigger_time(), Some(t(20)));

    assert!(!status.complete_at(t(30)));
    assert!(status.is_done());
    assert!(status.trigger_times().is_empty());

    assert!(status.trigger_at(t(40)));
    assert_eq!(status.trigger_times(), &vec![t(40)]);
}

#[test]
fn trigger_of_a_triggered_event_adds_to_the_history() {
    let mut status = Status::from_time(t(10));
    assert!(status.trigger_at(t(20)));
    assert!(!status.trigger_at(t(30)));
    assert!(!status.trigger_at(t(25)));
    assert!(status.is_triggered());
    assert_eq!(status.trigger_times(), &vec![t(20), t(30), t(25)]);
    assert_eq!(status.prev_trigger_time(), Some(t(25)));
}

#[test]
fn trigger_of_a_skipped_event_completes_it() {
    let mut status = Status::from_time(t(10));
    status.skip_at(t(20));
    assert!(matches!(status.kind(), StatusKind::Skip(at) if at == t(20)));
    assert!(!status.trigger_at(t(30)));
    assert!(matches!(status.kind(), StatusKind::Completed(at) if at == t(30)));
    assert!(status.trigger_times().is_empty());
}

#[test]
fn complete_twice() {
    let mut status = Status::from_time(t(10));
    status.trigger_at(t(20));
    assert!(!status.complete_at(t(30)));
    let first_kind = status.kind();
    assert!(status.complete_at(t(30)));
    assert!(status.kind() == first_kind);
    assert!(matches!(status.kind(), StatusKind::Completed(at) if at == t(30)));
    assert!(status.trigger_times().is_empty());
    // A later completion is still reported as a repeat.
    assert!(status.complete_at(t(40)));
    assert!(status.is_done());

    let mut now = Status::from_time(t(10));
    assert!(!now.complete_now());
    assert!(now.complete_now());
    assert!(now.is_done());
}

#[test]
fn skip_clears_the_history() {
    let mut status = Status::from_time(t(10));
    status.trigger_at(t(20));
    status.trigger_at(t(21));
    status.skip_at(t(30));
    assert!(status.trigger_times().is_empty());
    assert!(!status.is_triggered());
    assert!(!status.is_done());
    status.skip_now();
    assert!(matches!(status.kind(), StatusKind::Skip(_)));
}

#[test]
fn kinds_are_equal_whatever_their_times() {
    assert!(StatusKind::Dormant(t(1)) == StatusKind::Dormant(t(2)));
    assert!(StatusKind::Completed(t(1)) == StatusKind::Completed(t(2)));
    assert!(StatusKind::Skip(t(1)) == StatusKind::Skip(t(2)));
    assert!(StatusKind::Triggered == StatusKind::Triggered);
    assert!(StatusKind::Dormant(t(1)) != StatusKind::Completed(t(1)));
    assert!(StatusKind::Skip(t(1)) != StatusKind::Completed(t(1)));
    assert!(StatusKind::Triggered != StatusKind::Dormant(t(1)));
}

#[test]
fn parts_have_to_fit_together() {
    assert!(Status::from_parts(StatusKind::Triggered, vec![]).is_none());
    assert!(Status::from_parts(StatusKind::Dormant(t(1)), vec![t(2)]).is_none());
    assert!(Status::from_parts(StatusKind::Completed(t(1)), vec![t(2)]).is_none());
    let status = Status::from_parts(StatusKind::Triggered, vec![t(2), t(3)]).unwrap();
    assert_eq!(status.prev_trigger_time(), Some(t(3)));
    let status = Status::from_parts(StatusKind::Skip(t(1)), vec![]).unwrap();
    assert!(matches!(status.kind(), StatusKind::Skip(_)));
    let copy = status.clone();
    assert!(copy.kind() == status.kind());
}
