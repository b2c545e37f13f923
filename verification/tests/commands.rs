use oil::command::{
    AlterCommand, Apply, Command, CommandReceiver, CompleteCommand, CreateCommand, HideCommand,
    InverseAction, RefreshCommand, RemoveCommand, ShowCommand, TriggerCommand,
};
use oil::error::CommandError;
use oil::event::EventData;
use oil::interval::{Interval, TimeDelta, TimePeriod};
use oil::resolve::CommandKind;
use oil::status::{Status, StatusKind};
use oil::time::{Time, TimeOfDay};
use oil::tracked_event::Uid;
use oil::tracker::{Tracker, UndoOutcome};
use oil::view::{Applied, ControlAction, TrackerCli, ViewState};

fn t(secs: i64) -> Time {
    Time::new(secs, 0)
}

fn span_event(text: &str) -> EventData {
    EventData::new(
        Interval::FromLastCompletion(TimeDelta::Hm(0, 1)),
        text.to_string(),
    )
}

fn slot_event(text: &str) -> EventData {
    EventData::new(
        Interval::Periodic(TimePeriod::Daily(TimeOfDay::from_hms(15, 0, 0).unwrap())),
        text.to_string(),
    )
}

/// What a session shows of its store: uid, text, kind and history.
fn snapshot(tracker: &Tracker) -> Vec<(Uid, String, String, Vec<Time>)> {
    let mut rows: Vec<(Uid, String, String, Vec<Time>)> = tracker
        .events()
        .iter()
        .map(|(uid, event)| {
            (
                *uid,
                event.text().to_string(),
                format!("{:?}", event.1.kind()),
                event.1.trigger_times().clone(),
            )
        })
        .collect();
    rows.sort_by_key(|row| row.0);
    rows
}

fn three_events() -> Tracker {
    let mut tracker = Tracker::empty();
    tracker.add_event_with_state(span_event("zero"), Status::from_time(t(0)));
    tracker.add_event_with_state(slot_event("one"), Status::from_time(t(1)));
    tracker.add_event_with_state(span_event("two"), Status::from_time(t(2)));
    tracker
}

#[test]
fn create_and_undo() {
    let mut tracker = three_events();
    let before = snapshot(&tracker);
    let cmd = CreateCommand(span_event("new"));
    assert!(tracker.apply_command_at(&cmd, t(50)).is_ok());
    let event = tracker.get_event(Uid(3)).unwrap();
    assert_eq!(event.text(), "new");
    assert!(matches!(event.1.kind(), StatusKind::Dormant(at) if at == t(50)));
    assert_eq!(tracker.events().len(), 4);

    assert_eq!(tracker.undo(), UndoOutcome::Undone);
    assert_eq!(snapshot(&tracker), before);
    assert_eq!(tracker.undo(), UndoOutcome::Empty);
    assert_eq!(snapshot(&tracker), before);
}

#[test]
fn remove_and_undo() {
    let mut tracker = three_events();
    tracker.get_event_mut(Uid(2)).unwrap().trigger_at(t(30));
    let before = snapshot(&tracker);
    let cmd = RemoveCommand(vec![Uid(2), Uid(0)]);
    assert!(tracker.apply_command_at(&cmd, t(50)).is_ok());
    assert_eq!(tracker.uids(), vec![Uid(1)]);

    assert_eq!(tracker.undo(), UndoOutcome::Undone);
    assert_eq!(snapshot(&tracker), before);
}

#[test]
fn remove_stops_at_the_first_missing_uid() {
    let mut tracker = three_events();
    let cmd = RemoveCommand(vec![Uid(0), Uid(7), Uid(1)]);
    let err = tracker.apply_command_at(&cmd, t(50)).unwrap_err();
    assert!(matches!(err, CommandError::EventNotFound(Uid(7))));
    // What was removed before stays removed, and nothing can be undone.
    let mut uids = tracker.uids();
    uids.sort();
    assert_eq!(uids, vec![Uid(1), Uid(2)]);
    assert_eq!(tracker.undo(), UndoOutcome::Empty);

    // A uid named twice is missing the second time.
    let cmd = RemoveCommand(vec![Uid(1), Uid(1)]);
    let err = tracker.apply_command_at(&cmd, t(50)).unwrap_err();
    assert!(matches!(err, CommandError::EventNotFound(Uid(1))));
    assert_eq!(tracker.uids(), vec![Uid(2)]);
}

#[test]
fn alter_moves_the_event_and_undo_moves_it_back() {
    let mut tracker = three_events();
    tracker.get_event_mut(Uid(0)).unwrap().trigger_at(t(30));
    let before = snapshot(&tracker);

    let cmd = AlterCommand(Uid(0), slot_event("altered"));
    assert!(tracker.apply_command_at(&cmd, t(50)).is_ok());
    assert!(tracker.get_event(Uid(0)).is_none());
    let moved = tracker.get_event(Uid(3)).unwrap();
    assert_eq!(moved.text(), "altered");
    // The status came along.
    assert!(moved.is_triggered());
    assert_eq!(moved.1.prev_trigger_time(), Some(t(30)));

    assert_eq!(tracker.undo(), UndoOutcome::Undone);
    assert_eq!(snapshot(&tracker), before);
}

#[test]
fn alter_of_the_greatest_uid_keeps_the_uid() {
    let mut tracker = three_events();
    let before = snapshot(&tracker);
    let cmd = AlterCommand(Uid(2), span_event("altered"));
    assert!(tracker.apply_command_at(&cmd, t(50)).is_ok());
    assert_eq!(tracker.get_event(Uid(2)).unwrap().text(), "altered");
    assert_eq!(tracker.events().len(), 3);
    assert_eq!(tracker.undo(), UndoOutcome::Undone);
    assert_eq!(snapshot(&tracker), before);
}

#[test]
fn alter_of_a_missing_event_changes_nothing() {
    let mut tracker = three_events();
    let before = snapshot(&tracker);
    let cmd = AlterCommand(Uid(9), span_event("altered"));
    let err = tracker.apply_command_at(&cmd, t(50)).unwrap_err();
    assert!(matches!(err, CommandError::EventNotFound(Uid(9))));
    assert_eq!(snapshot(&tracker), before);
    assert_eq!(tracker.undo(), UndoOutcome::Empty);
}

#[test]
fn trigger_and_undo() {
    let mut tracker = three_events();
    let before = snapshot(&tracker);
    let cmd = TriggerCommand(Uid(1));
    assert!(tracker.apply_command_at(&cmd, t(50)).is_ok());
    assert!(tracker.get_event(Uid(1)).unwrap().is_triggered());
    assert_eq!(
        tracker.get_event(Uid(1)).unwrap().1.prev_trigger_time(),
        Some(t(50))
    );
    assert!(!tracker.get_event(Uid(0)).unwrap().is_triggered());

    assert_eq!(tracker.undo(), UndoOutcome::Undone);
    assert_eq!(snapshot(&tracker), before);

    let err = tracker
        .apply_command_at(&TriggerCommand(Uid(8)), t(50))
        .unwrap_err();
    assert!(matches!(err, CommandError::EventNotFound(Uid(8))));
    assert_eq!(snapshot(&tracker), before);
}

#[test]
fn complete_completes_spans_and_skips_slots() {
    let mut tracker = three_events();
    for uid in [Uid(0), Uid(1), Uid(2)] {
        tracker.get_event_mut(uid).unwrap().trigger_at(t(30));
    }
    let before = snapshot(&tracker);

    let cmd = CompleteCommand(vec![Uid(0), Uid(1)]);
    assert!(tracker.apply_command_at(&cmd, t(50)).is_ok());
    let zero = tracker.get_event(Uid(0)).unwrap();
    assert!(matches!(zero.1.kind(), StatusKind::Completed(at) if at == t(50)));
    assert!(zero.1.trigger_times().is_empty());
    let one = tracker.get_event(Uid(1)).unwrap();
    assert!(matches!(one.1.kind(), StatusKind::Skip(at) if at == t(50)));
    assert!(one.1.trigger_times().is_empty());
    assert!(tracker.get_event(Uid(2)).unwrap().is_triggered());

    assert_eq!(tracker.undo(), UndoOutcome::Undone);
    assert_eq!(snapshot(&tracker), before);
}

#[test]
fn complete_of_the_same_uid_twice_is_undone_in_full() {
    let mut tracker = three_events();
    tracker.get_event_mut(Uid(0)).unwrap().trigger_at(t(30));
    let before = snapshot(&tracker);
    let cmd = CompleteCommand(vec![Uid(0), Uid(0)]);
    assert!(tracker.apply_command_at(&cmd, t(50)).is_ok());
    assert!(tracker.get_event(Uid(0)).unwrap().is_done());
    assert_eq!(tracker.undo(), UndoOutcome::Undone);
    assert_eq!(snapshot(&tracker), before);
}

#[test]
fn complete_stops_at_the_first_missing_uid() {
    let mut tracker = three_events();
    let cmd = CompleteCommand(vec![Uid(0), Uid(7), Uid(2)]);
    let err = tracker.apply_command_at(&cmd, t(50)).unwrap_err();
    assert!(matches!(err, CommandError::EventNotFound(Uid(7))));
    assert!(tracker.get_event(Uid(0)).unwrap().is_done());
    assert!(!tracker.get_event(Uid(2)).unwrap().is_done());
    assert_eq!(tracker.undo(), UndoOutcome::Empty);
}

#[test]
fn refresh_changes_nothing_and_can_be_undone() {
    let mut tracker = three_events();
    let before = snapshot(&tracker);
    assert!(tracker.apply_command(&RefreshCommand).is_ok());
    assert_eq!(snapshot(&tracker), before);
    assert_eq!(tracker.undo(), UndoOutcome::Undone);
    assert_eq!(snapshot(&tracker), before);
    assert_eq!(tracker.undo(), UndoOutcome::Empty);
}

#[test]
fn undo_goes_back_one_command_at_a_time() {
    let mut tracker = three_events();
    let start = snapshot(&tracker);
    assert!(tracker
        .apply_command_at(&TriggerCommand(Uid(0)), t(10))
        .is_ok());
    let after_trigger = snapshot(&tracker);
    assert!(tracker
        .apply_command_at(&CompleteCommand(vec![Uid(0)]), t(20))
        .is_ok());
    let after_complete = snapshot(&tracker);
    assert!(tracker
        .apply_command_at(&RemoveCommand(vec![Uid(0)]), t(30))
        .is_ok());
    assert!(tracker.get_event(Uid(0)).is_none());

    assert_eq!(tracker.undo(), UndoOutcome::Undone);
    assert_eq!(snapshot(&tracker), after_complete);
    assert_eq!(tracker.undo(), UndoOutcome::Undone);
    assert_eq!(snapshot(&tracker), after_trigger);
    assert_eq!(tracker.undo(), UndoOutcome::Undone);
    assert_eq!(snapshot(&tracker), start);
    assert_eq!(tracker.undo(), UndoOutcome::Empty);
}

#[test]
fn commands_refuse_the_wrong_receiver() {
    let mut cli = TrackerCli::new(three_events());
    let before = snapshot(cli.tracker());

    let data: Vec<Command> = vec![
        Command::Create(CreateCommand(span_event("new"))),
        Command::Remove(RemoveCommand(vec![Uid(0)])),
        Command::Alter(AlterCommand(Uid(0), span_event("new"))),
        Command::Trigger(TriggerCommand(Uid(0))),
        Command::Complete(CompleteCommand(vec![Uid(0)])),
    ];
    for cmd in data.iter() {
        match cmd.apply(CommandReceiver::TrackerCli(&mut cli)) {
            Err(CommandError::InvalidReceiver(name)) => {
                assert_eq!(name, "CommandReceiver::TrackerCli")
            }
            _ => panic!("{:?} was applied to the display", cmd),
        }
    }
    assert_eq!(snapshot(cli.tracker()), before);
    assert_eq!(cli.state(), ViewState::Extended);

    for cmd in [Command::Show(ShowCommand), Command::Hide(HideCommand)] {
        match cmd.apply(CommandReceiver::Tracker(&mut cli.tracker)) {
            Err(CommandError::InvalidReceiver(name)) => {
                assert_eq!(name, "CommandReceiver::Tracker")
            }
            _ => panic!("{:?} was applied to the session", cmd),
        }
        assert!(cli.tracker.apply_command(&cmd).is_err());
    }
    assert_eq!(snapshot(cli.tracker()), before);
    assert_eq!(cli.tracker.undo(), UndoOutcome::Empty);

    // Refresh takes either.
    assert!(matches!(
        RefreshCommand.apply(CommandReceiver::TrackerCli(&mut cli)),
        Ok(Some(InverseAction::Nothing))
    ));
    assert!(matches!(
        RefreshCommand.apply(CommandReceiver::Tracker(&mut cli.tracker)),
        Ok(Some(InverseAction::Nothing))
    ));
}

#[test]
fn show_and_hide_set_the_view_mode_and_undo_restores_it() {
    let mut cli = TrackerCli::new(three_events());
    assert_eq!(cli.state(), ViewState::Extended);

    assert!(cli.apply(&HideCommand).is_ok());
    assert_eq!(cli.state(), ViewState::Standard);
    assert!(cli.apply(&HideCommand).is_ok());
    assert_eq!(cli.state(), ViewState::Standard);
    assert!(cli.apply(&ShowCommand).is_ok());
    assert_eq!(cli.state(), ViewState::Extended);

    assert_eq!(cli.undo(), UndoOutcome::View(ViewState::Standard));
    assert_eq!(cli.state(), ViewState::Standard);
    assert_eq!(cli.undo(), UndoOutcome::View(ViewState::Standard));
    assert_eq!(cli.state(), ViewState::Standard);
    assert_eq!(cli.undo(), UndoOutcome::View(ViewState::Extended));
    assert_eq!(cli.state(), ViewState::Extended);
    assert_eq!(cli.undo(), UndoOutcome::Empty);

    assert_eq!(cli.set_state(ViewState::Standard), ViewState::Extended);
    assert_eq!(cli.state(), ViewState::Standard);
}

#[test]
fn the_display_carries_out_commands_of_every_kind() {
    let mut cli = TrackerCli::new(three_events());
    let before = snapshot(cli.tracker());

    let applied = cli.apply_command_at(None, t(5));
    assert!(matches!(applied, Applied::NoCommand));
    assert_eq!(applied.control(), ControlAction::Input);

    let applied = cli.apply_command_at(Some(CommandKind::Exit), t(5));
    assert_eq!(applied.control(), ControlAction::Exit);

    let applied = cli.apply_command_at(
        Some(CommandKind::DataCommand(Command::Trigger(TriggerCommand(
            Uid(1),
        )))),
        t(5),
    );
    assert!(matches!(applied, Applied::Done));
    assert_eq!(applied.control(), ControlAction::Proceed);
    assert!(cli.tracker().get_event(Uid(1)).unwrap().is_triggered());

    let applied = cli.apply_command_at(
        Some(CommandKind::DataCommand(Command::Trigger(TriggerCommand(
            Uid(9),
        )))),
        t(5),
    );
    assert!(matches!(
        applied,
        Applied::DataFailed(CommandError::EventNotFound(Uid(9)))
    ));
    assert_eq!(applied.control(), ControlAction::Input);

    let applied = cli.apply_command_at(
        Some(CommandKind::CliCommand(Command::Hide(HideCommand))),
        t(5),
    );
    assert!(matches!(applied, Applied::Done));
    assert_eq!(cli.state(), ViewState::Standard);

    let applied = cli.apply_command_at(
        Some(CommandKind::CliCommand(Command::Trigger(TriggerCommand(
            Uid(0),
        )))),
        t(5),
    );
    assert!(matches!(
        applied,
        Applied::ViewFailed(CommandError::InvalidReceiver(_))
    ));
    assert_eq!(applied.control(), ControlAction::Proceed);

    // Undo goes back through both kinds of command, the latest first.
    let applied = cli.apply_command_at(Some(CommandKind::Undo), t(6));
    assert!(matches!(
        applied,
        Applied::Undone(UndoOutcome::View(ViewState::Extended))
    ));
    assert_eq!(cli.state(), ViewState::Extended);
    let applied = cli.apply_command_at(Some(CommandKind::Undo), t(6));
    assert!(matches!(applied, Applied::Undone(UndoOutcome::Undone)));
    assert_eq!(snapshot(cli.tracker()), before);
    let applied = cli.apply_command_at(Some(CommandKind::Undo), t(6));
    assert!(matches!(applied, Applied::Undone(UndoOutcome::Empty)));
    assert_eq!(applied.control(), ControlAction::Proceed);
}

#[test]
fn inverse_actions_leave_taken_uids_alone() {
    let mut tracker = three_events();
    let cmd = RemoveCommand(vec![Uid(2)]);
    assert!(tracker.apply_command_at(&cmd, t(50)).is_ok());
    // The uid is taken again before the removal is undone.
    let uid = tracker.add_event_with_state(span_event("newcomer"), Status::from_time(t(60)));
    assert_eq!(uid, Uid(2));
    assert_eq!(tracker.undo(), UndoOutcome::Undone);
    assert_eq!(tracker.get_event(Uid(2)).unwrap().text(), "newcomer");

    // A status is not restored to an event that is gone.
    assert!(tracker
        .apply_command_at(&TriggerCommand(Uid(0)), t(70))
        .is_ok());
    assert!(tracker.remove_event(Uid(0)).is_some());
    assert_eq!(tracker.undo(), UndoOutcome::Undone);
    assert!(tracker.get_event(Uid(0)).is_none());
}

#[test]
fn session_keeps_events_apart() {
    let mut tracker = Tracker::empty();
    assert!(tracker.has_free_uid());
    let a = tracker.add_event(span_event("a"));
    let b = tracker.add_event(span_event("b"));
    assert_eq!((a, b), (Uid(0), Uid(1)));
    assert!(tracker.insert_event(Uid(9), oil::tracked_event::TrackedEvent::with_state(
        span_event("nine"),
        Status::from_time(t(1)),
    )));
    assert!(!tracker.insert_event(Uid(9), oil::tracked_event::TrackedEvent::with_state(
        span_event("again"),
        Status::from_time(t(1)),
    )));
    assert_eq!(tracker.get_event(Uid(9)).unwrap().text(), "nine");
    let removed = tracker.remove_event(a).unwrap();
    assert_eq!(removed.0.text(), "a");
    assert!(tracker.remove_event(a).is_none());
    let failed = tracker.update_events_at(t(i64::MAX));
    assert!(failed.is_empty());
    assert!(tracker.get_event(b).unwrap().is_triggered());
    let failed = tracker.update_events();
    assert!(failed.is_empty());
    let failed = tracker.update_events_from_disk();
    assert!(failed.is_empty());

    assert!(tracker.get_event_state_mut(a).is_none());
    tracker.get_event_state_mut(b).unwrap().complete_at(t(5));
    assert!(tracker.get_event(b).unwrap().is_done());
    let mut fresh = Tracker::empty();
    fresh.refresh_from(oil::event_store::EventStore::new());
    assert!(fresh.events().is_empty());
}
