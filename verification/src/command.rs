//! Commands over a session, and the inverse action that each leaves behind.

use vstd::prelude::*;
use vstd::string::StringExecFns;
use crate::error::{CommandError, CommandErrorView};
use crate::event::{EventData, EventDataView};
use crate::event_store::{all_wf, lemma_next_free_uid_exists, next_free_uid, EventStoreView};
use crate::interval::{Interval, IntervalView};
use crate::status::{Status, StatusView};
use crate::time::Time;
use crate::tracked_event::{TrackedEvent, TrackedEventView, Uid};
use crate::tracker::{Tracker, TrackerView};
use crate::view::{TrackerCli, TrackerCliView, ViewState};

verus! {

/// What undoes a command that was applied.
#[derive(Debug)]
pub enum InverseAction {
    /// Removes the event under the uid.
    RemoveEvent(Uid),
    /// Stores each event again under its uid, the last pair first.
    InsertEvents(Vec<(Uid, TrackedEvent)>),
    /// Removes the event under the first uid and stores the given event
    /// under the second.
    ReplaceEvent(Uid, Uid, TrackedEvent),
    /// Gives each event its status back, the last pair first.
    RestoreStatuses(Vec<(Uid, Status)>),
    /// Sets the view mode.
    RestoreView(ViewState),
    /// Does nothing.
    Nothing,
}

/// What an `InverseAction` holds.
pub enum InverseActionView {
    RemoveEvent(Uid),
    InsertEvents(Seq<(Uid, TrackedEventView)>),
    ReplaceEvent(Uid, Uid, TrackedEventView),
    RestoreStatuses(Seq<(Uid, StatusView)>),
    RestoreView(ViewState),
    Nothing,
}

/// What the pairs of removed events hold.
pub open spec fn events_view(events: Seq<(Uid, TrackedEvent)>) -> Seq<(Uid, TrackedEventView)> {
    events.map_values(|pair: (Uid, TrackedEvent)| (pair.0, pair.1@))
}

/// What the pairs of saved statuses hold.
pub open spec fn statuses_view(statuses: Seq<(Uid, Status)>) -> Seq<(Uid, StatusView)> {
    statuses.map_values(|pair: (Uid, Status)| (pair.0, pair.1@))
}

impl View for InverseAction {
    type V = InverseActionView;

    open spec fn view(&self) -> InverseActionView {
        match *self {
            InverseAction::RemoveEvent(uid) => InverseActionView::RemoveEvent(uid),
            InverseAction::InsertEvents(events) => InverseActionView::InsertEvents(
                events_view(events@),
            ),
            InverseAction::ReplaceEvent(remove, insert, event) => InverseActionView::ReplaceEvent(
                remove,
                insert,
                event@,
            ),
            InverseAction::RestoreStatuses(statuses) => InverseActionView::RestoreStatuses(
                statuses_view(statuses@),
            ),
            InverseAction::RestoreView(state) => InverseActionView::RestoreView(state),
            InverseAction::Nothing => InverseActionView::Nothing,
        }
    }
}

/// A command as a value: what it is to do, and to what.
pub enum CommandView {
    Create(EventDataView),
    Remove(Seq<Uid>),
    Alter(Uid, EventDataView),
    Trigger(Uid),
    Complete(Seq<Uid>),
    Show,
    Hide,
    Refresh,
}

/// What a command returns: the inverse action, if it leaves one, or why it
/// was not applied.
pub type CommandResultView = Result<Option<InverseActionView>, CommandErrorView>;

/// The store after a command, and what the command returns.
pub struct Outcome {
    pub events: EventStoreView,
    pub result: CommandResultView,
}

/// The store after the removal of some events, the events removed so far
/// with their uids, and the first uid under which there was none.
pub struct Removal {
    pub events: EventStoreView,
    pub removed: Seq<(Uid, TrackedEventView)>,
    pub missing: Option<Uid>,
}

/// The store after the completion of some events, the status that each had
/// before, and the first uid under which there was none.
pub struct Completion {
    pub events: EventStoreView,
    pub saved: Seq<(Uid, StatusView)>,
    pub missing: Option<Uid>,
}

/// Removes the events under `uids` in turn, and stops at the first uid
/// under which there is none: the events before it stay removed.
pub open spec fn remove_each(events: EventStoreView, uids: Seq<Uid>) -> Removal
    decreases uids.len(),
{
    if uids.len() == 0 {
        Removal { events, removed: Seq::empty(), missing: None }
    } else {
        let before = remove_each(events, uids.drop_last());
        let uid = uids.last();
        if before.missing is Some {
            before
        } else if !before.events.contains_key(uid) {
            Removal { events: before.events, removed: before.removed, missing: Some(uid) }
        } else {
            Removal {
                events: before.events.remove(uid),
                removed: before.removed.push((uid, before.events[uid])),
                missing: None,
            }
        }
    }
}

/// The event after the user marked it complete at `now`: completed, where it
/// recurs a span after its completion; skipped until its next slot, where it
/// recurs at fixed slots.
pub open spec fn marked_complete(event: TrackedEventView, now: Time) -> TrackedEventView {
    TrackedEventView {
        event: event.event,
        status: match event.event.interval {
            IntervalView::FromLastCompletion(_) => event.status.completed_at(now),
            IntervalView::Periodic(_) => event.status.skipped_at(now),
        },
    }
}

/// Marks the events under `uids` complete in turn, and stops at the first
/// uid under which there is none: the events before it stay as marked.
pub open spec fn complete_each(events: EventStoreView, uids: Seq<Uid>, now: Time) -> Completion
    decreases uids.len(),
{
    if uids.len() == 0 {
        Completion { events, saved: Seq::empty(), missing: None }
    } else {
        let before = complete_each(events, uids.drop_last(), now);
        let uid = uids.last();
        if before.missing is Some {
            before
        } else if !before.events.contains_key(uid) {
            Completion { events: before.events, saved: before.saved, missing: Some(uid) }
        } else {
            Completion {
                events: before.events.insert(uid, marked_complete(before.events[uid], now)),
                saved: before.saved.push((uid, before.events[uid].status)),
                missing: None,
            }
        }
    }
}

/// Stores each event again under its uid, the last pair first. A uid that
/// is taken keeps what it has.
pub open spec fn insert_each(
    events: EventStoreView,
    pairs: Seq<(Uid, TrackedEventView)>,
) -> EventStoreView
    decreases pairs.len(),
{
    if pairs.len() == 0 {
        events
    } else {
        let (uid, event) = pairs.last();
        let next = if events.contains_key(uid) {
            events
        } else {
            events.insert(uid, event)
        };
        insert_each(next, pairs.drop_last())
    }
}

/// The store with the status of the event under `uid` replaced. A uid
/// without an event is left out.
pub open spec fn with_status(events: EventStoreView, uid: Uid, status: StatusView)
    -> EventStoreView {
    if events.contains_key(uid) {
        events.insert(uid, TrackedEventView { event: events[uid].event, status })
    } else {
        events
    }
}

/// Gives each event its status back, the last pair first.
pub open spec fn restore_each(events: EventStoreView, pairs: Seq<(Uid, StatusView)>)
    -> EventStoreView
    decreases pairs.len(),
{
    if pairs.len() == 0 {
        events
    } else {
        let (uid, status) = pairs.last();
        restore_each(with_status(events, uid, status), pairs.drop_last())
    }
}

impl CommandView {
    /// The command acts on the store of a session.
    pub open spec fn is_data_command(self) -> bool {
        !(self is Show || self is Hide)
    }

    /// The command acts on the display.
    pub open spec fn is_view_command(self) -> bool {
        self is Show || self is Hide || self is Refresh
    }

    /// The store has a free uid for the event that the command stores: the
    /// greatest number that a uid can be is not in use.
    pub open spec fn can_allocate(self, events: EventStoreView) -> bool {
        match self {
            CommandView::Create(_) => !events.contains_key(Uid(usize::MAX)),
            CommandView::Alter(uid, _) => !events.remove(uid).contains_key(Uid(usize::MAX)),
            _ => true,
        }
    }

    /// What the command does to the store of a session at `now`.
    pub open spec fn on_events(self, events: EventStoreView, now: Time) -> Outcome {
        match self {
            CommandView::Create(data) => {
                let uid = next_free_uid(events);
                Outcome {
                    events: events.insert(
                        uid,
                        TrackedEventView { event: data, status: StatusView::dormant(now) },
                    ),
                    result: Ok(Some(InverseActionView::RemoveEvent(uid))),
                }
            },
            CommandView::Remove(uids) => {
                let removal = remove_each(events, uids);
                Outcome {
                    events: removal.events,
                    result: match removal.missing {
                        Some(uid) => Err(CommandErrorView::EventNotFound(uid)),
                        None => Ok(Some(InverseActionView::InsertEvents(removal.removed))),
                    },
                }
            },
            CommandView::Alter(uid, data) => {
                if !events.contains_key(uid) {
                    Outcome { events, result: Err(CommandErrorView::EventNotFound(uid)) }
                } else {
                    let rest = events.remove(uid);
                    let new_uid = next_free_uid(rest);
                    Outcome {
                        events: rest.insert(
                            new_uid,
                            TrackedEventView { event: data, status: events[uid].status },
                        ),
                        result: Ok(
                            Some(InverseActionView::ReplaceEvent(new_uid, uid, events[uid])),
                        ),
                    }
                }
            },
            CommandView::Trigger(uid) => {
                if !events.contains_key(uid) {
                    Outcome { events, result: Err(CommandErrorView::EventNotFound(uid)) }
                } else {
                    Outcome {
                        events: with_status(events, uid, events[uid].status.triggered_at(now)),
                        result: Ok(
                            Some(
                                InverseActionView::RestoreStatuses(seq![(uid, events[uid].status)]),
                            ),
                        ),
                    }
                }
            },
            CommandView::Complete(uids) => {
                let completion = complete_each(events, uids, now);
                Outcome {
                    events: completion.events,
                    result: match completion.missing {
                        Some(uid) => Err(CommandErrorView::EventNotFound(uid)),
                        None => Ok(Some(InverseActionView::RestoreStatuses(completion.saved))),
                    },
                }
            },
            CommandView::Refresh => Outcome {
                events,
                result: Ok(Some(InverseActionView::Nothing)),
            },
            CommandView::Show | CommandView::Hide => Outcome {
                events,
                result: Err(CommandErrorView::InvalidReceiver("CommandReceiver::Tracker"@)),
            },
        }
    }

    /// The view mode that the command sets.
    pub open spec fn view_state(self, state: ViewState) -> ViewState {
        match self {
            CommandView::Show => ViewState::Extended,
            CommandView::Hide => ViewState::Standard,
            _ => state,
        }
    }

    /// What the command returns when it is applied to a display in view mode
    /// `state`.
    pub open spec fn on_view(self, state: ViewState) -> CommandResultView {
        match self {
            CommandView::Show | CommandView::Hide => Ok(
                Some(InverseActionView::RestoreView(state)),
            ),
            CommandView::Refresh => Ok(Some(InverseActionView::Nothing)),
            _ => Err(CommandErrorView::InvalidReceiver("CommandReceiver::TrackerCli"@)),
        }
    }
}

impl InverseActionView {
    /// What the inverse action does to the store of a session.
    pub open spec fn on_events(self, events: EventStoreView) -> EventStoreView {
        match self {
            InverseActionView::RemoveEvent(uid) => events.remove(uid),
            InverseActionView::InsertEvents(pairs) => insert_each(events, pairs),
            InverseActionView::ReplaceEvent(remove, insert, event) => {
                let rest = events.remove(remove);
                if rest.contains_key(insert) {
                    rest
                } else {
                    rest.insert(insert, event)
                }
            },
            InverseActionView::RestoreStatuses(pairs) => restore_each(events, pairs),
            InverseActionView::RestoreView(_) => events,
            InverseActionView::Nothing => events,
        }
    }

    /// The view mode after the inverse action.
    pub open spec fn view_state(self, state: ViewState) -> ViewState {
        match self {
            InverseActionView::RestoreView(before) => before,
            _ => state,
        }
    }
}

/// What a command is applied to: the session that owns the data, or the
/// display.
pub enum CommandReceiver<'r> {
    Tracker(&'r mut Tracker),
    TrackerCli(&'r mut TrackerCli),
}

/// What a command returns: the inverse action, if it leaves one, or why it
/// was not applied.
pub type CommandResult = Result<Option<InverseAction>, CommandError>;

/// What a `CommandResult` holds.
pub open spec fn result_view(result: CommandResult) -> CommandResultView {
    match result {
        Ok(Some(inverse)) => Ok(Some(inverse@)),
        Ok(None) => Ok(None),
        Err(e) => Err(e@),
    }
}

/// Creates the given event under the next free uid, dormant from now.
#[derive(Debug)]
pub struct CreateCommand(pub EventData);

/// Removes the events under the given uids.
#[derive(Debug)]
pub struct RemoveCommand(pub Vec<Uid>);

/// Replaces the description of the event under the uid; the event moves to
/// the next free uid and keeps its status.
#[derive(Debug)]
pub struct AlterCommand(pub Uid, pub EventData);

/// Triggers the event under the uid.
#[derive(Clone, Copy, Debug)]
pub struct TriggerCommand(pub Uid);

/// Marks the events under the given uids complete.
#[derive(Debug)]
pub struct CompleteCommand(pub Vec<Uid>);

/// Lists every event.
#[derive(Clone, Copy, Debug)]
pub struct ShowCommand;

/// Lists the triggered events and those about to come due.
#[derive(Clone, Copy, Debug)]
pub struct HideCommand;

/// Does nothing, and so makes the session reload.
#[derive(Clone, Copy, Debug)]
pub struct RefreshCommand;

/// Any of the commands.
#[derive(Debug)]
pub enum Command {
    Create(CreateCommand),
    Remove(RemoveCommand),
    Alter(AlterCommand),
    Trigger(TriggerCommand),
    Complete(CompleteCommand),
    Show(ShowCommand),
    Hide(HideCommand),
    Refresh(RefreshCommand),
}

/// The command was applied to a session at `now`: the store is as the
/// command leaves it, the stack of inverse actions is untouched, and the
/// result is what the command returns.
pub open spec fn applied_to_tracker(
    command: CommandView,
    before: TrackerView,
    after: TrackerView,
    result: CommandResultView,
    now: Time,
) -> bool {
    &&& after.events == command.on_events(before.events, now).events
    &&& after.undo == before.undo
    &&& result == command.on_events(before.events, now).result
}

/// The command was applied to a display: the view mode is as the command
/// leaves it, the session is untouched, and the result is what the command
/// returns.
pub open spec fn applied_to_cli(
    command: CommandView,
    before: TrackerCliView,
    after: TrackerCliView,
    result: CommandResultView,
) -> bool {
    &&& after.state == command.view_state(before.state)
    &&& after.tracker == before.tracker
    &&& result == command.on_view(before.state)
}

/// A value that can be applied to a receiver as a command.
pub trait Apply {
    /// The command that the value stands for.
    spec fn command(&self) -> CommandView;

    /// Applies the command at `now`. A command applied to a receiver that it
    /// does not act on changes nothing and fails with `InvalidReceiver`.
    fn apply_at(&self, target: CommandReceiver, now: Time) -> (r: CommandResult)
        requires
            target matches CommandReceiver::Tracker(tracker) ==> self.command().can_allocate(
                tracker@.events,
            ),
        ensures
            match target {
                CommandReceiver::Tracker(tracker) => applied_to_tracker(
                    self.command(),
                    tracker@,
                    final(tracker)@,
                    result_view(r),
                    now,
                ),
                CommandReceiver::TrackerCli(cli) => applied_to_cli(
                    self.command(),
                    cli@,
                    final(cli)@,
                    result_view(r),
                ),
            },
    ;

    /// Applies the command at the time that the clock shows.
    fn apply(&self, target: CommandReceiver) -> (r: CommandResult)
        requires
            target matches CommandReceiver::Tracker(tracker) ==> self.command().can_allocate(
                tracker@.events,
            ),
        ensures
            match target {
                CommandReceiver::Tracker(tracker) => exists|now: Time|
                    applied_to_tracker(
                        self.command(),
                        tracker@,
                        final(tracker)@,
                        result_view(r),
                        now,
                    ),
                CommandReceiver::TrackerCli(cli) => applied_to_cli(
                    self.command(),
                    cli@,
                    final(cli)@,
                    result_view(r),
                ),
            },
    ;
}

/// The error of a command applied to a receiver that it does not act on.
fn invalid_receiver(target: CommandReceiver) -> (r: CommandResult)
    ensures
        match target {
            CommandReceiver::Tracker(tracker) => *final(tracker) == *tracker && result_view(r)
                == Err::<Option<InverseActionView>, CommandErrorView>(
                CommandErrorView::InvalidReceiver("CommandReceiver::Tracker"@),
            ),
            CommandReceiver::TrackerCli(cli) => *final(cli) == *cli && result_view(r) == Err::<
                Option<InverseActionView>,
                CommandErrorView,
            >(CommandErrorView::InvalidReceiver("CommandReceiver::TrackerCli"@)),
        },
{
    match target {
        CommandReceiver::Tracker(_) => Err(
            CommandError::InvalidReceiver(String::from_str("CommandReceiver::Tracker")),
        ),
        CommandReceiver::TrackerCli(_) => Err(
            CommandError::InvalidReceiver(String::from_str("CommandReceiver::TrackerCli")),
        ),
    }
}

impl Apply for CreateCommand {
    open spec fn command(&self) -> CommandView {
        CommandView::Create(self.0@)
    }

    fn apply_at(&self, target: CommandReceiver, now: Time) -> (r: CommandResult) {
        match target {
            CommandReceiver::Tracker(tracker) => {
                let uid = tracker.add_event_with_state(self.0.clone(), Status::from_time(now));
                Ok(Some(InverseAction::RemoveEvent(uid)))
            },
            target => invalid_receiver(target),
        }
    }

    fn apply(&self, target: CommandReceiver) -> (r: CommandResult) {
        let now = Time::now();
        self.apply_at(target, now)
    }
}

impl Apply for RemoveCommand {
    open spec fn command(&self) -> CommandView {
        CommandView::Remove(self.0@)
    }

    fn apply_at(&self, target: CommandReceiver, now: Time) -> (r: CommandResult) {
        match target {
            CommandReceiver::Tracker(tracker) => {
                let ghost before = tracker@;
                let mut events: Vec<(Uid, TrackedEvent)> = Vec::new();
                let mut i: usize = 0;
                proof {
                    assert(self.0@.take(0) =~= Seq::<Uid>::empty());
                    assert(events_view(events@) =~= Seq::<(Uid, TrackedEventView)>::empty());
                }
                while i < self.0.len()
                    invariant
                        i <= self.0@.len(),
                        target matches CommandReceiver::Tracker(t) && t@ == before && *final(t)
                            == *final(tracker),
                        tracker@.undo == before.undo,
                        remove_each(before.events, self.0@.take(i as int)) == (Removal {
                            events: tracker@.events,
                            removed: events_view(events@),
                            missing: None,
                        }),
                    decreases self.0@.len() - i,
                {
                    let uid = self.0[i];
                    let ghost removed = events@;
                    proof {
                        assert(self.0@.take(i + 1).drop_last() =~= self.0@.take(i as int));
                    }
                    match tracker.remove_event(uid) {
                        None => {
                            proof {
                                let prefix = self.0@.take(i + 1);
                                assert(prefix.last() == uid);
                                assert(remove_each(before.events, prefix).missing == Some(uid));
                                assert(remove_each(before.events, prefix).events == tracker@.events);
                                lemma_remove_stops(before.events, self.0@, i as int);
                            }
                            return Err(CommandError::EventNotFound(uid));
                        },
                        Some((event, status)) => {
                            events.push((uid, TrackedEvent(event, status)));
                            proof {
                                assert(events_view(events@) =~= events_view(removed).push(
                                    (uid, TrackedEvent(event, status)@),
                                ));
                            }
                        },
                    }
                    i += 1;
                }
                proof {
                    assert(self.0@.take(i as int) =~= self.0@);
                }
                Ok(Some(InverseAction::InsertEvents(events)))
            },
            target => invalid_receiver(target),
        }
    }

    fn apply(&self, target: CommandReceiver) -> (r: CommandResult) {
        let now = Time::now();
        self.apply_at(target, now)
    }
}

/// A removal that finds no event under one of its uids stops there,
/// whatever uids follow.
pub proof fn lemma_remove_stops(events: EventStoreView, uids: Seq<Uid>, at: int)
    requires
        0 <= at < uids.len(),
        remove_each(events, uids.take(at + 1)).missing is Some,
    ensures
        remove_each(events, uids) == remove_each(events, uids.take(at + 1)),
    decreases uids.len(),
{
    if at + 1 < uids.len() {
        assert(uids.drop_last().take(at + 1) =~= uids.take(at + 1));
        lemma_remove_stops(events, uids.drop_last(), at);
    } else {
        assert(uids.take(at + 1) =~= uids);
    }
}

/// A completion that finds no event under one of its uids stops there,
/// whatever uids follow.
pub proof fn lemma_complete_stops(events: EventStoreView, uids: Seq<Uid>, now: Time, at: int)
    requires
        0 <= at < uids.len(),
        complete_each(events, uids.take(at + 1), now).missing is Some,
    ensures
        complete_each(events, uids, now) == complete_each(events, uids.take(at + 1), now),
    decreases uids.len(),
{
    if at + 1 < uids.len() {
        assert(uids.drop_last().take(at + 1) =~= uids.take(at + 1));
        lemma_complete_stops(events, uids.drop_last(), now, at);
    } else {
        assert(uids.take(at + 1) =~= uids);
    }
}

impl Apply for AlterCommand {
    open spec fn command(&self) -> CommandView {
        CommandView::Alter(self.0, self.1@)
    }

    fn apply_at(&self, target: CommandReceiver, now: Time) -> (r: CommandResult) {
        match target {
            CommandReceiver::Tracker(tracker) => {
                let old_uid = self.0;
                let (event, status) = match tracker.remove_event(old_uid) {
                    None => {
                        return Err(CommandError::EventNotFound(old_uid));
                    },
                    Some(pair) => pair,
                };
                let new_uid = tracker.add_event_with_state(self.1.clone(), status.clone());
                Ok(Some(InverseAction::ReplaceEvent(new_uid, old_uid, TrackedEvent(event, status))))
            },
            target => invalid_receiver(target),
        }
    }

    fn apply(&self, target: CommandReceiver) -> (r: CommandResult) {
        let now = Time::now();
        self.apply_at(target, now)
    }
}

impl Apply for TriggerCommand {
    open spec fn command(&self) -> CommandView {
        CommandView::Trigger(self.0)
    }

    fn apply_at(&self, target: CommandReceiver, now: Time) -> (r: CommandResult) {
        match target {
            CommandReceiver::Tracker(tracker) => {
                let uid = self.0;
                let old_status = match tracker.get_event_mut(uid) {
                    None => {
                        return Err(CommandError::EventNotFound(uid));
                    },
                    Some(event) => {
                        let old_status = event.1.clone();
                        event.trigger_at(now);
                        old_status
                    },
                };
                let mut saved: Vec<(Uid, Status)> = Vec::new();
                saved.push((uid, old_status));
                proof {
                    assert(statuses_view(saved@) =~= seq![(uid, old_status@)]);
                }
                Ok(Some(InverseAction::RestoreStatuses(saved)))
            },
            target => invalid_receiver(target),
        }
    }

    fn apply(&self, target: CommandReceiver) -> (r: CommandResult) {
        let now = Time::now();
        self.apply_at(target, now)
    }
}

impl Apply for CompleteCommand {
    open spec fn command(&self) -> CommandView {
        CommandView::Complete(self.0@)
    }

    fn apply_at(&self, target: CommandReceiver, now: Time) -> (r: CommandResult) {
        match target {
            CommandReceiver::Tracker(tracker) => {
                let ghost before = tracker@;
                let mut saved: Vec<(Uid, Status)> = Vec::new();
                let mut i: usize = 0;
                proof {
                    assert(self.0@.take(0) =~= Seq::<Uid>::empty());
                    assert(statuses_view(saved@) =~= Seq::<(Uid, StatusView)>::empty());
                }
                while i < self.0.len()
                    invariant
                        i <= self.0@.len(),
                        target matches CommandReceiver::Tracker(t) && t@ == before && *final(t)
                            == *final(tracker),
                        tracker@.undo == before.undo,
                        complete_each(before.events, self.0@.take(i as int), now) == (Completion {
                            events: tracker@.events,
                            saved: statuses_view(saved@),
                            missing: None,
                        }),
                    decreases self.0@.len() - i,
                {
                    let uid = self.0[i];
                    let ghost saved_before = saved@;
                    proof {
                        assert(self.0@.take(i + 1).drop_last() =~= self.0@.take(i as int));
                    }
                    let old_status = match tracker.get_event_mut(uid) {
                        None => {
                            proof {
                                let prefix = self.0@.take(i + 1);
                                assert(prefix.last() == uid);
                                assert(complete_each(before.events, prefix, now).missing == Some(
                                    uid,
                                ));
                                assert(complete_each(before.events, prefix, now).events
                                    == tracker@.events);
                                lemma_complete_stops(before.events, self.0@, now, i as int);
                            }
                            return Err(CommandError::EventNotFound(uid));
                        },
                        Some(event) => {
                            let old_status = event.1.clone();
                            match event.0.interval() {
                                Interval::FromLastCompletion(_) => {
                                    event.1.complete_at(now);
                                },
                                Interval::Periodic(_) => {
                                    event.1.skip_at(now);
                                },
                            }
                            old_status
                        },
                    };
                    saved.push((uid, old_status));
                    proof {
                        assert(statuses_view(saved@) =~= statuses_view(saved_before).push(
                            (uid, old_status@),
                        ));
                    }
                    i += 1;
                }
                proof {
                    assert(self.0@.take(i as int) =~= self.0@);
                }
                Ok(Some(InverseAction::RestoreStatuses(saved)))
            },
            target => invalid_receiver(target),
        }
    }

    fn apply(&self, target: CommandReceiver) -> (r: CommandResult) {
        let now = Time::now();
        self.apply_at(target, now)
    }
}

impl Apply for ShowCommand {
    open spec fn command(&self) -> CommandView {
        CommandView::Show
    }

    fn apply_at(&self, target: CommandReceiver, now: Time) -> (r: CommandResult) {
        match target {
            CommandReceiver::TrackerCli(cli) => {
                let before = cli.set_state(ViewState::Extended);
                Ok(Some(InverseAction::RestoreView(before)))
            },
            target => invalid_receiver(target),
        }
    }

    fn apply(&self, target: CommandReceiver) -> (r: CommandResult) {
        let now = Time::now();
        self.apply_at(target, now)
    }
}

impl Apply for HideCommand {
    open spec fn command(&self) -> CommandView {
        CommandView::Hide
    }

    fn apply_at(&self, target: CommandReceiver, now: Time) -> (r: CommandResult) {
        match target {
            CommandReceiver::TrackerCli(cli) => {
                let before = cli.set_state(ViewState::Standard);
                Ok(Some(InverseAction::RestoreView(before)))
            },
            target => invalid_receiver(target),
        }
    }

    fn apply(&self, target: CommandReceiver) -> (r: CommandResult) {
        let now = Time::now();
        self.apply_at(target, now)
    }
}

impl Apply for RefreshCommand {
    open spec fn command(&self) -> CommandView {
        CommandView::Refresh
    }

    fn apply_at(&self, target: CommandReceiver, now: Time) -> (r: CommandResult) {
        Ok(Some(InverseAction::Nothing))
    }

    fn apply(&self, target: CommandReceiver) -> (r: CommandResult) {
        let now = Time::now();
        self.apply_at(target, now)
    }
}

impl Apply for Command {
    open spec fn command(&self) -> CommandView {
        match *self {
            Command::Create(c) => c.command(),
            Command::Remove(c) => c.command(),
            Command::Alter(c) => c.command(),
            Command::Trigger(c) => c.command(),
            Command::Complete(c) => c.command(),
            Command::Show(c) => c.command(),
            Command::Hide(c) => c.command(),
            Command::Refresh(c) => c.command(),
        }
    }

    fn apply_at(&self, target: CommandReceiver, now: Time) -> (r: CommandResult) {
        match self {
            Command::Create(c) => c.apply_at(target, now),
            Command::Remove(c) => c.apply_at(target, now),
            Command::Alter(c) => c.apply_at(target, now),
            Command::Trigger(c) => c.apply_at(target, now),
            Command::Complete(c) => c.apply_at(target, now),
            Command::Show(c) => c.apply_at(target, now),
            Command::Hide(c) => c.apply_at(target, now),
            Command::Refresh(c) => c.apply_at(target, now),
        }
    }

    fn apply(&self, target: CommandReceiver) -> (r: CommandResult) {
        let now = Time::now();
        self.apply_at(target, now)
    }
}

impl InverseAction {
    /// Carries the inverse action out on the store of `tracker`. An action
    /// that sets the view mode leaves the store as it is.
    pub fn apply(self, tracker: &mut Tracker)
        ensures
            final(tracker)@.events == self@.on_events(old(tracker)@.events),
            final(tracker)@.undo == old(tracker)@.undo,
    {
        match self {
            InverseAction::RemoveEvent(uid) => {
                let _ = tracker.remove_event(uid);
            },
            InverseAction::InsertEvents(events) => {
                let mut pairs = events;
                while pairs.len() > 0
                    invariant
                        tracker@.undo == old(tracker)@.undo,
                        insert_each(tracker@.events, events_view(pairs@)) == insert_each(
                            old(tracker)@.events,
                            events_view(events@),
                        ),
                    decreases pairs@.len(),
                {
                    let ghost before = pairs@;
                    match pairs.pop() {
                        Some((uid, event)) => {
                            proof {
                                assert(events_view(before).last() == (uid, event@));
                                assert(events_view(pairs@) =~= events_view(before).drop_last());
                            }
                            let _ = tracker.insert_event(uid, event);
                        },
                        None => {},
                    }
                }
            },
            InverseAction::ReplaceEvent(remove, insert, event) => {
                let _ = tracker.remove_event(remove);
                let _ = tracker.insert_event(insert, event);
            },
            InverseAction::RestoreStatuses(statuses) => {
                let mut pairs = statuses;
                while pairs.len() > 0
                    invariant
                        tracker@.undo == old(tracker)@.undo,
                        restore_each(tracker@.events, statuses_view(pairs@)) == restore_each(
                            old(tracker)@.events,
                            statuses_view(statuses@),
                        ),
                    decreases pairs@.len(),
                {
                    let ghost before = pairs@;
                    match pairs.pop() {
                        Some((uid, status)) => {
                            proof {
                                assert(statuses_view(before).last() == (uid, status@));
                                assert(statuses_view(pairs@) =~= statuses_view(before).drop_last());
                            }
                            match tracker.get_event_mut(uid) {
                                Some(event) => {
                                    event.1 = status;
                                },
                                None => {},
                            }
                        },
                        None => {},
                    }
                }
            },
            InverseAction::RestoreView(_) => {},
            InverseAction::Nothing => {},
        }
    }
}

impl InverseActionView {
    /// Every status that the inverse action holds is well formed.
    pub open spec fn wf(self) -> bool {
        match self {
            InverseActionView::InsertEvents(pairs) => forall|i: int|
                0 <= i < pairs.len() ==> (#[trigger] pairs[i]).1.wf(),
            InverseActionView::ReplaceEvent(_, _, event) => event.wf(),
            InverseActionView::RestoreStatuses(pairs) => forall|i: int|
                0 <= i < pairs.len() ==> (#[trigger] pairs[i]).1.wf(),
            _ => true,
        }
    }
}

/// A removal keeps every status well formed, in the store and among the
/// events that it removed.
pub proof fn lemma_remove_keeps_wf(events: EventStoreView, uids: Seq<Uid>)
    requires
        all_wf(events),
    ensures
        all_wf(remove_each(events, uids).events),
        InverseActionView::InsertEvents(remove_each(events, uids).removed).wf(),
    decreases uids.len(),
{
    if uids.len() > 0 {
        lemma_remove_keeps_wf(events, uids.drop_last());
        let before = remove_each(events, uids.drop_last());
        let after = remove_each(events, uids);
        assert forall|uid: Uid| after.events.contains_key(uid) implies (
        #[trigger] after.events[uid]).wf() by {
            assert(before.events[uid].wf());
        }
        assert forall|i: int| 0 <= i < after.removed.len() implies (
        #[trigger] after.removed[i]).1.wf() by {
            if i < before.removed.len() {
                assert(before.removed[i].1.wf());
            } else {
                assert(before.events[uids.last()].wf());
            }
        }
    }
}

/// A completion keeps every status well formed, in the store and among the
/// statuses that it saved.
pub proof fn lemma_complete_keeps_wf(events: EventStoreView, uids: Seq<Uid>, now: Time)
    requires
        all_wf(events),
    ensures
        all_wf(complete_each(events, uids, now).events),
        InverseActionView::RestoreStatuses(complete_each(events, uids, now).saved).wf(),
    decreases uids.len(),
{
    if uids.len() > 0 {
        lemma_complete_keeps_wf(events, uids.drop_last(), now);
        let before = complete_each(events, uids.drop_last(), now);
        let after = complete_each(events, uids, now);
        assert forall|uid: Uid| after.events.contains_key(uid) implies (
        #[trigger] after.events[uid]).wf() by {
            if before.events.contains_key(uid) {
                assert(before.events[uid].wf());
            }
        }
        assert forall|i: int| 0 <= i < after.saved.len() implies (#[trigger] after.saved[i]).1.wf() by {
            if i < before.saved.len() {
                assert(before.saved[i].1.wf());
            } else {
                assert(before.events[uids.last()].wf());
            }
        }
    }
}

/// A command keeps every status well formed: in the store as it leaves it,
/// also where it fails half way, and in the inverse action that it returns.
pub proof fn lemma_command_keeps_wf(command: CommandView, events: EventStoreView, now: Time)
    requires
        all_wf(events),
    ensures
        all_wf(command.on_events(events, now).events),
        command.on_events(events, now).result matches Ok(Some(inverse)) ==> inverse.wf(),
{
    let outcome = command.on_events(events, now);
    match command {
        CommandView::Remove(uids) => {
            lemma_remove_keeps_wf(events, uids);
        },
        CommandView::Complete(uids) => {
            lemma_complete_keeps_wf(events, uids, now);
        },
        _ => {
            assert forall|uid: Uid| outcome.events.contains_key(uid) implies (
            #[trigger] outcome.events[uid]).wf() by {
                if events.contains_key(uid) {
                    assert(events[uid].wf());
                }
                if let CommandView::Alter(old, _) = command {
                    if events.contains_key(old) {
                        assert(events[old].wf());
                    }
                }
            }
            if let CommandView::Alter(old, _) = command {
                if events.contains_key(old) {
                    assert(events[old].wf());
                }
            }
            if let CommandView::Trigger(uid) = command {
                if events.contains_key(uid) {
                    assert(events[uid].wf());
                    let pairs = seq![(uid, events[uid].status)];
                    assert(pairs[0].1.wf());
                }
            }
        },
    }
}

/// An inverse action whose statuses are well formed keeps every status of
/// the store well formed.
pub proof fn lemma_inverse_keeps_wf(inverse: InverseActionView, events: EventStoreView)
    requires
        all_wf(events),
        inverse.wf(),
    ensures
        all_wf(inverse.on_events(events)),
    decreases
            match inverse {
                InverseActionView::InsertEvents(pairs) => pairs.len(),
                InverseActionView::RestoreStatuses(pairs) => pairs.len(),
                _ => 0,
            },
{
    match inverse {
        InverseActionView::InsertEvents(pairs) => {
            if pairs.len() > 0 {
                let (uid, event) = pairs.last();
                let next = if events.contains_key(uid) {
                    events
                } else {
                    events.insert(uid, event)
                };
                assert(pairs[pairs.len() - 1].1.wf());
                assert forall|other: Uid| next.contains_key(other) implies (
                #[trigger] next[other]).wf() by {
                    if events.contains_key(other) {
                        assert(events[other].wf());
                    }
                }
                assert forall|i: int| 0 <= i < pairs.drop_last().len() implies (
                #[trigger] pairs.drop_last()[i]).1.wf() by {
                    assert(pairs[i].1.wf());
                }
                lemma_inverse_keeps_wf(InverseActionView::InsertEvents(pairs.drop_last()), next);
            }
        },
        InverseActionView::RestoreStatuses(pairs) => {
            if pairs.len() > 0 {
                let (uid, status) = pairs.last();
                let next = with_status(events, uid, status);
                assert(pairs[pairs.len() - 1].1.wf());
                assert forall|other: Uid| next.contains_key(other) implies (
                #[trigger] next[other]).wf() by {
                    assert(events[other].wf());
                }
                assert forall|i: int| 0 <= i < pairs.drop_last().len() implies (
                #[trigger] pairs.drop_last()[i]).1.wf() by {
                    assert(pairs[i].1.wf());
                }
                lemma_inverse_keeps_wf(InverseActionView::RestoreStatuses(pairs.drop_last()), next);
            }
        },
        InverseActionView::ReplaceEvent(remove, insert, event) => {
            let after = inverse.on_events(events);
            assert forall|other: Uid| after.contains_key(other) implies (
            #[trigger] after[other]).wf() by {
                if events.contains_key(other) {
                    assert(events[other].wf());
                }
            }
        },
        InverseActionView::RemoveEvent(uid) => {
            let after = inverse.on_events(events);
            assert forall|other: Uid| after.contains_key(other) implies (
            #[trigger] after[other]).wf() by {
                assert(events[other].wf());
            }
        },
        _ => {},
    }
}

/// Each command acts on one kind of receiver, the command that refreshes on
/// both. Applied to the other kind it fails with `InvalidReceiver`, and
/// leaves the store, or the view mode, as it is.
pub proof fn lemma_receivers(
    command: CommandView,
    events: EventStoreView,
    state: ViewState,
    now: Time,
)
    ensures
        (command.on_events(events, now).result is Err && command.on_events(
            events,
            now,
        ).result->Err_0 is InvalidReceiver) <==> !command.is_data_command(),
        command.on_view(state) is Err <==> !command.is_view_command(),
        command.on_view(state) is Err ==> command.on_view(state)->Err_0 is InvalidReceiver,
        command.on_view(state) is Err ==> command.view_state(state) == state,
        !command.is_data_command() ==> command.on_events(events, now).events == events,
{
}

/// Undoing a removal right after it gives the store back.
pub proof fn lemma_undo_remove(events: EventStoreView, uids: Seq<Uid>)
    requires
        remove_each(events, uids).missing is None,
    ensures
        insert_each(remove_each(events, uids).events, remove_each(events, uids).removed) == events,
    decreases uids.len(),
{
    if uids.len() > 0 {
        let before = remove_each(events, uids.drop_last());
        let uid = uids.last();
        let after = remove_each(events, uids);
        lemma_undo_remove(events, uids.drop_last());
        assert(after.removed.drop_last() =~= before.removed);
        assert(after.events.insert(uid, before.events[uid]) =~= before.events);
    }
}

/// Undoing a completion right after it gives the store back.
pub proof fn lemma_undo_complete(events: EventStoreView, uids: Seq<Uid>, now: Time)
    requires
        complete_each(events, uids, now).missing is None,
    ensures
        restore_each(
            complete_each(events, uids, now).events,
            complete_each(events, uids, now).saved,
        ) == events,
    decreases uids.len(),
{
    if uids.len() > 0 {
        let before = complete_each(events, uids.drop_last(), now);
        let uid = uids.last();
        let after = complete_each(events, uids, now);
        lemma_undo_complete(events, uids.drop_last(), now);
        assert(after.saved.drop_last() =~= before.saved);
        assert(with_status(after.events, uid, before.events[uid].status) =~= before.events);
    }
}

/// Undo round trip: where a command applied to a store leaves an inverse
/// action, that action applied to the store as the command left it gives
/// back the store as it was: the same uids, and under each the same event
/// and status. A command that moves an event to a new uid has its inverse
/// put the event back under its old uid.
pub proof fn lemma_undo_round_trip(command: CommandView, events: EventStoreView, now: Time)
    requires
        events.dom().finite(),
        command.can_allocate(events),
    ensures
        command.on_events(events, now).result matches Ok(Some(inverse)) ==> inverse.on_events(
            command.on_events(events, now).events,
        ) == events,
{
    let outcome = command.on_events(events, now);
    match command {
        CommandView::Create(data) => {
            lemma_next_free_uid_exists(events);
            let uid = next_free_uid(events);
            assert(outcome.events.remove(uid) =~= events);
        },
        CommandView::Remove(uids) => {
            if remove_each(events, uids).missing is None {
                lemma_undo_remove(events, uids);
            }
        },
        CommandView::Alter(uid, data) => {
            if events.contains_key(uid) {
                let rest = events.remove(uid);
                lemma_next_free_uid_exists(rest);
                let new_uid = next_free_uid(rest);
                assert(outcome.events.remove(new_uid) =~= rest);
                assert(rest.insert(uid, events[uid]) =~= events);
            }
        },
        CommandView::Trigger(uid) => {
            if events.contains_key(uid) {
                let pairs = seq![(uid, events[uid].status)];
                assert(pairs.drop_last() =~= Seq::<(Uid, StatusView)>::empty());
                assert(with_status(outcome.events, uid, events[uid].status) =~= events);
                assert(restore_each(outcome.events, pairs) == restore_each(
                    with_status(outcome.events, uid, events[uid].status),
                    pairs.drop_last(),
                ));
            }
        },
        CommandView::Complete(uids) => {
            if complete_each(events, uids, now).missing is None {
                lemma_undo_complete(events, uids, now);
            }
        },
        _ => {},
    }
}

/// Undo round trip for the display: the inverse action of a command that
/// sets the view mode sets the mode that was there before.
pub proof fn lemma_undo_view_round_trip(command: CommandView, state: ViewState)
    ensures
        command.on_view(state) matches Ok(Some(inverse)) ==> inverse.view_state(
            command.view_state(state),
        ) == state,
{
}

/// A command that fails on its single target changes nothing.
pub proof fn lemma_single_target_all_or_nothing(
    command: CommandView,
    events: EventStoreView,
    now: Time,
)
    requires
        command is Create || command is Alter || command is Trigger,
    ensures
        command.on_events(events, now).result is Err ==> command.on_events(events, now).events
            == events,
{
}

} // verus!
