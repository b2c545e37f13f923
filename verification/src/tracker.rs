//! The session: the store of events and the stack of inverse actions.

use vstd::prelude::*;
use crate::command::{
    lemma_undo_round_trip, Apply, CommandReceiver, CommandView, InverseAction, InverseActionView,
};
use crate::error::{CommandError, CommandErrorView};
use crate::view::ViewState;
use crate::event::EventData;
use crate::event_store::{all_updated_at, next_free_uid, EventStore, EventStoreView};
use crate::status::{Status, StatusView};
use crate::time::Time;
use crate::tracked_event::{TrackedEvent, TrackedEventView, Uid};

verus! {

/// The store of events and the inverse actions of the commands applied so
/// far, the latest last.
pub struct Tracker {
    tracked_events: EventStore,
    undo_buffer: Vec<InverseAction>,
}

/// What a `Tracker` holds.
pub struct TrackerView {
    pub events: EventStoreView,
    pub undo: Seq<InverseActionView>,
}

impl View for Tracker {
    type V = TrackerView;

    closed spec fn view(&self) -> TrackerView {
        TrackerView {
            events: self.tracked_events@,
            undo: self.undo_buffer@.map_values(|inverse: InverseAction| inverse@),
        }
    }
}

/// What an undo did.
#[derive(Clone, Copy, Debug, PartialEq, Eq, Structural)]
pub enum UndoOutcome {
    /// There was nothing to undo.
    Empty,
    /// The latest inverse action was carried out on the store.
    Undone,
    /// The latest inverse action sets the view mode to the one given: the
    /// owner of the display has to do so.
    View(ViewState),
}

impl TrackerView {
    /// The store can hand out a next free uid.
    pub open spec fn has_free_uid(self) -> bool {
        !self.events.contains_key(Uid(usize::MAX))
    }

    /// The session after `command` was applied to it at `now`: the store as
    /// the command leaves it, and the inverse action, if there is one, on
    /// top of the stack. A command that fails pushes nothing.
    pub open spec fn applied(self, command: CommandView, now: Time) -> TrackerView {
        let outcome = command.on_events(self.events, now);
        TrackerView {
            events: outcome.events,
            undo: match outcome.result {
                Ok(Some(inverse)) => self.undo.push(inverse),
                _ => self.undo,
            },
        }
    }

    /// The session with `inverse` on top of its stack.
    pub open spec fn pushed(self, inverse: InverseActionView) -> TrackerView {
        TrackerView { events: self.events, undo: self.undo.push(inverse) }
    }

    /// The session after an undo: the latest inverse action is taken off the
    /// stack and carried out on the store. With an empty stack nothing
    /// changes.
    pub open spec fn undone(self) -> TrackerView {
        if self.undo.len() == 0 {
            self
        } else {
            TrackerView {
                events: self.undo.last().on_events(self.events),
                undo: self.undo.drop_last(),
            }
        }
    }

    /// What an undo reports.
    pub open spec fn undo_outcome(self) -> UndoOutcome {
        if self.undo.len() == 0 {
            UndoOutcome::Empty
        } else {
            match self.undo.last() {
                InverseActionView::RestoreView(state) => UndoOutcome::View(state),
                _ => UndoOutcome::Undone,
            }
        }
    }
}

/// An undo right after a command that left an inverse action gives back the
/// session as it was before the command: the same store and the same stack.
pub proof fn lemma_apply_then_undo(session: TrackerView, command: CommandView, now: Time)
    requires
        session.events.dom().finite(),
        command.can_allocate(session.events),
        command.on_events(session.events, now).result matches Ok(Some(_)),
    ensures
        session.applied(command, now).undone() == session,
{
    lemma_undo_round_trip(command, session.events, now);
    let after = session.applied(command, now);
    assert(after.undo.drop_last() =~= session.undo);
}

/// An undo takes exactly one inverse action off a stack that holds any, and
/// does nothing to a session whose stack is empty.
pub proof fn lemma_undo_pops_one(session: TrackerView)
    ensures
        session.undo.len() > 0 ==> session.undone().undo.len() == session.undo.len() - 1,
        session.undo.len() == 0 ==> session.undone() == session,
{
}

impl Tracker {
    /// A tracker over the given events, with nothing to undo.
    pub fn with_events(tracked_events: EventStore) -> (r: Tracker)
        ensures
            r@.events == tracked_events@,
            r@.undo == Seq::<InverseActionView>::empty(),
    {
        let r = Tracker { tracked_events, undo_buffer: Vec::new() };
        assert(r@.undo =~= Seq::<InverseActionView>::empty());
        r
    }

    /// A tracker without events, with nothing to undo.
    pub fn empty() -> (r: Tracker)
        ensures
            r@.events == Map::<Uid, TrackedEventView>::empty(),
            r@.undo == Seq::<InverseActionView>::empty(),
    {
        Tracker::with_events(EventStore::new())
    }

    /// Replaces the store by `tracked_events`, as read afresh from where it
    /// is kept. The stack of inverse actions stays as it is.
    pub fn refresh_from(&mut self, tracked_events: EventStore)
        ensures
            final(self)@.events == tracked_events@,
            final(self)@.undo == old(self)@.undo,
    {
        self.tracked_events = tracked_events;
    }

    /// Whether the store can hand out a next free uid.
    pub fn has_free_uid(&self) -> (r: bool)
        ensures
            r == self@.has_free_uid(),
    {
        self.tracked_events.has_free_uid()
    }

    /// The uids in use, in ascending order.
    pub fn uids(&self) -> (r: Vec<Uid>)
        ensures
            r@.to_set() == self@.events.dom(),
            r@.no_duplicates(),
            forall|i: int, j: int| 0 <= i < j < r@.len() ==> r@[i].0 < r@[j].0,
    {
        self.tracked_events.uids()
    }

    /// Every event with its uid, in ascending order of the uids.
    pub fn events(&self) -> (r: Vec<(Uid, &TrackedEvent)>)
        ensures
            r@.len() == self@.events.len(),
            forall|i: int|
                0 <= i < r@.len() ==> self@.events.contains_key((#[trigger] r@[i]).0) && r@[i].1@
                    == self@.events[r@[i].0],
            forall|i: int, j: int|
                0 <= i < j < r@.len() ==> (#[trigger] r@[i]).0.0 < (#[trigger] r@[j]).0.0,
            forall|uid: Uid|
                self@.events.contains_key(uid) ==> exists|i: int|
                    0 <= i < r@.len() && (#[trigger] r@[i]).0 == uid,
    {
        let uids = self.tracked_events.uids();
        let mut out: Vec<(Uid, &TrackedEvent)> = Vec::new();
        let mut i: usize = 0;
        proof {
            uids@.unique_seq_to_set();
        }
        while i < uids.len()
            invariant
                i <= uids@.len(),
                uids@.to_set() == self@.events.dom(),
                uids@.no_duplicates(),
                forall|k: int, l: int| 0 <= k < l < uids@.len() ==> uids@[k].0 < uids@[l].0,
                out@.len() == i,
                forall|j: int|
                    0 <= j < i ==> (#[trigger] out@[j]).0 == uids@[j] && self@.events.contains_key(
                        uids@[j],
                    ) && out@[j].1@ == self@.events[uids@[j]],
            decreases uids@.len() - i,
        {
            let uid = uids[i];
            assert(uids@.to_set().contains(uids@[i as int]));
            let ghost before = out@;
            match self.tracked_events.get(uid) {
                Some(event) => {
                    out.push((uid, event));
                },
                None => {},
            }
            assert(out@ == before.push(out@[i as int]));
            i += 1;
        }
        proof {
            assert forall|uid: Uid| self@.events.contains_key(uid) implies exists|i: int|
                0 <= i < out@.len() && (#[trigger] out@[i]).0 == uid by {
                assert(uids@.to_set().contains(uid));
                let j = choose|j: int| 0 <= j < uids@.len() && uids@[j] == uid;
                assert(out@[j].0 == uid);
            }
        }
        out
    }

    /// The event under `uid`.
    pub fn get_event(&self, uid: Uid) -> (r: Option<&TrackedEvent>)
        ensures
            r is Some <==> self@.events.contains_key(uid),
            r is Some ==> (r->0)@ == self@.events[uid],
    {
        self.tracked_events.get(uid)
    }

    /// The event under `uid`, to be changed in place.
    pub fn get_event_mut(&mut self, uid: Uid) -> (r: Option<&mut TrackedEvent>)
        ensures
            final(self)@.undo == old(self)@.undo,
            match r {
                Some(event) => old(self)@.events.contains_key(uid) && (*event)@ == old(self)@.events[uid] && final(self)@.events == old(self)@.events.insert(
                    uid,
                    (*final(event))@,
                ),
                None => !old(self)@.events.contains_key(uid) && final(self)@.events == old(self)@.events,
            },
    {
        match self.tracked_events.get_mut(uid) {
            Ok(event) => Some(event),
            Err(_) => None,
        }
    }

    /// The status of the event under `uid`, to be changed in place.
    pub fn get_event_state_mut(&mut self, uid: Uid) -> (r: Option<&mut Status>)
        ensures
            final(self)@.undo == old(self)@.undo,
            match r {
                Some(state) => old(self)@.events.contains_key(uid) && (*state)@ == old(self)@.events[uid].status && final(self)@.events == old(self)@.events.insert(
                    uid,
                    TrackedEventView {
                        event: old(self)@.events[uid].event,
                        status: (*final(state))@,
                    },
                ),
                None => !old(self)@.events.contains_key(uid) && final(self)@.events == old(self)@.events,
            },
    {
        match self.get_event_mut(uid) {
            Some(event) => Some(event.state_mut()),
            None => None,
        }
    }

    /// Stores a new event with the given status under the next free uid, and
    /// returns that uid.
    pub fn add_event_with_state(&mut self, event: EventData, state: Status) -> (uid: Uid)
        requires
            old(self)@.has_free_uid(),
        ensures
            uid == next_free_uid(old(self)@.events),
            !old(self)@.events.contains_key(uid),
            final(self)@.events == old(self)@.events.insert(
                uid,
                TrackedEventView { event: event@, status: state@ },
            ),
            final(self)@.undo == old(self)@.undo,
    {
        let uid = self.tracked_events.next_free_uid();
        let tracked_event = TrackedEvent::with_state(event, state);
        let _ = self.tracked_events.add(uid, tracked_event);
        uid
    }

    /// Stores a new event under the next free uid, dormant from the time
    /// that the clock shows, and returns that uid.
    pub fn add_event(&mut self, event: EventData) -> (uid: Uid)
        requires
            old(self)@.has_free_uid(),
        ensures
            uid == next_free_uid(old(self)@.events),
            !old(self)@.events.contains_key(uid),
            exists|now: Time|
                final(self)@.events == old(self)@.events.insert(
                    uid,
                    TrackedEventView { event: event@, status: StatusView::dormant(now) },
                ),
            final(self)@.undo == old(self)@.undo,
    {
        let now = Time::now();
        self.add_event_with_state(event, Status::from_time(now))
    }

    /// Takes the event under `uid` out of the store; `None` where there is
    /// none.
    pub fn remove_event(&mut self, uid: Uid) -> (r: Option<(EventData, Status)>)
        ensures
            final(self)@.undo == old(self)@.undo,
            match r {
                Some(pair) => old(self)@.events.contains_key(uid) && pair.0@ == old(self)@.events[uid].event && pair.1@ == old(self)@.events[uid].status && final(self)@.events == old(self)@.events.remove(uid),
                None => !old(self)@.events.contains_key(uid) && final(self)@.events == old(self)@.events,
            },
    {
        match self.tracked_events.remove(uid) {
            Ok(TrackedEvent(event, status)) => Some((event, status)),
            Err(_) => None,
        }
    }

    /// Stores `event` under `uid` if that uid is free. Returns whether it
    /// was.
    pub fn insert_event(&mut self, uid: Uid, event: TrackedEvent) -> (r: bool)
        ensures
            final(self)@.undo == old(self)@.undo,
            r == !old(self)@.events.contains_key(uid),
            final(self)@.events == if r {
                old(self)@.events.insert(uid, event@)
            } else {
                old(self)@.events
            },
    {
        match self.tracked_events.add(uid, event) {
            Ok(_) => true,
            Err(_) => false,
        }
    }

    /// Applies `cmd` to the session at `now`, and puts the inverse action
    /// that it leaves on top of the stack. A command that fails pushes
    /// nothing; what it changed before it failed stays changed.
    pub fn apply_command_at<C: Apply>(&mut self, cmd: &C, now: Time) -> (r: Result<
        (),
        CommandError,
    >)
        requires
            cmd.command().can_allocate(old(self)@.events),
        ensures
            final(self)@ == old(self)@.applied(cmd.command(), now),
            match r {
                Ok(_) => cmd.command().on_events(old(self)@.events, now).result is Ok,
                Err(e) => cmd.command().on_events(old(self)@.events, now).result == Err::<
                    Option<InverseActionView>,
                    CommandErrorView,
                >(e@),
            },
    {
        let ghost before = self@;
        match cmd.apply_at(CommandReceiver::Tracker(&mut *self), now) {
            Ok(Some(inverse)) => {
                self.undo_buffer.push(inverse);
                assert(self@.undo =~= before.undo.push(inverse@));
                Ok(())
            },
            Ok(None) => Ok(()),
            Err(e) => Err(e),
        }
    }

    /// Applies `cmd` to the session at the time that the clock shows.
    pub fn apply_command<C: Apply>(&mut self, cmd: &C) -> (r: Result<(), CommandError>)
        requires
            cmd.command().can_allocate(old(self)@.events),
        ensures
            exists|now: Time|
                {
                    &&& #[trigger] old(self)@.applied(cmd.command(), now) == final(self)@
                    &&& match r {
                        Ok(_) => cmd.command().on_events(old(self)@.events, now).result is Ok,
                        Err(e) => cmd.command().on_events(old(self)@.events, now).result == Err::<
                            Option<InverseActionView>,
                            CommandErrorView,
                        >(e@),
                    }
                },
    {
        let now = Time::now();
        self.apply_command_at(cmd, now)
    }

    /// Puts `inverse` on top of the stack.
    pub fn push_undo(&mut self, inverse: InverseAction)
        ensures
            final(self)@ == old(self)@.pushed(inverse@),
    {
        self.undo_buffer.push(inverse);
        assert(self@.undo =~= old(self)@.undo.push(inverse@));
    }

    /// Takes the latest inverse action off the stack and carries it out.
    /// With an empty stack nothing happens. An action that sets the view
    /// mode is handed back for the owner of the display to carry out.
    pub fn undo(&mut self) -> (r: UndoOutcome)
        ensures
            final(self)@ == old(self)@.undone(),
            r == old(self)@.undo_outcome(),
    {
        match self.undo_buffer.pop() {
            None => UndoOutcome::Empty,
            Some(inverse) => {
                assert(self@.undo =~= old(self)@.undo.drop_last());
                assert(old(self)@.undo.last() == inverse@);
                match inverse {
                    InverseAction::RestoreView(state) => UndoOutcome::View(state),
                    inverse => {
                        inverse.apply(self);
                        UndoOutcome::Undone
                    },
                }
            },
        }
    }

    /// Updates every event at `now`: those that are due become triggered.
    /// Returns the uids of the events whose next due time could not be
    /// computed; those events stay as they are.
    pub fn update_events_at(&mut self, now: Time) -> (failed: Vec<Uid>)
        ensures
            final(self)@.events == all_updated_at(old(self)@.events, now),
            final(self)@.undo == old(self)@.undo,
            forall|uid: Uid|
                failed@.contains(uid) <==> old(self)@.events.contains_key(uid) && old(self)@.events[uid].next_trigger_time() is Err,
            forall|i: int, j: int| 0 <= i < j < failed@.len() ==> failed@[i].0 < failed@[j].0,
    {
        self.tracked_events.update_events_at(now)
    }

    /// Updates every event at the time that the clock shows, as is due
    /// after the events were read from where they are kept.
    pub fn update_events_from_disk(&mut self) -> (failed: Vec<Uid>)
        ensures
            exists|now: Time| final(self)@.events == all_updated_at(old(self)@.events, now),
            final(self)@.undo == old(self)@.undo,
            forall|uid: Uid|
                failed@.contains(uid) <==> old(self)@.events.contains_key(uid) && old(self)@.events[uid].next_trigger_time() is Err,
            forall|i: int, j: int| 0 <= i < j < failed@.len() ==> failed@[i].0 < failed@[j].0,
    {
        self.update_events()
    }

    /// Updates every event at the time that the clock shows.
    pub fn update_events(&mut self) -> (failed: Vec<Uid>)
        ensures
            exists|now: Time| final(self)@.events == all_updated_at(old(self)@.events, now),
            final(self)@.undo == old(self)@.undo,
            forall|uid: Uid|
                failed@.contains(uid) <==> old(self)@.events.contains_key(uid) && old(self)@.events[uid].next_trigger_time() is Err,
            forall|i: int, j: int| 0 <= i < j < failed@.len() ==> failed@[i].0 < failed@[j].0,
    {
        let now = Time::now();
        self.update_events_at(now)
    }
}

} // verus!
