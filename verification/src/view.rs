//! The display controller: the view mode, and what becomes of a line of
//! input.

use vstd::prelude::*;
use crate::command::{Apply, CommandReceiver, CommandView, InverseActionView};
use crate::error::{CommandError, CommandErrorView};
use crate::listing::{is_listing, listing_of, uids_of, Rank};
use crate::resolve::{
    match_command, matched, whitespace_words, CommandKind, CommandKindView, Matched, MatchedView,
};
use crate::time::Time;
use crate::tracked_event::{TrackedEvent, Uid};
use crate::tracker::{Tracker, TrackerView, UndoOutcome};

verus! {

/// Which events the display lists.
#[derive(Clone, Copy, Debug, PartialEq, Eq, Structural)]
pub enum ViewState {
    /// The triggered events and those about to come due.
    Standard,
    /// Every event, with its full status.
    Extended,
}

/// What the loop of the program does next.
#[derive(Clone, Copy, Debug, PartialEq, Eq, Structural)]
pub enum ControlAction {
    /// Go on: store the session and show it again.
    Proceed,
    /// Ask for input again without storing.
    Input,
    /// Leave the program.
    Exit,
}

/// What became of a command.
#[derive(Debug)]
pub enum Applied {
    /// There was no command.
    NoCommand,
    /// The command asks to leave the program.
    Exit,
    /// The command was applied.
    Done,
    /// A command for the session failed.
    DataFailed(CommandError),
    /// A command for the display failed.
    ViewFailed(CommandError),
    /// The latest command was undone, or there was none.
    Undone(UndoOutcome),
}

/// What an `Applied` holds.
pub enum AppliedView {
    NoCommand,
    Exit,
    Done,
    DataFailed(CommandErrorView),
    ViewFailed(CommandErrorView),
    Undone(UndoOutcome),
}

impl View for Applied {
    type V = AppliedView;

    open spec fn view(&self) -> AppliedView {
        match *self {
            Applied::NoCommand => AppliedView::NoCommand,
            Applied::Exit => AppliedView::Exit,
            Applied::Done => AppliedView::Done,
            Applied::DataFailed(e) => AppliedView::DataFailed(e@),
            Applied::ViewFailed(e) => AppliedView::ViewFailed(e@),
            Applied::Undone(outcome) => AppliedView::Undone(outcome),
        }
    }
}

impl AppliedView {
    /// What the loop of the program does next: it asks for input again
    /// after no command and after a failed command for the session, leaves
    /// on request, and goes on otherwise.
    pub open spec fn control(self) -> ControlAction {
        match self {
            AppliedView::NoCommand => ControlAction::Input,
            AppliedView::DataFailed(_) => ControlAction::Input,
            AppliedView::Exit => ControlAction::Exit,
            _ => ControlAction::Proceed,
        }
    }
}

impl Applied {
    /// What the loop of the program does next.
    pub fn control(&self) -> (r: ControlAction)
        ensures
            r == self@.control(),
    {
        match self {
            Applied::NoCommand => ControlAction::Input,
            Applied::DataFailed(_) => ControlAction::Input,
            Applied::Exit => ControlAction::Exit,
            _ => ControlAction::Proceed,
        }
    }
}

/// The display controller: the view mode and the session it shows.
pub struct TrackerCli {
    state: ViewState,
    pub tracker: Tracker,
}

/// What a `TrackerCli` holds.
pub struct TrackerCliView {
    pub state: ViewState,
    pub tracker: TrackerView,
}

impl View for TrackerCli {
    type V = TrackerCliView;

    closed spec fn view(&self) -> TrackerCliView {
        TrackerCliView { state: self.state, tracker: self.tracker@ }
    }
}

impl TrackerCliView {
    /// The display after a command for it was applied: the view mode as the
    /// command leaves it, and the inverse action, if there is one, on top of
    /// the stack of the session. A command that fails changes nothing.
    pub open spec fn view_applied(self, command: CommandView) -> TrackerCliView {
        match command.on_view(self.state) {
            Ok(Some(inverse)) => TrackerCliView {
                state: command.view_state(self.state),
                tracker: self.tracker.pushed(inverse),
            },
            Ok(None) => TrackerCliView {
                state: command.view_state(self.state),
                tracker: self.tracker,
            },
            Err(_) => self,
        }
    }

    /// The display after an undo: the latest inverse action is taken off
    /// the stack and carried out, on the store or on the view mode.
    pub open spec fn undone(self) -> TrackerCliView {
        TrackerCliView {
            state: if self.tracker.undo.len() > 0 {
                self.tracker.undo.last().view_state(self.state)
            } else {
                self.state
            },
            tracker: self.tracker.undone(),
        }
    }

    /// The display after `kind` was carried out at `now`.
    pub open spec fn applied(self, kind: Option<CommandKindView>, now: Time) -> TrackerCliView {
        match kind {
            None => self,
            Some(CommandKindView::Exit) => self,
            Some(CommandKindView::CliCommand(command)) => self.view_applied(command),
            Some(CommandKindView::Undo) => self.undone(),
            Some(CommandKindView::DataCommand(command)) => TrackerCliView {
                state: self.state,
                tracker: self.tracker.applied(command, now),
            },
        }
    }

    /// What became of `kind` when it was carried out at `now`.
    pub open spec fn outcome(self, kind: Option<CommandKindView>, now: Time) -> AppliedView {
        match kind {
            None => AppliedView::NoCommand,
            Some(CommandKindView::Exit) => AppliedView::Exit,
            Some(CommandKindView::CliCommand(command)) => match command.on_view(self.state) {
                Ok(_) => AppliedView::Done,
                Err(e) => AppliedView::ViewFailed(e),
            },
            Some(CommandKindView::Undo) => AppliedView::Undone(self.tracker.undo_outcome()),
            Some(CommandKindView::DataCommand(command)) => match command.on_events(
                self.tracker.events,
                now,
            ).result {
                Ok(_) => AppliedView::Done,
                Err(e) => AppliedView::DataFailed(e),
            },
        }
    }

    /// What the display does with the words of a line of input at `now`:
    /// the words name a command among the events that are listed then, and
    /// the command is carried out; or they ask for something that takes more
    /// input, or name no command, and nothing changes.
    pub open spec fn called(self, words: Seq<Seq<char>>, now: Time) -> (
        TrackerCliView,
        Result<AppliedView, MatchedView>,
    ) {
        let ids = uids_of(listing_of(self.tracker.events, self.state, now));
        match matched(words, ids) {
            MatchedView::Kind(kind) => (
                self.applied(Some(kind), now),
                Ok(self.outcome(Some(kind), now)),
            ),
            other => (self, Err(other)),
        }
    }

    /// A command of `kind` finds a free uid in the store where it needs
    /// one.
    pub open spec fn can_apply(self, kind: Option<CommandKindView>) -> bool {
        kind matches Some(CommandKindView::DataCommand(command)) ==> command.can_allocate(
            self.tracker.events,
        )
    }
}

/// What an optional `CommandKind` holds.
pub open spec fn kind_view(cmd: Option<CommandKind>) -> Option<CommandKindView> {
    match cmd {
        Some(kind) => Some(kind@),
        None => None,
    }
}

/// The uids of the rows of a list.
pub open spec fn listed_uids(list: Seq<(Uid, &TrackedEvent)>) -> Seq<Uid> {
    list.map_values(|row: (Uid, &TrackedEvent)| row.0)
}

/// The rows of a list with their ranks.
pub open spec fn ranked(list: Seq<(Uid, &TrackedEvent)>) -> Seq<(Rank, Uid)> {
    list.map_values(|row: (Uid, &TrackedEvent)| (row.1@.rank(), row.0))
}

impl TrackerCli {
    /// A display over `tracker` that lists every event.
    pub fn new(tracker: Tracker) -> (r: TrackerCli)
        ensures
            r@ == (TrackerCliView { state: ViewState::Extended, tracker: tracker@ }),
    {
        TrackerCli { state: ViewState::Extended, tracker }
    }

    /// The view mode.
    pub fn state(&self) -> (r: ViewState)
        ensures
            r == self@.state,
    {
        self.state
    }

    /// Sets the view mode and returns the one before.
    pub fn set_state(&mut self, s: ViewState) -> (prev: ViewState)
        ensures
            prev == old(self)@.state,
            final(self)@ == (TrackerCliView { state: s, tracker: old(self)@.tracker }),
    {
        let prev = self.state;
        self.state = s;
        prev
    }

    /// The session.
    pub fn tracker(&self) -> (r: &Tracker)
        ensures
            r@ == self@.tracker,
    {
        &self.tracker
    }

    /// Applies a command for the display, and puts the inverse action that
    /// it leaves on top of the stack of the session.
    pub fn apply<C: Apply>(&mut self, cmd: &C) -> (r: Result<(), CommandError>)
        ensures
            final(self)@ == old(self)@.view_applied(cmd.command()),
            match r {
                Ok(_) => cmd.command().on_view(old(self)@.state) is Ok,
                Err(e) => cmd.command().on_view(old(self)@.state) == Err::<
                    Option<InverseActionView>,
                    CommandErrorView,
                >(e@),
            },
    {
        match cmd.apply(CommandReceiver::TrackerCli(&mut *self)) {
            Ok(Some(inverse)) => {
                self.tracker.push_undo(inverse);
                Ok(())
            },
            Ok(None) => Ok(()),
            Err(e) => Err(e),
        }
    }

    /// Undoes the latest command: takes the latest inverse action off the
    /// stack and carries it out, on the store or on the view mode.
    pub fn undo(&mut self) -> (r: UndoOutcome)
        ensures
            final(self)@ == old(self)@.undone(),
            r == old(self)@.tracker.undo_outcome(),
    {
        let outcome = self.tracker.undo();
        match outcome {
            UndoOutcome::View(state) => {
                self.state = state;
            },
            _ => {},
        }
        outcome
    }

    /// Carries out `cmd` at `now`.
    pub fn apply_command_at(&mut self, cmd: Option<CommandKind>, now: Time) -> (r: Applied)
        requires
            old(self)@.can_apply(
                kind_view(cmd),
            ),
        ensures
            final(self)@ == old(self)@.applied(
                kind_view(cmd),
                now,
            ),
            r@ == old(self)@.outcome(
                kind_view(cmd),
                now,
            ),
    {
        match cmd {
            None => Applied::NoCommand,
            Some(CommandKind::Exit) => Applied::Exit,
            Some(CommandKind::CliCommand(command)) => match self.apply(&command) {
                Ok(_) => Applied::Done,
                Err(e) => Applied::ViewFailed(e),
            },
            Some(CommandKind::Undo) => Applied::Undone(self.undo()),
            Some(CommandKind::DataCommand(command)) => {
                match self.tracker.apply_command_at(&command, now) {
                    Ok(_) => Applied::Done,
                    Err(e) => Applied::DataFailed(e),
                }
            },
        }
    }

    /// Carries out `cmd` at the time that the clock shows.
    pub fn apply_command(&mut self, cmd: Option<CommandKind>) -> (r: Applied)
        requires
            old(self)@.can_apply(
                kind_view(cmd),
            ),
        ensures
            exists|now: Time|
                {
                    &&& #[trigger] old(self)@.applied(
                        kind_view(cmd),
                        now,
                    ) == final(self)@
                    &&& r@ == old(self)@.outcome(
                        kind_view(cmd),
                        now,
                    )
                },
    {
        let now = Time::now();
        self.apply_command_at(cmd, now)
    }

    /// The events that are listed in the view mode of the display at `now`,
    /// in the order of the list.
    pub fn generate_events_list(&self, now: &Time) -> (list: Vec<(Uid, &TrackedEvent)>)
        ensures
            is_listing(ranked(list@), self@.tracker.events, self@.state, *now),
            ranked(list@) == listing_of(self@.tracker.events, self@.state, *now),
            forall|i: int|
                0 <= i < list@.len() ==> (#[trigger] list@[i]).1@
                    == self@.tracker.events[list@[i].0],
    {
        let rows = self.tracker.listing(self.state, now);
        let mut list: Vec<(Uid, &TrackedEvent)> = Vec::new();
        let mut i: usize = 0;
        while i < rows.len()
            invariant
                i <= rows@.len(),
                list@.len() == i,
                is_listing(rows@, self@.tracker.events, self@.state, *now),
                forall|k: int|
                    0 <= k < i ==> (#[trigger] list@[k]).0 == rows@[k].1 && list@[k].1@
                        == self@.tracker.events[rows@[k].1],
            decreases rows@.len() - i,
        {
            let uid = rows[i].1;
            assert(self@.tracker.events.contains_key(rows@[i as int].1));
            match self.tracker.get_event(uid) {
                Some(event) => {
                    list.push((uid, event));
                },
                None => {},
            }
            i += 1;
        }
        proof {
            assert(ranked(list@) =~= rows@);
        }
        list
    }

    /// What a line of input asks for, where `visible_events` holds the
    /// events in the order in which they are listed.
    pub fn interpret(&self, input: &str, visible_events: &[(Uid, &TrackedEvent)]) -> (r: Matched)
        ensures
            r@ == matched(whitespace_words(input@), listed_uids(visible_events@)),
    {
        let mut uids: Vec<Uid> = Vec::new();
        let mut i: usize = 0;
        while i < visible_events.len()
            invariant
                i <= visible_events@.len(),
                uids@ =~= listed_uids(visible_events@).take(i as int),
            decreases visible_events@.len() - i,
        {
            uids.push(visible_events[i].0);
            i += 1;
        }
        assert(uids@ =~= listed_uids(visible_events@));
        match_command(input, uids.as_slice())
    }

    /// Takes a line of input at `now`: finds what it asks for among the
    /// events that are listed then, and carries the command out if the line
    /// names one. A line that asks for something that takes more input, or
    /// that names no command, changes nothing and is handed back as it was
    /// understood.
    pub fn call_at(&mut self, input: &str, now: Time) -> (r: Result<Applied, Matched>)
        ensures
            final(self)@ == old(self)@.called(whitespace_words(input@), now).0,
            result_view(r) == old(self)@.called(whitespace_words(input@), now).1,
    {
        let visible_events = self.generate_events_list(&now);
        let found = self.interpret(input, visible_events.as_slice());
        proof {
            assert(uids_of(ranked(visible_events@)) =~= listed_uids(visible_events@));
        }
        match found {
            Matched::Kind(kind) => Ok(self.apply_command_at(Some(kind), now)),
            other => Err(other),
        }
    }

    /// Takes a line of input at the time that the clock shows.
    pub fn call(&mut self, input: &str) -> (r: Result<Applied, Matched>)
        ensures
            exists|now: Time|
                {
                    &&& #[trigger] old(self)@.called(whitespace_words(input@), now).0 == final(self)@
                    &&& result_view(r) == old(self)@.called(whitespace_words(input@), now).1
                },
    {
        let now = Time::now();
        self.call_at(input, now)
    }
}

/// What the result of a call holds.
pub open spec fn result_view(r: Result<Applied, Matched>) -> Result<AppliedView, MatchedView> {
    match r {
        Ok(applied) => Ok(applied@),
        Err(found) => Err(found@),
    }
}

} // verus!
