//! What can go wrong in the library.

use vstd::prelude::*;
use vstd::string::StringExecFns;
use crate::tracked_event::Uid;

verus! {

/// Why a next due time could not be computed.
#[derive(Clone, Copy, Debug, PartialEq, Eq, Structural)]
pub enum ScheduleError {
    /// The recurrence rule has no scheduling rule.
    Unsupported,
    /// The rule names a date that the calendar does not have, such as the
    /// 30th of February.
    InvalidDate,
    /// A time involved lies beyond what can be held.
    OutOfRange,
    /// The event is triggered but has no trigger in its history, so there is
    /// no time to count from.
    NoAnchor,
}

impl ScheduleError {
    /// The error in words.
    pub open spec fn text(self) -> Seq<char> {
        match self {
            ScheduleError::Unsupported => "the rule has no scheduling rule"@,
            ScheduleError::InvalidDate => "the rule names a date that does not exist"@,
            ScheduleError::OutOfRange => "a time lies beyond what can be held"@,
            ScheduleError::NoAnchor => "the event is triggered but has no trigger time"@,
        }
    }

    /// The error in words.
    pub fn to_string(&self) -> (s: String)
        ensures
            s@ == self.text(),
    {
        match self {
            ScheduleError::Unsupported => String::from_str("the rule has no scheduling rule"),
            ScheduleError::InvalidDate => String::from_str(
                "the rule names a date that does not exist",
            ),
            ScheduleError::OutOfRange => String::from_str("a time lies beyond what can be held"),
            ScheduleError::NoAnchor => String::from_str(
                "the event is triggered but has no trigger time",
            ),
        }
    }
}

/// Why a command could not be applied.
#[derive(Debug)]
pub enum CommandError {
    /// No event has this uid.
    EventNotFound(Uid),
    /// The command does not act on the receiver it was given; the text names
    /// the receiver.
    InvalidReceiver(String),
}

/// What a `CommandError` holds.
pub enum CommandErrorView {
    EventNotFound(Uid),
    InvalidReceiver(Seq<char>),
}

impl View for CommandError {
    type V = CommandErrorView;

    open spec fn view(&self) -> CommandErrorView {
        match *self {
            CommandError::EventNotFound(uid) => CommandErrorView::EventNotFound(uid),
            CommandError::InvalidReceiver(name) => CommandErrorView::InvalidReceiver(name@),
        }
    }
}

impl CommandError {
    /// The error in words, the same for every command error.
    pub fn to_string(&self) -> (s: String)
        ensures
            s@ == "cannot apply command"@,
    {
        String::from_str("cannot apply command")
    }
}

/// An item was added under a key that is taken. Holds the key, the value
/// that is there, and the value that was to be added.
#[derive(Debug)]
pub struct ItemAlreadyExistsError<K, V>(pub K, pub V, pub V);

/// No item was found under the key.
#[derive(Debug)]
pub struct NotFoundError<K>(pub K);

} // verus!
