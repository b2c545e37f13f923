//! What the user registers: the text of an event and its recurrence rule.

use vstd::prelude::*;
use vstd::string::StringExecFns;
use crate::interval::{Interval, IntervalView};

verus! {

/// The description of an event. It is never changed in place, only
/// replaced as a whole.
#[derive(Debug)]
pub struct EventData {
    text: String,
    interval: Interval,
    stacks: bool,
}

/// What an `EventData` holds.
pub struct EventDataView {
    pub text: Seq<char>,
    pub interval: IntervalView,
    /// Whether triggers of an already triggered event pile up.
    pub stacks: bool,
}

impl EventDataView {
    /// The event in words: its text, its rule, and whether triggers pile up.
    pub open spec fn description(self) -> Seq<char> {
        "EventData { \""@ + self.text + "\", interval: "@ + self.interval.text() + (if self.stacks {
            " (re-trigger stacks)"@
        } else {
            " (re-trigger overrides)"@
        }) + " }"@
    }
}

impl View for EventData {
    type V = EventDataView;

    closed spec fn view(&self) -> EventDataView {
        EventDataView { text: self.text@, interval: self.interval@, stacks: self.stacks }
    }
}

impl Clone for EventData {
    fn clone(&self) -> (r: EventData)
        ensures
            r@ == self@,
    {
        EventData {
            text: self.text.clone(),
            interval: self.interval.clone(),
            stacks: self.stacks,
        }
    }
}

impl EventData {
    /// An event that does not stack.
    pub fn new(interval: Interval, text: String) -> (r: EventData)
        ensures
            r@ == (EventDataView { text: text@, interval: interval@, stacks: false }),
    {
        EventData { interval, text, stacks: false }
    }

    /// An event that stacks or not, as `stacks` says.
    pub fn with_stacks(interval: Interval, text: String, stacks: bool) -> (r: EventData)
        ensures
            r@ == (EventDataView { text: text@, interval: interval@, stacks }),
    {
        EventData { interval, text, stacks }
    }

    /// The text of the event.
    pub fn text(&self) -> (r: &str)
        ensures
            r@ == self@.text,
    {
        self.text.as_str()
    }

    /// The recurrence rule of the event.
    pub fn interval(&self) -> (r: &Interval)
        ensures
            r@ == self@.interval,
    {
        &self.interval
    }

    /// The event in words.
    pub fn to_string(&self) -> (s: String)
        ensures
            s@ == self@.description(),
    {
        let mut out = String::new();
        out.append("EventData { \"");
        out.append(self.text.as_str());
        out.append("\", interval: ");
        out.append(self.interval.to_string().as_str());
        if self.stacks {
            out.append(" (re-trigger stacks)");
        } else {
            out.append(" (re-trigger overrides)");
        }
        out.append(" }");
        assert(out@ =~= self@.description());
        out
    }

    /// Whether triggers of the event pile up while it is triggered.
    pub fn stacks(&self) -> (r: bool)
        ensures
            r == self@.stacks,
    {
        self.stacks
    }
}

} // verus!
