//! An event together with its status, and when it comes due.

use vstd::prelude::*;
use crate::error::ScheduleError;
use crate::event::{EventData, EventDataView};
use crate::schedule::{lemma_next_due_not_before_anchor, next_due};
use crate::status::{Status, StatusKind, StatusView};
use crate::time::Time;

verus! {

/// The key of an event in a store.
#[derive(Clone, Copy, Debug, PartialEq, Eq, PartialOrd, Ord, Structural)]
pub struct Uid(pub usize);

impl Uid {
    /// The uid as text: its number in decimal notation.
    pub fn to_string(&self) -> (s: String)
        ensures
            s@ == crate::text::digits(self.0 as nat),
    {
        let mut out = String::new();
        crate::text::push_digits(&mut out, self.0 as u64);
        assert(out@ =~= crate::text::digits(self.0 as nat));
        out
    }

    /// The uid that follows this one.
    pub fn next(self) -> (r: Uid)
        requires
            self.0 < usize::MAX,
        ensures
            r.0 == self.0 + 1,
    {
        Uid(self.0 + 1)
    }
}

/// An event and its status: what is stored, changed and removed as one.
#[derive(Debug)]
pub struct TrackedEvent(pub EventData, pub Status);

/// What a `TrackedEvent` holds.
pub struct TrackedEventView {
    pub event: EventDataView,
    pub status: StatusView,
}

/// A part of the rough length of a recurrence: `numerator` seconds out of
/// `denominator`, which is not zero.
#[derive(Clone, Copy, Debug, PartialEq, Eq, Structural)]
pub struct Fraction {
    pub numerator: i64,
    pub denominator: i64,
}

impl Fraction {
    /// The fraction is less than `numerator` over `denominator`, for a
    /// `denominator` above zero.
    pub open spec fn below(self, numerator: int, denominator: int) -> bool {
        if self.denominator > 0 {
            self.numerator * denominator < numerator * self.denominator
        } else {
            self.numerator * denominator > numerator * self.denominator
        }
    }

    /// Whether the fraction is less than `numerator` over `denominator`.
    pub fn is_below(&self, numerator: i64, denominator: i64) -> (r: bool)
        requires
            denominator > 0,
        ensures
            r == self.below(numerator as int, denominator as int),
    {
        let left: i128 = mul_wide(self.numerator, denominator);
        let right: i128 = mul_wide(numerator, self.denominator);
        if self.denominator > 0 {
            left < right
        } else {
            left > right
        }
    }
}

/// The product of two `i64` in full.
fn mul_wide(a: i64, b: i64) -> (r: i128)
    ensures
        r == a * b,
{
    assert(-0x8000_0000_0000_0000 * 0x8000_0000_0000_0000 <= a * b <= 0x8000_0000_0000_0000
        * 0x8000_0000_0000_0000) by (nonlinear_arith)
        requires
            -0x8000_0000_0000_0000 <= a <= 0x8000_0000_0000_0000,
            -0x8000_0000_0000_0000 <= b <= 0x8000_0000_0000_0000,
    ;
    (a as i128) * (b as i128)
}

impl View for TrackedEvent {
    type V = TrackedEventView;

    open spec fn view(&self) -> TrackedEventView {
        TrackedEventView { event: self.0@, status: self.1@ }
    }
}

impl Clone for TrackedEvent {
    fn clone(&self) -> (r: TrackedEvent)
        ensures
            r@ == self@,
    {
        TrackedEvent(self.0.clone(), self.1.clone())
    }
}

impl TrackedEventView {
    /// The status is well formed.
    pub open spec fn wf(self) -> bool {
        self.status.wf()
    }

    /// The event is triggered and does not stack: nothing more is scheduled
    /// for it until it is completed or skipped.
    pub open spec fn not_scheduled(self) -> bool {
        self.status.status is Triggered && !self.event.stacks
    }

    /// The next time at which the event comes due: none for a triggered
    /// event that does not stack, else the next due time of its rule counted
    /// from the anchor of its status.
    pub open spec fn next_trigger_time(self) -> Result<Option<Time>, ScheduleError> {
        if self.not_scheduled() {
            Ok(None)
        } else {
            match self.status.anchor() {
                None => Err(ScheduleError::NoAnchor),
                Some(anchor) => match next_due(self.event.interval, anchor) {
                    Ok(due) => Ok(Some(due)),
                    Err(e) => Err(e),
                },
            }
        }
    }

    /// The event is due at `now`: it has a next due time, and `now` is that
    /// time or later.
    pub open spec fn due_at(self, now: Time) -> bool {
        self.next_trigger_time() matches Ok(Some(due)) && now.at_or_after(due)
    }

    /// The event after an update at `now`: triggered at `now` if it is due,
    /// else unchanged.
    pub open spec fn updated_at(self, now: Time) -> TrackedEventView {
        if self.due_at(now) {
            TrackedEventView { event: self.event, status: self.status.triggered_at(now) }
        } else {
            self
        }
    }

    /// How much of the rough length of the recurrence is left at `at` until
    /// the event comes due: the whole seconds until then over the seconds of
    /// the rough length, or 0 over 1 where that length is zero. `None` where
    /// there is no next due time or no rough length, or where the seconds do
    /// not fit in `i64`.
    pub open spec fn fraction_of_interval_remaining(self, at: Time) -> Option<Fraction> {
        match (self.next_trigger_time(), self.event.interval.duration_heuristic()) {
            (Ok(Some(due)), Some(length)) => {
                let seconds = at.whole_seconds_until(due);
                if length.secs == 0 {
                    Some(Fraction { numerator: 0, denominator: 1 })
                } else if i64::MIN <= seconds <= i64::MAX {
                    Some(Fraction { numerator: seconds as i64, denominator: length.secs })
                } else {
                    None
                }
            },
            _ => None,
        }
    }
}

impl TrackedEvent {
    /// The event `source` in status `state`.
    pub fn with_state(source: EventData, state: Status) -> (r: TrackedEvent)
        ensures
            r == TrackedEvent(source, state),
    {
        TrackedEvent(source, state)
    }

    /// The description of the event.
    pub fn event(&self) -> (r: &EventData)
        ensures
            r@ == self@.event,
    {
        &self.0
    }

    /// The status of the event.
    pub fn state(&self) -> (r: &Status)
        ensures
            r@ == self@.status,
    {
        &self.1
    }

    /// The status of the event, to be changed in place.
    pub fn state_mut(&mut self) -> (r: &mut Status)
        ensures
            (*r)@ == old(self)@.status,
            final(self)@ == (TrackedEventView { event: old(self)@.event, status: (*final(r))@ }),
    {
        &mut self.1
    }

    /// Whether the event is triggered.
    pub fn is_triggered(&self) -> (r: bool)
        ensures
            r == (self@.status.status is Triggered),
    {
        self.1.is_triggered()
    }

    /// Whether the event is completed.
    pub fn is_done(&self) -> (r: bool)
        ensures
            r == (self@.status.status is Completed),
    {
        self.1.is_done()
    }

    /// Whether the event is completed.
    pub fn is_completed(&self) -> (r: bool)
        ensures
            r == (self@.status.status is Completed),
    {
        self.is_done()
    }

    /// The text of the event.
    pub fn text(&self) -> (r: &str)
        ensures
            r@ == self@.event.text,
    {
        self.0.text()
    }

    /// The next time at which the event comes due, or `None` for a triggered
    /// event that does not stack.
    pub fn next_trigger_time(&self) -> (r: Result<Option<Time>, ScheduleError>)
        ensures
            r == self@.next_trigger_time(),
    {
        if self.1.is_triggered() && !self.0.stacks() {
            return Ok(None);
        }
        let anchor = match self.1.prev_trigger_time() {
            Some(t) => t,
            None => match self.1.kind() {
                StatusKind::Dormant(t) => t,
                StatusKind::Skip(t) => t,
                StatusKind::Completed(t) => t,
                StatusKind::Triggered => {
                    return Err(ScheduleError::NoAnchor);
                },
            },
        };
        match self.0.interval().next_due(anchor) {
            Ok(due) => Ok(Some(due)),
            Err(e) => Err(e),
        }
    }

    /// Triggers the event at `now` if it is due then. Where the next due
    /// time cannot be computed, the event stays as it is and the error is
    /// returned.
    pub fn update_at(&mut self, now: Time) -> (r: Result<(), ScheduleError>)
        ensures
            final(self)@ == old(self)@.updated_at(now),
            match r {
                Ok(_) => old(self)@.next_trigger_time() is Ok,
                Err(e) => old(self)@.next_trigger_time() == Err::<Option<Time>, ScheduleError>(e),
            },
    {
        match self.next_trigger_time() {
            Err(e) => Err(e),
            Ok(None) => Ok(()),
            Ok(Some(due)) => {
                if now.is_at_or_after(&due) {
                    self.1.trigger_at(now);
                }
                Ok(())
            },
        }
    }

    /// Triggers the event if it is due at the time that the clock shows.
    pub fn update(&mut self) -> (r: Result<(), ScheduleError>)
        ensures
            exists|now: Time| final(self)@ == old(self)@.updated_at(now),
            match r {
                Ok(_) => old(self)@.next_trigger_time() is Ok,
                Err(e) => old(self)@.next_trigger_time() == Err::<Option<Time>, ScheduleError>(e),
            },
    {
        let now = Time::now();
        self.update_at(now)
    }

    /// Triggers the event at `t`. Returns whether the event moved from not
    /// triggered to triggered.
    pub fn trigger_at(&mut self, t: Time) -> (r: bool)
        ensures
            final(self)@.event == old(self)@.event,
            final(self)@.status == old(self)@.status.triggered_at(t),
            r == old(self)@.status.becomes_triggered(),
    {
        self.1.trigger_at(t)
    }

    /// Triggers the event at the time that the clock shows.
    pub fn trigger_now(&mut self) -> (r: bool)
        ensures
            final(self)@.event == old(self)@.event,
            exists|now: Time| final(self)@.status == old(self)@.status.triggered_at(now),
            r == old(self)@.status.becomes_triggered(),
    {
        self.1.trigger_now()
    }

    /// Completes the event at `t`. Returns whether it was completed already.
    pub fn complete_at(&mut self, t: Time) -> (r: bool)
        ensures
            final(self)@.event == old(self)@.event,
            final(self)@.status == old(self)@.status.completed_at(t),
            r == (old(self)@.status.status is Completed),
    {
        self.1.complete_at(t)
    }

    /// Completes the event at the time that the clock shows.
    pub fn complete_now(&mut self) -> (r: bool)
        ensures
            final(self)@.event == old(self)@.event,
            exists|now: Time| final(self)@.status == old(self)@.status.completed_at(now),
            r == (old(self)@.status.status is Completed),
    {
        self.1.complete_now()
    }

    /// How much of the rough length of the recurrence is left at `at_time`
    /// until the event comes due. For ranking events only.
    pub fn fraction_of_interval_remaining(&self, at_time: &Time) -> (r: Option<Fraction>)
        ensures
            r == self@.fraction_of_interval_remaining(*at_time),
    {
        let due = match self.next_trigger_time() {
            Ok(Some(due)) => due,
            _ => {
                return None;
            },
        };
        let length = match self.0.interval().to_duration_heuristic() {
            Some(d) => d.num_seconds(),
            None => {
                return None;
            },
        };
        if length == 0 {
            return Some(Fraction { numerator: 0, denominator: 1 });
        }
        let seconds: i128 = seconds_between(at_time, &due);
        if seconds < i64::MIN as i128 || seconds > i64::MAX as i128 {
            None
        } else {
            Some(Fraction { numerator: seconds as i64, denominator: length })
        }
    }
}

/// Whole seconds from `from` to `to`, rounded towards zero.
fn seconds_between(from: &Time, to: &Time) -> (r: i128)
    ensures
        r == from.whole_seconds_until(*to),
{
    let secs: i128 = to.secs as i128 - from.secs as i128;
    let nanos: i128 = secs * 1_000_000_000 + (to.nanos as i128 - from.nanos as i128);
    if nanos >= 0 {
        nanos / 1_000_000_000
    } else {
        -((-nanos) / 1_000_000_000)
    }
}

/// The query for the next due time answers "not scheduled" exactly for a
/// triggered event that does not stack, whatever its rule.
pub proof fn lemma_not_scheduled(event: TrackedEventView)
    ensures
        event.next_trigger_time() == Ok::<Option<Time>, ScheduleError>(None)
            <==> event.not_scheduled(),
{
}

/// Stacking. A trigger of an event that is not skipped adds one entry to its
/// history. After a trigger of a dormant or completed event that does not
/// stack, nothing is scheduled; an event that stacks keeps a next due time
/// counted from its latest trigger.
pub proof fn lemma_stacking(event: TrackedEventView, now: Time)
    requires
        event.wf(),
        !(event.status.status is Skip),
    ensures
        event.status.triggered_at(now).trigger_times == event.status.trigger_times.push(now),
        event.status.triggered_at(now).status is Triggered,
        !event.event.stacks ==> (TrackedEventView {
            event: event.event,
            status: event.status.triggered_at(now),
        }).next_trigger_time() == Ok::<Option<Time>, ScheduleError>(None),
        event.event.stacks ==> (TrackedEventView {
            event: event.event,
            status: event.status.triggered_at(now),
        }).next_trigger_time() == match next_due(event.event.interval, now) {
            Ok(due) => Ok::<Option<Time>, ScheduleError>(Some(due)),
            Err(e) => Err(e),
        },
{
    assert(event.status.status is Triggered || event.status.trigger_times =~= Seq::empty());
    assert(event.status.triggered_at(now).trigger_times =~= event.status.trigger_times.push(now));
}

/// Forward only: where an event has a next due time, that time does not lie
/// before the anchor of its status. For a span from the last completion this
/// holds where the span is not negative.
pub proof fn lemma_next_trigger_not_before_anchor(event: TrackedEventView)
    requires
        event.event.interval matches crate::interval::IntervalView::FromLastCompletion(delta)
            ==> delta.seconds() >= 0,
    ensures
        event.next_trigger_time() matches Ok(Some(due)) ==> event.status.anchor() matches Some(
            anchor,
        ) && due.at_or_after(anchor),
{
    if let Some(anchor) = event.status.anchor() {
        lemma_next_due_not_before_anchor(event.event.interval, anchor);
    }
}

} // verus!
