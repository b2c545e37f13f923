//! The life cycle of one event: dormant, triggered, completed or skipped,
//! with the history of its triggers.

use vstd::prelude::*;
use vstd::std_specs::cmp::PartialEqSpecImpl;
use crate::time::Time;

verus! {

/// Where an event stands in its life cycle.
#[derive(Clone, Copy, Debug)]
pub enum StatusKind {
    /// Never triggered or completed; holds the time of registration.
    Dormant(Time),
    /// Due, and not yet completed.
    Triggered,
    /// Completed, and ready to trigger again; holds the time of completion.
    Completed(Time),
    /// Skipped until the next slot; holds the time of the skip.
    Skip(Time),
}

impl StatusKind {
    /// The two values are of the same variant, whatever times they hold.
    pub open spec fn same_kind(self, other: StatusKind) -> bool {
        match (self, other) {
            (StatusKind::Dormant(_), StatusKind::Dormant(_)) => true,
            (StatusKind::Triggered, StatusKind::Triggered) => true,
            (StatusKind::Completed(_), StatusKind::Completed(_)) => true,
            (StatusKind::Skip(_), StatusKind::Skip(_)) => true,
            _ => false,
        }
    }

    /// The time that the variant holds, if it holds one.
    pub open spec fn time(self) -> Option<Time> {
        match self {
            StatusKind::Dormant(t) => Some(t),
            StatusKind::Triggered => None,
            StatusKind::Completed(t) => Some(t),
            StatusKind::Skip(t) => Some(t),
        }
    }

    /// A dormant status registered now.
    pub fn default() -> (r: StatusKind)
        ensures
            r is Dormant,
    {
        StatusKind::Dormant(Time::now())
    }
}

/// Two kinds are equal when they are of the same variant: the times that
/// they hold are not compared.
impl PartialEq for StatusKind {
    fn eq(&self, other: &StatusKind) -> (r: bool) {
        match (self, other) {
            (StatusKind::Dormant(_), StatusKind::Dormant(_)) => true,
            (StatusKind::Triggered, StatusKind::Triggered) => true,
            (StatusKind::Completed(_), StatusKind::Completed(_)) => true,
            (StatusKind::Skip(_), StatusKind::Skip(_)) => true,
            _ => false,
        }
    }
}

impl PartialEqSpecImpl for StatusKind {
    open spec fn obeys_eq_spec() -> bool {
        true
    }

    open spec fn eq_spec(&self, other: &StatusKind) -> bool {
        self.same_kind(*other)
    }
}

/// The status of an event: its kind and the times of its triggers since it
/// was last dormant, completed or skipped.
#[derive(Debug)]
pub struct Status {
    trigger_times: Vec<Time>,
    pub status: StatusKind,
}

/// What a `Status` holds.
pub struct StatusView {
    pub trigger_times: Seq<Time>,
    pub status: StatusKind,
}

impl StatusView {
    /// The history of triggers is non-empty exactly while the event is
    /// triggered.
    pub open spec fn wf(self) -> bool {
        self.trigger_times.len() > 0 <==> self.status is Triggered
    }

    /// The status of an event registered at `t`.
    pub open spec fn dormant(t: Time) -> StatusView {
        StatusView { trigger_times: Seq::empty(), status: StatusKind::Dormant(t) }
    }

    /// The status after a trigger at `now`. A dormant or completed event
    /// becomes triggered with `now` as its only trigger; a skipped event
    /// becomes completed at `now`; a triggered event gains `now` in its
    /// history.
    pub open spec fn triggered_at(self, now: Time) -> StatusView {
        match self.status {
            StatusKind::Dormant(_) | StatusKind::Completed(_) => StatusView {
                trigger_times: seq![now],
                status: StatusKind::Triggered,
            },
            StatusKind::Skip(_) => StatusView {
                trigger_times: Seq::empty(),
                status: StatusKind::Completed(now),
            },
            StatusKind::Triggered => StatusView {
                trigger_times: self.trigger_times.push(now),
                status: StatusKind::Triggered,
            },
        }
    }

    /// A trigger moves the event from not triggered to triggered.
    pub open spec fn becomes_triggered(self) -> bool {
        self.status is Dormant || self.status is Completed
    }

    /// The status after a completion at `now`.
    pub open spec fn completed_at(self, now: Time) -> StatusView {
        StatusView { trigger_times: Seq::empty(), status: StatusKind::Completed(now) }
    }

    /// The status after a skip at `now`.
    pub open spec fn skipped_at(self, now: Time) -> StatusView {
        StatusView { trigger_times: Seq::empty(), status: StatusKind::Skip(now) }
    }

    /// The latest trigger in the history.
    pub open spec fn prev_trigger_time(self) -> Option<Time> {
        if self.trigger_times.len() > 0 {
            Some(self.trigger_times.last())
        } else {
            None
        }
    }

    /// The time from which the next due time is counted: the latest trigger,
    /// or else the time that the kind holds.
    pub open spec fn anchor(self) -> Option<Time> {
        if self.trigger_times.len() > 0 {
            Some(self.trigger_times.last())
        } else {
            self.status.time()
        }
    }
}

impl View for Status {
    type V = StatusView;

    closed spec fn view(&self) -> StatusView {
        StatusView { trigger_times: self.trigger_times@, status: self.status }
    }
}

impl Clone for Status {
    fn clone(&self) -> (r: Status)
        ensures
            r@ == self@,
    {
        Status { trigger_times: self.trigger_times.clone(), status: self.status }
    }
}

impl Default for Status {
    /// A dormant status registered now.
    fn default() -> (r: Status)
        ensures
            exists|now: Time| r@ == StatusView::dormant(now),
    {
        Status::from_time(Time::now())
    }
}

impl Status {
    /// The status of an event registered at `t`.
    pub fn from_time(t: Time) -> (r: Status)
        ensures
            r@ == StatusView::dormant(t),
            r@.wf(),
    {
        Status { trigger_times: Vec::new(), status: StatusKind::Dormant(t) }
    }

    /// A status with the given kind and history, if they fit together.
    pub fn from_parts(status: StatusKind, trigger_times: Vec<Time>) -> (r: Option<Status>)
        ensures
            r is Some <==> (StatusView { trigger_times: trigger_times@, status }).wf(),
            r is Some ==> (r->0)@ == (StatusView { trigger_times: trigger_times@, status }),
    {
        let triggered = match status {
            StatusKind::Triggered => true,
            _ => false,
        };
        if (trigger_times.len() > 0) == triggered {
            Some(Status { trigger_times, status })
        } else {
            None
        }
    }

    /// The times of the triggers since the event was last dormant, completed
    /// or skipped, oldest first.
    pub fn trigger_times(&self) -> (r: &Vec<Time>)
        ensures
            r@ == self@.trigger_times,
    {
        &self.trigger_times
    }

    /// The kind of the status.
    pub fn kind(&self) -> (r: StatusKind)
        ensures
            r == self@.status,
    {
        self.status
    }

    /// Whether the status is exactly `Triggered`.
    pub fn is_triggered(&self) -> (r: bool)
        ensures
            r == (self@.status is Triggered),
    {
        match self.status {
            StatusKind::Triggered => true,
            _ => false,
        }
    }

    /// Whether the status is exactly `Completed`.
    pub fn is_done(&self) -> (r: bool)
        ensures
            r == (self@.status is Completed),
    {
        match self.status {
            StatusKind::Completed(_) => true,
            _ => false,
        }
    }

    /// Triggers the event at `now`. Returns whether the event moved from
    /// not triggered to triggered.
    pub fn trigger_at(&mut self, now: Time) -> (r: bool)
        ensures
            final(self)@ == old(self)@.triggered_at(now),
            r == old(self)@.becomes_triggered(),
            final(self)@.wf(),
    {
        match self.status {
            StatusKind::Dormant(_) | StatusKind::Completed(_) => {
                self.status = StatusKind::Triggered;
                self.trigger_times = Vec::new();
                self.trigger_times.push(now);
                assert(self.trigger_times@ =~= seq![now]);
                true
            },
            StatusKind::Skip(_) => {
                self.status = StatusKind::Completed(now);
                self.trigger_times = Vec::new();
                false
            },
            StatusKind::Triggered => {
                self.trigger_times.push(now);
                false
            },
        }
    }

    /// Triggers the event at the time that the clock shows.
    pub fn trigger_now(&mut self) -> (r: bool)
        ensures
            exists|now: Time| final(self)@ == old(self)@.triggered_at(now),
            r == old(self)@.becomes_triggered(),
            final(self)@.wf(),
    {
        let now = Time::now();
        self.trigger_at(now)
    }

    /// Completes the event at `now` and clears its history. Returns whether
    /// it was completed already.
    pub fn complete_at(&mut self, now: Time) -> (r: bool)
        ensures
            final(self)@ == old(self)@.completed_at(now),
            r == (old(self)@.status is Completed),
            final(self)@.wf(),
    {
        let was_done = self.is_done();
        self.trigger_times = Vec::new();
        self.status = StatusKind::Completed(now);
        was_done
    }

    /// Completes the event at the time that the clock shows.
    pub fn complete_now(&mut self) -> (r: bool)
        ensures
            exists|now: Time| final(self)@ == old(self)@.completed_at(now),
            r == (old(self)@.status is Completed),
            final(self)@.wf(),
    {
        let now = Time::now();
        self.complete_at(now)
    }

    /// Skips the event at `now` and clears its history.
    pub fn skip_at(&mut self, now: Time)
        ensures
            final(self)@ == old(self)@.skipped_at(now),
            final(self)@.wf(),
    {
        self.trigger_times = Vec::new();
        self.status = StatusKind::Skip(now);
    }

    /// Skips the event at the time that the clock shows.
    pub fn skip_now(&mut self)
        ensures
            exists|now: Time| final(self)@ == old(self)@.skipped_at(now),
            final(self)@.wf(),
    {
        let now = Time::now();
        self.skip_at(now)
    }

    /// The latest trigger in the history, if there is one.
    pub fn prev_trigger_time(&self) -> (r: Option<Time>)
        ensures
            r == self@.prev_trigger_time(),
    {
        let n = self.trigger_times.len();
        if n > 0 {
            Some(self.trigger_times[n - 1])
        } else {
            None
        }
    }
}

/// Completing twice in a row: the second call reports that the event was
/// completed already, and leaves it completed with an empty history; with
/// the same time given twice the status is the same after both calls.
pub proof fn lemma_complete_twice(s: StatusView, first: Time, second: Time)
    ensures
        s.completed_at(first).status is Completed,
        s.completed_at(first).completed_at(second).status.same_kind(s.completed_at(first).status),
        s.completed_at(first).completed_at(second).trigger_times == s.completed_at(
            first,
        ).trigger_times,
        s.completed_at(first).completed_at(first) == s.completed_at(first),
{
}

/// Every transition leaves the history non-empty exactly when the event is
/// triggered, whatever the status before.
pub proof fn lemma_transitions_keep_wf(s: StatusView, now: Time)
    ensures
        s.triggered_at(now).wf(),
        s.completed_at(now).wf(),
        s.skipped_at(now).wf(),
        StatusView::dormant(now).wf(),
{
}

/// A trigger of a triggered event adds one entry to its history, and the
/// new entry is the latest.
pub proof fn lemma_trigger_appends(s: StatusView, now: Time)
    requires
        s.status is Triggered,
    ensures
        s.triggered_at(now).trigger_times.len() == s.trigger_times.len() + 1,
        s.triggered_at(now).trigger_times == s.trigger_times.push(now),
        s.triggered_at(now).prev_trigger_time() == Some(now),
        s.triggered_at(now).status is Triggered,
{
}

} // verus!
