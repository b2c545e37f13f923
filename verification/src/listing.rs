//! The order in which events are listed, and which of them are listed.

use vstd::prelude::*;
use crate::event_store::EventStoreView;
use crate::time::{Duration, Time};
use crate::tracked_event::{TrackedEvent, TrackedEventView, Uid};
use crate::tracker::Tracker;
use crate::view::ViewState;

verus! {

/// An event that is not triggered is listed in the standard view once less
/// than this part of the rough length of its recurrence is left: the
/// numerator.
pub const LOOK_AHEAD_NUMERATOR: i64 = 1;

/// The denominator of the part above.
pub const LOOK_AHEAD_DENOMINATOR: i64 = 12;

/// By what an event is ranked in a list: its next due time, where it has
/// one, and the rough length of its recurrence, where it has one.
#[derive(Clone, Copy, Debug, PartialEq, Eq, Structural)]
pub struct Rank {
    pub due: Option<Time>,
    pub length: Option<Duration>,
}

impl Rank {
    /// `self` ranks before `other`. Events without a next due time come
    /// first, the shorter recurrence first, one without a rough length
    /// before all others; then come the events with a next due time, the
    /// earlier first.
    pub open spec fn before(self, other: Rank) -> bool {
        match (self.due, other.due) {
            (Some(a), Some(b)) => a.before(b),
            (Some(_), None) => false,
            (None, Some(_)) => true,
            (None, None) => match (self.length, other.length) {
                (Some(a), Some(b)) => a.secs < b.secs,
                (Some(_), None) => false,
                (None, Some(_)) => true,
                (None, None) => false,
            },
        }
    }

    /// Whether `self` ranks before `other`.
    pub fn is_before(&self, other: &Rank) -> (r: bool)
        ensures
            r == self.before(*other),
    {
        match (self.due, other.due) {
            (Some(a), Some(b)) => a.is_before(&b),
            (Some(_), None) => false,
            (None, Some(_)) => true,
            (None, None) => match (self.length, other.length) {
                (Some(a), Some(b)) => a.secs < b.secs,
                (Some(_), None) => false,
                (None, Some(_)) => true,
                (None, None) => false,
            },
        }
    }
}

/// The row of `a` stands before the row of `b` in a list: by rank, and
/// among events of equal rank the one with the smaller uid first.
pub open spec fn listed_before(a: (Rank, Uid), b: (Rank, Uid)) -> bool {
    a.0.before(b.0) || (!b.0.before(a.0) && a.1.0 < b.1.0)
}

/// Of two rows with different uids one stands before the other, and the
/// order of rows has no cycles.
pub proof fn lemma_listed_before_is_an_order(a: (Rank, Uid), b: (Rank, Uid), c: (Rank, Uid))
    ensures
        !listed_before(a, a),
        a.1 != b.1 ==> (listed_before(a, b) <==> !listed_before(b, a)),
        listed_before(a, b) && listed_before(b, c) ==> listed_before(a, c),
{
}

impl TrackedEventView {
    /// By what the event is ranked in a list. An event whose next due time
    /// cannot be computed ranks as one that has none.
    #[verifier::opaque]
    pub open spec fn rank(self) -> Rank {
        Rank {
            due: match self.next_trigger_time() {
                Ok(due) => due,
                Err(_) => None,
            },
            length: self.event.interval.duration_heuristic(),
        }
    }

    /// The event is listed in view mode `state` at `now`: every event in the
    /// extended view; in the standard view the triggered events, and those
    /// of which less than a twelfth of the rough length of the recurrence is
    /// left until they come due.
    #[verifier::opaque]
    pub open spec fn listed(self, state: ViewState, now: Time) -> bool {
        match state {
            ViewState::Extended => true,
            ViewState::Standard => self.status.status is Triggered || (
            self.fraction_of_interval_remaining(now) matches Some(left) && left.below(1, 12)),
        }
    }
}

impl TrackedEvent {
    /// By what the event is ranked in a list.
    pub fn rank(&self) -> (r: Rank)
        ensures
            r == self@.rank(),
    {
        reveal(TrackedEventView::rank);
        Rank {
            due: match self.next_trigger_time() {
                Ok(due) => due,
                Err(_) => None,
            },
            length: self.0.interval().to_duration_heuristic(),
        }
    }

    /// Whether the event is listed in view mode `state` at `now`.
    pub fn is_listed(&self, state: ViewState, now: &Time) -> (r: bool)
        ensures
            r == self@.listed(state, *now),
    {
        reveal(TrackedEventView::listed);
        match state {
            ViewState::Extended => true,
            ViewState::Standard => {
                if self.is_triggered() {
                    true
                } else {
                    match self.fraction_of_interval_remaining(now) {
                        Some(left) => left.is_below(LOOK_AHEAD_NUMERATOR, LOOK_AHEAD_DENOMINATOR),
                        None => false,
                    }
                }
            },
        }
    }
}

/// How an event is shown in a list.
#[derive(Clone, Copy, Debug, PartialEq, Eq, Structural)]
pub enum Line {
    /// In the standard view, a triggered event: marked, with its text.
    Due,
    /// In the standard view, an event that is not triggered but has a next
    /// due time and a rough length: with its text and that time.
    Upcoming(Time),
    /// In the standard view, any other event: not shown.
    Hidden,
    /// In the extended view, every event: marked if it is triggered, with
    /// its next due time if it has one, its text, its rule and its status.
    Full { triggered: bool, next: Option<Time> },
}

/// The rough length from which on an event is listed apart from the events
/// that recur within a day: a day and an hour, in seconds.
pub const LONG_RECURRENCE_SECONDS: i64 = 90000;

impl TrackedEventView {
    /// How the event is shown in view mode `state` at `now`.
    pub open spec fn line(self, state: ViewState, now: Time) -> Line {
        match state {
            ViewState::Extended => Line::Full {
                triggered: self.status.status is Triggered,
                next: match self.next_trigger_time() {
                    Ok(next) => next,
                    Err(_) => None,
                },
            },
            ViewState::Standard => if self.status.status is Triggered {
                Line::Due
            } else if self.status.status is Skip {
                Line::Hidden
            } else {
                match (self.fraction_of_interval_remaining(now), self.next_trigger_time()) {
                    (Some(_), Ok(Some(next))) => Line::Upcoming(next),
                    _ => Line::Hidden,
                }
            },
        }
    }

    /// The event recurs at a rough length of more than a day.
    pub open spec fn recurs_slowly(self) -> bool {
        self.event.interval.duration_heuristic() matches Some(length) && length.secs >= 90000
    }
}

impl TrackedEvent {
    /// How the event is shown in view mode `state` at `now`.
    pub fn line(&self, state: ViewState, now: &Time) -> (r: Line)
        ensures
            r == self@.line(state, *now),
    {
        match state {
            ViewState::Extended => Line::Full {
                triggered: self.is_triggered(),
                next: match self.next_trigger_time() {
                    Ok(next) => next,
                    Err(_) => None,
                },
            },
            ViewState::Standard => {
                if self.is_triggered() {
                    return Line::Due;
                }
                match self.1.kind() {
                    crate::status::StatusKind::Skip(_) => Line::Hidden,
                    _ => match (
                        self.fraction_of_interval_remaining(now),
                        self.next_trigger_time(),
                    ) {
                        (Some(_), Ok(Some(next))) => Line::Upcoming(next),
                        _ => Line::Hidden,
                    },
                }
            },
        }
    }

    /// Whether the event recurs at a rough length of more than a day.
    pub fn recurs_slowly(&self) -> (r: bool)
        ensures
            r == self@.recurs_slowly(),
    {
        match self.0.interval().to_duration_heuristic() {
            Some(length) => length.secs >= LONG_RECURRENCE_SECONDS,
            None => false,
        }
    }
}

/// Where a list is split in two: the place of the first event that recurs
/// at a rough length of more than a day. Before it stand the events that are
/// headed as daily.
pub fn split_index(list: &[(Uid, &TrackedEvent)]) -> (r: Option<usize>)
    ensures
        match r {
            Some(at) => at < list@.len() && list@[at as int].1@.recurs_slowly() && forall|i: int|
                0 <= i < at ==> !(#[trigger] list@[i]).1@.recurs_slowly(),
            None => forall|i: int| 0 <= i < list@.len() ==> !(#[trigger] list@[i]).1@.recurs_slowly(),
        },
{
    let mut i: usize = 0;
    while i < list.len()
        invariant
            i <= list@.len(),
            forall|j: int| 0 <= j < i ==> !(#[trigger] list@[j]).1@.recurs_slowly(),
        decreases list@.len() - i,
    {
        if list[i].1.recurs_slowly() {
            return Some(i);
        }
        i += 1;
    }
    None
}

/// `rows` holds the events of `events` that are listed in view mode `state`
/// at `now`, each once with its rank, in the order of the list.
pub open spec fn is_listing(
    rows: Seq<(Rank, Uid)>,
    events: EventStoreView,
    state: ViewState,
    now: Time,
) -> bool {
    &&& forall|i: int|
        0 <= i < rows.len() ==> events.contains_key((#[trigger] rows[i]).1) && rows[i].0
            == events[rows[i].1].rank() && events[rows[i].1].listed(state, now)
    &&& forall|i: int, j: int|
        0 <= i < j < rows.len() ==> listed_before(#[trigger] rows[i], #[trigger] rows[j])
    &&& forall|uid: Uid|
        events.contains_key(uid) && events[uid].listed(state, now) ==> exists|i: int|
            0 <= i < rows.len() && (#[trigger] rows[i]).1 == uid
}

/// The rows stand in the order of a list.
pub open spec fn in_order(rows: Seq<(Rank, Uid)>) -> bool {
    forall|i: int, j: int|
        0 <= i < j < rows.len() ==> listed_before(#[trigger] rows[i], #[trigger] rows[j])
}

/// Two ordered sequences of rows that hold the same rows are the same
/// sequence.
proof fn lemma_same_rows_same_order(a: Seq<(Rank, Uid)>, b: Seq<(Rank, Uid)>)
    requires
        in_order(a),
        in_order(b),
        forall|i: int| 0 <= i < a.len() ==> b.contains(#[trigger] a[i]),
        forall|j: int| 0 <= j < b.len() ==> a.contains(#[trigger] b[j]),
    ensures
        a == b,
    decreases a.len(),
{
    if a.len() == 0 {
        if b.len() > 0 {
            assert(a.contains(b[0]));
        }
        assert(a =~= b);
    } else if b.len() == 0 {
        assert(b.contains(a[0]));
    } else {
        let x = a.last();
        let y = b.last();
        assert(b.contains(a[a.len() - 1]));
        assert(a.contains(b[b.len() - 1]));
        let k = choose|k: int| 0 <= k < b.len() && b[k] == x;
        let m = choose|m: int| 0 <= m < a.len() && a[m] == y;
        lemma_listed_before_is_an_order(x, y, x);
        assert(x == y) by {
            if k < b.len() - 1 {
                assert(listed_before(b[k], b[b.len() - 1]));
                if m < a.len() - 1 {
                    assert(listed_before(a[m], a[a.len() - 1]));
                }
            }
        }
        let a0 = a.drop_last();
        let b0 = b.drop_last();
        assert forall|i: int| 0 <= i < a0.len() implies b0.contains(#[trigger] a0[i]) by {
            assert(a0[i] == a[i]);
            assert(b.contains(a[i]));
            let j = choose|j: int| 0 <= j < b.len() && b[j] == a[i];
            assert(listed_before(a[i], a[a.len() - 1]));
            lemma_listed_before_is_an_order(x, x, x);
            assert(j < b.len() - 1);
            assert(b0[j] == a0[i]);
        }
        assert forall|j: int| 0 <= j < b0.len() implies a0.contains(#[trigger] b0[j]) by {
            assert(b0[j] == b[j]);
            assert(a.contains(b[j]));
            let i = choose|i: int| 0 <= i < a.len() && a[i] == b[j];
            assert(listed_before(b[j], b[b.len() - 1]));
            lemma_listed_before_is_an_order(y, y, y);
            assert(i < a.len() - 1);
            assert(a0[i] == b0[j]);
        }
        assert(in_order(a0)) by {
            assert forall|i: int, j: int| 0 <= i < j < a0.len() implies listed_before(
                #[trigger] a0[i],
                #[trigger] a0[j],
            ) by {
                assert(a0[i] == a[i] && a0[j] == a[j]);
            }
        }
        assert(in_order(b0)) by {
            assert forall|i: int, j: int| 0 <= i < j < b0.len() implies listed_before(
                #[trigger] b0[i],
                #[trigger] b0[j],
            ) by {
                assert(b0[i] == b[i] && b0[j] == b[j]);
            }
        }
        lemma_same_rows_same_order(a0, b0);
        assert(a =~= a0.push(x));
        assert(b =~= b0.push(y));
    }
}

/// A store has one list in a view mode at a time: which events are listed,
/// and in which order, is settled by the store, the view mode and the time.
pub proof fn lemma_listing_unique(
    a: Seq<(Rank, Uid)>,
    b: Seq<(Rank, Uid)>,
    events: EventStoreView,
    state: ViewState,
    now: Time,
)
    requires
        is_listing(a, events, state, now),
        is_listing(b, events, state, now),
    ensures
        a == b,
{
    assert forall|i: int| 0 <= i < a.len() implies b.contains(#[trigger] a[i]) by {
        let uid = a[i].1;
        let j = choose|j: int| 0 <= j < b.len() && (#[trigger] b[j]).1 == uid;
        assert(b[j] == a[i]);
    }
    assert forall|j: int| 0 <= j < b.len() implies a.contains(#[trigger] b[j]) by {
        let uid = b[j].1;
        let i = choose|i: int| 0 <= i < a.len() && (#[trigger] a[i]).1 == uid;
        assert(a[i] == b[j]);
    }
    lemma_same_rows_same_order(a, b);
}

/// The list of a store in view mode `state` at `now`.
pub open spec fn listing_of(events: EventStoreView, state: ViewState, now: Time) -> Seq<
    (Rank, Uid),
> {
    choose|rows: Seq<(Rank, Uid)>| is_listing(rows, events, state, now)
}

/// The uids of the rows of a list, in the order of the list.
pub open spec fn uids_of(rows: Seq<(Rank, Uid)>) -> Seq<Uid> {
    rows.map_values(|row: (Rank, Uid)| row.1)
}

/// Puts `row` into the ordered `rows` at its place.
fn insert_row(rows: &mut Vec<(Rank, Uid)>, row: (Rank, Uid))
    requires
        forall|i: int, j: int|
            0 <= i < j < old(rows)@.len() ==> listed_before(
                #[trigger] old(rows)@[i],
                #[trigger] old(rows)@[j],
            ),
        forall|i: int| 0 <= i < old(rows)@.len() ==> (#[trigger] old(rows)@[i]).1 != row.1,
    ensures
        forall|i: int, j: int|
            0 <= i < j < final(rows)@.len() ==> listed_before(
                #[trigger] final(rows)@[i],
                #[trigger] final(rows)@[j],
            ),
        exists|at: int| 0 <= at <= old(rows)@.len() && final(rows)@ == old(rows)@.insert(at, row),
{
    let mut at: usize = 0;
    while at < rows.len() && !is_row_before(&row, &rows[at])
        invariant
            at <= rows@.len(),
            rows@ == old(rows)@,
            forall|i: int| 0 <= i < rows@.len() ==> (#[trigger] rows@[i]).1 != row.1,
            forall|i: int| 0 <= i < at ==> listed_before(#[trigger] rows@[i], row),
        decreases rows@.len() - at,
    {
        proof {
            lemma_listed_before_is_an_order(row, rows@[at as int], row);
        }
        at += 1;
    }
    rows.insert(at, row);
    proof {
        let before = old(rows)@;
        let after = rows@;
        assert forall|i: int, j: int| 0 <= i < j < after.len() implies listed_before(
            #[trigger] after[i],
            #[trigger] after[j],
        ) by {
            if j < at {
                assert(after[i] == before[i] && after[j] == before[j]);
            } else if j == at {
                assert(after[i] == before[i]);
            } else if i < at {
                assert(after[i] == before[i] && after[j] == before[j - 1]);
            } else if i == at {
                assert(after[j] == before[j - 1]);
                if j - 1 > at {
                    lemma_listed_before_is_an_order(row, before[at as int], before[j - 1]);
                }
            } else {
                assert(after[i] == before[i - 1] && after[j] == before[j - 1]);
            }
        }
    }
}

fn is_row_before(a: &(Rank, Uid), b: &(Rank, Uid)) -> (r: bool)
    ensures
        r == listed_before(*a, *b),
{
    a.0.is_before(&b.0) || (!b.0.is_before(&a.0) && a.1.0 < b.1.0)
}

impl Tracker {
    /// The events that are listed in view mode `state` at `now`, each with
    /// its rank, in the order of the list.
    pub fn listing(&self, state: ViewState, now: &Time) -> (rows: Vec<(Rank, Uid)>)
        ensures
            is_listing(rows@, self@.events, state, *now),
            rows@ == listing_of(self@.events, state, *now),
    {
        let uids = self.uids();
        let mut rows: Vec<(Rank, Uid)> = Vec::new();
        let mut i: usize = 0;
        while i < uids.len()
            invariant
                i <= uids@.len(),
                uids@.to_set() == self@.events.dom(),
                uids@.no_duplicates(),
                forall|k: int|
                    0 <= k < rows@.len() ==> self@.events.contains_key((#[trigger] rows@[k]).1)
                        && rows@[k].0 == self@.events[rows@[k].1].rank()
                        && self@.events[rows@[k].1].listed(state, *now) && exists|j: int|
                        0 <= j < i && uids@[j] == rows@[k].1,
                forall|k: int, l: int|
                    0 <= k < l < rows@.len() ==> listed_before(
                        #[trigger] rows@[k],
                        #[trigger] rows@[l],
                    ),
                forall|j: int|
                    0 <= j < i && self@.events[uids@[j]].listed(state, *now) ==> exists|k: int|
                        0 <= k < rows@.len() && (#[trigger] rows@[k]).1 == uids@[j],
            decreases uids@.len() - i,
        {
            let uid = uids[i];
            assert(uids@.to_set().contains(uids@[i as int]));
            let ghost before = rows@;
            match self.get_event(uid) {
                Some(event) => {
                    if event.is_listed(state, now) {
                        let row = (event.rank(), uid);
                        insert_row(&mut rows, row);
                        proof {
                            let at = choose|at: int|
                                0 <= at <= before.len() && rows@ == before.insert(at, row);
                            assert forall|k: int| 0 <= k < rows@.len() implies self@.events.contains_key(
                                (#[trigger] rows@[k]).1,
                            ) && rows@[k].0 == self@.events[rows@[k].1].rank()
                                && self@.events[rows@[k].1].listed(state, *now) && exists|j: int|
                                0 <= j < i + 1 && uids@[j] == rows@[k].1 by {
                                if k < at {
                                    assert(rows@[k] == before[k]);
                                } else if k == at {
                                    assert(uids@[i as int] == rows@[k].1);
                                } else {
                                    assert(rows@[k] == before[k - 1]);
                                }
                            }
                            assert forall|j: int|
                                0 <= j < i + 1 && self@.events[uids@[j]].listed(
                                    state,
                                    *now,
                                ) implies exists|k: int|
                                0 <= k < rows@.len() && (#[trigger] rows@[k]).1 == uids@[j] by {
                                if j < i {
                                    let k = choose|k: int|
                                        0 <= k < before.len() && (#[trigger] before[k]).1
                                            == uids@[j];
                                    if k < at {
                                        assert(rows@[k] == before[k]);
                                    } else {
                                        assert(rows@[k + 1] == before[k]);
                                    }
                                } else {
                                    assert(rows@[at] == row);
                                }
                            }
                        }
                    }
                },
                None => {},
            }
            i += 1;
        }
        proof {
            assert forall|uid: Uid|
                self@.events.contains_key(uid) && self@.events[uid].listed(
                    state,
                    *now,
                ) implies exists|k: int| 0 <= k < rows@.len() && (#[trigger] rows@[k]).1 == uid by {
                assert(uids@.to_set().contains(uid));
                let j = choose|j: int| 0 <= j < uids@.len() && uids@[j] == uid;
                assert(self@.events[uids@[j]].listed(state, *now));
            }
            assert(is_listing(rows@, self@.events, state, *now));
            lemma_listing_unique(
                rows@,
                listing_of(self@.events, state, *now),
                self@.events,
                state,
                *now,
            );
        }
        rows
    }
}

} // verus!
