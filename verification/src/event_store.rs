//! The store of tracked events, keyed by uid.

use std::collections::BTreeMap;
use vstd::prelude::*;
use vstd::std_specs::cmp::OrdSpec;
use vstd::std_specs::iter::IteratorSpec;
use crate::error::{ItemAlreadyExistsError, NotFoundError};
use crate::time::Time;
use crate::tracked_event::{TrackedEvent, TrackedEventView, Uid};

verus! {

/// The tracked events, each under its own uid.
pub struct EventStore(BTreeMap<usize, TrackedEvent>);

/// What an `EventStore` holds: the events by uid.
pub type EventStoreView = Map<Uid, TrackedEventView>;

/// `uid` is the next free uid of a store that holds `events`: 0 for no
/// events, else one more than the greatest uid in use. A uid that was freed
/// below the greatest one is not handed out again before the greatest one
/// is freed too.
pub open spec fn is_next_free_uid(events: EventStoreView, uid: Uid) -> bool {
    &&& forall|other: Uid| events.contains_key(other) ==> other.0 < uid.0
    &&& uid.0 == 0 || events.contains_key(Uid((uid.0 - 1) as usize))
}

/// The next free uid of a store that holds `events`.
pub open spec fn next_free_uid(events: EventStoreView) -> Uid {
    choose|uid: Uid| is_next_free_uid(events, uid)
}

/// A store has at most one next free uid.
pub proof fn lemma_next_free_uid_unique(events: EventStoreView, a: Uid, b: Uid)
    requires
        is_next_free_uid(events, a),
        is_next_free_uid(events, b),
    ensures
        a == b,
{
    if a.0 < b.0 {
        assert(events.contains_key(Uid((b.0 - 1) as usize)));
    } else if b.0 < a.0 {
        assert(events.contains_key(Uid((a.0 - 1) as usize)));
    }
}

/// A store of finitely many events, none of them under the greatest number
/// that a uid can be, has a next free uid, and no event is stored under it.
pub proof fn lemma_next_free_uid_exists(events: EventStoreView)
    requires
        events.dom().finite(),
        !events.contains_key(Uid(usize::MAX)),
    ensures
        is_next_free_uid(events, next_free_uid(events)),
        !events.contains_key(next_free_uid(events)),
    decreases events.dom().len(),
{
    if events.dom().len() == 0 {
        assert(events.dom() =~= Set::<Uid>::empty());
        assert(is_next_free_uid(events, Uid(0)));
    } else {
        let key = events.dom().choose();
        let rest = events.remove(key);
        lemma_next_free_uid_exists(rest);
        let below = next_free_uid(rest);
        if key.0 >= below.0 {
            assert(is_next_free_uid(events, Uid((key.0 + 1) as usize)));
        } else {
            assert(rest.contains_key(Uid((below.0 - 1) as usize)));
            assert(is_next_free_uid(events, below));
        }
    }
    let next = next_free_uid(events);
    if events.contains_key(next) {
        assert(next.0 < next.0);
    }
}

/// Every event of the store has a well-formed status: a history of triggers
/// that is non-empty exactly while the event is triggered.
pub open spec fn all_wf(events: EventStoreView) -> bool {
    forall|uid: Uid| events.contains_key(uid) ==> (#[trigger] events[uid]).wf()
}

/// An update keeps every status well formed.
pub proof fn lemma_update_keeps_wf(events: EventStoreView, now: Time)
    requires
        all_wf(events),
    ensures
        all_wf(all_updated_at(events, now)),
{
    assert forall|uid: Uid| all_updated_at(events, now).contains_key(uid) implies (
    #[trigger] all_updated_at(events, now)[uid]).wf() by {
        assert(events[uid].wf());
    }
}

/// Every event after an update at `now`.
pub open spec fn all_updated_at(events: EventStoreView, now: Time) -> EventStoreView {
    Map::new(|uid: Uid| events.contains_key(uid), |uid: Uid| events[uid].updated_at(now))
}

/// Calls `BTreeMap::get_mut`. Trusted: `None` exactly where the map has no
/// entry under the key and then the map stays as it is; else the entry,
/// and what is written through the reference is what the map holds under the
/// key afterwards, all other entries staying as they are.
#[verifier::external_body]
fn slot<'a>(events: &'a mut BTreeMap<usize, TrackedEvent>, key: usize) -> (r: Option<
    &'a mut TrackedEvent,
>)
    ensures
        r is Some <==> old(events)@.contains_key(key),
        r is Some ==> *(r->0) == old(events)@[key] && final(events)@ == old(events)@.insert(
            key,
            *final(r->0),
        ),
        r is None ==> final(events)@ == old(events)@,
{
    events.get_mut(&key)
}

/// The keys of a map come out of it in ascending order.
proof fn lemma_keys_ascend(keys: Seq<&usize>)
    requires
        vstd::std_specs::btree::increasing_seq(keys),
    ensures
        forall|i: int, j: int| 0 <= i < j < keys.len() ==> *keys[i] < *keys[j],
{
    broadcast use vstd::laws_cmp::group_laws_cmp;

    vstd::std_specs::btree::axiom_increasing_seq_meaning(keys);
    assert forall|i: int, j: int| 0 <= i < j < keys.len() implies *keys[i] < *keys[j] by {
        let a = keys[i];
        let b = keys[j];
        assert(OrdSpec::cmp_spec(&a, &b) is Less);
    }
}

impl View for EventStore {
    type V = EventStoreView;

    closed spec fn view(&self) -> EventStoreView {
        Map::new(|uid: Uid| self.0@.contains_key(uid.0), |uid: Uid| self.0@[uid.0]@)
    }
}

impl EventStore {
    /// An empty store.
    pub fn new() -> (r: EventStore)
        ensures
            r@ == Map::<Uid, TrackedEventView>::empty(),
    {
        let r = EventStore(BTreeMap::new());
        assert(r@ =~= Map::<Uid, TrackedEventView>::empty());
        r
    }

    /// The number of events.
    pub fn len(&self) -> (r: usize)
        ensures
            r == self@.len(),
            self@.dom().finite(),
    {
        proof {
            self.lemma_dom();
        }
        self.0.len()
    }

    /// The uids in use are the keys of the map underneath.
    proof fn lemma_dom(&self)
        ensures
            self@.dom().finite(),
            self@.len() == self.0@.len(),
            self@.dom() == self.0@.dom().map(|key: usize| Uid(key)),
    {
        let keys = self.0@.dom();
        let wrap = |key: usize| Uid(key);
        assert(self@.dom() =~= keys.map(wrap)) by {
            assert forall|uid: Uid| self@.dom().contains(uid) implies keys.map(wrap).contains(
                uid,
            ) by {
                assert(keys.contains(uid.0) && wrap(uid.0) == uid);
            }
        }
        keys.lemma_map_finite(wrap);
        vstd::set_lib::lemma_map_size(keys, keys.map(wrap), wrap);
    }

    /// Whether an event is stored under `uid`.
    pub fn contains(&self, uid: Uid) -> (r: bool)
        ensures
            r == self@.contains_key(uid),
    {
        self.0.contains_key(&uid.0)
    }

    /// The event under `uid`.
    pub fn get(&self, uid: Uid) -> (r: Option<&TrackedEvent>)
        ensures
            r is Some <==> self@.contains_key(uid),
            r is Some ==> (r->0)@ == self@[uid],
    {
        self.0.get(&uid.0)
    }

    /// Stores `event` under `uid`. Where the uid is taken, the store stays as
    /// it is, and the error holds the uid, a copy of the event that is there
    /// and the event that was to be stored.
    pub fn add(&mut self, uid: Uid, event: TrackedEvent) -> (r: Result<
        (),
        ItemAlreadyExistsError<Uid, TrackedEvent>,
    >)
        ensures
            match r {
                Ok(_) => !old(self)@.contains_key(uid) && final(self)@ == old(self)@.insert(
                    uid,
                    event@,
                ),
                Err(e) => old(self)@.contains_key(uid) && final(self)@ == old(self)@ && e.0 == uid
                    && e.1@ == old(self)@[uid] && e.2 == event,
            },
    {
        match self.0.get(&uid.0) {
            Some(existing) => Err(ItemAlreadyExistsError(uid, existing.clone(), event)),
            None => {
                self.0.insert(uid.0, event);
                assert(self@ =~= old(self)@.insert(uid, event@));
                Ok(())
            },
        }
    }

    /// Takes the event under `uid` out of the store.
    pub fn remove(&mut self, uid: Uid) -> (r: Result<TrackedEvent, NotFoundError<Uid>>)
        ensures
            match r {
                Ok(event) => old(self)@.contains_key(uid) && event@ == old(self)@[uid] && final(self)@ == old(self)@.remove(uid),
                Err(e) => !old(self)@.contains_key(uid) && final(self)@ == old(self)@ && e.0
                    == uid,
            },
    {
        match self.0.remove(&uid.0) {
            Some(event) => {
                assert(self@ =~= old(self)@.remove(uid));
                Ok(event)
            },
            None => {
                assert(self@ =~= old(self)@);
                Err(NotFoundError(uid))
            },
        }
    }

    /// The event under `uid`, to be changed in place. What the caller leaves
    /// behind the reference is what the store holds under `uid` afterwards.
    pub fn get_mut(&mut self, uid: Uid) -> (r: Result<&mut TrackedEvent, NotFoundError<Uid>>)
        ensures
            match r {
                Ok(event) => old(self)@.contains_key(uid) && (*event)@ == old(self)@[uid] && final(self)@ == old(self)@.insert(uid, (*final(event))@),
                Err(e) => !old(self)@.contains_key(uid) && final(self)@ == old(self)@ && e.0
                    == uid,
            },
    {
        let ghost before = self.0@;
        match slot(&mut self.0, uid.0) {
            Some(event) => {
                proof {
                    let after = before.insert(uid.0, *final(event));
                    let a = Map::new(
                        |u: Uid| after.contains_key(u.0),
                        |u: Uid| after[u.0]@,
                    );
                    let b = Map::new(
                        |u: Uid| before.contains_key(u.0),
                        |u: Uid| before[u.0]@,
                    ).insert(uid, (*final(event))@);
                    assert(a =~= b);
                }
                Ok(event)
            },
            None => Err(NotFoundError(uid)),
        }
    }

    /// The uids in use, in ascending order.
    pub fn uids(&self) -> (r: Vec<Uid>)
        ensures
            r@.to_set() == self@.dom(),
            r@.no_duplicates(),
            forall|i: int, j: int| 0 <= i < j < r@.len() ==> r@[i].0 < r@[j].0,
    {
        let mut out: Vec<Uid> = Vec::new();
        let ghost keys: Seq<usize> = self.0.keys().remaining().unref();
        proof {
            vstd::std_specs::btree::axiom_spec_keys_iter(&self.0);
        }
        for key in it: self.0.keys()
            invariant
                it.seq().unref() == keys,
                keys.no_duplicates(),
                out@ =~= keys.take(it.index() as int).map_values(|key: usize| Uid(key)),
        {
            out.push(Uid(*key));
        }
        proof {
            let wrap = |key: usize| Uid(key);
            assert(keys.take(keys.len() as int) =~= keys);
            assert(out@ =~= keys.map_values(wrap));
            assert(out@.to_set() =~= self@.dom()) by {
                assert forall|uid: Uid| out@.to_set().contains(uid) implies self@.dom().contains(
                    uid,
                ) by {
                    let i = choose|i: int| 0 <= i < out@.len() && out@[i] == uid;
                    assert(keys.contains(keys[i]));
                    assert(keys.to_set().contains(uid.0));
                }
                assert forall|uid: Uid| self@.dom().contains(uid) implies out@.to_set().contains(
                    uid,
                ) by {
                    assert(keys.to_set().contains(uid.0));
                    let i = choose|i: int| 0 <= i < keys.len() && keys[i] == uid.0;
                    assert(out@[i] == uid);
                }
            }
            assert forall|i: int, j: int| 0 <= i < j < out@.len() implies out@[i] != out@[j] by {
                assert(keys[i] != keys[j]);
            }
            lemma_keys_ascend(self.0.keys().remaining());
            assert forall|i: int, j: int| 0 <= i < j < out@.len() implies out@[i].0 < out@[j].0 by {
                assert(keys[i] == *self.0.keys().remaining()[i]);
                assert(keys[j] == *self.0.keys().remaining()[j]);
            }
        }
        out
    }

    /// The next free uid: 0 for an empty store, else one more than the
    /// greatest uid in use.
    pub fn next_free_uid(&self) -> (r: Uid)
        requires
            !self@.contains_key(Uid(usize::MAX)),
        ensures
            is_next_free_uid(self@, r),
            r == next_free_uid(self@),
            !self@.contains_key(r),
    {
        let uids = self.uids();
        let mut next: usize = 0;
        let mut i: usize = 0;
        while i < uids.len()
            invariant
                i <= uids@.len(),
                uids@.to_set() == self@.dom(),
                !self@.contains_key(Uid(usize::MAX)),
                forall|j: int| 0 <= j < i ==> uids@[j].0 < next,
                next == 0 || self@.contains_key(Uid((next - 1) as usize)),
            decreases uids@.len() - i,
        {
            let uid = uids[i];
            assert(uids@.to_set().contains(uids@[i as int]));
            if uid.0 >= next {
                next = uid.0 + 1;
            }
            i += 1;
        }
        proof {
            assert forall|other: Uid| self@.contains_key(other) implies other.0 < next by {
                assert(uids@.to_set().contains(other));
                let j = choose|j: int| 0 <= j < uids@.len() && uids@[j] == other;
                assert(uids@[j].0 < next);
            }
        }
        proof {
            assert(is_next_free_uid(self@, Uid(next)));
            lemma_next_free_uid_unique(self@, Uid(next), next_free_uid(self@));
        }
        Uid(next)
    }

    /// Whether the store can hand out a next free uid: its greatest uid is
    /// not the greatest number that a uid can be.
    pub fn has_free_uid(&self) -> (r: bool)
        ensures
            r == !self@.contains_key(Uid(usize::MAX)),
    {
        !self.0.contains_key(&usize::MAX)
    }

    /// Updates every event at `now`: those that are due become triggered.
    /// Returns the uids of the events whose next due time could not be
    /// computed; those events stay as they are.
    pub fn update_events_at(&mut self, now: Time) -> (failed: Vec<Uid>)
        ensures
            final(self)@ == all_updated_at(old(self)@, now),
            forall|uid: Uid|
                failed@.contains(uid) <==> old(self)@.contains_key(uid) && old(self)@[uid].next_trigger_time() is Err,
            forall|i: int, j: int| 0 <= i < j < failed@.len() ==> failed@[i].0 < failed@[j].0,
    {
        let uids = self.uids();
        let mut failed: Vec<Uid> = Vec::new();
        let mut i: usize = 0;
        while i < uids.len()
            invariant
                i <= uids@.len(),
                uids@.to_set() == old(self)@.dom(),
                uids@.no_duplicates(),
                self@.dom() == old(self)@.dom(),
                forall|j: int| 0 <= j < i ==> self@[uids@[j]] == old(self)@[uids@[j]].updated_at(now),
                forall|j: int| i <= j < uids@.len() ==> self@[uids@[j]] == old(self)@[uids@[j]],
                forall|uid: Uid|
                    failed@.contains(uid) <==> (exists|j: int|
                        0 <= j < i && uids@[j] == uid && old(self)@[uid].next_trigger_time() is Err),
                forall|k: int, l: int| 0 <= k < l < uids@.len() ==> uids@[k].0 < uids@[l].0,
                forall|k: int, l: int| 0 <= k < l < failed@.len() ==> failed@[k].0 < failed@[l].0,
                forall|k: int|
                    0 <= k < failed@.len() && i < uids@.len() ==> (#[trigger] failed@[k]).0
                        < uids@[i as int].0,
            decreases uids@.len() - i,
        {
            let uid = uids[i];
            let ghost before = self@;
            let ghost failed_before = failed@;
            assert(uids@.to_set().contains(uids@[i as int]));
            match self.get_mut(uid) {
                Ok(event) => {
                    match event.update_at(now) {
                        Ok(_) => {},
                        Err(_) => {
                            failed.push(uid);
                        },
                    }
                },
                Err(_) => {},
            }
            proof {
                assert(self@ == before.insert(uid, before[uid].updated_at(now)));
                assert(self@.dom() =~= old(self)@.dom());
                assert forall|j: int| i < j < uids@.len() implies self@[uids@[j]] == old(self)@[uids@[j]] by {
                    assert(uids@[j] != uids@[i as int]);
                }
                assert forall|j: int| 0 <= j < i implies self@[uids@[j]] == old(self)@[uids@[j]].updated_at(now) by {
                    assert(uids@[j] != uids@[i as int]);
                }
                assert forall|other: Uid|
                    failed@.contains(other) <==> (exists|j: int|
                        0 <= j < i + 1 && uids@[j] == other && old(self)@[other].next_trigger_time() is Err) by {
                    let failing = old(self)@[uid].next_trigger_time() is Err;
                    if failing {
                        assert(failed@ == failed_before.push(uid));
                        assert(failed@[failed_before.len() as int] == uid);
                    }
                    if failed@.contains(other) {
                        if other == uid && failing {
                            assert(uids@[i as int] == other);
                        } else {
                            assert(failed_before.contains(other)) by {
                                let k = choose|k: int| 0 <= k < failed@.len() && failed@[k] == other;
                                if failing && k == failed_before.len() {
                                } else {
                                    assert(failed_before[k] == other);
                                }
                            }
                        }
                    }
                    if exists|j: int|
                        0 <= j < i + 1 && uids@[j] == other && old(self)@[other].next_trigger_time() is Err {
                        let j = choose|j: int|
                            0 <= j < i + 1 && uids@[j] == other && old(self)@[other].next_trigger_time() is Err;
                        if j < i {
                            assert(failed_before.contains(other));
                            let k = choose|k: int|
                                0 <= k < failed_before.len() && failed_before[k] == other;
                            assert(failed@[k] == other);
                        }
                    }
                }
            }
            i += 1;
        }
        proof {
            assert(self@ =~= all_updated_at(old(self)@, now)) by {
                assert forall|uid: Uid| self@.contains_key(uid) implies self@[uid] == old(self)@[uid].updated_at(now) by {
                    assert(uids@.to_set().contains(uid));
                    let j = choose|j: int| 0 <= j < uids@.len() && uids@[j] == uid;
                    assert(self@[uids@[j]] == old(self)@[uids@[j]].updated_at(now));
                }
            }
            assert forall|uid: Uid|
                failed@.contains(uid) <==> old(self)@.contains_key(uid) && old(self)@[uid].next_trigger_time() is Err by {
                if old(self)@.contains_key(uid) && old(self)@[uid].next_trigger_time() is Err {
                    assert(uids@.to_set().contains(uid));
                    let j = choose|j: int| 0 <= j < uids@.len() && uids@[j] == uid;
                    assert(0 <= j < i && uids@[j] == uid);
                }
                if failed@.contains(uid) {
                    let j = choose|j: int|
                        0 <= j < i && uids@[j] == uid && old(self)@[uid].next_trigger_time() is Err;
                    assert(uids@.to_set().contains(uids@[j]));
                }
            }
        }
        failed
    }

    /// Updates every event at the time that the clock shows.
    pub fn update_events(&mut self) -> (failed: Vec<Uid>)
        ensures
            exists|now: Time| final(self)@ == all_updated_at(old(self)@, now),
            forall|uid: Uid|
                failed@.contains(uid) <==> old(self)@.contains_key(uid) && old(self)@[uid].next_trigger_time() is Err,
            forall|i: int, j: int| 0 <= i < j < failed@.len() ==> failed@[i].0 < failed@[j].0,
    {
        let now = Time::now();
        self.update_events_at(now)
    }
}

} // verus!
