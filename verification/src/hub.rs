//! The central registry of subscribers and the history buffer: the single
//! point of mutation and the sole broadcaster of events.
//!
//! The hub is a single-owner state machine: every operation takes the hub
//! exclusively, so concurrent callers serialize on it (behind a lock or a
//! message-passing loop owned by the surrounding program) and each
//! operation appears atomic to the others.

use vstd::prelude::*;

use crate::event::Event;
use crate::event::EventView;
use crate::frame::Frame;
use crate::frame::connected_frame;
use crate::frame::encode_connected;
use crate::frame::encode_event;
use crate::frame::frame_of;
use crate::history::History;
use crate::history::push_evict;
use crate::outbox::Outbox;

verus! {

/// One registered subscriber: an identity, its outbox, and a liveness
/// flag that is cleared once removal is in progress. The id is unique per
/// connection, not per nickname; duplicate nicknames coexist.
pub struct Subscriber {
    pub id: u64,
    pub nickname: String,
    pub outbox: Outbox,
    pub alive: bool,
}

/// The mathematical model of a [`Subscriber`].
#[verifier::ext_equal]
pub struct SubscriberView {
    pub id: u64,
    pub nickname: Seq<char>,
    pub outbox: Seq<Seq<char>>,
    pub alive: bool,
}

impl View for Subscriber {
    type V = SubscriberView;

    open spec fn view(&self) -> SubscriberView {
        SubscriberView {
            id: self.id,
            nickname: self.nickname@,
            outbox: self.outbox@,
            alive: self.alive,
        }
    }
}

/// The model of the registry, in registration order.
pub open spec fn subs_view(s: Seq<Subscriber>) -> Seq<SubscriberView> {
    s.map_values(|x: Subscriber| x@)
}

/// No two registered subscribers share an id.
pub open spec fn unique_ids(subs: Seq<SubscriberView>) -> bool {
    forall|i: int, j: int| 0 <= i < j < subs.len() ==> subs[i].id != subs[j].id
}

/// The registry index of the subscriber with the given id, or -1 when no
/// subscriber carries it.
pub open spec fn idx_of(subs: Seq<SubscriberView>, id: u64) -> int
    decreases subs.len(),
{
    if subs.len() == 0 {
        -1
    } else if subs[0].id == id {
        0
    } else if idx_of(subs.drop_first(), id) < 0 {
        -1
    } else {
        idx_of(subs.drop_first(), id) + 1
    }
}

/// The registry after removing the subscriber with the given id, if any.
pub open spec fn remove_id(subs: Seq<SubscriberView>, id: u64) -> Seq<SubscriberView> {
    if idx_of(subs, id) < 0 {
        subs
    } else {
        subs.remove(idx_of(subs, id))
    }
}

/// The subscriber with one more frame queued on its outbox.
pub open spec fn with_frame(s: SubscriberView, f: Seq<char>) -> SubscriberView {
    SubscriberView { outbox: s.outbox.push(f), ..s }
}

/// The subscriber with the front frame of its outbox consumed.
pub open spec fn popped(s: SubscriberView) -> SubscriberView {
    SubscriberView { outbox: s.outbox.drop_first(), ..s }
}

/// One fan-out step: every subscriber with room on its outbox keeps its
/// place, in order, with the frame appended; every subscriber whose
/// outbox is full is dropped from the registry.
pub open spec fn fan_out(subs: Seq<SubscriberView>, f: Seq<char>, cap: int) -> Seq<SubscriberView>
    decreases subs.len(),
{
    if subs.len() == 0 {
        Seq::empty()
    } else if subs.last().outbox.len() < cap {
        fan_out(subs.drop_last(), f, cap).push(with_frame(subs.last(), f))
    } else {
        fan_out(subs.drop_last(), f, cap)
    }
}

/// The registry entry a fresh subscriber starts from: an outbox holding
/// exactly the `connected` replay of the history at subscription time.
pub open spec fn joined_subscriber(id: u64, nickname: Seq<char>, history: Seq<EventView>) -> SubscriberView {
    SubscriberView { id, nickname, outbox: seq![connected_frame(history)], alive: true }
}

/// `idx_of` finds an index carrying the id when it answers nonnegatively,
/// and a negative answer means no index carries it.
pub proof fn lemma_idx_of_props(subs: Seq<SubscriberView>, id: u64)
    ensures
        idx_of(subs, id) >= 0 ==> 0 <= idx_of(subs, id) < subs.len()
            && subs[idx_of(subs, id)].id == id,
        idx_of(subs, id) < 0 ==> forall|j: int| 0 <= j < subs.len() ==> subs[j].id != id,
    decreases subs.len(),
{
    if subs.len() > 0 && subs[0].id != id {
        lemma_idx_of_props(subs.drop_first(), id);
        if idx_of(subs, id) < 0 {
            assert forall|j: int| 0 <= j < subs.len() implies subs[j].id != id by {
                if j > 0 {
                    assert(subs.drop_first()[j - 1] == subs[j]);
                }
            }
        }
    }
}

/// `idx_of` answers exactly the first index carrying the id.
pub proof fn lemma_idx_of_found(subs: Seq<SubscriberView>, id: u64, k: int)
    requires
        0 <= k < subs.len(),
        subs[k].id == id,
        forall|j: int| 0 <= j < k ==> subs[j].id != id,
    ensures
        idx_of(subs, id) == k,
    decreases subs.len(),
{
    if k > 0 {
        assert(subs[0].id != id);
        assert(subs.drop_first()[k - 1] == subs[k]);
        assert forall|j: int| 0 <= j < k - 1 implies subs.drop_first()[j].id != id by {
            assert(subs.drop_first()[j] == subs[j + 1]);
        }
        lemma_idx_of_found(subs.drop_first(), id, k - 1);
    }
}

/// The hub. Its model is the registry of subscribers in registration
/// order, the buffered history, the two capacity bounds, and the next
/// fresh subscriber id.
pub struct Hub {
    pub subscribers: Vec<Subscriber>,
    pub history: History,
    pub outbox_capacity: usize,
    pub next_id: u64,
}

/// The mathematical model of a [`Hub`].
#[verifier::ext_equal]
pub struct HubView {
    pub subscribers: Seq<SubscriberView>,
    pub history: Seq<EventView>,
    pub history_capacity: int,
    pub outbox_capacity: int,
    pub next_id: u64,
}

impl View for Hub {
    type V = HubView;

    open spec fn view(&self) -> HubView {
        HubView {
            subscribers: subs_view(self.subscribers@),
            history: self.history@,
            history_capacity: self.history.cap(),
            outbox_capacity: self.outbox_capacity as int,
            next_id: self.next_id,
        }
    }
}

impl Hub {
    /// The hub's invariant: bounded history, bounded outboxes all sized
    /// by the one configured outbox capacity, unique ids all below the
    /// next fresh id, and every registered subscriber alive.
    pub open spec fn wf(&self) -> bool {
        &&& self.history.wf()
        &&& self.outbox_capacity >= 1
        &&& unique_ids(self@.subscribers)
        &&& forall|i: int| 0 <= i < self.subscribers@.len()
                ==> (#[trigger] self.subscribers@[i]).id < self.next_id
        &&& forall|i: int| 0 <= i < self.subscribers@.len()
                ==> (#[trigger] self.subscribers@[i]).outbox.wf()
        &&& forall|i: int| 0 <= i < self.subscribers@.len()
                ==> (#[trigger] self.subscribers@[i]).outbox.cap() == self.outbox_capacity as int
        &&& forall|i: int| 0 <= i < self.subscribers@.len()
                ==> (#[trigger] self.subscribers@[i]).alive
    }

    /// An empty hub. `history_capacity` bounds the replay buffer;
    /// `outbox_capacity` bounds every subscriber's outbox and must leave
    /// room for at least the replay frame.
    pub fn new(history_capacity: usize, outbox_capacity: usize) -> (h: Hub)
        requires
            outbox_capacity >= 1,
        ensures
            h.wf(),
            h@.subscribers == Seq::<SubscriberView>::empty(),
            h@.history == Seq::<EventView>::empty(),
            h@.history_capacity == history_capacity as int,
            h@.outbox_capacity == outbox_capacity as int,
            h@.next_id == 0,
    {
        let h = Hub {
            subscribers: Vec::new(),
            history: History::new(history_capacity),
            outbox_capacity,
            next_id: 0,
        };
        proof {
            assert(h@.subscribers =~= Seq::<SubscriberView>::empty());
        }
        h
    }

    /// Registers a new subscriber under a fresh id. Its outbox starts
    /// with exactly one frame: the `connected` replay of the history as
    /// of this call, so the stream carries exactly the events that
    /// happened before subscription and every event published after it.
    pub fn subscribe(&mut self, nickname: String) -> (id: u64)
        requires
            old(self).wf(),
            old(self).next_id < u64::MAX,
        ensures
            final(self).wf(),
            id == old(self)@.next_id,
            forall|i: int| 0 <= i < old(self)@.subscribers.len()
                ==> (#[trigger] old(self)@.subscribers[i]).id != id,
            final(self)@.subscribers == old(self)@.subscribers.push(
                joined_subscriber(id, nickname@, old(self)@.history),
            ),
            final(self)@.history == old(self)@.history,
            final(self)@.history_capacity == old(self)@.history_capacity,
            final(self)@.outbox_capacity == old(self)@.outbox_capacity,
            final(self)@.next_id == old(self)@.next_id + 1,
    {
        let id = self.next_id;
        self.next_id = self.next_id + 1;
        let frame = encode_connected(&self.history.events);
        let mut outbox = Outbox::new(self.outbox_capacity);
        let _ = outbox.try_enqueue(frame);
        proof {
            assert(outbox@ =~= seq![connected_frame(old(self)@.history)]);
        }
        let sub = Subscriber { id, nickname, outbox, alive: true };
        self.subscribers.push(sub);
        proof {
            assert(self@.subscribers =~= old(self)@.subscribers.push(
                joined_subscriber(id, nickname@, old(self)@.history),
            ));
            assert forall|i: int| 0 <= i < self.subscribers@.len()
                implies (#[trigger] self.subscribers@[i]).id < self.next_id by {
                if i < old(self).subscribers@.len() {
                    assert(self.subscribers@[i] == old(self).subscribers@[i]);
                }
            }
        }
        id
    }

    /// Publishes `e`: appends it to the history (evicting the oldest
    /// entry if full) and attempts a non-blocking enqueue of its frame
    /// onto every registered outbox, in registration order. Subscribers
    /// whose outboxes are full are dropped from the registry; the call
    /// itself always succeeds and never blocks on a slow consumer.
    pub fn publish(&mut self, e: Event)
        requires
            old(self).wf(),
        ensures
            final(self).wf(),
            final(self)@.history == push_evict(old(self)@.history, e@, old(self)@.history_capacity),
            final(self)@.subscribers == fan_out(
                old(self)@.subscribers,
                frame_of(e@),
                old(self)@.outbox_capacity,
            ),
            final(self)@.history_capacity == old(self)@.history_capacity,
            final(self)@.outbox_capacity == old(self)@.outbox_capacity,
            final(self)@.next_id == old(self)@.next_id,
    {
        let frame = encode_event(&e);
        self.history.push(e);
        let ghost subs0 = old(self)@.subscribers;
        let ghost f = frame_of(e@);
        let ghost cap = old(self)@.outbox_capacity;
        let mut i: usize = 0;
        let ghost mut j: int = 0;
        proof {
            assert(subs0.take(0) =~= Seq::<SubscriberView>::empty());
            assert(subs0.skip(0) =~= subs0);
        }
        while i < self.subscribers.len()
            invariant
                old(self).wf(),
                self.outbox_capacity == old(self).outbox_capacity,
                self.next_id == old(self).next_id,
                self.history.wf(),
                self.history.cap() == old(self)@.history_capacity,
                self.history@ == push_evict(old(self)@.history, e@, old(self)@.history_capacity),
                subs0 == old(self)@.subscribers,
                cap == old(self)@.outbox_capacity,
                f == frame_of(e@),
                frame@ == f,
                0 <= j <= subs0.len(),
                i == fan_out(subs0.take(j), f, cap).len(),
                i <= self.subscribers@.len(),
                subs_view(self.subscribers@) == fan_out(subs0.take(j), f, cap) + subs0.skip(j),
                forall|a: int| 0 <= a < i ==> (#[trigger] self.subscribers@[a]).outbox.wf(),
                forall|a: int| 0 <= a < i
                    ==> (#[trigger] self.subscribers@[a]).outbox.cap() == self.outbox_capacity as int,
                forall|a: int| 0 <= a < i ==> (#[trigger] self.subscribers@[a]).alive,
                forall|a: int| 0 <= a < i
                    ==> (#[trigger] self.subscribers@[a]).id < self.next_id,
                forall|a: int| i <= a < self.subscribers@.len()
                    ==> (#[trigger] self.subscribers@[a]) == old(self).subscribers@[j + a - i],
                unique_ids(subs_view(self.subscribers@)),
            decreases self.subscribers@.len() - i,
        {
            let ghost before = subs_view(self.subscribers@);
            let mut s = self.subscribers.remove(i);
            proof {
                assert(s == old(self).subscribers@[j]);
                assert(s@ == subs0[j]);
                assert(subs0.take(j + 1).drop_last() =~= subs0.take(j));
                assert(subs0.take(j + 1).last() == subs0[j]);
            }
            let ok = s.outbox.try_enqueue(frame.dup());
            if ok {
                self.subscribers.insert(i, s);
                proof {
                    assert(subs_view(self.subscribers@) =~= before.update(i as int, with_frame(subs0[j], f)));
                    assert(subs_view(self.subscribers@) =~=
                        fan_out(subs0.take(j + 1), f, cap) + subs0.skip(j + 1));
                    assert forall|a: int, b: int|
                        0 <= a < b < subs_view(self.subscribers@).len()
                        implies subs_view(self.subscribers@)[a].id != subs_view(self.subscribers@)[b].id by {
                        assert(subs_view(self.subscribers@)[a].id == before[a].id);
                        assert(subs_view(self.subscribers@)[b].id == before[b].id);
                    }
                }
                i = i + 1;
            } else {
                // The subscriber is dead: its entry stays removed.
                proof {
                    assert(subs_view(self.subscribers@) =~= before.remove(i as int));
                    assert(fan_out(subs0.take(j + 1), f, cap) == fan_out(subs0.take(j), f, cap));
                    assert(subs_view(self.subscribers@) =~=
                        fan_out(subs0.take(j + 1), f, cap) + subs0.skip(j + 1));
                    assert forall|a: int, b: int|
                        0 <= a < b < subs_view(self.subscribers@).len()
                        implies subs_view(self.subscribers@)[a].id != subs_view(self.subscribers@)[b].id by {
                        let a0: int = if a < i { a } else { a + 1 };
                        let b0: int = if b < i { b } else { b + 1 };
                        assert(subs_view(self.subscribers@)[a].id == before[a0].id);
                        assert(subs_view(self.subscribers@)[b].id == before[b0].id);
                    }
                }
            }
            proof {
                j = j + 1;
            }
        }
        proof {
            assert(subs0.skip(j).len() == 0);
            assert(j == subs0.len());
            assert(subs0.take(j) =~= subs0);
            assert(subs_view(self.subscribers@) =~= fan_out(subs0, f, cap));
        }
    }

    /// Removes the subscriber with the given id, if present; idempotent,
    /// and a no-op on an unknown or never-registered id.
    pub fn unsubscribe(&mut self, id: u64)
        requires
            old(self).wf(),
        ensures
            final(self).wf(),
            final(self)@.subscribers == remove_id(old(self)@.subscribers, id),
            final(self)@.history == old(self)@.history,
            final(self)@.history_capacity == old(self)@.history_capacity,
            final(self)@.outbox_capacity == old(self)@.outbox_capacity,
            final(self)@.next_id == old(self)@.next_id,
    {
        let r = self.find_index(id);
        match r {
            None => {},
            Some(k) => {
                let ghost before = subs_view(self.subscribers@);
                proof {
                    lemma_idx_of_props(before, id);
                }
                let _ = self.subscribers.remove(k);
                proof {
                    assert(subs_view(self.subscribers@) =~= before.remove(k as int));
                    assert forall|a: int, b: int|
                        0 <= a < b < subs_view(self.subscribers@).len()
                        implies subs_view(self.subscribers@)[a].id != subs_view(self.subscribers@)[b].id by {
                        let a0: int = if a < k { a } else { a + 1 };
                        let b0: int = if b < k { b } else { b + 1 };
                        assert(subs_view(self.subscribers@)[a].id == before[a0].id);
                        assert(subs_view(self.subscribers@)[b].id == before[b0].id);
                    }
                }
            },
        }
    }

    /// Consumes the frame at the front of the outbox of the subscriber
    /// with the given id: the stream adapter's side of the queue. Yields
    /// nothing when the id is unknown or its outbox is empty.
    pub fn next_frame(&mut self, id: u64) -> (r: Option<Frame>)
        requires
            old(self).wf(),
        ensures
            final(self).wf(),
            final(self)@.history == old(self)@.history,
            final(self)@.history_capacity == old(self)@.history_capacity,
            final(self)@.outbox_capacity == old(self)@.outbox_capacity,
            final(self)@.next_id == old(self)@.next_id,
            idx_of(old(self)@.subscribers, id) < 0
                ==> r is None && final(self)@.subscribers == old(self)@.subscribers,
            idx_of(old(self)@.subscribers, id) >= 0
                && old(self)@.subscribers[idx_of(old(self)@.subscribers, id)].outbox.len() == 0
                ==> r is None && final(self)@.subscribers == old(self)@.subscribers,
            idx_of(old(self)@.subscribers, id) >= 0
                && old(self)@.subscribers[idx_of(old(self)@.subscribers, id)].outbox.len() > 0
                ==> r is Some
                    && r->0@ == old(self)@.subscribers[idx_of(old(self)@.subscribers, id)].outbox[0]
                    && final(self)@.subscribers == old(self)@.subscribers.update(
                        idx_of(old(self)@.subscribers, id),
                        popped(old(self)@.subscribers[idx_of(old(self)@.subscribers, id)]),
                    ),
    {
        let r = self.find_index(id);
        match r {
            None => None,
            Some(k) => {
                let ghost before = subs_view(self.subscribers@);
                proof {
                    lemma_idx_of_props(before, id);
                }
                let mut s = self.subscribers.remove(k);
                let popped_frame = s.outbox.pop_front();
                self.subscribers.insert(k, s);
                proof {
                    if before[k as int].outbox.len() == 0 {
                        assert(subs_view(self.subscribers@) =~= before);
                    } else {
                        assert(subs_view(self.subscribers@) =~=
                            before.update(k as int, popped(before[k as int])));
                    }
                    assert forall|a: int, b: int|
                        0 <= a < b < subs_view(self.subscribers@).len()
                        implies subs_view(self.subscribers@)[a].id != subs_view(self.subscribers@)[b].id by {
                        assert(subs_view(self.subscribers@)[a].id == before[a].id);
                        assert(subs_view(self.subscribers@)[b].id == before[b].id);
                    }
                }
                popped_frame
            },
        }
    }

    /// The number of registered subscribers.
    pub fn subscriber_count(&self) -> (n: usize)
        ensures
            n == self@.subscribers.len(),
    {
        self.subscribers.len()
    }

    /// Whether a subscriber with the given id is registered.
    pub fn is_subscribed(&self, id: u64) -> (b: bool)
        ensures
            b == (idx_of(self@.subscribers, id) >= 0),
    {
        let r = self.find_index(id);
        match r {
            Some(_) => true,
            None => false,
        }
    }

    /// The registry index of the subscriber with the given id.
    fn find_index(&self, id: u64) -> (r: Option<usize>)
        ensures
            r is Some ==> idx_of(self@.subscribers, id) == r->0 as int
                && r->0 < self.subscribers@.len(),
            r is None ==> idx_of(self@.subscribers, id) < 0,
    {
        let mut i: usize = 0;
        while i < self.subscribers.len()
            invariant
                i <= self.subscribers@.len(),
                forall|j: int| 0 <= j < i ==> subs_view(self.subscribers@)[j].id != id,
            decreases self.subscribers@.len() - i,
        {
            if self.subscribers[i].id == id {
                proof {
                    lemma_idx_of_found(subs_view(self.subscribers@), id, i as int);
                }
                return Some(i);
            }
            i = i + 1;
        }
        proof {
            lemma_idx_of_props(subs_view(self.subscribers@), id);
            if idx_of(subs_view(self.subscribers@), id) >= 0 {
                assert(subs_view(self.subscribers@)[idx_of(subs_view(self.subscribers@), id)].id == id);
            }
        }
        None
    }
}

} // verus!
