//! Hub-wide laws, proved over the same models the operation contracts use.

use vstd::prelude::*;

use crate::event::EventView;
use crate::history::push_evict;
use crate::hub::SubscriberView;
use crate::hub::fan_out;
use crate::hub::idx_of;
use crate::hub::lemma_idx_of_props;
use crate::hub::remove_id;
use crate::hub::unique_ids;
use crate::hub::with_frame;

verus! {

/// The registry after a sequence of publishes, oldest first: each frame
/// fanned out in turn, at the configured outbox capacity.
pub open spec fn fan_out_all(subs: Seq<SubscriberView>, fs: Seq<Seq<char>>, cap: int) -> Seq<SubscriberView>
    decreases fs.len(),
{
    if fs.len() == 0 {
        subs
    } else {
        fan_out(fan_out_all(subs, fs.drop_last(), cap), fs.last(), cap)
    }
}

/// The subscriber after receiving the frames `fs`, in order, behind what
/// its outbox already held.
pub open spec fn delivered(s: SubscriberView, fs: Seq<Seq<char>>) -> SubscriberView {
    SubscriberView { outbox: s.outbox + fs, ..s }
}

/// A fan-out step keeps every subscriber with room on its outbox,
/// appending the frame to it.
pub proof fn lemma_fan_out_keeps(subs: Seq<SubscriberView>, f: Seq<char>, cap: int, t: SubscriberView)
    requires
        subs.contains(t),
        t.outbox.len() < cap,
    ensures
        fan_out(subs, f, cap).contains(with_frame(t, f)),
    decreases subs.len(),
{
    let k = choose|k: int| 0 <= k < subs.len() && subs[k] == t;
    if k == subs.len() - 1 && subs.last() == t {
        let out = fan_out(subs, f, cap);
        assert(out.last() == with_frame(t, f));
        assert(out.contains(with_frame(t, f)));
    } else {
        assert(subs.drop_last()[k] == t);
        assert(subs.drop_last().contains(t));
        lemma_fan_out_keeps(subs.drop_last(), f, cap, t);
        let rest = fan_out(subs.drop_last(), f, cap);
        let m = choose|m: int| 0 <= m < rest.len() && rest[m] == with_frame(t, f);
        assert(fan_out(subs, f, cap)[m] == with_frame(t, f));
    }
}

/// Every sequence of publishes strictly after a subscription reaches that
/// subscriber exactly once each and in publish order: provided its outbox
/// has room for all of them, the subscriber stays registered and its
/// outbox carries exactly those frames, in the same relative order,
/// appended after what it already held.
pub proof fn lemma_stream_delivers_in_order(
    subs: Seq<SubscriberView>,
    fs: Seq<Seq<char>>,
    cap: int,
    t: SubscriberView,
)
    requires
        subs.contains(t),
        t.outbox.len() + fs.len() <= cap,
    ensures
        fan_out_all(subs, fs, cap).contains(delivered(t, fs)),
    decreases fs.len(),
{
    if fs.len() == 0 {
        assert(delivered(t, fs) =~= t);
    } else {
        lemma_stream_delivers_in_order(subs, fs.drop_last(), cap, t);
        let mid = delivered(t, fs.drop_last());
        lemma_fan_out_keeps(fan_out_all(subs, fs.drop_last(), cap), fs.last(), cap, mid);
        assert(with_frame(mid, fs.last()) =~= delivered(t, fs));
    }
}

/// The publish fan-out never corrupts the registry: it invents no
/// subscriber id, duplicates none, and keeps the survivors' ids unique.
pub proof fn lemma_fan_out_unique_ids(subs: Seq<SubscriberView>, f: Seq<char>, cap: int)
    requires
        unique_ids(subs),
    ensures
        unique_ids(fan_out(subs, f, cap)),
        forall|k: int| 0 <= k < fan_out(subs, f, cap).len()
            ==> exists|m: int| 0 <= m < subs.len()
                && (#[trigger] fan_out(subs, f, cap)[k]).id == subs[m].id,
    decreases subs.len(),
{
    if subs.len() > 0 {
        assert forall|a: int, b: int| 0 <= a < b < subs.drop_last().len()
            implies subs.drop_last()[a].id != subs.drop_last()[b].id by {
            assert(subs.drop_last()[a] == subs[a]);
            assert(subs.drop_last()[b] == subs[b]);
        }
        lemma_fan_out_unique_ids(subs.drop_last(), f, cap);
        let rest = fan_out(subs.drop_last(), f, cap);
        let out = fan_out(subs, f, cap);
        assert forall|k: int| 0 <= k < out.len()
            implies exists|m: int| 0 <= m < subs.len()
                && (#[trigger] out[k]).id == subs[m].id by {
            if k < rest.len() {
                assert(out[k] == rest[k]);
                let m0 = choose|m0: int| 0 <= m0 < subs.drop_last().len()
                    && rest[k].id == subs.drop_last()[m0].id;
                assert(subs.drop_last()[m0] == subs[m0]);
                assert(out[k].id == subs[m0].id);
            } else {
                assert(out[k].id == subs[subs.len() - 1].id);
            }
        }
        assert forall|a: int, b: int| 0 <= a < b < out.len()
            implies out[a].id != out[b].id by {
            if b < rest.len() {
                assert(out[a] == rest[a]);
                assert(out[b] == rest[b]);
            } else {
                assert(out[a] == rest[a]);
                assert(out[b].id == subs[subs.len() - 1].id);
                let m0 = choose|m0: int| 0 <= m0 < subs.drop_last().len()
                    && rest[a].id == subs.drop_last()[m0].id;
                assert(subs.drop_last()[m0] == subs[m0]);
                assert(subs[m0].id != subs[subs.len() - 1].id);
            }
        }
    }
}

/// No fan-out survivor carries the id of a subscriber whose outbox was
/// full.
pub proof fn lemma_fan_out_absent(subs: Seq<SubscriberView>, f: Seq<char>, cap: int, id: u64)
    requires
        forall|i: int| 0 <= i < subs.len() && (#[trigger] subs[i]).id == id
            ==> subs[i].outbox.len() >= cap,
    ensures
        forall|k: int| 0 <= k < fan_out(subs, f, cap).len()
            ==> (#[trigger] fan_out(subs, f, cap)[k]).id != id,
    decreases subs.len(),
{
    if subs.len() > 0 {
        assert forall|i: int| 0 <= i < subs.drop_last().len() && (#[trigger] subs.drop_last()[i]).id == id
            implies subs.drop_last()[i].outbox.len() >= cap by {
            assert(subs.drop_last()[i] == subs[i]);
        }
        lemma_fan_out_absent(subs.drop_last(), f, cap, id);
        let rest = fan_out(subs.drop_last(), f, cap);
        if subs.last().outbox.len() < cap {
            assert(subs[subs.len() - 1] == subs.last());
            assert(subs.last().id != id);
            assert forall|k: int| 0 <= k < fan_out(subs, f, cap).len()
                implies (#[trigger] fan_out(subs, f, cap)[k]).id != id by {
                if k < rest.len() {
                    assert(fan_out(subs, f, cap)[k] == rest[k]);
                }
            }
        }
    }
}

/// A subscriber whose outbox is stalled at capacity is removed from the
/// registry by the very next publish: no entry with its id survives the
/// fan-out, while the publish itself still succeeds for every other
/// subscriber.
pub proof fn lemma_stalled_subscriber_dropped(subs: Seq<SubscriberView>, f: Seq<char>, cap: int, id: u64)
    requires
        forall|i: int| 0 <= i < subs.len() && (#[trigger] subs[i]).id == id
            ==> subs[i].outbox.len() >= cap,
    ensures
        idx_of(fan_out(subs, f, cap), id) < 0,
{
    lemma_fan_out_absent(subs, f, cap, id);
    lemma_idx_of_props(fan_out(subs, f, cap), id);
    if idx_of(fan_out(subs, f, cap), id) >= 0 {
        assert(fan_out(subs, f, cap)[idx_of(fan_out(subs, f, cap), id)].id == id);
    }
}

/// The history after a sequence of publishes, oldest first: each event
/// appended in turn at the configured capacity.
pub open spec fn history_after(h: Seq<EventView>, es: Seq<EventView>, cap: int) -> Seq<EventView>
    decreases es.len(),
{
    if es.len() == 0 {
        h
    } else {
        push_evict(history_after(h, es.drop_last(), cap), es.last(), cap)
    }
}

/// The history never exceeds its configured capacity, however many
/// events are published.
pub proof fn lemma_history_bounded(h: Seq<EventView>, es: Seq<EventView>, cap: int)
    requires
        h.len() <= cap,
    ensures
        history_after(h, es, cap).len() <= cap,
    decreases es.len(),
{
    if es.len() > 0 {
        lemma_history_bounded(h, es.drop_last(), cap);
    }
}

/// The exact shape of the history after any sequence of publishes: the
/// suffix of everything seen, cut to the capacity.
pub proof fn lemma_history_after_form(h: Seq<EventView>, es: Seq<EventView>, cap: int)
    requires
        h.len() <= cap,
    ensures
        h.len() + es.len() <= cap ==> history_after(h, es, cap) == h + es,
        h.len() + es.len() > cap ==> history_after(h, es, cap)
            == (h + es).subrange(h.len() + es.len() - cap, (h.len() + es.len()) as int),
    decreases es.len(),
{
    if es.len() == 0 {
        assert(h + es =~= h);
    } else {
        lemma_history_after_form(h, es.drop_last(), cap);
        let hl = h.len() as int;
        let el = es.len() as int;
        let m = history_after(h, es.drop_last(), cap);
        if hl + el <= cap {
            assert(m == h + es.drop_last());
            assert(m.push(es.last()) =~= h + es);
        } else if hl + el == cap + 1 {
            assert(m == h + es.drop_last());
            if cap > 0 {
                assert(m.drop_first().push(es.last()) =~= (h + es).subrange(hl + el - cap, hl + el));
            } else {
                assert(history_after(h, es, cap) =~= (h + es).subrange(hl + el - cap, hl + el));
            }
        } else {
            assert(m == (h + es.drop_last()).subrange(hl + el - 1 - cap, hl + el - 1));
            if cap > 0 {
                assert(m.len() == cap);
                assert(m.drop_first().push(es.last()) =~= (h + es).subrange(hl + el - cap, hl + el));
            } else {
                assert(history_after(h, es, cap) =~= (h + es).subrange(hl + el - cap, hl + el));
            }
        }
    }
}

/// After at least `cap` publishes, a newly joining subscriber's replay
/// holds exactly the most recent `cap` published events, in publish
/// order, whatever the history held before.
pub proof fn lemma_replay_most_recent(h: Seq<EventView>, es: Seq<EventView>, cap: int)
    requires
        h.len() <= cap,
        es.len() >= cap,
    ensures
        history_after(h, es, cap) == es.subrange(es.len() - cap, es.len() as int),
{
    lemma_history_after_form(h, es, cap);
    let hl = h.len() as int;
    let el = es.len() as int;
    if hl + el <= cap {
        assert(h + es =~= es.subrange(el - cap, el));
    } else {
        assert((h + es).subrange(hl + el - cap, hl + el) =~= es.subrange(el - cap, el));
    }
}

/// Unsubscribing is idempotent: removing an id a second time, or removing
/// an id that no subscriber carries, leaves the registry unchanged.
pub proof fn lemma_unsubscribe_idempotent(subs: Seq<SubscriberView>, id: u64)
    requires
        unique_ids(subs),
    ensures
        idx_of(subs, id) < 0 ==> remove_id(subs, id) == subs,
        remove_id(remove_id(subs, id), id) == remove_id(subs, id),
{
    lemma_idx_of_props(subs, id);
    if idx_of(subs, id) >= 0 {
        let k = idx_of(subs, id);
        let rest = subs.remove(k);
        assert forall|j: int| 0 <= j < rest.len() implies rest[j].id != id by {
            let j0: int = if j < k { j } else { j + 1 };
            assert(rest[j] == subs[j0]);
        }
        lemma_idx_of_props(rest, id);
        if idx_of(rest, id) >= 0 {
            assert(rest[idx_of(rest, id)].id == id);
        }
    }
}

} // verus!
