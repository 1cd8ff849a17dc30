//! The bounded FIFO of recent events, replayed to new joiners.

use vstd::prelude::*;

use crate::event::Event;
use crate::event::EventView;
use crate::event::events_view;

verus! {

/// One step of the history buffer: append `e`, evicting the oldest entry
/// if the buffer is at capacity `cap`.
pub open spec fn push_evict(h: Seq<EventView>, e: EventView, cap: int) -> Seq<EventView> {
    if cap <= 0 {
        Seq::empty()
    } else if h.len() < cap {
        h.push(e)
    } else {
        h.drop_first().push(e)
    }
}

/// A bounded, ordered buffer of recent events, capacity fixed at
/// construction. Its model is the sequence of buffered events, oldest
/// first.
pub struct History {
    pub events: Vec<Event>,
    pub capacity: usize,
}

impl View for History {
    type V = Seq<EventView>;

    open spec fn view(&self) -> Seq<EventView> {
        events_view(self.events@)
    }
}

impl History {
    /// The fixed capacity bound.
    pub open spec fn cap(&self) -> int {
        self.capacity as int
    }

    /// The buffer never holds more than `cap` events.
    pub open spec fn wf(&self) -> bool {
        self@.len() <= self.cap()
    }

    /// An empty buffer with the given capacity.
    pub fn new(capacity: usize) -> (h: History)
        ensures
            h@ == Seq::<EventView>::empty(),
            h.cap() == capacity as int,
            h.wf(),
    {
        let h = History { events: Vec::new(), capacity };
        proof {
            assert(h@ =~= Seq::<EventView>::empty());
        }
        h
    }

    /// Appends `e` in arrival order, evicting the oldest entry if the
    /// buffer is full; never grows past the capacity.
    pub fn push(&mut self, e: Event)
        requires
            old(self).wf(),
        ensures
            final(self).wf(),
            final(self).cap() == old(self).cap(),
            final(self)@ == push_evict(old(self)@, e@, old(self).cap()),
    {
        if self.capacity == 0 {
            proof {
                assert(self@ =~= push_evict(old(self)@, e@, old(self).cap()));
            }
            return;
        }
        if self.events.len() == self.capacity {
            self.events.remove(0);
            proof {
                assert(events_view(self.events@) =~= old(self)@.drop_first());
            }
        }
        self.events.push(e);
        proof {
            assert(self@ =~= push_evict(old(self)@, e@, old(self).cap()));
        }
    }

    /// An ordered copy of the buffered events, oldest first, for replay.
    pub fn snapshot(&self) -> (v: Vec<Event>)
        ensures
            events_view(v@) == self@,
    {
        let mut v: Vec<Event> = Vec::new();
        let mut i: usize = 0;
        proof {
            assert(events_view(v@) =~= self@.take(0));
        }
        while i < self.events.len()
            invariant
                i <= self.events@.len(),
                self@.len() == self.events@.len(),
                events_view(v@) == self@.take(i as int),
            decreases self.events@.len() - i,
        {
            let ghost vprev = v@;
            let e = self.events[i].dup();
            v.push(e);
            proof {
                assert(v@ == vprev.push(e));
                assert(events_view(vprev).len() == vprev.len());
                assert(vprev.len() == i as int);
                assert(self@[i as int] == self.events@[i as int]@);
                assert forall|a: int| 0 <= a < v@.len()
                    implies events_view(v@)[a] == self@.take(i + 1)[a] by {
                    if a < i {
                        assert(v@[a] == vprev[a]);
                        assert(events_view(vprev)[a] == self@.take(i as int)[a]);
                    } else {
                        assert(v@[a] == e);
                    }
                }
                assert(events_view(v@) =~= self@.take(i + 1));
            }
            i = i + 1;
        }
        proof {
            assert(self@.take(self.events@.len() as int) =~= self@);
        }
        v
    }
}

} // verus!
