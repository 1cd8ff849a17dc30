//! The per-subscriber bounded queue of frames awaiting delivery.

use vstd::prelude::*;

use crate::frame::Frame;
use crate::frame::frames_view;

verus! {

/// A bounded FIFO of frames with exactly one producer (the hub) and one
/// consumer (the subscriber's stream adapter). Enqueueing never blocks:
/// on a full queue the enqueue is refused, and the hub's policy is then
/// to drop the whole subscriber. Its model is the sequence of queued
/// frame texts, front first.
pub struct Outbox {
    pub frames: Vec<Frame>,
    pub capacity: usize,
}

impl View for Outbox {
    type V = Seq<Seq<char>>;

    open spec fn view(&self) -> Seq<Seq<char>> {
        frames_view(self.frames@)
    }
}

impl Outbox {
    /// The fixed capacity bound.
    pub open spec fn cap(&self) -> int {
        self.capacity as int
    }

    /// The queue never holds more than `cap` frames.
    pub open spec fn wf(&self) -> bool {
        self@.len() <= self.cap()
    }

    /// An empty outbox with the given capacity.
    pub fn new(capacity: usize) -> (q: Outbox)
        ensures
            q@ == Seq::<Seq<char>>::empty(),
            q.cap() == capacity as int,
            q.wf(),
    {
        let q = Outbox { frames: Vec::new(), capacity };
        proof {
            assert(q@ =~= Seq::<Seq<char>>::empty());
        }
        q
    }

    /// The number of queued frames.
    pub fn len(&self) -> (n: usize)
        ensures
            n == self@.len(),
    {
        self.frames.len()
    }

    /// Non-blocking enqueue: appends `f` and succeeds exactly when the
    /// queue has room; a full queue is left unchanged.
    pub fn try_enqueue(&mut self, f: Frame) -> (ok: bool)
        requires
            old(self).wf(),
        ensures
            final(self).wf(),
            final(self).cap() == old(self).cap(),
            ok == (old(self)@.len() < old(self).cap()),
            ok ==> final(self)@ == old(self)@.push(f@),
            !ok ==> final(self)@ == old(self)@,
    {
        if self.frames.len() < self.capacity {
            self.frames.push(f);
            proof {
                assert(self@ =~= old(self)@.push(f@));
            }
            true
        } else {
            false
        }
    }

    /// Removes and returns the frame at the front of the queue, oldest
    /// first; an empty queue is left unchanged.
    pub fn pop_front(&mut self) -> (r: Option<Frame>)
        ensures
            final(self).cap() == old(self).cap(),
            old(self)@.len() == 0 ==> r is None && final(self)@ == old(self)@,
            old(self)@.len() > 0 ==> r is Some && r->0@ == old(self)@[0]
                && final(self)@ == old(self)@.drop_first(),
    {
        if self.frames.len() == 0 {
            None
        } else {
            let f = self.frames.remove(0);
            proof {
                assert(self@ =~= old(self)@.drop_first());
            }
            Some(f)
        }
    }
}

} // verus!
