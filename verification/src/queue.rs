//! A bounded first-in first-out hand-off queue of classified alerts.
//!
//! The producer side never blocks: an alert offered to a full queue is
//! dropped. The consumer side takes alerts in the order they were
//! enqueued.

use vstd::prelude::*;
use crate::visitor::AlertVisitor;

verus! {

/// A bounded queue of alerts awaiting delivery, oldest first.
pub struct AlertQueue {
    items: Vec<AlertVisitor>,
    capacity: usize,
}

impl View for AlertQueue {
    type V = Seq<AlertVisitor>;

    closed spec fn view(&self) -> Seq<AlertVisitor> {
        self.items@
    }
}

/// True iff every alert of the sequence is a well-formed record.
pub open spec fn all_wf(s: Seq<AlertVisitor>) -> bool {
    forall|i: int| 0 <= i < s.len() ==> (#[trigger] s[i]).wf()
}

impl AlertQueue {
    /// The queue never holds more alerts than its capacity, and every
    /// queued alert is a well-formed record.
    pub closed spec fn wf(self) -> bool {
        self.items@.len() <= self.capacity && all_wf(self.items@)
    }

    /// The number of alerts the queue can hold at once.
    pub closed spec fn spec_capacity(self) -> int {
        self.capacity as int
    }

    /// An empty queue holding at most `capacity` alerts.
    pub fn new(capacity: usize) -> (r: AlertQueue)
        ensures
            r.wf(),
            r@ == Seq::<AlertVisitor>::empty(),
            r.spec_capacity() == capacity,
    {
        AlertQueue { items: Vec::new(), capacity }
    }

    /// Offers an alert without blocking: enqueued and `true` when there
    /// is room, dropped and `false` when the queue is full.
    pub fn try_push(&mut self, record: AlertVisitor) -> (r: bool)
        requires
            old(self).wf(),
            record.wf(),
        ensures
            final(self).wf(),
            final(self).spec_capacity() == old(self).spec_capacity(),
            r == (old(self)@.len() < old(self).spec_capacity()),
            r ==> final(self)@ == old(self)@.push(record),
            !r ==> final(self)@ == old(self)@,
    {
        if self.items.len() < self.capacity {
            self.items.push(record);
            true
        } else {
            false
        }
    }

    /// Takes the oldest queued alert, if any.
    pub fn pop(&mut self) -> (r: Option<AlertVisitor>)
        requires
            old(self).wf(),
        ensures
            final(self).wf(),
            final(self).spec_capacity() == old(self).spec_capacity(),
            old(self)@.len() == 0 ==> r is None && final(self)@ == old(self)@,
            old(self)@.len() > 0 ==> r == Some(old(self)@.first()) && final(self)@ == old(
                self,
            )@.drop_first(),
            r matches Some(v) ==> v.wf(),
    {
        if self.items.len() == 0 {
            None
        } else {
            let record = self.items.remove(0);
            proof {
                assert(self@ =~= old(self)@.drop_first());
            }
            Some(record)
        }
    }

    /// The number of alerts waiting in the queue.
    pub fn len(&self) -> (r: usize)
        ensures
            r == self@.len(),
    {
        self.items.len()
    }
}

} // verus!
