//! Admission control for the `work` phase of breathing tasks: a fixed number of
//! tickets; a task finding none blocks until another leaves `work`, and the
//! ticket is then handed to the earliest waiter.

use vstd::prelude::*;

verus! {

pub struct BreathingThrottle {
    /// Number of tickets.
    pub capacity: usize,
    /// Tasks inside `work`.
    pub in_work: usize,
    /// Blocked tasks, earliest first.
    pub waiters: Vec<usize>,
}

impl BreathingThrottle {
    /// At most `capacity` tasks work, and tasks wait only while all tickets
    /// are taken.
    pub open spec fn wf(&self) -> bool {
        &&& self.in_work <= self.capacity
        &&& self.waiters@.len() > 0 ==> self.in_work == self.capacity
    }

    pub fn new(capacity: usize) -> (r: BreathingThrottle)
        ensures
            r.wf(),
            r.capacity == capacity,
            r.in_work == 0,
            r.waiters@.len() == 0,
    {
        BreathingThrottle { capacity, in_work: 0, waiters: Vec::new() }
    }

    /// Task `task` asks to enter `work`. It enters when a ticket is free;
    /// otherwise it is queued and blocks.
    pub fn try_enter(&mut self, task: usize) -> (admitted: bool)
        requires
            old(self).wf(),
        ensures
            final(self).wf(),
            final(self).capacity == old(self).capacity,
            admitted == (old(self).in_work < old(self).capacity),
            admitted ==> final(self).in_work == old(self).in_work + 1 && final(self).waiters@
                == old(self).waiters@,
            !admitted ==> final(self).in_work == old(self).in_work && final(self).waiters@
                == old(self).waiters@.push(task),
    {
        if self.in_work < self.capacity {
            self.in_work = self.in_work + 1;
            true
        } else {
            self.waiters.push(task);
            false
        }
    }

    /// A task leaves `work`. Its ticket goes to the earliest waiter, which
    /// is returned to be woken, or back to the throttle.
    pub fn leave(&mut self) -> (woken: Option<usize>)
        requires
            old(self).wf(),
            old(self).in_work > 0,
        ensures
            final(self).wf(),
            final(self).capacity == old(self).capacity,
            old(self).waiters@.len() > 0 ==> woken == Some(old(self).waiters@[0]) && final(self).in_work
                == old(self).in_work && final(self).waiters@ == old(self).waiters@.drop_first(),
            old(self).waiters@.len() == 0 ==> woken is None && final(self).in_work == old(self).in_work
                - 1 && final(self).waiters@ == old(self).waiters@,
    {
        if self.waiters.len() > 0 {
            let w = self.waiters.remove(0);
            proof {
                assert(self.waiters@ =~= old(self).waiters@.drop_first());
            }
            Some(w)
        } else {
            self.in_work = self.in_work - 1;
            None
        }
    }
}

/// However many breathing tasks there are, no more than the throttle's
/// capacity are ever inside `work` at once.
pub proof fn lemma_work_bounded(g: BreathingThrottle)
    requires
        g.wf(),
    ensures
        g.in_work <= g.capacity,
{
}

} // verus!
