//! A mailbox: one task may wait on it; notifications that find no waiter
//! are counted, so none is lost. Its notify is usable from interrupt
//! context: it never blocks and allocates nothing.

use vstd::prelude::*;

verus! {

/// What a task's wait on a mailbox did.
#[derive(Clone, Copy, Debug, PartialEq, Eq, Structural)]
pub enum MailboxWait {
    /// A counted notification was taken; the task goes on.
    Received,
    /// No notification was there; the task blocks until one comes.
    Blocked,
    /// Another task already waits; only one may.
    Busy,
}

pub struct Mailbox {
    /// Notifications posted and not yet taken.
    pub count: usize,
    /// The task blocked on the mailbox.
    pub waiter: Option<usize>,
}

/// The mailbox after `n` notifications, and the task the first one woke.
pub open spec fn after_notifies(count: usize, waiter: Option<usize>, n: nat) -> (int, Option<usize>) {
    if n == 0 {
        (count as int, None)
    } else if waiter is Some {
        ((n - 1) as int, waiter)
    } else {
        (count + n, None)
    }
}

impl Mailbox {
    /// A task waits only while nothing is counted.
    pub open spec fn wf(&self) -> bool {
        self.waiter is Some ==> self.count == 0
    }

    pub fn new() -> (r: Mailbox)
        ensures
            r.wf(),
            r.count == 0,
            r.waiter is None,
    {
        Mailbox { count: 0, waiter: None }
    }

    /// Task `task` waits for a notification.
    pub fn wait(&mut self, task: usize) -> (r: MailboxWait)
        requires
            old(self).wf(),
        ensures
            final(self).wf(),
            old(self).waiter is Some ==> r == MailboxWait::Busy && *final(self) == *old(self),
            old(self).waiter is None && old(self).count > 0 ==> r == MailboxWait::Received
                && final(self).count == old(self).count - 1 && final(self).waiter is None,
            old(self).waiter is None && old(self).count == 0 ==> r == MailboxWait::Blocked
                && final(self).count == 0 && final(self).waiter == Some(task),
    {
        if self.waiter.is_some() {
            MailboxWait::Busy
        } else if self.count > 0 {
            self.count = self.count - 1;
            MailboxWait::Received
        } else {
            self.waiter = Some(task);
            MailboxWait::Blocked
        }
    }

    /// Notifies from interrupt or task context. The waiting task, if any,
    /// is handed the notification and returned to be made ready; otherwise
    /// the count goes up by one.
    pub fn notify_allow_isr(&mut self) -> (woken: Option<usize>)
        requires
            old(self).wf(),
            old(self).count < usize::MAX,
        ensures
            final(self).wf(),
            woken == old(self).waiter,
            final(self).waiter is None,
            old(self).waiter is None ==> final(self).count == old(self).count + 1,
            old(self).waiter is Some ==> final(self).count == old(self).count,
            (final(self).count as int, woken) == after_notifies(old(self).count, old(self).waiter, 1),
    {
        match self.waiter {
            Some(t) => {
                self.waiter = None;
                Some(t)
            },
            None => {
                self.count = self.count + 1;
                None
            },
        }
    }
}

} // verus!
