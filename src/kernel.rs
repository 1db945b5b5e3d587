//! The kernel state as a whole, and the steps an interrupt handler takes on
//! it: a timer interrupt that notifies a mailbox under an interrupt-masking
//! lock, and what a panicking handler leaves behind.

use crate::breathing::BreathingThrottle;
use crate::guard::{GuardAction, OverflowGuard};
use crate::hot_split::{after_record, bumped};
use crate::segstack::grow_at_site;
use crate::stacklet::{chain_len, Stacklet};
use crate::task::{lemma_counts, RestartAction};
use crate::config::HOT_SPLIT_DETECTION_THRESHOLD;
use crate::config::MAX_TASK_NUMBER;
use crate::hot_split::HotSplitCache;
use crate::irq_lock::IrqMaskLock;
use crate::mailbox::{after_notifies, Mailbox};
use crate::sched::TaskEvent;
use crate::stacklet::StackletAllocator;
use crate::task::{fresh, owed, settled, TaskRecord, TaskState, TaskTable};
use vstd::prelude::*;

verus! {

/// The table after the mailbox hands its notification to task `w`: a
/// blocked task becomes ready; nothing else changes.
pub open spec fn woken(tasks: Seq<Option<TaskRecord>>, w: Option<usize>) -> Seq<Option<TaskRecord>> {
    match w {
        Some(t) => if t < tasks.len() && tasks[t as int] is Some && tasks[t as int]->Some_0.state is Blocked {
            tasks.update(t as int, Some(TaskRecord { state: TaskState::Ready, ..tasks[t as int]->Some_0 }))
        } else {
            tasks
        },
        None => tasks,
    }
}

pub struct Kernel {
    pub alloc: StackletAllocator,
    /// Hot-split cache of each task slot.
    pub caches: Vec<HotSplitCache>,
    /// Overflow guard of each task slot.
    pub guards: Vec<OverflowGuard>,
    pub table: TaskTable,
    pub throttle: BreathingThrottle,
    /// Mailbox that the timer interrupt notifies.
    pub mailbox: Mailbox,
    /// Lock that masks the timer interrupt while held.
    pub timer_lock: IrqMaskLock,
}

impl Kernel {
    pub open spec fn wf(&self) -> bool {
        &&& self.alloc.wf()
        &&& self.caches@.len() == MAX_TASK_NUMBER
        &&& forall|i: int| 0 <= i < self.caches@.len() ==> #[trigger] self.caches@[i].wf()
        &&& self.guards@.len() == MAX_TASK_NUMBER
        &&& self.table.wf()
        &&& self.throttle.wf()
        &&& self.mailbox.wf()
        &&& self.timer_lock.wf()
    }

    /// A kernel over a heap of `heap_size` bytes with `breathing` work
    /// tickets; `None` when the heap is beyond what compact links address.
    pub fn new(heap_size: usize, breathing: usize) -> (r: Option<Kernel>)
        ensures
            r is Some <==> heap_size <= crate::config::MEM_CHUNK_LINK_SPAN,
            r is Some ==> {
                let k = r->Some_0;
                &&& k.wf()
                &&& k.alloc.free_bytes == heap_size
                &&& k.alloc.stacklets@.len() == 0
                &&& forall|j: int| 0 <= j < k.table.tasks@.len() ==> #[trigger] k.table.tasks@[j] is None
                &&& k.throttle.capacity == breathing
                &&& k.throttle.in_work == 0
                &&& k.mailbox.count == 0
                &&& k.mailbox.waiter is None
                &&& !k.timer_lock.held
            },
    {
        let alloc = match StackletAllocator::new(heap_size) {
            Some(a) => a,
            None => return None,
        };
        let mut caches: Vec<HotSplitCache> = Vec::new();
        let mut guards: Vec<OverflowGuard> = Vec::new();
        let mut i: usize = 0;
        while i < MAX_TASK_NUMBER
            invariant
                i <= MAX_TASK_NUMBER,
                caches@.len() == i,
                guards@.len() == i,
                forall|j: int| 0 <= j < i ==> #[trigger] caches@[j].wf(),
            decreases MAX_TASK_NUMBER - i,
        {
            caches.push(HotSplitCache::new());
            guards.push(OverflowGuard::new());
            i = i + 1;
        }
        Some(Kernel {
            alloc,
            caches,
            guards,
            table: TaskTable::new(),
            throttle: BreathingThrottle::new(breathing),
            mailbox: Mailbox::new(),
            timer_lock: IrqMaskLock::new(),
        })
    }

    /// The body of the timer interrupt handler: notify the mailbox, and make
    /// the task it wakes ready. The notify is the only change: no stacklet,
    /// task or work ticket is added or removed.
    pub fn notify_step(&mut self) -> (w: Option<usize>)
        requires
            old(self).wf(),
            old(self).mailbox.count < usize::MAX,
        ensures
            final(self).wf(),
            w == old(self).mailbox.waiter,
            (final(self).mailbox.count as int, w) == after_notifies(old(self).mailbox.count, old(self).mailbox.waiter, 1),
            final(self).mailbox.waiter is None,
            final(self).table.tasks@ == woken(old(self).table.tasks@, w),
            final(self).alloc == old(self).alloc,
            final(self).caches@ == old(self).caches@,
            final(self).throttle == old(self).throttle,
            final(self).timer_lock == old(self).timer_lock,
    {
        let w = self.mailbox.notify_allow_isr();
        match w {
            Some(t) => {
                if t < self.table.tasks.len() {
                    match self.table.tasks[t] {
                        Some(x) => {
                            if matches!(x.state, TaskState::Blocked) {
                                self.table.apply_event(t, TaskEvent::Wake);
                            }
                        },
                        None => {},
                    }
                }
            },
            None => {},
        }
        w
    }

    /// The timer interrupt fires. While the lock is held it stays masked and
    /// the event is kept pending; otherwise the handler runs at once.
    pub fn timer_interrupt(&mut self) -> (ran: bool)
        requires
            old(self).wf(),
            old(self).mailbox.count < usize::MAX,
            old(self).timer_lock.pending < u32::MAX,
        ensures
            final(self).wf(),
            ran == !old(self).timer_lock.held,
            !ran ==> final(self).timer_lock.pending == old(self).timer_lock.pending + 1
                && final(self).timer_lock.held && final(self).mailbox == old(self).mailbox
                && final(self).table.tasks@ == old(self).table.tasks@,
            ran ==> final(self).timer_lock == old(self).timer_lock
                && (final(self).mailbox.count as int, old(self).mailbox.waiter) == after_notifies(
                old(self).mailbox.count,
                old(self).mailbox.waiter,
                1,
            ) && final(self).mailbox.waiter is None && final(self).table.tasks@ == woken(
                old(self).table.tasks@,
                old(self).mailbox.waiter,
            ),
            final(self).alloc == old(self).alloc,
            final(self).caches@ == old(self).caches@,
            final(self).throttle == old(self).throttle,
    {
        if self.timer_lock.raise() {
            self.notify_step();
            true
        } else {
            false
        }
    }

    /// Releases the timer lock; the handler then runs once for every event
    /// raised while it was held, so back-to-back events are all delivered.
    /// Returns how many ran.
    pub fn release_timer_lock(&mut self) -> (n: u32)
        requires
            old(self).wf(),
            old(self).timer_lock.held,
            old(self).mailbox.count + old(self).timer_lock.pending < usize::MAX,
        ensures
            final(self).wf(),
            n == old(self).timer_lock.pending,
            !final(self).timer_lock.held,
            final(self).mailbox.count as int == after_notifies(old(self).mailbox.count, old(self).mailbox.waiter, n as nat).0,
            n > 0 ==> final(self).mailbox.waiter is None,
            n > 0 ==> final(self).table.tasks@ == woken(old(self).table.tasks@, old(self).mailbox.waiter),
            n == 0 ==> final(self).mailbox == old(self).mailbox && final(self).table.tasks@ == old(self).table.tasks@,
            final(self).alloc == old(self).alloc,
            final(self).caches@ == old(self).caches@,
            final(self).throttle == old(self).throttle,
    {
        let n = self.timer_lock.release();
        let ghost c0 = self.mailbox.count;
        let ghost w0 = self.mailbox.waiter;
        let ghost t0 = self.table.tasks@;
        let mut k: u32 = 0;
        while k < n
            invariant
                self.wf(),
                k <= n,
                !self.timer_lock.held,
                n == old(self).timer_lock.pending,
                c0 == old(self).mailbox.count,
                w0 == old(self).mailbox.waiter,
                t0 == old(self).table.tasks@,
                c0 + n < usize::MAX,
                self.mailbox.count as int == after_notifies(c0, w0, k as nat).0,
                k > 0 ==> self.mailbox.waiter is None,
                k > 0 ==> self.table.tasks@ == woken(t0, w0),
                k == 0 ==> self.mailbox == old(self).mailbox && self.table.tasks@ == t0,
                self.alloc == old(self).alloc,
                self.caches@ == old(self).caches@,
                self.throttle == old(self).throttle,
            decreases n - k,
        {
            let ghost before = self.table.tasks@;
            self.notify_step();
            proof {
                if k > 0 {
                    assert(woken(before, None) == before);
                }
            }
            k = k + 1;
        }
        n
    }

    /// A handler panicked: it is forced to return after its resources are
    /// reclaimed. The timer lock is released if the handler held it; the
    /// scheduler's state and everything else are left as they were. Returns
    /// the events still pending on the lock, to be served by the next run.
    pub fn handler_panicked(&mut self) -> (pending: u32)
        requires
            old(self).wf(),
        ensures
            final(self).wf(),
            !final(self).timer_lock.held,
            pending == old(self).timer_lock.pending,
            final(self).table.tasks@ == old(self).table.tasks@,
            final(self).mailbox == old(self).mailbox,
            final(self).alloc == old(self).alloc,
            final(self).caches@ == old(self).caches@,
            final(self).throttle == old(self).throttle,
    {
        if self.timer_lock.is_masked() {
            self.timer_lock.release()
        } else {
            0
        }
    }

    /// Completes the cleanup of the task in slot `i`: its stack goes back to
    /// the pool, its hot-split cache is emptied, and the restart manager
    /// frees the slot or respawns into it.
    pub fn cleanup(&mut self, i: usize) -> (r: Option<usize>)
        requires
            old(self).wf(),
            i < MAX_TASK_NUMBER,
            old(self).table.tasks@[i as int] is Some,
            old(self).table.tasks@[i as int]->Some_0.state is Unwinding || old(self).table.tasks@[i as int]->Some_0.state is Terminated,
        ensures
            final(self).wf(),
            final(self).alloc.used_spec(i as int) == 0,
            final(self).alloc.free_bytes == old(self).alloc.free_bytes + old(self).alloc.used_spec(i as int),
            forall|t: int| t != i ==> final(self).alloc.used_spec(t) == old(self).alloc.used_spec(t),
            final(self).caches@[i as int].entries@.len() == 0,
            forall|j: int| 0 <= j < MAX_TASK_NUMBER && j != i ==> #[trigger] final(self).caches@[j] == old(self).caches@[j],
            ({
                let s = old(self).table.tasks@;
                let t = s[i as int]->Some_0;
                let rest = s.update(i as int, None);
                if owed(s, t.identity) {
                    &&& r == Some(i)
                    &&& final(self).table.tasks@ == rest.map_values(|x: Option<TaskRecord>| settled(x, t.identity)).update(
                        i as int,
                        Some(fresh(t)),
                    )
                } else {
                    &&& r is None
                    &&& final(self).table.tasks@ == rest
                }
            }),
            final(self).throttle == old(self).throttle,
            final(self).mailbox == old(self).mailbox,
            final(self).timer_lock == old(self).timer_lock,
    {
        self.alloc.release_all(i);
        let mut c = HotSplitCache::new();
        c.clear();
        self.caches.set(i, c);
        self.table.cleanup_done(i)
    }

    /// The running task in slot `i` asks, from call site `site`, for
    /// `requested` more bytes of stack. The growth goes through the hot-split
    /// cache and the allocator; a refusal goes to the overflow guard, and a
    /// diversion makes the task fail, which the restart manager answers.
    pub fn grow_stack(&mut self, i: usize, site: u32, requested: usize) -> (r: (GuardAction, Option<RestartAction>))
        requires
            old(self).wf(),
            i < MAX_TASK_NUMBER,
            old(self).table.tasks@[i as int] is Some,
            old(self).table.tasks@[i as int]->Some_0.state is Running,
        ensures
            final(self).wf(),
            ({
                let top = chain_len(old(self).alloc.stacklets@, i as int) as usize;
                let hot = bumped(old(self).caches@[i as int].entries@, site, top) >= HOT_SPLIT_DETECTION_THRESHOLD;
                let g = old(self).alloc.grow_outcome(i as int, requested as int, hot);
                &&& final(self).caches@[i as int].entries@ == after_record(old(self).caches@[i as int].entries@, site, top)
                &&& g is Ok ==> r.0 == GuardAction::Proceed && r.1 is None
                    && final(self).alloc.stacklets@ == old(self).alloc.stacklets@.push(Stacklet { owner: i, size: g->Ok_0 })
                    && final(self).table.tasks@ == old(self).table.tasks@
                &&& g is Err ==> final(self).alloc == old(self).alloc
                &&& g is Err && old(self).guards@[i as int].release_depth == 0 ==> r.0 == GuardAction::Divert
                    && r.1 is Some && final(self).table.tasks@[i as int] is Some
                    && final(self).table.tasks@[i as int]->Some_0.state is Unwinding
                &&& g is Err && old(self).guards@[i as int].release_depth > 0 ==> r.0 == GuardAction::Defer
                    && r.1 is None && final(self).table.tasks@ == old(self).table.tasks@
                    && final(self).guards@[i as int].diversion_pending
            }),
            forall|t: int| 0 <= t < MAX_TASK_NUMBER && #[trigger] final(self).alloc.limits@[t] is Some
                ==> final(self).alloc.used_spec(t) <= final(self).alloc.limits@[t]->Some_0,
            final(self).mailbox == old(self).mailbox,
            final(self).timer_lock == old(self).timer_lock,
            final(self).throttle == old(self).throttle,
    {
        let ghost c0 = self.caches@;
        let mut cache = self.caches.remove(i);
        let g = grow_at_site(&mut self.alloc, &mut cache, i, site, requested);
        self.caches.insert(i, cache);
        proof {
            assert(self.caches@ =~= c0.update(i as int, cache));
            assert forall|j: int| 0 <= j < self.caches@.len() implies #[trigger] self.caches@[j].wf() by {
                if j != i {
                    assert(self.caches@[j] == c0[j]);
                }
            }
        }
        let mut guard = self.guards[i];
        let action = guard.on_growth(g);
        self.guards.set(i, guard);
        match action {
            GuardAction::Divert => {
                proof {
                    lemma_counts(self.table.tasks@, 0);
                }
                let ra = self.table.on_failure(i);
                (action, Some(ra))
            },
            _ => (action, None),
        }
    }
}

} // verus!
