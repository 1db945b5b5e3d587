//! Fixed-priority preemptive scheduling: the per-task state machine and the
//! ready queue. Smaller priority values are more urgent; within one priority
//! tasks run in the order they became ready.

use crate::config::ALLOW_TASK_PREEMPTION;
use crate::task::TaskState;
use vstd::prelude::*;

verus! {

/// What happens to a task.
#[derive(Clone, Copy, Debug, PartialEq, Eq, Structural)]
pub enum TaskEvent {
    /// The scheduler selects the task to run.
    Dispatch,
    /// A more urgent task preempts it, or it yields.
    Preempt,
    /// It waits on a primitive or sleeps.
    Block,
    /// What it waited for arrives.
    Wake,
    /// It panics or hits its stack limit.
    Fail,
    /// Its entry returns.
    Return,
    /// The unwinding of its stack completes.
    CleanupDone,
}

/// The state machine of one task; `None` for an event that cannot happen in
/// the given state.
pub open spec fn next_state_spec(s: TaskState, e: TaskEvent) -> Option<TaskState> {
    match (s, e) {
        (TaskState::Ready, TaskEvent::Dispatch) => Some(TaskState::Running),
        (TaskState::Running, TaskEvent::Preempt) => Some(TaskState::Ready),
        (TaskState::Running, TaskEvent::Block) => Some(TaskState::Blocked),
        (TaskState::Running, TaskEvent::Fail) => Some(TaskState::Unwinding),
        (TaskState::Running, TaskEvent::Return) => Some(TaskState::Terminated),
        (TaskState::Blocked, TaskEvent::Wake) => Some(TaskState::Ready),
        (TaskState::Unwinding, TaskEvent::CleanupDone) => Some(TaskState::Terminated),
        _ => None,
    }
}

/// Next state of a task in state `s` on event `e`.
pub fn next_state(s: TaskState, e: TaskEvent) -> (r: Option<TaskState>)
    ensures
        r == next_state_spec(s, e),
{
    match (s, e) {
        (TaskState::Ready, TaskEvent::Dispatch) => Some(TaskState::Running),
        (TaskState::Running, TaskEvent::Preempt) => Some(TaskState::Ready),
        (TaskState::Running, TaskEvent::Block) => Some(TaskState::Blocked),
        (TaskState::Running, TaskEvent::Fail) => Some(TaskState::Unwinding),
        (TaskState::Running, TaskEvent::Return) => Some(TaskState::Terminated),
        (TaskState::Blocked, TaskEvent::Wake) => Some(TaskState::Ready),
        (TaskState::Unwinding, TaskEvent::CleanupDone) => Some(TaskState::Terminated),
        _ => None,
    }
}

/// A terminated task stays terminated, and only a running task can block,
/// fail or finish.
pub proof fn lemma_state_machine(s: TaskState, e: TaskEvent)
    ensures
        s is Terminated ==> next_state_spec(s, e) is None,
        (e is Block || e is Fail || e is Return) && next_state_spec(s, e) is Some ==> s is Running,
        next_state_spec(s, e) == Some(TaskState::Running) ==> s is Ready,
{
}

/// A task waiting to run.
#[derive(Clone, Copy, Debug, PartialEq, Eq, Structural)]
pub struct ReadyEntry {
    pub task: usize,
    pub priority: u8,
}

/// Index of the entry to run next: the most urgent priority, and among
/// equals the earliest; -1 when `s` is empty.
pub open spec fn best(s: Seq<ReadyEntry>) -> int
    decreases s.len(),
{
    if s.len() == 0 {
        -1
    } else {
        let b = best(s.drop_last());
        if b == -1 || s.last().priority < s[b].priority {
            s.len() - 1
        } else {
            b
        }
    }
}

/// The chosen entry is at least as urgent as every entry, and strictly more
/// urgent than every entry that became ready before it.
pub proof fn lemma_best(s: Seq<ReadyEntry>)
    ensures
        -1 <= best(s) < s.len(),
        best(s) == -1 <==> s.len() == 0,
        best(s) >= 0 ==> forall|j: int| 0 <= j < s.len() ==> s[best(s)].priority <= #[trigger] s[j].priority,
        best(s) >= 0 ==> forall|j: int| 0 <= j < best(s) ==> s[best(s)].priority < #[trigger] s[j].priority,
    decreases s.len(),
{
    if s.len() > 0 {
        lemma_best(s.drop_last());
        assert forall|j: int| 0 <= j < s.len() - 1 implies s.drop_last()[j] == s[j] by {}
    }
}

/// Tasks ready to run, in the order they became ready.
pub struct ReadyQueue {
    pub entries: Vec<ReadyEntry>,
}

impl ReadyQueue {
    pub fn new() -> (r: ReadyQueue)
        ensures
            r.entries@.len() == 0,
    {
        ReadyQueue { entries: Vec::new() }
    }

    /// Makes a task ready.
    pub fn enqueue(&mut self, task: usize, priority: u8)
        ensures
            final(self).entries@ == old(self).entries@.push(ReadyEntry { task, priority }),
    {
        self.entries.push(ReadyEntry { task, priority });
    }

    /// Index of the entry to run next.
    pub fn peek(&self) -> (r: Option<usize>)
        ensures
            r is None <==> self.entries@.len() == 0,
            r is Some ==> r->Some_0 == best(self.entries@),
    {
        let ghost s = self.entries@;
        proof {
            lemma_best(s);
        }
        if self.entries.len() == 0 {
            return None;
        }
        let mut b: usize = 0;
        let mut i: usize = 1;
        proof {
            assert(s.take(1).drop_last() =~= s.take(0));
            assert(best(s.take(0)) == -1);
            assert(best(s.take(1)) == 0);
        }
        while i < self.entries.len()
            invariant
                self.entries@ == s,
                1 <= i <= s.len(),
                b < i,
                b == best(s.take(i as int)),
            decreases s.len() - i,
        {
            proof {
                assert(s.take(i as int + 1).drop_last() =~= s.take(i as int));
            }
            if self.entries[i].priority < self.entries[b].priority {
                b = i;
            }
            i = i + 1;
        }
        proof {
            assert(s.take(i as int) =~= s);
        }
        Some(b)
    }

    /// Removes and returns the task to run next.
    pub fn pick(&mut self) -> (r: Option<usize>)
        ensures
            r is None <==> old(self).entries@.len() == 0,
            r is None ==> final(self).entries@ == old(self).entries@,
            r is Some ==> {
                let b = best(old(self).entries@);
                &&& r->Some_0 == old(self).entries@[b].task
                &&& final(self).entries@ == old(self).entries@.remove(b)
            },
    {
        proof {
            lemma_best(self.entries@);
        }
        match self.peek() {
            Some(b) => {
                let e = self.entries.remove(b);
                Some(e.task)
            },
            None => None,
        }
    }

    /// Whether a running task of priority `running` must give way now.
    pub fn should_preempt(&self, running: u8) -> (r: bool)
        ensures
            r == (ALLOW_TASK_PREEMPTION && exists|j: int|
                0 <= j < self.entries@.len() && self.entries@[j].priority < running),
    {
        if !ALLOW_TASK_PREEMPTION {
            return false;
        }
        let mut i: usize = 0;
        while i < self.entries.len()
            invariant
                i <= self.entries@.len(),
                forall|j: int| 0 <= j < i ==> self.entries@[j].priority >= running,
            decreases self.entries@.len() - i,
        {
            if self.entries[i].priority < running {
                return true;
            }
            i = i + 1;
        }
        false
    }
}

/// The running task and the tasks ready to run. Switches are requested by
/// wake-ups and performed later by the deferred switch mechanism.
pub struct Scheduler {
    pub ready: ReadyQueue,
    /// The running task, or `None` while the idle task runs.
    pub running: Option<ReadyEntry>,
}

/// The queue a switch chooses from: the ready tasks, followed by the running
/// task when it can go on running.
pub open spec fn candidates(ready: Seq<ReadyEntry>, running: Option<ReadyEntry>, still_runnable: bool) -> Seq<ReadyEntry> {
    if still_runnable && running is Some {
        ready.push(running->Some_0)
    } else {
        ready
    }
}

impl Scheduler {
    pub fn new() -> (r: Scheduler)
        ensures
            r.ready.entries@.len() == 0,
            r.running is None,
    {
        Scheduler { ready: ReadyQueue::new(), running: None }
    }

    /// Makes a task ready and says whether a context switch must be
    /// requested: when only the idle task runs, or when the new task is more
    /// urgent than the running one and preemption is allowed.
    pub fn make_ready(&mut self, task: usize, priority: u8) -> (switch: bool)
        ensures
            final(self).ready.entries@ == old(self).ready.entries@.push(ReadyEntry { task, priority }),
            final(self).running == old(self).running,
            switch == (old(self).running is None || (ALLOW_TASK_PREEMPTION && priority
                < old(self).running->Some_0.priority)),
    {
        self.ready.enqueue(task, priority);
        match self.running {
            None => true,
            Some(r) => ALLOW_TASK_PREEMPTION && priority < r.priority,
        }
    }

    /// Performs a context switch. The running task, if it can go on
    /// running, rejoins the ready tasks behind those of its priority; then
    /// the most urgent ready task runs, or the idle task when none is ready.
    pub fn context_switch(&mut self, still_runnable: bool) -> (r: Option<usize>)
        ensures
            ({
                let q = candidates(old(self).ready.entries@, old(self).running, still_runnable);
                if q.len() == 0 {
                    &&& r is None
                    &&& final(self).running is None
                    &&& final(self).ready.entries@.len() == 0
                } else {
                    &&& r == Some(q[best(q)].task)
                    &&& final(self).running == Some(q[best(q)])
                    &&& final(self).ready.entries@ == q.remove(best(q))
                }
            }),
            final(self).running is Some ==> forall|j: int|
                0 <= j < final(self).ready.entries@.len() ==> final(self).running->Some_0.priority
                    <= #[trigger] final(self).ready.entries@[j].priority,
    {
        let ghost q = candidates(self.ready.entries@, self.running, still_runnable);
        if still_runnable {
            match self.running {
                Some(e) => self.ready.enqueue(e.task, e.priority),
                None => {},
            }
        }
        proof {
            lemma_best(q);
        }
        let picked = match self.ready.peek() {
            Some(b) => {
                let e = self.ready.entries.remove(b);
                proof {
                    assert forall|j: int| 0 <= j < self.ready.entries@.len() implies e.priority
                        <= #[trigger] self.ready.entries@[j].priority by {
                        if j < b {
                            assert(self.ready.entries@[j] == q[j]);
                        } else {
                            assert(self.ready.entries@[j] == q[j + 1]);
                        }
                    }
                }
                Some(e)
            },
            None => None,
        };
        self.running = picked;
        match picked {
            Some(e) => Some(e.task),
            None => None,
        }
    }

    /// The running task blocks or ends; the idle task stands in until the
    /// next switch.
    pub fn stop_running(&mut self) -> (r: Option<usize>)
        ensures
            final(self).running is None,
            final(self).ready.entries@ == old(self).ready.entries@,
            r == (match old(self).running {
                Some(e) => Some(e.task),
                None => None,
            }),
    {
        let r = match self.running {
            Some(e) => Some(e.task),
            None => None,
        };
        self.running = None;
        r
    }
}

} // verus!
