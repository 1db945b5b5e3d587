//! The task table and the restart manager.
//!
//! The table has one fixed slot per possible task; a task keeps its slot,
//! which also names its stack and hot-split cache, for its whole life. A
//! restartable task carries a restart identity shared by all its instances.
//! When one fails it is lowered to the unwind priority for its cleanup, and a
//! fresh instance is spawned at once when the table has room and fewer than
//! two instances exist; otherwise the respawn is owed and happens when a
//! cleanup of that identity completes.

use crate::config::{MAX_TASK_NUMBER, TASK_PRIORITY_LEVELS, UNWIND_PRIORITY};
use crate::sched::{next_state, next_state_spec, TaskEvent};
use vstd::prelude::*;

verus! {

/// Lifecycle state of a task.
#[derive(Clone, Copy, Debug, PartialEq, Eq, Structural)]
pub enum TaskState {
    Ready,
    Running,
    Blocked,
    Unwinding,
    Terminated,
}

/// One live task.
#[derive(Clone, Copy, Debug, PartialEq, Eq, Structural)]
pub struct TaskRecord {
    /// Diagnostic identifier; not unique.
    pub id: u8,
    /// Identity shared by every instance of one restartable task.
    pub identity: u32,
    /// Priority the task was built with.
    pub base_priority: u8,
    /// Current priority.
    pub priority: u8,
    pub state: TaskState,
    pub restartable: bool,
    /// A respawn of this identity is owed.
    pub respawn_pending: bool,
}

/// Why a spawn was refused.
#[derive(Clone, Copy, Debug, PartialEq, Eq, Structural)]
pub enum SpawnError {
    /// The table already holds the maximum number of tasks.
    TableFull,
    /// The priority is not below the number of levels.
    BadPriority,
    /// A live task already has this restart identity.
    IdentityInUse,
}

/// What the restart manager did for a failed task.
#[derive(Clone, Copy, Debug, PartialEq, Eq, Structural)]
pub enum RestartAction {
    /// The task is not restartable: it is only cleaned up.
    NoRestart,
    /// A new instance was spawned in the given slot.
    Concurrent(usize),
    /// The respawn is owed until an instance of the identity is cleaned up.
    Deferred,
}

/// 1 when slot `x` holds a task of identity `ident`.
pub open spec fn holds(x: Option<TaskRecord>, ident: u32) -> nat {
    if x is Some && x->Some_0.identity == ident { 1 } else { 0 }
}

/// Number of tasks in `s` with restart identity `ident`.
pub open spec fn instances(s: Seq<Option<TaskRecord>>, ident: u32) -> nat
    decreases s.len(),
{
    if s.len() == 0 {
        0
    } else {
        instances(s.drop_last(), ident) + holds(s.last(), ident)
    }
}

/// Number of occupied slots in `s`.
pub open spec fn live(s: Seq<Option<TaskRecord>>) -> nat
    decreases s.len(),
{
    if s.len() == 0 {
        0
    } else {
        live(s.drop_last()) + (if s.last() is Some { 1nat } else { 0nat })
    }
}

/// Lowest free slot of `s`, or -1 when every slot is taken.
pub open spec fn first_free(s: Seq<Option<TaskRecord>>) -> int
    decreases s.len(),
{
    if s.len() == 0 {
        -1
    } else if first_free(s.drop_last()) >= 0 {
        first_free(s.drop_last())
    } else if s.last() is None {
        s.len() - 1
    } else {
        -1
    }
}

/// Whether some task of identity `ident` in `s` has a respawn owed.
pub open spec fn owed(s: Seq<Option<TaskRecord>>, ident: u32) -> bool {
    exists|j: int| 0 <= j < s.len() && #[trigger] s[j] is Some && s[j]->Some_0.identity == ident
        && s[j]->Some_0.respawn_pending
}

/// A fresh instance of a record: ready, at its base priority, nothing owed.
pub open spec fn fresh(r: TaskRecord) -> TaskRecord {
    TaskRecord { priority: r.base_priority, state: TaskState::Ready, respawn_pending: false, ..r }
}

/// A slot with a debt of identity `ident` cleared.
pub open spec fn settled(x: Option<TaskRecord>, ident: u32) -> Option<TaskRecord> {
    match x {
        Some(r) => if r.identity == ident {
            Some(TaskRecord { respawn_pending: false, ..r })
        } else {
            x
        },
        None => None,
    }
}

pub proof fn lemma_update(s: Seq<Option<TaskRecord>>, i: int, x: Option<TaskRecord>, ident: u32)
    requires
        0 <= i < s.len(),
    ensures
        instances(s.update(i, x), ident) + holds(s[i], ident) == instances(s, ident) + holds(x, ident),
        live(s.update(i, x)) + (if s[i] is Some { 1nat } else { 0nat }) == live(s) + (if x is Some { 1nat } else { 0nat }),
    decreases s.len(),
{
    if i == s.len() - 1 {
        assert(s.update(i, x).drop_last() =~= s.drop_last());
    } else {
        lemma_update(s.drop_last(), i, x, ident);
        assert(s.update(i, x).drop_last() =~= s.drop_last().update(i, x));
    }
}

pub proof fn lemma_counts(s: Seq<Option<TaskRecord>>, ident: u32)
    ensures
        instances(s, ident) <= s.len(),
        live(s) <= s.len(),
        -1 <= first_free(s) < s.len(),
        first_free(s) >= 0 ==> s[first_free(s)] is None,
        first_free(s) >= 0 ==> forall|j: int| 0 <= j < first_free(s) ==> #[trigger] s[j] is Some,
        first_free(s) == -1 ==> forall|j: int| 0 <= j < s.len() ==> #[trigger] s[j] is Some,
    decreases s.len(),
{
    if s.len() > 0 {
        lemma_counts(s.drop_last(), ident);
        assert forall|j: int| 0 <= j < s.len() - 1 implies s.drop_last()[j] == s[j] by {}
    }
}

/// The table of task slots.
pub struct TaskTable {
    pub tasks: Vec<Option<TaskRecord>>,
}

impl TaskTable {
    /// One slot per possible task, valid priorities, and at most two
    /// instances of any restart identity.
    pub open spec fn wf(&self) -> bool {
        &&& self.tasks@.len() == MAX_TASK_NUMBER
        &&& forall|j: int| 0 <= j < self.tasks@.len() && #[trigger] self.tasks@[j] is Some ==> {
            &&& self.tasks@[j]->Some_0.priority < TASK_PRIORITY_LEVELS
            &&& self.tasks@[j]->Some_0.base_priority < TASK_PRIORITY_LEVELS
        }
        &&& forall|ident: u32| #[trigger] instances(self.tasks@, ident) <= 2
    }

    /// A table with every slot free.
    pub fn new() -> (r: TaskTable)
        ensures
            r.wf(),
            forall|j: int| 0 <= j < r.tasks@.len() ==> #[trigger] r.tasks@[j] is None,
    {
        let mut tasks: Vec<Option<TaskRecord>> = Vec::new();
        let mut i: usize = 0;
        while i < MAX_TASK_NUMBER
            invariant
                i <= MAX_TASK_NUMBER,
                tasks@.len() == i,
                forall|j: int| 0 <= j < i ==> #[trigger] tasks@[j] is None,
            decreases MAX_TASK_NUMBER - i,
        {
            tasks.push(None);
            i = i + 1;
        }
        proof {
            assert forall|ident: u32| #[trigger] instances(tasks@, ident) <= 2 by {
                lemma_none_instances(tasks@, ident);
            }
        }
        TaskTable { tasks }
    }

    /// Number of live tasks.
    pub fn len(&self) -> (r: usize)
        requires
            self.wf(),
        ensures
            r == live(self.tasks@),
    {
        let ghost s = self.tasks@;
        let mut n: usize = 0;
        let mut i: usize = 0;
        while i < self.tasks.len()
            invariant
                self.tasks@ == s,
                s.len() == MAX_TASK_NUMBER,
                i <= s.len(),
                n == live(s.take(i as int)),
            decreases s.len() - i,
        {
            proof {
                assert(s.take(i as int + 1).drop_last() =~= s.take(i as int));
                lemma_counts(s.take(i as int), 0);
            }
            if self.tasks[i].is_some() {
                n = n + 1;
            }
            i = i + 1;
        }
        proof {
            assert(s.take(i as int) =~= s);
        }
        n
    }

    /// Number of live instances of restart identity `ident`.
    pub fn count_instances(&self, ident: u32) -> (r: usize)
        requires
            self.wf(),
        ensures
            r == instances(self.tasks@, ident),
    {
        let ghost s = self.tasks@;
        let mut n: usize = 0;
        let mut i: usize = 0;
        while i < self.tasks.len()
            invariant
                self.tasks@ == s,
                s.len() == MAX_TASK_NUMBER,
                i <= s.len(),
                n == instances(s.take(i as int), ident),
            decreases s.len() - i,
        {
            proof {
                assert(s.take(i as int + 1).drop_last() =~= s.take(i as int));
                lemma_counts(s.take(i as int), ident);
            }
            match &self.tasks[i] {
                Some(r) => {
                    if r.identity == ident {
                        n = n + 1;
                    }
                },
                None => {},
            }
            i = i + 1;
        }
        proof {
            assert(s.take(i as int) =~= s);
        }
        n
    }

    /// The lowest free slot.
    pub fn free_slot(&self) -> (r: Option<usize>)
        ensures
            r is None <==> first_free(self.tasks@) == -1,
            r is Some ==> r->Some_0 == first_free(self.tasks@),
    {
        let ghost s = self.tasks@;
        proof {
            lemma_counts(s, 0);
        }
        let mut i: usize = 0;
        while i < self.tasks.len()
            invariant
                self.tasks@ == s,
                i <= s.len(),
                forall|j: int| 0 <= j < i ==> #[trigger] s[j] is Some,
                -1 <= first_free(s) < s.len(),
                first_free(s) >= 0 ==> s[first_free(s)] is None,
                first_free(s) >= 0 ==> forall|j: int| 0 <= j < first_free(s) ==> #[trigger] s[j] is Some,
                first_free(s) == -1 ==> forall|j: int| 0 <= j < s.len() ==> #[trigger] s[j] is Some,
            decreases s.len() - i,
        {
            if self.tasks[i].is_none() {
                return Some(i);
            }
            i = i + 1;
        }
        None
    }

    /// Spawns a new task, ready to run, in the lowest free slot. A restart
    /// identity must not be in use by a live task.
    pub fn spawn(&mut self, id: u8, identity: u32, priority: u8, restartable: bool) -> (r: Result<usize, SpawnError>)
        requires
            old(self).wf(),
        ensures
            final(self).wf(),
            r == (if priority >= TASK_PRIORITY_LEVELS {
                Err(SpawnError::BadPriority)
            } else if first_free(old(self).tasks@) == -1 {
                Err(SpawnError::TableFull)
            } else if instances(old(self).tasks@, identity) > 0 {
                Err(SpawnError::IdentityInUse)
            } else {
                Ok(first_free(old(self).tasks@) as usize)
            }),
            r is Ok ==> final(self).tasks@ == old(self).tasks@.update(
                r->Ok_0 as int,
                Some(
                    TaskRecord {
                        id,
                        identity,
                        base_priority: priority,
                        priority,
                        state: TaskState::Ready,
                        restartable,
                        respawn_pending: false,
                    },
                ),
            ),
            r is Err ==> final(self).tasks@ == old(self).tasks@,
    {
        if priority >= TASK_PRIORITY_LEVELS {
            return Err(SpawnError::BadPriority);
        }
        let slot = match self.free_slot() {
            Some(k) => k,
            None => return Err(SpawnError::TableFull),
        };
        if self.count_instances(identity) > 0 {
            return Err(SpawnError::IdentityInUse);
        }
        let rec = TaskRecord {
            id,
            identity,
            base_priority: priority,
            priority,
            state: TaskState::Ready,
            restartable,
            respawn_pending: false,
        };
        let ghost s = self.tasks@;
        proof {
            lemma_counts(s, identity);
        }
        self.tasks.set(slot, Some(rec));
        proof {
            assert forall|ident: u32| #[trigger] instances(self.tasks@, ident) <= 2 by {
                lemma_update(s, slot as int, Some(rec), ident);
            }
        }
        Ok(slot)
    }

    /// Applies a scheduling event to the task in slot `i` through the task
    /// state machine. Failure and cleanup go through `on_failure` and
    /// `cleanup_done` instead; they and impossible events change nothing.
    pub fn apply_event(&mut self, i: usize, e: TaskEvent) -> (r: bool)
        requires
            old(self).wf(),
            i < MAX_TASK_NUMBER,
            old(self).tasks@[i as int] is Some,
        ensures
            final(self).wf(),
            r == (!(e is Fail) && !(e is CleanupDone) && next_state_spec(old(self).tasks@[i as int]->Some_0.state, e) is Some),
            r ==> final(self).tasks@ == old(self).tasks@.update(
                i as int,
                Some(
                    TaskRecord {
                        state: next_state_spec(old(self).tasks@[i as int]->Some_0.state, e)->Some_0,
                        ..old(self).tasks@[i as int]->Some_0
                    },
                ),
            ),
            !r ==> final(self).tasks@ == old(self).tasks@,
    {
        if matches!(e, TaskEvent::Fail) || matches!(e, TaskEvent::CleanupDone) {
            return false;
        }
        let ghost s = self.tasks@;
        let mut rec = match self.tasks[i] {
            Some(x) => x,
            None => return false,
        };
        match next_state(rec.state, e) {
            Some(state) => {
                rec.state = state;
                self.tasks.set(i, Some(rec));
                proof {
                    assert forall|ident: u32| #[trigger] instances(self.tasks@, ident) <= 2 by {
                        lemma_update(s, i as int, Some(rec), ident);
                    }
                }
                true
            },
            None => false,
        }
    }

    /// Whether a respawn of identity `ident` is owed.
    pub fn is_owed(&self, ident: u32) -> (r: bool)
        ensures
            r == owed(self.tasks@, ident),
    {
        let mut i: usize = 0;
        while i < self.tasks.len()
            invariant
                i <= self.tasks@.len(),
                forall|j: int| 0 <= j < i ==> !(#[trigger] self.tasks@[j] is Some && self.tasks@[j]->Some_0.identity == ident
                    && self.tasks@[j]->Some_0.respawn_pending),
            decreases self.tasks@.len() - i,
        {
            match &self.tasks[i] {
                Some(r) => {
                    if r.identity == ident && r.respawn_pending {
                        return true;
                    }
                },
                None => {},
            }
            i = i + 1;
        }
        false
    }

    /// Handles the failure (panic or stack-limit diversion) of the task in
    /// slot `i`: it starts unwinding at a priority no higher than the unwind
    /// priority, and the restart manager decides on a respawn. A concurrent
    /// restart takes the lowest free slot.
    pub fn on_failure(&mut self, i: usize) -> (r: RestartAction)
        requires
            old(self).wf(),
            i < MAX_TASK_NUMBER,
            old(self).tasks@[i as int] is Some,
            !(old(self).tasks@[i as int]->Some_0.state is Unwinding),
            !(old(self).tasks@[i as int]->Some_0.state is Terminated),
        ensures
            final(self).wf(),
            ({
                let s = old(self).tasks@;
                let t = s[i as int]->Some_0;
                let p = if t.priority > UNWIND_PRIORITY { t.priority } else { UNWIND_PRIORITY };
                let u = TaskRecord { state: TaskState::Unwinding, priority: p, ..t };
                let f = first_free(s);
                if !t.restartable {
                    r == RestartAction::NoRestart && final(self).tasks@ == s.update(i as int, Some(u))
                } else if f >= 0 && instances(s, t.identity) < 2 {
                    r == RestartAction::Concurrent(f as usize) && final(self).tasks@ == s.update(
                        i as int,
                        Some(u),
                    ).update(f, Some(fresh(t)))
                } else {
                    r == RestartAction::Deferred && final(self).tasks@ == s.update(
                        i as int,
                        Some(TaskRecord { respawn_pending: true, ..u }),
                    )
                }
            }),
    {
        let ghost s = self.tasks@;
        proof {
            lemma_counts(s, 0);
        }
        let t = match self.tasks[i] {
            Some(x) => x,
            None => return RestartAction::NoRestart,
        };
        let p: u8 = if t.priority > UNWIND_PRIORITY { t.priority } else { UNWIND_PRIORITY };
        let mut u = TaskRecord { state: TaskState::Unwinding, priority: p, ..t };
        if !t.restartable {
            self.tasks.set(i, Some(u));
            proof {
                assert forall|ident: u32| #[trigger] instances(self.tasks@, ident) <= 2 by {
                    lemma_update(s, i as int, Some(u), ident);
                }
            }
            return RestartAction::NoRestart;
        }
        let n = self.count_instances(t.identity);
        let free = self.free_slot();
        if free.is_some() && n < 2 {
            let f_slot = free.unwrap();
            self.tasks.set(i, Some(u));
            let ghost s1 = self.tasks@;
            let f = TaskRecord { priority: t.base_priority, state: TaskState::Ready, respawn_pending: false, ..t };
            self.tasks.set(f_slot, Some(f));
            proof {
                assert(s[i as int] is Some);
                assert forall|ident: u32| #[trigger] instances(self.tasks@, ident) <= 2 by {
                    lemma_update(s, i as int, Some(u), ident);
                    lemma_update(s1, f_slot as int, Some(f), ident);
                }
            }
            return RestartAction::Concurrent(f_slot);
        }
        u.respawn_pending = true;
        self.tasks.set(i, Some(u));
        proof {
            assert forall|ident: u32| #[trigger] instances(self.tasks@, ident) <= 2 by {
                lemma_update(s, i as int, Some(u), ident);
            }
        }
        RestartAction::Deferred
    }

    /// Completes the cleanup of the task in slot `i`, which is unwinding or
    /// whose entry has returned: the slot is freed. When a respawn of its
    /// identity is owed, the debt is cleared and a fresh instance takes the
    /// same slot; the slot is then returned.
    pub fn cleanup_done(&mut self, i: usize) -> (r: Option<usize>)
        requires
            old(self).wf(),
            i < MAX_TASK_NUMBER,
            old(self).tasks@[i as int] is Some,
            old(self).tasks@[i as int]->Some_0.state is Unwinding || old(self).tasks@[i as int]->Some_0.state is Terminated,
        ensures
            final(self).wf(),
            ({
                let s = old(self).tasks@;
                let t = s[i as int]->Some_0;
                let rest = s.update(i as int, None);
                if owed(s, t.identity) {
                    &&& r == Some(i)
                    &&& final(self).tasks@ == rest.map_values(|x: Option<TaskRecord>| settled(x, t.identity)).update(
                        i as int,
                        Some(fresh(t)),
                    )
                } else {
                    &&& r is None
                    &&& final(self).tasks@ == rest
                }
            }),
    {
        let ghost s = self.tasks@;
        let t = match self.tasks[i] {
            Some(x) => x,
            None => return None,
        };
        let ow = self.is_owed(t.identity);
        self.tasks.set(i, None);
        let ghost rest = self.tasks@;
        proof {
            assert forall|ident: u32| #[trigger] instances(rest, ident) <= 2 by {
                lemma_update(s, i as int, None, ident);
            }
        }
        if !ow {
            return None;
        }
        proof {
            lemma_update(s, i as int, None, t.identity);
            assert(instances(s, t.identity) <= 2);
            assert(s[i as int] is Some);
        }
        let mut k: usize = 0;
        while k < self.tasks.len()
            invariant
                self.tasks@.len() == rest.len(),
                rest.len() == MAX_TASK_NUMBER,
                k <= rest.len(),
                i < rest.len(),
                rest[i as int] is None,
                forall|j: int| 0 <= j < k ==> self.tasks@[j] == settled(rest[j], t.identity),
                forall|j: int| k <= j < rest.len() ==> self.tasks@[j] == rest[j],
                forall|ident: u32| instances(self.tasks@, ident) == instances(rest, ident),
                forall|ident: u32| #[trigger] instances(rest, ident) <= 2,
                instances(rest, t.identity) <= 1,
                t.base_priority < TASK_PRIORITY_LEVELS,
                forall|j: int| 0 <= j < rest.len() && #[trigger] rest[j] is Some ==> rest[j]->Some_0.priority < TASK_PRIORITY_LEVELS
                    && rest[j]->Some_0.base_priority < TASK_PRIORITY_LEVELS,
            decreases rest.len() - k,
        {
            match self.tasks[k] {
                Some(x) => {
                    if x.identity == t.identity {
                        let ghost before = self.tasks@;
                        let y = TaskRecord { respawn_pending: false, ..x };
                        self.tasks.set(k, Some(y));
                        proof {
                            assert forall|ident: u32| instances(self.tasks@, ident) == instances(rest, ident) by {
                                lemma_update(before, k as int, Some(y), ident);
                            }
                        }
                    }
                },
                None => {},
            }
            k = k + 1;
        }
        let ghost s2 = self.tasks@;
        proof {
            assert(s2 =~= rest.map_values(|x: Option<TaskRecord>| settled(x, t.identity)));
            assert(instances(s2, t.identity) == instances(rest, t.identity));
            assert(s2[i as int] is None);
        }
        let f = TaskRecord { priority: t.base_priority, state: TaskState::Ready, respawn_pending: false, ..t };
        self.tasks.set(i, Some(f));
        proof {
            assert forall|ident: u32| #[trigger] instances(self.tasks@, ident) <= 2 by {
                lemma_update(s2, i as int, Some(f), ident);
                assert(instances(s2, ident) == instances(rest, ident));
                assert(instances(rest, ident) <= 2);
            }
            assert forall|j: int| 0 <= j < self.tasks@.len() && #[trigger] self.tasks@[j] is Some implies self.tasks@[j]->Some_0.priority
                < TASK_PRIORITY_LEVELS && self.tasks@[j]->Some_0.base_priority < TASK_PRIORITY_LEVELS by {
                if j != i {
                    assert(self.tasks@[j] == settled(rest[j], t.identity));
                    assert(rest[j] is Some);
                }
            }
        }
        Some(i)
    }
}

proof fn lemma_none_instances(s: Seq<Option<TaskRecord>>, ident: u32)
    requires
        forall|j: int| 0 <= j < s.len() ==> #[trigger] s[j] is None,
    ensures
        instances(s, ident) == 0,
    decreases s.len(),
{
    if s.len() > 0 {
        assert forall|j: int| 0 <= j < s.len() - 1 implies #[trigger] s.drop_last()[j] is None by {
            assert(s.drop_last()[j] == s[j]);
        }
        lemma_none_instances(s.drop_last(), ident);
    }
}

/// However the table has been used, it never holds more than the maximum
/// number of tasks, and never more than two instances of one restartable
/// task: the failing one in cleanup and its concurrently restarted successor.
pub proof fn lemma_table_bounds(t: TaskTable, ident: u32)
    requires
        t.wf(),
    ensures
        live(t.tasks@) <= MAX_TASK_NUMBER,
        instances(t.tasks@, ident) <= 2,
{
    lemma_counts(t.tasks@, ident);
}

} // verus!
