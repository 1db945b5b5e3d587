use segkernel::breathing::BreathingThrottle;
use segkernel::config::{BREATHING_CONCURRENCY, MAX_TASK_NUMBER, UNWIND_PRIORITY};
use segkernel::irq_lock::IrqMaskLock;
use segkernel::priority::{is_masked, IrqLevel, IrqPriorities};
use segkernel::sched::{next_state, ReadyEntry, ReadyQueue, Scheduler, TaskEvent};
use segkernel::task::{RestartAction, SpawnError, TaskState, TaskTable};

fn instances(t: &TaskTable, ident: u32) -> usize {
    t.tasks.iter().flatten().filter(|r| r.identity == ident).count()
}

#[test]
fn standard_priority_layout() {
    let c = IrqPriorities::from_granularity(32).unwrap();
    assert_eq!(c.level(IrqLevel::MaskDisable), 32);
    assert_eq!(c.level(IrqLevel::IrqMin), 160);
    assert_eq!(c.level(IrqLevel::SvcNormal), 192);
    assert_eq!(c.level(IrqLevel::PendSv), 224);
    assert_eq!(c.level(IrqLevel::SysTick), 128);
    assert!(c.validate());
    assert_eq!(IrqPriorities::configured(), c);
    assert!(IrqPriorities::from_granularity(0).is_none());
    assert!(IrqPriorities::from_granularity(64).is_none());
    assert!(IrqPriorities::from_granularity(36).is_none());
    assert!(IrqPriorities::from_granularity(24).is_none());
    assert_eq!(IrqPriorities::from_granularity(16).unwrap().pendsv, 112);
    assert_eq!(IrqPriorities::from_granularity(1).unwrap().svc_normal, 6);
}

#[test]
fn svc_stays_serviceable_while_masked() {
    let c = IrqPriorities::configured();
    let bp = c.basepri(true);
    assert!(!is_masked(bp, c.svc_priority(true)));
    assert!(is_masked(bp, c.svc_priority(false)));
    assert!(is_masked(bp, c.level(IrqLevel::IrqMax)));
    assert!(is_masked(bp, c.level(IrqLevel::IrqMin)));
    assert!(!is_masked(c.basepri(false), c.level(IrqLevel::IrqMax)));
    let mut bad = c;
    bad.pendsv = bad.svc_normal;
    assert!(!bad.validate());
}

#[test]
fn spawn_errors() {
    let mut t = TaskTable::new();
    assert_eq!(t.spawn(1, 1, 16, false), Err(SpawnError::BadPriority));
    assert_eq!(t.spawn(1, 1, 8, false), Ok(0));
    assert_eq!(t.spawn(1, 1, 8, false), Err(SpawnError::IdentityInUse));
    for i in 1..MAX_TASK_NUMBER as u32 {
        assert_eq!(t.spawn(255, 100 + i, 8, false), Ok(i as usize));
    }
    assert_eq!(t.spawn(2, 2, 8, false), Err(SpawnError::TableFull));
}

#[test]
fn non_restartable_failure_is_cleaned_up() {
    let mut t = TaskTable::new();
    t.spawn(3, 3, 5, false).unwrap();
    assert_eq!(t.on_failure(0), RestartAction::NoRestart);
    assert_eq!(t.tasks[0].unwrap().state, TaskState::Unwinding);
    assert_eq!(t.tasks[0].unwrap().priority, UNWIND_PRIORITY);
    assert_eq!(t.cleanup_done(0), None);
    assert_eq!(t.len(), 0);
}

#[test]
fn overflowing_restartable_task_respawns_once() {
    let mut t = TaskTable::new();
    t.spawn(7, 7, 7, true).unwrap();
    assert_eq!(t.on_failure(0), RestartAction::Concurrent(1));
    assert_eq!(t.tasks[1].unwrap().state, TaskState::Ready);
    assert_eq!(t.tasks[1].unwrap().priority, 7);
    assert_eq!(instances(&t, 7), 2);
    assert_eq!(t.cleanup_done(0), None);
    assert_eq!(instances(&t, 7), 1);
}

#[test]
fn second_failure_defers_until_instance_count_drops() {
    let mut t = TaskTable::new();
    t.spawn(7, 7, 7, true).unwrap();
    assert_eq!(t.on_failure(0), RestartAction::Concurrent(1));
    assert_eq!(t.on_failure(1), RestartAction::Deferred);
    assert_eq!(instances(&t, 7), 2);
    assert_eq!(t.cleanup_done(0), Some(0));
    assert_eq!(instances(&t, 7), 2);
    assert_eq!(t.tasks[0].unwrap().state, TaskState::Ready);
    assert!(!t.tasks[1].unwrap().respawn_pending);
    assert_eq!(t.cleanup_done(1), None);
    assert_eq!(instances(&t, 7), 1);
    assert!(t.tasks[1].is_none());
}

#[test]
fn full_table_restarts_sequentially() {
    let mut t = TaskTable::new();
    t.spawn(7, 7, 7, true).unwrap();
    for i in 1..MAX_TASK_NUMBER as u32 {
        t.spawn(255, 100 + i, 9, false).unwrap();
    }
    assert_eq!(t.on_failure(0), RestartAction::Deferred);
    assert_eq!(t.len(), MAX_TASK_NUMBER);
    assert_eq!(t.cleanup_done(0), Some(0));
    assert_eq!(t.len(), MAX_TASK_NUMBER);
    assert_eq!(t.tasks[0].unwrap().identity, 7);
    assert_eq!(t.tasks[0].unwrap().state, TaskState::Ready);
}

#[test]
fn task_failing_every_tenth_iteration_keeps_running() {
    let mut t = TaskTable::new();
    t.spawn(2, 42, 8, true).unwrap();
    let mut toggles = 0;
    for _ in 0..50 {
        let live = t
            .tasks
            .iter()
            .position(|r| matches!(r, Some(x) if x.identity == 42 && x.state != TaskState::Unwinding))
            .unwrap();
        for _ in 0..10 {
            toggles += 1;
        }
        let action = t.on_failure(live);
        assert!(matches!(action, RestartAction::Concurrent(_)));
        assert!(instances(&t, 42) <= 2);
        let old = t
            .tasks
            .iter()
            .position(|r| matches!(r, Some(x) if x.state == TaskState::Unwinding))
            .unwrap();
        t.cleanup_done(old);
        assert_eq!(instances(&t, 42), 1);
        assert!(t.len() <= MAX_TASK_NUMBER);
    }
    assert_eq!(toggles, 500);
    assert_eq!(t.len(), 1);
}

#[test]
fn task_state_machine() {
    assert_eq!(next_state(TaskState::Ready, TaskEvent::Dispatch), Some(TaskState::Running));
    assert_eq!(next_state(TaskState::Running, TaskEvent::Preempt), Some(TaskState::Ready));
    assert_eq!(next_state(TaskState::Running, TaskEvent::Block), Some(TaskState::Blocked));
    assert_eq!(next_state(TaskState::Blocked, TaskEvent::Wake), Some(TaskState::Ready));
    assert_eq!(next_state(TaskState::Running, TaskEvent::Fail), Some(TaskState::Unwinding));
    assert_eq!(next_state(TaskState::Unwinding, TaskEvent::CleanupDone), Some(TaskState::Terminated));
    assert_eq!(next_state(TaskState::Blocked, TaskEvent::Fail), None);
    assert_eq!(next_state(TaskState::Terminated, TaskEvent::Dispatch), None);
}

#[test]
fn ready_queue_runs_most_urgent_first_fifo_within_level() {
    let mut q = ReadyQueue::new();
    q.enqueue(10, 8);
    q.enqueue(11, 3);
    q.enqueue(12, 8);
    q.enqueue(13, 3);
    q.enqueue(14, 15);
    assert!(q.should_preempt(8));
    assert!(!q.should_preempt(3));
    assert_eq!(q.pick(), Some(11));
    assert_eq!(q.pick(), Some(13));
    assert_eq!(q.pick(), Some(10));
    assert_eq!(q.pick(), Some(12));
    assert_eq!(q.pick(), Some(14));
    assert_eq!(q.pick(), None);
}

#[test]
fn at_most_three_breathing_tasks_work_at_once() {
    let mut g = BreathingThrottle::new(BREATHING_CONCURRENCY);
    let mut working: Vec<usize> = Vec::new();
    for task in 0..10 {
        if g.try_enter(task) {
            working.push(task);
        }
    }
    assert_eq!(working, vec![0, 1, 2]);
    let mut finished = 0;
    let mut max_seen = working.len();
    while let Some(done) = working.first().copied() {
        working.remove(0);
        finished += 1;
        if let Some(next) = g.leave() {
            working.push(next);
        }
        assert_eq!(working.len(), g.in_work);
        max_seen = max_seen.max(working.len());
        let _ = done;
    }
    assert_eq!(finished, 10);
    assert_eq!(max_seen, 3);
    assert_eq!(g.in_work, 0);
}

#[test]
fn masked_interrupt_runs_on_release_without_losing_events() {
    let mut l = IrqMaskLock::new();
    assert!(l.raise());
    assert!(l.acquire());
    assert!(l.is_masked());
    assert!(!l.acquire());
    assert!(!l.raise());
    assert!(!l.raise());
    assert_eq!(l.release(), 2);
    assert!(!l.is_masked());
    assert!(l.raise());
}

#[test]
fn events_follow_the_state_machine() {
    let mut t = TaskTable::new();
    t.spawn(4, 4, 6, false).unwrap();
    assert!(!t.apply_event(0, TaskEvent::Wake));
    assert!(t.apply_event(0, TaskEvent::Dispatch));
    assert!(t.apply_event(0, TaskEvent::Block));
    assert_eq!(t.tasks[0].unwrap().state, TaskState::Blocked);
    assert!(t.apply_event(0, TaskEvent::Wake));
    assert!(t.apply_event(0, TaskEvent::Dispatch));
    assert!(!t.apply_event(0, TaskEvent::Fail));
    assert_eq!(t.tasks[0].unwrap().state, TaskState::Running);
    assert!(t.apply_event(0, TaskEvent::Return));
    assert_eq!(t.tasks[0].unwrap().state, TaskState::Terminated);
    assert_eq!(t.cleanup_done(0), None);
    assert_eq!(t.len(), 0);
}

#[test]
fn most_urgent_ready_task_runs() {
    let mut s = Scheduler::new();
    assert!(s.make_ready(1, 8));
    assert_eq!(s.context_switch(false), Some(1));
    assert!(!s.make_ready(2, 8));
    assert!(s.make_ready(3, 2));
    assert_eq!(s.context_switch(true), Some(3));
    assert_eq!(s.running, Some(ReadyEntry { task: 3, priority: 2 }));
    assert_eq!(s.stop_running(), Some(3));
    assert_eq!(s.context_switch(true), Some(2));
    assert_eq!(s.context_switch(true), Some(1));
    assert_eq!(s.context_switch(true), Some(2));
    assert_eq!(s.stop_running(), Some(2));
    assert_eq!(s.context_switch(false), Some(1));
    assert_eq!(s.stop_running(), Some(1));
    assert_eq!(s.context_switch(true), None);
    assert_eq!(s.running, None);
}
