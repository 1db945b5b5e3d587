use segkernel::guard::GuardAction;
use segkernel::kernel::Kernel;
use segkernel::mailbox::{Mailbox, MailboxWait};
use segkernel::sched::TaskEvent;
use segkernel::task::{RestartAction, TaskState};

#[test]
fn mailbox_counts_notifications_without_waiter() {
    let mut m = Mailbox::new();
    assert_eq!(m.notify_allow_isr(), None);
    assert_eq!(m.notify_allow_isr(), None);
    assert_eq!(m.count, 2);
    assert_eq!(m.wait(4), MailboxWait::Received);
    assert_eq!(m.wait(4), MailboxWait::Received);
    assert_eq!(m.wait(4), MailboxWait::Blocked);
    assert_eq!(m.wait(5), MailboxWait::Busy);
    assert_eq!(m.notify_allow_isr(), Some(4));
    assert_eq!(m.count, 0);
    assert_eq!(m.waiter, None);
}

fn kernel_with_blocked_waiter() -> Kernel {
    let mut k = Kernel::new(0x2_0000, 3).unwrap();
    let t = k.table.spawn(3, 3, 8, false).unwrap();
    assert!(k.table.apply_event(t, TaskEvent::Dispatch));
    assert_eq!(k.mailbox.wait(t), MailboxWait::Blocked);
    assert!(k.table.apply_event(t, TaskEvent::Block));
    k
}

#[test]
fn timer_interrupt_wakes_the_blocked_task_only() {
    let mut k = kernel_with_blocked_waiter();
    k.alloc.grow(0, 100, false).unwrap();
    let free = k.alloc.free_bytes;
    assert!(k.timer_interrupt());
    assert_eq!(k.table.tasks[0].unwrap().state, TaskState::Ready);
    assert_eq!(k.mailbox.count, 0);
    assert_eq!(k.mailbox.waiter, None);
    assert_eq!(k.alloc.free_bytes, free);
    assert_eq!(k.table.len(), 1);
    assert_eq!(k.throttle.in_work, 0);
    assert!(k.timer_interrupt());
    assert_eq!(k.mailbox.count, 1);
}

#[test]
fn masked_timer_events_are_served_on_release() {
    let mut k = kernel_with_blocked_waiter();
    assert!(k.timer_lock.acquire());
    assert!(!k.timer_interrupt());
    assert!(!k.timer_interrupt());
    assert!(!k.timer_interrupt());
    assert_eq!(k.table.tasks[0].unwrap().state, TaskState::Blocked);
    assert_eq!(k.release_timer_lock(), 3);
    assert!(!k.timer_lock.is_masked());
    assert_eq!(k.table.tasks[0].unwrap().state, TaskState::Ready);
    assert_eq!(k.mailbox.count, 2);
}

#[test]
fn panicking_handler_releases_lock_and_leaves_tasks() {
    let mut k = kernel_with_blocked_waiter();
    assert!(k.timer_lock.acquire());
    assert!(!k.timer_interrupt());
    assert_eq!(k.handler_panicked(), 1);
    assert!(!k.timer_lock.is_masked());
    assert_eq!(k.table.tasks[0].unwrap().state, TaskState::Blocked);
    assert_eq!(k.mailbox.waiter, Some(0));
    assert_eq!(k.handler_panicked(), 0);
}

#[test]
fn kernel_rejects_heap_beyond_link_span() {
    assert!(Kernel::new(0x4_0001, 3).is_none());
}

#[test]
fn kernel_cleanup_reclaims_the_slot() {
    let mut k = Kernel::new(0x2_0000, 3).unwrap();
    let t = k.table.spawn(9, 9, 8, true).unwrap();
    k.alloc.grow(t, 100, false).unwrap();
    k.alloc.grow(t, 200, false).unwrap();
    assert!(k.caches[t].record_split(5, 1) == false);
    assert!(k.table.apply_event(t, TaskEvent::Dispatch));
    assert_eq!(k.table.on_failure(t), segkernel::task::RestartAction::Concurrent(1));
    assert_eq!(k.cleanup(t), None);
    assert_eq!(k.alloc.used(t), 0);
    assert_eq!(k.alloc.free_bytes, 0x2_0000);
    assert!(k.caches[t].entries.is_empty());
    assert!(k.table.tasks[t].is_none());
    assert_eq!(k.table.tasks[1].unwrap().state, TaskState::Ready);
}

#[test]
fn overflowing_restartable_task_is_diverted_and_respawned_once() {
    let mut k = Kernel::new(0x2_0000, 3).unwrap();
    let t = k.table.spawn(5, 5, 7, true).unwrap();
    assert!(k.alloc.set_limit(t, Some(4096)));
    assert!(k.table.apply_event(t, TaskEvent::Dispatch));
    let mut frames = 0;
    let outcome = loop {
        let (action, restart) = k.grow_stack(t, 0x400, 128);
        assert!(k.alloc.used(t) <= 4096);
        match action {
            GuardAction::Proceed => frames += 1,
            other => break (other, restart),
        }
    };
    assert_eq!(frames, 4096 / 192);
    assert_eq!(outcome, (GuardAction::Divert, Some(RestartAction::Concurrent(1))));
    assert_eq!(k.table.tasks[t].unwrap().state, TaskState::Unwinding);
    assert_eq!(k.cleanup(t), None);
    assert_eq!(k.alloc.free_bytes, 0x2_0000);
    let live: Vec<_> = k.table.tasks.iter().flatten().filter(|r| r.identity == 5).collect();
    assert_eq!(live.len(), 1);
    assert_eq!(live[0].state, TaskState::Ready);
}

#[test]
fn overflow_inside_release_handler_is_deferred() {
    let mut k = Kernel::new(0x2_0000, 3).unwrap();
    let t = k.table.spawn(5, 5, 7, false).unwrap();
    assert!(k.alloc.set_limit(t, Some(200)));
    assert!(k.table.apply_event(t, TaskEvent::Dispatch));
    assert_eq!(k.grow_stack(t, 1, 100), (GuardAction::Proceed, None));
    k.guards[t].enter_release_handler();
    assert_eq!(k.grow_stack(t, 1, 100), (GuardAction::Defer, None));
    assert_eq!(k.table.tasks[t].unwrap().state, TaskState::Running);
    assert!(k.guards[t].exit_release_handler());
}
