//! Core of a small embedded kernel: segmented-stack accounting, hot-split
//! detection, the stack-overflow guard, interrupt priority layering and
//! interrupt-masking locks, the interrupt-safe mailbox, the task table with
//! its restart rules, priority scheduling, the breathing-task throttle, and
//! the kernel state that joins them with the steps interrupt handlers take.

pub mod config;
pub mod priority;
pub mod stacklet;
pub mod hot_split;
pub mod segstack;
pub mod task;
pub mod sched;
pub mod guard;
pub mod breathing;
pub mod irq_lock;
pub mod mailbox;
pub mod kernel;
