//! Kernel configuration parameters.

use vstd::prelude::*;

verus! {

/// Frequency of the SysTick clock; the tick is derived from it at 1 ms.
pub const SYSTICK_FREQUENCY_HZ: u32 = 168_000_000;

/// Whether stacks may be extended dynamically.
pub const ALLOW_DYNAMIC_STACK: bool = true;

/// Bytes added to every stacklet request on top of what the prologue asks for.
pub const STACKLET_ADDITION_ALLOC_SIZE: usize = 64;

/// Number of call sites the hot-split cache of one task can track.
pub const HOT_SPLIT_PREVENTION_CACHE_SIZE: usize = 4;

/// Allocations from one site within one stacklet's lifetime that make it hot.
pub const HOT_SPLIT_DETECTION_THRESHOLD: u32 = 10;

/// Extra bytes granted to a request that comes from a hot site.
pub const HOT_SPLIT_EXTRA_ALLOC_SIZE: usize = 512;

/// Initial stack size of the main task.
pub const MAIN_TASK_INITIAL_STACK_SIZE: usize = 0;

/// End address of the heap region.
pub const RAM_END_ADDR: u32 = 0x2002_0000;

/// Base of the 16-bit chunk links; with 4-byte alignment they span 2^18 bytes.
pub const MEM_CHUNK_LINK_OFFSET: u32 = 0x2000_0000;

/// Largest span of memory that 16-bit links over 4-byte units can address.
pub const MEM_CHUNK_LINK_SPAN: usize = 0x4_0000;

/// Numerical step between two adjacent interrupt priority levels.
pub const IRQ_PRIORITY_GRANULARITY: u8 = 32;

/// Most urgent interrupt priority; the smallest value.
pub const IRQ_MAX_PRIORITY: u8 = 1 * IRQ_PRIORITY_GRANULARITY;

pub const IRQ_HIGH_PRIORITY: u8 = 2 * IRQ_PRIORITY_GRANULARITY;

pub const IRQ_NORMAL_PRIORITY: u8 = 3 * IRQ_PRIORITY_GRANULARITY;

pub const IRQ_LOW_PRIORITY: u8 = 4 * IRQ_PRIORITY_GRANULARITY;

/// Least urgent interrupt priority; the largest value.
pub const IRQ_MIN_PRIORITY: u8 = 5 * IRQ_PRIORITY_GRANULARITY;

/// BASEPRI value while interrupts are enabled: nothing is masked.
pub const IRQ_ENABLE_BASEPRI_PRIORITY: u8 = 0 * IRQ_PRIORITY_GRANULARITY;

/// BASEPRI value while interrupts are globally masked; it masks every
/// interrupt priority level.
pub const IRQ_DISABLE_BASEPRI_PRIORITY: u8 = 1 * IRQ_PRIORITY_GRANULARITY;

/// SVC priority in the normal state, below all interrupts so they can nest
/// above an active SVC.
pub const SVC_NORMAL_PRIORITY: u8 = 6 * IRQ_PRIORITY_GRANULARITY;

/// SVC priority while interrupts are globally masked, above BASEPRI so that
/// stack growth stays serviceable.
pub const SVC_RAISED_PRIORITY: u8 = 0 * IRQ_PRIORITY_GRANULARITY;

/// PendSV performs context switches and sits below SVC so that an SVC can
/// tail-chain into it.
pub const PENDSV_PRIORITY: u8 = 7 * IRQ_PRIORITY_GRANULARITY;

/// Priority of the SysTick interrupt.
pub const SYSTICK_PRIORITY: u8 = IRQ_LOW_PRIORITY;

/// Maximum number of live tasks. A power of two.
pub const MAX_TASK_NUMBER: usize = 16;

/// Whether a ready higher-priority task preempts a running lower-priority one.
pub const ALLOW_TASK_PREEMPTION: bool = true;

/// Number of breathing tasks that may be inside `work` at the same time.
pub const BREATHING_CONCURRENCY: usize = 3;

/// Number of task priority levels; allowed priorities are `0..TASK_PRIORITY_LEVELS`.
pub const TASK_PRIORITY_LEVELS: u8 = 16;

/// Priority of the idle task, the lowest one.
pub const IDLE_TASK_PRIORITY: u8 = TASK_PRIORITY_LEVELS - 1;

/// Priority of the main task, the highest one.
pub const MAIN_TASK_PRIORITY: u8 = 0;

/// Priority of a task built without an explicit one.
pub const DEFAULT_TASK_PRIORITY: u8 = 8;

/// Priority that a terminated task is lowered to while it is cleaned up.
pub const UNWIND_PRIORITY: u8 = TASK_PRIORITY_LEVELS - 3;

/// Diagnostic identifier of the idle task.
pub const IDLE_TASK_ID: u8 = 0;

/// Diagnostic identifier of the main task.
pub const MAIN_TASK_ID: u8 = 1;

/// Diagnostic identifier of a task built without one.
pub const DEFAULT_TASK_ID: u8 = 255;

} // verus!
