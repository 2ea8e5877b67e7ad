//! Kernel-wide constants.
use vstd::prelude::*;

verus! {

/// Size of a user application's stack.
pub const USER_STACK_SIZE: usize = 0x2000;

/// Size of each task's kernel stack.
pub const KERNEL_STACK_SIZE: usize = 0x2000;

/// Size of a page: 4 KiB.
pub const PAGE_SIZE: usize = 0x1000;

/// Number of bits of the in-page offset.
pub const PAGE_SIZE_BITS: usize = 0xc;

/// Virtual address of the trampoline page, the highest page of every address space.
pub const TRAMPOLINE: usize = usize::MAX - PAGE_SIZE + 1;

/// Virtual address of the page that holds a task's saved user registers.
pub const TRAP_CONTEXT_BASE: usize = TRAMPOLINE - PAGE_SIZE;

/// Number of system-call ids whose invocations are counted per task.
pub const MAX_SYSCALL_NUM: usize = 500;

/// Timer ticks per second.
pub const CLOCK_FREQ: usize = 12500000;

/// Stride scale: a common multiple of the supported priorities, so that
/// `BIG_STRIDE / priority` rounds as little as possible.
pub const BIG_STRIDE: usize = 48;

/// Priority every task starts with.
pub const DEFAULT_PRIORITY: usize = 16;

/// Smallest priority a task may be given.
pub const MIN_PRIORITY: usize = 2;

/// Size of the pid pool: the task table never holds more blocks than this.
pub const MAX_TASKS: usize = 0x1000;

/// Pid of the init task, which adopts orphans and never exits.
pub const INIT_PID: usize = 0;

/// Exit code given to a task killed by a memory access fault.
pub const FAULT_EXIT_CODE: i32 = -2;

/// Exit code given to a task killed by an illegal instruction.
pub const ILLEGAL_INSTRUCTION_EXIT_CODE: i32 = -3;

} // verus!
