//! The task control block.
use vstd::prelude::*;
use crate::context::TaskContext;
use crate::memory::MemorySet;
use crate::trap_context::TrapContext;

verus! {

/// Where a task is in its life cycle.
#[derive(Clone, Copy, Debug, PartialEq, Eq, Structural)]
pub enum TaskStatus {
    /// Not yet set up.
    UnInit,
    /// Waiting in the ready queue.
    Ready,
    /// On the processor.
    Running,
    /// Exited; its exit code waits for its parent.
    Zombie,
}

/// Per-task state: identity, scheduling counters, saved registers, address
/// space and place in the process tree.
pub struct TaskControlBlock {
    /// Process id; also the task's slot in the task table.
    pub pid: usize,
    /// Top of the task's kernel stack.
    pub kernel_stack_top: usize,
    pub task_status: TaskStatus,
    /// Kernel-side registers, valid while the task is not running.
    pub task_cx: TaskContext,
    /// User registers, saved on every trap.
    pub trap_cx: TrapContext,
    /// The task's own address space.
    pub memory_set: MemorySet,
    /// Pid of the parent; a relation only, it keeps nothing alive.
    pub parent: Option<usize>,
    /// Pids of the children, which the task owns until it reaps them.
    pub children: Vec<usize>,
    pub exit_code: i32,
    pub task_priority: usize,
    /// Scheduling position; the lowest stride runs next.
    pub task_stride: u64,
    /// Invocation count of each system-call id.
    pub syscall_times: Vec<u32>,
    /// When the task was first scheduled, in ms; `None` until then.
    pub start_time: Option<usize>,
    /// Lowest address of the heap.
    pub heap_bottom: usize,
    /// Current end of the heap.
    pub program_brk: usize,
}

/// What the loader hands over for a new program image: its address space,
/// entry point and initial user stack pointer (where the heap also begins).
pub struct ProgramImage {
    pub memory_set: MemorySet,
    pub entry: usize,
    pub user_sp: usize,
}

} // verus!
