//! The saved kernel-side execution state of a task that is not running.
use vstd::prelude::*;

verus! {

/// Registers that the context-switch primitive saves and restores: the
/// return address, the stack pointer and the twelve callee-saved registers.
#[derive(Clone, Copy, Debug)]
pub struct TaskContext {
    /// Where execution resumes after the switch.
    pub ra: usize,
    /// Kernel stack pointer.
    pub sp: usize,
    /// Callee-saved registers s0..s11.
    pub s: [usize; 12],
}

impl TaskContext {
    /// Whether every callee-saved register slot is zero.
    pub open spec fn callee_saved_zero(&self) -> bool {
        forall|i: int| 0 <= i < 12 ==> self.s@[i] == 0
    }

    /// An empty context, the target of the very first switch.
    pub fn zero_init() -> (r: Self)
        ensures
            r.ra == 0,
            r.sp == 0,
            r.callee_saved_zero(),
    {
        Self { ra: 0, sp: 0, s: [0usize; 12] }
    }

    /// A context that, once switched to, enters the trap-return path at
    /// `restore_entry` on the kernel stack whose top is `kstack_ptr`.
    pub fn goto_restore(restore_entry: usize, kstack_ptr: usize) -> (r: Self)
        ensures
            r.ra == restore_entry,
            r.sp == kstack_ptr,
            r.callee_saved_zero(),
    {
        Self { ra: restore_entry, sp: kstack_ptr, s: [0usize; 12] }
    }
}

} // verus!
