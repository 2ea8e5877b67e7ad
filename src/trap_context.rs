//! The saved user-mode register frame of a task.
use vstd::prelude::*;

verus! {

/// Index of the stack-pointer register among the general registers.
pub const REG_SP: usize = 2;

/// Index of the first argument register, which also carries a syscall's result.
pub const REG_A0: usize = 10;

/// Index of the register that carries the syscall id.
pub const REG_A7: usize = 17;

/// Bit of the status word that holds the previous privilege (set: supervisor).
pub const SSTATUS_SPP_BIT: usize = 0x100;

/// Length of one trapping instruction (`ecall`).
pub const ECALL_LEN: usize = 4;

/// User registers saved on a trap, and what the trap entry needs to get back
/// into the kernel.
#[derive(Clone, Copy, Debug)]
pub struct TrapContext {
    /// General registers x0..x31.
    pub x: [usize; 32],
    /// Status word to restore on return to user mode.
    pub sstatus: usize,
    /// Program counter to resume at.
    pub sepc: usize,
    /// Page-table token of the kernel address space.
    pub kernel_satp: usize,
    /// Top of the task's kernel stack.
    pub kernel_sp: usize,
    /// Address of the kernel's trap handler.
    pub trap_handler: usize,
}

/// Whether `cx` is the frame an application starts from: all registers zero
/// but the stack pointer, execution at `entry`, and a status word that returns
/// to user mode (`sstatus` with its previous-privilege bit cleared).
pub open spec fn is_app_init_context(
    cx: TrapContext,
    entry: usize,
    sp: usize,
    sstatus: usize,
    kernel_satp: usize,
    kernel_sp: usize,
    trap_handler: usize,
) -> bool {
    &&& cx.x@ == Seq::new(32, |i: int| if i == REG_SP { sp } else { 0usize })
    &&& cx.sstatus == sstatus & !SSTATUS_SPP_BIT
    &&& cx.sepc == entry
    &&& cx.kernel_satp == kernel_satp
    &&& cx.kernel_sp == kernel_sp
    &&& cx.trap_handler == trap_handler
}

impl TrapContext {
    /// Sets the user stack pointer.
    pub fn set_sp(&mut self, sp: usize)
        ensures
            final(self).x@ == old(self).x@.update(REG_SP as int, sp),
            final(self).sstatus == old(self).sstatus,
            final(self).sepc == old(self).sepc,
            final(self).kernel_satp == old(self).kernel_satp,
            final(self).kernel_sp == old(self).kernel_sp,
            final(self).trap_handler == old(self).trap_handler,
    {
        self.x[REG_SP] = sp;
    }

    /// The frame an application starts from.
    pub fn app_init_context(
        entry: usize,
        sp: usize,
        sstatus: usize,
        kernel_satp: usize,
        kernel_sp: usize,
        trap_handler: usize,
    ) -> (r: Self)
        ensures
            is_app_init_context(r, entry, sp, sstatus, kernel_satp, kernel_sp, trap_handler),
    {
        let mut cx = Self {
            x: [0usize; 32],
            sstatus: sstatus & !SSTATUS_SPP_BIT,
            sepc: entry,
            kernel_satp,
            kernel_sp,
            trap_handler,
        };
        cx.set_sp(sp);
        assert(cx.x@ =~= Seq::new(32, |i: int| if i == REG_SP { sp } else { 0usize }));
        cx
    }
}

} // verus!
