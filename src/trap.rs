//! Classification of trap causes.
use vstd::prelude::*;
use riscv::register::scause::{Exception, Interrupt};
use crate::config::{FAULT_EXIT_CODE, ILLEGAL_INSTRUCTION_EXIT_CODE, INIT_PID};
use crate::kernel::{exit_step, running_block_replaced, suspend_step, Kernel};
use crate::task::TaskControlBlock;
use crate::trap_context::{TrapContext, ECALL_LEN, REG_A0, REG_A7};

verus! {

/// Highest bit of the cause register: set for interrupts, clear for exceptions.
pub const INTERRUPT_BIT: usize = usize::MAX - usize::MAX / 2;

/// Synchronous trap causes, one per exception code the hardware defines.
#[derive(Clone, Copy, Debug, PartialEq, Eq, Structural)]
pub enum ExceptionKind {
    InstructionMisaligned,
    InstructionFault,
    IllegalInstruction,
    Breakpoint,
    LoadFault,
    StoreMisaligned,
    StoreFault,
    UserEnvCall,
    InstructionPageFault,
    LoadPageFault,
    StorePageFault,
    Unknown,
}

/// Asynchronous trap causes, one per interrupt code the hardware defines.
#[derive(Clone, Copy, Debug, PartialEq, Eq, Structural)]
pub enum InterruptKind {
    UserSoft,
    SupervisorSoft,
    UserTimer,
    SupervisorTimer,
    UserExternal,
    SupervisorExternal,
    Unknown,
}

/// A decoded trap cause.
#[derive(Clone, Copy, Debug, PartialEq, Eq, Structural)]
pub enum TrapCause {
    Interrupt(InterruptKind),
    Exception(ExceptionKind),
}

/// The exception that an exception code stands for.
pub open spec fn exception_of(code: usize) -> ExceptionKind {
    if code == 0 { ExceptionKind::InstructionMisaligned }
    else if code == 1 { ExceptionKind::InstructionFault }
    else if code == 2 { ExceptionKind::IllegalInstruction }
    else if code == 3 { ExceptionKind::Breakpoint }
    else if code == 5 { ExceptionKind::LoadFault }
    else if code == 6 { ExceptionKind::StoreMisaligned }
    else if code == 7 { ExceptionKind::StoreFault }
    else if code == 8 { ExceptionKind::UserEnvCall }
    else if code == 12 { ExceptionKind::InstructionPageFault }
    else if code == 13 { ExceptionKind::LoadPageFault }
    else if code == 15 { ExceptionKind::StorePageFault }
    else { ExceptionKind::Unknown }
}

/// The interrupt that an interrupt code stands for.
pub open spec fn interrupt_of(code: usize) -> InterruptKind {
    if code == 0 { InterruptKind::UserSoft }
    else if code == 1 { InterruptKind::SupervisorSoft }
    else if code == 4 { InterruptKind::UserTimer }
    else if code == 5 { InterruptKind::SupervisorTimer }
    else if code == 8 { InterruptKind::UserExternal }
    else if code == 9 { InterruptKind::SupervisorExternal }
    else { InterruptKind::Unknown }
}

/// The cause that a raw cause-register value stands for.
pub open spec fn cause_of(bits: usize) -> TrapCause {
    if bits >= INTERRUPT_BIT {
        TrapCause::Interrupt(interrupt_of((bits - INTERRUPT_BIT) as usize))
    } else {
        TrapCause::Exception(exception_of(bits))
    }
}

/// Relies on riscv's `scause::Exception::from`, which maps each exception
/// code to its variant and every other code to `Unknown`.
#[verifier::external_body]
fn decode_exception(code: usize) -> (r: ExceptionKind)
    ensures
        r == exception_of(code),
{
    match Exception::from(code) {
        Exception::InstructionMisaligned => ExceptionKind::InstructionMisaligned,
        Exception::InstructionFault => ExceptionKind::InstructionFault,
        Exception::IllegalInstruction => ExceptionKind::IllegalInstruction,
        Exception::Breakpoint => ExceptionKind::Breakpoint,
        Exception::LoadFault => ExceptionKind::LoadFault,
        Exception::StoreMisaligned => ExceptionKind::StoreMisaligned,
        Exception::StoreFault => ExceptionKind::StoreFault,
        Exception::UserEnvCall => ExceptionKind::UserEnvCall,
        Exception::InstructionPageFault => ExceptionKind::InstructionPageFault,
        Exception::LoadPageFault => ExceptionKind::LoadPageFault,
        Exception::StorePageFault => ExceptionKind::StorePageFault,
        Exception::Unknown => ExceptionKind::Unknown,
    }
}

/// Relies on riscv's `scause::Interrupt::from`, which maps each interrupt
/// code to its variant and every other code to `Unknown`.
#[verifier::external_body]
fn decode_interrupt(code: usize) -> (r: InterruptKind)
    ensures
        r == interrupt_of(code),
{
    match Interrupt::from(code) {
        Interrupt::UserSoft => InterruptKind::UserSoft,
        Interrupt::SupervisorSoft => InterruptKind::SupervisorSoft,
        Interrupt::UserTimer => InterruptKind::UserTimer,
        Interrupt::SupervisorTimer => InterruptKind::SupervisorTimer,
        Interrupt::UserExternal => InterruptKind::UserExternal,
        Interrupt::SupervisorExternal => InterruptKind::SupervisorExternal,
        Interrupt::Unknown => InterruptKind::Unknown,
    }
}

/// Decodes a raw cause-register value.
pub fn decode_cause(bits: usize) -> (r: TrapCause)
    ensures
        r == cause_of(bits),
{
    if bits >= INTERRUPT_BIT {
        TrapCause::Interrupt(decode_interrupt(bits - INTERRUPT_BIT))
    } else {
        TrapCause::Exception(decode_exception(bits))
    }
}

/// What the kernel does about a trap from user mode.
#[derive(Clone, Copy, Debug, PartialEq, Eq, Structural)]
pub enum TrapAction {
    /// Serve the system call the task asked for.
    Syscall,
    /// Terminate the task through the exit path with this code.
    Kill(i32),
    /// The quantum ran out: re-arm the timer and suspend the task.
    Preempt,
    /// A cause the kernel does not handle: a kernel bug, fatal.
    Unsupported,
}

/// The action that the dispatch table gives for a cause.
pub open spec fn action_of(c: TrapCause) -> TrapAction {
    match c {
        TrapCause::Exception(ExceptionKind::UserEnvCall) => TrapAction::Syscall,
        TrapCause::Exception(ExceptionKind::StoreFault) => TrapAction::Kill(FAULT_EXIT_CODE),
        TrapCause::Exception(ExceptionKind::StorePageFault) => TrapAction::Kill(FAULT_EXIT_CODE),
        TrapCause::Exception(ExceptionKind::LoadFault) => TrapAction::Kill(FAULT_EXIT_CODE),
        TrapCause::Exception(ExceptionKind::LoadPageFault) => TrapAction::Kill(FAULT_EXIT_CODE),
        TrapCause::Exception(ExceptionKind::IllegalInstruction) => TrapAction::Kill(ILLEGAL_INSTRUCTION_EXIT_CODE),
        TrapCause::Interrupt(InterruptKind::SupervisorTimer) => TrapAction::Preempt,
        _ => TrapAction::Unsupported,
    }
}

/// Decides what to do about the trap whose raw cause is `scause_bits`.
pub fn classify_trap(scause_bits: usize) -> (r: TrapAction)
    ensures
        r == action_of(cause_of(scause_bits)),
{
    match decode_cause(scause_bits) {
        TrapCause::Exception(ExceptionKind::UserEnvCall) => TrapAction::Syscall,
        TrapCause::Exception(ExceptionKind::StoreFault)
        | TrapCause::Exception(ExceptionKind::StorePageFault)
        | TrapCause::Exception(ExceptionKind::LoadFault)
        | TrapCause::Exception(ExceptionKind::LoadPageFault) => TrapAction::Kill(FAULT_EXIT_CODE),
        TrapCause::Exception(ExceptionKind::IllegalInstruction) => TrapAction::Kill(ILLEGAL_INSTRUCTION_EXIT_CODE),
        TrapCause::Interrupt(InterruptKind::SupervisorTimer) => TrapAction::Preempt,
        _ => TrapAction::Unsupported,
    }
}

/// What the trap handler did about a trap from user mode.
#[derive(Clone, Copy, Debug)]
pub enum TrapOutcome {
    /// A system call to serve, with its id and argument registers; the saved
    /// program counter already points past the call.
    Syscall { id: usize, args: [usize; 3] },
    /// The running task was terminated with this exit code.
    Killed(i32),
    /// The quantum ran out; the running task is queued again.
    Preempted,
}

/// Whether a trap with raw cause `scause_bits` taken while task `pid` runs
/// is fatal to the kernel: a cause the dispatch table does not handle, or a
/// fault that would terminate the init task.
pub open spec fn trap_is_fatal(scause_bits: usize, pid: int) -> bool {
    match action_of(cause_of(scause_bits)) {
        TrapAction::Unsupported => true,
        TrapAction::Kill(_) => pid == INIT_PID,
        _ => false,
    }
}

/// Handles a trap from user mode whose raw cause is `scause_bits`, following
/// the dispatch table: a system call is decoded, a memory fault or illegal
/// instruction terminates the task through the exit path, and a timer
/// interrupt suspends it. Fatal traps (see `trap_is_fatal`) are the caller's
/// to stop on.
pub fn trap_handler(k: &mut Kernel, scause_bits: usize) -> (r: TrapOutcome)
    requires
        old(k).wf(),
        old(k).current is Some,
        !trap_is_fatal(scause_bits, old(k).cur()),
    ensures
        final(k).wf(),
        ({
            let k0 = *old(k);
            let t0 = k0.tcb(k0.cur());
            match action_of(cause_of(scause_bits)) {
                TrapAction::Syscall => {
                    &&& r matches TrapOutcome::Syscall { id, args } && id == t0.trap_cx.x@[REG_A7 as int]
                        && args@ == t0.trap_cx.x@.subrange(REG_A0 as int, REG_A0 + 3)
                    &&& running_block_replaced(k0, *final(k))
                    &&& final(k).tcb(k0.cur()) == (TaskControlBlock {
                        trap_cx: TrapContext { sepc: t0.trap_cx.sepc.wrapping_add(ECALL_LEN), ..t0.trap_cx },
                        ..t0
                    })
                },
                TrapAction::Kill(code) => r == TrapOutcome::Killed(code) && exit_step(k0, *final(k), code),
                TrapAction::Preempt => r == TrapOutcome::Preempted && suspend_step(k0, *final(k)),
                TrapAction::Unsupported => false,
            }
        }),
{
    match classify_trap(scause_bits) {
        TrapAction::Syscall => {
            let (id, args) = k.enter_syscall();
            TrapOutcome::Syscall { id, args }
        },
        TrapAction::Kill(code) => {
            k.exit_current(code);
            TrapOutcome::Killed(code)
        },
        TrapAction::Preempt => {
            k.suspend_current();
            TrapOutcome::Preempted
        },
        TrapAction::Unsupported => {
            assert(false);
            TrapOutcome::Preempted
        },
    }
}

} // verus!
