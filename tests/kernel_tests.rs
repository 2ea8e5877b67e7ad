use rkernel::config::{BIG_STRIDE, INIT_PID, MAX_SYSCALL_NUM, PAGE_SIZE};
use rkernel::context::TaskContext;
use rkernel::kernel::{Kernel, KernelLayout};
use rkernel::manager::TaskManager;
use rkernel::memory::{MapArea, MemorySet, PERM_R, PERM_U, PERM_W};
use rkernel::syscall::{
    decode_syscall, sys_exec, sys_exit, sys_fork, sys_get_time, sys_getpid, sys_mmap, sys_munmap,
    sys_sbrk, sys_set_priority, sys_spawn, sys_task_info, sys_waitpid, sys_yield, syscall,
    SyscallEnv, SyscallReply, SyscallRequest, SYSCALL_GETPID, SYSCALL_WRITE,
};
use rkernel::task::{ProgramImage, TaskStatus};
use rkernel::trap::{classify_trap, trap_handler, TrapAction, TrapOutcome, INTERRUPT_BIT};
use rkernel::trap_context::TrapContext;

const TIMER: usize = INTERRUPT_BIT + 5;
const ECALL: usize = 8;

fn layout() -> KernelLayout {
    KernelLayout { kernel_satp: 0x8000_0000_0008_0000, trap_handler: 0x8020_1000, restore_entry: 0x8020_2000, sstatus: 0x122 }
}

fn image(token: usize) -> ProgramImage {
    let areas = vec![
        MapArea { start_vpn: 0x10, end_vpn: 0x12, perm: PERM_R | PERM_U },
        MapArea { start_vpn: 0x20, end_vpn: 0x20, perm: PERM_R | PERM_W | PERM_U },
    ];
    ProgramImage { memory_set: MemorySet::new(token, areas), entry: 0x10000, user_sp: 0x20000 }
}

fn env() -> SyscallEnv {
    SyscallEnv { now_us: 0, child_token: 0, image: None }
}

/// A kernel with the init task on the processor.
fn booted() -> Kernel {
    let mut k = Kernel::new(image(1), layout());
    assert_eq!(k.run_next(100), Some(INIT_PID));
    k
}

fn task(k: &Kernel, p: usize) -> &rkernel::task::TaskControlBlock {
    k.tasks[p].as_ref().unwrap()
}

#[test]
fn zero_init_is_all_zero() {
    let c = TaskContext::zero_init();
    assert_eq!(c.ra, 0);
    assert_eq!(c.sp, 0);
    assert_eq!(c.s, [0usize; 12]);
}

#[test]
fn goto_restore_starts_in_restore_path() {
    let c = TaskContext::goto_restore(0x8020_2000, 0xffff_ffff_ffff_d000);
    assert_eq!(c.ra, 0x8020_2000);
    assert_eq!(c.sp, 0xffff_ffff_ffff_d000);
    assert_eq!(c.s, [0usize; 12]);
}

#[test]
fn app_init_context_returns_to_user_mode() {
    let cx = TrapContext::app_init_context(0x1000, 0x2000, 0x122, 7, 8, 9);
    assert_eq!(cx.sstatus, 0x22);
    assert_eq!(cx.sepc, 0x1000);
    assert_eq!(cx.x[2], 0x2000);
    assert_eq!(cx.x.iter().filter(|v| **v != 0).count(), 1);
    assert_eq!((cx.kernel_satp, cx.kernel_sp, cx.trap_handler), (7, 8, 9));
}

#[test]
fn ready_queue_orders_by_stride_then_arrival() {
    let mut q = TaskManager::new();
    q.add(1, 10);
    q.add(2, 5);
    q.add(3, 10);
    q.add(4, 0);
    q.add(5, 5);
    assert_eq!(q.len(), 5);
    let order: Vec<usize> = (0..5).map(|_| q.fetch().unwrap()).collect();
    assert_eq!(order, vec![4, 2, 5, 1, 3]);
    assert_eq!(q.fetch(), None);
}

#[test]
fn memory_set_overlap_and_exact_match() {
    let ms = MemorySet::new(3, vec![MapArea { start_vpn: 4, end_vpn: 6, perm: PERM_R }]);
    assert!(ms.if_overlap(5 * PAGE_SIZE, 5 * PAGE_SIZE + 1));
    assert!(ms.if_overlap(3 * PAGE_SIZE, 4 * PAGE_SIZE + 1));
    assert!(!ms.if_overlap(6 * PAGE_SIZE, 7 * PAGE_SIZE));
    assert!(!ms.if_overlap(2 * PAGE_SIZE, 4 * PAGE_SIZE));
    assert!(ms.if_matched(4 * PAGE_SIZE, 6 * PAGE_SIZE));
    assert!(ms.if_matched(4 * PAGE_SIZE, 5 * PAGE_SIZE + 1));
    assert!(!ms.if_matched(4 * PAGE_SIZE, 5 * PAGE_SIZE));
    assert!(!ms.if_matched(4 * PAGE_SIZE + 8, 6 * PAGE_SIZE));
}

#[test]
fn trap_causes_follow_dispatch_table() {
    assert!(classify_trap(ECALL) == TrapAction::Syscall);
    assert!(classify_trap(7) == TrapAction::Kill(-2));
    assert!(classify_trap(15) == TrapAction::Kill(-2));
    assert!(classify_trap(5) == TrapAction::Kill(-2));
    assert!(classify_trap(13) == TrapAction::Kill(-2));
    assert!(classify_trap(2) == TrapAction::Kill(-3));
    assert!(classify_trap(TIMER) == TrapAction::Preempt);
    assert!(classify_trap(3) == TrapAction::Unsupported);
    assert!(classify_trap(INTERRUPT_BIT + 9) == TrapAction::Unsupported);
    assert!(classify_trap(INTERRUPT_BIT + 8) == TrapAction::Unsupported);
    assert!(classify_trap(12) == TrapAction::Unsupported);
}

#[test]
fn syscall_trap_advances_pc_and_reads_registers() {
    let mut k = booted();
    {
        let t = k.tasks[0].as_mut().unwrap();
        t.trap_cx.x[17] = SYSCALL_GETPID;
        t.trap_cx.x[10] = 11;
        t.trap_cx.x[11] = 12;
        t.trap_cx.x[12] = 13;
    }
    match trap_handler(&mut k, ECALL) {
        TrapOutcome::Syscall { id, args } => {
            assert_eq!(id, SYSCALL_GETPID);
            assert_eq!(args, [11, 12, 13]);
        }
        _ => panic!("expected a system call"),
    }
    assert_eq!(task(&k, 0).trap_cx.sepc, 0x10004);
}

#[test]
fn unsupported_trap_is_classified_fatal() {
    assert!(classify_trap(3) == TrapAction::Unsupported);
    assert!(classify_trap(INTERRUPT_BIT + 1) == TrapAction::Unsupported);
}

#[test]
fn init_task_fault_would_kill_init() {
    let k = booted();
    assert!(classify_trap(13) == TrapAction::Kill(-2));
    assert_eq!(k.getpid(), INIT_PID);
}

#[test]
fn fault_kills_child_with_fault_code() {
    let mut k = booted();
    assert_eq!(sys_fork(&mut k, 2), 1);
    sys_yield(&mut k);
    assert_eq!(k.run_next(110), Some(1));
    assert!(matches!(trap_handler(&mut k, 15), TrapOutcome::Killed(-2)));
    assert_eq!(task(&k, 1).task_status, TaskStatus::Zombie);
    assert_eq!(task(&k, 1).exit_code, -2);
    assert!(task(&k, 1).memory_set.areas.is_empty());
}

#[test]
fn fork_copies_parent_and_zeroes_child_result() {
    let mut k = booted();
    k.tasks[0].as_mut().unwrap().trap_cx.x[10] = 99;
    assert_eq!(sys_fork(&mut k, 2), 1);
    let child = task(&k, 1);
    assert_eq!(child.pid, 1);
    assert_eq!(child.parent, Some(0));
    assert_eq!(child.task_status, TaskStatus::Ready);
    assert_eq!(child.trap_cx.x[10], 0);
    assert_eq!(child.memory_set.token, 2);
    assert!(child.memory_set.areas == task(&k, 0).memory_set.areas);
    assert_eq!(child.task_stride, 0);
    assert_eq!(child.start_time, None);
    assert!(child.syscall_times.iter().all(|c| *c == 0));
    assert_eq!(task(&k, 0).children, vec![1]);
    assert_eq!(task(&k, 0).trap_cx.x[10], 99);
}

#[test]
fn getpid_reports_running_task() {
    let mut k = booted();
    assert_eq!(sys_getpid(&k), 0);
    sys_fork(&mut k, 2);
    sys_yield(&mut k);
    assert_eq!(k.run_next(120), Some(1));
    assert_eq!(sys_getpid(&k), 1);
}

#[test]
fn exit_reparents_children_to_init() {
    let mut k = booted();
    assert_eq!(sys_fork(&mut k, 2), 1);
    assert_eq!(sys_fork(&mut k, 3), 2);
    sys_yield(&mut k);
    assert_eq!(k.run_next(0), Some(1));
    assert_eq!(sys_fork(&mut k, 4), 3);
    assert_eq!(sys_fork(&mut k, 5), 4);
    sys_exit(&mut k, 7);
    assert_eq!(task(&k, 0).children, vec![1, 2, 3, 4]);
    assert_eq!(task(&k, 3).parent, Some(0));
    assert_eq!(task(&k, 4).parent, Some(0));
    assert!(task(&k, 1).children.is_empty());
    assert_eq!(task(&k, 1).task_status, TaskStatus::Zombie);
    assert_eq!(k.current, None);
}

#[test]
fn syscall_fatal_cases_are_recognisable() {
    assert!(decode_syscall(7, [0, 0, 0]).is_none());
    assert!(decode_syscall(MAX_SYSCALL_NUM, [0, 0, 0]).is_none());
    assert!(decode_syscall(SYSCALL_WRITE, [2, 0, 0]) == Some(SyscallRequest::Write { fd: 2, buf: 0, len: 0 }));
}

#[test]
fn waitpid_reaps_zombie_then_reports_unfinished() {
    let mut k = booted();
    assert_eq!(sys_fork(&mut k, 2), 1);
    assert_eq!(sys_fork(&mut k, 3), 2);
    sys_yield(&mut k);
    assert_eq!(k.run_next(0), Some(1));
    sys_exit(&mut k, 42);
    assert_eq!(k.run_next(0), Some(2));
    sys_yield(&mut k);
    assert_eq!(k.run_next(0), Some(0));
    let mut code: i32 = 0;
    assert_eq!(sys_waitpid(&mut k, -1, &mut code), 1);
    assert_eq!(code, 42);
    assert!(k.tasks[1].is_none());
    assert_eq!(task(&k, 0).children, vec![2]);
    let mut code2: i32 = 5;
    assert_eq!(sys_waitpid(&mut k, -1, &mut code2), -2);
    assert_eq!(code2, 5);
    assert_eq!(sys_waitpid(&mut k, 9, &mut code2), -1);
}

#[test]
fn waitpid_without_children_fails() {
    let mut k = booted();
    let mut code: i32 = 0;
    assert_eq!(sys_waitpid(&mut k, -1, &mut code), -1);
}

#[test]
fn freed_pid_is_reused() {
    let mut k = booted();
    assert_eq!(sys_fork(&mut k, 2), 1);
    sys_yield(&mut k);
    assert_eq!(k.run_next(0), Some(1));
    sys_exit(&mut k, 0);
    assert_eq!(k.run_next(0), Some(0));
    let mut code: i32 = 0;
    assert_eq!(sys_waitpid(&mut k, 1, &mut code), 1);
    assert_eq!(sys_fork(&mut k, 9), 1);
}

#[test]
fn mmap_rejects_overlap_accepts_adjacent() {
    let mut k = booted();
    let base = 0x100 * PAGE_SIZE;
    assert_eq!(sys_mmap(&mut k, base, 2 * PAGE_SIZE, 3), 0);
    assert_eq!(sys_mmap(&mut k, base + PAGE_SIZE, PAGE_SIZE, 1), -1);
    assert_eq!(sys_mmap(&mut k, base - PAGE_SIZE, 2 * PAGE_SIZE, 1), -1);
    assert_eq!(sys_mmap(&mut k, base, 2 * PAGE_SIZE, 1), -1);
    assert_eq!(sys_mmap(&mut k, base + 2 * PAGE_SIZE, PAGE_SIZE, 1), 0);
    assert_eq!(sys_mmap(&mut k, base - PAGE_SIZE, PAGE_SIZE, 4), 0);
    let areas = &task(&k, 0).memory_set.areas;
    assert_eq!(areas.len(), 5);
    assert!(areas[2] == MapArea { start_vpn: 0x100, end_vpn: 0x102, perm: PERM_R | PERM_W | PERM_U });
    assert!(areas[4] == MapArea { start_vpn: 0xff, end_vpn: 0x100, perm: 0x8 | PERM_U });
}

#[test]
fn mmap_checks_arguments() {
    let mut k = booted();
    let base = 0x100 * PAGE_SIZE;
    assert_eq!(sys_mmap(&mut k, base + 1, PAGE_SIZE, 1), -1);
    assert_eq!(sys_mmap(&mut k, base, PAGE_SIZE, 0), -1);
    assert_eq!(sys_mmap(&mut k, base, PAGE_SIZE, 8), -1);
    assert_eq!(sys_mmap(&mut k, base, 0, 1), 0);
    assert_eq!(sys_mmap(&mut k, base, 0, 0), -1);
    assert_eq!(sys_mmap(&mut k, usize::MAX - PAGE_SIZE + 1, 2 * PAGE_SIZE, 1), -1);
    assert_eq!(task(&k, 0).memory_set.areas.len(), 2);
    assert_eq!(sys_mmap(&mut k, base, 10, 1), 0);
    assert!(task(&k, 0).memory_set.areas[2] == MapArea { start_vpn: 0x100, end_vpn: 0x101, perm: PERM_R | PERM_U });
}

#[test]
fn munmap_requires_exact_bounds() {
    let mut k = booted();
    let base = 0x100 * PAGE_SIZE;
    assert_eq!(sys_mmap(&mut k, base, 4 * PAGE_SIZE, 3), 0);
    assert_eq!(sys_munmap(&mut k, base, 2 * PAGE_SIZE), -1);
    assert_eq!(sys_munmap(&mut k, base + 2 * PAGE_SIZE, 2 * PAGE_SIZE), -1);
    assert_eq!(sys_munmap(&mut k, base, 5 * PAGE_SIZE), -1);
    assert_eq!(sys_munmap(&mut k, base, 0), 0);
    assert_eq!(task(&k, 0).memory_set.areas.len(), 3);
    assert_eq!(sys_munmap(&mut k, base, 4 * PAGE_SIZE), 0);
    assert_eq!(task(&k, 0).memory_set.areas.len(), 2);
    assert_eq!(sys_munmap(&mut k, base, 4 * PAGE_SIZE), -1);
}

#[test]
fn set_priority_rejects_below_two() {
    let mut k = booted();
    assert_eq!(sys_set_priority(&mut k, 0), -1);
    assert_eq!(sys_set_priority(&mut k, 1), -1);
    assert_eq!(sys_set_priority(&mut k, -5), -1);
    assert_eq!(task(&k, 0).task_priority, 16);
    assert_eq!(sys_set_priority(&mut k, 2), 2);
    assert_eq!(task(&k, 0).task_priority, 2);
    sys_yield(&mut k);
    assert_eq!(task(&k, 0).task_stride, (BIG_STRIDE / 2) as u64);
    assert_eq!(k.run_next(0), Some(0));
    sys_yield(&mut k);
    assert_eq!(task(&k, 0).task_stride, 2 * (BIG_STRIDE / 2) as u64);
}

#[test]
fn default_priority_step() {
    let mut k = booted();
    assert_eq!(sys_yield(&mut k), 0);
    assert_eq!(task(&k, 0).task_stride, (BIG_STRIDE / 16) as u64);
    assert_eq!(task(&k, 0).trap_cx.x[10], 0);
}

/// Runs `quanta` timer-driven quanta and counts how many each pid got.
fn run_quanta(k: &mut Kernel, quanta: usize) -> Vec<usize> {
    let mut counts = vec![0usize; 4];
    for _ in 0..quanta {
        let p = k.current.unwrap();
        counts[p] += 1;
        assert!(matches!(trap_handler(k, TIMER), TrapOutcome::Preempted));
        k.run_next(0).unwrap();
    }
    counts
}

#[test]
fn higher_priority_runs_more() {
    for (p1, p2) in [(2isize, 3isize), (2, 16), (3, 8), (4, 6)] {
        let mut k = booted();
        assert_eq!(sys_fork(&mut k, 2), 1);
        assert_eq!(sys_set_priority(&mut k, p1), p1);
        sys_yield(&mut k);
        assert_eq!(k.run_next(0), Some(1));
        assert_eq!(sys_set_priority(&mut k, p2), p2);
        let counts = run_quanta(&mut k, 400);
        assert!(counts[1] > counts[0], "priorities {} {}: {:?}", p1, p2, counts);
    }
}

#[test]
fn equal_priorities_alternate() {
    let mut k = booted();
    assert_eq!(sys_fork(&mut k, 2), 1);
    let counts = run_quanta(&mut k, 100);
    assert!(counts[0].abs_diff(counts[1]) <= 17);
}

#[test]
fn task_info_time_since_first_run() {
    let mut k = Kernel::new(image(1), layout());
    assert_eq!(k.run_next(1000), Some(0));
    assert_eq!(sys_task_info(&k, 1000).time, 0);
    let info = sys_task_info(&k, 1037);
    assert_eq!(info.time, 37);
    assert_eq!(info.status, TaskStatus::Running);
    sys_yield(&mut k);
    assert_eq!(k.run_next(2000), Some(0));
    assert_eq!(sys_task_info(&k, 2005).time, 1005);
    assert_eq!(sys_task_info(&k, 500).time, 0);
}

#[test]
fn syscall_counts_kept_per_task() {
    let mut k = booted();
    assert_eq!(sys_fork(&mut k, 2), 1);
    for _ in 0..5 {
        assert_eq!(syscall(&mut k, SYSCALL_WRITE, [1, 0, 3], env()).ret, Some(3));
    }
    syscall(&mut k, SYSCALL_GETPID, [0, 0, 0], env());
    sys_yield(&mut k);
    assert_eq!(k.run_next(0), Some(1));
    for _ in 0..3 {
        syscall(&mut k, SYSCALL_WRITE, [1, 0, 0], env());
    }
    let info = sys_task_info(&k, 0);
    assert_eq!(info.syscall_times.len(), MAX_SYSCALL_NUM);
    assert_eq!(info.syscall_times[SYSCALL_WRITE], 3);
    assert_eq!(info.syscall_times[SYSCALL_GETPID], 0);
    assert_eq!(task(&k, 0).syscall_times[SYSCALL_WRITE], 5);
    assert_eq!(task(&k, 0).syscall_times[SYSCALL_GETPID], 1);
}

#[test]
fn syscall_dispatches_and_sets_return_value() {
    let mut k = booted();
    let out = syscall(&mut k, SYSCALL_GETPID, [0, 0, 0], env());
    assert_eq!(out.ret, Some(0));
    assert_eq!(task(&k, 0).trap_cx.x[10], 0);
    let out = syscall(&mut k, 140, [5, 0, 0], env());
    assert_eq!(out.ret, Some(5));
    assert_eq!(task(&k, 0).trap_cx.x[10], 5);
    assert_eq!(task(&k, 0).task_priority, 5);
    let out = syscall(&mut k, 140, [1, 0, 0], env());
    assert_eq!(out.ret, Some(-1));
    assert_eq!(task(&k, 0).trap_cx.x[10], usize::MAX);
    let out = syscall(&mut k, 222, [0x100 * PAGE_SIZE, PAGE_SIZE, 3], env());
    assert_eq!(out.ret, Some(0));
    assert_eq!(task(&k, 0).memory_set.areas.len(), 3);
    let out = syscall(&mut k, 169, [0x40, 0, 0], SyscallEnv { now_us: 2_000_005, child_token: 0, image: None });
    assert!(matches!(out.reply, SyscallReply::Time { ptr: 0x40, time } if time.sec == 2 && time.usec == 5));
    let out = syscall(&mut k, 220, [0, 0, 0], SyscallEnv { now_us: 0, child_token: 9, image: None });
    assert_eq!(out.ret, Some(1));
    assert_eq!(task(&k, 1).memory_set.token, 9);
    assert_eq!(task(&k, 1).trap_cx.x[10], 0);
    let out = syscall(&mut k, 124, [0, 0, 0], env());
    assert_eq!(out.ret, None);
    assert_eq!(k.current, None);
    assert_eq!(task(&k, 0).trap_cx.x[10], 0);
    assert_eq!(task(&k, 0).syscall_times[SYSCALL_GETPID], 1);
    assert_eq!(task(&k, 0).syscall_times[140], 2);
}

#[test]
fn syscall_waitpid_replies_exit_code() {
    let mut k = booted();
    assert_eq!(sys_fork(&mut k, 2), 1);
    sys_yield(&mut k);
    assert_eq!(k.run_next(0), Some(1));
    let out = syscall(&mut k, 93, [(-9i64) as usize, 0, 0], env());
    assert_eq!(out.ret, None);
    assert_eq!(k.run_next(0), Some(0));
    let out = syscall(&mut k, 260, [usize::MAX, 0x80, 0], env());
    assert_eq!(out.ret, Some(1));
    assert!(matches!(out.reply, SyscallReply::ExitCode { ptr: 0x80, code: -9 }));
    let out = syscall(&mut k, 260, [usize::MAX, 0x80, 0], env());
    assert_eq!(out.ret, Some(-1));
    assert!(matches!(out.reply, SyscallReply::Nothing));
}

#[test]
fn syscall_decoding_casts_arguments() {
    assert!(decode_syscall(93, [usize::MAX, 0, 0]) == Some(SyscallRequest::Exit { exit_code: -1 }));
    assert!(decode_syscall(260, [usize::MAX, 0x40, 0]) == Some(SyscallRequest::Waitpid { pid: -1, exit_code_ptr: 0x40 }));
    assert!(decode_syscall(222, [1, 2, 3]) == Some(SyscallRequest::Mmap { start: 1, len: 2, port: 3 }));
    assert!(decode_syscall(140, [5, 0, 0]) == Some(SyscallRequest::SetPriority { prio: 5 }));
    assert!(decode_syscall(124, [0, 0, 0]) == Some(SyscallRequest::Yield));
}

#[test]
fn get_time_splits_microseconds() {
    let t = sys_get_time(3_250_017);
    assert_eq!((t.sec, t.usec), (3, 250_017));
    let z = sys_get_time(999_999);
    assert_eq!((z.sec, z.usec), (0, 999_999));
}

#[test]
fn exec_replaces_image() {
    let mut k = booted();
    assert_eq!(sys_exec(&mut k, None), -1);
    let mut img = image(8);
    img.entry = 0x5000;
    img.user_sp = 0x9000;
    assert_eq!(sys_exec(&mut k, Some(img)), 0);
    let t = task(&k, 0);
    assert_eq!(t.trap_cx.sepc, 0x5000);
    assert_eq!(t.trap_cx.x[2], 0x9000);
    assert_eq!(t.memory_set.token, 8);
    assert_eq!(t.program_brk, 0x9000);
    assert_eq!(t.pid, 0);
}

#[test]
fn spawn_creates_child_from_image() {
    let mut k = booted();
    assert_eq!(sys_spawn(&mut k, None), -1);
    assert_eq!(sys_spawn(&mut k, Some(image(6))), 1);
    let c = task(&k, 1);
    assert_eq!(c.parent, Some(0));
    assert_eq!(c.memory_set.token, 6);
    assert_eq!(c.trap_cx.sepc, 0x10000);
    assert_eq!(c.task_status, TaskStatus::Ready);
    assert_eq!(task(&k, 0).children, vec![1]);
}

#[test]
fn sbrk_moves_break_within_heap() {
    let mut k = booted();
    assert_eq!(sys_sbrk(&mut k, 0x3000), 0x20000);
    assert_eq!(task(&k, 0).program_brk, 0x23000);
    assert_eq!(task(&k, 0).memory_set.areas[1].end_vpn, 0x23);
    assert_eq!(sys_sbrk(&mut k, -0x1000), 0x23000);
    assert_eq!(task(&k, 0).memory_set.areas[1].end_vpn, 0x22);
    assert_eq!(sys_sbrk(&mut k, -0x3000), -1);
    assert_eq!(task(&k, 0).program_brk, 0x22000);
}

#[test]
fn suspend_and_run_next_picks_lowest_stride() {
    let mut k = booted();
    assert_eq!(sys_fork(&mut k, 2), 1);
    assert_eq!(k.suspend_current_and_run_next(200), Some(1));
    assert_eq!(task(&k, 1).start_time, Some(200));
    assert_eq!(task(&k, 0).task_status, TaskStatus::Ready);
    assert_eq!(task(&k, 1).task_status, TaskStatus::Running);
    assert_eq!(k.suspend_current_and_run_next(300), Some(0));
    assert_eq!(task(&k, 0).start_time, Some(100));
}

#[test]
fn exit_and_run_next_hands_over_processor() {
    let mut k = booted();
    assert_eq!(sys_fork(&mut k, 2), 1);
    assert_eq!(k.suspend_current_and_run_next(0), Some(1));
    assert_eq!(k.exit_current_and_run_next(3, 50), Some(0));
    assert_eq!(task(&k, 1).exit_code, 3);
    assert_eq!(k.current, Some(0));
}

#[test]
fn sbrk_refuses_growth_into_another_region() {
    let mut k = booted();
    assert_eq!(sys_mmap(&mut k, 0x22 * PAGE_SIZE, PAGE_SIZE, 3), 0);
    assert_eq!(sys_sbrk(&mut k, 0x1000), 0x20000);
    assert_eq!(sys_sbrk(&mut k, 0x2000), -1);
    assert_eq!(task(&k, 0).program_brk, 0x21000);
    assert_eq!(task(&k, 0).memory_set.areas[1].end_vpn, 0x21);
}

#[test]
fn regions_disjoint_detects_overlap() {
    let ok = MemorySet::new(1, vec![
        MapArea { start_vpn: 1, end_vpn: 3, perm: PERM_R },
        MapArea { start_vpn: 3, end_vpn: 4, perm: PERM_R },
    ]);
    assert!(ok.regions_disjoint());
    let bad = MemorySet::new(1, vec![
        MapArea { start_vpn: 1, end_vpn: 3, perm: PERM_R },
        MapArea { start_vpn: 2, end_vpn: 4, perm: PERM_R },
    ]);
    assert!(!bad.regions_disjoint());
}

#[test]
fn partial_unmap_of_region_fails() {
    let mut k = booted();
    let a = 0x100 * PAGE_SIZE;
    assert_eq!(sys_mmap(&mut k, a, 2 * PAGE_SIZE, 3), 0);
    assert_eq!(sys_munmap(&mut k, a, PAGE_SIZE), -1);
    assert_eq!(sys_munmap(&mut k, a + PAGE_SIZE, PAGE_SIZE), -1);
    assert!(task(&k, 0).memory_set.areas[2] == MapArea { start_vpn: 0x100, end_vpn: 0x102, perm: PERM_R | PERM_W | PERM_U });
}
