//! The system-call surface: ids, decoding, per-call counting and one handler
//! per call. Handlers take what the memory and file layers produced (a loaded
//! program image, the time) as plain values and return what those layers
//! write back to user memory.
use vstd::prelude::*;
use crate::config::{INIT_PID, MAX_SYSCALL_NUM, MAX_TASKS, MIN_PRIORITY, PAGE_SIZE};
use crate::kernel::{
    brk_moved, bumped, exec_done, exit_step, forked, mapped, priority_set, return_value_set, running_block_replaced,
    spawned, suspend_step, unmapped, waitpid_result, Kernel,
};
use crate::laws::counted_call;
use crate::memory::{areas_disjoint, first_starting_at, matches_any, resize_fits, overlaps_any, vpn_ceil, vpn_floor};
use crate::task::{ProgramImage, TaskStatus};

verus! {

/// Read from a file.
pub const SYSCALL_READ: usize = 63;
/// Write to a file.
pub const SYSCALL_WRITE: usize = 64;
/// End the calling task.
pub const SYSCALL_EXIT: usize = 93;
/// Give up the processor.
pub const SYSCALL_YIELD: usize = 124;
/// Set the calling task's priority.
pub const SYSCALL_SET_PRIORITY: usize = 140;
/// Read the clock.
pub const SYSCALL_GET_TIME: usize = 169;
/// Pid of the calling task.
pub const SYSCALL_GETPID: usize = 172;
/// Move the program break.
pub const SYSCALL_SBRK: usize = 214;
/// Unmap a region.
pub const SYSCALL_MUNMAP: usize = 215;
/// Duplicate the calling task.
pub const SYSCALL_FORK: usize = 220;
/// Replace the calling task's program.
pub const SYSCALL_EXEC: usize = 221;
/// Map a region.
pub const SYSCALL_MMAP: usize = 222;
/// Wait for a child.
pub const SYSCALL_WAITPID: usize = 260;
/// Create a child running a new program.
pub const SYSCALL_SPAWN: usize = 400;
/// Report on the calling task.
pub const SYSCALL_TASK_INFO: usize = 410;

/// Seconds and microseconds.
#[derive(Clone, Copy, Debug, PartialEq, Eq, Structural)]
pub struct TimeVal {
    pub sec: usize,
    pub usec: usize,
}

/// What `task_info` reports about the calling task.
pub struct TaskInfo {
    /// Life-cycle status.
    pub status: TaskStatus,
    /// Invocation count of each system-call id.
    pub syscall_times: Vec<u32>,
    /// Milliseconds since the task was first scheduled.
    pub time: usize,
}

/// A decoded system call with its arguments; addresses are user virtual
/// addresses.
#[derive(Clone, Copy, Debug, PartialEq, Eq, Structural)]
pub enum SyscallRequest {
    Read { fd: usize, buf: usize, len: usize },
    Write { fd: usize, buf: usize, len: usize },
    Exit { exit_code: i32 },
    Yield,
    GetPid,
    Fork,
    Exec { path: usize },
    Waitpid { pid: isize, exit_code_ptr: usize },
    GetTime { ts: usize, tz: usize },
    TaskInfo { ti: usize },
    Mmap { start: usize, len: usize, port: usize },
    Munmap { start: usize, len: usize },
    Sbrk { size: i32 },
    Spawn { path: usize },
    SetPriority { prio: isize },
}

/// The call that id `id` with argument registers `a` stands for; `None` for
/// an id the kernel does not serve.
pub open spec fn request_of(id: usize, a: Seq<usize>) -> Option<SyscallRequest> {
    if id == SYSCALL_READ { Some(SyscallRequest::Read { fd: a[0], buf: a[1], len: a[2] }) }
    else if id == SYSCALL_WRITE { Some(SyscallRequest::Write { fd: a[0], buf: a[1], len: a[2] }) }
    else if id == SYSCALL_EXIT { Some(SyscallRequest::Exit { exit_code: a[0] as i32 }) }
    else if id == SYSCALL_YIELD { Some(SyscallRequest::Yield) }
    else if id == SYSCALL_GETPID { Some(SyscallRequest::GetPid) }
    else if id == SYSCALL_FORK { Some(SyscallRequest::Fork) }
    else if id == SYSCALL_EXEC { Some(SyscallRequest::Exec { path: a[0] }) }
    else if id == SYSCALL_WAITPID { Some(SyscallRequest::Waitpid { pid: a[0] as isize, exit_code_ptr: a[1] }) }
    else if id == SYSCALL_GET_TIME { Some(SyscallRequest::GetTime { ts: a[0], tz: a[1] }) }
    else if id == SYSCALL_TASK_INFO { Some(SyscallRequest::TaskInfo { ti: a[0] }) }
    else if id == SYSCALL_MMAP { Some(SyscallRequest::Mmap { start: a[0], len: a[1], port: a[2] }) }
    else if id == SYSCALL_MUNMAP { Some(SyscallRequest::Munmap { start: a[0], len: a[1] }) }
    else if id == SYSCALL_SBRK { Some(SyscallRequest::Sbrk { size: a[0] as i32 }) }
    else if id == SYSCALL_SPAWN { Some(SyscallRequest::Spawn { path: a[0] }) }
    else if id == SYSCALL_SET_PRIORITY { Some(SyscallRequest::SetPriority { prio: a[0] as isize }) }
    else { None }
}

/// Decodes a system call.
pub fn decode_syscall(id: usize, args: [usize; 3]) -> (r: Option<SyscallRequest>)
    ensures
        r == request_of(id, args@),
{
    let a0 = args[0];
    let a1 = args[1];
    let a2 = args[2];
    if id == SYSCALL_READ { Some(SyscallRequest::Read { fd: a0, buf: a1, len: a2 }) }
    else if id == SYSCALL_WRITE { Some(SyscallRequest::Write { fd: a0, buf: a1, len: a2 }) }
    else if id == SYSCALL_EXIT { Some(SyscallRequest::Exit { exit_code: a0 as i32 }) }
    else if id == SYSCALL_YIELD { Some(SyscallRequest::Yield) }
    else if id == SYSCALL_GETPID { Some(SyscallRequest::GetPid) }
    else if id == SYSCALL_FORK { Some(SyscallRequest::Fork) }
    else if id == SYSCALL_EXEC { Some(SyscallRequest::Exec { path: a0 }) }
    else if id == SYSCALL_WAITPID { Some(SyscallRequest::Waitpid { pid: a0 as isize, exit_code_ptr: a1 }) }
    else if id == SYSCALL_GET_TIME { Some(SyscallRequest::GetTime { ts: a0, tz: a1 }) }
    else if id == SYSCALL_TASK_INFO { Some(SyscallRequest::TaskInfo { ti: a0 }) }
    else if id == SYSCALL_MMAP { Some(SyscallRequest::Mmap { start: a0, len: a1, port: a2 }) }
    else if id == SYSCALL_MUNMAP { Some(SyscallRequest::Munmap { start: a0, len: a1 }) }
    else if id == SYSCALL_SBRK { Some(SyscallRequest::Sbrk { size: a0 as i32 }) }
    else if id == SYSCALL_SPAWN { Some(SyscallRequest::Spawn { path: a0 }) }
    else if id == SYSCALL_SET_PRIORITY { Some(SyscallRequest::SetPriority { prio: a0 as isize }) }
    else { None }
}

/// File descriptor of the console, the one file `write` serves.
pub const FD_STDOUT: usize = 1;

/// What the layers beside the kernel core prepared for a system call: the
/// clock (microseconds), the page table the parent's pages were copied into
/// (used by `fork`), and the program found at the requested path (used by
/// `exec` and `spawn`). Bytes that `write` sends are printed before the call.
pub struct SyscallEnv {
    pub now_us: usize,
    pub child_token: usize,
    pub image: Option<ProgramImage>,
}

/// Data a system call hands back for the memory layer to write into the
/// calling task's memory.
pub enum SyscallReply {
    Nothing,
    /// A reaped child's exit code, for address `ptr`.
    ExitCode { ptr: usize, code: i32 },
    /// The clock, for address `ptr`.
    Time { ptr: usize, time: TimeVal },
    /// The task report, for address `ptr`.
    Info { ptr: usize, info: TaskInfo },
}

/// Result of a served system call: the value placed in the caller's
/// return-value register (`None` when the caller exited, or yielded and was
/// given 0 already) and what to write back.
pub struct SyscallOutcome {
    pub ret: Option<isize>,
    pub reply: SyscallReply,
}

/// Whether serving `syscall_id` with arguments `args` in `k` would be fatal
/// to the kernel: an id it does not serve, a write to a file other than the
/// console, or an exit of the init task.
pub open spec fn syscall_is_fatal(k: Kernel, syscall_id: usize, args: Seq<usize>) -> bool {
    match request_of(syscall_id, args) {
        None => true,
        Some(SyscallRequest::Write { fd, .. }) => fd != FD_STDOUT,
        Some(SyscallRequest::Exit { .. }) => k.cur() == INIT_PID,
        _ => false,
    }
}

/// `k1`, `out` are the result of serving `req`, other than exit and yield,
/// in `k0` (after counting), before the return value is stored.
pub open spec fn handled(k0: Kernel, k1: Kernel, req: SyscallRequest, env: SyscallEnv, out: SyscallOutcome) -> bool {
    let r = out.ret->Some_0;
    match req {
        SyscallRequest::Read { .. } => r == -1 && k1 == k0 && out.reply is Nothing,
        SyscallRequest::Write { len, .. } => r == len as isize && k1 == k0 && out.reply is Nothing,
        SyscallRequest::GetPid => r == k0.cur() && k1 == k0 && out.reply is Nothing,
        SyscallRequest::Fork => fork_result(k0, k1, env.child_token, r) && out.reply is Nothing,
        SyscallRequest::Exec { .. } => exec_result(k0, k1, env.image, r) && out.reply is Nothing,
        SyscallRequest::Waitpid { pid, exit_code_ptr } => if r >= 0 {
            out.reply matches SyscallReply::ExitCode { ptr, code } && ptr == exit_code_ptr
                && waitpid_result(k0, k1, pid, 0, code, r)
        } else {
            out.reply is Nothing && waitpid_result(k0, k1, pid, 0, 0, r)
        },
        SyscallRequest::GetTime { ts, .. } => r == 0 && k1 == k0 && out.reply == (SyscallReply::Time {
            ptr: ts,
            time: TimeVal { sec: env.now_us / 1_000_000, usec: env.now_us % 1_000_000 },
        }),
        SyscallRequest::TaskInfo { ti } => r == 0 && k1 == k0 && (out.reply matches SyscallReply::Info { ptr, info }
            && ptr == ti && info.status == TaskStatus::Running
            && info.syscall_times@ == k0.tcb(k0.cur()).syscall_times@
            && info.time == elapsed_since_start(k0, env.now_us / 1000)),
        SyscallRequest::Mmap { start, len, port } => mmap_result(k0, k1, start, len, port, r) && out.reply is Nothing,
        SyscallRequest::Munmap { start, len } => munmap_result(k0, k1, start, len, r) && out.reply is Nothing,
        SyscallRequest::Sbrk { size } => sbrk_result(k0, k1, size, r) && out.reply is Nothing,
        SyscallRequest::Spawn { .. } => spawn_result(k0, k1, env.image, r) && out.reply is Nothing,
        SyscallRequest::SetPriority { prio } => set_priority_result(k0, k1, prio, r) && out.reply is Nothing,
        _ => false,
    }
}

/// `k1` and `out` are the result of serving `req` in `k0` (after counting):
/// an exit ends the caller, a yield gives it 0 and suspends it, and every
/// other call is handled and its result stored in the caller's return-value
/// register.
pub open spec fn served(k0: Kernel, k1: Kernel, req: SyscallRequest, env: SyscallEnv, out: SyscallOutcome) -> bool {
    match req {
        SyscallRequest::Exit { exit_code } => out.ret is None && out.reply is Nothing && exit_step(k0, k1, exit_code),
        SyscallRequest::Yield => out.ret is None && out.reply is Nothing && exists|k2: Kernel|
            #[trigger] return_value_set(k0, k2, 0) && k2.wf() && suspend_step(k2, k1),
        _ => out.ret is Some && exists|k2: Kernel| #[trigger] handled(k0, k2, req, env, out) && k2.wf()
            && return_value_set(k2, k1, out.ret->Some_0),
    }
}

/// Serves system call `syscall_id` with argument registers `args` for the
/// running task: counts the invocation, then dispatches it to its handler
/// and stores the handler's result in the caller's return-value register.
/// Fatal calls (see `syscall_is_fatal`) are the caller's to stop on.
pub fn syscall(k: &mut Kernel, syscall_id: usize, args: [usize; 3], env: SyscallEnv) -> (out: SyscallOutcome)
    requires
        old(k).wf(),
        old(k).current is Some,
        !syscall_is_fatal(*old(k), syscall_id, args@),
        env.image matches Some(img) ==> areas_disjoint(img.memory_set.areas@),
    ensures
        final(k).wf(),
        exists|k1: Kernel| #[trigger] counted_call(*old(k), k1, syscall_id) && k1.wf()
            && served(k1, *final(k), request_of(syscall_id, args@)->Some_0, env, out),
{
    let req = match decode_syscall(syscall_id, args) {
        Some(req) => req,
        None => {
            assert(false);
            SyscallRequest::Yield
        },
    };
    k.increase_syscall_times(syscall_id);
    let ghost k1 = *k;
    proof {
        assert(counted_call(*old(k), k1, syscall_id));
        assert(k1.cur() == old(k).cur());
    }
    let ghost env0 = env;
    let (ret, reply): (isize, SyscallReply) = match req {
        SyscallRequest::Exit { exit_code } => {
            sys_exit(k, exit_code);
            let out = SyscallOutcome { ret: None, reply: SyscallReply::Nothing };
            assert(served(k1, *k, req, env0, out));
            return out;
        },
        SyscallRequest::Yield => {
            sys_yield(k);
            let out = SyscallOutcome { ret: None, reply: SyscallReply::Nothing };
            assert(served(k1, *k, req, env0, out));
            return out;
        },
        SyscallRequest::Read { .. } => (-1, SyscallReply::Nothing),
        SyscallRequest::Write { len, .. } => (len as isize, SyscallReply::Nothing),
        SyscallRequest::GetPid => (sys_getpid(k), SyscallReply::Nothing),
        SyscallRequest::Fork => (sys_fork(k, env.child_token), SyscallReply::Nothing),
        SyscallRequest::Exec { .. } => (sys_exec(k, env.image), SyscallReply::Nothing),
        SyscallRequest::Waitpid { pid, exit_code_ptr } => {
            let mut code: i32 = 0;
            let r = sys_waitpid(k, pid, &mut code);
            if r >= 0 {
                (r, SyscallReply::ExitCode { ptr: exit_code_ptr, code })
            } else {
                (r, SyscallReply::Nothing)
            }
        },
        SyscallRequest::GetTime { ts, .. } => (0, SyscallReply::Time { ptr: ts, time: sys_get_time(env.now_us) }),
        SyscallRequest::TaskInfo { ti } => (0, SyscallReply::Info { ptr: ti, info: sys_task_info(k, env.now_us / 1000) }),
        SyscallRequest::Mmap { start, len, port } => (sys_mmap(k, start, len, port), SyscallReply::Nothing),
        SyscallRequest::Munmap { start, len } => (sys_munmap(k, start, len), SyscallReply::Nothing),
        SyscallRequest::Sbrk { size } => (sys_sbrk(k, size), SyscallReply::Nothing),
        SyscallRequest::Spawn { .. } => (sys_spawn(k, env.image), SyscallReply::Nothing),
        SyscallRequest::SetPriority { prio } => (sys_set_priority(k, prio), SyscallReply::Nothing),
    };
    let ghost k2 = *k;
    k.set_return_value(ret);
    let out = SyscallOutcome { ret: Some(ret), reply };
    proof {
        assert(handled(k1, k2, req, env0, out));
        assert(served(k1, *k, req, env0, out));
    }
    out
}

/// Ends the running task, which is not the init task (whose exit is
/// fatal), with `exit_code`.
pub fn sys_exit(k: &mut Kernel, exit_code: i32)
    requires
        old(k).wf(),
        old(k).current is Some,
        old(k).cur() != INIT_PID,
    ensures
        final(k).wf(),
        exit_step(*old(k), *final(k), exit_code),
{
    k.exit_current(exit_code)
}

/// Gives up the processor: the running task's call returns 0 when it next
/// runs, and it is queued again with its stride advanced.
pub fn sys_yield(k: &mut Kernel) -> (r: isize)
    requires
        old(k).wf(),
        old(k).current is Some,
    ensures
        final(k).wf(),
        r == 0,
        exists|k1: Kernel| #[trigger] return_value_set(*old(k), k1, 0) && k1.wf() && suspend_step(k1, *final(k)),
{
    k.set_return_value(0);
    k.suspend_current();
    0
}

/// Pid of the running task.
pub fn sys_getpid(k: &Kernel) -> (r: isize)
    requires
        k.wf(),
        k.current is Some,
    ensures
        r == k.cur(),
{
    let p = k.getpid();
    proof {
        assert(k.live(p as int));
    }
    p as isize
}

/// Forks the running task; `child_token` is the page table the memory layer
/// copied the parent's pages into. Returns the child's pid (the child itself
/// sees 0), or -1 when the pid pool is exhausted.
pub fn sys_fork(k: &mut Kernel, child_token: usize) -> (r: isize)
    requires
        old(k).wf(),
        old(k).current is Some,
    ensures
        final(k).wf(),
        fork_result(*old(k), *final(k), child_token, r),
{
    k.fork(child_token)
}

/// Replaces the running task's program by `image`, the program the file
/// layer found at the requested path; 0 on success, -1, changing nothing,
/// when no such program was found.
pub fn sys_exec(k: &mut Kernel, image: Option<ProgramImage>) -> (r: isize)
    requires
        old(k).wf(),
        old(k).current is Some,
        image matches Some(img) ==> areas_disjoint(img.memory_set.areas@),
    ensures
        final(k).wf(),
        exec_result(*old(k), *final(k), image, r),
{
    match image {
        None => -1,
        Some(img) => {
            k.exec(img);
            0
        },
    }
}

/// Waits for a child (`pid`, or -1 for any): -1 when no child matches, -2
/// when none of the matching children has exited, else the reaped child's
/// pid, its exit code stored in `exit_code`.
pub fn sys_waitpid(k: &mut Kernel, pid: isize, exit_code: &mut i32) -> (r: isize)
    requires
        old(k).wf(),
        old(k).current is Some,
    ensures
        final(k).wf(),
        waitpid_result(*old(k), *final(k), pid, *old(exit_code), *final(exit_code), r),
{
    k.waitpid(pid, exit_code)
}

/// The clock reading `us` (microseconds) as seconds and microseconds.
pub fn sys_get_time(us: usize) -> (r: TimeVal)
    ensures
        r.sec == us / 1_000_000,
        r.usec == us % 1_000_000,
{
    TimeVal { sec: us / 1_000_000, usec: us % 1_000_000 }
}

/// Milliseconds from the running task's first scheduling to `now_ms`, 0 if
/// the clock reads earlier.
pub open spec fn elapsed_since_start(k: Kernel, now_ms: usize) -> int {
    let start = k.tcb(k.cur()).start_time->Some_0;
    if now_ms >= start { now_ms - start } else { 0 }
}

/// Report on the running task at time `now_ms`: running, its call counts,
/// and the time since it was first scheduled (0 if the clock reads earlier).
pub fn sys_task_info(k: &Kernel, now_ms: usize) -> (r: TaskInfo)
    requires
        k.wf(),
        k.current is Some,
    ensures
        r.status == TaskStatus::Running,
        r.syscall_times@ == k.tcb(k.cur()).syscall_times@,
        r.time == elapsed_since_start(*k, now_ms),
{
    let start = k.get_start_time();
    TaskInfo {
        status: TaskStatus::Running,
        syscall_times: k.get_syscall_times(),
        time: now_ms.saturating_sub(start),
    }
}

/// `k1` and `r` result from `k0` by a fork of the running task into the page
/// table `child_token`: -1, changing nothing, exactly when the pid pool is
/// exhausted, else the child's pid.
pub open spec fn fork_result(k0: Kernel, k1: Kernel, child_token: usize, r: isize) -> bool {
    &&& r == -1 <==> (forall|q: int| 0 <= q < MAX_TASKS ==> #[trigger] k0.live(q))
    &&& r == -1 ==> k1 == k0
    &&& r != -1 ==> forked(k0, k1, r as int, child_token)
}

/// `k1` and `r` result from `k0` by an exec of `image`: -1, changing
/// nothing, when no program was found, else 0 with the image replaced.
pub open spec fn exec_result(k0: Kernel, k1: Kernel, image: Option<ProgramImage>, r: isize) -> bool {
    &&& image is None ==> r == -1 && k1 == k0
    &&& image is Some ==> r == 0 && exec_done(k0, k1, image->Some_0)
}

/// `k1` and `r` result from `k0` by an mmap of `[start, start + len)` with
/// permission bits `port`.
pub open spec fn mmap_result(k0: Kernel, k1: Kernel, start: usize, len: usize, port: usize, r: isize) -> bool {
    let t0 = k0.tcb(k0.cur());
    let s = vpn_floor(start as int);
    let e = vpn_ceil(start + len);
    let ok = mmap_args_ok(start, port) && (len == 0 || (start + len <= usize::MAX
        && !overlaps_any(t0.memory_set.areas@, s, e)));
    &&& r == 0 <==> ok
    &&& r == -1 <==> !ok
    &&& (r == -1 || len == 0) ==> k1 == k0
    &&& (r == 0 && len > 0) ==> mapped(k0, k1, start, len, port)
}

/// `k1` and `r` result from `k0` by an munmap of `[start, start + len)`.
pub open spec fn munmap_result(k0: Kernel, k1: Kernel, start: usize, len: usize, r: isize) -> bool {
    let t0 = k0.tcb(k0.cur());
    let s = vpn_floor(start as int);
    let e = vpn_ceil(start + len);
    let ok = len == 0 || (start + len <= usize::MAX && start as int % PAGE_SIZE as int == 0
        && matches_any(t0.memory_set.areas@, s, e));
    &&& r == 0 <==> ok
    &&& r == -1 <==> !ok
    &&& (r == -1 || len == 0) ==> k1 == k0
    &&& (r == 0 && len > 0) ==> unmapped(k0, k1, start, len)
}

/// `k1` and `r` result from `k0` by moving the program break by `size`.
pub open spec fn sbrk_result(k0: Kernel, k1: Kernel, size: i32, r: isize) -> bool {
    let t0 = k0.tcb(k0.cur());
    let new_brk = t0.program_brk + size;
    let areas0 = t0.memory_set.areas@;
    let ok = t0.heap_bottom <= new_brk <= usize::MAX && exists|i: int|
        #[trigger] first_starting_at(areas0, i, vpn_floor(t0.heap_bottom as int)) && resize_fits(areas0, i, vpn_ceil(new_brk));
    &&& ok ==> r == t0.program_brk as isize && brk_moved(k0, k1, size)
    &&& !ok ==> r == -1 && k1 == k0
}

/// `k1` and `r` result from `k0` by a spawn of `image`: -1, changing
/// nothing, when no program was found or the pid pool is exhausted, else
/// the child's pid.
pub open spec fn spawn_result(k0: Kernel, k1: Kernel, image: Option<ProgramImage>, r: isize) -> bool {
    &&& image is None ==> r == -1
    &&& r == -1 <==> image is None || (forall|q: int| 0 <= q < MAX_TASKS ==> #[trigger] k0.live(q))
    &&& r == -1 ==> k1 == k0
    &&& r != -1 ==> spawned(k0, k1, r as int, image->Some_0)
}

/// `k1` and `r` result from `k0` by setting the running task's priority to
/// `prio`: -1, changing nothing, below 2, else `prio`.
pub open spec fn set_priority_result(k0: Kernel, k1: Kernel, prio: isize, r: isize) -> bool {
    &&& prio < MIN_PRIORITY ==> r == -1 && k1 == k0
    &&& prio >= MIN_PRIORITY ==> r == prio && priority_set(k0, k1, prio as usize)
}

/// Whether `mmap`'s arguments are well formed: a page-aligned start, and
/// permission bits that are a nonzero subset of read, write and execute.
pub open spec fn mmap_args_ok(start: usize, port: usize) -> bool {
    start as int % PAGE_SIZE as int == 0 && port != 0 && port <= 7
}

/// Maps `[start, start + len)` for the running task with permission bits
/// `port` (read 1, write 2, execute 4) plus user access. 0 on success or when
/// `len` is 0 (with well-formed arguments; nothing is mapped then); -1,
/// changing nothing, when the arguments are malformed, the range runs past
/// the address space, or it shares a page with a region already mapped.
pub fn sys_mmap(k: &mut Kernel, start: usize, len: usize, port: usize) -> (r: isize)
    requires
        old(k).wf(),
        old(k).current is Some,
    ensures
        final(k).wf(),
        mmap_result(*old(k), *final(k), start, len, port, r),
{
    if port & 0x7 == 0 || start & 0xfff != 0 || port & !0x7usize != 0 {
        proof {
            assert((port & 0x7 == 0 || port & !0x7usize != 0) == (port == 0 || port > 7)) by (bit_vector);
            assert((start & 0xfff != 0) == (start % 4096 != 0)) by (bit_vector);
        }
        return -1;
    }
    proof {
        assert((port & 0x7 == 0 || port & !0x7usize != 0) == (port == 0 || port > 7)) by (bit_vector);
        assert((start & 0xfff != 0) == (start % 4096 != 0)) by (bit_vector);
    }
    if len == 0 {
        return 0;
    }
    if len > usize::MAX - start {
        return -1;
    }
    if k.do_task_mmap(start, len, port) {
        0
    } else {
        -1
    }
}

/// Unmaps the running task's region that starts exactly at `start` and ends
/// where `start + len` rounds up to. 0 on success or when `len` is 0 (nothing
/// changes then); -1, changing nothing, when no region has exactly those
/// bounds.
pub fn sys_munmap(k: &mut Kernel, start: usize, len: usize) -> (r: isize)
    requires
        old(k).wf(),
        old(k).current is Some,
    ensures
        final(k).wf(),
        munmap_result(*old(k), *final(k), start, len, r),
{
    if len == 0 {
        return 0;
    }
    if len > usize::MAX - start {
        return -1;
    }
    if k.do_task_munmap(start, len) {
        0
    } else {
        -1
    }
}

/// Moves the running task's program break by `size` bytes; returns the old
/// break, or -1, changing nothing, when the break cannot move there.
pub fn sys_sbrk(k: &mut Kernel, size: i32) -> (r: isize)
    requires
        old(k).wf(),
        old(k).current is Some,
    ensures
        final(k).wf(),
        sbrk_result(*old(k), *final(k), size, r),
{
    match k.change_program_brk(size) {
        Some(old_brk) => old_brk as isize,
        None => -1,
    }
}

/// Creates a child of the running task running `image`, the program the
/// file layer found at the requested path. Returns the child's pid; -1,
/// changing nothing, when no program was found or the pid pool is exhausted.
pub fn sys_spawn(k: &mut Kernel, image: Option<ProgramImage>) -> (r: isize)
    requires
        old(k).wf(),
        old(k).current is Some,
        image matches Some(img) ==> areas_disjoint(img.memory_set.areas@),
    ensures
        final(k).wf(),
        spawn_result(*old(k), *final(k), image, r),
{
    match image {
        None => -1,
        Some(img) => k.spawn(img),
    }
}

/// Sets the running task's priority; returns it, or -1, changing nothing,
/// when it is below 2. Its later stride steps are `BIG_STRIDE / prio`.
pub fn sys_set_priority(k: &mut Kernel, prio: isize) -> (r: isize)
    requires
        old(k).wf(),
        old(k).current is Some,
    ensures
        final(k).wf(),
        set_priority_result(*old(k), *final(k), prio, r),
{
    k.set_priority(prio)
}

} // verus!
