//! The task table, the processor and the life-cycle operations.
use vstd::prelude::*;
use crate::config::{BIG_STRIDE, DEFAULT_PRIORITY, INIT_PID, KERNEL_STACK_SIZE, MAX_SYSCALL_NUM, MAX_TASKS, MIN_PRIORITY, PAGE_SIZE, TRAMPOLINE};
use crate::context::TaskContext;
use crate::manager::TaskManager;
use crate::memory::{areas_disjoint, vpn_ceil, vpn_floor, MapArea, PERM_U};
use crate::task::{ProgramImage, TaskControlBlock, TaskStatus};
use crate::trap_context::{is_app_init_context, TrapContext, REG_A0};

verus! {

/// Top of the kernel stack of task `pid`: stacks sit below the trampoline,
/// each followed by an unmapped guard page.
pub open spec fn kstack_top(pid: int) -> int {
    TRAMPOLINE - pid * (KERNEL_STACK_SIZE + PAGE_SIZE)
}

/// Computes the top of the kernel stack of task `pid`.
pub fn kernel_stack_top(pid: usize) -> (r: usize)
    requires
        pid < MAX_TASKS,
    ensures
        r == kstack_top(pid as int),
{
    assert(pid * (KERNEL_STACK_SIZE + PAGE_SIZE) <= MAX_TASKS * (KERNEL_STACK_SIZE + PAGE_SIZE)) by (nonlinear_arith)
        requires pid < MAX_TASKS;
    TRAMPOLINE - pid * (KERNEL_STACK_SIZE + PAGE_SIZE)
}

/// Addresses and values fixed at boot that new register frames need.
#[derive(Clone, Copy, Debug)]
pub struct KernelLayout {
    /// Page-table token of the kernel address space.
    pub kernel_satp: usize,
    /// Address of the kernel's trap handler.
    pub trap_handler: usize,
    /// Address of the trap-return path that a fresh task starts in.
    pub restore_entry: usize,
    /// Status word to derive user-mode status words from.
    pub sstatus: usize,
}

/// A list of `n` zero counters.
pub fn zero_counts(n: usize) -> (r: Vec<u32>)
    ensures
        r@ == Seq::new(n as nat, |i: int| 0u32),
{
    let mut v: Vec<u32> = Vec::new();
    let mut i: usize = 0;
    while i < n
        invariant
            0 <= i <= n,
            v@ == Seq::new(i as nat, |j: int| 0u32),
        decreases n - i,
    {
        v.push(0);
        i = i + 1;
        assert(v@ =~= Seq::new(i as nat, |j: int| 0u32));
    }
    v
}

/// The stride step of a task with priority `prio`.
pub open spec fn pass_of(prio: int) -> int {
    BIG_STRIDE as int / prio
}

/// `stride` advanced by one step at priority `prio`, held at the top of the
/// range rather than wrapping.
pub open spec fn advanced_stride(stride: u64, prio: usize) -> u64 {
    if stride + pass_of(prio as int) <= u64::MAX {
        (stride + pass_of(prio as int)) as u64
    } else {
        u64::MAX
    }
}

/// `k1` is `k0` after `run_next` at time `now_ms` returned `r`: with no task
/// ready nothing changed and `r` is `None`; otherwise the task at the front
/// of the queue left it and runs, its start time set to `now_ms` if it never
/// ran before.
pub open spec fn dispatched(k0: Kernel, k1: Kernel, now_ms: usize, r: Option<usize>) -> bool {
    &&& k0.manager@.len() == 0 ==> r is None && k1 == k0
    &&& k0.manager@.len() > 0 ==> {
        let p = k0.manager@[0].1;
        let t = k0.tcb(p as int);
        &&& r == Some(p)
        &&& k1.current == Some(p)
        &&& k1.layout == k0.layout
        &&& k1.manager@ == k0.manager@.drop_first()
        &&& k1.tasks@ == k0.tasks@.update(
            p as int,
            Some(TaskControlBlock {
                task_status: TaskStatus::Running,
                start_time: if t.start_time is None { Some(now_ms) } else { t.start_time },
                ..t
            }),
        )
    }
}

/// `k1` is `k0` after its running task was taken off the processor and
/// queued again as ready, its stride advanced by one step.
pub open spec fn suspend_step(k0: Kernel, k1: Kernel) -> bool {
    let c = k0.cur();
    let t = k0.tcb(c);
    let t2 = TaskControlBlock {
        task_status: TaskStatus::Ready,
        task_stride: advanced_stride(t.task_stride, t.task_priority),
        ..t
    };
    &&& k0.current is Some
    &&& k1.current is None
    &&& k1.layout == k0.layout
    &&& k1.tasks@ == k0.tasks@.update(c, Some(t2))
    &&& crate::manager::stride_inserted(k0.manager@, (t2.task_stride, c as usize), k1.manager@)
}

/// What holds of the block of task `p` on its own: it carries its pid and
/// stack, a full counter table and a valid priority, and once a zombie it has
/// handed over its children and released its memory.
pub open spec fn block_wf(p: int, t: TaskControlBlock) -> bool {
    &&& t.pid == p
    &&& t.kernel_stack_top == kstack_top(p)
    &&& t.syscall_times@.len() == MAX_SYSCALL_NUM
    &&& t.task_priority >= MIN_PRIORITY
    &&& t.task_status != TaskStatus::UnInit
    &&& t.parent != Some(p as usize)
    &&& (p != INIT_PID ==> t.parent is Some)
    &&& areas_disjoint(t.memory_set.areas@)
    &&& (t.task_status == TaskStatus::Running ==> t.start_time is Some)
    &&& (t.task_status == TaskStatus::Zombie ==> t.children@.len() == 0 && t.memory_set.areas@.len() == 0)
}

/// `a` and `b` agree on everything but status, parent and children.
pub open spec fn same_core(a: TaskControlBlock, b: TaskControlBlock) -> bool {
    &&& a.pid == b.pid
    &&& a.kernel_stack_top == b.kernel_stack_top
    &&& a.task_cx == b.task_cx
    &&& a.trap_cx == b.trap_cx
    &&& a.memory_set.token == b.memory_set.token
    &&& a.memory_set.areas@ == b.memory_set.areas@
    &&& a.exit_code == b.exit_code
    &&& a.task_priority == b.task_priority
    &&& a.task_stride == b.task_stride
    &&& a.syscall_times@ == b.syscall_times@
    &&& a.start_time == b.start_time
    &&& a.heap_bottom == b.heap_bottom
    &&& a.program_brk == b.program_brk
}

/// `a` and `b` agree on everything but the parent.
pub open spec fn same_but_parent(a: TaskControlBlock, b: TaskControlBlock) -> bool {
    same_core(a, b) && a.task_status == b.task_status && a.children@ == b.children@
}

/// `a` and `b` agree on everything but the children.
pub open spec fn same_but_children(a: TaskControlBlock, b: TaskControlBlock) -> bool {
    same_core(a, b) && a.task_status == b.task_status && a.parent == b.parent
}

/// `k1` is `k0` after its running task, not the init task, exited with
/// `code`: the task is a zombie holding `code`, its memory is released, its
/// children are appended, in order, to the init task's children and name the
/// init task as parent, and nothing else changed.
pub open spec fn exit_step(k0: Kernel, k1: Kernel, code: i32) -> bool {
    let c = k0.cur();
    let kids = k0.children_of(c);
    &&& k0.current is Some
    &&& c != INIT_PID
    &&& k1.current is None
    &&& k1.manager == k0.manager
    &&& k1.layout == k0.layout
    &&& k1.tasks@.len() == k0.tasks@.len()
    &&& forall|q: int| #[trigger] k1.live(q) == k0.live(q)
    &&& k1.tcb(c).task_status == TaskStatus::Zombie
    &&& k1.tcb(c).exit_code == code
    &&& k1.tcb(c).children@.len() == 0
    &&& k1.tcb(c).memory_set.areas@.len() == 0
    &&& k1.tcb(c).memory_set.token == k0.tcb(c).memory_set.token
    &&& k1.tcb(c).parent == k0.tcb(c).parent
    &&& k1.tcb(c).pid == k0.tcb(c).pid
    &&& k1.tcb(c).kernel_stack_top == k0.tcb(c).kernel_stack_top
    &&& k1.tcb(c).task_priority == k0.tcb(c).task_priority
    &&& k1.tcb(c).syscall_times@ == k0.tcb(c).syscall_times@
    &&& k1.tcb(c).task_cx == k0.tcb(c).task_cx
    &&& k1.tcb(c).trap_cx == k0.tcb(c).trap_cx
    &&& k1.tcb(c).task_stride == k0.tcb(c).task_stride
    &&& k1.tcb(c).start_time == k0.tcb(c).start_time
    &&& k1.tcb(c).heap_bottom == k0.tcb(c).heap_bottom
    &&& k1.tcb(c).program_brk == k0.tcb(c).program_brk
    &&& k1.children_of(INIT_PID as int) == k0.children_of(INIT_PID as int) + kids
    &&& same_but_children(k1.tcb(INIT_PID as int), k0.tcb(INIT_PID as int))
    &&& forall|q: int| #[trigger] k0.live(q) && q != c && q != INIT_PID ==> if kids.contains(q as usize) {
        same_but_parent(k1.tcb(q), k0.tcb(q)) && k1.tcb(q).parent == Some(INIT_PID)
    } else {
        k1.tcb(q) == k0.tcb(q)
    }
}

/// Whether `t` is a block fit to enter the table as a new child of `parent`
/// at the free pid `p`: fresh counters, ready, at stride 0, with no children,
/// and a kernel context that starts in the trap-return path.
pub open spec fn fresh_child(t: TaskControlBlock, p: int, parent: int, layout: KernelLayout) -> bool {
    &&& t.pid == p
    &&& t.kernel_stack_top == kstack_top(p)
    &&& t.task_status == TaskStatus::Ready
    &&& t.task_cx.ra == layout.restore_entry
    &&& t.task_cx.sp == kstack_top(p)
    &&& t.task_cx.callee_saved_zero()
    &&& t.parent == Some(parent as usize)
    &&& t.children@.len() == 0
    &&& t.exit_code == 0
    &&& t.task_priority == DEFAULT_PRIORITY
    &&& t.task_stride == 0
    &&& t.syscall_times@ == Seq::new(MAX_SYSCALL_NUM as nat, |i: int| 0u32)
    &&& t.start_time is None
}

/// `k1` is `k0` with block `t` entered at the free pid `p` as a new child of
/// the running task, and queued at stride 0.
pub open spec fn child_added(k0: Kernel, k1: Kernel, p: int, t: TaskControlBlock) -> bool {
    let c = k0.cur();
    &&& !k0.live(p)
    &&& k1.live(p)
    &&& k1.tcb(p) == t
    &&& k1.current == k0.current
    &&& k1.layout == k0.layout
    &&& forall|q: int| #![trigger k1.live(q)] #![trigger k0.live(q)]
        q != p && q != c ==> k1.live(q) == k0.live(q) && (k0.live(q) ==> k1.tcb(q) == k0.tcb(q))
    &&& k1.live(c)
    &&& same_but_children(k1.tcb(c), k0.tcb(c))
    &&& k1.children_of(c) == k0.children_of(c).push(p as usize)
    &&& crate::manager::stride_inserted(k0.manager@, (0u64, p as usize), k1.manager@)
}

/// `k1` is `k0` with only the running task's block replaced, by one that
/// keeps its status, links and pid.
pub open spec fn running_block_replaced(k0: Kernel, k1: Kernel) -> bool {
    let c = k0.cur();
    &&& k0.current is Some
    &&& k0.live(c)
    &&& k1.current == k0.current
    &&& k1.manager == k0.manager
    &&& k1.layout == k0.layout
    &&& k1.tasks@ == k0.tasks@.update(c, k1.tasks@[c])
    &&& k1.live(c)
    &&& block_wf(c, k1.tcb(c))
    &&& k1.tcb(c).task_status == k0.tcb(c).task_status
    &&& k1.tcb(c).parent == k0.tcb(c).parent
    &&& k1.tcb(c).children@ == k0.tcb(c).children@
}

/// A counter after one more event, held at the top of its range.
pub open spec fn bumped(v: u32) -> u32 {
    if v < u32::MAX { (v + 1) as u32 } else { v }
}

/// Region permissions for the user permission bits `port` (read, write,
/// execute in bits 0..2): each shifted one place up, plus user access.
pub open spec fn perm_of(port: usize) -> u8 {
    (port * 2 + PERM_U) as u8
}

/// Computes the region permissions for user permission bits `port`.
pub fn map_perm(port: usize) -> (r: u8)
    requires
        port <= 7,
    ensures
        r == perm_of(port),
{
    let b = port as u8;
    assert(((b << 1u8) | 16u8) == b * 2 + 16) by (bit_vector)
        requires b <= 7u8;
    (b << 1u8) | PERM_U
}

/// A copy of a list of counters.
pub fn copy_counts(v: &Vec<u32>) -> (r: Vec<u32>)
    ensures
        r@ == v@,
{
    let mut out: Vec<u32> = Vec::new();
    let n = v.len();
    let mut i: usize = 0;
    while i < n
        invariant
            n == v@.len(),
            0 <= i <= n,
            out@ == v@.subrange(0, i as int),
        decreases n - i,
    {
        out.push(v[i]);
        i = i + 1;
        assert(out@ =~= v@.subrange(0, i as int));
    }
    assert(out@ =~= v@);
    out
}

/// `k1` and the exit code `code1` result from `k0` and `code0` by a wait
/// of `k0`'s running task for a child that `pid` names (-1: any child):
/// -1 when no child matches and -2 when none of the matching children has
/// exited, both changing nothing; otherwise the first matching zombie child
/// is reaped, its exit code stored, and its pid returned.
pub open spec fn waitpid_result(k0: Kernel, k1: Kernel, pid: isize, code0: i32, code1: i32, r: isize) -> bool {
    let kids = k0.children_of(k0.cur());
    let any_match = exists|i: int| 0 <= i < kids.len() && pid_matches(pid, #[trigger] kids[i]);
    let any_zombie = exists|i: int| 0 <= i < kids.len() && reapable(k0, pid, #[trigger] kids[i]);
    &&& r == -1 <==> !any_match
    &&& r == -2 <==> any_match && !any_zombie
    &&& any_zombie ==> r >= 0
    &&& r < 0 ==> k1 == k0 && code1 == code0
    &&& r >= 0 ==> exists|i: int| #[trigger] first_reapable(k0, pid, i) && r == kids[i]
        && code1 == k0.tcb(kids[i] as int).exit_code && reaped(k0, k1, i)
}

/// `k1` is `k0` after its running task forked into the child `p`, whose
/// regions copy the parent's under the page table `child_token`, whose user
/// registers are the parent's with a zero return value, and whose counters
/// are fresh; `p` was the lowest free pid.
pub open spec fn forked(k0: Kernel, k1: Kernel, p: int, child_token: usize) -> bool {
    let c = k0.cur();
    let parent = k0.tcb(c);
    let t = k1.tcb(p);
    &&& 0 <= p < MAX_TASKS
    &&& forall|q: int| 0 <= q < p ==> #[trigger] k0.live(q)
    &&& child_added(k0, k1, p, t)
    &&& fresh_child(t, p, c, k0.layout)
    &&& t.memory_set.token == child_token
    &&& t.memory_set.areas@ == parent.memory_set.areas@
    &&& t.trap_cx.x@ == parent.trap_cx.x@.update(REG_A0 as int, 0usize)
    &&& t.trap_cx == TrapContext { x: t.trap_cx.x, kernel_sp: kstack_top(p) as usize, ..parent.trap_cx }
    &&& t.heap_bottom == parent.heap_bottom
    &&& t.program_brk == parent.program_brk
}

/// `k1` is `k0` after its running task spawned the child `p` running
/// `image`; `p` was the lowest free pid.
pub open spec fn spawned(k0: Kernel, k1: Kernel, p: int, image: ProgramImage) -> bool {
    let c = k0.cur();
    let t = k1.tcb(p);
    let l = k0.layout;
    &&& 0 <= p < MAX_TASKS
    &&& forall|q: int| 0 <= q < p ==> #[trigger] k0.live(q)
    &&& child_added(k0, k1, p, t)
    &&& fresh_child(t, p, c, l)
    &&& t.memory_set.token == image.memory_set.token
    &&& t.memory_set.areas@ == image.memory_set.areas@
    &&& is_app_init_context(t.trap_cx, image.entry, image.user_sp, l.sstatus, l.kernel_satp,
        kstack_top(p) as usize, l.trap_handler)
    &&& t.heap_bottom == image.user_sp
    &&& t.program_brk == image.user_sp
}

/// `k1` is `k0` after its running task's memory image was replaced by
/// `image`: regions, user registers and heap start over; pid, kernel stack,
/// links and counters stay.
pub open spec fn exec_done(k0: Kernel, k1: Kernel, image: ProgramImage) -> bool {
    let c = k0.cur();
    let t0 = k0.tcb(c);
    let t = k1.tcb(c);
    let l = k0.layout;
    &&& running_block_replaced(k0, k1)
    &&& t.memory_set.token == image.memory_set.token
    &&& t.memory_set.areas@ == image.memory_set.areas@
    &&& is_app_init_context(t.trap_cx, image.entry, image.user_sp, l.sstatus, l.kernel_satp,
        t0.kernel_stack_top, l.trap_handler)
    &&& t.heap_bottom == image.user_sp
    &&& t.program_brk == image.user_sp
    &&& t.pid == t0.pid
    &&& t.kernel_stack_top == t0.kernel_stack_top
    &&& t.task_cx == t0.task_cx
    &&& t.exit_code == t0.exit_code
    &&& t.task_priority == t0.task_priority
    &&& t.task_stride == t0.task_stride
    &&& t.syscall_times@ == t0.syscall_times@
    &&& t.start_time == t0.start_time
}

/// `k1` is `k0` with the running task's priority set to `prio`.
pub open spec fn priority_set(k0: Kernel, k1: Kernel, prio: usize) -> bool {
    &&& running_block_replaced(k0, k1)
    &&& k1.tcb(k0.cur()) == (TaskControlBlock { task_priority: prio, ..k0.tcb(k0.cur()) })
}

/// `k1` is `k0` with `value` in the running task's return-value register.
pub open spec fn return_value_set(k0: Kernel, k1: Kernel, value: isize) -> bool {
    let t0 = k0.tcb(k0.cur());
    let t = k1.tcb(k0.cur());
    &&& running_block_replaced(k0, k1)
    &&& t.trap_cx.x@ == t0.trap_cx.x@.update(REG_A0 as int, value as usize)
    &&& t.trap_cx == TrapContext { x: t.trap_cx.x, ..t0.trap_cx }
    &&& t == TaskControlBlock { trap_cx: t.trap_cx, ..t0 }
}

/// `k1` is `k0` with a region over the pages of `[start, start + len)`,
/// with permissions for `port`, appended to the running task's regions.
pub open spec fn mapped(k0: Kernel, k1: Kernel, start: usize, len: usize, port: usize) -> bool {
    let t0 = k0.tcb(k0.cur());
    let t = k1.tcb(k0.cur());
    &&& running_block_replaced(k0, k1)
    &&& t == TaskControlBlock { memory_set: t.memory_set, ..t0 }
    &&& t.memory_set.token == t0.memory_set.token
    &&& t.memory_set.areas@ == t0.memory_set.areas@.push(
        MapArea {
            start_vpn: vpn_floor(start as int) as usize,
            end_vpn: vpn_ceil(start + len) as usize,
            perm: perm_of(port),
        },
    )
}

/// `k1` is `k0` with the first of the running task's regions that covers
/// exactly the pages of `[start, start + len)` removed.
pub open spec fn unmapped(k0: Kernel, k1: Kernel, start: usize, len: usize) -> bool {
    let t0 = k0.tcb(k0.cur());
    let t = k1.tcb(k0.cur());
    &&& running_block_replaced(k0, k1)
    &&& t == TaskControlBlock { memory_set: t.memory_set, ..t0 }
    &&& t.memory_set.token == t0.memory_set.token
    &&& exists|i: int| #[trigger] crate::memory::first_exact(t0.memory_set.areas@, i, vpn_floor(start as int),
        vpn_ceil(start + len)) && t.memory_set.areas@ == t0.memory_set.areas@.remove(i)
}

/// `k1` is `k0` with the running task's program break moved by `size` and
/// its heap region (the first region starting at the heap's page) ending
/// where the new break rounds up to.
pub open spec fn brk_moved(k0: Kernel, k1: Kernel, size: i32) -> bool {
    let t0 = k0.tcb(k0.cur());
    let t = k1.tcb(k0.cur());
    let new_brk = t0.program_brk + size;
    let areas0 = t0.memory_set.areas@;
    &&& running_block_replaced(k0, k1)
    &&& t == TaskControlBlock { memory_set: t.memory_set, program_brk: new_brk as usize, ..t0 }
    &&& t.memory_set.token == t0.memory_set.token
    &&& exists|i: int| #[trigger] crate::memory::first_starting_at(areas0, i, vpn_floor(t0.heap_bottom as int))
        && t.memory_set.areas@ == areas0.update(i, MapArea { end_vpn: vpn_ceil(new_brk) as usize, ..areas0[i] })
}

/// Whether pid `p` passes the filter of a wait: -1 takes any child.
pub open spec fn pid_matches(filter: isize, p: usize) -> bool {
    filter == -1 || filter as int == p as int
}

/// Whether child `p` of `k`'s running task can be reaped by a wait with `filter`.
pub open spec fn reapable(k: Kernel, filter: isize, p: usize) -> bool {
    pid_matches(filter, p) && k.tcb(p as int).task_status == TaskStatus::Zombie
}

/// Whether `i` is the first position among the running task's children whose
/// child can be reaped by a wait with `filter`.
pub open spec fn first_reapable(k: Kernel, filter: isize, i: int) -> bool {
    let kids = k.children_of(k.cur());
    &&& 0 <= i < kids.len()
    &&& reapable(k, filter, kids[i])
    &&& forall|j: int| 0 <= j < i ==> !reapable(k, filter, #[trigger] kids[j])
}

/// `k1` is `k0` after the running task reaped the child at position `i` of
/// its children: the child is gone from the list and from the table, and
/// nothing else changed.
pub open spec fn reaped(k0: Kernel, k1: Kernel, i: int) -> bool {
    let c = k0.cur();
    let z = k0.children_of(c)[i] as int;
    &&& k1.current == k0.current
    &&& k1.manager == k0.manager
    &&& k1.layout == k0.layout
    &&& k1.live(c)
    &&& same_but_children(k1.tcb(c), k0.tcb(c))
    &&& k1.children_of(c) == k0.children_of(c).remove(i)
    &&& !k1.live(z)
    &&& forall|q: int| #![trigger k1.live(q)] #![trigger k0.live(q)]
        q != z && q != c ==> k1.live(q) == k0.live(q) && (k0.live(q) ==> k1.tcb(q) == k0.tcb(q))
}

/// Slots other than `p` are the same in `k` and `k0`.
pub proof fn lemma_slot_frame(k0: &Kernel, k: &Kernel, p: int)
    requires
        k.tasks@.len() == k0.tasks@.len(),
        forall|q: int| 0 <= q < k.tasks@.len() && q != p ==> k.tasks@[q] == k0.tasks@[q],
    ensures
        forall|q: int|
            #![trigger k.live(q)]
            #![trigger k0.live(q)]
            q != p ==> k.live(q) == k0.live(q) && (k.live(q) ==> k.tcb(q) == k0.tcb(q)),
{
}

/// A kernel whose live tasks, children lists and parent links are those of
/// `k0` keeps `k0`'s tree shape.
pub proof fn lemma_links_kept(k0: &Kernel, k: &Kernel)
    requires
        k0.wf_tree(),
        forall|q: int| #![trigger k.live(q)] #![trigger k0.live(q)] k.live(q) == k0.live(q),
        forall|q: int| #[trigger] k.live(q) ==> k.children_of(q) == k0.children_of(q) && k.tcb(q).parent == k0.tcb(q).parent,
    ensures
        k.wf_tree(),
{
    assert forall|p: int, i: int| #[trigger] k.live(p) && 0 <= i < k.children_of(p).len() implies {
        let c = #[trigger] k.children_of(p)[i];
        k.live(c as int) && k.tcb(c as int).parent == Some(p as usize)
    } by {
        assert(k0.live(p));
        assert(k0.live(k0.children_of(p)[i] as int));
    }
    assert forall|p: int| #[trigger] k.live(p) implies k.children_of(p).no_duplicates() by {
        assert(k0.live(p));
    }
    assert forall|c: int| #[trigger] k.live(c) && k.tcb(c).parent is Some implies {
        let p = k.tcb(c).parent->Some_0;
        k.live(p as int) && k.children_of(p as int).contains(c as usize)
    } by {
        assert(k0.live(c));
        assert(k0.live(k0.tcb(c).parent->Some_0 as int));
    }
}

/// The whole process state of the kernel: the task table indexed by pid, the
/// task on the processor, and the ready queue.
pub struct Kernel {
    pub tasks: Vec<Option<TaskControlBlock>>,
    pub current: Option<usize>,
    pub manager: TaskManager,
    pub layout: KernelLayout,
}

impl Kernel {
    /// Whether `p` is the pid of a task that exists.
    pub open spec fn live(&self, p: int) -> bool {
        0 <= p < self.tasks@.len() && self.tasks@[p] is Some
    }

    /// The block of task `p`.
    pub open spec fn tcb(&self, p: int) -> TaskControlBlock {
        self.tasks@[p]->Some_0
    }

    /// The children of task `p`, in order.
    pub open spec fn children_of(&self, p: int) -> Seq<usize> {
        self.tcb(p).children@
    }

    /// Fields of each block that hold on their own.
    pub open spec fn wf_table(&self) -> bool {
        &&& self.tasks@.len() <= MAX_TASKS
        &&& self.live(INIT_PID as int)
        &&& self.tcb(INIT_PID as int).task_status != TaskStatus::Zombie
        &&& self.tcb(INIT_PID as int).parent is None
        &&& forall|p: int| #[trigger] self.live(p) ==> block_wf(p, self.tcb(p))
    }

    /// Exactly the current task is running.
    pub open spec fn wf_current(&self) -> bool {
        &&& (self.current matches Some(c) ==> self.live(c as int))
        &&& forall|p: int| #[trigger] self.live(p) ==> ((self.tcb(p).task_status == TaskStatus::Running)
            <==> self.current == Some(p as usize))
    }

    /// The ready queue holds each ready task once, at its stride, and nothing else.
    pub open spec fn wf_queue(&self) -> bool {
        let q = self.manager@;
        &&& self.manager.wf()
        &&& forall|i: int| 0 <= i < q.len() ==> {
            let p = #[trigger] q[i].1;
            &&& self.live(p as int)
            &&& self.tcb(p as int).task_status == TaskStatus::Ready
            &&& self.tcb(p as int).task_stride == q[i].0
        }
        &&& forall|i: int, j: int| 0 <= i < j < q.len() ==> q[i].1 != q[j].1
        &&& forall|p: int| #[trigger] self.live(p) && self.tcb(p).task_status == TaskStatus::Ready
            ==> exists|i: int| 0 <= i < q.len() && q[i].1 == p
    }

    /// Parent and child links agree, and no child is listed twice.
    pub open spec fn wf_tree(&self) -> bool {
        &&& forall|p: int, i: int| #[trigger] self.live(p) && 0 <= i < self.children_of(p).len() ==> {
            let c = #[trigger] self.children_of(p)[i];
            self.live(c as int) && self.tcb(c as int).parent == Some(p as usize)
        }
        &&& forall|p: int| #[trigger] self.live(p) ==> self.children_of(p).no_duplicates()
        &&& forall|c: int| #[trigger] self.live(c) && self.tcb(c).parent is Some ==> {
            let p = self.tcb(c).parent->Some_0;
            self.live(p as int) && self.children_of(p as int).contains(c as usize)
        }
    }

    /// The kernel's invariant.
    pub open spec fn wf(&self) -> bool {
        self.wf_table() && self.wf_current() && self.wf_queue() && self.wf_tree()
    }

    /// The pid on the processor.
    pub open spec fn cur(&self) -> int {
        self.current->Some_0 as int
    }

    /// A kernel whose only task is the init task built from `init`, ready to run.
    pub fn new(init: ProgramImage, layout: KernelLayout) -> (r: Self)
        requires
            areas_disjoint(init.memory_set.areas@),
        ensures
            r.wf(),
            r.tasks@.len() == 1,
            r.current is None,
            r.manager@ == seq![(0u64, INIT_PID)],
            r.tcb(INIT_PID as int).task_status == TaskStatus::Ready,
            r.tcb(INIT_PID as int).parent is None,
            r.tcb(INIT_PID as int).children@.len() == 0,
            r.tcb(INIT_PID as int).memory_set.areas@ == init.memory_set.areas@,
            r.tcb(INIT_PID as int).memory_set.token == init.memory_set.token,
            r.layout == layout,
            ({
                let t = r.tcb(INIT_PID as int);
                &&& t.pid == INIT_PID
                &&& t.kernel_stack_top == kstack_top(INIT_PID as int)
                &&& t.task_cx.ra == layout.restore_entry
                &&& t.task_cx.sp == kstack_top(INIT_PID as int)
                &&& t.task_cx.callee_saved_zero()
                &&& is_app_init_context(t.trap_cx, init.entry, init.user_sp, layout.sstatus, layout.kernel_satp,
                    kstack_top(INIT_PID as int) as usize, layout.trap_handler)
                &&& t.exit_code == 0
                &&& t.task_priority == DEFAULT_PRIORITY
                &&& t.task_stride == 0
                &&& t.syscall_times@ == Seq::new(MAX_SYSCALL_NUM as nat, |i: int| 0u32)
                &&& t.start_time is None
                &&& t.heap_bottom == init.user_sp
                &&& t.program_brk == init.user_sp
            }),
    {
        let kstack = kernel_stack_top(INIT_PID);
        let trap_cx = TrapContext::app_init_context(
            init.entry,
            init.user_sp,
            layout.sstatus,
            layout.kernel_satp,
            kstack,
            layout.trap_handler,
        );
        let t = TaskControlBlock {
            pid: INIT_PID,
            kernel_stack_top: kstack,
            task_status: TaskStatus::Ready,
            task_cx: TaskContext::goto_restore(layout.restore_entry, kstack),
            trap_cx,
            memory_set: init.memory_set,
            parent: None,
            children: Vec::new(),
            exit_code: 0,
            task_priority: DEFAULT_PRIORITY,
            task_stride: 0,
            syscall_times: zero_counts(MAX_SYSCALL_NUM),
            start_time: None,
            heap_bottom: init.user_sp,
            program_brk: init.user_sp,
        };
        let mut tasks: Vec<Option<TaskControlBlock>> = Vec::new();
        tasks.push(Some(t));
        let mut manager = TaskManager::new();
        manager.add(INIT_PID, 0);
        let k = Kernel { tasks, current: None, manager, layout };
        assert(k.manager@ =~= seq![(0u64, INIT_PID)]);
        assert(k.wf_queue()) by {
            assert forall|p: int| #[trigger] k.live(p) && k.tcb(p).task_status == TaskStatus::Ready
                implies exists|i: int| 0 <= i < k.manager@.len() && k.manager@[i].1 == p by {
                assert(k.manager@[0].1 == p);
            }
        }
        k
    }

    /// Takes the block of task `p` out of its slot, leaving the slot empty.
    pub(crate) fn take_task(&mut self, p: usize) -> (t: TaskControlBlock)
        requires
            old(self).live(p as int),
        ensures
            t == old(self).tcb(p as int),
            final(self).tasks@ == old(self).tasks@.update(p as int, None),
            final(self).current == old(self).current,
            final(self).manager == old(self).manager,
            final(self).layout == old(self).layout,
    {
        let mut slot: Option<TaskControlBlock> = None;
        std::mem::swap(&mut self.tasks[p], &mut slot);
        slot.unwrap()
    }

    /// Puts block `t` into slot `p`.
    pub(crate) fn put_task(&mut self, p: usize, t: TaskControlBlock)
        requires
            p < old(self).tasks@.len(),
        ensures
            final(self).tasks@ == old(self).tasks@.update(p as int, Some(t)),
            final(self).current == old(self).current,
            final(self).manager == old(self).manager,
            final(self).layout == old(self).layout,
    {
        self.tasks[p] = Some(t);
    }

    /// Pid of the running task.
    pub fn getpid(&self) -> (r: usize)
        requires
            self.wf(),
            self.current is Some,
        ensures
            r == self.cur(),
    {
        self.current.unwrap()
    }

    /// Page-table token of the running task's address space.
    pub fn current_user_token(&self) -> (r: usize)
        requires
            self.wf(),
            self.current is Some,
        ensures
            r == self.tcb(self.cur()).memory_set.token,
    {
        let c = self.current.unwrap();
        self.tasks[c].as_ref().unwrap().memory_set.token()
    }

    /// Puts the lowest-stride ready task (the earliest among equals) on the
    /// processor, recording `now_ms` as its start time if it never ran; `None`
    /// when no task is ready.
    pub fn run_next(&mut self, now_ms: usize) -> (r: Option<usize>)
        requires
            old(self).wf(),
            old(self).current is None,
        ensures
            final(self).wf(),
            dispatched(*old(self), *final(self), now_ms, r),
    {
        let ghost k0 = *self;
        match self.manager.fetch() {
            None => {
                assert(*self == k0);
                None
            },
            Some(p) => {
                proof {
                    assert(k0.manager@[0].1 == p);
                }
                let mut t = self.take_task(p);
                t.task_status = TaskStatus::Running;
                if t.start_time.is_none() {
                    t.start_time = Some(now_ms);
                }
                self.put_task(p, t);
                self.current = Some(p);
                proof {
                    lemma_slot_frame(&k0, self, p as int);
                    let q0 = k0.manager@;
                    let q = self.manager@;
                    assert(forall|i: int| 0 <= i < q.len() ==> q[i] == q0[i + 1]);
                    assert forall|pp: int| #[trigger] self.live(pp) && self.tcb(pp).task_status == TaskStatus::Ready
                        implies exists|i: int| 0 <= i < q.len() && q[i].1 == pp by {
                        assert(k0.live(pp) && k0.tcb(pp).task_status == TaskStatus::Ready);
                        let i0 = choose|i: int| 0 <= i < q0.len() && q0[i].1 == pp;
                        assert(i0 != 0);
                        assert(q[i0 - 1].1 == pp);
                    }
                    assert forall|i: int, j: int| 0 <= i < j < q.len() implies q[i].1 != q[j].1 by {
                        assert(q0[i + 1].1 != q0[j + 1].1);
                    }
                    assert forall|i: int| 0 <= i < q.len() implies {
                        let pp = #[trigger] q[i].1;
                        &&& self.live(pp as int)
                        &&& self.tcb(pp as int).task_status == TaskStatus::Ready
                        &&& self.tcb(pp as int).task_stride == q[i].0
                    } by {
                        assert(q0[i + 1].1 != q0[0].1);
                    }
                    lemma_links_kept(&k0, self);
                    assert(self.wf_table());
                    assert(self.wf_current());
                    assert(self.wf_queue());
                    assert(self.layout == k0.layout);
                    assert(self.manager@ == k0.manager@.drop_first());
                    assert(self.current == Some(p));
                    assert(k0.manager@[0].1 == p);
                    assert(self.tasks@ == k0.tasks@.update(
                        p as int,
                        Some(TaskControlBlock {
                            task_status: TaskStatus::Running,
                            start_time: if k0.tcb(p as int).start_time is None { Some(now_ms) } else { k0.tcb(p as int).start_time },
                            ..k0.tcb(p as int)
                        }),
                    ));
                }
                Some(p)
            },
        }
    }

    /// Takes the running task off the processor and queues it again, its
    /// stride advanced by one step.
    pub fn suspend_current(&mut self)
        requires
            old(self).wf(),
            old(self).current is Some,
        ensures
            final(self).wf(),
            suspend_step(*old(self), *final(self)),
    {
        let ghost k0 = *self;
        let c = self.current.unwrap();
        let mut t = self.take_task(c);
        let pass = (BIG_STRIDE / t.task_priority) as u64;
        t.task_stride = t.task_stride.saturating_add(pass);
        t.task_status = TaskStatus::Ready;
        let stride = t.task_stride;
        self.put_task(c, t);
        self.current = None;
        self.manager.add(c, stride);
        proof {
            assert(self.layout == k0.layout);
            assert(k0.current is Some);
            assert(self.tasks@ == k0.tasks@.update(c as int, Some(TaskControlBlock {
                task_status: TaskStatus::Ready,
                task_stride: advanced_stride(k0.tcb(c as int).task_stride, k0.tcb(c as int).task_priority),
                ..k0.tcb(c as int)
            })));
            assert(crate::manager::stride_inserted(k0.manager@, (stride, c), self.manager@));
            lemma_slot_frame(&k0, self, c as int);
            let q0 = k0.manager@;
            let q = self.manager@;
            let e = (stride, c);
            let k = choose|k: int|
                0 <= k <= q0.len() && q == q0.insert(k, e) && (forall|j: int| 0 <= j < k ==> q0[j].0 <= e.0)
                    && (forall|j: int| k <= j < q0.len() ==> q0[j].0 > e.0);
            assert(0 <= k <= q0.len() && q == q0.insert(k, e));
            assert forall|i: int| 0 <= i < q0.len() implies q0[i].1 != c by {
                assert(k0.live(q0[i].1 as int));
            }
            assert forall|i: int| 0 <= i < q.len() implies {
                let pp = #[trigger] q[i].1;
                &&& self.live(pp as int)
                &&& self.tcb(pp as int).task_status == TaskStatus::Ready
                &&& self.tcb(pp as int).task_stride == q[i].0
            } by {
                if i < k {
                    assert(q[i] == q0[i]);
                } else if i > k {
                    assert(q[i] == q0[i - 1]);
                }
            }
            assert forall|i: int, j: int| 0 <= i < j < q.len() implies q[i].1 != q[j].1 by {
                if i < k && j < k {
                } else if i < k && j == k {
                } else if i < k {
                    assert(q0[i].1 != q0[j - 1].1);
                } else if i == k {
                    assert(q0[j - 1].1 != c);
                } else {
                    assert(q0[i - 1].1 != q0[j - 1].1);
                }
            }
            assert forall|pp: int| #[trigger] self.live(pp) && self.tcb(pp).task_status == TaskStatus::Ready
                implies exists|i: int| 0 <= i < q.len() && q[i].1 == pp by {
                if pp == c {
                    assert(q[k].1 == pp);
                } else {
                    assert(k0.live(pp));
                    let i0 = choose|i: int| 0 <= i < q0.len() && q0[i].1 == pp;
                    if i0 < k {
                        assert(q[i0].1 == pp);
                    } else {
                        assert(q[i0 + 1].1 == pp);
                    }
                }
            }
            lemma_links_kept(&k0, self);
        }
    }

    /// Replacing the running task's block by one that keeps its status,
    /// links and pid, and is itself well formed, keeps the kernel well formed.
    pub proof fn lemma_running_block_replaced_wf(&self, k0: Kernel)
        requires
            k0.wf(),
            running_block_replaced(k0, *self),
        ensures
            self.wf(),
    {
        let c = k0.cur();
        lemma_slot_frame(&k0, self, c);
        assert(k0.live(c));
        assert(self.wf_table());
        assert(self.wf_current()) by {
            assert forall|q: int| #[trigger] self.live(q) implies ((self.tcb(q).task_status == TaskStatus::Running)
                <==> self.current == Some(q as usize)) by {
                assert(k0.live(q));
            }
        }
        assert(self.wf_queue()) by {
            let qq = self.manager@;
            assert forall|i: int| 0 <= i < qq.len() implies {
                let pp = #[trigger] qq[i].1;
                &&& self.live(pp as int)
                &&& self.tcb(pp as int).task_status == TaskStatus::Ready
                &&& self.tcb(pp as int).task_stride == qq[i].0
            } by {
                assert(k0.live(qq[i].1 as int));
            }
            assert forall|pp: int| #[trigger] self.live(pp) && self.tcb(pp).task_status == TaskStatus::Ready
                implies exists|i: int| 0 <= i < qq.len() && qq[i].1 == pp by {
                assert(k0.live(pp));
            }
        }
        lemma_links_kept(&k0, self);
    }

    /// Suspends the running task and puts the next ready task on the
    /// processor at time `now_ms`; returns that task's pid (possibly the
    /// same task).
    pub fn suspend_current_and_run_next(&mut self, now_ms: usize) -> (r: Option<usize>)
        requires
            old(self).wf(),
            old(self).current is Some,
        ensures
            final(self).wf(),
            r is Some,
            exists|k: Kernel| suspend_step(*old(self), k) && k.wf() && #[trigger] dispatched(k, *final(self), now_ms, r),
    {
        self.suspend_current();
        let ghost k = *self;
        let r = self.run_next(now_ms);
        proof {
            assert(k.manager@.len() == old(self).manager@.len() + 1);
        }
        r
    }

    /// Ends the running task, which is not the init task (whose exit is
    /// fatal), with `exit_code` and puts the next ready task on the processor
    /// at time `now_ms`; returns that task's pid, `None` when no task is ready.
    pub fn exit_current_and_run_next(&mut self, exit_code: i32, now_ms: usize) -> (r: Option<usize>)
        requires
            old(self).wf(),
            old(self).current is Some,
            old(self).cur() != INIT_PID,
        ensures
            final(self).wf(),
            exists|k: Kernel| exit_step(*old(self), k, exit_code) && k.wf() && #[trigger] dispatched(k, *final(self), now_ms, r),
    {
        self.exit_current(exit_code);
        self.run_next(now_ms)
    }
}

} // verus!
