//! Properties that relate several operations or hold over whole runs.
use vstd::prelude::*;
use crate::config::{BIG_STRIDE, INIT_PID, MAX_SYSCALL_NUM, MIN_PRIORITY, PAGE_SIZE};
use crate::kernel::{
    advanced_stride, bumped, dispatched, exit_step, mapped, pass_of, running_block_replaced, suspend_step, Kernel,
};
use crate::memory::{area_is, area_overlaps, areas_disjoint, matches_any, overlaps_any, vpn_ceil, vpn_floor};
use crate::syscall::{elapsed_since_start, mmap_args_ok, mmap_result, munmap_result};
use crate::task::{TaskControlBlock, TaskStatus};

verus! {

/// When a task other than the init task exits, each of its children ends up
/// listed among the init task's children exactly once, with the init task as
/// parent, and the init task keeps every child it had: nothing is lost and
/// nothing is listed twice. Since every operation keeps the kernel well
/// formed, this holds after any sequence of forks and exits.
pub proof fn exit_reparents_children_once(k0: Kernel, k1: Kernel, code: i32)
    requires
        k0.wf(),
        exit_step(k0, k1, code),
    ensures
        ({
            let kids = k0.children_of(k0.cur());
            let init = INIT_PID as int;
            &&& forall|ch: usize| #[trigger] kids.contains(ch) ==> k1.children_of(init).contains(ch)
                && k1.tcb(ch as int).parent == Some(INIT_PID)
            &&& forall|ch: usize| #[trigger] k0.children_of(init).contains(ch) ==> k1.children_of(init).contains(ch)
            &&& k1.children_of(init).no_duplicates()
            &&& k1.children_of(init).len() == k0.children_of(init).len() + kids.len()
        }),
{
    k1.lemma_exit_step_wf(k0, code);
    let c = k0.cur();
    let kids = k0.children_of(c);
    let init = INIT_PID as int;
    let ic0 = k0.children_of(init);
    assert(k1.live(init));
    assert(k0.live(c));
    assert forall|ch: usize| #[trigger] kids.contains(ch) implies k1.children_of(init).contains(ch)
        && k1.tcb(ch as int).parent == Some(INIT_PID) by {
        let j = choose|j: int| 0 <= j < kids.len() && kids[j] == ch;
        assert(k1.children_of(init)[ic0.len() + j] == ch);
        assert(k0.live(ch as int));
        assert(k0.tcb(ch as int).parent == Some(c as usize));
        assert(crate::kernel::block_wf(c, k0.tcb(c)));
        assert(ch as int != c);
        assert(ch as int != init);
    }
    assert forall|ch: usize| #[trigger] ic0.contains(ch) implies k1.children_of(init).contains(ch) by {
        let j = choose|j: int| 0 <= j < ic0.len() && ic0[j] == ch;
        assert(k1.children_of(init)[j] == ch);
    }
}

/// Once a task's priority is set to `prio`, its next suspension advances its
/// stride by `BIG_STRIDE / prio` (held at the top of the range).
pub proof fn priority_sets_stride_step(k0: Kernel, k1: Kernel, k2: Kernel, prio: usize)
    requires
        k0.wf(),
        prio >= MIN_PRIORITY,
        running_block_replaced(k0, k1),
        k1.tcb(k0.cur()).task_priority == prio,
        k1.tcb(k0.cur()).task_stride == k0.tcb(k0.cur()).task_stride,
        suspend_step(k1, k2),
    ensures
        k2.tcb(k0.cur()).task_stride == advanced_stride(k0.tcb(k0.cur()).task_stride, prio),
        k0.tcb(k0.cur()).task_stride + BIG_STRIDE / prio <= u64::MAX ==> k2.tcb(k0.cur()).task_stride
            == k0.tcb(k0.cur()).task_stride + BIG_STRIDE / prio,
{
}

/// A lower priority never gets a smaller stride step.
pub proof fn pass_decreases_with_priority(p1: int, p2: int)
    requires
        MIN_PRIORITY <= p1 <= p2,
    ensures
        pass_of(p1) >= pass_of(p2),
{
    assert(BIG_STRIDE as int / p1 >= BIG_STRIDE as int / p2) by (nonlinear_arith)
        requires 0 < p1 <= p2;
}

/// Number of positions `i` of a run that are system calls (`calls[i]`) at
/// which task `a` made call `x`.
pub open spec fn calls_by(trace: Seq<Kernel>, ids: Seq<usize>, calls: Seq<bool>, a: int, x: usize) -> nat
    decreases ids.len(),
{
    if ids.len() == 0 {
        0
    } else {
        let i = ids.len() - 1;
        calls_by(trace, ids.drop_last(), calls, a, x) + if calls[i] && trace[i].cur() == a && ids[i] == x {
            1nat
        } else {
            0nat
        }
    }
}

/// `k1` is `k0` after its running task's invocation of system call `id` was
/// counted, as `syscall` does.
pub open spec fn counted_call(k0: Kernel, k1: Kernel, id: usize) -> bool {
    let c = k0.cur();
    &&& id < MAX_SYSCALL_NUM
    &&& running_block_replaced(k0, k1)
    &&& k1.tcb(c).syscall_times@ == k0.tcb(c).syscall_times@.update(id as int, bumped(k0.tcb(c).syscall_times@[id as int]))
}

/// `k1` keeps task `a` and its call counters as they were in `k0`, as
/// scheduling steps, forks, and other tasks' exits and waits do.
pub open spec fn counts_kept(k0: Kernel, k1: Kernel, a: int) -> bool {
    k1.live(a) && k1.tcb(a).syscall_times@ == k0.tcb(a).syscall_times@
}

/// Over a run in which tasks take turns on the processor, where step `i` is
/// either a system call `ids[i]` made by the task running in `trace[i]`
/// (`calls[i]`) or any other step that keeps task `a`'s counters, task `a`'s
/// count for call `x` grows by exactly the number of times `a` itself made
/// call `x`, whatever the other tasks called, as long as the count stays in
/// range.
pub proof fn syscall_counts_are_per_task(trace: Seq<Kernel>, ids: Seq<usize>, calls: Seq<bool>, a: int, x: usize)
    requires
        trace.len() == ids.len() + 1,
        calls.len() == ids.len(),
        trace[0].live(a),
        trace[0].tcb(a).syscall_times@.len() == MAX_SYSCALL_NUM,
        x < MAX_SYSCALL_NUM,
        forall|i: int| 0 <= i < ids.len() && #[trigger] calls[i] ==> counted_call(trace[i], trace[i + 1], ids[i]),
        forall|i: int| 0 <= i < ids.len() && !#[trigger] calls[i] ==> counts_kept(trace[i], trace[i + 1], a),
        trace[0].tcb(a).syscall_times@[x as int] + calls_by(trace, ids, calls, a, x) <= u32::MAX,
    ensures
        trace.last().live(a),
        trace.last().tcb(a).syscall_times@.len() == MAX_SYSCALL_NUM,
        trace.last().tcb(a).syscall_times@[x as int] == trace[0].tcb(a).syscall_times@[x as int] + calls_by(
            trace,
            ids,
            calls,
            a,
            x,
        ),
    decreases ids.len(),
{
    if ids.len() > 0 {
        let n = ids.len() - 1;
        let tr = trace.drop_last();
        let ids2 = ids.drop_last();
        let calls2 = calls.drop_last();
        assert forall|i: int| 0 <= i < ids2.len() && #[trigger] calls2[i] implies counted_call(tr[i], tr[i + 1], ids2[i]) by {
            assert(calls[i]);
            assert(counted_call(trace[i], trace[i + 1], ids[i]));
        }
        assert forall|i: int| 0 <= i < ids2.len() && !#[trigger] calls2[i] implies counts_kept(tr[i], tr[i + 1], a) by {
            assert(!calls[i]);
            assert(counts_kept(trace[i], trace[i + 1], a));
        }
        assert(calls_by(tr, ids2, calls2, a, x) == calls_by(trace, ids2, calls, a, x)) by {
            lemma_calls_by_prefix(trace, tr, ids2, calls, calls2, a, x);
        }
        assert(tr.len() == ids2.len() + 1);
        assert(tr[0] == trace[0]);
        syscall_counts_are_per_task(tr, ids2, calls2, a, x);
        let k0 = trace[n];
        let k1 = trace[n + 1];
        assert(tr.last() == k0);
        if calls[n] {
            assert(counted_call(k0, k1, ids[n]));
            let c = k0.cur();
            crate::kernel::lemma_slot_frame(&k0, &k1, c);
            assert(k0.live(a));
        } else {
            assert(counts_kept(k0, k1, a));
        }
    }
}

/// `calls_by` reads only the states and marks its positions name.
proof fn lemma_calls_by_prefix(
    t1: Seq<Kernel>,
    t2: Seq<Kernel>,
    ids: Seq<usize>,
    c1: Seq<bool>,
    c2: Seq<bool>,
    a: int,
    x: usize,
)
    requires
        t1.len() >= ids.len(),
        t2.len() >= ids.len(),
        c1.len() >= ids.len(),
        c2.len() >= ids.len(),
        forall|i: int| 0 <= i < ids.len() ==> t1[i] == t2[i] && c1[i] == c2[i],
    ensures
        calls_by(t1, ids, c1, a, x) == calls_by(t2, ids, c2, a, x),
    decreases ids.len(),
{
    if ids.len() > 0 {
        lemma_calls_by_prefix(t1, t2, ids.drop_last(), c1, c2, a, x);
    }
}

/// Two tasks sharing the processor under the stride rule, task A with stride
/// step `pa` and task B with `pb`, A on the processor when `a_runs`. Each
/// step is one quantum: the running task's stride advances by its step and
/// the task with the lower stride runs next, the waiting one on a tie (it was
/// queued first). This is the choice that `suspend_current` followed by
/// `run_next` makes between two ready tasks. The result holds the strides,
/// the quanta each task ran, and who runs next.
pub open spec fn stride_run(sa: int, sb: int, pa: int, pb: int, a_runs: bool, n: nat) -> (int, int, nat, nat, bool)
    decreases n,
{
    if n == 0 {
        (sa, sb, 0, 0, a_runs)
    } else {
        let (sa1, sb1, ca, cb, ar) = stride_run(sa, sb, pa, pb, a_runs, (n - 1) as nat);
        if ar {
            let sa2 = sa1 + pa;
            (sa2, sb1, ca + 1, cb, sa2 < sb1)
        } else {
            let sb2 = sb1 + pb;
            (sa1, sb2, ca, cb + 1, !(sb2 < sa1))
        }
    }
}

/// Whether the running task's stride is the lower one, by at most `m`.
pub open spec fn stride_balanced(sa: int, sb: int, a_runs: bool, m: int) -> bool {
    if a_runs { sa <= sb <= sa + m } else { sb <= sa <= sb + m }
}

/// Along a stride run the strides stay within the larger step of each other,
/// and each has advanced by its task's quanta times its step.
proof fn lemma_stride_run_invariant(sa: int, sb: int, pa: int, pb: int, a_runs: bool, n: nat)
    requires
        0 < pb <= pa,
        stride_balanced(sa, sb, a_runs, pa),
    ensures
        ({
            let (sa1, sb1, ca, cb, ar) = stride_run(sa, sb, pa, pb, a_runs, n);
            &&& stride_balanced(sa1, sb1, ar, pa)
            &&& sa1 == sa + ca * pa
            &&& sb1 == sb + cb * pb
            &&& ca + cb == n
        }),
    decreases n,
{
    if n > 0 {
        lemma_stride_run_invariant(sa, sb, pa, pb, a_runs, (n - 1) as nat);
        let (sa1, sb1, ca, cb, ar) = stride_run(sa, sb, pa, pb, a_runs, (n - 1) as nat);
        assert((ca + 1) * pa == ca * pa + pa) by (nonlinear_arith);
        assert((cb + 1) * pb == cb * pb + pb) by (nonlinear_arith);
        if ar {
            assert(stride_run(sa, sb, pa, pb, a_runs, n) == (sa1 + pa, sb1, ca + 1, cb, sa1 + pa < sb1));
            assert(stride_balanced(sa1 + pa, sb1, sa1 + pa < sb1, pa));
        } else {
            assert(stride_run(sa, sb, pa, pb, a_runs, n) == (sa1, sb1 + pb, ca, cb + 1, !(sb1 + pb < sa1)));
            assert(stride_balanced(sa1, sb1 + pb, !(sb1 + pb < sa1), pa));
        }
    } else {
        assert(0 * pa == 0 && 0 * pb == 0);
    }
}

/// Of two tasks sharing the processor, the one with the smaller stride step
/// (the higher priority) runs strictly more quanta once the run is longer
/// than four times the larger step, for every pair of steps and every
/// balanced start: the share grows with priority, not just for one pair.
pub proof fn smaller_step_runs_more(sa: int, sb: int, pa: int, pb: int, a_runs: bool, n: nat)
    requires
        0 < pb < pa,
        stride_balanced(sa, sb, a_runs, pa),
        n > 4 * pa,
    ensures
        ({
            let (sa1, sb1, ca, cb, ar) = stride_run(sa, sb, pa, pb, a_runs, n);
            cb > ca
        }),
{
    lemma_stride_run_invariant(sa, sb, pa, pb, a_runs, n);
    let (sa1, sb1, ca, cb, ar) = stride_run(sa, sb, pa, pb, a_runs, n);
    assert(sa1 - sb1 <= pa && sb1 - sa1 <= pa);
    assert(sa - sb <= pa && sb - sa <= pa);
    // ca * pa - cb * pb == (sa1 - sa) - (sb1 - sb), which is at most 2 * pa
    assert(ca * pa <= cb * pb + 2 * pa);
    if ca >= cb {
        assert(ca * pa >= ca * pb + ca) by (nonlinear_arith)
            requires pa >= pb + 1, ca >= 0;
        assert(cb * pb <= ca * pb) by (nonlinear_arith)
            requires cb <= ca, pb > 0;
        assert(ca <= 2 * pa);
        assert(false);
    }
}

/// With one other task `b` waiting at stride `sb`, suspending the running
/// task puts at the queue's front, where `run_next` takes from, the task
/// that `stride_run` picks: the suspended task only if its advanced stride
/// is strictly lower, else `b`.
pub proof fn two_task_choice_follows_stride_rule(k0: Kernel, k1: Kernel, b: usize, sb: u64)
    requires
        k0.wf(),
        k0.manager@ == seq![(sb, b)],
        suspend_step(k0, k1),
    ensures
        k1.manager@.len() == 2,
        k1.manager@[0].1 == if k1.tcb(k0.cur()).task_stride < sb { k0.cur() as usize } else { b },
{
    let c = k0.cur();
    let t = k0.tcb(c);
    let s2 = advanced_stride(t.task_stride, t.task_priority);
    let e = (s2, c as usize);
    let q0 = k0.manager@;
    assert(k0.live(c));
    let kk = choose|kk: int|
        0 <= kk <= q0.len() && k1.manager@ == q0.insert(kk, e) && (forall|j: int| 0 <= j < kk ==> q0[j].0 <= e.0)
            && (forall|j: int| kk <= j < q0.len() ==> q0[j].0 > e.0);
    assert(k1.tasks@[c] == Some(TaskControlBlock {
        task_status: TaskStatus::Ready,
        task_stride: s2,
        ..t
    }));
    assert(k1.tcb(c).task_stride == s2);
    assert(q0[0] == (sb, b));
    if kk == 0 {
        assert(q0[0].0 > e.0);
        assert(k1.manager@[0] == e);
    } else {
        assert(q0[0].0 <= e.0);
        assert(k1.manager@[0] == q0[0]);
    }
}

/// A task put on the processor for the first time at `start_ms` reports,
/// at any later `now_ms`, exactly the time elapsed since then.
pub proof fn task_time_counts_from_first_run(k0: Kernel, k1: Kernel, start_ms: usize, now_ms: usize)
    requires
        k0.wf(),
        k0.manager@.len() > 0,
        k0.tcb(k0.manager@[0].1 as int).start_time is None,
        dispatched(k0, k1, start_ms, Some(k0.manager@[0].1)),
        now_ms >= start_ms,
    ensures
        elapsed_since_start(k1, now_ms) == now_ms - start_ms,
{
    let p = k0.manager@[0].1 as int;
    assert(k0.live(p));
    assert(k1.tcb(p).start_time == Some(start_ms));
}

/// In a well-formed kernel the tasks form a tree under the init task: every
/// task other than the init task is listed, exactly once, in the children of
/// exactly one task, the one its parent link names. Every operation keeps the
/// kernel well formed, so this holds after any sequence of forks and exits.
pub proof fn tasks_form_a_tree(k: Kernel, t: int)
    requires
        k.wf(),
        k.live(t),
        t != INIT_PID,
    ensures
        ({
            let p = k.tcb(t).parent->Some_0 as int;
            &&& k.tcb(t).parent is Some
            &&& k.live(p)
            &&& k.children_of(p).contains(t as usize)
            &&& k.children_of(p).no_duplicates()
            &&& forall|q: int| #[trigger] k.live(q) && k.children_of(q).contains(t as usize) ==> q == p
        }),
{
    assert(crate::kernel::block_wf(t, k.tcb(t)));
    let p = k.tcb(t).parent->Some_0 as int;
    assert(k.live(p));
    assert forall|q: int| #[trigger] k.live(q) && k.children_of(q).contains(t as usize) implies q == p by {
        let j = choose|j: int| 0 <= j < k.children_of(q).len() && k.children_of(q)[j] == t as usize;
        assert(k.tcb(k.children_of(q)[j] as int).parent == Some(q as usize));
    }
}

/// A region cannot be unmapped in part: an munmap whose pages lie inside one
/// of the running task's regions without being exactly that region fails
/// and changes nothing (regions never share a page, so no other region can
/// have those bounds either).
pub proof fn partial_unmap_fails(k0: Kernel, k1: Kernel, start: usize, len: usize, r: isize, i: int)
    requires
        k0.wf(),
        k0.current is Some,
        munmap_result(k0, k1, start, len, r),
        len > 0,
        ({
            let a = k0.tcb(k0.cur()).memory_set.areas@;
            let s = vpn_floor(start as int);
            let e = vpn_ceil(start + len);
            &&& 0 <= i < a.len()
            &&& a[i].start_vpn <= s
            &&& e <= a[i].end_vpn
            &&& !(a[i].start_vpn == s && a[i].end_vpn == e)
        }),
    ensures
        r == -1,
        k1 == k0,
{
    let c = k0.cur();
    assert(k0.live(c));
    assert(crate::kernel::block_wf(c, k0.tcb(c)));
    let a = k0.tcb(c).memory_set.areas@;
    let s = vpn_floor(start as int);
    let e = vpn_ceil(start + len);
    assert(s < e) by {
        assert(start as int / PAGE_SIZE as int <= (start + len) / PAGE_SIZE as int) by (nonlinear_arith)
            requires len > 0;
    }
    if matches_any(a, s, e) {
        let j = choose|j: int| 0 <= j < a.len() && area_is(a[j], s, e);
        assert(j != i);
        assert(area_overlaps(a[i], a[j].start_vpn as int, a[j].end_vpn as int));
        assert(areas_disjoint(a));
    }
}

/// A well-formed mmap whose pages only touch the running task's regions
/// (each region ends at or before its first page, or starts at or after its
/// end) is accepted and maps the range.
pub proof fn touching_mmap_is_accepted(k0: Kernel, k1: Kernel, start: usize, len: usize, port: usize, r: isize)
    requires
        k0.wf(),
        k0.current is Some,
        mmap_result(k0, k1, start, len, port, r),
        mmap_args_ok(start, port),
        len > 0,
        start + len <= usize::MAX,
        forall|i: int| 0 <= i < k0.tcb(k0.cur()).memory_set.areas@.len() ==> {
            let a = #[trigger] k0.tcb(k0.cur()).memory_set.areas@[i];
            a.end_vpn <= vpn_floor(start as int) || vpn_ceil(start + len) <= a.start_vpn
        },
    ensures
        r == 0,
        mapped(k0, k1, start, len, port),
{
    let a = k0.tcb(k0.cur()).memory_set.areas@;
    assert(!overlaps_any(a, vpn_floor(start as int), vpn_ceil(start + len)));
}

} // verus!
