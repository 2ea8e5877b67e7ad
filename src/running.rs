//! Operations on the running task's own state: priority, call counters,
//! start time, memory regions, program break and user registers.
use vstd::prelude::*;
use crate::config::{MAX_SYSCALL_NUM, MIN_PRIORITY, PAGE_SIZE};
use crate::kernel::{
    block_wf, brk_moved, bumped, copy_counts, map_perm, mapped, priority_set, return_value_set, running_block_replaced,
    unmapped, Kernel,
};
use crate::memory::{
    area_overlaps, areas_disjoint, first_starting_at, matches_any, overlaps_any, resize_fits, vpn_ceil, vpn_floor, MapArea,
};
use crate::task::TaskControlBlock;
use crate::trap_context::{TrapContext, ECALL_LEN, REG_A0, REG_A7};

verus! {

impl Kernel {
    /// Sets the running task's priority to `prio` and returns it; -1,
    /// changing nothing, when `prio` is below the minimum of 2.
    pub fn set_priority(&mut self, prio: isize) -> (r: isize)
        requires
            old(self).wf(),
            old(self).current is Some,
        ensures
            final(self).wf(),
            prio < MIN_PRIORITY ==> r == -1 && *final(self) == *old(self),
            prio >= MIN_PRIORITY ==> r == prio && priority_set(*old(self), *final(self), prio as usize),
    {
        if prio < 2 {
            return -1;
        }
        let ghost k0 = *self;
        let c = self.current.unwrap();
        let mut t = self.take_task(c);
        t.task_priority = prio as usize;
        self.put_task(c, t);
        proof {
            assert(k0.live(c as int));
            assert(block_wf(c as int, k0.tcb(c as int)));
            assert(self.tasks@ == k0.tasks@.update(c as int, self.tasks@[c as int]));
            self.lemma_running_block_replaced_wf(k0);
        }
        prio
    }

    /// Counts one invocation of system call `callno` by the running task.
    pub fn increase_syscall_times(&mut self, callno: usize)
        requires
            old(self).wf(),
            old(self).current is Some,
            callno < MAX_SYSCALL_NUM,
        ensures
            final(self).wf(),
            running_block_replaced(*old(self), *final(self)),
            ({
                let t0 = old(self).tcb(old(self).cur());
                let t = final(self).tcb(old(self).cur());
                &&& t.syscall_times@ == t0.syscall_times@.update(callno as int, bumped(t0.syscall_times@[callno as int]))
                &&& t == TaskControlBlock { syscall_times: t.syscall_times, ..t0 }
            }),
    {
        let ghost k0 = *self;
        let c = self.current.unwrap();
        proof {
            assert(k0.live(c as int));
            assert(block_wf(c as int, k0.tcb(c as int)));
        }
        let mut t = self.take_task(c);
        let v = t.syscall_times[callno];
        t.syscall_times[callno] = if v < u32::MAX { v + 1 } else { v };
        self.put_task(c, t);
        proof {
            assert(self.tasks@ == k0.tasks@.update(c as int, self.tasks@[c as int]));
            self.lemma_running_block_replaced_wf(k0);
        }
    }

    /// The running task's invocation count of each system call.
    pub fn get_syscall_times(&self) -> (r: Vec<u32>)
        requires
            self.wf(),
            self.current is Some,
        ensures
            r@ == self.tcb(self.cur()).syscall_times@,
    {
        let c = self.current.unwrap();
        copy_counts(&self.tasks[c].as_ref().unwrap().syscall_times)
    }

    /// When the running task was first scheduled, in ms.
    pub fn get_start_time(&self) -> (r: usize)
        requires
            self.wf(),
            self.current is Some,
        ensures
            Some(r) == self.tcb(self.cur()).start_time,
    {
        let c = self.current.unwrap();
        proof {
            assert(self.live(c as int));
            assert(block_wf(c as int, self.tcb(c as int)));
        }
        self.tasks[c].as_ref().unwrap().start_time.unwrap()
    }

    /// Maps `[start, start + len)` into the running task's address space with
    /// user permission bits `port`, unless a region already mapped shares a
    /// page with it; returns whether it mapped.
    pub fn do_task_mmap(&mut self, start: usize, len: usize, port: usize) -> (r: bool)
        requires
            old(self).wf(),
            old(self).current is Some,
            start + len <= usize::MAX,
            port <= 7,
        ensures
            final(self).wf(),
            ({
                let t0 = old(self).tcb(old(self).cur());
                let t = final(self).tcb(old(self).cur());
                let s = vpn_floor(start as int);
                let e = vpn_ceil(start + len);
                &&& r == !overlaps_any(t0.memory_set.areas@, s, e)
                &&& !r ==> *final(self) == *old(self)
                &&& r ==> mapped(*old(self), *final(self), start, len, port)
            }),
    {
        let ghost k0 = *self;
        let c = self.current.unwrap();
        proof {
            assert(k0.live(c as int));
            assert(block_wf(c as int, k0.tcb(c as int)));
        }
        let end = start + len;
        if self.tasks[c].as_ref().unwrap().memory_set.if_overlap(start, end) {
            return false;
        }
        let perm = map_perm(port);
        let mut t = self.take_task(c);
        t.memory_set.insert_framed_area(start, end, perm);
        self.put_task(c, t);
        proof {
            assert(self.tasks@ == k0.tasks@.update(c as int, self.tasks@[c as int]));
            self.lemma_running_block_replaced_wf(k0);
        }
        true
    }

    /// Unmaps the region of the running task that starts exactly at `start`
    /// and ends where `start + len` rounds up to; returns whether there was one.
    pub fn do_task_munmap(&mut self, start: usize, len: usize) -> (r: bool)
        requires
            old(self).wf(),
            old(self).current is Some,
            start + len <= usize::MAX,
        ensures
            final(self).wf(),
            ({
                let t0 = old(self).tcb(old(self).cur());
                let t = final(self).tcb(old(self).cur());
                let s = vpn_floor(start as int);
                let e = vpn_ceil(start + len);
                &&& r == (start as int % PAGE_SIZE as int == 0 && matches_any(t0.memory_set.areas@, s, e))
                &&& !r ==> *final(self) == *old(self)
                &&& r ==> unmapped(*old(self), *final(self), start, len)
            }),
    {
        let ghost k0 = *self;
        let c = self.current.unwrap();
        proof {
            assert(k0.live(c as int));
            assert(block_wf(c as int, k0.tcb(c as int)));
        }
        let end = start + len;
        if !self.tasks[c].as_ref().unwrap().memory_set.if_matched(start, end) {
            return false;
        }
        let s = crate::memory::floor_vpn(start);
        let e = crate::memory::ceil_vpn(end);
        let mut t = self.take_task(c);
        let removed = t.memory_set.remove_area(s, e);
        self.put_task(c, t);
        proof {
            assert(removed);
            assert(self.tasks@ == k0.tasks@.update(c as int, self.tasks@[c as int]));
            self.lemma_running_block_replaced_wf(k0);
        }
        true
    }

    /// Moves the running task's program break by `size` bytes, resizing its
    /// heap region, and returns the old break. `None`, changing nothing, when
    /// the new break would fall below the heap's start or past the address
    /// range, or when no region starts at the heap's page.
    pub fn change_program_brk(&mut self, size: i32) -> (r: Option<usize>)
        requires
            old(self).wf(),
            old(self).current is Some,
        ensures
            final(self).wf(),
            ({
                let t0 = old(self).tcb(old(self).cur());
                let t = final(self).tcb(old(self).cur());
                let new_brk = t0.program_brk + size;
                let areas0 = t0.memory_set.areas@;
                let has_heap = exists|i: int| #[trigger] first_starting_at(areas0, i, vpn_floor(t0.heap_bottom as int))
                    && resize_fits(areas0, i, vpn_ceil(new_brk));
                &&& r is Some <==> (t0.heap_bottom <= new_brk <= usize::MAX && has_heap)
                &&& r is None ==> *final(self) == *old(self)
                &&& r is Some ==> r == Some(t0.program_brk) && brk_moved(*old(self), *final(self), size)
            }),
    {
        let ghost k0 = *self;
        let c = self.current.unwrap();
        proof {
            assert(k0.live(c as int));
            assert(block_wf(c as int, k0.tcb(c as int)));
        }
        let old_brk = self.tasks[c].as_ref().unwrap().program_brk;
        let bottom = self.tasks[c].as_ref().unwrap().heap_bottom;
        let new_brk: usize;
        if size < 0 {
            let dec = (-(size as i64)) as usize;
            if dec > old_brk || old_brk - dec < bottom {
                return None;
            }
            new_brk = old_brk - dec;
        } else {
            let inc = size as usize;
            if inc > usize::MAX - old_brk || old_brk + inc < bottom {
                return None;
            }
            new_brk = old_brk + inc;
        }
        if !self.tasks[c].as_ref().unwrap().memory_set.resize_would_fit(bottom, new_brk) {
            return None;
        }
        let mut t = self.take_task(c);
        let resized = t.memory_set.resize_area(bottom, new_brk);
        proof {
            assert(resized);
            let a0 = k0.tcb(c as int).memory_set.areas@;
            let a1 = t.memory_set.areas@;
            let s = vpn_floor(bottom as int);
            let i = choose|i: int| #[trigger] first_starting_at(a0, i, s) && resize_fits(a0, i, vpn_ceil(new_brk as int));
            let i2 = choose|i2: int| #[trigger] first_starting_at(a0, i2, s) && a1 == a0.update(
                i2,
                MapArea { end_vpn: vpn_ceil(new_brk as int) as usize, ..a0[i2] },
            );
            if i2 < i {
                assert(a0[i2].start_vpn != s);
            } else if i2 > i {
                assert(a0[i].start_vpn != s);
            }
            assert(areas_disjoint(a0));
            assert(areas_disjoint(a1)) by {
                assert forall|x: int, y: int| 0 <= x < a1.len() && 0 <= y < a1.len() && x != y implies !area_overlaps(
                    #[trigger] a1[x],
                    (#[trigger] a1[y]).start_vpn as int,
                    a1[y].end_vpn as int,
                ) by {
                    if x == i {
                        assert(!area_overlaps(a0[y], s, vpn_ceil(new_brk as int)));
                    } else if y == i {
                        assert(!area_overlaps(a0[x], s, vpn_ceil(new_brk as int)));
                    } else {
                        assert(!area_overlaps(a0[x], a0[y].start_vpn as int, a0[y].end_vpn as int));
                    }
                }
            }
        }
        t.program_brk = new_brk;
        self.put_task(c, t);
        proof {
            assert(self.tasks@ == k0.tasks@.update(c as int, self.tasks@[c as int]));
            self.lemma_running_block_replaced_wf(k0);
        }
        Some(old_brk)
    }

    /// Stores `value` in the running task's return-value register.
    pub fn set_return_value(&mut self, value: isize)
        requires
            old(self).wf(),
            old(self).current is Some,
        ensures
            final(self).wf(),
            return_value_set(*old(self), *final(self), value),
    {
        let ghost k0 = *self;
        let c = self.current.unwrap();
        proof {
            assert(k0.live(c as int));
            assert(block_wf(c as int, k0.tcb(c as int)));
        }
        let mut t = self.take_task(c);
        t.trap_cx.x[REG_A0] = value as usize;
        self.put_task(c, t);
        proof {
            assert(self.tasks@ == k0.tasks@.update(c as int, self.tasks@[c as int]));
            self.lemma_running_block_replaced_wf(k0);
        }
    }

    /// Moves the running task's saved program counter past the trapping
    /// `ecall` and reads the call: the id register and the three argument
    /// registers.
    pub fn enter_syscall(&mut self) -> (r: (usize, [usize; 3]))
        requires
            old(self).wf(),
            old(self).current is Some,
        ensures
            final(self).wf(),
            running_block_replaced(*old(self), *final(self)),
            ({
                let t0 = old(self).tcb(old(self).cur());
                let t = final(self).tcb(old(self).cur());
                &&& t.trap_cx == TrapContext { sepc: t0.trap_cx.sepc.wrapping_add(ECALL_LEN), ..t0.trap_cx }
                &&& t == TaskControlBlock { trap_cx: t.trap_cx, ..t0 }
                &&& r.0 == t0.trap_cx.x@[REG_A7 as int]
                &&& r.1@ == t0.trap_cx.x@.subrange(REG_A0 as int, REG_A0 + 3)
            }),
    {
        let ghost k0 = *self;
        let c = self.current.unwrap();
        proof {
            assert(k0.live(c as int));
            assert(block_wf(c as int, k0.tcb(c as int)));
        }
        let mut t = self.take_task(c);
        t.trap_cx.sepc = t.trap_cx.sepc.wrapping_add(ECALL_LEN);
        let id = t.trap_cx.x[REG_A7];
        let args = [t.trap_cx.x[REG_A0], t.trap_cx.x[REG_A0 + 1], t.trap_cx.x[REG_A0 + 2]];
        self.put_task(c, t);
        proof {
            assert(self.tasks@ == k0.tasks@.update(c as int, self.tasks@[c as int]));
            self.lemma_running_block_replaced_wf(k0);
            assert(args@ =~= k0.tcb(c as int).trap_cx.x@.subrange(REG_A0 as int, REG_A0 + 3));
        }
        (id, args)
    }
}

} // verus!
