//! Process life cycle: fork, spawn, exec, exit and reaping.
use vstd::prelude::*;
use crate::config::{DEFAULT_PRIORITY, INIT_PID, MAX_SYSCALL_NUM, MAX_TASKS};
use crate::context::TaskContext;
use crate::kernel::{
    block_wf, child_added, exec_done, exit_step, forked, fresh_child, kernel_stack_top, lemma_links_kept, lemma_slot_frame, pid_matches,
    reapable, first_reapable, reaped, waitpid_result, same_but_children, same_but_parent, spawned, zero_counts, Kernel,
};
use crate::memory::areas_disjoint;
use crate::task::{ProgramImage, TaskControlBlock, TaskStatus};
use crate::trap_context::{TrapContext, REG_A0};

verus! {

impl Kernel {
    /// Ends the running task with `exit_code`: it becomes a zombie, its
    /// memory is released and its children pass to the init task. The init
    /// task never exits: its exit is fatal to the kernel.
    pub fn exit_current(&mut self, exit_code: i32)
        requires
            old(self).wf(),
            old(self).current is Some,
            old(self).cur() != INIT_PID,
        ensures
            final(self).wf(),
            exit_step(*old(self), *final(self), exit_code),
    {
        let ghost k0 = *self;
        let c = self.current.unwrap();
        let mut t = self.take_task(c);
        let mut kids: Vec<usize> = Vec::new();
        std::mem::swap(&mut kids, &mut t.children);
        t.task_status = TaskStatus::Zombie;
        t.exit_code = exit_code;
        t.memory_set.recycle_data_pages();
        self.put_task(c, t);
        self.current = None;
        proof {
            lemma_slot_frame(&k0, self, c as int);
            assert(kids@ == k0.children_of(c as int));
            assert forall|j: int| 0 <= j < kids@.len() implies {
                let q = #[trigger] kids@[j] as int;
                k0.live(q) && q != c && q != INIT_PID && k0.tcb(q).parent == Some(c)
            } by {
                assert(k0.live(c as int));
                let q = kids@[j] as int;
                assert(k0.children_of(c as int)[j] == kids@[j]);
                assert(block_wf(q, k0.tcb(q)));
            }
        }
        let ghost k1 = *self;
        let n = kids.len();
        let mut i: usize = 0;
        while i < n
            invariant
                n == kids@.len(),
                0 <= i <= n,
                kids@ == k0.children_of(c as int),
                kids@.no_duplicates(),
                c != INIT_PID,
                k1.tasks@.len() <= MAX_TASKS,
                k1.live(INIT_PID as int),
                forall|j: int| 0 <= j < kids@.len() ==> {
                    let q = #[trigger] kids@[j] as int;
                    k1.live(q) && q != c && q != INIT_PID
                },
                self.tasks@.len() == k1.tasks@.len(),
                self.current == k1.current,
                self.manager == k1.manager,
                self.layout == k1.layout,
                forall|q: int| #![trigger self.live(q)] #![trigger k1.live(q)] self.live(q) == k1.live(q),
                self.children_of(INIT_PID as int) == k1.children_of(INIT_PID as int) + kids@.subrange(0, i as int),
                same_but_children(self.tcb(INIT_PID as int), k1.tcb(INIT_PID as int)),
                forall|q: int| #![trigger self.live(q)] #![trigger k1.live(q)]
                    k1.live(q) && q != INIT_PID ==> if kids@.subrange(0, i as int).contains(q as usize) {
                    same_but_parent(self.tcb(q), k1.tcb(q)) && self.tcb(q).parent == Some(INIT_PID)
                } else {
                    self.tcb(q) == k1.tcb(q)
                },
            decreases n - i,
        {
            let kid = kids[i];
            proof {
                assert(kids@[i as int] == kid);
                assert(!kids@.subrange(0, i as int).contains(kid)) by {
                    if kids@.subrange(0, i as int).contains(kid) {
                        let j = choose|j: int| 0 <= j < i && kids@.subrange(0, i as int)[j] == kid;
                        assert(kids@[j] == kids@[i as int]);
                    }
                }
            }
            let ghost s0 = *self;
            let mut kt = self.take_task(kid);
            kt.parent = Some(INIT_PID);
            self.put_task(kid, kt);
            let mut it = self.take_task(INIT_PID);
            it.children.push(kid);
            self.put_task(INIT_PID, it);
            i = i + 1;
            proof {
                assert(kids@.subrange(0, i as int) == kids@.subrange(0, i - 1).push(kid));
                assert(self.tasks@ == s0.tasks@.update(kid as int, Some(TaskControlBlock { parent: Some(INIT_PID), ..s0.tcb(kid as int) })).update(INIT_PID as int, self.tasks@[INIT_PID as int]));
                assert forall|q: int| #![trigger self.live(q)] #![trigger k1.live(q)]
                    k1.live(q) && q != INIT_PID implies if kids@.subrange(0, i as int).contains(q as usize) {
                        same_but_parent(self.tcb(q), k1.tcb(q)) && self.tcb(q).parent == Some(INIT_PID)
                    } else {
                        self.tcb(q) == k1.tcb(q)
                    } by {
                    assert(s0.live(q));
                    if q == kid {
                        assert(kids@.subrange(0, i as int).contains(q as usize)) by {
                            assert(kids@.subrange(0, i as int)[i - 1] == kid);
                        }
                    } else {
                        let sn = kids@.subrange(0, i as int);
                        let so = kids@.subrange(0, i - 1);
                        if sn.contains(q as usize) {
                            let j = choose|j: int| 0 <= j < sn.len() && sn[j] == q as usize;
                            assert(sn[i - 1] == kid);
                            assert(k1.live(q));
                            assert(j != i - 1);
                            assert(so[j] == q as usize);
                        }
                        if so.contains(q as usize) {
                            let j = choose|j: int| 0 <= j < so.len() && so[j] == q as usize;
                            assert(sn[j] == q as usize);
                        }
                    }
                }
                assert(self.children_of(INIT_PID as int) =~= k1.children_of(INIT_PID as int) + kids@.subrange(0, i as int));
            }
        }
        proof {
            assert(kids@.subrange(0, n as int) == kids@);
            assert(exit_step(k0, *self, exit_code)) by {
                assert(k1.live(INIT_PID as int));
                assert(k0.live(c as int));
                assert(self.live(c as int));
                assert(!kids@.contains(c)) by {
                    if kids@.contains(c) {
                        let j = choose|j: int| 0 <= j < kids@.len() && kids@[j] == c;
                        assert(kids@[j] as int != c);
                    }
                }
                assert(self.tcb(c as int) == k1.tcb(c as int));
                assert(k1.children_of(INIT_PID as int) == k0.children_of(INIT_PID as int));
                assert forall|q: int| #[trigger] self.live(q) == k0.live(q) by {
                    if q != c {
                        assert(k1.live(q) == k0.live(q));
                    }
                }
                assert forall|q: int| #[trigger] k0.live(q) && q != c && q != INIT_PID implies if k0.children_of(c as int).contains(q as usize) {
                    same_but_parent(self.tcb(q), k0.tcb(q)) && self.tcb(q).parent == Some(INIT_PID)
                } else {
                    self.tcb(q) == k0.tcb(q)
                } by {
                    assert(k1.live(q));
                }
            }
            self.lemma_exit_step_wf(k0, exit_code);
        }
    }

    /// A kernel reached by `exit_step` from a well-formed kernel is well formed.
    pub proof fn lemma_exit_step_wf(&self, k0: Kernel, code: i32)
        requires
            k0.wf(),
            exit_step(k0, *self, code),
        ensures
            self.wf(),
    {
        let c = k0.cur();
        let kids = k0.children_of(c);
        assert(k0.live(c));
        assert(k0.tcb(c).task_status == TaskStatus::Running);
        assert forall|j: int| 0 <= j < kids.len() implies {
            let q = #[trigger] kids[j] as int;
            k0.live(q) && q != c && q != INIT_PID && k0.tcb(q).parent == Some(c as usize)
        } by {
            let q = kids[j] as int;
            assert(block_wf(q, k0.tcb(q)));
        }
        assert(self.wf_table()) by {
            assert forall|p: int| #[trigger] self.live(p) implies block_wf(p, self.tcb(p)) by {
                assert(k0.live(p));
                assert(block_wf(p, k0.tcb(p)));
                if p != c && p != INIT_PID && kids.contains(p as usize) {
                    let j = choose|j: int| 0 <= j < kids.len() && kids[j] == p as usize;
                    assert(kids[j] as int == p);
                }
            }
        }
        assert(self.wf_current()) by {
            assert forall|p: int| #[trigger] self.live(p) implies ((self.tcb(p).task_status == TaskStatus::Running)
                <==> self.current == Some(p as usize)) by {
                assert(k0.live(p));
            }
        }
        assert(self.wf_queue()) by {
            let q = self.manager@;
            assert forall|i: int| 0 <= i < q.len() implies {
                let p = #[trigger] q[i].1;
                &&& self.live(p as int)
                &&& self.tcb(p as int).task_status == TaskStatus::Ready
                &&& self.tcb(p as int).task_stride == q[i].0
            } by {
                let p = q[i].1 as int;
                assert(k0.live(p));
            }
            assert forall|p: int| #[trigger] self.live(p) && self.tcb(p).task_status == TaskStatus::Ready
                implies exists|i: int| 0 <= i < q.len() && q[i].1 == p by {
                assert(k0.live(p));
                assert(k0.tcb(p).task_status == TaskStatus::Ready);
            }
        }
        assert(self.wf_tree()) by {
            let init = INIT_PID as int;
            let ic0 = k0.children_of(init);
            assert forall|j: int| 0 <= j < ic0.len() implies {
                let q = #[trigger] ic0[j] as int;
                k0.live(q) && k0.tcb(q).parent == Some(INIT_PID)
            } by {}
            assert forall|p: int, i: int| #[trigger] self.live(p) && 0 <= i < self.children_of(p).len() implies {
                let ch = #[trigger] self.children_of(p)[i];
                self.live(ch as int) && self.tcb(ch as int).parent == Some(p as usize)
            } by {
                assert(k0.live(p));
                if p == init {
                    if i < ic0.len() {
                        let ch = ic0[i] as int;
                        assert(self.children_of(p)[i] == ic0[i]);
                        assert(k0.live(ch) && k0.tcb(ch).parent == Some(INIT_PID));
                        if kids.contains(ch as usize) {
                            let j = choose|j: int| 0 <= j < kids.len() && kids[j] == ch as usize;
                            assert(k0.tcb(kids[j] as int).parent == Some(c as usize));
                        }
                    } else {
                        assert(self.children_of(p)[i] == kids[i - ic0.len()]);
                        assert(kids.contains(kids[i - ic0.len()]));
                    }
                } else if p != c {
                    let ch = self.children_of(p)[i] as int;
                    assert(k0.children_of(p)[i] == ch as usize);
                    assert(k0.live(ch) && k0.tcb(ch).parent == Some(p as usize));
                    if kids.contains(ch as usize) {
                        let j = choose|j: int| 0 <= j < kids.len() && kids[j] == ch as usize;
                        assert(k0.tcb(kids[j] as int).parent == Some(c as usize));
                    }
                }
            }
            assert forall|p: int| #[trigger] self.live(p) implies self.children_of(p).no_duplicates() by {
                assert(k0.live(p));
                if p == init {
                    assert forall|a: int, b: int| 0 <= a < b < self.children_of(p).len() implies
                        self.children_of(p)[a] != self.children_of(p)[b] by {
                        let sc = self.children_of(p);
                        if b < ic0.len() {
                            assert(ic0[a] != ic0[b]);
                        } else if a >= ic0.len() {
                            assert(kids[a - ic0.len()] != kids[b - ic0.len()]);
                        } else {
                            let x = ic0[a] as int;
                            assert(k0.tcb(x).parent == Some(INIT_PID));
                            assert(k0.tcb(kids[b - ic0.len()] as int).parent == Some(c as usize));
                        }
                    }
                }
            }
            assert forall|ch: int| #[trigger] self.live(ch) && self.tcb(ch).parent is Some implies {
                let p = self.tcb(ch).parent->Some_0;
                self.live(p as int) && self.children_of(p as int).contains(ch as usize)
            } by {
                assert(k0.live(ch));
                if ch == c {
                    let p = k0.tcb(c).parent->Some_0 as int;
                    assert(k0.live(p) && k0.children_of(p).contains(c as usize));
                    assert(p != c);
                    if p == init {
                        let j = choose|j: int| 0 <= j < ic0.len() && ic0[j] == c as usize;
                        assert(self.children_of(init)[j] == c as usize);
                    } else if kids.contains(p as usize) {
                        assert(same_but_parent(self.tcb(p), k0.tcb(p)));
                        assert(self.children_of(p) == k0.children_of(p));
                    } else {
                        assert(self.tcb(p) == k0.tcb(p));
                    }
                } else if ch != init && kids.contains(ch as usize) {
                    let j = choose|j: int| 0 <= j < kids.len() && kids[j] == ch as usize;
                    assert(self.children_of(init)[ic0.len() + j] == ch as usize);
                } else if ch != init {
                    let p = k0.tcb(ch).parent->Some_0 as int;
                    assert(k0.live(p) && k0.children_of(p).contains(ch as usize));
                    if p == c {
                        assert(kids.contains(ch as usize));
                    } else if p == init {
                        let j = choose|j: int| 0 <= j < ic0.len() && ic0[j] == ch as usize;
                        assert(self.children_of(init)[j] == ch as usize);
                    } else {
                        assert(k0.live(p));
                        if kids.contains(p as usize) {
                            assert(same_but_parent(self.tcb(p), k0.tcb(p)));
                        } else {
                            assert(self.tcb(p) == k0.tcb(p));
                        }
                        assert(self.children_of(p) == k0.children_of(p));
                    }
                }
            }
        }
    }

    /// Finds the lowest free pid, growing the table by an empty slot when
    /// every slot is taken; `None` when the pid pool is exhausted.
    pub(crate) fn alloc_pid(&mut self) -> (r: Option<usize>)
        requires
            old(self).wf(),
        ensures
            final(self).wf(),
            final(self).current == old(self).current,
            final(self).manager == old(self).manager,
            final(self).layout == old(self).layout,
            forall|q: int| #![trigger final(self).live(q)] #![trigger old(self).live(q)]
                final(self).live(q) == old(self).live(q) && (old(self).live(q) ==> final(self).tcb(q) == old(self).tcb(q)),
            r is None <==> (forall|q: int| 0 <= q < MAX_TASKS ==> #[trigger] old(self).live(q)),
            r is None ==> *final(self) == *old(self),
            r matches Some(p) ==> p < final(self).tasks@.len() && final(self).tasks@[p as int] is None
                && p < MAX_TASKS && !old(self).live(p as int)
                && forall|q: int| 0 <= q < p ==> #[trigger] old(self).live(q),
    {
        let n = self.tasks.len();
        let mut i: usize = 0;
        while i < n
            invariant
                n == self.tasks@.len(),
                self.tasks@.len() <= MAX_TASKS,
                *self == *old(self),
                old(self).wf(),
                0 <= i <= n,
                forall|q: int| 0 <= q < i ==> #[trigger] self.live(q),
            decreases n - i,
        {
            if self.tasks[i].is_none() {
                assert(!old(self).live(i as int));
                return Some(i);
            }
            i = i + 1;
        }
        if n < MAX_TASKS {
            let ghost k0 = *self;
            self.tasks.push(None);
            proof {
                assert(!k0.live(n as int));
                assert forall|q: int| #![trigger self.live(q)] #![trigger k0.live(q)]
                    self.live(q) == k0.live(q) && (k0.live(q) ==> self.tcb(q) == k0.tcb(q)) by {
                    if 0 <= q < n {
                        assert(self.tasks@[q] == k0.tasks@[q]);
                    }
                }
                lemma_links_kept(&k0, self);
                assert(self.wf_queue()) by {
                    let q = self.manager@;
                    assert forall|j: int| 0 <= j < q.len() implies {
                        let p = #[trigger] q[j].1;
                        &&& self.live(p as int)
                        &&& self.tcb(p as int).task_status == TaskStatus::Ready
                        &&& self.tcb(p as int).task_stride == q[j].0
                    } by {
                        assert(k0.live(q[j].1 as int));
                    }
                }
            }
            Some(n)
        } else {
            None
        }
    }

    /// Enters block `t` at the free slot `p` as a new child of the running
    /// task and queues it at stride 0.
    pub(crate) fn add_child(&mut self, p: usize, t: TaskControlBlock)
        requires
            old(self).wf(),
            old(self).current is Some,
            p < old(self).tasks@.len(),
            old(self).tasks@[p as int] is None,
            fresh_child(t, p as int, old(self).cur(), old(self).layout),
            areas_disjoint(t.memory_set.areas@),
        ensures
            final(self).wf(),
            child_added(*old(self), *final(self), p as int, t),
    {
        let ghost k0 = *self;
        let c = self.current.unwrap();
        self.put_task(p, t);
        let mut ct = self.take_task(c);
        ct.children.push(p);
        self.put_task(c, ct);
        self.manager.add(p, 0);
        proof {
            assert(k0.live(c as int));
            assert(c != p);
            let k = *self;
            assert(k.tasks@ == k0.tasks@.update(p as int, Some(t)).update(c as int, k.tasks@[c as int]));
            assert forall|q: int| #![trigger k.live(q)] #![trigger k0.live(q)]
                q != p ==> k.live(q) == k0.live(q) && (k0.live(q) && q != c ==> k.tcb(q) == k0.tcb(q)) by {}
            assert(k.tcb(p as int) == t);
            assert(!k0.children_of(c as int).contains(p)) by {
                if k0.children_of(c as int).contains(p) {
                    let j = choose|j: int| 0 <= j < k0.children_of(c as int).len() && k0.children_of(c as int)[j] == p;
                    assert(k0.live(k0.children_of(c as int)[j] as int));
                }
            }
            assert(self.wf_table()) by {
                assert forall|q: int| #[trigger] self.live(q) implies block_wf(q, self.tcb(q)) by {
                    if q != p {
                        assert(k0.live(q));
                        assert(block_wf(q, k0.tcb(q)));
                    }
                }
            }
            assert(self.wf_current()) by {
                assert forall|q: int| #[trigger] self.live(q) implies ((self.tcb(q).task_status == TaskStatus::Running)
                    <==> self.current == Some(q as usize)) by {
                    if q != p {
                        assert(k0.live(q));
                    }
                }
            }
            let q0 = k0.manager@;
            let qq = self.manager@;
            let e = (0u64, p);
            let kk = choose|kk: int|
                0 <= kk <= q0.len() && qq == q0.insert(kk, e) && (forall|j: int| 0 <= j < kk ==> q0[j].0 <= e.0)
                    && (forall|j: int| kk <= j < q0.len() ==> q0[j].0 > e.0);
            assert forall|i: int| 0 <= i < q0.len() implies q0[i].1 != p by {
                assert(k0.live(q0[i].1 as int));
            }
            assert(self.wf_queue()) by {
                assert forall|i: int| 0 <= i < qq.len() implies {
                    let pp = #[trigger] qq[i].1;
                    &&& self.live(pp as int)
                    &&& self.tcb(pp as int).task_status == TaskStatus::Ready
                    &&& self.tcb(pp as int).task_stride == qq[i].0
                } by {
                    if i < kk {
                        assert(qq[i] == q0[i]);
                        assert(k0.live(q0[i].1 as int));
                    } else if i > kk {
                        assert(qq[i] == q0[i - 1]);
                        assert(k0.live(q0[i - 1].1 as int));
                    }
                }
                assert forall|i: int, j: int| 0 <= i < j < qq.len() implies qq[i].1 != qq[j].1 by {
                    if i < kk && j < kk {
                    } else if i < kk && j == kk {
                    } else if i < kk {
                        assert(q0[i].1 != q0[j - 1].1);
                    } else if i == kk {
                        assert(q0[j - 1].1 != p);
                    } else {
                        assert(q0[i - 1].1 != q0[j - 1].1);
                    }
                }
                assert forall|pp: int| #[trigger] self.live(pp) && self.tcb(pp).task_status == TaskStatus::Ready
                    implies exists|i: int| 0 <= i < qq.len() && qq[i].1 == pp by {
                    if pp == p {
                        assert(qq[kk].1 == pp);
                    } else {
                        assert(k0.live(pp));
                        let i0 = choose|i: int| 0 <= i < q0.len() && q0[i].1 == pp;
                        if i0 < kk {
                            assert(qq[i0].1 == pp);
                        } else {
                            assert(qq[i0 + 1].1 == pp);
                        }
                    }
                }
            }
            assert(self.wf_tree()) by {
                assert forall|pp: int, i: int| #[trigger] self.live(pp) && 0 <= i < self.children_of(pp).len() implies {
                    let ch = #[trigger] self.children_of(pp)[i];
                    self.live(ch as int) && self.tcb(ch as int).parent == Some(pp as usize)
                } by {
                    if pp != p {
                        assert(k0.live(pp));
                        if pp == c && i == self.children_of(pp).len() - 1 {
                        } else {
                            assert(self.children_of(pp)[i] == k0.children_of(pp)[i]);
                            let ch = k0.children_of(pp)[i] as int;
                            assert(k0.live(ch));
                            assert(ch != p);
                        }
                    }
                }
                assert forall|pp: int| #[trigger] self.live(pp) implies self.children_of(pp).no_duplicates() by {
                    if pp != p {
                        assert(k0.live(pp));
                    }
                }
                assert forall|ch: int| #[trigger] self.live(ch) && self.tcb(ch).parent is Some implies {
                    let pp = self.tcb(ch).parent->Some_0;
                    self.live(pp as int) && self.children_of(pp as int).contains(ch as usize)
                } by {
                    if ch == p {
                        assert(self.children_of(c as int)[self.children_of(c as int).len() - 1] == p);
                    } else {
                        assert(k0.live(ch));
                        let pp = k0.tcb(ch).parent->Some_0 as int;
                        assert(k0.live(pp));
                        let j = choose|j: int| 0 <= j < k0.children_of(pp).len() && k0.children_of(pp)[j] == ch as usize;
                        assert(self.children_of(pp)[j] == ch as usize);
                    }
                }
            }
        }
    }

    /// Forks the running task: the child gets the lowest free pid, a copy of
    /// the parent's regions under the page table `child_token`, the parent's
    /// user registers with a zero return value, and fresh counters, and is
    /// queued. Returns the child's pid, or -1, changing nothing, when the pid
    /// pool is exhausted.
    pub fn fork(&mut self, child_token: usize) -> (r: isize)
        requires
            old(self).wf(),
            old(self).current is Some,
        ensures
            final(self).wf(),
            r == -1 <==> (forall|q: int| 0 <= q < MAX_TASKS ==> #[trigger] old(self).live(q)),
            r == -1 ==> *final(self) == *old(self),
            r != -1 ==> forked(*old(self), *final(self), r as int, child_token),
    {
        let ghost k0 = *self;
        let c = self.current.unwrap();
        let p = match self.alloc_pid() {
            None => {
                return -1;
            },
            Some(p) => p,
        };
        let ghost k_mid = *self;
        let kstack = kernel_stack_top(p);
        let parent = self.tasks[c].as_ref().unwrap();
        let mut trap_cx = parent.trap_cx;
        trap_cx.x[REG_A0] = 0;
        trap_cx.kernel_sp = kstack;
        let t = TaskControlBlock {
            pid: p,
            kernel_stack_top: kstack,
            task_status: TaskStatus::Ready,
            task_cx: TaskContext::goto_restore(self.layout.restore_entry, kstack),
            trap_cx,
            memory_set: parent.memory_set.copy_with_token(child_token),
            parent: Some(c),
            children: Vec::new(),
            exit_code: 0,
            task_priority: DEFAULT_PRIORITY,
            task_stride: 0,
            syscall_times: zero_counts(MAX_SYSCALL_NUM),
            start_time: None,
            heap_bottom: parent.heap_bottom,
            program_brk: parent.program_brk,
        };
        proof {
            assert(k0.live(c as int));
        }
        self.add_child(p, t);
        proof {
            assert(self.tcb(p as int) == t);
        }
        p as isize
    }

    /// Creates a child of the running task from a freshly loaded program
    /// image, without copying the parent's memory; the child gets the lowest
    /// free pid and is queued. Returns its pid, or -1, changing nothing, when
    /// the pid pool is exhausted.
    pub fn spawn(&mut self, image: ProgramImage) -> (r: isize)
        requires
            old(self).wf(),
            old(self).current is Some,
            areas_disjoint(image.memory_set.areas@),
        ensures
            final(self).wf(),
            r == -1 <==> (forall|q: int| 0 <= q < MAX_TASKS ==> #[trigger] old(self).live(q)),
            r == -1 ==> *final(self) == *old(self),
            r != -1 ==> spawned(*old(self), *final(self), r as int, image),
    {
        let c = self.current.unwrap();
        let p = match self.alloc_pid() {
            None => {
                return -1;
            },
            Some(p) => p,
        };
        let kstack = kernel_stack_top(p);
        let trap_cx = TrapContext::app_init_context(
            image.entry,
            image.user_sp,
            self.layout.sstatus,
            self.layout.kernel_satp,
            kstack,
            self.layout.trap_handler,
        );
        let t = TaskControlBlock {
            pid: p,
            kernel_stack_top: kstack,
            task_status: TaskStatus::Ready,
            task_cx: TaskContext::goto_restore(self.layout.restore_entry, kstack),
            trap_cx,
            memory_set: image.memory_set,
            parent: Some(c),
            children: Vec::new(),
            exit_code: 0,
            task_priority: DEFAULT_PRIORITY,
            task_stride: 0,
            syscall_times: zero_counts(MAX_SYSCALL_NUM),
            start_time: None,
            heap_bottom: image.user_sp,
            program_brk: image.user_sp,
        };
        self.add_child(p, t);
        p as isize
    }

    /// Replaces the running task's memory image by `image`: its regions,
    /// user registers and heap start over; its pid, kernel stack, links and
    /// counters stay.
    pub fn exec(&mut self, image: ProgramImage)
        requires
            old(self).wf(),
            old(self).current is Some,
            areas_disjoint(image.memory_set.areas@),
        ensures
            final(self).wf(),
            exec_done(*old(self), *final(self), image),
    {
        let ghost k0 = *self;
        let c = self.current.unwrap();
        let mut t = self.take_task(c);
        t.trap_cx = TrapContext::app_init_context(
            image.entry,
            image.user_sp,
            self.layout.sstatus,
            self.layout.kernel_satp,
            t.kernel_stack_top,
            self.layout.trap_handler,
        );
        t.memory_set = image.memory_set;
        t.heap_bottom = image.user_sp;
        t.program_brk = image.user_sp;
        self.put_task(c, t);
        proof {
            assert(k0.live(c as int));
            assert(block_wf(c as int, k0.tcb(c as int)));
            assert(self.tasks@ == k0.tasks@.update(c as int, self.tasks@[c as int]));
            self.lemma_running_block_replaced_wf(k0);
        }
    }

    /// Waits for a child of the running task: `pid` names one child, or -1
    /// any. Returns -1 when no child matches and -2 when matching children
    /// exist but none has exited; both change nothing. Otherwise reaps the
    /// first matching zombie child, stores its exit code in `exit_code` and
    /// returns its pid.
    pub fn waitpid(&mut self, pid: isize, exit_code: &mut i32) -> (r: isize)
        requires
            old(self).wf(),
            old(self).current is Some,
        ensures
            final(self).wf(),
            waitpid_result(*old(self), *final(self), pid, *old(exit_code), *final(exit_code), r),
    {
        let ghost k0 = *self;
        let c = self.current.unwrap();
        let ghost kids = k0.children_of(c as int);
        proof {
            assert(k0.live(c as int));
        }
        let n = self.tasks[c].as_ref().unwrap().children.len();
        let mut any = false;
        let mut i: usize = 0;
        while i < n
            invariant
                *self == k0,
                k0 == *old(self),
                *exit_code == *old(exit_code),
                k0.wf(),
                k0.current == Some(c),
                k0.live(c as int),
                c as int == k0.cur(),
                kids == k0.children_of(c as int),
                n == kids.len(),
                0 <= i <= n,
                any == exists|j: int| 0 <= j < i && pid_matches(pid, #[trigger] kids[j]),
                forall|j: int| 0 <= j < i ==> !reapable(k0, pid, #[trigger] kids[j]),
            decreases n - i,
        {
            let ch = self.tasks[c].as_ref().unwrap().children[i];
            proof {
                assert(kids[i as int] == ch);
                assert(k0.live(ch as int));
                assert(ch < MAX_TASKS);
                assert((ch as isize) as int == ch as int);
                assert((pid == -1 || pid == ch as isize) == pid_matches(pid, ch));
            }
            let st = self.tasks[ch].as_ref().unwrap().task_status;
            if pid == -1 || pid == ch as isize {
                any = true;
                if st == TaskStatus::Zombie {
                    assert(first_reapable(k0, pid, i as int));
                    let mut ct = self.take_task(c);
                    ct.children.remove(i);
                    self.put_task(c, ct);
                    proof {
                        assert(block_wf(ch as int, k0.tcb(ch as int)));
                        assert(ch != c);
                    }
                    let zt = self.take_task(ch);
                    *exit_code = zt.exit_code;
                    proof {
                        assert(self.tasks@ =~= k0.tasks@.update(c as int, self.tasks@[c as int]).update(ch as int, None));
                        self.lemma_reaped_wf(k0, i as int);
                        assert(reapable(k0, pid, kids[i as int]));
                        assert(pid_matches(pid, kids[i as int]));
                        assert((ch as isize) as int == kids[i as int] as int);
                    }
                    return ch as isize;
                }
            }
            i = i + 1;
        }
        proof {
            assert(!(exists|j: int| 0 <= j < kids.len() && reapable(k0, pid, #[trigger] kids[j])));
            assert(any == exists|j: int| 0 <= j < kids.len() && pid_matches(pid, #[trigger] kids[j]));
        }
        if any {
            -2
        } else {
            -1
        }
    }

    /// Reaping a zombie child of the running task keeps the kernel well formed.
    proof fn lemma_reaped_wf(&self, k0: Kernel, i: int)
        requires
            k0.wf(),
            k0.current is Some,
            0 <= i < k0.children_of(k0.cur()).len(),
            k0.tcb(k0.children_of(k0.cur())[i] as int).task_status == TaskStatus::Zombie,
            ({
                let c = k0.cur();
                let z = k0.children_of(c)[i] as int;
                &&& self.tasks@ == k0.tasks@.update(c, self.tasks@[c]).update(z, None)
                &&& self.live(c)
                &&& same_but_children(self.tcb(c), k0.tcb(c))
                &&& self.children_of(c) == k0.children_of(c).remove(i)
                &&& self.current == k0.current
                &&& self.manager == k0.manager
                &&& self.layout == k0.layout
            }),
        ensures
            self.wf(),
            reaped(k0, *self, i),
    {
        let c = k0.cur();
        let kids = k0.children_of(c);
        let z = kids[i] as int;
        assert(k0.live(c));
        assert(k0.live(z));
        assert(k0.tcb(z).parent == Some(c as usize));
        assert(k0.tcb(z).task_status == TaskStatus::Zombie);
        assert(z != c);
        assert(z != INIT_PID);
        assert forall|q: int| #![trigger self.live(q)] #![trigger k0.live(q)]
            q != z && q != c ==> self.live(q) == k0.live(q) && (k0.live(q) ==> self.tcb(q) == k0.tcb(q)) by {}
        assert(self.wf_table()) by {
            assert forall|q: int| #[trigger] self.live(q) implies block_wf(q, self.tcb(q)) by {
                assert(k0.live(q));
                assert(block_wf(q, k0.tcb(q)));
            }
        }
        assert(self.wf_current()) by {
            assert forall|q: int| #[trigger] self.live(q) implies ((self.tcb(q).task_status == TaskStatus::Running)
                <==> self.current == Some(q as usize)) by {
                assert(k0.live(q));
            }
        }
        assert(self.wf_queue()) by {
            let qq = self.manager@;
            assert forall|j: int| 0 <= j < qq.len() implies {
                let pp = #[trigger] qq[j].1;
                &&& self.live(pp as int)
                &&& self.tcb(pp as int).task_status == TaskStatus::Ready
                &&& self.tcb(pp as int).task_stride == qq[j].0
            } by {
                assert(k0.live(qq[j].1 as int));
            }
            assert forall|pp: int| #[trigger] self.live(pp) && self.tcb(pp).task_status == TaskStatus::Ready
                implies exists|j: int| 0 <= j < qq.len() && qq[j].1 == pp by {
                assert(k0.live(pp));
            }
        }
        assert(self.wf_tree()) by {
            assert forall|pp: int, j: int| #[trigger] self.live(pp) && 0 <= j < self.children_of(pp).len() implies {
                let ch = #[trigger] self.children_of(pp)[j];
                self.live(ch as int) && self.tcb(ch as int).parent == Some(pp as usize)
            } by {
                assert(k0.live(pp));
                if pp == c {
                    let jj = if j < i { j } else { j + 1 };
                    assert(self.children_of(pp)[j] == kids[jj]);
                    assert(kids[jj] != kids[i]);
                    assert(k0.live(kids[jj] as int));
                } else {
                    let ch = k0.children_of(pp)[j] as int;
                    assert(k0.live(ch));
                    assert(ch != z);
                }
            }
            assert forall|pp: int| #[trigger] self.live(pp) implies self.children_of(pp).no_duplicates() by {
                assert(k0.live(pp));
                if pp == c {
                    assert forall|a: int, b: int| 0 <= a < b < self.children_of(pp).len() implies
                        self.children_of(pp)[a] != self.children_of(pp)[b] by {
                        let aa = if a < i { a } else { a + 1 };
                        let bb = if b < i { b } else { b + 1 };
                        assert(kids[aa] != kids[bb]);
                    }
                }
            }
            assert forall|ch: int| #[trigger] self.live(ch) && self.tcb(ch).parent is Some implies {
                let pp = self.tcb(ch).parent->Some_0;
                self.live(pp as int) && self.children_of(pp as int).contains(ch as usize)
            } by {
                assert(k0.live(ch));
                let pp = k0.tcb(ch).parent->Some_0 as int;
                assert(k0.live(pp));
                assert(pp != z) by {
                    if pp == z {
                        assert(k0.children_of(z).contains(ch as usize));
                    }
                }
                let j = choose|j: int| 0 <= j < k0.children_of(pp).len() && k0.children_of(pp)[j] == ch as usize;
                if pp == c {
                    assert(ch != z);
                    assert(j != i);
                    let jj = if j < i { j } else { j - 1 };
                    assert(self.children_of(pp)[jj] == ch as usize);
                } else {
                    assert(self.children_of(pp)[j] == ch as usize);
                }
            }
        }
    }
}

} // verus!
