//! The ready queue: tasks waiting for the processor, lowest stride first.
use vstd::prelude::*;

verus! {

/// Whether the entries of a queue are in ascending stride order.
pub open spec fn stride_sorted(q: Seq<(u64, usize)>) -> bool {
    forall|i: int, j: int| 0 <= i < j < q.len() ==> q[i].0 <= q[j].0
}

/// Whether `q2` is `q` with `e` placed after every entry whose stride is at
/// most `e`'s, and before every entry whose stride is greater.
pub open spec fn stride_inserted(q: Seq<(u64, usize)>, e: (u64, usize), q2: Seq<(u64, usize)>) -> bool {
    exists|k: int|
        0 <= k <= q.len() && q2 == q.insert(k, e) && (forall|j: int| 0 <= j < k ==> q[j].0 <= e.0)
            && (forall|j: int| k <= j < q.len() ==> q[j].0 > e.0)
}

/// The ready queue, holding `(stride, pid)` pairs in ascending stride order;
/// among equal strides, earlier arrivals come first.
pub struct TaskManager {
    ready_queue: Vec<(u64, usize)>,
}

impl View for TaskManager {
    type V = Seq<(u64, usize)>;

    closed spec fn view(&self) -> Seq<(u64, usize)> {
        self.ready_queue@
    }
}

impl TaskManager {
    /// Ordering invariant of the queue.
    pub open spec fn wf(&self) -> bool {
        stride_sorted(self@)
    }

    /// An empty queue.
    pub fn new() -> (r: Self)
        ensures
            r@ == Seq::<(u64, usize)>::empty(),
            r.wf(),
    {
        TaskManager { ready_queue: Vec::new() }
    }

    /// Number of waiting tasks.
    pub fn len(&self) -> (r: usize)
        ensures
            r == self@.len(),
    {
        self.ready_queue.len()
    }

    /// Enqueues task `pid` at stride `stride`, behind every waiting task whose
    /// stride is not greater.
    pub fn add(&mut self, pid: usize, stride: u64)
        requires
            old(self).wf(),
        ensures
            final(self).wf(),
            stride_inserted(old(self)@, (stride, pid), final(self)@),
    {
        let n = self.ready_queue.len();
        let mut i: usize = 0;
        while i < n && self.ready_queue[i].0 <= stride
            invariant
                n == self.ready_queue@.len(),
                self.ready_queue@ == old(self).ready_queue@,
                0 <= i <= n,
                forall|j: int| 0 <= j < i ==> self.ready_queue@[j].0 <= stride,
            decreases n - i,
        {
            i = i + 1;
        }
        proof {
            let q = old(self)@;
            if i < n {
                assert forall|j: int| i <= j < q.len() implies q[j].0 > stride by {
                    assert(q[i as int].0 <= q[j].0);
                }
            }
        }
        self.ready_queue.insert(i, (stride, pid));
        proof {
            let q = old(self)@;
            let q2 = self@;
            assert(q2 == q.insert(i as int, (stride, pid)));
            assert forall|a: int, b: int| 0 <= a < b < q2.len() implies q2[a].0 <= q2[b].0 by {
                if a < i && b < i {
                } else if a < i && b == i {
                } else if a < i {
                    assert(q[a].0 <= q[b - 1].0);
                } else if a == i {
                } else {
                    assert(q[a - 1].0 <= q[b - 1].0);
                }
            }
        }
    }

    /// Takes the task with the lowest stride (the earliest among equals) out
    /// of the queue; `None` when no task is waiting.
    pub fn fetch(&mut self) -> (r: Option<usize>)
        requires
            old(self).wf(),
        ensures
            final(self).wf(),
            old(self)@.len() == 0 ==> r is None && *final(self) == *old(self),
            old(self)@.len() > 0 ==> r == Some(old(self)@[0].1) && final(self)@ == old(self)@.drop_first(),
    {
        if self.ready_queue.len() == 0 {
            None
        } else {
            let e = self.ready_queue.remove(0);
            assert(self@ =~= old(self)@.drop_first());
            Some(e.1)
        }
    }
}

} // verus!
