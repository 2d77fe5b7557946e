//! The ready queue: the tasks that wait for the processor, first in, first
//! out.

use vstd::prelude::*;
use crate::task::kernel::Kernel;
use crate::task::process::{ProcessControlBlock, ProcessControlBlockInner};
use crate::task::task::{TaskControlBlock, TaskControlBlockInner, TaskStatus};

verus! {

/// The control block `p` with the status of its task replaced by `s`.
pub open spec fn with_status(p: ProcessControlBlock, s: TaskStatus) -> ProcessControlBlock {
    ProcessControlBlock {
        inner: ProcessControlBlockInner {
            task: TaskControlBlock {
                inner: TaskControlBlockInner { task_status: s, ..p.inner.task.inner },
                ..p.inner.task
            },
            ..p.inner
        },
        ..p
    }
}

/// Sets the status of the task of process `pid`; nothing else changes.
pub fn set_status(kernel: &mut Kernel, pid: usize, s: TaskStatus)
    requires
        old(kernel).has_process(pid as int),
    ensures
        final(kernel).processes@ == old(kernel).processes@.update(
            pid as int,
            Some(with_status(old(kernel).pcb(pid as int), s)),
        ),
        *final(kernel) == (Kernel { processes: final(kernel).processes, ..*old(kernel) }),
{
    match &mut kernel.processes[pid] {
        Some(p) => {
            p.inner.task.inner.task_status = s;
        },
        None => {},
    }
    proof {
        assert(kernel.processes@ =~= old(kernel).processes@.update(
            pid as int,
            Some(with_status(old(kernel).pcb(pid as int), s)),
        ));
    }
}

/// Puts the task `pid`, which lives and is ready, at the back of the ready
/// queue.
pub fn add_task(kernel: &mut Kernel, pid: usize)
    requires
        old(kernel).wf(),
        old(kernel).is_live(pid as int),
        old(kernel).status(pid as int) == TaskStatus::Ready,
        !old(kernel).queued(pid as int),
    ensures
        final(kernel).wf(),
        final(kernel).ready_queue@ == old(kernel).ready_queue@.push(pid),
        *final(kernel) == (Kernel { ready_queue: final(kernel).ready_queue, ..*old(kernel) }),
{
    kernel.ready_queue.push_back(pid);
    proof {
        reveal(Kernel::wf);
        let q0 = old(kernel).ready_queue@;
        let q1 = kernel.ready_queue@;
        assert forall|i: int| 0 <= i < q1.len() implies kernel.is_live(#[trigger] q1[i] as int)
            && kernel.status(q1[i] as int) == TaskStatus::Ready by {
            if i < q0.len() {
                assert(q1[i] == q0[i]);
                assert(old(kernel).is_live(q0[i] as int));
            }
        }
        assert forall|i: int, j: int| 0 <= i < j < q1.len() implies q1[i] != q1[j] by {
            if j == q0.len() {
                assert(q1[i] == q0[i]);
            } else {
                assert(q1[i] == q0[i]);
                assert(q1[j] == q0[j]);
            }
        }
        assert forall|p: int| #[trigger] kernel.has_process(p) implies (kernel.pcb(
            p,
        ).inner.is_zombie <==> kernel.status(p) == TaskStatus::Zombie) by {
            assert(old(kernel).has_process(p));
        }
        old(kernel).lemma_same_memory(kernel);
    }
}

/// Takes the task that waits longest out of the ready queue.  `None` when
/// the queue is empty.
pub fn fetch_task(kernel: &mut Kernel) -> (r: Option<usize>)
    requires
        old(kernel).wf(),
    ensures
        final(kernel).wf(),
        *final(kernel) == (Kernel { ready_queue: final(kernel).ready_queue, ..*old(kernel) }),
        old(kernel).ready_queue@.len() == 0 ==> r is None && final(kernel).ready_queue@ == old(kernel).ready_queue@,
        old(kernel).ready_queue@.len() > 0 ==> {
            &&& r == Some(old(kernel).ready_queue@[0])
            &&& final(kernel).ready_queue@ == old(kernel).ready_queue@.subrange(
                1,
                old(kernel).ready_queue@.len() as int,
            )
            &&& final(kernel).is_live(old(kernel).ready_queue@[0] as int)
            &&& final(kernel).status(old(kernel).ready_queue@[0] as int) == TaskStatus::Ready
            &&& !final(kernel).queued(old(kernel).ready_queue@[0] as int)
        },
{
    let r = kernel.ready_queue.pop_front();
    proof {
        reveal(Kernel::wf);
        let q0 = old(kernel).ready_queue@;
        let q1 = kernel.ready_queue@;
        if q0.len() > 0 {
            assert(q1 =~= q0.subrange(1, q0.len() as int));
            assert forall|i: int| 0 <= i < q1.len() implies kernel.is_live(
                #[trigger] q1[i] as int,
            ) && kernel.status(q1[i] as int) == TaskStatus::Ready by {
                assert(q1[i] == q0[i + 1]);
                assert(old(kernel).is_live(q0[i + 1] as int));
            }
            assert forall|i: int, j: int| 0 <= i < j < q1.len() implies q1[i] != q1[j] by {
                assert(q1[i] == q0[i + 1]);
                assert(q1[j] == q0[j + 1]);
            }
            assert(old(kernel).is_live(q0[0] as int));
            if kernel.queued(q0[0] as int) {
                let i = choose|i: int| 0 <= i < q1.len() && #[trigger] q1[i] == q0[0];
                assert(q1[i] == q0[i + 1]);
            }
        } else {
            assert(q1 =~= q0);
        }
        assert forall|p: int| #[trigger] kernel.has_process(p) implies (kernel.pcb(
            p,
        ).inner.is_zombie <==> kernel.status(p) == TaskStatus::Zombie) by {
            assert(old(kernel).has_process(p));
        }
        old(kernel).lemma_same_memory(kernel);
    }
    r
}

/// Takes the task `pid` out of the ready queue, if it waits there.
pub fn remove_task(kernel: &mut Kernel, pid: usize)
    requires
        old(kernel).wf(),
    ensures
        final(kernel).wf(),
        !final(kernel).queued(pid as int),
        forall|q: int| q != pid ==> (final(kernel).queued(q) <==> old(kernel).queued(q)),
        final(kernel).ready_queue@ == old(kernel).ready_queue@.filter(|x: usize| x != pid),
        *final(kernel) == (Kernel { ready_queue: final(kernel).ready_queue, ..*old(kernel) }),
{
    let mut i: usize = 0;
    let ghost q0 = kernel.ready_queue@;
    let mut found: bool = false;
    while i < kernel.ready_queue.len() && !found
        invariant
            *kernel == *old(kernel),
            q0 == kernel.ready_queue@,
            i <= q0.len(),
            forall|j: int| 0 <= j < i ==> q0[j] != pid,
            found ==> i < q0.len() && q0[i as int] == pid,
        decreases q0.len() - i + (if found {
            0int
        } else {
            1int
        }),
    {
        if kernel.ready_queue[i] == pid {
            found = true;
        } else {
            i = i + 1;
        }
    }
    if !found {
        proof {
            lemma_filter_none(q0, pid);
        }
        return ;
    }
    let _ = kernel.ready_queue.remove(i);
    proof {
        reveal(Kernel::wf);
        let q1 = kernel.ready_queue@;
        assert(q1 =~= q0.remove(i as int));
        assert forall|j: int| 0 <= j < q0.len() && j != i implies q0[j] != pid by {
            if j < i {
            } else {
                assert(q0[i as int] != q0[j]);
            }
        }
        assert forall|j: int| 0 <= j < q1.len() implies kernel.is_live(#[trigger] q1[j] as int)
            && kernel.status(q1[j] as int) == TaskStatus::Ready && q1[j] != pid by {
            if j < i {
                assert(q1[j] == q0[j]);
                assert(old(kernel).is_live(q0[j] as int));
            } else {
                assert(q1[j] == q0[j + 1]);
                assert(old(kernel).is_live(q0[j + 1] as int));
            }
        }
        assert forall|a: int, b: int| 0 <= a < b < q1.len() implies q1[a] != q1[b] by {
            let a0 = if a < i {
                a
            } else {
                a + 1
            };
            let b0 = if b < i {
                b
            } else {
                b + 1
            };
            assert(q1[a] == q0[a0]);
            assert(q1[b] == q0[b0]);
        }
        assert forall|q: int| q != pid implies (kernel.queued(q) <==> old(kernel).queued(q)) by {
            if kernel.queued(q) {
                let j = choose|j: int| 0 <= j < q1.len() && #[trigger] q1[j] == q;
                if j < i {
                    assert(q0[j] == q);
                } else {
                    assert(q0[j + 1] == q);
                }
            }
            if old(kernel).queued(q) {
                let j = choose|j: int| 0 <= j < q0.len() && #[trigger] q0[j] == q;
                if j < i {
                    assert(q1[j] == q);
                } else {
                    assert(q1[j - 1] == q);
                }
            }
        }
        lemma_filter_one(q0, pid, i as int);
        assert forall|p: int| #[trigger] kernel.has_process(p) implies (kernel.pcb(
            p,
        ).inner.is_zombie <==> kernel.status(p) == TaskStatus::Zombie) by {
            assert(old(kernel).has_process(p));
        }
        old(kernel).lemma_same_memory(kernel);
    }
}

/// Filtering out a value that does not occur leaves a sequence as it is.
pub proof fn lemma_filter_none(q: Seq<usize>, pid: usize)
    requires
        forall|j: int| 0 <= j < q.len() ==> q[j] != pid,
    ensures
        q.filter(|x: usize| x != pid) == q,
    decreases q.len(),
{
    reveal(Seq::filter);
    if q.len() > 0 {
        lemma_filter_none(q.drop_last(), pid);
        assert(q.drop_last().push(q.last()) =~= q);
    }
}

/// Filtering out a value that occurs once, at index `i`, removes that
/// element.
pub proof fn lemma_filter_one(q: Seq<usize>, pid: usize, i: int)
    requires
        0 <= i < q.len(),
        q[i] == pid,
        forall|j: int| 0 <= j < q.len() && j != i ==> q[j] != pid,
    ensures
        q.filter(|x: usize| x != pid) == q.remove(i),
    decreases q.len(),
{
    reveal(Seq::filter);
    if i == q.len() - 1 {
        lemma_filter_none(q.drop_last(), pid);
        assert(q.remove(i) =~= q.drop_last());
    } else {
        lemma_filter_one(q.drop_last(), pid, i);
        assert(q.remove(i) =~= q.drop_last().remove(i).push(q.last()));
    }
}

} // verus!
