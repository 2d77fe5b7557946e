//! The end of a process: it becomes a zombie, gives up what it holds, and
//! leaves its children to the process that adopts orphans.

use vstd::prelude::*;
use crate::mm::memory_set::MemorySet;
use crate::task::id::{kstack_dealloc, KernelStack, KSTACK_LIMIT};
use crate::task::kernel::Kernel;
use crate::task::process::{ProcessControlBlock, ProcessControlBlockInner};
use crate::task::task::{TaskControlBlock, TaskControlBlockInner, TaskStatus};

verus! {

/// The control block `p` of a process that has exited with the code
/// `code`: it is a zombie, its task too, both hold the code, and the task
/// has given up its resources in user space.
pub open spec fn zombie_of(p: ProcessControlBlock, code: i32) -> ProcessControlBlock {
    ProcessControlBlock {
        inner: ProcessControlBlockInner {
            is_zombie: true,
            exit_code: code,
            task: TaskControlBlock {
                inner: TaskControlBlockInner {
                    task_status: TaskStatus::Zombie,
                    exit_code: Some(code),
                    res: None,
                    ..p.inner.task.inner
                },
                ..p.inner.task
            },
            ..p.inner
        },
        ..p
    }
}

/// The control block `p` with the parent replaced by `parent`.
pub open spec fn with_parent(p: ProcessControlBlock, parent: Option<usize>) -> ProcessControlBlock {
    ProcessControlBlock { inner: ProcessControlBlockInner { parent, ..p.inner }, ..p }
}

/// Whether the child `c` of the process `pid` goes to the process `init`
/// when `pid` exits: it exists and is neither of the two.
pub open spec fn adoptable(k: Kernel, pid: int, init: int, c: int) -> bool {
    k.has_process(c) && c != pid && c != init
}

/// The children among the first `n` of `children` that go to `init`, in
/// their order.
pub open spec fn adopted(k: Kernel, pid: int, init: int, children: Seq<usize>, n: int) -> Seq<
    usize,
>
    decreases n,
{
    if n <= 0 {
        Seq::empty()
    } else {
        let rest = adopted(k, pid, init, children, n - 1);
        if adoptable(k, pid, init, children[n - 1] as int) {
            rest.push(children[n - 1])
        } else {
            rest
        }
    }
}

/// Whether the process `init` can adopt the children of the process `pid`:
/// it is named, it exists, and it is not `pid` itself.
pub open spec fn adopter(k: Kernel, pid: int) -> bool {
    k.initproc matches Some(init) && init != pid && k.has_process(init as int)
}

/// Makes the process that runs a zombie with the exit code `code`; the
/// processor is free afterwards.
pub fn mark_exited(kernel: &mut Kernel, code: i32)
    requires
        old(kernel).wf(),
        old(kernel).current is Some,
    ensures
        final(kernel).wf(),
        *final(kernel) == (Kernel {
            processes: final(kernel).processes,
            current: None,
            ..*old(kernel)
        }),
        final(kernel).processes@ == old(kernel).processes@.update(
            old(kernel).current->0 as int,
            Some(zombie_of(old(kernel).pcb(old(kernel).current->0 as int), code)),
        ),
{
    let pid: usize = kernel.current.unwrap();
    proof {
        kernel.lemma_wf_kernel();
        kernel.lemma_current_not_queued();
    }
    match &mut kernel.processes[pid] {
        Some(p) => {
            p.inner.is_zombie = true;
            p.inner.exit_code = code;
            p.inner.task.inner.task_status = TaskStatus::Zombie;
            p.inner.task.inner.exit_code = Some(code);
            p.inner.task.inner.res = None;
        },
        None => {},
    }
    kernel.current = None;
    proof {
        assert(kernel.processes@ =~= old(kernel).processes@.update(
            pid as int,
            Some(zombie_of(old(kernel).pcb(pid as int), code)),
        ));
        old(kernel).lemma_wf_process(pid as int);
        old(kernel).lemma_current_not_queued();
        old(kernel).lemma_status_step(kernel, pid as int);
    }
}

/// What the table of processes `p1` is after the children of the process
/// `pid` in the kernel `k0` have been given away: `pid` has no children;
/// if a process can adopt them, it has them at the end of its list, in
/// their order, and each of them has it as its parent; no other process
/// has changed.
pub open spec fn children_given(
    k0: Kernel,
    p1: Seq<Option<ProcessControlBlock>>,
    pid: int,
    n: int,
) -> bool {
    let children = k0.pcb(pid).inner.children@;
    let init = k0.initproc->0 as int;
    &&& p1.len() == k0.processes@.len()
    &&& forall|q: int| 0 <= q < p1.len() ==> ((#[trigger] p1[q]) is Some <==> k0.processes@[q] is Some)
    &&& forall|q: int|
        0 <= q < p1.len() && q != pid && !(adopter(k0, pid) && (q == init || (exists|i: int|
            0 <= i < n && #[trigger] children[i] == q && adoptable(k0, pid, init, q)))) ==> (
        #[trigger] p1[q]) == k0.processes@[q]
    &&& adopter(k0, pid) ==> {
        &&& p1[init]->0 == (ProcessControlBlock {
            inner: ProcessControlBlockInner {
                children: p1[init]->0.inner.children,
                ..k0.pcb(init).inner
            },
            ..k0.pcb(init)
        })
        &&& p1[init]->0.inner.children@ == k0.pcb(init).inner.children@ + adopted(
            k0,
            pid,
            init,
            children,
            n,
        )
        &&& forall|i: int|
            0 <= i < n && adoptable(k0, pid, init, #[trigger] children[i] as int)
                ==> p1[children[i] as int] == Some(
                with_parent(k0.pcb(children[i] as int), Some(init as usize)),
            )
    }
}

/// Gives the child `c` of the process `pid` to the process `init`.
fn adopt_one(
    kernel: &mut Kernel,
    pid: usize,
    init: usize,
    i: usize,
    Ghost(k0): Ghost<Kernel>,
)
    requires
        old(kernel).wf(),
        k0.wf(),
        k0.has_process(pid as int),
        k0.initproc == Some(init),
        adopter(k0, pid as int),
        i < k0.pcb(pid as int).inner.children@.len(),
        children_given(k0, old(kernel).processes@, pid as int, i as int),
        *old(kernel) == (Kernel { processes: old(kernel).processes, ..k0 }),
        old(kernel).processes@[pid as int] == k0.processes@[pid as int],
    ensures
        final(kernel).wf(),
        children_given(k0, final(kernel).processes@, pid as int, i + 1),
        *final(kernel) == (Kernel { processes: final(kernel).processes, ..k0 }),
        final(kernel).processes@[pid as int] == k0.processes@[pid as int],
{
    let ghost children = k0.pcb(pid as int).inner.children@;
    let c: usize = match &kernel.processes[pid] {
        Some(p) => p.inner.children[i],
        None => 0,
    };
    let ghost k1 = *kernel;
    if c >= kernel.processes.len() || c == pid || c == init || kernel.processes[c].is_none() {
        proof {
            assert(!adoptable(k0, pid as int, init as int, c as int));
            assert(adopted(k0, pid as int, init as int, children, i + 1) == adopted(
                k0,
                pid as int,
                init as int,
                children,
                i as int,
            ));
        }
        return ;
    }
    match &mut kernel.processes[c] {
        Some(p) => {
            p.inner.parent = Some(init);
        },
        None => {},
    }
    match &mut kernel.processes[init] {
        Some(p) => {
            p.inner.children.push(c);
        },
        None => {},
    }
    proof {
        assert(adoptable(k0, pid as int, init as int, c as int));
        assert(k1.same_frame(kernel)) by {
            assert forall|q: int| 0 <= q < k1.processes@.len() implies ((
            #[trigger] kernel.processes@[q]) is Some <==> k1.processes@[q] is Some) && (
            k1.processes@[q] is Some ==> Kernel::same_core(
                kernel.processes@[q]->0,
                k1.processes@[q]->0,
            )) by {}
        }
        k1.lemma_same_frame(kernel);
        let a0 = adopted(k0, pid as int, init as int, children, i as int);
        assert(adopted(k0, pid as int, init as int, children, i + 1) == a0.push(c));
        assert(kernel.processes@[init as int]->0.inner.children@ =~= k0.pcb(
            init as int,
        ).inner.children@ + a0.push(c));
        assert forall|j: int|
            0 <= j < i + 1 && adoptable(
                k0,
                pid as int,
                init as int,
                #[trigger] children[j] as int,
            ) implies kernel.processes@[children[j] as int] == Some(
            with_parent(k0.pcb(children[j] as int), Some(init)),
        ) by {
            if children[j] == c {
                if exists|t: int|
                    0 <= t < i && #[trigger] children[t] == c && adoptable(
                        k0,
                        pid as int,
                        init as int,
                        c as int,
                    ) {
                    let t = choose|t: int|
                        0 <= t < i && #[trigger] children[t] == c && adoptable(
                            k0,
                            pid as int,
                            init as int,
                            c as int,
                        );
                    assert(adoptable(k0, pid as int, init as int, children[t] as int));
                    assert(k1.processes@[children[t] as int] == Some(
                        with_parent(k0.pcb(children[t] as int), Some(init)),
                    ));
                } else {
                    assert(k1.processes@[c as int] == k0.processes@[c as int]);
                }
            } else {
                assert(j < i);
                assert(kernel.processes@[children[j] as int] == k1.processes@[children[j] as int]);
            }
        }
        assert forall|q: int|
            0 <= q < kernel.processes@.len() && q != pid && !(adopter(k0, pid as int) && (q
                == init || (exists|t: int|
                0 <= t < i + 1 && #[trigger] children[t] == q && adoptable(
                    k0,
                    pid as int,
                    init as int,
                    q,
                )))) implies (#[trigger] kernel.processes@[q]) == k0.processes@[q] by {
            assert(q != c) by {
                if q == c {
                    assert(children[i as int] == q);
                }
            }
            assert(kernel.processes@[q] == k1.processes@[q]);
            if exists|t: int|
                0 <= t < i && #[trigger] children[t] == q && adoptable(
                    k0,
                    pid as int,
                    init as int,
                    q,
                ) {
                let t = choose|t: int|
                    0 <= t < i && #[trigger] children[t] == q && adoptable(
                        k0,
                        pid as int,
                        init as int,
                        q,
                    );
                assert(children[t] == q);
            }
        }
    }
}

/// Gives the children of the process `pid` to the process that adopts
/// orphans, if there is one, and leaves `pid` without children.
pub fn reparent_children(kernel: &mut Kernel, pid: usize)
    requires
        old(kernel).wf(),
        old(kernel).has_process(pid as int),
    ensures
        final(kernel).wf(),
        *final(kernel) == (Kernel { processes: final(kernel).processes, ..*old(kernel) }),
        children_given(
            *old(kernel),
            final(kernel).processes@,
            pid as int,
            old(kernel).pcb(pid as int).inner.children@.len() as int,
        ),
        final(kernel).pcb(pid as int) == (ProcessControlBlock {
            inner: ProcessControlBlockInner {
                children: final(kernel).pcb(pid as int).inner.children,
                ..old(kernel).pcb(pid as int).inner
            },
            ..old(kernel).pcb(pid as int)
        }),
        final(kernel).pcb(pid as int).inner.children@.len() == 0,
{
    let ghost k0 = *kernel;
    let n: usize = match &kernel.processes[pid] {
        Some(p) => p.inner.children.len(),
        None => 0,
    };
    let adopts: bool = match kernel.initproc {
        Some(init) => init != pid && init < kernel.processes.len()
            && kernel.processes[init].is_some(),
        None => false,
    };
    if adopts {
        let init: usize = kernel.initproc.unwrap();
        let mut i: usize = 0;
        while i < n
            invariant
                i <= n,
                n == k0.pcb(pid as int).inner.children@.len(),
                k0.wf(),
                kernel.wf(),
                k0.has_process(pid as int),
                k0.initproc == Some(init),
                adopter(k0, pid as int),
                children_given(k0, kernel.processes@, pid as int, i as int),
                *kernel == (Kernel { processes: kernel.processes, ..k0 }),
                kernel.processes@[pid as int] == k0.processes@[pid as int],
            decreases n - i,
        {
            adopt_one(kernel, pid, init, i, Ghost(k0));
            i = i + 1;
        }
    }
    let ghost k1 = *kernel;
    match &mut kernel.processes[pid] {
        Some(p) => {
            p.inner.children.clear();
        },
        None => {},
    }
    proof {
        assert(k1.same_frame(kernel)) by {
            assert forall|q: int| 0 <= q < k1.processes@.len() implies ((
            #[trigger] kernel.processes@[q]) is Some <==> k1.processes@[q] is Some) && (
            k1.processes@[q] is Some ==> Kernel::same_core(
                kernel.processes@[q]->0,
                k1.processes@[q]->0,
            )) by {}
        }
        k1.lemma_same_frame(kernel);
        let children = k0.pcb(pid as int).inner.children@;
        let init = k0.initproc->0 as int;
        if adopter(k0, pid as int) {
            assert(kernel.processes@[init] == k1.processes@[init]);
            assert forall|j: int|
                0 <= j < n && adoptable(
                    k0,
                    pid as int,
                    init,
                    #[trigger] children[j] as int,
                ) implies kernel.processes@[children[j] as int] == Some(
                with_parent(k0.pcb(children[j] as int), Some(init as usize)),
            ) by {
                assert(kernel.processes@[children[j] as int] == k1.processes@[children[j] as int]);
            }
        }
    }
}

/// What the kernel `k1` is after the zombie `pid` of the kernel `k0` has
/// given up what it held: its kernel stack is given back as
/// [`crate::task::id::stack_given_back`] says, so that the number of the
/// stack is not allocated any more and the area of the stack has left the
/// kernel address space; every frame of a page of its address space is
/// free again and no page below the trampoline is mapped there; and it has
/// no open file.  The contents of
/// the frames of the other processes are as before, and nothing else has
/// changed.
pub open spec fn resources_released(k0: Kernel, k1: Kernel, pid: int) -> bool {
    &&& k1 == (Kernel {
        mem: k1.mem,
        frame_allocator: k1.frame_allocator,
        kernel_space: k1.kernel_space,
        kstack_allocator: k1.kstack_allocator,
        processes: k1.processes,
        ..k0
    })
    &&& k1.processes@.len() == k0.processes@.len()
    &&& forall|q: int|
        0 <= q < k0.processes@.len() && q != pid ==> (#[trigger] k1.processes@[q])
            == k0.processes@[q]
    &&& k1.has_process(pid)
    &&& k1.pcb(pid) == (ProcessControlBlock {
        inner: ProcessControlBlockInner {
            memory_set: k1.pcb(pid).inner.memory_set,
            fd_table: k1.pcb(pid).inner.fd_table,
            ..k0.pcb(pid).inner
        },
        ..k0.pcb(pid)
    })
    &&& k1.pcb(pid).inner.fd_table@.len() == 0
    &&& k1.space(pid).areas@.len() == 0
    &&& k1.space(pid).page_table.root_ppn == k0.space(pid).page_table.root_ppn
    &&& forall|f: int| k0.space(pid).owns_data(f) ==> !k1.frame_allocator.is_allocated(f)
    &&& forall|f: int|
        k1.frame_allocator.is_allocated(f) ==> k0.frame_allocator.is_allocated(f)
    &&& forall|q: int, f: int| #[trigger]
        k0.has_process(q) && q != pid && #[trigger] k0.space(q).owns(f) ==> k1.mem@[f]
            == k0.mem@[f] && k1.frame_allocator.is_allocated(f)
    &&& if k0.pcb(pid).inner.task.kstack.0 < KSTACK_LIMIT {
        exists|ka: Kernel, removed: Option<usize>|
            {
                &&& #[trigger] crate::task::id::stack_given_back(
                    k0.kstack_allocator,
                    ka.kstack_allocator,
                    k0.kernel_space,
                    ka.kernel_space,
                    k0.mem@,
                    ka.mem@,
                    k0.frame_allocator,
                    ka.frame_allocator,
                    k0.pcb(pid).inner.task.kstack.0 as int,
                    removed,
                )
                &&& k1.kernel_space == ka.kernel_space
                &&& k1.kstack_allocator == ka.kstack_allocator
            }
    } else {
        k1.kernel_space == k0.kernel_space && k1.kstack_allocator == k0.kstack_allocator
    }
}

/// The zombie `pid` gives up what it holds: the kernel stack of its task,
/// every frame of a page of its address space, and its open files.  The
/// page table stays, so that the token of the address space stays good
/// until the zombie is reaped.
pub fn release_process(kernel: &mut Kernel, pid: usize)
    requires
        old(kernel).wf(),
        old(kernel).has_process(pid as int),
        old(kernel).pcb(pid as int).inner.is_zombie,
    ensures
        final(kernel).wf(),
        resources_released(*old(kernel), *final(kernel), pid as int),
{
    let ghost k0 = *kernel;
    proof {
        k0.lemma_wf_kernel();
        k0.lemma_wf_process(pid as int);
    }
    let kid: usize = match &kernel.processes[pid] {
        Some(p) => p.inner.task.kstack.0,
        None => 0,
    };
    if kid < KSTACK_LIMIT {
        let _ = kstack_dealloc(
            KernelStack(kid),
            &mut kernel.kstack_allocator,
            &mut kernel.kernel_space,
            &mut kernel.frame_allocator,
            &mut kernel.mem,
        );
        proof {
            k0.kernel_space.lemma_wf_facts(k0.mem@);
            k0.kernel_space.page_table.lemma_wf_basics(k0.mem@);
            assert(crate::mm::spaces::owner_step(
                k0.mem@,
                kernel.mem@,
                k0.frame_allocator,
                kernel.frame_allocator,
                crate::mm::spaces::frames_of(k0.kernel_space),
                crate::mm::spaces::frames_of(kernel.kernel_space),
            ));
            k0.lemma_kernel_space_step(kernel);
        }
    }
    let ghost ka = *kernel;
    proof {
        ka.lemma_wf_kernel();
        ka.lemma_wf_process(pid as int);
        if kid < KSTACK_LIMIT {
            assert forall|q: int, f: int| #[trigger]
                k0.has_process(q) && #[trigger] k0.space(q).owns(f) implies ka.mem@[f]
                == k0.mem@[f] && ka.frame_allocator.is_allocated(f) by {
                k0.lemma_kernel_bystander(&ka, q);
                k0.lemma_wf_process(q);
                ka.lemma_wf_process(q);
            }
        } else {
            assert forall|q: int, f: int| #[trigger]
                k0.has_process(q) && #[trigger] k0.space(q).owns(f) implies ka.mem@[f]
                == k0.mem@[f] && ka.frame_allocator.is_allocated(f) by {
                k0.lemma_wf_process(q);
            }
        }
    }
    match &mut kernel.processes[pid] {
        Some(p) => {
            p.inner.memory_set.recycle_data_pages(&mut kernel.frame_allocator, &mut kernel.mem);
            p.inner.fd_table.clear();
        },
        None => {},
    }
    proof {
        crate::mm::spaces::lemma_drained_step(
            ka.space(pid as int),
            kernel.space(pid as int),
            ka.mem@,
            kernel.mem@,
            ka.frame_allocator,
            kernel.frame_allocator,
        );
        ka.lemma_process_space_step(kernel, pid as int);
        assert forall|q: int, f: int| #[trigger]
            k0.has_process(q) && q != pid && #[trigger] k0.space(q).owns(f) implies kernel.mem@[f]
            == k0.mem@[f] && kernel.frame_allocator.is_allocated(f) by {
            kernel.lemma_wf_process(q);
            ka.lemma_process_bystander(kernel, pid as int, q);
        }
    }
}

} // verus!
