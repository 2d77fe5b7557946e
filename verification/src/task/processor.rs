//! The processor: which task has it, and how the next one gets it.

use vstd::prelude::*;
use crate::task::kernel::Kernel;
use crate::task::manager::{add_task, fetch_task, set_status, with_status};
use crate::task::process::ProcessControlBlock;
use crate::task::task::TaskStatus;
use crate::trap::context::TrapContext;

verus! {

/// The identifier of the task that has the processor.
pub fn current_task(kernel: &Kernel) -> (r: Option<usize>)
    ensures
        r == kernel.current,
{
    kernel.current
}

/// The token of the address space of the task that has the processor.
pub fn current_user_token(kernel: &Kernel) -> (r: u64)
    requires
        kernel.wf(),
        kernel.current is Some,
    ensures
        r == 0x8000_0000_0000_0000 + kernel.space(
            kernel.current->0 as int,
        ).page_table.root_ppn.0 % crate::config::PPN_LIMIT,
{
    proof {
        kernel.lemma_wf_kernel();
    }
    let pid: usize = kernel.current.unwrap();
    match &kernel.processes[pid] {
        Some(p) => p.inner.get_user_token(),
        None => 0,
    }
}

/// The trap context of the task that has the processor, read from its
/// frame.
pub fn current_trap_cx(kernel: &Kernel) -> (r: TrapContext)
    requires
        kernel.wf(),
        kernel.current is Some,
    ensures
        r.held_by(kernel.mem@[kernel.trap_frame(kernel.current->0 as int)]),
{
    let pid: usize = kernel.current.unwrap();
    proof {
        kernel.lemma_wf_kernel();
        kernel.lemma_wf_process(pid as int);
    }
    match &kernel.processes[pid] {
        Some(p) => TrapContext::load(&kernel.mem, p.inner.task.inner.trap_cx_ppn),
        None => TrapContext::load(&kernel.mem, crate::mm::address::PhysPageNum(0)),
    }
}

/// The table of processes `procs` after task `a` has got the status `sa`
/// and then task `b` the status running.
pub open spec fn handed_over(
    procs: Seq<Option<ProcessControlBlock>>,
    a: int,
    sa: TaskStatus,
    b: int,
) -> Seq<Option<ProcessControlBlock>> {
    let p1 = procs.update(a, Some(with_status(procs[a]->0, sa)));
    p1.update(b, Some(with_status(p1[b]->0, TaskStatus::Running)))
}

/// What the kernel `k1` is after the free processor of the kernel `k0` has
/// been given to the task that waits longest: the task has left the ready
/// queue and runs; nothing else has changed.  With an empty queue nothing
/// has changed at all.
pub open spec fn scheduled(k0: Kernel, k1: Kernel) -> bool {
    &&& k1 == (Kernel {
        ready_queue: k1.ready_queue,
        current: k1.current,
        processes: k1.processes,
        ..k0
    })
    &&& k0.ready_queue@.len() == 0 ==> {
        &&& k1.current is None
        &&& k1.ready_queue@ == k0.ready_queue@
        &&& k1.processes@ == k0.processes@
    }
    &&& k0.ready_queue@.len() > 0 ==> {
        &&& k1.current == Some(k0.ready_queue@[0])
        &&& k1.ready_queue@ == k0.ready_queue@.subrange(1, k0.ready_queue@.len() as int)
        &&& k1.processes@ == k0.processes@.update(
            k0.ready_queue@[0] as int,
            Some(with_status(k0.pcb(k0.ready_queue@[0] as int), TaskStatus::Running)),
        )
    }
}

/// Gives the processor, which is free, to the task that waits longest: it
/// leaves the ready queue and runs.  With an empty queue nothing changes and
/// the processor stays free.
pub fn schedule(kernel: &mut Kernel)
    requires
        old(kernel).wf(),
        old(kernel).current is None,
    ensures
        final(kernel).wf(),
        scheduled(*old(kernel), *final(kernel)),
        *final(kernel) == (Kernel {
            ready_queue: final(kernel).ready_queue,
            current: final(kernel).current,
            processes: final(kernel).processes,
            ..*old(kernel)
        }),
        old(kernel).ready_queue@.len() == 0 ==> {
            &&& final(kernel).current is None
            &&& final(kernel).ready_queue@ == old(kernel).ready_queue@
            &&& final(kernel).processes@ == old(kernel).processes@
        },
        old(kernel).ready_queue@.len() > 0 ==> {
            &&& final(kernel).current == Some(old(kernel).ready_queue@[0])
            &&& final(kernel).ready_queue@ == old(kernel).ready_queue@.subrange(
                1,
                old(kernel).ready_queue@.len() as int,
            )
            &&& final(kernel).processes@ == old(kernel).processes@.update(
                old(kernel).ready_queue@[0] as int,
                Some(
                    with_status(
                        old(kernel).pcb(old(kernel).ready_queue@[0] as int),
                        TaskStatus::Running,
                    ),
                ),
            )
        },
{
    match fetch_task(kernel) {
        Some(pid) => {
            let ghost k1 = *kernel;
            set_status(kernel, pid, TaskStatus::Running);
            kernel.current = Some(pid);
            proof {
                k1.lemma_wf_kernel();
                k1.lemma_wf_process(pid as int);
                k1.lemma_status_step(kernel, pid as int);
            }
        },
        None => {},
    }
}

} // verus!
