//! Processes, tasks, identifiers and the scheduler.

pub mod context;
pub mod delivery;
pub mod exec;
pub mod exit;
pub mod fork;
pub mod id;
pub mod kernel;
pub mod kernel_space;
pub mod lifecycle;
pub mod manager;
pub mod process;
pub mod processor;
pub mod resources;
pub mod task;
pub mod wait;
pub mod signal;

pub use context::TaskContext;
pub use signal::{SignalAction, SignalActions, SignalFlags, MAX_SIG};
pub use id::{kernel_stack_position, kstack_alloc, kstack_dealloc, pid_alloc, KernelStack, PidHandle, RecycleAllocator, TaskUserRes};
pub use process::{FileDescriptor, ProcessControlBlock, ProcessControlBlockInner};
pub use task::{TaskControlBlock, TaskControlBlockInner, TaskStatus};
pub use kernel::{FileWrite, Kernel};
pub use manager::{add_task, fetch_task, remove_task};
pub use processor::{current_task, current_trap_cx, current_user_token, schedule};

use vstd::prelude::*;

verus! {

/// What the kernel `k1` is after the task that ran in the kernel `k0` has
/// given the processor up and stayed ready: it is at the back of the ready
/// queue, and the task that waited longest runs; with an empty queue that
/// is the task itself.  Nothing else has changed.
pub open spec fn suspended(k0: Kernel, k1: Kernel) -> bool {
    &&& k1 == (Kernel {
        ready_queue: k1.ready_queue,
        current: k1.current,
        processes: k1.processes,
        ..k0
    })
    &&& k1.current == Some(k0.ready_queue@.push(k0.current->0)[0])
    &&& k1.ready_queue@ == k0.ready_queue@.push(k0.current->0).subrange(
        1,
        k0.ready_queue@.len() as int + 1,
    )
    &&& k1.processes@ == processor::handed_over(
        k0.processes@,
        k0.current->0 as int,
        TaskStatus::Ready,
        k0.ready_queue@.push(k0.current->0)[0] as int,
    )
}

/// The task that has the processor gives it up and stays ready: it goes to
/// the back of the ready queue, and the task that waits longest gets the
/// processor.  With an empty queue the task gets the processor back at
/// once.
pub fn suspend_current_and_run_next(kernel: &mut Kernel)
    requires
        old(kernel).wf(),
        old(kernel).current is Some,
    ensures
        final(kernel).wf(),
        suspended(*old(kernel), *final(kernel)),
        *final(kernel) == (Kernel {
            ready_queue: final(kernel).ready_queue,
            current: final(kernel).current,
            processes: final(kernel).processes,
            ..*old(kernel)
        }),
        final(kernel).current == Some(
            old(kernel).ready_queue@.push(old(kernel).current->0)[0],
        ),
        final(kernel).ready_queue@ == old(kernel).ready_queue@.push(
            old(kernel).current->0,
        ).subrange(1, old(kernel).ready_queue@.len() as int + 1),
        final(kernel).processes@ == processor::handed_over(
            old(kernel).processes@,
            old(kernel).current->0 as int,
            TaskStatus::Ready,
            old(kernel).ready_queue@.push(old(kernel).current->0)[0] as int,
        ),
{
    let a: usize = kernel.current.unwrap();
    proof {
        kernel.lemma_wf_kernel();
        kernel.lemma_current_not_queued();
    }
    manager::set_status(kernel, a, TaskStatus::Ready);
    kernel.current = None;
    proof {
        old(kernel).lemma_wf_process(a as int);
        old(kernel).lemma_status_step(kernel, a as int);
    }
    add_task(kernel, a);
    schedule(kernel);
}

/// The task that has the processor gives it up to wait for an event: it is
/// blocked and in no queue, and the task that waits longest gets the
/// processor.  With an empty queue the processor stays free.
pub fn block_current_and_run_next(kernel: &mut Kernel)
    requires
        old(kernel).wf(),
        old(kernel).current is Some,
    ensures
        final(kernel).wf(),
        *final(kernel) == (Kernel {
            ready_queue: final(kernel).ready_queue,
            current: final(kernel).current,
            processes: final(kernel).processes,
            ..*old(kernel)
        }),
        old(kernel).ready_queue@.len() == 0 ==> {
            &&& final(kernel).current is None
            &&& final(kernel).ready_queue@ == old(kernel).ready_queue@
            &&& final(kernel).processes@ == old(kernel).processes@.update(
                old(kernel).current->0 as int,
                Some(
                    manager::with_status(
                        old(kernel).pcb(old(kernel).current->0 as int),
                        TaskStatus::Blocked,
                    ),
                ),
            )
        },
        old(kernel).ready_queue@.len() > 0 ==> {
            &&& final(kernel).current == Some(old(kernel).ready_queue@[0])
            &&& final(kernel).ready_queue@ == old(kernel).ready_queue@.subrange(
                1,
                old(kernel).ready_queue@.len() as int,
            )
            &&& final(kernel).processes@ == processor::handed_over(
                old(kernel).processes@,
                old(kernel).current->0 as int,
                TaskStatus::Blocked,
                old(kernel).ready_queue@[0] as int,
            )
        },
{
    let a: usize = kernel.current.unwrap();
    proof {
        kernel.lemma_wf_kernel();
        kernel.lemma_current_not_queued();
    }
    manager::set_status(kernel, a, TaskStatus::Blocked);
    kernel.current = None;
    proof {
        old(kernel).lemma_wf_process(a as int);
        old(kernel).lemma_status_step(kernel, a as int);
    }
    schedule(kernel);
}

/// Makes the blocked task `pid` ready and puts it at the back of the ready
/// queue.  Tells whether `pid` was a living blocked task; if not, nothing
/// changes.
pub fn wakeup_task(kernel: &mut Kernel, pid: usize) -> (r: bool)
    requires
        old(kernel).wf(),
    ensures
        final(kernel).wf(),
        r <==> old(kernel).is_live(pid as int) && old(kernel).status(pid as int)
            == TaskStatus::Blocked,
        *final(kernel) == (Kernel {
            ready_queue: final(kernel).ready_queue,
            processes: final(kernel).processes,
            ..*old(kernel)
        }),
        !r ==> final(kernel).ready_queue@ == old(kernel).ready_queue@ && final(kernel).processes@ == old(kernel).processes@,
        r ==> final(kernel).ready_queue@ == old(kernel).ready_queue@.push(pid) && final(kernel).processes@ == old(kernel).processes@.update(
            pid as int,
            Some(manager::with_status(old(kernel).pcb(pid as int), TaskStatus::Ready)),
        ),
{
    if pid >= kernel.processes.len() {
        return false;
    }
    let blocked: bool = match &kernel.processes[pid] {
        Some(p) => !p.inner.is_zombie && p.inner.task.inner.task_status == TaskStatus::Blocked,
        None => false,
    };
    if !blocked {
        return false;
    }
    proof {
        kernel.lemma_wf_kernel();
        if kernel.queued(pid as int) {
            let i = choose|i: int|
                0 <= i < kernel.ready_queue@.len() && #[trigger] kernel.ready_queue@[i] == pid;
            assert(kernel.status(kernel.ready_queue@[i] as int) == TaskStatus::Ready);
        }
    }
    manager::set_status(kernel, pid, TaskStatus::Ready);
    proof {
        old(kernel).lemma_wf_process(pid as int);
        old(kernel).lemma_status_step(kernel, pid as int);
    }
    add_task(kernel, pid);
    true
}

/// When a timer interrupt suspends the task that runs while others wait,
/// the task goes to the back of the ready queue in the ready state, and the
/// task that was at the front runs.
pub proof fn lemma_preemption(k0: Kernel, k1: Kernel)
    requires
        k0.wf(),
        k0.current is Some,
        k0.ready_queue@.len() > 0,
        k1.current == Some(k0.ready_queue@.push(k0.current->0)[0]),
        k1.ready_queue@ == k0.ready_queue@.push(k0.current->0).subrange(
            1,
            k0.ready_queue@.len() as int + 1,
        ),
        k1.processes@ == processor::handed_over(
            k0.processes@,
            k0.current->0 as int,
            TaskStatus::Ready,
            k0.ready_queue@.push(k0.current->0)[0] as int,
        ),
    ensures
        k1.current == Some(k0.ready_queue@[0]),
        k1.ready_queue@.len() == k0.ready_queue@.len(),
        k1.ready_queue@.last() == k0.current->0,
        forall|i: int|
            0 <= i < k0.ready_queue@.len() - 1 ==> (#[trigger] k1.ready_queue@[i])
                == k0.ready_queue@[i + 1],
        k1.status(k0.current->0 as int) == TaskStatus::Ready,
        k1.status(k0.ready_queue@[0] as int) == TaskStatus::Running,
        !k1.queued(k0.ready_queue@[0] as int),
{
    k0.lemma_wf_kernel();
    k0.lemma_current_not_queued();
    let a = k0.current->0;
    let b = k0.ready_queue@[0];
    assert(k0.queued(b as int));
    assert(a != b);
    assert(k0.is_live(b as int));
    if k1.queued(b as int) {
        let i = choose|i: int| 0 <= i < k1.ready_queue@.len() && #[trigger] k1.ready_queue@[i] == b;
        if i < k0.ready_queue@.len() - 1 {
            assert(k1.ready_queue@[i] == k0.ready_queue@[i + 1]);
        }
    }
}

/// The steps by which the process that runs in the kernel `k0` exits with
/// the code `code`: in `ka` it is a zombie and the processor is free, and
/// if it is the process that adopts orphans, the system is marked as shut
/// down, with success exactly for the code 0; in `kb` it has given its
/// children away; in `kc` it has given up what it held; in `k1` the task
/// that waited longest runs, unless the process is the one that adopts
/// orphans: then the system stops, and no task gets the processor.
pub open spec fn exit_steps(
    k0: Kernel,
    ka: Kernel,
    kb: Kernel,
    kc: Kernel,
    k1: Kernel,
    code: i32,
) -> bool {
    let pid = k0.current->0 as int;
    &&& ka == (Kernel {
        processes: ka.processes,
        current: None,
        shutdown: if k0.initproc == Some(pid as usize) {
            Some(code == 0)
        } else {
            k0.shutdown
        },
        ..k0
    })
    &&& ka.processes@ == k0.processes@.update(pid, Some(exit::zombie_of(k0.pcb(pid), code)))
    &&& kb == (Kernel { processes: kb.processes, ..ka })
    &&& exit::children_given(
        ka,
        kb.processes@,
        pid,
        ka.pcb(pid).inner.children@.len() as int,
    )
    &&& kb.pcb(pid) == (ProcessControlBlock {
        inner: ProcessControlBlockInner {
            children: kb.pcb(pid).inner.children,
            ..ka.pcb(pid).inner
        },
        ..ka.pcb(pid)
    })
    &&& kb.pcb(pid).inner.children@.len() == 0
    &&& exit::resources_released(kb, kc, pid)
    &&& if k0.initproc == Some(pid as usize) {
        k1 == kc
    } else {
        processor::scheduled(kc, k1)
    }
}

/// What the kernel `k1` is after the process that ran in the kernel `k0`
/// has exited with the code `code`: see [`exit_steps`].
pub open spec fn exited(k0: Kernel, k1: Kernel, code: i32) -> bool {
    exists|ka: Kernel, kb: Kernel, kc: Kernel| #[trigger] exit_steps(k0, ka, kb, kc, k1, code)
}

/// A process that has exited is a zombie with its exit code.
pub proof fn lemma_exited_zombie(k0: Kernel, k1: Kernel, code: i32)
    requires
        k0.wf(),
        k0.current is Some,
        exited(k0, k1, code),
    ensures
        k1.has_process(k0.current->0 as int),
        k1.pcb(k0.current->0 as int).inner.is_zombie,
        k1.pcb(k0.current->0 as int).inner.exit_code == code,
        k1.status(k0.current->0 as int) == TaskStatus::Zombie,
{
    let (ka, kb, kc) = choose|ka: Kernel, kb: Kernel, kc: Kernel| #[trigger]
        exit_steps(k0, ka, kb, kc, k1, code);
    let pid = k0.current->0 as int;
    k0.lemma_wf_kernel();
    k0.lemma_current_not_queued();
    assert(ka.pcb(pid) == exit::zombie_of(k0.pcb(pid), code));
    if kc.ready_queue@.len() > 0 {
        let b = kc.ready_queue@[0];
        assert(k0.ready_queue@[0] == b);
        assert(k0.queued(b as int));
    }
}

/// The process that runs exits with the code `exit_code`: it becomes a
/// zombie that keeps the code until its parent collects it; its children
/// go to the process that adopts orphans; its kernel stack, the frames of
/// its pages and its open files are given up; and the task that waits
/// longest gets the processor.  If the process is the one that adopts
/// orphans, the system is marked as shut down instead, with success
/// exactly when the code is 0: no task gets the processor, and the ready
/// queue stays as it is.
pub fn exit_current_and_run_next(kernel: &mut Kernel, exit_code: i32)
    requires
        old(kernel).wf(),
        old(kernel).current is Some,
    ensures
        final(kernel).wf(),
        exists|ka: Kernel, kb: Kernel, kc: Kernel| #[trigger]
            exit_steps(*old(kernel), ka, kb, kc, *final(kernel), exit_code),
        final(kernel).has_process(old(kernel).current->0 as int),
        final(kernel).pcb(old(kernel).current->0 as int).inner.is_zombie,
        final(kernel).pcb(old(kernel).current->0 as int).inner.exit_code == exit_code,
        final(kernel).status(old(kernel).current->0 as int) == TaskStatus::Zombie,
        final(kernel).pcb(old(kernel).current->0 as int).inner.children@.len() == 0,
        final(kernel).pcb(old(kernel).current->0 as int).inner.fd_table@.len() == 0,
        final(kernel).space(old(kernel).current->0 as int).areas@.len() == 0,
        final(kernel).current == (if old(kernel).initproc != Some(old(kernel).current->0)
            && old(kernel).ready_queue@.len() > 0 {
            Some(old(kernel).ready_queue@[0])
        } else {
            None
        }),
        final(kernel).ready_queue@ == (if old(kernel).initproc != Some(old(kernel).current->0)
            && old(kernel).ready_queue@.len() > 0 {
            old(kernel).ready_queue@.subrange(1, old(kernel).ready_queue@.len() as int)
        } else {
            old(kernel).ready_queue@
        }),
        final(kernel).shutdown == (if old(kernel).initproc == Some(old(kernel).current->0) {
            Some(exit_code == 0)
        } else {
            old(kernel).shutdown
        }),
{
    let pid: usize = kernel.current.unwrap();
    let ghost k0 = *kernel;
    proof {
        k0.lemma_wf_kernel();
        k0.lemma_current_not_queued();
    }
    exit::mark_exited(kernel, exit_code);
    let ghost k_marked = *kernel;
    let is_init: bool = match kernel.initproc {
        Some(init) => init == pid,
        None => false,
    };
    if is_init {
        kernel.shutdown = Some(exit_code == 0);
        proof {
            assert(k_marked.same_frame(kernel)) by {
                assert forall|q: int| 0 <= q < k_marked.processes@.len() implies ((
                #[trigger] kernel.processes@[q]) is Some <==> k_marked.processes@[q] is Some) && (
                k_marked.processes@[q] is Some ==> Kernel::same_core(
                    kernel.processes@[q]->0,
                    k_marked.processes@[q]->0,
                )) by {}
            }
            k_marked.lemma_same_frame(kernel);
        }
    }
    let ghost ka = *kernel;
    exit::reparent_children(kernel, pid);
    let ghost kb = *kernel;
    exit::release_process(kernel, pid);
    let ghost kc = *kernel;
    if !is_init {
        schedule(kernel);
    }
    proof {
        assert(exit_steps(k0, ka, kb, kc, *kernel, exit_code));
        if k0.ready_queue@.len() > 0 {
            let b = k0.ready_queue@[0];
            assert(k0.queued(b as int));
            assert(b != pid);
        }
    }
}

/// Takes the task `pid` out of the ready queue, if it waits there: a task
/// that is given up must not be scheduled again.
pub fn remove_inactive_task(kernel: &mut Kernel, pid: usize)
    requires
        old(kernel).wf(),
    ensures
        final(kernel).wf(),
        !final(kernel).queued(pid as int),
        forall|q: int| q != pid ==> (final(kernel).queued(q) <==> old(kernel).queued(q)),
        final(kernel).ready_queue@ == old(kernel).ready_queue@.filter(|x: usize| x != pid),
        *final(kernel) == (Kernel { ready_queue: final(kernel).ready_queue, ..*old(kernel) }),
{
    remove_task(kernel, pid);
}

/// Creates the first process from the program in the ELF image `elf_data`
/// and makes it the process that adopts orphans.
///
/// Refused, with nothing changed, when [`Kernel::spawn_error`] says so.
pub fn add_initproc(kernel: &mut Kernel, elf_data: &[u8]) -> (r: Result<usize, lifecycle::SpawnError>)
    requires
        old(kernel).wf(),
    ensures
        final(kernel).wf(),
        r matches Err(e) ==> old(kernel).spawn_error(elf_data@) == Some(e) && *final(kernel)
            == *old(kernel),
        r matches Ok(pid) ==> old(kernel).spawn_error(elf_data@) is None && exists|km: Kernel| #[trigger]
            Kernel::spawned(*old(kernel), km, pid as int, elf_data@) && *final(kernel) == (Kernel {
                initproc: Some(pid),
                ..km
            }),
{
    match kernel.spawn(elf_data) {
        Ok(pid) => {
            let ghost km = *kernel;
            kernel.initproc = Some(pid);
            proof {
                assert(km.same_frame(kernel)) by {
                    assert forall|q: int| 0 <= q < km.processes@.len() implies ((
                    #[trigger] kernel.processes@[q]) is Some <==> km.processes@[q] is Some) && (
                    km.processes@[q] is Some ==> Kernel::same_core(
                        kernel.processes@[q]->0,
                        km.processes@[q]->0,
                    )) by {}
                }
                km.lemma_same_frame(kernel);
                assert(Kernel::spawned(*old(kernel), km, pid as int, elf_data@));
            }
            Ok(pid)
        },
        Err(e) => Err(e),
    }
}

} // verus!
