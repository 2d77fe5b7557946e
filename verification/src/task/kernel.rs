//! The state of the whole kernel as one value, and what holds of it between
//! any two operations.

use vstd::prelude::*;
use std::collections::VecDeque;
use crate::config::PPN_LIMIT;
use crate::mm::address::PhysPageNum;
use crate::mm::frame_allocator::StackFrameAllocator;
use crate::mm::memory::PhysMemory;
use crate::mm::memory_set::{MapType, MemorySet};
use crate::mm::spaces::{frames_of, lemma_spaces_step, lemma_trampoline_step, owner_step, spaces_inv};
use crate::task::id::{RecycleAllocator, KSTACK_LIMIT};
use crate::task::process::ProcessControlBlock;
use crate::task::task::TaskStatus;

verus! {

/// The kernel: physical memory, the allocators, the kernel address space,
/// the table of processes, the ready queue and the task that runs.
pub struct Kernel {
    /// Physical memory.
    pub mem: PhysMemory,
    /// The allocator of physical frames.
    pub frame_allocator: StackFrameAllocator,
    /// The address space of the kernel: the kernel stacks and the
    /// trampoline page.
    pub kernel_space: MemorySet,
    /// The frame of the trampoline code.
    pub trampoline: PhysPageNum,
    /// Hands out the identifiers of processes.
    pub pid_allocator: RecycleAllocator,
    /// Hands out the numbers of kernel stacks.
    pub kstack_allocator: RecycleAllocator,
    /// The processes by identifier; a free slot is `None`.
    pub processes: Vec<Option<ProcessControlBlock>>,
    /// The identifiers of the tasks that wait for the processor, the one
    /// that waits longest first.
    pub ready_queue: VecDeque<usize>,
    /// The identifier of the task that has the processor.
    pub current: Option<usize>,
    /// The identifier of the process that adopts orphans.
    pub initproc: Option<usize>,
    /// Value of the status register of the hart.
    pub sstatus: u64,
    /// Address of the trap handler.
    pub trap_handler: u64,
    /// Address of the routine that returns to user mode.
    pub trap_return: u64,
    /// Milliseconds since boot, as the timer last told.
    pub time_ms: u64,
    /// Set when the process that adopts orphans has exited: whether its
    /// exit code was zero.
    pub shutdown: Option<bool>,
    /// What processes have written to files and not yet been handed to
    /// the file system, in the order of the writes.
    pub output: Vec<FileWrite>,
}

/// Bytes that a process has written to a file.
#[derive(Debug)]
pub struct FileWrite {
    /// Handle of the open file.
    pub file: usize,
    /// The bytes.
    pub data: Vec<u8>,
}

impl Kernel {
    /// Whether a process with the identifier `pid` exists, alive or zombie.
    pub open spec fn has_process(&self, pid: int) -> bool {
        0 <= pid < self.processes@.len() && self.processes@[pid] is Some
    }

    /// The control block of process `pid`.
    pub open spec fn pcb(&self, pid: int) -> ProcessControlBlock {
        self.processes@[pid]->0
    }

    /// Whether process `pid` exists and has not exited.
    pub open spec fn is_live(&self, pid: int) -> bool {
        self.has_process(pid) && !self.pcb(pid).inner.is_zombie
    }

    /// The address space of process `pid`.
    pub open spec fn space(&self, pid: int) -> MemorySet {
        self.pcb(pid).inner.memory_set
    }

    /// The status of the task of process `pid`.
    pub open spec fn status(&self, pid: int) -> TaskStatus {
        self.pcb(pid).inner.task.inner.task_status
    }

    /// The frame that holds the trap context of process `pid`.
    pub open spec fn trap_frame(&self, pid: int) -> int {
        self.pcb(pid).inner.task.inner.trap_cx_ppn.0 as int
    }

    /// Whether `pid` waits in the ready queue.
    pub open spec fn queued(&self, pid: int) -> bool {
        exists|i: int| 0 <= i < self.ready_queue@.len() && #[trigger] self.ready_queue@[i] == pid
    }

    /// All address spaces: the kernel's under the key -1, that of process
    /// `pid` under the key `pid`.
    pub open spec fn spaces(&self) -> Map<int, MemorySet> {
        Map::new(
            |id: int| id == -1 || self.has_process(id),
            |id: int|
                if id == -1 {
                    self.kernel_space
                } else {
                    self.space(id)
                },
        )
    }

    /// The memory is sound: the allocator is consistent and manages frames
    /// of the memory, and the address spaces live together in it.
    pub open spec fn mm_inv(&self) -> bool {
        &&& self.frame_allocator.wf()
        &&& self.frame_allocator.end() <= self.mem@.len()
        &&& self.frame_allocator.end() <= PPN_LIMIT
        &&& spaces_inv(self.spaces(), self.mem@, self.frame_allocator)
    }

    /// The table of processes is sound: a process sits in the slot of its
    /// identifier, which is allocated, and it is a zombie exactly when its
    /// task is.
    pub open spec fn table_inv(&self) -> bool {
        &&& self.pid_allocator.wf()
        &&& self.kstack_allocator.wf()
        &&& self.processes@.len() <= isize::MAX
        &&& forall|pid: int| #[trigger]
            self.has_process(pid) ==> {
                &&& self.pcb(pid).pid.0 == pid
                &&& self.pcb(pid).inner.task.process == pid
                &&& self.pid_allocator.is_allocated(pid)
                &&& self.pcb(pid).inner.is_zombie <==> self.status(pid) == TaskStatus::Zombie
            }
    }

    /// Whether every area of the address space `s` is framed.
    pub open spec fn all_framed(s: MemorySet) -> bool {
        crate::mm::user::framed_only(s)
    }

    /// Whether the address space `s` maps the trap-context page of thread
    /// 0 to the frame `f` in the memory `m`.
    pub open spec fn trap_mapped(s: MemorySet, m: Seq<Seq<u64>>, f: int) -> bool {
        crate::mm::page_table::lookup(
            m,
            s.page_table.root(),
            crate::config::TRAP_CONTEXT_VPN as int,
        ) matches Some(e) && crate::mm::page_table::pte_ppn(e.bits) == f
    }

    /// Every process that lives has its trap context in the frame of the
    /// trap-context page of its own address space, which holds framed areas
    /// only and the trampoline.
    pub open spec fn live_inv(&self) -> bool {
        forall|pid: int| #[trigger]
            self.is_live(pid) ==> {
                &&& Self::trap_mapped(self.space(pid), self.mem@, self.trap_frame(pid))
                &&& Self::all_framed(self.space(pid))
                &&& self.space(pid).trampoline == Some(self.trampoline)
                &&& self.pcb(pid).inner.task.kstack.0 < KSTACK_LIMIT
            }
    }

    /// The scheduler is sound: the ready queue holds living tasks that are
    /// ready, none twice, and the task that has the processor lives and is
    /// running.  So no task is in the queue while it runs.
    pub open spec fn sched_inv(&self) -> bool {
        &&& forall|i: int|
            0 <= i < self.ready_queue@.len() ==> self.is_live(#[trigger] self.ready_queue@[i] as int)
                && self.status(self.ready_queue@[i] as int) == TaskStatus::Ready
        &&& forall|i: int, j: int|
            0 <= i < j < self.ready_queue@.len() ==> self.ready_queue@[i] != self.ready_queue@[j]
        &&& self.current matches Some(c) ==> self.is_live(c as int) && self.status(c as int)
            == TaskStatus::Running
    }

    /// What holds of the kernel between any two operations.
    #[verifier::opaque]
    pub open spec fn wf(&self) -> bool {
        &&& self.mm_inv()
        &&& self.table_inv()
        &&& self.live_inv()
        &&& self.sched_inv()
    }

    /// The task that runs is not in the ready queue.
    pub proof fn lemma_current_not_queued(&self)
        requires
            self.wf(),
            self.current is Some,
        ensures
            !self.queued(self.current->0 as int),
    {
        reveal(Kernel::wf);
        let c = self.current->0 as int;
        if self.queued(c) {
            let i = choose|i: int| 0 <= i < self.ready_queue@.len() && #[trigger] self.ready_queue@[i] == c;
            assert(self.status(self.ready_queue@[i] as int) == TaskStatus::Ready);
        }
    }

    /// What depends on a process in the invariant: its identifier, whether
    /// it is a zombie, its address space, and of its task the process, the
    /// kernel stack, the trap-context frame and the status.
    pub open spec fn same_core(a: ProcessControlBlock, b: ProcessControlBlock) -> bool {
        &&& a.pid == b.pid
        &&& a.inner.is_zombie == b.inner.is_zombie
        &&& a.inner.memory_set == b.inner.memory_set
        &&& a.inner.task.process == b.inner.task.process
        &&& a.inner.task.kstack == b.inner.task.kstack
        &&& a.inner.task.inner.trap_cx_ppn == b.inner.task.inner.trap_cx_ppn
        &&& a.inner.task.inner.task_status == b.inner.task.inner.task_status
    }

    /// Whether the kernel `other` differs from this one at most in the
    /// control blocks of its processes, and there in nothing that the
    /// invariant depends on.
    pub open spec fn same_frame(&self, other: &Kernel) -> bool {
        &&& other.mem@ == self.mem@
        &&& other.frame_allocator == self.frame_allocator
        &&& other.kernel_space == self.kernel_space
        &&& other.trampoline == self.trampoline
        &&& other.pid_allocator == self.pid_allocator
        &&& other.kstack_allocator == self.kstack_allocator
        &&& other.ready_queue@ == self.ready_queue@
        &&& other.current == self.current
        &&& other.processes@.len() == self.processes@.len()
        &&& forall|pid: int|
            0 <= pid < self.processes@.len() ==> ((#[trigger] other.processes@[pid]) is Some
                <==> self.processes@[pid] is Some) && (self.processes@[pid] is Some ==> Self::same_core(
                other.processes@[pid]->0,
                self.processes@[pid]->0,
            ))
    }

    /// A change of the control blocks that leaves alone what the invariant
    /// depends on keeps the invariant.
    pub proof fn lemma_same_frame(&self, other: &Kernel)
        requires
            self.wf(),
            self.same_frame(other),
        ensures
            other.wf(),
    {
        reveal(Kernel::wf);
        assert(other.spaces() =~= self.spaces()) by {
            assert forall|id: int| other.spaces().dom().contains(id) <==> self.spaces().dom().contains(
                id,
            ) by {
                if 0 <= id < self.processes@.len() {
                    assert((other.processes@[id]) is Some <==> self.processes@[id] is Some);
                }
            }
            assert forall|id: int| self.spaces().dom().contains(id) implies other.spaces()[id]
                == self.spaces()[id] by {
                if id != -1 {
                    assert(Self::same_core(other.processes@[id]->0, self.processes@[id]->0));
                }
            }
        }
        assert forall|pid: int| other.has_process(pid) <==> self.has_process(pid) by {
            if 0 <= pid < self.processes@.len() {
                assert((other.processes@[pid]) is Some <==> self.processes@[pid] is Some);
            }
        }
        assert forall|pid: int| self.has_process(pid) implies Self::same_core(
            other.pcb(pid),
            self.pcb(pid),
        ) by {
            assert((other.processes@[pid]) is Some <==> self.processes@[pid] is Some);
        }
        assert forall|pid: int| #[trigger] other.has_process(pid) implies {
            &&& other.pcb(pid).pid.0 == pid
            &&& other.pcb(pid).inner.task.process == pid
            &&& other.pid_allocator.is_allocated(pid)
            &&& other.pcb(pid).inner.is_zombie <==> other.status(pid) == TaskStatus::Zombie
        } by {
            assert(self.has_process(pid));
        }
        assert forall|pid: int| #[trigger] other.is_live(pid) implies {
            &&& Self::trap_mapped(other.space(pid), other.mem@, other.trap_frame(pid))
            &&& Self::all_framed(other.space(pid))
            &&& other.space(pid).trampoline == Some(other.trampoline)
            &&& other.pcb(pid).inner.task.kstack.0 < KSTACK_LIMIT
        } by {
            assert(self.has_process(pid));
            assert(self.is_live(pid));
        }
        assert forall|i: int| 0 <= i < other.ready_queue@.len() implies other.is_live(
            #[trigger] other.ready_queue@[i] as int,
        ) && other.status(other.ready_queue@[i] as int) == TaskStatus::Ready by {
            let q = self.ready_queue@[i] as int;
            assert(self.is_live(q));
            assert(self.has_process(q));
        }
        if other.current is Some {
            let c = self.current->0 as int;
            assert(self.has_process(c));
        }
    }
}

} // verus!

verus! {

impl Kernel {
    /// Whether the kernel `other` has the memory, the allocators and the
    /// address spaces of this one, and the same processes with the same
    /// identifiers, kernel stacks and trap-context frames: it may differ in
    /// the statuses of the tasks, the ready queue and the current task.
    pub open spec fn same_memory(&self, other: &Kernel) -> bool {
        &&& other.mem@ == self.mem@
        &&& other.frame_allocator == self.frame_allocator
        &&& other.kernel_space == self.kernel_space
        &&& other.trampoline == self.trampoline
        &&& other.pid_allocator == self.pid_allocator
        &&& other.kstack_allocator == self.kstack_allocator
        &&& other.processes@.len() == self.processes@.len()
        &&& forall|pid: int|
            0 <= pid < self.processes@.len() ==> ((#[trigger] other.processes@[pid]) is Some
                <==> self.processes@[pid] is Some) && (self.processes@[pid] is Some ==> {
                &&& other.processes@[pid]->0.pid == self.processes@[pid]->0.pid
                &&& other.processes@[pid]->0.inner.memory_set
                    == self.processes@[pid]->0.inner.memory_set
                &&& other.processes@[pid]->0.inner.task.process
                    == self.processes@[pid]->0.inner.task.process
                &&& other.processes@[pid]->0.inner.task.kstack
                    == self.processes@[pid]->0.inner.task.kstack
                &&& other.processes@[pid]->0.inner.task.inner.trap_cx_ppn
                    == self.processes@[pid]->0.inner.task.inner.trap_cx_ppn
            })
    }

    /// A change of statuses, queue and current task keeps the invariant if
    /// the scheduler is sound afterwards, zombies are exactly the tasks with
    /// that status, and no zombie came back to life.
    pub proof fn lemma_same_memory(&self, other: &Kernel)
        requires
            self.wf(),
            self.same_memory(other),
            other.sched_inv(),
            forall|pid: int| #[trigger]
                other.has_process(pid) ==> (other.pcb(pid).inner.is_zombie <==> other.status(pid)
                    == TaskStatus::Zombie),
            forall|pid: int| #[trigger] other.is_live(pid) ==> self.is_live(pid),
        ensures
            other.wf(),
    {
        reveal(Kernel::wf);
        assert forall|pid: int| other.has_process(pid) <==> self.has_process(pid) by {
            if 0 <= pid < self.processes@.len() {
                assert((other.processes@[pid]) is Some <==> self.processes@[pid] is Some);
            }
        }
        assert(other.spaces() =~= self.spaces()) by {
            assert forall|id: int| self.spaces().dom().contains(id) implies other.spaces()[id]
                == self.spaces()[id] by {
                if id != -1 {
                    assert((other.processes@[id]) is Some <==> self.processes@[id] is Some);
                }
            }
        }
        assert forall|pid: int| #[trigger] other.has_process(pid) implies {
            &&& other.pcb(pid).pid.0 == pid
            &&& other.pcb(pid).inner.task.process == pid
            &&& other.pid_allocator.is_allocated(pid)
            &&& other.pcb(pid).inner.is_zombie <==> other.status(pid) == TaskStatus::Zombie
        } by {
            assert(self.has_process(pid));
            assert((other.processes@[pid]) is Some <==> self.processes@[pid] is Some);
        }
        assert forall|pid: int| #[trigger] other.is_live(pid) implies {
            &&& Self::trap_mapped(other.space(pid), other.mem@, other.trap_frame(pid))
            &&& Self::all_framed(other.space(pid))
            &&& other.space(pid).trampoline == Some(other.trampoline)
            &&& other.pcb(pid).inner.task.kstack.0 < KSTACK_LIMIT
        } by {
            assert(self.is_live(pid));
            assert((other.processes@[pid]) is Some <==> self.processes@[pid] is Some);
        }
    }

    /// A change of the status of the task of process `pid`, which does not
    /// wait in the ready queue, and of the current task keeps the
    /// invariant, if the process is a zombie exactly when its task has that
    /// status, has not come back to life, and the current task lives and
    /// runs.
    pub proof fn lemma_status_step(&self, other: &Kernel, pid: int)
        requires
            self.wf(),
            self.has_process(pid),
            !self.queued(pid),
            self.same_memory(other),
            other.ready_queue@ == self.ready_queue@,
            forall|q: int|
                0 <= q < self.processes@.len() && q != pid ==> (#[trigger] other.processes@[q])
                    == self.processes@[q],
            other.pcb(pid).inner.is_zombie <==> other.status(pid) == TaskStatus::Zombie,
            other.is_live(pid) ==> self.is_live(pid),
            other.current matches Some(c) ==> other.is_live(c as int) && other.status(c as int)
                == TaskStatus::Running,
        ensures
            other.wf(),
    {
        self.lemma_wf_kernel();
        assert forall|i: int| 0 <= i < other.ready_queue@.len() implies other.is_live(
            #[trigger] other.ready_queue@[i] as int,
        ) && other.status(other.ready_queue@[i] as int) == TaskStatus::Ready by {
            let q = self.ready_queue@[i];
            assert(self.is_live(q as int));
            assert(self.queued(q as int));
        }
        assert forall|p: int| #[trigger] other.has_process(p) implies (other.pcb(
            p,
        ).inner.is_zombie <==> other.status(p) == TaskStatus::Zombie) by {
            if p != pid {
                self.lemma_wf_process(p);
            }
        }
        assert forall|p: int| #[trigger] other.is_live(p) implies self.is_live(p) by {}
        self.lemma_same_memory(other);
    }

    /// What the operations on a process need of the invariant.
    pub proof fn lemma_wf_process(&self, pid: int)
        requires
            self.wf(),
            self.has_process(pid),
        ensures
            self.frame_allocator.wf(),
            self.frame_allocator.end() <= self.mem@.len(),
            self.frame_allocator.end() <= PPN_LIMIT,
            self.pid_allocator.wf(),
            self.kstack_allocator.wf(),
            self.kernel_space.wf(self.mem@),
            self.kernel_space.frames_allocated(&self.frame_allocator),
            self.space(pid).wf(self.mem@),
            self.space(pid).frames_allocated(&self.frame_allocator),
            self.pcb(pid).pid.0 == pid,
            self.pid_allocator.is_allocated(pid),
            self.pcb(pid).inner.is_zombie <==> self.status(pid) == TaskStatus::Zombie,
            self.is_live(pid) ==> {
                &&& Self::trap_mapped(self.space(pid), self.mem@, self.trap_frame(pid))
                &&& self.space(pid).owns_data(self.trap_frame(pid))
                &&& 0 <= self.trap_frame(pid) < self.mem@.len()
                &&& Self::all_framed(self.space(pid))
                &&& self.space(pid).trampoline == Some(self.trampoline)
                &&& self.pcb(pid).inner.task.kstack.0 < KSTACK_LIMIT
            },
    {
        reveal(Kernel::wf);
        assert(self.spaces().dom().contains(pid));
        assert(self.spaces()[pid] == self.space(pid));
        assert(self.spaces().dom().contains(-1));
        assert(self.spaces()[-1] == self.kernel_space);
        if self.is_live(pid) {
            self.space(pid).lemma_wf_facts(self.mem@);
            crate::mm::user::lemma_page_frame(
                self.space(pid),
                self.mem@,
                crate::config::TRAP_CONTEXT_VPN as int,
            );
        }
    }

    /// What the operations need of the invariant when no process is at
    /// hand.
    pub proof fn lemma_wf_kernel(&self)
        requires
            self.wf(),
        ensures
            self.frame_allocator.wf(),
            self.frame_allocator.end() <= self.mem@.len(),
            self.frame_allocator.end() <= PPN_LIMIT,
            self.pid_allocator.wf(),
            self.kstack_allocator.wf(),
            self.processes@.len() <= isize::MAX,
            self.kernel_space.wf(self.mem@),
            self.kernel_space.frames_allocated(&self.frame_allocator),
            self.sched_inv(),
            self.current matches Some(c) ==> self.is_live(c as int) && self.status(c as int)
                == TaskStatus::Running,
    {
        reveal(Kernel::wf);
        assert(self.spaces().dom().contains(-1));
        assert(self.spaces()[-1] == self.kernel_space);
    }
}

} // verus!

verus! {

impl Kernel {
    /// Word `i` of the frame that holds the trap context of process `pid`:
    /// general register `i` for `i` below 32, then the status register, the
    /// program counter, the kernel token, the kernel stack pointer and the
    /// address of the trap handler.
    pub open spec fn trap_word(&self, pid: int, i: int) -> u64 {
        self.mem@[self.trap_frame(pid)][i]
    }

    /// A write into the frame of a page of a living process keeps the
    /// invariant.
    pub proof fn lemma_data_write(&self, other: &Kernel, pid: int, f: int)
        requires
            self.wf(),
            self.has_process(pid),
            self.space(pid).owns_data(f),
            *other == (Kernel { mem: other.mem, ..*self }),
            other.mem@.len() == self.mem@.len(),
            forall|p: int|
                0 <= p < self.mem@.len() && p != f ==> (#[trigger] other.mem@[p]) == self.mem@[p],
        ensures
            other.wf(),
    {
        reveal(Kernel::wf);
        let s = self.space(pid);
        assert(self.spaces().dom().contains(pid));
        assert(self.spaces()[pid] == s);
        crate::mm::spaces::lemma_write_step(s, self.mem@, other.mem@, self.frame_allocator, f);
        assert(other.spaces() =~= self.spaces());
        lemma_spaces_step(
            self.spaces(),
            other.spaces(),
            self.mem@,
            other.mem@,
            self.frame_allocator,
            other.frame_allocator,
            pid,
            frames_of(s),
            frames_of(s),
        );
        assert forall|p: int| #[trigger] other.has_process(p) implies self.has_process(p) by {}
        self.lemma_lookups_kept(other, pid, frames_of(s), frames_of(s));
    }

    /// After a step that concerns the address space of process `id` alone,
    /// and that has left the mappings of that address space as they were,
    /// every living process still has its trap-context page where it was.
    pub proof fn lemma_lookups_kept(&self, other: &Kernel, id: int, own0: Set<int>, own1: Set<int>)
        requires
            self.mm_inv(),
            self.live_inv(),
            self.has_process(id),
            other.processes@ == self.processes@,
            other.trampoline == self.trampoline,
            owner_step(
                self.mem@,
                other.mem@,
                self.frame_allocator,
                other.frame_allocator,
                own0,
                own1,
            ),
            own0 == frames_of(self.space(id)),
            forall|v: int| #[trigger]
                crate::mm::page_table::lookup(other.mem@, self.space(id).page_table.root(), v)
                    == crate::mm::page_table::lookup(
                    self.mem@,
                    self.space(id).page_table.root(),
                    v,
                ),
        ensures
            other.live_inv(),
    {
        assert forall|pid: int| #[trigger] other.is_live(pid) implies {
            &&& Self::trap_mapped(other.space(pid), other.mem@, other.trap_frame(pid))
            &&& Self::all_framed(other.space(pid))
            &&& other.space(pid).trampoline == Some(other.trampoline)
            &&& other.pcb(pid).inner.task.kstack.0 < KSTACK_LIMIT
        } by {
            assert(self.is_live(pid));
            if pid != id {
                let sp = self.space(pid);
                assert(self.spaces().dom().contains(pid));
                assert(self.spaces()[pid] == sp);
                assert(self.spaces().dom().contains(id));
                assert(self.spaces()[id] == self.space(id));
                assert forall|p: int| sp.owns(p) implies !own0.contains(p) by {
                    assert(!self.spaces()[id].owns(p));
                }
                crate::mm::spaces::lemma_bystander(
                    sp,
                    self.mem@,
                    other.mem@,
                    self.frame_allocator,
                    other.frame_allocator,
                    own0,
                    own1,
                );
            }
        }
    }

    /// The trap context of the living process `pid`, read from its frame.
    pub fn get_trap_cx(&self, pid: usize) -> (r: crate::trap::context::TrapContext)
        requires
            self.wf(),
            self.is_live(pid as int),
        ensures
            r.held_by(self.mem@[self.trap_frame(pid as int)]),
            forall|i: int| 0 <= i < 37 ==> r.word(i) == self.trap_word(pid as int, i),
    {
        proof {
            self.lemma_wf_process(pid as int);
        }
        match &self.processes[pid] {
            Some(p) => crate::trap::context::TrapContext::load(
                &self.mem,
                p.inner.task.inner.trap_cx_ppn,
            ),
            None => crate::trap::context::TrapContext::load(&self.mem, PhysPageNum(0)),
        }
    }

    /// Stores `cx` as the trap context of the living process `pid`.  No
    /// other frame of the memory changes, and nothing else of the kernel.
    pub fn set_trap_cx(&mut self, pid: usize, cx: &crate::trap::context::TrapContext)
        requires
            old(self).wf(),
            old(self).is_live(pid as int),
        ensures
            final(self).wf(),
            *final(self) == (Kernel { mem: final(self).mem, ..*old(self) }),
            final(self).mem@ == old(self).mem@.update(
                old(self).trap_frame(pid as int),
                cx.stored_in(old(self).mem@[old(self).trap_frame(pid as int)]),
            ),
            forall|i: int| 0 <= i < 37 ==> final(self).trap_word(pid as int, i) == cx.word(i),
    {
        proof {
            self.lemma_wf_process(pid as int);
        }
        let ppn: PhysPageNum = match &self.processes[pid] {
            Some(p) => p.inner.task.inner.trap_cx_ppn,
            None => PhysPageNum(0),
        };
        cx.store(&mut self.mem, ppn);
        proof {
            old(self).lemma_data_write(self, pid as int, ppn.0 as int);
        }
    }

    /// Writes `data` at the user address `va` of the living process `pid`.
    /// Refused, with nothing changed, when one of the bytes cannot be
    /// written in user mode.
    pub fn write_user(&mut self, pid: usize, va: u64, data: &[u8]) -> (r: bool)
        requires
            old(self).wf(),
            old(self).is_live(pid as int),
        ensures
            final(self).wf(),
            *final(self) == (Kernel { mem: final(self).mem, ..*old(self) }),
            r == crate::mm::user::user_range_ok(
                old(self).mem@,
                old(self).space(pid as int).page_table.root(),
                va as int,
                data@.len() as int,
                crate::mm::page_table::PTE_W,
            ),
            !r ==> final(self).mem@ == old(self).mem@,
            r ==> crate::mm::user::user_written(
                old(self).mem@,
                final(self).mem@,
                old(self).space(pid as int).page_table.root(),
                va as int,
                data@,
            ),
            forall|p: int|
                0 <= p < old(self).mem@.len() && !old(self).space(pid as int).owns_data(p) ==> (
                #[trigger] final(self).mem@[p]) == old(self).mem@[p],
            forall|v: int| #[trigger]
                crate::mm::page_table::lookup(
                    final(self).mem@,
                    old(self).space(pid as int).page_table.root(),
                    v,
                ) == crate::mm::page_table::lookup(
                    old(self).mem@,
                    old(self).space(pid as int).page_table.root(),
                    v,
                ),
            final(self).mem@.len() == old(self).mem@.len(),
    {
        proof {
            self.lemma_wf_process(pid as int);
        }
        let r = match &self.processes[pid] {
            Some(p) => crate::mm::user::write_user_bytes(
                &p.inner.memory_set,
                &mut self.mem,
                va,
                data,
            ),
            None => false,
        };
        proof {
            old(self).lemma_user_write(self, pid as int);
        }
        r
    }

    /// A write into frames of pages of a process keeps the invariant.
    pub proof fn lemma_user_write(&self, other: &Kernel, pid: int)
        requires
            self.wf(),
            self.has_process(pid),
            *other == (Kernel { mem: other.mem, ..*self }),
            other.mem@.len() == self.mem@.len(),
            self.space(pid).wf(other.mem@),
            forall|p: int|
                0 <= p < self.mem@.len() && !self.space(pid).owns_data(p) ==> (
                #[trigger] other.mem@[p]) == self.mem@[p],
            forall|v: int| #[trigger]
                crate::mm::page_table::lookup(other.mem@, self.space(pid).page_table.root(), v)
                    == crate::mm::page_table::lookup(
                    self.mem@,
                    self.space(pid).page_table.root(),
                    v,
                ),
        ensures
            other.wf(),
    {
        reveal(Kernel::wf);
        let s = self.space(pid);
        assert(self.spaces().dom().contains(pid));
        assert(self.spaces()[pid] == s);
        assert(other.spaces() =~= self.spaces());
        lemma_spaces_step(
            self.spaces(),
            other.spaces(),
            self.mem@,
            other.mem@,
            self.frame_allocator,
            other.frame_allocator,
            pid,
            frames_of(s),
            frames_of(s),
        );
        assert forall|p: int| #[trigger] other.has_process(p) implies self.has_process(p) by {}
        assert(owner_step(
            self.mem@,
            other.mem@,
            self.frame_allocator,
            other.frame_allocator,
            frames_of(s),
            frames_of(s),
        ));
        self.lemma_lookups_kept(other, pid, frames_of(s), frames_of(s));
    }
}

} // verus!

verus! {

impl Kernel {
    /// What the invariant asks of a living process `p` with the address
    /// space `s` in the memory `m`.
    pub open spec fn live_ok(&self, p: ProcessControlBlock, m: Seq<Seq<u64>>) -> bool {
        &&& Self::trap_mapped(p.inner.memory_set, m, p.inner.task.inner.trap_cx_ppn.0 as int)
        &&& Self::all_framed(p.inner.memory_set)
        &&& p.inner.memory_set.trampoline == Some(self.trampoline)
        &&& p.inner.task.kstack.0 < KSTACK_LIMIT
    }

    /// Whether the control block `b` is `a` but for the address space, the
    /// frame of the trap context and what the invariant does not depend on.
    pub open spec fn same_identity(a: ProcessControlBlock, b: ProcessControlBlock) -> bool {
        &&& a.pid == b.pid
        &&& a.inner.is_zombie == b.inner.is_zombie
        &&& a.inner.task.process == b.inner.task.process
        &&& a.inner.task.inner.task_status == b.inner.task.inner.task_status
    }

    /// A step of the memory that concerns the kernel address space alone
    /// keeps the invariant.
    pub proof fn lemma_kernel_space_step(&self, other: &Kernel)
        requires
            self.wf(),
            other.processes@ == self.processes@,
            other.trampoline == self.trampoline,
            other.pid_allocator == self.pid_allocator,
            other.kstack_allocator.wf(),
            other.ready_queue@ == self.ready_queue@,
            other.current == self.current,
            other.frame_allocator.wf(),
            other.frame_allocator.end() == self.frame_allocator.end(),
            other.kernel_space.wf(other.mem@),
            other.kernel_space.frames_allocated(&other.frame_allocator),
            owner_step(
                self.mem@,
                other.mem@,
                self.frame_allocator,
                other.frame_allocator,
                frames_of(self.kernel_space),
                frames_of(other.kernel_space),
            ),
        ensures
            other.wf(),
    {
        reveal(Kernel::wf);
        assert(self.spaces().dom().contains(-1));
        assert(self.spaces()[-1] == self.kernel_space);
        assert(other.spaces().dom().contains(-1));
        assert(other.spaces()[-1] == other.kernel_space);
        lemma_spaces_step(
            self.spaces(),
            other.spaces(),
            self.mem@,
            other.mem@,
            self.frame_allocator,
            other.frame_allocator,
            -1,
            frames_of(self.kernel_space),
            frames_of(other.kernel_space),
        );
        assert forall|pid: int| #[trigger] other.is_live(pid) implies other.live_ok(
            other.pcb(pid),
            other.mem@,
        ) by {
            assert(self.is_live(pid));
            let sp = self.space(pid);
            assert(self.spaces().dom().contains(pid));
            assert(self.spaces()[pid] == sp);
            assert forall|p: int| sp.owns(p) implies !frames_of(self.kernel_space).contains(p) by {
                assert(!self.spaces()[-1].owns(p));
            }
            crate::mm::spaces::lemma_bystander(
                sp,
                self.mem@,
                other.mem@,
                self.frame_allocator,
                other.frame_allocator,
                frames_of(self.kernel_space),
                frames_of(other.kernel_space),
            );
        }
        assert forall|p: int| #[trigger] other.has_process(p) implies self.has_process(p) by {}
    }

    /// A step of the memory that concerns the address space of process
    /// `pid` alone keeps the invariant, if the process is afterwards what
    /// the invariant asks of it.
    pub proof fn lemma_process_space_step(&self, other: &Kernel, pid: int)
        requires
            self.wf(),
            self.has_process(pid),
            other.kernel_space == self.kernel_space,
            other.trampoline == self.trampoline,
            other.pid_allocator == self.pid_allocator,
            other.kstack_allocator.wf(),
            other.ready_queue@ == self.ready_queue@,
            other.current == self.current,
            other.frame_allocator.wf(),
            other.frame_allocator.end() == self.frame_allocator.end(),
            other.processes@.len() == self.processes@.len(),
            forall|q: int|
                0 <= q < self.processes@.len() && q != pid ==> (#[trigger] other.processes@[q])
                    == self.processes@[q],
            other.has_process(pid),
            Self::same_identity(other.pcb(pid), self.pcb(pid)),
            other.space(pid).wf(other.mem@),
            other.space(pid).frames_allocated(&other.frame_allocator),
            owner_step(
                self.mem@,
                other.mem@,
                self.frame_allocator,
                other.frame_allocator,
                frames_of(self.space(pid)),
                frames_of(other.space(pid)),
            ),
            other.is_live(pid) ==> other.live_ok(other.pcb(pid), other.mem@),
        ensures
            other.wf(),
    {
        reveal(Kernel::wf);
        assert(self.spaces().dom().contains(pid));
        assert(self.spaces()[pid] == self.space(pid));
        assert(other.spaces().dom().contains(pid));
        assert(other.spaces()[pid] == other.space(pid));
        assert forall|j: int|
            j != pid implies (other.spaces().dom().contains(j) <==> self.spaces().dom().contains(
            j,
        )) && (self.spaces().dom().contains(j) ==> #[trigger] other.spaces()[j]
            == self.spaces()[j]) by {
            if 0 <= j < self.processes@.len() {
                assert(other.processes@[j] == self.processes@[j]);
            }
        }
        lemma_spaces_step(
            self.spaces(),
            other.spaces(),
            self.mem@,
            other.mem@,
            self.frame_allocator,
            other.frame_allocator,
            pid,
            frames_of(self.space(pid)),
            frames_of(other.space(pid)),
        );
        assert forall|q: int| #[trigger] other.has_process(q) implies self.has_process(q) && (q
            != pid ==> other.pcb(q) == self.pcb(q)) by {
            if q != pid {
                assert(other.processes@[q] == self.processes@[q]);
            }
        }
        assert forall|q: int| #[trigger] other.is_live(q) implies other.live_ok(
            other.pcb(q),
            other.mem@,
        ) by {
            if q != pid {
                assert(self.is_live(q));
                let sp = self.space(q);
                assert(self.spaces().dom().contains(q));
                assert(self.spaces()[q] == sp);
                assert forall|p: int| sp.owns(p) implies !frames_of(self.space(pid)).contains(
                    p,
                ) by {
                    assert(!self.spaces()[pid].owns(p));
                }
                crate::mm::spaces::lemma_bystander(
                    sp,
                    self.mem@,
                    other.mem@,
                    self.frame_allocator,
                    other.frame_allocator,
                    frames_of(self.space(pid)),
                    frames_of(other.space(pid)),
                );
            }
        }
        assert forall|i: int| 0 <= i < other.ready_queue@.len() implies other.is_live(
            #[trigger] other.ready_queue@[i] as int,
        ) && other.status(other.ready_queue@[i] as int) == TaskStatus::Ready by {
            let q = self.ready_queue@[i] as int;
            assert(self.is_live(q));
            if q != pid {
                assert(other.processes@[q] == self.processes@[q]);
            }
        }
        if other.current is Some {
            let c = self.current->0 as int;
            assert(self.is_live(c));
            if c != pid {
                assert(other.processes@[c] == self.processes@[c]);
            }
        }
    }

    /// A new process in a free slot of the table, with an address space of
    /// frames that were free, keeps the invariant, if the process is what
    /// the invariant asks of it.
    pub proof fn lemma_process_added(&self, other: &Kernel, pid: int)
        requires
            self.wf(),
            !self.has_process(pid),
            0 <= pid < other.processes@.len(),
            other.processes@.len() >= self.processes@.len(),
            other.processes@.len() <= isize::MAX,
            forall|q: int|
                0 <= q < other.processes@.len() && q != pid ==> (#[trigger] other.processes@[q])
                    == (if q < self.processes@.len() {
                    self.processes@[q]
                } else {
                    None
                }),
            other.has_process(pid),
            other.pcb(pid).pid.0 == pid,
            other.pcb(pid).inner.task.process == pid,
            other.pcb(pid).inner.is_zombie <==> other.status(pid) == TaskStatus::Zombie,
            other.pid_allocator.wf(),
            other.pid_allocator.is_allocated(pid),
            forall|q: int| self.pid_allocator.is_allocated(q) ==> other.pid_allocator.is_allocated(q),
            other.kernel_space == self.kernel_space,
            other.trampoline == self.trampoline,
            other.kstack_allocator.wf(),
            other.ready_queue@ == self.ready_queue@,
            other.current == self.current,
            other.frame_allocator.wf(),
            other.frame_allocator.end() == self.frame_allocator.end(),
            other.space(pid).wf(other.mem@),
            other.space(pid).frames_allocated(&other.frame_allocator),
            owner_step(
                self.mem@,
                other.mem@,
                self.frame_allocator,
                other.frame_allocator,
                Set::<int>::empty(),
                frames_of(other.space(pid)),
            ),
            other.is_live(pid) ==> other.live_ok(other.pcb(pid), other.mem@),
        ensures
            other.wf(),
    {
        reveal(Kernel::wf);
        assert(!self.spaces().dom().contains(pid));
        assert(other.spaces().dom().contains(pid));
        assert(other.spaces()[pid] == other.space(pid));
        assert forall|j: int|
            j != pid implies (other.spaces().dom().contains(j) <==> self.spaces().dom().contains(
            j,
        )) && (self.spaces().dom().contains(j) ==> #[trigger] other.spaces()[j]
            == self.spaces()[j]) by {
            if 0 <= j < other.processes@.len() {
                assert(other.processes@[j] == (if j < self.processes@.len() {
                    self.processes@[j]
                } else {
                    None
                }));
            }
        }
        lemma_spaces_step(
            self.spaces(),
            other.spaces(),
            self.mem@,
            other.mem@,
            self.frame_allocator,
            other.frame_allocator,
            pid,
            Set::<int>::empty(),
            frames_of(other.space(pid)),
        );
        assert forall|q: int| #[trigger] other.has_process(q) && q != pid implies self.has_process(
            q,
        ) && other.pcb(q) == self.pcb(q) by {
            assert(other.processes@[q] == (if q < self.processes@.len() {
                self.processes@[q]
            } else {
                None
            }));
        }
        assert forall|q: int| #[trigger] other.has_process(q) implies {
            &&& other.pcb(q).pid.0 == q
            &&& other.pcb(q).inner.task.process == q
            &&& other.pid_allocator.is_allocated(q)
            &&& other.pcb(q).inner.is_zombie <==> other.status(q) == TaskStatus::Zombie
        } by {
            if q != pid {
                assert(self.has_process(q));
            }
        }
        assert forall|q: int| #[trigger] other.is_live(q) implies other.live_ok(
            other.pcb(q),
            other.mem@,
        ) by {
            if q != pid {
                assert(other.has_process(q));
                assert(self.is_live(q));
                let sp = self.space(q);
                assert(self.spaces().dom().contains(q));
                assert(self.spaces()[q] == sp);
                crate::mm::spaces::lemma_bystander(
                    sp,
                    self.mem@,
                    other.mem@,
                    self.frame_allocator,
                    other.frame_allocator,
                    Set::<int>::empty(),
                    frames_of(other.space(pid)),
                );
            }
        }
        assert forall|i: int| 0 <= i < other.ready_queue@.len() implies other.is_live(
            #[trigger] other.ready_queue@[i] as int,
        ) && other.status(other.ready_queue@[i] as int) == TaskStatus::Ready by {
            let q = self.ready_queue@[i] as int;
            assert(self.is_live(q));
            assert(other.processes@[q] == self.processes@[q]);
        }
        if other.current is Some {
            let c = self.current->0 as int;
            assert(self.is_live(c));
            assert(other.processes@[c] == self.processes@[c]);
        }
    }

    /// Taking a zombie out of the table and giving all its frames and its
    /// identifier back keeps the invariant.
    pub proof fn lemma_process_removed(&self, other: &Kernel, pid: int)
        requires
            self.wf(),
            self.has_process(pid),
            self.pcb(pid).inner.is_zombie,
            other.processes@ == self.processes@.update(pid, None),
            other.pid_allocator.wf(),
            forall|q: int|
                q != pid && self.pid_allocator.is_allocated(q) ==> other.pid_allocator.is_allocated(
                    q,
                ),
            other.kernel_space == self.kernel_space,
            other.trampoline == self.trampoline,
            other.kstack_allocator.wf(),
            other.ready_queue@ == self.ready_queue@,
            other.current == self.current,
            other.frame_allocator.wf(),
            other.frame_allocator.end() == self.frame_allocator.end(),
            owner_step(
                self.mem@,
                other.mem@,
                self.frame_allocator,
                other.frame_allocator,
                frames_of(self.space(pid)),
                Set::<int>::empty(),
            ),
        ensures
            other.wf(),
    {
        reveal(Kernel::wf);
        assert(self.spaces().dom().contains(pid));
        assert(self.spaces()[pid] == self.space(pid));
        assert(!other.spaces().dom().contains(pid));
        assert forall|j: int|
            j != pid implies (other.spaces().dom().contains(j) <==> self.spaces().dom().contains(
            j,
        )) && (self.spaces().dom().contains(j) ==> #[trigger] other.spaces()[j]
            == self.spaces()[j]) by {
            if 0 <= j < self.processes@.len() {
                assert(other.processes@[j] == self.processes@[j]);
            }
        }
        lemma_spaces_step(
            self.spaces(),
            other.spaces(),
            self.mem@,
            other.mem@,
            self.frame_allocator,
            other.frame_allocator,
            pid,
            frames_of(self.space(pid)),
            Set::<int>::empty(),
        );
        assert forall|q: int| #[trigger] other.has_process(q) implies self.has_process(q) && q
            != pid && other.pcb(q) == self.pcb(q) by {
            assert(other.processes@[q] == self.processes@[q]);
        }
        assert forall|q: int| #[trigger] other.is_live(q) implies other.live_ok(
            other.pcb(q),
            other.mem@,
        ) by {
            assert(other.has_process(q));
            assert(self.is_live(q));
            let sp = self.space(q);
            assert(self.spaces().dom().contains(q));
            assert(self.spaces()[q] == sp);
            assert forall|p: int| sp.owns(p) implies !frames_of(self.space(pid)).contains(p) by {
                assert(!self.spaces()[pid].owns(p));
            }
            crate::mm::spaces::lemma_bystander(
                sp,
                self.mem@,
                other.mem@,
                self.frame_allocator,
                other.frame_allocator,
                frames_of(self.space(pid)),
                Set::<int>::empty(),
            );
        }
        assert forall|i: int| 0 <= i < other.ready_queue@.len() implies other.is_live(
            #[trigger] other.ready_queue@[i] as int,
        ) && other.status(other.ready_queue@[i] as int) == TaskStatus::Ready by {
            let q = self.ready_queue@[i] as int;
            assert(self.is_live(q));
            assert(other.processes@[q] == self.processes@[q]);
        }
        if other.current is Some {
            let c = self.current->0 as int;
            assert(self.is_live(c));
            assert(other.processes@[c] == self.processes@[c]);
        }
    }
}

} // verus!

verus! {

impl Kernel {
    /// A step of the memory that concerns the kernel address space alone
    /// leaves the frames and the mappings of every process as they were.
    pub proof fn lemma_kernel_bystander(&self, other: &Kernel, pid: int)
        requires
            self.wf(),
            self.has_process(pid),
            owner_step(
                self.mem@,
                other.mem@,
                self.frame_allocator,
                other.frame_allocator,
                frames_of(self.kernel_space),
                frames_of(other.kernel_space),
            ),
        ensures
            forall|f: int| self.space(pid).owns(f) ==> other.mem@[f] == self.mem@[f],
            forall|v: int| #[trigger]
                crate::mm::page_table::lookup(other.mem@, self.space(pid).page_table.root(), v)
                    == crate::mm::page_table::lookup(
                    self.mem@,
                    self.space(pid).page_table.root(),
                    v,
                ),
    {
        reveal(Kernel::wf);
        let sp = self.space(pid);
        assert(self.spaces().dom().contains(pid));
        assert(self.spaces()[pid] == sp);
        assert(self.spaces().dom().contains(-1));
        assert(self.spaces()[-1] == self.kernel_space);
        assert forall|p: int| sp.owns(p) implies !frames_of(self.kernel_space).contains(p) by {
            assert(!self.spaces()[-1].owns(p));
        }
        crate::mm::spaces::lemma_bystander(
            sp,
            self.mem@,
            other.mem@,
            self.frame_allocator,
            other.frame_allocator,
            frames_of(self.kernel_space),
            frames_of(other.kernel_space),
        );
    }
}

} // verus!

verus! {

impl Kernel {
    /// A step of the memory that concerns the address space of process
    /// `pid` alone leaves the frames and the mappings of every other
    /// process as they were.
    pub proof fn lemma_process_bystander(&self, other: &Kernel, pid: int, q: int)
        requires
            self.wf(),
            self.has_process(pid),
            self.has_process(q),
            q != pid,
            owner_step(
                self.mem@,
                other.mem@,
                self.frame_allocator,
                other.frame_allocator,
                frames_of(self.space(pid)),
                frames_of(other.space(pid)),
            ),
        ensures
            forall|f: int| self.space(q).owns(f) ==> other.mem@[f] == self.mem@[f],
            forall|v: int| #[trigger]
                crate::mm::page_table::lookup(other.mem@, self.space(q).page_table.root(), v)
                    == crate::mm::page_table::lookup(
                    self.mem@,
                    self.space(q).page_table.root(),
                    v,
                ),
    {
        reveal(Kernel::wf);
        let sp = self.space(q);
        assert(self.spaces().dom().contains(q));
        assert(self.spaces()[q] == sp);
        assert(self.spaces().dom().contains(pid));
        assert(self.spaces()[pid] == self.space(pid));
        assert forall|p: int| sp.owns(p) implies !frames_of(self.space(pid)).contains(p) by {
            assert(!self.spaces()[pid].owns(p));
        }
        crate::mm::spaces::lemma_bystander(
            sp,
            self.mem@,
            other.mem@,
            self.frame_allocator,
            other.frame_allocator,
            frames_of(self.space(pid)),
            frames_of(other.space(pid)),
        );
    }
}

} // verus!

verus! {

impl Kernel {
    /// A step of the memory that takes the address space of process `pid`
    /// away leaves the frames and the mappings of every other process as
    /// they were.
    pub proof fn lemma_removed_bystander(&self, other: &Kernel, pid: int, q: int)
        requires
            self.wf(),
            self.has_process(pid),
            self.has_process(q),
            q != pid,
            owner_step(
                self.mem@,
                other.mem@,
                self.frame_allocator,
                other.frame_allocator,
                frames_of(self.space(pid)),
                Set::<int>::empty(),
            ),
        ensures
            forall|f: int| self.space(q).owns(f) ==> other.mem@[f] == self.mem@[f],
            forall|v: int| #[trigger]
                crate::mm::page_table::lookup(other.mem@, self.space(q).page_table.root(), v)
                    == crate::mm::page_table::lookup(
                    self.mem@,
                    self.space(q).page_table.root(),
                    v,
                ),
    {
        reveal(Kernel::wf);
        let sp = self.space(q);
        assert(self.spaces().dom().contains(q));
        assert(self.spaces()[q] == sp);
        assert(self.spaces().dom().contains(pid));
        assert(self.spaces()[pid] == self.space(pid));
        assert forall|p: int| sp.owns(p) implies !frames_of(self.space(pid)).contains(p) by {
            assert(!self.spaces()[pid].owns(p));
        }
        crate::mm::spaces::lemma_bystander(
            sp,
            self.mem@,
            other.mem@,
            self.frame_allocator,
            other.frame_allocator,
            frames_of(self.space(pid)),
            Set::<int>::empty(),
        );
    }
}

} // verus!

verus! {

impl Kernel {
    /// Giving the living process `pid` a new address space, made of frames
    /// that were free, and giving every frame of its old one back keeps the
    /// invariant; and the second step leaves the new address space and
    /// those of the other processes as the first step left them.
    pub proof fn lemma_space_replaced(
        &self,
        other: &Kernel,
        pid: int,
        m_mid: Seq<Seq<u64>>,
        fa_mid: StackFrameAllocator,
    )
        requires
            self.wf(),
            self.is_live(pid),
            *other == (Kernel {
                mem: other.mem,
                frame_allocator: other.frame_allocator,
                processes: other.processes,
                ..*self
            }),
            other.processes@.len() == self.processes@.len(),
            forall|q: int|
                0 <= q < self.processes@.len() && q != pid ==> (#[trigger] other.processes@[q])
                    == self.processes@[q],
            other.has_process(pid),
            Self::same_identity(other.pcb(pid), self.pcb(pid)),
            other.space(pid).wf(m_mid),
            other.space(pid).frames_allocated(&fa_mid),
            fa_mid.wf(),
            fa_mid.end() == self.frame_allocator.end(),
            owner_step(
                self.mem@,
                m_mid,
                self.frame_allocator,
                fa_mid,
                Set::<int>::empty(),
                frames_of(other.space(pid)),
            ),
            other.frame_allocator.wf(),
            other.frame_allocator.end() == self.frame_allocator.end(),
            owner_step(
                m_mid,
                other.mem@,
                fa_mid,
                other.frame_allocator,
                frames_of(self.space(pid)),
                Set::<int>::empty(),
            ),
            other.live_ok(other.pcb(pid), m_mid),
        ensures
            other.wf(),
            forall|f: int| other.space(pid).owns(f) ==> other.mem@[f] == m_mid[f],
            forall|v: int| #[trigger]
                crate::mm::page_table::lookup(other.mem@, other.space(pid).page_table.root(), v)
                    == crate::mm::page_table::lookup(
                    m_mid,
                    other.space(pid).page_table.root(),
                    v,
                ),
    {
        reveal(Kernel::wf);
        let new = other.space(pid);
        let old = self.space(pid);
        let s0 = self.spaces();
        assert(s0.dom().contains(pid));
        assert(s0[pid] == old);
        assert(!s0.dom().contains(-2));
        let sa = s0.insert(-2, new);
        lemma_spaces_step(
            s0,
            sa,
            self.mem@,
            m_mid,
            self.frame_allocator,
            fa_mid,
            -2,
            Set::<int>::empty(),
            frames_of(new),
        );
        let sb = sa.insert(pid, new).insert(-2, old);
        assert(spaces_inv(sb, m_mid, fa_mid)) by {
            assert forall|id: int| sb.dom().contains(id) implies (#[trigger] sb[id]).wf(m_mid)
                && sb[id].frames_allocated(&fa_mid) by {
                if id == -2 {
                    assert(sa.dom().contains(pid));
                    assert(sa[pid] == old);
                } else if id == pid {
                    assert(sa.dom().contains(-2));
                } else {
                    assert(sa.dom().contains(id));
                    assert(sb[id] == sa[id]);
                }
            }
            assert forall|a: int, b: int, p: int|
                sb.dom().contains(a) && sb.dom().contains(b) && a != b
                    && #[trigger] sb[a].owns(p) implies !#[trigger] sb[b].owns(p) by {
                let a2 = if a == pid {
                    -2
                } else if a == -2 {
                    pid
                } else {
                    a
                };
                let b2 = if b == pid {
                    -2
                } else if b == -2 {
                    pid
                } else {
                    b
                };
                assert(sa.dom().contains(a2) && sa.dom().contains(b2));
                assert(sb[a] == sa[a2]);
                assert(sb[b] == sa[b2]);
                assert(sa[a2].owns(p));
            }
        }
        let sc = sb.remove(-2);
        lemma_spaces_step(
            sb,
            sc,
            m_mid,
            other.mem@,
            fa_mid,
            other.frame_allocator,
            -2,
            frames_of(old),
            Set::<int>::empty(),
        );
        assert(other.spaces() =~= sc) by {
            assert forall|id: int| other.spaces().dom().contains(id) <==> sc.dom().contains(id) by {
                if 0 <= id < self.processes@.len() && id != pid {
                    assert(other.processes@[id] == self.processes@[id]);
                }
            }
            assert forall|id: int| sc.dom().contains(id) implies other.spaces()[id] == sc[id] by {
                if id != -1 && id != pid {
                    assert(other.processes@[id] == self.processes@[id]);
                }
            }
        }
        assert(sb.dom().contains(pid) && sb[pid] == new);
        assert forall|p: int| new.owns(p) implies !frames_of(old).contains(p) by {
            assert(sb.dom().contains(-2) && sb[-2] == old);
            assert(sb[pid].owns(p));
            assert(!sb[-2].owns(p));
        }
        crate::mm::spaces::lemma_bystander(
            new,
            m_mid,
            other.mem@,
            fa_mid,
            other.frame_allocator,
            frames_of(old),
            Set::<int>::empty(),
        );
        assert forall|q: int| #[trigger] other.has_process(q) implies self.has_process(q) && (q
            != pid ==> other.pcb(q) == self.pcb(q)) by {
            if q != pid {
                assert(other.processes@[q] == self.processes@[q]);
            }
        }
        assert forall|q: int| #[trigger] other.is_live(q) implies other.live_ok(
            other.pcb(q),
            other.mem@,
        ) by {
            if q != pid {
                assert(self.is_live(q));
                let sp = self.space(q);
                assert(s0.dom().contains(q) && s0[q] == sp);
                crate::mm::spaces::lemma_bystander(
                    sp,
                    self.mem@,
                    m_mid,
                    self.frame_allocator,
                    fa_mid,
                    Set::<int>::empty(),
                    frames_of(new),
                );
                assert forall|p: int| sp.owns(p) implies !frames_of(old).contains(p) by {
                    assert(!s0[pid].owns(p));
                }
                crate::mm::spaces::lemma_bystander(
                    sp,
                    m_mid,
                    other.mem@,
                    fa_mid,
                    other.frame_allocator,
                    frames_of(old),
                    Set::<int>::empty(),
                );
            }
        }
        assert forall|i: int| 0 <= i < other.ready_queue@.len() implies other.is_live(
            #[trigger] other.ready_queue@[i] as int,
        ) && other.status(other.ready_queue@[i] as int) == TaskStatus::Ready by {
            let q = self.ready_queue@[i] as int;
            assert(self.is_live(q));
            if q != pid {
                assert(other.processes@[q] == self.processes@[q]);
            }
        }
        if other.current is Some {
            let c = self.current->0 as int;
            assert(self.is_live(c));
            if c != pid {
                assert(other.processes@[c] == self.processes@[c]);
            }
        }
    }
}

} // verus!

verus! {

impl Kernel {
    /// Sets the time since the start of the system, in milliseconds.
    /// Nothing else changes.
    pub fn set_time(&mut self, time_ms: u64)
        requires
            old(self).wf(),
        ensures
            final(self).wf(),
            *final(self) == (Kernel { time_ms, ..*old(self) }),
    {
        self.time_ms = time_ms;
        proof {
            old(self).lemma_unchanged_table(self);
        }
    }

    /// Hands out the bytes that the processes have written since they were
    /// last handed out, in the order in which they were written, and
    /// forgets them.  Nothing else changes.
    pub fn take_output(&mut self) -> (r: Vec<FileWrite>)
        requires
            old(self).wf(),
        ensures
            final(self).wf(),
            r == old(self).output,
            final(self).output@.len() == 0,
            *final(self) == (Kernel { output: final(self).output, ..*old(self) }),
    {
        let mut out: Vec<FileWrite> = Vec::new();
        core::mem::swap(&mut self.output, &mut out);
        proof {
            old(self).lemma_unchanged_table(self);
        }
        out
    }

    /// A kernel with the processes, the memory and the scheduler of a sound
    /// kernel is sound.
    pub proof fn lemma_unchanged_table(&self, other: &Kernel)
        requires
            self.wf(),
            other.processes == self.processes,
            other.mem == self.mem,
            other.frame_allocator == self.frame_allocator,
            other.kernel_space == self.kernel_space,
            other.trampoline == self.trampoline,
            other.pid_allocator == self.pid_allocator,
            other.kstack_allocator == self.kstack_allocator,
            other.ready_queue == self.ready_queue,
            other.current == self.current,
        ensures
            other.wf(),
    {
        reveal(Kernel::wf);
        assert(other.spaces() =~= self.spaces());
        assert forall|pid: int| #[trigger] other.has_process(pid) implies self.has_process(pid) by {}
        assert forall|pid: int| #[trigger] other.is_live(pid) implies self.is_live(pid) by {}
    }
}

} // verus!
