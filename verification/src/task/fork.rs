//! Duplicating a process.

use vstd::prelude::*;
use crate::config::{PPN_LIMIT, TRAMPOLINE_VPN, TRAP_CONTEXT_VPN};
use crate::mm::address::VirtPageNum;
use crate::mm::memory_set::{frames_needed, same_shape, MapType, MemorySet};
use crate::mm::page_table::lookup;
use crate::task::context::TaskContext;
use crate::task::id::{
    kstack_bottom_vpn, pid_alloc, KernelStack, PidHandle, RecycleAllocator, TaskUserRes,
    KSTACK_LIMIT,
};
use crate::task::kernel::Kernel;
use crate::task::manager::add_task;
use crate::task::process::{FileDescriptor, ProcessControlBlock, ProcessControlBlockInner};
use crate::task::signal::{SignalActions, SignalFlags};
use crate::task::task::{TaskControlBlock, TaskControlBlockInner, TaskStatus};
use crate::trap::context::TrapContext;

verus! {

/// A copy of the table of open files `table`.
pub fn copy_fd_table(table: &Vec<Option<FileDescriptor>>) -> (r: Vec<Option<FileDescriptor>>)
    ensures
        r@ == table@,
{
    let mut out: Vec<Option<FileDescriptor>> = Vec::new();
    let mut i: usize = 0;
    while i < table.len()
        invariant
            i <= table@.len(),
            out@ == table@.subrange(0, i as int),
        decreases table@.len() - i,
    {
        out.push(table[i]);
        proof {
            assert(out@ =~= table@.subrange(0, i as int + 1));
        }
        i = i + 1;
    }
    proof {
        assert(out@ =~= table@);
    }
    out
}

impl Kernel {
    /// Whether the living process `pid` cannot be duplicated: no kernel
    /// stack or no identifier can be had, or the allocator does not hold
    /// the frames that the copy of the address space and the kernel stack
    /// may need.
    pub open spec fn fork_refused(&self, pid: int) -> bool {
        let kb = kstack_bottom_vpn(self.kstack_allocator.next());
        ||| self.kstack_allocator.next() >= KSTACK_LIMIT
        ||| self.kernel_space.overlaps(kb, kb + 2)
        ||| self.pid_allocator.next() >= isize::MAX
        ||| self.frame_allocator.free() < self.space(pid).clone_need() + frames_needed(
            kb,
            kb + 2,
            MapType::Framed,
        )
    }

    /// What the kernel `k1` is after the process `parent` has been
    /// duplicated in the kernel `k0` into the new process `child`.
    ///
    /// The child lives and is ready at the back of the ready queue.  It is
    /// a child of `parent`, the last in the list.  It has the open files,
    /// the blocked signals and the installed actions of its parent, no
    /// pending signal, and a kernel stack of its own.  Its address space
    /// has the areas of the parent's; every page has a frame of its own
    /// that was free before and that holds what the parent's frame holds,
    /// except that in the trap context the return-value register is zero
    /// and the kernel stack pointer is that of the child.  No frame of the
    /// parent has changed, and no other process.
    pub open spec fn forked(k0: Kernel, k1: Kernel, parent: int, child: int) -> bool {
        let c = k1.pcb(child).inner;
        let p0 = k0.pcb(parent).inner;
        let kid = k0.kstack_allocator.next();
        &&& child == k0.pid_allocator.next()
        &&& child != parent
        &&& !k0.has_process(child)
        &&& k1.is_live(child)
        &&& k1.has_process(parent)
        &&& forall|q: int|
            0 <= q < k0.processes@.len() && q != child && q != parent ==> q
                < k1.processes@.len() && (#[trigger] k1.processes@[q]) == k0.processes@[q]
        &&& forall|q: int| k1.has_process(q) && q != child ==> k0.has_process(q)
        &&& k1.pcb(parent) == (ProcessControlBlock {
            inner: ProcessControlBlockInner {
                children: k1.pcb(parent).inner.children,
                ..k0.pcb(parent).inner
            },
            ..k0.pcb(parent)
        })
        &&& k1.pcb(parent).inner.children@ == p0.children@.push(child as usize)
        &&& k1.ready_queue@ == k0.ready_queue@.push(child as usize)
        &&& k1.current == k0.current
        &&& k1.initproc == k0.initproc
        &&& k1.shutdown == k0.shutdown
        &&& k1.status(child) == TaskStatus::Ready
        &&& c.parent == Some(parent as usize)
        &&& c.children@.len() == 0
        &&& c.exit_code == 0
        &&& c.fd_table@ == p0.fd_table@
        &&& c.signals.bits == 0
        &&& c.signal_mask == p0.signal_mask
        &&& c.signal_actions == p0.signal_actions
        &&& c.handling_sig == -1
        &&& !c.killed
        &&& !c.frozen
        &&& c.trap_ctx_backup is None
        &&& c.task.kstack.0 == kid
        &&& c.task.process == child
        &&& c.task.inner.res == (match p0.task.inner.res {
            Some(r) => Some(
                TaskUserRes { tid: r.tid, ustack_base: r.ustack_base, process: child as usize },
            ),
            None => None,
        })
        &&& c.task.inner.exit_code is None
        &&& c.task.inner.task_cx.ra == k0.trap_return
        &&& c.task.inner.task_cx.sp == crate::config::TRAMPOLINE - kid * 12288
        &&& c.memory_set.areas@.len() == p0.memory_set.areas@.len()
        &&& forall|a: int|
            0 <= a < p0.memory_set.areas@.len() ==> same_shape(
                #[trigger] c.memory_set.areas@[a],
                p0.memory_set.areas@[a],
            )
        &&& forall|a: int, k: int|
            0 <= a < p0.memory_set.areas@.len() && 0 <= k
                < p0.memory_set.areas@[a].data_frames@.len() ==> {
                let cf = #[trigger] c.memory_set.data_frame(a, k);
                let pf = p0.memory_set.data_frame(a, k);
                &&& !k0.frame_allocator.is_allocated(cf)
                &&& cf != k1.trap_frame(child) ==> k1.mem@[cf] == k0.mem@[pf]
                &&& cf == k1.trap_frame(child) ==> pf == k0.trap_frame(parent)
            }
        &&& forall|i: int|
            0 <= i < 512 ==> (#[trigger] k1.trap_word(child, i)) == (if i == 10 {
                0u64
            } else if i == 35 {
                (crate::config::TRAMPOLINE - kid * 12288) as u64
            } else {
                k0.trap_word(parent, i)
            })
        &&& forall|f: int| k0.space(parent).owns(f) ==> k1.mem@[f] == k0.mem@[f]
    }
}

impl Kernel {
    /// The control block of the child `pid` of the process `parent`, with
    /// the address space `memory_set`, the kernel stack `kstack`, its trap
    /// context in the frame `trap_cx_ppn`, and the open files, blocked
    /// signals and actions of its parent.
    fn child_pcb(
        pid: PidHandle,
        parent: usize,
        memory_set: MemorySet,
        kstack: KernelStack,
        trap_cx_ppn: crate::mm::address::PhysPageNum,
        res: Option<TaskUserRes>,
        fd_table: Vec<Option<FileDescriptor>>,
        signal_mask: SignalFlags,
        signal_actions: SignalActions,
        trap_return: u64,
    ) -> (r: ProcessControlBlock)
        requires
            kstack.0 < KSTACK_LIMIT,
        ensures
            r.pid == pid,
            r.inner.memory_set == memory_set,
            r.inner.task.kstack == kstack,
            r.inner.task.process == pid.0,
            r.inner.task.inner.trap_cx_ppn == trap_cx_ppn,
            r.inner.task.inner.task_status == TaskStatus::Ready,
            r.inner.task.inner.exit_code is None,
            r.inner.task.inner.task_cx.ra == trap_return,
            r.inner.task.inner.task_cx.sp == crate::config::TRAMPOLINE - kstack.0 * 12288,
            r.inner.task.inner.res == res,
            !r.inner.is_zombie,
            r.inner.parent == Some(parent),
            r.inner.children@.len() == 0,
            r.inner.exit_code == 0,
            r.inner.fd_table == fd_table,
            r.inner.signals.bits == 0,
            r.inner.signal_mask == signal_mask,
            r.inner.signal_actions == signal_actions,
            r.inner.handling_sig == -1,
            !r.inner.killed,
            !r.inner.frozen,
            r.inner.trap_ctx_backup is None,
    {
        let mut tids = RecycleAllocator::new();
        let _tid: usize = tids.alloc_id();
        let process: usize = pid.0;
        ProcessControlBlock {
            pid,
            inner: ProcessControlBlockInner {
                is_zombie: false,
                memory_set,
                parent: Some(parent),
                children: Vec::new(),
                exit_code: 0,
                fd_table,
                signals: SignalFlags::empty(),
                signal_mask,
                handling_sig: -1,
                signal_actions,
                killed: false,
                frozen: false,
                trap_ctx_backup: None,
                task: TaskControlBlock::new(process, res, trap_cx_ppn, kstack, trap_return),
                task_res_allocator: tids,
            },
        }
    }

    /// A copy of an address space that maps the trap-context page maps it
    /// too, and holds framed areas only if the source does.
    proof fn lemma_copied_live(
        parent: MemorySet,
        child: MemorySet,
        m0: Seq<Seq<u64>>,
        m1: Seq<Seq<u64>>,
        fa0: crate::mm::frame_allocator::StackFrameAllocator,
        fa1: crate::mm::frame_allocator::StackFrameAllocator,
        pf: int,
    )
        requires
            parent.wf(m0),
            Self::all_framed(parent),
            Self::trap_mapped(parent, m0, pf),
            MemorySet::copied(parent, child, m0, m1, fa0, fa1),
        ensures
            lookup(m1, child.page_table.root(), TRAP_CONTEXT_VPN as int) is Some,
            Self::all_framed(child),
            exists|a: int|
                0 <= a < parent.areas@.len() && (#[trigger] parent.areas@[a]).has_page(
                    TRAP_CONTEXT_VPN as int,
                ) && parent.data_frame(a, TRAP_CONTEXT_VPN - parent.areas@[a].start.0) == pf
                    && crate::mm::page_table::pte_ppn(
                    lookup(m1, child.page_table.root(), TRAP_CONTEXT_VPN as int)->0.bits,
                ) == child.data_frame(a, TRAP_CONTEXT_VPN - parent.areas@[a].start.0),
    {
        crate::mm::user::lemma_page_frame(parent, m0, TRAP_CONTEXT_VPN as int);
        let a = choose|a: int|
            0 <= a < parent.areas@.len() && (#[trigger] parent.areas@[a]).has_page(
                TRAP_CONTEXT_VPN as int,
            ) && crate::mm::page_table::pte_ppn(
                lookup(m0, parent.page_table.root(), TRAP_CONTEXT_VPN as int)->0.bits,
            ) == parent.data_frame(a, TRAP_CONTEXT_VPN - parent.areas@[a].start.0);
        child.lemma_wf_facts(m1);
        assert(same_shape(child.areas@[a], parent.areas@[a]));
        assert(child.areas@[a].has_page(TRAP_CONTEXT_VPN as int));
        assert(child.areas@[a].mapped());
        let k = TRAP_CONTEXT_VPN - parent.areas@[a].start.0;
        let f = child.data_frame(a, k);
        assert(child.owns_data(f));
        crate::mm::page_table::lemma_pte_bits(f, child.areas@[a].map_perm.bits | 1u8);
        assert forall|b: int| 0 <= b < child.areas@.len() implies (#[trigger] child.areas@[b]).map_type
            == MapType::Framed by {
            assert(same_shape(child.areas@[b], parent.areas@[b]));
        }
    }

    /// Duplicates the living process `parent`: the copy gets a new
    /// identifier, a copy of the address space with frames of its own, a
    /// kernel stack of its own, and the open files, blocked signals and
    /// actions of its parent.  In its trap context the return-value
    /// register is zero.  It is ready and goes to the back of the ready
    /// queue.  Returns the identifier of the copy.
    ///
    /// Refused, with nothing changed, when [`Kernel::fork_refused`] says so.
    pub fn fork(&mut self, parent: usize) -> (r: Option<usize>)
        requires
            old(self).wf(),
            old(self).is_live(parent as int),
        ensures
            final(self).wf(),
            r is None <==> old(self).fork_refused(parent as int),
            r is None ==> *final(self) == *old(self),
            r matches Some(child) ==> Self::forked(
                *old(self),
                *final(self),
                parent as int,
                child as int,
            ),
    {
        proof {
            self.lemma_wf_kernel();
            self.lemma_wf_process(parent as int);
            self.frame_allocator.lemma_free_bound();
        }
        let kid: usize = self.kstack_allocator.peek();
        if kid >= KSTACK_LIMIT {
            return None;
        }
        let kb: u64 = TRAMPOLINE_VPN - 3 * (kid as u64) - 2;
        if !self.kernel_space.range_is_free(VirtPageNum(kb), VirtPageNum(kb + 2)) {
            return None;
        }
        if self.pid_allocator.peek() >= isize::MAX as usize {
            return None;
        }
        let kneed: u64 = MemorySet::frames_needed_of(
            VirtPageNum(kb),
            VirtPageNum(kb + 2),
            MapType::Framed,
        );
        let need: Option<u64> = match &self.processes[parent] {
            Some(p) => p.inner.memory_set.clone_need_of(&self.mem),
            None => None,
        };
        let total: Option<u64> = match need {
            Some(n) => n.checked_add(kneed),
            None => None,
        };
        let enough: bool = match total {
            Some(t) => self.frame_allocator.has_free(t),
            None => false,
        };
        if !enough {
            return None;
        }
        self.do_fork(parent)
    }

    /// Duplicates a process that can be duplicated.
    fn do_fork(&mut self, parent: usize) -> (r: Option<usize>)
        requires
            old(self).wf(),
            old(self).is_live(parent as int),
            !old(self).fork_refused(parent as int),
        ensures
            final(self).wf(),
            r matches Some(child) && Self::forked(
                *old(self),
                *final(self),
                parent as int,
                child as int,
            ),
    {
        let ghost k0 = *self;
        proof {
            k0.lemma_wf_process(parent as int);
            crate::mm::memory_set::lemma_areas_need_nonneg(k0.space(parent as int).areas@, 0);
        }
        let kstack = match self.take_kernel_stack() {
            Some(s) => s,
            None => {
                return None;
            },
        };
        let ghost ka = *self;
        proof {
            ka.lemma_wf_kernel();
            ka.lemma_wf_process(parent as int);
        }
        let copy = match &self.processes[parent] {
            Some(p) => MemorySet::from_existed_user(
                &p.inner.memory_set,
                &mut self.frame_allocator,
                &mut self.mem,
            ),
            None => Err(crate::mm::memory_set::AreaError::OutOfFrames),
        };
        let memory_set = match copy {
            Ok(ms) => ms,
            Err(_) => {
                return None;
            },
        };
        let ghost ms = memory_set;
        let ghost pspace = ka.space(parent as int);
        proof {
            Self::lemma_copied_live(
                pspace,
                ms,
                ka.mem@,
                self.mem@,
                ka.frame_allocator,
                self.frame_allocator,
                ka.trap_frame(parent as int),
            );
        }
        let trap_cx_ppn = match Self::trap_frame_of(&memory_set, &self.mem) {
            Some(f) => f,
            None => {
                return None;
            },
        };
        let pid_handle = pid_alloc(&mut self.pid_allocator);
        let child: usize = pid_handle.0;
        let kstack_top: u64 = kstack.get_top();
        let (fd_table, signal_mask, signal_actions, res) = match &self.processes[parent] {
            Some(p) => (
                copy_fd_table(&p.inner.fd_table),
                p.inner.signal_mask,
                p.inner.signal_actions,
                match p.inner.task.inner.res {
                    Some(r) => Some(
                        TaskUserRes { tid: r.tid, ustack_base: r.ustack_base, process: child },
                    ),
                    None => None,
                },
            ),
            None => (Vec::new(), SignalFlags::empty(), SignalActions::default(), None),
        };
        let pcb = Self::child_pcb(
            pid_handle,
            parent,
            memory_set,
            kstack,
            trap_cx_ppn,
            res,
            fd_table,
            signal_mask,
            signal_actions,
            self.trap_return,
        );
        proof {
            reveal(Kernel::wf);
            assert(!ka.has_process(child as int)) by {
                if ka.has_process(child as int) {
                    assert(ka.pid_allocator.is_allocated(child as int));
                }
            }
        }
        self.install(pcb);
        proof {
            crate::mm::spaces::lemma_copied_step(
                pspace,
                ms,
                ka.mem@,
                self.mem@,
                ka.frame_allocator,
                self.frame_allocator,
            );
            ka.lemma_process_added(self, child as int);
        }
        let ghost kb = *self;
        match &mut self.processes[parent] {
            Some(p) => {
                p.inner.children.push(child);
            },
            None => {},
        }
        proof {
            assert(kb.same_frame(self)) by {
                assert forall|q: int| 0 <= q < kb.processes@.len() implies ((
                #[trigger] self.processes@[q]) is Some <==> kb.processes@[q] is Some) && (
                kb.processes@[q] is Some ==> Kernel::same_core(
                    self.processes@[q]->0,
                    kb.processes@[q]->0,
                )) by {}
            }
            kb.lemma_same_frame(self);
        }
        let ghost kc = *self;
        let mut cx: TrapContext = self.get_trap_cx(parent);
        cx.kernel_sp = kstack_top;
        cx.x[crate::trap::context::REG_A0] = 0;
        self.set_trap_cx(child, &cx);
        let ghost kd = *self;
        proof {
            kd.lemma_wf_kernel();
            if kd.queued(child as int) {
                let i = choose|i: int|
                    0 <= i < kd.ready_queue@.len() && #[trigger] kd.ready_queue@[i] == child;
                assert(ka.is_live(ka.ready_queue@[i] as int));
            }
        }
        add_task(self, child);
        proof {
            Self::lemma_forked(k0, ka, kb, kc, kd, *self, parent as int, child as int, cx);
        }
        Some(child)
    }

    /// The steps of a fork amount to a fork.
    proof fn lemma_forked(
        k0: Kernel,
        ka: Kernel,
        kb: Kernel,
        kc: Kernel,
        kd: Kernel,
        k1: Kernel,
        parent: int,
        child: int,
        cx: TrapContext,
    )
        requires
            k0.wf(),
            k0.is_live(parent),
            Self::stack_taken(k0, ka, k0.kstack_allocator.next()),
            child == k0.pid_allocator.next(),
            !ka.has_process(child),
            kb.wf(),
            kb.has_process(child),
            kb.is_live(child),
            kb == (Kernel {
                mem: kb.mem,
                frame_allocator: kb.frame_allocator,
                pid_allocator: kb.pid_allocator,
                processes: kb.processes,
                ..ka
            }),
            kb.processes@.len() >= ka.processes@.len(),
            forall|q: int|
                0 <= q < kb.processes@.len() && q != child ==> (#[trigger] kb.processes@[q])
                    == (if q < ka.processes@.len() {
                    ka.processes@[q]
                } else {
                    None
                }),
            MemorySet::copied(
                ka.space(parent),
                kb.space(child),
                ka.mem@,
                kb.mem@,
                ka.frame_allocator,
                kb.frame_allocator,
            ),
            Self::trap_mapped(kb.space(child), kb.mem@, kb.trap_frame(child)),
            kc == (Kernel { processes: kc.processes, ..kb }),
            kc.processes@ == kb.processes@.update(
                parent,
                Some(
                    ProcessControlBlock {
                        inner: ProcessControlBlockInner {
                            children: kc.pcb(parent).inner.children,
                            ..kb.pcb(parent).inner
                        },
                        ..kb.pcb(parent)
                    },
                ),
            ),
            kc.pcb(parent).inner.children@ == kb.pcb(parent).inner.children@.push(child as usize),
            kd == (Kernel { mem: kd.mem, ..kc }),
            kd.mem@ == kc.mem@.update(
                kc.trap_frame(child),
                cx.stored_in(kc.mem@[kc.trap_frame(child)]),
            ),
            forall|i: int|
                0 <= i < 37 ==> cx.word(i) == (if i == 10 {
                    0u64
                } else if i == 35 {
                    (crate::config::TRAMPOLINE - k0.kstack_allocator.next() * 12288) as u64
                } else {
                    kc.trap_word(parent, i)
                }),
            k1 == (Kernel { ready_queue: k1.ready_queue, ..kd }),
            k1.ready_queue@ == kd.ready_queue@.push(child as usize),
            kb.pcb(child).inner.parent == Some(parent as usize),
            kb.pcb(child).inner.children@.len() == 0,
            kb.pcb(child).inner.exit_code == 0,
            kb.pcb(child).inner.fd_table@ == ka.pcb(parent).inner.fd_table@,
            kb.pcb(child).inner.signals.bits == 0,
            kb.pcb(child).inner.signal_mask == ka.pcb(parent).inner.signal_mask,
            kb.pcb(child).inner.signal_actions == ka.pcb(parent).inner.signal_actions,
            kb.pcb(child).inner.handling_sig == -1,
            !kb.pcb(child).inner.killed,
            !kb.pcb(child).inner.frozen,
            kb.pcb(child).inner.trap_ctx_backup is None,
            kb.pcb(child).inner.task.kstack.0 == k0.kstack_allocator.next(),
            kb.pcb(child).inner.task.process == child,
            kb.pcb(child).inner.task.inner.res == (match ka.pcb(parent).inner.task.inner.res {
                Some(r) => Some(
                    TaskUserRes { tid: r.tid, ustack_base: r.ustack_base, process: child as usize },
                ),
                None => None,
            }),
            kb.pcb(child).inner.task.inner.exit_code is None,
            kb.pcb(child).inner.task.inner.task_cx.ra == k0.trap_return,
            kb.pcb(child).inner.task.inner.task_cx.sp == crate::config::TRAMPOLINE
                - k0.kstack_allocator.next() * 12288,
            kb.pcb(child).inner.task.inner.task_status == TaskStatus::Ready,
        ensures
            Self::forked(k0, k1, parent, child),
    {
        let pspace = k0.space(parent);
        let cspace = kb.space(child);
        k0.lemma_wf_process(parent);
        ka.lemma_wf_process(parent);
        kb.lemma_wf_process(child);
        let tf = kb.trap_frame(child);
        assert(child != parent);
        assert(kb.processes@[parent] == ka.processes@[parent]);
        assert(k1.pcb(child) == kb.pcb(child));
        Self::lemma_copied_live(
            pspace,
            cspace,
            ka.mem@,
            kb.mem@,
            ka.frame_allocator,
            kb.frame_allocator,
            ka.trap_frame(parent),
        );
        let a0 = choose|a: int|
            0 <= a < pspace.areas@.len() && (#[trigger] pspace.areas@[a]).has_page(
                TRAP_CONTEXT_VPN as int,
            ) && pspace.data_frame(a, TRAP_CONTEXT_VPN - pspace.areas@[a].start.0)
                == ka.trap_frame(parent) && crate::mm::page_table::pte_ppn(
                lookup(kb.mem@, cspace.page_table.root(), TRAP_CONTEXT_VPN as int)->0.bits,
            ) == cspace.data_frame(a, TRAP_CONTEXT_VPN - pspace.areas@[a].start.0);
        let k0i = TRAP_CONTEXT_VPN - pspace.areas@[a0].start.0;
        pspace.lemma_wf_facts(ka.mem@);
        assert(pspace.areas@[a0].mapped());
        assert(cspace.data_frame(a0, k0i) == tf);
        assert forall|a: int, k: int|
            0 <= a < pspace.areas@.len() && 0 <= k < pspace.areas@[a].data_frames@.len() implies {
            let cf = #[trigger] cspace.data_frame(a, k);
            let pf = pspace.data_frame(a, k);
            &&& !k0.frame_allocator.is_allocated(cf)
            &&& cf != tf ==> k1.mem@[cf] == k0.mem@[pf]
            &&& cf == tf ==> pf == k0.trap_frame(parent)
        } by {
            let cf = cspace.data_frame(a, k);
            let pf = pspace.data_frame(a, k);
            assert(same_shape(cspace.areas@[a], pspace.areas@[a]));
            assert(cspace.owns_data(cf));
            assert(cspace.owns(cf));
            assert(pspace.owns_data(pf));
            assert(pspace.owns(pf));
            assert(!ka.frame_allocator.is_allocated(cf));
            assert(kb.mem@[cf] == ka.mem@[pf]);
            assert(ka.mem@[pf] == k0.mem@[pf]);
            if cf == tf {
                if a != a0 || k != k0i {
                    cspace.lemma_distinct(kb.mem@, a, k, a0, k0i);
                }
            }
        }
        assert forall|i: int| 0 <= i < 512 implies (#[trigger] k1.trap_word(child, i)) == (if i
            == 10 {
            0u64
        } else if i == 35 {
            (crate::config::TRAMPOLINE - k0.kstack_allocator.next() * 12288) as u64
        } else {
            k0.trap_word(parent, i)
        }) by {
            let pf = ka.trap_frame(parent);
            assert(pspace.owns(pf));
            assert(kb.mem@[tf] == ka.mem@[pf]);
            assert(ka.mem@[pf] == k0.mem@[pf]);
            assert(cspace.owns(tf));
            assert(!ka.frame_allocator.is_allocated(tf));
            assert(ka.frame_allocator.is_allocated(pf));
            assert(kb.mem@[pf] == ka.mem@[pf]);
        }
        assert forall|f: int| k0.space(parent).owns(f) implies k1.mem@[f] == k0.mem@[f] by {
            assert(ka.mem@[f] == k0.mem@[f]);
            assert(ka.frame_allocator.is_allocated(f));
            assert(cspace.owns(tf));
            assert(!ka.frame_allocator.is_allocated(tf));
            assert(!cspace.owns(f));
            kb.space(child).lemma_wf_facts(kb.mem@);
            pspace.page_table.lemma_wf_basics(ka.mem@);
        }
        assert forall|q: int|
            0 <= q < k0.processes@.len() && q != child && q != parent implies q
            < k1.processes@.len() && (#[trigger] k1.processes@[q]) == k0.processes@[q] by {
            assert(kb.processes@[q] == ka.processes@[q]);
        }
        assert forall|q: int| k1.has_process(q) && q != child implies k0.has_process(q) by {
            if q != parent {
                assert(kb.processes@[q] == (if q < ka.processes@.len() {
                    ka.processes@[q]
                } else {
                    None
                }));
            }
        }
    }
}

} // verus!
