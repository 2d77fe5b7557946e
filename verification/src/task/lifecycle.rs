//! The life of a process: how the kernel starts, and how processes are
//! created from a program.

use vstd::prelude::*;
use std::collections::VecDeque;
use crate::config::{PPN_LIMIT, TRAMPOLINE_VPN, TRAP_CONTEXT_VPN};
use crate::mm::address::{PhysPageNum, VirtPageNum};
use crate::mm::frame_allocator::StackFrameAllocator;
use crate::mm::loader::{
    elf_frames_needed, format_error, initial_sp, load_need, loaded, LoadError,
};
use crate::mm::memory::PhysMemory;
use crate::mm::memory_set::{frames_needed, MapType, MemorySet};
use crate::mm::page_table::{lookup, pte_ppn};
use crate::mm::spaces::{frames_of, owner_step};
use crate::task::context::TaskContext;
use crate::task::id::{
    kstack_alloc, kstack_bottom_vpn, pid_alloc, KernelStack, PidHandle, RecycleAllocator,
    TaskUserRes, KSTACK_LIMIT,
};
use crate::task::kernel::Kernel;
use crate::task::manager::add_task;
use crate::task::process::{FileDescriptor, ProcessControlBlock, ProcessControlBlockInner};
use crate::task::signal::{SignalActions, SignalFlags};
use crate::task::task::{TaskControlBlock, TaskControlBlockInner, TaskStatus};
use crate::trap::context::TrapContext;

verus! {

/// Why a process could not be created.
#[derive(Copy, Clone, Debug, PartialEq, Eq, Structural)]
pub enum SpawnError {
    /// The program is not an image that the loader accepts.
    Image(LoadError),
    /// No kernel stack can be had: the numbers are used up, or the place of
    /// the next stack in kernel space is taken.
    NoKernelStack,
    /// The identifiers of processes are used up.
    NoPid,
    /// The allocator does not hold the frames that the process may need.
    OutOfFrames,
}

impl Kernel {
    /// Whether no process exists.
    pub open spec fn no_processes(&self) -> bool {
        forall|pid: int| !self.has_process(pid)
    }

    /// Whether `k` is a kernel that has just been made for a machine with
    /// `memory_frames` frames of memory, of which the frames from
    /// `first_frame` to `end_frame` are for the allocator: it is sound and
    /// has no process; the kernel address space holds the trampoline page
    /// alone; the allocators of identifiers have handed out nothing; and of
    /// the frames for the allocator at most three are taken.
    pub open spec fn fresh(
        k: Kernel,
        memory_frames: usize,
        first_frame: PhysPageNum,
        end_frame: PhysPageNum,
        trampoline: PhysPageNum,
        sstatus: u64,
        trap_handler: u64,
        trap_return: u64,
    ) -> bool {
        &&& k.wf()
        &&& k.no_processes()
        &&& k.processes@.len() == 0
        &&& k.ready_queue@.len() == 0
        &&& k.current is None
        &&& k.initproc is None
        &&& k.shutdown is None
        &&& k.trampoline == trampoline
        &&& k.sstatus == sstatus
        &&& k.trap_handler == trap_handler
        &&& k.trap_return == trap_return
        &&& k.time_ms == 0
        &&& k.output@.len() == 0
        &&& k.mem@.len() == memory_frames
        &&& k.frame_allocator.start() == first_frame.0
        &&& k.frame_allocator.end() == Self::boot_end(memory_frames, end_frame)
        &&& k.frame_allocator.free() >= Self::boot_end(memory_frames, end_frame) - first_frame.0
            - 3
        &&& k.kernel_space.trampoline == Some(trampoline)
        &&& k.kernel_space.areas@.len() == 0
        &&& k.pid_allocator.next() == 0
        &&& k.kstack_allocator.next() == 0
    }

    /// Whether a kernel can be made for a machine with `memory_frames`
    /// frames of memory, of which the frames from `first_frame` to
    /// `end_frame` are for the allocator: the memory fits in the address
    /// space of the host, and three frames are free, for the root node of
    /// the kernel address space and the two nodes on the path of the
    /// trampoline page.
    pub open spec fn can_boot(
        memory_frames: usize,
        first_frame: PhysPageNum,
        end_frame: PhysPageNum,
    ) -> bool {
        memory_frames * 512 <= usize::MAX && Self::boot_end(memory_frames, end_frame)
            - first_frame.0 >= 3
    }

    /// A kernel on a machine with `memory_frames` frames of memory, of which
    /// the frames `[first_frame, end_frame)` are free for the allocator.
    /// The kernel address space holds the trampoline page, mapped to the
    /// frame `trampoline`.  `sstatus` is the value of the status register,
    /// `trap_handler` the address of the trap handler and `trap_return` that
    /// of the routine that returns to user mode.
    ///
    /// `None` when [`Kernel::can_boot`] does not hold.
    pub fn new(
        memory_frames: usize,
        first_frame: PhysPageNum,
        end_frame: PhysPageNum,
        trampoline: PhysPageNum,
        sstatus: u64,
        trap_handler: u64,
        trap_return: u64,
    ) -> (r: Option<Kernel>)
        ensures
            r is Some <==> Self::can_boot(memory_frames, first_frame, end_frame),
            r matches Some(k) ==> Self::fresh(
                k,
                memory_frames,
                first_frame,
                end_frame,
                trampoline,
                sstatus,
                trap_handler,
                trap_return,
            ),
    {
        let mut mem = match PhysMemory::new(memory_frames) {
            Some(m) => m,
            None => {
                return None;
            },
        };
        let mut end: u64 = end_frame.0;
        if end > memory_frames as u64 {
            end = memory_frames as u64;
        }
        if end > PPN_LIMIT {
            end = PPN_LIMIT;
        }
        let mut fa = StackFrameAllocator::new();
        fa.init(first_frame, PhysPageNum(end));
        if !fa.has_free(3) {
            return None;
        }
        let ghost fa0 = fa;
        let ghost m0 = mem@;
        let mut kernel_space = match MemorySet::new_bare(&mut fa, &mut mem) {
            Some(ms) => ms,
            None => {
                return None;
            },
        };
        let ghost ks0 = kernel_space;
        let ghost fa1 = fa;
        let ghost m1 = mem@;
        let res = kernel_space.map_trampoline(trampoline, &mut fa, &mut mem);
        proof {
            assert(crate::mm::page_table::missing_levels(
                m1,
                ks0.page_table.root(),
                TRAMPOLINE_VPN as int,
            ) <= 2);
        }
        if res.is_err() {
            return None;
        }
        let k = Kernel {
            mem,
            frame_allocator: fa,
            kernel_space,
            trampoline,
            pid_allocator: RecycleAllocator::new(),
            kstack_allocator: RecycleAllocator::new(),
            processes: Vec::new(),
            ready_queue: VecDeque::new(),
            current: None,
            initproc: None,
            sstatus,
            trap_handler,
            trap_return,
            time_ms: 0,
            shutdown: None,
            output: Vec::new(),
        };
        proof {
            reveal(Kernel::wf);
            assert(k.spaces().dom().contains(-1));
            assert forall|id: int| k.spaces().dom().contains(id) implies id == -1 by {}
        }
        Some(k)
    }

    /// End of the range of frames that the allocator manages after boot:
    /// `end_frame`, cut down to the frames of the memory and to the frames
    /// that a page-table entry can name.
    pub open spec fn boot_end(memory_frames: usize, end_frame: PhysPageNum) -> int {
        let a = if end_frame.0 > memory_frames {
            memory_frames as int
        } else {
            end_frame.0 as int
        };
        let b = if a > PPN_LIMIT {
            PPN_LIMIT as int
        } else {
            a
        };
        b
    }
}

} // verus!

verus! {

/// Whether the address space `ms` holds the program of the image `b` in the
/// memory `m`: one area per loadable segment with the bytes of the segment
/// and then zeros, the zeroed user stack above a guard page, the
/// trap-context page of thread 0, and the trampoline at the frame `t`.
pub open spec fn program_image(b: Seq<u8>, ms: MemorySet, m: Seq<Seq<u64>>, t: PhysPageNum) -> bool {
    let segs = crate::mm::loader::loads(b);
    let n = segs.len() as int;
    &&& ms.trampoline == Some(t)
    &&& ms.areas@.len() == n + 2
    &&& forall|i: int|
        0 <= i < n ==> crate::mm::loader::area_holds_segment(
            #[trigger] ms.areas@[i],
            segs[i],
            b,
            m,
        )
    &&& crate::mm::loader::area_is_zeroed(
        ms.areas@[n],
        crate::mm::loader::stack_base_vpn(segs),
        crate::mm::loader::stack_base_vpn(segs) + 2,
        crate::mm::memory_set::PERM_R | crate::mm::memory_set::PERM_W
            | crate::mm::memory_set::PERM_U,
        m,
    )
    &&& ms.areas@[n + 1].start.0 == TRAP_CONTEXT_VPN
    &&& ms.areas@[n + 1].end.0 == TRAMPOLINE_VPN
    &&& ms.areas@[n + 1].map_type == MapType::Framed
    &&& ms.areas@[n + 1].map_perm.bits == crate::mm::memory_set::PERM_R
        | crate::mm::memory_set::PERM_W
}

/// A write into the frame of the trap-context page leaves the program image
/// as it is.
pub proof fn lemma_image_kept(
    b: Seq<u8>,
    ms: MemorySet,
    m1: Seq<Seq<u64>>,
    m3: Seq<Seq<u64>>,
    t: PhysPageNum,
    f: int,
)
    requires
        ms.wf(m1),
        program_image(b, ms, m1, t),
        Kernel::trap_mapped(ms, m1, f),
        m3.len() == m1.len(),
        forall|p: int| 0 <= p < m1.len() && p != f ==> (#[trigger] m3[p]) == m1[p],
    ensures
        program_image(b, ms, m3, t),
{
    let segs = crate::mm::loader::loads(b);
    let n = segs.len() as int;
    ms.lemma_wf_facts(m1);
    assert(ms.areas@[n + 1].has_page(TRAP_CONTEXT_VPN as int));
    assert(ms.areas@[n + 1].mapped());
    let tf = ms.data_frame(n + 1, 0);
    assert(ms.owns_data(tf));
    crate::mm::page_table::lemma_pte_bits(tf, ms.areas@[n + 1].map_perm.bits | 1u8);
    assert(tf == f);
    assert forall|i: int| 0 <= i < n implies crate::mm::loader::area_holds_segment(
        #[trigger] ms.areas@[i],
        segs[i],
        b,
        m3,
    ) by {
        assert(crate::mm::loader::area_holds_segment(ms.areas@[i], segs[i], b, m1));
        assert(ms.areas@[i].mapped());
        assert forall|k: int| 0 <= k < ms.areas@[i].end.0 - ms.areas@[i].start.0 implies m3[(
        #[trigger] ms.areas@[i].data_frames@[k]).ppn.0 as int]
            == m1[ms.areas@[i].data_frames@[k].ppn.0 as int] by {
            ms.lemma_distinct(m1, i, k, n + 1, 0);
            assert(ms.data_frame(i, k) == ms.areas@[i].data_frames@[k].ppn.0);
            assert(ms.owns_data(ms.data_frame(i, k)));
        }
    }
    assert(ms.areas@[n].mapped());
    assert forall|k: int| 0 <= k < 2 implies m3[(
    #[trigger] ms.areas@[n].data_frames@[k]).ppn.0 as int]
        == m1[ms.areas@[n].data_frames@[k].ppn.0 as int] by {
        ms.lemma_distinct(m1, n, k, n + 1, 0);
        assert(ms.data_frame(n, k) == ms.areas@[n].data_frames@[k].ppn.0);
        assert(ms.owns_data(ms.data_frame(n, k)));
    }
}

/// The table of open files of a new process: standard input, standard
/// output and standard error.
pub open spec fn std_files() -> Seq<Option<FileDescriptor>> {
    seq![
        Some(FileDescriptor { file: 0, readable: true, writable: false }),
        Some(FileDescriptor { file: 1, readable: false, writable: true }),
        Some(FileDescriptor { file: 2, readable: false, writable: true }),
    ]
}

impl Kernel {
    /// Why a process cannot be created from the image `b`, if it cannot.
    pub open spec fn spawn_error(&self, b: Seq<u8>) -> Option<SpawnError> {
        let kb = kstack_bottom_vpn(self.kstack_allocator.next());
        match format_error(b) {
            Some(e) => Some(SpawnError::Image(e)),
            None => if self.kstack_allocator.next() >= KSTACK_LIMIT || self.kernel_space.overlaps(
                kb,
                kb + 2,
            ) {
                Some(SpawnError::NoKernelStack)
            } else if self.pid_allocator.next() >= isize::MAX {
                Some(SpawnError::NoPid)
            } else if self.frame_allocator.free() < load_need(b) + frames_needed(
                kb,
                kb + 2,
                MapType::Framed,
            ) {
                Some(SpawnError::OutOfFrames)
            } else {
                None
            },
        }
    }

    /// What the kernel `k1` is after the process `pid` has been created in
    /// the kernel `k0` from the image `b`: the process is new, lives and is
    /// ready at the back of the ready queue; it has no parent and no
    /// children, the three standard files, no signal pending or blocked,
    /// and no handler; its address space holds the program; its trap
    /// context starts the program at its entry with its initial stack
    /// pointer and all other registers zero; no other process has changed.
    pub open spec fn spawned(k0: Kernel, k1: Kernel, pid: int, b: Seq<u8>) -> bool {
        let p = k1.pcb(pid).inner;
        let kid = k0.kstack_allocator.next();
        &&& pid == k0.pid_allocator.next()
        &&& !k0.has_process(pid)
        &&& k1.is_live(pid)
        &&& forall|q: int|
            0 <= q < k0.processes@.len() && q != pid ==> q < k1.processes@.len() && (
            #[trigger] k1.processes@[q]) == k0.processes@[q]
        &&& forall|q: int| k1.has_process(q) && q != pid ==> k0.has_process(q)
        &&& k1.ready_queue@ == k0.ready_queue@.push(pid as usize)
        &&& k1.current == k0.current
        &&& k1.initproc == k0.initproc
        &&& k1.shutdown == k0.shutdown
        &&& k1.status(pid) == TaskStatus::Ready
        &&& p.parent is None
        &&& p.children@.len() == 0
        &&& p.exit_code == 0
        &&& p.fd_table@ == std_files()
        &&& p.signals.bits == 0
        &&& p.signal_mask.bits == 0
        &&& p.handling_sig == -1
        &&& !p.killed
        &&& !p.frozen
        &&& p.trap_ctx_backup is None
        &&& p.task.kstack.0 == kid
        &&& p.task.inner.exit_code is None
        &&& p.task.inner.task_cx.ra == k0.trap_return
        &&& p.task.inner.task_cx.sp == crate::config::TRAMPOLINE - kid * 12288
        &&& p.task.inner.res == Some(
            TaskUserRes {
                tid: 0,
                ustack_base: (initial_sp(b) - crate::config::USER_STACK_SIZE) as u64,
                process: pid as usize,
            },
        )
        &&& program_image(b, k1.space(pid), k1.mem@, k0.trampoline)
        &&& forall|i: int|
            0 <= i < 32 ==> (#[trigger] k1.trap_word(pid, i)) == (if i == 2 {
                initial_sp(b) as u64
            } else {
                0
            })
        &&& k1.trap_word(pid, 32) == k0.sstatus & !crate::trap::context::SSTATUS_SPP
        &&& k1.trap_word(pid, 33) == crate::mm::elf::header_of(b).entry
        &&& k1.trap_word(pid, 34) == 0x8000_0000_0000_0000
            + k0.kernel_space.page_table.root_ppn.0 % PPN_LIMIT
        &&& k1.trap_word(pid, 35) == crate::config::TRAMPOLINE - kid * 12288
        &&& k1.trap_word(pid, 36) == k0.trap_handler
    }

    /// Puts the control block `pcb` into the slot of its identifier, which
    /// is free; the table grows if the slot is beyond its end.
    pub(crate) fn install(&mut self, pcb: ProcessControlBlock)
        requires
            !old(self).has_process(pcb.pid.0 as int),
        ensures
            *final(self) == (Kernel { processes: final(self).processes, ..*old(self) }),
            pcb.pid.0 < final(self).processes@.len(),
            final(self).processes@.len() >= old(self).processes@.len(),
            final(self).processes@.len() == (if pcb.pid.0 < old(self).processes@.len() {
                old(self).processes@.len() as int
            } else {
                pcb.pid.0 + 1
            }),
            final(self).processes@[pcb.pid.0 as int] == Some(pcb),
            forall|q: int|
                0 <= q < final(self).processes@.len() && q != pcb.pid.0 ==> (#[trigger] final(self).processes@[q]) == (if q < old(self).processes@.len() {
                    old(self).processes@[q]
                } else {
                    None
                }),
    {
        let pid: usize = pcb.pid.0;
        while self.processes.len() <= pid
            invariant
                *self == (Kernel { processes: self.processes, ..*old(self) }),
                self.processes@.len() >= old(self).processes@.len(),
                self.processes@.len() <= pid + 1 || self.processes@.len() == old(self).processes@.len(),
                forall|q: int|
                    0 <= q < self.processes@.len() ==> (#[trigger] self.processes@[q]) == (if q
                        < old(self).processes@.len() {
                        old(self).processes@[q]
                    } else {
                        None
                    }),
            decreases pid + 1 - self.processes@.len(),
        {
            self.processes.push(None);
        }
        self.processes[pid] = Some(pcb);
    }
}

} // verus!

verus! {

impl Kernel {
    /// What the kernel `k1` is after a kernel stack has been taken in the
    /// kernel `k0`: the invariant holds, the stack has the next number, and
    /// nothing but the kernel address space, the allocators and the memory
    /// has changed.
    pub open spec fn stack_taken(k0: Kernel, k1: Kernel, kid: int) -> bool {
        &&& k1.wf()
        &&& kid == k0.kstack_allocator.next()
        &&& k1 == (Kernel {
            mem: k1.mem,
            frame_allocator: k1.frame_allocator,
            kernel_space: k1.kernel_space,
            kstack_allocator: k1.kstack_allocator,
            ..k0
        })
        &&& k1.frame_allocator.free() >= k0.frame_allocator.free() - frames_needed(
            kstack_bottom_vpn(kid),
            kstack_bottom_vpn(kid) + 2,
            MapType::Framed,
        )
        &&& k1.kernel_space.page_table.root_ppn == k0.kernel_space.page_table.root_ppn
        &&& forall|p: int|
            k0.frame_allocator.is_allocated(p) ==> k1.frame_allocator.is_allocated(p)
        &&& forall|q: int, f: int| #[trigger]
            k0.has_process(q) && #[trigger] k0.space(q).owns(f) ==> k1.mem@[f] == k0.mem@[f]
        &&& forall|q: int, v: int| #[trigger]
            k0.has_process(q) ==> #[trigger] lookup(k1.mem@, k0.space(q).page_table.root(), v)
                == lookup(k0.mem@, k0.space(q).page_table.root(), v)
    }

    /// Takes a kernel stack, which is known to be at hand.
    pub(crate) fn take_kernel_stack(&mut self) -> (r: Option<KernelStack>)
        requires
            old(self).wf(),
            old(self).kstack_allocator.next() < KSTACK_LIMIT,
            !old(self).kernel_space.overlaps(
                kstack_bottom_vpn(old(self).kstack_allocator.next()),
                kstack_bottom_vpn(old(self).kstack_allocator.next()) + 2,
            ),
            old(self).frame_allocator.free() >= frames_needed(
                kstack_bottom_vpn(old(self).kstack_allocator.next()),
                kstack_bottom_vpn(old(self).kstack_allocator.next()) + 2,
                MapType::Framed,
            ),
        ensures
            r matches Some(stack) && Self::stack_taken(*old(self), *final(self), stack.0 as int),
    {
        proof {
            self.lemma_wf_kernel();
        }
        let r = kstack_alloc(
            &mut self.kstack_allocator,
            &mut self.kernel_space,
            &mut self.frame_allocator,
            &mut self.mem,
        );
        proof {
            let kid = old(self).kstack_allocator.next();
            crate::mm::spaces::lemma_appended_step(
                old(self).kernel_space,
                self.kernel_space,
                old(self).mem@,
                self.mem@,
                old(self).frame_allocator,
                self.frame_allocator,
                kstack_bottom_vpn(kid),
                kstack_bottom_vpn(kid) + 2,
                MapType::Framed,
                crate::mm::memory_set::MapPermission {
                    bits: crate::mm::memory_set::PERM_R | crate::mm::memory_set::PERM_W,
                },
                Seq::<u8>::empty(),
            );
            old(self).lemma_kernel_space_step(self);
            reveal(MemorySet::appended);
            assert forall|q: int, f: int| #[trigger]
                old(self).has_process(q) && #[trigger] old(self).space(q).owns(f) implies self.mem@[f]
                == old(self).mem@[f] by {
                old(self).lemma_kernel_bystander(self, q);
            }
            assert forall|q: int, v: int| #[trigger]
                old(self).has_process(q) implies #[trigger] lookup(
                self.mem@,
                old(self).space(q).page_table.root(),
                v,
            ) == lookup(old(self).mem@, old(self).space(q).page_table.root(), v) by {
                old(self).lemma_kernel_bystander(self, q);
            }
        }
        r
    }

    /// The frame to which the address space `ms` maps the trap-context page
    /// of thread 0.
    pub(crate) fn trap_frame_of(ms: &MemorySet, mem: &PhysMemory) -> (r: Option<PhysPageNum>)
        ensures
            r matches Some(f) ==> Self::trap_mapped(*ms, mem@, f.0 as int),
            r is None ==> lookup(mem@, ms.page_table.root(), TRAP_CONTEXT_VPN as int) is None,
    {
        match ms.translate(VirtPageNum(TRAP_CONTEXT_VPN), mem) {
            Some(e) => Some(e.ppn()),
            None => None,
        }
    }

    /// The control block of a new process with the identifier `pid`, the
    /// address space `memory_set`, the kernel stack `kstack` and its trap
    /// context in the frame `trap_cx_ppn`; its user stacks start at
    /// `ustack_base`.
    fn fresh_pcb(
        pid: PidHandle,
        memory_set: MemorySet,
        kstack: KernelStack,
        trap_cx_ppn: PhysPageNum,
        ustack_base: u64,
        trap_return: u64,
    ) -> (r: ProcessControlBlock)
        requires
            kstack.0 < KSTACK_LIMIT,
        ensures
            r.pid == pid,
            r.inner.memory_set == memory_set,
            r.inner.task.kstack == kstack,
            r.inner.task.process == pid.0,
            r.inner.task.inner.trap_cx_ppn == trap_cx_ppn,
            r.inner.task.inner.task_status == TaskStatus::Ready,
            r.inner.task.inner.exit_code is None,
            r.inner.task.inner.task_cx.ra == trap_return,
            r.inner.task.inner.task_cx.sp == crate::config::TRAMPOLINE - kstack.0 * 12288,
            r.inner.task.inner.res == Some(
                TaskUserRes { tid: 0, ustack_base, process: pid.0 },
            ),
            !r.inner.is_zombie,
            r.inner.parent is None,
            r.inner.children@.len() == 0,
            r.inner.exit_code == 0,
            r.inner.fd_table@ == std_files(),
            r.inner.signals.bits == 0,
            r.inner.signal_mask.bits == 0,
            r.inner.handling_sig == -1,
            !r.inner.killed,
            !r.inner.frozen,
            r.inner.trap_ctx_backup is None,
    {
        let mut fd_table: Vec<Option<FileDescriptor>> = Vec::new();
        fd_table.push(Some(FileDescriptor { file: 0, readable: true, writable: false }));
        fd_table.push(Some(FileDescriptor { file: 1, readable: false, writable: true }));
        fd_table.push(Some(FileDescriptor { file: 2, readable: false, writable: true }));
        proof {
            assert(fd_table@ =~= std_files());
        }
        let mut tids = RecycleAllocator::new();
        let tid: usize = tids.alloc_id();
        let process: usize = pid.0;
        ProcessControlBlock {
            pid,
            inner: ProcessControlBlockInner {
                is_zombie: false,
                memory_set,
                parent: None,
                children: Vec::new(),
                exit_code: 0,
                fd_table,
                signals: SignalFlags::empty(),
                signal_mask: SignalFlags::empty(),
                handling_sig: -1,
                signal_actions: SignalActions::default(),
                killed: false,
                frozen: false,
                trap_ctx_backup: None,
                task: TaskControlBlock::new(
                    process,
                    Some(TaskUserRes { tid, ustack_base, process }),
                    trap_cx_ppn,
                    kstack,
                    trap_return,
                ),
                task_res_allocator: tids,
            },
        }
    }
}

} // verus!

verus! {

impl Kernel {
    /// A loaded program maps its trap-context page, and holds framed areas
    /// only.
    pub proof fn lemma_loaded_live(
        b: Seq<u8>,
        ms: MemorySet,
        t: PhysPageNum,
        m0: Seq<Seq<u64>>,
        m1: Seq<Seq<u64>>,
        fa0: StackFrameAllocator,
        fa1: StackFrameAllocator,
    )
        requires
            loaded(b, ms, t, m0, m1, fa0, fa1),
            format_error(b) is None,
        ensures
            lookup(m1, ms.page_table.root(), TRAP_CONTEXT_VPN as int) is Some,
            Self::all_framed(ms),
            program_image(b, ms, m1, t),
            ms.trampoline == Some(t),
    {
        let segs = crate::mm::loader::loads(b);
        let n = segs.len() as int;
        ms.lemma_wf_facts(m1);
        assert(ms.areas@[n + 1].has_page(TRAP_CONTEXT_VPN as int));
        assert forall|a: int| 0 <= a < ms.areas@.len() implies (#[trigger] ms.areas@[a]).map_type
            == MapType::Framed by {
            if a < n {
                assert(crate::mm::loader::area_holds_segment(ms.areas@[a], segs[a], b, m1));
            }
        }
    }

    /// Creates a process from the program in the ELF image `elf_data`: a
    /// new identifier, an address space with the program loaded, a kernel
    /// stack, and a trap context that starts the program.  The process is
    /// ready and goes to the back of the ready queue.
    ///
    /// Refused, with nothing changed, when [`Kernel::spawn_error`] says so.
    pub fn spawn(&mut self, elf_data: &[u8]) -> (r: Result<usize, SpawnError>)
        requires
            old(self).wf(),
        ensures
            final(self).wf(),
            r matches Err(e) ==> old(self).spawn_error(elf_data@) == Some(e) && *final(self)
                == *old(self),
            r matches Ok(pid) ==> old(self).spawn_error(elf_data@) is None && Self::spawned(
                *old(self),
                *final(self),
                pid as int,
                elf_data@,
            ),
    {
        proof {
            self.lemma_wf_kernel();
            self.frame_allocator.lemma_free_bound();
        }
        let need: Option<u64> = match elf_frames_needed(elf_data) {
            Ok(n) => n,
            Err(e) => {
                return Err(SpawnError::Image(e));
            },
        };
        let kid: usize = self.kstack_allocator.peek();
        if kid >= KSTACK_LIMIT {
            return Err(SpawnError::NoKernelStack);
        }
        let kb: u64 = TRAMPOLINE_VPN - 3 * (kid as u64) - 2;
        if !self.kernel_space.range_is_free(VirtPageNum(kb), VirtPageNum(kb + 2)) {
            return Err(SpawnError::NoKernelStack);
        }
        if self.pid_allocator.peek() >= isize::MAX as usize {
            return Err(SpawnError::NoPid);
        }
        let kneed: u64 = MemorySet::frames_needed_of(
            VirtPageNum(kb),
            VirtPageNum(kb + 2),
            MapType::Framed,
        );
        let total: Option<u64> = match need {
            Some(n) => n.checked_add(kneed),
            None => None,
        };
        let enough: bool = match total {
            Some(t) => self.frame_allocator.has_free(t),
            None => false,
        };
        if !enough {
            return Err(SpawnError::OutOfFrames);
        }
        match self.create(elf_data) {
            Some(pid) => Ok(pid),
            None => Err(SpawnError::OutOfFrames),
        }
    }

    /// Creates a process from an image that can be spawned.
    fn create(&mut self, elf_data: &[u8]) -> (r: Option<usize>)
        requires
            old(self).wf(),
            old(self).spawn_error(elf_data@) is None,
        ensures
            final(self).wf(),
            r matches Some(pid) && Self::spawned(
                *old(self),
                *final(self),
                pid as int,
                elf_data@,
            ),
    {
        let ghost k0 = *self;
        proof {
            crate::mm::loader::lemma_segs_need_nonneg(crate::mm::loader::loads(elf_data@), 0);
            crate::mm::loader::lemma_tail_need_nonneg(crate::mm::loader::loads(elf_data@));
        }
        let kstack = match self.take_kernel_stack() {
            Some(s) => s,
            None => {
                return None;
            },
        };
        let ghost ka = *self;
        proof {
            ka.lemma_wf_kernel();
        }
        let loaded_program = MemorySet::from_elf(
            elf_data,
            self.trampoline,
            &mut self.frame_allocator,
            &mut self.mem,
        );
        let (memory_set, user_sp, entry) = match loaded_program {
            Ok(t) => t,
            Err(_) => {
                return None;
            },
        };
        proof {
            Self::lemma_loaded_live(
                elf_data@,
                memory_set,
                ka.trampoline,
                ka.mem@,
                self.mem@,
                ka.frame_allocator,
                self.frame_allocator,
            );
        }
        let trap_cx_ppn = match Self::trap_frame_of(&memory_set, &self.mem) {
            Some(f) => f,
            None => {
                return None;
            },
        };
        let pid_handle = pid_alloc(&mut self.pid_allocator);
        let pid: usize = pid_handle.0;
        let kstack_top: u64 = kstack.get_top();
        let kernel_token: u64 = self.kernel_space.token();
        let ghost ms = memory_set;
        let pcb = Self::fresh_pcb(
            pid_handle,
            memory_set,
            kstack,
            trap_cx_ppn,
            user_sp - crate::config::USER_STACK_SIZE,
            self.trap_return,
        );
        proof {
            reveal(Kernel::wf);
            assert(!ka.has_process(pid as int)) by {
                if ka.has_process(pid as int) {
                    assert(ka.pid_allocator.is_allocated(pid as int));
                }
            }
        }
        self.install(pcb);
        proof {
            crate::mm::spaces::lemma_loaded_step(
                elf_data@,
                ms,
                ka.trampoline,
                ka.mem@,
                self.mem@,
                ka.frame_allocator,
                self.frame_allocator,
            );
            ka.lemma_process_added(self, pid as int);
        }
        let ghost kb = *self;
        let cx = TrapContext::app_init_context(
            entry,
            user_sp,
            kernel_token,
            kstack_top,
            self.trap_handler,
            self.sstatus,
        );
        self.set_trap_cx(pid, &cx);
        proof {
            kb.lemma_wf_process(pid as int);
            assert(self.mem@.len() == kb.mem@.len());
            lemma_image_kept(
                elf_data@,
                ms,
                kb.mem@,
                self.mem@,
                k0.trampoline,
                trap_cx_ppn.0 as int,
            );
            if self.queued(pid as int) {
                self.lemma_wf_kernel();
                let i = choose|i: int|
                    0 <= i < self.ready_queue@.len() && #[trigger] self.ready_queue@[i] == pid;
                assert(ka.is_live(ka.ready_queue@[i] as int));
            }
        }
        add_task(self, pid);
        proof {
            assert forall|q: int| self.has_process(q) && q != pid implies k0.has_process(q) by {
                assert(self.processes@[q] == (if q < ka.processes@.len() {
                    ka.processes@[q]
                } else {
                    None
                }));
            }
        }
        Some(pid)
    }
}

} // verus!
