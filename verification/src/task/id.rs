//! Identifiers that are recycled, and the places in memory that follow from
//! them: kernel stacks, user stacks and trap-context pages.

use vstd::prelude::*;
use crate::config::{
    KERNEL_STACK_SIZE, PAGE_SIZE, PPN_LIMIT, TRAMPOLINE, TRAMPOLINE_VPN, TRAP_CONTEXT_BASE,
    TRAP_CONTEXT_VPN, USER_STACK_SIZE, VA_LIMIT,
};
use crate::mm::address::{VirtAddr, VirtPageNum};
use crate::mm::frame_allocator::StackFrameAllocator;
use crate::mm::memory::PhysMemory;
use crate::mm::memory_set::{frames_needed, AreaError, MapPermission, MapType, MemorySet, PERM_R, PERM_W};

verus! {

/// Hands out identifiers: recycled ones first, the one given back last
/// before the others, then fresh ones in rising order from 0.
pub struct RecycleAllocator {
    current: usize,
    recycled: Vec<usize>,
}

impl RecycleAllocator {
    /// The lowest identifier never handed out.
    pub closed spec fn current(&self) -> int {
        self.current as int
    }

    /// The recycle stack, the identifier given back last at the end.
    pub closed spec fn recycled(&self) -> Seq<usize> {
        self.recycled@
    }

    /// The bookkeeping is consistent: the recycle stack holds identifiers
    /// below the counter, none twice.
    pub open spec fn wf(&self) -> bool {
        &&& 0 <= self.current() <= usize::MAX
        &&& forall|i: int, j: int|
            0 <= i < j < self.recycled().len() ==> self.recycled()[i] != self.recycled()[j]
        &&& forall|i: int|
            0 <= i < self.recycled().len() ==> (#[trigger] self.recycled()[i]) < self.current()
    }

    /// Whether `id` lies on the recycle stack.
    pub open spec fn is_recycled(&self, id: int) -> bool {
        exists|i: int| 0 <= i < self.recycled().len() && #[trigger] self.recycled()[i] == id
    }

    /// Whether `id` is handed out at present.
    pub open spec fn is_allocated(&self, id: int) -> bool {
        0 <= id < self.current() && !self.is_recycled(id)
    }

    /// The identifier that the next allocation hands out.
    pub open spec fn next(&self) -> int {
        if self.recycled().len() > 0 {
            self.recycled().last() as int
        } else {
            self.current()
        }
    }

    /// An allocator that has handed out nothing.
    pub fn new() -> (r: Self)
        ensures
            r.wf(),
            r.current() == 0,
            r.recycled().len() == 0,
            forall|id: int| !r.is_allocated(id),
    {
        RecycleAllocator { current: 0, recycled: Vec::new() }
    }

    /// The identifier that the next allocation hands out.
    pub fn peek(&self) -> (r: usize)
        requires
            self.wf(),
        ensures
            r == self.next(),
    {
        let n: usize = self.recycled.len();
        if n > 0 {
            self.recycled[n - 1]
        } else {
            self.current
        }
    }

    /// Hands out an identifier that is not allocated: the one given back
    /// last, or else the lowest fresh one.
    pub fn alloc_id(&mut self) -> (r: usize)
        requires
            old(self).wf(),
            old(self).next() < usize::MAX,
        ensures
            final(self).wf(),
            r == old(self).next(),
            !old(self).is_allocated(r as int),
            forall|id: int| final(self).is_allocated(id) <==> old(self).is_allocated(id) || id == r,
            final(self).current() == (if old(self).recycled().len() > 0 {
                old(self).current()
            } else {
                old(self).current() + 1
            }),
    {
        let n: usize = self.recycled.len();
        if n > 0 {
            let id: usize = self.recycled[n - 1];
            self.recycled.pop();
            proof {
                let old_r = old(self).recycled();
                assert(self.recycled() == old_r.drop_last());
                assert(old_r[n - 1] == id);
                assert forall|x: int|
                    self.is_allocated(x) <==> old(self).is_allocated(x) || x == id by {
                    if old(self).is_recycled(x) && x != id {
                        let i = choose|i: int| 0 <= i < old_r.len() && old_r[i] == x;
                        assert(self.recycled()[i] == x);
                    }
                    if self.is_recycled(x) {
                        let i = choose|i: int|
                            0 <= i < self.recycled().len() && self.recycled()[i] == x;
                        assert(old_r[i] == x);
                    }
                }
            }
            id
        } else {
            self.current = self.current + 1;
            self.current - 1
        }
    }

    /// Whether the identifier `id` is allocated: handed out and not taken
    /// back since.
    pub fn has_allocated(&self, id: usize) -> (r: bool)
        requires
            self.wf(),
        ensures
            r == self.is_allocated(id as int),
    {
        if id >= self.current {
            return false;
        }
        let mut i: usize = 0;
        while i < self.recycled.len()
            invariant
                i <= self.recycled@.len(),
                self.wf(),
                forall|j: int| 0 <= j < i ==> self.recycled@[j] != id,
            decreases self.recycled@.len() - i,
        {
            if self.recycled[i] == id {
                proof {
                    assert(self.recycled()[i as int] == id);
                }
                return false;
            }
            i = i + 1;
        }
        true
    }

    /// Takes the identifier `id`, which is allocated, back: it is the one
    /// that is handed out next.  To give back an identifier that is not
    /// allocated is a defect of the caller;
    /// [`RecycleAllocator::has_allocated`] tells.
    pub fn dealloc(&mut self, id: usize)
        requires
            old(self).wf(),
            old(self).is_allocated(id as int),
        ensures
            final(self).wf(),
            final(self).current() == old(self).current(),
            final(self).recycled() == old(self).recycled().push(id),
            forall|x: int| final(self).is_allocated(x) <==> old(self).is_allocated(x) && x != id,
    {
        self.recycled.push(id);
        proof {
            let old_r = old(self).recycled();
            assert forall|x: int|
                self.is_allocated(x) <==> old(self).is_allocated(x) && x != id by {
                if old(self).is_recycled(x) {
                    let i = choose|i: int| 0 <= i < old_r.len() && old_r[i] == x;
                    assert(self.recycled()[i] == x);
                }
                if self.is_recycled(x) && x != id {
                    let i = choose|i: int|
                        0 <= i < self.recycled().len() && self.recycled()[i] == x;
                    assert(old_r[i] == x);
                }
                if x == id {
                    assert(self.recycled()[old_r.len() as int] == id);
                }
            }
        }
    }
}

/// Ownership of a process identifier.
#[derive(Debug)]
pub struct PidHandle(pub usize);

/// Ownership of a kernel stack: the number of its place in kernel space.
#[derive(Debug)]
pub struct KernelStack(pub usize);

/// Hands out a process identifier.
pub fn pid_alloc(allocator: &mut RecycleAllocator) -> (r: PidHandle)
    requires
        old(allocator).wf(),
        old(allocator).next() < usize::MAX,
    ensures
        final(allocator).wf(),
        r.0 == old(allocator).next(),
        !old(allocator).is_allocated(r.0 as int),
        forall|id: int|
            final(allocator).is_allocated(id) <==> old(allocator).is_allocated(id) || id == r.0,
        final(allocator).current() == (if old(allocator).recycled().len() > 0 {
            old(allocator).current()
        } else {
            old(allocator).current() + 1
        }),
{
    PidHandle(allocator.alloc_id())
}

/// Number of kernel stacks that kernel space has room for.
pub const KSTACK_LIMIT: usize = 0x100_0000;

/// Bottom and top address of kernel stack number `id`.  The stacks lie below
/// the trampoline page, each followed by an unmapped guard page, so no two
/// share a page.
pub fn kernel_stack_position(id: usize) -> (r: (u64, u64))
    requires
        id < KSTACK_LIMIT,
    ensures
        r.1 == TRAMPOLINE - id * (KERNEL_STACK_SIZE + PAGE_SIZE),
        r.0 == r.1 - KERNEL_STACK_SIZE,
{
    let top: u64 = TRAMPOLINE - id as u64 * (KERNEL_STACK_SIZE + PAGE_SIZE);
    let bottom: u64 = top - KERNEL_STACK_SIZE;
    (bottom, top)
}

/// First page of kernel stack number `id`.
pub open spec fn kstack_bottom_vpn(id: int) -> int {
    TRAMPOLINE_VPN - 3 * id - 2
}

/// The stacks of two different numbers share no page, and every stack lies
/// below the trampoline page.
pub proof fn lemma_kernel_stacks_disjoint(a: int, b: int)
    requires
        0 <= a < b < KSTACK_LIMIT,
    ensures
        kstack_bottom_vpn(b) + 2 < kstack_bottom_vpn(a),
        kstack_bottom_vpn(a) + 2 <= TRAMPOLINE_VPN,
        0 < kstack_bottom_vpn(b),
{
}

/// The page numbers of kernel stack `id` are those of its addresses.
pub proof fn lemma_kernel_stack_pages(id: int)
    requires
        0 <= id < KSTACK_LIMIT,
    ensures
        ((TRAMPOLINE - id * (KERNEL_STACK_SIZE + PAGE_SIZE) - KERNEL_STACK_SIZE) % (
        VA_LIMIT as int)) / 4096 == kstack_bottom_vpn(id),
        ((TRAMPOLINE - id * (KERNEL_STACK_SIZE + PAGE_SIZE)) % (VA_LIMIT as int) + 4095) / 4096
            == kstack_bottom_vpn(id) + 2,
{
}

/// Takes a kernel stack: a fresh number, and two zeroed pages, readable and
/// writable, at its place in the kernel address space.  `None`, with
/// nothing changed, when no number below [`KSTACK_LIMIT`] is left, when the
/// place is taken, and when the allocator does not hold the frames that the
/// stack may need.
pub fn kstack_alloc(
    allocator: &mut RecycleAllocator,
    kernel_space: &mut MemorySet,
    fa: &mut StackFrameAllocator,
    mem: &mut PhysMemory,
) -> (r: Option<KernelStack>)
    requires
        old(allocator).wf(),
        old(kernel_space).wf(old(mem)@),
        old(kernel_space).frames_allocated(old(fa)),
        old(fa).wf(),
        old(fa).end() <= old(mem)@.len(),
        old(fa).end() <= PPN_LIMIT,
    ensures
        final(allocator).wf(),
        r is Some <==> old(allocator).next() < KSTACK_LIMIT && !old(kernel_space).overlaps(
            kstack_bottom_vpn(old(allocator).next()),
            kstack_bottom_vpn(old(allocator).next()) + 2,
        ) && old(fa).free() >= frames_needed(
            kstack_bottom_vpn(old(allocator).next()),
            kstack_bottom_vpn(old(allocator).next()) + 2,
            MapType::Framed,
        ),
        r is None ==> *final(allocator) == *old(allocator) && *final(kernel_space) == *old(
            kernel_space,
        ) && final(mem)@ == old(mem)@ && *final(fa) == *old(fa),
        r matches Some(stack) ==> {
            &&& stack.0 == old(allocator).next()
            &&& !old(allocator).is_allocated(stack.0 as int)
            &&& forall|id: int|
                final(allocator).is_allocated(id) <==> old(allocator).is_allocated(id) || id
                    == stack.0
            &&& MemorySet::appended(
                *old(kernel_space),
                *final(kernel_space),
                old(mem)@,
                final(mem)@,
                *old(fa),
                *final(fa),
                kstack_bottom_vpn(stack.0 as int),
                kstack_bottom_vpn(stack.0 as int) + 2,
                MapType::Framed,
                MapPermission { bits: PERM_R | PERM_W },
                Seq::<u8>::empty(),
            )
        },
{
    let id: usize = allocator.peek();
    if id >= KSTACK_LIMIT {
        return None;
    }
    let (bottom, top) = kernel_stack_position(id);
    proof {
        lemma_kernel_stack_pages(id as int);
    }
    let res = kernel_space.insert_framed_area(
        VirtAddr::new(bottom),
        VirtAddr::new(top),
        MapPermission { bits: PERM_R | PERM_W },
        fa,
        mem,
    );
    match res {
        Ok(()) => {
            let got: usize = allocator.alloc_id();
            Some(KernelStack(got))
        },
        Err(_) => None,
    }
}

/// What the removal of the first area that starts at page `vpn` makes of
/// an address space, the memory and the allocator: `r` is the index that
/// the area had; with no such area nothing has changed.
pub open spec fn area_taken(
    s0: MemorySet,
    s1: MemorySet,
    m0: Seq<Seq<u64>>,
    m1: Seq<Seq<u64>>,
    fa0: StackFrameAllocator,
    fa1: StackFrameAllocator,
    vpn: int,
    r: Option<usize>,
) -> bool {
    &&& r is None <==> forall|a: int|
        0 <= a < s0.areas@.len() ==> (#[trigger] s0.areas@[a]).start.0 != vpn
    &&& r is None ==> s1 == s0 && m1 == m0 && fa1 == fa0
    &&& r matches Some(idx) ==> {
        &&& idx < s0.areas@.len()
        &&& s0.areas@[idx as int].start.0 == vpn
        &&& forall|a: int| 0 <= a < idx ==> (#[trigger] s0.areas@[a]).start.0 != vpn
        &&& MemorySet::removed(s0, s1, m0, m1, fa0, fa1, idx as int)
    }
}

/// What giving kernel stack `id` back makes of the allocator of stack
/// numbers, the kernel address space, the memory and the frame allocator:
/// the first area that starts at the first page of the stack is removed,
/// if there is one, with `removed` the index that it had; and the number
/// of the stack is not allocated afterwards, whatever it was before.
pub open spec fn stack_given_back(
    a0: RecycleAllocator,
    a1: RecycleAllocator,
    s0: MemorySet,
    s1: MemorySet,
    m0: Seq<Seq<u64>>,
    m1: Seq<Seq<u64>>,
    fa0: StackFrameAllocator,
    fa1: StackFrameAllocator,
    id: int,
    removed: Option<usize>,
) -> bool {
    &&& area_taken(s0, s1, m0, m1, fa0, fa1, kstack_bottom_vpn(id), removed)
    &&& !a1.is_allocated(id)
    &&& forall|x: int| a1.is_allocated(x) <==> a0.is_allocated(x) && x != id
}

/// Gives a kernel stack back: its pages are unmapped, their frames are free
/// again, and its number can be handed out anew.  Tells whether the stack
/// was mapped and its number allocated.
pub fn kstack_dealloc(
    stack: KernelStack,
    allocator: &mut RecycleAllocator,
    kernel_space: &mut MemorySet,
    fa: &mut StackFrameAllocator,
    mem: &mut PhysMemory,
) -> (r: bool)
    requires
        old(allocator).wf(),
        old(kernel_space).wf(old(mem)@),
        old(kernel_space).frames_allocated(old(fa)),
        old(fa).wf(),
        stack.0 < KSTACK_LIMIT,
    ensures
        final(allocator).wf(),
        final(fa).wf(),
        final(kernel_space).wf(final(mem)@),
        final(kernel_space).frames_allocated(final(fa)),
        final(mem)@.len() == old(mem)@.len(),
        final(fa).start() == old(fa).start(),
        final(fa).end() == old(fa).end(),
        exists|removed: Option<usize>| #[trigger]
            stack_given_back(
                *old(allocator),
                *final(allocator),
                *old(kernel_space),
                *final(kernel_space),
                old(mem)@,
                final(mem)@,
                *old(fa),
                *final(fa),
                stack.0 as int,
                removed,
            ),
        r <==> old(allocator).is_allocated(stack.0 as int) && exists|a: int|
            0 <= a < old(kernel_space).areas@.len() && (#[trigger] old(
                kernel_space,
            ).areas@[a]).start.0 == kstack_bottom_vpn(stack.0 as int),
        forall|id: int|
            final(allocator).is_allocated(id) <==> old(allocator).is_allocated(id) && id
                != stack.0,
        forall|p: int| final(kernel_space).owns(p) ==> old(kernel_space).owns(p),
        forall|p: int|
            final(fa).is_allocated(p) <==> old(fa).is_allocated(p) && !(old(kernel_space).owns(p)
                && !final(kernel_space).owns(p)),
        forall|p: int|
            0 <= p < old(mem)@.len() && !old(kernel_space).page_table.owns(p) ==> (
            #[trigger] final(mem)@[p]) == old(mem)@[p],
{
    let (bottom, _top) = kernel_stack_position(stack.0);
    proof {
        lemma_kernel_stack_pages(stack.0 as int);
        old(kernel_space).lemma_wf_facts(old(mem)@);
    }
    let removed = kernel_space.remove_area_with_start_vpn(VirtAddr::new(bottom).floor(), fa, mem);
    let freed: bool = allocator.has_allocated(stack.0);
    if freed {
        allocator.dealloc(stack.0);
    }
    proof {
        let k0 = *old(kernel_space);
        match removed {
            Some(idx) => {
                assert forall|p: int| kernel_space.owns(p) implies k0.owns(p) by {
                    assert(forall|q: int| kernel_space.page_table.owns(q) <==> k0.page_table.owns(q));
                }
                assert forall|p: int|
                    fa.is_allocated(p) <==> old(fa).is_allocated(p) && !(k0.owns(p)
                        && !kernel_space.owns(p)) by {
                    assert(forall|q: int| kernel_space.page_table.owns(q) <==> k0.page_table.owns(q));
                    if k0.backs_area(idx as int, p) {
                        let k = choose|k: int|
                            0 <= k < k0.areas@[idx as int].data_frames@.len()
                                && #[trigger] k0.data_frame(idx as int, k) == p;
                        assert(k0.owns_data(p));
                    }
                }
            },
            None => {},
        }
        assert(stack_given_back(
            *old(allocator),
            *allocator,
            k0,
            *kernel_space,
            old(mem)@,
            mem@,
            *old(fa),
            *fa,
            stack.0 as int,
            removed,
        ));
    }
    removed.is_some() && freed
}

impl KernelStack {
    /// Top address of the stack.
    pub fn get_top(&self) -> (r: u64)
        requires
            self.0 < KSTACK_LIMIT,
        ensures
            r == TRAMPOLINE - self.0 * (KERNEL_STACK_SIZE + PAGE_SIZE),
    {
        let (_, top) = kernel_stack_position(self.0);
        top
    }
}

/// Address of the trap-context page of thread `tid`.
pub fn trap_cx_bottom_from_tid(tid: usize) -> (r: u64)
    requires
        tid * PAGE_SIZE <= TRAP_CONTEXT_BASE,
    ensures
        r == TRAP_CONTEXT_BASE - tid * PAGE_SIZE,
{
    TRAP_CONTEXT_BASE - tid as u64 * PAGE_SIZE
}

/// Bottom address of the user stack of thread `tid` in a process whose
/// stacks start at `ustack_base`: the stacks lie one above the other, each
/// under an unmapped guard page.
pub fn ustack_bottom_from_tid(ustack_base: u64, tid: usize) -> (r: u64)
    requires
        ustack_base + tid * (PAGE_SIZE + USER_STACK_SIZE) <= u64::MAX,
    ensures
        r == ustack_base + tid * (PAGE_SIZE + USER_STACK_SIZE),
{
    ustack_base + tid as u64 * (PAGE_SIZE + USER_STACK_SIZE)
}

/// The resources of a thread in user space: its number in the process, from
/// which the places of its stack and its trap-context page follow.
#[derive(Copy, Clone, Debug, PartialEq, Eq, Structural)]
pub struct TaskUserRes {
    /// Number of the thread in its process.
    pub tid: usize,
    /// Address at which the user stacks of the process start.
    pub ustack_base: u64,
    /// Identifier of the process.
    pub process: usize,
}

impl TaskUserRes {
    /// Whether the thread has a trap-context page and a stack: its number
    /// is that of a page below the trampoline, counted down from the
    /// trap-context page of thread 0, and the top of its stack is an
    /// address of the machine.
    pub open spec fn valid(&self) -> bool {
        self.tid <= TRAP_CONTEXT_VPN && self.ustack_base + self.tid * (PAGE_SIZE
            + USER_STACK_SIZE) + USER_STACK_SIZE <= u64::MAX
    }

    /// Address of the trap-context page of the thread in user space.
    pub fn trap_cx_user_va(&self) -> (r: u64)
        requires
            self.tid * PAGE_SIZE <= TRAP_CONTEXT_BASE,
        ensures
            r == TRAP_CONTEXT_BASE - self.tid * PAGE_SIZE,
    {
        trap_cx_bottom_from_tid(self.tid)
    }

    /// Address at which the user stacks of the process start.
    pub fn ustack_base(&self) -> (r: u64)
        ensures
            r == self.ustack_base,
    {
        self.ustack_base
    }

    /// Top address of the user stack of the thread.
    pub fn ustack_top(&self) -> (r: u64)
        requires
            self.ustack_base + self.tid * (PAGE_SIZE + USER_STACK_SIZE) + USER_STACK_SIZE
                <= u64::MAX,
        ensures
            r == self.ustack_base + self.tid * (PAGE_SIZE + USER_STACK_SIZE) + USER_STACK_SIZE,
    {
        ustack_bottom_from_tid(self.ustack_base, self.tid) + USER_STACK_SIZE
    }
}

} // verus!
