//! The resources of a thread in user space: its stack and the page of its
//! trap context, at places that follow from the thread's number.

use vstd::prelude::*;
use crate::config::{PPN_LIMIT, TRAMPOLINE_VPN, TRAP_CONTEXT_VPN, USER_STACK_SIZE, VA_LIMIT};
use crate::mm::address::{PhysPageNum, VirtAddr, VirtPageNum};
use crate::mm::frame_allocator::StackFrameAllocator;
use crate::mm::memory::PhysMemory;
use crate::mm::memory_set::{
    frames_needed, AreaError, MapPermission, MapType, MemorySet, PERM_R, PERM_U, PERM_W,
};
use crate::mm::page_table::{lookup, pte_ppn};
use crate::task::id::{
    area_taken, trap_cx_bottom_from_tid, ustack_bottom_from_tid, RecycleAllocator, TaskUserRes,
};

verus! {

impl TaskUserRes {
    /// First page of the user stack of the thread.
    pub open spec fn ustack_start_vpn(&self) -> int {
        (self.ustack_base + self.tid * 12288) / 4096
    }

    /// The page after the last page of the user stack of the thread.
    pub open spec fn ustack_end_vpn(&self) -> int {
        (self.ustack_base + self.tid * 12288 + USER_STACK_SIZE + 4095) / 4096
    }

    /// The page of the trap context of the thread.
    pub open spec fn trap_cx_vpn(&self) -> int {
        TRAP_CONTEXT_VPN - self.tid
    }

    /// Why the stack and the trap-context page of the thread cannot be
    /// added to the address space `ms` when `free` frames are free, if they
    /// cannot: the stack reaches the trampoline page; a page of the two is
    /// taken, or the stack covers the trap-context page; or fewer frames
    /// are free than the two areas may need.
    pub open spec fn res_error(&self, ms: MemorySet, free: int) -> Option<AreaError> {
        let s = self.ustack_start_vpn();
        let e = self.ustack_end_vpn();
        let t = self.trap_cx_vpn();
        if e > TRAMPOLINE_VPN {
            Some(AreaError::InvalidRange)
        } else if ms.overlaps(s, e) || ms.overlaps(t, t + 1) || s <= t < e {
            Some(AreaError::Overlap)
        } else if free < frames_needed(s, e, MapType::Framed) + frames_needed(
            t,
            t + 1,
            MapType::Framed,
        ) {
            Some(AreaError::OutOfFrames)
        } else {
            None
        }
    }

    /// What the address space, the memory and the allocator are after the
    /// resources of the thread have been added: first the user stack, two
    /// zeroed pages that the user can read and write, then the
    /// trap-context page, zeroed, for the kernel to read and write.
    pub open spec fn res_allocated(
        &self,
        s0: MemorySet,
        s1: MemorySet,
        m0: Seq<Seq<u64>>,
        m1: Seq<Seq<u64>>,
        fa0: StackFrameAllocator,
        fa1: StackFrameAllocator,
    ) -> bool {
        exists|sm: MemorySet, mm: Seq<Seq<u64>>, fam: StackFrameAllocator|
            {
                &&& #[trigger] MemorySet::appended(
                    s0,
                    sm,
                    m0,
                    mm,
                    fa0,
                    fam,
                    self.ustack_start_vpn(),
                    self.ustack_end_vpn(),
                    MapType::Framed,
                    (MapPermission { bits: PERM_R | PERM_W | PERM_U }),
                    Seq::<u8>::empty(),
                )
                &&& #[trigger] MemorySet::appended(
                    sm,
                    s1,
                    mm,
                    m1,
                    fam,
                    fa1,
                    self.trap_cx_vpn(),
                    self.trap_cx_vpn() + 1,
                    MapType::Framed,
                    (MapPermission { bits: PERM_R | PERM_W }),
                    Seq::<u8>::empty(),
                )
            }
    }

    /// What the address space, the memory and the allocator are after the
    /// resources of the thread have been given up: first the area that
    /// starts at the first page of its user stack has been removed, then
    /// the area that starts at its trap-context page.  `r` tells for each
    /// whether there was such an area, and at which index.
    pub open spec fn res_released(
        &self,
        s0: MemorySet,
        s1: MemorySet,
        m0: Seq<Seq<u64>>,
        m1: Seq<Seq<u64>>,
        fa0: StackFrameAllocator,
        fa1: StackFrameAllocator,
        r: (Option<usize>, Option<usize>),
    ) -> bool {
        exists|sm: MemorySet, mm: Seq<Seq<u64>>, fam: StackFrameAllocator|
            {
                &&& #[trigger] area_taken(s0, sm, m0, mm, fa0, fam, self.ustack_start_vpn(), r.0)
                &&& #[trigger] area_taken(sm, s1, mm, m1, fam, fa1, self.trap_cx_vpn(), r.1)
            }
    }

    /// An area that has been added leaves free what it does not cover.
    proof fn lemma_still_free(
        s0: MemorySet,
        s1: MemorySet,
        m0: Seq<Seq<u64>>,
        m1: Seq<Seq<u64>>,
        fa0: StackFrameAllocator,
        fa1: StackFrameAllocator,
        start: int,
        end: int,
        perm: MapPermission,
        a: int,
        b: int,
    )
        requires
            MemorySet::appended(
                s0,
                s1,
                m0,
                m1,
                fa0,
                fa1,
                start,
                end,
                MapType::Framed,
                perm,
                Seq::<u8>::empty(),
            ),
            !s0.overlaps(a, b),
            b <= start || end <= a,
        ensures
            !s1.overlaps(a, b),
            s1.wf(m1),
            s1.frames_allocated(&fa1),
            fa1.wf(),
            fa1.end() == fa0.end(),
            m1.len() == m0.len(),
            fa1.free() >= fa0.free() - frames_needed(start, end, MapType::Framed),
    {
        reveal(MemorySet::appended);
        if s1.overlaps(a, b) {
            let v = choose|v: int| a <= v < b && #[trigger] s1.covered(v);
            let i = choose|i: int|
                0 <= i < s1.areas@.len() && (#[trigger] s1.areas@[i]).has_page(v);
            if i < s0.areas@.len() {
                assert(s1.areas@[i] == s0.areas@[i]);
                assert(s0.areas@[i].has_page(v));
                assert(s0.covered(v));
            } else {
                assert(s1.areas@[i] == s1.areas@.last());
            }
        }
    }

    /// Adds the resources of the thread to the address space `ms` of its
    /// process: the user stack and the trap-context page.
    ///
    /// Refused, with nothing changed, when [`TaskUserRes::res_error`] says
    /// so.
    pub fn alloc_user_res(
        &self,
        ms: &mut MemorySet,
        fa: &mut StackFrameAllocator,
        mem: &mut PhysMemory,
    ) -> (r: Result<(), AreaError>)
        requires
            self.valid(),
            old(ms).wf(old(mem)@),
            old(ms).frames_allocated(old(fa)),
            old(fa).wf(),
            old(fa).end() <= old(mem)@.len(),
            old(fa).end() <= PPN_LIMIT,
        ensures
            r matches Err(e) ==> self.res_error(*old(ms), old(fa).free() as int) == Some(e)
                && *final(ms) == *old(ms) && final(mem)@ == old(mem)@ && *final(fa) == *old(fa),
            r is Ok ==> self.res_error(*old(ms), old(fa).free() as int) is None
                && self.res_allocated(
                *old(ms),
                *final(ms),
                old(mem)@,
                final(mem)@,
                *old(fa),
                *final(fa),
            ),
    {
        let bottom: u64 = ustack_bottom_from_tid(self.ustack_base, self.tid);
        let top: u64 = bottom + USER_STACK_SIZE;
        let trap_bottom: u64 = trap_cx_bottom_from_tid(self.tid) % VA_LIMIT;
        let s: u64 = bottom / 4096;
        let e: u64 = if top % 4096 == 0 {
            top / 4096
        } else {
            top / 4096 + 1
        };
        let t: u64 = trap_bottom / 4096;
        proof {
            assert(s == self.ustack_start_vpn());
            assert(e == self.ustack_end_vpn());
            assert(t == self.trap_cx_vpn());
            assert((trap_bottom + 4096 + 4095) / 4096 == t + 1);
        }
        if e > TRAMPOLINE_VPN {
            return Err(AreaError::InvalidRange);
        }
        if !ms.range_is_free(VirtPageNum(s), VirtPageNum(e)) || !ms.range_is_free(
            VirtPageNum(t),
            VirtPageNum(t + 1),
        ) || (s <= t && t < e) {
            return Err(AreaError::Overlap);
        }
        let need: u64 = MemorySet::frames_needed_of(VirtPageNum(s), VirtPageNum(e), MapType::Framed)
            + MemorySet::frames_needed_of(VirtPageNum(t), VirtPageNum(t + 1), MapType::Framed);
        if !fa.has_free(need) {
            return Err(AreaError::OutOfFrames);
        }
        let ghost s0 = *ms;
        let ghost m0 = mem@;
        let ghost fa0 = *fa;
        let r1 = ms.insert_framed_area(
            VirtAddr(bottom),
            VirtAddr(top),
            MapPermission { bits: PERM_R | PERM_W | PERM_U },
            fa,
            mem,
        );
        proof {
            assert(r1 is Ok);
            Self::lemma_still_free(
                s0,
                *ms,
                m0,
                mem@,
                fa0,
                *fa,
                s as int,
                e as int,
                MapPermission { bits: PERM_R | PERM_W | PERM_U },
                t as int,
                t + 1,
            );
        }
        let r2 = ms.insert_framed_area(
            VirtAddr(trap_bottom),
            VirtAddr(trap_bottom + 4096),
            MapPermission { bits: PERM_R | PERM_W },
            fa,
            mem,
        );
        proof {
            assert(r2 is Ok);
        }
        Ok(())
    }

    /// Gives the resources of the thread up: removes the area that starts
    /// at the first page of its user stack and the area that starts at its
    /// trap-context page from the address space `ms`, and frees their
    /// frames.  Tells for each whether there was such an area, and at which
    /// index.
    pub fn dealloc_user_res(
        &self,
        ms: &mut MemorySet,
        fa: &mut StackFrameAllocator,
        mem: &mut PhysMemory,
    ) -> (r: (Option<usize>, Option<usize>))
        requires
            self.valid(),
            old(ms).wf(old(mem)@),
            old(ms).frames_allocated(old(fa)),
            old(fa).wf(),
        ensures
            final(ms).wf(final(mem)@),
            final(ms).frames_allocated(final(fa)),
            final(fa).wf(),
            self.res_released(
                *old(ms),
                *final(ms),
                old(mem)@,
                final(mem)@,
                *old(fa),
                *final(fa),
                r,
            ),
    {
        let ghost s0 = *ms;
        let ghost m0 = mem@;
        let ghost fa0 = *fa;
        let bottom: u64 = ustack_bottom_from_tid(self.ustack_base, self.tid);
        let trap_bottom: u64 = trap_cx_bottom_from_tid(self.tid) % VA_LIMIT;
        let r0 = ms.remove_area_with_start_vpn(VirtPageNum(bottom / 4096), fa, mem);
        let ghost sm = *ms;
        let ghost mm = mem@;
        let ghost fam = *fa;
        let r1 = ms.remove_area_with_start_vpn(VirtPageNum(trap_bottom / 4096), fa, mem);
        proof {
            assert(area_taken(s0, sm, m0, mm, fa0, fam, self.ustack_start_vpn(), r0));
            assert(area_taken(sm, *ms, mm, mem@, fam, *fa, self.trap_cx_vpn(), r1));
            let r = (r0, r1);
            assert(area_taken(s0, sm, m0, mm, fa0, fam, self.ustack_start_vpn(), r.0));
            assert(area_taken(sm, *ms, mm, mem@, fam, *fa, self.trap_cx_vpn(), r.1));
            assert(self.res_released(s0, *ms, m0, mem@, fa0, *fa, r));
        }
        (r0, r1)
    }

    /// Gives the number of the thread, which is allocated, back to the
    /// allocator of its process.
    pub fn dealloc_tid(&self, allocator: &mut RecycleAllocator)
        requires
            old(allocator).wf(),
            old(allocator).is_allocated(self.tid as int),
        ensures
            final(allocator).wf(),
            final(allocator).current() == old(allocator).current(),
            final(allocator).recycled() == old(allocator).recycled().push(self.tid),
            forall|x: int|
                final(allocator).is_allocated(x) <==> old(allocator).is_allocated(x) && x
                    != self.tid,
    {
        allocator.dealloc(self.tid)
    }

    /// Whether the address space `ms` maps the trap-context page of the
    /// thread.
    pub fn has_trap_cx(&self, ms: &MemorySet, mem: &PhysMemory) -> (r: bool)
        requires
            self.valid(),
        ensures
            r == lookup(mem@, ms.page_table.root(), self.trap_cx_vpn()) is Some,
    {
        let trap_bottom: u64 = trap_cx_bottom_from_tid(self.tid) % VA_LIMIT;
        proof {
            assert(trap_bottom / 4096 == self.trap_cx_vpn());
        }
        ms.translate(VirtPageNum(trap_bottom / 4096), mem).is_some()
    }

    /// The frame to which the address space `ms` maps the trap-context page
    /// of the thread, which is mapped.
    pub fn trap_cx_ppn(&self, ms: &MemorySet, mem: &PhysMemory) -> (r: PhysPageNum)
        requires
            self.valid(),
            lookup(mem@, ms.page_table.root(), self.trap_cx_vpn()) is Some,
        ensures
            r.0 == pte_ppn(lookup(mem@, ms.page_table.root(), self.trap_cx_vpn())->0.bits),
    {
        let trap_bottom: u64 = trap_cx_bottom_from_tid(self.tid) % VA_LIMIT;
        proof {
            assert(trap_bottom / 4096 == self.trap_cx_vpn());
        }
        match ms.translate(VirtPageNum(trap_bottom / 4096), mem) {
            Some(e) => e.ppn(),
            None => PhysPageNum(0),
        }
    }

    /// The resources of a new thread of the process `process`, whose user
    /// stacks start at `ustack_base`: the thread gets the next number of
    /// the allocator of the process.  With `alloc_user_res`, its stack and
    /// its trap-context page are added to the address space `ms` of the
    /// process.
    ///
    /// Refused, with nothing changed, when the stack and the page are asked
    /// for and [`TaskUserRes::res_error`] refuses them.
    pub fn new(
        allocator: &mut RecycleAllocator,
        process: usize,
        ustack_base: u64,
        alloc_user_res: bool,
        ms: &mut MemorySet,
        fa: &mut StackFrameAllocator,
        mem: &mut PhysMemory,
    ) -> (r: Result<TaskUserRes, AreaError>)
        requires
            old(allocator).wf(),
            old(allocator).next() <= usize::MAX,
            (TaskUserRes {
                tid: old(allocator).next() as usize,
                ustack_base,
                process,
            }).valid(),
            old(ms).wf(old(mem)@),
            old(ms).frames_allocated(old(fa)),
            old(fa).wf(),
            old(fa).end() <= old(mem)@.len(),
            old(fa).end() <= PPN_LIMIT,
        ensures
            final(allocator).wf(),
            r matches Err(e) ==> {
                &&& alloc_user_res
                &&& (TaskUserRes {
                    tid: old(allocator).next() as usize,
                    ustack_base,
                    process,
                }).res_error(*old(ms), old(fa).free() as int) == Some(e)
                &&& *final(allocator) == *old(allocator)
                &&& *final(ms) == *old(ms)
                &&& final(mem)@ == old(mem)@
                &&& *final(fa) == *old(fa)
            },
            r matches Ok(res) ==> {
                &&& res == (TaskUserRes {
                    tid: old(allocator).next() as usize,
                    ustack_base,
                    process,
                })
                &&& forall|id: int|
                    final(allocator).is_allocated(id) <==> old(allocator).is_allocated(id) || id
                        == res.tid
                &&& !alloc_user_res ==> *final(ms) == *old(ms) && final(mem)@ == old(mem)@
                    && *final(fa) == *old(fa)
                &&& alloc_user_res ==> res.res_error(*old(ms), old(fa).free() as int) is None
                    && res.res_allocated(
                    *old(ms),
                    *final(ms),
                    old(mem)@,
                    final(mem)@,
                    *old(fa),
                    *final(fa),
                )
            },
    {
        let res = TaskUserRes { tid: allocator.peek(), ustack_base, process };
        if alloc_user_res {
            match res.alloc_user_res(ms, fa, mem) {
                Ok(()) => {},
                Err(e) => {
                    return Err(e);
                },
            }
        }
        let tid: usize = allocator.alloc_id();
        Ok(res)
    }
}

} // verus!
