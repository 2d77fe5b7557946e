//! The areas of the kernel address space that are mapped to themselves:
//! the code and the data of the kernel, and the memory that it manages.

use vstd::prelude::*;
use crate::config::TRAMPOLINE_VPN;
use crate::mm::address::VirtAddr;
use crate::mm::memory_set::{frames_needed, AreaError, MapArea, MapPermission, MapType, MemorySet};
use crate::mm::spaces::lemma_appended_step;
use crate::task::kernel::Kernel;

verus! {

impl Kernel {
    /// Why the pages that `[start_va, end_va)` touches cannot be mapped to
    /// themselves in the kernel address space, if they cannot: the range is
    /// inverted or reaches the trampoline page; a page of it lies in an
    /// area; or the nodes of the page table that may be missing are not
    /// free.
    pub open spec fn kernel_area_error(&self, start_va: VirtAddr, end_va: VirtAddr) -> Option<
        AreaError,
    > {
        let s = start_va.0 as int / 4096;
        let e = (end_va.0 + 4095) / 4096;
        if s > e || e > TRAMPOLINE_VPN {
            Some(AreaError::InvalidRange)
        } else if self.kernel_space.overlaps(s, e) {
            Some(AreaError::Overlap)
        } else if self.frame_allocator.free() < frames_needed(s, e, MapType::Identical) {
            Some(AreaError::OutOfFrames)
        } else {
            None
        }
    }

    /// What the kernel `k1` is after the pages that `[start_va, end_va)`
    /// touches have been mapped to themselves in the kernel address space
    /// of the kernel `k0` with the rights `perm`: the kernel address space
    /// has a new area, the last of the list, and only nodes of its page
    /// table were taken and written.
    pub open spec fn kernel_area_mapped(
        k0: Kernel,
        k1: Kernel,
        start_va: VirtAddr,
        end_va: VirtAddr,
        perm: MapPermission,
    ) -> bool {
        &&& k1 == (Kernel {
            mem: k1.mem,
            frame_allocator: k1.frame_allocator,
            kernel_space: k1.kernel_space,
            ..k0
        })
        &&& MemorySet::appended(
            k0.kernel_space,
            k1.kernel_space,
            k0.mem@,
            k1.mem@,
            k0.frame_allocator,
            k1.frame_allocator,
            start_va.0 as int / 4096,
            (end_va.0 + 4095) / 4096,
            MapType::Identical,
            perm,
            Seq::<u8>::empty(),
        )
    }

    /// Maps the pages that `[start_va, end_va)` touches to themselves in
    /// the kernel address space, with the rights `perm`: a part of the
    /// kernel image, or memory that the kernel manages.
    ///
    /// Refused, with nothing changed, when [`Kernel::kernel_area_error`]
    /// says so.
    pub fn map_kernel_area(&mut self, start_va: VirtAddr, end_va: VirtAddr, perm: MapPermission) -> (r:
        Result<(), AreaError>)
        requires
            old(self).wf(),
        ensures
            final(self).wf(),
            r matches Err(e) ==> old(self).kernel_area_error(start_va, end_va) == Some(e)
                && *final(self) == *old(self),
            r is Ok ==> old(self).kernel_area_error(start_va, end_va) is None
                && Self::kernel_area_mapped(*old(self), *final(self), start_va, end_va, perm),
    {
        let ghost k0 = *self;
        proof {
            k0.lemma_wf_kernel();
        }
        let area = MapArea::new(start_va, end_va, MapType::Identical, perm);
        if area.start.0 > area.end.0 || area.end.0 > TRAMPOLINE_VPN {
            return Err(AreaError::InvalidRange);
        }
        if !self.kernel_space.range_is_free(area.start, area.end) {
            return Err(AreaError::Overlap);
        }
        if !self.frame_allocator.has_free(
            MemorySet::frames_needed_of(area.start, area.end, MapType::Identical),
        ) {
            return Err(AreaError::OutOfFrames);
        }
        let r = self.kernel_space.push(area, None, &mut self.frame_allocator, &mut self.mem);
        proof {
            assert(r is Ok);
            if r is Ok {
                lemma_appended_step(
                    k0.kernel_space,
                    self.kernel_space,
                    k0.mem@,
                    self.mem@,
                    k0.frame_allocator,
                    self.frame_allocator,
                    start_va.0 as int / 4096,
                    (end_va.0 + 4095) / 4096,
                    MapType::Identical,
                    perm,
                    Seq::<u8>::empty(),
                );
                k0.lemma_kernel_space_step(self);
            }
        }
        r
    }
}

} // verus!
