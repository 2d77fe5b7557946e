//! System calls that add an area to the address space of the process that
//! runs, and take one away.

use vstd::prelude::*;
use crate::config::{TRAMPOLINE_VPN, TRAP_CONTEXT_VPN};
use crate::mm::address::{VirtAddr, VirtPageNum};
use crate::mm::memory_set::{
    frames_needed, MapPermission, MapType, MemorySet, PERM_R, PERM_U, PERM_W, PERM_X,
};
use crate::mm::page_table::lookup;
use crate::mm::spaces::{lemma_appended_step, lemma_removed_step};
use crate::task::kernel::Kernel;
use crate::task::process::{ProcessControlBlock, ProcessControlBlockInner};

verus! {

/// The pages of the mapping can be read.
pub const PROT_READ: usize = 1;

/// The pages of the mapping can be written.
pub const PROT_WRITE: usize = 2;

/// The pages of the mapping can be executed.
pub const PROT_EXEC: usize = 4;

/// The rights of a mapping with the protection bits `prot`: user access,
/// and read, write and execute as the bits say.
pub open spec fn prot_perm(prot: usize) -> MapPermission {
    MapPermission {
        bits: (PERM_U + (if prot % 2 == 1 {
            PERM_R
        } else {
            0u8
        }) + (if (prot / 2) % 2 == 1 {
            PERM_W
        } else {
            0u8
        }) + (if (prot / 4) % 2 == 1 {
            PERM_X
        } else {
            0u8
        })) as u8,
    }
}

/// The rights of a mapping with the protection bits `prot`.
pub fn prot_perm_of(prot: usize) -> (r: MapPermission)
    ensures
        r == prot_perm(prot),
{
    let r: u8 = if prot % 2 == 1 {
        PERM_R
    } else {
        0
    };
    let w: u8 = if (prot / 2) % 2 == 1 {
        PERM_W
    } else {
        0
    };
    let x: u8 = if (prot / 4) % 2 == 1 {
        PERM_X
    } else {
        0
    };
    MapPermission { bits: PERM_U + r + w + x }
}

/// First page of the range of `len` bytes at the address `start`.
pub open spec fn range_start(start: u64) -> int {
    start as int / 4096
}

/// The page after the last page of the range of `len` bytes at the address
/// `start`.
pub open spec fn range_end(start: u64, len: usize) -> int {
    (start + len + 4095) / 4096
}

/// Whether the kernel `k1` is the kernel `k0` but for the address space of
/// the process that runs, the memory and the frame allocator.
pub open spec fn space_changed(k0: Kernel, k1: Kernel) -> bool {
    let pid = k0.current->0 as int;
    &&& k1 == (Kernel {
        mem: k1.mem,
        frame_allocator: k1.frame_allocator,
        processes: k1.processes,
        ..k0
    })
    &&& k1.processes@.len() == k0.processes@.len()
    &&& forall|q: int|
        0 <= q < k0.processes@.len() && q != pid ==> (#[trigger] k1.processes@[q])
            == k0.processes@[q]
    &&& k1.has_process(pid)
    &&& k1.pcb(pid) == (ProcessControlBlock {
        inner: ProcessControlBlockInner {
            memory_set: k1.pcb(pid).inner.memory_set,
            ..k0.pcb(pid).inner
        },
        ..k0.pcb(pid)
    })
}

/// Whether the process that runs can map the `len` bytes at the address
/// `start` with the protection bits `prot`: the address is a multiple of
/// the page size; the bits name a right and nothing else; and, unless
/// `len` is zero, the pages of the range lie below the trampoline page,
/// none of them lies in an area, and the frames that the area may need are
/// free.
pub open spec fn mmap_ok(k: Kernel, start: u64, len: usize, prot: usize) -> bool {
    let s = range_start(start);
    let e = range_end(start, len);
    &&& start % 4096 == 0
    &&& 0 < prot <= 7
    &&& len > 0 ==> {
        &&& e <= TRAMPOLINE_VPN
        &&& !k.space(k.current->0 as int).overlaps(s, e)
        &&& k.frame_allocator.free() >= frames_needed(s, e, MapType::Framed)
    }
}

/// What the kernel `k1` is after the process that runs in the kernel `k0`
/// has mapped the `len` bytes at the address `start` with the protection
/// bits `prot`: its address space has a new area of zeroed pages, the last
/// of the list, with the rights of the bits and user access; nothing else
/// has changed.
pub open spec fn mapped(k0: Kernel, k1: Kernel, start: u64, len: usize, prot: usize) -> bool {
    let pid = k0.current->0 as int;
    &&& space_changed(k0, k1)
    &&& MemorySet::appended(
        k0.space(pid),
        k1.space(pid),
        k0.mem@,
        k1.mem@,
        k0.frame_allocator,
        k1.frame_allocator,
        range_start(start),
        range_end(start, len),
        MapType::Framed,
        prot_perm(prot),
        Seq::<u8>::empty(),
    )
}

/// An area that is added to the address space of a living process leaves
/// its trap-context page where it is.
proof fn lemma_mapped_live(
    k0: Kernel,
    s1: MemorySet,
    m1: Seq<Seq<u64>>,
    fa1: crate::mm::frame_allocator::StackFrameAllocator,
    pid: int,
    start: int,
    end: int,
    perm: MapPermission,
)
    requires
        k0.wf(),
        k0.is_live(pid),
        MemorySet::appended(
            k0.space(pid),
            s1,
            k0.mem@,
            m1,
            k0.frame_allocator,
            fa1,
            start,
            end,
            MapType::Framed,
            perm,
            Seq::<u8>::empty(),
        ),
    ensures
        Kernel::trap_mapped(s1, m1, k0.trap_frame(pid)),
        Kernel::all_framed(s1),
        s1.trampoline == Some(k0.trampoline),
{
    let s0 = k0.space(pid);
    let v = TRAP_CONTEXT_VPN as int;
    k0.lemma_wf_process(pid);
    s0.lemma_wf_facts(k0.mem@);
    reveal(MemorySet::appended);
    s1.lemma_wf_facts(m1);
    assert(s0.covered(v));
    let a = choose|a: int| 0 <= a < s0.areas@.len() && (#[trigger] s0.areas@[a]).has_page(v);
    assert(s1.areas@[a] == s0.areas@[a]);
    assert(s1.areas@[a].has_page(v));
    assert(lookup(m1, s1.page_table.root(), v) == Some(s1.areas@[a].entry_of(v)));
    assert(lookup(k0.mem@, s0.page_table.root(), v) == Some(s0.areas@[a].entry_of(v)));
    assert forall|b: int| 0 <= b < s1.areas@.len() implies (#[trigger] s1.areas@[b]).map_type
        == MapType::Framed by {
        if b < s0.areas@.len() {
            assert(s1.areas@[b] == s0.areas@[b]);
        } else {
            assert(s1.areas@[b] == s1.areas@.last());
        }
    }
}

/// What the system call that maps a range makes of the kernel `k0`, with
/// the result `r`: see [`sys_mmap`].
pub open spec fn range_mapped(k0: Kernel, k1: Kernel, start: u64, len: usize, prot: usize, r: isize) -> bool {
    &&& r == 0 <==> mmap_ok(k0, start, len, prot)
    &&& r != 0 ==> r == -1 && k1 == k0
    &&& r == 0 && len == 0 ==> k1 == k0
    &&& r == 0 && len > 0 ==> mapped(k0, k1, start, len, prot)
}

/// The process that runs maps the `len` bytes at the address `start`, for
/// the use that the protection bits `prot` name: the pages of the range
/// become a new area of its address space, zeroed, each in a frame of its
/// own.
///
/// Returns 0, or -1 with nothing changed when [`mmap_ok`] does not hold.
/// A range of no bytes changes nothing.
pub fn sys_mmap(kernel: &mut Kernel, start: u64, len: usize, prot: usize) -> (r: isize)
    requires
        old(kernel).wf(),
        old(kernel).current is Some,
    ensures
        final(kernel).wf(),
        range_mapped(*old(kernel), *final(kernel), start, len, prot, r),
{
    let ghost k0 = *kernel;
    proof {
        k0.lemma_wf_kernel();
        k0.lemma_wf_process(k0.current->0 as int);
    }
    if start % 4096 != 0 || prot == 0 || prot > 7 {
        return -1;
    }
    if len == 0 {
        return 0;
    }
    let end: u64 = match start.checked_add(len as u64) {
        Some(e) => e,
        None => {
            return -1;
        },
    };
    let s: u64 = start / 4096;
    let e: u64 = if end % 4096 == 0 {
        end / 4096
    } else {
        end / 4096 + 1
    };
    proof {
        assert(s == range_start(start));
        assert(e == range_end(start, len));
    }
    if e > TRAMPOLINE_VPN {
        return -1;
    }
    let pid: usize = kernel.current.unwrap();
    let perm = prot_perm_of(prot);
    let need: u64 = MemorySet::frames_needed_of(VirtPageNum(s), VirtPageNum(e), MapType::Framed);
    let fits: bool = kernel.frame_allocator.has_free(need);
    let free: bool = match &kernel.processes[pid] {
        Some(p) => p.inner.memory_set.range_is_free(VirtPageNum(s), VirtPageNum(e)),
        None => false,
    };
    if !free || !fits {
        return -1;
    }
    match &mut kernel.processes[pid] {
        Some(p) => {
            let res = p.inner.memory_set.insert_framed_area(
                VirtAddr(start),
                VirtAddr(end),
                perm,
                &mut kernel.frame_allocator,
                &mut kernel.mem,
            );
            proof {
                assert(res is Ok);
            }
        },
        None => {},
    }
    proof {
        let s0 = k0.space(pid as int);
        let s1 = kernel.space(pid as int);
        assert(MemorySet::appended(
            s0,
            s1,
            k0.mem@,
            kernel.mem@,
            k0.frame_allocator,
            kernel.frame_allocator,
            s as int,
            e as int,
            MapType::Framed,
            perm,
            Seq::<u8>::empty(),
        ));
        lemma_appended_step(
            s0,
            s1,
            k0.mem@,
            kernel.mem@,
            k0.frame_allocator,
            kernel.frame_allocator,
            s as int,
            e as int,
            MapType::Framed,
            perm,
            Seq::<u8>::empty(),
        );
        lemma_mapped_live(
            k0,
            s1,
            kernel.mem@,
            kernel.frame_allocator,
            pid as int,
            s as int,
            e as int,
            perm,
        );
        k0.lemma_process_space_step(kernel, pid as int);
    }
    0
}

/// Whether area `i` of the address space of the process that runs is the
/// one that an unmapping of the `len` bytes at the address `start` takes
/// away: it is the first area that starts at the first page of the range,
/// it ends where the range ends, and it lies below the trap-context page.
pub open spec fn munmap_area(k: Kernel, start: u64, len: usize, i: int) -> bool {
    let areas = k.space(k.current->0 as int).areas@;
    &&& 0 <= i < areas.len()
    &&& areas[i].start.0 == range_start(start)
    &&& areas[i].end.0 == range_end(start, len)
    &&& forall|a: int| 0 <= a < i ==> (#[trigger] areas[a]).start.0 != range_start(start)
    &&& range_end(start, len) <= TRAP_CONTEXT_VPN
}

/// Whether the process that runs can unmap the `len` bytes at the address
/// `start`: the address is a multiple of the page size, and, unless `len`
/// is zero, the range is that of an area as [`munmap_area`] says.
pub open spec fn munmap_ok(k: Kernel, start: u64, len: usize) -> bool {
    &&& start % 4096 == 0
    &&& len > 0 ==> exists|i: int| munmap_area(k, start, len, i)
}

/// What the kernel `k1` is after the process that runs in the kernel `k0`
/// has unmapped area `i` of its address space: the pages of the area are
/// not mapped any more and their frames are free; nothing else has
/// changed.
pub open spec fn unmapped(k0: Kernel, k1: Kernel, i: int) -> bool {
    let pid = k0.current->0 as int;
    &&& space_changed(k0, k1)
    &&& MemorySet::removed(
        k0.space(pid),
        k1.space(pid),
        k0.mem@,
        k1.mem@,
        k0.frame_allocator,
        k1.frame_allocator,
        i,
    )
}

/// The first area of the address space `ms` that starts at the page `s`,
/// if there is one.
fn first_area_at(ms: &MemorySet, s: u64) -> (r: Option<usize>)
    ensures
        r is None ==> forall|a: int|
            0 <= a < ms.areas@.len() ==> (#[trigger] ms.areas@[a]).start.0 != s,
        r matches Some(i) ==> i < ms.areas@.len() && ms.areas@[i as int].start.0 == s && forall|
            a: int,
        | 0 <= a < i ==> (#[trigger] ms.areas@[a]).start.0 != s,
{
    let mut i: usize = 0;
    while i < ms.areas.len()
        invariant
            i <= ms.areas@.len(),
            forall|a: int| 0 <= a < i ==> (#[trigger] ms.areas@[a]).start.0 != s,
        decreases ms.areas@.len() - i,
    {
        if ms.areas[i].start.0 == s {
            return Some(i);
        }
        i = i + 1;
    }
    None
}

/// What the system call that unmaps a range makes of the kernel `k0`, with
/// the result `r`: see [`sys_munmap`].
pub open spec fn range_unmapped(k0: Kernel, k1: Kernel, start: u64, len: usize, r: isize) -> bool {
    &&& r == 0 <==> munmap_ok(k0, start, len)
    &&& r != 0 ==> r == -1 && k1 == k0
    &&& r == 0 && len == 0 ==> k1 == k0
    &&& r == 0 && len > 0 ==> exists|i: int| #[trigger]
                munmap_area(k0, start, len, i) && unmapped(k0, k1, i)
}

/// The process that runs unmaps the `len` bytes at the address `start`:
/// the area of its address space with just these pages is taken away, and
/// the frames of the pages are free again.
///
/// Returns 0, or -1 with nothing changed when [`munmap_ok`] does not hold.
/// A range of no bytes changes nothing.
pub fn sys_munmap(kernel: &mut Kernel, start: u64, len: usize) -> (r: isize)
    requires
        old(kernel).wf(),
        old(kernel).current is Some,
    ensures
        final(kernel).wf(),
        range_unmapped(*old(kernel), *final(kernel), start, len, r),
{
    let ghost k0 = *kernel;
    proof {
        k0.lemma_wf_kernel();
        k0.lemma_wf_process(k0.current->0 as int);
    }
    if start % 4096 != 0 {
        return -1;
    }
    if len == 0 {
        return 0;
    }
    let pid: usize = kernel.current.unwrap();
    let ghost areas = k0.space(pid as int).areas@;
    let end: u64 = match start.checked_add(len as u64) {
        Some(e) => e,
        None => {
            proof {
                assert(range_end(start, len) > TRAP_CONTEXT_VPN);
            }
            return -1;
        },
    };
    let s: u64 = start / 4096;
    let e: u64 = if end % 4096 == 0 {
        end / 4096
    } else {
        end / 4096 + 1
    };
    proof {
        assert(s == range_start(start));
        assert(e == range_end(start, len));
    }
    if e > TRAP_CONTEXT_VPN {
        return -1;
    }
    let found: Option<usize> = match &kernel.processes[pid] {
        Some(p) => match first_area_at(&p.inner.memory_set, s) {
            Some(i) => if p.inner.memory_set.areas[i].end.0 == e {
                Some(i)
            } else {
                None
            },
            None => None,
        },
        None => None,
    };
    let i: usize = match found {
        Some(i) => i,
        None => {
            proof {
                if exists|j: int| munmap_area(k0, start, len, j) {
                    let j = choose|j: int| munmap_area(k0, start, len, j);
                    assert(areas[j].start.0 == s);
                }
            }
            return -1;
        },
    };
    proof {
        assert(munmap_area(k0, start, len, i as int));
    }
    match &mut kernel.processes[pid] {
        Some(p) => {
            let _ = p.inner.memory_set.remove_area_with_start_vpn(
                VirtPageNum(s),
                &mut kernel.frame_allocator,
                &mut kernel.mem,
            );
        },
        None => {},
    }
    proof {
        let s0 = k0.space(pid as int);
        let s1 = kernel.space(pid as int);
        assert(MemorySet::removed(
            s0,
            s1,
            k0.mem@,
            kernel.mem@,
            k0.frame_allocator,
            kernel.frame_allocator,
            i as int,
        ));
        lemma_removed_step(
            s0,
            s1,
            k0.mem@,
            kernel.mem@,
            k0.frame_allocator,
            kernel.frame_allocator,
            i as int,
        );
        assert(!s0.areas@[i as int].has_page(TRAP_CONTEXT_VPN as int));
        assert(Kernel::all_framed(s1)) by {
            assert forall|b: int| 0 <= b < s1.areas@.len() implies (#[trigger] s1.areas@[b]).map_type
                == MapType::Framed by {
                if b < i {
                    assert(s1.areas@[b] == s0.areas@[b]);
                } else {
                    assert(s1.areas@[b] == s0.areas@[b + 1]);
                }
            }
        }
        k0.lemma_process_space_step(kernel, pid as int);
        assert(unmapped(k0, *kernel, i as int));
    }
    0
}

} // verus!
