//! Building the address space of a program from its ELF image.

use vstd::prelude::*;
use vstd::slice::slice_subrange;
use crate::config::{PPN_LIMIT, TRAMPOLINE, TRAMPOLINE_VPN, TRAP_CONTEXT_BASE, TRAP_CONTEXT_VPN};
use crate::mm::address::{PhysPageNum, VirtAddr, VirtPageNum};
use crate::mm::elf::{
    header_error, header_of, parse_header, parse_program_header, program_header_of, ElfError,
    ElfHeader, ProgramHeader, PF_R, PF_W, PF_X, PT_LOAD,
};
use crate::mm::frame_allocator::StackFrameAllocator;
use crate::mm::memory::{frame_bytes, PhysMemory};
use crate::mm::memory_set::{
    frames_needed, MapArea, MapPermission, MapType, MemorySet, PERM_R, PERM_U, PERM_W, PERM_X,
};

verus! {

/// First address above the part of the address space that segments may use
/// (2^38): the stack and its guard page follow the last segment and stay
/// below the trap-context pages.
pub const SEGMENT_LIMIT: u64 = 0x40_0000_0000;

/// Why a program could not be loaded.
#[derive(Copy, Clone, Debug, PartialEq, Eq, Structural)]
pub enum LoadError {
    /// The image is not an ELF executable that this loader reads.
    Elf(ElfError),
    /// A loadable segment reaches beyond the image, is larger in the file
    /// than in memory, does not start at a page boundary, reaches beyond
    /// [`SEGMENT_LIMIT`], or starts in a page of the segment before it.
    BadSegment,
    /// The allocator does not hold the frames that the program may need.
    OutOfFrames,
}

/// The loadable entries among the first `n` program headers, in file order.
pub open spec fn load_segments(b: Seq<u8>, n: int) -> Seq<ProgramHeader>
    decreases n,
{
    if n <= 0 {
        Seq::empty()
    } else {
        let rest = load_segments(b, n - 1);
        let ph = program_header_of(b, n - 1);
        if ph.p_type == PT_LOAD {
            rest.push(ph)
        } else {
            rest
        }
    }
}

/// The loadable segments of an image with a good header.
pub open spec fn loads(b: Seq<u8>) -> Seq<ProgramHeader> {
    load_segments(b, header_of(b).phnum as int)
}

/// First page of a segment.
pub open spec fn seg_start(ph: ProgramHeader) -> int {
    ph.vaddr as int / 4096
}

/// The page after the last page of a segment.
pub open spec fn seg_end(ph: ProgramHeader) -> int {
    (ph.vaddr + ph.memsz + 4095) / 4096
}

/// The page after the last page of the segments before index `i`.
pub open spec fn floor_before(segs: Seq<ProgramHeader>, i: int) -> int {
    if i <= 0 {
        0
    } else {
        seg_end(segs[i - 1])
    }
}

/// Whether a segment can be loaded from an image of `file_len` bytes above
/// the page `floor`.
pub open spec fn segment_ok(ph: ProgramHeader, file_len: int, floor: int) -> bool {
    &&& ph.offset + ph.filesz <= file_len
    &&& ph.filesz <= ph.memsz
    &&& ph.vaddr % 4096 == 0
    &&& ph.vaddr + ph.memsz <= SEGMENT_LIMIT
    &&& seg_start(ph) >= floor
}

/// Whether every segment can be loaded, each above the one before it.
pub open spec fn segments_ok(segs: Seq<ProgramHeader>, file_len: int) -> bool {
    forall|i: int|
        0 <= i < segs.len() ==> segment_ok(#[trigger] segs[i], file_len, floor_before(segs, i))
}

/// The rights of a segment with the flags `flags`: user access, and read,
/// write and execute as the flags say.
pub open spec fn segment_perm(flags: u32) -> MapPermission {
    MapPermission {
        bits: (PERM_U + (if flags & PF_R != 0 {
            PERM_R
        } else {
            0u8
        }) + (if flags & PF_W != 0 {
            PERM_W
        } else {
            0u8
        }) + (if flags & PF_X != 0 {
            PERM_X
        } else {
            0u8
        })) as u8,
    }
}

/// First page of the user stack: one guard page above the last segment.
pub open spec fn stack_base_vpn(segs: Seq<ProgramHeader>) -> int {
    floor_before(segs, segs.len() as int) + 1
}

/// The frames that must be free before the segments from index `from` on
/// are loaded.
pub open spec fn segs_need(segs: Seq<ProgramHeader>, from: int) -> int
    decreases segs.len() - from,
{
    if from < 0 || from >= segs.len() {
        0
    } else {
        frames_needed(seg_start(segs[from]), seg_end(segs[from]), MapType::Framed) + segs_need(
            segs,
            from + 1,
        )
    }
}

/// The frames that must be free before the stack and the trap-context page
/// are mapped.
pub open spec fn tail_need(segs: Seq<ProgramHeader>) -> int {
    frames_needed(stack_base_vpn(segs), stack_base_vpn(segs) + 2, MapType::Framed) + frames_needed(
        TRAP_CONTEXT_VPN as int,
        TRAMPOLINE_VPN as int,
        MapType::Framed,
    )
}

/// The frames that must be free before a program is loaded: one for the
/// root of the page table, two for the path of the trampoline page, and the
/// worst case for every segment, the stack and the trap-context page.
pub open spec fn load_need(b: Seq<u8>) -> int {
    3 + segs_need(loads(b), 0) + tail_need(loads(b))
}

/// Why loading the image `b` is refused when `free` frames are free, if it
/// is.
pub open spec fn load_error(b: Seq<u8>, free: int) -> Option<LoadError> {
    match header_error(b) {
        Some(e) => Some(LoadError::Elf(e)),
        None => if !segments_ok(loads(b), b.len() as int) {
            Some(LoadError::BadSegment)
        } else if free < load_need(b) {
            Some(LoadError::OutOfFrames)
        } else {
            None
        },
    }
}

/// Initial user stack pointer of the program in image `b`: the top of the
/// stack of thread 0.
pub open spec fn initial_sp(b: Seq<u8>) -> int {
    (stack_base_vpn(loads(b)) + 2) * 4096
}

/// [`segs_need`] is never negative.
pub proof fn lemma_segs_need_nonneg(segs: Seq<ProgramHeader>, from: int)
    ensures
        segs_need(segs, from) >= 0,
    decreases segs.len() - from,
{
    if 0 <= from < segs.len() {
        lemma_segs_need_nonneg(segs, from + 1);
    }
}

/// Adding a segment at the end adds its need to the total.
pub proof fn lemma_segs_need_push(segs: Seq<ProgramHeader>, ph: ProgramHeader, from: int)
    requires
        0 <= from <= segs.len(),
    ensures
        segs_need(segs.push(ph), from) == segs_need(segs, from) + frames_needed(
            seg_start(ph),
            seg_end(ph),
            MapType::Framed,
        ),
    decreases segs.len() - from,
{
    let s2 = segs.push(ph);
    if from < segs.len() {
        lemma_segs_need_push(segs, ph, from + 1);
        assert(s2[from] == segs[from]);
    } else {
        assert(s2[from] == ph);
        assert(segs_need(s2, from + 1) == 0);
    }
}

/// Whether area `a` is the loaded image of segment `ph` of the image `b`
/// in the memory `m`.
pub open spec fn area_holds_segment(a: MapArea, ph: ProgramHeader, b: Seq<u8>, m: Seq<Seq<u64>>) -> bool {
    &&& a.start.0 == seg_start(ph)
    &&& a.end.0 == seg_end(ph)
    &&& a.map_type == MapType::Framed
    &&& a.map_perm == segment_perm(ph.flags)
    &&& forall|k: int|
        0 <= k < a.end.0 - a.start.0 ==> frame_bytes(m[(#[trigger] a.data_frames@[k]).ppn.0 as int])
            == MemorySet::page_bytes(
            b.subrange(ph.offset as int, ph.offset + ph.filesz),
            k,
        )
}

/// Whether area `a` covers the pages `[start, end)` with the rights `perm`
/// and zeroed frames of its own in the memory `m`.
pub open spec fn area_is_zeroed(a: MapArea, start: int, end: int, perm: u8, m: Seq<Seq<u64>>) -> bool {
    &&& a.start.0 == start
    &&& a.end.0 == end
    &&& a.map_type == MapType::Framed
    &&& a.map_perm.bits == perm
    &&& forall|k: int|
        0 <= k < end - start ==> frame_bytes(m[(#[trigger] a.data_frames@[k]).ppn.0 as int])
            == MemorySet::page_bytes(Seq::<u8>::empty(), k)
}

/// What the address space of a freshly loaded program is: one area per
/// loadable segment, in file order, with the bytes of the segment and then
/// zeros; above the last segment an unmapped guard page and the user stack
/// of two zeroed pages; the trap-context page of thread 0; and the
/// trampoline page.  Every frame of it was free before, and no frame
/// outside it was written.
pub open spec fn loaded(
    b: Seq<u8>,
    ms: MemorySet,
    trampoline: PhysPageNum,
    m0: Seq<Seq<u64>>,
    m1: Seq<Seq<u64>>,
    fa0: StackFrameAllocator,
    fa1: StackFrameAllocator,
) -> bool {
    let segs = loads(b);
    let n = segs.len() as int;
    &&& ms.wf(m1)
    &&& ms.frames_allocated(&fa1)
    &&& fa1.wf()
    &&& fa1.start() == fa0.start()
    &&& fa1.end() == fa0.end()
    &&& m1.len() == m0.len()
    &&& ms.trampoline == Some(trampoline)
    &&& ms.areas@.len() == n + 2
    &&& forall|i: int| 0 <= i < n ==> area_holds_segment(#[trigger] ms.areas@[i], segs[i], b, m1)
    &&& area_is_zeroed(
        ms.areas@[n],
        stack_base_vpn(segs),
        stack_base_vpn(segs) + 2,
        PERM_R | PERM_W | PERM_U,
        m1,
    )
    &&& area_is_zeroed(
        ms.areas@[n + 1],
        TRAP_CONTEXT_VPN as int,
        TRAMPOLINE_VPN as int,
        PERM_R | PERM_W,
        m1,
    )
    &&& forall|p: int| ms.owns(p) ==> !fa0.is_allocated(p)
    &&& forall|p: int| fa1.is_allocated(p) <==> fa0.is_allocated(p) || ms.owns(p)
    &&& forall|p: int| 0 <= p < m0.len() && !ms.owns(p) ==> (#[trigger] m1[p]) == m0[p]
    &&& fa1.free() >= fa0.free() - load_need(b)
}

/// The rights of a segment with the flags `flags`.
pub fn segment_perm_of(flags: u32) -> (r: MapPermission)
    ensures
        r == segment_perm(flags),
{
    let mut bits: u8 = PERM_U;
    if flags & PF_R != 0 {
        bits = bits + PERM_R;
    }
    if flags & PF_W != 0 {
        bits = bits + PERM_W;
    }
    if flags & PF_X != 0 {
        bits = bits + PERM_X;
    }
    MapPermission { bits }
}

/// Reads the loadable segments of an image with a good header and checks
/// them.  `None` exactly when a segment cannot be loaded.
pub fn read_segments(data: &[u8], h: &ElfHeader) -> (r: Option<Vec<ProgramHeader>>)
    requires
        header_error(data@) is None,
        *h == header_of(data@),
    ensures
        r is Some <==> segments_ok(loads(data@), data@.len() as int),
        r matches Some(segs) ==> segs@ == loads(data@),
{
    let mut segs: Vec<ProgramHeader> = Vec::new();
    let mut floor: u64 = 0;
    let mut i: u16 = 0;
    let len: usize = data.len();
    while i < h.phnum
        invariant
            header_error(data@) is None,
            *h == header_of(data@),
            len == data@.len(),
            i <= h.phnum,
            segs@ == load_segments(data@, i as int),
            segments_ok(segs@, data@.len() as int),
            floor == floor_before(segs@, segs@.len() as int),
            floor <= 0x400_0000,
        decreases h.phnum - i,
    {
        let ph = parse_program_header(data, h, i);
        if ph.p_type == PT_LOAD {
            let ok: bool = ph.offset <= len as u64 && ph.filesz <= len as u64 - ph.offset
                && ph.filesz <= ph.memsz && ph.vaddr % 4096 == 0 && ph.vaddr <= SEGMENT_LIMIT
                && ph.memsz <= SEGMENT_LIMIT - ph.vaddr && ph.vaddr / 4096 >= floor;
            let ghost old_segs = segs@;
            if !ok {
                proof {
                    let all = loads(data@);
                    lemma_loads_prefix(data@, i as int + 1, h.phnum as int);
                    let k = old_segs.len() as int;
                    assert(load_segments(data@, i as int + 1) == old_segs.push(ph));
                    assert(all[k] == ph);
                    assert(floor_before(all, k) == floor) by {
                        if k > 0 {
                            assert(all[k - 1] == old_segs[k - 1]);
                        }
                    }
                    assert(!segment_ok(all[k], data@.len() as int, floor_before(all, k)));
                }
                return None;
            }
            segs.push(ph);
            floor = (ph.vaddr + ph.memsz + 4095) / 4096;
            proof {
                assert forall|j: int| 0 <= j < segs@.len() implies segment_ok(
                    #[trigger] segs@[j],
                    data@.len() as int,
                    floor_before(segs@, j),
                ) by {
                    if j < old_segs.len() {
                        assert(segs@[j] == old_segs[j]);
                        assert(segment_ok(old_segs[j], data@.len() as int, floor_before(old_segs, j)));
                        if j > 0 {
                            assert(segs@[j - 1] == old_segs[j - 1]);
                        }
                    } else {
                        if j > 0 {
                            assert(segs@[j - 1] == old_segs[j - 1]);
                        }
                    }
                }
            }
        }
        i = i + 1;
    }
    Some(segs)
}

/// The loadable segments among the first `i` headers are the first of
/// those among the first `n`.
pub proof fn lemma_loads_prefix(b: Seq<u8>, i: int, n: int)
    requires
        0 <= i <= n,
    ensures
        load_segments(b, i).len() <= load_segments(b, n).len(),
        forall|k: int|
            0 <= k < load_segments(b, i).len() ==> #[trigger] load_segments(b, n)[k]
                == load_segments(b, i)[k],
    decreases n - i,
{
    if i < n {
        lemma_loads_prefix(b, i, n - 1);
    }
}

} // verus!

verus! {

/// In a list of good segments, a segment ends at or before the start of
/// every later one, and no segment ends before it starts.
pub proof fn lemma_segments_ordered(segs: Seq<ProgramHeader>, file_len: int, i: int, j: int)
    requires
        segments_ok(segs, file_len),
        0 <= i < j < segs.len(),
    ensures
        seg_end(segs[i]) <= seg_start(segs[j]),
        seg_start(segs[i]) <= seg_end(segs[i]),
    decreases j - i,
{
    assert(segment_ok(segs[j], file_len, floor_before(segs, j)));
    assert(segment_ok(segs[i], file_len, floor_before(segs, i)));
    if i + 1 < j {
        lemma_segments_ordered(segs, file_len, i, j - 1);
        assert(segment_ok(segs[j - 1], file_len, floor_before(segs, j - 1)));
    }
}

impl MemorySet {
    /// What holds while the segments of the image `b` are loaded one by
    /// one: the first `n` are done.
    #[verifier::opaque]
    pub open spec fn loading(
        b: Seq<u8>,
        segs: Seq<ProgramHeader>,
        ms: MemorySet,
        trampoline: PhysPageNum,
        m0: Seq<Seq<u64>>,
        m1: Seq<Seq<u64>>,
        fa0: StackFrameAllocator,
        fa1: StackFrameAllocator,
        n: int,
    ) -> bool {
        &&& segments_ok(segs, b.len() as int)
        &&& ms.wf(m1)
        &&& ms.frames_allocated(&fa1)
        &&& fa1.wf()
        &&& fa1.start() == fa0.start()
        &&& fa1.end() == fa0.end()
        &&& fa1.end() <= m1.len()
        &&& fa1.end() <= PPN_LIMIT
        &&& m1.len() == m0.len()
        &&& ms.trampoline == Some(trampoline)
        &&& ms.areas@.len() == n
        &&& 0 <= n <= segs.len()
        &&& forall|i: int| 0 <= i < n ==> area_holds_segment(#[trigger] ms.areas@[i], segs[i], b, m1)
        &&& forall|p: int| ms.owns(p) ==> !fa0.is_allocated(p)
        &&& forall|p: int| fa1.is_allocated(p) <==> fa0.is_allocated(p) || ms.owns(p)
        &&& forall|p: int| 0 <= p < m0.len() && !ms.owns(p) ==> (#[trigger] m1[p]) == m0[p]
        &&& fa1.free() >= segs_need(segs, n) + tail_need(segs)
        &&& fa1.free() >= fa0.free() - (3 + segs_need(segs, 0) + tail_need(segs)) + segs_need(
            segs,
            n,
        ) + tail_need(segs)
    }

    /// One more segment loaded continues the loading.
    proof fn lemma_load_step(
        b: Seq<u8>,
        segs: Seq<ProgramHeader>,
        s1: MemorySet,
        s2: MemorySet,
        trampoline: PhysPageNum,
        m0: Seq<Seq<u64>>,
        m1: Seq<Seq<u64>>,
        m2: Seq<Seq<u64>>,
        fa0: StackFrameAllocator,
        fa1: StackFrameAllocator,
        fa2: StackFrameAllocator,
        n: int,
    )
        requires
            0 <= n < segs.len(),
            Self::loading(b, segs, s1, trampoline, m0, m1, fa0, fa1, n),
            Self::appended(
                s1,
                s2,
                m1,
                m2,
                fa1,
                fa2,
                seg_start(segs[n]),
                seg_end(segs[n]),
                MapType::Framed,
                segment_perm(segs[n].flags),
                b.subrange(segs[n].offset as int, segs[n].offset + segs[n].filesz),
            ),
        ensures
            Self::loading(b, segs, s2, trampoline, m0, m2, fa0, fa2, n + 1),
    {
        reveal(MemorySet::loading);
        reveal(MemorySet::appended);
        lemma_segs_need_nonneg(segs, n + 1);
        assert(s2.areas@.last() == s2.areas@[n]);
        assert forall|i: int| 0 <= i < n + 1 implies area_holds_segment(
            #[trigger] s2.areas@[i],
            segs[i],
            b,
            m2,
        ) by {
            if i < n {
                assert(s2.areas@[i] == s1.areas@[i]);
                assert(area_holds_segment(s1.areas@[i], segs[i], b, m1));
                s1.lemma_wf_facts(m1);
                assert(s1.areas@[i].mapped());
                assert forall|k: int|
                    0 <= k < s1.areas@[i].end.0 - s1.areas@[i].start.0 implies m2[(
                #[trigger] s1.areas@[i].data_frames@[k]).ppn.0 as int]
                    == m1[s1.areas@[i].data_frames@[k].ppn.0 as int] by {
                    assert(s1.data_frame(i, k) == s1.areas@[i].data_frames@[k].ppn.0);
                    assert(s1.owns_data(s1.data_frame(i, k)));
                }
            }
        }
        assert forall|p: int| s2.owns(p) implies !fa0.is_allocated(p) by {
            if !s1.owns(p) {
                assert(!fa1.is_allocated(p));
            }
        }
        assert forall|p: int| 0 <= p < m0.len() && !s2.owns(p) implies (#[trigger] m2[p])
            == m0[p] by {
            assert(!s1.owns(p));
        }
    }

    /// Loads the next segment of the image into this address space.
    fn load_segment(
        &mut self,
        data: &[u8],
        segs: &Vec<ProgramHeader>,
        fa: &mut StackFrameAllocator,
        mem: &mut PhysMemory,
        Ghost(trampoline): Ghost<PhysPageNum>,
        Ghost(m0): Ghost<Seq<Seq<u64>>>,
        Ghost(fa0): Ghost<StackFrameAllocator>,
    )
        requires
            old(self).areas@.len() < segs@.len(),
            Self::loading(
                data@,
                segs@,
                *old(self),
                trampoline,
                m0,
                old(mem)@,
                fa0,
                *old(fa),
                old(self).areas@.len() as int,
            ),
        ensures
            final(self).areas@.len() == old(self).areas@.len() + 1,
            Self::loading(
                data@,
                segs@,
                *final(self),
                trampoline,
                m0,
                final(mem)@,
                fa0,
                *final(fa),
                final(self).areas@.len() as int,
            ),
    {
        let n: usize = self.areas.len();
        let ph: ProgramHeader = segs[n];
        let ghost s1 = *self;
        let ghost m1 = mem@;
        let ghost fa1 = *fa;
        let len: usize = data.len();
        proof {
            reveal(MemorySet::loading);
            assert(segment_ok(segs@[n as int], data@.len() as int, floor_before(segs@, n as int)));
            lemma_segs_need_nonneg(segs@, n as int + 1);
            assert(segs_need(segs@, n as int) == frames_needed(
                seg_start(ph),
                seg_end(ph),
                MapType::Framed,
            ) + segs_need(segs@, n as int + 1));
            assert(!s1.overlaps(seg_start(ph), seg_end(ph))) by {
                if s1.overlaps(seg_start(ph), seg_end(ph)) {
                    let v = choose|v: int|
                        seg_start(ph) <= v < seg_end(ph) && #[trigger] s1.covered(v);
                    let a = choose|a: int|
                        0 <= a < s1.areas@.len() && (#[trigger] s1.areas@[a]).has_page(v);
                    assert(area_holds_segment(s1.areas@[a], segs@[a], data@, m1));
                    lemma_segments_ordered(segs@, data@.len() as int, a, n as int);
                }
            }
        }
        let area = MapArea::new(
            VirtAddr(ph.vaddr),
            VirtAddr(ph.vaddr + ph.memsz),
            MapType::Framed,
            segment_perm_of(ph.flags),
        );
        let bytes = slice_subrange(data, ph.offset as usize, (ph.offset + ph.filesz) as usize);
        let r = self.push(area, Some(bytes), fa, mem);
        proof {
            assert(r is Ok);
            Self::lemma_load_step(
                data@,
                segs@,
                s1,
                *self,
                trampoline,
                m0,
                m1,
                mem@,
                fa0,
                fa1,
                *fa,
                n as int,
            );
        }
    }

    /// A loaded list of segments with the stack and the trap-context page
    /// added is a loaded program.
    proof fn lemma_load_tail(
        b: Seq<u8>,
        s1: MemorySet,
        s2: MemorySet,
        s3: MemorySet,
        trampoline: PhysPageNum,
        m0: Seq<Seq<u64>>,
        m1: Seq<Seq<u64>>,
        m2: Seq<Seq<u64>>,
        m3: Seq<Seq<u64>>,
        fa0: StackFrameAllocator,
        fa1: StackFrameAllocator,
        fa2: StackFrameAllocator,
        fa3: StackFrameAllocator,
    )
        requires
            Self::loading(b, loads(b), s1, trampoline, m0, m1, fa0, fa1, loads(b).len() as int),
            Self::appended(
                s1,
                s2,
                m1,
                m2,
                fa1,
                fa2,
                stack_base_vpn(loads(b)),
                stack_base_vpn(loads(b)) + 2,
                MapType::Framed,
                MapPermission { bits: PERM_R | PERM_W | PERM_U },
                Seq::<u8>::empty(),
            ),
            Self::appended(
                s2,
                s3,
                m2,
                m3,
                fa2,
                fa3,
                TRAP_CONTEXT_VPN as int,
                TRAMPOLINE_VPN as int,
                MapType::Framed,
                MapPermission { bits: PERM_R | PERM_W },
                Seq::<u8>::empty(),
            ),
        ensures
            loaded(b, s3, trampoline, m0, m3, fa0, fa3),
    {
        reveal(MemorySet::loading);
        reveal(MemorySet::appended);
        let segs = loads(b);
        let n = segs.len() as int;
        assert(s2.areas@.last() == s2.areas@[n]);
        assert(s3.areas@.last() == s3.areas@[n + 1]);
        assert(s3.areas@[n] == s2.areas@[n]);
        s1.lemma_wf_facts(m1);
        s2.lemma_wf_facts(m2);
        assert forall|i: int| 0 <= i < n implies area_holds_segment(
            #[trigger] s3.areas@[i],
            segs[i],
            b,
            m3,
        ) by {
            assert(s2.areas@[i] == s1.areas@[i]);
            assert(s3.areas@[i] == s2.areas@[i]);
            assert(area_holds_segment(s1.areas@[i], segs[i], b, m1));
            assert(s1.areas@[i].mapped());
            assert forall|k: int|
                0 <= k < s1.areas@[i].end.0 - s1.areas@[i].start.0 implies m3[(
            #[trigger] s1.areas@[i].data_frames@[k]).ppn.0 as int]
                == m1[s1.areas@[i].data_frames@[k].ppn.0 as int] by {
                let p = s1.data_frame(i, k);
                assert(p == s1.areas@[i].data_frames@[k].ppn.0);
                assert(s1.owns_data(p));
                assert(s2.owns_data(p));
            }
        }
        assert(s2.areas@[n].mapped());
        assert forall|k: int| 0 <= k < 2 implies m3[(
        #[trigger] s2.areas@[n].data_frames@[k]).ppn.0 as int]
            == m2[s2.areas@[n].data_frames@[k].ppn.0 as int] by {
            let p = s2.data_frame(n, k);
            assert(p == s2.areas@[n].data_frames@[k].ppn.0);
            assert(s2.owns_data(p));
        }
        assert forall|p: int| s3.owns(p) implies !fa0.is_allocated(p) by {
            if !s2.owns(p) {
                assert(!fa2.is_allocated(p));
            } else if !s1.owns(p) {
                assert(!fa1.is_allocated(p));
            }
        }
        assert forall|p: int| 0 <= p < m0.len() && !s3.owns(p) implies (#[trigger] m3[p])
            == m0[p] by {
            assert(!s2.owns(p));
            assert(!s1.owns(p));
        }
    }

    /// The frames that must be free before the segment `ph` is loaded.
    fn segment_need_of(ph: &ProgramHeader) -> (r: u64)
        requires
            ph.vaddr + ph.memsz <= SEGMENT_LIMIT,
        ensures
            r == frames_needed(seg_start(*ph), seg_end(*ph), MapType::Framed),
    {
        MemorySet::frames_needed_of(
            VirtPageNum(ph.vaddr / 4096),
            VirtPageNum((ph.vaddr + ph.memsz + 4095) / 4096),
            MapType::Framed,
        )
    }

    /// First page of the user stack of a program with the segments `segs`.
    fn stack_base_of(segs: &Vec<ProgramHeader>, Ghost(file_len): Ghost<int>) -> (r: u64)
        requires
            segments_ok(segs@, file_len),
        ensures
            r == stack_base_vpn(segs@),
            1 <= r <= 0x400_0001,
    {
        if segs.len() == 0 {
            1
        } else {
            let last: ProgramHeader = segs[segs.len() - 1];
            proof {
                assert(segment_ok(
                    segs@[segs@.len() - 1],
                    file_len,
                    floor_before(segs@, segs@.len() - 1),
                ));
            }
            (last.vaddr + last.memsz + 4095) / 4096 + 1
        }
    }

    /// The frames that must be free before the stack and the trap-context
    /// page are mapped, plus the three of the page table's root and the
    /// trampoline's path.
    fn tail_need_of(segs: &Vec<ProgramHeader>, Ghost(file_len): Ghost<int>) -> (r: u64)
        requires
            segments_ok(segs@, file_len),
        ensures
            r == tail_need(segs@) + 3,
    {
        let base: u64 = Self::stack_base_of(segs, Ghost(file_len));
        let a: u64 = MemorySet::frames_needed_of(
            VirtPageNum(base),
            VirtPageNum(base + 2),
            MapType::Framed,
        );
        let b: u64 = MemorySet::frames_needed_of(
            VirtPageNum(TRAP_CONTEXT_VPN),
            VirtPageNum(TRAMPOLINE_VPN),
            MapType::Framed,
        );
        proof {
            assert(a <= 10 && b <= 10) by {
                lemma_small_need(base as int, base + 2);
                lemma_small_need(TRAP_CONTEXT_VPN as int, TRAMPOLINE_VPN as int);
            }
        }
        a + b + 3
    }

    /// Computes [`load_need`] of an image with good segments; `None` when it
    /// does not fit in 64 bits.
    fn load_need_of(segs: &Vec<ProgramHeader>, Ghost(b): Ghost<Seq<u8>>) -> (r: Option<u64>)
        requires
            segs@ == loads(b),
            segments_ok(segs@, b.len() as int),
        ensures
            r matches Some(n) ==> n == load_need(b),
            r is None ==> load_need(b) > u64::MAX,
    {
        let mut acc: u64 = 0;
        let mut i: usize = segs.len();
        while i > 0
            invariant
                i <= segs@.len(),
                segs@ == loads(b),
                acc == segs_need(segs@, i as int),
                segments_ok(segs@, b.len() as int),
            decreases i,
        {
            i = i - 1;
            proof {
                assert(segment_ok(segs@[i as int], b.len() as int, floor_before(segs@, i as int)));
                lemma_segs_need_nonneg(segs@, i as int + 1);
            }
            let n: u64 = Self::segment_need_of(&segs[i]);
            match acc.checked_add(n) {
                Some(v) => {
                    acc = v;
                },
                None => {
                    proof {
                        lemma_segs_need_mono(segs@, 0, i as int);
                        lemma_tail_need_nonneg(segs@);
                        assert(segs_need(segs@, i as int) == n + acc);
                    }
                    return None;
                },
            }
        }
        let tail: u64 = Self::tail_need_of(segs, Ghost(b.len() as int));
        acc.checked_add(tail)
    }

    /// A new address space with the trampoline page mapped, ready to take
    /// the segments of the image `b`.
    fn load_start(
        trampoline: PhysPageNum,
        fa: &mut StackFrameAllocator,
        mem: &mut PhysMemory,
        Ghost(b): Ghost<Seq<u8>>,
    ) -> (r: Option<MemorySet>)
        requires
            old(fa).wf(),
            old(fa).end() <= old(mem)@.len(),
            old(fa).end() <= PPN_LIMIT,
            segments_ok(loads(b), b.len() as int),
            old(fa).free() >= load_need(b),
        ensures
            r matches Some(ms) && ms.areas@.len() == 0 && Self::loading(
                b,
                loads(b),
                ms,
                trampoline,
                old(mem)@,
                final(mem)@,
                *old(fa),
                *final(fa),
                0,
            ),
    {
        let ghost m0 = mem@;
        let ghost fa0 = *fa;
        proof {
            lemma_segs_need_nonneg(loads(b), 0);
            lemma_tail_need_nonneg(loads(b));
        }
        let mut ms = match MemorySet::new_bare(fa, mem) {
            Some(ms) => ms,
            None => {
                proof {
                    assert(false);
                }
                return None;
            },
        };
        let ghost c0 = ms;
        let ghost ma = mem@;
        let ghost faa = *fa;
        let r = ms.map_trampoline(trampoline, fa, mem);
        proof {
            let mb = mem@;
            assert(crate::mm::page_table::missing_levels(
                ma,
                c0.page_table.root(),
                TRAMPOLINE_VPN as int,
            ) <= 2);
            assert(r is Ok);
            assert(ms.areas@.len() == 0);
            assert forall|p: int| !ms.owns_data(p) by {}
            assert forall|p: int| !c0.owns_data(p) by {}
            assert forall|p: int| ms.owns(p) implies !fa0.is_allocated(p) by {
                assert(ms.page_table.owns(p));
                if c0.page_table.owns(p) {
                    assert(c0.owns(p));
                } else {
                    assert(!faa.is_allocated(p));
                }
            }
            assert forall|p: int| fa.is_allocated(p) <==> fa0.is_allocated(p) || ms.owns(p) by {
                assert(c0.owns(p) <==> p == c0.page_table.root());
                assert(c0.owns(p) <==> c0.page_table.owns(p));
                assert(ms.owns(p) <==> ms.page_table.owns(p));
                assert(faa.is_allocated(p) <==> fa0.is_allocated(p) || p == c0.page_table.root());
                if c0.page_table.owns(p) {
                    assert(ms.page_table.owns(p));
                }
            }
            assert(Self::loading(b, loads(b), ms, trampoline, m0, mb, fa0, *fa, 0)) by {
                reveal(MemorySet::loading);
                assert forall|p: int| 0 <= p < m0.len() && !ms.owns(p) implies (#[trigger] mb[p])
                    == m0[p] by {
                    assert(!ms.page_table.owns(p));
                    if c0.page_table.owns(p) {
                        assert(ms.page_table.owns(p));
                    }
                    assert(!c0.owns(p));
                }
            }
        }
        Some(ms)
    }

    /// No area of loaded segments reaches the page `floor` or beyond, where
    /// `floor` is the page after the last segment.
    proof fn lemma_areas_below_floor(
        b: Seq<u8>,
        s1: MemorySet,
        trampoline: PhysPageNum,
        m0: Seq<Seq<u64>>,
        m1: Seq<Seq<u64>>,
        fa0: StackFrameAllocator,
        fa1: StackFrameAllocator,
        v: int,
    )
        requires
            Self::loading(b, loads(b), s1, trampoline, m0, m1, fa0, fa1, loads(b).len() as int),
            v >= floor_before(loads(b), loads(b).len() as int),
        ensures
            !s1.covered(v),
            floor_before(loads(b), loads(b).len() as int) <= 0x400_0000,
    {
        let segs = loads(b);
        let n = segs.len() as int;
        assert(segments_ok(segs, b.len() as int) && s1.areas@.len() == n && (forall|i: int|
            0 <= i < n ==> (#[trigger] s1.areas@[i]).end.0 == seg_end(segs[i]))) by {
            reveal(MemorySet::loading);
            assert forall|i: int| 0 <= i < n implies (#[trigger] s1.areas@[i]).end.0 == seg_end(
                segs[i],
            ) by {
                assert(area_holds_segment(s1.areas@[i], segs[i], b, m1));
            }
        }
        lemma_floor_bound(segs, b.len() as int);
        if s1.covered(v) {
            let a = choose|a: int|
                0 <= a < s1.areas@.len() && (#[trigger] s1.areas@[a]).has_page(v);
            assert(s1.areas@[a].end.0 == seg_end(segs[a]));
            if a < n - 1 {
                lemma_segments_ordered(segs, b.len() as int, a, n - 1);
                assert(seg_start(segs[n - 1]) <= seg_end(segs[n - 1]));
            }
        }
    }

    /// When all segments are loaded, the stack fits above them.
    proof fn lemma_stack_fits(
        b: Seq<u8>,
        s1: MemorySet,
        trampoline: PhysPageNum,
        m0: Seq<Seq<u64>>,
        m1: Seq<Seq<u64>>,
        fa0: StackFrameAllocator,
        fa1: StackFrameAllocator,
    )
        requires
            Self::loading(b, loads(b), s1, trampoline, m0, m1, fa0, fa1, loads(b).len() as int),
        ensures
            segments_ok(loads(b), b.len() as int),
            s1.wf(m1),
            s1.frames_allocated(&fa1),
            fa1.wf(),
            fa1.end() <= m1.len(),
            fa1.end() <= PPN_LIMIT,
            !s1.overlaps(stack_base_vpn(loads(b)), stack_base_vpn(loads(b)) + 2),
            fa1.free() >= frames_needed(
                stack_base_vpn(loads(b)),
                stack_base_vpn(loads(b)) + 2,
                MapType::Framed,
            ),
    {
        let segs = loads(b);
        let base_vpn = stack_base_vpn(segs);
        assert(fa1.free() >= tail_need(segs) && segments_ok(segs, b.len() as int) && s1.wf(m1)
            && s1.frames_allocated(&fa1) && fa1.wf() && fa1.end() <= m1.len() && fa1.end()
            <= PPN_LIMIT) by {
            reveal(MemorySet::loading);
            assert(segs_need(segs, segs.len() as int) == 0);
        }
        lemma_frames_needed_nonneg_2(TRAP_CONTEXT_VPN as int, TRAMPOLINE_VPN as int);
        if s1.overlaps(base_vpn, base_vpn + 2) {
            let v = choose|v: int| base_vpn <= v < base_vpn + 2 && #[trigger] s1.covered(v);
            Self::lemma_areas_below_floor(b, s1, trampoline, m0, m1, fa0, fa1, v);
        }
    }

    /// When the stack is mapped, the trap-context page fits above it.
    proof fn lemma_trap_page_fits(
        b: Seq<u8>,
        s1: MemorySet,
        s2: MemorySet,
        trampoline: PhysPageNum,
        m0: Seq<Seq<u64>>,
        m1: Seq<Seq<u64>>,
        m2: Seq<Seq<u64>>,
        fa0: StackFrameAllocator,
        fa1: StackFrameAllocator,
        fa2: StackFrameAllocator,
    )
        requires
            Self::loading(b, loads(b), s1, trampoline, m0, m1, fa0, fa1, loads(b).len() as int),
            Self::appended(
                s1,
                s2,
                m1,
                m2,
                fa1,
                fa2,
                stack_base_vpn(loads(b)),
                stack_base_vpn(loads(b)) + 2,
                MapType::Framed,
                MapPermission { bits: PERM_R | PERM_W | PERM_U },
                Seq::<u8>::empty(),
            ),
        ensures
            s2.wf(m2),
            s2.frames_allocated(&fa2),
            fa2.wf(),
            fa2.end() <= m2.len(),
            fa2.end() <= PPN_LIMIT,
            !s2.overlaps(TRAP_CONTEXT_VPN as int, TRAMPOLINE_VPN as int),
            fa2.free() >= frames_needed(
                TRAP_CONTEXT_VPN as int,
                TRAMPOLINE_VPN as int,
                MapType::Framed,
            ),
    {
        let segs = loads(b);
        assert(segments_ok(segs, b.len() as int)) by {
            reveal(MemorySet::loading);
        }
        assert(s2.wf(m2) && s2.frames_allocated(&fa2) && fa2.wf() && fa2.end() <= m2.len()
            && fa2.end() <= PPN_LIMIT && fa2.free() >= frames_needed(
            TRAP_CONTEXT_VPN as int,
            TRAMPOLINE_VPN as int,
            MapType::Framed,
        ) && s2.areas@.len() == s1.areas@.len() + 1 && s2.areas@.last().end.0 == stack_base_vpn(
            segs,
        ) + 2 && (forall|a: int|
            0 <= a < s1.areas@.len() ==> (#[trigger] s2.areas@[a]) == s1.areas@[a])) by {
            reveal(MemorySet::loading);
            reveal(MemorySet::appended);
            assert(segs_need(segs, segs.len() as int) == 0);
        }
        assert(s2.areas@.last() == s2.areas@[s1.areas@.len() as int]);
        if s2.overlaps(TRAP_CONTEXT_VPN as int, TRAMPOLINE_VPN as int) {
            let v = choose|v: int|
                TRAP_CONTEXT_VPN <= v < TRAMPOLINE_VPN && #[trigger] s2.covered(v);
            let a = choose|a: int|
                0 <= a < s2.areas@.len() && (#[trigger] s2.areas@[a]).has_page(v);
            lemma_floor_bound(segs, b.len() as int);
            Self::lemma_areas_below_floor(b, s1, trampoline, m0, m1, fa0, fa1, v);
            if a < s1.areas@.len() {
                assert(s2.areas@[a] == s1.areas@[a]);
                assert(s1.areas@[a].has_page(v));
            }
        }
    }

    /// Maps the user stack and the trap-context page of thread 0 above the
    /// loaded segments.
    fn load_tail(
        &mut self,
        segs: &Vec<ProgramHeader>,
        fa: &mut StackFrameAllocator,
        mem: &mut PhysMemory,
        Ghost(b): Ghost<Seq<u8>>,
        Ghost(trampoline): Ghost<PhysPageNum>,
        Ghost(m0): Ghost<Seq<Seq<u64>>>,
        Ghost(fa0): Ghost<StackFrameAllocator>,
    ) -> (sp: u64)
        requires
            segs@ == loads(b),
            Self::loading(
                b,
                segs@,
                *old(self),
                trampoline,
                m0,
                old(mem)@,
                fa0,
                *old(fa),
                segs@.len() as int,
            ),
        ensures
            loaded(b, *final(self), trampoline, m0, final(mem)@, fa0, *final(fa)),
            sp == initial_sp(b),
    {
        let ghost s1 = *self;
        let ghost m1 = mem@;
        let ghost fa1 = *fa;
        proof {
            Self::lemma_stack_fits(b, s1, trampoline, m0, m1, fa0, fa1);
        }
        let base_vpn: u64 = Self::stack_base_of(segs, Ghost(b.len() as int));
        let stack_bottom: u64 = base_vpn * 4096;
        let stack_top: u64 = stack_bottom + crate::config::USER_STACK_SIZE;
        proof {
            assert(stack_bottom as int / 4096 == base_vpn);
            assert((stack_top + 4095) / 4096 == base_vpn + 2);
        }
        let r1 = self.insert_framed_area(
            VirtAddr(stack_bottom),
            VirtAddr(stack_top),
            MapPermission { bits: PERM_R | PERM_W | PERM_U },
            fa,
            mem,
        );
        let ghost s2 = *self;
        let ghost m2 = mem@;
        let ghost fa2 = *fa;
        proof {
            assert(r1 is Ok);
            Self::lemma_trap_page_fits(b, s1, s2, trampoline, m0, m1, m2, fa0, fa1, fa2);
            assert((TRAP_CONTEXT_BASE % crate::config::VA_LIMIT) as int / 4096 == TRAP_CONTEXT_VPN);
            assert(((TRAMPOLINE % crate::config::VA_LIMIT) + 4095) / 4096 == TRAMPOLINE_VPN);
        }
        let r2 = self.insert_framed_area(
            VirtAddr(TRAP_CONTEXT_BASE % crate::config::VA_LIMIT),
            VirtAddr(TRAMPOLINE % crate::config::VA_LIMIT),
            MapPermission { bits: PERM_R | PERM_W },
            fa,
            mem,
        );
        proof {
            assert(r2 is Ok);
            Self::lemma_load_tail(
                b,
                s1,
                s2,
                *self,
                trampoline,
                m0,
                m1,
                m2,
                mem@,
                fa0,
                fa1,
                fa2,
                *fa,
            );
        }
        stack_top
    }

    /// The address space of the program in the ELF image `elf_data`, with
    /// its initial user stack pointer and its entry address.
    ///
    /// Every loadable segment becomes a framed area that holds the bytes of
    /// the segment and then zeros, with user access and the rights of the
    /// segment's flags.  One page above the last segment stays unmapped as
    /// a guard; above it lies the user stack of thread 0.  The trap-context
    /// page of thread 0 and the trampoline page, mapped to the frame
    /// `trampoline`, lie at the top of the address space.
    ///
    /// Refused, with nothing changed: an image that [`load_error`] refuses.
    pub fn from_elf(
        elf_data: &[u8],
        trampoline: PhysPageNum,
        fa: &mut StackFrameAllocator,
        mem: &mut PhysMemory,
    ) -> (r: Result<(MemorySet, u64, u64), LoadError>)
        requires
            old(fa).wf(),
            old(fa).end() <= old(mem)@.len(),
            old(fa).end() <= PPN_LIMIT,
        ensures
            r matches Err(e) ==> load_error(elf_data@, old(fa).free()) == Some(e) && *final(fa)
                == *old(fa) && final(mem)@ == old(mem)@,
            r matches Ok((ms, sp, entry)) ==> {
                &&& load_error(elf_data@, old(fa).free()) is None
                &&& loaded(elf_data@, ms, trampoline, old(mem)@, final(mem)@, *old(fa), *final(fa))
                &&& sp == initial_sp(elf_data@)
                &&& entry == header_of(elf_data@).entry
            },
    {
        let ghost m0 = mem@;
        let ghost fa0 = *fa;
        let h = match parse_header(elf_data) {
            Ok(h) => h,
            Err(e) => {
                return Err(LoadError::Elf(e));
            },
        };
        let segs = match read_segments(elf_data, &h) {
            Some(s) => s,
            None => {
                return Err(LoadError::BadSegment);
            },
        };
        let need: u64 = match Self::load_need_of(&segs, Ghost(elf_data@)) {
            Some(n) => n,
            None => {
                proof {
                    fa0.lemma_free_bound();
                }
                return Err(LoadError::OutOfFrames);
            },
        };
        if !fa.has_free(need) {
            return Err(LoadError::OutOfFrames);
        }
        let mut ms = match Self::load_start(trampoline, fa, mem, Ghost(elf_data@)) {
            Some(ms) => ms,
            None => {
                return Err(LoadError::OutOfFrames);
            },
        };
        while ms.areas.len() < segs.len()
            invariant
                ms.areas@.len() <= segs@.len(),
                segs@ == loads(elf_data@),
                Self::loading(
                    elf_data@,
                    segs@,
                    ms,
                    trampoline,
                    m0,
                    mem@,
                    fa0,
                    *fa,
                    ms.areas@.len() as int,
                ),
            decreases segs@.len() - ms.areas@.len(),
        {
            ms.load_segment(elf_data, &segs, fa, mem, Ghost(trampoline), Ghost(m0), Ghost(fa0));
        }
        let sp = ms.load_tail(&segs, fa, mem, Ghost(elf_data@), Ghost(trampoline), Ghost(m0), Ghost(fa0));
        Ok((ms, sp, h.entry))
    }
}

/// The segments of a good list end at or below the segment limit.
pub proof fn lemma_floor_bound(segs: Seq<ProgramHeader>, file_len: int)
    requires
        segments_ok(segs, file_len),
    ensures
        floor_before(segs, segs.len() as int) <= 0x400_0000,
{
    if segs.len() > 0 {
        assert(segment_ok(segs[segs.len() - 1], file_len, floor_before(segs, segs.len() - 1)));
    }
}

/// Mapping at most two pages takes at most ten frames.
pub proof fn lemma_small_need(start: int, end: int)
    requires
        0 <= start <= end <= start + 2,
    ensures
        0 <= frames_needed(start, end, MapType::Framed) <= 10,
{
}

/// [`frames_needed`] of a framed range is never negative.
pub proof fn lemma_frames_needed_nonneg_2(start: int, end: int)
    ensures
        frames_needed(start, end, MapType::Framed) >= 0,
{
}

/// [`tail_need`] is never negative.
pub proof fn lemma_tail_need_nonneg(segs: Seq<ProgramHeader>)
    ensures
        tail_need(segs) >= 0,
{
}

/// [`segs_need`] grows when it starts at an earlier segment.
pub proof fn lemma_segs_need_mono(segs: Seq<ProgramHeader>, i: int, j: int)
    requires
        0 <= i <= j,
    ensures
        segs_need(segs, i) >= segs_need(segs, j),
    decreases j - i,
{
    if i < j {
        lemma_segs_need_mono(segs, i + 1, j);
        lemma_segs_need_nonneg(segs, i + 1);
    }
}

/// Why the image `b` is refused whatever frames are free, if it is.
pub open spec fn format_error(b: Seq<u8>) -> Option<LoadError> {
    match header_error(b) {
        Some(e) => Some(LoadError::Elf(e)),
        None => if !segments_ok(loads(b), b.len() as int) {
            Some(LoadError::BadSegment)
        } else {
            None
        },
    }
}

/// Checks the image and computes the frames that must be free before it is
/// loaded.  `Ok(None)` when that number does not fit in 64 bits.
pub fn elf_frames_needed(elf_data: &[u8]) -> (r: Result<Option<u64>, LoadError>)
    ensures
        r matches Err(e) ==> format_error(elf_data@) == Some(e),
        r is Ok ==> format_error(elf_data@) is None,
        r matches Ok(Some(n)) ==> n == load_need(elf_data@),
        r matches Ok(None) ==> load_need(elf_data@) > u64::MAX,
{
    let h = match parse_header(elf_data) {
        Ok(h) => h,
        Err(e) => {
            return Err(LoadError::Elf(e));
        },
    };
    let segs = match read_segments(elf_data, &h) {
        Some(s) => s,
        None => {
            return Err(LoadError::BadSegment);
        },
    };
    Ok(MemorySet::load_need_of(&segs, Ghost(elf_data@)))
}

} // verus!
