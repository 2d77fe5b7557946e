//! Address spaces: a page table plus an ordered list of mapped areas that do
//! not overlap.

use vstd::prelude::*;
use crate::config::{PPN_LIMIT, TRAMPOLINE_VPN, VPN_LIMIT};
use crate::mm::address::{PhysPageNum, VirtAddr, VirtPageNum};
use crate::mm::frame_allocator::{frame_alloc, frame_dealloc, FrameTracker, StackFrameAllocator};
use crate::mm::memory::{frame_bytes, PhysMemory};
use crate::mm::page_table::{
    lookup, missing_levels, pte_bits, PTEFlags, PageTable, PageTableEntry, PageTableError, PTE_R,
    PTE_V, PTE_X,
};

verus! {

/// Access rights of a mapped area.
#[derive(Copy, Clone, Debug, PartialEq, Eq, Structural)]
pub struct MapPermission {
    pub bits: u8,
}

/// Readable.
pub const PERM_R: u8 = 2;

/// Writable.
pub const PERM_W: u8 = 4;

/// Executable.
pub const PERM_X: u8 = 8;

/// Accessible from user mode.
pub const PERM_U: u8 = 16;

impl MapPermission {
    /// The rights with the given bits; `None` when a bit is set that is not
    /// one of read, write, execute, user.
    pub fn from_bits(bits: u8) -> (r: Option<Self>)
        ensures
            r == (if bits & 0xe1 == 0 {
                Some(MapPermission { bits })
            } else {
                None
            }),
    {
        if bits & 0xe1 == 0 {
            Some(MapPermission { bits })
        } else {
            None
        }
    }

    /// No right at all.
    pub fn empty() -> (r: Self)
        ensures
            r.bits == 0,
    {
        MapPermission { bits: 0 }
    }

    /// The bits of the set.
    pub fn bits(&self) -> (r: u8)
        ensures
            r == self.bits,
    {
        self.bits
    }

    /// Whether every right of `other` is in `self`.
    pub fn contains(&self, other: MapPermission) -> (r: bool)
        ensures
            r == (self.bits & other.bits == other.bits),
    {
        self.bits & other.bits == other.bits
    }

    /// The rights that are in `self` or in `other`.
    pub fn union(&self, other: MapPermission) -> (r: Self)
        ensures
            r.bits == self.bits | other.bits,
    {
        MapPermission { bits: self.bits | other.bits }
    }
}

/// How the pages of an area get their frames.
#[derive(Copy, Clone, Debug, PartialEq, Eq, Structural)]
pub enum MapType {
    /// Page `v` is mapped to frame `v`; the area owns no frame.
    Identical,
    /// Every page has a frame of its own, owned by the area.
    Framed,
}

/// Why an area could not be added to an address space.
#[derive(Copy, Clone, Debug, PartialEq, Eq, Structural)]
pub enum AreaError {
    /// The range is inverted or reaches the trampoline page.
    InvalidRange,
    /// The range shares a page with an area of the address space.
    Overlap,
    /// The allocator does not hold the frames that the area may need.
    OutOfFrames,
}

/// A contiguous range of virtual pages `[start, end)` with one permission set
/// and one mapping kind.  A framed area owns the frame of each page it has
/// mapped: `data_frames[k]` backs page `start + k`.
pub struct MapArea {
    pub start: VirtPageNum,
    pub end: VirtPageNum,
    pub data_frames: Vec<FrameTracker>,
    pub map_type: MapType,
    pub map_perm: MapPermission,
}

/// Upper bound on the page-table nodes that mapping the pages `[start, end)`
/// can take: one per second- and third-level node that the range touches.
pub open spec fn tables_bound(start: int, end: int) -> int {
    if start >= end {
        0
    } else {
        ((end + 511) / 512 - (start + 511) / 512) + ((end + 262143) / 262144 - (start + 262143)
            / 262144) + 2
    }
}

/// The frames that an address space must have free before it takes an area
/// of pages `[start, end)`: the worst case, one frame per page of a framed
/// area plus [`tables_bound`].
pub open spec fn frames_needed(start: int, end: int, map_type: MapType) -> int {
    tables_bound(start, end) + (if map_type == MapType::Framed && start < end {
        end - start
    } else {
        0
    })
}

/// The frames that must be free before the areas from index `from` on are
/// taken one after the other: the sum of their [`frames_needed`].
pub open spec fn areas_need(areas: Seq<MapArea>, from: int) -> int
    decreases areas.len() - from,
{
    if from < 0 || from >= areas.len() {
        0
    } else {
        frames_needed(
            areas[from].start.0 as int,
            areas[from].end.0 as int,
            areas[from].map_type,
        ) + areas_need(areas, from + 1)
    }
}

/// [`frames_needed`] is never negative.
pub proof fn lemma_frames_needed_nonneg(start: int, end: int, map_type: MapType)
    ensures
        frames_needed(start, end, map_type) >= 0,
{
}

/// [`areas_need`] is never negative.
pub proof fn lemma_areas_need_nonneg(areas: Seq<MapArea>, from: int)
    ensures
        areas_need(areas, from) >= 0,
    decreases areas.len() - from,
{
    if 0 <= from < areas.len() {
        lemma_areas_need_nonneg(areas, from + 1);
        lemma_frames_needed_nonneg(
            areas[from].start.0 as int,
            areas[from].end.0 as int,
            areas[from].map_type,
        );
    }
}

/// [`areas_need`] grows when it starts at an earlier area.
pub proof fn lemma_areas_need_mono(areas: Seq<MapArea>, i: int, j: int)
    requires
        0 <= i <= j,
    ensures
        areas_need(areas, i) >= areas_need(areas, j),
    decreases j - i,
{
    if i < j {
        lemma_areas_need_mono(areas, i + 1, j);
        lemma_areas_need_nonneg(areas, i + 1);
        if i < areas.len() {
            lemma_frames_needed_nonneg(
                areas[i].start.0 as int,
                areas[i].end.0 as int,
                areas[i].map_type,
            );
        }
    }
}

/// Whether two areas have the same range, kind, rights and number of frames.
pub open spec fn same_shape(a: MapArea, b: MapArea) -> bool {
    &&& a.start == b.start
    &&& a.end == b.end
    &&& a.map_type == b.map_type
    &&& a.map_perm == b.map_perm
    &&& a.data_frames@.len() == b.data_frames@.len()
}

/// Copies frame `src[k]` into frame `dst[k]` for every `k`; no other frame
/// changes.
pub fn copy_frames(dst: &Vec<FrameTracker>, src: &Vec<FrameTracker>, mem: &mut PhysMemory)
    requires
        dst@.len() == src@.len(),
        forall|k: int| 0 <= k < dst@.len() ==> (#[trigger] dst@[k]).ppn.0 < old(mem)@.len(),
        forall|k: int| 0 <= k < src@.len() ==> (#[trigger] src@[k]).ppn.0 < old(mem)@.len(),
        forall|j: int, k: int|
            0 <= j < k < dst@.len() ==> (#[trigger] dst@[j]).ppn.0 != (#[trigger] dst@[k]).ppn.0,
        forall|j: int, k: int|
            0 <= j < dst@.len() && 0 <= k < src@.len() ==> (#[trigger] dst@[j]).ppn.0 != (
            #[trigger] src@[k]).ppn.0,
    ensures
        final(mem)@.len() == old(mem)@.len(),
        forall|k: int|
            0 <= k < dst@.len() ==> final(mem)@[(#[trigger] dst@[k]).ppn.0 as int] == old(mem)@[src@[k].ppn.0 as int],
        forall|p: int|
            0 <= p < old(mem)@.len() && !(exists|k: int|
                0 <= k < dst@.len() && (#[trigger] dst@[k]).ppn.0 == p) ==> (#[trigger] final(mem)@[p]) == old(mem)@[p],
{
    let mut i: usize = 0;
    while i < dst.len()
        invariant
            i <= dst@.len(),
            dst@.len() == src@.len(),
            mem@.len() == old(mem)@.len(),
            forall|k: int| 0 <= k < dst@.len() ==> (#[trigger] dst@[k]).ppn.0 < old(mem)@.len(),
            forall|k: int| 0 <= k < src@.len() ==> (#[trigger] src@[k]).ppn.0 < old(mem)@.len(),
            forall|j: int, k: int|
                0 <= j < k < dst@.len() ==> (#[trigger] dst@[j]).ppn.0 != (#[trigger] dst@[k]).ppn.0,
            forall|j: int, k: int|
                0 <= j < dst@.len() && 0 <= k < src@.len() ==> (#[trigger] dst@[j]).ppn.0 != (
                #[trigger] src@[k]).ppn.0,
            forall|k: int|
                0 <= k < i ==> mem@[(#[trigger] dst@[k]).ppn.0 as int] == old(mem)@[src@[k].ppn.0 as int],
            forall|p: int|
                0 <= p < old(mem)@.len() && !(exists|k: int|
                    0 <= k < i && (#[trigger] dst@[k]).ppn.0 == p) ==> (#[trigger] mem@[p]) == old(mem)@[p],
        decreases dst@.len() - i,
    {
        let ghost mb = mem@;
        let d = dst[i].ppn;
        let sp = src[i].ppn;
        proof {
            assert(!(exists|k: int| 0 <= k < i && (#[trigger] dst@[k]).ppn.0 == sp.0));
            assert(mb[sp.0 as int] == old(mem)@[sp.0 as int]);
        }
        mem.copy_frame(d, sp);
        proof {
            assert forall|k: int| 0 <= k < i + 1 implies mem@[(#[trigger] dst@[k]).ppn.0 as int]
                == old(mem)@[src@[k].ppn.0 as int] by {
                if k < i {
                    assert(dst@[k].ppn.0 != dst@[i as int].ppn.0);
                }
            }
            assert forall|p: int|
                0 <= p < old(mem)@.len() && !(exists|k: int|
                    0 <= k < i + 1 && (#[trigger] dst@[k]).ppn.0 == p) implies (#[trigger] mem@[p])
                == old(mem)@[p] by {
                assert(dst@[i as int].ppn.0 != p);
                assert(!(exists|k: int| 0 <= k < i && (#[trigger] dst@[k]).ppn.0 == p));
            }
        }
        i = i + 1;
    }
}

impl MapArea {
    /// Describes the area of the pages that `[start_va, end_va)` touches.
    /// Nothing is mapped yet.
    pub fn new(start_va: VirtAddr, end_va: VirtAddr, map_type: MapType, map_perm: MapPermission) -> (r:
        Self)
        ensures
            r.start.0 == start_va.0 / 4096,
            r.end.0 == (end_va.0 + 4095) / 4096,
            r.data_frames@.len() == 0,
            r.map_type == map_type,
            r.map_perm == map_perm,
    {
        MapArea {
            start: start_va.floor(),
            end: end_va.ceil(),
            data_frames: Vec::new(),
            map_type,
            map_perm,
        }
    }

    /// Describes an area with the range, kind and rights of `other`.  Nothing
    /// is mapped yet.
    pub fn from_another(other: &MapArea) -> (r: Self)
        ensures
            r.start == other.start,
            r.end == other.end,
            r.data_frames@.len() == 0,
            r.map_type == other.map_type,
            r.map_perm == other.map_perm,
    {
        MapArea {
            start: other.start,
            end: other.end,
            data_frames: Vec::new(),
            map_type: other.map_type,
            map_perm: other.map_perm,
        }
    }

    /// Whether page `v` lies in the area.
    pub open spec fn has_page(&self, v: int) -> bool {
        self.start.0 <= v < self.end.0
    }

    /// The frame that backs page `v` of a mapped area.
    pub open spec fn frame_of(&self, v: int) -> int {
        match self.map_type {
            MapType::Identical => v,
            MapType::Framed => self.data_frames@[v - self.start.0].ppn.0 as int,
        }
    }

    /// The leaf entry that a mapped area has for its page `v`.
    pub open spec fn entry_of(&self, v: int) -> PageTableEntry {
        PageTableEntry { bits: pte_bits(self.frame_of(v), self.map_perm.bits | PTE_V) }
    }

    /// A mapped area: a range below the trampoline page, with one frame per
    /// page when it is framed and none when it is identical.
    pub open spec fn mapped(&self) -> bool {
        &&& self.start.0 <= self.end.0 <= TRAMPOLINE_VPN
        &&& self.map_type == MapType::Framed ==> self.data_frames@.len() == self.end.0
            - self.start.0
        &&& self.map_type == MapType::Identical ==> self.data_frames@.len() == 0
    }
}

/// An address space.
pub struct MemorySet {
    pub page_table: PageTable,
    pub areas: Vec<MapArea>,
    pub trampoline: Option<PhysPageNum>,
}

impl MemorySet {
    /// Frame `k` of area `a`.
    pub open spec fn data_frame(&self, a: int, k: int) -> int {
        self.areas@[a].data_frames@[k].ppn.0 as int
    }

    /// Whether some area owns frame `p`.
    pub open spec fn owns_data(&self, p: int) -> bool {
        exists|a: int, k: int|
            0 <= a < self.areas@.len() && 0 <= k < self.areas@[a].data_frames@.len()
                && #[trigger] self.data_frame(a, k) == p
    }

    /// Whether the address space owns frame `p`, as a page-table node or as
    /// the frame of a page.
    pub open spec fn owns(&self, p: int) -> bool {
        self.page_table.owns(p) || self.owns_data(p)
    }

    /// Whether page `v` lies in some area.
    pub open spec fn covered(&self, v: int) -> bool {
        exists|a: int| 0 <= a < self.areas@.len() && (#[trigger] self.areas@[a]).has_page(v)
    }

    /// The leaf entry of the trampoline page.
    pub open spec fn trampoline_entry(&self) -> Option<PageTableEntry> {
        match self.trampoline {
            Some(t) => Some(PageTableEntry { bits: pte_bits(t.0 as int, PTE_R | PTE_X | PTE_V) }),
            None => None,
        }
    }

    /// What the address space maps `v` to in the memory `m`.
    pub open spec fn view_at(&self, m: Seq<Seq<u64>>, v: int) -> Option<PageTableEntry> {
        lookup(m, self.page_table.root(), v)
    }

    /// The address space is consistent in the memory `m`: the page table is
    /// an owned tree; the areas are mapped and share no page; the table maps
    /// exactly the pages of the areas, each to its frame with the rights of
    /// its area, and the trampoline page if it was mapped; the frames of the
    /// pages are frames of `m`, distinct from each other and from the nodes
    /// of the table.
    #[verifier::opaque]
    pub open spec fn wf(&self, m: Seq<Seq<u64>>) -> bool {
        &&& self.page_table.wf(m)
        &&& forall|a: int| 0 <= a < self.areas@.len() ==> (#[trigger] self.areas@[a]).mapped()
        &&& forall|a: int, b: int, v: int|
            0 <= a < self.areas@.len() && 0 <= b < self.areas@.len() && a != b
                && #[trigger] self.areas@[a].has_page(v) ==> !#[trigger] self.areas@[b].has_page(v)
        &&& forall|a: int, v: int|
            0 <= a < self.areas@.len() && (#[trigger] self.areas@[a]).has_page(v) ==> (
            #[trigger] lookup(m, self.page_table.root(), v)) == Some(self.areas@[a].entry_of(v))
        &&& forall|v: int|
            0 <= v < TRAMPOLINE_VPN && (#[trigger] lookup(m, self.page_table.root(), v)) is Some
                ==> self.covered(v)
        &&& lookup(m, self.page_table.root(), TRAMPOLINE_VPN as int) == self.trampoline_entry()
        &&& forall|a: int, k: int|
            0 <= a < self.areas@.len() && 0 <= k < self.areas@[a].data_frames@.len() ==> {
                &&& 0 <= #[trigger] self.data_frame(a, k) < m.len()
                &&& self.data_frame(a, k) < PPN_LIMIT
                &&& !self.page_table.owns(self.data_frame(a, k))
            }
        &&& forall|a: int, k: int, b: int, j: int|
            0 <= a < self.areas@.len() && 0 <= k < self.areas@[a].data_frames@.len() && 0 <= b
                < self.areas@.len() && 0 <= j < self.areas@[b].data_frames@.len() && (a != b || k
                != j) ==> #[trigger] self.data_frame(a, k) != #[trigger] self.data_frame(b, j)
    }

    /// Every frame that the address space owns has been handed out by `fa`.
    pub open spec fn frames_allocated(&self, fa: &StackFrameAllocator) -> bool {
        forall|p: int| self.owns(p) ==> fa.is_allocated(p)
    }

    /// An address space stays consistent, with the same mappings, in every
    /// memory that agrees with `m1` on the nodes of its page table.
    pub proof fn lemma_wf_frame(&self, m1: Seq<Seq<u64>>, m2: Seq<Seq<u64>>)
        requires
            self.wf(m1),
            m1.len() == m2.len(),
            forall|p: int| self.page_table.owns(p) ==> m2[p] == m1[p],
        ensures
            self.wf(m2),
            forall|v: int| #[trigger]
                lookup(m2, self.page_table.root(), v) == lookup(m1, self.page_table.root(), v),
    {
        reveal(MemorySet::wf);
        self.page_table.lemma_wf_frame(m1, m2);
    }

    /// What a consistent address space gives its users: the page table is an
    /// owned tree, a page outside every area is not mapped, the trampoline
    /// entry is as recorded, and the frames of the pages lie in the memory
    /// and are no nodes of the table.
    pub proof fn lemma_wf_facts(&self, m: Seq<Seq<u64>>)
        requires
            self.wf(m),
        ensures
            self.page_table.wf(m),
            forall|v: int|
                0 <= v < TRAMPOLINE_VPN && !self.covered(v) ==> (#[trigger] lookup(
                    m,
                    self.page_table.root(),
                    v,
                )) is None,
            forall|a: int, v: int|
                0 <= a < self.areas@.len() && (#[trigger] self.areas@[a]).has_page(v) ==> (
                #[trigger] lookup(m, self.page_table.root(), v)) == Some(
                    self.areas@[a].entry_of(v),
                ),
            forall|a: int| 0 <= a < self.areas@.len() ==> (#[trigger] self.areas@[a]).mapped(),
            lookup(m, self.page_table.root(), TRAMPOLINE_VPN as int) == self.trampoline_entry(),
            forall|p: int|
                self.owns_data(p) ==> !self.page_table.owns(p) && 0 <= p < m.len() && p
                    < PPN_LIMIT,
    {
        reveal(MemorySet::wf);
        assert forall|p: int| self.owns_data(p) implies !self.page_table.owns(p) && 0 <= p
            < m.len() && p < PPN_LIMIT by {
            let (a, k) = choose|a: int, k: int|
                0 <= a < self.areas@.len() && 0 <= k < self.areas@[a].data_frames@.len()
                    && #[trigger] self.data_frame(a, k) == p;
        }
    }

    /// An address space with an empty page table and no area.  `None` exactly
    /// when the allocator has no frame left for the root node.
    pub fn new_bare(fa: &mut StackFrameAllocator, mem: &mut PhysMemory) -> (r: Option<Self>)
        requires
            old(fa).wf(),
            old(fa).end() <= old(mem)@.len(),
            old(fa).end() <= PPN_LIMIT,
        ensures
            final(fa).wf(),
            final(fa).start() == old(fa).start(),
            final(fa).end() == old(fa).end(),
            final(mem)@.len() == old(mem)@.len(),
            r is None <==> old(fa).free() == 0,
            r is None ==> *final(fa) == *old(fa) && final(mem)@ == old(mem)@,
            r matches Some(ms) ==> {
                &&& ms.wf(final(mem)@)
                &&& ms.frames_allocated(final(fa))
                &&& ms.areas@.len() == 0
                &&& ms.trampoline is None
                &&& old(fa).next() == Some(ms.page_table.root())
                &&& forall|p: int| ms.owns(p) <==> p == ms.page_table.root()
                &&& forall|p: int|
                    final(fa).is_allocated(p) <==> old(fa).is_allocated(p) || p
                        == ms.page_table.root()
                &&& !old(fa).is_allocated(ms.page_table.root())
                &&& final(fa).free() == old(fa).free() - 1
                &&& final(mem)@ == old(mem)@.update(
                    ms.page_table.root(),
                    Seq::new(512, |i: int| 0u64),
                )
            },
    {
        match PageTable::new(fa, mem) {
            Some(page_table) => {
                let ms = MemorySet { page_table, areas: Vec::new(), trampoline: None };
                proof {
                    reveal(MemorySet::wf);
                    let root = ms.page_table.root();
                    assert(ms.page_table.frames_set().contains(root));
                    assert forall|p: int| ms.owns(p) <==> p == root by {
                        assert(ms.page_table.frames_set().contains(p) == ms.page_table.owns(p));
                    }
                    assert forall|p: int|
                        fa.is_allocated(p) <==> old(fa).is_allocated(p) || p == root by {
                        assert(fa.allocated().contains(p) == old(fa).allocated().insert(
                            root,
                        ).contains(p));
                    }
                }
                Some(ms)
            },
            None => None,
        }
    }

    /// How an address space, the memory and the allocator stand after area
    /// `idx` has been grown by the page that followed it.
    #[verifier::opaque]
    pub open spec fn grown(
        s0: MemorySet,
        s1: MemorySet,
        m0: Seq<Seq<u64>>,
        m1: Seq<Seq<u64>>,
        fa0: StackFrameAllocator,
        fa1: StackFrameAllocator,
        idx: usize,
    ) -> bool {
        &&& (s1.wf(m1))
        &&& (s1.frames_allocated(&fa1))
        &&& (fa1.wf())
        &&& (fa1.start() == fa0.start())
        &&& (fa1.end() == fa0.end())
        &&& (m1.len() == m0.len())
        &&& (s1.page_table.root_ppn == s0.page_table.root_ppn)
        &&& (s1.trampoline == s0.trampoline)
        &&& (s1.areas@.len() == s0.areas@.len())
        &&& (forall|b: int|
                0 <= b < s0.areas@.len() && b != idx ==> (#[trigger] s1.areas@[b])
                    == s0.areas@[b])
        &&& (s1.areas@[idx as int].start == s0.areas@[idx as int].start)
        &&& (s1.areas@[idx as int].end.0 == s0.areas@[idx as int].end.0 + 1)
        &&& (s1.areas@[idx as int].map_type == s0.areas@[idx as int].map_type)
        &&& (s1.areas@[idx as int].map_perm == s0.areas@[idx as int].map_perm)
        &&& (s0.areas@[idx as int].map_type == MapType::Identical ==> s1.areas@[idx as int].data_frames@ == s0.areas@[idx as int].data_frames@)
        &&& (s0.areas@[idx as int].map_type == MapType::Framed ==> {
                &&& s1.areas@[idx as int].data_frames@.len() == s0.areas@[idx as int].data_frames@.len() + 1
                &&& s1.areas@[idx as int].data_frames@.drop_last() == s0.areas@[idx as int].data_frames@
                &&& m1[s1.areas@[idx as int].data_frames@.last().ppn.0 as int]
                    == Seq::new(512, |i: int| 0u64)
            })
        &&& (forall|p: int| s0.owns(p) ==> s1.owns(p))
        &&& (forall|p: int| s0.page_table.owns(p) ==> s1.page_table.owns(p))
        &&& (forall|p: int| s0.owns_data(p) ==> s1.owns_data(p))
        &&& (forall|p: int| s1.owns(p) && !s0.owns(p) ==> !fa0.is_allocated(p))
        &&& (forall|p: int|
                fa1.is_allocated(p) <==> fa0.is_allocated(p) || (s1.owns(p)
                    && !s0.owns(p)))
        &&& (fa1.free() >= fa0.free() - missing_levels(
                m0,
                s0.page_table.root(),
                s0.areas@[idx as int].end.0 as int,
            ) - (if s0.areas@[idx as int].map_type == MapType::Framed {
                1int
            } else {
                0int
            }))
        &&& (forall|p: int|
                0 <= p < m0.len() && !s1.owns(p) ==> (#[trigger] m1[p])
                    == m0[p])
        &&& (forall|p: int|
                0 <= p < m0.len() && s0.owns_data(p) ==> (#[trigger] m1[p])
                    == m0[p])
    }

    /// Gives the page that follows the framed area `idx` a fresh zeroed frame,
    /// maps it and makes it the last page of that area.
    fn map_next_framed(&mut self, idx: usize, fa: &mut StackFrameAllocator, mem: &mut PhysMemory)
        requires
            old(self).areas@[idx as int].map_type == MapType::Framed,
            old(self).wf(old(mem)@),
            old(self).frames_allocated(old(fa)),
            idx < old(self).areas@.len(),
            old(self).areas@[idx as int].end.0 < TRAMPOLINE_VPN,
            !old(self).covered(old(self).areas@[idx as int].end.0 as int),
            old(fa).wf(),
            old(fa).end() <= old(mem)@.len(),
            old(fa).end() <= PPN_LIMIT,
            old(fa).free() >= missing_levels(
                old(mem)@,
                old(self).page_table.root(),
                old(self).areas@[idx as int].end.0 as int,
            ) + (if old(self).areas@[idx as int].map_type == MapType::Framed {
                1int
            } else {
                0int
            }),
        ensures
            Self::grown(*old(self), *final(self), old(mem)@, final(mem)@, *old(fa), *final(fa), idx),
    {
        let v: VirtPageNum = self.areas[idx].end;
        let map_type: MapType = self.areas[idx].map_type;
        let flags = PTEFlags { bits: self.areas[idx].map_perm.bits };
        let ghost m0 = mem@;
        let ghost s0 = *self;
        let ghost fa0 = *fa;
        let ghost root = self.page_table.root();
        proof {
            self.lemma_wf_facts(m0);
            assert(lookup(m0, root, v.0 as int) is None);
            self.page_table.lemma_wf_basics(m0);
        }

                let frame = match frame_alloc(fa, mem) {
                    Some(f) => f,
                    None => {
                        proof {
                            assert(false);
                        }
                        return ;
                    },
                };
                let ppn = frame.ppn;
                let ghost m1 = mem@;
                let ghost fa1 = *fa;
                proof {
                    assert(!s0.owns(ppn.0 as int));
                    self.page_table.lemma_wf_frame(m0, m1);
                    assert forall|p: int| self.page_table.owns(p) implies fa.is_allocated(p) by {
                        assert(s0.owns(p));
                        assert(fa.allocated().contains(p));
                    }
                    assert(missing_levels(m1, root, v.0 as int) == missing_levels(
                        m0,
                        root,
                        v.0 as int,
                    )) by {
                        assert(self.page_table.owns(root));
                        assert(m1[root] == m0[root]);
                        assert(lookup(m1, root, v.0 as int) == lookup(m0, root, v.0 as int));
                        let i0 = crate::mm::address::vpn_index(v.0 as int, 0);
                        if crate::mm::page_table::l1(m0, root, i0) is Some {
                            self.page_table.lemma_l1_owned(m0, i0);
                        }
                    }
                }
                let res = self.page_table.map(v, ppn, flags, fa, mem);
                self.areas[idx].data_frames.push(frame);
                self.areas[idx].end = VirtPageNum(v.0 + 1);
                proof {
                    reveal(MemorySet::grown);
                    let m2 = mem@;
                    assert(res is Ok);
                    assert(fa1.allocated().contains(ppn.0 as int));
                    assert(fa1.is_allocated(ppn.0 as int));
                    assert(!self.page_table.owns(ppn.0 as int));
                    assert(m2[ppn.0 as int] == m1[ppn.0 as int]);
                    assert forall|p: int| s0.owns_data(p) implies !self.page_table.owns(p) && m2[p]
                        == m0[p] && 0 <= p < m0.len() by {
                        assert(s0.owns(p));
                        assert(fa0.is_allocated(p));
                        assert(fa1.allocated().contains(p));
                        assert(fa1.is_allocated(p));
                        assert(!s0.page_table.owns(p));
                    }
                    assert forall|u: int| 0 <= u < VPN_LIMIT && u != v.0 implies #[trigger] lookup(
                        m2,
                        root,
                        u,
                    ) == lookup(m0, root, u) by {
                        assert(lookup(m1, root, u) == lookup(m0, root, u));
                    }
                    assert(self.areas@[idx as int].data_frames@ =~= s0.areas@[idx as int].data_frames@.push(
                        FrameTracker { ppn },
                    ));
                    Self::lemma_extend(s0, *self, m0, m2, idx as int, Some(ppn.0 as int));
                    assert forall|p: int| self.owns(p) implies fa.is_allocated(p) by {
                        if !self.page_table.owns(p) {
                            assert(self.owns_data(p));
                            if p != ppn.0 {
                                assert(s0.owns(p));
                                assert(fa0.is_allocated(p));
                                assert(fa1.allocated().contains(p));
                            }
                            assert(fa1.is_allocated(p));
                        }
                    }
                    assert forall|p: int| self.owns(p) && !s0.owns(p) implies !fa0.is_allocated(
                        p,
                    ) by {
                        if self.page_table.owns(p) {
                            assert(!s0.page_table.owns(p));
                            assert(!fa1.is_allocated(p));
                            assert(!fa1.allocated().contains(p));
                        }
                    }
                    assert forall|p: int|
                        fa.is_allocated(p) <==> fa0.is_allocated(p) || (self.owns(p) && !s0.owns(
                            p,
                        )) by {
                        assert(fa1.allocated().contains(p) == fa0.allocated().insert(
                            ppn.0 as int,
                        ).contains(p));
                    }
                    assert(self.areas@[idx as int].data_frames@.drop_last()
                        =~= s0.areas@[idx as int].data_frames@);
                }
            
    }

    /// Maps the page that follows the identical area `idx` to the frame of
    /// its own number and makes it the last page of that area.
    fn map_next_identical(&mut self, idx: usize, fa: &mut StackFrameAllocator, mem: &mut PhysMemory)
        requires
            old(self).areas@[idx as int].map_type == MapType::Identical,
            old(self).wf(old(mem)@),
            old(self).frames_allocated(old(fa)),
            idx < old(self).areas@.len(),
            old(self).areas@[idx as int].end.0 < TRAMPOLINE_VPN,
            !old(self).covered(old(self).areas@[idx as int].end.0 as int),
            old(fa).wf(),
            old(fa).end() <= old(mem)@.len(),
            old(fa).end() <= PPN_LIMIT,
            old(fa).free() >= missing_levels(
                old(mem)@,
                old(self).page_table.root(),
                old(self).areas@[idx as int].end.0 as int,
            ) + (if old(self).areas@[idx as int].map_type == MapType::Framed {
                1int
            } else {
                0int
            }),
        ensures
            Self::grown(*old(self), *final(self), old(mem)@, final(mem)@, *old(fa), *final(fa), idx),
    {
        let v: VirtPageNum = self.areas[idx].end;
        let map_type: MapType = self.areas[idx].map_type;
        let flags = PTEFlags { bits: self.areas[idx].map_perm.bits };
        let ghost m0 = mem@;
        let ghost s0 = *self;
        let ghost fa0 = *fa;
        let ghost root = self.page_table.root();
        proof {
            self.lemma_wf_facts(m0);
            assert(lookup(m0, root, v.0 as int) is None);
            self.page_table.lemma_wf_basics(m0);
        }

                let res = self.page_table.map(v, PhysPageNum(v.0), flags, fa, mem);
                self.areas[idx].end = VirtPageNum(v.0 + 1);
                proof {
                    reveal(MemorySet::grown);
                    let m2 = mem@;
                    assert(res is Ok);
                    assert forall|p: int| s0.owns_data(p) implies !self.page_table.owns(p) && m2[p]
                        == m0[p] && 0 <= p < m0.len() by {
                        assert(s0.owns(p));
                        assert(fa0.is_allocated(p));
                        assert(!s0.page_table.owns(p));
                    }
                    Self::lemma_extend(s0, *self, m0, m2, idx as int, None);
                }
            
    }

    /// Growing one area by the page that follows it keeps an address space
    /// consistent, when the page table maps that page as the area asks and
    /// no other page differently.
    proof fn lemma_extend(
        s0: MemorySet,
        s1: MemorySet,
        m0: Seq<Seq<u64>>,
        m2: Seq<Seq<u64>>,
        idx: int,
        f: Option<int>,
    )
        requires
            s0.wf(m0),
            s1.page_table.wf(m2),
            s1.page_table.root() == s0.page_table.root(),
            s1.trampoline == s0.trampoline,
            m2.len() == m0.len(),
            0 <= idx < s0.areas@.len(),
            s1.areas@.len() == s0.areas@.len(),
            forall|b: int|
                0 <= b < s0.areas@.len() && b != idx ==> (#[trigger] s1.areas@[b]) == s0.areas@[b],
            s1.areas@[idx].start == s0.areas@[idx].start,
            s1.areas@[idx].end.0 == s0.areas@[idx].end.0 + 1,
            s1.areas@[idx].map_type == s0.areas@[idx].map_type,
            s1.areas@[idx].map_perm == s0.areas@[idx].map_perm,
            s0.areas@[idx].end.0 < TRAMPOLINE_VPN,
            !s0.covered(s0.areas@[idx].end.0 as int),
            match f {
                Some(p) => {
                    &&& s0.areas@[idx].map_type == MapType::Framed
                    &&& s1.areas@[idx].data_frames@ == s0.areas@[idx].data_frames@.push(
                        FrameTracker { ppn: PhysPageNum(p as u64) },
                    )
                    &&& 0 <= p < m2.len()
                    &&& p < PPN_LIMIT
                    &&& !s1.page_table.owns(p)
                    &&& !s0.owns_data(p)
                },
                None => {
                    &&& s0.areas@[idx].map_type == MapType::Identical
                    &&& s1.areas@[idx].data_frames@ == s0.areas@[idx].data_frames@
                },
            },
            lookup(m2, s0.page_table.root(), s0.areas@[idx].end.0 as int) == Some(
                s1.areas@[idx].entry_of(s0.areas@[idx].end.0 as int),
            ),
            forall|u: int|
                0 <= u < VPN_LIMIT && u != s0.areas@[idx].end.0 ==> (#[trigger] lookup(
                    m2,
                    s0.page_table.root(),
                    u,
                )) == lookup(m0, s0.page_table.root(), u),
            forall|p: int| s0.owns_data(p) ==> !s1.page_table.owns(p),
        ensures
            s1.wf(m2),
            forall|p: int| s1.owns_data(p) <==> s0.owns_data(p) || f == Some(p),
    {
        reveal(MemorySet::wf);
        let root = s0.page_table.root();
        let v = s0.areas@[idx].end.0 as int;
        let n = s0.areas@[idx].data_frames@.len() as int;
        assert forall|a: int, k: int|
            0 <= a < s0.areas@.len() && 0 <= k
                < s0.areas@[a].data_frames@.len() implies #[trigger] s1.data_frame(a, k)
            == s0.data_frame(a, k) by {
            if a != idx {
                assert(s1.areas@[a] == s0.areas@[a]);
            }
        }
        assert forall|a: int, k: int|
            0 <= a < s1.areas@.len() && 0 <= k < s1.areas@[a].data_frames@.len() && !(a == idx
                && k == n) implies #[trigger] s1.data_frame(a, k) == s0.data_frame(a, k) && 0
            <= k < s0.areas@[a].data_frames@.len() by {
            if a != idx {
                assert(s1.areas@[a] == s0.areas@[a]);
            }
        }
        assert forall|a: int, k: int|
            0 <= a < s1.areas@.len() && 0 <= k < s1.areas@[a].data_frames@.len() implies {
            &&& 0 <= #[trigger] s1.data_frame(a, k) < m2.len()
            &&& s1.data_frame(a, k) < PPN_LIMIT
            &&& !s1.page_table.owns(s1.data_frame(a, k))
        } by {
            if a == idx && k == n {
            } else {
                assert(s1.data_frame(a, k) == s0.data_frame(a, k));
                assert(s0.owns_data(s0.data_frame(a, k)));
            }
        }
        assert forall|a: int, k: int, b: int, j: int|
            0 <= a < s1.areas@.len() && 0 <= k < s1.areas@[a].data_frames@.len() && 0 <= b
                < s1.areas@.len() && 0 <= j < s1.areas@[b].data_frames@.len() && (a != b || k
                != j) implies #[trigger] s1.data_frame(a, k) != #[trigger] s1.data_frame(b, j) by {
            if !(a == idx && k == n) {
                assert(s1.data_frame(a, k) == s0.data_frame(a, k));
                assert(s0.owns_data(s0.data_frame(a, k)));
            }
            if !(b == idx && j == n) {
                assert(s1.data_frame(b, j) == s0.data_frame(b, j));
                assert(s0.owns_data(s0.data_frame(b, j)));
            }
        }
        assert forall|a: int, u: int|
            0 <= a < s1.areas@.len() && (#[trigger] s1.areas@[a]).has_page(u) implies (
        #[trigger] lookup(m2, root, u)) == Some(s1.areas@[a].entry_of(u)) by {
            if a == idx && u == v {
            } else {
                assert(s0.areas@[a].has_page(u));
                assert(u != v);
                assert(lookup(m2, root, u) == lookup(m0, root, u));
                if a == idx {
                    if s0.areas@[a].map_type == MapType::Framed {
                        assert(s1.data_frame(a, u - s0.areas@[a].start.0) == s0.data_frame(
                            a,
                            u - s0.areas@[a].start.0,
                        ));
                    }
                } else {
                    assert(s1.areas@[a] == s0.areas@[a]);
                }
            }
        }
        assert forall|u: int|
            0 <= u < TRAMPOLINE_VPN && (#[trigger] lookup(m2, root, u)) is Some implies s1.covered(
            u,
        ) by {
            if u == v {
                assert(s1.areas@[idx].has_page(u));
            } else {
                assert(lookup(m2, root, u) == lookup(m0, root, u));
                assert(s0.covered(u));
                let a = choose|a: int|
                    0 <= a < s0.areas@.len() && (#[trigger] s0.areas@[a]).has_page(u);
                assert(s1.areas@[a].has_page(u));
            }
        }
        assert forall|a: int, b: int, u: int|
            0 <= a < s1.areas@.len() && 0 <= b < s1.areas@.len() && a != b
                && #[trigger] s1.areas@[a].has_page(u) implies !#[trigger] s1.areas@[b].has_page(
            u,
        ) by {
            if u == v {
                if a != idx {
                    assert(s0.areas@[a].has_page(u));
                }
                if b != idx && s0.areas@[b].has_page(u) {
                    assert(s0.covered(u));
                }
            } else {
                assert(s0.areas@[a].has_page(u));
                if s1.areas@[b].has_page(u) {
                    assert(s0.areas@[b].has_page(u));
                }
            }
        }
        assert(lookup(m2, root, TRAMPOLINE_VPN as int) == lookup(m0, root, TRAMPOLINE_VPN as int));
        assert forall|a: int| 0 <= a < s1.areas@.len() implies (#[trigger] s1.areas@[a]).mapped() by {
            if a != idx {
                assert(s1.areas@[a] == s0.areas@[a]);
            } else {
                assert(s0.areas@[a].mapped());
            }
        }
        assert forall|p: int| s1.owns_data(p) <==> s0.owns_data(p) || f == Some(p) by {
            if s0.owns_data(p) {
                let (a, k) = choose|a: int, k: int|
                    0 <= a < s0.areas@.len() && 0 <= k < s0.areas@[a].data_frames@.len()
                        && #[trigger] s0.data_frame(a, k) == p;
                assert(s1.data_frame(a, k) == p);
            }
            if s1.owns_data(p) {
                let (a, k) = choose|a: int, k: int|
                    0 <= a < s1.areas@.len() && 0 <= k < s1.areas@[a].data_frames@.len()
                        && #[trigger] s1.data_frame(a, k) == p;
                if !(a == idx && k == n) {
                    assert(s0.data_frame(a, k) == p);
                }
            }
            if f == Some(p) {
                assert(s1.data_frame(idx, n) == p);
            }
        }
    }

    /// How an address space, the memory and the allocator stand after area
    /// `idx` has been grown up to the page `new_end`: the area has the new
    /// end and a zeroed frame for each new page of a framed area; nothing
    /// else of the address space changed; every frame it gained was free
    /// before, and only frames that it owns were written.
    #[verifier::opaque]
    pub open spec fn extended(
        s0: MemorySet,
        s1: MemorySet,
        m0: Seq<Seq<u64>>,
        m1: Seq<Seq<u64>>,
        fa0: StackFrameAllocator,
        fa1: StackFrameAllocator,
        idx: int,
        new_end: int,
    ) -> bool {
        &&& s1.wf(m1)
        &&& s1.frames_allocated(&fa1)
        &&& fa1.wf()
        &&& fa1.start() == fa0.start()
        &&& fa1.end() == fa0.end()
        &&& m1.len() == m0.len()
        &&& s1.page_table.root_ppn == s0.page_table.root_ppn
        &&& s1.trampoline == s0.trampoline
        &&& s1.areas@.len() == s0.areas@.len()
        &&& forall|b: int|
            0 <= b < s0.areas@.len() && b != idx ==> (#[trigger] s1.areas@[b]) == s0.areas@[b]
        &&& s1.areas@[idx].start == s0.areas@[idx].start
        &&& s1.areas@[idx].end.0 == new_end
        &&& s1.areas@[idx].map_type == s0.areas@[idx].map_type
        &&& s1.areas@[idx].map_perm == s0.areas@[idx].map_perm
        &&& s0.areas@[idx].map_type == MapType::Identical ==> s1.areas@[idx].data_frames@
            == s0.areas@[idx].data_frames@
        &&& s0.areas@[idx].map_type == MapType::Framed ==> {
            &&& s1.areas@[idx].data_frames@.len() == s0.areas@[idx].data_frames@.len() + (new_end
                - s0.areas@[idx].end.0)
            &&& forall|k: int|
                0 <= k < s0.areas@[idx].data_frames@.len() ==> (
                #[trigger] s1.areas@[idx].data_frames@[k]) == s0.areas@[idx].data_frames@[k]
            &&& forall|k: int|
                s0.areas@[idx].data_frames@.len() <= k < s1.areas@[idx].data_frames@.len() ==> m1[(
                #[trigger] s1.areas@[idx].data_frames@[k]).ppn.0 as int] == Seq::new(
                    512,
                    |i: int| 0u64,
                )
        }
        &&& forall|p: int| s0.owns(p) ==> s1.owns(p)
        &&& forall|p: int| s0.page_table.owns(p) ==> s1.page_table.owns(p)
        &&& forall|p: int| s0.owns_data(p) ==> s1.owns_data(p)
        &&& forall|p: int| s1.owns(p) && !s0.owns(p) ==> !fa0.is_allocated(p)
        &&& forall|p: int|
            fa1.is_allocated(p) <==> fa0.is_allocated(p) || (s1.owns(p) && !s0.owns(p))
        &&& forall|p: int| 0 <= p < m0.len() && !s1.owns(p) ==> (#[trigger] m1[p]) == m0[p]
        &&& forall|p: int| 0 <= p < m0.len() && s0.owns_data(p) ==> (#[trigger] m1[p]) == m0[p]
    }

    /// Growing by one more page extends what has been grown so far.
    proof fn lemma_extended_step(
        s0: MemorySet,
        s1: MemorySet,
        s2: MemorySet,
        m0: Seq<Seq<u64>>,
        m1: Seq<Seq<u64>>,
        m2: Seq<Seq<u64>>,
        fa0: StackFrameAllocator,
        fa1: StackFrameAllocator,
        fa2: StackFrameAllocator,
        idx: usize,
    )
        requires
            0 <= idx < s0.areas@.len(),
            s0.areas@[idx as int].map_type == MapType::Framed ==> s0.areas@[idx as int].data_frames@.len()
                == s0.areas@[idx as int].end.0 - s0.areas@[idx as int].start.0,
            s0.areas@[idx as int].end.0 <= s1.areas@[idx as int].end.0,
            Self::extended(s0, s1, m0, m1, fa0, fa1, idx as int, s1.areas@[idx as int].end.0 as int),
            Self::grown(s1, s2, m1, m2, fa1, fa2, idx),
        ensures
            Self::extended(
                s0,
                s2,
                m0,
                m2,
                fa0,
                fa2,
                idx as int,
                s1.areas@[idx as int].end.0 + 1,
            ),
    {
        reveal(MemorySet::grown);
        reveal(MemorySet::extended);
        let i = idx as int;
        assert forall|b: int| 0 <= b < s0.areas@.len() && b != i implies (#[trigger] s2.areas@[b])
            == s0.areas@[b] by {
            assert(s1.areas@[b] == s0.areas@[b]);
        }
        if s0.areas@[i].map_type == MapType::Framed {
            let d0 = s0.areas@[i].data_frames@;
            let d1 = s1.areas@[i].data_frames@;
            let d2 = s2.areas@[i].data_frames@;
            assert(d2.drop_last() == d1);
            assert forall|k: int| 0 <= k < d1.len() implies #[trigger] d2[k] == d1[k] by {
                assert(d2.drop_last()[k] == d2[k]);
            }
            assert forall|k: int| d0.len() <= k < d2.len() implies m2[(#[trigger] d2[k]).ppn.0 as int]
                == Seq::new(512, |i: int| 0u64) by {
                if k < d1.len() {
                    assert(d2[k] == d1[k]);
                    assert(s1.data_frame(i, k) == d1[k].ppn.0);
                    assert(s1.owns_data(d1[k].ppn.0 as int));
                    s1.lemma_wf_facts(m1);
                }
            }
        }
        assert forall|p: int| 0 <= p < m0.len() && s0.owns_data(p) implies (#[trigger] m2[p])
            == m0[p] by {
            assert(s1.owns_data(p));
        }
    }

    /// Number of frames that growing a range up to `end` may still take when
    /// its pages below `v` are mapped.
    pub open spec fn budget(v: int, end: int, map_type: MapType) -> int {
        ((end + 511) / 512 - (v + 511) / 512) + ((end + 262143) / 262144 - (v + 262143) / 262144)
            + (if map_type == MapType::Framed {
            end - v
        } else {
            0
        })
    }

    /// A page whose predecessor is mapped lacks a node only where it is the
    /// first page of that node.
    proof fn lemma_missing_after_neighbour(m: Seq<Seq<u64>>, root: int, v: int)
        requires
            0 < v < VPN_LIMIT,
            lookup(m, root, v - 1) is Some,
        ensures
            missing_levels(m, root, v) <= (if v % 512 == 0 {
                1int
            } else {
                0int
            }) + (if v % 262144 == 0 {
                1int
            } else {
                0int
            }),
    {
        let i0 = crate::mm::address::vpn_index(v, 0);
        let i1 = crate::mm::address::vpn_index(v, 1);
        let j0 = crate::mm::address::vpn_index(v - 1, 0);
        let j1 = crate::mm::address::vpn_index(v - 1, 1);
        assert(crate::mm::page_table::l2(m, root, j0, j1) is Some);
        assert(crate::mm::page_table::l1(m, root, j0) is Some);
        if v % 512 != 0 {
            assert(i0 == j0 && i1 == j1);
        } else if v % 262144 != 0 {
            assert(i0 == j0);
        }
    }

    /// Mapping one page lowers the budget by the frame of the page and by one
    /// for each node whose first page it is.
    proof fn lemma_budget_diff(v: int, end: int, map_type: MapType)
        requires
            0 <= v < end,
        ensures
            Self::budget(v, end, map_type) - Self::budget(v + 1, end, map_type) == (if map_type
                == MapType::Framed {
                1int
            } else {
                0int
            }) + (if v % 512 == 0 {
                1int
            } else {
                0int
            }) + (if v % 262144 == 0 {
                1int
            } else {
                0int
            }),
            Self::budget(v + 1, end, map_type) >= 0,
    {
        assert((v + 512) / 512 - (v + 511) / 512 == (if v % 512 == 0 {
            1int
        } else {
            0int
        }));
        assert((v + 262144) / 262144 - (v + 262143) / 262144 == (if v % 262144 == 0 {
            1int
        } else {
            0int
        }));
    }

    /// The frames that are free before a page is mapped suffice for it and
    /// for the pages after it.
    proof fn lemma_budget_step(
        m: Seq<Seq<u64>>,
        root: int,
        v: int,
        start: int,
        end: int,
        map_type: MapType,
        free: int,
    )
        requires
            0 <= start <= v < end <= TRAMPOLINE_VPN,
            v > start ==> lookup(m, root, v - 1) is Some,
            free >= Self::budget(v, end, map_type) + (if v == start {
                2int
            } else {
                0int
            }),
        ensures
            free >= missing_levels(m, root, v) + (if map_type == MapType::Framed {
                1int
            } else {
                0int
            }),
            free - missing_levels(m, root, v) - (if map_type == MapType::Framed {
                1int
            } else {
                0int
            }) >= Self::budget(v + 1, end, map_type),
            Self::budget(v, end, map_type) - Self::budget(v + 1, end, map_type) >= (
            if map_type == MapType::Framed {
                1int
            } else {
                0int
            }) + (if v > start {
                missing_levels(m, root, v)
            } else {
                0
            }),
    {
        Self::lemma_budget_diff(v, end, map_type);
        let b0 = Self::budget(v, end, map_type);
        let b1 = Self::budget(v + 1, end, map_type);
        let ml = missing_levels(m, root, v);
        assert(0 <= ml <= 2);
        if v > start {
            Self::lemma_missing_after_neighbour(m, root, v);
        }
    }

    /// What holds while the pages `[start, end)` are mapped one by one into
    /// area `idx`, which was empty in the state `s0`.
    #[verifier::opaque]
    pub open spec fn growing(
        s0: MemorySet,
        s1: MemorySet,
        m0: Seq<Seq<u64>>,
        m1: Seq<Seq<u64>>,
        fa0: StackFrameAllocator,
        fa1: StackFrameAllocator,
        idx: usize,
        start: int,
        end: int,
    ) -> bool {
        let v = s1.areas@[idx as int].end.0 as int;
        let map_type = s0.areas@[idx as int].map_type;
        &&& idx < s0.areas@.len()
        &&& s1.areas@.len() == s0.areas@.len()
        &&& s0.areas@[idx as int].start == s0.areas@[idx as int].end
        &&& s0.areas@[idx as int].start.0 == start
        &&& s0.areas@[idx as int].map_type == MapType::Framed
            ==> s0.areas@[idx as int].data_frames@.len() == 0
        &&& start <= v <= end <= TRAMPOLINE_VPN
        &&& Self::extended(s0, s1, m0, m1, fa0, fa1, idx as int, v)
        &&& forall|u: int| start <= u < end ==> !s0.covered(u)
        &&& fa1.end() <= m1.len()
        &&& fa1.end() <= PPN_LIMIT
        &&& fa1.free() >= Self::budget(v, end, map_type) + (if v == start && start < end {
            2int
        } else {
            0int
        })
        &&& fa1.free() >= fa0.free() - frames_needed(start, end, map_type) + Self::budget(
            v,
            end,
            map_type,
        ) + (if v == start && start < end {
            2int
        } else {
            0int
        })
    }

    /// Maps the next page of the range `[start, end)` into area `idx`.
    fn grow_step(
        &mut self,
        idx: usize,
        fa: &mut StackFrameAllocator,
        mem: &mut PhysMemory,
        Ghost(s0): Ghost<MemorySet>,
        Ghost(m0): Ghost<Seq<Seq<u64>>>,
        Ghost(fa0): Ghost<StackFrameAllocator>,
        Ghost(start): Ghost<int>,
        Ghost(end): Ghost<int>,
    )
        requires
            Self::growing(s0, *old(self), m0, old(mem)@, fa0, *old(fa), idx, start, end),
            idx < old(self).areas@.len(),
            old(self).areas@[idx as int].end.0 < end,
        ensures
            Self::growing(s0, *final(self), m0, final(mem)@, fa0, *final(fa), idx, start, end),
            idx < final(self).areas@.len(),
            final(self).areas@[idx as int].end.0 == old(self).areas@[idx as int].end.0 + 1,
    {
        let ghost s1 = *self;
        let ghost m1 = mem@;
        let ghost fa1 = *fa;
        let ghost v = self.areas@[idx as int].end.0 as int;
        proof {
            reveal(MemorySet::growing);
            Self::lemma_extended_facts(s0, s1, m0, m1, fa0, fa1, idx as int, v);
            s1.lemma_wf_facts(m1);
            if v > start {
                assert(s1.areas@[idx as int].has_page(v - 1));
                assert(lookup(m1, s1.page_table.root(), v - 1) is Some);
            }
            Self::lemma_budget_step(
                m1,
                s1.page_table.root(),
                v,
                start,
                end,
                s0.areas@[idx as int].map_type,
                fa1.free(),
            );
        }
        let map_type: MapType = self.areas[idx].map_type;
        match map_type {
            MapType::Framed => {
                self.map_next_framed(idx, fa, mem);
            },
            MapType::Identical => {
                self.map_next_identical(idx, fa, mem);
            },
        }
        proof {
            Self::lemma_grown_facts(s1, *self, m1, mem@, fa1, *fa, idx);
            Self::lemma_extended_step(s0, s1, *self, m0, m1, mem@, fa0, fa1, *fa, idx);
            Self::lemma_extended_facts(s0, *self, m0, mem@, fa0, *fa, idx as int, v + 1);
        }
    }

    /// Maps the pages from the end of area `idx` up to `end` and makes them
    /// pages of that area.
    fn grow_area(
        &mut self,
        idx: usize,
        end: VirtPageNum,
        fa: &mut StackFrameAllocator,
        mem: &mut PhysMemory,
    )
        requires
            old(self).wf(old(mem)@),
            old(self).frames_allocated(old(fa)),
            idx < old(self).areas@.len(),
            old(self).areas@[idx as int].start == old(self).areas@[idx as int].end,
            old(self).areas@[idx as int].end.0 <= end.0 <= TRAMPOLINE_VPN,
            forall|v: int|
                old(self).areas@[idx as int].end.0 <= v < end.0 ==> !old(self).covered(v),
            old(fa).wf(),
            old(fa).end() <= old(mem)@.len(),
            old(fa).end() <= PPN_LIMIT,
            old(fa).free() >= frames_needed(
                old(self).areas@[idx as int].end.0 as int,
                end.0 as int,
                old(self).areas@[idx as int].map_type,
            ),
        ensures
            Self::extended(
                *old(self),
                *final(self),
                old(mem)@,
                final(mem)@,
                *old(fa),
                *final(fa),
                idx as int,
                end.0 as int,
            ),
            final(fa).free() >= old(fa).free() - frames_needed(
                old(self).areas@[idx as int].end.0 as int,
                end.0 as int,
                old(self).areas@[idx as int].map_type,
            ),
    {
        let ghost s0 = *self;
        let ghost m0 = mem@;
        let ghost fa0 = *fa;
        let ghost start = self.areas@[idx as int].end.0 as int;
        proof {
            s0.lemma_wf_facts(m0);
            assert(s0.areas@[idx as int].mapped());
            assert(Self::extended(s0, *self, m0, m0, fa0, fa0, idx as int, start)) by {
                reveal(MemorySet::extended);
            }
            assert(Self::growing(s0, *self, m0, m0, fa0, fa0, idx, start, end.0 as int)) by {
                reveal(MemorySet::growing);
            }
        }
        while self.areas[idx].end.0 < end.0
            invariant
                idx < self.areas@.len(),
                Self::growing(s0, *self, m0, mem@, fa0, *fa, idx, start, end.0 as int),
            decreases end.0 - self.areas@[idx as int].end.0,
        {
            self.grow_step(idx, fa, mem, Ghost(s0), Ghost(m0), Ghost(fa0), Ghost(start), Ghost(end.0 as int));
        }
        proof {
            reveal(MemorySet::growing);
        }
    }

    /// What the loop that grows an area needs of what has been grown so far.
    proof fn lemma_extended_facts(
        s0: MemorySet,
        s1: MemorySet,
        m0: Seq<Seq<u64>>,
        m1: Seq<Seq<u64>>,
        fa0: StackFrameAllocator,
        fa1: StackFrameAllocator,
        idx: int,
        v: int,
    )
        requires
            0 <= idx < s0.areas@.len(),
            s0.areas@[idx].start == s0.areas@[idx].end,
            Self::extended(s0, s1, m0, m1, fa0, fa1, idx, v),
        ensures
            s1.wf(m1),
            s1.frames_allocated(&fa1),
            fa1.wf(),
            fa1.start() == fa0.start(),
            fa1.end() == fa0.end(),
            m1.len() == m0.len(),
            s1.areas@.len() == s0.areas@.len(),
            s1.areas@[idx].end.0 == v,
            s1.areas@[idx].start == s0.areas@[idx].start,
            s1.areas@[idx].map_type == s0.areas@[idx].map_type,
            forall|u: int| u >= v && !s0.covered(u) ==> !s1.covered(u),
    {
        reveal(MemorySet::extended);
        assert forall|u: int| u >= v && !s0.covered(u) implies !s1.covered(u) by {
            if s1.covered(u) {
                let a = choose|a: int|
                    0 <= a < s1.areas@.len() && (#[trigger] s1.areas@[a]).has_page(u);
                if a != idx {
                    assert(s0.areas@[a].has_page(u));
                    assert(s0.covered(u));
                }
            }
        }
    }

    /// What the loop that grows an area needs of one step.
    proof fn lemma_grown_facts(
        s0: MemorySet,
        s1: MemorySet,
        m0: Seq<Seq<u64>>,
        m1: Seq<Seq<u64>>,
        fa0: StackFrameAllocator,
        fa1: StackFrameAllocator,
        idx: usize,
    )
        requires
            Self::grown(s0, s1, m0, m1, fa0, fa1, idx),
        ensures
            fa1.end() == fa0.end(),
            m1.len() == m0.len(),
            s1.areas@[idx as int].end.0 == s0.areas@[idx as int].end.0 + 1,
            fa1.free() >= fa0.free() - missing_levels(
                m0,
                s0.page_table.root(),
                s0.areas@[idx as int].end.0 as int,
            ) - (if s0.areas@[idx as int].map_type == MapType::Framed {
                1int
            } else {
                0int
            }),
    {
        reveal(MemorySet::grown);
    }

    /// Whether some page of `[start, end)` lies in an area.
    pub open spec fn overlaps(&self, start: int, end: int) -> bool {
        exists|v: int| start <= v < end && #[trigger] self.covered(v)
    }

    /// Whether no page of `[start, end)` lies in an area.
    pub fn range_is_free(&self, start: VirtPageNum, end: VirtPageNum) -> (r: bool)
        ensures
            r == !self.overlaps(start.0 as int, end.0 as int),
    {
        let mut i: usize = 0;
        while i < self.areas.len()
            invariant
                i <= self.areas@.len(),
                forall|a: int, v: int|
                    0 <= a < i && start.0 <= v < end.0 ==> !#[trigger] self.areas@[a].has_page(v),
            decreases self.areas@.len() - i,
        {
            let a_start: u64 = self.areas[i].start.0;
            let a_end: u64 = self.areas[i].end.0;
            let lo: u64 = if start.0 > a_start {
                start.0
            } else {
                a_start
            };
            let hi: u64 = if end.0 < a_end {
                end.0
            } else {
                a_end
            };
            if lo < hi {
                proof {
                    assert(self.areas@[i as int].has_page(lo as int));
                    assert(self.covered(lo as int));
                }
                return false;
            }
            i = i + 1;
        }
        proof {
            if self.overlaps(start.0 as int, end.0 as int) {
                let v = choose|v: int| start.0 <= v < end.0 && #[trigger] self.covered(v);
                let a = choose|a: int|
                    0 <= a < self.areas@.len() && (#[trigger] self.areas@[a]).has_page(v);
                assert(self.areas@[a].has_page(v));
            }
        }
        true
    }

    /// The frames that must be free before an area of pages `[start, end)`
    /// is taken.
    pub fn frames_needed_of(start: VirtPageNum, end: VirtPageNum, map_type: MapType) -> (r: u64)
        requires
            start.0 <= end.0 <= TRAMPOLINE_VPN,
        ensures
            r == frames_needed(start.0 as int, end.0 as int, map_type),
    {
        if start.0 >= end.0 {
            return 0;
        }
        let l2: u64 = (end.0 + 511) / 512 - (start.0 + 511) / 512;
        let l1: u64 = (end.0 + 262143) / 262144 - (start.0 + 262143) / 262144;
        let pages: u64 = match map_type {
            MapType::Framed => end.0 - start.0,
            MapType::Identical => 0,
        };
        l2 + l1 + 2 + pages
    }

    /// An empty area added at the end of the list changes nothing.
    proof fn lemma_push_empty(s0: MemorySet, s1: MemorySet, m: Seq<Seq<u64>>)
        requires
            s0.wf(m),
            s1.page_table == s0.page_table,
            s1.trampoline == s0.trampoline,
            s1.areas@.len() == s0.areas@.len() + 1,
            forall|b: int| 0 <= b < s0.areas@.len() ==> (#[trigger] s1.areas@[b]) == s0.areas@[b],
            s1.areas@.last().start == s1.areas@.last().end,
            s1.areas@.last().end.0 <= TRAMPOLINE_VPN,
            s1.areas@.last().data_frames@.len() == 0,
        ensures
            s1.wf(m),
            forall|p: int| s1.owns(p) <==> s0.owns(p),
            forall|p: int| s1.owns_data(p) <==> s0.owns_data(p),
            forall|v: int| s1.covered(v) <==> s0.covered(v),
    {
        reveal(MemorySet::wf);
        let n = s0.areas@.len() as int;
        assert forall|a: int, k: int|
            0 <= a < s1.areas@.len() && 0 <= k
                < s1.areas@[a].data_frames@.len() implies #[trigger] s1.data_frame(a, k)
            == s0.data_frame(a, k) && a < n by {
            if a < n {
                assert(s1.areas@[a] == s0.areas@[a]);
            }
        }
        assert forall|p: int| s1.owns_data(p) <==> s0.owns_data(p) by {
            if s0.owns_data(p) {
                let (a, k) = choose|a: int, k: int|
                    0 <= a < s0.areas@.len() && 0 <= k < s0.areas@[a].data_frames@.len()
                        && #[trigger] s0.data_frame(a, k) == p;
                assert(s1.areas@[a] == s0.areas@[a]);
                assert(s1.data_frame(a, k) == p);
            }
            if s1.owns_data(p) {
                let (a, k) = choose|a: int, k: int|
                    0 <= a < s1.areas@.len() && 0 <= k < s1.areas@[a].data_frames@.len()
                        && #[trigger] s1.data_frame(a, k) == p;
                assert(s0.data_frame(a, k) == p);
            }
        }
        assert forall|v: int| s1.covered(v) <==> s0.covered(v) by {
            if s0.covered(v) {
                let a = choose|a: int|
                    0 <= a < s0.areas@.len() && (#[trigger] s0.areas@[a]).has_page(v);
                assert(s1.areas@[a] == s0.areas@[a]);
                assert(s1.areas@[a].has_page(v));
            }
            if s1.covered(v) {
                let a = choose|a: int|
                    0 <= a < s1.areas@.len() && (#[trigger] s1.areas@[a]).has_page(v);
                assert(a < n);
                assert(s1.areas@[a] == s0.areas@[a]);
                assert(s0.areas@[a].has_page(v));
            }
        }
        assert forall|a: int| 0 <= a < s1.areas@.len() implies (#[trigger] s1.areas@[a]).mapped() by {
            if a < n {
                assert(s1.areas@[a] == s0.areas@[a]);
            }
        }
        assert forall|a: int, b: int, v: int|
            0 <= a < s1.areas@.len() && 0 <= b < s1.areas@.len() && a != b
                && #[trigger] s1.areas@[a].has_page(v) implies !#[trigger] s1.areas@[b].has_page(
            v,
        ) by {
            assert(a < n);
            assert(s1.areas@[a] == s0.areas@[a]);
            if b < n {
                assert(s1.areas@[b] == s0.areas@[b]);
                assert(s0.areas@[a].has_page(v));
            }
        }
        assert forall|a: int, v: int|
            0 <= a < s1.areas@.len() && (#[trigger] s1.areas@[a]).has_page(v) implies (
        #[trigger] lookup(m, s1.page_table.root(), v)) == Some(s1.areas@[a].entry_of(v)) by {
            assert(a < n);
            assert(s1.areas@[a] == s0.areas@[a]);
        }
    }

    /// The bytes that page `k` of an area holds after `data` has been copied
    /// to the start of the area: the bytes of `data` that fall into the
    /// page, then zeros.
    pub open spec fn page_bytes(data: Seq<u8>, k: int) -> Seq<u8> {
        Seq::new(
            4096,
            |o: int|
                if k * 4096 + o < data.len() {
                    data[k * 4096 + o]
                } else {
                    0u8
                },
        )
    }

    /// How an address space, the memory and the allocator stand after an
    /// area of pages `[start, end)` has been added with `data` at its start:
    /// the area is the last of the list, the others are as before, a framed
    /// area owns a frame per page that holds the bytes of `data` and then
    /// zeros; every frame that the address space gained was free before, and
    /// no frame of another owner was written.
    #[verifier::opaque]
    pub open spec fn appended(
        s0: MemorySet,
        s1: MemorySet,
        m0: Seq<Seq<u64>>,
        m1: Seq<Seq<u64>>,
        fa0: StackFrameAllocator,
        fa1: StackFrameAllocator,
        start: int,
        end: int,
        map_type: MapType,
        map_perm: MapPermission,
        data: Seq<u8>,
    ) -> bool {
        &&& s1.wf(m1)
        &&& s1.frames_allocated(&fa1)
        &&& fa1.wf()
        &&& fa1.start() == fa0.start()
        &&& fa1.end() == fa0.end()
        &&& m1.len() == m0.len()
        &&& s1.page_table.root_ppn == s0.page_table.root_ppn
        &&& s1.trampoline == s0.trampoline
        &&& s1.areas@.len() == s0.areas@.len() + 1
        &&& forall|b: int| 0 <= b < s0.areas@.len() ==> (#[trigger] s1.areas@[b]) == s0.areas@[b]
        &&& s1.areas@.last().start.0 == start
        &&& s1.areas@.last().end.0 == end
        &&& s1.areas@.last().map_type == map_type
        &&& s1.areas@.last().map_perm == map_perm
        &&& map_type == MapType::Framed ==> forall|k: int|
            0 <= k < end - start ==> frame_bytes(
                m1[(#[trigger] s1.areas@.last().data_frames@[k]).ppn.0 as int],
            ) == Self::page_bytes(data, k)
        &&& forall|p: int| s0.owns(p) ==> s1.owns(p)
        &&& forall|p: int| s0.page_table.owns(p) ==> s1.page_table.owns(p)
        &&& forall|p: int| s0.owns_data(p) ==> s1.owns_data(p)
        &&& forall|p: int| s1.owns(p) && !s0.owns(p) ==> !fa0.is_allocated(p)
        &&& forall|p: int|
            fa1.is_allocated(p) <==> fa0.is_allocated(p) || (s1.owns(p) && !s0.owns(p))
        &&& fa1.free() >= fa0.free() - frames_needed(start, end, map_type)
        &&& forall|p: int| 0 <= p < m0.len() && !s1.owns(p) ==> (#[trigger] m1[p]) == m0[p]
        &&& forall|p: int| 0 <= p < m0.len() && s0.owns_data(p) ==> (#[trigger] m1[p]) == m0[p]
    }

    /// Copies `data` to the start of the framed area `idx`, whose frames hold
    /// zeros.
    fn copy_data(&self, idx: usize, data: &[u8], mem: &mut PhysMemory)
        requires
            self.wf(old(mem)@),
            idx < self.areas@.len(),
            self.areas@[idx as int].map_type == MapType::Framed,
            data@.len() <= (self.areas@[idx as int].end.0 - self.areas@[idx as int].start.0) * 4096,
            forall|k: int|
                0 <= k < self.areas@[idx as int].data_frames@.len() ==> old(mem)@[(
                #[trigger] self.areas@[idx as int].data_frames@[k]).ppn.0 as int] == Seq::new(
                    512,
                    |i: int| 0u64,
                ),
        ensures
            self.wf(final(mem)@),
            final(mem)@.len() == old(mem)@.len(),
            forall|k: int|
                0 <= k < self.areas@[idx as int].data_frames@.len() ==> frame_bytes(
                    final(mem)@[(#[trigger] self.areas@[idx as int].data_frames@[k]).ppn.0 as int],
                ) == Self::page_bytes(data@, k),
            forall|p: int|
                0 <= p < old(mem)@.len() && !(exists|k: int|
                    0 <= k < self.areas@[idx as int].data_frames@.len() && (
                    #[trigger] self.areas@[idx as int].data_frames@[k]).ppn.0 == p) ==> (
                #[trigger] final(mem)@[p]) == old(mem)@[p],
    {
        let ghost m0 = mem@;
        let ghost frames = self.areas@[idx as int].data_frames@;
        proof {
            self.lemma_wf_facts(m0);
            reveal(MemorySet::wf);
            assert(self.areas@[idx as int].mapped());
            assert forall|k: int| 0 <= k < frames.len() implies (#[trigger] frames[k]).ppn.0
                < m0.len() by {
                assert(self.data_frame(idx as int, k) == frames[k].ppn.0);
            }
            assert forall|k: int| 0 <= k < frames.len() implies frame_bytes(
                m0[(#[trigger] frames[k]).ppn.0 as int],
            ) =~= Seq::new(4096, |o: int| 0u8) by {
                let f = m0[frames[k].ppn.0 as int];
                assert forall|o: int| 0 <= o < 4096 implies frame_bytes(f)[o] == 0u8 by {
                    let kk = (o % 8) as u64;
                    assert(((0u64 >> (8 * kk)) & 0xff) as u8 == 0u8) by (bit_vector);
                }
            }
        }
        let mut i: usize = 0;
        while i < data.len()
            invariant
                i <= data@.len(),
                idx < self.areas@.len(),
                frames == self.areas@[idx as int].data_frames@,
                data@.len() <= frames.len() * 4096,
                self.wf(mem@),
                forall|k: int| 0 <= k < frames.len() ==> (#[trigger] frames[k]).ppn.0 < m0.len(),
                mem@.len() == m0.len(),
                forall|a: int, k: int, b: int, j: int|
                    0 <= a < self.areas@.len() && 0 <= k < self.areas@[a].data_frames@.len() && 0
                        <= b < self.areas@.len() && 0 <= j < self.areas@[b].data_frames@.len()
                        && (a != b || k != j) ==> #[trigger] self.data_frame(a, k)
                        != #[trigger] self.data_frame(b, j),
                forall|k: int, o: int|
                    0 <= k < frames.len() && 0 <= o < 4096 ==> #[trigger] frame_bytes(
                        mem@[frames[k].ppn.0 as int],
                    )[o] == (if k * 4096 + o < i {
                        data@[k * 4096 + o]
                    } else {
                        0u8
                    }),
                forall|p: int|
                    0 <= p < m0.len() && !(exists|k: int|
                        0 <= k < frames.len() && (#[trigger] frames[k]).ppn.0 == p) ==> (
                    #[trigger] mem@[p]) == m0[p],
            decreases data@.len() - i,
        {
            let k: usize = i / 4096;
            let off: usize = i % 4096;
            let ppn = self.areas[idx].data_frames[k].ppn;
            let ghost m1 = mem@;
            proof {
                self.lemma_wf_facts(m1);
                self.page_table.lemma_wf_basics(m1);
                assert(self.data_frame(idx as int, k as int) == ppn.0);
                assert(self.owns_data(ppn.0 as int));
            }
            mem.write_byte(ppn, off, data[i]);
            proof {
                self.lemma_wf_frame(m1, mem@);
                assert forall|kk: int, o: int|
                    0 <= kk < frames.len() && 0 <= o < 4096 implies #[trigger] frame_bytes(
                    mem@[frames[kk].ppn.0 as int],
                )[o] == (if kk * 4096 + o < i + 1 {
                    data@[kk * 4096 + o]
                } else {
                    0u8
                }) by {
                    if kk != k {
                        assert(self.data_frame(idx as int, kk) != self.data_frame(
                            idx as int,
                            k as int,
                        ));
                        assert(mem@[frames[kk].ppn.0 as int] == m1[frames[kk].ppn.0 as int]);
                    }
                }
            }
            i = i + 1;
        }
        proof {
            assert forall|k: int| 0 <= k < frames.len() implies frame_bytes(
                mem@[(#[trigger] frames[k]).ppn.0 as int],
            ) == Self::page_bytes(data@, k) by {
                assert forall|o: int| 0 <= o < 4096 implies frame_bytes(
                    mem@[frames[k].ppn.0 as int],
                )[o] == Self::page_bytes(data@, k)[o] by {}
                assert(frame_bytes(mem@[frames[k].ppn.0 as int]) =~= Self::page_bytes(data@, k));
            }
        }
    }

    /// An empty area that is pushed, grown to its range and filled amounts to
    /// an area that is added.
    proof fn lemma_appended(
        s0: MemorySet,
        sp: MemorySet,
        s1: MemorySet,
        m0: Seq<Seq<u64>>,
        m1: Seq<Seq<u64>>,
        m2: Seq<Seq<u64>>,
        fa0: StackFrameAllocator,
        fa1: StackFrameAllocator,
        start: int,
        end: int,
        map_type: MapType,
        map_perm: MapPermission,
        data: Seq<u8>,
    )
        requires
            s0.wf(m0),
            s0.frames_allocated(&fa0),
            sp.page_table == s0.page_table,
            sp.trampoline == s0.trampoline,
            sp.areas@.len() == s0.areas@.len() + 1,
            forall|b: int| 0 <= b < s0.areas@.len() ==> (#[trigger] sp.areas@[b]) == s0.areas@[b],
            sp.areas@.last().start.0 == start,
            sp.areas@.last().end.0 == start,
            sp.areas@.last().map_type == map_type,
            sp.areas@.last().map_perm == map_perm,
            sp.areas@.last().data_frames@.len() == 0,
            start <= end <= TRAMPOLINE_VPN,
            Self::extended(sp, s1, m0, m1, fa0, fa1, s0.areas@.len() as int, end),
            s1.wf(m2),
            m2.len() == m1.len(),
            map_type == MapType::Framed ==> forall|k: int|
                0 <= k < end - start ==> frame_bytes(
                    m2[(#[trigger] s1.areas@.last().data_frames@[k]).ppn.0 as int],
                ) == Self::page_bytes(data, k),
            forall|p: int|
                0 <= p < m1.len() && !(exists|k: int|
                    0 <= k < s1.areas@.last().data_frames@.len() && (
                    #[trigger] s1.areas@.last().data_frames@[k]).ppn.0 == p) ==> (#[trigger] m2[p])
                    == m1[p],
            fa1.free() >= fa0.free() - frames_needed(start, end, map_type),
        ensures
            Self::appended(s0, s1, m0, m2, fa0, fa1, start, end, map_type, map_perm, data),
    {
        reveal(MemorySet::extended);
        reveal(MemorySet::appended);
        Self::lemma_push_empty(s0, sp, m0);
        let n = s0.areas@.len() as int;
        assert forall|b: int| 0 <= b < s0.areas@.len() implies (#[trigger] s1.areas@[b])
            == s0.areas@[b] by {
            assert(s1.areas@[b] == sp.areas@[b]);
        }
        assert forall|p: int|
            0 <= p < m1.len() && (exists|k: int|
                0 <= k < s1.areas@.last().data_frames@.len() && (
                #[trigger] s1.areas@.last().data_frames@[k]).ppn.0 == p) implies s1.owns_data(p)
            && !s0.owns(p) by {
            let k = choose|k: int|
                0 <= k < s1.areas@.last().data_frames@.len() && (
                #[trigger] s1.areas@.last().data_frames@[k]).ppn.0 == p;
            assert(s1.data_frame(n, k) == p);
            assert(s1.owns_data(p));
            s1.lemma_wf_facts(m2);
            if sp.owns_data(p) {
                let (a, j) = choose|a: int, j: int|
                    0 <= a < sp.areas@.len() && 0 <= j < sp.areas@[a].data_frames@.len()
                        && #[trigger] sp.data_frame(a, j) == p;
                assert(a < n);
                assert(s1.areas@[a] == sp.areas@[a]);
                assert(s1.data_frame(a, j) == p);
                s1.lemma_distinct(m2, a, j, n, k);
            }
            if sp.page_table.owns(p) {
                assert(s1.page_table.owns(p));
            }
        }
        assert forall|p: int| 0 <= p < m0.len() && !s1.owns(p) implies (#[trigger] m2[p])
            == m0[p] by {}
        assert forall|p: int| 0 <= p < m0.len() && s0.owns_data(p) implies (#[trigger] m2[p])
            == m0[p] by {
            assert(sp.owns_data(p));
        }
    }

    /// Frames of different pages differ.
    pub proof fn lemma_distinct(&self, m: Seq<Seq<u64>>, a: int, k: int, b: int, j: int)
        requires
            self.wf(m),
            0 <= a < self.areas@.len(),
            0 <= k < self.areas@[a].data_frames@.len(),
            0 <= b < self.areas@.len(),
            0 <= j < self.areas@[b].data_frames@.len(),
            a != b || k != j,
        ensures
            self.data_frame(a, k) != self.data_frame(b, j),
    {
        reveal(MemorySet::wf);
    }

    /// Adds the area that `map_area` describes: maps its pages, gives each
    /// page of a framed area a zeroed frame, and copies `data`, if any, to
    /// the start of the area.
    ///
    /// Refused, with nothing changed: a range that is inverted or reaches the
    /// trampoline page; a range that shares a page with an area; and an area
    /// for which the allocator does not hold [`frames_needed`] free frames.
    pub fn push(
        &mut self,
        map_area: MapArea,
        data: Option<&[u8]>,
        fa: &mut StackFrameAllocator,
        mem: &mut PhysMemory,
    ) -> (r: Result<(), AreaError>)
        requires
            old(self).wf(old(mem)@),
            old(self).frames_allocated(old(fa)),
            old(fa).wf(),
            old(fa).end() <= old(mem)@.len(),
            old(fa).end() <= PPN_LIMIT,
            map_area.data_frames@.len() == 0,
            data matches Some(d) ==> map_area.map_type == MapType::Framed && (map_area.start.0
                <= map_area.end.0 ==> d@.len() <= (map_area.end.0 - map_area.start.0) * 4096),
        ensures
            r == Err::<(), AreaError>(AreaError::InvalidRange) <==> map_area.start.0
                > map_area.end.0 || map_area.end.0 > TRAMPOLINE_VPN,
            r == Err::<(), AreaError>(AreaError::Overlap) <==> map_area.start.0 <= map_area.end.0
                <= TRAMPOLINE_VPN && old(self).overlaps(
                map_area.start.0 as int,
                map_area.end.0 as int,
            ),
            r == Err::<(), AreaError>(AreaError::OutOfFrames) <==> map_area.start.0
                <= map_area.end.0 <= TRAMPOLINE_VPN && !old(self).overlaps(
                map_area.start.0 as int,
                map_area.end.0 as int,
            ) && old(fa).free() < frames_needed(
                map_area.start.0 as int,
                map_area.end.0 as int,
                map_area.map_type,
            ),
            r is Ok <==> map_area.start.0 <= map_area.end.0 <= TRAMPOLINE_VPN && !old(self).overlaps(map_area.start.0 as int, map_area.end.0 as int) && old(fa).free()
                >= frames_needed(
                map_area.start.0 as int,
                map_area.end.0 as int,
                map_area.map_type,
            ),
            r is Err ==> *final(self) == *old(self) && final(mem)@ == old(mem)@ && *final(fa)
                == *old(fa),
            r is Ok ==> Self::appended(
                *old(self),
                *final(self),
                old(mem)@,
                final(mem)@,
                *old(fa),
                *final(fa),
                map_area.start.0 as int,
                map_area.end.0 as int,
                map_area.map_type,
                map_area.map_perm,
                match data {
                    Some(d) => d@,
                    None => Seq::<u8>::empty(),
                },
            ),
    {
        let start: VirtPageNum = map_area.start;
        let end: VirtPageNum = map_area.end;
        let map_type: MapType = map_area.map_type;
        let map_perm: MapPermission = map_area.map_perm;
        if start.0 > end.0 || end.0 > TRAMPOLINE_VPN {
            return Err(AreaError::InvalidRange);
        }
        if !self.range_is_free(start, end) {
            return Err(AreaError::Overlap);
        }
        if !fa.has_free(Self::frames_needed_of(start, end, map_type)) {
            return Err(AreaError::OutOfFrames);
        }
        let ghost s0 = *self;
        let ghost m0 = mem@;
        let ghost fa0 = *fa;
        self.areas.push(
            MapArea { start, end: start, data_frames: map_area.data_frames, map_type, map_perm },
        );
        let idx: usize = self.areas.len() - 1;
        let ghost sp = *self;
        proof {
            Self::lemma_push_empty(s0, sp, m0);
            assert forall|v: int| start.0 <= v < end.0 implies !sp.covered(v) by {
                if sp.covered(v) {
                    assert(s0.covered(v));
                }
            }
        }
        self.grow_area(idx, end, fa, mem);
        let ghost m1 = mem@;
        proof {
            Self::lemma_extended_facts(sp, *self, m0, m1, fa0, *fa, idx as int, end.0 as int);
            assert(self.areas@[idx as int].data_frames@.len() == (if map_type == MapType::Framed {
                end.0 - start.0
            } else {
                0
            })) by {
                reveal(MemorySet::extended);
            }
        }
        match map_type {
            MapType::Framed => {
                proof {
                    reveal(MemorySet::extended);
                }
                match data {
                    Some(d) => {
                        self.copy_data(idx, d, mem);
                    },
                    None => {
                        let empty: Vec<u8> = Vec::new();
                        self.copy_data(idx, empty.as_slice(), mem);
                    },
                }
            },
            MapType::Identical => {},
        }
        proof {
            Self::lemma_appended(
                s0,
                sp,
                *self,
                m0,
                m1,
                mem@,
                fa0,
                *fa,
                start.0 as int,
                end.0 as int,
                map_type,
                map_perm,
                match data {
                    Some(d) => d@,
                    None => Seq::<u8>::empty(),
                },
            );
        }
        Ok(())
    }

    /// Adds a framed area that covers `[start_va, end_va)` with the rights
    /// `permission`, every page backed by a zeroed frame of its own.
    ///
    /// Refused, with nothing changed, as [`MemorySet::push`] refuses.
    pub fn insert_framed_area(
        &mut self,
        start_va: VirtAddr,
        end_va: VirtAddr,
        permission: MapPermission,
        fa: &mut StackFrameAllocator,
        mem: &mut PhysMemory,
    ) -> (r: Result<(), AreaError>)
        requires
            old(self).wf(old(mem)@),
            old(self).frames_allocated(old(fa)),
            old(fa).wf(),
            old(fa).end() <= old(mem)@.len(),
            old(fa).end() <= PPN_LIMIT,
        ensures
            r == Err::<(), AreaError>(AreaError::InvalidRange) <==> start_va.0 / 4096 > (end_va.0
                + 4095) / 4096 || (end_va.0 + 4095) / 4096 > TRAMPOLINE_VPN,
            r == Err::<(), AreaError>(AreaError::Overlap) <==> start_va.0 / 4096 <= (end_va.0
                + 4095) / 4096 <= TRAMPOLINE_VPN && old(self).overlaps(
                start_va.0 as int / 4096,
                (end_va.0 + 4095) / 4096,
            ),
            r == Err::<(), AreaError>(AreaError::OutOfFrames) <==> start_va.0 / 4096 <= (end_va.0
                + 4095) / 4096 <= TRAMPOLINE_VPN && !old(self).overlaps(
                start_va.0 as int / 4096,
                (end_va.0 + 4095) / 4096,
            ) && old(fa).free() < frames_needed(
                start_va.0 as int / 4096,
                (end_va.0 + 4095) / 4096,
                MapType::Framed,
            ),
            r is Ok <==> start_va.0 / 4096 <= (end_va.0 + 4095) / 4096 <= TRAMPOLINE_VPN && !old(self).overlaps(start_va.0 as int / 4096, (end_va.0 + 4095) / 4096) && old(fa).free()
                >= frames_needed(
                start_va.0 as int / 4096,
                (end_va.0 + 4095) / 4096,
                MapType::Framed,
            ),
            r is Err ==> *final(self) == *old(self) && final(mem)@ == old(mem)@ && *final(fa)
                == *old(fa),
            r is Ok ==> Self::appended(
                *old(self),
                *final(self),
                old(mem)@,
                final(mem)@,
                *old(fa),
                *final(fa),
                start_va.0 as int / 4096,
                (end_va.0 + 4095) / 4096,
                MapType::Framed,
                permission,
                Seq::<u8>::empty(),
            ),
    {
        self.push(MapArea::new(start_va, end_va, MapType::Framed, permission), None, fa, mem)
    }

    /// Whether frame `p` backs one of the pages `[new_end, end)` of the
    /// framed area `idx`.
    pub open spec fn backs_tail(&self, idx: int, new_end: int, p: int) -> bool {
        exists|k: int|
            new_end - self.areas@[idx].start.0 <= k < self.areas@[idx].data_frames@.len() && 0 <= k
                && #[trigger] self.data_frame(idx, k) == p
    }

    /// How an address space, the memory and the allocator stand after the
    /// pages from `new_end` on have been cut off area `idx`: those pages
    /// are unmapped and their frames are free again; nothing else changed,
    /// and only nodes of the page table were written.
    #[verifier::opaque]
    pub open spec fn reduced(
        s0: MemorySet,
        s1: MemorySet,
        m0: Seq<Seq<u64>>,
        m1: Seq<Seq<u64>>,
        fa0: StackFrameAllocator,
        fa1: StackFrameAllocator,
        idx: int,
        new_end: int,
    ) -> bool {
        &&& s1.wf(m1)
        &&& s1.frames_allocated(&fa1)
        &&& fa1.wf()
        &&& fa1.start() == fa0.start()
        &&& fa1.end() == fa0.end()
        &&& m1.len() == m0.len()
        &&& s1.page_table.root_ppn == s0.page_table.root_ppn
        &&& s1.page_table.frames@ == s0.page_table.frames@
        &&& s1.trampoline == s0.trampoline
        &&& s1.areas@.len() == s0.areas@.len()
        &&& forall|b: int|
            0 <= b < s0.areas@.len() && b != idx ==> (#[trigger] s1.areas@[b]) == s0.areas@[b]
        &&& s1.areas@[idx].start == s0.areas@[idx].start
        &&& s1.areas@[idx].end.0 == new_end
        &&& s0.areas@[idx].start.0 <= new_end <= s0.areas@[idx].end.0
        &&& s1.areas@[idx].map_type == s0.areas@[idx].map_type
        &&& s1.areas@[idx].map_perm == s0.areas@[idx].map_perm
        &&& s0.areas@[idx].map_type == MapType::Identical ==> s1.areas@[idx].data_frames@
            == s0.areas@[idx].data_frames@
        &&& s0.areas@[idx].map_type == MapType::Framed ==> s1.areas@[idx].data_frames@
            == s0.areas@[idx].data_frames@.subrange(0, new_end - s0.areas@[idx].start.0)
        &&& forall|p: int| s1.owns_data(p) <==> s0.owns_data(p) && !s0.backs_tail(idx, new_end, p)
        &&& forall|p: int|
            fa1.is_allocated(p) <==> fa0.is_allocated(p) && !s0.backs_tail(idx, new_end, p)
        &&& fa1.free() == fa0.free() + (s0.areas@[idx].data_frames@.len()
            - s1.areas@[idx].data_frames@.len())
        &&& forall|p: int|
            0 <= p < m0.len() && !s0.page_table.owns(p) ==> (#[trigger] m1[p]) == m0[p]
        &&& forall|v: int|
            0 <= v < VPN_LIMIT ==> (#[trigger] lookup(m1, s0.page_table.root(), v)) == (if new_end
                <= v < s0.areas@[idx].end.0 {
                None
            } else {
                lookup(m0, s0.page_table.root(), v)
            })
    }

    /// Cutting the last page off an area keeps an address space consistent,
    /// when the page table no longer maps that page and maps every other
    /// page as before.
    proof fn lemma_cut(s0: MemorySet, s1: MemorySet, m0: Seq<Seq<u64>>, m2: Seq<Seq<u64>>, idx: int)
        requires
            s0.wf(m0),
            s1.page_table.wf(m2),
            s1.page_table.root_ppn == s0.page_table.root_ppn,
            s1.page_table.frames@ == s0.page_table.frames@,
            s1.trampoline == s0.trampoline,
            m2.len() == m0.len(),
            0 <= idx < s0.areas@.len(),
            s1.areas@.len() == s0.areas@.len(),
            forall|b: int|
                0 <= b < s0.areas@.len() && b != idx ==> (#[trigger] s1.areas@[b]) == s0.areas@[b],
            s0.areas@[idx].start.0 < s0.areas@[idx].end.0,
            s1.areas@[idx].start == s0.areas@[idx].start,
            s1.areas@[idx].end.0 == s0.areas@[idx].end.0 - 1,
            s1.areas@[idx].map_type == s0.areas@[idx].map_type,
            s1.areas@[idx].map_perm == s0.areas@[idx].map_perm,
            s0.areas@[idx].map_type == MapType::Framed ==> s1.areas@[idx].data_frames@
                == s0.areas@[idx].data_frames@.drop_last(),
            s0.areas@[idx].map_type == MapType::Identical ==> s1.areas@[idx].data_frames@
                == s0.areas@[idx].data_frames@,
            lookup(m2, s0.page_table.root(), s0.areas@[idx].end.0 - 1) is None,
            forall|u: int|
                0 <= u < VPN_LIMIT && u != s0.areas@[idx].end.0 - 1 ==> (#[trigger] lookup(
                    m2,
                    s0.page_table.root(),
                    u,
                )) == lookup(m0, s0.page_table.root(), u),
        ensures
            s1.wf(m2),
            forall|p: int|
                s1.owns_data(p) <==> s0.owns_data(p) && !s0.backs_tail(
                    idx,
                    s0.areas@[idx].end.0 - 1,
                    p,
                ),
            s0.areas@[idx].map_type == MapType::Framed ==> forall|p: int|
                #[trigger] s0.backs_tail(idx, s0.areas@[idx].end.0 - 1, p) <==> p
                    == s0.areas@[idx].data_frames@.last().ppn.0,
            s0.areas@[idx].map_type == MapType::Identical ==> forall|p: int|
                !#[trigger] s0.backs_tail(idx, s0.areas@[idx].end.0 - 1, p),
    {
        reveal(MemorySet::wf);
        let root = s0.page_table.root();
        let v = s0.areas@[idx].end.0 - 1;
        assert(s0.areas@[idx].mapped());
        let n = s1.areas@[idx].data_frames@.len() as int;
        assert forall|a: int, k: int|
            0 <= a < s1.areas@.len() && 0 <= k
                < s1.areas@[a].data_frames@.len() implies #[trigger] s1.data_frame(a, k)
            == s0.data_frame(a, k) && k < s0.areas@[a].data_frames@.len() by {
            if a != idx {
                assert(s1.areas@[a] == s0.areas@[a]);
            }
        }
        assert forall|a: int, k: int|
            0 <= a < s1.areas@.len() && 0 <= k < s1.areas@[a].data_frames@.len() implies {
            &&& 0 <= #[trigger] s1.data_frame(a, k) < m2.len()
            &&& s1.data_frame(a, k) < PPN_LIMIT
            &&& !s1.page_table.owns(s1.data_frame(a, k))
        } by {
            assert(s1.data_frame(a, k) == s0.data_frame(a, k));
        }
        assert forall|a: int, k: int, b: int, j: int|
            0 <= a < s1.areas@.len() && 0 <= k < s1.areas@[a].data_frames@.len() && 0 <= b
                < s1.areas@.len() && 0 <= j < s1.areas@[b].data_frames@.len() && (a != b || k
                != j) implies #[trigger] s1.data_frame(a, k) != #[trigger] s1.data_frame(b, j) by {
            assert(s1.data_frame(a, k) == s0.data_frame(a, k));
            assert(s1.data_frame(b, j) == s0.data_frame(b, j));
        }
        assert forall|a: int, u: int|
            0 <= a < s1.areas@.len() && (#[trigger] s1.areas@[a]).has_page(u) implies (
        #[trigger] lookup(m2, root, u)) == Some(s1.areas@[a].entry_of(u)) by {
            assert(s0.areas@[a].has_page(u));
            if u == v {
                assert(s0.areas@[idx].has_page(v));
                assert(a != idx);
            }
            assert(lookup(m2, root, u) == lookup(m0, root, u));
            if a == idx {
                if s0.areas@[a].map_type == MapType::Framed {
                    assert(s1.data_frame(a, u - s0.areas@[a].start.0) == s0.data_frame(
                        a,
                        u - s0.areas@[a].start.0,
                    ));
                }
            } else {
                assert(s1.areas@[a] == s0.areas@[a]);
            }
        }
        assert forall|u: int|
            0 <= u < TRAMPOLINE_VPN && (#[trigger] lookup(m2, root, u)) is Some implies s1.covered(
            u,
        ) by {
            assert(u != v);
            assert(lookup(m2, root, u) == lookup(m0, root, u));
            assert(s0.covered(u));
            let a = choose|a: int|
                0 <= a < s0.areas@.len() && (#[trigger] s0.areas@[a]).has_page(u);
            if a != idx {
                assert(s1.areas@[a] == s0.areas@[a]);
            }
            assert(s1.areas@[a].has_page(u));
        }
        assert forall|a: int, b: int, u: int|
            0 <= a < s1.areas@.len() && 0 <= b < s1.areas@.len() && a != b
                && #[trigger] s1.areas@[a].has_page(u) implies !#[trigger] s1.areas@[b].has_page(
            u,
        ) by {
            assert(s0.areas@[a].has_page(u));
            if s1.areas@[b].has_page(u) {
                assert(s0.areas@[b].has_page(u));
            }
        }
        assert(lookup(m2, root, TRAMPOLINE_VPN as int) == lookup(m0, root, TRAMPOLINE_VPN as int));
        assert forall|a: int| 0 <= a < s1.areas@.len() implies (#[trigger] s1.areas@[a]).mapped() by {
            if a != idx {
                assert(s1.areas@[a] == s0.areas@[a]);
            } else {
                assert(s0.areas@[a].mapped());
            }
        }
        assert forall|p: int| s1.owns_data(p) <==> s0.owns_data(p) && !s0.backs_tail(idx, v, p) by {
            if s1.owns_data(p) {
                let (a, k) = choose|a: int, k: int|
                    0 <= a < s1.areas@.len() && 0 <= k < s1.areas@[a].data_frames@.len()
                        && #[trigger] s1.data_frame(a, k) == p;
                assert(s0.data_frame(a, k) == p);
                if s0.backs_tail(idx, v, p) {
                    let j = choose|j: int|
                        v - s0.areas@[idx].start.0 <= j < s0.areas@[idx].data_frames@.len() && 0
                            <= j && #[trigger] s0.data_frame(idx, j) == p;
                    assert(a != idx || k != j);
                }
            }
            if s0.owns_data(p) && !s0.backs_tail(idx, v, p) {
                let (a, k) = choose|a: int, k: int|
                    0 <= a < s0.areas@.len() && 0 <= k < s0.areas@[a].data_frames@.len()
                        && #[trigger] s0.data_frame(a, k) == p;
                if a == idx {
                    assert(k < v - s0.areas@[idx].start.0);
                } else {
                    assert(s1.areas@[a] == s0.areas@[a]);
                }
                assert(s1.data_frame(a, k) == p);
            }
        }
        if s0.areas@[idx].map_type == MapType::Framed {
            assert forall|p: int|
                #[trigger] s0.backs_tail(idx, v, p) <==> p == s0.areas@[idx].data_frames@.last().ppn.0 by {
                if p == s0.areas@[idx].data_frames@.last().ppn.0 {
                    assert(s0.data_frame(idx, s0.areas@[idx].data_frames@.len() - 1) == p);
                }
            }
        }
    }

    /// Unmaps the last page of area `idx` and gives its frame back.
    fn unmap_last(&mut self, idx: usize, fa: &mut StackFrameAllocator, mem: &mut PhysMemory)
        requires
            old(self).wf(old(mem)@),
            old(self).frames_allocated(old(fa)),
            old(fa).wf(),
            idx < old(self).areas@.len(),
            old(self).areas@[idx as int].start.0 < old(self).areas@[idx as int].end.0,
        ensures
            Self::reduced(
                *old(self),
                *final(self),
                old(mem)@,
                final(mem)@,
                *old(fa),
                *final(fa),
                idx as int,
                old(self).areas@[idx as int].end.0 - 1,
            ),
    {
        let ghost s0 = *self;
        let ghost m0 = mem@;
        let ghost fa0 = *fa;
        let ghost root = self.page_table.root();
        proof {
            self.lemma_wf_facts(m0);
            assert(self.areas@[idx as int].mapped());
            assert(self.areas@[idx as int].has_page(self.areas@[idx as int].end.0 - 1));
        }
        let v = VirtPageNum(self.areas[idx].end.0 - 1);
        let res = self.page_table.unmap(v, mem);
        let map_type: MapType = self.areas[idx].map_type;
        self.areas[idx].end = v;
        match map_type {
            MapType::Framed => {
                let frame = self.areas[idx].data_frames.pop().unwrap();
                proof {
                    assert(s0.data_frame(idx as int, s0.areas@[idx as int].data_frames@.len() - 1)
                        == frame.ppn.0);
                    assert(s0.owns_data(frame.ppn.0 as int));
                    assert(s0.owns(frame.ppn.0 as int));
                }
                frame_dealloc(fa, frame);
                proof {
                    assert(self.areas@[idx as int].data_frames@
                        =~= s0.areas@[idx as int].data_frames@.drop_last());
                    Self::lemma_cut(s0, *self, m0, mem@, idx as int);
                    reveal(MemorySet::reduced);
                    assert(self.areas@[idx as int].data_frames@
                        =~= s0.areas@[idx as int].data_frames@.subrange(
                        0,
                        v.0 - s0.areas@[idx as int].start.0,
                    ));
                    assert forall|p: int|
                        fa.is_allocated(p) <==> fa0.is_allocated(p) && !s0.backs_tail(
                            idx as int,
                            v.0 as int,
                            p,
                        ) by {
                        assert(fa.allocated().contains(p) == fa0.allocated().remove(
                            frame.ppn.0 as int,
                        ).contains(p));
                    }
                    assert forall|p: int| self.owns(p) implies fa.is_allocated(p) by {
                        assert(s0.owns(p));
                        if s0.page_table.owns(p) {
                            assert(!s0.owns_data(p));
                        }
                    }
                }
            },
            MapType::Identical => {
                proof {
                    Self::lemma_cut(s0, *self, m0, mem@, idx as int);
                    reveal(MemorySet::reduced);
                    assert(self.areas@[idx as int].data_frames@
                        =~= s0.areas@[idx as int].data_frames@);
                    assert forall|p: int| self.owns(p) implies fa.is_allocated(p) by {
                        assert(s0.owns(p));
                    }
                }
            },
        }
    }

    /// Cutting one more page off extends what has been cut off so far.
    proof fn lemma_reduced_step(
        s0: MemorySet,
        s1: MemorySet,
        s2: MemorySet,
        m0: Seq<Seq<u64>>,
        m1: Seq<Seq<u64>>,
        m2: Seq<Seq<u64>>,
        fa0: StackFrameAllocator,
        fa1: StackFrameAllocator,
        fa2: StackFrameAllocator,
        idx: int,
    )
        requires
            0 <= idx < s0.areas@.len(),
            s0.wf(m0),
            Self::reduced(s0, s1, m0, m1, fa0, fa1, idx, s1.areas@[idx].end.0 as int),
            Self::reduced(s1, s2, m1, m2, fa1, fa2, idx, s1.areas@[idx].end.0 - 1),
        ensures
            Self::reduced(s0, s2, m0, m2, fa0, fa2, idx, s1.areas@[idx].end.0 - 1),
    {
        reveal(MemorySet::reduced);
        s0.lemma_wf_facts(m0);
        assert(s0.areas@[idx].mapped());
        let e1 = s1.areas@[idx].end.0 as int;
        let st = s0.areas@[idx].start.0 as int;
        assert forall|b: int| 0 <= b < s0.areas@.len() && b != idx implies (#[trigger] s2.areas@[b])
            == s0.areas@[b] by {
            assert(s1.areas@[b] == s0.areas@[b]);
        }
        if s0.areas@[idx].map_type == MapType::Framed {
            assert(s2.areas@[idx].data_frames@ =~= s0.areas@[idx].data_frames@.subrange(
                0,
                e1 - 1 - st,
            ));
        }
        assert forall|p: int|
            s0.backs_tail(idx, e1 - 1, p) <==> s0.backs_tail(idx, e1, p) || s1.backs_tail(
                idx,
                e1 - 1,
                p,
            ) by {
            if s0.backs_tail(idx, e1 - 1, p) {
                let k = choose|k: int|
                    e1 - 1 - st <= k < s0.areas@[idx].data_frames@.len() && 0 <= k
                        && #[trigger] s0.data_frame(idx, k) == p;
                if k == e1 - 1 - st {
                    assert(s1.data_frame(idx, k) == p);
                }
            }
            if s1.backs_tail(idx, e1 - 1, p) {
                let k = choose|k: int|
                    e1 - 1 - st <= k < s1.areas@[idx].data_frames@.len() && 0 <= k
                        && #[trigger] s1.data_frame(idx, k) == p;
                assert(s0.data_frame(idx, k) == p);
            }
            if s0.backs_tail(idx, e1, p) {
                let k = choose|k: int|
                    e1 - st <= k < s0.areas@[idx].data_frames@.len() && 0 <= k
                        && #[trigger] s0.data_frame(idx, k) == p;
                assert(s0.data_frame(idx, k) == p);
            }
        }
        assert(forall|p: int| s1.page_table.owns(p) <==> s0.page_table.owns(p));
    }

    /// What the loop that empties an area needs of what has been cut off.
    proof fn lemma_reduced_facts(
        s0: MemorySet,
        s1: MemorySet,
        m0: Seq<Seq<u64>>,
        m1: Seq<Seq<u64>>,
        fa0: StackFrameAllocator,
        fa1: StackFrameAllocator,
        idx: int,
        v: int,
    )
        requires
            Self::reduced(s0, s1, m0, m1, fa0, fa1, idx, v),
        ensures
            s1.wf(m1),
            s1.frames_allocated(&fa1),
            fa1.wf(),
            s1.areas@.len() == s0.areas@.len(),
            s1.areas@[idx].end.0 == v,
            s1.areas@[idx].start == s0.areas@[idx].start,
            s0.areas@[idx].start.0 <= v,
    {
        reveal(MemorySet::reduced);
    }

    /// Cuts the last page off area `idx` while the pages of that area are
    /// cut off one by one.
    fn shrink_step(
        &mut self,
        idx: usize,
        fa: &mut StackFrameAllocator,
        mem: &mut PhysMemory,
        Ghost(s0): Ghost<MemorySet>,
        Ghost(m0): Ghost<Seq<Seq<u64>>>,
        Ghost(fa0): Ghost<StackFrameAllocator>,
    )
        requires
            s0.wf(m0),
            idx < s0.areas@.len(),
            idx < old(self).areas@.len(),
            Self::reduced(
                s0,
                *old(self),
                m0,
                old(mem)@,
                fa0,
                *old(fa),
                idx as int,
                old(self).areas@[idx as int].end.0 as int,
            ),
            old(self).areas@[idx as int].start.0 < old(self).areas@[idx as int].end.0,
        ensures
            idx < final(self).areas@.len(),
            final(self).areas@[idx as int].end.0 == old(self).areas@[idx as int].end.0 - 1,
            final(self).areas@[idx as int].start == old(self).areas@[idx as int].start,
            Self::reduced(
                s0,
                *final(self),
                m0,
                final(mem)@,
                fa0,
                *final(fa),
                idx as int,
                final(self).areas@[idx as int].end.0 as int,
            ),
    {
        let ghost s1 = *self;
        let ghost m1 = mem@;
        let ghost fa1 = *fa;
        proof {
            Self::lemma_reduced_facts(
                s0,
                s1,
                m0,
                m1,
                fa0,
                fa1,
                idx as int,
                s1.areas@[idx as int].end.0 as int,
            );
        }
        self.unmap_last(idx, fa, mem);
        proof {
            Self::lemma_reduced_facts(
                s1,
                *self,
                m1,
                mem@,
                fa1,
                *fa,
                idx as int,
                s1.areas@[idx as int].end.0 - 1,
            );
            Self::lemma_reduced_step(s0, s1, *self, m0, m1, mem@, fa0, fa1, *fa, idx as int);
        }
    }

    /// Unmaps every page of area `idx` and gives the frames of its pages
    /// back; the area stays in the list, empty.
    fn shrink_area(&mut self, idx: usize, fa: &mut StackFrameAllocator, mem: &mut PhysMemory)
        requires
            old(self).wf(old(mem)@),
            old(self).frames_allocated(old(fa)),
            old(fa).wf(),
            idx < old(self).areas@.len(),
        ensures
            Self::reduced(
                *old(self),
                *final(self),
                old(mem)@,
                final(mem)@,
                *old(fa),
                *final(fa),
                idx as int,
                old(self).areas@[idx as int].start.0 as int,
            ),
    {
        let ghost s0 = *self;
        let ghost m0 = mem@;
        let ghost fa0 = *fa;
        proof {
            s0.lemma_wf_facts(m0);
            assert(s0.areas@[idx as int].mapped());
            assert(Self::reduced(
                s0,
                s0,
                m0,
                m0,
                fa0,
                fa0,
                idx as int,
                s0.areas@[idx as int].end.0 as int,
            )) by {
                reveal(MemorySet::reduced);
                if s0.areas@[idx as int].map_type == MapType::Framed {
                    assert(s0.areas@[idx as int].data_frames@
                        =~= s0.areas@[idx as int].data_frames@.subrange(
                        0,
                        s0.areas@[idx as int].end.0 - s0.areas@[idx as int].start.0,
                    ));
                }
                assert forall|p: int|
                    !s0.backs_tail(idx as int, s0.areas@[idx as int].end.0 as int, p) by {}
            }
        }
        while self.areas[idx].start.0 < self.areas[idx].end.0
            invariant
                s0.wf(m0),
                idx < s0.areas@.len(),
                idx < self.areas@.len(),
                self.areas@[idx as int].start == s0.areas@[idx as int].start,
                Self::reduced(
                    s0,
                    *self,
                    m0,
                    mem@,
                    fa0,
                    *fa,
                    idx as int,
                    self.areas@[idx as int].end.0 as int,
                ),
            decreases self.areas@[idx as int].end.0,
        {
            self.shrink_step(idx, fa, mem, Ghost(s0), Ghost(m0), Ghost(fa0));
        }
        proof {
            Self::lemma_reduced_facts(
                s0,
                *self,
                m0,
                mem@,
                fa0,
                *fa,
                idx as int,
                self.areas@[idx as int].end.0 as int,
            );
        }
    }

    /// Whether frame `p` backs a page of area `idx`.
    pub open spec fn backs_area(&self, idx: int, p: int) -> bool {
        exists|k: int|
            0 <= k < self.areas@[idx].data_frames@.len() && #[trigger] self.data_frame(idx, k) == p
    }

    /// How an address space, the memory and the allocator stand after area
    /// `idx` has been removed: its pages are unmapped and their frames are
    /// free again; the other areas and their frames are as before, and only
    /// nodes of the page table were written.
    pub open spec fn removed(
        s0: MemorySet,
        s1: MemorySet,
        m0: Seq<Seq<u64>>,
        m1: Seq<Seq<u64>>,
        fa0: StackFrameAllocator,
        fa1: StackFrameAllocator,
        idx: int,
    ) -> bool {
        &&& s1.wf(m1)
        &&& s1.frames_allocated(&fa1)
        &&& fa1.wf()
        &&& fa1.start() == fa0.start()
        &&& fa1.end() == fa0.end()
        &&& m1.len() == m0.len()
        &&& s1.page_table.root_ppn == s0.page_table.root_ppn
        &&& s1.page_table.frames@ == s0.page_table.frames@
        &&& s1.trampoline == s0.trampoline
        &&& s1.areas@ == s0.areas@.remove(idx)
        &&& forall|p: int| s1.owns_data(p) <==> s0.owns_data(p) && !s0.backs_area(idx, p)
        &&& forall|p: int| fa1.is_allocated(p) <==> fa0.is_allocated(p) && !s0.backs_area(idx, p)
        &&& fa1.free() == fa0.free() + s0.areas@[idx].data_frames@.len()
        &&& forall|p: int|
            0 <= p < m0.len() && !s0.page_table.owns(p) ==> (#[trigger] m1[p]) == m0[p]
        &&& forall|v: int|
            0 <= v < VPN_LIMIT ==> (#[trigger] lookup(m1, s0.page_table.root(), v)) == (
            if s0.areas@[idx].has_page(v) {
                None
            } else {
                lookup(m0, s0.page_table.root(), v)
            })
    }

    /// An area that has been emptied and taken out of the list is removed.
    proof fn lemma_removed(
        s0: MemorySet,
        s1: MemorySet,
        s2: MemorySet,
        m0: Seq<Seq<u64>>,
        m1: Seq<Seq<u64>>,
        fa0: StackFrameAllocator,
        fa1: StackFrameAllocator,
        idx: int,
    )
        requires
            0 <= idx < s0.areas@.len(),
            s0.wf(m0),
            Self::reduced(s0, s1, m0, m1, fa0, fa1, idx, s0.areas@[idx].start.0 as int),
            s2.page_table == s1.page_table,
            s2.trampoline == s1.trampoline,
            s2.areas@ == s1.areas@.remove(idx),
        ensures
            Self::removed(s0, s2, m0, m1, fa0, fa1, idx),
    {
        reveal(MemorySet::reduced);
        reveal(MemorySet::wf);
        assert(s0.areas@[idx].mapped());
        let n = s1.areas@.len() as int;
        assert(s1.areas@[idx].data_frames@.len() == 0);
        assert forall|a: int| 0 <= a < s2.areas@.len() implies #[trigger] s2.areas@[a] == (if a
            < idx {
            s0.areas@[a]
        } else {
            s0.areas@[a + 1]
        }) by {
            if a < idx {
                assert(s1.areas@[a] == s0.areas@[a]);
            } else {
                assert(s1.areas@[a + 1] == s0.areas@[a + 1]);
            }
        }
        assert(s2.areas@ =~= s0.areas@.remove(idx));
        let up = |a: int|
            if a < idx {
                a
            } else {
                a + 1
            };
        assert forall|a: int, k: int|
            0 <= a < s2.areas@.len() && 0 <= k
                < s2.areas@[a].data_frames@.len() implies #[trigger] s2.data_frame(a, k)
            == s1.data_frame(up(a), k) by {}
        assert forall|a: int, k: int|
            0 <= a < s2.areas@.len() && 0 <= k < s2.areas@[a].data_frames@.len() implies {
            &&& 0 <= #[trigger] s2.data_frame(a, k) < m1.len()
            &&& s2.data_frame(a, k) < PPN_LIMIT
            &&& !s2.page_table.owns(s2.data_frame(a, k))
        } by {
            assert(s2.data_frame(a, k) == s1.data_frame(up(a), k));
        }
        assert forall|a: int, k: int, b: int, j: int|
            0 <= a < s2.areas@.len() && 0 <= k < s2.areas@[a].data_frames@.len() && 0 <= b
                < s2.areas@.len() && 0 <= j < s2.areas@[b].data_frames@.len() && (a != b || k
                != j) implies #[trigger] s2.data_frame(a, k) != #[trigger] s2.data_frame(b, j) by {
            assert(s2.data_frame(a, k) == s1.data_frame(up(a), k));
            assert(s2.data_frame(b, j) == s1.data_frame(up(b), j));
        }
        assert forall|a: int, u: int|
            0 <= a < s2.areas@.len() && (#[trigger] s2.areas@[a]).has_page(u) implies (
        #[trigger] lookup(m1, s2.page_table.root(), u)) == Some(s2.areas@[a].entry_of(u)) by {
            assert(s1.areas@[up(a)].has_page(u));
        }
        assert forall|u: int|
            0 <= u < TRAMPOLINE_VPN && (#[trigger] lookup(m1, s2.page_table.root(), u))
                is Some implies s2.covered(u) by {
            assert(s1.covered(u));
            let a = choose|a: int|
                0 <= a < s1.areas@.len() && (#[trigger] s1.areas@[a]).has_page(u);
            assert(a != idx);
            if a < idx {
                assert(s2.areas@[a].has_page(u));
            } else {
                assert(s2.areas@[a - 1].has_page(u));
            }
        }
        assert forall|a: int, b: int, u: int|
            0 <= a < s2.areas@.len() && 0 <= b < s2.areas@.len() && a != b
                && #[trigger] s2.areas@[a].has_page(u) implies !#[trigger] s2.areas@[b].has_page(
            u,
        ) by {
            assert(s1.areas@[up(a)].has_page(u));
            if s2.areas@[b].has_page(u) {
                assert(s1.areas@[up(b)].has_page(u));
            }
        }
        assert forall|a: int| 0 <= a < s2.areas@.len() implies (#[trigger] s2.areas@[a]).mapped() by {
            assert(s1.areas@[up(a)].mapped());
        }
        assert forall|p: int| s0.backs_area(idx, p) <==> s0.backs_tail(
            idx,
            s0.areas@[idx].start.0 as int,
            p,
        ) by {
            if s0.backs_area(idx, p) {
                let k = choose|k: int|
                    0 <= k < s0.areas@[idx].data_frames@.len() && #[trigger] s0.data_frame(idx, k)
                        == p;
                assert(s0.data_frame(idx, k) == p);
            }
            if s0.backs_tail(idx, s0.areas@[idx].start.0 as int, p) {
                let k = choose|k: int|
                    0 <= k < s0.areas@[idx].data_frames@.len() && 0 <= k
                        && #[trigger] s0.data_frame(idx, k) == p;
                assert(s0.data_frame(idx, k) == p);
            }
        }
        assert forall|p: int| s2.owns_data(p) <==> s1.owns_data(p) by {
            if s2.owns_data(p) {
                let (a, k) = choose|a: int, k: int|
                    0 <= a < s2.areas@.len() && 0 <= k < s2.areas@[a].data_frames@.len()
                        && #[trigger] s2.data_frame(a, k) == p;
                assert(s1.data_frame(up(a), k) == p);
            }
            if s1.owns_data(p) {
                let (a, k) = choose|a: int, k: int|
                    0 <= a < s1.areas@.len() && 0 <= k < s1.areas@[a].data_frames@.len()
                        && #[trigger] s1.data_frame(a, k) == p;
                assert(a != idx);
                if a < idx {
                    assert(s2.data_frame(a, k) == p);
                } else {
                    assert(s2.data_frame(a - 1, k) == p);
                }
            }
        }
        assert forall|p: int| s2.owns(p) implies fa1.is_allocated(p) by {
            assert(s1.owns(p));
        }
    }

    /// Removes the first area that starts at the page `start_vpn`: unmaps
    /// its pages and gives their frames back.  Tells whether there was such
    /// an area; if not, nothing changes.
    pub fn remove_area_with_start_vpn(
        &mut self,
        start_vpn: VirtPageNum,
        fa: &mut StackFrameAllocator,
        mem: &mut PhysMemory,
    ) -> (r: Option<usize>)
        requires
            old(self).wf(old(mem)@),
            old(self).frames_allocated(old(fa)),
            old(fa).wf(),
        ensures
            r is None <==> forall|a: int|
                0 <= a < old(self).areas@.len() ==> (#[trigger] old(self).areas@[a]).start
                    != start_vpn,
            r is None ==> *final(self) == *old(self) && final(mem)@ == old(mem)@ && *final(fa)
                == *old(fa),
            r matches Some(idx) ==> {
                &&& idx < old(self).areas@.len()
                &&& old(self).areas@[idx as int].start == start_vpn
                &&& forall|a: int| 0 <= a < idx ==> (#[trigger] old(self).areas@[a]).start != start_vpn
                &&& Self::removed(
                    *old(self),
                    *final(self),
                    old(mem)@,
                    final(mem)@,
                    *old(fa),
                    *final(fa),
                    idx as int,
                )
            },
    {
        let mut idx: usize = 0;
        let mut found: bool = false;
        while idx < self.areas.len() && !found
            invariant
                *self == *old(self),
                idx <= self.areas@.len(),
                forall|a: int| 0 <= a < idx ==> (#[trigger] self.areas@[a]).start != start_vpn,
                found ==> idx < self.areas@.len() && self.areas@[idx as int].start == start_vpn,
            decreases self.areas@.len() - idx + (if found {
                0int
            } else {
                1int
            }),
        {
            if self.areas[idx].start.0 == start_vpn.0 {
                found = true;
            } else {
                idx = idx + 1;
            }
        }
        if !found {
            return None;
        }
        let ghost s0 = *self;
        let ghost m0 = mem@;
        let ghost fa0 = *fa;
        self.shrink_area(idx, fa, mem);
        let ghost s1 = *self;
        proof {
            Self::lemma_reduced_facts(
                s0,
                s1,
                m0,
                mem@,
                fa0,
                *fa,
                idx as int,
                s0.areas@[idx as int].start.0 as int,
            );
        }
        let _ = self.areas.remove(idx);
        proof {
            Self::lemma_removed(s0, s1, *self, m0, mem@, fa0, *fa, idx as int);
        }
        Some(idx)
    }

    /// How an address space, the memory and the allocator stand while the
    /// areas are removed from the last to the first.
    #[verifier::opaque]
    pub open spec fn recycling(
        s0: MemorySet,
        s1: MemorySet,
        m0: Seq<Seq<u64>>,
        m1: Seq<Seq<u64>>,
        fa0: StackFrameAllocator,
        fa1: StackFrameAllocator,
    ) -> bool {
        &&& s1.wf(m1)
        &&& s1.frames_allocated(&fa1)
        &&& fa1.wf()
        &&& fa1.start() == fa0.start()
        &&& fa1.end() == fa0.end()
        &&& m1.len() == m0.len()
        &&& s1.page_table.root_ppn == s0.page_table.root_ppn
        &&& s1.page_table.frames@ == s0.page_table.frames@
        &&& s1.trampoline == s0.trampoline
        &&& s1.areas@.len() <= s0.areas@.len()
        &&& s1.areas@ == s0.areas@.subrange(0, s1.areas@.len() as int)
        &&& forall|p: int|
            fa1.is_allocated(p) <==> fa0.is_allocated(p) && !(s0.owns_data(p) && !s1.owns_data(p))
        &&& forall|p: int|
            0 <= p < m0.len() && !s0.page_table.owns(p) ==> (#[trigger] m1[p]) == m0[p]
    }

    /// Removing the last area continues the removal of all areas.
    proof fn lemma_recycling_step(
        s0: MemorySet,
        s1: MemorySet,
        s2: MemorySet,
        m0: Seq<Seq<u64>>,
        m1: Seq<Seq<u64>>,
        m2: Seq<Seq<u64>>,
        fa0: StackFrameAllocator,
        fa1: StackFrameAllocator,
        fa2: StackFrameAllocator,
    )
        requires
            s1.areas@.len() > 0,
            Self::recycling(s0, s1, m0, m1, fa0, fa1),
            Self::removed(s1, s2, m1, m2, fa1, fa2, s1.areas@.len() - 1),
        ensures
            Self::recycling(s0, s2, m0, m2, fa0, fa2),
    {
        reveal(MemorySet::recycling);
        let last = s1.areas@.len() - 1;
        assert(s2.areas@ =~= s0.areas@.subrange(0, s2.areas@.len() as int));
        assert forall|p: int| s1.owns_data(p) implies s0.owns_data(p) by {
            let (a, k) = choose|a: int, k: int|
                0 <= a < s1.areas@.len() && 0 <= k < s1.areas@[a].data_frames@.len()
                    && #[trigger] s1.data_frame(a, k) == p;
            assert(s0.data_frame(a, k) == p);
        }
        assert forall|p: int| s1.backs_area(last, p) implies s1.owns_data(p) by {
            let k = choose|k: int|
                0 <= k < s1.areas@[last].data_frames@.len() && #[trigger] s1.data_frame(last, k)
                    == p;
            assert(s1.data_frame(last, k) == p);
        }
        assert(forall|p: int| s1.page_table.owns(p) <==> s0.page_table.owns(p));
    }

    /// What the loop that removes all areas needs of what has been removed.
    proof fn lemma_recycling_facts(
        s0: MemorySet,
        s1: MemorySet,
        m0: Seq<Seq<u64>>,
        m1: Seq<Seq<u64>>,
        fa0: StackFrameAllocator,
        fa1: StackFrameAllocator,
    )
        requires
            Self::recycling(s0, s1, m0, m1, fa0, fa1),
        ensures
            s1.wf(m1),
            s1.frames_allocated(&fa1),
            fa1.wf(),
    {
        reveal(MemorySet::recycling);
    }

    /// How an address space, the memory and the allocator stand after every
    /// area has been removed: no page below the trampoline is mapped, the
    /// frames of all pages are free again, the page table keeps its nodes,
    /// and only those nodes were written.
    pub open spec fn drained(
        s0: MemorySet,
        s1: MemorySet,
        m0: Seq<Seq<u64>>,
        m1: Seq<Seq<u64>>,
        fa0: StackFrameAllocator,
        fa1: StackFrameAllocator,
    ) -> bool {
        &&& s1.wf(m1)
        &&& s1.frames_allocated(&fa1)
        &&& fa1.wf()
        &&& fa1.start() == fa0.start()
        &&& fa1.end() == fa0.end()
        &&& m1.len() == m0.len()
        &&& s1.page_table.root_ppn == s0.page_table.root_ppn
        &&& s1.page_table.frames@ == s0.page_table.frames@
        &&& s1.trampoline == s0.trampoline
        &&& s1.areas@.len() == 0
        &&& forall|p: int| !s1.owns_data(p)
        &&& forall|p: int| fa1.is_allocated(p) <==> fa0.is_allocated(p) && !s0.owns_data(p)
        &&& forall|p: int|
            0 <= p < m0.len() && !s0.page_table.owns(p) ==> (#[trigger] m1[p]) == m0[p]
        &&& forall|v: int|
            0 <= v < TRAMPOLINE_VPN ==> (#[trigger] lookup(m1, s0.page_table.root(), v)) is None
    }

    /// Removes one area while all areas are removed.
    fn recycle_step(
        &mut self,
        fa: &mut StackFrameAllocator,
        mem: &mut PhysMemory,
        Ghost(s0): Ghost<MemorySet>,
        Ghost(m0): Ghost<Seq<Seq<u64>>>,
        Ghost(fa0): Ghost<StackFrameAllocator>,
    )
        requires
            Self::recycling(s0, *old(self), m0, old(mem)@, fa0, *old(fa)),
            old(self).areas@.len() > 0,
        ensures
            Self::recycling(s0, *final(self), m0, final(mem)@, fa0, *final(fa)),
            final(self).areas@.len() == old(self).areas@.len() - 1,
    {
        let ghost s1 = *self;
        let ghost m1 = mem@;
        let ghost fa1 = *fa;
        proof {
            Self::lemma_recycling_facts(s0, s1, m0, m1, fa0, fa1);
        }
        let idx: usize = self.areas.len() - 1;
        self.shrink_area(idx, fa, mem);
        let ghost s2 = *self;
        proof {
            Self::lemma_reduced_facts(
                s1,
                s2,
                m1,
                mem@,
                fa1,
                *fa,
                idx as int,
                s1.areas@[idx as int].start.0 as int,
            );
        }
        let _ = self.areas.remove(idx);
        proof {
            Self::lemma_removed(s1, s2, *self, m1, mem@, fa1, *fa, idx as int);
            Self::lemma_recycling_step(s0, s1, *self, m0, m1, mem@, fa0, fa1, *fa);
        }
    }

    /// Releases every frame that backs a page: all areas are removed, their
    /// pages unmapped and their frames given back.  The page table keeps its
    /// nodes and the trampoline mapping, so the token stays good.
    pub fn recycle_data_pages(&mut self, fa: &mut StackFrameAllocator, mem: &mut PhysMemory)
        requires
            old(self).wf(old(mem)@),
            old(self).frames_allocated(old(fa)),
            old(fa).wf(),
        ensures
            Self::drained(*old(self), *final(self), old(mem)@, final(mem)@, *old(fa), *final(fa)),
    {
        let ghost s0 = *self;
        let ghost m0 = mem@;
        let ghost fa0 = *fa;
        proof {
            assert(Self::recycling(s0, s0, m0, m0, fa0, fa0)) by {
                reveal(MemorySet::recycling);
                assert(s0.areas@ =~= s0.areas@.subrange(0, s0.areas@.len() as int));
            }
        }
        while self.areas.len() > 0
            invariant
                Self::recycling(s0, *self, m0, mem@, fa0, *fa),
            decreases self.areas@.len(),
        {
            self.recycle_step(fa, mem, Ghost(s0), Ghost(m0), Ghost(fa0));
        }
        proof {
            reveal(MemorySet::recycling);
            self.lemma_wf_facts(mem@);
            assert forall|p: int| !self.owns_data(p) by {}
            assert forall|v: int| 0 <= v < TRAMPOLINE_VPN implies (#[trigger] lookup(
                mem@,
                s0.page_table.root(),
                v,
            )) is None by {
                assert(!self.covered(v));
            }
        }
    }

    /// Gives every frame of the address space back: the frames of its pages
    /// and the nodes of its page table.
    pub fn release(self, fa: &mut StackFrameAllocator, mem: &mut PhysMemory)
        requires
            self.wf(old(mem)@),
            self.frames_allocated(old(fa)),
            old(fa).wf(),
        ensures
            final(fa).wf(),
            final(fa).start() == old(fa).start(),
            final(fa).end() == old(fa).end(),
            final(mem)@.len() == old(mem)@.len(),
            forall|p: int| final(fa).is_allocated(p) <==> old(fa).is_allocated(p) && !self.owns(p),
            forall|p: int|
                0 <= p < old(mem)@.len() && !self.page_table.owns(p) ==> (#[trigger] final(mem)@[p])
                    == old(mem)@[p],
    {
        let mut ms = self;
        ms.recycle_data_pages(fa, mem);
        let ghost fa1 = *fa;
        proof {
            ms.lemma_wf_facts(mem@);
            assert forall|p: int| ms.page_table.owns(p) implies fa.is_allocated(p) by {
                assert(ms.owns(p));
            }
            assert(forall|p: int| ms.page_table.owns(p) <==> self.page_table.owns(p));
        }
        let MemorySet { page_table, areas: _, trampoline: _ } = ms;
        page_table.release(fa, mem);
        proof {
            self.lemma_wf_facts(old(mem)@);
        }
    }

    /// How an address space, the memory and the allocator stand after an
    /// attempt to map the trampoline page: the areas and the mappings of all
    /// other pages are as before, the page table may have gained nodes that
    /// were free before, and only nodes of the page table were written.
    pub open spec fn trampoline_step(
        s0: MemorySet,
        s1: MemorySet,
        m0: Seq<Seq<u64>>,
        m1: Seq<Seq<u64>>,
        fa0: StackFrameAllocator,
        fa1: StackFrameAllocator,
    ) -> bool {
        &&& s1.wf(m1)
        &&& s1.frames_allocated(&fa1)
        &&& fa1.wf()
        &&& fa1.start() == fa0.start()
        &&& fa1.end() == fa0.end()
        &&& m1.len() == m0.len()
        &&& s1.page_table.root_ppn == s0.page_table.root_ppn
        &&& s1.areas == s0.areas
        &&& forall|p: int| s0.page_table.owns(p) ==> s1.page_table.owns(p)
        &&& forall|p: int|
            s1.page_table.owns(p) && !s0.page_table.owns(p) ==> !fa0.is_allocated(p)
        &&& forall|p: int|
            fa1.is_allocated(p) <==> fa0.is_allocated(p) || (s1.page_table.owns(p)
                && !s0.page_table.owns(p))
        &&& fa1.free() >= fa0.free() - missing_levels(
            m0,
            s0.page_table.root(),
            TRAMPOLINE_VPN as int,
        )
        &&& forall|p: int|
            0 <= p < m0.len() && !s1.page_table.owns(p) ==> (#[trigger] m1[p]) == m0[p]
        &&& forall|v: int|
            0 <= v < TRAMPOLINE_VPN ==> (#[trigger] lookup(m1, s0.page_table.root(), v))
                == lookup(m0, s0.page_table.root(), v)
    }

    /// Maps the trampoline page, readable and executable, to the frame
    /// `trampoline`.  Refused when the page is mapped already, and when the
    /// allocator cannot supply the nodes that are missing on its path.
    pub fn map_trampoline(
        &mut self,
        trampoline: PhysPageNum,
        fa: &mut StackFrameAllocator,
        mem: &mut PhysMemory,
    ) -> (r: Result<(), PageTableError>)
        requires
            old(self).wf(old(mem)@),
            old(self).frames_allocated(old(fa)),
            old(fa).wf(),
            old(fa).end() <= old(mem)@.len(),
            old(fa).end() <= PPN_LIMIT,
        ensures
            r == Err::<(), PageTableError>(PageTableError::AlreadyMapped) <==> old(self).trampoline is Some,
            r == Err::<(), PageTableError>(PageTableError::OutOfFrames) <==> old(self).trampoline
                is None && old(fa).free() < missing_levels(
                old(mem)@,
                old(self).page_table.root(),
                TRAMPOLINE_VPN as int,
            ),
            r is Err ==> (r == Err::<(), PageTableError>(PageTableError::AlreadyMapped) || r
                == Err::<(), PageTableError>(PageTableError::OutOfFrames)) && final(self).trampoline == old(self).trampoline,
            r is Ok ==> final(self).trampoline == Some(trampoline),
            Self::trampoline_step(
                *old(self),
                *final(self),
                old(mem)@,
                final(mem)@,
                *old(fa),
                *final(fa),
            ),
    {
        let ghost s0 = *self;
        let ghost m0 = mem@;
        let ghost fa0 = *fa;
        proof {
            self.lemma_wf_facts(m0);
        }
        if self.trampoline.is_some() {
            return Err(PageTableError::AlreadyMapped);
        }
        let res = self.page_table.map(
            VirtPageNum(TRAMPOLINE_VPN),
            trampoline,
            PTEFlags { bits: PTE_R | PTE_X },
            fa,
            mem,
        );
        if res.is_ok() {
            self.trampoline = Some(trampoline);
        }
        proof {
            assert((PTE_R | PTE_X) | PTE_V == PTE_R | PTE_X | PTE_V) by (bit_vector);
            Self::lemma_trampoline(s0, *self, m0, mem@);
            assert forall|p: int| self.owns(p) implies fa.is_allocated(p) by {
                if self.owns_data(p) {
                    assert(s0.owns(p));
                }
            }
        }
        res
    }

    /// Mapping the trampoline page keeps an address space consistent.
    proof fn lemma_trampoline(s0: MemorySet, s1: MemorySet, m0: Seq<Seq<u64>>, m1: Seq<Seq<u64>>)
        requires
            s0.wf(m0),
            s1.page_table.wf(m1),
            s1.page_table.root() == s0.page_table.root(),
            s1.areas == s0.areas,
            m1.len() == m0.len(),
            lookup(m1, s0.page_table.root(), TRAMPOLINE_VPN as int) == s1.trampoline_entry(),
            forall|v: int|
                0 <= v < TRAMPOLINE_VPN ==> (#[trigger] lookup(m1, s0.page_table.root(), v))
                    == lookup(m0, s0.page_table.root(), v),
            forall|p: int| s0.owns_data(p) ==> !s1.page_table.owns(p),
        ensures
            s1.wf(m1),
            forall|p: int| s1.owns_data(p) <==> s0.owns_data(p),
    {
        reveal(MemorySet::wf);
        assert forall|a: int, k: int|
            0 <= a < s1.areas@.len() && 0 <= k < s1.areas@[a].data_frames@.len() implies {
            &&& 0 <= #[trigger] s1.data_frame(a, k) < m1.len()
            &&& s1.data_frame(a, k) < PPN_LIMIT
            &&& !s1.page_table.owns(s1.data_frame(a, k))
        } by {
            assert(s1.data_frame(a, k) == s0.data_frame(a, k));
            assert(s0.owns_data(s0.data_frame(a, k)));
        }
        assert forall|a: int, k: int, b: int, j: int|
            0 <= a < s1.areas@.len() && 0 <= k < s1.areas@[a].data_frames@.len() && 0 <= b
                < s1.areas@.len() && 0 <= j < s1.areas@[b].data_frames@.len() && (a != b || k
                != j) implies #[trigger] s1.data_frame(a, k) != #[trigger] s1.data_frame(b, j) by {
            assert(s1.data_frame(a, k) == s0.data_frame(a, k));
            assert(s1.data_frame(b, j) == s0.data_frame(b, j));
        }
        assert forall|u: int|
            0 <= u < TRAMPOLINE_VPN && (#[trigger] lookup(m1, s1.page_table.root(), u))
                is Some implies s1.covered(u) by {
            assert(s0.covered(u));
            let a = choose|a: int|
                0 <= a < s0.areas@.len() && (#[trigger] s0.areas@[a]).has_page(u);
            assert(s1.areas@[a].has_page(u));
        }
        assert forall|a: int, u: int|
            0 <= a < s1.areas@.len() && (#[trigger] s1.areas@[a]).has_page(u) implies (
        #[trigger] lookup(m1, s1.page_table.root(), u)) == Some(s1.areas@[a].entry_of(u)) by {
            assert(s0.areas@[a].mapped());
        }
        assert forall|p: int| s1.owns_data(p) <==> s0.owns_data(p) by {
            if s1.owns_data(p) {
                let (a, k) = choose|a: int, k: int|
                    0 <= a < s1.areas@.len() && 0 <= k < s1.areas@[a].data_frames@.len()
                        && #[trigger] s1.data_frame(a, k) == p;
                assert(s0.data_frame(a, k) == p);
            }
            if s0.owns_data(p) {
                let (a, k) = choose|a: int, k: int|
                    0 <= a < s0.areas@.len() && 0 <= k < s0.areas@[a].data_frames@.len()
                        && #[trigger] s0.data_frame(a, k) == p;
                assert(s1.data_frame(a, k) == p);
            }
        }
    }

    /// The frames that must be free before this address space is copied:
    /// one for the root of the new page table, two for the path of the
    /// trampoline page if it is mapped, and [`frames_needed`] for every area.
    pub open spec fn clone_need(&self) -> int {
        1 + (if self.trampoline is Some {
            2int
        } else {
            0int
        }) + areas_need(self.areas@, 0)
    }

    /// Computes [`MemorySet::clone_need`]; `None` when it does not fit in 64
    /// bits.
    pub fn clone_need_of(&self, mem: &PhysMemory) -> (r: Option<u64>)
        requires
            self.wf(mem@),
        ensures
            r matches Some(n) ==> n == self.clone_need(),
            r is None ==> self.clone_need() > u64::MAX,
    {
        proof {
            self.lemma_wf_facts(mem@);
        }
        let mut acc: u64 = 0;
        let mut i: usize = self.areas.len();
        while i > 0
            invariant
                i <= self.areas@.len(),
                acc == areas_need(self.areas@, i as int),
                forall|a: int| 0 <= a < self.areas@.len() ==> (#[trigger] self.areas@[a]).mapped(),
            decreases i,
        {
            i = i - 1;
            proof {
                assert(self.areas@[i as int].mapped());
                lemma_areas_need_nonneg(self.areas@, i as int + 1);
            }
            let n: u64 = Self::frames_needed_of(
                self.areas[i].start,
                self.areas[i].end,
                self.areas[i].map_type,
            );
            match acc.checked_add(n) {
                Some(v) => {
                    acc = v;
                },
                None => {
                    proof {
                        lemma_areas_need_mono(self.areas@, 0, i as int);
                    }
                    return None;
                },
            }
        }
        let extra: u64 = if self.trampoline.is_some() {
            3
        } else {
            1
        };
        acc.checked_add(extra)
    }

    /// What a copy of `parent` is: it has the areas of `parent`, with the
    /// same ranges, kinds and rights, and the same trampoline mapping; each
    /// page of a framed area has a frame of its own that holds what the
    /// frame of `parent` held; every frame of the copy was free before, so
    /// the two share none; and no frame outside the copy was written.
    pub open spec fn copied(
        parent: MemorySet,
        child: MemorySet,
        m0: Seq<Seq<u64>>,
        m1: Seq<Seq<u64>>,
        fa0: StackFrameAllocator,
        fa1: StackFrameAllocator,
    ) -> bool {
        &&& parent.wf(m1)
        &&& child.wf(m1)
        &&& child.frames_allocated(&fa1)
        &&& fa1.wf()
        &&& fa1.start() == fa0.start()
        &&& fa1.end() == fa0.end()
        &&& m1.len() == m0.len()
        &&& child.trampoline == parent.trampoline
        &&& child.areas@.len() == parent.areas@.len()
        &&& forall|a: int|
            0 <= a < parent.areas@.len() ==> same_shape(#[trigger] child.areas@[a], parent.areas@[a])
        &&& forall|a: int, k: int|
            0 <= a < parent.areas@.len() && 0 <= k < parent.areas@[a].data_frames@.len()
                ==> m1[#[trigger] child.data_frame(a, k)] == m0[parent.data_frame(a, k)]
        &&& forall|p: int| child.owns(p) ==> !fa0.is_allocated(p)
        &&& forall|p: int| fa1.is_allocated(p) <==> fa0.is_allocated(p) || child.owns(p)
        &&& forall|p: int| 0 <= p < m0.len() && !child.owns(p) ==> (#[trigger] m1[p]) == m0[p]
        &&& fa1.free() >= fa0.free() - parent.clone_need()
    }

    /// What holds while the areas of `parent` are copied one by one: the
    /// first `n` are done.
    #[verifier::opaque]
    pub open spec fn cloning(
        parent: MemorySet,
        child: MemorySet,
        m0: Seq<Seq<u64>>,
        m1: Seq<Seq<u64>>,
        fa0: StackFrameAllocator,
        fa1: StackFrameAllocator,
        n: int,
    ) -> bool {
        &&& parent.wf(m1)
        &&& parent.frames_allocated(&fa0)
        &&& child.wf(m1)
        &&& child.frames_allocated(&fa1)
        &&& fa1.wf()
        &&& fa1.start() == fa0.start()
        &&& fa1.end() == fa0.end()
        &&& fa1.end() <= m1.len()
        &&& fa1.end() <= PPN_LIMIT
        &&& m1.len() == m0.len()
        &&& child.trampoline == parent.trampoline
        &&& child.areas@.len() == n
        &&& n <= parent.areas@.len()
        &&& forall|a: int| 0 <= a < n ==> same_shape(#[trigger] child.areas@[a], parent.areas@[a])
        &&& forall|a: int, k: int|
            0 <= a < n && 0 <= k < parent.areas@[a].data_frames@.len() ==> m1[#[trigger] child.data_frame(
                a,
                k,
            )] == m0[parent.data_frame(a, k)]
        &&& forall|p: int| child.owns(p) ==> !fa0.is_allocated(p)
        &&& forall|p: int| fa1.is_allocated(p) <==> fa0.is_allocated(p) || child.owns(p)
        &&& forall|p: int| 0 <= p < m0.len() && !child.owns(p) ==> (#[trigger] m1[p]) == m0[p]
        &&& fa1.free() >= areas_need(parent.areas@, n)
        &&& fa1.free() >= fa0.free() - parent.clone_need() + areas_need(parent.areas@, n)
    }

    /// The area of `parent` that is copied next shares no page with the
    /// areas that have been copied.
    proof fn lemma_next_area_free(parent: MemorySet, child: MemorySet, m: Seq<Seq<u64>>, n: int)
        requires
            parent.wf(m),
            0 <= n < parent.areas@.len(),
            child.areas@.len() == n,
            forall|a: int| 0 <= a < n ==> same_shape(#[trigger] child.areas@[a], parent.areas@[a]),
        ensures
            !child.overlaps(parent.areas@[n].start.0 as int, parent.areas@[n].end.0 as int),
            parent.areas@[n].mapped(),
    {
        reveal(MemorySet::wf);
        if child.overlaps(parent.areas@[n].start.0 as int, parent.areas@[n].end.0 as int) {
            let v = choose|v: int|
                parent.areas@[n].start.0 <= v < parent.areas@[n].end.0 && #[trigger] child.covered(
                    v,
                );
            let a = choose|a: int|
                0 <= a < child.areas@.len() && (#[trigger] child.areas@[a]).has_page(v);
            assert(same_shape(child.areas@[a], parent.areas@[a]));
            assert(parent.areas@[a].has_page(v));
            assert(parent.areas@[n].has_page(v));
        }
    }

    /// One more area copied continues the copying.
    proof fn lemma_clone_step(
        parent: MemorySet,
        c1: MemorySet,
        c2: MemorySet,
        m0: Seq<Seq<u64>>,
        m1: Seq<Seq<u64>>,
        m2: Seq<Seq<u64>>,
        m3: Seq<Seq<u64>>,
        fa0: StackFrameAllocator,
        fa1: StackFrameAllocator,
        fa2: StackFrameAllocator,
        n: int,
    )
        requires
            0 <= n < parent.areas@.len(),
            Self::cloning(parent, c1, m0, m1, fa0, fa1, n),
            Self::appended(
                c1,
                c2,
                m1,
                m2,
                fa1,
                fa2,
                parent.areas@[n].start.0 as int,
                parent.areas@[n].end.0 as int,
                parent.areas@[n].map_type,
                parent.areas@[n].map_perm,
                Seq::<u8>::empty(),
            ),
            m3.len() == m2.len(),
            c2.areas@[n].data_frames@.len() == parent.areas@[n].data_frames@.len(),
            forall|k: int|
                0 <= k < parent.areas@[n].data_frames@.len() ==> m3[#[trigger] c2.data_frame(n, k)]
                    == m2[parent.data_frame(n, k)],
            forall|p: int|
                0 <= p < m2.len() && !c2.backs_area(n, p) ==> (#[trigger] m3[p]) == m2[p],
        ensures
            Self::cloning(parent, c2, m0, m3, fa0, fa2, n + 1),
    {
        reveal(MemorySet::cloning);
        reveal(MemorySet::appended);
        c2.lemma_wf_facts(m2);
        parent.lemma_wf_facts(m1);
        c1.lemma_wf_facts(m1);
        c2.page_table.lemma_wf_basics(m2);
        parent.page_table.lemma_wf_basics(m1);
        lemma_areas_need_nonneg(parent.areas@, n + 1);
        assert(c2.areas@.last() == c2.areas@[n]);
        // the frames of the new area were free, so they belong to nobody else
        assert forall|p: int| c2.backs_area(n, p) implies c2.owns_data(p) && !c1.owns(p)
            && !parent.owns(p) && !fa0.is_allocated(p) by {
            let k = choose|k: int|
                0 <= k < c2.areas@[n].data_frames@.len() && #[trigger] c2.data_frame(n, k) == p;
            assert(c2.data_frame(n, k) == p);
            assert(c2.owns_data(p));
            if c1.owns_data(p) {
                let (a, j) = choose|a: int, j: int|
                    0 <= a < c1.areas@.len() && 0 <= j < c1.areas@[a].data_frames@.len()
                        && #[trigger] c1.data_frame(a, j) == p;
                assert(c2.areas@[a] == c1.areas@[a]);
                assert(c2.data_frame(a, j) == p);
                c2.lemma_distinct(m2, a, j, n, k);
            }
            if c1.page_table.owns(p) {
                assert(c2.page_table.owns(p));
            }
            assert(!c1.owns(p));
            assert(!fa1.is_allocated(p));
        }
        assert forall|p: int| c2.page_table.owns(p) implies m3[p] == m2[p] by {
            if c2.backs_area(n, p) {
                assert(c2.owns_data(p));
            }
        }
        c2.lemma_wf_frame(m2, m3);
        assert forall|p: int| parent.page_table.owns(p) implies m3[p] == m1[p] by {
            assert(parent.owns(p));
            assert(fa0.is_allocated(p));
            assert(!c2.backs_area(n, p));
            assert(!c2.owns(p));
        }
        parent.lemma_wf_frame(m1, m3);
        assert forall|a: int| 0 <= a < n + 1 implies same_shape(
            #[trigger] c2.areas@[a],
            parent.areas@[a],
        ) by {
            if a < n {
                assert(c2.areas@[a] == c1.areas@[a]);
                assert(same_shape(c1.areas@[a], parent.areas@[a]));
            }
        }
        assert forall|a: int, k: int|
            0 <= a < n + 1 && 0 <= k < parent.areas@[a].data_frames@.len() implies m3[#[trigger] c2.data_frame(
            a,
            k,
        )] == m0[parent.data_frame(a, k)] by {
            let q = parent.data_frame(a, k);
            assert(parent.owns_data(q));
            assert(fa0.is_allocated(q));
            if a < n {
                assert(c2.areas@[a] == c1.areas@[a]);
                assert(same_shape(c1.areas@[a], parent.areas@[a]));
                let p = c1.data_frame(a, k);
                assert(c2.data_frame(a, k) == p);
                assert(c1.owns_data(p));
                assert(!c2.backs_area(n, p));
            } else {
                assert(!c2.backs_area(n, q));
                assert(!c2.owns(q));
                assert(!c1.owns(q));
            }
        }
        assert forall|p: int| c2.owns(p) implies !fa0.is_allocated(p) by {
            if c1.owns(p) {
            } else {
                assert(!fa1.is_allocated(p));
            }
        }
        assert forall|p: int| 0 <= p < m0.len() && !c2.owns(p) implies (#[trigger] m3[p])
            == m0[p] by {
            assert(!c2.backs_area(n, p));
            assert(!c1.owns(p));
        }
    }

    /// Copies the next area of `parent` into this address space.
    fn clone_area(
        &mut self,
        parent: &MemorySet,
        fa: &mut StackFrameAllocator,
        mem: &mut PhysMemory,
        Ghost(m0): Ghost<Seq<Seq<u64>>>,
        Ghost(fa0): Ghost<StackFrameAllocator>,
    )
        requires
            old(self).areas@.len() < parent.areas@.len(),
            Self::cloning(
                *parent,
                *old(self),
                m0,
                old(mem)@,
                fa0,
                *old(fa),
                old(self).areas@.len() as int,
            ),
        ensures
            final(self).areas@.len() == old(self).areas@.len() + 1,
            Self::cloning(
                *parent,
                *final(self),
                m0,
                final(mem)@,
                fa0,
                *final(fa),
                final(self).areas@.len() as int,
            ),
    {
        let n: usize = self.areas.len();
        let ghost c1 = *self;
        let ghost m1 = mem@;
        let ghost fa1 = *fa;
        proof {
            reveal(MemorySet::cloning);
            Self::lemma_next_area_free(*parent, c1, m1, n as int);
            lemma_areas_need_nonneg(parent.areas@, n as int + 1);
            assert(areas_need(parent.areas@, n as int) == frames_needed(
                parent.areas@[n as int].start.0 as int,
                parent.areas@[n as int].end.0 as int,
                parent.areas@[n as int].map_type,
            ) + areas_need(parent.areas@, n as int + 1));
        }
        let area = MapArea::from_another(&parent.areas[n]);
        let r = self.push(area, None, fa, mem);
        let ghost m2 = mem@;
        let ghost c2 = *self;
        proof {
            assert(r is Ok);
            reveal(MemorySet::appended);
            c2.lemma_wf_facts(m2);
            parent.lemma_wf_facts(m1);
            assert(c2.areas@[n as int].mapped());
            assert(parent.areas@[n as int].mapped());
            assert(c2.areas@.last() == c2.areas@[n as int]);
        }
        match parent.areas[n].map_type {
            MapType::Framed => {
                proof {
                    reveal(MemorySet::wf);
                    assert forall|j: int, k: int|
                        0 <= j < c2.areas@[n as int].data_frames@.len() && 0 <= k
                            < parent.areas@[n as int].data_frames@.len() implies (
                    #[trigger] c2.areas@[n as int].data_frames@[j]).ppn.0 != (
                    #[trigger] parent.areas@[n as int].data_frames@[k]).ppn.0 by {
                        let p = c2.data_frame(n as int, j);
                        let q = parent.data_frame(n as int, k);
                        assert(parent.owns_data(q));
                        assert(parent.owns(q));
                        assert(fa0.is_allocated(q));
                        assert(fa1.is_allocated(q));
                        assert(c2.owns_data(p));
                        if c1.owns_data(p) {
                            let (a, i) = choose|a: int, i: int|
                                0 <= a < c1.areas@.len() && 0 <= i
                                    < c1.areas@[a].data_frames@.len() && #[trigger] c1.data_frame(
                                    a,
                                    i,
                                ) == p;
                            assert(c2.areas@[a] == c1.areas@[a]);
                            assert(c2.data_frame(a, i) == p);
                        }
                        if c1.page_table.owns(p) {
                            assert(c2.page_table.owns(p));
                        }
                        assert(!c1.owns(p));
                    }
                    assert forall|j: int, k: int|
                        0 <= j < k < c2.areas@[n as int].data_frames@.len() implies (
                    #[trigger] c2.areas@[n as int].data_frames@[j]).ppn.0 != (
                    #[trigger] c2.areas@[n as int].data_frames@[k]).ppn.0 by {
                        assert(c2.data_frame(n as int, j) != c2.data_frame(n as int, k));
                    }
                    assert forall|k: int|
                        0 <= k < c2.areas@[n as int].data_frames@.len() implies (
                    #[trigger] c2.areas@[n as int].data_frames@[k]).ppn.0 < m2.len() by {
                        assert(c2.data_frame(n as int, k) < m2.len());
                    }
                    assert forall|k: int|
                        0 <= k < parent.areas@[n as int].data_frames@.len() implies (
                    #[trigger] parent.areas@[n as int].data_frames@[k]).ppn.0 < m2.len() by {
                        assert(parent.data_frame(n as int, k) < m1.len());
                    }
                }
                copy_frames(&self.areas[n].data_frames, &parent.areas[n].data_frames, mem);
            },
            MapType::Identical => {},
        }
        proof {
            let m3 = mem@;
            assert forall|k: int|
                0 <= k < parent.areas@[n as int].data_frames@.len() implies m3[#[trigger] c2.data_frame(
                n as int,
                k,
            )] == m2[parent.data_frame(n as int, k)] by {}
            assert forall|p: int| 0 <= p < m2.len() && !c2.backs_area(n as int, p) implies (
            #[trigger] m3[p]) == m2[p] by {
                if parent.areas@[n as int].map_type == MapType::Framed {
                    if exists|k: int|
                        0 <= k < c2.areas@[n as int].data_frames@.len() && (
                        #[trigger] c2.areas@[n as int].data_frames@[k]).ppn.0 == p {
                        let k = choose|k: int|
                            0 <= k < c2.areas@[n as int].data_frames@.len() && (
                            #[trigger] c2.areas@[n as int].data_frames@[k]).ppn.0 == p;
                        assert(c2.data_frame(n as int, k) == p);
                    }
                }
            }
            Self::lemma_clone_step(*parent, c1, c2, m0, m1, m2, m3, fa0, fa1, *fa, n as int);
        }
    }

    /// A copy of the address space `user_space`: same areas, same rights,
    /// same trampoline mapping, and for every page of a framed area a frame
    /// of its own with the content of the source.
    ///
    /// Refused, with nothing changed, when the allocator does not hold
    /// [`MemorySet::clone_need`] free frames.
    pub fn from_existed_user(
        user_space: &MemorySet,
        fa: &mut StackFrameAllocator,
        mem: &mut PhysMemory,
    ) -> (r: Result<MemorySet, AreaError>)
        requires
            user_space.wf(old(mem)@),
            user_space.frames_allocated(old(fa)),
            old(fa).wf(),
            old(fa).end() <= old(mem)@.len(),
            old(fa).end() <= PPN_LIMIT,
        ensures
            r is Err <==> old(fa).free() < user_space.clone_need(),
            r matches Err(e) ==> e == AreaError::OutOfFrames && *final(fa) == *old(fa) && final(mem)@ == old(mem)@,
            r matches Ok(child) ==> Self::copied(
                *user_space,
                child,
                old(mem)@,
                final(mem)@,
                *old(fa),
                *final(fa),
            ),
    {
        let ghost m0 = mem@;
        let ghost fa0 = *fa;
        let need: u64 = match user_space.clone_need_of(mem) {
            Some(n) => n,
            None => {
                proof {
                    fa0.lemma_free_bound();
                    assert(fa0.free() <= u64::MAX);
                    assert(user_space.clone_need() > u64::MAX);
                }
                return Err(AreaError::OutOfFrames);
            },
        };
        if !fa.has_free(need) {
            return Err(AreaError::OutOfFrames);
        }
        proof {
            lemma_areas_need_nonneg(user_space.areas@, 0);
        }
        let mut child = match MemorySet::new_bare(fa, mem) {
            Some(ms) => ms,
            None => {
                proof {
                    assert(false);
                }
                return Err(AreaError::OutOfFrames);
            },
        };
        let ghost c0 = child;
        let ghost ma = mem@;
        let ghost faa = *fa;
        proof {
            user_space.lemma_wf_facts(m0);
            assert forall|p: int| user_space.page_table.owns(p) implies ma[p] == m0[p] by {
                assert(user_space.owns(p));
            }
            user_space.lemma_wf_frame(m0, ma);
        }
        match user_space.trampoline {
            Some(t) => {
                let r = child.map_trampoline(t, fa, mem);
                proof {
                    assert(r is Ok);
                }
            },
            None => {},
        }
        proof {
            let mb = mem@;
            assert(child.areas@.len() == 0);
            assert forall|p: int| !child.owns_data(p) by {}
            assert forall|p: int| !c0.owns_data(p) by {}
            assert forall|p: int| child.owns(p) implies !fa0.is_allocated(p) && (c0.owns(p)
                || !faa.is_allocated(p)) by {
                assert(child.page_table.owns(p));
                if c0.page_table.owns(p) {
                    assert(c0.owns(p));
                } else {
                    assert(user_space.trampoline is Some);
                    assert(!faa.is_allocated(p));
                }
            }
            assert forall|p: int| fa.is_allocated(p) <==> fa0.is_allocated(p) || child.owns(p) by {
                assert(c0.owns(p) <==> p == c0.page_table.root());
                assert(c0.owns(p) <==> c0.page_table.owns(p));
                assert(child.owns(p) <==> child.page_table.owns(p));
                assert(faa.is_allocated(p) <==> fa0.is_allocated(p) || p == c0.page_table.root());
                if user_space.trampoline is Some {
                    if c0.page_table.owns(p) {
                        assert(child.page_table.owns(p));
                    }
                    assert(fa.is_allocated(p) <==> faa.is_allocated(p) || (child.page_table.owns(p)
                        && !c0.page_table.owns(p)));
                } else {
                    assert(child.page_table.owns(p) == c0.page_table.owns(p));
                }
            }
            assert forall|p: int| user_space.page_table.owns(p) implies mb[p] == ma[p] by {
                assert(user_space.owns(p));
                assert(fa0.is_allocated(p));
                user_space.page_table.lemma_wf_basics(m0);
                if child.page_table.owns(p) {
                    assert(child.owns(p));
                }
            }
            user_space.lemma_wf_frame(ma, mb);
            assert(Self::cloning(*user_space, child, m0, mb, fa0, *fa, 0)) by {
                reveal(MemorySet::cloning);
                assert forall|p: int| 0 <= p < m0.len() && !child.owns(p) implies (#[trigger] mb[p])
                    == m0[p] by {
                    assert(!child.page_table.owns(p));
                    if c0.page_table.owns(p) {
                        assert(c0.owns(p));
                        if user_space.trampoline is Some {
                            assert(child.page_table.owns(p));
                        }
                    }
                    assert(!c0.owns(p));
                }
                assert(missing_levels(ma, c0.page_table.root(), TRAMPOLINE_VPN as int) <= 2);
            }
        }
        while child.areas.len() < user_space.areas.len()
            invariant
                child.areas@.len() <= user_space.areas@.len(),
                Self::cloning(*user_space, child, m0, mem@, fa0, *fa, child.areas@.len() as int),
            decreases user_space.areas@.len() - child.areas@.len(),
        {
            child.clone_area(user_space, fa, mem, Ghost(m0), Ghost(fa0));
            proof {
                reveal(MemorySet::cloning);
            }
        }
        proof {
            reveal(MemorySet::cloning);
        }
        Ok(child)
    }

    /// The token of the page table: what the hardware is given to make this
    /// address space the active one.
    pub fn token(&self) -> (r: u64)
        ensures
            r == 0x8000_0000_0000_0000 + self.page_table.root_ppn.0 % PPN_LIMIT,
    {
        self.page_table.token()
    }

    /// The leaf entry that maps `vpn`, if the page is mapped.
    pub fn translate(&self, vpn: VirtPageNum, mem: &PhysMemory) -> (r: Option<PageTableEntry>)
        ensures
            r == self.view_at(mem@, vpn.0 as int),
    {
        self.page_table.translate(vpn, mem)
    }
}

} // verus!
