//! Sv39 page tables: three levels of 512 entries, each node in one frame of
//! physical memory.

use vstd::prelude::*;
use crate::config::PPN_LIMIT;
use crate::mm::address::{vpn_index, PhysPageNum, VirtPageNum};
use crate::mm::frame_allocator::{frame_alloc, frame_dealloc, FrameTracker, StackFrameAllocator};
use crate::mm::memory::PhysMemory;

verus! {

/// Permission and status bits of a page-table entry.
#[derive(Copy, Clone, Debug, PartialEq, Eq, Structural)]
pub struct PTEFlags {
    pub bits: u8,
}

/// Valid.
pub const PTE_V: u8 = 1;

/// Readable.
pub const PTE_R: u8 = 2;

/// Writable.
pub const PTE_W: u8 = 4;

/// Executable.
pub const PTE_X: u8 = 8;

/// Accessible from user mode.
pub const PTE_U: u8 = 16;

/// Global.
pub const PTE_G: u8 = 32;

/// Accessed.
pub const PTE_A: u8 = 64;

/// Dirty.
pub const PTE_D: u8 = 128;

impl PTEFlags {
    /// The flag set with the given bits.  Every bit of a `u8` is a flag, so
    /// this never fails.
    pub fn from_bits(bits: u8) -> (r: Option<Self>)
        ensures
            r == Some(PTEFlags { bits }),
    {
        Some(PTEFlags { bits })
    }

    /// The empty flag set.
    pub fn empty() -> (r: Self)
        ensures
            r.bits == 0,
    {
        PTEFlags { bits: 0 }
    }

    /// The bits of the set.
    pub fn bits(&self) -> (r: u8)
        ensures
            r == self.bits,
    {
        self.bits
    }

    /// Whether every flag of `other` is in `self`.
    pub open spec fn has(&self, other: u8) -> bool {
        self.bits & other == other
    }

    /// The flags that are in `self` or in `other`.
    pub open spec fn spec_union(&self, other: PTEFlags) -> PTEFlags {
        PTEFlags { bits: self.bits | other.bits }
    }

    /// Whether every flag of `other` is in `self`.
    pub fn contains(&self, other: PTEFlags) -> (r: bool)
        ensures
            r == self.has(other.bits),
    {
        self.bits & other.bits == other.bits
    }

    /// The flags that are in `self` or in `other`.
    pub fn union(&self, other: PTEFlags) -> (r: Self)
        ensures
            r == self.spec_union(other),
    {
        PTEFlags { bits: self.bits | other.bits }
    }

    /// A set with the valid flag added is valid and keeps its other flags.
    pub proof fn lemma_with_valid(bits: u8)
        ensures
            (bits | 1u8) % 2 == 1,
            (bits | 1u8) & 1u8 == 1u8,
            forall|f: u8| bits & f == f ==> #[trigger] ((bits | 1u8) & f) == f,
    {
        assert((bits | 1u8) % 2 == 1) by (bit_vector);
        assert((bits | 1u8) & 1u8 == 1u8) by (bit_vector);
        assert forall|f: u8| bits & f == f implies #[trigger] ((bits | 1u8) & f) == f by {
            assert(bits & f == f ==> ((bits | 1u8) & f) == f) by (bit_vector);
        }
    }
}

/// Whether the entry with these bits is valid.
pub open spec fn pte_valid(bits: u64) -> bool {
    bits % 2 == 1
}

/// The physical page number in the entry with these bits.
pub open spec fn pte_ppn(bits: u64) -> int {
    ((bits / 1024) % PPN_LIMIT) as int
}

/// The flags in the entry with these bits.
pub open spec fn pte_flags(bits: u64) -> u8 {
    (bits % 256) as u8
}

/// The bits of the entry that names `ppn` (its low 44 bits) with `flags`.
pub open spec fn pte_bits(ppn: int, flags: u8) -> u64 {
    ((ppn % (PPN_LIMIT as int)) * 1024 + flags) as u64
}

/// An entry made of a page number and flags gives both back.
pub proof fn lemma_pte_bits(ppn: int, flags: u8)
    requires
        0 <= ppn,
    ensures
        pte_ppn(pte_bits(ppn, flags)) == ppn % (PPN_LIMIT as int),
        pte_flags(pte_bits(ppn, flags)) == flags,
        pte_valid(pte_bits(ppn, flags)) == (flags % 2 == 1),
        (ppn % (PPN_LIMIT as int)) * 1024 + flags <= u64::MAX,
{
}

/// One entry of a page-table node.
#[derive(Copy, Clone, Debug, PartialEq, Eq, Structural)]
pub struct PageTableEntry {
    pub bits: u64,
}

impl PageTableEntry {
    /// The entry that names `ppn` (its low 44 bits) with `flags`.
    pub fn new(ppn: PhysPageNum, flags: PTEFlags) -> (r: Self)
        ensures
            r.bits == pte_bits(ppn.0 as int, flags.bits),
    {
        PageTableEntry { bits: (ppn.0 % PPN_LIMIT) * 1024 + flags.bits as u64 }
    }

    /// The entry with no bit set: invalid.
    pub fn empty() -> (r: Self)
        ensures
            r.bits == 0,
    {
        PageTableEntry { bits: 0 }
    }

    /// The physical page number that the entry names.
    pub fn ppn(&self) -> (r: PhysPageNum)
        ensures
            r.0 == pte_ppn(self.bits),
    {
        PhysPageNum((self.bits / 1024) % PPN_LIMIT)
    }

    /// The flags of the entry.
    pub fn flags(&self) -> (r: PTEFlags)
        ensures
            r.bits == pte_flags(self.bits),
    {
        PTEFlags { bits: (self.bits % 256) as u8 }
    }

    /// Whether the valid flag is set.
    pub fn is_valid(&self) -> (r: bool)
        ensures
            r == pte_valid(self.bits),
    {
        self.bits % 2 == 1
    }
}

/// The node that entry `idx` of node `table` points to, if that entry is
/// valid and `table` is a frame of the memory `m`.
pub open spec fn next_table(m: Seq<Seq<u64>>, table: int, idx: int) -> Option<int> {
    if 0 <= table < m.len() && pte_valid(m[table][idx]) {
        Some(pte_ppn(m[table][idx]))
    } else {
        None
    }
}

/// The second-level node under entry `i0` of the root.
pub open spec fn l1(m: Seq<Seq<u64>>, root: int, i0: int) -> Option<int> {
    next_table(m, root, i0)
}

/// The third-level node under entries `i0`, `i1`.
pub open spec fn l2(m: Seq<Seq<u64>>, root: int, i0: int, i1: int) -> Option<int> {
    match l1(m, root, i0) {
        Some(t) => next_table(m, t, i1),
        None => None,
    }
}

/// The valid leaf entry under entries `i0`, `i1`, `i2`.
pub open spec fn leaf(m: Seq<Seq<u64>>, root: int, i0: int, i1: int, i2: int) -> Option<
    PageTableEntry,
> {
    match l2(m, root, i0, i1) {
        Some(t) => if 0 <= t < m.len() && pte_valid(m[t][i2]) {
            Some(PageTableEntry { bits: m[t][i2] })
        } else {
            None
        },
        None => None,
    }
}

/// Where the leaf entry of `vpn` lies (frame and index), if both upper
/// levels are valid and the node is a frame of `m`.
pub open spec fn slot(m: Seq<Seq<u64>>, root: int, vpn: int) -> Option<(int, int)> {
    match l2(m, root, vpn_index(vpn, 0), vpn_index(vpn, 1)) {
        Some(t) => if 0 <= t < m.len() {
            Some((t, vpn_index(vpn, 2)))
        } else {
            None
        },
        None => None,
    }
}

/// What the three-level walk from `root` finds for `vpn` in the memory `m`:
/// the leaf entry, if every entry on the path is valid.
pub open spec fn lookup(m: Seq<Seq<u64>>, root: int, vpn: int) -> Option<PageTableEntry> {
    leaf(m, root, vpn_index(vpn, 0), vpn_index(vpn, 1), vpn_index(vpn, 2))
}

/// Number of page-table nodes that are missing on the path of `vpn`.
pub open spec fn missing_levels(m: Seq<Seq<u64>>, root: int, vpn: int) -> int {
    if l1(m, root, vpn_index(vpn, 0)) is None {
        2
    } else if l2(m, root, vpn_index(vpn, 0), vpn_index(vpn, 1)) is None {
        1
    } else {
        0
    }
}

/// Why a page-table operation was refused.
#[derive(Copy, Clone, Debug, PartialEq, Eq, Structural)]
pub enum PageTableError {
    /// The page already has a valid leaf entry.
    AlreadyMapped,
    /// A node was missing and the allocator had no frame left.
    OutOfFrames,
}

/// A page table: the frame of its root node and, when it owns them, the
/// frames of all its nodes.
pub struct PageTable {
    pub root_ppn: PhysPageNum,
    pub frames: Vec<FrameTracker>,
}

impl PageTable {
    /// Whether the table owns frame `p` as one of its nodes.
    pub open spec fn owns(&self, p: int) -> bool {
        exists|k: int| 0 <= k < self.frames@.len() && (#[trigger] self.frames@[k]).ppn.0 == p
    }

    /// The frames of the owned nodes.
    pub open spec fn frames_set(&self) -> Set<int> {
        Set::new(|p: int| self.owns(p))
    }

    /// Root as an integer.
    pub open spec fn root(&self) -> int {
        self.root_ppn.0 as int
    }

    /// The table is an owned tree in the memory `m`: its nodes are distinct
    /// frames of `m` that it owns, the root among them, and no node is
    /// reached by two paths.
    pub closed spec fn wf(&self, m: Seq<Seq<u64>>) -> bool {
        let root = self.root();
        &&& self.frames@.len() > 0
        &&& self.frames@[0].ppn.0 == root
        &&& forall|j: int, k: int|
            0 <= j < k < self.frames@.len() ==> (#[trigger] self.frames@[j]).ppn.0 != (
            #[trigger] self.frames@[k]).ppn.0
        &&& forall|k: int|
            0 <= k < self.frames@.len() ==> (#[trigger] self.frames@[k]).ppn.0 < m.len()
                && self.frames@[k].ppn.0 < PPN_LIMIT
        &&& forall|i0: int|
            0 <= i0 < 512 ==> (#[trigger] l1(m, root, i0) matches Some(t) ==> self.owns(t) && t
                != root)
        &&& forall|i0: int, i1: int|
            0 <= i0 < 512 && 0 <= i1 < 512 ==> (#[trigger] l2(m, root, i0, i1) matches Some(t)
                ==> self.owns(t) && t != root)
        &&& forall|i0: int, i1: int, j0: int|
            0 <= i0 < 512 && 0 <= i1 < 512 && 0 <= j0 < 512 && l2(m, root, i0, i1) is Some ==> (
            #[trigger] l2(m, root, i0, i1)) != (#[trigger] l1(m, root, j0))
        &&& forall|i0: int, j0: int|
            0 <= i0 < 512 && 0 <= j0 < 512 && i0 != j0 && l1(m, root, i0) is Some ==> (
            #[trigger] l1(m, root, i0)) != (#[trigger] l1(m, root, j0))
        &&& forall|i0: int, i1: int, j0: int, j1: int|
            0 <= i0 < 512 && 0 <= i1 < 512 && 0 <= j0 < 512 && 0 <= j1 < 512 && (i0 != j0 || i1
                != j1) && l2(m, root, i0, i1) is Some ==> (#[trigger] l2(m, root, i0, i1)) != (
            #[trigger] l2(m, root, j0, j1))
    }

    /// What the table maps `vpn` to in the memory `m`.
    pub open spec fn view_at(&self, m: Seq<Seq<u64>>, vpn: int) -> Option<PageTableEntry> {
        lookup(m, self.root(), vpn)
    }

    /// A well-formed table owns its root, and its nodes are frames of the
    /// memory whose numbers fit in an entry.
    pub proof fn lemma_wf_basics(&self, m: Seq<Seq<u64>>)
        requires
            self.wf(m),
        ensures
            self.owns(self.root()),
            forall|p: int| self.owns(p) ==> 0 <= p < m.len() && p < PPN_LIMIT,
            self.frames@.len() > 0,
            forall|j: int, k: int|
                0 <= j < k < self.frames@.len() ==> (#[trigger] self.frames@[j]).ppn.0 != (
                #[trigger] self.frames@[k]).ppn.0,
    {
        assert(self.frames@[0].ppn.0 == self.root());
    }

    /// The second-level nodes of a well-formed table are nodes that it owns.
    pub proof fn lemma_l1_owned(&self, m: Seq<Seq<u64>>, i0: int)
        requires
            self.wf(m),
            0 <= i0 < 512,
            l1(m, self.root(), i0) is Some,
        ensures
            self.owns(l1(m, self.root(), i0)->0),
            l1(m, self.root(), i0)->0 != self.root(),
    {
    }

    /// A table keeps its shape and its mappings in every memory that agrees
    /// with `m1` on the frames of its nodes.
    pub proof fn lemma_wf_frame(&self, m1: Seq<Seq<u64>>, m2: Seq<Seq<u64>>)
        requires
            self.wf(m1),
            m1.len() == m2.len(),
            forall|p: int| self.owns(p) ==> m2[p] == m1[p],
        ensures
            self.wf(m2),
            forall|vpn: int| #[trigger] lookup(m2, self.root(), vpn) == lookup(m1, self.root(), vpn),
    {
        let root = self.root();
        assert(self.owns(root));
        assert forall|i0: int| 0 <= i0 < 512 implies #[trigger] l1(m2, root, i0) == l1(
            m1,
            root,
            i0,
        ) by {}
        assert forall|i0: int, i1: int| 0 <= i0 < 512 && 0 <= i1 < 512 implies #[trigger] l2(
            m2,
            root,
            i0,
            i1,
        ) == l2(m1, root, i0, i1) by {
            assert(l1(m2, root, i0) == l1(m1, root, i0));
        }
        assert forall|vpn: int| #[trigger]
            lookup(m2, root, vpn) == lookup(m1, root, vpn) by {
            let i0 = vpn_index(vpn, 0);
            let i1 = vpn_index(vpn, 1);
            assert(l2(m2, root, i0, i1) == l2(m1, root, i0, i1));
        }
    }

    /// A new table with an empty root node.  `None` exactly when the
    /// allocator has no frame left.
    pub fn new(fa: &mut StackFrameAllocator, mem: &mut PhysMemory) -> (r: Option<Self>)
        requires
            old(fa).wf(),
            old(fa).end() <= old(mem)@.len(),
            old(fa).end() <= PPN_LIMIT,
        ensures
            final(fa).wf(),
            final(fa).start() == old(fa).start(),
            final(fa).end() == old(fa).end(),
            final(mem)@.len() == old(mem)@.len(),
            r is None <==> old(fa).free() == 0,
            r is None ==> *final(fa) == *old(fa) && final(mem)@ == old(mem)@,
            r matches Some(pt) ==> {
                &&& pt.wf(final(mem)@)
                &&& old(fa).next() == Some(pt.root())
                &&& pt.frames_set() == set![pt.root()]
                &&& !old(fa).is_allocated(pt.root())
                &&& final(fa).allocated() == old(fa).allocated().insert(pt.root())
                &&& final(fa).free() == old(fa).free() - 1
                &&& final(mem)@ == old(mem)@.update(pt.root(), Seq::new(512, |i: int| 0u64))
                &&& forall|vpn: int| #[trigger] lookup(final(mem)@, pt.root(), vpn) is None
            },
    {
        match frame_alloc(fa, mem) {
            Some(frame) => {
                let root_ppn = frame.ppn;
                let mut frames: Vec<FrameTracker> = Vec::new();
                frames.push(frame);
                let pt = PageTable { root_ppn, frames };
                proof {
                    assert(pt.frames@[0].ppn.0 == pt.root());
                    assert(pt.frames_set() =~= set![pt.root()]);
                }
                Some(pt)
            },
            None => None,
        }
    }

    /// A table that looks at the tree whose root the token `satp` names,
    /// without owning any of its frames.
    pub fn from_token(satp: u64) -> (r: Self)
        ensures
            r.root_ppn.0 == satp % PPN_LIMIT,
            r.frames@.len() == 0,
    {
        PageTable { root_ppn: PhysPageNum(satp % PPN_LIMIT), frames: Vec::new() }
    }

    /// The token that names this table: mode Sv39 in the top four bits, the
    /// root frame number in the low 44.
    pub fn token(&self) -> (r: u64)
        ensures
            r == 0x8000_0000_0000_0000 + self.root_ppn.0 % PPN_LIMIT,
    {
        0x8000_0000_0000_0000u64 + self.root_ppn.0 % PPN_LIMIT
    }

    /// Every node of the table is a frame that `fa` has handed out.
    pub open spec fn nodes_allocated(&self, fa: &StackFrameAllocator) -> bool {
        forall|p: int| self.owns(p) ==> fa.is_allocated(p)
    }

    /// The node under entry `i0` of the root; a fresh empty node is hung
    /// there when the entry is invalid.  `None` exactly when the node is
    /// missing and no frame is left.
    fn ensure_l1(&mut self, i0: usize, fa: &mut StackFrameAllocator, mem: &mut PhysMemory) -> (r:
        Option<PhysPageNum>)
        requires
            old(self).wf(old(mem)@),
            old(self).nodes_allocated(old(fa)),
            i0 < 512,
            old(fa).wf(),
            old(fa).end() <= old(mem)@.len(),
            old(fa).end() <= PPN_LIMIT,
        ensures
            final(self).wf(final(mem)@),
            final(self).nodes_allocated(final(fa)),
            final(self).root_ppn == old(self).root_ppn,
            final(mem)@.len() == old(mem)@.len(),
            final(fa).wf(),
            final(fa).start() == old(fa).start(),
            final(fa).end() == old(fa).end(),
            r is None <==> l1(old(mem)@, old(self).root(), i0 as int) is None && old(fa).free()
                == 0,
            r matches Some(t) ==> l1(final(mem)@, old(self).root(), i0 as int) == Some(
                t.0 as int,
            ),
            l1(old(mem)@, old(self).root(), i0 as int) is Some || r is None ==> {
                &&& final(self).frames@ == old(self).frames@
                &&& *final(fa) == *old(fa)
                &&& final(mem)@ == old(mem)@
            },
            l1(old(mem)@, old(self).root(), i0 as int) is None && r is Some ==> {
                &&& r matches Some(t)
                &&& final(self).frames@.len() == old(self).frames@.len() + 1
                &&& forall|p: int| final(self).owns(p) <==> old(self).owns(p) || p == t.0
                &&& !old(fa).is_allocated(t.0 as int)
                &&& final(fa).allocated() == old(fa).allocated().insert(t.0 as int)
                &&& final(fa).free() == old(fa).free() - 1
                &&& forall|p: int|
                    0 <= p < old(mem)@.len() && !final(self).owns(p) ==> (#[trigger] final(mem)@[p]) == old(mem)@[p]
            },
            forall|j0: int|
                0 <= j0 < 512 && j0 != i0 ==> (#[trigger] l1(final(mem)@, old(self).root(), j0))
                    == l1(old(mem)@, old(self).root(), j0),
            forall|j0: int, j1: int|
                0 <= j0 < 512 && 0 <= j1 < 512 ==> (#[trigger] l2(
                    final(mem)@,
                    old(self).root(),
                    j0,
                    j1,
                )) == l2(old(mem)@, old(self).root(), j0, j1),
            forall|j0: int, j1: int, j2: int|
                0 <= j0 < 512 && 0 <= j1 < 512 && 0 <= j2 < 512 ==> (#[trigger] leaf(
                    final(mem)@,
                    old(self).root(),
                    j0,
                    j1,
                    j2,
                )) == leaf(old(mem)@, old(self).root(), j0, j1, j2),
    {
        let root = self.root_ppn;
        proof {
            self.lemma_wf_basics(mem@);
            mem.lemma_frames();
        }
        let e = PageTableEntry { bits: mem.read_word(root, i0) };
        if e.is_valid() {
            return Some(e.ppn());
        }
        let frame = match frame_alloc(fa, mem) {
            Some(f) => f,
            None => {
                return None;
            },
        };
        let t = frame.ppn;
        let ghost m0 = old(mem)@;
        let ghost m1 = mem@;
        let pte = PageTableEntry::new(t, PTEFlags { bits: PTE_V });
        mem.write_word(root, i0, pte.bits);
        self.frames.push(frame);
        proof {
            let m2 = mem@;
            let r = root.0 as int;
            let tt = t.0 as int;
            lemma_pte_bits(tt, PTE_V);
            assert(!old(self).owns(tt));
            assert(tt != r);
            assert(m2[tt] == Seq::new(512, |i: int| 0u64));
            assert forall|p: int| self.owns(p) <==> old(self).owns(p) || p == tt by {
                if old(self).owns(p) {
                    let k = choose|k: int|
                        0 <= k < old(self).frames@.len() && (#[trigger] old(self).frames@[k]).ppn.0
                            == p;
                    assert(self.frames@[k].ppn.0 == p);
                }
                if p == tt {
                    assert(self.frames@[old(self).frames@.len() as int].ppn.0 == p);
                }
                if self.owns(p) {
                    let k = choose|k: int|
                        0 <= k < self.frames@.len() && (#[trigger] self.frames@[k]).ppn.0 == p;
                    if k < old(self).frames@.len() {
                        assert(old(self).frames@[k].ppn.0 == p);
                    }
                }
            }
            assert forall|p: int| 0 <= p < m0.len() && p != r && p != tt implies m2[p]
                == m0[p] by {}
            assert forall|j0: int| 0 <= j0 < 512 implies #[trigger] l1(m2, r, j0) == (if j0
                == i0 {
                Some(tt)
            } else {
                l1(m0, r, j0)
            }) by {}
            assert forall|j0: int, j1: int| 0 <= j0 < 512 && 0 <= j1 < 512 implies #[trigger] l2(
                m2,
                r,
                j0,
                j1,
            ) == l2(m0, r, j0, j1) by {
                if j0 != i0 {
                    assert(l1(m2, r, j0) == l1(m0, r, j0));
                    if l1(m0, r, j0) is Some {
                        let s = l1(m0, r, j0)->0;
                        assert(old(self).owns(s) && s != r);
                    }
                } else {
                    assert(l1(m2, r, j0) == Some(tt));
                    assert(m2[tt][j1] == 0);
                }
            }
            assert forall|j0: int, j1: int, j2: int|
                0 <= j0 < 512 && 0 <= j1 < 512 && 0 <= j2 < 512 implies #[trigger] leaf(
                m2,
                r,
                j0,
                j1,
                j2,
            ) == leaf(m0, r, j0, j1, j2) by {
                assert(l2(m2, r, j0, j1) == l2(m0, r, j0, j1));
                if l2(m0, r, j0, j1) is Some {
                    let s = l2(m0, r, j0, j1)->0;
                    assert(old(self).owns(s) && s != r);
                }
            }
            assert(self.frames@[0] == old(self).frames@[0]);
            assert forall|j: int, k: int| 0 <= j < k < self.frames@.len() implies (
            #[trigger] self.frames@[j]).ppn.0 != (#[trigger] self.frames@[k]).ppn.0 by {
                if k == old(self).frames@.len() {
                    assert(old(self).frames@[j].ppn.0 == self.frames@[j].ppn.0);
                    assert(old(self).owns(self.frames@[j].ppn.0 as int));
                } else {
                    assert(old(self).frames@[j] == self.frames@[j]);
                    assert(old(self).frames@[k] == self.frames@[k]);
                }
            }
            assert forall|k: int| 0 <= k < self.frames@.len() implies (
            #[trigger] self.frames@[k]).ppn.0 < m2.len() && self.frames@[k].ppn.0
                < PPN_LIMIT by {
                if k < old(self).frames@.len() {
                    assert(old(self).frames@[k] == self.frames@[k]);
                }
            }
            assert forall|i: int, i1: int, j0: int|
                0 <= i < 512 && 0 <= i1 < 512 && 0 <= j0 < 512 && l2(m2, r, i, i1)
                    is Some implies (#[trigger] l2(m2, r, i, i1)) != (#[trigger] l1(
                m2,
                r,
                j0,
            )) by {
                assert(l2(m2, r, i, i1) == l2(m0, r, i, i1));
                let s = l2(m0, r, i, i1)->0;
                assert(old(self).owns(s));
                if j0 != i0 {
                    assert(l1(m2, r, j0) == l1(m0, r, j0));
                }
            }
            assert forall|i: int, j0: int|
                0 <= i < 512 && 0 <= j0 < 512 && i != j0 && l1(m2, r, i) is Some implies (
            #[trigger] l1(m2, r, i)) != (#[trigger] l1(m2, r, j0)) by {
                if i != i0 {
                    assert(l1(m2, r, i) == l1(m0, r, i));
                    let s = l1(m0, r, i)->0;
                    assert(old(self).owns(s));
                }
                if j0 != i0 {
                    assert(l1(m2, r, j0) == l1(m0, r, j0));
                    if l1(m0, r, j0) is Some {
                        let s = l1(m0, r, j0)->0;
                        assert(old(self).owns(s));
                    }
                }
            }
            assert forall|i: int, i1: int, j0: int, j1: int|
                0 <= i < 512 && 0 <= i1 < 512 && 0 <= j0 < 512 && 0 <= j1 < 512 && (i != j0
                    || i1 != j1) && l2(m2, r, i, i1) is Some implies (#[trigger] l2(
                m2,
                r,
                i,
                i1,
            )) != (#[trigger] l2(m2, r, j0, j1)) by {
                assert(l2(m2, r, i, i1) == l2(m0, r, i, i1));
                assert(l2(m2, r, j0, j1) == l2(m0, r, j0, j1));
            }
            assert forall|i: int| 0 <= i < 512 implies (#[trigger] l1(m2, r, i) matches Some(
                s,
            ) ==> self.owns(s) && s != r) by {
                if i != i0 {
                    assert(l1(m2, r, i) == l1(m0, r, i));
                }
            }
            assert forall|i: int, i1: int| 0 <= i < 512 && 0 <= i1 < 512 implies (
            #[trigger] l2(m2, r, i, i1) matches Some(s) ==> self.owns(s) && s != r) by {
                assert(l2(m2, r, i, i1) == l2(m0, r, i, i1));
            }
            assert forall|p: int| self.owns(p) implies fa.is_allocated(p) by {
                if p != tt {
                    assert(old(fa).allocated().contains(p));
                    assert(fa.allocated().contains(p));
                } else {
                    assert(fa.allocated().contains(tt));
                }
            }
        }
        Some(t)
    }

    /// The node under entries `i0`, `i1`; a fresh empty node is hung there
    /// when entry `i1` of the second-level node `t1` is invalid.  `None`
    /// exactly when the node is missing and no frame is left.
    fn ensure_l2(
        &mut self,
        t1: PhysPageNum,
        i0: usize,
        i1: usize,
        fa: &mut StackFrameAllocator,
        mem: &mut PhysMemory,
    ) -> (r: Option<PhysPageNum>)
        requires
            old(self).wf(old(mem)@),
            old(self).nodes_allocated(old(fa)),
            i0 < 512,
            i1 < 512,
            l1(old(mem)@, old(self).root(), i0 as int) == Some(t1.0 as int),
            old(fa).wf(),
            old(fa).end() <= old(mem)@.len(),
            old(fa).end() <= PPN_LIMIT,
        ensures
            final(self).wf(final(mem)@),
            final(self).nodes_allocated(final(fa)),
            final(self).root_ppn == old(self).root_ppn,
            final(mem)@.len() == old(mem)@.len(),
            final(fa).wf(),
            final(fa).start() == old(fa).start(),
            final(fa).end() == old(fa).end(),
            r is None <==> l2(old(mem)@, old(self).root(), i0 as int, i1 as int) is None && old(fa).free() == 0,
            r matches Some(t) ==> l2(final(mem)@, old(self).root(), i0 as int, i1 as int)
                == Some(t.0 as int) && final(self).owns(t.0 as int),
            l2(old(mem)@, old(self).root(), i0 as int, i1 as int) is Some || r is None ==> {
                &&& final(self).frames@ == old(self).frames@
                &&& *final(fa) == *old(fa)
                &&& final(mem)@ == old(mem)@
            },
            l2(old(mem)@, old(self).root(), i0 as int, i1 as int) is None && r is Some ==> {
                &&& r matches Some(t)
                &&& final(self).frames@.len() == old(self).frames@.len() + 1
                &&& forall|p: int| final(self).owns(p) <==> old(self).owns(p) || p == t.0
                &&& !old(fa).is_allocated(t.0 as int)
                &&& final(fa).allocated() == old(fa).allocated().insert(t.0 as int)
                &&& final(fa).free() == old(fa).free() - 1
                &&& forall|p: int|
                    0 <= p < old(mem)@.len() && !final(self).owns(p) ==> (#[trigger] final(mem)@[p])
                        == old(mem)@[p]
            },
            forall|j0: int|
                0 <= j0 < 512 ==> (#[trigger] l1(final(mem)@, old(self).root(), j0)) == l1(
                    old(mem)@,
                    old(self).root(),
                    j0,
                ),
            forall|j0: int, j1: int|
                0 <= j0 < 512 && 0 <= j1 < 512 && (j0 != i0 || j1 != i1) ==> (#[trigger] l2(
                    final(mem)@,
                    old(self).root(),
                    j0,
                    j1,
                )) == l2(old(mem)@, old(self).root(), j0, j1),
            forall|j0: int, j1: int, j2: int|
                0 <= j0 < 512 && 0 <= j1 < 512 && 0 <= j2 < 512 ==> (#[trigger] leaf(
                    final(mem)@,
                    old(self).root(),
                    j0,
                    j1,
                    j2,
                )) == leaf(old(mem)@, old(self).root(), j0, j1, j2),
    {
        proof {
            self.lemma_wf_basics(mem@);
            mem.lemma_frames();
            assert(self.owns(t1.0 as int));
        }
        let e = PageTableEntry { bits: mem.read_word(t1, i1) };
        if e.is_valid() {
            return Some(e.ppn());
        }
        let frame = match frame_alloc(fa, mem) {
            Some(f) => f,
            None => {
                return None;
            },
        };
        let t = frame.ppn;
        let ghost m0 = old(mem)@;
        let pte = PageTableEntry::new(t, PTEFlags { bits: PTE_V });
        mem.write_word(t1, i1, pte.bits);
        self.frames.push(frame);
        proof {
            let m2 = mem@;
            let r = self.root();
            let tt = t.0 as int;
            let a = t1.0 as int;
            lemma_pte_bits(tt, PTE_V);
            assert(!old(self).owns(tt));
            assert(old(self).owns(r));
            assert(tt != r && tt != a && a != r);
            assert(m2[tt] == Seq::new(512, |i: int| 0u64));
            assert forall|p: int| self.owns(p) <==> old(self).owns(p) || p == tt by {
                if old(self).owns(p) {
                    let k = choose|k: int|
                        0 <= k < old(self).frames@.len() && (#[trigger] old(self).frames@[k]).ppn.0
                            == p;
                    assert(self.frames@[k].ppn.0 == p);
                }
                if p == tt {
                    assert(self.frames@[old(self).frames@.len() as int].ppn.0 == p);
                }
                if self.owns(p) {
                    let k = choose|k: int|
                        0 <= k < self.frames@.len() && (#[trigger] self.frames@[k]).ppn.0 == p;
                    if k < old(self).frames@.len() {
                        assert(old(self).frames@[k].ppn.0 == p);
                    }
                }
            }
            assert forall|p: int| 0 <= p < m0.len() && p != a && p != tt implies m2[p]
                == m0[p] by {}
            assert forall|j0: int| 0 <= j0 < 512 implies #[trigger] l1(m2, r, j0) == l1(
                m0,
                r,
                j0,
            ) by {}
            assert forall|j0: int, j1: int| 0 <= j0 < 512 && 0 <= j1 < 512 implies #[trigger] l2(
                m2,
                r,
                j0,
                j1,
            ) == (if j0 == i0 && j1 == i1 {
                Some(tt)
            } else {
                l2(m0, r, j0, j1)
            }) by {
                assert(l1(m2, r, j0) == l1(m0, r, j0));
                if l1(m0, r, j0) is Some {
                    let s = l1(m0, r, j0)->0;
                    assert(old(self).owns(s) && s != r);
                    if j0 != i0 {
                        assert(l1(m0, r, j0) != l1(m0, r, i0 as int));
                    }
                }
            }
            assert forall|j0: int, j1: int, j2: int|
                0 <= j0 < 512 && 0 <= j1 < 512 && 0 <= j2 < 512 implies #[trigger] leaf(
                m2,
                r,
                j0,
                j1,
                j2,
            ) == leaf(m0, r, j0, j1, j2) by {
                if j0 == i0 && j1 == i1 {
                    assert(l2(m2, r, j0, j1) == Some(tt));
                    assert(m2[tt][j2] == 0);
                } else {
                    assert(l2(m2, r, j0, j1) == l2(m0, r, j0, j1));
                    if l2(m0, r, j0, j1) is Some {
                        let s = l2(m0, r, j0, j1)->0;
                        assert(old(self).owns(s) && s != r);
                        assert(l2(m0, r, j0, j1) != l1(m0, r, i0 as int));
                    }
                }
            }
            assert(self.frames@[0] == old(self).frames@[0]);
            assert forall|j: int, k: int| 0 <= j < k < self.frames@.len() implies (
            #[trigger] self.frames@[j]).ppn.0 != (#[trigger] self.frames@[k]).ppn.0 by {
                if k == old(self).frames@.len() {
                    assert(old(self).frames@[j].ppn.0 == self.frames@[j].ppn.0);
                    assert(old(self).owns(self.frames@[j].ppn.0 as int));
                } else {
                    assert(old(self).frames@[j] == self.frames@[j]);
                    assert(old(self).frames@[k] == self.frames@[k]);
                }
            }
            assert forall|k: int| 0 <= k < self.frames@.len() implies (
            #[trigger] self.frames@[k]).ppn.0 < m2.len() && self.frames@[k].ppn.0
                < PPN_LIMIT by {
                if k < old(self).frames@.len() {
                    assert(old(self).frames@[k] == self.frames@[k]);
                }
            }
            assert forall|i: int, j1: int, j0: int|
                0 <= i < 512 && 0 <= j1 < 512 && 0 <= j0 < 512 && l2(m2, r, i, j1)
                    is Some implies (#[trigger] l2(m2, r, i, j1)) != (#[trigger] l1(
                m2,
                r,
                j0,
            )) by {
                assert(l1(m2, r, j0) == l1(m0, r, j0));
                if l1(m0, r, j0) is Some {
                    assert(old(self).owns(l1(m0, r, j0)->0));
                }
                if !(i == i0 && j1 == i1) {
                    assert(l2(m2, r, i, j1) == l2(m0, r, i, j1));
                }
            }
            assert forall|i: int, j0: int|
                0 <= i < 512 && 0 <= j0 < 512 && i != j0 && l1(m2, r, i) is Some implies (
            #[trigger] l1(m2, r, i)) != (#[trigger] l1(m2, r, j0)) by {
                assert(l1(m2, r, i) == l1(m0, r, i));
                assert(l1(m2, r, j0) == l1(m0, r, j0));
            }
            assert forall|i: int, j1: int, j0: int, k1: int|
                0 <= i < 512 && 0 <= j1 < 512 && 0 <= j0 < 512 && 0 <= k1 < 512 && (i != j0
                    || j1 != k1) && l2(m2, r, i, j1) is Some implies (#[trigger] l2(
                m2,
                r,
                i,
                j1,
            )) != (#[trigger] l2(m2, r, j0, k1)) by {
                if !(i == i0 && j1 == i1) {
                    assert(l2(m2, r, i, j1) == l2(m0, r, i, j1));
                    assert(old(self).owns(l2(m0, r, i, j1)->0));
                }
                if !(j0 == i0 && k1 == i1) {
                    assert(l2(m2, r, j0, k1) == l2(m0, r, j0, k1));
                    if l2(m0, r, j0, k1) is Some {
                        assert(old(self).owns(l2(m0, r, j0, k1)->0));
                    }
                }
            }
            assert forall|i: int| 0 <= i < 512 implies (#[trigger] l1(m2, r, i) matches Some(
                s,
            ) ==> self.owns(s) && s != r) by {
                assert(l1(m2, r, i) == l1(m0, r, i));
            }
            assert forall|i: int, j1: int| 0 <= i < 512 && 0 <= j1 < 512 implies (
            #[trigger] l2(m2, r, i, j1) matches Some(s) ==> self.owns(s) && s != r) by {
                if !(i == i0 && j1 == i1) {
                    assert(l2(m2, r, i, j1) == l2(m0, r, i, j1));
                }
            }
            assert forall|p: int| self.owns(p) implies fa.is_allocated(p) by {
                if p != tt {
                    assert(old(fa).allocated().contains(p));
                    assert(fa.allocated().contains(p));
                } else {
                    assert(fa.allocated().contains(tt));
                }
            }
        }
        Some(t)
    }

    /// Stores `bits` as the leaf entry `i2` of the third-level node `t2`
    /// that lies under entries `i0`, `i1`.
    fn set_leaf(
        &self,
        t2: PhysPageNum,
        i0: usize,
        i1: usize,
        i2: usize,
        bits: u64,
        mem: &mut PhysMemory,
    )
        requires
            self.wf(old(mem)@),
            i0 < 512,
            i1 < 512,
            i2 < 512,
            l2(old(mem)@, self.root(), i0 as int, i1 as int) == Some(t2.0 as int),
        ensures
            self.wf(final(mem)@),
            final(mem)@ == old(mem)@.update(
                t2.0 as int,
                old(mem)@[t2.0 as int].update(i2 as int, bits),
            ),
            self.owns(t2.0 as int),
            forall|j0: int|
                0 <= j0 < 512 ==> (#[trigger] l1(final(mem)@, self.root(), j0)) == l1(
                    old(mem)@,
                    self.root(),
                    j0,
                ),
            forall|j0: int, j1: int|
                0 <= j0 < 512 && 0 <= j1 < 512 ==> (#[trigger] l2(
                    final(mem)@,
                    self.root(),
                    j0,
                    j1,
                )) == l2(old(mem)@, self.root(), j0, j1),
            forall|j0: int, j1: int, j2: int|
                0 <= j0 < 512 && 0 <= j1 < 512 && 0 <= j2 < 512 ==> (#[trigger] leaf(
                    final(mem)@,
                    self.root(),
                    j0,
                    j1,
                    j2,
                )) == (if j0 == i0 && j1 == i1 && j2 == i2 {
                    if pte_valid(bits) {
                        Some(PageTableEntry { bits })
                    } else {
                        None
                    }
                } else {
                    leaf(old(mem)@, self.root(), j0, j1, j2)
                }),
    {
        proof {
            self.lemma_wf_basics(mem@);
            mem.lemma_frames();
            assert(self.owns(t2.0 as int));
        }
        let ghost m0 = mem@;
        mem.write_word(t2, i2, bits);
        proof {
            let m2 = mem@;
            let r = self.root();
            let a = t2.0 as int;
            assert(self.owns(r));
            assert(a != r);
            assert forall|p: int| 0 <= p < m0.len() && p != a implies m2[p] == m0[p] by {}
            assert forall|j0: int| 0 <= j0 < 512 implies #[trigger] l1(m2, r, j0) == l1(
                m0,
                r,
                j0,
            ) by {}
            assert forall|j0: int, j1: int| 0 <= j0 < 512 && 0 <= j1 < 512 implies #[trigger] l2(
                m2,
                r,
                j0,
                j1,
            ) == l2(m0, r, j0, j1) by {
                assert(l1(m2, r, j0) == l1(m0, r, j0));
                if l1(m0, r, j0) is Some {
                    assert(l2(m0, r, i0 as int, i1 as int) != l1(m0, r, j0));
                }
            }
            assert forall|j0: int, j1: int, j2: int|
                0 <= j0 < 512 && 0 <= j1 < 512 && 0 <= j2 < 512 implies #[trigger] leaf(
                m2,
                r,
                j0,
                j1,
                j2,
            ) == (if j0 == i0 && j1 == i1 && j2 == i2 {
                if pte_valid(bits) {
                    Some(PageTableEntry { bits })
                } else {
                    None
                }
            } else {
                leaf(m0, r, j0, j1, j2)
            }) by {
                assert(l2(m2, r, j0, j1) == l2(m0, r, j0, j1));
                if j0 != i0 || j1 != i1 {
                    if l2(m0, r, j0, j1) is Some {
                        assert(l2(m0, r, j0, j1) != l2(m0, r, i0 as int, i1 as int));
                    }
                }
            }
        }
    }

    /// Maps `vpn`, which is not mapped, to `ppn` with `flags` and the valid
    /// flag.  Missing nodes on the path are allocated.  A page whose missing
    /// nodes the allocator cannot supply is refused; no other page's mapping
    /// changes in any case.  To map a page that is mapped already is a
    /// defect of the caller; [`PageTable::translate`] tells.
    pub fn map(
        &mut self,
        vpn: VirtPageNum,
        ppn: PhysPageNum,
        flags: PTEFlags,
        fa: &mut StackFrameAllocator,
        mem: &mut PhysMemory,
    ) -> (r: Result<(), PageTableError>)
        requires
            old(self).wf(old(mem)@),
            old(self).nodes_allocated(old(fa)),
            vpn.valid(),
            lookup(old(mem)@, old(self).root(), vpn.0 as int) is None,
            old(fa).wf(),
            old(fa).end() <= old(mem)@.len(),
            old(fa).end() <= PPN_LIMIT,
        ensures
            final(self).wf(final(mem)@),
            final(self).nodes_allocated(final(fa)),
            final(self).root_ppn == old(self).root_ppn,
            final(mem)@.len() == old(mem)@.len(),
            final(fa).wf(),
            final(fa).start() == old(fa).start(),
            final(fa).end() == old(fa).end(),
            r is Err <==> old(fa).free() < missing_levels(
                old(mem)@,
                old(self).root(),
                vpn.0 as int,
            ),
            r is Err ==> r == Err::<(), PageTableError>(PageTableError::OutOfFrames),
            r is Ok ==> lookup(final(mem)@, old(self).root(), vpn.0 as int) == Some(
                PageTableEntry { bits: pte_bits(ppn.0 as int, flags.bits | PTE_V) },
            ),
            r is Err ==> lookup(final(mem)@, old(self).root(), vpn.0 as int) == lookup(
                old(mem)@,
                old(self).root(),
                vpn.0 as int,
            ),
            forall|v: int|
                0 <= v < crate::config::VPN_LIMIT && v != vpn.0 ==> (#[trigger] lookup(
                    final(mem)@,
                    old(self).root(),
                    v,
                )) == lookup(old(mem)@, old(self).root(), v),
            forall|p: int| old(self).owns(p) ==> final(self).owns(p),
            forall|p: int| final(self).owns(p) && !old(self).owns(p) ==> !old(fa).is_allocated(p),
            forall|p: int|
                final(fa).is_allocated(p) <==> old(fa).is_allocated(p) || (final(self).owns(p)
                    && !old(self).owns(p)),
            final(fa).free() == old(fa).free() - (final(self).frames@.len() - old(self).frames@.len()),
            final(self).frames@.len() - old(self).frames@.len() <= missing_levels(
                old(mem)@,
                old(self).root(),
                vpn.0 as int,
            ),
            r is Ok ==> final(self).frames@.len() - old(self).frames@.len() == missing_levels(
                old(mem)@,
                old(self).root(),
                vpn.0 as int,
            ),
            forall|p: int|
                0 <= p < old(mem)@.len() && !final(self).owns(p) ==> (#[trigger] final(mem)@[p])
                    == old(mem)@[p],
    {
        let idxs = vpn.indexes();
        let i0: usize = idxs[0];
        let i1: usize = idxs[1];
        let i2: usize = idxs[2];
        let ghost m0 = mem@;
        let ghost r = self.root();
        let ghost fa0 = *fa;
        let ghost s0 = *self;
        proof {
            assert forall|v: int| 0 <= v < crate::config::VPN_LIMIT && v != vpn.0 implies !(
            vpn_index(v, 0) == i0 && vpn_index(v, 1) == i1 && vpn_index(v, 2) == i2) by {
                if vpn_index(v, 0) == i0 && vpn_index(v, 1) == i1 && vpn_index(v, 2) == i2 {
                    crate::mm::address::lemma_vpn_indexes_injective(v, vpn.0 as int);
                }
            }
        }
        let t1 = match self.ensure_l1(i0, fa, mem) {
            Some(t) => t,
            None => {
                return Err(PageTableError::OutOfFrames);
            },
        };
        let ghost m1 = mem@;
        let ghost fa1 = *fa;
        let ghost s1 = *self;
        proof {
            assert(l2(m1, r, i0 as int, i1 as int) == l2(m0, r, i0 as int, i1 as int));
            assert forall|p: int|
                fa1.is_allocated(p) <==> fa0.is_allocated(p) || (s1.owns(p) && !s0.owns(p)) by {
                if l1(m0, r, i0 as int) is None {
                    assert(fa1.allocated().contains(p) == fa0.allocated().insert(
                        t1.0 as int,
                    ).contains(p));
                }
            }
        }
        let t2 = match self.ensure_l2(t1, i0, i1, fa, mem) {
            Some(t) => t,
            None => {
                proof {
                    assert(leaf(m1, r, i0 as int, i1 as int, i2 as int) is None);
                }
                return Err(PageTableError::OutOfFrames);
            },
        };
        let ghost m2 = mem@;
        let ghost s2 = *self;
        proof {
            mem.lemma_frames();
            self.lemma_wf_basics(mem@);
            assert(self.owns(t2.0 as int));
            assert forall|p: int|
                fa.is_allocated(p) <==> fa0.is_allocated(p) || (s2.owns(p) && !s0.owns(p)) by {
                if l2(m1, r, i0 as int, i1 as int) is None {
                    assert(fa.allocated().contains(p) == fa1.allocated().insert(
                        t2.0 as int,
                    ).contains(p));
                }
            }
            assert forall|v: int| 0 <= v < crate::config::VPN_LIMIT implies #[trigger] lookup(
                m2,
                r,
                v,
            ) == lookup(m0, r, v) by {
                crate::mm::address::lemma_vpn_from_indexes(v);
                assert(leaf(m2, r, vpn_index(v, 0), vpn_index(v, 1), vpn_index(v, 2)) == leaf(
                    m1,
                    r,
                    vpn_index(v, 0),
                    vpn_index(v, 1),
                    vpn_index(v, 2),
                ));
            }
        }
        let pte = PageTableEntry::new(ppn, flags.union(PTEFlags { bits: PTE_V }));
        self.set_leaf(t2, i0, i1, i2, pte.bits, mem);
        proof {
            let m3 = mem@;
            lemma_pte_bits(ppn.0 as int, flags.bits | PTE_V);
            PTEFlags::lemma_with_valid(flags.bits);
            assert forall|v: int|
                0 <= v < crate::config::VPN_LIMIT && v != vpn.0 implies #[trigger] lookup(
                m3,
                r,
                v,
            ) == lookup(m0, r, v) by {
                crate::mm::address::lemma_vpn_from_indexes(v);
                assert(lookup(m2, r, v) == lookup(m0, r, v));
                assert(leaf(m3, r, vpn_index(v, 0), vpn_index(v, 1), vpn_index(v, 2)) == leaf(
                    m2,
                    r,
                    vpn_index(v, 0),
                    vpn_index(v, 1),
                    vpn_index(v, 2),
                ));
            }
            assert(leaf(m3, r, i0 as int, i1 as int, i2 as int) == Some(pte));
            assert(lookup(m2, r, vpn.0 as int) == lookup(m0, r, vpn.0 as int));
        }
        Ok(())
    }

    /// Clears the leaf entry of `vpn`, which is mapped.  No other page's
    /// mapping changes, and no node is given back.  To unmap a page that is
    /// not mapped is a defect of the caller; [`PageTable::translate`] tells.
    pub fn unmap(&mut self, vpn: VirtPageNum, mem: &mut PhysMemory)
        requires
            old(self).wf(old(mem)@),
            vpn.valid(),
            lookup(old(mem)@, old(self).root(), vpn.0 as int) is Some,
        ensures
            final(self).wf(final(mem)@),
            final(self).root_ppn == old(self).root_ppn,
            final(self).frames@ == old(self).frames@,
            final(mem)@.len() == old(mem)@.len(),
            lookup(final(mem)@, old(self).root(), vpn.0 as int) is None,
            forall|v: int|
                0 <= v < crate::config::VPN_LIMIT && v != vpn.0 ==> (#[trigger] lookup(
                    final(mem)@,
                    old(self).root(),
                    v,
                )) == lookup(old(mem)@, old(self).root(), v),
            forall|p: int|
                0 <= p < old(mem)@.len() && !old(self).owns(p) ==> (#[trigger] final(mem)@[p])
                    == old(mem)@[p],
    {
        let idxs = vpn.indexes();
        let ghost m0 = mem@;
        let ghost r = self.root();
        proof {
            assert forall|v: int| 0 <= v < crate::config::VPN_LIMIT && v != vpn.0 implies !(
            vpn_index(v, 0) == idxs[0] && vpn_index(v, 1) == idxs[1] && vpn_index(v, 2)
                == idxs[2]) by {
                if vpn_index(v, 0) == idxs[0] && vpn_index(v, 1) == idxs[1] && vpn_index(v, 2)
                    == idxs[2] {
                    crate::mm::address::lemma_vpn_indexes_injective(v, vpn.0 as int);
                }
            }
        }
        match self.find_pte(vpn, mem) {
            Some((t2, i2)) => {
                self.set_leaf(t2, idxs[0], idxs[1], idxs[2], 0, mem);
                proof {
                    let m3 = mem@;
                    assert forall|v: int|
                        0 <= v < crate::config::VPN_LIMIT && v != vpn.0 implies #[trigger] lookup(
                        m3,
                        r,
                        v,
                    ) == lookup(m0, r, v) by {
                        crate::mm::address::lemma_vpn_from_indexes(v);
                    }
                }
            },
            None => {},
        }
    }

    /// Gives every node of the table back to the allocator.
    pub fn release(self, fa: &mut StackFrameAllocator, mem: &PhysMemory)
        requires
            self.wf(mem@),
            self.nodes_allocated(old(fa)),
            old(fa).wf(),
        ensures
            final(fa).wf(),
            final(fa).start() == old(fa).start(),
            final(fa).end() == old(fa).end(),
            forall|p: int| final(fa).is_allocated(p) <==> old(fa).is_allocated(p) && !self.owns(p),
            final(fa).free() == old(fa).free() + self.frames@.len(),
    {
        proof {
            self.lemma_wf_basics(mem@);
        }
        let mut frames = self.frames;
        let ghost all = frames@;
        while frames.len() > 0
            invariant
                fa.wf(),
                fa.start() == old(fa).start(),
                fa.end() == old(fa).end(),
                frames@.len() <= all.len(),
                frames@ == all.subrange(0, frames@.len() as int),
                forall|j: int, k: int|
                    0 <= j < k < all.len() ==> (#[trigger] all[j]).ppn.0 != (#[trigger] all[k]).ppn.0,
                forall|p: int|
                    fa.is_allocated(p) <==> old(fa).is_allocated(p) && !(exists|k: int|
                        frames@.len() <= k < all.len() && (#[trigger] all[k]).ppn.0 == p),
                forall|k: int| 0 <= k < all.len() ==> old(fa).is_allocated((#[trigger] all[k]).ppn.0 as int),
                fa.free() == old(fa).free() + (all.len() - frames@.len()),
            decreases frames@.len(),
        {
            let ghost n = frames@.len() - 1;
            let ghost fa_before = *fa;
            let frame = frames.pop().unwrap();
            proof {
                assert(frame == all[n]);
                assert(old(fa).is_allocated(frame.ppn.0 as int));
                assert(fa.is_allocated(frame.ppn.0 as int));
            }
            frame_dealloc(fa, frame);
            proof {
                assert forall|p: int|
                    fa.is_allocated(p) <==> old(fa).is_allocated(p) && !(exists|k: int|
                        n <= k < all.len() && (#[trigger] all[k]).ppn.0 == p) by {
                    assert(fa.allocated().contains(p) == fa_before.allocated().remove(
                        all[n].ppn.0 as int,
                    ).contains(p));
                    if p == all[n].ppn.0 {
                        assert(n <= n < all.len() && all[n].ppn.0 == p);
                    }
                }
            }
        }
        proof {
            assert forall|p: int|
                fa.is_allocated(p) <==> old(fa).is_allocated(p) && !self.owns(p) by {
                if self.owns(p) {
                    let k = choose|k: int|
                        0 <= k < self.frames@.len() && (#[trigger] self.frames@[k]).ppn.0 == p;
                    assert(all[k].ppn.0 == p);
                }
            }
        }
    }

    /// Reads entry `idx` of node `table`, if `table` is a frame of `mem`.
    fn read_entry(mem: &PhysMemory, table: PhysPageNum, idx: usize) -> (r: Option<
        PageTableEntry,
    >)
        requires
            idx < 512,
        ensures
            r == (if mem.has(table) {
                Some(PageTableEntry { bits: mem@[table.0 as int][idx as int] })
            } else {
                None
            }),
    {
        if mem.contains(table) {
            Some(PageTableEntry { bits: mem.read_word(table, idx) })
        } else {
            None
        }
    }

    /// Walks the two upper levels for `vpn` and returns where its leaf entry
    /// lies.  `None` as soon as an entry on the way is invalid or points
    /// outside the memory.
    pub fn find_pte(&self, vpn: VirtPageNum, mem: &PhysMemory) -> (r: Option<(PhysPageNum, usize)>)
        ensures
            r matches Some((t, i)) ==> slot(mem@, self.root(), vpn.0 as int) == Some(
                (t.0 as int, i as int),
            ) && mem.has(t) && i < 512,
            r is None ==> slot(mem@, self.root(), vpn.0 as int) is None,
    {
        let idxs = vpn.indexes();
        let e0 = match Self::read_entry(mem, self.root_ppn, idxs[0]) {
            Some(e) => e,
            None => {
                return None;
            },
        };
        if !e0.is_valid() {
            return None;
        }
        let t1 = e0.ppn();
        let e1 = match Self::read_entry(mem, t1, idxs[1]) {
            Some(e) => e,
            None => {
                return None;
            },
        };
        if !e1.is_valid() {
            return None;
        }
        let t2 = e1.ppn();
        if !mem.contains(t2) {
            return None;
        }
        Some((t2, idxs[2]))
    }

    /// The leaf entry that maps `vpn`, if every entry on its path is valid.
    pub fn translate(&self, vpn: VirtPageNum, mem: &PhysMemory) -> (r: Option<PageTableEntry>)
        ensures
            r == lookup(mem@, self.root(), vpn.0 as int),
    {
        match self.find_pte(vpn, mem) {
            Some((t, i)) => {
                let e = PageTableEntry { bits: mem.read_word(t, i) };
                if e.is_valid() {
                    Some(e)
                } else {
                    None
                }
            },
            None => None,
        }
    }
}

} // verus!

verus! {

/// What `map` stores for a page is what `translate` then finds: the entry
/// names the frame that was passed (when it fits in 44 bits), holds every
/// flag that was passed, and is valid.
pub proof fn lemma_mapped_entry(ppn: int, flags: u8)
    requires
        0 <= ppn < PPN_LIMIT,
    ensures
        pte_ppn(pte_bits(ppn, flags | PTE_V)) == ppn,
        pte_flags(pte_bits(ppn, flags | PTE_V)) == flags | PTE_V,
        pte_valid(pte_bits(ppn, flags | PTE_V)),
        forall|f: u8| flags & f == f ==> #[trigger] ((flags | PTE_V) & f) == f,
{
    lemma_pte_bits(ppn, flags | PTE_V);
    PTEFlags::lemma_with_valid(flags);
}

/// A table made from the token of another walks the same tree: a root whose
/// number fits in 44 bits is read back from its token.
pub proof fn lemma_token_round_trip(root: u64)
    requires
        root < PPN_LIMIT,
    ensures
        ((0x8000_0000_0000_0000 + root % PPN_LIMIT) as u64) % PPN_LIMIT == root,
{
}

} // verus!
