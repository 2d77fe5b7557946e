//! Many address spaces in one memory: what keeps them apart.

use vstd::prelude::*;
use crate::mm::frame_allocator::StackFrameAllocator;
use crate::mm::memory_set::MemorySet;

verus! {

/// The address spaces of `spaces` live together in the memory `m`: each is
/// consistent and owns only frames that `fa` has handed out, and no frame
/// belongs to two of them.
pub open spec fn spaces_inv(
    spaces: Map<int, MemorySet>,
    m: Seq<Seq<u64>>,
    fa: StackFrameAllocator,
) -> bool {
    &&& forall|id: int|
        spaces.dom().contains(id) ==> (#[trigger] spaces[id]).wf(m) && spaces[id].frames_allocated(
            &fa,
        )
    &&& forall|a: int, b: int, p: int|
        spaces.dom().contains(a) && spaces.dom().contains(b) && a != b
            && #[trigger] spaces[a].owns(p) ==> !#[trigger] spaces[b].owns(p)
}

/// A step of the memory and the allocator that concerns one owner, whose
/// frames were `own0` and are `own1`: no frame of anybody else was written,
/// handed out or taken back, and the frames that the owner gained were free.
pub open spec fn owner_step(
    m0: Seq<Seq<u64>>,
    m1: Seq<Seq<u64>>,
    fa0: StackFrameAllocator,
    fa1: StackFrameAllocator,
    own0: Set<int>,
    own1: Set<int>,
) -> bool {
    &&& m1.len() == m0.len()
    &&& forall|p: int|
        0 <= p < m0.len() && !own0.contains(p) && !own1.contains(p) ==> (#[trigger] m1[p])
            == m0[p]
    &&& forall|p: int|
        !own0.contains(p) && !own1.contains(p) ==> (#[trigger] fa1.is_allocated(p)
            <==> fa0.is_allocated(p))
    &&& forall|p: int| #[trigger] own1.contains(p) && !own0.contains(p) ==> !fa0.is_allocated(p)
}

/// The frames that an address space owns.
pub open spec fn frames_of(s: MemorySet) -> Set<int> {
    Set::new(|p: int| s.owns(p))
}

/// An address space that a step of another owner did not touch is as
/// consistent after the step as before.
pub proof fn lemma_bystander(
    s: MemorySet,
    m0: Seq<Seq<u64>>,
    m1: Seq<Seq<u64>>,
    fa0: StackFrameAllocator,
    fa1: StackFrameAllocator,
    own0: Set<int>,
    own1: Set<int>,
)
    requires
        s.wf(m0),
        s.frames_allocated(&fa0),
        owner_step(m0, m1, fa0, fa1, own0, own1),
        forall|p: int| s.owns(p) ==> !own0.contains(p),
    ensures
        s.wf(m1),
        s.frames_allocated(&fa1),
        forall|p: int| s.owns(p) ==> !own1.contains(p),
        forall|p: int| s.owns(p) ==> m1[p] == m0[p],
        forall|v: int| #[trigger]
            crate::mm::page_table::lookup(m1, s.page_table.root(), v)
                == crate::mm::page_table::lookup(m0, s.page_table.root(), v),
{
    s.lemma_wf_facts(m0);
    s.page_table.lemma_wf_basics(m0);
    assert forall|p: int| s.owns(p) implies !own1.contains(p) && m1[p] == m0[p]
        && fa1.is_allocated(p) by {
        assert(fa0.is_allocated(p));
        assert(!own0.contains(p));
        if own1.contains(p) {
            assert(!fa0.is_allocated(p));
        }
        assert(0 <= p < m0.len());
    }
    s.lemma_wf_frame(m0, m1);
}

/// A step that concerns the address space `id` alone, which may be new
/// afterwards or gone, keeps the address spaces apart.
pub proof fn lemma_spaces_step(
    spaces0: Map<int, MemorySet>,
    spaces1: Map<int, MemorySet>,
    m0: Seq<Seq<u64>>,
    m1: Seq<Seq<u64>>,
    fa0: StackFrameAllocator,
    fa1: StackFrameAllocator,
    id: int,
    own0: Set<int>,
    own1: Set<int>,
)
    requires
        spaces_inv(spaces0, m0, fa0),
        forall|j: int|
            j != id ==> (spaces1.dom().contains(j) <==> spaces0.dom().contains(j)) && (
            spaces0.dom().contains(j) ==> #[trigger] spaces1[j] == spaces0[j]),
        spaces0.dom().contains(id) ==> own0 == frames_of(spaces0[id]),
        !spaces0.dom().contains(id) ==> own0 == Set::<int>::empty(),
        spaces1.dom().contains(id) ==> spaces1[id].wf(m1) && spaces1[id].frames_allocated(&fa1)
            && own1 == frames_of(spaces1[id]),
        !spaces1.dom().contains(id) ==> own1 == Set::<int>::empty(),
        owner_step(m0, m1, fa0, fa1, own0, own1),
    ensures
        spaces_inv(spaces1, m1, fa1),
{
    assert forall|j: int| spaces1.dom().contains(j) implies (#[trigger] spaces1[j]).wf(m1)
        && spaces1[j].frames_allocated(&fa1) by {
        if j != id {
            assert(spaces1[j] == spaces0[j]);
            assert forall|p: int| spaces0[j].owns(p) implies !own0.contains(p) by {
                if spaces0.dom().contains(id) {
                    assert(!spaces0[id].owns(p));
                }
            }
            lemma_bystander(spaces0[j], m0, m1, fa0, fa1, own0, own1);
        }
    }
    assert forall|a: int, b: int, p: int|
        spaces1.dom().contains(a) && spaces1.dom().contains(b) && a != b
            && #[trigger] spaces1[a].owns(p) implies !#[trigger] spaces1[b].owns(p) by {
        if a != id && b != id {
            assert(spaces1[a] == spaces0[a]);
            assert(spaces1[b] == spaces0[b]);
            assert(spaces0[a].owns(p));
        } else {
            let o = if a == id {
                b
            } else {
                a
            };
            assert(spaces1[o] == spaces0[o]);
            assert forall|q: int| spaces0[o].owns(q) implies !own0.contains(q) by {
                if spaces0.dom().contains(id) {
                    assert(!spaces0[id].owns(q));
                }
            }
            lemma_bystander(spaces0[o], m0, m1, fa0, fa1, own0, own1);
            if spaces1[o].owns(p) {
                assert(!own1.contains(p));
            }
        }
    }
}

} // verus!

verus! {

/// Adding an area is a step of the address space that takes it.
pub proof fn lemma_appended_step(
    s0: MemorySet,
    s1: MemorySet,
    m0: Seq<Seq<u64>>,
    m1: Seq<Seq<u64>>,
    fa0: StackFrameAllocator,
    fa1: StackFrameAllocator,
    start: int,
    end: int,
    map_type: crate::mm::memory_set::MapType,
    map_perm: crate::mm::memory_set::MapPermission,
    data: Seq<u8>,
)
    requires
        MemorySet::appended(s0, s1, m0, m1, fa0, fa1, start, end, map_type, map_perm, data),
    ensures
        owner_step(m0, m1, fa0, fa1, frames_of(s0), frames_of(s1)),
        s1.wf(m1),
        s1.frames_allocated(&fa1),
        fa1.wf(),
        fa1.start() == fa0.start(),
        fa1.end() == fa0.end(),
        fa1.free() >= fa0.free() - crate::mm::memory_set::frames_needed(start, end, map_type),
{
    reveal(MemorySet::appended);
}

/// Removing an area is a step of the address space that loses it.
pub proof fn lemma_removed_step(
    s0: MemorySet,
    s1: MemorySet,
    m0: Seq<Seq<u64>>,
    m1: Seq<Seq<u64>>,
    fa0: StackFrameAllocator,
    fa1: StackFrameAllocator,
    idx: int,
)
    requires
        s0.wf(m0),
        0 <= idx < s0.areas@.len(),
        MemorySet::removed(s0, s1, m0, m1, fa0, fa1, idx),
    ensures
        owner_step(m0, m1, fa0, fa1, frames_of(s0), frames_of(s1)),
        s1.wf(m1),
        s1.frames_allocated(&fa1),
        fa1.wf(),
        fa1.start() == fa0.start(),
        fa1.end() == fa0.end(),
{
    s0.lemma_wf_facts(m0);
    assert(forall|p: int| s1.page_table.owns(p) <==> s0.page_table.owns(p));
    assert forall|p: int| s0.backs_area(idx, p) implies s0.owns_data(p) by {
        let k = choose|k: int|
            0 <= k < s0.areas@[idx].data_frames@.len() && #[trigger] s0.data_frame(idx, k) == p;
        assert(s0.data_frame(idx, k) == p);
    }
}

/// Removing all areas is a step of the address space that loses them.
pub proof fn lemma_drained_step(
    s0: MemorySet,
    s1: MemorySet,
    m0: Seq<Seq<u64>>,
    m1: Seq<Seq<u64>>,
    fa0: StackFrameAllocator,
    fa1: StackFrameAllocator,
)
    requires
        MemorySet::drained(s0, s1, m0, m1, fa0, fa1),
    ensures
        owner_step(m0, m1, fa0, fa1, frames_of(s0), frames_of(s1)),
        s1.wf(m1),
        s1.frames_allocated(&fa1),
        fa1.wf(),
        fa1.start() == fa0.start(),
        fa1.end() == fa0.end(),
{
    assert(forall|p: int| s1.page_table.owns(p) <==> s0.page_table.owns(p));
}

/// Copying an address space is a step of the copy, which was nothing
/// before.
pub proof fn lemma_copied_step(
    parent: MemorySet,
    child: MemorySet,
    m0: Seq<Seq<u64>>,
    m1: Seq<Seq<u64>>,
    fa0: StackFrameAllocator,
    fa1: StackFrameAllocator,
)
    requires
        MemorySet::copied(parent, child, m0, m1, fa0, fa1),
    ensures
        owner_step(m0, m1, fa0, fa1, Set::<int>::empty(), frames_of(child)),
        child.wf(m1),
        child.frames_allocated(&fa1),
        fa1.wf(),
        fa1.start() == fa0.start(),
        fa1.end() == fa0.end(),
{
}

/// Loading a program is a step of its address space, which was nothing
/// before.
pub proof fn lemma_loaded_step(
    b: Seq<u8>,
    ms: MemorySet,
    trampoline: crate::mm::address::PhysPageNum,
    m0: Seq<Seq<u64>>,
    m1: Seq<Seq<u64>>,
    fa0: StackFrameAllocator,
    fa1: StackFrameAllocator,
)
    requires
        crate::mm::loader::loaded(b, ms, trampoline, m0, m1, fa0, fa1),
    ensures
        owner_step(m0, m1, fa0, fa1, Set::<int>::empty(), frames_of(ms)),
        ms.wf(m1),
        ms.frames_allocated(&fa1),
        fa1.wf(),
        fa1.start() == fa0.start(),
        fa1.end() == fa0.end(),
{
}

/// Mapping the trampoline page is a step of the address space.
pub proof fn lemma_trampoline_step(
    s0: MemorySet,
    s1: MemorySet,
    m0: Seq<Seq<u64>>,
    m1: Seq<Seq<u64>>,
    fa0: StackFrameAllocator,
    fa1: StackFrameAllocator,
)
    requires
        s0.wf(m0),
        MemorySet::trampoline_step(s0, s1, m0, m1, fa0, fa1),
    ensures
        owner_step(m0, m1, fa0, fa1, frames_of(s0), frames_of(s1)),
{
    assert forall|p: int| s1.owns_data(p) <==> s0.owns_data(p) by {
        assert(s1.areas@ == s0.areas@);
        if s1.owns_data(p) {
            let (a, k) = choose|a: int, k: int|
                0 <= a < s1.areas@.len() && 0 <= k < s1.areas@[a].data_frames@.len()
                    && #[trigger] s1.data_frame(a, k) == p;
            assert(s0.data_frame(a, k) == p);
        }
        if s0.owns_data(p) {
            let (a, k) = choose|a: int, k: int|
                0 <= a < s0.areas@.len() && 0 <= k < s0.areas@[a].data_frames@.len()
                    && #[trigger] s0.data_frame(a, k) == p;
            assert(s1.data_frame(a, k) == p);
        }
    }
}

/// Writing into the frame of a page is a step of the address space that
/// owns the frame, and leaves that address space consistent.
pub proof fn lemma_write_step(
    s: MemorySet,
    m0: Seq<Seq<u64>>,
    m1: Seq<Seq<u64>>,
    fa: StackFrameAllocator,
    f: int,
)
    requires
        s.wf(m0),
        s.owns_data(f),
        m1.len() == m0.len(),
        forall|p: int| 0 <= p < m0.len() && p != f ==> (#[trigger] m1[p]) == m0[p],
    ensures
        owner_step(m0, m1, fa, fa, frames_of(s), frames_of(s)),
        s.wf(m1),
        forall|v: int| #[trigger]
            crate::mm::page_table::lookup(m1, s.page_table.root(), v)
                == crate::mm::page_table::lookup(m0, s.page_table.root(), v),
{
    s.lemma_wf_facts(m0);
    s.page_table.lemma_wf_basics(m0);
    s.lemma_wf_frame(m0, m1);
}

/// Writing into the frame of a page leaves the address space that owns the
/// frame consistent, with the same mappings.
pub proof fn lemma_write_keeps(s: MemorySet, m0: Seq<Seq<u64>>, m1: Seq<Seq<u64>>, f: int)
    requires
        s.wf(m0),
        s.owns_data(f),
        m1.len() == m0.len(),
        forall|p: int| 0 <= p < m0.len() && p != f ==> (#[trigger] m1[p]) == m0[p],
    ensures
        s.wf(m1),
        forall|v: int| #[trigger]
            crate::mm::page_table::lookup(m1, s.page_table.root(), v)
                == crate::mm::page_table::lookup(m0, s.page_table.root(), v),
{
    s.lemma_wf_facts(m0);
    s.page_table.lemma_wf_basics(m0);
    s.lemma_wf_frame(m0, m1);
}

/// A copy of an address space holds, page for page, what the source held
/// when the copy was made, in frames that the source does not own.  So a
/// write into a frame of the copy, which turns the memory `m1` into `m2`,
/// changes nothing that the source holds.
pub proof fn lemma_copy_isolated(
    parent: MemorySet,
    child: MemorySet,
    m0: Seq<Seq<u64>>,
    m1: Seq<Seq<u64>>,
    m2: Seq<Seq<u64>>,
    fa0: StackFrameAllocator,
    fa1: StackFrameAllocator,
    f: int,
)
    requires
        parent.wf(m0),
        parent.frames_allocated(&fa0),
        MemorySet::copied(parent, child, m0, m1, fa0, fa1),
        child.owns(f),
        m2.len() == m1.len(),
        forall|p: int| 0 <= p < m1.len() && p != f ==> (#[trigger] m2[p]) == m1[p],
    ensures
        !parent.owns(f),
        forall|p: int| child.owns(p) ==> !parent.owns(p),
        forall|a: int, k: int|
            0 <= a < parent.areas@.len() && 0 <= k < parent.areas@[a].data_frames@.len()
                ==> m1[#[trigger] child.data_frame(a, k)] == m0[parent.data_frame(a, k)],
        forall|a: int, k: int|
            0 <= a < parent.areas@.len() && 0 <= k < parent.areas@[a].data_frames@.len()
                ==> m2[#[trigger] parent.data_frame(a, k)] == m0[parent.data_frame(a, k)],
        parent.wf(m2),
{
    parent.lemma_wf_facts(m0);
    parent.lemma_wf_facts(m1);
    assert forall|p: int| child.owns(p) implies !parent.owns(p) by {
        if parent.owns(p) {
            assert(fa0.is_allocated(p));
        }
    }
    assert forall|a: int, k: int|
        0 <= a < parent.areas@.len() && 0 <= k < parent.areas@[a].data_frames@.len() implies m2[
    #[trigger] parent.data_frame(a, k)] == m0[parent.data_frame(a, k)] by {
        let pf = parent.data_frame(a, k);
        assert(parent.owns_data(pf));
        assert(parent.owns(pf));
        assert(!child.owns(pf));
        assert(0 <= pf < m0.len());
        assert(m1[pf] == m0[pf]);
        assert(pf != f);
    }
    assert forall|p: int| parent.page_table.owns(p) implies m2[p] == m1[p] by {
        assert(parent.owns(p));
        parent.page_table.lemma_wf_basics(m1);
    }
    parent.lemma_wf_frame(m1, m2);
}

} // verus!
