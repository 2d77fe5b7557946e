//! The physical frame allocator: a bump pointer over a range of page numbers
//! plus a stack of recycled frames.

use vstd::prelude::*;
use crate::config::PA_LIMIT;
use crate::mm::address::{PhysAddr, PhysPageNum};
use crate::mm::memory::PhysMemory;

verus! {

/// Hands out the frames of `[start, end)`: recycled ones first, the one freed
/// last before the others, then fresh ones in rising order.
pub struct StackFrameAllocator {
    start: u64,
    current: u64,
    end: u64,
    recycled: Vec<u64>,
}

/// Ownership of one allocated frame.
#[derive(Debug)]
pub struct FrameTracker {
    pub ppn: PhysPageNum,
}

impl StackFrameAllocator {
    /// First frame number of the managed range.
    pub closed spec fn start(&self) -> int {
        self.start as int
    }

    /// The bump pointer: the lowest frame number never handed out.
    pub closed spec fn current(&self) -> int {
        self.current as int
    }

    /// End of the managed range (exclusive).
    pub closed spec fn end(&self) -> int {
        self.end as int
    }

    /// The recycle stack, the frame freed last at the end.
    pub closed spec fn recycled(&self) -> Seq<u64> {
        self.recycled@
    }

    /// The bookkeeping is consistent: the bump pointer lies in the range, and
    /// the recycle stack holds frames below it, none twice.
    pub open spec fn wf(&self) -> bool {
        &&& self.start() <= self.current() <= self.end()
        &&& self.recycled().no_duplicates()
        &&& forall|i: int|
            0 <= i < self.recycled().len() ==> self.start() <= (#[trigger] self.recycled()[i])
                < self.current()
    }

    /// Whether frame `ppn` lies on the recycle stack.
    pub open spec fn is_recycled(&self, ppn: int) -> bool {
        exists|i: int| 0 <= i < self.recycled().len() && #[trigger] self.recycled()[i] == ppn
    }

    /// Whether frame `ppn` is handed out at present.
    pub open spec fn is_allocated(&self, ppn: int) -> bool {
        self.start() <= ppn < self.current() && !self.is_recycled(ppn)
    }

    /// The frames handed out at present.
    pub open spec fn allocated(&self) -> Set<int> {
        Set::new(|ppn: int| self.is_allocated(ppn))
    }

    /// Number of frames that can still be handed out.
    pub open spec fn free(&self) -> int {
        self.end() - self.current() + self.recycled().len()
    }

    /// The frame that the next allocation hands out, if any.
    pub open spec fn next(&self) -> Option<int> {
        if self.recycled().len() > 0 {
            Some(self.recycled().last() as int)
        } else if self.current() < self.end() {
            Some(self.current())
        } else {
            None
        }
    }

    /// The recycle stack holds no more frames than lie below the bump
    /// pointer, so the free frames are at most those of the range.
    pub proof fn lemma_free_bound(&self)
        requires
            self.wf(),
        ensures
            self.recycled().len() <= self.current() - self.start(),
            0 <= self.free() <= self.end() - self.start(),
            0 <= self.start() <= self.end() <= u64::MAX,
    {
        let ints = self.recycled().map_values(|x: u64| x as int);
        assert(ints.no_duplicates());
        ints.unique_seq_to_set();
        vstd::set_lib::lemma_int_range(self.start(), self.current());
        assert(ints.to_set().subset_of(vstd::set_lib::set_int_range(self.start(), self.current())))
            by {
            assert forall|x: int| ints.to_set().contains(x) implies vstd::set_lib::set_int_range(
                self.start(),
                self.current(),
            ).contains(x) by {
                let i = choose|i: int| 0 <= i < ints.len() && ints[i] == x;
                assert(self.recycled()[i] == x);
            }
        }
        vstd::set_lib::lemma_len_subset(
            ints.to_set(),
            vstd::set_lib::set_int_range(self.start(), self.current()),
        );
    }

    /// An allocator over the empty range.
    pub fn new() -> (r: Self)
        ensures
            r.wf(),
            r.start() == 0 && r.current() == 0 && r.end() == 0,
            r.recycled() == Seq::<u64>::empty(),
    {
        StackFrameAllocator { start: 0, current: 0, end: 0, recycled: Vec::new() }
    }

    /// Takes over the frames of `[l, r)`, all of them free.  With `r < l` the
    /// range is empty.
    pub fn init(&mut self, l: PhysPageNum, r: PhysPageNum)
        ensures
            final(self).wf(),
            final(self).start() == l.0,
            final(self).current() == l.0,
            final(self).end() == (if l.0 <= r.0 {
                r.0
            } else {
                l.0
            }),
            final(self).recycled() == Seq::<u64>::empty(),
            final(self).allocated() == Set::<int>::empty(),
    {
        self.start = l.0;
        self.current = l.0;
        self.end = if l.0 <= r.0 {
            r.0
        } else {
            l.0
        };
        self.recycled = Vec::new();
        assert(self.allocated() =~= Set::<int>::empty());
    }

    /// Number of frames that can still be handed out.
    pub fn free_count(&self) -> (r: u64)
        requires
            self.wf(),
        ensures
            r == self.free(),
    {
        proof {
            self.lemma_free_bound();
        }
        (self.end - self.current) + self.recycled.len() as u64
    }

    /// Whether at least `n` frames can still be handed out.
    pub fn has_free(&self, n: u64) -> (r: bool)
        requires
            self.wf(),
        ensures
            r == (self.free() >= n),
    {
        let fresh: u64 = self.end - self.current;
        fresh >= n || self.recycled.len() as u64 >= n - fresh
    }

    /// Hands out a frame that is not allocated: the frame freed last, or else
    /// the lowest fresh one.  `None` exactly when no frame is left.
    pub fn alloc_frame(&mut self) -> (r: Option<PhysPageNum>)
        requires
            old(self).wf(),
        ensures
            final(self).wf(),
            final(self).start() == old(self).start(),
            final(self).end() == old(self).end(),
            r is None <==> old(self).free() == 0,
            r is None ==> *final(self) == *old(self),
            r matches Some(ppn) ==> {
                &&& old(self).next() == Some(ppn.0 as int)
                &&& !old(self).is_allocated(ppn.0 as int)
                &&& final(self).allocated() == old(self).allocated().insert(ppn.0 as int)
                &&& final(self).free() == old(self).free() - 1
                &&& old(self).start() <= ppn.0 < old(self).end()
            },
    {
        let n: usize = self.recycled.len();
        if n > 0 {
            let ppn: u64 = self.recycled[n - 1];
            self.recycled.pop();
            proof {
                let old_r = old(self).recycled();
                assert(self.recycled() == old_r.drop_last());
                assert(old_r[n - 1] == ppn);
                assert forall|p: int| #[trigger]
                    self.allocated().contains(p) == old(self).allocated().insert(
                        ppn as int,
                    ).contains(p) by {
                    if old(self).is_recycled(p) && p != ppn {
                        let i = choose|i: int| 0 <= i < old_r.len() && old_r[i] == p;
                        assert(self.recycled()[i] == p);
                    }
                    if self.is_recycled(p) {
                        let i = choose|i: int|
                            0 <= i < self.recycled().len() && self.recycled()[i] == p;
                        assert(old_r[i] == p);
                        assert(i != n - 1);
                    }
                }
                assert(self.allocated() =~= old(self).allocated().insert(ppn as int));
            }
            Some(PhysPageNum(ppn))
        } else if self.current == self.end {
            None
        } else {
            let ppn: u64 = self.current;
            self.current = self.current + 1;
            proof {
                assert(self.allocated() =~= old(self).allocated().insert(ppn as int));
            }
            Some(PhysPageNum(ppn))
        }
    }

    /// Whether frame `ppn` is allocated: handed out and not taken back
    /// since.
    pub fn has_allocated(&self, ppn: PhysPageNum) -> (r: bool)
        requires
            self.wf(),
        ensures
            r == self.is_allocated(ppn.0 as int),
    {
        if ppn.0 < self.start || ppn.0 >= self.current {
            return false;
        }
        let mut i: usize = 0;
        while i < self.recycled.len()
            invariant
                i <= self.recycled@.len(),
                self.wf(),
                forall|j: int| 0 <= j < i ==> self.recycled@[j] != ppn.0,
            decreases self.recycled@.len() - i,
        {
            if self.recycled[i] == ppn.0 {
                proof {
                    assert(self.recycled()[i as int] == ppn.0);
                }
                return false;
            }
            i = i + 1;
        }
        true
    }

    /// Takes frame `ppn`, which is allocated, back: it is the frame that is
    /// handed out next.  To give back a frame that is not allocated is a
    /// defect of the caller; [`StackFrameAllocator::has_allocated`] tells.
    pub fn dealloc(&mut self, ppn: PhysPageNum)
        requires
            old(self).wf(),
            old(self).is_allocated(ppn.0 as int),
        ensures
            final(self).wf(),
            final(self).start() == old(self).start(),
            final(self).current() == old(self).current(),
            final(self).end() == old(self).end(),
            final(self).recycled() == old(self).recycled().push(ppn.0),
            final(self).allocated() == old(self).allocated().remove(ppn.0 as int),
            final(self).free() == old(self).free() + 1,
            !final(self).is_allocated(ppn.0 as int),
    {
        self.recycled.push(ppn.0);
        proof {
            let old_r = old(self).recycled();
            assert forall|p: int| #[trigger]
                self.allocated().contains(p) == old(self).allocated().remove(
                    ppn.0 as int,
                ).contains(p) by {
                if old(self).is_recycled(p) {
                    let i = choose|i: int| 0 <= i < old_r.len() && old_r[i] == p;
                    assert(self.recycled()[i] == p);
                }
                if self.is_recycled(p) && p != ppn.0 {
                    let i = choose|i: int|
                        0 <= i < self.recycled().len() && self.recycled()[i] == p;
                    assert(old_r[i] == p);
                }
                if p == ppn.0 {
                    assert(self.recycled()[old_r.len() as int] == ppn.0);
                }
            }
            assert(self.allocated() =~= old(self).allocated().remove(ppn.0 as int));
            assert(self.recycled()[old_r.len() as int] == ppn.0);
            assert(self.is_recycled(ppn.0 as int));
        }
    }
}

impl FrameTracker {
    /// Takes ownership of frame `ppn` and fills it with zero bytes.
    pub fn new(ppn: PhysPageNum, mem: &mut PhysMemory) -> (r: Self)
        requires
            old(mem).has(ppn),
        ensures
            r.ppn == ppn,
            final(mem)@ == old(mem)@.update(ppn.0 as int, Seq::new(512, |i: int| 0u64)),
    {
        mem.zero_frame(ppn);
        FrameTracker { ppn }
    }
}

/// Allocates a frame and zero-fills it.  `None` exactly when the allocator has
/// no frame left; then nothing changes.
pub fn frame_alloc(fa: &mut StackFrameAllocator, mem: &mut PhysMemory) -> (r: Option<
    FrameTracker,
>)
    requires
        old(fa).wf(),
        old(fa).end() <= old(mem)@.len(),
    ensures
        final(fa).wf(),
        final(fa).start() == old(fa).start(),
        final(fa).end() == old(fa).end(),
        r is None <==> old(fa).free() == 0,
        r is None ==> *final(fa) == *old(fa) && final(mem)@ == old(mem)@,
        r matches Some(frame) ==> {
            &&& old(fa).next() == Some(frame.ppn.0 as int)
            &&& !old(fa).is_allocated(frame.ppn.0 as int)
            &&& final(fa).allocated() == old(fa).allocated().insert(frame.ppn.0 as int)
            &&& final(fa).free() == old(fa).free() - 1
            &&& old(mem).has(frame.ppn)
            &&& final(mem)@ == old(mem)@.update(
                frame.ppn.0 as int,
                Seq::new(512, |i: int| 0u64),
            )
        },
{
    match fa.alloc_frame() {
        Some(ppn) => Some(FrameTracker::new(ppn, mem)),
        None => None,
    }
}

/// Gives the frame of `frame`, which is allocated, back to the allocator.
pub fn frame_dealloc(fa: &mut StackFrameAllocator, frame: FrameTracker)
    requires
        old(fa).wf(),
        old(fa).is_allocated(frame.ppn.0 as int),
    ensures
        final(fa).wf(),
        final(fa).start() == old(fa).start(),
        final(fa).current() == old(fa).current(),
        final(fa).end() == old(fa).end(),
        final(fa).recycled() == old(fa).recycled().push(frame.ppn.0),
        final(fa).allocated() == old(fa).allocated().remove(frame.ppn.0 as int),
        final(fa).free() == old(fa).free() + 1,
{
    fa.dealloc(frame.ppn)
}

/// Gives the allocator the frames between the end of the kernel image, at
/// the physical address `kernel_end`, and the end of the memory, at the
/// physical address `memory_end`: the frames that lie wholly between the
/// two, all of them free.
pub fn init_frame_allocator(fa: &mut StackFrameAllocator, kernel_end: u64, memory_end: u64)
    ensures
        final(fa).wf(),
        final(fa).start() == (kernel_end % PA_LIMIT + 4095) / 4096,
        final(fa).current() == final(fa).start(),
        final(fa).end() == (if final(fa).start() <= (memory_end % PA_LIMIT) / 4096 {
            (memory_end % PA_LIMIT) as int / 4096
        } else {
            final(fa).start()
        }),
        final(fa).recycled() == Seq::<u64>::empty(),
        final(fa).allocated() == Set::<int>::empty(),
{
    fa.init(PhysAddr::new(kernel_end).ceil(), PhysAddr::new(memory_end).floor());
}

} // verus!
