//! Collecting the exit code of a child that has exited.

use vstd::prelude::*;
use crate::mm::memory_set::MemorySet;
use crate::task::kernel::Kernel;
use crate::task::process::{ProcessControlBlock, ProcessControlBlockInner};

verus! {

/// Whether `c` is a child that a wait for `pid` is about: it exists, and
/// `pid` is -1 or the identifier of `c`.
pub open spec fn wait_match(k: Kernel, c: int, pid: int) -> bool {
    k.has_process(c) && (pid == -1 || pid == c)
}

/// Whether `c` is a child that a wait for `pid` can collect: it is what the
/// wait is about, and it has exited.
pub open spec fn waitable(k: Kernel, c: int, pid: int) -> bool {
    wait_match(k, c, pid) && k.pcb(c).inner.is_zombie
}

/// Whether a wait for `pid` is about one of `children`.
pub open spec fn any_match(k: Kernel, children: Seq<usize>, pid: int) -> bool {
    exists|i: int| 0 <= i < children.len() && wait_match(k, #[trigger] children[i] as int, pid)
}

/// Whether `i` is the first index of a child in `children` that a wait for
/// `pid` can collect.
pub open spec fn first_waitable(k: Kernel, children: Seq<usize>, pid: int, i: int) -> bool {
    &&& 0 <= i < children.len()
    &&& waitable(k, children[i] as int, pid)
    &&& forall|j: int| 0 <= j < i ==> !waitable(k, #[trigger] children[j] as int, pid)
}

/// Whether a wait for `pid` can collect one of `children`.
pub open spec fn any_waitable(k: Kernel, children: Seq<usize>, pid: int) -> bool {
    exists|i: int| 0 <= i < children.len() && waitable(k, #[trigger] children[i] as int, pid)
}

impl Kernel {
    /// Whether a wait of the process `parent` for `pid` is about one of its
    /// children.
    pub fn has_matching_child(&self, parent: usize, pid: isize) -> (r: bool)
        requires
            self.has_process(parent as int),
        ensures
            r == any_match(*self, self.pcb(parent as int).inner.children@, pid as int),
    {
        match &self.processes[parent] {
            Some(p) => {
                let mut i: usize = 0;
                while i < p.inner.children.len()
                    invariant
                        i <= p.inner.children@.len(),
                        *p == self.pcb(parent as int),
                        forall|j: int|
                            0 <= j < i ==> !wait_match(
                                *self,
                                #[trigger] p.inner.children@[j] as int,
                                pid as int,
                            ),
                    decreases p.inner.children@.len() - i,
                {
                    let c: usize = p.inner.children[i];
                    if (pid == -1 || (pid >= 0 && pid as usize == c)) && c < self.processes.len()
                        && self.processes[c].is_some() {
                        proof {
                            assert(*p == self.pcb(parent as int));
                            assert(wait_match(
                                *self,
                                self.pcb(parent as int).inner.children@[i as int] as int,
                                pid as int,
                            ));
                        }
                        return true;
                    }
                    i = i + 1;
                }
                false
            },
            None => false,
        }
    }

    /// The first index of a child of the process `parent` that a wait for
    /// `pid` can collect.
    pub fn find_zombie_child(&self, parent: usize, pid: isize) -> (r: Option<usize>)
        requires
            self.has_process(parent as int),
        ensures
            r matches Some(i) ==> first_waitable(
                *self,
                self.pcb(parent as int).inner.children@,
                pid as int,
                i as int,
            ),
            r is None ==> !any_waitable(*self, self.pcb(parent as int).inner.children@, pid as int),
    {
        match &self.processes[parent] {
            Some(p) => {
                let mut i: usize = 0;
                while i < p.inner.children.len()
                    invariant
                        i <= p.inner.children@.len(),
                        *p == self.pcb(parent as int),
                        forall|j: int|
                            0 <= j < i ==> !waitable(
                                *self,
                                #[trigger] p.inner.children@[j] as int,
                                pid as int,
                            ),
                    decreases p.inner.children@.len() - i,
                {
                    let c: usize = p.inner.children[i];
                    if (pid == -1 || (pid >= 0 && pid as usize == c)) && c < self.processes.len() {
                        let zombie: bool = match &self.processes[c] {
                            Some(ch) => ch.inner.is_zombie,
                            None => false,
                        };
                        if zombie {
                            proof {
                                assert(*p == self.pcb(parent as int));
                                assert(waitable(
                                    *self,
                                    self.pcb(parent as int).inner.children@[i as int] as int,
                                    pid as int,
                                ));
                            }
                            return Some(i);
                        }
                    }
                    i = i + 1;
                }
                None
            },
            None => None,
        }
    }

    /// What the kernel `k1` is after the zombie `child` of the kernel `k0`
    /// has been reaped: the zombie is gone from the table, every frame of
    /// its address space is free again, and its identifier can be handed
    /// out anew; the contents of the frames of the other processes are as
    /// before, and nothing else has changed.
    pub open spec fn reaped(k0: Kernel, k1: Kernel, child: int) -> bool {
        &&& k1 == (Kernel {
            mem: k1.mem,
            frame_allocator: k1.frame_allocator,
            pid_allocator: k1.pid_allocator,
            processes: k1.processes,
            ..k0
        })
        &&& k1.processes@ == k0.processes@.update(child, None)
        &&& k1.mem@.len() == k0.mem@.len()
        &&& forall|f: int| k0.space(child).owns(f) ==> !k1.frame_allocator.is_allocated(f)
        &&& forall|f: int|
            k1.frame_allocator.is_allocated(f) ==> k0.frame_allocator.is_allocated(f)
        &&& forall|q: int|
            k1.pid_allocator.is_allocated(q) <==> k0.pid_allocator.is_allocated(q) && q != child
        &&& forall|q: int, f: int| #[trigger]
            k0.has_process(q) && q != child && #[trigger] k0.space(q).owns(f) ==> k1.mem@[f]
                == k0.mem@[f]
        &&& forall|q: int, v: int| #[trigger]
            k0.has_process(q) && q != child ==> #[trigger] crate::mm::page_table::lookup(
                k1.mem@,
                k0.space(q).page_table.root(),
                v,
            ) == crate::mm::page_table::lookup(k0.mem@, k0.space(q).page_table.root(), v)
    }

    /// Reaps the zombie `child`: takes it out of the table, gives all frames
    /// of its address space and its identifier back, and returns its exit
    /// code.
    pub fn reap(&mut self, child: usize) -> (r: i32)
        requires
            old(self).wf(),
            old(self).has_process(child as int),
            old(self).pcb(child as int).inner.is_zombie,
        ensures
            final(self).wf(),
            r == old(self).pcb(child as int).inner.exit_code,
            Self::reaped(*old(self), *final(self), child as int),
    {
        let ghost k0 = *self;
        proof {
            k0.lemma_wf_kernel();
            k0.lemma_wf_process(child as int);
        }
        let taken = self.processes[child].take();
        match taken {
            Some(pcb) => {
                let code: i32 = pcb.inner.exit_code;
                let ProcessControlBlock { pid, inner } = pcb;
                let ProcessControlBlockInner { memory_set, .. } = inner;
                memory_set.release(&mut self.frame_allocator, &mut self.mem);
                proof {
                    assert(pid.0 == child);
                    assert(k0.pid_allocator.is_allocated(child as int));
                }
                self.pid_allocator.dealloc(pid.0);
                proof {
                    let sp = k0.space(child as int);
                    sp.lemma_wf_facts(k0.mem@);
                    sp.page_table.lemma_wf_basics(k0.mem@);
                    assert(self.processes@ =~= k0.processes@.update(child as int, None));
                    assert(crate::mm::spaces::owner_step(
                        k0.mem@,
                        self.mem@,
                        k0.frame_allocator,
                        self.frame_allocator,
                        crate::mm::spaces::frames_of(sp),
                        Set::<int>::empty(),
                    ));
                    k0.lemma_process_removed(self, child as int);
                    assert forall|q: int, f: int| #[trigger]
                        k0.has_process(q) && q != child && #[trigger] k0.space(q).owns(
                            f,
                        ) implies self.mem@[f] == k0.mem@[f] by {
                        k0.lemma_removed_bystander(self, child as int, q);
                    }
                    assert forall|q: int, v: int| #[trigger]
                        k0.has_process(q) && q != child implies #[trigger] crate::mm::page_table::lookup(
                        self.mem@,
                        k0.space(q).page_table.root(),
                        v,
                    ) == crate::mm::page_table::lookup(
                        k0.mem@,
                        k0.space(q).page_table.root(),
                        v,
                    ) by {
                        k0.lemma_removed_bystander(self, child as int, q);
                    }
                    reveal(Kernel::wf);
                }
                code
            },
            None => 0,
        }
    }
}

} // verus!
