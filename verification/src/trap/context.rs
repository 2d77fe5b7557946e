//! The trap context: the registers of a task in user mode, as they are saved
//! when a trap enters the kernel, plus what the trap entry needs to find the
//! kernel.

use vstd::prelude::*;
use crate::mm::address::PhysPageNum;
use crate::mm::memory::PhysMemory;

verus! {

/// Words that a trap context takes at the start of its frame.
pub const TRAP_CONTEXT_WORDS: usize = 37;

/// Bit of `sstatus` that holds the privilege mode before the trap
/// (0 is user mode).
pub const SSTATUS_SPP: u64 = 0x100;

/// Index of the stack pointer among the general registers.
pub const REG_SP: usize = 2;

/// Index of the first argument and return-value register `a0`.
pub const REG_A0: usize = 10;

/// Index of the register that holds the number of a system call, `a7`.
pub const REG_A7: usize = 17;

/// The saved state of a task in user mode.  The layout is that of the
/// hardware trap entry: 32 general registers, `sstatus`, `sepc`, then the
/// token of the kernel address space, the top of the task's kernel stack and
/// the address of the trap handler.
#[derive(Copy, Clone, Debug)]
pub struct TrapContext {
    /// General registers `x0` to `x31`.
    pub x: [u64; 32],
    /// Status register.
    pub sstatus: u64,
    /// Program counter at which user mode resumes.
    pub sepc: u64,
    /// Token of the kernel address space.
    pub kernel_satp: u64,
    /// Top of the kernel stack of the task.
    pub kernel_sp: u64,
    /// Address of the trap handler.
    pub trap_handler: u64,
}

impl TrapContext {
    /// Word `i` of the context in its frame.
    pub open spec fn word(&self, i: int) -> u64 {
        if 0 <= i < 32 {
            self.x@[i]
        } else if i == 32 {
            self.sstatus
        } else if i == 33 {
            self.sepc
        } else if i == 34 {
            self.kernel_satp
        } else if i == 35 {
            self.kernel_sp
        } else {
            self.trap_handler
        }
    }

    /// Whether the context is the one that the frame `f` holds.
    pub open spec fn held_by(&self, f: Seq<u64>) -> bool {
        forall|i: int| 0 <= i < 37 ==> self.word(i) == #[trigger] f[i]
    }

    /// The frame `f` with this context stored at its start.
    pub open spec fn stored_in(&self, f: Seq<u64>) -> Seq<u64> {
        Seq::new(
            512,
            |i: int|
                if i < 37 {
                    self.word(i)
                } else {
                    f[i]
                },
        )
    }

    /// Whether two contexts hold the same values.
    pub open spec fn same(&self, other: &TrapContext) -> bool {
        &&& self.x@ == other.x@
        &&& self.sstatus == other.sstatus
        &&& self.sepc == other.sepc
        &&& self.kernel_satp == other.kernel_satp
        &&& self.kernel_sp == other.kernel_sp
        &&& self.trap_handler == other.trap_handler
    }

    /// Two contexts that one frame holds are the same.
    pub proof fn lemma_held_same(a: TrapContext, b: TrapContext, f: Seq<u64>)
        requires
            a.held_by(f),
            b.held_by(f),
        ensures
            a.same(&b),
            a == b,
    {
        assert forall|i: int| 0 <= i < 32 implies a.x@[i] == b.x@[i] by {
            assert(a.word(i) == f[i]);
            assert(b.word(i) == f[i]);
        }
        assert(a.x@ =~= b.x@);
        assert(a.word(32) == f[32] && b.word(32) == f[32]);
        assert(a.word(33) == f[33] && b.word(33) == f[33]);
        assert(a.word(34) == f[34] && b.word(34) == f[34]);
        assert(a.word(35) == f[35] && b.word(35) == f[35]);
        assert(a.word(36) == f[36] && b.word(36) == f[36]);
        assert(a.x =~= b.x);
    }

    /// A frame holds the context that was stored in it.
    pub proof fn lemma_stored(&self, f: Seq<u64>)
        ensures
            self.held_by(self.stored_in(f)),
            self.stored_in(f).len() == 512,
    {
    }

    /// Sets the user stack pointer.
    pub fn set_sp(&mut self, sp: u64)
        ensures
            final(self).x@ == old(self).x@.update(2, sp),
            final(self).sstatus == old(self).sstatus,
            final(self).sepc == old(self).sepc,
            final(self).kernel_satp == old(self).kernel_satp,
            final(self).kernel_sp == old(self).kernel_sp,
            final(self).trap_handler == old(self).trap_handler,
    {
        self.x[REG_SP] = sp;
    }

    /// The context of a program that is about to start: it enters user mode
    /// at `entry` with the stack pointer `sp` and every other general
    /// register zero.  `sstatus` is the value of the status register of the
    /// hart; the context holds it with the previous privilege set to user.
    pub fn app_init_context(
        entry: u64,
        sp: u64,
        kernel_satp: u64,
        kernel_sp: u64,
        trap_handler: u64,
        sstatus: u64,
    ) -> (r: Self)
        ensures
            r.x@ == Seq::new(32, |i: int| 0u64).update(2, sp),
            r.sstatus == sstatus & !SSTATUS_SPP,
            r.sepc == entry,
            r.kernel_satp == kernel_satp,
            r.kernel_sp == kernel_sp,
            r.trap_handler == trap_handler,
    {
        let mut cx = TrapContext {
            x: [0;32],
            sstatus: sstatus & !SSTATUS_SPP,
            sepc: entry,
            kernel_satp,
            kernel_sp,
            trap_handler,
        };
        cx.set_sp(sp);
        proof {
            assert(cx.x@ =~= Seq::new(32, |i: int| 0u64).update(2, sp));
        }
        cx
    }

    /// Reads the context that frame `ppn` holds.
    pub fn load(mem: &PhysMemory, ppn: PhysPageNum) -> (r: Self)
        requires
            mem.has(ppn),
        ensures
            r.held_by(mem@[ppn.0 as int]),
    {
        let mut x: [u64; 32] = [0;32];
        let mut i: usize = 0;
        while i < 32
            invariant
                i <= 32,
                mem.has(ppn),
                forall|j: int| 0 <= j < i ==> x@[j] == mem@[ppn.0 as int][j],
            decreases 32 - i,
        {
            x[i] = mem.read_word(ppn, i);
            i = i + 1;
        }
        TrapContext {
            x,
            sstatus: mem.read_word(ppn, 32),
            sepc: mem.read_word(ppn, 33),
            kernel_satp: mem.read_word(ppn, 34),
            kernel_sp: mem.read_word(ppn, 35),
            trap_handler: mem.read_word(ppn, 36),
        }
    }

    /// Stores the context at the start of frame `ppn`; nothing else changes.
    pub fn store(&self, mem: &mut PhysMemory, ppn: PhysPageNum)
        requires
            old(mem).has(ppn),
        ensures
            final(mem)@ == old(mem)@.update(ppn.0 as int, self.stored_in(old(mem)@[ppn.0 as int])),
    {
        proof {
            mem.lemma_frames();
        }
        let mut i: usize = 0;
        while i < 32
            invariant
                i <= 32,
                mem.has(ppn),
                mem@.len() == old(mem)@.len(),
                mem@[ppn.0 as int].len() == 512,
                forall|p: int| 0 <= p < mem@.len() && p != ppn.0 ==> (#[trigger] mem@[p]) == old(mem)@[p],
                forall|j: int| 0 <= j < i ==> (#[trigger] mem@[ppn.0 as int][j]) == self.x@[j],
                forall|j: int| i <= j < 512 ==> (#[trigger] mem@[ppn.0 as int][j]) == old(mem)@[ppn.0 as int][j],
            decreases 32 - i,
        {
            mem.write_word(ppn, i, self.x[i]);
            i = i + 1;
        }
        mem.write_word(ppn, 32, self.sstatus);
        mem.write_word(ppn, 33, self.sepc);
        mem.write_word(ppn, 34, self.kernel_satp);
        mem.write_word(ppn, 35, self.kernel_sp);
        mem.write_word(ppn, 36, self.trap_handler);
        proof {
            assert(mem@ =~~= old(mem)@.update(
                ppn.0 as int,
                self.stored_in(old(mem)@[ppn.0 as int]),
            ));
        }
    }
}

} // verus!
