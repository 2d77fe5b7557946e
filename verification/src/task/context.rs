//! The registers that a task keeps while it is switched out.

use vstd::prelude::*;

verus! {

/// The callee-saved state of a task in the kernel: where it resumes, its
/// kernel stack pointer, and the registers `s0` to `s11`.
#[derive(Copy, Clone, Debug)]
pub struct TaskContext {
    /// Address at which the task resumes after a switch.
    pub ra: u64,
    /// Kernel stack pointer.
    pub sp: u64,
    /// Callee-saved registers.
    pub s: [u64; 12],
}

impl TaskContext {
    /// The context with every register zero.
    pub fn zero_init() -> (r: Self)
        ensures
            r.ra == 0,
            r.sp == 0,
            forall|i: int| 0 <= i < 12 ==> #[trigger] r.s@[i] == 0,
    {
        TaskContext { ra: 0, sp: 0, s: [0;12] }
    }

    /// The context of a task that has never run: it resumes at
    /// `trap_return`, the routine that returns to user mode, on the kernel
    /// stack whose top is `kstack_ptr`.
    pub fn goto_trap_return(kstack_ptr: u64, trap_return: u64) -> (r: Self)
        ensures
            r.ra == trap_return,
            r.sp == kstack_ptr,
            forall|i: int| 0 <= i < 12 ==> #[trigger] r.s@[i] == 0,
    {
        TaskContext { ra: trap_return, sp: kstack_ptr, s: [0;12] }
    }
}

} // verus!
