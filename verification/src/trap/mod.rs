//! Traps: the saved user state and the dispatch of traps to system calls,
//! signals and the scheduler.

pub mod cause;
pub mod context;
pub mod handler;

pub use context::TrapContext;
pub use handler::{
    enable_timer_interrupt, init, return_to_user, trap_from_kernel, trap_handler, trap_return,
    KernelFault, TrapOutcome,
};

use vstd::prelude::*;

verus! {

/// The 64-bit pattern of the result `r` of a system call in two's
/// complement: what the return-value register holds for it.
pub open spec fn reg_of(r: isize) -> u64 {
    if r >= 0 {
        r as u64
    } else {
        (r + 0x1_0000_0000_0000_0000) as u64
    }
}

/// The 64-bit pattern of the result `r` of a system call.
pub fn result_to_reg(r: isize) -> (w: u64)
    ensures
        w == reg_of(r),
{
    if r >= 0 {
        r as u64
    } else {
        u64::MAX - ((-(r + 1)) as u64)
    }
}

/// The number in two's complement that the register value `w` stands
/// for; 0 when the result type of the host cannot hold it.
pub open spec fn result_of(w: u64) -> isize {
    if w <= isize::MAX {
        w as isize
    } else if w >= 0x1_0000_0000_0000_0000 + isize::MIN {
        (w - 0x1_0000_0000_0000_0000) as isize
    } else {
        0
    }
}

/// The result of a system call whose pattern in the return-value register
/// is `w`, when the result type can hold it.
pub fn reg_to_result(w: u64) -> (r: isize)
    ensures
        r == result_of(w),
        (w <= isize::MAX || w >= 0x1_0000_0000_0000_0000 + isize::MIN) ==> reg_of(r) == w,
{
    if w <= isize::MAX as u64 {
        w as isize
    } else if w >= u64::MAX - (isize::MAX as u64) {
        -((u64::MAX - w) as isize) - 1
    } else {
        0
    }
}

} // verus!
