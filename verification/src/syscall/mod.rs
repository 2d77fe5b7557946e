//! The system calls.

pub mod exec;
pub mod fs;
pub mod memory;
pub mod pipe;
pub mod process;

pub use exec::sys_exec;
pub use fs::{
    sys_close, sys_dup, sys_fstat, sys_linkat, sys_mail_read, sys_mail_write, sys_open, sys_read,
    sys_spawn, sys_unlinkat, sys_write, Stat,
};
pub use memory::{sys_mmap, sys_munmap};
pub use pipe::sys_pipe;
pub use process::{
    sys_exit, sys_fork, sys_get_time, sys_getpid, sys_kill, sys_set_priority, sys_sigaction,
    sys_sigprocmask, sys_sigreturn, sys_waitpid, sys_yield, TimeVal,
};

use vstd::prelude::*;
use crate::task::kernel::Kernel;
use crate::task::{exited, suspended};

verus! {

pub const SYSCALL_DUP: usize = 24;

pub const SYSCALL_UNLINKAT: usize = 35;

pub const SYSCALL_LINKAT: usize = 37;

pub const SYSCALL_OPEN: usize = 56;

pub const SYSCALL_CLOSE: usize = 57;

pub const SYSCALL_PIPE: usize = 59;

pub const SYSCALL_READ: usize = 63;

pub const SYSCALL_WRITE: usize = 64;

pub const SYSCALL_FSTAT: usize = 80;

pub const SYSCALL_EXIT: usize = 93;

pub const SYSCALL_YIELD: usize = 124;

pub const SYSCALL_KILL: usize = 129;

pub const SYSCALL_SIGACTION: usize = 134;

pub const SYSCALL_SIGPROCMASK: usize = 135;

pub const SYSCALL_SIGRETURN: usize = 139;

pub const SYSCALL_SET_PRIORITY: usize = 140;

pub const SYSCALL_GET_TIME: usize = 169;

pub const SYSCALL_GETPID: usize = 172;

pub const SYSCALL_MUNMAP: usize = 215;

pub const SYSCALL_FORK: usize = 220;

pub const SYSCALL_EXEC: usize = 221;

pub const SYSCALL_MMAP: usize = 222;

pub const SYSCALL_WAITPID: usize = 260;

pub const SYSCALL_SPAWN: usize = 400;

pub const SYSCALL_MAIL_READ: usize = 401;

pub const SYSCALL_MAIL_WRITE: usize = 402;

/// What the collaborators of the kernel answered for the system call that
/// is about to be handled.  The kernel asks nothing itself: whoever runs it
/// looks at the call that the process has made, asks the file system, and
/// hands the answers in.
pub struct SyscallInput {
    /// For `open`: the handle that the file system gave for the name and
    /// the flags, if it gave one.
    pub opened: Option<usize>,
    /// For `read`: the bytes that the file system read from the file.
    pub read_data: Vec<u8>,
    /// For `exec`: the bytes of the program file, if it could be opened.
    pub image: Option<Vec<u8>>,
    /// For `pipe`: the handles of the end to read from and of the end to
    /// write to, if the pipe could be made.
    pub pipe: Option<(usize, usize)>,
}

/// Whether `id` is the number of a system call.
pub open spec fn supported(id: usize) -> bool {
    id == SYSCALL_DUP || id == SYSCALL_UNLINKAT || id == SYSCALL_LINKAT || id == SYSCALL_OPEN
        || id == SYSCALL_CLOSE || id == SYSCALL_READ || id == SYSCALL_WRITE || id == SYSCALL_FSTAT
        || id == SYSCALL_EXIT || id == SYSCALL_YIELD || id == SYSCALL_KILL || id
        == SYSCALL_SIGACTION || id == SYSCALL_SIGPROCMASK || id == SYSCALL_SIGRETURN || id
        == SYSCALL_SET_PRIORITY || id == SYSCALL_GET_TIME || id == SYSCALL_GETPID || id
        == SYSCALL_FORK || id == SYSCALL_EXEC || id == SYSCALL_WAITPID || id == SYSCALL_SPAWN || id
        == SYSCALL_MAIL_READ || id == SYSCALL_MAIL_WRITE || id == SYSCALL_MMAP || id
        == SYSCALL_MUNMAP || id == SYSCALL_PIPE
}

/// The number that the register value `w` stands for as an index; the
/// greatest index when it is too large to be one.
pub open spec fn index_of(w: u64) -> int {
    if w <= usize::MAX {
        w as int
    } else {
        usize::MAX as int
    }
}

/// The number that the register value `w` stands for as an index; the
/// greatest index when it is too large to be one.
pub fn reg_index(w: u64) -> (r: usize)
    ensures
        r == index_of(w),
{
    if w <= usize::MAX as u64 {
        w as usize
    } else {
        usize::MAX
    }
}

/// The 32-bit number in two's complement that the low half of the register
/// value `w` stands for.
pub open spec fn low_i32(w: u64) -> int {
    let low = w as int % 0x1_0000_0000;
    if low < 0x8000_0000 {
        low
    } else {
        low - 0x1_0000_0000
    }
}

/// The 32-bit number in two's complement in the low half of the register
/// value `w`.
pub fn reg_i32(w: u64) -> (r: i32)
    ensures
        r == low_i32(w),
{
    let low: u64 = w % 0x1_0000_0000;
    if low < 0x8000_0000 {
        low as i32
    } else {
        (low as i64 - 0x1_0000_0000) as i32
    }
}

/// The bytes of the program file that the collaborators handed in, if
/// they handed one in.
pub open spec fn input_image(input: SyscallInput) -> Option<Seq<u8>> {
    match input.image {
        Some(v) => Some(v@),
        None => None,
    }
}

/// What the system call with the number `id`, which is the number of a
/// system call, and the arguments `a0`, `a1` and `a2` makes of the kernel
/// `k0` with the result `r`, when the collaborators answered `input`: what
/// the function of the call says, for the arguments as the registers hold
/// them.  The calls that this kernel does not serve return 0 and change
/// nothing.
#[verifier::opaque]
pub open spec fn served(
    k0: Kernel,
    k1: Kernel,
    id: usize,
    a0: u64,
    a1: u64,
    a2: u64,
    input: SyscallInput,
    r: isize,
) -> bool {
    if id == SYSCALL_DUP {
        fs::file_duplicated(k0, k1, index_of(a0) as usize, r)
    } else if id == SYSCALL_OPEN {
        fs::file_opened(k0, k1, a0, (a1 % 0x1_0000_0000) as u32, input.opened, r)
    } else if id == SYSCALL_CLOSE {
        fs::file_closed(k0, k1, index_of(a0) as usize, r)
    } else if id == SYSCALL_PIPE {
        pipe::pipe_taken(k0, k1, a0, input.pipe, r)
    } else if id == SYSCALL_READ {
        fs::file_read(
            k0,
            k1,
            index_of(a0) as usize,
            a1,
            index_of(a2) as usize,
            input.read_data@,
            r,
        )
    } else if id == SYSCALL_WRITE {
        fs::file_written(k0, k1, index_of(a0) as usize, a1, index_of(a2) as usize, r)
    } else if id == SYSCALL_EXIT {
        r == 0 && exited(k0, k1, low_i32(a0) as i32)
    } else if id == SYSCALL_YIELD {
        r == 0 && suspended(k0, k1)
    } else if id == SYSCALL_KILL {
        process::signal_sent(k0, k1, index_of(a0) as usize, low_i32(a1) as i32, r)
    } else if id == SYSCALL_SIGACTION {
        process::action_replaced(k0, k1, low_i32(a0) as i32, a1, a2, r)
    } else if id == SYSCALL_SIGPROCMASK {
        process::mask_replaced(k0, k1, (a0 % 0x1_0000_0000) as u32, r)
    } else if id == SYSCALL_SIGRETURN {
        process::handler_left(k0, k1, r)
    } else if id == SYSCALL_GET_TIME {
        k1 == k0 && r == (if k0.time_ms <= isize::MAX {
            k0.time_ms as int
        } else {
            isize::MAX as int
        })
    } else if id == SYSCALL_GETPID {
        k1 == k0 && r == k0.current->0
    } else if id == SYSCALL_MUNMAP {
        memory::range_unmapped(k0, k1, a0, index_of(a1) as usize, r)
    } else if id == SYSCALL_FORK {
        process::fork_called(k0, k1, r)
    } else if id == SYSCALL_EXEC {
        exec::program_replaced(k0, k1, a0, a1, input_image(input), r)
    } else if id == SYSCALL_MMAP {
        memory::range_mapped(k0, k1, a0, index_of(a1) as usize, index_of(a2) as usize, r)
    } else if id == SYSCALL_WAITPID {
        process::child_awaited(k0, k1, crate::trap::result_of(a0), a1, r)
    } else {
        r == 0 && k1 == k0
    }
}

/// Handles the system call with the number `syscall_id` and the arguments
/// `args` for the process that runs.  `input` holds what the collaborators
/// answered for this call.  Returns the result of the call.
///
/// The number is that of a system call: a caller that finds another
/// number stops the kernel.  A negative result is an error code: -1 for a
/// failure, -2 for a wait that found a child but none that has exited.
/// What each call does is said at the function of the call.
pub fn syscall(kernel: &mut Kernel, syscall_id: usize, args: [u64; 3], input: &SyscallInput) -> (r:
    isize)
    requires
        old(kernel).wf(),
        old(kernel).current is Some,
        supported(syscall_id),
    ensures
        final(kernel).wf(),
        served(*old(kernel), *final(kernel), syscall_id, args[0], args[1], args[2], *input, r),
{
    proof {
        reveal(served);
    }
    if syscall_id == SYSCALL_DUP {
        sys_dup(kernel, reg_index(args[0]))
    } else if syscall_id == SYSCALL_UNLINKAT {
        sys_unlinkat(reg_index(args[0]), args[1], reg_index(args[2]))
    } else if syscall_id == SYSCALL_LINKAT {
        sys_linkat(reg_index(args[0]), args[1], reg_index(args[2]), 0, 0)
    } else if syscall_id == SYSCALL_OPEN {
        sys_open(kernel, args[0], (args[1] % 0x1_0000_0000) as u32, input.opened)
    } else if syscall_id == SYSCALL_CLOSE {
        sys_close(kernel, reg_index(args[0]))
    } else if syscall_id == SYSCALL_READ {
        sys_read(
            kernel,
            reg_index(args[0]),
            args[1],
            reg_index(args[2]),
            input.read_data.as_slice(),
        )
    } else if syscall_id == SYSCALL_WRITE {
        sys_write(kernel, reg_index(args[0]), args[1], reg_index(args[2]))
    } else if syscall_id == SYSCALL_FSTAT {
        sys_fstat(reg_index(args[0]), args[1])
    } else if syscall_id == SYSCALL_EXIT {
        sys_exit(kernel, reg_i32(args[0]));
        0
    } else if syscall_id == SYSCALL_YIELD {
        sys_yield(kernel)
    } else if syscall_id == SYSCALL_KILL {
        sys_kill(kernel, reg_index(args[0]), reg_i32(args[1]))
    } else if syscall_id == SYSCALL_SIGACTION {
        sys_sigaction(kernel, reg_i32(args[0]), args[1], args[2])
    } else if syscall_id == SYSCALL_SIGPROCMASK {
        sys_sigprocmask(kernel, (args[0] % 0x1_0000_0000) as u32)
    } else if syscall_id == SYSCALL_SIGRETURN {
        sys_sigreturn(kernel)
    } else if syscall_id == SYSCALL_SET_PRIORITY {
        sys_set_priority(crate::trap::reg_to_result(args[0]))
    } else if syscall_id == SYSCALL_GET_TIME {
        sys_get_time(kernel)
    } else if syscall_id == SYSCALL_GETPID {
        sys_getpid(kernel)
    } else if syscall_id == SYSCALL_FORK {
        sys_fork(kernel)
    } else if syscall_id == SYSCALL_EXEC {
        let image: Option<&[u8]> = match &input.image {
            Some(v) => Some(v.as_slice()),
            None => None,
        };
        sys_exec(kernel, args[0], args[1], image)
    } else if syscall_id == SYSCALL_WAITPID {
        sys_waitpid(kernel, crate::trap::reg_to_result(args[0]), args[1])
    } else if syscall_id == SYSCALL_SPAWN {
        sys_spawn(args[0])
    } else if syscall_id == SYSCALL_MAIL_READ {
        sys_mail_read(args[0], reg_index(args[1]))
    } else if syscall_id == SYSCALL_MAIL_WRITE {
        sys_mail_write(reg_index(args[0]), args[1], reg_index(args[2]))
    } else if syscall_id == SYSCALL_MMAP {
        sys_mmap(kernel, args[0], reg_index(args[1]), reg_index(args[2]))
    } else if syscall_id == SYSCALL_MUNMAP {
        sys_munmap(kernel, args[0], reg_index(args[1]))
    } else {
        sys_pipe(kernel, args[0], input.pipe)
    }
}

} // verus!
