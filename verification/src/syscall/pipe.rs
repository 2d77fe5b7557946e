//! The system call that gives a process the two ends of a pipe.

use vstd::prelude::*;
use crate::mm::page_table::PTE_W;
use crate::mm::user::{user_range_ok, user_writable, user_written};
use crate::syscall::fs::{current_token, fd_table_set, install_fd, lowest_free, with_fd};
use crate::syscall::process::{le_bytes64, push_le32};
use crate::task::kernel::Kernel;
use crate::task::process::FileDescriptor;

verus! {

/// The descriptor of the end of a pipe from which `file` is read.
pub open spec fn read_end(file: usize) -> FileDescriptor {
    FileDescriptor { file, readable: true, writable: false }
}

/// The descriptor of the end of a pipe to which `file` is written.
pub open spec fn write_end(file: usize) -> FileDescriptor {
    FileDescriptor { file, readable: false, writable: true }
}

/// Whether the process that runs can take the two ends `made` of a pipe
/// and have their slots stored at the user address `pipe`: the pipe was
/// made, the sixteen bytes at `pipe` can be written, and the table of open
/// files has room for two more.
pub open spec fn pipe_ok(k: Kernel, pipe: u64, made: Option<(usize, usize)>) -> bool {
    let pid = k.current->0 as int;
    &&& made is Some
    &&& user_range_ok(k.mem@, k.space(pid).page_table.root(), pipe as int, 16, PTE_W)
    &&& k.pcb(pid).inner.fd_table@.len() + 1 < isize::MAX
}

/// What the kernel `k1` is after the process that runs in the kernel `k0`
/// has taken the ends `made` of a pipe: the end to read from has the
/// lowest free slot `rfd` of its table of open files, the end to write to
/// the lowest slot `wfd` that is free then, and the two numbers lie at the
/// user address `pipe`, eight bytes each, lowest byte first.
pub open spec fn piped(
    k0: Kernel,
    k1: Kernel,
    pipe: u64,
    made: (usize, usize),
    rfd: int,
    wfd: int,
) -> bool {
    let pid = k0.current->0 as int;
    let t0 = k0.pcb(pid).inner.fd_table@;
    let t1 = with_fd(t0, rfd, read_end(made.0));
    let t2 = with_fd(t1, wfd, write_end(made.1));
    &&& lowest_free(t0, rfd)
    &&& lowest_free(t1, wfd)
    &&& exists|km: Kernel|
        {
            &&& #[trigger] fd_table_set(k0, km, t2)
            &&& k1 == (Kernel { mem: k1.mem, ..km })
            &&& user_written(
                k0.mem@,
                k1.mem@,
                k0.space(pid).page_table.root(),
                pipe as int,
                le_bytes64(rfd as u64) + le_bytes64(wfd as u64),
            )
        }
}

/// The sixteen bytes of the two slot numbers `rfd` and `wfd`.
fn slot_bytes(rfd: usize, wfd: usize) -> (r: Vec<u8>)
    ensures
        r@ == le_bytes64(rfd as u64) + le_bytes64(wfd as u64),
{
    let a: u64 = rfd as u64;
    let b: u64 = wfd as u64;
    let mut v: Vec<u8> = Vec::new();
    push_le32(&mut v, (a % 0x1_0000_0000) as u32);
    push_le32(&mut v, (a / 0x1_0000_0000) as u32);
    push_le32(&mut v, (b % 0x1_0000_0000) as u32);
    push_le32(&mut v, (b / 0x1_0000_0000) as u32);
    proof {
        assert(v@ =~= le_bytes64(a) + le_bytes64(b));
    }
    v
}

/// What the system call that takes a pipe makes of the kernel `k0`, with
/// the result `r`: see [`sys_pipe`].
pub open spec fn pipe_taken(k0: Kernel, k1: Kernel, pipe: u64, made: Option<(usize, usize)>, r: isize) -> bool {
    &&& r == 0 <==> pipe_ok(k0, pipe, made)
    &&& r != 0 ==> r == -1 && k1 == k0
    &&& r == 0 ==> exists|rfd: int, wfd: int| #[trigger]
                piped(k0, k1, pipe, made->0, rfd, wfd)
}

/// The process that runs takes the two ends of a pipe.  `made` holds the
/// handles of the end to read from and of the end to write to, if the pipe
/// could be made, and `pipe` is the user address at which the numbers of
/// their slots are stored.
///
/// Returns 0, or -1 with nothing changed when [`pipe_ok`] does not hold.
pub fn sys_pipe(kernel: &mut Kernel, pipe: u64, made: Option<(usize, usize)>) -> (r: isize)
    requires
        old(kernel).wf(),
        old(kernel).current is Some,
    ensures
        final(kernel).wf(),
        pipe_taken(*old(kernel), *final(kernel), pipe, made, r),
{
    let ghost k0 = *kernel;
    proof {
        k0.lemma_wf_kernel();
        k0.lemma_wf_process(k0.current->0 as int);
    }
    let pid: usize = kernel.current.unwrap();
    let (rd, wr) = match made {
        Some(m) => m,
        None => {
            return -1;
        },
    };
    let token: u64 = current_token(kernel);
    if !user_writable(&kernel.mem, token, pipe, 16) {
        return -1;
    }
    let len: usize = match &kernel.processes[pid] {
        Some(p) => p.inner.fd_table.len(),
        None => 0,
    };
    if len >= isize::MAX as usize - 1 {
        return -1;
    }
    let rfd: usize = install_fd(kernel, FileDescriptor { file: rd, readable: true, writable: false });
    let ghost ka = *kernel;
    let wfd: usize = install_fd(kernel, FileDescriptor { file: wr, readable: false, writable: true });
    let ghost km = *kernel;
    let bytes = slot_bytes(rfd, wfd);
    proof {
        km.lemma_wf_kernel();
    }
    let _ok: bool = kernel.write_user(pid, pipe, bytes.as_slice());
    proof {
        let t0 = k0.pcb(pid as int).inner.fd_table@;
        let t1 = with_fd(t0, rfd as int, read_end(rd));
        let t2 = with_fd(t1, wfd as int, write_end(wr));
        assert(ka.pcb(pid as int).inner.fd_table@ == t1);
        assert(fd_table_set(k0, km, t2));
        assert(piped(k0, *kernel, pipe, (rd, wr), rfd as int, wfd as int));
    }
    0
}

} // verus!
