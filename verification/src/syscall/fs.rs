//! System calls on files and on the address space.

use vstd::prelude::*;
use crate::mm::page_table::{PTE_R, PTE_W};
use crate::mm::user::{translated_byte_buffer, translated_str, user_byte, user_range_ok, user_writable, user_written};
use crate::task::kernel::{FileWrite, Kernel};
use crate::task::process::{FileDescriptor, ProcessControlBlock, ProcessControlBlockInner};

verus! {

/// File type: none.
pub const STAT_NULL: u32 = 0;

/// File type: directory.
pub const STAT_DIR: u32 = 0o040000;

/// File type: ordinary file.
pub const STAT_FILE: u32 = 0o100000;

/// Type and mode of a file.
#[derive(Copy, Clone, Debug, PartialEq, Eq, Structural)]
pub struct StatMode {
    pub bits: u32,
}

/// What is known of a file.
#[derive(Copy, Clone, Debug)]
pub struct Stat {
    /// Identifier of the device that holds the file.
    pub dev: u64,
    /// Number of the inode.
    pub ino: u64,
    /// Type and mode.
    pub mode: StatMode,
    /// Number of hard links.
    pub nlink: u32,
    /// Unused.
    pub pad: [u64; 7],
}

impl Stat {
    /// The record of no file: no device, no inode, no type, no link, and
    /// zeros in the unused words.
    pub fn new() -> (r: Self)
        ensures
            r.dev == 0,
            r.ino == 0,
            r.mode.bits == STAT_NULL,
            r.nlink == 0,
            forall|i: int| 0 <= i < 7 ==> #[trigger] r.pad@[i] == 0,
    {
        Stat { dev: 0, ino: 0, mode: StatMode { bits: STAT_NULL }, nlink: 0, pad: [0;7] }
    }
}

/// Open for reading only.
pub const O_RDONLY: u32 = 0;

/// Open for writing only.
pub const O_WRONLY: u32 = 1;

/// Open for reading and writing.
pub const O_RDWR: u32 = 2;

/// Create the file if it does not exist.
pub const O_CREATE: u32 = 512;

/// Empty the file on opening.
pub const O_TRUNC: u32 = 1024;

/// How a file is to be opened.
#[derive(Copy, Clone, Debug, PartialEq, Eq, Structural)]
pub struct OpenFlags {
    pub bits: u32,
}

impl OpenFlags {
    /// The flags with the given bits; `None` when a bit is set that is no
    /// flag.
    pub fn from_bits(bits: u32) -> (r: Option<Self>)
        ensures
            r == (if bits & !0x603u32 == 0 {
                Some(OpenFlags { bits })
            } else {
                None
            }),
    {
        if bits & !0x603u32 == 0 {
            Some(OpenFlags { bits })
        } else {
            None
        }
    }

    /// Whether a file opened with these flags can be read and written:
    /// read only without a flag, write only with the write-only flag, both
    /// otherwise.
    pub fn read_write(&self) -> (r: (bool, bool))
        ensures
            r == Self::spec_read_write(self.bits),
    {
        if self.bits == 0 {
            (true, false)
        } else if self.bits & O_WRONLY != 0 {
            (false, true)
        } else {
            (true, true)
        }
    }

    /// See [`OpenFlags::read_write`].
    pub open spec fn spec_read_write(bits: u32) -> (bool, bool) {
        if bits == 0 {
            (true, false)
        } else if bits & O_WRONLY != 0 {
            (false, true)
        } else {
            (true, true)
        }
    }
}

/// The control block `p` with the table of open files replaced by `t`.
pub open spec fn files_changed(p0: ProcessControlBlock, p1: ProcessControlBlock) -> bool {
    p1 == (ProcessControlBlock {
        inner: ProcessControlBlockInner { fd_table: p1.inner.fd_table, ..p0.inner },
        ..p0
    })
}

/// Whether the kernel `k1` is the kernel `k0` but for the table of open
/// files of the process that runs, which is `t` afterwards.
pub open spec fn fd_table_set(k0: Kernel, k1: Kernel, t: Seq<Option<FileDescriptor>>) -> bool {
    let pid = k0.current->0 as int;
    &&& k1 == (Kernel { processes: k1.processes, ..k0 })
    &&& k1.processes@.len() == k0.processes@.len()
    &&& forall|q: int|
        0 <= q < k0.processes@.len() && q != pid ==> (#[trigger] k1.processes@[q])
            == k0.processes@[q]
    &&& k1.has_process(pid)
    &&& files_changed(k0.pcb(pid), k1.pcb(pid))
    &&& k1.pcb(pid).inner.fd_table@ == t
}

/// A change of the table of open files of the process that runs keeps the
/// invariant.
pub proof fn lemma_fd_table_set(k0: Kernel, k1: Kernel, t: Seq<Option<FileDescriptor>>)
    requires
        k0.wf(),
        k0.current is Some,
        fd_table_set(k0, k1, t),
    ensures
        k1.wf(),
{
    k0.lemma_wf_kernel();
    assert(k0.same_frame(&k1)) by {
        assert forall|q: int| 0 <= q < k0.processes@.len() implies ((
        #[trigger] k1.processes@[q]) is Some <==> k0.processes@[q] is Some) && (
        k0.processes@[q] is Some ==> Kernel::same_core(
            k1.processes@[q]->0,
            k0.processes@[q]->0,
        )) by {
            if q != k0.current->0 {
                assert(k1.processes@[q] == k0.processes@[q]);
            }
        }
    }
    k0.lemma_same_frame(&k1);
}

/// The lowest free slot of the table `t`; its length when none is free.
pub open spec fn lowest_free(t: Seq<Option<FileDescriptor>>, fd: int) -> bool {
    &&& 0 <= fd <= t.len()
    &&& fd < t.len() ==> t[fd] is None
    &&& forall|i: int| 0 <= i < fd ==> (#[trigger] t[i]) is Some
}

/// The table `t` with the descriptor `d` in the slot `fd`, which is a slot
/// of the table or the one after its end.
pub open spec fn with_fd(t: Seq<Option<FileDescriptor>>, fd: int, d: FileDescriptor) -> Seq<
    Option<FileDescriptor>,
> {
    if fd < t.len() {
        t.update(fd, Some(d))
    } else {
        t.push(Some(d))
    }
}

/// Puts the descriptor `d` into the lowest free slot of the table of open
/// files of the process that runs.  Returns the number of the slot.
pub fn install_fd(kernel: &mut Kernel, d: FileDescriptor) -> (r: usize)
    requires
        old(kernel).wf(),
        old(kernel).current is Some,
    ensures
        final(kernel).wf(),
        lowest_free(old(kernel).pcb(old(kernel).current->0 as int).inner.fd_table@, r as int),
        fd_table_set(
            *old(kernel),
            *final(kernel),
            with_fd(old(kernel).pcb(old(kernel).current->0 as int).inner.fd_table@, r as int, d),
        ),
{
    let ghost k0 = *kernel;
    proof {
        k0.lemma_wf_kernel();
    }
    let pid: usize = kernel.current.unwrap();
    let mut fd: usize = 0;
    match &mut kernel.processes[pid] {
        Some(p) => {
            fd = p.inner.alloc_fd();
            p.inner.fd_table[fd] = Some(d);
        },
        None => {},
    }
    proof {
        let t0 = k0.pcb(pid as int).inner.fd_table@;
        assert(kernel.pcb(pid as int).inner.fd_table@ =~= with_fd(t0, fd as int, d));
        lemma_fd_table_set(k0, *kernel, with_fd(t0, fd as int, d));
    }
    fd
}

/// The open file in the slot `fd` of the table of the process that runs.
pub fn current_fd(kernel: &Kernel, fd: usize) -> (r: Option<FileDescriptor>)
    requires
        kernel.wf(),
        kernel.current is Some,
    ensures
        r == (if fd < kernel.pcb(kernel.current->0 as int).inner.fd_table@.len() {
            kernel.pcb(kernel.current->0 as int).inner.fd_table@[fd as int]
        } else {
            None
        }),
{
    proof {
        kernel.lemma_wf_kernel();
    }
    let pid: usize = kernel.current.unwrap();
    match &kernel.processes[pid] {
        Some(p) => if fd < p.inner.fd_table.len() {
            p.inner.fd_table[fd]
        } else {
            None
        },
        None => None,
    }
}

/// The token of the address space of the process that runs, which names
/// the root of its page table.
pub fn current_token(kernel: &Kernel) -> (r: u64)
    requires
        kernel.wf(),
        kernel.current is Some,
    ensures
        crate::mm::user::token_root(r) == kernel.space(kernel.current->0 as int).page_table.root(),
{
    proof {
        kernel.lemma_wf_kernel();
        kernel.lemma_wf_process(kernel.current->0 as int);
        crate::mm::user::lemma_token_root(kernel.space(kernel.current->0 as int), kernel.mem@);
    }
    let pid: usize = kernel.current.unwrap();
    match &kernel.processes[pid] {
        Some(p) => p.inner.memory_set.token(),
        None => 0,
    }
}

/// What the system call that opens a file makes of the kernel `k0`, with
/// the result `r`: see [`sys_open`].
pub open spec fn file_opened(k0: Kernel, k1: Kernel, path: u64, flags: u32, opened: Option<usize>, r: isize) -> bool {
    &&& r < 0 ==> r == -1 && k1 == k0
    &&& r >= 0 ==> {
                &&& opened is Some
                &&& flags & !0x603u32 == 0
                &&& lowest_free(k0.pcb(k0.current->0 as int).inner.fd_table@, r as int)
                &&& fd_table_set(
                    k0,
                    k1,
                    with_fd(
                        k0.pcb(k0.current->0 as int).inner.fd_table@,
                        r as int,
                        FileDescriptor {
                            file: opened->0,
                            readable: OpenFlags::spec_read_write(flags).0,
                            writable: OpenFlags::spec_read_write(flags).1,
                        },
                    ),
                )
            }
    &&& r >= 0 <==> opened is Some && flags & !0x603u32 == 0 && path_readable(
                k0,
                path,
            ) && k0.pcb(k0.current->0 as int).inner.fd_table@.len() < isize::MAX
}

/// Opens a file for the process that runs.  `path` is the user address of
/// the name of the file, `flags` says how it is to be opened, and `opened`
/// is the handle that the file system gave for that name and those flags,
/// if it gave one.
///
/// Returns -1, with nothing changed, when the name cannot be read, when a
/// bit of `flags` is no flag, and when the file system gave no handle.
/// Else the file takes the lowest free slot of the table of open files, to
/// be read and written as the flags say, and the number of the slot is
/// returned.
pub fn sys_open(kernel: &mut Kernel, path: u64, flags: u32, opened: Option<usize>) -> (r: isize)
    requires
        old(kernel).wf(),
        old(kernel).current is Some,
    ensures
        final(kernel).wf(),
        file_opened(*old(kernel), *final(kernel), path, flags, opened, r),
{
    if read_path(kernel, path).is_none() {
        return -1;
    }
    let of = match OpenFlags::from_bits(flags) {
        Some(f) => f,
        None => {
            return -1;
        },
    };
    let file: usize = match opened {
        Some(f) => f,
        None => {
            return -1;
        },
    };
    proof {
        kernel.lemma_wf_kernel();
    }
    let len: usize = match &kernel.processes[kernel.current.unwrap()] {
        Some(p) => p.inner.fd_table.len(),
        None => 0,
    };
    if len >= isize::MAX as usize {
        return -1;
    }
    let (readable, writable) = of.read_write();
    let fd: usize = install_fd(kernel, FileDescriptor { file, readable, writable });
    fd as isize
}

/// Reads the string at the user address `path` of the process that runs.
/// `None` exactly when no string can be read there.
pub fn read_path(kernel: &Kernel, path: u64) -> (r: Option<Vec<u8>>)
    requires
        kernel.wf(),
        kernel.current is Some,
    ensures
        r is Some <==> path_readable(*kernel, path),
        r matches Some(s) ==> {
            &&& forall|i: int|
                0 <= i < s@.len() ==> #[trigger] s@[i] == user_byte(
                    kernel.mem@,
                    kernel.space(kernel.current->0 as int).page_table.root(),
                    path + i,
                ) && s@[i] != 0
            &&& user_byte(
                kernel.mem@,
                kernel.space(kernel.current->0 as int).page_table.root(),
                path + s@.len(),
            ) == 0
        },
{
    let token: u64 = current_token(kernel);
    let name = translated_str(&kernel.mem, token, path);
    proof {
        lemma_path_readable(*kernel, path, name);
    }
    name
}

/// Whether a string can be read at the user address `path` of the process
/// that runs: a zero byte lies there or behind, and every byte up to it is
/// readable.
#[verifier::opaque]
pub open spec fn path_readable(k: Kernel, path: u64) -> bool {
    let root = k.space(k.current->0 as int).page_table.root();
    exists|n: int|
        0 <= n && #[trigger] user_range_ok(
            k.mem@,
            root,
            path as int,
            n + 1,
            PTE_R,
        ) && user_byte(k.mem@, root, path + n) == 0 && forall|i: int|
            0 <= i < n ==> #[trigger] user_byte(k.mem@, root, path + i) != 0
}

/// A string is read exactly when it is readable.
pub proof fn lemma_path_readable(k: Kernel, path: u64, name: Option<Vec<u8>>)
    requires
        name matches Some(s) ==> {
            &&& user_range_ok(
                k.mem@,
                k.space(k.current->0 as int).page_table.root(),
                path as int,
                s@.len() as int + 1,
                PTE_R,
            )
            &&& forall|i: int|
                0 <= i < s@.len() ==> #[trigger] s@[i] == user_byte(
                    k.mem@,
                    k.space(k.current->0 as int).page_table.root(),
                    path + i,
                ) && s@[i] != 0
            &&& user_byte(
                k.mem@,
                k.space(k.current->0 as int).page_table.root(),
                path + s@.len(),
            ) == 0
        },
        name is None ==> exists|n: int|
            {
                &&& 0 <= n
                &&& user_range_ok(
                    k.mem@,
                    k.space(k.current->0 as int).page_table.root(),
                    path as int,
                    n,
                    PTE_R,
                )
                &&& forall|i: int|
                    0 <= i < n ==> #[trigger] user_byte(
                        k.mem@,
                        k.space(k.current->0 as int).page_table.root(),
                        path + i,
                    ) != 0
                &&& crate::mm::user::user_slot(
                    k.mem@,
                    k.space(k.current->0 as int).page_table.root(),
                    path + n,
                    PTE_R,
                ) is None
            },
    ensures
        name is Some <==> path_readable(k, path),
{
    reveal(path_readable);
    let root = k.space(k.current->0 as int).page_table.root();
    if name is Some {
        let s = name->0;
        let n = s@.len() as int;
        assert(user_range_ok(k.mem@, root, path as int, n + 1, PTE_R));
        assert forall|i: int| 0 <= i < n implies #[trigger] user_byte(k.mem@, root, path + i)
            != 0 by {
            assert(s@[i] == user_byte(k.mem@, root, path + i));
        }
    } else {
        let n0 = choose|n: int|
            {
                &&& 0 <= n
                &&& user_range_ok(k.mem@, root, path as int, n, PTE_R)
                &&& forall|i: int| 0 <= i < n ==> #[trigger] user_byte(k.mem@, root, path + i) != 0
                &&& crate::mm::user::user_slot(
                    k.mem@,
                    root,
                    path + n,
                    PTE_R,
                ) is None
            };
        if path_readable(k, path) {
            let n = choose|n: int|
                0 <= n && #[trigger] user_range_ok(
                    k.mem@,
                    root,
                    path as int,
                    n + 1,
                    PTE_R,
                ) && user_byte(k.mem@, root, path + n) == 0 && forall|i: int|
                    0 <= i < n ==> #[trigger] user_byte(k.mem@, root, path + i) != 0;
            if n < n0 {
                assert(user_byte(k.mem@, root, path + n) != 0);
            } else {
                assert(crate::mm::user::user_slot(k.mem@, root, path + n0, PTE_R) is Some);
            }
        }
    }
}

/// What the system call that closes a file makes of the kernel `k0`, with
/// the result `r`: see [`sys_close`].
pub open spec fn file_closed(k0: Kernel, k1: Kernel, fd: usize, r: isize) -> bool {
    &&& r == 0 <==> fd < k0.pcb(k0.current->0 as int).inner.fd_table@.len()
                && k0.pcb(k0.current->0 as int).inner.fd_table@[fd as int] is Some
    &&& r != 0 ==> r == -1 && k1 == k0
    &&& r == 0 ==> fd_table_set(
                k0,
                k1,
                k0.pcb(k0.current->0 as int).inner.fd_table@.update(fd as int, None),
            )
}

/// Closes the open file in the slot `fd` of the process that runs.
/// Returns 0, or -1 with nothing changed when the slot holds no open file.
pub fn sys_close(kernel: &mut Kernel, fd: usize) -> (r: isize)
    requires
        old(kernel).wf(),
        old(kernel).current is Some,
    ensures
        final(kernel).wf(),
        file_closed(*old(kernel), *final(kernel), fd, r),
{
    let ghost k0 = *kernel;
    if current_fd(kernel, fd).is_none() {
        return -1;
    }
    proof {
        k0.lemma_wf_kernel();
    }
    let pid: usize = kernel.current.unwrap();
    match &mut kernel.processes[pid] {
        Some(p) => {
            p.inner.fd_table[fd] = None;
        },
        None => {},
    }
    proof {
        let t = k0.pcb(pid as int).inner.fd_table@.update(fd as int, None);
        assert(kernel.pcb(pid as int).inner.fd_table@ =~= t);
        lemma_fd_table_set(k0, *kernel, t);
    }
    0
}

/// What the system call that duplicates an open file makes of the kernel
/// `k0`, with the result `r`: see [`sys_dup`].
pub open spec fn file_duplicated(k0: Kernel, k1: Kernel, fd: usize, r: isize) -> bool {
    &&& r >= 0 <==> fd < k0.pcb(k0.current->0 as int).inner.fd_table@.len()
                && k0.pcb(k0.current->0 as int).inner.fd_table@[fd as int] is Some
                && k0.pcb(k0.current->0 as int).inner.fd_table@.len() < isize::MAX
    &&& r < 0 ==> r == -1 && k1 == k0
    &&& r >= 0 ==> lowest_free(
                k0.pcb(k0.current->0 as int).inner.fd_table@,
                r as int,
            ) && fd_table_set(
                k0,
                k1,
                with_fd(
                    k0.pcb(k0.current->0 as int).inner.fd_table@,
                    r as int,
                    k0.pcb(k0.current->0 as int).inner.fd_table@[fd as int]->0,
                ),
            )
}

/// Gives the open file in the slot `fd` of the process that runs a second
/// slot, the lowest that is free.  Returns the number of that slot, or -1
/// with nothing changed when the slot `fd` holds no open file.
pub fn sys_dup(kernel: &mut Kernel, fd: usize) -> (r: isize)
    requires
        old(kernel).wf(),
        old(kernel).current is Some,
    ensures
        final(kernel).wf(),
        file_duplicated(*old(kernel), *final(kernel), fd, r),
{
    let d: FileDescriptor = match current_fd(kernel, fd) {
        Some(d) => d,
        None => {
            return -1;
        },
    };
    proof {
        kernel.lemma_wf_kernel();
    }
    let len: usize = match &kernel.processes[kernel.current.unwrap()] {
        Some(p) => p.inner.fd_table.len(),
        None => 0,
    };
    if len >= isize::MAX as usize {
        return -1;
    }
    let new_fd: usize = install_fd(kernel, d);
    new_fd as isize
}

/// Whether the process that runs can write the `len` bytes at the user
/// address `buf` to the open file in its slot `fd`: the slot holds an open
/// file, and the bytes can be read.  Whether the file takes them is for the
/// file to say.
pub open spec fn write_ok(k: Kernel, fd: usize, buf: u64, len: usize) -> bool {
    let p = k.pcb(k.current->0 as int).inner;
    &&& fd < p.fd_table@.len()
    &&& p.fd_table@[fd as int] is Some
    &&& len <= isize::MAX
    &&& user_range_ok(
        k.mem@,
        k.space(k.current->0 as int).page_table.root(),
        buf as int,
        len as int,
        PTE_R,
    )
}

/// What the system call that writes to a file makes of the kernel `k0`,
/// with the result `r`: see [`sys_write`].
pub open spec fn file_written(k0: Kernel, k1: Kernel, fd: usize, buf: u64, len: usize, r: isize) -> bool {
    &&& r >= 0 <==> write_ok(k0, fd, buf, len)
    &&& r < 0 ==> r == -1 && k1 == k0
    &&& r >= 0 ==> {
                &&& r == len
                &&& k1 == (Kernel { output: k1.output, ..k0 })
                &&& k1.output@.len() == k0.output@.len() + 1
                &&& forall|i: int|
                    0 <= i < k0.output@.len() ==> (#[trigger] k1.output@[i])
                        == k0.output@[i]
                &&& k1.output@.last().file == k0.pcb(
                    k0.current->0 as int,
                ).inner.fd_table@[fd as int]->0.file
                &&& k1.output@.last().data@.len() == len
                &&& forall|i: int|
                    0 <= i < len ==> (#[trigger] k1.output@.last().data@[i]) == user_byte(
                        k0.mem@,
                        k0.space(k0.current->0 as int).page_table.root(),
                        buf + i,
                    )
            }
}

/// The process that runs writes the `len` bytes at the user address `buf`
/// to the open file in its slot `fd`.  The bytes are handed over for the
/// file system to write, after all that were handed over before.  Returns
/// `len`, or -1 with nothing changed when the slot holds no open file, and
/// when the bytes cannot be read.
pub fn sys_write(kernel: &mut Kernel, fd: usize, buf: u64, len: usize) -> (r: isize)
    requires
        old(kernel).wf(),
        old(kernel).current is Some,
    ensures
        final(kernel).wf(),
        file_written(*old(kernel), *final(kernel), fd, buf, len, r),
{
    let ghost k0 = *kernel;
    let d: FileDescriptor = match current_fd(kernel, fd) {
        Some(d) => d,
        None => {
            return -1;
        },
    };
    if len > isize::MAX as usize {
        return -1;
    }
    let token: u64 = current_token(kernel);
    let data: Vec<u8> = match translated_byte_buffer(&kernel.mem, token, buf, len) {
        Some(v) => v,
        None => {
            return -1;
        },
    };
    kernel.output.push(FileWrite { file: d.file, data });
    proof {
        k0.lemma_wf_kernel();
        assert(k0.same_frame(kernel)) by {
            assert forall|q: int| 0 <= q < k0.processes@.len() implies ((
            #[trigger] kernel.processes@[q]) is Some <==> k0.processes@[q] is Some) && (
            k0.processes@[q] is Some ==> Kernel::same_core(
                kernel.processes@[q]->0,
                k0.processes@[q]->0,
            )) by {}
        }
        k0.lemma_same_frame(kernel);
    }
    len as isize
}

/// Whether the process that runs can read from the open file in its slot
/// `fd` into the `len` bytes at the user address `buf`: the slot holds an
/// open file that can be read, and every one of the bytes can be written.
pub open spec fn read_ok(k: Kernel, fd: usize, buf: u64, len: usize) -> bool {
    let p = k.pcb(k.current->0 as int).inner;
    &&& fd < p.fd_table@.len()
    &&& p.fd_table@[fd as int] matches Some(d) && d.readable
    &&& len <= isize::MAX
    &&& user_range_ok(
        k.mem@,
        k.space(k.current->0 as int).page_table.root(),
        buf as int,
        len as int,
        PTE_W,
    )
}

/// The handle of the file from which the process that runs is about to
/// read into the `len` bytes at the user address `buf`, through its slot
/// `fd`; `None` exactly when [`read_ok`] does not hold, so that the read
/// will be refused whatever the file gives.
pub fn can_read(kernel: &Kernel, fd: usize, buf: u64, len: usize) -> (r: Option<usize>)
    requires
        kernel.wf(),
        kernel.current is Some,
    ensures
        r is Some <==> read_ok(*kernel, fd, buf, len),
        r matches Some(file) ==> file == kernel.pcb(
            kernel.current->0 as int,
        ).inner.fd_table@[fd as int]->0.file,
{
    let d: FileDescriptor = match current_fd(kernel, fd) {
        Some(d) => d,
        None => {
            return None;
        },
    };
    if !d.readable || len > isize::MAX as usize {
        return None;
    }
    let token: u64 = current_token(kernel);
    if !user_writable(&kernel.mem, token, buf, len) {
        return None;
    }
    Some(d.file)
}

/// The number of bytes that a read of at most `len` bytes takes of `data`.
pub open spec fn read_count(len: usize, data: Seq<u8>) -> int {
    if data.len() < len {
        data.len() as int
    } else {
        len as int
    }
}

/// What the system call that reads from a file makes of the kernel `k0`
/// when the file gave the bytes `data`, with the result `r`: see
/// [`sys_read`].
pub open spec fn file_read(k0: Kernel, k1: Kernel, fd: usize, buf: u64, len: usize, data: Seq<u8>, r: isize) -> bool {
    &&& r >= 0 <==> read_ok(k0, fd, buf, len)
    &&& r < 0 ==> r == -1 && k1 == k0
    &&& r >= 0 ==> {
                &&& r == read_count(len, data)
                &&& k1 == (Kernel { mem: k1.mem, ..k0 })
                &&& user_written(
                    k0.mem@,
                    k1.mem@,
                    k0.space(k0.current->0 as int).page_table.root(),
                    buf as int,
                    data.subrange(0, read_count(len, data)),
                )
            }
}

/// The process that runs reads at most `len` bytes from the open file in
/// its slot `fd` into its memory at the user address `buf`.  `data` holds
/// the bytes that the file system read from that file for this call.  As
/// many bytes of `data` as fit in `len` are stored at `buf`, and their
/// number is returned; or -1, with nothing changed, when the slot holds no
/// open file that can be read, and when one of the `len` bytes at `buf`
/// cannot be written.
pub fn sys_read(kernel: &mut Kernel, fd: usize, buf: u64, len: usize, data: &[u8]) -> (r: isize)
    requires
        old(kernel).wf(),
        old(kernel).current is Some,
    ensures
        final(kernel).wf(),
        file_read(*old(kernel), *final(kernel), fd, buf, len, data@, r),
{
    let ghost k0 = *kernel;
    let d: FileDescriptor = match current_fd(kernel, fd) {
        Some(d) => d,
        None => {
            return -1;
        },
    };
    let n: usize = if data.len() < len {
        data.len()
    } else {
        len
    };
    if !d.readable || len > isize::MAX as usize {
        return -1;
    }
    let token: u64 = current_token(kernel);
    if !user_writable(&kernel.mem, token, buf, len) {
        return -1;
    }
    proof {
        k0.lemma_wf_kernel();
        assert(user_range_ok(
            k0.mem@,
            k0.space(k0.current->0 as int).page_table.root(),
            buf as int,
            n as int,
            PTE_W,
        ));
    }
    let pid: usize = kernel.current.unwrap();
    let part = vstd::slice::slice_subrange(data, 0, n);
    let _ok: bool = kernel.write_user(pid, buf, part);
    n as isize
}

/// Links are not kept by this kernel.  Returns 0.
pub fn sys_linkat(old_dirfd: usize, old_path: u64, new_dirfd: usize, new_path: u64, flags: usize) -> (r:
    isize)
    ensures
        r == 0,
{
    0
}

/// Links are not kept by this kernel.  Returns 0.
pub fn sys_unlinkat(dirfd: usize, path: u64, flags: usize) -> (r: isize)
    ensures
        r == 0,
{
    0
}

/// The record of a file is not filled in by this kernel.  Returns 0.
pub fn sys_fstat(fd: usize, st: u64) -> (r: isize)
    ensures
        r == 0,
{
    0
}

/// Mail between processes is not kept by this kernel.  Returns 0.
pub fn sys_mail_read(buffer: u64, len: usize) -> (r: isize)
    ensures
        r == 0,
{
    0
}

/// Mail between processes is not kept by this kernel.  Returns 0.
pub fn sys_mail_write(pid: usize, buffer: u64, len: usize) -> (r: isize)
    ensures
        r == 0,
{
    0
}

/// Processes are created by fork and exec.  Returns 0.
pub fn sys_spawn(path: u64) -> (r: isize)
    ensures
        r == 0,
{
    0
}

} // verus!
