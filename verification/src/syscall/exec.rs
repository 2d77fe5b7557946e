//! The system call that replaces the program of a process.

use vstd::prelude::*;
use crate::mm::elf::le_u64;
use crate::mm::page_table::PTE_R;
use crate::config::VA_LIMIT;
use crate::mm::user::{translated_byte_buffer, user_byte, user_range_ok};
use crate::syscall::fs::{current_token, path_readable, read_path};
use crate::task::exec::{arg_seqs, exec_steps, ExecError};
use crate::task::kernel::Kernel;

verus! {

/// The pointer at index `i` of the vector at the user address `args` of the
/// process that runs, if its eight bytes can be read.
pub open spec fn ptr_at(k: Kernel, args: u64, i: int) -> Option<u64> {
    let root = k.space(k.current->0 as int).page_table.root();
    if user_range_ok(k.mem@, root, args + 8 * i, 8, PTE_R) {
        Some(le_u64(Seq::new(8, |j: int| user_byte(k.mem@, root, args + 8 * i + j)), 0) as u64)
    } else {
        None
    }
}

/// Whether `s` is the string at the user address `p` of the process that
/// runs: its bytes, none of them zero, lie there before a zero byte.
pub open spec fn string_at(k: Kernel, p: u64, s: Seq<u8>) -> bool {
    let root = k.space(k.current->0 as int).page_table.root();
    &&& user_range_ok(k.mem@, root, p as int, s.len() as int + 1, PTE_R)
    &&& forall|i: int| 0 <= i < s.len() ==> #[trigger] s[i] == user_byte(k.mem@, root, p + i) && s[i] != 0
    &&& user_byte(k.mem@, root, p + s.len()) == 0
}

/// Whether `v` is the argument vector at the user address `args` of the
/// process that runs: the pointers before the first null pointer point to
/// the strings of `v`, in their order.
pub open spec fn args_at(k: Kernel, args: u64, v: Seq<Seq<u8>>) -> bool {
    &&& forall|i: int|
        0 <= i < v.len() ==> (#[trigger] ptr_at(k, args, i)) is Some && ptr_at(k, args, i)->0
            != 0 && string_at(k, ptr_at(k, args, i)->0, v[i])
    &&& ptr_at(k, args, v.len() as int) == Some(0u64)
}

/// A string that lies at an address can be read there.
pub proof fn lemma_string_readable(k: Kernel, p: u64, s: Seq<u8>)
    requires
        string_at(k, p, s),
    ensures
        path_readable(k, p),
{
    reveal(path_readable);
    let root = k.space(k.current->0 as int).page_table.root();
    let n = s.len() as int;
    assert(user_range_ok(k.mem@, root, p as int, n + 1, PTE_R));
    assert forall|i: int| 0 <= i < n implies #[trigger] user_byte(k.mem@, root, p + i) != 0 by {
        assert(s[i] == user_byte(k.mem@, root, p + i));
    }
}

/// Reads the pointer at index `i` of the vector at the user address `args`.
fn read_ptr(kernel: &Kernel, args: u64, i: u64) -> (r: Option<u64>)
    requires
        kernel.wf(),
        kernel.current is Some,
        i <= VA_LIMIT,
    ensures
        r == ptr_at(*kernel, args, i as int),
{
    let token: u64 = current_token(kernel);
    if args > u64::MAX - 8 * i {
        proof {
            let root = kernel.space(kernel.current->0 as int).page_table.root();
            assert(crate::mm::user::user_slot(kernel.mem@, root, args + 8 * i + 0, PTE_R) is None);
        }
        return None;
    }
    match translated_byte_buffer(&kernel.mem, token, args + 8 * i, 8) {
        Some(b) => {
            proof {
                let root = kernel.space(kernel.current->0 as int).page_table.root();
                assert(b@ =~= Seq::new(
                    8,
                    |j: int| user_byte(kernel.mem@, root, args + 8 * i + j),
                ));
            }
            Some(crate::mm::elf::read_u64(b.as_slice(), 0))
        },
        None => None,
    }
}

/// Reads the argument vector at the user address `args` of the process
/// that runs.  `None` exactly when no argument vector lies there.
pub fn read_args(kernel: &Kernel, args: u64) -> (r: Option<Vec<Vec<u8>>>)
    requires
        kernel.wf(),
        kernel.current is Some,
    ensures
        r matches Some(v) ==> args_at(*kernel, args, arg_seqs(&v)),
        r is None ==> forall|v: Seq<Seq<u8>>| !args_at(*kernel, args, v),
{
    let mut out: Vec<Vec<u8>> = Vec::new();
    let mut i: u64 = 0;
    while i < VA_LIMIT
        invariant
            i <= VA_LIMIT,
            kernel.wf(),
            kernel.current is Some,
            out@.len() == i,
            forall|j: int|
                0 <= j < i ==> (#[trigger] ptr_at(*kernel, args, j)) is Some && ptr_at(
                    *kernel,
                    args,
                    j,
                )->0 != 0 && string_at(*kernel, ptr_at(*kernel, args, j)->0, out@[j]@),
        decreases VA_LIMIT - i,
    {
        let p: u64 = match read_ptr(kernel, args, i) {
            Some(p) => p,
            None => {
                proof {
                    lemma_no_args(*kernel, args, i as int, arg_seqs(&out));
                }
                return None;
            },
        };
        if p == 0 {
            proof {
                assert forall|j: int| 0 <= j < arg_seqs(&out).len() implies (#[trigger] ptr_at(
                    *kernel,
                    args,
                    j,
                )) is Some && ptr_at(*kernel, args, j)->0 != 0 && string_at(
                    *kernel,
                    ptr_at(*kernel, args, j)->0,
                    arg_seqs(&out)[j],
                ) by {
                    assert(arg_seqs(&out)[j] == out@[j]@);
                }
            }
            return Some(out);
        }
        let s: Vec<u8> = match read_path(kernel, p) {
            Some(s) => s,
            None => {
                proof {
                    lemma_no_args(*kernel, args, i as int, arg_seqs(&out));
                }
                return None;
            },
        };
        proof {
            reveal(path_readable);
            let root = kernel.space(kernel.current->0 as int).page_table.root();
            assert(string_at(*kernel, p, s@)) by {
                lemma_string_at(*kernel, p, s@);
            }
        }
        out.push(s);
        i = i + 1;
    }
    proof {
        // the vector has left the address space
        let root = kernel.space(kernel.current->0 as int).page_table.root();
        assert(crate::mm::user::user_slot(kernel.mem@, root, args + 8 * i + 0, PTE_R) is None);
        assert(ptr_at(*kernel, args, i as int) is None);
        lemma_no_args(*kernel, args, i as int, arg_seqs(&out));
    }
    None
}

/// A string that was read from an address lies there.
pub proof fn lemma_string_at(k: Kernel, p: u64, s: Seq<u8>)
    requires
        path_readable(k, p),
        forall|i: int|
            0 <= i < s.len() ==> #[trigger] s[i] == user_byte(
                k.mem@,
                k.space(k.current->0 as int).page_table.root(),
                p + i,
            ) && s[i] != 0,
        user_byte(k.mem@, k.space(k.current->0 as int).page_table.root(), p + s.len()) == 0,
    ensures
        string_at(k, p, s),
{
    reveal(path_readable);
    let root = k.space(k.current->0 as int).page_table.root();
    let n = choose|n: int|
        0 <= n && #[trigger] user_range_ok(k.mem@, root, p as int, n + 1, PTE_R)
            && user_byte(k.mem@, root, p + n) == 0 && forall|i: int|
            0 <= i < n ==> #[trigger] user_byte(k.mem@, root, p + i) != 0;
    if n < s.len() {
        assert(s[n] == user_byte(k.mem@, root, p + n));
    } else if n > s.len() {
        assert(user_byte(k.mem@, root, p + s.len()) != 0);
    }
}

/// When the first `i` pointers of a vector are read and not null, and the
/// pointer at index `i` cannot be read, or is not null while no string can
/// be read where it points, then no argument vector lies at the address.
pub proof fn lemma_no_args(k: Kernel, args: u64, i: int, read: Seq<Seq<u8>>)
    requires
        0 <= i,
        forall|j: int|
            0 <= j < i ==> (#[trigger] ptr_at(k, args, j)) is Some && ptr_at(k, args, j)->0 != 0,
        ptr_at(k, args, i) is None || (ptr_at(k, args, i)->0 != 0
            && !path_readable(k, ptr_at(k, args, i)->0)),
    ensures
        forall|v: Seq<Seq<u8>>| !args_at(k, args, v),
{
    assert forall|v: Seq<Seq<u8>>| !args_at(k, args, v) by {
        if args_at(k, args, v) {
            if v.len() < i {
                assert(ptr_at(k, args, v.len() as int) is Some && ptr_at(
                    k,
                    args,
                    v.len() as int,
                )->0 != 0);
            } else if v.len() > i {
                assert(ptr_at(k, args, i) is Some && string_at(k, ptr_at(k, args, i)->0, v[i]));
                lemma_string_readable(k, ptr_at(k, args, i)->0, v[i]);
            }
        }
    }
}

/// The bytes of the program file `image`, if there is one.
pub open spec fn image_bytes(image: Option<&[u8]>) -> Option<Seq<u8>> {
    match image {
        Some(v) => Some(v@),
        None => None,
    }
}

/// What the system call that replaces the program makes of the kernel
/// `k0` when the program file held the bytes `image`, with the result `r`:
/// see [`sys_exec`].
pub open spec fn program_replaced(k0: Kernel, k1: Kernel, path: u64, args: u64, image: Option<Seq<u8>>, r: isize) -> bool {
    &&& r < 0 ==> r == -1 && k1 == k0
    &&& r >= 0 <==> path_readable(k0, path) && image is Some && exists|
                v: Seq<Seq<u8>>,
            | #[trigger]
                args_at(k0, args, v) && k0.exec_error(image->0, v) is None
    &&& r >= 0 ==> exists|v: Seq<Seq<u8>>, km: Kernel, kn: Kernel|
                {
                    &&& #[trigger] args_at(k0, args, v)
                    &&& r == v.len()
                    &&& #[trigger] exec_steps(
                        k0,
                        km,
                        kn,
                        k1,
                        k0.current->0 as int,
                        image->0,
                        v,
                    )
                }
}

/// The process that runs replaces its program.  `path` is the user address
/// of the name of the program file, `args` the user address of the vector
/// of pointers to the arguments, ended by a null pointer, and `image` holds
/// the bytes of the program file, if the file system could open it.
///
/// Returns -1, with nothing changed, when the name or the arguments cannot
/// be read, when there is no image, and when the program cannot be started
/// with those arguments.  Else the program is replaced and the number of
/// arguments is returned.
pub fn sys_exec(kernel: &mut Kernel, path: u64, args: u64, image: Option<&[u8]>) -> (r: isize)
    requires
        old(kernel).wf(),
        old(kernel).current is Some,
    ensures
        final(kernel).wf(),
        program_replaced(*old(kernel), *final(kernel), path, args, image_bytes(image), r),
{
    let ghost k0 = *kernel;
    if read_path(kernel, path).is_none() {
        return -1;
    }
    let argv: Vec<Vec<u8>> = match read_args(kernel, args) {
        Some(v) => v,
        None => {
            return -1;
        },
    };
    let data: &[u8] = match image {
        Some(d) => d,
        None => {
            return -1;
        },
    };
    let r = start_with(kernel, &argv, data);
    proof {
        lemma_args_unique(k0, args);
        assert(args_at(k0, args, arg_seqs(&argv)));
    }
    r
}

/// Replaces the program of the process that runs by the program in the
/// image `data`, started with the arguments `argv`.  Returns the number of
/// the arguments, or -1 with nothing changed when the program cannot be
/// started with them.
fn start_with(kernel: &mut Kernel, argv: &Vec<Vec<u8>>, data: &[u8]) -> (r: isize)
    requires
        old(kernel).wf(),
        old(kernel).current is Some,
    ensures
        final(kernel).wf(),
        r >= 0 <==> old(kernel).exec_error(data@, arg_seqs(argv)) is None,
        r < 0 ==> r == -1 && *final(kernel) == *old(kernel),
        r >= 0 ==> r == argv@.len() && exists|km: Kernel, kn: Kernel| #[trigger]
            exec_steps(
                *old(kernel),
                km,
                kn,
                *final(kernel),
                old(kernel).current->0 as int,
                data@,
                arg_seqs(argv),
            ),
{
    proof {
        kernel.lemma_wf_kernel();
    }
    let pid: usize = kernel.current.unwrap();
    match kernel.exec(pid, data, argv) {
        Ok(()) => {
            proof {
                crate::task::exec::lemma_strings_size_mono(
                    arg_seqs(argv),
                    0,
                    argv@.len() as int,
                );
                assert(crate::task::exec::args_fit(arg_seqs(argv)));
            }
            argv.len() as isize
        },
        Err(_) => -1,
    }
}

/// At most one argument vector lies at an address.
pub proof fn lemma_args_unique(k: Kernel, args: u64)
    ensures
        forall|v: Seq<Seq<u8>>, w: Seq<Seq<u8>>|
            #[trigger] args_at(k, args, v) && #[trigger] args_at(k, args, w) ==> v == w,
{
    assert forall|v: Seq<Seq<u8>>, w: Seq<Seq<u8>>|
        #[trigger] args_at(k, args, v) && #[trigger] args_at(k, args, w) implies v == w by {
        if v.len() < w.len() {
            assert(ptr_at(k, args, v.len() as int) is Some && ptr_at(k, args, v.len() as int)->0
                != 0);
        } else if w.len() < v.len() {
            assert(ptr_at(k, args, w.len() as int) is Some && ptr_at(k, args, w.len() as int)->0
                != 0);
        } else {
            assert forall|i: int| 0 <= i < v.len() implies v[i] == w[i] by {
                let p = ptr_at(k, args, i)->0;
                assert(string_at(k, p, v[i]));
                assert(string_at(k, p, w[i]));
                let root = k.space(k.current->0 as int).page_table.root();
                if v[i].len() < w[i].len() {
                    assert(w[i][v[i].len() as int] == user_byte(k.mem@, root, p + v[i].len()));
                } else if w[i].len() < v[i].len() {
                    assert(v[i][w[i].len() as int] == user_byte(k.mem@, root, p + w[i].len()));
                } else {
                    assert forall|j: int| 0 <= j < v[i].len() implies v[i][j] == w[i][j] by {
                        assert(v[i][j] == user_byte(k.mem@, root, p + j));
                        assert(w[i][j] == user_byte(k.mem@, root, p + j));
                    }
                    assert(v[i] =~= w[i]);
                }
            }
            assert(v =~= w);
        }
    }
}

} // verus!
