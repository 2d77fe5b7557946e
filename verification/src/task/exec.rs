//! Replacing the program of a process.

use vstd::prelude::*;
use crate::config::{PPN_LIMIT, TRAMPOLINE_VPN, TRAP_CONTEXT_VPN, USER_STACK_SIZE};
use crate::mm::loader::{initial_sp, load_error, loaded, LoadError};
use crate::mm::memory_set::MemorySet;
use crate::mm::page_table::{PTE_R, PTE_W};
use crate::mm::user::{user_range_ok, user_written};
use crate::syscall::process::{le_bytes32, le_bytes64};
use crate::task::kernel::Kernel;
use crate::task::lifecycle::program_image;
use crate::task::process::{ProcessControlBlock, ProcessControlBlockInner};
use crate::trap::context::TrapContext;

verus! {

/// The arguments as sequences of bytes.
pub open spec fn arg_seqs(args: &Vec<Vec<u8>>) -> Seq<Seq<u8>> {
    Seq::new(args@.len(), |i: int| args@[i]@)
}

/// Bytes that the first `k` arguments take on the stack, each with its
/// final zero byte.
pub open spec fn strings_size(args: Seq<Seq<u8>>, k: int) -> int
    decreases k,
{
    if k <= 0 {
        0
    } else {
        strings_size(args, k - 1) + args[k - 1].len() + 1
    }
}

/// The first `k` arguments as they lie on the stack: each with its final
/// zero byte, the last of them at the lowest address.
pub open spec fn strings_block(args: Seq<Seq<u8>>, k: int) -> Seq<u8>
    decreases k,
{
    if k <= 0 {
        Seq::empty()
    } else {
        (args[k - 1] + seq![0u8]) + strings_block(args, k - 1)
    }
}

/// Address of the vector of argument pointers on a stack with the top
/// `top`: one pointer per argument and a null pointer.
pub open spec fn argv_base(top: int, n: int) -> int {
    top - 8 * (n + 1)
}

/// Address of argument `i` on a stack with the top `top`: the arguments lie
/// below the vector of pointers, the first of them highest.
pub open spec fn arg_addr(top: int, args: Seq<Seq<u8>>, i: int) -> int {
    argv_base(top, args.len() as int) - strings_size(args, i + 1)
}

/// The initial stack pointer of a program that is started with the
/// arguments `args` on a stack with the top `top`: the address below the
/// arguments, rounded down to a multiple of 8.
pub open spec fn exec_sp(top: int, args: Seq<Seq<u8>>) -> int {
    let raw = argv_base(top, args.len() as int) - strings_size(args, args.len() as int);
    raw - raw % 8
}

/// The pointers to the first `k` arguments as they lie on the stack, eight
/// bytes each, lowest byte first.
pub open spec fn pointers_block(top: int, args: Seq<Seq<u8>>, k: int) -> Seq<u8>
    decreases k,
{
    if k <= 0 {
        Seq::empty()
    } else {
        pointers_block(top, args, k - 1) + le_bytes64(arg_addr(top, args, k - 1) as u64)
    }
}

/// The bytes between the initial stack pointer and the top of the stack:
/// padding zeros, the arguments, the pointers to them and a null pointer.
pub open spec fn arg_block(top: int, args: Seq<Seq<u8>>) -> Seq<u8> {
    let n = args.len() as int;
    let raw = argv_base(top, n) - strings_size(args, n);
    Seq::new((raw % 8) as nat, |i: int| 0u8) + strings_block(args, n) + pointers_block(
        top,
        args,
        n,
    ) + le_bytes64(0)
}

/// Whether the arguments fit on the user stack.
pub open spec fn args_fit(args: Seq<Seq<u8>>) -> bool {
    8 * (args.len() + 1) + strings_size(args, args.len() as int) + 8 <= USER_STACK_SIZE
}

/// [`strings_size`] grows with the number of arguments.
pub proof fn lemma_strings_size_mono(args: Seq<Seq<u8>>, i: int, j: int)
    requires
        0 <= i <= j,
    ensures
        0 <= strings_size(args, i) <= strings_size(args, j),
        j - i <= strings_size(args, j) - strings_size(args, i),
    decreases j,
{
    if i < j {
        lemma_strings_size_mono(args, i, j - 1);
    } else if i > 0 {
        lemma_strings_size_mono(args, i - 1, i - 1);
        lemma_strings_size_mono(args, 0, i - 1);
    }
}

/// [`strings_block`] has the length [`strings_size`].
pub proof fn lemma_strings_block_len(args: Seq<Seq<u8>>, k: int)
    ensures
        strings_block(args, k).len() == strings_size(args, k),
    decreases k,
{
    if k > 0 {
        lemma_strings_block_len(args, k - 1);
    }
}

/// [`pointers_block`] has eight bytes per argument.
pub proof fn lemma_pointers_block_len(top: int, args: Seq<Seq<u8>>, k: int)
    requires
        k >= 0,
    ensures
        pointers_block(top, args, k).len() == 8 * k,
    decreases k,
{
    if k > 0 {
        lemma_pointers_block_len(top, args, k - 1);
    }
}

/// Whether the arguments fit on the user stack.
pub fn check_args_fit(args: &Vec<Vec<u8>>) -> (r: bool)
    ensures
        r == args_fit(arg_seqs(args)),
{
    let n: usize = args.len();
    if n > 1022 {
        proof {
            lemma_strings_size_mono(arg_seqs(args), 0, n as int);
        }
        return false;
    }
    let mut total: usize = 8 * (n + 1) + 8;
    let mut i: usize = 0;
    while i < n
        invariant
            i <= n,
            n == args@.len(),
            n <= 1022,
            total == 8 * (n + 1) + 8 + strings_size(arg_seqs(args), i as int),
            total <= 8192,
        decreases n - i,
    {
        let len: usize = args[i].len();
        proof {
            assert(arg_seqs(args)[i as int] == args@[i as int]@);
            lemma_strings_size_mono(arg_seqs(args), i as int + 1, n as int);
        }
        if len >= 8192 || total + len + 1 > 8192 {
            return false;
        }
        total = total + len + 1;
        i = i + 1;
    }
    true
}

/// Appends the eight bytes of `u`, lowest first.
fn push_le64(v: &mut Vec<u8>, u: u64)
    ensures
        final(v)@ == old(v)@ + le_bytes64(u),
{
    let lo: u32 = (u % 0x1_0000_0000) as u32;
    let hi: u32 = (u / 0x1_0000_0000) as u32;
    v.push((lo % 256) as u8);
    v.push(((lo / 256) % 256) as u8);
    v.push(((lo / 65536) % 256) as u8);
    v.push(((lo / 16777216) % 256) as u8);
    v.push((hi % 256) as u8);
    v.push(((hi / 256) % 256) as u8);
    v.push(((hi / 65536) % 256) as u8);
    v.push(((hi / 16777216) % 256) as u8);
    proof {
        assert(v@ =~= old(v)@ + le_bytes64(u));
    }
}

/// The addresses of the arguments `args` on a stack with the top `top`,
/// and the address below the last of them.
fn arg_addresses(top: u64, args: &Vec<Vec<u8>>) -> (r: (Vec<u64>, u64))
    requires
        args_fit(arg_seqs(args)),
        top >= USER_STACK_SIZE,
    ensures
        r.0@.len() == args@.len(),
        forall|j: int|
            0 <= j < args@.len() ==> #[trigger] r.0@[j] == arg_addr(top as int, arg_seqs(args), j),
        r.1 == argv_base(top as int, args@.len() as int) - strings_size(
            arg_seqs(args),
            args@.len() as int,
        ),
        top - USER_STACK_SIZE + 8 <= r.1 <= top - 8,
{
    let ghost a = arg_seqs(args);
    let n: usize = args.len();
    proof {
        lemma_strings_size_mono(a, 0, n as int);
    }
    let base: u64 = top - 8 * (n as u64 + 1);
    let mut addrs: Vec<u64> = Vec::new();
    let mut cur: u64 = base;
    let mut i: usize = 0;
    while i < n
        invariant
            i <= n,
            n == args@.len(),
            a == arg_seqs(args),
            args_fit(a),
            top >= USER_STACK_SIZE,
            base == argv_base(top as int, n as int),
            cur == base - strings_size(a, i as int),
            addrs@.len() == i,
            forall|j: int| 0 <= j < i ==> #[trigger] addrs@[j] == arg_addr(top as int, a, j),
        decreases n - i,
    {
        proof {
            assert(a[i as int] == args@[i as int]@);
            lemma_strings_size_mono(a, i as int + 1, n as int);
            lemma_strings_size_mono(a, 0, i as int);
        }
        cur = cur - (args[i].len() as u64 + 1);
        addrs.push(cur);
        i = i + 1;
    }
    (addrs, cur)
}

/// Appends `pad` zero bytes to the empty `out`.
fn push_padding(out: &mut Vec<u8>, pad: u64)
    requires
        old(out)@.len() == 0,
    ensures
        final(out)@ == Seq::new(pad as nat, |i: int| 0u8),
{
    let mut p: u64 = 0;
    proof {
        assert(out@ =~= Seq::new(0nat, |i: int| 0u8));
    }
    while p < pad
        invariant
            p <= pad,
            out@ == Seq::new(p as nat, |i: int| 0u8),
        decreases pad - p,
    {
        out.push(0);
        proof {
            assert(out@ =~= Seq::new((p + 1) as nat, |i: int| 0u8));
        }
        p = p + 1;
    }
}

/// Appends the arguments as they lie on the stack: each with its final
/// zero byte, the last of them first.
fn push_strings(out: &mut Vec<u8>, args: &Vec<Vec<u8>>)
    ensures
        final(out)@ == old(out)@ + strings_block(arg_seqs(args), args@.len() as int),
{
    let ghost a = arg_seqs(args);
    let ghost start = out@;
    let n: usize = args.len();
    let mut k: usize = n;
    while k > 0
        invariant
            k <= n,
            n == args@.len(),
            a == arg_seqs(args),
            out@ + strings_block(a, k as int) == start + strings_block(a, n as int),
        decreases k,
    {
        let ghost before = out@;
        k = k - 1;
        let s = &args[k];
        let mut j: usize = 0;
        while j < s.len()
            invariant
                j <= s@.len(),
                out@ == before + s@.subrange(0, j as int),
            decreases s@.len() - j,
        {
            out.push(s[j]);
            proof {
                assert(out@ =~= before + s@.subrange(0, j as int + 1));
            }
            j = j + 1;
        }
        out.push(0);
        proof {
            assert(a[k as int] == s@);
            assert(s@.subrange(0, s@.len() as int) =~= s@);
            assert(out@ =~= before + (a[k as int] + seq![0u8]));
            assert(strings_block(a, k as int + 1) == (a[k as int] + seq![0u8]) + strings_block(
                a,
                k as int,
            ));
            assert(out@ + strings_block(a, k as int) =~= before + strings_block(a, k as int + 1));
        }
    }
    proof {
        assert(strings_block(a, 0) =~= Seq::<u8>::empty());
        assert(out@ =~= start + strings_block(a, n as int));
    }
}

/// Appends the pointers `addrs` to the arguments `a` on a stack with the
/// top `top`, eight bytes each.
fn push_pointers(out: &mut Vec<u8>, addrs: &Vec<u64>, Ghost(top): Ghost<int>, Ghost(a): Ghost<Seq<Seq<u8>>>)
    requires
        addrs@.len() == a.len(),
        forall|j: int| 0 <= j < a.len() ==> #[trigger] addrs@[j] == arg_addr(top, a, j),
    ensures
        final(out)@ == old(out)@ + pointers_block(top, a, a.len() as int),
{
    let ghost start = out@;
    let n: usize = addrs.len();
    let mut t: usize = 0;
    proof {
        assert(out@ =~= start + pointers_block(top, a, 0));
    }
    while t < n
        invariant
            t <= n,
            n == a.len(),
            addrs@.len() == n,
            forall|j: int| 0 <= j < n ==> #[trigger] addrs@[j] == arg_addr(top, a, j),
            out@ == start + pointers_block(top, a, t as int),
        decreases n - t,
    {
        push_le64(out, addrs[t]);
        proof {
            assert(out@ =~= start + pointers_block(top, a, t as int + 1));
        }
        t = t + 1;
    }
}

/// Builds the bytes that lie between the initial stack pointer and the top
/// `top` of the stack of a program that is started with the arguments
/// `args`.  Returns them with the initial stack pointer and the address of
/// the vector of argument pointers.
pub fn build_arg_block(top: u64, args: &Vec<Vec<u8>>) -> (r: (Vec<u8>, u64, u64))
    requires
        args_fit(arg_seqs(args)),
        top >= USER_STACK_SIZE,
    ensures
        r.0@ == arg_block(top as int, arg_seqs(args)),
        r.1 == exec_sp(top as int, arg_seqs(args)),
        r.2 == argv_base(top as int, args@.len() as int),
        r.1 + r.0@.len() == top,
        top - USER_STACK_SIZE <= r.1 <= top,
        r.1 % 8 == 0,
{
    let ghost a = arg_seqs(args);
    let n: usize = args.len();
    proof {
        lemma_strings_size_mono(a, 0, n as int);
    }
    let base: u64 = top - 8 * (n as u64 + 1);
    let (addrs, raw) = arg_addresses(top, args);
    let pad: u64 = raw % 8;
    let sp: u64 = raw - pad;
    let mut out: Vec<u8> = Vec::new();
    push_padding(&mut out, pad);
    push_strings(&mut out, args);
    push_pointers(&mut out, &addrs, Ghost(top as int), Ghost(a));
    push_le64(&mut out, 0);
    proof {
        lemma_strings_block_len(a, n as int);
        lemma_pointers_block_len(top as int, a, n as int);
        assert(out@ =~= arg_block(top as int, a));
    }
    (out, sp, base)
}

/// Why the program of a process could not be replaced.
#[derive(Copy, Clone, Debug, PartialEq, Eq, Structural)]
pub enum ExecError {
    /// The arguments do not fit on the user stack.
    ArgsTooLong,
    /// The program cannot be loaded.
    Image(LoadError),
}

/// Every address of the user stack of a loaded program can be read and
/// written in user mode.
pub proof fn lemma_stack_writable(
    b: Seq<u8>,
    ms: MemorySet,
    m: Seq<Seq<u64>>,
    t: crate::mm::address::PhysPageNum,
    va: int,
)
    requires
        ms.wf(m),
        program_image(b, ms, m, t),
        crate::mm::loader::format_error(b) is None,
        initial_sp(b) - USER_STACK_SIZE <= va < initial_sp(b),
    ensures
        crate::mm::user::user_slot(m, ms.page_table.root(), va, PTE_W) is Some,
        crate::mm::user::user_slot(m, ms.page_table.root(), va, PTE_R) is Some,
{
    let segs = crate::mm::loader::loads(b);
    let n = segs.len() as int;
    let v = va / 4096;
    let base = crate::mm::loader::stack_base_vpn(segs);
    assert(0 <= base <= 0x400_0001) by {
        crate::mm::loader::lemma_floor_bound(segs, b.len() as int);
    }
    assert(initial_sp(b) == (base + 2) * 4096);
    assert(base <= v < base + 2);
    assert(0 <= va < crate::config::VA_LIMIT);
    Kernel::lemma_stack_page(ms, m, n, v);
}

impl Kernel {
    /// A page of the framed area `a` with user read and write rights can be
    /// read and written in user mode at every address.
    pub proof fn lemma_stack_page(ms: MemorySet, m: Seq<Seq<u64>>, a: int, v: int)
        requires
            ms.wf(m),
            0 <= a < ms.areas@.len(),
            ms.areas@[a].has_page(v),
            ms.areas@[a].map_type == crate::mm::memory_set::MapType::Framed,
            ms.areas@[a].map_perm.bits == 2u8 | 4u8 | 16u8,
        ensures
            forall|va: int|
                0 <= va < crate::config::VA_LIMIT && va / 4096 == v ==> (
                #[trigger] crate::mm::user::user_slot(m, ms.page_table.root(), va, PTE_W)) is Some
                    && crate::mm::user::user_slot(m, ms.page_table.root(), va, PTE_R) is Some,
    {
        ms.lemma_wf_facts(m);
        assert(ms.areas@[a].mapped());
        let k = v - ms.areas@[a].start.0;
        let f = ms.data_frame(a, k);
        assert(ms.owns_data(f));
        let flags: u8 = ms.areas@[a].map_perm.bits | 1u8;
        crate::mm::page_table::lemma_pte_bits(f, flags);
        assert(flags & (4u8 | 16u8) == (4u8 | 16u8) && flags & (2u8 | 16u8) == (2u8 | 16u8))
            by (bit_vector)
            requires
                flags == (2u8 | 4u8 | 16u8) | 1u8,
        ;
        assert(crate::mm::page_table::lookup(m, ms.page_table.root(), v) == Some(
            ms.areas@[a].entry_of(v),
        ));
    }
}


impl Kernel {
    /// Why the program of a process cannot be replaced by the program in
    /// the image `b` with the arguments `args`, if it cannot.
    pub open spec fn exec_error(&self, b: Seq<u8>, args: Seq<Seq<u8>>) -> Option<ExecError> {
        if !args_fit(args) {
            Some(ExecError::ArgsTooLong)
        } else {
            match load_error(b, self.frame_allocator.free()) {
                Some(e) => Some(ExecError::Image(e)),
                None => None,
            }
        }
    }

    /// What the kernel `km` is after the living process `pid` of the kernel
    /// `k0` has got a new address space with the program of the image `b`:
    /// the address space holds the program, in frames that were free; the
    /// trap context of the process lies in the frame of the trap-context
    /// page of the new address space; every frame of the old address space
    /// is free; the frames of the other processes are as before; nothing
    /// else has changed.
    pub open spec fn space_replaced(k0: Kernel, km: Kernel, pid: int, b: Seq<u8>) -> bool {
        let p0 = k0.pcb(pid);
        let pm = km.pcb(pid);
        &&& km == (Kernel {
            mem: km.mem,
            frame_allocator: km.frame_allocator,
            processes: km.processes,
            ..k0
        })
        &&& km.processes@.len() == k0.processes@.len()
        &&& forall|q: int|
            0 <= q < k0.processes@.len() && q != pid ==> (#[trigger] km.processes@[q])
                == k0.processes@[q]
        &&& km.is_live(pid)
        &&& pm == (ProcessControlBlock {
            inner: ProcessControlBlockInner {
                memory_set: pm.inner.memory_set,
                task: crate::task::task::TaskControlBlock {
                    inner: crate::task::task::TaskControlBlockInner {
                        trap_cx_ppn: pm.inner.task.inner.trap_cx_ppn,
                        res: pm.inner.task.inner.res,
                        ..p0.inner.task.inner
                    },
                    ..p0.inner.task
                },
                ..p0.inner
            },
            ..p0
        })
        &&& pm.inner.task.inner.res == Some(
            crate::task::id::TaskUserRes {
                tid: 0,
                ustack_base: (initial_sp(b) - USER_STACK_SIZE) as u64,
                process: pid as usize,
            },
        )
        &&& program_image(b, km.space(pid), km.mem@, k0.trampoline)
        &&& km.space(pid).wf(km.mem@)
        &&& Kernel::trap_mapped(km.space(pid), km.mem@, km.trap_frame(pid))
        &&& forall|f: int| km.space(pid).owns(f) ==> !k0.frame_allocator.is_allocated(f)
        &&& forall|f: int| k0.space(pid).owns(f) ==> !km.frame_allocator.is_allocated(f)
        &&& forall|q: int, f: int| #[trigger]
            k0.has_process(q) && q != pid && #[trigger] k0.space(q).owns(f) ==> km.mem@[f]
                == k0.mem@[f]
    }

    /// Gives the living process `pid` a new address space with the program
    /// of the image `elf_data` and gives every frame of its old address
    /// space back.  Returns the top of the user stack and the entry address
    /// of the program.
    ///
    /// Refused, with nothing changed, when the image cannot be loaded.
    fn replace_space(&mut self, pid: usize, elf_data: &[u8]) -> (r: Result<(u64, u64), LoadError>)
        requires
            old(self).wf(),
            old(self).is_live(pid as int),
        ensures
            final(self).wf(),
            r matches Err(e) ==> load_error(elf_data@, old(self).frame_allocator.free()) == Some(e)
                && *final(self) == *old(self),
            r matches Ok((sp, entry)) ==> {
                &&& load_error(elf_data@, old(self).frame_allocator.free()) is None
                &&& Self::space_replaced(*old(self), *final(self), pid as int, elf_data@)
                &&& sp == initial_sp(elf_data@)
                &&& entry == crate::mm::elf::header_of(elf_data@).entry
            },
    {
        let ghost k0 = *self;
        proof {
            k0.lemma_wf_kernel();
            k0.lemma_wf_process(pid as int);
            k0.frame_allocator.lemma_free_bound();
        }
        let need: Option<u64> = match crate::mm::loader::elf_frames_needed(elf_data) {
            Ok(n) => n,
            Err(e) => {
                return Err(e);
            },
        };
        let enough: bool = match need {
            Some(n) => self.frame_allocator.has_free(n),
            None => false,
        };
        if !enough {
            return Err(LoadError::OutOfFrames);
        }
        let loaded_program = MemorySet::from_elf(
            elf_data,
            self.trampoline,
            &mut self.frame_allocator,
            &mut self.mem,
        );
        let (mut memory_set, user_sp, entry) = match loaded_program {
            Ok(t) => t,
            Err(e) => {
                proof {
                    assert(false);
                }
                return Err(e);
            },
        };
        let ghost new = memory_set;
        let ghost m_mid = self.mem@;
        let ghost fa_mid = self.frame_allocator;
        proof {
            Self::lemma_loaded_live(
                elf_data@,
                new,
                k0.trampoline,
                k0.mem@,
                m_mid,
                k0.frame_allocator,
                fa_mid,
            );
            crate::mm::spaces::lemma_loaded_step(
                elf_data@,
                new,
                k0.trampoline,
                k0.mem@,
                m_mid,
                k0.frame_allocator,
                fa_mid,
            );
        }
        let trap_cx_ppn = match Self::trap_frame_of(&memory_set, &self.mem) {
            Some(f) => f,
            None => crate::mm::address::PhysPageNum(0),
        };
        match &mut self.processes[pid] {
            Some(p) => {
                core::mem::swap(&mut p.inner.memory_set, &mut memory_set);
                p.inner.task.inner.trap_cx_ppn = trap_cx_ppn;
                p.inner.task.inner.res = Some(
                    crate::task::id::TaskUserRes {
                        tid: 0,
                        ustack_base: user_sp - USER_STACK_SIZE,
                        process: pid,
                    },
                );
            },
            None => {},
        }
        proof {
            assert(memory_set == k0.space(pid as int));
            let old_space = k0.space(pid as int);
            crate::mm::spaces::lemma_bystander(
                old_space,
                k0.mem@,
                m_mid,
                k0.frame_allocator,
                fa_mid,
                Set::<int>::empty(),
                crate::mm::spaces::frames_of(new),
            );
        }
        memory_set.release(&mut self.frame_allocator, &mut self.mem);
        proof {
            let old_space = k0.space(pid as int);
            old_space.lemma_wf_facts(k0.mem@);
            old_space.page_table.lemma_wf_basics(k0.mem@);
            reveal(Kernel::wf);
            assert(k0.spaces().dom().contains(pid as int));
            assert(k0.spaces()[pid as int] == old_space);
            old_space.lemma_wf_facts(m_mid);
            old_space.page_table.lemma_wf_basics(m_mid);
            assert(crate::mm::spaces::owner_step(
                m_mid,
                self.mem@,
                fa_mid,
                self.frame_allocator,
                crate::mm::spaces::frames_of(old_space),
                Set::<int>::empty(),
            ));
            k0.lemma_space_replaced(self, pid as int, m_mid, fa_mid);
            lemma_image_moved(elf_data@, new, m_mid, self.mem@, k0.trampoline);
            assert forall|q: int, f: int| #[trigger]
                k0.has_process(q) && q != pid && #[trigger] k0.space(q).owns(f) implies self.mem@[f]
                == k0.mem@[f] by {
                let sp = k0.space(q);
                assert(k0.spaces().dom().contains(q));
                assert(k0.spaces()[q] == sp);
                crate::mm::spaces::lemma_bystander(
                    sp,
                    k0.mem@,
                    m_mid,
                    k0.frame_allocator,
                    fa_mid,
                    Set::<int>::empty(),
                    crate::mm::spaces::frames_of(new),
                );
                assert forall|p: int| sp.owns(p) implies !crate::mm::spaces::frames_of(
                    old_space,
                ).contains(p) by {
                    assert(!k0.spaces()[pid as int].owns(p));
                }
                crate::mm::spaces::lemma_bystander(
                    sp,
                    m_mid,
                    self.mem@,
                    fa_mid,
                    self.frame_allocator,
                    crate::mm::spaces::frames_of(old_space),
                    Set::<int>::empty(),
                );
            }
            assert forall|f: int| new.owns(f) implies !k0.frame_allocator.is_allocated(f) by {}
            self.lemma_wf_process(pid as int);
        }
        Ok((user_sp, entry))
    }
}

/// A program image stays what it is in every memory in which the frames of
/// its address space hold what they held.
pub proof fn lemma_image_moved(
    b: Seq<u8>,
    ms: MemorySet,
    m1: Seq<Seq<u64>>,
    m2: Seq<Seq<u64>>,
    t: crate::mm::address::PhysPageNum,
)
    requires
        ms.wf(m1),
        program_image(b, ms, m1, t),
        forall|f: int| ms.owns(f) ==> m2[f] == m1[f],
    ensures
        program_image(b, ms, m2, t),
{
    let segs = crate::mm::loader::loads(b);
    let n = segs.len() as int;
    ms.lemma_wf_facts(m1);
    assert forall|i: int| 0 <= i < n implies crate::mm::loader::area_holds_segment(
        #[trigger] ms.areas@[i],
        segs[i],
        b,
        m2,
    ) by {
        assert(crate::mm::loader::area_holds_segment(ms.areas@[i], segs[i], b, m1));
        assert(ms.areas@[i].mapped());
        assert forall|k: int| 0 <= k < ms.areas@[i].end.0 - ms.areas@[i].start.0 implies m2[(
        #[trigger] ms.areas@[i].data_frames@[k]).ppn.0 as int]
            == m1[ms.areas@[i].data_frames@[k].ppn.0 as int] by {
            assert(ms.data_frame(i, k) == ms.areas@[i].data_frames@[k].ppn.0);
            assert(ms.owns_data(ms.data_frame(i, k)));
        }
    }
    assert(ms.areas@[n].mapped());
    assert forall|k: int| 0 <= k < 2 implies m2[(
    #[trigger] ms.areas@[n].data_frames@[k]).ppn.0 as int]
        == m1[ms.areas@[n].data_frames@[k].ppn.0 as int] by {
        assert(ms.data_frame(n, k) == ms.areas@[n].data_frames@[k].ppn.0);
        assert(ms.owns_data(ms.data_frame(n, k)));
    }
}

/// The steps by which the living process `pid` of the kernel `k0` starts
/// the program of the image `b` with the arguments `args`: in `km` it has a
/// new address space with the program; in `kn` the arguments, the pointers
/// to them and padding lie at the top of its user stack; in `k1` its trap
/// context starts the program: the program counter is the entry of the
/// program, the stack pointer lies below the arguments, the first argument
/// register holds their number and the second the address of the pointers,
/// and every other general register is zero.
pub open spec fn exec_steps(
    k0: Kernel,
    km: Kernel,
    kn: Kernel,
    k1: Kernel,
    pid: int,
    b: Seq<u8>,
    args: Seq<Seq<u8>>,
) -> bool {
    let top = initial_sp(b);
    let kid = k0.pcb(pid).inner.task.kstack.0;
    &&& Kernel::space_replaced(k0, km, pid, b)
    &&& kn == (Kernel { mem: kn.mem, ..km })
    &&& user_written(
        km.mem@,
        kn.mem@,
        km.space(pid).page_table.root(),
        exec_sp(top, args),
        arg_block(top, args),
    )
    &&& k1 == (Kernel { mem: k1.mem, ..kn })
    &&& k1.mem@.len() == kn.mem@.len()
    &&& forall|f: int|
        0 <= f < kn.mem@.len() && f != km.trap_frame(pid) ==> (#[trigger] k1.mem@[f])
            == kn.mem@[f]
    &&& forall|i: int|
        0 <= i < 512 ==> (#[trigger] k1.trap_word(pid, i)) == (if i == 2 {
            exec_sp(top, args) as u64
        } else if i == 10 {
            args.len() as u64
        } else if i == 11 {
            argv_base(top, args.len() as int) as u64
        } else if i < 32 {
            0u64
        } else if i == 32 {
            k0.sstatus & !crate::trap::context::SSTATUS_SPP
        } else if i == 33 {
            crate::mm::elf::header_of(b).entry
        } else if i == 34 {
            (0x8000_0000_0000_0000 + k0.kernel_space.page_table.root_ppn.0 % PPN_LIMIT) as u64
        } else if i == 35 {
            (crate::config::TRAMPOLINE - kid * 12288) as u64
        } else if i == 36 {
            k0.trap_handler
        } else {
            kn.mem@[km.trap_frame(pid)][i]
        })
}

impl Kernel {
    /// Writes the arguments `args`, the pointers to them and padding at the
    /// top `top` of the user stack of the process `pid`, which has just got
    /// the program of the image `b`.  Returns the initial stack pointer and
    /// the address of the pointers.
    fn push_args(
        &mut self,
        pid: usize,
        top: u64,
        args: &Vec<Vec<u8>>,
        Ghost(b): Ghost<Seq<u8>>,
        Ghost(k0): Ghost<Kernel>,
    ) -> (r: (u64, u64))
        requires
            old(self).wf(),
            old(self).is_live(pid as int),
            Self::space_replaced(k0, *old(self), pid as int, b),
            crate::mm::loader::format_error(b) is None,
            top == initial_sp(b),
            args_fit(arg_seqs(args)),
        ensures
            final(self).wf(),
            *final(self) == (Kernel { mem: final(self).mem, ..*old(self) }),
            r.0 == exec_sp(top as int, arg_seqs(args)),
            r.1 == argv_base(top as int, args@.len() as int),
            user_written(
                old(self).mem@,
                final(self).mem@,
                old(self).space(pid as int).page_table.root(),
                exec_sp(top as int, arg_seqs(args)),
                arg_block(top as int, arg_seqs(args)),
            ),
    {
        let ghost km = *self;
        proof {
            crate::mm::loader::lemma_floor_bound(crate::mm::loader::loads(b), b.len() as int);
        }
        let (block, sp, argv) = build_arg_block(top, args);
        proof {
            let root = km.space(pid as int).page_table.root();
            assert forall|i: int| 0 <= i < block@.len() implies (
            #[trigger] crate::mm::user::user_slot(km.mem@, root, sp + i, PTE_W)) is Some by {
                lemma_stack_writable(b, km.space(pid as int), km.mem@, k0.trampoline, sp + i);
            }
        }
        let ok: bool = self.write_user(pid, sp, block.as_slice());
        proof {
            assert(ok);
        }
        (sp, argv)
    }

    /// Makes the trap context of the living process `pid` start a program
    /// at `entry` with the stack pointer `sp`, the number `argc` of
    /// arguments in the first argument register and the address `argv` of
    /// the pointers to them in the second.
    fn start_program(
        &mut self,
        pid: usize,
        entry: u64,
        sp: u64,
        argc: u64,
        argv: u64,
        kstack_top: u64,
    )
        requires
            old(self).wf(),
            old(self).is_live(pid as int),
        ensures
            final(self).wf(),
            *final(self) == (Kernel { mem: final(self).mem, ..*old(self) }),
            final(self).mem@.len() == old(self).mem@.len(),
            forall|f: int|
                0 <= f < old(self).mem@.len() && f != old(self).trap_frame(pid as int) ==> (
                #[trigger] final(self).mem@[f]) == old(self).mem@[f],
            forall|i: int|
                0 <= i < 512 ==> (#[trigger] final(self).trap_word(pid as int, i)) == (if i == 2 {
                    sp
                } else if i == 10 {
                    argc
                } else if i == 11 {
                    argv
                } else if i < 32 {
                    0u64
                } else if i == 32 {
                    old(self).sstatus & !crate::trap::context::SSTATUS_SPP
                } else if i == 33 {
                    entry
                } else if i == 34 {
                    (0x8000_0000_0000_0000 + old(self).kernel_space.page_table.root_ppn.0
                        % PPN_LIMIT) as u64
                } else if i == 35 {
                    kstack_top
                } else if i == 36 {
                    old(self).trap_handler
                } else {
                    old(self).mem@[old(self).trap_frame(pid as int)][i]
                }),
    {
        proof {
            self.lemma_wf_process(pid as int);
        }
        let kernel_token: u64 = self.kernel_space.token();
        let mut cx = TrapContext::app_init_context(
            entry,
            sp,
            kernel_token,
            kstack_top,
            self.trap_handler,
            self.sstatus,
        );
        cx.x[crate::trap::context::REG_A0] = argc;
        cx.x[11] = argv;
        self.set_trap_cx(pid, &cx);
    }

    /// Replaces the program of the living process `pid` by the program in
    /// the ELF image `elf_data`, started with the arguments `args`.  The
    /// process keeps its identifier, its kernel stack, its open files and
    /// its place in the scheduler; it gets a new address space, and every
    /// frame of the old one is given back.
    ///
    /// Refused, with nothing changed, when [`Kernel::exec_error`] says so.
    pub fn exec(&mut self, pid: usize, elf_data: &[u8], args: &Vec<Vec<u8>>) -> (r: Result<
        (),
        ExecError,
    >)
        requires
            old(self).wf(),
            old(self).is_live(pid as int),
        ensures
            final(self).wf(),
            r matches Err(e) ==> old(self).exec_error(elf_data@, arg_seqs(args)) == Some(e)
                && *final(self) == *old(self),
            r is Ok ==> {
                &&& old(self).exec_error(elf_data@, arg_seqs(args)) is None
                &&& exists|km: Kernel, kn: Kernel| #[trigger]
                    exec_steps(
                        *old(self),
                        km,
                        kn,
                        *final(self),
                        pid as int,
                        elf_data@,
                        arg_seqs(args),
                    )
                &&& final(self).is_live(pid as int)
                &&& final(self).trap_word(pid as int, 33) == crate::mm::elf::header_of(
                    elf_data@,
                ).entry
                &&& final(self).trap_word(pid as int, 2) == exec_sp(
                    initial_sp(elf_data@),
                    arg_seqs(args),
                )
            },
    {
        let ghost k0 = *self;
        if !check_args_fit(args) {
            return Err(ExecError::ArgsTooLong);
        }
        proof {
            k0.lemma_wf_process(pid as int);
        }
        let kstack_top: u64 = match &self.processes[pid] {
            Some(p) => p.inner.task.kstack.get_top(),
            None => 0,
        };
        let (top, entry) = match self.replace_space(pid, elf_data) {
            Ok(t) => t,
            Err(e) => {
                return Err(ExecError::Image(e));
            },
        };
        let ghost km = *self;
        let (sp, argv) = self.push_args(pid, top, args, Ghost(elf_data@), Ghost(k0));
        let ghost kn = *self;
        self.start_program(pid, entry, sp, args.len() as u64, argv, kstack_top);
        proof {
            assert(arg_seqs(args).len() == args@.len());
            assert(km.trap_frame(pid as int) == kn.trap_frame(pid as int));
            assert(exec_steps(k0, km, kn, *self, pid as int, elf_data@, arg_seqs(args)));
        }
        Ok(())
    }
}

} // verus!
