//! System calls on processes and signals.

use vstd::prelude::*;
use crate::mm::elf::{le_u32, le_u64};
use crate::mm::page_table::{PTE_R, PTE_W};
use crate::mm::user::{translated_byte_buffer, user_range_ok, user_writable, user_written};
use crate::task::delivery::with_signals;
use crate::task::kernel::Kernel;
use crate::task::process::{ProcessControlBlock, ProcessControlBlockInner};
use crate::task::signal::{sig_bit, SignalAction, SignalActions, SignalFlags, MAX_SIG};
use crate::task::task::TaskStatus;
use crate::task::wait::{any_match, any_waitable, first_waitable};
use crate::task::{exit_current_and_run_next, exit_steps, suspend_current_and_run_next};
use crate::trap::context::TrapContext;

verus! {

/// A point in time: seconds and microseconds.
#[derive(Copy, Clone, Debug, PartialEq, Eq, Structural)]
pub struct TimeVal {
    pub sec: usize,
    pub usec: usize,
}

impl TimeVal {
    /// The time zero.
    pub fn new() -> (r: Self)
        ensures
            r.sec == 0,
            r.usec == 0,
    {
        TimeVal { sec: 0, usec: 0 }
    }
}

/// The four bytes of the 32-bit number `u`, lowest first.
pub open spec fn le_bytes32(u: u32) -> Seq<u8> {
    seq![
        (u % 256) as u8,
        ((u / 256) % 256) as u8,
        ((u / 65536) % 256) as u8,
        ((u / 16777216) % 256) as u8,
    ]
}

/// The exit code `code` as a 32-bit pattern in two's complement.
pub open spec fn code_bits(code: i32) -> u32 {
    if code >= 0 {
        code as u32
    } else {
        (code + 0x1_0000_0000) as u32
    }
}

/// The four bytes of the exit code `code`, lowest first.
pub fn code_bytes(code: i32) -> (r: Vec<u8>)
    ensures
        r@ == le_bytes32(code_bits(code)),
{
    let u: u32 = if code >= 0 {
        code as u32
    } else {
        (code as i64 + 0x1_0000_0000) as u32
    };
    let mut v: Vec<u8> = Vec::new();
    v.push((u % 256) as u8);
    v.push(((u / 256) % 256) as u8);
    v.push(((u / 65536) % 256) as u8);
    v.push(((u / 16777216) % 256) as u8);
    proof {
        assert(v@ =~= le_bytes32(code_bits(code)));
    }
    v
}

/// The process that runs exits with the code `exit_code`.
pub fn sys_exit(kernel: &mut Kernel, exit_code: i32)
    requires
        old(kernel).wf(),
        old(kernel).current is Some,
    ensures
        final(kernel).wf(),
        exists|ka: Kernel, kb: Kernel, kc: Kernel| #[trigger]
            exit_steps(*old(kernel), ka, kb, kc, *final(kernel), exit_code),
        final(kernel).has_process(old(kernel).current->0 as int),
        final(kernel).pcb(old(kernel).current->0 as int).inner.is_zombie,
        final(kernel).pcb(old(kernel).current->0 as int).inner.exit_code == exit_code,
        final(kernel).status(old(kernel).current->0 as int) == TaskStatus::Zombie,
        final(kernel).current == (if old(kernel).initproc != Some(old(kernel).current->0)
            && old(kernel).ready_queue@.len() > 0 {
            Some(old(kernel).ready_queue@[0])
        } else {
            None
        }),
        final(kernel).shutdown == (if old(kernel).initproc == Some(old(kernel).current->0) {
            Some(exit_code == 0)
        } else {
            old(kernel).shutdown
        }),
{
    exit_current_and_run_next(kernel, exit_code);
}

/// The task that runs gives the processor up and stays ready.  Returns 0.
pub fn sys_yield(kernel: &mut Kernel) -> (r: isize)
    requires
        old(kernel).wf(),
        old(kernel).current is Some,
    ensures
        r == 0,
        final(kernel).wf(),
        *final(kernel) == (Kernel {
            ready_queue: final(kernel).ready_queue,
            current: final(kernel).current,
            processes: final(kernel).processes,
            ..*old(kernel)
        }),
        final(kernel).current == Some(
            old(kernel).ready_queue@.push(old(kernel).current->0)[0],
        ),
        final(kernel).ready_queue@ == old(kernel).ready_queue@.push(
            old(kernel).current->0,
        ).subrange(1, old(kernel).ready_queue@.len() as int + 1),
        final(kernel).processes@ == crate::task::processor::handed_over(
            old(kernel).processes@,
            old(kernel).current->0 as int,
            TaskStatus::Ready,
            old(kernel).ready_queue@.push(old(kernel).current->0)[0] as int,
        ),
{
    suspend_current_and_run_next(kernel);
    0
}

/// The milliseconds since boot, as the timer last told; the greatest result
/// there is when they do not fit.
pub fn sys_get_time(kernel: &Kernel) -> (r: isize)
    ensures
        r == (if kernel.time_ms <= isize::MAX {
            kernel.time_ms as int
        } else {
            isize::MAX as int
        }),
{
    if kernel.time_ms <= isize::MAX as u64 {
        kernel.time_ms as isize
    } else {
        isize::MAX
    }
}

/// The identifier of the process that runs.
pub fn sys_getpid(kernel: &Kernel) -> (r: isize)
    requires
        kernel.wf(),
        kernel.current is Some,
    ensures
        r == kernel.current->0,
{
    proof {
        kernel.lemma_wf_kernel();
    }
    kernel.current.unwrap() as isize
}

/// What the system call that duplicates the process makes of the kernel
/// `k0`, with the result `r`: see [`sys_fork`].
pub open spec fn fork_called(k0: Kernel, k1: Kernel, r: isize) -> bool {
    &&& r == -1 <==> k0.fork_refused(k0.current->0 as int)
    &&& r == -1 ==> k1 == k0
    &&& r != -1 ==> r >= 0 && Kernel::forked(
                k0,
                k1,
                k0.current->0 as int,
                r as int,
            )
}

/// Duplicates the process that runs.  Returns the identifier of the copy,
/// or -1, with nothing changed, when the process cannot be duplicated.  In
/// the trap context of the copy the return-value register is 0.
pub fn sys_fork(kernel: &mut Kernel) -> (r: isize)
    requires
        old(kernel).wf(),
        old(kernel).current is Some,
    ensures
        final(kernel).wf(),
        fork_called(*old(kernel), *final(kernel), r),
{
    proof {
        kernel.lemma_wf_kernel();
    }
    let parent: usize = kernel.current.unwrap();
    match kernel.fork(parent) {
        Some(child) => child as isize,
        None => -1,
    }
}

/// The priority of tasks is not used by the scheduler.  Returns 0.
pub fn sys_set_priority(prio: isize) -> (r: isize)
    ensures
        r == 0,
{
    0
}

/// What the kernel `k1` is after the process that runs in the kernel `k0`
/// has collected its child at index `i` of its list: the child is reaped
/// and gone from the list, and its exit code lies, as four bytes in
/// two's complement, lowest first, at the user address `xstatus` of the
/// process.
pub open spec fn collected(k0: Kernel, k1: Kernel, i: int, xstatus: u64) -> bool {
    let parent = k0.current->0 as int;
    let child = k0.pcb(parent).inner.children@[i] as int;
    exists|ka: Kernel, kb: Kernel|
        {
            &&& #[trigger] Kernel::reaped(k0, ka, child)
            &&& kb == (Kernel { processes: kb.processes, ..ka })
            &&& kb.processes@.len() == ka.processes@.len()
            &&& forall|q: int|
                0 <= q < ka.processes@.len() && q != parent ==> (#[trigger] kb.processes@[q])
                    == ka.processes@[q]
            &&& kb.has_process(parent)
            &&& kb.pcb(parent) == (ProcessControlBlock {
                inner: ProcessControlBlockInner {
                    children: kb.pcb(parent).inner.children,
                    ..ka.pcb(parent).inner
                },
                ..ka.pcb(parent)
            })
            &&& kb.pcb(parent).inner.children@ == k0.pcb(parent).inner.children@.remove(i)
            &&& k1 == (Kernel { mem: k1.mem, ..kb })
            &&& #[trigger] user_written(
                kb.mem@,
                k1.mem@,
                k0.space(parent).page_table.root(),
                xstatus as int,
                le_bytes32(code_bits(k0.pcb(child).inner.exit_code)),
            )
        }
}

/// Whether the four bytes at the user address `xstatus` of the process that
/// runs can be written.
pub open spec fn status_writable(k: Kernel, xstatus: u64) -> bool {
    user_range_ok(
        k.mem@,
        k.space(k.current->0 as int).page_table.root(),
        xstatus as int,
        4,
        PTE_W,
    )
}

/// What the system call that looks for a child that has exited makes of
/// the kernel `k0`, with the result `r`: see [`sys_waitpid`].
pub open spec fn child_awaited(k0: Kernel, k1: Kernel, pid: isize, xstatus: u64, r: isize) -> bool {
    &&& r == -1 <==> !any_match(
                k0,
                k0.pcb(k0.current->0 as int).inner.children@,
                pid as int,
            ) || (any_waitable(
                k0,
                k0.pcb(k0.current->0 as int).inner.children@,
                pid as int,
            ) && !status_writable(k0, xstatus))
    &&& r == -2 <==> any_match(
                k0,
                k0.pcb(k0.current->0 as int).inner.children@,
                pid as int,
            ) && !any_waitable(
                k0,
                k0.pcb(k0.current->0 as int).inner.children@,
                pid as int,
            )
    &&& r < 0 ==> (r == -1 || r == -2) && k1 == k0
    &&& r >= 0 ==> exists|i: int| #[trigger]
                first_waitable(
                    k0,
                    k0.pcb(k0.current->0 as int).inner.children@,
                    pid as int,
                    i,
                ) && r == k0.pcb(k0.current->0 as int).inner.children@[i]
                    && collected(k0, k1, i, xstatus)
}

/// The process that runs looks for a child that has exited: any child when
/// `pid` is -1, else the child with the identifier `pid`.  It does not wait.
///
/// Returns -1, with nothing changed, when no child is meant; -2, with
/// nothing changed, when a child is meant but none that is meant has
/// exited; and -1, with nothing changed, when the four bytes at the user
/// address `xstatus` cannot be written.  Else the first child in the list
/// that is meant and has exited is reaped, its exit code is stored at
/// `xstatus`, and its identifier is returned.
pub fn sys_waitpid(kernel: &mut Kernel, pid: isize, xstatus: u64) -> (r: isize)
    requires
        old(kernel).wf(),
        old(kernel).current is Some,
    ensures
        final(kernel).wf(),
        child_awaited(*old(kernel), *final(kernel), pid, xstatus, r),
{
    let ghost k0 = *kernel;
    proof {
        k0.lemma_wf_kernel();
    }
    let parent: usize = kernel.current.unwrap();
    proof {
        k0.lemma_wf_process(parent as int);
    }
    if !kernel.has_matching_child(parent, pid) {
        return -1;
    }
    let idx: usize = match kernel.find_zombie_child(parent, pid) {
        Some(i) => i,
        None => {
            proof {
                let children = k0.pcb(parent as int).inner.children@;
                assert(!any_waitable(k0, children, pid as int));
            }
            return -2;
        },
    };
    let ghost children = k0.pcb(parent as int).inner.children@;
    proof {
        assert(first_waitable(k0, children, pid as int, idx as int));
        assert(crate::task::wait::waitable(k0, children[idx as int] as int, pid as int));
        assert(any_waitable(k0, children, pid as int));
        assert(any_match(k0, children, pid as int));
        crate::mm::user::lemma_token_root(k0.space(parent as int), k0.mem@);
    }
    let token: u64 = match &kernel.processes[parent] {
        Some(p) => p.inner.memory_set.token(),
        None => 0,
    };
    if !user_writable(&kernel.mem, token, xstatus, 4) {
        return -1;
    }
    let child: usize = collect_child(kernel, idx, xstatus);
    child as isize
}

/// The process that runs collects its child at index `idx` of its list,
/// which has exited, and stores its exit code at the user address
/// `xstatus`, which can be written.  Returns the identifier of the child.
fn collect_child(kernel: &mut Kernel, idx: usize, xstatus: u64) -> (r: usize)
    requires
        old(kernel).wf(),
        old(kernel).current is Some,
        idx < old(kernel).pcb(old(kernel).current->0 as int).inner.children@.len(),
        old(kernel).has_process(
            old(kernel).pcb(old(kernel).current->0 as int).inner.children@[idx as int] as int,
        ),
        old(kernel).pcb(
            old(kernel).pcb(old(kernel).current->0 as int).inner.children@[idx as int] as int,
        ).inner.is_zombie,
        status_writable(*old(kernel), xstatus),
    ensures
        final(kernel).wf(),
        r == old(kernel).pcb(old(kernel).current->0 as int).inner.children@[idx as int],
        r < isize::MAX,
        collected(*old(kernel), *final(kernel), idx as int, xstatus),
{
    let ghost k0 = *kernel;
    proof {
        k0.lemma_wf_kernel();
    }
    let parent: usize = kernel.current.unwrap();
    proof {
        k0.lemma_wf_process(parent as int);
    }
    let child: usize = match &kernel.processes[parent] {
        Some(p) => p.inner.children[idx],
        None => 0,
    };
    let code: i32 = kernel.reap(child);
    let ghost ka = *kernel;
    match &mut kernel.processes[parent] {
        Some(p) => {
            let _ = p.inner.children.remove(idx);
        },
        None => {},
    }
    let ghost kb = *kernel;
    proof {
        lemma_children_removed(ka, kb, parent as int);
    }
    let bytes = code_bytes(code);
    let ok: bool = kernel.write_user(parent, xstatus, bytes.as_slice());
    proof {
        lemma_still_writable(k0, ka, kb, parent as int, child as int, xstatus);
        assert(ok);
        assert(Kernel::reaped(k0, ka, child as int));
        assert(user_written(
            kb.mem@,
            kernel.mem@,
            k0.space(parent as int).page_table.root(),
            xstatus as int,
            le_bytes32(code_bits(k0.pcb(child as int).inner.exit_code)),
        ));
    }
    child
}

/// A change of the list of children of a process keeps the invariant.
proof fn lemma_children_removed(ka: Kernel, kb: Kernel, parent: int)
    requires
        ka.wf(),
        ka.is_live(parent),
        kb == (Kernel { processes: kb.processes, ..ka }),
        kb.processes@.len() == ka.processes@.len(),
        forall|q: int|
            0 <= q < ka.processes@.len() && q != parent ==> (#[trigger] kb.processes@[q])
                == ka.processes@[q],
        kb.has_process(parent),
        kb.pcb(parent) == (ProcessControlBlock {
            inner: ProcessControlBlockInner {
                children: kb.pcb(parent).inner.children,
                ..ka.pcb(parent).inner
            },
            ..ka.pcb(parent)
        }),
    ensures
        kb.wf(),
        kb.is_live(parent),
        kb.space(parent) == ka.space(parent),
{
    assert(ka.same_frame(&kb)) by {
        assert forall|q: int| 0 <= q < ka.processes@.len() implies ((
        #[trigger] kb.processes@[q]) is Some <==> ka.processes@[q] is Some) && (
        ka.processes@[q] is Some ==> Kernel::same_core(
            kb.processes@[q]->0,
            ka.processes@[q]->0,
        )) by {
            if q != parent {
                assert(kb.processes@[q] == ka.processes@[q]);
            }
        }
    }
    ka.lemma_same_frame(&kb);
}

/// What could be written at an address of a process before another process
/// was reaped can be written there afterwards.
proof fn lemma_still_writable(
    k0: Kernel,
    ka: Kernel,
    kb: Kernel,
    parent: int,
    child: int,
    xstatus: u64,
)
    requires
        k0.wf(),
        k0.current is Some,
        k0.current->0 == parent,
        k0.has_process(parent),
        child != parent,
        Kernel::reaped(k0, ka, child),
        kb.mem@ == ka.mem@,
        status_writable(k0, xstatus),
    ensures
        user_range_ok(
            kb.mem@,
            k0.space(parent).page_table.root(),
            xstatus as int,
            4,
            PTE_W,
        ),
{
    let root = k0.space(parent).page_table.root();
    assert(k0.current->0 as int == parent);
    assert(user_range_ok(k0.mem@, root, xstatus as int, 4, PTE_W));
    assert(kb.mem@.len() == k0.mem@.len()) by {
        k0.lemma_wf_kernel();
    }
    assert forall|i: int| 0 <= i < 4 implies (#[trigger] crate::mm::user::user_slot(
        kb.mem@,
        root,
        xstatus + i,
        PTE_W,
    )) is Some by {
        assert(crate::mm::user::user_slot(k0.mem@, root, xstatus + i, PTE_W) is Some);
        assert(crate::mm::page_table::lookup(kb.mem@, root, (xstatus + i) / 4096)
            == crate::mm::page_table::lookup(k0.mem@, root, (xstatus + i) / 4096));
    }
}

/// Whether the signal number `signum` can be sent to the process `pid`:
/// the process lives, the number is one of the 32 signals, and the signal
/// is not pending already.
pub open spec fn kill_ok(k: Kernel, pid: int, signum: int) -> bool {
    k.is_live(pid) && 0 <= signum <= 31 && !k.pcb(pid).inner.signals.has(signum)
}

/// What the system call that sends a signal makes of the kernel `k0`,
/// with the result `r`: see [`sys_kill`].
pub open spec fn signal_sent(k0: Kernel, k1: Kernel, pid: usize, signum: i32, r: isize) -> bool {
    &&& r == 0 <==> kill_ok(k0, pid as int, signum as int)
    &&& r != 0 ==> r == -1 && k1 == k0
    &&& r == 0 ==> k1 == (Kernel {
                processes: k1.processes,
                ..k0
            }) && k1.processes@ == k0.processes@.update(
                pid as int,
                Some(
                    with_signals(
                        k0.pcb(pid as int),
                        SignalFlags {
                            bits: k0.pcb(pid as int).inner.signals.bits | sig_bit(
                                signum as int,
                            ),
                        },
                    ),
                ),
            )
}

/// Sends the signal number `signum` to the process `pid`: it becomes
/// pending there.  Returns 0, or -1 with nothing changed when the process
/// does not live, the number is no signal, or the signal is pending
/// already.
pub fn sys_kill(kernel: &mut Kernel, pid: usize, signum: i32) -> (r: isize)
    requires
        old(kernel).wf(),
    ensures
        final(kernel).wf(),
        signal_sent(*old(kernel), *final(kernel), pid, signum, r),
{
    if pid >= kernel.processes.len() || signum < 0 || signum > 31 {
        return -1;
    }
    let sig: usize = signum as usize;
    let can: bool = match &kernel.processes[pid] {
        Some(p) => !p.inner.is_zombie && !p.inner.signals.contains_signum(sig),
        None => false,
    };
    if !can {
        return -1;
    }
    match &mut kernel.processes[pid] {
        Some(p) => {
            p.inner.signals.insert(SignalFlags { bits: 1u32 << (sig as u32) });
        },
        None => {},
    }
    proof {
        assert(kernel.processes@ =~= old(kernel).processes@.update(
            pid as int,
            Some(
                with_signals(
                    old(kernel).pcb(pid as int),
                    SignalFlags {
                        bits: old(kernel).pcb(pid as int).inner.signals.bits | sig_bit(
                            signum as int,
                        ),
                    },
                ),
            ),
        ));
        assert(old(kernel).same_frame(kernel));
        old(kernel).lemma_same_frame(kernel);
    }
    0
}

/// The control block `p` with the blocked signals replaced by `m`.
pub open spec fn with_mask(p: ProcessControlBlock, m: SignalFlags) -> ProcessControlBlock {
    ProcessControlBlock { inner: ProcessControlBlockInner { signal_mask: m, ..p.inner }, ..p }
}

/// What the system call that sets the blocked signals makes of the kernel
/// `k0`, with the result `r`: see [`sys_sigprocmask`].
pub open spec fn mask_replaced(k0: Kernel, k1: Kernel, mask: u32, r: isize) -> bool {
    &&& k0.pcb(k0.current->0 as int).inner.signal_mask.bits <= isize::MAX ==> r
                == k0.pcb(k0.current->0 as int).inner.signal_mask.bits
    &&& k1 == (Kernel { processes: k1.processes, ..k0 })
    &&& k1.processes@ == k0.processes@.update(
                k0.current->0 as int,
                Some(
                    with_mask(k0.pcb(k0.current->0 as int), SignalFlags { bits: mask }),
                ),
            )
}

/// Sets the signals that the process that runs blocks to those of `mask`.
/// Returns the bits of the signals that it blocked before, when they fit in
/// the result.
pub fn sys_sigprocmask(kernel: &mut Kernel, mask: u32) -> (r: isize)
    requires
        old(kernel).wf(),
        old(kernel).current is Some,
    ensures
        final(kernel).wf(),
        mask_replaced(*old(kernel), *final(kernel), mask, r),
{
    proof {
        kernel.lemma_wf_kernel();
    }
    let pid: usize = kernel.current.unwrap();
    let mut before: u32 = 0;
    match &mut kernel.processes[pid] {
        Some(p) => {
            before = p.inner.signal_mask.bits;
            p.inner.signal_mask = SignalFlags { bits: mask };
        },
        None => {},
    }
    proof {
        assert(kernel.processes@ =~= old(kernel).processes@.update(
            pid as int,
            Some(with_mask(old(kernel).pcb(pid as int), SignalFlags { bits: mask })),
        ));
        assert(old(kernel).same_frame(kernel));
        old(kernel).lemma_same_frame(kernel);
    }
    #[verifier::truncate]
    (before as isize)
}

/// The eight bytes of the 64-bit number `u`, lowest first.
pub open spec fn le_bytes64(u: u64) -> Seq<u8> {
    le_bytes32((u % 0x1_0000_0000) as u32) + le_bytes32((u / 0x1_0000_0000) as u32)
}

/// The sixteen bytes of a signal action in user memory: the address of the
/// handler, the mask, and four bytes of padding.
pub open spec fn action_bytes(a: SignalAction) -> Seq<u8> {
    le_bytes64(a.handler) + le_bytes32(a.mask.bits) + seq![0u8, 0u8, 0u8, 0u8]
}

/// The signal action that the sixteen bytes `b` stand for.
pub open spec fn action_of(b: Seq<u8>) -> SignalAction {
    SignalAction { handler: le_u64(b, 0) as u64, mask: SignalFlags { bits: le_u32(b, 8) as u32 } }
}

/// Appends the four bytes of `u`, lowest first.
pub(crate) fn push_le32(v: &mut Vec<u8>, u: u32)
    ensures
        final(v)@ == old(v)@ + le_bytes32(u),
{
    v.push((u % 256) as u8);
    v.push(((u / 256) % 256) as u8);
    v.push(((u / 65536) % 256) as u8);
    v.push(((u / 16777216) % 256) as u8);
    proof {
        assert(v@ =~= old(v)@ + le_bytes32(u));
    }
}

/// The sixteen bytes of the signal action `a`.
pub fn encode_action(a: &SignalAction) -> (r: Vec<u8>)
    ensures
        r@ == action_bytes(*a),
{
    let mut v: Vec<u8> = Vec::new();
    push_le32(&mut v, (a.handler % 0x1_0000_0000) as u32);
    push_le32(&mut v, (a.handler / 0x1_0000_0000) as u32);
    push_le32(&mut v, a.mask.bits);
    v.push(0);
    v.push(0);
    v.push(0);
    v.push(0);
    proof {
        assert(v@ =~= action_bytes(*a));
    }
    v
}

/// The signal action that the sixteen bytes `b` stand for.
pub fn decode_action(b: &[u8]) -> (r: SignalAction)
    requires
        b@.len() >= 16,
    ensures
        r == action_of(b@),
{
    SignalAction {
        handler: crate::mm::elf::read_u64(b, 0),
        mask: SignalFlags { bits: crate::mm::elf::read_u32(b, 8) },
    }
}

/// Whether an action cannot be installed for the signal number `signum`
/// from the user address `action` with the previous action stored at the
/// user address `old_action`: an address is null, or the signal is kill or
/// stop.
pub fn check_sigaction_error(signum: usize, action: u64, old_action: u64) -> (r: bool)
    ensures
        r == (action == 0 || old_action == 0 || signum == 9 || signum == 19),
{
    action == 0 || old_action == 0 || signum == 9 || signum == 19
}

/// Whether the process that runs can install the action at the user
/// address `action` for the signal number `signum`, with the previous
/// action stored at the user address `old_action`.
pub open spec fn sigaction_ok(k: Kernel, signum: int, action: u64, old_action: u64) -> bool {
    let root = k.space(k.current->0 as int).page_table.root();
    &&& 0 <= signum <= 31
    &&& action != 0 && old_action != 0 && signum != 9 && signum != 19
    &&& user_range_ok(k.mem@, root, action as int, 16, PTE_R)
    &&& user_range_ok(k.mem@, root, old_action as int, 16, PTE_W)
}

/// What the kernel `k1` is after the process that runs in the kernel `k0`
/// has installed an action for the signal `signum`: the sixteen bytes of
/// the action that was installed before lie at the user address
/// `old_action`; the action that the sixteen bytes at the user address
/// `action` stand for afterwards is installed; nothing else has changed.
pub open spec fn action_installed(
    k0: Kernel,
    k1: Kernel,
    signum: int,
    action: u64,
    old_action: u64,
) -> bool {
    let pid = k0.current->0 as int;
    let root = k0.space(pid).page_table.root();
    let p0 = k0.pcb(pid);
    let p1 = k1.pcb(pid);
    &&& k1 == (Kernel { mem: k1.mem, processes: k1.processes, ..k0 })
    &&& user_written(
        k0.mem@,
        k1.mem@,
        root,
        old_action as int,
        action_bytes(p0.inner.signal_actions.table@[signum]),
    )
    &&& k1.processes@.len() == k0.processes@.len()
    &&& forall|q: int|
        0 <= q < k0.processes@.len() && q != pid ==> (#[trigger] k1.processes@[q])
            == k0.processes@[q]
    &&& k1.has_process(pid)
    &&& p1 == (ProcessControlBlock {
        inner: ProcessControlBlockInner {
            signal_actions: p1.inner.signal_actions,
            ..p0.inner
        },
        ..p0
    })
    &&& user_range_ok(k1.mem@, root, action as int, 16, PTE_R)
    &&& p1.inner.signal_actions.table@ == p0.inner.signal_actions.table@.update(
        signum,
        action_of(
            Seq::new(16, |i: int| crate::mm::user::user_byte(k1.mem@, root, action + i)),
        ),
    )
}

/// What the system call that installs an action makes of the kernel `k0`,
/// with the result `r`: see [`sys_sigaction`].
pub open spec fn action_replaced(k0: Kernel, k1: Kernel, signum: i32, action: u64, old_action: u64, r: isize) -> bool {
    &&& r == 0 <==> sigaction_ok(k0, signum as int, action, old_action)
    &&& r != 0 ==> r == -1 && k1 == k0
    &&& r == 0 ==> action_installed(
                k0,
                k1,
                signum as int,
                action,
                old_action,
            )
}

/// The process that runs installs the action at the user address `action`
/// for the signal number `signum`; the action that was installed before is
/// stored at the user address `old_action`.  Returns 0, or -1 with nothing
/// changed when the number is no signal, when it is kill or stop, when an
/// address is null, when the action cannot be read, and when the previous
/// action cannot be written.
pub fn sys_sigaction(kernel: &mut Kernel, signum: i32, action: u64, old_action: u64) -> (r: isize)
    requires
        old(kernel).wf(),
        old(kernel).current is Some,
    ensures
        final(kernel).wf(),
        action_replaced(*old(kernel), *final(kernel), signum, action, old_action, r),
{
    let ghost k0 = *kernel;
    proof {
        k0.lemma_wf_kernel();
    }
    let pid: usize = kernel.current.unwrap();
    proof {
        k0.lemma_wf_process(pid as int);
        crate::mm::user::lemma_token_root(k0.space(pid as int), k0.mem@);
    }
    if signum < 0 || signum > 31 {
        return -1;
    }
    let sig: usize = signum as usize;
    if check_sigaction_error(sig, action, old_action) {
        return -1;
    }
    let token: u64 = match &kernel.processes[pid] {
        Some(p) => p.inner.memory_set.token(),
        None => 0,
    };
    if translated_byte_buffer(&kernel.mem, token, action, 16).is_none() {
        return -1;
    }
    if !user_writable(&kernel.mem, token, old_action, 16) {
        return -1;
    }
    install_action(kernel, sig, action, old_action, token);
    0
}

/// Installs an action that can be installed.
fn install_action(kernel: &mut Kernel, sig: usize, action: u64, old_action: u64, token: u64)
    requires
        old(kernel).wf(),
        old(kernel).current is Some,
        sigaction_ok(*old(kernel), sig as int, action, old_action),
        crate::mm::user::token_root(token) == old(kernel).space(
            old(kernel).current->0 as int,
        ).page_table.root(),
    ensures
        final(kernel).wf(),
        action_installed(*old(kernel), *final(kernel), sig as int, action, old_action),
{
    let ghost k0 = *kernel;
    proof {
        k0.lemma_wf_kernel();
    }
    let pid: usize = kernel.current.unwrap();
    proof {
        k0.lemma_wf_process(pid as int);
    }
    let prev: SignalAction = match &kernel.processes[pid] {
        Some(p) => p.inner.signal_actions.table[sig],
        None => SignalAction::default(),
    };
    let bytes = encode_action(&prev);
    let _ok: bool = kernel.write_user(pid, old_action, bytes.as_slice());
    let ghost ka = *kernel;
    proof {
        lemma_still_readable(k0, ka, pid as int, action);
    }
    let fresh: SignalAction = match translated_byte_buffer(&kernel.mem, token, action, 16) {
        Some(b) => {
            proof {
                assert(b@ =~= Seq::new(
                    16,
                    |i: int|
                        crate::mm::user::user_byte(
                            ka.mem@,
                            k0.space(pid as int).page_table.root(),
                            action + i,
                        ),
                ));
            }
            decode_action(b.as_slice())
        },
        None => SignalAction::default(),
    };
    match &mut kernel.processes[pid] {
        Some(p) => {
            p.inner.signal_actions.table[sig] = fresh;
        },
        None => {},
    }
    proof {
        assert(ka.same_frame(kernel)) by {
            assert forall|q: int| 0 <= q < ka.processes@.len() implies ((
            #[trigger] kernel.processes@[q]) is Some <==> ka.processes@[q] is Some) && (
            ka.processes@[q] is Some ==> Kernel::same_core(
                kernel.processes@[q]->0,
                ka.processes@[q]->0,
            )) by {}
        }
        ka.lemma_same_frame(kernel);
    }
}

/// What could be read at an address of a process before bytes were written
/// into its memory can be read there afterwards.
proof fn lemma_still_readable(k0: Kernel, ka: Kernel, pid: int, action: u64)
    requires
        k0.has_process(pid),
        ka.mem@.len() == k0.mem@.len(),
        user_range_ok(k0.mem@, k0.space(pid).page_table.root(), action as int, 16, PTE_R),
        forall|v: int| #[trigger]
            crate::mm::page_table::lookup(ka.mem@, k0.space(pid).page_table.root(), v)
                == crate::mm::page_table::lookup(k0.mem@, k0.space(pid).page_table.root(), v),
    ensures
        user_range_ok(ka.mem@, k0.space(pid).page_table.root(), action as int, 16, PTE_R),
{
    let root = k0.space(pid).page_table.root();
    assert forall|i: int| 0 <= i < 16 implies (#[trigger] crate::mm::user::user_slot(
        ka.mem@,
        root,
        action + i,
        PTE_R,
    )) is Some by {
        assert(crate::mm::user::user_slot(k0.mem@, root, action + i, PTE_R) is Some);
        assert(crate::mm::page_table::lookup(ka.mem@, root, (action + i) / 4096)
            == crate::mm::page_table::lookup(k0.mem@, root, (action + i) / 4096));
    }
}

/// What the kernel `k1` is after the process that runs in the kernel `k0`
/// has returned from the handler of a signal: its trap context is the one
/// that was saved when the handler was entered, and it handles no signal;
/// nothing else has changed.
pub open spec fn signal_returned(k0: Kernel, k1: Kernel) -> bool {
    let pid = k0.current->0 as int;
    let p0 = k0.pcb(pid);
    let cx = p0.inner.trap_ctx_backup->0;
    &&& k1 == (Kernel { mem: k1.mem, processes: k1.processes, ..k0 })
    &&& k1.mem@ == k0.mem@.update(k0.trap_frame(pid), cx.stored_in(k0.mem@[k0.trap_frame(pid)]))
    &&& forall|i: int| 0 <= i < 37 ==> k1.trap_word(pid, i) == cx.word(i)
    &&& k1.processes@ == k0.processes@.update(
        pid,
        Some(
            ProcessControlBlock {
                inner: ProcessControlBlockInner { handling_sig: -1isize, ..p0.inner },
                ..p0
            },
        ),
    )
}

/// What the system call that returns from a handler makes of the kernel
/// `k0`, with the result `r`: see [`sys_sigreturn`].
pub open spec fn handler_left(k0: Kernel, k1: Kernel, r: isize) -> bool {
    &&& k0.pcb(k0.current->0 as int).inner.trap_ctx_backup is None ==> r == -1
                && k1 == k0
    &&& k0.pcb(k0.current->0 as int).inner.trap_ctx_backup is Some
                ==> signal_returned(k0, k1)
    &&& k0.pcb(k0.current->0 as int).inner.trap_ctx_backup matches Some(cx)
                ==> ((cx.x@[10] <= isize::MAX || cx.x@[10] >= 0x1_0000_0000_0000_0000 + isize::MIN)
                ==> crate::trap::reg_of(r) == cx.x@[10])
}

/// The process that runs returns from the handler of a signal: the trap
/// context that was saved when the handler was entered is restored, so that
/// the process resumes where the signal interrupted it, and the process
/// handles no signal any more.  Returns the value of the return-value
/// register of the restored context, so that the register keeps it; or -1,
/// with nothing changed, when no trap context is saved.
pub fn sys_sigreturn(kernel: &mut Kernel) -> (r: isize)
    requires
        old(kernel).wf(),
        old(kernel).current is Some,
    ensures
        final(kernel).wf(),
        handler_left(*old(kernel), *final(kernel), r),
{
    let ghost k0 = *kernel;
    proof {
        k0.lemma_wf_kernel();
    }
    let pid: usize = kernel.current.unwrap();
    let backup: Option<TrapContext> = match &kernel.processes[pid] {
        Some(p) => p.inner.trap_ctx_backup,
        None => None,
    };
    let cx: TrapContext = match backup {
        Some(c) => c,
        None => {
            return -1;
        },
    };
    match &mut kernel.processes[pid] {
        Some(p) => {
            p.inner.handling_sig = -1;
        },
        None => {},
    }
    proof {
        assert(kernel.processes@ =~= k0.processes@.update(
            pid as int,
            Some(
                ProcessControlBlock {
                    inner: ProcessControlBlockInner { handling_sig: -1isize, ..k0.pcb(pid as int).inner },
                    ..k0.pcb(pid as int)
                },
            ),
        ));
        assert(k0.same_frame(kernel));
        k0.lemma_same_frame(kernel);
    }
    kernel.set_trap_cx(pid, &cx);
    crate::trap::reg_to_result(cx.x[crate::trap::context::REG_A0])
}

} // verus!
