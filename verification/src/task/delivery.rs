//! Delivery of pending signals to the process that is about to return to
//! user mode.

use vstd::prelude::*;
use crate::task::kernel::Kernel;
use crate::task::process::{ProcessControlBlock, ProcessControlBlockInner};
use crate::task::signal::{
    fatal_number, lemma_remove_signal, sig_bit, SignalFlags, MAX_SIG, SIGCONT_NUM, SIGKILL_NUM,
    SIGSTOP_NUM,
};
use crate::trap::context::TrapContext;

verus! {

/// Whether the kernel itself acts on signal number `sig`: the default
/// signal (0), kill (9), continue (18) and stop (19).
pub open spec fn reserved(sig: int) -> bool {
    sig == 0 || sig == 9 || sig == 18 || sig == 19
}

/// Whether the action of the signal that process `p` handles at present
/// masks signal number `sig`.
pub open spec fn masked_by_handler(p: ProcessControlBlockInner, sig: int) -> bool {
    0 <= p.handling_sig <= 31 && p.signal_actions.table@[p.handling_sig as int].mask.has(sig)
}

/// Whether signal number `sig` is delivered to process `p` now: it is
/// pending, not blocked, and not masked by the handler that runs.
pub open spec fn deliverable(p: ProcessControlBlockInner, sig: int) -> bool {
    p.signals.has(sig) && !p.signal_mask.has(sig) && !masked_by_handler(p, sig)
}

/// Whether signal number `sig` enters a handler of process `p`: it is
/// delivered, the kernel does not act on it itself, and a handler is
/// installed for it.
pub open spec fn takes_handler(p: ProcessControlBlockInner, sig: int) -> bool {
    deliverable(p, sig) && !reserved(sig) && p.signal_actions.table@[sig].handler != 0
}

/// The lowest signal number from `from` on that enters a handler of
/// process `p`; 32 when there is none.
pub open spec fn first_handler(p: ProcessControlBlockInner, from: int) -> int
    decreases 32 - from,
{
    if from >= 32 {
        32
    } else if takes_handler(p, from) {
        from
    } else {
        first_handler(p, from + 1)
    }
}

/// Whether the kernel acts on the reserved signal `sig` of process `p` in
/// a delivery that goes through the signals below `upto`.
pub open spec fn acted(p: ProcessControlBlockInner, sig: int, upto: int) -> bool {
    sig < upto && deliverable(p, sig)
}

/// Whether `p1` is `p0` except for what the delivery of signals changes:
/// the pending signals, the stopped and killed marks, the exit code, the
/// number of the handled signal and the saved trap context.
pub open spec fn same_but_signals(p0: ProcessControlBlock, p1: ProcessControlBlock) -> bool {
    &&& p1.pid == p0.pid
    &&& p1.inner.is_zombie == p0.inner.is_zombie
    &&& p1.inner.memory_set == p0.inner.memory_set
    &&& p1.inner.parent == p0.inner.parent
    &&& p1.inner.children == p0.inner.children
    &&& p1.inner.fd_table == p0.inner.fd_table
    &&& p1.inner.signal_mask == p0.inner.signal_mask
    &&& p1.inner.signal_actions == p0.inner.signal_actions
    &&& p1.inner.task == p0.inner.task
    &&& p1.inner.task_res_allocator == p0.inner.task_res_allocator
}

/// What the process `p1` is after the signals below `upto` have been
/// delivered to the process `p0`, none of them entering a handler: stop and
/// continue have been taken from the pending signals and have set and
/// cleared the stopped mark, in the order of their numbers; the default
/// signal and kill have set the killed mark and their number as the exit
/// code, and stay pending.
pub open spec fn kernel_part(p0: ProcessControlBlock, p1: ProcessControlBlock, upto: int) -> bool {
    let i0 = p0.inner;
    &&& same_but_signals(p0, p1)
    &&& forall|s: int|
        0 <= s < 32 ==> (#[trigger] p1.inner.signals.has(s) <==> i0.signals.has(s) && !((s == 18
            || s == 19) && acted(i0, s, upto)))
    &&& p1.inner.frozen == (if acted(i0, 19, upto) {
        true
    } else if acted(i0, 18, upto) {
        false
    } else {
        i0.frozen
    })
    &&& p1.inner.killed == (i0.killed || acted(i0, 0, upto) || acted(i0, 9, upto))
    &&& p1.inner.exit_code == (if acted(i0, 9, upto) {
        9i32
    } else if acted(i0, 0, upto) {
        0i32
    } else {
        i0.exit_code
    })
}

/// What the delivery of signals makes of the process `p0` whose trap
/// context is `cx`.  With `u` the lowest signal that enters a handler: the
/// kernel has acted on the reserved signals below `u`; and if there is such
/// a `u`, it is no longer pending, it is the signal that the process
/// handles, and `cx` is saved.
pub open spec fn delivered(
    p0: ProcessControlBlock,
    p1: ProcessControlBlock,
    cx: TrapContext,
) -> bool {
    let u = first_handler(p0.inner, 0);
    let i0 = p0.inner;
    &&& same_but_signals(p0, p1)
    &&& forall|s: int|
        0 <= s < 32 ==> (#[trigger] p1.inner.signals.has(s) <==> i0.signals.has(s) && !((s == 18
            || s == 19) && acted(i0, s, u)) && s != u)
    &&& p1.inner.frozen == (if acted(i0, 19, u) {
        true
    } else if acted(i0, 18, u) {
        false
    } else {
        i0.frozen
    })
    &&& p1.inner.killed == (i0.killed || acted(i0, 0, u) || acted(i0, 9, u))
    &&& p1.inner.exit_code == (if acted(i0, 9, u) {
        9i32
    } else if acted(i0, 0, u) {
        0i32
    } else {
        i0.exit_code
    })
    &&& p1.inner.handling_sig == (if u < 32 {
        u as isize
    } else {
        i0.handling_sig
    })
    &&& p1.inner.trap_ctx_backup == (if u < 32 {
        Some(cx)
    } else {
        i0.trap_ctx_backup
    })
}

/// Whether signal number `sig` is delivered to the process now.
pub fn is_deliverable(p: &ProcessControlBlockInner, sig: usize) -> (r: bool)
    requires
        sig <= MAX_SIG,
    ensures
        r == deliverable(*p, sig as int),
{
    if !p.signals.contains_signum(sig) || p.signal_mask.contains_signum(sig) {
        return false;
    }
    let h: isize = p.handling_sig;
    if 0 <= h && h <= 31 {
        !p.signal_actions.table[h as usize].mask.contains_signum(sig)
    } else {
        true
    }
}

/// The kernel acts on the reserved signal `sig`, which is delivered to the
/// process: stop sets the stopped mark, continue clears it, and both leave
/// the pending signals; the default signal and kill set the killed mark
/// and their number as the exit code.
fn call_kernel_signal_handler(
    p: &mut ProcessControlBlock,
    sig: usize,
    Ghost(p0): Ghost<ProcessControlBlock>,
)
    requires
        reserved(sig as int),
        kernel_part(p0, *old(p), sig as int),
        old(p).inner.handling_sig == p0.inner.handling_sig,
        old(p).inner.trap_ctx_backup == p0.inner.trap_ctx_backup,
        deliverable(p0.inner, sig as int),
    ensures
        kernel_part(p0, *final(p), sig + 1),
        final(p).inner.handling_sig == p0.inner.handling_sig,
        final(p).inner.trap_ctx_backup == p0.inner.trap_ctx_backup,
{
    let ghost before = *p;
    if sig == SIGSTOP_NUM {
        p.inner.frozen = true;
        p.inner.signals.remove(SignalFlags { bits: 1u32 << (sig as u32) });
    } else if sig == SIGCONT_NUM {
        p.inner.frozen = false;
        p.inner.signals.remove(SignalFlags { bits: 1u32 << (sig as u32) });
    } else {
        p.inner.killed = true;
        p.inner.exit_code = sig as i32;
    }
    proof {
        assert forall|s: int| 0 <= s < 32 implies (#[trigger] p.inner.signals.has(s)
            <==> p0.inner.signals.has(s) && !((s == 18 || s == 19) && acted(
            p0.inner,
            s,
            sig + 1,
        ))) by {
            assert(before.inner.signals.has(s) <==> p0.inner.signals.has(s) && !((s == 18 || s
                == 19) && acted(p0.inner, s, sig as int)));
            if sig == 19 || sig == 18 {
                lemma_remove_signal(before.inner.signals.bits, sig as u32, s as u32);
            }
        }
    }
}

/// The delivered signal `sig`, for which a handler is installed, enters
/// its handler: it leaves the pending signals and becomes the signal that
/// the process handles, and the trap context `cx` is saved.  Returns the
/// trap context with which the handler starts: the program counter at the
/// handler, the first argument the number of the signal.
fn call_user_signal_handler(
    p: &mut ProcessControlBlock,
    sig: usize,
    cx: TrapContext,
    Ghost(p0): Ghost<ProcessControlBlock>,
) -> (r: TrapContext)
    requires
        sig <= MAX_SIG,
        kernel_part(p0, *old(p), sig as int),
        old(p).inner.handling_sig == p0.inner.handling_sig,
        old(p).inner.trap_ctx_backup == p0.inner.trap_ctx_backup,
        takes_handler(p0.inner, sig as int),
        first_handler(p0.inner, 0) == sig,
    ensures
        delivered(p0, *final(p), cx),
        r.x@ == cx.x@.update(10, sig as u64),
        r.sepc == p0.inner.signal_actions.table@[sig as int].handler,
        r.sstatus == cx.sstatus,
        r.kernel_satp == cx.kernel_satp,
        r.kernel_sp == cx.kernel_sp,
        r.trap_handler == cx.trap_handler,
{
    let ghost before = *p;
    let handler: u64 = p.inner.signal_actions.table[sig].handler;
    p.inner.handling_sig = sig as isize;
    p.inner.signals.remove(SignalFlags { bits: 1u32 << (sig as u32) });
    p.inner.trap_ctx_backup = Some(cx);
    let mut out = cx;
    out.sepc = handler;
    out.x[crate::trap::context::REG_A0] = sig as u64;
    proof {
        assert forall|s: int| 0 <= s < 32 implies (#[trigger] p.inner.signals.has(s)
            <==> p0.inner.signals.has(s) && !((s == 18 || s == 19) && acted(
            p0.inner,
            s,
            sig as int,
        )) && s != sig) by {
            assert(before.inner.signals.has(s) <==> p0.inner.signals.has(s) && !((s == 18 || s
                == 19) && acted(p0.inner, s, sig as int)));
            lemma_remove_signal(before.inner.signals.bits, sig as u32, s as u32);
        }
    }
    out
}

/// No signal below `n` enters a handler exactly when the first that does,
/// counted from 0, is the first counted from `n`.
pub proof fn lemma_first_handler_skip(p: ProcessControlBlockInner, n: int)
    requires
        0 <= n <= 32,
        forall|s: int| 0 <= s < n ==> !takes_handler(p, s),
    ensures
        first_handler(p, 0) == first_handler(p, n),
        first_handler(p, n) >= n,
    decreases n,
{
    lemma_first_handler_bounds(p, n);
    if n > 0 {
        lemma_first_handler_skip(p, n - 1);
        assert(first_handler(p, n - 1) == first_handler(p, n));
    }
}

/// The first signal from `n` on that enters a handler is at least `n` and
/// at most 32, and it does enter a handler if it is below 32.
pub proof fn lemma_first_handler_bounds(p: ProcessControlBlockInner, n: int)
    requires
        0 <= n <= 32,
    ensures
        n <= first_handler(p, n) <= 32,
        first_handler(p, n) < 32 ==> takes_handler(p, first_handler(p, n)),
        forall|s: int| n <= s < first_handler(p, n) ==> !takes_handler(p, s),
    decreases 32 - n,
{
    if n < 32 && !takes_handler(p, n) {
        lemma_first_handler_bounds(p, n + 1);
    }
}

/// Delivers signal number `sig` to the process if it is to be delivered,
/// after the signals below it, of which none has entered a handler.
/// Returns the trap context with which the handler starts if the signal
/// enters one.
fn deliver_one(
    p: &mut ProcessControlBlock,
    sig: usize,
    cx: TrapContext,
    Ghost(p0): Ghost<ProcessControlBlock>,
) -> (r: Option<TrapContext>)
    requires
        sig <= MAX_SIG,
        kernel_part(p0, *old(p), sig as int),
        old(p).inner.handling_sig == p0.inner.handling_sig,
        old(p).inner.trap_ctx_backup == p0.inner.trap_ctx_backup,
        forall|s: int| 0 <= s < sig ==> !takes_handler(p0.inner, s),
    ensures
        r is None ==> {
            &&& kernel_part(p0, *final(p), sig + 1)
            &&& final(p).inner.handling_sig == p0.inner.handling_sig
            &&& final(p).inner.trap_ctx_backup == p0.inner.trap_ctx_backup
            &&& !takes_handler(p0.inner, sig as int)
        },
        r matches Some(c) ==> {
            &&& first_handler(p0.inner, 0) == sig
            &&& delivered(p0, *final(p), cx)
            &&& c.x@ == cx.x@.update(10, sig as u64)
            &&& c.sepc == p0.inner.signal_actions.table@[sig as int].handler
            &&& c.sstatus == cx.sstatus
            &&& c.kernel_satp == cx.kernel_satp
            &&& c.kernel_sp == cx.kernel_sp
            &&& c.trap_handler == cx.trap_handler
        },
{
    proof {
        assert(p.inner.signals.has(sig as int) <==> p0.inner.signals.has(sig as int));
        assert(deliverable(p.inner, sig as int) == deliverable(p0.inner, sig as int));
    }
    if !is_deliverable(&p.inner, sig) {
        return None;
    }
    if sig == 0 || sig == SIGKILL_NUM || sig == SIGCONT_NUM || sig == SIGSTOP_NUM {
        call_kernel_signal_handler(p, sig, Ghost(p0));
        return None;
    }
    if p.inner.signal_actions.table[sig].handler == 0 {
        return None;
    }
    proof {
        lemma_first_handler_skip(p0.inner, sig as int);
    }
    Some(call_user_signal_handler(p, sig, cx, Ghost(p0)))
}

/// What the kernel `k1` is after the pending signals of the process that
/// runs in the kernel `k0` have been delivered: the process is as
/// [`delivered`] says; if a signal has entered its handler, the trap
/// context of the process has the program counter at the handler and the
/// number of the signal as first argument, and is otherwise as before;
/// nothing else has changed.
pub open spec fn pending_delivered(k0: Kernel, k1: Kernel) -> bool {
    let pid = k0.current->0 as int;
    let p0 = k0.pcb(pid);
    let u = first_handler(p0.inner, 0);
    &&& k1 == (Kernel { mem: k1.mem, processes: k1.processes, ..k0 })
    &&& k1.processes@.len() == k0.processes@.len()
    &&& forall|q: int|
        0 <= q < k0.processes@.len() && q != pid ==> (#[trigger] k1.processes@[q])
            == k0.processes@[q]
    &&& k1.has_process(pid)
    &&& exists|cx: TrapContext|
        cx.held_by(k0.mem@[k0.trap_frame(pid)]) && #[trigger] delivered(p0, k1.pcb(pid), cx)
    &&& k1.mem@.len() == k0.mem@.len()
    &&& forall|f: int|
        0 <= f < k0.mem@.len() && f != k0.trap_frame(pid) ==> (#[trigger] k1.mem@[f])
            == k0.mem@[f]
    &&& forall|i: int|
        0 <= i < 512 ==> (#[trigger] k1.trap_word(pid, i)) == (if u < 32 && i == 10 {
            u as u64
        } else if u < 32 && i == 33 {
            p0.inner.signal_actions.table@[u].handler
        } else {
            k0.trap_word(pid, i)
        })
}

/// Delivers the pending signals of the process that runs, from the lowest
/// number up, until one enters its handler.
pub fn check_pending_signals(kernel: &mut Kernel)
    requires
        old(kernel).wf(),
        old(kernel).current is Some,
    ensures
        final(kernel).wf(),
        pending_delivered(*old(kernel), *final(kernel)),
{
    let pid: usize = kernel.current.unwrap();
    proof {
        kernel.lemma_wf_kernel();
        kernel.lemma_wf_process(pid as int);
    }
    let cx: TrapContext = kernel.get_trap_cx(pid);
    let ghost p0 = kernel.pcb(pid as int);
    let mut sig: usize = 0;
    let mut entered: Option<TrapContext> = None;
    while sig <= MAX_SIG && entered.is_none()
        invariant
            sig <= 32,
            pid < old(kernel).processes@.len(),
            old(kernel).wf(),
            old(kernel).has_process(pid as int),
            p0 == old(kernel).pcb(pid as int),
            *kernel == (Kernel { processes: kernel.processes, ..*old(kernel) }),
            kernel.processes@.len() == old(kernel).processes@.len(),
            forall|q: int|
                0 <= q < kernel.processes@.len() && q != pid ==> (#[trigger] kernel.processes@[q])
                    == old(kernel).processes@[q],
            kernel.processes@[pid as int] is Some,
            entered is None ==> {
                &&& kernel_part(p0, kernel.pcb(pid as int), sig as int)
                &&& kernel.pcb(pid as int).inner.handling_sig == p0.inner.handling_sig
                &&& kernel.pcb(pid as int).inner.trap_ctx_backup == p0.inner.trap_ctx_backup
                &&& forall|s: int| 0 <= s < sig ==> !takes_handler(p0.inner, s)
            },
            entered matches Some(c) ==> {
                &&& first_handler(p0.inner, 0) < 32
                &&& delivered(p0, kernel.pcb(pid as int), cx)
                &&& c.x@ == cx.x@.update(10, first_handler(p0.inner, 0) as u64)
                &&& c.sepc == p0.inner.signal_actions.table@[first_handler(p0.inner, 0)].handler
                &&& c.sstatus == cx.sstatus
                &&& c.kernel_satp == cx.kernel_satp
                &&& c.kernel_sp == cx.kernel_sp
                &&& c.trap_handler == cx.trap_handler
            },
        decreases 33 - sig - (if entered is Some {
            1int
        } else {
            0int
        }),
    {
        match &mut kernel.processes[pid] {
            Some(p) => {
                entered = deliver_one(p, sig, cx, Ghost(p0));
            },
            None => {},
        }
        if entered.is_none() {
            sig = sig + 1;
        }
    }
    proof {
        if entered is None {
            lemma_first_handler_skip(p0.inner, 32);
        }
        assert(old(kernel).same_frame(kernel)) by {
            assert forall|q: int| 0 <= q < old(kernel).processes@.len() implies ((
            #[trigger] kernel.processes@[q]) is Some <==> old(kernel).processes@[q] is Some) && (
            old(kernel).processes@[q] is Some ==> Kernel::same_core(
                kernel.processes@[q]->0,
                old(kernel).processes@[q]->0,
            )) by {
                if q != pid {
                    assert(kernel.processes@[q] == old(kernel).processes@[q]);
                }
            }
        }
        old(kernel).lemma_same_frame(kernel);
    }
    let ghost k1 = *kernel;
    match entered {
        Some(c) => {
            kernel.set_trap_cx(pid, &c);
            proof {
                let f = old(kernel).trap_frame(pid as int);
                assert(k1.trap_frame(pid as int) == f);
                assert forall|i: int| 0 <= i < 512 implies (#[trigger] kernel.trap_word(
                    pid as int,
                    i,
                )) == (if i == 10 {
                    first_handler(p0.inner, 0) as u64
                } else if i == 33 {
                    p0.inner.signal_actions.table@[first_handler(p0.inner, 0)].handler
                } else {
                    old(kernel).trap_word(pid as int, i)
                }) by {
                    if i < 37 {
                        assert(cx.word(i) == old(kernel).mem@[f][i]);
                    }
                }
            }
        },
        None => {},
    }
    proof {
        assert(kernel.pcb(pid as int) == k1.pcb(pid as int));
        assert(cx.held_by(old(kernel).mem@[old(kernel).trap_frame(pid as int)]));
        assert(delivered(p0, kernel.pcb(pid as int), cx));
    }
}

/// Adds the signals of `signal` to the pending signals of the process that
/// runs.
pub fn current_add_signal(kernel: &mut Kernel, signal: SignalFlags)
    requires
        old(kernel).wf(),
        old(kernel).current is Some,
    ensures
        final(kernel).wf(),
        *final(kernel) == (Kernel { processes: final(kernel).processes, ..*old(kernel) }),
        final(kernel).processes@ == old(kernel).processes@.update(
            old(kernel).current->0 as int,
            Some(
                with_signals(
                    old(kernel).pcb(old(kernel).current->0 as int),
                    SignalFlags {
                        bits: old(kernel).pcb(old(kernel).current->0 as int).inner.signals.bits
                            | signal.bits,
                    },
                ),
            ),
        ),
{
    let pid: usize = kernel.current.unwrap();
    proof {
        kernel.lemma_wf_kernel();
    }
    match &mut kernel.processes[pid] {
        Some(p) => {
            p.inner.signals.insert(signal);
        },
        None => {},
    }
    proof {
        let target = old(kernel).processes@.update(
            pid as int,
            Some(
                with_signals(
                    old(kernel).pcb(pid as int),
                    SignalFlags { bits: old(kernel).pcb(pid as int).inner.signals.bits | signal.bits },
                ),
            ),
        );
        assert(kernel.processes@ =~= target);
        assert(old(kernel).same_frame(kernel));
        old(kernel).lemma_same_frame(kernel);
    }
}

/// The control block `p` with the pending signals replaced by `s`.
pub open spec fn with_signals(p: ProcessControlBlock, s: SignalFlags) -> ProcessControlBlock {
    ProcessControlBlock { inner: ProcessControlBlockInner { signals: s, ..p.inner }, ..p }
}

/// The pending signals of process `p` that it does not block.
pub open spec fn unmasked(p: ProcessControlBlockInner) -> SignalFlags {
    SignalFlags { bits: p.signals.bits & !p.signal_mask.bits }
}

/// Whether a fatal signal of the process that runs is pending and not
/// blocked: the number of the lowest such signal, which is to be the exit
/// code of the process, and a message.
pub fn check_signals_error_of_current(kernel: &Kernel) -> (r: Option<(i32, &'static str)>)
    requires
        kernel.wf(),
        kernel.current is Some,
    ensures
        r is Some <==> fatal_number(unmasked(kernel.pcb(kernel.current->0 as int).inner))
            is Some,
        r matches Some((n, _)) ==> fatal_number(
            unmasked(kernel.pcb(kernel.current->0 as int).inner),
        ) == Some(n as int),
{
    let pid: usize = kernel.current.unwrap();
    proof {
        kernel.lemma_wf_kernel();
    }
    match &kernel.processes[pid] {
        Some(p) => p.inner.signals.difference(p.inner.signal_mask).check_error(),
        None => None,
    }
}

} // verus!
