//! The way into the kernel and out of it: what a trap does, and what is
//! checked before a task returns to user mode.

use vstd::prelude::*;
use crate::config::{TRAMPOLINE, TRAP_CONTEXT_BASE};
use crate::syscall::{supported, syscall, SyscallInput};
use crate::task::delivery::{
    check_pending_signals, check_signals_error_of_current, current_add_signal, pending_delivered,
    unmasked, with_signals,
};
use crate::task::kernel::Kernel;
use crate::task::signal::{fatal_number, SignalFlags, SIGILL, SIGSEGV};
use crate::task::{exit_current_and_run_next, exited, suspend_current_and_run_next, suspended};
use crate::trap::cause::{cause, cause_of, Exception, Interrupt, Trap};
use crate::trap::context::TrapContext;

verus! {

/// A defect that stops the kernel.
#[derive(Copy, Clone, Debug, PartialEq, Eq, Structural)]
pub enum KernelFault {
    /// A trap with a cause that the kernel does not handle.
    UnsupportedTrap,
    /// A system call with a number that the kernel does not know.
    UnsupportedSyscall,
    /// A trap while the kernel itself ran.
    TrapFromKernel,
}

/// How the handling of a trap ends.
#[derive(Copy, Clone, Debug, PartialEq, Eq, Structural)]
pub enum TrapOutcome {
    /// The task that has the processor returns to user mode.
    Return,
    /// The task that had the processor has given way, and another task has
    /// it now, whose checks before the return to user mode are due.
    Switched,
    /// No task has the processor and none waits for it.
    Idle,
    /// The kernel cannot go on.
    Fatal(KernelFault),
}

/// How a step ends that leaves the kernel `k` behind without a task that
/// returns to user mode: another task has the processor, or none.
pub open spec fn gave_way(k: Kernel) -> TrapOutcome {
    if k.current is Some {
        TrapOutcome::Switched
    } else {
        TrapOutcome::Idle
    }
}

/// What the checks before the return to user mode make of the kernel `km`,
/// in which the pending signals of the task that runs have been delivered:
/// a process that is marked as killed exits with the code that was
/// recorded; else a process that is stopped gives the processor up and
/// stays ready; else a process with a fatal signal pending and not blocked
/// exits with the number of the lowest such signal; else the task returns
/// to user mode.
pub open spec fn checked(km: Kernel, k1: Kernel, r: TrapOutcome) -> bool {
    let p = km.pcb(km.current->0 as int).inner;
    if p.killed {
        exited(km, k1, p.exit_code) && r == gave_way(k1)
    } else if p.frozen {
        suspended(km, k1) && r == TrapOutcome::Switched
    } else if fatal_number(unmasked(p)) is Some {
        exited(km, k1, fatal_number(unmasked(p))->0 as i32) && r == gave_way(k1)
    } else {
        k1 == km && r == TrapOutcome::Return
    }
}

/// What the kernel `k1` is after the checks before the return to user
/// mode in the kernel `k0`: with no task on the processor nothing has
/// changed; else the pending signals of the task have been delivered, and
/// the outcome is as [`checked`] says.
pub open spec fn returned(k0: Kernel, k1: Kernel, r: TrapOutcome) -> bool {
    if k0.current is None {
        k1 == k0 && r == TrapOutcome::Idle
    } else {
        exists|km: Kernel| #[trigger] pending_delivered(k0, km) && km.wf() && checked(km, k1, r)
    }
}

/// Makes the checks that are due before the task that has the processor
/// returns to user mode: delivers its pending signals, and lets it exit or
/// give way if it is killed, stopped or hit by a fatal signal.
pub fn return_to_user(kernel: &mut Kernel) -> (r: TrapOutcome)
    requires
        old(kernel).wf(),
    ensures
        final(kernel).wf(),
        returned(*old(kernel), *final(kernel), r),
        r == TrapOutcome::Return ==> final(kernel).current is Some,
        r == TrapOutcome::Switched ==> final(kernel).current is Some,
        r == TrapOutcome::Idle ==> final(kernel).current is None,
        !(r is Fatal),
{
    if kernel.current.is_none() {
        return TrapOutcome::Idle;
    }
    let ghost k0 = *kernel;
    check_pending_signals(kernel);
    let ghost km = *kernel;
    proof {
        km.lemma_wf_kernel();
    }
    let pid: usize = kernel.current.unwrap();
    let (killed, frozen, code) = match &kernel.processes[pid] {
        Some(p) => (p.inner.killed, p.inner.frozen, p.inner.exit_code),
        None => (false, false, 0),
    };
    if killed {
        exit_current_and_run_next(kernel, code);
        return if kernel.current.is_some() {
            TrapOutcome::Switched
        } else {
            TrapOutcome::Idle
        };
    }
    if frozen {
        suspend_current_and_run_next(kernel);
        return TrapOutcome::Switched;
    }
    match check_signals_error_of_current(kernel) {
        Some((errno, _)) => {
            exit_current_and_run_next(kernel, errno);
            if kernel.current.is_some() {
                TrapOutcome::Switched
            } else {
                TrapOutcome::Idle
            }
        },
        None => TrapOutcome::Return,
    }
}

/// The values that the return to user mode hands to the trampoline: the
/// user address of the trap context of the task that has the processor,
/// and the token of its address space.
pub fn trap_return(kernel: &Kernel) -> (r: (u64, u64))
    requires
        kernel.wf(),
        kernel.current is Some,
    ensures
        r.0 == TRAP_CONTEXT_BASE,
        r.1 == 0x8000_0000_0000_0000 + kernel.space(
            kernel.current->0 as int,
        ).page_table.root_ppn.0 % crate::config::PPN_LIMIT,
{
    (TRAP_CONTEXT_BASE, crate::task::processor::current_user_token(kernel))
}

/// The value of the trap-vector register while the kernel runs: the
/// address of the routine that stops the kernel on a trap, in direct mode.
pub fn init(trap_from_kernel: u64) -> (r: u64)
    ensures
        r == trap_from_kernel - trap_from_kernel % 4,
{
    trap_from_kernel - trap_from_kernel % 4
}

/// The value of the trap-vector register while a task runs in user mode:
/// the address of the trampoline, in direct mode.
pub fn set_user_trap_entry() -> (r: u64)
    ensures
        r == TRAMPOLINE,
{
    TRAMPOLINE
}

/// The bit of the interrupt-enable register that lets the timer interrupt
/// the hart in supervisor mode.
pub fn enable_timer_interrupt() -> (r: u64)
    ensures
        r == 32,
{
    32
}

/// A trap while the kernel itself runs stops the kernel.
pub fn trap_from_kernel() -> (r: KernelFault)
    ensures
        r == KernelFault::TrapFromKernel,
{
    KernelFault::TrapFromKernel
}

/// Whether the cause `t` is a fault of a memory access.
pub open spec fn is_access_fault(t: Trap) -> bool {
    t == Trap::Exception(Exception::StoreFault) || t == Trap::Exception(
        Exception::StorePageFault,
    ) || t == Trap::Exception(Exception::LoadFault) || t == Trap::Exception(
        Exception::LoadPageFault,
    )
}

/// What the kernel `k1` is after the system call of the task that runs in
/// the kernel `k0` has been taken up: the program counter in the trap
/// context of the task has moved behind the instruction of the call.
pub open spec fn call_taken(k0: Kernel, k1: Kernel) -> bool {
    let pid = k0.current->0 as int;
    &&& k1 == (Kernel { mem: k1.mem, ..k0 })
    &&& k1.mem@.len() == k0.mem@.len()
    &&& forall|f: int|
        0 <= f < k0.mem@.len() && f != k0.trap_frame(pid) ==> (#[trigger] k1.mem@[f])
            == k0.mem@[f]
    &&& forall|i: int|
        0 <= i < 512 ==> (#[trigger] k1.trap_word(pid, i)) == (if i == 33 {
            ((k0.trap_word(pid, 33) + 4) % 0x1_0000_0000_0000_0000) as u64
        } else {
            k0.trap_word(pid, i)
        })
}

/// Takes the system call of the task that runs up: moves the program
/// counter in its trap context behind the instruction of the call, and
/// returns the number of the call and its three arguments.
pub fn take_call(kernel: &mut Kernel) -> (r: (usize, [u64; 3]))
    requires
        old(kernel).wf(),
        old(kernel).current is Some,
    ensures
        final(kernel).wf(),
        call_taken(*old(kernel), *final(kernel)),
        r.0 == crate::syscall::index_of(old(kernel).trap_word(old(kernel).current->0 as int, 17)),
        r.1@[0] == old(kernel).trap_word(old(kernel).current->0 as int, 10),
        r.1@[1] == old(kernel).trap_word(old(kernel).current->0 as int, 11),
        r.1@[2] == old(kernel).trap_word(old(kernel).current->0 as int, 12),
{
    proof {
        kernel.lemma_wf_kernel();
        kernel.lemma_wf_process(kernel.current->0 as int);
    }
    let pid: usize = kernel.current.unwrap();
    let mut cx: TrapContext = kernel.get_trap_cx(pid);
    let id: usize = crate::syscall::reg_index(cx.x[17]);
    let args: [u64; 3] = [cx.x[10], cx.x[11], cx.x[12]];
    cx.sepc = cx.sepc.wrapping_add(4);
    kernel.set_trap_cx(pid, &cx);
    proof {
        let f = old(kernel).trap_frame(pid as int);
        assert forall|i: int| 0 <= i < 512 implies (#[trigger] kernel.trap_word(pid as int, i))
            == (if i == 33 {
            ((old(kernel).trap_word(pid as int, 33) + 4) % 0x1_0000_0000_0000_0000) as u64
        } else {
            old(kernel).trap_word(pid as int, i)
        }) by {
            if i < 37 {
                assert(old(kernel).mem@[f][i] == old(kernel).trap_word(pid as int, i));
            }
        }
    }
    (id, args)
}

/// Stores the result `result` of a system call in the return-value
/// register of the trap context of the living process `pid`.
pub fn store_result(kernel: &mut Kernel, pid: usize, result: isize)
    requires
        old(kernel).wf(),
        old(kernel).is_live(pid as int),
    ensures
        final(kernel).wf(),
        *final(kernel) == (Kernel { mem: final(kernel).mem, ..*old(kernel) }),
        final(kernel).mem@.len() == old(kernel).mem@.len(),
        forall|f: int|
            0 <= f < old(kernel).mem@.len() && f != old(kernel).trap_frame(pid as int) ==> (
            #[trigger] final(kernel).mem@[f]) == old(kernel).mem@[f],
        forall|i: int|
            0 <= i < 512 ==> (#[trigger] final(kernel).trap_word(pid as int, i)) == (if i == 10 {
                crate::trap::reg_of(result)
            } else {
                old(kernel).trap_word(pid as int, i)
            }),
{
    proof {
        kernel.lemma_wf_process(pid as int);
    }
    let mut cx: TrapContext = kernel.get_trap_cx(pid);
    cx.x[crate::trap::context::REG_A0] = crate::trap::result_to_reg(result);
    kernel.set_trap_cx(pid, &cx);
    proof {
        let f = old(kernel).trap_frame(pid as int);
        assert forall|i: int| 0 <= i < 512 implies (#[trigger] kernel.trap_word(pid as int, i))
            == (if i == 10 {
            crate::trap::reg_of(result)
        } else {
            old(kernel).trap_word(pid as int, i)
        }) by {
            if i < 37 {
                assert(old(kernel).mem@[f][i] == old(kernel).trap_word(pid as int, i));
            }
        }
    }
}

/// What the kernel `kd` is after the trap with the cause bits `scause` has
/// been dealt with in the kernel `k0`, before the checks that precede the
/// return to user mode.
///
/// A system call: the program counter of the caller moves behind the call;
/// the call is handled; and if the caller still lives, the result is
/// stored in its return-value register.  A fault of a memory access: a
/// segmentation-fault signal becomes pending for the process.  An illegal
/// instruction: an illegal-instruction signal becomes pending.  A timer
/// interrupt: the task gives the processor up and stays ready.
pub open spec fn dispatched(k0: Kernel, kd: Kernel, scause: u64, input: SyscallInput) -> bool {
    let pid = k0.current->0 as int;
    let t = cause_of(scause);
    if t == Trap::Exception(Exception::UserEnvCall) {
        exists|ka: Kernel, kb: Kernel, res: isize|
            {
                &&& #[trigger] call_taken(k0, ka)
                &&& ka.wf()
                &&& #[trigger] crate::syscall::served(
                    ka,
                    kb,
                    crate::syscall::index_of(k0.trap_word(pid, 17)) as usize,
                    k0.trap_word(pid, 10),
                    k0.trap_word(pid, 11),
                    k0.trap_word(pid, 12),
                    input,
                    res,
                )
                &&& if kb.is_live(pid) {
                    result_stored(kb, kd, pid, res)
                } else {
                    kd == kb
                }
            }
    } else if is_access_fault(t) {
        signal_added(k0, kd, SIGSEGV)
    } else if t == Trap::Exception(Exception::IllegalInstruction) {
        signal_added(k0, kd, SIGILL)
    } else if t == Trap::Interrupt(Interrupt::SupervisorTimer) {
        suspended(k0, kd)
    } else {
        false
    }
}

/// Whether the kernel `k1` is the kernel `k0` with the signal of the bit
/// `bit` pending for the process that runs.
pub open spec fn signal_added(k0: Kernel, k1: Kernel, bit: u32) -> bool {
    let pid = k0.current->0 as int;
    &&& k1 == (Kernel { processes: k1.processes, ..k0 })
    &&& k1.processes@ == k0.processes@.update(
        pid,
        Some(
            with_signals(
                k0.pcb(pid),
                SignalFlags { bits: k0.pcb(pid).inner.signals.bits | bit },
            ),
        ),
    )
}

/// Whether the kernel `k1` is the kernel `k0` with the result `result` of
/// a system call in the return-value register of the process `pid`.
pub open spec fn result_stored(k0: Kernel, k1: Kernel, pid: int, result: isize) -> bool {
    &&& k1 == (Kernel { mem: k1.mem, ..k0 })
    &&& k1.mem@.len() == k0.mem@.len()
    &&& forall|f: int|
        0 <= f < k0.mem@.len() && f != k0.trap_frame(pid) ==> (#[trigger] k1.mem@[f])
            == k0.mem@[f]
    &&& forall|i: int|
        0 <= i < 512 ==> (#[trigger] k1.trap_word(pid, i)) == (if i == 10 {
            crate::trap::reg_of(result)
        } else {
            k0.trap_word(pid, i)
        })
}

/// Whether the kernel stops on the trap with the cause bits `scause` of
/// the task that runs in the kernel `k`, and why: the cause is none that
/// it handles, or the task has made a system call with a number that it
/// does not know.
pub open spec fn fault_of(k: Kernel, scause: u64) -> Option<KernelFault> {
    let t = cause_of(scause);
    if t == Trap::Exception(Exception::UserEnvCall) {
        if supported(crate::syscall::index_of(k.trap_word(k.current->0 as int, 17)) as usize) {
            None
        } else {
            Some(KernelFault::UnsupportedSyscall)
        }
    } else if is_access_fault(t) || t == Trap::Exception(Exception::IllegalInstruction) || t
        == Trap::Interrupt(Interrupt::SupervisorTimer) {
        None
    } else {
        Some(KernelFault::UnsupportedTrap)
    }
}

/// Handles the trap of the task that has the processor.  `scause` holds
/// the bits of the cause register, `stval` those of the trap-value
/// register, and `input` what the collaborators answered for the system
/// call, if the trap is one.
///
/// The kernel stops, with nothing changed, on a cause that it does not
/// handle and on a system call with an unknown number.  Else the trap is
/// dealt with as [`dispatched`] says, and the checks before the return to
/// user mode are made for the task that has the processor then.
pub fn trap_handler(kernel: &mut Kernel, scause: u64, stval: u64, input: &SyscallInput) -> (r:
    TrapOutcome)
    requires
        old(kernel).wf(),
        old(kernel).current is Some,
    ensures
        final(kernel).wf(),
        r matches TrapOutcome::Fatal(f) ==> fault_of(*old(kernel), scause) == Some(f) && *final(kernel) == *old(kernel),
        !(r is Fatal) ==> fault_of(*old(kernel), scause) is None && exists|kd: Kernel| #[trigger]
            dispatched(*old(kernel), kd, scause, *input) && kd.wf() && returned(kd, *final(kernel), r),
{
    let ghost k0 = *kernel;
    proof {
        k0.lemma_wf_kernel();
    }
    let pid: usize = kernel.current.unwrap();
    let t: Trap = cause(scause);
    match t {
        Trap::Exception(Exception::UserEnvCall) => {
            proof {
                k0.lemma_wf_process(pid as int);
            }
            let peek: TrapContext = kernel.get_trap_cx(pid);
            if !is_supported(crate::syscall::reg_index(peek.x[17])) {
                return TrapOutcome::Fatal(KernelFault::UnsupportedSyscall);
            }
            let (id, args) = take_call(kernel);
            let ghost ka = *kernel;
            let result: isize = syscall(kernel, id, args, input);
            let ghost kb = *kernel;
            let alive: bool = pid < kernel.processes.len() && match &kernel.processes[pid] {
                Some(p) => !p.inner.is_zombie,
                None => false,
            };
            if alive {
                store_result(kernel, pid, result);
            }
            proof {
                assert(call_taken(k0, ka));
                assert(dispatched(k0, *kernel, scause, *input));
            }
        },
        Trap::Exception(Exception::StoreFault)
        | Trap::Exception(Exception::StorePageFault)
        | Trap::Exception(Exception::LoadFault)
        | Trap::Exception(Exception::LoadPageFault) => {
            current_add_signal(kernel, SignalFlags { bits: SIGSEGV });
        },
        Trap::Exception(Exception::IllegalInstruction) => {
            current_add_signal(kernel, SignalFlags { bits: SIGILL });
        },
        Trap::Interrupt(Interrupt::SupervisorTimer) => {
            suspend_current_and_run_next(kernel);
        },
        _ => {
            return TrapOutcome::Fatal(KernelFault::UnsupportedTrap);
        },
    }
    let ghost kd = *kernel;
    proof {
        assert(dispatched(k0, kd, scause, *input));
    }
    return_to_user(kernel)
}

/// Whether `id` is the number of a system call.
pub fn is_supported(id: usize) -> (r: bool)
    ensures
        r == supported(id),
{
    id == crate::syscall::SYSCALL_DUP || id == crate::syscall::SYSCALL_UNLINKAT || id
        == crate::syscall::SYSCALL_LINKAT || id == crate::syscall::SYSCALL_OPEN || id
        == crate::syscall::SYSCALL_CLOSE || id == crate::syscall::SYSCALL_READ || id
        == crate::syscall::SYSCALL_WRITE || id == crate::syscall::SYSCALL_FSTAT || id
        == crate::syscall::SYSCALL_EXIT || id == crate::syscall::SYSCALL_YIELD || id
        == crate::syscall::SYSCALL_KILL || id == crate::syscall::SYSCALL_SIGACTION || id
        == crate::syscall::SYSCALL_SIGPROCMASK || id == crate::syscall::SYSCALL_SIGRETURN || id
        == crate::syscall::SYSCALL_SET_PRIORITY || id == crate::syscall::SYSCALL_GET_TIME || id
        == crate::syscall::SYSCALL_GETPID || id == crate::syscall::SYSCALL_FORK || id
        == crate::syscall::SYSCALL_EXEC || id == crate::syscall::SYSCALL_WAITPID || id
        == crate::syscall::SYSCALL_SPAWN || id == crate::syscall::SYSCALL_MAIL_READ || id
        == crate::syscall::SYSCALL_MAIL_WRITE || id == crate::syscall::SYSCALL_MMAP || id
        == crate::syscall::SYSCALL_MUNMAP || id == crate::syscall::SYSCALL_PIPE
}

/// A signal is pending and not blocked exactly when its bit is set in the
/// pending signals that are not blocked.
pub proof fn lemma_unmasked_bit(signals: u32, mask: u32, s: u32)
    requires
        s < 32,
    ensures
        ((signals & !mask) & (1u32 << s) != 0) == (signals & (1u32 << s) != 0 && mask & (1u32 << s)
            == 0),
{
    assert(((signals & !mask) & (1u32 << s) != 0) == (signals & (1u32 << s) != 0 && mask & (1u32
        << s) == 0)) by (bit_vector)
        requires
            s < 32,
    ;
}

/// A kill signal that is delivered to a running process terminates it: the
/// process becomes a zombie whose exit code is the number of the signal,
/// 9, also when a signal with a handler of the process is pending at the
/// same time.
///
/// This holds of a process that is not stopped or killed already, that
/// handles no signal at present, that does not block the kill signal, and
/// for which neither the default signal nor a fatal signal with a lower
/// number is pending.
pub proof fn lemma_kill_terminates(k0: Kernel, k1: Kernel, r: TrapOutcome)
    requires
        k0.wf(),
        k0.current is Some,
        returned(k0, k1, r),
        k0.pcb(k0.current->0 as int).inner.signals.has(9),
        !k0.pcb(k0.current->0 as int).inner.signal_mask.has(9),
        k0.pcb(k0.current->0 as int).inner.handling_sig == -1,
        !k0.pcb(k0.current->0 as int).inner.frozen,
        !k0.pcb(k0.current->0 as int).inner.killed,
        !k0.pcb(k0.current->0 as int).inner.signals.has(0),
        !k0.pcb(k0.current->0 as int).inner.signals.has(2),
        !k0.pcb(k0.current->0 as int).inner.signals.has(4),
        !k0.pcb(k0.current->0 as int).inner.signals.has(6),
        !k0.pcb(k0.current->0 as int).inner.signals.has(8),
    ensures
        k1.has_process(k0.current->0 as int),
        k1.pcb(k0.current->0 as int).inner.is_zombie,
        k1.pcb(k0.current->0 as int).inner.exit_code == 9,
        k1.status(k0.current->0 as int) == crate::task::task::TaskStatus::Zombie,
{
    let pid = k0.current->0 as int;
    let km = choose|km: Kernel| #[trigger] pending_delivered(k0, km) && km.wf() && checked(km, k1, r);
    let p0 = k0.pcb(pid);
    let p1 = km.pcb(pid);
    let cx = choose|cx: TrapContext|
        cx.held_by(k0.mem@[k0.trap_frame(pid)]) && #[trigger] crate::task::delivery::delivered(
            p0,
            p1,
            cx,
        );
    let u = crate::task::delivery::first_handler(p0.inner, 0);
    crate::task::delivery::lemma_first_handler_bounds(p0.inner, 0);
    assert(crate::task::delivery::deliverable(p0.inner, 9));
    assert(km.current == k0.current);
    if u > 9 {
        assert(crate::task::delivery::acted(p0.inner, 9, u));
        assert(p1.inner.killed);
        assert(p1.inner.exit_code == 9);
        crate::task::lemma_exited_zombie(km, k1, 9);
    } else {
        assert(crate::task::delivery::takes_handler(p0.inner, u));
        assert(u != 9 && u != 0);
        assert(p0.inner.signals.has(u));
        assert(!p1.inner.killed);
        assert(!p1.inner.frozen);
        let sig = p1.inner.signals.bits;
        let mask = p1.inner.signal_mask.bits;
        assert(p1.inner.signals.has(9));
        assert(!p1.inner.signals.has(2));
        assert(!p1.inner.signals.has(4));
        assert(!p1.inner.signals.has(6));
        assert(!p1.inner.signals.has(8));
        lemma_unmasked_bit(sig, mask, 2);
        lemma_unmasked_bit(sig, mask, 4);
        lemma_unmasked_bit(sig, mask, 6);
        lemma_unmasked_bit(sig, mask, 8);
        lemma_unmasked_bit(sig, mask, 9);
        assert(1u32 << 2u32 == 4u32 && 1u32 << 4u32 == 16u32 && 1u32 << 6u32 == 64u32 && 1u32
            << 8u32 == 256u32 && 1u32 << 9u32 == 512u32) by (bit_vector);
        assert(fatal_number(unmasked(p1.inner)) == Some(9int));
        crate::task::lemma_exited_zombie(km, k1, 9);
    }
}

} // verus!
