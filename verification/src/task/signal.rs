//! The signal set of a process and the actions installed for its signals.

use vstd::prelude::*;

verus! {

/// Highest signal number.
pub const MAX_SIG: usize = 31;

/// Default signal handling: terminates the process.
pub const SIGDEF: u32 = 0x1;

pub const SIGHUP: u32 = 0x2;

pub const SIGINT: u32 = 0x4;

pub const SIGQUIT: u32 = 0x8;

pub const SIGILL: u32 = 0x10;

pub const SIGTRAP: u32 = 0x20;

pub const SIGABRT: u32 = 0x40;

pub const SIGBUS: u32 = 0x80;

pub const SIGFPE: u32 = 0x100;

/// Terminates the process; no handler can be installed for it.
pub const SIGKILL: u32 = 0x200;

pub const SIGUSR1: u32 = 0x400;

pub const SIGSEGV: u32 = 0x800;

pub const SIGUSR2: u32 = 0x1000;

pub const SIGPIPE: u32 = 0x2000;

pub const SIGALRM: u32 = 0x4000;

pub const SIGTERM: u32 = 0x8000;

pub const SIGSTKFLT: u32 = 0x1_0000;

pub const SIGCHLD: u32 = 0x2_0000;

/// Lets a stopped process go on.
pub const SIGCONT: u32 = 0x4_0000;

/// Stops the process in place; no handler can be installed for it.
pub const SIGSTOP: u32 = 0x8_0000;

pub const SIGTSTP: u32 = 0x10_0000;

pub const SIGTTIN: u32 = 0x20_0000;

pub const SIGTTOU: u32 = 0x40_0000;

pub const SIGURG: u32 = 0x80_0000;

pub const SIGXCPU: u32 = 0x100_0000;

pub const SIGXFSZ: u32 = 0x200_0000;

pub const SIGVTALRM: u32 = 0x400_0000;

pub const SIGPROF: u32 = 0x800_0000;

pub const SIGWINCH: u32 = 0x1000_0000;

pub const SIGIO: u32 = 0x2000_0000;

pub const SIGPWR: u32 = 0x4000_0000;

pub const SIGSYS: u32 = 0x8000_0000;

/// Number of the kill signal.
pub const SIGKILL_NUM: usize = 9;

/// Number of the continue signal.
pub const SIGCONT_NUM: usize = 18;

/// Number of the stop signal.
pub const SIGSTOP_NUM: usize = 19;

/// The bit of signal number `sig`.
pub open spec fn sig_bit(sig: int) -> u32 {
    1u32 << (sig as u32)
}

/// A set of signals: bit `n` stands for signal number `n`.
#[derive(Copy, Clone, Debug, PartialEq, Eq, Structural)]
pub struct SignalFlags {
    pub bits: u32,
}

impl SignalFlags {
    /// Whether signal number `sig` is in the set.
    pub open spec fn has(&self, sig: int) -> bool {
        self.bits & sig_bit(sig) != 0
    }

    /// The set with the given bits.  Every bit of a `u32` is a signal, so
    /// this never fails.
    pub fn from_bits(bits: u32) -> (r: Option<Self>)
        ensures
            r == Some(SignalFlags { bits }),
    {
        Some(SignalFlags { bits })
    }

    /// The set that holds signal number `sig` alone; `None` when `sig` is
    /// above [`MAX_SIG`].
    pub fn from_signum(sig: usize) -> (r: Option<Self>)
        ensures
            r == (if sig <= MAX_SIG {
                Some(SignalFlags { bits: sig_bit(sig as int) })
            } else {
                None
            }),
    {
        if sig <= MAX_SIG {
            Some(SignalFlags { bits: 1u32 << (sig as u32) })
        } else {
            None
        }
    }

    /// The empty set.
    pub fn empty() -> (r: Self)
        ensures
            r.bits == 0,
            forall|sig: int| 0 <= sig <= MAX_SIG ==> !r.has(sig),
    {
        proof {
            assert forall|sig: int| 0 <= sig <= MAX_SIG implies !(SignalFlags { bits: 0 }).has(
                sig,
            ) by {
                let s = sig as u32;
                assert(0u32 & (1u32 << s) == 0) by (bit_vector);
            }
        }
        SignalFlags { bits: 0 }
    }

    /// The bits of the set.
    pub fn bits(&self) -> (r: u32)
        ensures
            r == self.bits,
    {
        self.bits
    }

    /// Whether every signal of `other` is in `self`.
    pub fn contains(&self, other: SignalFlags) -> (r: bool)
        ensures
            r == (self.bits & other.bits == other.bits),
    {
        self.bits & other.bits == other.bits
    }

    /// Whether signal number `sig` is in the set.
    pub fn contains_signum(&self, sig: usize) -> (r: bool)
        requires
            sig <= MAX_SIG,
        ensures
            r == self.has(sig as int),
    {
        self.bits & (1u32 << (sig as u32)) != 0
    }

    /// Adds the signals of `other`.
    pub fn insert(&mut self, other: SignalFlags)
        ensures
            final(self).bits == old(self).bits | other.bits,
    {
        self.bits = self.bits | other.bits;
    }

    /// Takes the signals of `other` out.
    pub fn remove(&mut self, other: SignalFlags)
        ensures
            final(self).bits == old(self).bits & !other.bits,
    {
        self.bits = self.bits & !other.bits;
    }

    /// The signals of `self` that are not in `other`.
    pub fn difference(&self, other: SignalFlags) -> (r: Self)
        ensures
            r.bits == self.bits & !other.bits,
    {
        SignalFlags { bits: self.bits & !other.bits }
    }

    /// The fatal signal of the set with the lowest number, if the set holds
    /// one of interrupt (2), illegal instruction (4), abort (6), erroneous
    /// arithmetic (8), kill (9) and segmentation fault (11): the signal's
    /// number, which becomes the exit code of the process, and a message.
    pub fn check_error(&self) -> (r: Option<(i32, &'static str)>)
        ensures
            r is Some <==> fatal_number(*self) is Some,
            r matches Some((n, _)) ==> fatal_number(*self) == Some(n as int),
    {
        if self.bits & SIGINT != 0 {
            Some((2, "Killed, SIGINT=2"))
        } else if self.bits & SIGILL != 0 {
            Some((4, "Illegal Instruction, SIGILL=4"))
        } else if self.bits & SIGABRT != 0 {
            Some((6, "Aborted, SIGABRT=6"))
        } else if self.bits & SIGFPE != 0 {
            Some((8, "Erroneous Arithmetic Operation, SIGFPE=8"))
        } else if self.bits & SIGKILL != 0 {
            Some((9, "Killed, SIGKILL=9"))
        } else if self.bits & SIGSEGV != 0 {
            Some((11, "Segmentation Fault, SIGSEGV=11"))
        } else {
            None
        }
    }
}

/// The number of the fatal signal with the lowest number in the set `s`.
pub open spec fn fatal_number(s: SignalFlags) -> Option<int> {
    if s.bits & SIGINT != 0 {
        Some(2)
    } else if s.bits & SIGILL != 0 {
        Some(4)
    } else if s.bits & SIGABRT != 0 {
        Some(6)
    } else if s.bits & SIGFPE != 0 {
        Some(8)
    } else if s.bits & SIGKILL != 0 {
        Some(9)
    } else if s.bits & SIGSEGV != 0 {
        Some(11)
    } else {
        None
    }
}

/// Taking a signal out of a set removes it and leaves the others as they
/// were.
pub proof fn lemma_remove_signal(bits: u32, s: u32, t: u32)
    requires
        s < 32,
        t < 32,
    ensures
        ((bits & !(1u32 << s)) & (1u32 << t) != 0) == (t != s && bits & (1u32 << t) != 0),
{
    assert(((bits & !(1u32 << s)) & (1u32 << t) != 0) == (t != s && bits & (1u32 << t) != 0))
        by (bit_vector)
        requires
            s < 32,
            t < 32,
    ;
}

/// What a process does when a signal is delivered to it.
#[derive(Copy, Clone, Debug, PartialEq, Eq, Structural)]
pub struct SignalAction {
    /// Address of the handler in user space; 0 when none is installed.
    pub handler: u64,
    /// The signals that stay pending while the handler runs.
    pub mask: SignalFlags,
}

impl SignalAction {
    /// The action of a process that has installed nothing: no handler, and
    /// quit and trap masked while handling.
    pub fn default() -> (r: Self)
        ensures
            r.handler == 0,
            r.mask.bits == 0x28,
    {
        SignalAction { handler: 0, mask: SignalFlags { bits: 0x28 } }
    }
}

/// The actions of a process, one per signal number.
#[derive(Copy, Clone, Debug)]
pub struct SignalActions {
    pub table: [SignalAction; 32],
}

impl SignalActions {
    /// The table of a process that has installed nothing.
    pub fn default() -> (r: Self)
        ensures
            forall|i: int| 0 <= i < 32 ==> #[trigger] r.table@[i] == (SignalAction {
                handler: 0,
                mask: SignalFlags { bits: 0x28 },
            }),
    {
        SignalActions { table: [SignalAction::default();32] }
    }
}

} // verus!
