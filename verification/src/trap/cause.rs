//! Why the hart trapped: the cause register, decoded.

use vstd::prelude::*;

verus! {

/// An interrupt in supervisor mode.
#[derive(Copy, Clone, Debug, PartialEq, Eq, Structural)]
pub enum Interrupt {
    UserSoft,
    SupervisorSoft,
    UserTimer,
    SupervisorTimer,
    UserExternal,
    SupervisorExternal,
    Unknown,
}

/// An exception in supervisor mode.
#[derive(Copy, Clone, Debug, PartialEq, Eq, Structural)]
pub enum Exception {
    InstructionMisaligned,
    InstructionFault,
    IllegalInstruction,
    Breakpoint,
    LoadFault,
    StoreMisaligned,
    StoreFault,
    UserEnvCall,
    InstructionPageFault,
    LoadPageFault,
    StorePageFault,
    Unknown,
}

/// The cause of a trap.
#[derive(Copy, Clone, Debug, PartialEq, Eq, Structural)]
pub enum Trap {
    Interrupt(Interrupt),
    Exception(Exception),
}

/// The interrupt with the code `nr`.
pub open spec fn interrupt_of(nr: usize) -> Interrupt {
    if nr == 0 {
        Interrupt::UserSoft
    } else if nr == 1 {
        Interrupt::SupervisorSoft
    } else if nr == 4 {
        Interrupt::UserTimer
    } else if nr == 5 {
        Interrupt::SupervisorTimer
    } else if nr == 8 {
        Interrupt::UserExternal
    } else if nr == 9 {
        Interrupt::SupervisorExternal
    } else {
        Interrupt::Unknown
    }
}

/// The exception with the code `nr`.
pub open spec fn exception_of(nr: usize) -> Exception {
    if nr == 0 {
        Exception::InstructionMisaligned
    } else if nr == 1 {
        Exception::InstructionFault
    } else if nr == 2 {
        Exception::IllegalInstruction
    } else if nr == 3 {
        Exception::Breakpoint
    } else if nr == 5 {
        Exception::LoadFault
    } else if nr == 6 {
        Exception::StoreMisaligned
    } else if nr == 7 {
        Exception::StoreFault
    } else if nr == 8 {
        Exception::UserEnvCall
    } else if nr == 12 {
        Exception::InstructionPageFault
    } else if nr == 13 {
        Exception::LoadPageFault
    } else if nr == 15 {
        Exception::StorePageFault
    } else {
        Exception::Unknown
    }
}

/// The interrupt with the code `nr`.
pub fn interrupt_from(nr: usize) -> (r: Interrupt)
    ensures
        r == interrupt_of(nr),
{
    if nr == 0 {
        Interrupt::UserSoft
    } else if nr == 1 {
        Interrupt::SupervisorSoft
    } else if nr == 4 {
        Interrupt::UserTimer
    } else if nr == 5 {
        Interrupt::SupervisorTimer
    } else if nr == 8 {
        Interrupt::UserExternal
    } else if nr == 9 {
        Interrupt::SupervisorExternal
    } else {
        Interrupt::Unknown
    }
}

/// The exception with the code `nr`.
pub fn exception_from(nr: usize) -> (r: Exception)
    ensures
        r == exception_of(nr),
{
    if nr == 0 {
        Exception::InstructionMisaligned
    } else if nr == 1 {
        Exception::InstructionFault
    } else if nr == 2 {
        Exception::IllegalInstruction
    } else if nr == 3 {
        Exception::Breakpoint
    } else if nr == 5 {
        Exception::LoadFault
    } else if nr == 6 {
        Exception::StoreMisaligned
    } else if nr == 7 {
        Exception::StoreFault
    } else if nr == 8 {
        Exception::UserEnvCall
    } else if nr == 12 {
        Exception::InstructionPageFault
    } else if nr == 13 {
        Exception::LoadPageFault
    } else if nr == 15 {
        Exception::StorePageFault
    } else {
        Exception::Unknown
    }
}

/// The cause that the bits `scause` of the cause register stand for: the
/// top bit tells an interrupt from an exception, the other bits are the
/// code.  A code that the machine word of the host cannot hold is unknown.
pub open spec fn cause_of(scause: u64) -> Trap {
    let code = scause % 0x8000_0000_0000_0000;
    if scause >= 0x8000_0000_0000_0000 {
        if code <= usize::MAX {
            Trap::Interrupt(interrupt_of(code as usize))
        } else {
            Trap::Interrupt(Interrupt::Unknown)
        }
    } else {
        if code <= usize::MAX {
            Trap::Exception(exception_of(code as usize))
        } else {
            Trap::Exception(Exception::Unknown)
        }
    }
}

/// Decodes the bits of the cause register.
pub fn cause(scause: u64) -> (r: Trap)
    ensures
        r == cause_of(scause),
{
    let code: u64 = scause % 0x8000_0000_0000_0000;
    if scause >= 0x8000_0000_0000_0000 {
        if code <= usize::MAX as u64 {
            Trap::Interrupt(interrupt_from(code as usize))
        } else {
            Trap::Interrupt(Interrupt::Unknown)
        }
    } else {
        if code <= usize::MAX as u64 {
            Trap::Exception(exception_from(code as usize))
        } else {
            Trap::Exception(Exception::Unknown)
        }
    }
}

} // verus!
