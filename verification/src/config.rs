//! Layout constants of the modelled machine.

use vstd::prelude::*;

verus! {

/// Bytes in one page.
pub const PAGE_SIZE: u64 = 4096;

/// log2 of [`PAGE_SIZE`].
pub const PAGE_SIZE_BITS: u64 = 12;

/// Machine words (8 bytes each) in one page.
pub const PAGE_WORDS: usize = 512;

/// Entries in one page-table node.
pub const PT_FANOUT: u64 = 512;

/// Number of virtual page numbers of an Sv39 address space (2^27).
pub const VPN_LIMIT: u64 = 0x800_0000;

/// Number of physical page numbers a page-table entry can name (2^44).
pub const PPN_LIMIT: u64 = 0x1000_0000_0000;

/// Number of virtual addresses of an Sv39 address space (2^39).
pub const VA_LIMIT: u64 = 0x80_0000_0000;

/// Number of physical addresses (2^56).
pub const PA_LIMIT: u64 = 0x100_0000_0000_0000;

/// Bytes of every user stack.
pub const USER_STACK_SIZE: u64 = 8192;

/// Bytes of every kernel stack.
pub const KERNEL_STACK_SIZE: u64 = 8192;

/// Virtual address of the trampoline page: the last page of the 64-bit space.
pub const TRAMPOLINE: u64 = 0xffff_ffff_ffff_f000;

/// Virtual address of the trap-context page of thread 0; thread `t` has its
/// page `t` pages below.
pub const TRAP_CONTEXT_BASE: u64 = 0xffff_ffff_ffff_e000;

/// Virtual page number of the trampoline page (the highest Sv39 page).
pub const TRAMPOLINE_VPN: u64 = 0x7ff_ffff;

/// Virtual page number of the trap-context page of thread 0.
pub const TRAP_CONTEXT_VPN: u64 = 0x7ff_fffe;

} // verus!
