//! Core of a small RISC-V teaching kernel, modelled over explicit state.
//!
//! The crate holds the logic that gives every process its own address space,
//! shares the processor between tasks and turns traps into system calls and
//! signals.  Hardware is not touched here: physical memory is a value of type
//! [`mm::PhysMemory`], the whole kernel is a value of type
//! [`task::Kernel`], and every operation is a function from one state to the
//! next whose contract is checked by Verus.
//!
//! Machine words (registers, addresses, page-table entries) are `u64`, since
//! the modelled hart is RV64; `usize` is kept for indices into tables.
//!
//! The modules, leaves first: [`config`] holds the constants of the memory
//! layout; [`mm`] the frame allocator, the page table, the address spaces
//! and the loader of programs; [`task`] the processes, their identifiers
//! and the scheduler; [`trap`] the trap context and the handling of traps;
//! [`syscall`] the system calls; [`fs`] what the kernel asks of a file, and
//! the division of a block device into a file system; [`console`] the levels
//! of logged messages; [`boot`] the start of the system.

pub mod config;
pub mod mm;
pub mod task;
pub mod trap;
pub mod syscall;
pub mod fs;
pub mod console;
pub mod boot;
