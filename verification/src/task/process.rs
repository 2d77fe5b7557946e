//! The control block of a process.

use vstd::prelude::*;
use crate::mm::memory_set::MemorySet;
use crate::task::id::{PidHandle, RecycleAllocator};
use crate::task::signal::{SignalActions, SignalFlags};
use crate::task::task::TaskControlBlock;
use crate::trap::context::TrapContext;

verus! {

/// An open file of a process: a handle that the file system knows, and what
/// the process may do with it.
#[derive(Copy, Clone, Debug, PartialEq, Eq, Structural)]
pub struct FileDescriptor {
    /// Handle of the open file.
    pub file: usize,
    /// Whether the process may read from it.
    pub readable: bool,
    /// Whether the process may write to it.
    pub writable: bool,
}

/// The part of a process's control block that changes while the process
/// lives.
pub struct ProcessControlBlockInner {
    /// Whether the process has exited and waits to be reaped.
    pub is_zombie: bool,
    /// The address space.
    pub memory_set: MemorySet,
    /// Identifier of the parent: a link to look up, not to own.
    pub parent: Option<usize>,
    /// Identifiers of the children, in the order of their creation.
    pub children: Vec<usize>,
    /// The exit code, once the process has exited.
    pub exit_code: i32,
    /// The open files; a free slot is `None`.
    pub fd_table: Vec<Option<FileDescriptor>>,
    /// The pending signals.
    pub signals: SignalFlags,
    /// The signals that the process blocks.
    pub signal_mask: SignalFlags,
    /// Number of the signal whose handler runs, or -1.
    pub handling_sig: isize,
    /// The installed actions.
    pub signal_actions: SignalActions,
    /// Whether a kill-class signal has been delivered.
    pub killed: bool,
    /// Whether the process is stopped.
    pub frozen: bool,
    /// The trap context that was saved when a handler was entered.
    pub trap_ctx_backup: Option<TrapContext>,
    /// The main thread.
    pub task: TaskControlBlock,
    /// Hands out the numbers of the threads.
    pub task_res_allocator: RecycleAllocator,
}

/// The control block of a process.
pub struct ProcessControlBlock {
    /// The identifier.
    pub pid: PidHandle,
    /// The changing part.
    pub inner: ProcessControlBlockInner,
}

impl ProcessControlBlockInner {
    /// Whether the process has exited and waits to be reaped.
    pub fn is_zombie(&self) -> (r: bool)
        ensures
            r == self.is_zombie,
    {
        self.is_zombie
    }

    /// The token of the address space.
    pub fn get_user_token(&self) -> (r: u64)
        ensures
            r == 0x8000_0000_0000_0000 + self.memory_set.page_table.root_ppn.0
                % crate::config::PPN_LIMIT,
    {
        self.memory_set.token()
    }

    /// The lowest free slot of the table of open files; the table grows by
    /// one slot when none is free.
    pub fn alloc_fd(&mut self) -> (r: usize)
        ensures
            r < final(self).fd_table@.len(),
            final(self).fd_table@[r as int] is None,
            forall|i: int| 0 <= i < r ==> (#[trigger] old(self).fd_table@[i]) is Some,
            r < old(self).fd_table@.len() ==> final(self).fd_table@ == old(self).fd_table@,
            r >= old(self).fd_table@.len() ==> r == old(self).fd_table@.len() && final(self).fd_table@ == old(self).fd_table@.push(None),
            final(self).is_zombie == old(self).is_zombie,
            final(self).memory_set == old(self).memory_set,
            final(self).parent == old(self).parent,
            final(self).children == old(self).children,
            final(self).exit_code == old(self).exit_code,
            final(self).signals == old(self).signals,
            final(self).signal_mask == old(self).signal_mask,
            final(self).handling_sig == old(self).handling_sig,
            final(self).signal_actions == old(self).signal_actions,
            final(self).killed == old(self).killed,
            final(self).frozen == old(self).frozen,
            final(self).trap_ctx_backup == old(self).trap_ctx_backup,
            final(self).task == old(self).task,
            final(self).task_res_allocator == old(self).task_res_allocator,
    {
        let mut i: usize = 0;
        while i < self.fd_table.len()
            invariant
                *self == *old(self),
                i <= self.fd_table@.len(),
                forall|j: int| 0 <= j < i ==> (#[trigger] self.fd_table@[j]) is Some,
            decreases self.fd_table@.len() - i,
        {
            if self.fd_table[i].is_none() {
                return i;
            }
            i = i + 1;
        }
        self.fd_table.push(None);
        self.fd_table.len() - 1
    }
}

impl ProcessControlBlock {
    /// The identifier of the process.
    pub fn getpid(&self) -> (r: usize)
        ensures
            r == self.pid.0,
    {
        self.pid.0
    }

    /// The changing part of the control block, for reading and writing.
    /// The borrow is exclusive: while it lasts nothing else reaches the
    /// process.
    pub fn inner_exclusive_access(&mut self) -> (r: &mut ProcessControlBlockInner)
        ensures
            *r == old(self).inner,
            final(self).inner == *final(r),
            final(self).pid == old(self).pid,
    {
        &mut self.inner
    }
}

} // verus!
