//! The control block of a task: one thread of a process.

use vstd::prelude::*;
use crate::config::{PPN_LIMIT, TRAMPOLINE};
use crate::mm::address::PhysPageNum;
use crate::mm::memory::PhysMemory;
use crate::task::context::TaskContext;
use crate::task::id::{KernelStack, TaskUserRes, KSTACK_LIMIT};
use crate::task::kernel::Kernel;
use crate::trap::context::TrapContext;

verus! {

/// Where a task stands in its life.
#[derive(Copy, Clone, Debug, PartialEq, Eq, Structural)]
pub enum TaskStatus {
    /// Waits in the ready queue for the processor.
    Ready,
    /// Has the processor.
    Running,
    /// Waits for an event; it is not in the ready queue.
    Blocked,
    /// Has exited; its exit code waits to be collected.
    Zombie,
}

/// The part of a task's control block that changes while the task lives.
#[derive(Debug)]
pub struct TaskControlBlockInner {
    /// The task's resources in user space; `None` once they are released.
    pub res: Option<TaskUserRes>,
    /// The frame that holds the task's trap context.
    pub trap_cx_ppn: PhysPageNum,
    /// The registers of the task in the kernel while it is switched out.
    pub task_cx: TaskContext,
    /// Where the task stands in its life.
    pub task_status: TaskStatus,
    /// The exit code, once the task has exited.
    pub exit_code: Option<i32>,
}

/// The control block of a task.
#[derive(Debug)]
pub struct TaskControlBlock {
    /// Identifier of the process that the task belongs to.
    pub process: usize,
    /// The task's kernel stack.
    pub kstack: KernelStack,
    /// The changing part.
    pub inner: TaskControlBlockInner,
}

impl TaskControlBlockInner {
    /// Where the task stands in its life.
    pub fn get_status(&self) -> (r: TaskStatus)
        ensures
            r == self.task_status,
    {
        self.task_status
    }

    /// The trap context of the task, read from its frame.
    pub fn get_trap_cx(&self, mem: &PhysMemory) -> (r: TrapContext)
        requires
            mem.has(self.trap_cx_ppn),
        ensures
            r.held_by(mem@[self.trap_cx_ppn.0 as int]),
    {
        TrapContext::load(mem, self.trap_cx_ppn)
    }
}

impl TaskControlBlock {
    /// The control block of a task of the process `process` that has never
    /// run: it is ready, has no exit code, and resumes at `trap_return` on
    /// the kernel stack `kstack`.  `res` are its resources in user space and
    /// `trap_cx_ppn` is the frame of its trap context.
    pub fn new(
        process: usize,
        res: Option<TaskUserRes>,
        trap_cx_ppn: PhysPageNum,
        kstack: KernelStack,
        trap_return: u64,
    ) -> (r: Self)
        requires
            kstack.0 < KSTACK_LIMIT,
        ensures
            r.process == process,
            r.kstack == kstack,
            r.inner.res == res,
            r.inner.trap_cx_ppn == trap_cx_ppn,
            r.inner.task_status == TaskStatus::Ready,
            r.inner.exit_code is None,
            r.inner.task_cx.ra == trap_return,
            r.inner.task_cx.sp == TRAMPOLINE - kstack.0 * 12288,
            forall|i: int| 0 <= i < 12 ==> #[trigger] r.inner.task_cx.s@[i] == 0,
    {
        let kstack_top: u64 = kstack.get_top();
        TaskControlBlock {
            process,
            kstack,
            inner: TaskControlBlockInner {
                res,
                trap_cx_ppn,
                task_cx: TaskContext::goto_trap_return(kstack_top, trap_return),
                task_status: TaskStatus::Ready,
                exit_code: None,
            },
        }
    }

    /// The token of the address space of the process that the task belongs
    /// to.
    pub fn get_user_token(&self, kernel: &Kernel) -> (r: u64)
        requires
            kernel.has_process(self.process as int),
        ensures
            r == 0x8000_0000_0000_0000 + kernel.space(self.process as int).page_table.root_ppn.0
                % PPN_LIMIT,
    {
        match &kernel.processes[self.process] {
            Some(p) => p.inner.memory_set.token(),
            None => 0,
        }
    }

    /// The changing part of the control block, for reading and writing.
    /// The borrow is exclusive: while it lasts nothing else reaches the
    /// task.
    pub fn inner_exclusive_access(&mut self) -> (r: &mut TaskControlBlockInner)
        ensures
            *r == old(self).inner,
            final(self).inner == *final(r),
            final(self).process == old(self).process,
            final(self).kstack == old(self).kstack,
    {
        &mut self.inner
    }
}

} // verus!
