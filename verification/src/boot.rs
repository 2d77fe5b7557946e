//! The start of the system: a kernel is made, the first process is created
//! from its program and gets the processor.

use vstd::prelude::*;
use crate::mm::address::PhysPageNum;
use crate::mm::loader::initial_sp;
use crate::task::add_initproc;
use crate::task::kernel::Kernel;
use crate::task::lifecycle::SpawnError;
use crate::task::processor::{schedule, scheduled};
use crate::task::task::TaskStatus;

verus! {

/// Why the system could not be started.
#[derive(Copy, Clone, Debug, PartialEq, Eq, Structural)]
pub enum BootError {
    /// The machine does not have the memory that the kernel needs.
    NoMemory,
    /// The first process could not be created.
    InitProc(SpawnError),
}

/// What the kernel `k` is after the system has been started: a kernel was
/// made as `k0`; the first process was created in it from the image `b`,
/// which gave `ka`; it became the process that adopts orphans; and it got
/// the processor.
pub open spec fn booted(k0: Kernel, ka: Kernel, k: Kernel, pid: int, b: Seq<u8>) -> bool {
    &&& k0.spawn_error(b) is None
    &&& Kernel::spawned(k0, ka, pid, b)
    &&& scheduled(Kernel { initproc: Some(pid as usize), ..ka }, k)
}

/// Starts the system on a machine with `memory_frames` frames of memory,
/// of which the frames `[first_frame, end_frame)` are free for the
/// allocator: makes the kernel, with the trampoline page mapped to the
/// frame `trampoline`, creates the first process from the program in the
/// ELF image `initproc`, and gives it the processor.  `sstatus` is the
/// value of the status register, `trap_handler` the address of the trap
/// handler and `trap_return` that of the routine that returns to user
/// mode.
///
/// What is handed back is the kernel in which the first process is about
/// to enter user mode at the entry of its program.
pub fn rust_main(
    memory_frames: usize,
    first_frame: PhysPageNum,
    end_frame: PhysPageNum,
    trampoline: PhysPageNum,
    sstatus: u64,
    trap_handler: u64,
    trap_return: u64,
    initproc: &[u8],
) -> (r: Result<Kernel, BootError>)
    ensures
        r == Err::<Kernel, BootError>(BootError::NoMemory) <==> !Kernel::can_boot(
            memory_frames,
            first_frame,
            end_frame,
        ),
        r matches Err(BootError::InitProc(e)) ==> exists|k0: Kernel| #[trigger]
            Kernel::fresh(
                k0,
                memory_frames,
                first_frame,
                end_frame,
                trampoline,
                sstatus,
                trap_handler,
                trap_return,
            ) && k0.spawn_error(initproc@) == Some(e),
        r matches Ok(k) ==> {
            &&& k.wf()
            &&& exists|k0: Kernel, ka: Kernel| #[trigger]
                Kernel::fresh(
                    k0,
                    memory_frames,
                    first_frame,
                    end_frame,
                    trampoline,
                    sstatus,
                    trap_handler,
                    trap_return,
                ) && #[trigger] booted(k0, ka, k, 0, initproc@)
            &&& k.current == Some(0usize)
            &&& k.initproc == Some(0usize)
            &&& k.ready_queue@.len() == 0
            &&& k.is_live(0)
            &&& k.status(0) == TaskStatus::Running
            &&& k.trap_word(0, 33) == crate::mm::elf::header_of(initproc@).entry
            &&& k.trap_word(0, 2) == initial_sp(initproc@)
        },
{
    let mut kernel = match Kernel::new(
        memory_frames,
        first_frame,
        end_frame,
        trampoline,
        sstatus,
        trap_handler,
        trap_return,
    ) {
        Some(k) => k,
        None => {
            return Err(BootError::NoMemory);
        },
    };
    let ghost k0 = kernel;
    let pid: usize = match add_initproc(&mut kernel, initproc) {
        Ok(pid) => pid,
        Err(e) => {
            return Err(BootError::InitProc(e));
        },
    };
    let ghost kb = kernel;
    let ghost ka = choose|km: Kernel| #[trigger]
        Kernel::spawned(k0, km, pid as int, initproc@) && kb == (Kernel {
            initproc: Some(pid),
            ..km
        });
    schedule(&mut kernel);
    proof {
        assert(pid == 0);
        assert(kb.ready_queue@ =~= seq![0usize]);
        assert(kb.ready_queue@[0] == 0);
        assert(kernel.ready_queue@ =~= Seq::<usize>::empty());
        assert(kb.pcb(0) == ka.pcb(0));
        assert(kernel.mem == ka.mem);
        assert(kernel.trap_frame(0) == ka.trap_frame(0));
        assert(kernel.trap_word(0, 33) == ka.trap_word(0, 33));
        assert(kernel.trap_word(0, 2) == ka.trap_word(0, 2));
        assert(booted(k0, ka, kernel, 0, initproc@));
    }
    Ok(kernel)
}

} // verus!
