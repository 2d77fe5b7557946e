use os_core::mm::elf::ElfError;
use os_core::mm::loader::LoadError;
use os_core::mm::user::translated_byte_buffer;
use os_core::mm::{AreaError, PhysPageNum, VirtPageNum};
use os_core::syscall::{
    syscall, SyscallInput, SYSCALL_EXEC, SYSCALL_EXIT, SYSCALL_FORK, SYSCALL_GETPID,
    SYSCALL_GET_TIME, SYSCALL_KILL, SYSCALL_SET_PRIORITY, SYSCALL_SIGACTION, SYSCALL_SIGPROCMASK,
    SYSCALL_SIGRETURN, SYSCALL_WAITPID, SYSCALL_YIELD,
};
use os_core::task::exec::{build_arg_block, ExecError};
use os_core::task::kernel::Kernel;
use os_core::task::lifecycle::SpawnError;
use os_core::task::processor::{current_task, current_trap_cx, current_user_token, schedule};
use os_core::task::signal::{SignalAction, SignalFlags};
use os_core::task::task::TaskStatus;
use os_core::task::{
    add_initproc, add_task, block_current_and_run_next, exit_current_and_run_next, fetch_task,
    remove_inactive_task, remove_task, suspend_current_and_run_next, wakeup_task,
};
use os_core::trap::handler::{
    return_to_user, trap_handler, trap_return, KernelFault, TrapOutcome,
};
use os_core::trap::reg_to_result;

const ENTRY: u64 = 0x1_0000;
const DATA: u64 = 0x1_1000;
const STACK_TOP: u64 = 0x1_5000;
const ECALL: u64 = 8;
const TIMER: u64 = (1 << 63) | 5;

fn put(v: &mut Vec<u8>, off: usize, bytes: &[u8]) {
    v[off..off + bytes.len()].copy_from_slice(bytes);
}

/// An ELF image with the given loadable segments: (vaddr, flags, bytes, memsz).
fn elf(entry: u64, segments: &[(u64, u32, Vec<u8>, u64)]) -> Vec<u8> {
    let phoff = 64usize;
    let mut data_off = phoff + 56 * segments.len();
    let mut image = vec![0u8; data_off];
    put(&mut image, 0, &[0x7f, b'E', b'L', b'F', 2, 1, 1, 0]);
    put(&mut image, 24, &entry.to_le_bytes());
    put(&mut image, 32, &(phoff as u64).to_le_bytes());
    put(&mut image, 54, &56u16.to_le_bytes());
    put(&mut image, 56, &(segments.len() as u16).to_le_bytes());
    for (i, (vaddr, flags, bytes, memsz)) in segments.iter().enumerate() {
        let ph = phoff + 56 * i;
        put(&mut image, ph, &1u32.to_le_bytes());
        put(&mut image, ph + 4, &flags.to_le_bytes());
        put(&mut image, ph + 8, &(data_off as u64).to_le_bytes());
        put(&mut image, ph + 16, &vaddr.to_le_bytes());
        put(&mut image, ph + 32, &(bytes.len() as u64).to_le_bytes());
        put(&mut image, ph + 40, &memsz.to_le_bytes());
        image.extend_from_slice(bytes);
        data_off += bytes.len();
    }
    image
}

/// A program with a page of code at `ENTRY` and a page of data at `DATA`;
/// its stack ends at `STACK_TOP`.
fn program() -> Vec<u8> {
    elf(ENTRY, &[(ENTRY, 5, vec![0x13; 16], 16), (DATA, 6, b"hello".to_vec(), 4096)])
}

fn boot() -> Kernel {
    Kernel::new(1024, PhysPageNum(16), PhysPageNum(1024), PhysPageNum(1), 0x122, 0x8020_0000, 0x8020_1000)
        .unwrap()
}

/// A kernel whose first process has the processor.
fn started() -> Kernel {
    let mut k = boot();
    assert_eq!(add_initproc(&mut k, &program()), Ok(0));
    schedule(&mut k);
    assert_eq!(k.current, Some(0));
    k
}

/// A kernel with just the frames that its first process needs to start.
fn started_small() -> Kernel {
    let mut k =
        Kernel::new(64, PhysPageNum(16), PhysPageNum(39), PhysPageNum(1), 0, 0, 0).unwrap();
    assert_eq!(k.frame_allocator.free_count(), 20);
    assert_eq!(add_initproc(&mut k, &program()), Ok(0));
    assert_eq!(k.frame_allocator.free_count(), 8);
    schedule(&mut k);
    k
}

fn no_input() -> SyscallInput {
    SyscallInput { opened: None, read_data: Vec::new(), image: None, pipe: None }
}

/// The process that runs makes the system call `id`.
fn call(k: &mut Kernel, id: usize, args: [u64; 3]) -> TrapOutcome {
    call_with(k, id, args, &no_input())
}

fn call_with(k: &mut Kernel, id: usize, args: [u64; 3], input: &SyscallInput) -> TrapOutcome {
    let pid = k.current.unwrap();
    let mut cx = k.get_trap_cx(pid);
    cx.x[17] = id as u64;
    cx.x[10] = args[0];
    cx.x[11] = args[1];
    cx.x[12] = args[2];
    k.set_trap_cx(pid, &cx);
    trap_handler(k, ECALL, 0, input)
}

/// What the last system call of the process `pid` returned.
fn result(k: &Kernel, pid: usize) -> isize {
    reg_to_result(k.get_trap_cx(pid).x[10])
}

fn status(k: &Kernel, pid: usize) -> TaskStatus {
    k.processes[pid].as_ref().unwrap().inner.task.inner.task_status
}

fn queue(k: &Kernel) -> Vec<usize> {
    k.ready_queue.iter().copied().collect()
}

fn peek(k: &Kernel, pid: usize, va: u64, len: usize) -> Vec<u8> {
    let token = k.processes[pid].as_ref().unwrap().inner.memory_set.token();
    translated_byte_buffer(&k.mem, token, va, len).unwrap()
}

/// The first process forks; returns the child.
fn fork(k: &mut Kernel) -> usize {
    let parent = k.current.unwrap();
    assert_eq!(call(k, SYSCALL_FORK, [0, 0, 0]), TrapOutcome::Return);
    let child = result(k, parent);
    assert!(child > 0);
    child as usize
}

#[test]
fn boot_gives_an_empty_kernel() {
    let k = boot();
    assert!(k.processes.is_empty());
    assert!(k.ready_queue.is_empty());
    assert_eq!(k.current, None);
    assert_eq!(k.initproc, None);
    assert_eq!(k.shutdown, None);
    assert_eq!(k.time_ms, 0);
    assert!(k.output.is_empty());
    assert_eq!(k.mem.frame_count(), 1024);
    // a root node and two nodes for the trampoline page are taken
    assert_eq!(k.frame_allocator.free_count(), 1024 - 16 - 3);
    assert_eq!(k.kernel_space.trampoline, Some(PhysPageNum(1)));
    assert_eq!(
        k.kernel_space.translate(VirtPageNum(0x7ff_ffff), &k.mem).unwrap().ppn(),
        PhysPageNum(1)
    );
}

#[test]
fn boot_needs_three_frames() {
    assert!(Kernel::new(64, PhysPageNum(16), PhysPageNum(18), PhysPageNum(1), 0, 0, 0).is_none());
    assert!(Kernel::new(64, PhysPageNum(16), PhysPageNum(19), PhysPageNum(1), 0, 0, 0).is_some());
    // frames beyond the memory are not counted
    assert!(Kernel::new(18, PhysPageNum(16), PhysPageNum(64), PhysPageNum(1), 0, 0, 0).is_none());
    assert!(Kernel::new(19, PhysPageNum(16), PhysPageNum(64), PhysPageNum(1), 0, 0, 0).is_some());
}

#[test]
fn first_process_is_ready_then_runs() {
    let mut k = boot();
    assert_eq!(add_initproc(&mut k, &program()), Ok(0));
    assert_eq!(k.initproc, Some(0));
    assert_eq!(k.current, None);
    assert_eq!(queue(&k), vec![0]);
    assert_eq!(status(&k, 0), TaskStatus::Ready);
    schedule(&mut k);
    assert_eq!(current_task(&k), Some(0));
    assert!(k.ready_queue.is_empty());
    assert_eq!(status(&k, 0), TaskStatus::Running);
    let p = k.processes[0].as_ref().unwrap();
    assert_eq!(p.getpid(), 0);
    assert_eq!(p.inner.parent, None);
    assert!(p.inner.children.is_empty());
    assert!(!p.inner.is_zombie);
    assert_eq!(p.inner.fd_table.len(), 3);
    assert_eq!(p.inner.signals, SignalFlags { bits: 0 });
    assert_eq!(p.inner.handling_sig, -1);
    assert_eq!(current_user_token(&k), p.inner.memory_set.token());
}

#[test]
fn first_trap_context_starts_the_program() {
    let k = started();
    let cx = current_trap_cx(&k);
    assert_eq!(cx.sepc, ENTRY);
    assert_eq!(cx.x[2], STACK_TOP);
    for i in 0..32 {
        if i != 2 {
            assert_eq!(cx.x[i], 0);
        }
    }
    // the previous privilege is user mode
    assert_eq!(cx.sstatus, 0x022);
    assert_eq!(cx.kernel_satp, k.kernel_space.token());
    assert_eq!(cx.kernel_sp, 0xffff_ffff_ffff_f000);
    assert_eq!(cx.trap_handler, 0x8020_0000);
    assert_eq!(trap_return(&k), (0xffff_ffff_ffff_e000, current_user_token(&k)));
    assert_eq!(peek(&k, 0, DATA, 6), b"hello\0".to_vec());
}

#[test]
fn bad_program_is_not_started() {
    let mut k = boot();
    let free = k.frame_allocator.free_count();
    let mut image = program();
    image[0] = 0;
    assert_eq!(
        add_initproc(&mut k, &image),
        Err(SpawnError::Image(LoadError::Elf(ElfError::BadMagic)))
    );
    assert_eq!(
        k.spawn(&image[..10]),
        Err(SpawnError::Image(LoadError::Elf(ElfError::TooShort)))
    );
    assert!(k.processes.is_empty());
    assert_eq!(k.initproc, None);
    assert_eq!(k.frame_allocator.free_count(), free);
}

#[test]
fn program_without_frames_is_not_started() {
    let mut k =
        Kernel::new(64, PhysPageNum(16), PhysPageNum(36), PhysPageNum(1), 0, 0, 0).unwrap();
    assert_eq!(k.frame_allocator.free_count(), 17);
    assert_eq!(k.spawn(&program()), Err(SpawnError::OutOfFrames));
    assert_eq!(k.frame_allocator.free_count(), 17);
    assert!(k.processes.is_empty());
}

#[test]
fn pid_is_told() {
    let mut k = started();
    assert_eq!(call(&mut k, SYSCALL_GETPID, [0, 0, 0]), TrapOutcome::Return);
    assert_eq!(result(&k, 0), 0);
    let child = fork(&mut k);
    call(&mut k, SYSCALL_YIELD, [0, 0, 0]);
    assert_eq!(k.current, Some(child));
    call(&mut k, SYSCALL_GETPID, [0, 0, 0]);
    assert_eq!(result(&k, child), child as isize);
}

#[test]
fn call_moves_the_program_counter() {
    let mut k = started();
    call(&mut k, SYSCALL_GETPID, [0, 0, 0]);
    assert_eq!(current_trap_cx(&k).sepc, ENTRY + 4);
    call(&mut k, SYSCALL_SET_PRIORITY, [5, 0, 0]);
    assert_eq!(current_trap_cx(&k).sepc, ENTRY + 8);
    assert_eq!(result(&k, 0), 0);
}

#[test]
fn time_is_told() {
    let mut k = started();
    k.time_ms = 1234;
    call(&mut k, SYSCALL_GET_TIME, [0, 0, 0]);
    assert_eq!(result(&k, 0), 1234);
}

#[test]
fn unknown_call_stops_the_kernel() {
    let mut k = started();
    assert_eq!(
        call(&mut k, 9999, [0, 0, 0]),
        TrapOutcome::Fatal(KernelFault::UnsupportedSyscall)
    );
    assert_eq!(current_trap_cx(&k).sepc, ENTRY);
    assert_eq!(syscall(&mut k, SYSCALL_GETPID, [0, 0, 0], &no_input()), 0);
}

#[test]
fn unknown_trap_stops_the_kernel() {
    let mut k = started();
    // a breakpoint
    assert_eq!(
        trap_handler(&mut k, 3, 0, &no_input()),
        TrapOutcome::Fatal(KernelFault::UnsupportedTrap)
    );
    // an external interrupt
    assert_eq!(
        trap_handler(&mut k, (1 << 63) | 9, 0, &no_input()),
        TrapOutcome::Fatal(KernelFault::UnsupportedTrap)
    );
    assert_eq!(k.current, Some(0));
    assert_eq!(status(&k, 0), TaskStatus::Running);
}

#[test]
fn fork_copies_the_process() {
    let mut k = started();
    assert!(k.write_user(0, DATA + 100, b"parent"));
    let child = fork(&mut k);
    assert_eq!(child, 1);
    assert_eq!(k.current, Some(0));
    assert_eq!(queue(&k), vec![1]);
    assert_eq!(status(&k, 1), TaskStatus::Ready);
    let p = k.processes[0].as_ref().unwrap();
    let c = k.processes[1].as_ref().unwrap();
    assert_eq!(p.inner.children, vec![1]);
    assert_eq!(c.inner.parent, Some(0));
    assert_eq!(c.getpid(), 1);
    assert_eq!(c.inner.fd_table, p.inner.fd_table);
    assert_ne!(c.inner.memory_set.token(), p.inner.memory_set.token());
    // the child sees 0, the parent the child's identifier
    assert_eq!(result(&k, 1), 0);
    assert_eq!(result(&k, 0), 1);
    let pcx = k.get_trap_cx(0);
    let ccx = k.get_trap_cx(1);
    assert_eq!(ccx.sepc, pcx.sepc);
    assert_eq!(ccx.x[2], pcx.x[2]);
    assert_eq!(ccx.kernel_sp, 0xffff_ffff_ffff_f000 - 3 * 4096);
    // the same content
    assert_eq!(peek(&k, 1, DATA, 4096), peek(&k, 0, DATA, 4096));
    assert_eq!(peek(&k, 1, ENTRY, 16), peek(&k, 0, ENTRY, 16));
    // in frames of its own
    for a in 0..p.inner.memory_set.areas.len() {
        let pa = &p.inner.memory_set.areas[a];
        let ca = &c.inner.memory_set.areas[a];
        assert_eq!((ca.start, ca.end), (pa.start, pa.end));
        for f in 0..pa.data_frames.len() {
            assert_ne!(ca.data_frames[f].ppn, pa.data_frames[f].ppn);
        }
    }
    // a write of the child does not reach the parent
    assert!(k.write_user(1, DATA + 100, b"child!"));
    assert_eq!(peek(&k, 0, DATA + 100, 6), b"parent".to_vec());
    assert_eq!(peek(&k, 1, DATA + 100, 6), b"child!".to_vec());
}

#[test]
fn fork_without_frames_is_refused() {
    let mut k = started_small();
    assert_eq!(call(&mut k, SYSCALL_FORK, [0, 0, 0]), TrapOutcome::Return);
    assert_eq!(result(&k, 0), -1);
    assert_eq!(k.processes.len(), 1);
    assert!(k.processes[0].as_ref().unwrap().inner.children.is_empty());
    assert_eq!(k.frame_allocator.free_count(), 8);
}

#[test]
fn exec_starts_the_new_program() {
    let mut k = started();
    let other = elf(0x2_0010, &[(0x2_0000, 5, vec![0x55; 5000], 5000)]);
    let free = k.frame_allocator.free_count();
    assert_eq!(k.exec(0, &other, &Vec::new()), Ok(()));
    let cx = k.get_trap_cx(0);
    assert_eq!(cx.sepc, 0x2_0010);
    // pages 0x20 and 0x21, a guard page, two pages of stack; a null pointer on it
    assert_eq!(cx.x[2], 0x2_5000 - 8);
    assert_eq!(cx.x[10], 0);
    assert_eq!(cx.x[11], 0x2_5000 - 8);
    assert_eq!(cx.kernel_sp, 0xffff_ffff_ffff_f000);
    assert_eq!(peek(&k, 0, 0x2_0000, 5000), vec![0x55; 5000]);
    assert_eq!(peek(&k, 0, 0x2_5000 - 8, 8), vec![0; 8]);
    // the old pages are gone
    let token = current_user_token(&k);
    assert_eq!(translated_byte_buffer(&k.mem, token, DATA, 1), None);
    // the old program had 5 pages and the new one has 5
    assert_eq!(k.frame_allocator.free_count(), free);
    assert_eq!(k.current, Some(0));
    assert_eq!(status(&k, 0), TaskStatus::Running);
}

#[test]
fn exec_lays_the_arguments_on_the_stack() {
    let mut k = started();
    let args = vec![b"ab".to_vec(), b"c".to_vec()];
    assert_eq!(k.exec(0, &program(), &args), Ok(()));
    let cx = k.get_trap_cx(0);
    let argv = STACK_TOP - 24;
    assert_eq!(cx.sepc, ENTRY);
    assert_eq!(cx.x[2], 0x1_4fe0);
    assert_eq!(cx.x[10], 2);
    assert_eq!(cx.x[11], argv);
    let mut pointers = Vec::new();
    pointers.extend_from_slice(&(argv - 3).to_le_bytes());
    pointers.extend_from_slice(&(argv - 5).to_le_bytes());
    pointers.extend_from_slice(&0u64.to_le_bytes());
    assert_eq!(peek(&k, 0, argv, 24), pointers);
    assert_eq!(peek(&k, 0, argv - 3, 3), b"ab\0".to_vec());
    assert_eq!(peek(&k, 0, argv - 5, 2), b"c\0".to_vec());
    let (block, sp, base) = build_arg_block(STACK_TOP, &args);
    assert_eq!((sp, base), (0x1_4fe0, argv));
    assert_eq!(peek(&k, 0, sp, block.len()), block);
    assert_eq!(block.len() as u64, STACK_TOP - sp);
}

#[test]
fn exec_refuses_what_it_cannot_start() {
    let mut k = started_small();
    let before = k.get_trap_cx(0);
    let token = current_user_token(&k);
    let mut bad = program();
    bad[4] = 1;
    assert_eq!(
        k.exec(0, &bad, &Vec::new()),
        Err(ExecError::Image(LoadError::Elf(ElfError::Unsupported)))
    );
    let long = vec![vec![b'x'; 9000]];
    assert_eq!(k.exec(0, &program(), &long), Err(ExecError::ArgsTooLong));
    assert_eq!(
        k.exec(0, &program(), &Vec::new()),
        Err(ExecError::Image(LoadError::OutOfFrames))
    );
    let after = k.get_trap_cx(0);
    assert_eq!((after.x, after.sepc, after.sstatus), (before.x, before.sepc, before.sstatus));
    assert_eq!(after.kernel_sp, before.kernel_sp);
    assert_eq!(current_user_token(&k), token);
    assert_eq!(peek(&k, 0, DATA, 5), b"hello".to_vec());
}

#[test]
fn exec_call_reads_name_and_arguments() {
    let mut k = started();
    // the name at DATA + 64, the arguments at DATA + 128 and DATA + 136,
    // the vector of pointers at DATA + 256
    assert!(k.write_user(0, DATA + 64, b"prog\0"));
    assert!(k.write_user(0, DATA + 128, b"one\0"));
    assert!(k.write_user(0, DATA + 136, b"three\0"));
    let mut v = Vec::new();
    v.extend_from_slice(&(DATA + 128).to_le_bytes());
    v.extend_from_slice(&(DATA + 136).to_le_bytes());
    v.extend_from_slice(&0u64.to_le_bytes());
    assert!(k.write_user(0, DATA + 256, &v));
    // no image: refused
    assert_eq!(call(&mut k, SYSCALL_EXEC, [DATA + 64, DATA + 256, 0]), TrapOutcome::Return);
    assert_eq!(result(&k, 0), -1);
    // a name that cannot be read: refused
    let other = elf(0x4_0000, &[(0x4_0000, 7, vec![1, 2, 3, 4], 4)]);
    let input = SyscallInput { opened: None, read_data: Vec::new(), image: Some(other), pipe: None };
    call_with(&mut k, SYSCALL_EXEC, [0x9_0000, DATA + 256, 0], &input);
    assert_eq!(result(&k, 0), -1);
    assert_eq!(peek(&k, 0, DATA, 5), b"hello".to_vec());
    assert_eq!(call_with(&mut k, SYSCALL_EXEC, [DATA + 64, DATA + 256, 0], &input), TrapOutcome::Return);
    let cx = k.get_trap_cx(0);
    assert_eq!(cx.sepc, 0x4_0000);
    // the number of arguments is the result
    assert_eq!(cx.x[10], 2);
    let top = 0x4_4000u64;
    let argv = top - 24;
    assert_eq!(cx.x[11], argv);
    assert_eq!(cx.x[2], (argv - 10) / 8 * 8);
    assert_eq!(peek(&k, 0, argv - 4, 4), b"one\0".to_vec());
    assert_eq!(peek(&k, 0, argv - 10, 6), b"three\0".to_vec());
    assert_eq!(peek(&k, 0, 0x4_0000, 4), vec![1, 2, 3, 4]);
}

#[test]
fn yield_hands_the_processor_on() {
    let mut k = started();
    // alone, the task gets the processor back
    assert_eq!(call(&mut k, SYSCALL_YIELD, [0, 0, 0]), TrapOutcome::Return);
    assert_eq!(k.current, Some(0));
    assert_eq!(status(&k, 0), TaskStatus::Running);
    assert_eq!(result(&k, 0), 0);
    let a = fork(&mut k);
    let b = fork(&mut k);
    assert_eq!(queue(&k), vec![a, b]);
    assert_eq!(call(&mut k, SYSCALL_YIELD, [0, 0, 0]), TrapOutcome::Return);
    assert_eq!(k.current, Some(a));
    assert_eq!(queue(&k), vec![b, 0]);
    assert_eq!(status(&k, 0), TaskStatus::Ready);
    assert_eq!(status(&k, a), TaskStatus::Running);
    assert_eq!(call(&mut k, SYSCALL_YIELD, [0, 0, 0]), TrapOutcome::Return);
    assert_eq!(k.current, Some(b));
    assert_eq!(queue(&k), vec![0, a]);
}

#[test]
fn timer_preempts_the_running_task() {
    let mut k = started();
    let b = fork(&mut k);
    let pc = k.get_trap_cx(0).sepc;
    assert_eq!(trap_handler(&mut k, TIMER, 0, &no_input()), TrapOutcome::Return);
    // the task that ran is ready at the back of the queue, the other runs
    assert_eq!(k.current, Some(b));
    assert_eq!(queue(&k), vec![0]);
    assert_eq!(status(&k, 0), TaskStatus::Ready);
    assert_eq!(status(&k, b), TaskStatus::Running);
    // an interrupt is no call: the program counter stays
    assert_eq!(k.get_trap_cx(0).sepc, pc);
    assert_eq!(trap_handler(&mut k, TIMER, 0, &no_input()), TrapOutcome::Return);
    assert_eq!(k.current, Some(0));
    assert_eq!(queue(&k), vec![b]);
    assert!(!k.ready_queue.contains(&0));
}

#[test]
fn running_task_is_never_queued() {
    let mut k = started();
    let a = fork(&mut k);
    let _b = fork(&mut k);
    for step in 0..12 {
        if step % 3 == 0 {
            trap_handler(&mut k, TIMER, 0, &no_input());
        } else if step % 3 == 1 {
            call(&mut k, SYSCALL_YIELD, [0, 0, 0]);
        } else {
            call(&mut k, SYSCALL_KILL, [a as u64, 10, 0]);
        }
        let cur = k.current.unwrap();
        assert!(!k.ready_queue.contains(&cur));
        assert_eq!(status(&k, cur), TaskStatus::Running);
        for q in queue(&k) {
            assert_eq!(status(&k, q), TaskStatus::Ready);
        }
    }
}

#[test]
fn blocked_task_waits_until_woken() {
    let mut k = started();
    let b = fork(&mut k);
    block_current_and_run_next(&mut k);
    assert_eq!(k.current, Some(b));
    assert_eq!(status(&k, 0), TaskStatus::Blocked);
    assert!(k.ready_queue.is_empty());
    // the blocked task is passed over
    suspend_current_and_run_next(&mut k);
    assert_eq!(k.current, Some(b));
    assert!(!wakeup_task(&mut k, b));
    assert!(!wakeup_task(&mut k, 77));
    assert!(wakeup_task(&mut k, 0));
    assert_eq!(status(&k, 0), TaskStatus::Ready);
    assert_eq!(queue(&k), vec![0]);
    assert!(!wakeup_task(&mut k, 0));
    suspend_current_and_run_next(&mut k);
    assert_eq!(k.current, Some(0));
}

#[test]
fn wait_collects_each_child_once() {
    let mut k = started();
    let a = fork(&mut k);
    let b = fork(&mut k);
    let any = (-1isize) as u64;
    // no child has exited
    call(&mut k, SYSCALL_WAITPID, [any, DATA + 8, 0]);
    assert_eq!(result(&k, 0), -2);
    call(&mut k, SYSCALL_YIELD, [0, 0, 0]);
    assert_eq!(k.current, Some(a));
    assert_eq!(call(&mut k, SYSCALL_EXIT, [7, 0, 0]), TrapOutcome::Return);
    assert_eq!(k.current, Some(b));
    assert_eq!(status(&k, a), TaskStatus::Zombie);
    call(&mut k, SYSCALL_YIELD, [0, 0, 0]);
    assert_eq!(k.current, Some(0));
    call(&mut k, SYSCALL_WAITPID, [any, DATA + 8, 0]);
    assert_eq!(result(&k, 0), a as isize);
    assert_eq!(peek(&k, 0, DATA + 8, 4), 7i32.to_le_bytes().to_vec());
    assert!(k.processes[a].is_none());
    assert_eq!(k.processes[0].as_ref().unwrap().inner.children, vec![b]);
    // the other child still runs
    call(&mut k, SYSCALL_WAITPID, [any, DATA + 8, 0]);
    assert_eq!(result(&k, 0), -2);
    call(&mut k, SYSCALL_WAITPID, [b as u64, DATA + 8, 0]);
    assert_eq!(result(&k, 0), -2);
    // the child that was collected is no child any more
    call(&mut k, SYSCALL_WAITPID, [a as u64, DATA + 8, 0]);
    assert_eq!(result(&k, 0), -1);
    call(&mut k, SYSCALL_YIELD, [0, 0, 0]);
    assert_eq!(k.current, Some(b));
    call(&mut k, SYSCALL_EXIT, [(-3i32) as u32 as u64, 0, 0]);
    assert_eq!(k.current, Some(0));
    call(&mut k, SYSCALL_WAITPID, [b as u64, DATA + 8, 0]);
    assert_eq!(result(&k, 0), b as isize);
    assert_eq!(peek(&k, 0, DATA + 8, 4), (-3i32).to_le_bytes().to_vec());
    // no child is left
    call(&mut k, SYSCALL_WAITPID, [any, DATA + 8, 0]);
    assert_eq!(result(&k, 0), -1);
}

#[test]
fn wait_needs_a_place_for_the_code() {
    let mut k = started();
    let a = fork(&mut k);
    call(&mut k, SYSCALL_YIELD, [0, 0, 0]);
    call(&mut k, SYSCALL_EXIT, [1, 0, 0]);
    assert_eq!(k.current, Some(0));
    // the code page cannot be written
    call(&mut k, SYSCALL_WAITPID, [a as u64, ENTRY, 0]);
    assert_eq!(result(&k, 0), -1);
    // nothing is mapped there
    call(&mut k, SYSCALL_WAITPID, [a as u64, 0x9_0000, 0]);
    assert_eq!(result(&k, 0), -1);
    assert!(k.processes[a].is_some());
    call(&mut k, SYSCALL_WAITPID, [a as u64, DATA, 0]);
    assert_eq!(result(&k, 0), a as isize);
}

#[test]
fn exit_gives_the_resources_back() {
    let mut k = started();
    let free = k.frame_allocator.free_count();
    let a = fork(&mut k);
    assert!(k.frame_allocator.free_count() < free);
    call(&mut k, SYSCALL_YIELD, [0, 0, 0]);
    call(&mut k, SYSCALL_EXIT, [0, 0, 0]);
    let z = k.processes[a].as_ref().unwrap();
    assert!(z.inner.is_zombie);
    assert_eq!(z.inner.exit_code, 0);
    assert!(z.inner.fd_table.is_empty());
    assert!(z.inner.memory_set.areas.is_empty());
    assert!(z.inner.children.is_empty());
    assert!(!k.ready_queue.contains(&a));
    assert_eq!(k.shutdown, None);
    call(&mut k, SYSCALL_WAITPID, [a as u64, DATA, 0]);
    assert_eq!(result(&k, 0), a as isize);
    assert_eq!(k.frame_allocator.free_count(), free);
    // the identifier is free again
    assert_eq!(fork(&mut k), a);
}

#[test]
fn orphans_go_to_the_first_process() {
    let mut k = started();
    let a = fork(&mut k);
    call(&mut k, SYSCALL_YIELD, [0, 0, 0]);
    assert_eq!(k.current, Some(a));
    let g = fork(&mut k);
    assert_eq!(k.processes[g].as_ref().unwrap().inner.parent, Some(a));
    call(&mut k, SYSCALL_EXIT, [5, 0, 0]);
    assert_eq!(k.processes[g].as_ref().unwrap().inner.parent, Some(0));
    assert_eq!(k.processes[0].as_ref().unwrap().inner.children, vec![a, g]);
    assert!(k.processes[a].as_ref().unwrap().inner.children.is_empty());
}

#[test]
fn exit_of_the_first_process_shuts_down() {
    let mut k = started();
    assert_eq!(call(&mut k, SYSCALL_EXIT, [0, 0, 0]), TrapOutcome::Idle);
    assert_eq!(k.shutdown, Some(true));
    assert_eq!(k.current, None);
    assert_eq!(status(&k, 0), TaskStatus::Zombie);
    assert_eq!(return_to_user(&mut k), TrapOutcome::Idle);
    let mut k = started();
    exit_current_and_run_next(&mut k, 3);
    assert_eq!(k.shutdown, Some(false));
    assert_eq!(k.processes[0].as_ref().unwrap().inner.exit_code, 3);
    // the system stops at once: a task that waits does not get the processor
    let mut k = started();
    let a = fork(&mut k);
    let b = fork(&mut k);
    assert_eq!(call(&mut k, SYSCALL_EXIT, [0, 0, 0]), TrapOutcome::Idle);
    assert_eq!(k.shutdown, Some(true));
    assert_eq!(k.current, None);
    assert_eq!(queue(&k), vec![a, b]);
    assert_eq!(status(&k, a), TaskStatus::Ready);
    assert_eq!(status(&k, 0), TaskStatus::Zombie);
}

#[test]
fn kill_makes_a_zombie_with_the_signal_number() {
    let mut k = started();
    let a = fork(&mut k);
    assert_eq!(call(&mut k, SYSCALL_KILL, [a as u64, 9, 0]), TrapOutcome::Return);
    assert_eq!(result(&k, 0), 0);
    assert_eq!(k.processes[a].as_ref().unwrap().inner.signals, SignalFlags { bits: 1 << 9 });
    assert_eq!(status(&k, a), TaskStatus::Ready);
    // the signal is delivered when the child is scheduled next
    assert_eq!(call(&mut k, SYSCALL_YIELD, [0, 0, 0]), TrapOutcome::Switched);
    assert_eq!(k.current, Some(0));
    assert_eq!(status(&k, a), TaskStatus::Zombie);
    assert_eq!(k.processes[a].as_ref().unwrap().inner.exit_code, 9);
    call(&mut k, SYSCALL_WAITPID, [a as u64, DATA, 0]);
    assert_eq!(result(&k, 0), a as isize);
    assert_eq!(peek(&k, 0, DATA, 4), 9i32.to_le_bytes().to_vec());
}

#[test]
fn kill_refuses_bad_targets_and_signals() {
    let mut k = started();
    let a = fork(&mut k);
    call(&mut k, SYSCALL_KILL, [55, 9, 0]);
    assert_eq!(result(&k, 0), -1);
    call(&mut k, SYSCALL_KILL, [a as u64, 32, 0]);
    assert_eq!(result(&k, 0), -1);
    call(&mut k, SYSCALL_KILL, [a as u64, (-1i32) as u32 as u64, 0]);
    assert_eq!(result(&k, 0), -1);
    call(&mut k, SYSCALL_KILL, [a as u64, 10, 0]);
    assert_eq!(result(&k, 0), 0);
    // already pending
    call(&mut k, SYSCALL_KILL, [a as u64, 10, 0]);
    assert_eq!(result(&k, 0), -1);
    assert_eq!(k.processes[a].as_ref().unwrap().inner.signals, SignalFlags { bits: 1 << 10 });
}

#[test]
fn faults_end_the_process() {
    let mut k = started();
    let a = fork(&mut k);
    let b = fork(&mut k);
    call(&mut k, SYSCALL_YIELD, [0, 0, 0]);
    assert_eq!(k.current, Some(a));
    // a store page fault
    assert_eq!(trap_handler(&mut k, 15, 0xdead, &no_input()), TrapOutcome::Switched);
    assert_eq!(status(&k, a), TaskStatus::Zombie);
    assert_eq!(k.processes[a].as_ref().unwrap().inner.exit_code, 11);
    assert_eq!(k.current, Some(b));
    // an illegal instruction
    assert_eq!(trap_handler(&mut k, 2, 0, &no_input()), TrapOutcome::Switched);
    assert_eq!(status(&k, b), TaskStatus::Zombie);
    assert_eq!(k.processes[b].as_ref().unwrap().inner.exit_code, 4);
    assert_eq!(k.current, Some(0));
    // load fault, load page fault, store fault
    for scause in [5u64, 13, 7] {
        let c = fork(&mut k);
        call(&mut k, SYSCALL_YIELD, [0, 0, 0]);
        assert_eq!(k.current, Some(c));
        assert_eq!(trap_handler(&mut k, scause, 0, &no_input()), TrapOutcome::Switched);
        assert_eq!(k.processes[c].as_ref().unwrap().inner.exit_code, 11);
        assert_eq!(k.current, Some(0));
    }
}

#[test]
fn stopped_process_waits_for_continue() {
    let mut k = started();
    let a = fork(&mut k);
    call(&mut k, SYSCALL_KILL, [a as u64, 19, 0]);
    // the child is stopped as soon as it is scheduled, and gives way
    assert_eq!(call(&mut k, SYSCALL_YIELD, [0, 0, 0]), TrapOutcome::Switched);
    assert_eq!(k.current, Some(0));
    let c = k.processes[a].as_ref().unwrap();
    assert!(c.inner.frozen);
    assert!(!c.inner.killed);
    assert_eq!(c.inner.signals, SignalFlags { bits: 0 });
    assert_eq!(status(&k, a), TaskStatus::Ready);
    assert_eq!(call(&mut k, SYSCALL_YIELD, [0, 0, 0]), TrapOutcome::Switched);
    assert_eq!(k.current, Some(0));
    call(&mut k, SYSCALL_KILL, [a as u64, 18, 0]);
    assert_eq!(call(&mut k, SYSCALL_YIELD, [0, 0, 0]), TrapOutcome::Return);
    assert_eq!(k.current, Some(a));
    assert!(!k.processes[a].as_ref().unwrap().inner.frozen);
    assert_eq!(status(&k, a), TaskStatus::Running);
}

#[test]
fn blocked_signal_stays_pending() {
    let mut k = started();
    assert_eq!(call(&mut k, SYSCALL_SIGPROCMASK, [1 << 2, 0, 0]), TrapOutcome::Return);
    assert_eq!(result(&k, 0), 0);
    // an interrupt signal would end the process
    assert_eq!(call(&mut k, SYSCALL_KILL, [0, 2, 0]), TrapOutcome::Return);
    assert_eq!(k.processes[0].as_ref().unwrap().inner.signals, SignalFlags { bits: 1 << 2 });
    assert_eq!(status(&k, 0), TaskStatus::Running);
    // the mask is replaced and the old one returned
    let a = fork(&mut k);
    assert_eq!(call(&mut k, SYSCALL_SIGPROCMASK, [0, 0, 0]), TrapOutcome::Idle);
    assert_eq!(status(&k, 0), TaskStatus::Zombie);
    assert_eq!(k.processes[0].as_ref().unwrap().inner.exit_code, 2);
    // the first process has ended: the system stops
    assert_eq!(k.shutdown, Some(false));
    assert_eq!(k.current, None);
    assert_eq!(queue(&k), vec![a]);
}

#[test]
fn mask_is_replaced_and_the_old_one_returned() {
    let mut k = started();
    call(&mut k, SYSCALL_SIGPROCMASK, [0x404, 0, 0]);
    assert_eq!(result(&k, 0), 0);
    call(&mut k, SYSCALL_SIGPROCMASK, [0x10, 0, 0]);
    assert_eq!(result(&k, 0), 0x404);
    assert_eq!(k.processes[0].as_ref().unwrap().inner.signal_mask, SignalFlags { bits: 0x10 });
}

#[test]
fn handler_runs_and_returns() {
    let mut k = started();
    let handler = ENTRY + 0x80;
    let action = SignalAction { handler, mask: SignalFlags { bits: 0 } };
    assert!(k.write_user(0, DATA + 32, &os_core::syscall::process::encode_action(&action)));
    assert_eq!(call(&mut k, SYSCALL_SIGACTION, [10, DATA + 32, DATA + 64]), TrapOutcome::Return);
    assert_eq!(result(&k, 0), 0);
    // the action that was installed before: no handler, the default mask
    let old = os_core::syscall::process::decode_action(&peek(&k, 0, DATA + 64, 16));
    assert_eq!(old, SignalAction::default());
    assert_eq!(old.handler, 0);
    assert_eq!(old.mask, SignalFlags { bits: 0x28 });
    assert_eq!(k.processes[0].as_ref().unwrap().inner.signal_actions.table[10], action);
    // the process sends itself the signal
    let mut cx = k.get_trap_cx(0);
    cx.x[5] = 0x5555;
    cx.x[2] = STACK_TOP - 64;
    k.set_trap_cx(0, &cx);
    let pc = cx.sepc;
    assert_eq!(call(&mut k, SYSCALL_KILL, [0, 10, 0]), TrapOutcome::Return);
    let cx = k.get_trap_cx(0);
    assert_eq!(cx.sepc, handler);
    assert_eq!(cx.x[10], 10);
    let p = k.processes[0].as_ref().unwrap();
    assert_eq!(p.inner.handling_sig, 10);
    assert_eq!(p.inner.signals, SignalFlags { bits: 0 });
    let saved = p.inner.trap_ctx_backup.unwrap();
    assert_eq!(saved.sepc, pc + 4);
    assert_eq!(saved.x[10], 0);
    // the handler returns
    assert_eq!(call(&mut k, SYSCALL_SIGRETURN, [0, 0, 0]), TrapOutcome::Return);
    let cx = k.get_trap_cx(0);
    assert_eq!(cx.sepc, pc + 4);
    assert_eq!(cx.x[10], 0);
    assert_eq!(cx.x[5], 0x5555);
    assert_eq!(cx.x[2], STACK_TOP - 64);
    assert_eq!(k.processes[0].as_ref().unwrap().inner.handling_sig, -1);
    assert_eq!(status(&k, 0), TaskStatus::Running);
}

#[test]
fn handler_mask_holds_signals_back() {
    let mut k = started();
    // while signal 10 is handled, signal 12 waits
    let first = SignalAction { handler: ENTRY + 0x80, mask: SignalFlags { bits: 1 << 12 } };
    let second = SignalAction { handler: ENTRY + 0xc0, mask: SignalFlags { bits: 0 } };
    assert!(k.write_user(0, DATA + 32, &os_core::syscall::process::encode_action(&first)));
    assert!(k.write_user(0, DATA + 48, &os_core::syscall::process::encode_action(&second)));
    call(&mut k, SYSCALL_SIGACTION, [10, DATA + 32, DATA + 64]);
    assert_eq!(result(&k, 0), 0);
    call(&mut k, SYSCALL_SIGACTION, [12, DATA + 48, DATA + 64]);
    assert_eq!(result(&k, 0), 0);
    call(&mut k, SYSCALL_KILL, [0, 10, 0]);
    assert_eq!(k.get_trap_cx(0).sepc, ENTRY + 0x80);
    call(&mut k, SYSCALL_KILL, [0, 12, 0]);
    assert_eq!(k.processes[0].as_ref().unwrap().inner.handling_sig, 10);
    assert_eq!(k.processes[0].as_ref().unwrap().inner.signals, SignalFlags { bits: 1 << 12 });
    assert_eq!(k.get_trap_cx(0).sepc, ENTRY + 0x80 + 4);
    // after the return the second handler is entered
    call(&mut k, SYSCALL_SIGRETURN, [0, 0, 0]);
    assert_eq!(k.processes[0].as_ref().unwrap().inner.handling_sig, 12);
    assert_eq!(k.get_trap_cx(0).sepc, ENTRY + 0xc0);
    assert_eq!(k.get_trap_cx(0).x[10], 12);
}

#[test]
fn action_is_refused_for_kill_and_stop() {
    let mut k = started();
    let action = SignalAction { handler: ENTRY + 0x80, mask: SignalFlags { bits: 0 } };
    assert!(k.write_user(0, DATA + 32, &os_core::syscall::process::encode_action(&action)));
    for (signum, act, old) in [
        (9u64, DATA + 32, DATA + 64),
        (19, DATA + 32, DATA + 64),
        (32, DATA + 32, DATA + 64),
        ((-1i32) as u32 as u64, DATA + 32, DATA + 64),
        (10, 0, DATA + 64),
        (10, DATA + 32, 0),
        (10, 0x9_0000, DATA + 64),
        (10, DATA + 32, ENTRY),
    ] {
        assert_eq!(call(&mut k, SYSCALL_SIGACTION, [signum, act, old]), TrapOutcome::Return);
        assert_eq!(result(&k, 0), -1);
    }
    let t = &k.processes[0].as_ref().unwrap().inner.signal_actions.table;
    for s in 0..32 {
        assert_eq!(t[s], SignalAction::default());
    }
    assert!(os_core::syscall::process::check_sigaction_error(9, 1, 1));
    assert!(os_core::syscall::process::check_sigaction_error(19, 1, 1));
    assert!(os_core::syscall::process::check_sigaction_error(10, 0, 1));
    assert!(os_core::syscall::process::check_sigaction_error(10, 1, 0));
    assert!(!os_core::syscall::process::check_sigaction_error(10, 1, 1));
}

#[test]
fn return_without_a_handler_is_refused() {
    let mut k = started();
    let pc = k.get_trap_cx(0).sepc;
    assert_eq!(call(&mut k, SYSCALL_SIGRETURN, [0, 0, 0]), TrapOutcome::Return);
    assert_eq!(result(&k, 0), -1);
    assert_eq!(k.get_trap_cx(0).sepc, pc + 4);
}

#[test]
fn handler_for_signal_five() {
    let mut k = started();
    let handler = ENTRY + 0x200;
    let action = SignalAction { handler, mask: SignalFlags { bits: 0 } };
    assert!(k.write_user(0, DATA + 32, &os_core::syscall::process::encode_action(&action)));
    call(&mut k, SYSCALL_SIGACTION, [5, DATA + 32, DATA + 64]);
    assert_eq!(result(&k, 0), 0);
    let b = fork(&mut k);
    // the child raises the signal on the process while that waits
    call(&mut k, SYSCALL_YIELD, [0, 0, 0]);
    assert_eq!(k.current, Some(b));
    let interrupted = k.get_trap_cx(0).sepc;
    let a0 = k.get_trap_cx(0).x[10];
    call(&mut k, SYSCALL_KILL, [0, 5, 0]);
    assert_eq!(result(&k, b), 0);
    assert_eq!(k.get_trap_cx(0).sepc, interrupted);
    // the next return to user mode of the process enters the handler
    assert_eq!(call(&mut k, SYSCALL_YIELD, [0, 0, 0]), TrapOutcome::Return);
    assert_eq!(k.current, Some(0));
    let cx = k.get_trap_cx(0);
    assert_eq!(cx.sepc, handler);
    assert_eq!(cx.x[10], 5);
    assert_eq!(k.processes[0].as_ref().unwrap().inner.handling_sig, 5);
    // the return from the handler resumes where the process was interrupted
    assert_eq!(call(&mut k, SYSCALL_SIGRETURN, [0, 0, 0]), TrapOutcome::Return);
    let cx = k.get_trap_cx(0);
    assert_eq!(cx.sepc, interrupted);
    assert_eq!(cx.x[10], a0);
    assert_eq!(k.processes[0].as_ref().unwrap().inner.handling_sig, -1);
    assert_eq!(k.processes[0].as_ref().unwrap().inner.signals, SignalFlags { bits: 0 });
}

#[test]
fn kill_wins_over_a_pending_handler() {
    for other in [5u64, 10] {
        let mut k = started();
        let action = SignalAction { handler: ENTRY + 0x200, mask: SignalFlags { bits: 0 } };
        assert!(k.write_user(0, DATA + 32, &os_core::syscall::process::encode_action(&action)));
        call(&mut k, SYSCALL_SIGACTION, [other, DATA + 32, DATA + 64]);
        assert_eq!(result(&k, 0), 0);
        // the child has the handler of its parent
        let a = fork(&mut k);
        call(&mut k, SYSCALL_KILL, [a as u64, other, 0]);
        assert_eq!(result(&k, 0), 0);
        call(&mut k, SYSCALL_KILL, [a as u64, 9, 0]);
        assert_eq!(result(&k, 0), 0);
        assert_eq!(
            k.processes[a].as_ref().unwrap().inner.signals,
            SignalFlags { bits: (1 << 9) | (1 << other) }
        );
        assert_eq!(call(&mut k, SYSCALL_YIELD, [0, 0, 0]), TrapOutcome::Switched);
        assert_eq!(status(&k, a), TaskStatus::Zombie);
        assert_eq!(k.processes[a].as_ref().unwrap().inner.exit_code, 9);
        assert_eq!(k.current, Some(0));
    }
}

#[test]
fn kernel_image_is_mapped_to_itself() {
    let mut k = boot();
    let free = k.frame_allocator.free_count();
    let rx = os_core::mm::MapPermission { bits: 2 | 8 };
    let rw = os_core::mm::MapPermission { bits: 2 | 4 };
    assert_eq!(
        k.map_kernel_area(os_core::mm::VirtAddr(0x8020_0000), os_core::mm::VirtAddr(0x8020_2001), rx),
        Ok(())
    );
    // two nodes of the page table, no frame for a page
    assert_eq!(k.frame_allocator.free_count(), free - 2);
    for vpn in 0x80200..0x80203u64 {
        let e = k.kernel_space.translate(VirtPageNum(vpn), &k.mem).unwrap();
        assert_eq!(e.ppn(), PhysPageNum(vpn));
        assert_eq!(e.flags().bits(), 1 | 2 | 8);
    }
    assert_eq!(k.kernel_space.translate(VirtPageNum(0x80203), &k.mem), None);
    assert_eq!(
        k.map_kernel_area(os_core::mm::VirtAddr(0x8020_2000), os_core::mm::VirtAddr(0x8020_4000), rw),
        Err(AreaError::Overlap)
    );
    assert_eq!(
        k.map_kernel_area(os_core::mm::VirtAddr(0x8020_4000), os_core::mm::VirtAddr(0x8020_3000), rw),
        Err(AreaError::InvalidRange)
    );
    assert_eq!(
        k.map_kernel_area(os_core::mm::VirtAddr(0x8020_3000), os_core::mm::VirtAddr(0x8800_0000), rw),
        Ok(())
    );
    // processes start as before
    assert_eq!(add_initproc(&mut k, &program()), Ok(0));
    schedule(&mut k);
    assert_eq!(call(&mut k, SYSCALL_GETPID, [0, 0, 0]), TrapOutcome::Return);
    assert_eq!(result(&k, 0), 0);
    let mut small =
        Kernel::new(64, PhysPageNum(16), PhysPageNum(19), PhysPageNum(1), 0, 0, 0).unwrap();
    assert_eq!(
        small.map_kernel_area(os_core::mm::VirtAddr(0x8020_0000), os_core::mm::VirtAddr(0x8020_1000), rx),
        Err(AreaError::OutOfFrames)
    );
}

#[test]
fn ready_queue_is_first_in_first_out() {
    let mut k = started();
    let a = fork(&mut k);
    let b = fork(&mut k);
    let c = fork(&mut k);
    assert_eq!(queue(&k), vec![a, b, c]);
    // a task that is given up is not scheduled again
    remove_inactive_task(&mut k, b);
    assert_eq!(queue(&k), vec![a, c]);
    remove_inactive_task(&mut k, b);
    remove_inactive_task(&mut k, 99);
    assert_eq!(queue(&k), vec![a, c]);
    assert_eq!(status(&k, b), TaskStatus::Ready);
    assert_eq!(fetch_task(&mut k), Some(a));
    assert_eq!(queue(&k), vec![c]);
    add_task(&mut k, b);
    add_task(&mut k, a);
    assert_eq!(queue(&k), vec![c, b, a]);
    remove_task(&mut k, c);
    assert_eq!(fetch_task(&mut k), Some(b));
    assert_eq!(fetch_task(&mut k), Some(a));
    assert_eq!(fetch_task(&mut k), None);
    assert!(k.ready_queue.is_empty());
    assert_eq!(k.current, Some(0));
}

#[test]
fn taken_place_of_a_kernel_stack_refuses_a_process() {
    let mut k = boot();
    let rw = os_core::mm::MapPermission { bits: 2 | 4 };
    // the kernel maps the last page below the trampoline, where stack 0 would lie
    assert_eq!(
        k.map_kernel_area(
            os_core::mm::VirtAddr(0x7f_ffff_e000),
            os_core::mm::VirtAddr(0x7f_ffff_f000),
            rw
        ),
        Ok(())
    );
    let free = k.frame_allocator.free_count();
    assert_eq!(k.spawn(&program()), Err(SpawnError::NoKernelStack));
    assert_eq!(add_initproc(&mut k, &program()), Err(SpawnError::NoKernelStack));
    assert!(k.processes.is_empty());
    assert_eq!(k.frame_allocator.free_count(), free);
    // the place of stack 1 is taken after the first process has started
    let mut k = started();
    assert_eq!(
        k.map_kernel_area(
            os_core::mm::VirtAddr(0x7f_ffff_a000),
            os_core::mm::VirtAddr(0x7f_ffff_b000),
            rw
        ),
        Ok(())
    );
    assert_eq!(call(&mut k, SYSCALL_FORK, [0, 0, 0]), TrapOutcome::Return);
    assert_eq!(result(&k, 0), -1);
    assert_eq!(k.processes.len(), 1);
}
