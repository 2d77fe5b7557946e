use os_core::boot::{rust_main, BootError};
use os_core::console::{log_level, LOG};
use os_core::fs::File;
use os_core::mm::elf::ElfError;
use os_core::mm::frame_allocator::init_frame_allocator;
use os_core::mm::loader::LoadError;
use os_core::mm::memory_set::{PERM_R, PERM_U, PERM_W, PERM_X};
use os_core::mm::page_table::{PTE_R, PTE_U, PTE_V, PTE_W, PTE_X};
use os_core::mm::user::translated_byte_buffer;
use os_core::mm::{
    AreaError, MemorySet, PhysMemory, PhysPageNum, StackFrameAllocator, VirtAddr, VirtPageNum,
};
use os_core::syscall::memory::{prot_perm_of, sys_mmap, sys_munmap};
use os_core::syscall::pipe::sys_pipe;
use os_core::syscall::{
    SyscallInput, SYSCALL_FORK, SYSCALL_MMAP, SYSCALL_MUNMAP, SYSCALL_PIPE, SYSCALL_READ,
    SYSCALL_WRITE,
};
use os_core::task::id::{KernelStack, RecycleAllocator, TaskUserRes};
use os_core::task::kernel::Kernel;
use os_core::task::lifecycle::SpawnError;
use os_core::task::process::FileDescriptor;
use os_core::task::processor::current_user_token;
use os_core::task::task::{TaskControlBlock, TaskStatus};
use os_core::trap::handler::{trap_handler, TrapOutcome};
use os_core::trap::reg_to_result;

const ENTRY: u64 = 0x1_0000;
const DATA: u64 = 0x1_1000;

fn put(v: &mut Vec<u8>, off: usize, bytes: &[u8]) {
    v[off..off + bytes.len()].copy_from_slice(bytes);
}

/// A program with a page of code at `ENTRY` and a page of data at `DATA`;
/// its stack lies in the pages 0x13 and 0x14.
fn program() -> Vec<u8> {
    let mut image = vec![0u8; 64 + 2 * 56];
    put(&mut image, 0, &[0x7f, b'E', b'L', b'F', 2, 1, 1, 0]);
    put(&mut image, 24, &ENTRY.to_le_bytes());
    put(&mut image, 32, &64u64.to_le_bytes());
    put(&mut image, 54, &56u16.to_le_bytes());
    put(&mut image, 56, &2u16.to_le_bytes());
    for (i, (vaddr, flags)) in [(ENTRY, 5u32), (DATA, 6)].iter().enumerate() {
        let ph = 64 + 56 * i;
        put(&mut image, ph, &1u32.to_le_bytes());
        put(&mut image, ph + 4, &flags.to_le_bytes());
        put(&mut image, ph + 8, &176u64.to_le_bytes());
        put(&mut image, ph + 16, &vaddr.to_le_bytes());
        put(&mut image, ph + 40, &4096u64.to_le_bytes());
    }
    image
}

fn started() -> Kernel {
    rust_main(256, PhysPageNum(16), PhysPageNum(256), PhysPageNum(1), 0, 0x100, 0x200, &program())
        .unwrap()
}

fn call_with(k: &mut Kernel, id: usize, args: [u64; 3], input: &SyscallInput) -> isize {
    let pid = k.current.unwrap();
    let mut cx = k.get_trap_cx(pid);
    cx.x[17] = id as u64;
    cx.x[10] = args[0];
    cx.x[11] = args[1];
    cx.x[12] = args[2];
    k.set_trap_cx(pid, &cx);
    assert_eq!(trap_handler(k, 8, 0, input), TrapOutcome::Return);
    reg_to_result(k.get_trap_cx(pid).x[10])
}

fn call(k: &mut Kernel, id: usize, args: [u64; 3]) -> isize {
    let input = SyscallInput { opened: None, read_data: Vec::new(), image: None, pipe: None };
    call_with(k, id, args, &input)
}

fn space(k: &Kernel) -> &MemorySet {
    &k.processes[0].as_ref().unwrap().inner.memory_set
}

fn machine(frames: usize) -> (StackFrameAllocator, PhysMemory, MemorySet) {
    let mut mem = PhysMemory::new(frames).unwrap();
    let mut fa = StackFrameAllocator::new();
    fa.init(PhysPageNum(2), PhysPageNum(frames as u64));
    let ms = MemorySet::new_bare(&mut fa, &mut mem).unwrap();
    (fa, mem, ms)
}

#[test]
fn system_starts_with_the_first_process() {
    let k = started();
    assert_eq!(k.current, Some(0));
    assert_eq!(k.initproc, Some(0));
    assert!(k.ready_queue.is_empty());
    assert_eq!(k.shutdown, None);
    let p = k.processes[0].as_ref().unwrap();
    assert_eq!(p.inner.task.inner.task_status, TaskStatus::Running);
    let cx = k.get_trap_cx(0);
    assert_eq!(cx.sepc, ENTRY);
    assert_eq!(cx.x[2], 0x1_5000);
    assert_eq!(cx.trap_handler, 0x100);
    assert_eq!(p.inner.task.inner.task_cx.ra, 0x200);
    assert_eq!(
        p.inner.task.inner.res,
        Some(TaskUserRes { tid: 0, ustack_base: 0x1_3000, process: 0 })
    );
}

#[test]
fn system_does_not_start() {
    let image = program();
    let boot = |frames: usize, end: u64, image: &[u8]| {
        rust_main(frames, PhysPageNum(16), PhysPageNum(end), PhysPageNum(1), 0, 0, 0, image).err()
    };
    assert_eq!(boot(64, 18, &image), Some(BootError::NoMemory));
    assert_eq!(boot(17, 64, &image), Some(BootError::NoMemory));
    assert_eq!(boot(64, 30, &image), Some(BootError::InitProc(SpawnError::OutOfFrames)));
    assert_eq!(
        boot(64, 64, &image[..60]),
        Some(BootError::InitProc(SpawnError::Image(LoadError::Elf(ElfError::TooShort))))
    );
    assert_eq!(boot(64, 64, &image), None);
}

#[test]
fn log_levels_are_ordered() {
    let levels = [LOG::DISABLE, LOG::ERROR, LOG::WARN, LOG::INFO, LOG::DEBUG, LOG::TRACE];
    for (i, l) in levels.iter().enumerate() {
        assert_eq!(l.level(), i as i32 - 1);
        for (j, m) in levels.iter().enumerate() {
            assert_eq!(l.shown_at(*m), i <= j);
        }
    }
    assert_eq!(log_level(), LOG::TRACE);
    assert!(LOG::ERROR.shown_at(log_level()));
    assert!(!LOG::ERROR.shown_at(LOG::DISABLE));
}

#[test]
fn open_files_tell_their_use() {
    let stdin = FileDescriptor { file: 0, readable: true, writable: false };
    let stdout = FileDescriptor { file: 1, readable: false, writable: true };
    assert!(File::readable(&stdin));
    assert!(!File::writable(&stdin));
    assert!(!File::readable(&stdout));
    assert!(File::writable(&stdout));
}

#[test]
fn allocator_takes_the_frames_behind_the_kernel() {
    let mut fa = StackFrameAllocator::new();
    init_frame_allocator(&mut fa, 0x8020_3001, 0x8080_0fff);
    assert_eq!(fa.free_count(), 0x80800 - 0x80204);
    assert_eq!(fa.alloc_frame(), Some(PhysPageNum(0x80204)));
    init_frame_allocator(&mut fa, 0x8020_3000, 0x8020_5000);
    assert_eq!(fa.free_count(), 2);
    assert_eq!(fa.alloc_frame(), Some(PhysPageNum(0x80203)));
    assert_eq!(fa.alloc_frame(), Some(PhysPageNum(0x80204)));
    assert_eq!(fa.alloc_frame(), None);
    // no frame lies wholly between the two addresses
    init_frame_allocator(&mut fa, 0x8020_3001, 0x8020_3fff);
    assert_eq!(fa.free_count(), 0);
    assert_eq!(fa.alloc_frame(), None);
}

#[test]
fn protection_bits_become_rights() {
    assert_eq!(prot_perm_of(1).bits, PERM_U | PERM_R);
    assert_eq!(prot_perm_of(2).bits, PERM_U | PERM_W);
    assert_eq!(prot_perm_of(3).bits, PERM_U | PERM_R | PERM_W);
    assert_eq!(prot_perm_of(4).bits, PERM_U | PERM_X);
    assert_eq!(prot_perm_of(7).bits, PERM_U | PERM_R | PERM_W | PERM_X);
}

#[test]
fn mapped_range_can_be_used() {
    let mut k = started();
    let free = k.frame_allocator.free_count();
    assert_eq!(call(&mut k, SYSCALL_MMAP, [0x10_0000, 4097, 3]), 0);
    assert_eq!(k.frame_allocator.free_count(), free - 2);
    let last = space(&k).areas.last().unwrap();
    assert_eq!((last.start, last.end), (VirtPageNum(0x100), VirtPageNum(0x102)));
    assert_eq!(last.map_perm.bits, PERM_U | PERM_R | PERM_W);
    for vpn in [0x100u64, 0x101] {
        let e = space(&k).translate(VirtPageNum(vpn), &k.mem).unwrap();
        assert_eq!(e.flags().bits(), PTE_U | PTE_R | PTE_W | PTE_V);
    }
    assert_eq!(space(&k).translate(VirtPageNum(0x102), &k.mem), None);
    let token = current_user_token(&k);
    assert_eq!(translated_byte_buffer(&k.mem, token, 0x10_0000, 8192), Some(vec![0; 8192]));
    assert!(k.write_user(0, 0x10_0ffe, b"abcd"));
    assert_eq!(translated_byte_buffer(&k.mem, token, 0x10_0ffe, 4), Some(b"abcd".to_vec()));
    // execute only
    assert_eq!(sys_mmap(&mut k, 0x20_0000, 1, 4), 0);
    let e = space(&k).translate(VirtPageNum(0x200), &k.mem).unwrap();
    assert_eq!(e.flags().bits(), PTE_U | PTE_X | PTE_V);
}

#[test]
fn mapping_is_refused() {
    let mut k = started();
    let areas = space(&k).areas.len();
    let free = k.frame_allocator.free_count();
    // not at a page boundary
    assert_eq!(call(&mut k, SYSCALL_MMAP, [0x10_0001, 4096, 3]), -1);
    // no right, and a bit that is no right
    assert_eq!(call(&mut k, SYSCALL_MMAP, [0x10_0000, 4096, 0]), -1);
    assert_eq!(call(&mut k, SYSCALL_MMAP, [0x10_0000, 4096, 8]), -1);
    // a page of the range is taken: the data page, the stack
    assert_eq!(call(&mut k, SYSCALL_MMAP, [DATA, 4096, 3]), -1);
    assert_eq!(call(&mut k, SYSCALL_MMAP, [0x1_2000, 8192, 3]), -1);
    // the trap-context page and the trampoline page
    assert_eq!(call(&mut k, SYSCALL_MMAP, [0x7f_ffff_e000, 4096, 3]), -1);
    assert_eq!(call(&mut k, SYSCALL_MMAP, [0x7f_ffff_f000, 4096, 3]), -1);
    assert_eq!(call(&mut k, SYSCALL_MMAP, [0x7f_ffff_d000, 8193, 3]), -1);
    // beyond the address space
    assert_eq!(call(&mut k, SYSCALL_MMAP, [1 << 39, 4096, 3]), -1);
    assert_eq!(call(&mut k, SYSCALL_MMAP, [0x10_0000, u64::MAX, 3]), -1);
    // more pages than frames
    assert_eq!(call(&mut k, SYSCALL_MMAP, [0x10_0000, 4096 * 300, 3]), -1);
    assert_eq!(space(&k).areas.len(), areas);
    assert_eq!(k.frame_allocator.free_count(), free);
    // a range of no bytes changes nothing
    assert_eq!(call(&mut k, SYSCALL_MMAP, [0x10_0000, 0, 3]), 0);
    assert_eq!(space(&k).areas.len(), areas);
    // the guard page below the stack is free
    assert_eq!(call(&mut k, SYSCALL_MMAP, [0x1_2000, 4096, 1]), 0);
}

#[test]
fn unmapped_range_is_gone() {
    let mut k = started();
    let free = k.frame_allocator.free_count();
    assert_eq!(call(&mut k, SYSCALL_MMAP, [0x10_0000, 3 * 4096, 3]), 0);
    assert_eq!(call(&mut k, SYSCALL_MMAP, [0x10_3000, 4096, 1]), 0);
    let areas = space(&k).areas.len();
    let low = k.frame_allocator.free_count();
    // not at a page boundary
    assert_eq!(call(&mut k, SYSCALL_MUNMAP, [0x10_0800, 4096, 0]), -1);
    // not the range of an area: too short, too long, not at its start
    assert_eq!(call(&mut k, SYSCALL_MUNMAP, [0x10_0000, 2 * 4096, 0]), -1);
    assert_eq!(call(&mut k, SYSCALL_MUNMAP, [0x10_0000, 4 * 4096, 0]), -1);
    assert_eq!(call(&mut k, SYSCALL_MUNMAP, [0x10_1000, 2 * 4096, 0]), -1);
    // nothing is mapped there
    assert_eq!(call(&mut k, SYSCALL_MUNMAP, [0x40_0000, 4096, 0]), -1);
    // the trap context stays
    assert_eq!(call(&mut k, SYSCALL_MUNMAP, [0x7f_ffff_e000, 4096, 0]), -1);
    assert_eq!(call(&mut k, SYSCALL_MUNMAP, [0x10_0000, u64::MAX, 0]), -1);
    assert_eq!(space(&k).areas.len(), areas);
    assert_eq!(k.frame_allocator.free_count(), low);
    assert_eq!(call(&mut k, SYSCALL_MUNMAP, [0x10_0000, 0, 0]), 0);
    assert_eq!(space(&k).areas.len(), areas);
    // the last page of the range may be named in part
    assert_eq!(call(&mut k, SYSCALL_MUNMAP, [0x10_0000, 2 * 4096 + 1, 0]), 0);
    assert_eq!(space(&k).areas.len(), areas - 1);
    for vpn in 0x100..0x103u64 {
        assert_eq!(space(&k).translate(VirtPageNum(vpn), &k.mem), None);
    }
    assert!(space(&k).translate(VirtPageNum(0x103), &k.mem).is_some());
    assert_eq!(call(&mut k, SYSCALL_MUNMAP, [0x10_0000, 3 * 4096, 0]), -1);
    assert_eq!(sys_munmap(&mut k, 0x10_3000, 4096), 0);
    assert_eq!(k.frame_allocator.free_count(), free);
    // the range can be mapped again
    assert_eq!(call(&mut k, SYSCALL_MMAP, [0x10_0000, 4096, 2]), 0);
}

#[test]
fn child_has_the_mapped_range() {
    let mut k = started();
    assert_eq!(call(&mut k, SYSCALL_MMAP, [0x10_0000, 4096, 3]), 0);
    assert!(k.write_user(0, 0x10_0010, b"shared?"));
    assert_eq!(call(&mut k, SYSCALL_FORK, [0, 0, 0]), 1);
    let token = k.processes[1].as_ref().unwrap().inner.memory_set.token();
    assert_eq!(translated_byte_buffer(&k.mem, token, 0x10_0010, 7), Some(b"shared?".to_vec()));
    assert_eq!(call(&mut k, SYSCALL_MUNMAP, [0x10_0000, 4096, 0]), 0);
    assert_eq!(translated_byte_buffer(&k.mem, token, 0x10_0010, 7), Some(b"shared?".to_vec()));
    assert_eq!(translated_byte_buffer(&k.mem, current_user_token(&k), 0x10_0010, 7), None);
}

#[test]
fn pipe_takes_two_slots() {
    let mut k = started();
    let input = SyscallInput { opened: None, read_data: Vec::new(), image: None, pipe: Some((70, 71)) };
    assert_eq!(call_with(&mut k, SYSCALL_PIPE, [DATA + 8, 0, 0], &input), 0);
    let fds = k.processes[0].as_ref().unwrap().inner.fd_table.clone();
    assert_eq!(fds.len(), 5);
    assert_eq!(fds[3], Some(FileDescriptor { file: 70, readable: true, writable: false }));
    assert_eq!(fds[4], Some(FileDescriptor { file: 71, readable: false, writable: true }));
    let token = current_user_token(&k);
    let mut expected = 3u64.to_le_bytes().to_vec();
    expected.extend_from_slice(&4u64.to_le_bytes());
    assert_eq!(translated_byte_buffer(&k.mem, token, DATA + 8, 16), Some(expected));
    // the ends are used like other files
    assert!(k.write_user(0, DATA + 64, b"ping"));
    assert_eq!(call(&mut k, SYSCALL_WRITE, [4, DATA + 64, 4]), 4);
    assert_eq!(k.output[0].file, 71);
    let read = SyscallInput { opened: None, read_data: b"ping".to_vec(), image: None, pipe: None };
    assert_eq!(call_with(&mut k, SYSCALL_READ, [3, DATA + 128, 8], &read), 4);
    assert_eq!(call_with(&mut k, SYSCALL_READ, [4, DATA + 128, 8], &read), -1);
    // free slots are filled first
    let mut k = started();
    k.processes[0].as_mut().unwrap().inner.fd_table[0] = None;
    k.processes[0].as_mut().unwrap().inner.fd_table[2] = None;
    assert_eq!(sys_pipe(&mut k, DATA, Some((5, 6))), 0);
    let fds = k.processes[0].as_ref().unwrap().inner.fd_table.clone();
    assert_eq!(fds[0], Some(FileDescriptor { file: 5, readable: true, writable: false }));
    assert_eq!(fds[2], Some(FileDescriptor { file: 6, readable: false, writable: true }));
    assert_eq!(fds.len(), 3);
}

#[test]
fn pipe_is_refused() {
    let mut k = started();
    let input = SyscallInput { opened: None, read_data: Vec::new(), image: None, pipe: Some((70, 71)) };
    // no pipe was made
    assert_eq!(call(&mut k, SYSCALL_PIPE, [DATA, 0, 0]), -1);
    // the numbers cannot be stored: code, the end of the data page, nothing mapped
    assert_eq!(call_with(&mut k, SYSCALL_PIPE, [ENTRY, 0, 0], &input), -1);
    assert_eq!(call_with(&mut k, SYSCALL_PIPE, [DATA + 4088, 0, 0], &input), -1);
    assert_eq!(call_with(&mut k, SYSCALL_PIPE, [0x9_0000, 0, 0], &input), -1);
    assert_eq!(k.processes[0].as_ref().unwrap().inner.fd_table.len(), 3);
}

#[test]
fn thread_resources_are_mapped_and_given_up() {
    let (mut fa, mut mem, mut ms) = machine(64);
    let res = TaskUserRes { tid: 1, ustack_base: 0x2_0000, process: 0 };
    let free = fa.free_count();
    assert_eq!(res.alloc_user_res(&mut ms, &mut fa, &mut mem), Ok(()));
    assert_eq!(ms.areas.len(), 2);
    // the stack of thread 1 lies above the stack of thread 0 and a guard page
    assert_eq!((ms.areas[0].start, ms.areas[0].end), (VirtPageNum(0x23), VirtPageNum(0x25)));
    assert_eq!(ms.areas[0].map_perm.bits, PERM_R | PERM_W | PERM_U);
    // its trap context lies below that of thread 0
    assert_eq!(
        (ms.areas[1].start, ms.areas[1].end),
        (VirtPageNum(0x7ff_fffd), VirtPageNum(0x7ff_fffe))
    );
    assert_eq!(ms.areas[1].map_perm.bits, PERM_R | PERM_W);
    assert!(res.has_trap_cx(&ms, &mem));
    assert_eq!(res.trap_cx_ppn(&ms, &mem), ms.areas[1].data_frames[0].ppn);
    assert_eq!(
        ms.translate(VirtPageNum(0x7ff_fffd), &mem).unwrap().flags().bits(),
        PTE_R | PTE_W | PTE_V
    );
    // 3 pages and 4 nodes
    assert_eq!(fa.free_count(), free - 7);
    // twice is refused
    assert_eq!(res.alloc_user_res(&mut ms, &mut fa, &mut mem), Err(AreaError::Overlap));
    assert_eq!(ms.areas.len(), 2);
    assert_eq!(res.dealloc_user_res(&mut ms, &mut fa, &mut mem), (Some(0), Some(0)));
    assert!(ms.areas.is_empty());
    assert_eq!(fa.free_count(), free - 4);
    assert!(!res.has_trap_cx(&ms, &mem));
    assert_eq!(res.dealloc_user_res(&mut ms, &mut fa, &mut mem), (None, None));
}

#[test]
fn thread_resources_are_refused() {
    let (mut fa, mut mem, mut ms) = machine(64);
    // the stack would reach the trampoline page
    let high = TaskUserRes { tid: 0, ustack_base: 0x7f_ffff_e000, process: 0 };
    assert_eq!(high.alloc_user_res(&mut ms, &mut fa, &mut mem), Err(AreaError::InvalidRange));
    // the stack would cover the trap-context page
    let on_trap = TaskUserRes { tid: 0, ustack_base: 0x7f_ffff_d000, process: 0 };
    assert_eq!(on_trap.alloc_user_res(&mut ms, &mut fa, &mut mem), Err(AreaError::Overlap));
    // the place of the stack is taken
    ms.insert_framed_area(
        VirtAddr(0x2_1000),
        VirtAddr(0x2_2000),
        os_core::mm::MapPermission { bits: PERM_R },
        &mut fa,
        &mut mem,
    )
    .unwrap();
    let res = TaskUserRes { tid: 0, ustack_base: 0x2_0000, process: 0 };
    assert_eq!(res.alloc_user_res(&mut ms, &mut fa, &mut mem), Err(AreaError::Overlap));
    assert_eq!(ms.areas.len(), 1);
    // 2 pages with 2 nodes and 1 page with 2 nodes may be needed
    let (mut fa, mut mem, mut ms) = machine(9);
    assert_eq!(fa.free_count(), 6);
    assert_eq!(res.alloc_user_res(&mut ms, &mut fa, &mut mem), Err(AreaError::OutOfFrames));
    assert_eq!(fa.free_count(), 6);
    assert!(ms.areas.is_empty());
    let (mut fa, mut mem, mut ms) = machine(10);
    assert_eq!(res.alloc_user_res(&mut ms, &mut fa, &mut mem), Ok(()));
    assert_eq!(fa.free_count(), 0);
}

#[test]
fn new_thread_gets_the_next_number() {
    let (mut fa, mut mem, mut ms) = machine(64);
    let mut tids = RecycleAllocator::new();
    let a = TaskUserRes::new(&mut tids, 3, 0x2_0000, false, &mut ms, &mut fa, &mut mem).unwrap();
    assert_eq!(a, TaskUserRes { tid: 0, ustack_base: 0x2_0000, process: 3 });
    assert!(ms.areas.is_empty());
    let b = TaskUserRes::new(&mut tids, 3, 0x2_0000, true, &mut ms, &mut fa, &mut mem).unwrap();
    assert_eq!(b.tid, 1);
    assert_eq!(ms.areas.len(), 2);
    assert_eq!(b.ustack_top(), 0x2_0000 + 0x3000 + 0x2000);
    assert_eq!(ms.areas[0].end, VirtPageNum(0x25));
    // a thread whose resources are refused takes no number
    ms.insert_framed_area(
        VirtAddr(0x2_6000),
        VirtAddr(0x2_7000),
        os_core::mm::MapPermission { bits: PERM_R },
        &mut fa,
        &mut mem,
    )
    .unwrap();
    assert_eq!(
        TaskUserRes::new(&mut tids, 3, 0x2_0000, true, &mut ms, &mut fa, &mut mem),
        Err(AreaError::Overlap)
    );
    assert_eq!(tids.peek(), 2);
    assert!(tids.has_allocated(a.tid));
    a.dealloc_tid(&mut tids);
    assert!(!tids.has_allocated(a.tid));
    assert_eq!(tids.peek(), 0);
}

#[test]
fn new_task_is_ready() {
    let res = TaskUserRes { tid: 0, ustack_base: 0x2_0000, process: 4 };
    let t = TaskControlBlock::new(4, Some(res), PhysPageNum(9), KernelStack(2), 0x8020_1000);
    assert_eq!(t.process, 4);
    assert_eq!(t.kstack.0, 2);
    assert_eq!(t.inner.res, Some(res));
    assert_eq!(t.inner.trap_cx_ppn, PhysPageNum(9));
    assert_eq!(t.inner.get_status(), TaskStatus::Ready);
    assert_eq!(t.inner.exit_code, None);
    assert_eq!(t.inner.task_cx.ra, 0x8020_1000);
    assert_eq!(t.inner.task_cx.sp, 0xffff_ffff_ffff_f000 - 2 * 0x3000);
    assert_eq!(t.inner.task_cx.s, [0; 12]);
}

#[test]
fn task_reaches_its_process() {
    let mut k = started();
    let token = current_user_token(&k);
    let p = k.processes[0].as_ref().unwrap();
    assert_eq!(p.inner.task.get_user_token(&k), token);
    assert_eq!(token, p.inner.get_user_token());
    let cx = p.inner.task.inner.get_trap_cx(&k.mem);
    assert_eq!(cx.sepc, ENTRY);
    assert_eq!(cx.x, k.get_trap_cx(0).x);
    let t = k.processes[0].as_mut().unwrap().inner.task.inner_exclusive_access();
    t.exit_code = Some(3);
    assert_eq!(k.processes[0].as_ref().unwrap().inner.task.inner.exit_code, Some(3));
    let inner = k.processes[0].as_mut().unwrap().inner_exclusive_access();
    inner.exit_code = 5;
    assert!(!inner.is_zombie());
    assert_eq!(inner.alloc_fd(), 3);
    assert_eq!(k.processes[0].as_ref().unwrap().inner.exit_code, 5);
}
