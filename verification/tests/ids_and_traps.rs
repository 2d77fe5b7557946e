use os_core::config::{KERNEL_STACK_SIZE, PAGE_SIZE, TRAMPOLINE, TRAP_CONTEXT_BASE, USER_STACK_SIZE};
use os_core::mm::memory_set::{PERM_R, PERM_W};
use os_core::mm::page_table::{PTE_R, PTE_V, PTE_W};
use os_core::mm::{MemorySet, PhysMemory, PhysPageNum, StackFrameAllocator, VirtPageNum};
use os_core::syscall::process::{code_bytes, decode_action, encode_action, TimeVal};
use os_core::syscall::{reg_i32, reg_index};
use os_core::task::context::TaskContext;
use os_core::task::id::{
    kernel_stack_position, kstack_alloc, kstack_dealloc, pid_alloc, trap_cx_bottom_from_tid,
    ustack_bottom_from_tid, KernelStack, RecycleAllocator, TaskUserRes,
};
use os_core::task::signal::{
    SignalAction, SignalActions, SignalFlags, SIGABRT, SIGCONT, SIGFPE, SIGILL, SIGINT, SIGKILL,
    SIGSEGV, SIGSTOP, SIGUSR1,
};
use os_core::trap::cause::{cause, Exception, Interrupt, Trap};
use os_core::trap::context::TrapContext;
use os_core::trap::handler::{
    enable_timer_interrupt, init, set_user_trap_entry, trap_from_kernel, KernelFault,
};
use os_core::trap::{reg_to_result, result_to_reg};

#[test]
fn fresh_ids_rise() {
    let mut ids = RecycleAllocator::new();
    assert_eq!(ids.peek(), 0);
    assert_eq!(ids.alloc_id(), 0);
    assert_eq!(ids.alloc_id(), 1);
    assert_eq!(ids.alloc_id(), 2);
    assert_eq!(ids.peek(), 3);
}

#[test]
fn id_released_last_is_reused_first() {
    let mut ids = RecycleAllocator::new();
    for _ in 0..5 {
        ids.alloc_id();
    }
    ids.dealloc(1);
    ids.dealloc(3);
    assert_eq!(ids.peek(), 3);
    assert_eq!(ids.alloc_id(), 3);
    assert_eq!(ids.alloc_id(), 1);
    assert_eq!(ids.alloc_id(), 5);
}

#[test]
fn id_is_released_once() {
    let mut ids = RecycleAllocator::new();
    ids.alloc_id();
    ids.alloc_id();
    assert!(ids.has_allocated(0));
    ids.dealloc(0);
    assert!(!ids.has_allocated(0));
    // never handed out
    assert!(!ids.has_allocated(2));
    assert!(!ids.has_allocated(usize::MAX));
    assert_eq!(ids.alloc_id(), 0);
    assert_eq!(ids.alloc_id(), 2);
}

#[test]
fn process_ids_come_from_the_allocator() {
    let mut ids = RecycleAllocator::new();
    assert_eq!(pid_alloc(&mut ids).0, 0);
    assert_eq!(pid_alloc(&mut ids).0, 1);
    ids.dealloc(0);
    assert_eq!(pid_alloc(&mut ids).0, 0);
}

#[test]
fn kernel_stacks_lie_below_the_trampoline() {
    assert_eq!(kernel_stack_position(0), (0xffff_ffff_ffff_d000, 0xffff_ffff_ffff_f000));
    assert_eq!(kernel_stack_position(1), (0xffff_ffff_ffff_a000, 0xffff_ffff_ffff_c000));
    assert_eq!(kernel_stack_position(2), (0xffff_ffff_ffff_7000, 0xffff_ffff_ffff_9000));
    for id in 0..50usize {
        let (bottom, top) = kernel_stack_position(id);
        assert_eq!(top, TRAMPOLINE - id as u64 * (KERNEL_STACK_SIZE + PAGE_SIZE));
        assert_eq!(top - bottom, KERNEL_STACK_SIZE);
        // a guard page lies between two stacks
        let (_, next_top) = kernel_stack_position(id + 1);
        assert_eq!(bottom - next_top, PAGE_SIZE);
        assert_eq!(KernelStack(id).get_top(), top);
    }
}

#[test]
fn kernel_stack_is_mapped_and_given_back() {
    let mut mem = PhysMemory::new(64).unwrap();
    let mut fa = StackFrameAllocator::new();
    fa.init(PhysPageNum(2), PhysPageNum(64));
    let mut space = MemorySet::new_bare(&mut fa, &mut mem).unwrap();
    space.map_trampoline(PhysPageNum(1), &mut fa, &mut mem).unwrap();
    let mut ids = RecycleAllocator::new();
    let free = fa.free_count();
    let a = kstack_alloc(&mut ids, &mut space, &mut fa, &mut mem).unwrap();
    let b = kstack_alloc(&mut ids, &mut space, &mut fa, &mut mem).unwrap();
    assert_eq!((a.0, b.0), (0, 1));
    assert_eq!(fa.free_count(), free - 4);
    // stack 0 fills the two pages below the trampoline, stack 1 the two below a guard page
    for vpn in [0x7ff_fffdu64, 0x7ff_fffe, 0x7ff_fffa, 0x7ff_fffb] {
        let e = space.translate(VirtPageNum(vpn), &mem).unwrap();
        assert_eq!(e.flags().bits(), PTE_R | PTE_W | PTE_V);
    }
    assert_eq!(space.translate(VirtPageNum(0x7ff_fffc), &mem), None);
    assert_eq!(space.areas[0].map_perm.bits, PERM_R | PERM_W);
    assert!(kstack_dealloc(KernelStack(0), &mut ids, &mut space, &mut fa, &mut mem));
    assert_eq!(space.translate(VirtPageNum(0x7ff_fffd), &mem), None);
    assert!(space.translate(VirtPageNum(0x7ff_fffa), &mem).is_some());
    assert_eq!(fa.free_count(), free - 2);
    // a stack that is gone is not given back again
    assert!(!kstack_dealloc(KernelStack(0), &mut ids, &mut space, &mut fa, &mut mem));
    assert_eq!(fa.free_count(), free - 2);
    // its number is handed out anew
    let c = kstack_alloc(&mut ids, &mut space, &mut fa, &mut mem).unwrap();
    assert_eq!(c.0, 0);
}

#[test]
fn kernel_stack_needs_frames() {
    let mut mem = PhysMemory::new(8).unwrap();
    let mut fa = StackFrameAllocator::new();
    fa.init(PhysPageNum(2), PhysPageNum(8));
    let mut space = MemorySet::new_bare(&mut fa, &mut mem).unwrap();
    space.map_trampoline(PhysPageNum(1), &mut fa, &mut mem).unwrap();
    let mut ids = RecycleAllocator::new();
    // 3 frames are free; a stack may need 2 pages and 2 nodes
    assert_eq!(fa.free_count(), 3);
    assert!(kstack_alloc(&mut ids, &mut space, &mut fa, &mut mem).is_none());
    assert_eq!(fa.free_count(), 3);
    assert_eq!(ids.peek(), 0);
    assert!(space.areas.is_empty());
}

#[test]
fn thread_resources_have_their_places() {
    assert_eq!(trap_cx_bottom_from_tid(0), TRAP_CONTEXT_BASE);
    assert_eq!(trap_cx_bottom_from_tid(3), TRAP_CONTEXT_BASE - 3 * PAGE_SIZE);
    assert_eq!(ustack_bottom_from_tid(0x2_0000, 0), 0x2_0000);
    assert_eq!(ustack_bottom_from_tid(0x2_0000, 2), 0x2_0000 + 2 * (PAGE_SIZE + USER_STACK_SIZE));
    let res = TaskUserRes { tid: 1, ustack_base: 0x4_0000, process: 7 };
    assert_eq!(res.trap_cx_user_va(), 0xffff_ffff_ffff_d000);
    assert_eq!(res.ustack_base(), 0x4_0000);
    assert_eq!(res.ustack_top(), 0x4_0000 + 0x3000 + 0x2000);
}

#[test]
fn signal_sets() {
    let mut s = SignalFlags::empty();
    assert_eq!(s.bits(), 0);
    s.insert(SignalFlags { bits: SIGINT });
    s.insert(SignalFlags { bits: SIGUSR1 | SIGSTOP });
    assert_eq!(s.bits(), 0x8_0404);
    assert!(s.contains(SignalFlags { bits: SIGINT | SIGUSR1 }));
    assert!(!s.contains(SignalFlags { bits: SIGINT | SIGKILL }));
    assert!(s.contains_signum(2));
    assert!(s.contains_signum(19));
    assert!(!s.contains_signum(9));
    s.remove(SignalFlags { bits: SIGINT | SIGKILL });
    assert_eq!(s.bits(), 0x8_0400);
    assert_eq!(s.difference(SignalFlags { bits: SIGSTOP }).bits(), 0x400);
    assert_eq!(SignalFlags::from_bits(0xffff_ffff), Some(SignalFlags { bits: 0xffff_ffff }));
    assert_eq!(SignalFlags::from_signum(0), Some(SignalFlags { bits: 1 }));
    assert_eq!(SignalFlags::from_signum(9), Some(SignalFlags { bits: SIGKILL }));
    assert_eq!(SignalFlags::from_signum(18), Some(SignalFlags { bits: SIGCONT }));
    assert_eq!(SignalFlags::from_signum(31), Some(SignalFlags { bits: 0x8000_0000 }));
    assert_eq!(SignalFlags::from_signum(32), None);
}

#[test]
fn fatal_signals_give_their_number() {
    for (bits, code) in
        [(SIGINT, 2), (SIGILL, 4), (SIGABRT, 6), (SIGFPE, 8), (SIGKILL, 9), (SIGSEGV, 11)]
    {
        assert_eq!(SignalFlags { bits }.check_error().map(|e| e.0), Some(code));
        // signals that are not fatal do not matter
        assert_eq!(
            SignalFlags { bits: bits | SIGUSR1 | SIGSTOP | 1 }.check_error().map(|e| e.0),
            Some(code)
        );
    }
    // the lowest fatal signal wins
    assert_eq!(SignalFlags { bits: SIGSEGV | SIGILL | SIGKILL }.check_error().map(|e| e.0), Some(4));
    assert_eq!(SignalFlags { bits: SIGUSR1 | SIGSTOP | SIGCONT | 1 }.check_error(), None);
    assert_eq!(SignalFlags::empty().check_error(), None);
}

#[test]
fn actions_are_sixteen_bytes() {
    let a = SignalAction { handler: 0x0102_0304_0506_0708, mask: SignalFlags { bits: 0x0a0b_0c0d } };
    let bytes = encode_action(&a);
    assert_eq!(
        bytes,
        vec![8, 7, 6, 5, 4, 3, 2, 1, 0x0d, 0x0c, 0x0b, 0x0a, 0, 0, 0, 0]
    );
    assert_eq!(decode_action(&bytes), a);
    let t = SignalActions::default();
    for i in 0..32 {
        assert_eq!(t.table[i], SignalAction { handler: 0, mask: SignalFlags { bits: 40 } });
    }
}

#[test]
fn cause_register_is_decoded() {
    assert_eq!(cause(8), Trap::Exception(Exception::UserEnvCall));
    assert_eq!(cause(0), Trap::Exception(Exception::InstructionMisaligned));
    assert_eq!(cause(1), Trap::Exception(Exception::InstructionFault));
    assert_eq!(cause(2), Trap::Exception(Exception::IllegalInstruction));
    assert_eq!(cause(3), Trap::Exception(Exception::Breakpoint));
    assert_eq!(cause(5), Trap::Exception(Exception::LoadFault));
    assert_eq!(cause(6), Trap::Exception(Exception::StoreMisaligned));
    assert_eq!(cause(7), Trap::Exception(Exception::StoreFault));
    assert_eq!(cause(12), Trap::Exception(Exception::InstructionPageFault));
    assert_eq!(cause(13), Trap::Exception(Exception::LoadPageFault));
    assert_eq!(cause(15), Trap::Exception(Exception::StorePageFault));
    for code in [4u64, 9, 10, 11, 14, 16, 1000] {
        assert_eq!(cause(code), Trap::Exception(Exception::Unknown));
    }
    let top = 1u64 << 63;
    assert_eq!(cause(top), Trap::Interrupt(Interrupt::UserSoft));
    assert_eq!(cause(top | 1), Trap::Interrupt(Interrupt::SupervisorSoft));
    assert_eq!(cause(top | 4), Trap::Interrupt(Interrupt::UserTimer));
    assert_eq!(cause(top | 5), Trap::Interrupt(Interrupt::SupervisorTimer));
    assert_eq!(cause(top | 8), Trap::Interrupt(Interrupt::UserExternal));
    assert_eq!(cause(top | 9), Trap::Interrupt(Interrupt::SupervisorExternal));
    for code in [2u64, 3, 6, 7, 10, 12, 64] {
        assert_eq!(cause(top | code), Trap::Interrupt(Interrupt::Unknown));
    }
}

#[test]
fn trap_context_of_a_new_program() {
    let cx = TrapContext::app_init_context(0x1000, 0x8000, 0x8000_0000_0000_0042, 0xf000, 0x200, 0x8_0123);
    assert_eq!(cx.sepc, 0x1000);
    assert_eq!(cx.x[2], 0x8000);
    assert_eq!(cx.x.iter().filter(|r| **r != 0).count(), 1);
    assert_eq!(cx.sstatus, 0x8_0023);
    assert_eq!(cx.kernel_satp, 0x8000_0000_0000_0042);
    assert_eq!(cx.kernel_sp, 0xf000);
    assert_eq!(cx.trap_handler, 0x200);
    let mut cx = cx;
    cx.set_sp(0x7ff0);
    assert_eq!(cx.x[2], 0x7ff0);
    assert_eq!(cx.sepc, 0x1000);
}

#[test]
fn trap_context_lies_at_the_start_of_its_frame() {
    let mut mem = PhysMemory::new(4).unwrap();
    mem.write_word(PhysPageNum(2), 37, 0x7777);
    mem.write_word(PhysPageNum(2), 511, 0x8888);
    let mut cx = TrapContext::app_init_context(0x1000, 0x8000, 1, 2, 3, 0);
    for i in 0..32 {
        cx.x[i] = 100 + i as u64;
    }
    cx.store(&mut mem, PhysPageNum(2));
    for i in 0..32 {
        assert_eq!(mem.read_word(PhysPageNum(2), i), 100 + i as u64);
    }
    assert_eq!(mem.read_word(PhysPageNum(2), 32), 0);
    assert_eq!(mem.read_word(PhysPageNum(2), 33), 0x1000);
    assert_eq!(mem.read_word(PhysPageNum(2), 34), 1);
    assert_eq!(mem.read_word(PhysPageNum(2), 35), 2);
    assert_eq!(mem.read_word(PhysPageNum(2), 36), 3);
    // the rest of the frame and the other frames stay
    assert_eq!(mem.read_word(PhysPageNum(2), 37), 0x7777);
    assert_eq!(mem.read_word(PhysPageNum(2), 511), 0x8888);
    assert_eq!(mem.read_word(PhysPageNum(1), 0), 0);
    let back = TrapContext::load(&mem, PhysPageNum(2));
    assert_eq!(back.x, cx.x);
    assert_eq!(
        (back.sstatus, back.sepc, back.kernel_satp, back.kernel_sp, back.trap_handler),
        (0, 0x1000, 1, 2, 3)
    );
}

#[test]
fn task_context_of_a_new_task() {
    let z = TaskContext::zero_init();
    assert_eq!((z.ra, z.sp, z.s), (0, 0, [0; 12]));
    let c = TaskContext::goto_trap_return(0xffff_ffff_ffff_f000, 0x8020_1000);
    assert_eq!((c.ra, c.sp, c.s), (0x8020_1000, 0xffff_ffff_ffff_f000, [0; 12]));
}

#[test]
fn trap_registers() {
    assert_eq!(init(0x8020_0002), 0x8020_0000);
    assert_eq!(init(0x8020_0004), 0x8020_0004);
    assert_eq!(set_user_trap_entry(), TRAMPOLINE);
    assert_eq!(enable_timer_interrupt(), 1 << 5);
    assert_eq!(trap_from_kernel(), KernelFault::TrapFromKernel);
}

#[test]
fn results_and_registers() {
    assert_eq!(result_to_reg(0), 0);
    assert_eq!(result_to_reg(5), 5);
    assert_eq!(result_to_reg(-1), u64::MAX);
    assert_eq!(result_to_reg(-2), u64::MAX - 1);
    assert_eq!(result_to_reg(isize::MIN), 1 << 63);
    assert_eq!(reg_to_result(u64::MAX), -1);
    assert_eq!(reg_to_result(u64::MAX - 1), -2);
    assert_eq!(reg_to_result(7), 7);
    for r in [0isize, 1, -1, -2, 1234, isize::MAX, isize::MIN] {
        assert_eq!(reg_to_result(result_to_reg(r)), r);
    }
    assert_eq!(reg_i32(7), 7);
    assert_eq!(reg_i32(0xffff_ffff), -1);
    assert_eq!(reg_i32(0x1_0000_0003), 3);
    assert_eq!(reg_i32(0x8000_0000), i32::MIN);
    assert_eq!(reg_i32(0x7fff_ffff), i32::MAX);
    assert_eq!(reg_i32(u64::MAX), -1);
    assert_eq!(reg_index(12), 12);
    assert_eq!(reg_index(u64::MAX), usize::MAX);
    assert_eq!(code_bytes(7), vec![7, 0, 0, 0]);
    assert_eq!(code_bytes(-1), vec![255, 255, 255, 255]);
    assert_eq!(code_bytes(-3), (-3i32).to_le_bytes().to_vec());
    assert_eq!(code_bytes(0x0102_0304), vec![4, 3, 2, 1]);
    assert_eq!(code_bytes(i32::MIN), i32::MIN.to_le_bytes().to_vec());
    assert_eq!(TimeVal::new(), TimeVal { sec: 0, usec: 0 });
}
