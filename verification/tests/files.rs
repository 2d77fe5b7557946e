use os_core::mm::PhysPageNum;
use os_core::mm::user::{translated_byte_buffer, translated_str, user_writable, translate_user};
use os_core::syscall::fs::{
    sys_fstat, sys_linkat, sys_mail_read, sys_mail_write, sys_spawn, sys_unlinkat, OpenFlags,
    Stat, O_CREATE, O_RDONLY, O_RDWR, O_TRUNC, O_WRONLY,
};
use os_core::syscall::{
    SyscallInput, SYSCALL_CLOSE, SYSCALL_DUP, SYSCALL_FORK, SYSCALL_FSTAT, SYSCALL_LINKAT,
    SYSCALL_MAIL_READ, SYSCALL_MAIL_WRITE, SYSCALL_OPEN, SYSCALL_READ, SYSCALL_SPAWN,
    SYSCALL_UNLINKAT, SYSCALL_WRITE,
};
use os_core::task::add_initproc;
use os_core::task::kernel::{FileWrite, Kernel};
use os_core::task::process::FileDescriptor;
use os_core::task::processor::{current_user_token, schedule};
use os_core::trap::handler::{trap_handler, TrapOutcome};
use os_core::trap::reg_to_result;

const ENTRY: u64 = 0x1_0000;
const DATA: u64 = 0x1_1000;

fn put(v: &mut Vec<u8>, off: usize, bytes: &[u8]) {
    v[off..off + bytes.len()].copy_from_slice(bytes);
}

/// A program with a page of code at `ENTRY` and two pages of data at `DATA`.
fn program() -> Vec<u8> {
    let mut image = vec![0u8; 64 + 2 * 56];
    put(&mut image, 0, &[0x7f, b'E', b'L', b'F', 2, 1, 1, 0]);
    put(&mut image, 24, &ENTRY.to_le_bytes());
    put(&mut image, 32, &64u64.to_le_bytes());
    put(&mut image, 54, &56u16.to_le_bytes());
    put(&mut image, 56, &2u16.to_le_bytes());
    for (i, (vaddr, flags, memsz)) in [(ENTRY, 5u32, 4096u64), (DATA, 6, 8192)].iter().enumerate() {
        let ph = 64 + 56 * i;
        put(&mut image, ph, &1u32.to_le_bytes());
        put(&mut image, ph + 4, &flags.to_le_bytes());
        put(&mut image, ph + 8, &176u64.to_le_bytes());
        put(&mut image, ph + 16, &vaddr.to_le_bytes());
        put(&mut image, ph + 32, &0u64.to_le_bytes());
        put(&mut image, ph + 40, &memsz.to_le_bytes());
    }
    image
}

fn started() -> Kernel {
    let mut k =
        Kernel::new(512, PhysPageNum(16), PhysPageNum(512), PhysPageNum(1), 0, 0, 0).unwrap();
    assert_eq!(add_initproc(&mut k, &program()), Ok(0));
    schedule(&mut k);
    k
}

fn call_with(k: &mut Kernel, id: usize, args: [u64; 3], input: &SyscallInput) -> isize {
    let pid = k.current.unwrap();
    let mut cx = k.get_trap_cx(pid);
    cx.x[17] = id as u64;
    cx.x[10] = args[0];
    cx.x[11] = args[1];
    cx.x[12] = args[2];
    k.set_trap_cx(pid, &cx);
    assert_eq!(trap_handler(k, 8, 0, input), TrapOutcome::Return);
    reg_to_result(k.get_trap_cx(pid).x[10])
}

fn call(k: &mut Kernel, id: usize, args: [u64; 3]) -> isize {
    call_with(k, id, args, &SyscallInput { opened: None, read_data: Vec::new(), image: None, pipe: None })
}

fn opened(file: usize) -> SyscallInput {
    SyscallInput { opened: Some(file), read_data: Vec::new(), image: None, pipe: None }
}

fn fds(k: &Kernel) -> Vec<Option<FileDescriptor>> {
    k.processes[0].as_ref().unwrap().inner.fd_table.clone()
}

#[test]
fn open_flags_say_how_a_file_is_used() {
    assert_eq!(OpenFlags::from_bits(O_RDONLY).unwrap().read_write(), (true, false));
    assert_eq!(OpenFlags::from_bits(O_WRONLY).unwrap().read_write(), (false, true));
    assert_eq!(OpenFlags::from_bits(O_RDWR).unwrap().read_write(), (true, true));
    assert_eq!(OpenFlags::from_bits(O_CREATE | O_WRONLY).unwrap().read_write(), (false, true));
    assert_eq!(OpenFlags::from_bits(O_CREATE | O_TRUNC).unwrap().read_write(), (true, true));
    assert_eq!(OpenFlags::from_bits(0x603), Some(OpenFlags { bits: 0x603 }));
    assert_eq!(OpenFlags::from_bits(4), None);
    assert_eq!(OpenFlags::from_bits(0x800), None);
}

#[test]
fn new_process_has_the_standard_files() {
    let k = started();
    assert_eq!(
        fds(&k),
        vec![
            Some(FileDescriptor { file: 0, readable: true, writable: false }),
            Some(FileDescriptor { file: 1, readable: false, writable: true }),
            Some(FileDescriptor { file: 2, readable: false, writable: true }),
        ]
    );
}

#[test]
fn open_takes_the_lowest_free_slot() {
    let mut k = started();
    assert!(k.write_user(0, DATA, b"notes\0"));
    assert_eq!(call_with(&mut k, SYSCALL_OPEN, [DATA, O_RDWR as u64, 0], &opened(40)), 3);
    assert_eq!(call_with(&mut k, SYSCALL_OPEN, [DATA, O_RDONLY as u64, 0], &opened(41)), 4);
    assert_eq!(fds(&k)[3], Some(FileDescriptor { file: 40, readable: true, writable: true }));
    assert_eq!(fds(&k)[4], Some(FileDescriptor { file: 41, readable: true, writable: false }));
    assert_eq!(call(&mut k, SYSCALL_CLOSE, [1, 0, 0]), 0);
    assert_eq!(call(&mut k, SYSCALL_CLOSE, [3, 0, 0]), 0);
    assert_eq!(fds(&k)[1], None);
    assert_eq!(fds(&k)[3], None);
    assert_eq!(
        call_with(&mut k, SYSCALL_OPEN, [DATA, (O_WRONLY | O_CREATE) as u64, 0], &opened(42)),
        1
    );
    assert_eq!(fds(&k)[1], Some(FileDescriptor { file: 42, readable: false, writable: true }));
    assert_eq!(call_with(&mut k, SYSCALL_OPEN, [DATA, 0, 0], &opened(43)), 3);
    assert_eq!(call_with(&mut k, SYSCALL_OPEN, [DATA, 0, 0], &opened(44)), 5);
    assert_eq!(fds(&k).len(), 6);
}

#[test]
fn open_is_refused() {
    let mut k = started();
    assert!(k.write_user(0, DATA, b"notes\0"));
    let before = fds(&k);
    // the file system gave no handle
    assert_eq!(call(&mut k, SYSCALL_OPEN, [DATA, 0, 0]), -1);
    // a bit that is no flag
    assert_eq!(call_with(&mut k, SYSCALL_OPEN, [DATA, 4, 0], &opened(40)), -1);
    // a name that is not mapped
    assert_eq!(call_with(&mut k, SYSCALL_OPEN, [0x9_0000, 0, 0], &opened(40)), -1);
    // a name without an end: the data pages hold no zero byte
    assert!(k.write_user(0, DATA, &vec![b'a'; 8192]));
    assert_eq!(call_with(&mut k, SYSCALL_OPEN, [DATA, 0, 0], &opened(40)), -1);
    assert_eq!(fds(&k), before);
}

#[test]
fn close_frees_the_slot_once() {
    let mut k = started();
    assert_eq!(call(&mut k, SYSCALL_CLOSE, [2, 0, 0]), 0);
    assert_eq!(call(&mut k, SYSCALL_CLOSE, [2, 0, 0]), -1);
    assert_eq!(call(&mut k, SYSCALL_CLOSE, [3, 0, 0]), -1);
    assert_eq!(call(&mut k, SYSCALL_CLOSE, [1 << 40, 0, 0]), -1);
    assert_eq!(fds(&k).len(), 3);
    assert_eq!(fds(&k)[2], None);
    assert!(fds(&k)[0].is_some());
}

#[test]
fn dup_gives_a_second_slot() {
    let mut k = started();
    assert_eq!(call(&mut k, SYSCALL_DUP, [1, 0, 0]), 3);
    assert_eq!(fds(&k)[3], fds(&k)[1]);
    assert_eq!(call(&mut k, SYSCALL_CLOSE, [0, 0, 0]), 0);
    assert_eq!(call(&mut k, SYSCALL_DUP, [3, 0, 0]), 0);
    assert_eq!(fds(&k)[0], Some(FileDescriptor { file: 1, readable: false, writable: true }));
    assert_eq!(call(&mut k, SYSCALL_DUP, [7, 0, 0]), -1);
    assert_eq!(call(&mut k, SYSCALL_CLOSE, [2, 0, 0]), 0);
    assert_eq!(call(&mut k, SYSCALL_DUP, [2, 0, 0]), -1);
    assert_eq!(fds(&k).len(), 4);
}

#[test]
fn write_hands_the_bytes_over() {
    let mut k = started();
    assert!(k.write_user(0, DATA + 4090, b"hello, world"));
    // across a page boundary
    assert_eq!(call(&mut k, SYSCALL_WRITE, [1, DATA + 4090, 12]), 12);
    assert_eq!(call(&mut k, SYSCALL_WRITE, [2, DATA + 4090, 5]), 5);
    assert_eq!(call(&mut k, SYSCALL_WRITE, [1, DATA, 0]), 0);
    assert_eq!(k.output.len(), 3);
    assert_eq!(k.output[0].file, 1);
    assert_eq!(k.output[0].data, b"hello, world".to_vec());
    assert_eq!(k.output[1].file, 2);
    assert_eq!(k.output[1].data, b"hello".to_vec());
    assert_eq!(k.output[2].data, Vec::<u8>::new());
    // code can be read, too
    assert_eq!(call(&mut k, SYSCALL_WRITE, [1, ENTRY, 4]), 4);
}

#[test]
fn write_is_refused() {
    let mut k = started();
    // no such file
    assert_eq!(call(&mut k, SYSCALL_WRITE, [3, DATA, 4]), -1);
    // the bytes end behind the data pages
    assert_eq!(call(&mut k, SYSCALL_WRITE, [1, DATA + 8190, 4]), -1);
    // nothing is mapped there
    assert_eq!(call(&mut k, SYSCALL_WRITE, [1, 0x9_0000, 1]), -1);
    // kernel pages are not for users: the trap context
    assert_eq!(call(&mut k, SYSCALL_WRITE, [1, 0xffff_ffff_ffff_e000, 1]), -1);
    assert_eq!(call(&mut k, SYSCALL_WRITE, [1, 0x7f_ffff_e000, 1]), -1);
    assert!(k.output.is_empty());
    // whether a file takes the bytes is for the file to say
    assert_eq!(call(&mut k, SYSCALL_WRITE, [0, DATA, 4]), 4);
    assert_eq!(k.output.len(), 1);
    assert_eq!(k.output[0].file, 0);
}

#[test]
fn read_stores_what_the_file_gave() {
    let mut k = started();
    let input = SyscallInput { opened: None, read_data: b"abcdef".to_vec(), image: None, pipe: None };
    assert_eq!(call_with(&mut k, SYSCALL_READ, [0, DATA + 10, 4], &input), 4);
    let token = current_user_token(&k);
    assert_eq!(translated_byte_buffer(&k.mem, token, DATA + 8, 8), Some(b"\0\0abcd\0\0".to_vec()));
    assert_eq!(call_with(&mut k, SYSCALL_READ, [0, DATA + 100, 64], &input), 6);
    assert_eq!(translated_byte_buffer(&k.mem, token, DATA + 100, 7), Some(b"abcdef\0".to_vec()));
    // at the end of the file nothing is read
    assert_eq!(call(&mut k, SYSCALL_READ, [0, DATA, 16]), 0);
}

#[test]
fn read_is_refused() {
    let mut k = started();
    let input = SyscallInput { opened: None, read_data: b"abcdef".to_vec(), image: None, pipe: None };
    // standard output cannot be read
    assert_eq!(call_with(&mut k, SYSCALL_READ, [1, DATA, 4], &input), -1);
    assert_eq!(call_with(&mut k, SYSCALL_READ, [9, DATA, 4], &input), -1);
    // code cannot be written
    assert_eq!(call_with(&mut k, SYSCALL_READ, [0, ENTRY, 4], &input), -1);
    assert_eq!(call_with(&mut k, SYSCALL_READ, [0, DATA + 8190, 4], &input), -1);
    let token = current_user_token(&k);
    assert_eq!(translated_byte_buffer(&k.mem, token, DATA + 8190, 2), Some(vec![0, 0]));
}

#[test]
fn child_has_the_files_of_its_parent() {
    let mut k = started();
    assert!(k.write_user(0, DATA, b"f\0"));
    assert_eq!(call_with(&mut k, SYSCALL_OPEN, [DATA, O_RDWR as u64, 0], &opened(9)), 3);
    assert_eq!(call(&mut k, SYSCALL_CLOSE, [1, 0, 0]), 0);
    assert_eq!(call(&mut k, SYSCALL_FORK, [0, 0, 0]), 1);
    assert_eq!(k.processes[1].as_ref().unwrap().inner.fd_table, fds(&k));
    // closing in the parent does not close in the child
    assert_eq!(call(&mut k, SYSCALL_CLOSE, [3, 0, 0]), 0);
    assert_eq!(
        k.processes[1].as_ref().unwrap().inner.fd_table[3],
        Some(FileDescriptor { file: 9, readable: true, writable: true })
    );
}

#[test]
fn calls_without_effect_return_zero() {
    let mut k = started();
    for id in [
        SYSCALL_LINKAT,
        SYSCALL_UNLINKAT,
        SYSCALL_FSTAT,
        SYSCALL_MAIL_READ,
        SYSCALL_MAIL_WRITE,
        SYSCALL_SPAWN,
    ] {
        assert_eq!(call(&mut k, id, [1, 2, 3]), 0);
    }
    assert_eq!(sys_linkat(0, 0, 0, 0, 0), 0);
    assert_eq!(sys_unlinkat(0, 0, 0), 0);
    assert_eq!(sys_fstat(0, 0), 0);
    assert_eq!(sys_mail_read(0, 0), 0);
    assert_eq!(sys_mail_write(0, 0, 0), 0);
    assert_eq!(sys_spawn(0), 0);
    let st = Stat::new();
    assert_eq!((st.dev, st.ino, st.mode.bits, st.nlink), (0, 0, 0, 0));
    assert_eq!(st.pad, [0; 7]);
}

#[test]
fn user_memory_is_read_through_the_page_table() {
    let mut k = started();
    let token = current_user_token(&k);
    assert!(k.write_user(0, DATA + 4094, b"name\0"));
    assert_eq!(translated_str(&k.mem, token, DATA + 4094), Some(b"name".to_vec()));
    assert_eq!(translated_str(&k.mem, token, DATA + 4098), Some(Vec::new()));
    assert_eq!(translated_str(&k.mem, token, 0x9_0000), None);
    assert_eq!(translated_byte_buffer(&k.mem, token, DATA + 4094, 5), Some(b"name\0".to_vec()));
    assert_eq!(translated_byte_buffer(&k.mem, token, DATA + 8191, 2), None);
    assert_eq!(translated_byte_buffer(&k.mem, token, 0x9_0000, 0), Some(Vec::new()));
    assert!(user_writable(&k.mem, token, DATA, 8192));
    assert!(!user_writable(&k.mem, token, DATA, 8193));
    assert!(!user_writable(&k.mem, token, ENTRY, 1));
    // the slot of an address: the frame of its page and the offset in it
    let frame = k.processes[0].as_ref().unwrap().inner.memory_set.areas[1].data_frames[1].ppn;
    assert_eq!(translate_user(&k.mem, token, DATA + 4096 + 7, 2), Some((frame, 7)));
    assert_eq!(translate_user(&k.mem, token, ENTRY, 4), None);
    assert_eq!(translate_user(&k.mem, token, 1 << 39, 2), None);
    // writes that do not fit change nothing
    assert!(!k.write_user(0, DATA + 8190, b"abcd"));
    assert_eq!(translated_byte_buffer(&k.mem, token, DATA + 8190, 2), Some(vec![0, 0]));
    assert!(!k.write_user(0, ENTRY, b"a"));
}

#[test]
fn long_names_are_read() {
    let mut k = started();
    // a name of 5000 bytes, longer than a page
    let mut name = vec![b'n'; 5000];
    name.push(0);
    assert!(k.write_user(0, DATA, &name));
    let token = current_user_token(&k);
    assert_eq!(translated_str(&k.mem, token, DATA).map(|s| s.len()), Some(5000));
    assert_eq!(call_with(&mut k, SYSCALL_OPEN, [DATA, 0, 0], &opened(40)), 3);
}
