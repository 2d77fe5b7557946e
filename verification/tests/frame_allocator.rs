use os_core::mm::{
    frame_alloc, frame_dealloc, FrameTracker, PhysMemory, PhysPageNum,
    StackFrameAllocator,
};

#[test]
fn fresh_frames_rise() {
    let mut fa = StackFrameAllocator::new();
    fa.init(PhysPageNum(3), PhysPageNum(6));
    assert_eq!(fa.alloc_frame(), Some(PhysPageNum(3)));
    assert_eq!(fa.alloc_frame(), Some(PhysPageNum(4)));
    assert_eq!(fa.alloc_frame(), Some(PhysPageNum(5)));
    assert_eq!(fa.alloc_frame(), None);
    assert_eq!(fa.free_count(), 0);
}

#[test]
fn empty_allocator_has_no_frame() {
    let mut fa = StackFrameAllocator::new();
    assert_eq!(fa.alloc_frame(), None);
    fa.init(PhysPageNum(9), PhysPageNum(4));
    assert_eq!(fa.free_count(), 0);
    assert_eq!(fa.alloc_frame(), None);
}

#[test]
fn frame_freed_last_is_reused_first() {
    let mut fa = StackFrameAllocator::new();
    fa.init(PhysPageNum(10), PhysPageNum(20));
    let a = fa.alloc_frame().unwrap();
    let b = fa.alloc_frame().unwrap();
    let c = fa.alloc_frame().unwrap();
    assert_eq!((a, b, c), (PhysPageNum(10), PhysPageNum(11), PhysPageNum(12)));
    fa.dealloc(a);
    fa.dealloc(c);
    assert_eq!(fa.free_count(), 9);
    assert_eq!(fa.alloc_frame(), Some(PhysPageNum(12)));
    assert_eq!(fa.alloc_frame(), Some(PhysPageNum(10)));
    assert_eq!(fa.alloc_frame(), Some(PhysPageNum(13)));
}

#[test]
fn allocated_frames_are_distinct() {
    let mut fa = StackFrameAllocator::new();
    fa.init(PhysPageNum(0), PhysPageNum(64));
    let mut held: Vec<u64> = Vec::new();
    for round in 0..200u64 {
        if round % 3 == 2 && !held.is_empty() {
            let victim = held.remove((round as usize * 7) % held.len());
            fa.dealloc(PhysPageNum(victim));
        } else if let Some(p) = fa.alloc_frame() {
            assert!(!held.contains(&p.0));
            held.push(p.0);
        }
    }
    let mut sorted = held.clone();
    sorted.sort();
    sorted.dedup();
    assert_eq!(sorted.len(), held.len());
}

#[test]
fn double_free_is_refused() {
    let mut fa = StackFrameAllocator::new();
    fa.init(PhysPageNum(5), PhysPageNum(9));
    let a = fa.alloc_frame().unwrap();
    fa.dealloc(a);
    assert!(!fa.has_allocated(a));
    assert_eq!(fa.free_count(), 4);
}

#[test]
fn frame_never_allocated_is_refused() {
    let mut fa = StackFrameAllocator::new();
    fa.init(PhysPageNum(5), PhysPageNum(9));
    let _ = fa.alloc_frame().unwrap();
    // at the bump pointer, above it, and below the range
    assert!(!fa.has_allocated(PhysPageNum(6)));
    assert!(!fa.has_allocated(PhysPageNum(8)));
    assert!(!fa.has_allocated(PhysPageNum(4)));
    assert!(!fa.has_allocated(PhysPageNum(100)));
    fa.dealloc(PhysPageNum(5));
}

#[test]
fn allocated_frame_is_zeroed() {
    let mut mem = PhysMemory::new(8).unwrap();
    let mut fa = StackFrameAllocator::new();
    fa.init(PhysPageNum(2), PhysPageNum(8));
    mem.write_word(PhysPageNum(2), 7, 0xdead_beef);
    mem.write_byte(PhysPageNum(2), 4095, 0x55);
    mem.write_word(PhysPageNum(3), 1, 99);
    let frame = frame_alloc(&mut fa, &mut mem).unwrap();
    assert_eq!(frame.ppn, PhysPageNum(2));
    for i in 0..512 {
        assert_eq!(mem.read_word(PhysPageNum(2), i), 0);
    }
    // the neighbour is untouched
    assert_eq!(mem.read_word(PhysPageNum(3), 1), 99);
    frame_dealloc(&mut fa, frame);
    assert!(!fa.has_allocated(PhysPageNum(2)));
}

#[test]
fn memory_bytes_and_words() {
    let mut mem = PhysMemory::new(2).unwrap();
    assert_eq!(mem.frame_count(), 2);
    assert!(mem.contains(PhysPageNum(1)));
    assert!(!mem.contains(PhysPageNum(2)));
    mem.write_word(PhysPageNum(1), 3, 0x0807_0605_0403_0201);
    assert_eq!(mem.read_byte(PhysPageNum(1), 24), 0x01);
    assert_eq!(mem.read_byte(PhysPageNum(1), 27), 0x04);
    assert_eq!(mem.read_byte(PhysPageNum(1), 31), 0x08);
    mem.write_byte(PhysPageNum(1), 26, 0xaa);
    assert_eq!(mem.read_word(PhysPageNum(1), 3), 0x0807_0605_04aa_0201);
    mem.copy_frame(PhysPageNum(0), PhysPageNum(1));
    assert_eq!(mem.read_word(PhysPageNum(0), 3), 0x0807_0605_04aa_0201);
    mem.zero_frame(PhysPageNum(1));
    assert_eq!(mem.read_word(PhysPageNum(1), 3), 0);
    assert_eq!(mem.read_word(PhysPageNum(0), 3), 0x0807_0605_04aa_0201);
}

#[test]
fn frame_allocator_test() {
    let mut mem = PhysMemory::new(16).unwrap();
    let mut fa = StackFrameAllocator::new();
    fa.init(PhysPageNum(4), PhysPageNum(16));
    let mut v: Vec<FrameTracker> = Vec::new();
    for _ in 0..5 {
        v.push(frame_alloc(&mut fa, &mut mem).unwrap());
    }
    let first: Vec<u64> = v.iter().map(|f| f.ppn.0).collect();
    assert_eq!(first, vec![4, 5, 6, 7, 8]);
    for f in v.drain(..) {
        frame_dealloc(&mut fa, f);
    }
    for _ in 0..5 {
        v.push(frame_alloc(&mut fa, &mut mem).unwrap());
    }
    // the frames that were given back are handed out again, last first
    let second: Vec<u64> = v.iter().map(|f| f.ppn.0).collect();
    assert_eq!(second, vec![8, 7, 6, 5, 4]);
    for f in v.drain(..) {
        frame_dealloc(&mut fa, f);
    }
    assert_eq!(fa.free_count(), 12);
}
