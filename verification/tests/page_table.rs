use os_core::mm::page_table::{PTE_R, PTE_U, PTE_V, PTE_W, PTE_X};
use os_core::mm::{
    PTEFlags, PageTable, PageTableEntry, PageTableError, PhysAddr, PhysMemory, PhysPageNum,
    StackFrameAllocator, VirtAddr, VirtPageNum,
};

fn machine(frames: usize) -> (StackFrameAllocator, PhysMemory) {
    let mem = PhysMemory::new(frames).unwrap();
    let mut fa = StackFrameAllocator::new();
    fa.init(PhysPageNum(1), PhysPageNum(frames as u64));
    (fa, mem)
}

#[test]
fn entry_packs_frame_and_flags() {
    let e = PageTableEntry::new(PhysPageNum(0x12345), PTEFlags { bits: PTE_V | PTE_R | PTE_U });
    assert_eq!(e.bits, (0x12345 << 10) | 0x13);
    assert_eq!(e.ppn(), PhysPageNum(0x12345));
    assert_eq!(e.flags(), PTEFlags { bits: 0x13 });
    assert!(e.is_valid());
    assert!(!PageTableEntry::empty().is_valid());
    assert_eq!(PageTableEntry::empty().bits, 0);
    // only the low 44 bits of a frame number fit
    let wide = PageTableEntry::new(PhysPageNum((1 << 44) | 7), PTEFlags { bits: PTE_V });
    assert_eq!(wide.ppn(), PhysPageNum(7));
}

#[test]
fn flags_union_and_contains() {
    let rw = PTEFlags { bits: PTE_R }.union(PTEFlags { bits: PTE_W });
    assert_eq!(rw.bits(), 6);
    assert!(rw.contains(PTEFlags { bits: PTE_R }));
    assert!(!rw.contains(PTEFlags { bits: PTE_X }));
    assert_eq!(PTEFlags::from_bits(0xff), Some(PTEFlags { bits: 0xff }));
    assert_eq!(PTEFlags::empty().bits(), 0);
}

#[test]
fn addresses_and_page_numbers() {
    assert_eq!(VirtAddr::new(0x1234).floor(), VirtPageNum(1));
    assert_eq!(VirtAddr::new(0x1234).ceil(), VirtPageNum(2));
    assert_eq!(VirtAddr::new(0x2000).ceil(), VirtPageNum(2));
    assert_eq!(VirtAddr::new(0x1234).page_offset(), 0x234);
    assert!(VirtAddr::new(0x3000).aligned());
    assert!(!VirtAddr::new(0x3001).aligned());
    // an Sv39 address keeps 39 bits
    assert_eq!(VirtAddr::new(0xffff_ffff_ffff_f000), VirtAddr(0x7f_ffff_f000));
    assert_eq!(VirtAddr::new(0xffff_ffff_ffff_f000).floor(), VirtPageNum(0x7ff_ffff));
    assert_eq!(PhysAddr::new(0x8020_0fff).floor(), PhysPageNum(0x80200));
    assert_eq!(PhysAddr::new(0x8020_0001).ceil(), PhysPageNum(0x80201));
    assert_eq!(PhysPageNum::new(5).addr(), Some(PhysAddr(0x5000)));
    assert_eq!(VirtPageNum::new(3).addr(), Some(VirtAddr(0x3000)));
    assert_eq!(VirtPageNum(0x7ff_ffff).indexes(), [511, 511, 511]);
    assert_eq!(VirtPageNum((5 << 18) | (6 << 9) | 7).indexes(), [5, 6, 7]);
}

#[test]
fn mapped_page_translates_to_its_frame() {
    let (mut fa, mut mem) = machine(64);
    let mut pt = PageTable::new(&mut fa, &mut mem).unwrap();
    let vpn = VirtPageNum(0x12345);
    assert_eq!(pt.translate(vpn, &mem), None);
    let flags = PTEFlags { bits: PTE_R | PTE_W | PTE_U };
    assert_eq!(pt.map(vpn, PhysPageNum(40), flags, &mut fa, &mut mem), Ok(()));
    let e = pt.translate(vpn, &mem).unwrap();
    assert_eq!(e.ppn(), PhysPageNum(40));
    assert_eq!(e.flags(), PTEFlags { bits: PTE_R | PTE_W | PTE_U | PTE_V });
    // root and two new nodes
    assert_eq!(pt.frames.len(), 3);
    // a neighbour in the same leaf node takes no new node
    assert_eq!(pt.map(VirtPageNum(0x12346), PhysPageNum(41), flags, &mut fa, &mut mem), Ok(()));
    assert_eq!(pt.frames.len(), 3);
    assert_eq!(pt.translate(VirtPageNum(0x12346), &mem).unwrap().ppn(), PhysPageNum(41));
    assert_eq!(pt.translate(vpn, &mem).unwrap().ppn(), PhysPageNum(40));
    assert_eq!(pt.translate(VirtPageNum(0x12347), &mem), None);
}

#[test]
fn map_twice_is_refused() {
    let (mut fa, mut mem) = machine(64);
    let mut pt = PageTable::new(&mut fa, &mut mem).unwrap();
    let f = PTEFlags { bits: PTE_R };
    assert_eq!(pt.map(VirtPageNum(9), PhysPageNum(30), f, &mut fa, &mut mem), Ok(()));
    // a caller sees that the page is mapped, and does not map it again
    assert!(pt.translate(VirtPageNum(9), &mem).is_some());
    assert!(pt.translate(VirtPageNum(8), &mem).is_none());
    assert_eq!(pt.map(VirtPageNum(8), PhysPageNum(31), f, &mut fa, &mut mem), Ok(()));
    assert_eq!(pt.translate(VirtPageNum(9), &mem).unwrap().ppn(), PhysPageNum(30));
}

#[test]
fn unmap_removes_the_mapping() {
    let (mut fa, mut mem) = machine(64);
    let mut pt = PageTable::new(&mut fa, &mut mem).unwrap();
    let f = PTEFlags { bits: PTE_R | PTE_X };
    assert!(pt.translate(VirtPageNum(9), &mem).is_none());
    assert_eq!(pt.map(VirtPageNum(9), PhysPageNum(30), f, &mut fa, &mut mem), Ok(()));
    assert_eq!(pt.map(VirtPageNum(10), PhysPageNum(31), f, &mut fa, &mut mem), Ok(()));
    pt.unmap(VirtPageNum(9), &mut mem);
    assert_eq!(pt.translate(VirtPageNum(9), &mem), None);
    assert_eq!(pt.translate(VirtPageNum(10), &mem).unwrap().ppn(), PhysPageNum(31));
    // the page can be mapped anew
    assert_eq!(pt.map(VirtPageNum(9), PhysPageNum(32), f, &mut fa, &mut mem), Ok(()));
    assert_eq!(pt.translate(VirtPageNum(9), &mem).unwrap().ppn(), PhysPageNum(32));
}

#[test]
fn map_without_frames_is_refused() {
    let (mut fa, mut mem) = machine(3);
    // frames 1 and 2 are free: the root takes one, one is left, two are needed
    let mut pt = PageTable::new(&mut fa, &mut mem).unwrap();
    assert_eq!(
        pt.map(VirtPageNum(5), PhysPageNum(1), PTEFlags { bits: PTE_R }, &mut fa, &mut mem),
        Err(PageTableError::OutOfFrames)
    );
    assert_eq!(pt.translate(VirtPageNum(5), &mem), None);
}

#[test]
fn table_without_frames_is_refused() {
    let mut mem = PhysMemory::new(4).unwrap();
    let mut fa = StackFrameAllocator::new();
    fa.init(PhysPageNum(2), PhysPageNum(2));
    assert!(PageTable::new(&mut fa, &mut mem).is_none());
}

#[test]
fn token_names_the_root() {
    let (mut fa, mut mem) = machine(64);
    let mut pt = PageTable::new(&mut fa, &mut mem).unwrap();
    let f = PTEFlags { bits: PTE_R | PTE_U };
    assert_eq!(pt.map(VirtPageNum(77), PhysPageNum(50), f, &mut fa, &mut mem), Ok(()));
    let token = pt.token();
    assert_eq!(token, (8u64 << 60) | pt.root_ppn.0);
    let view = PageTable::from_token(token);
    assert_eq!(view.root_ppn, pt.root_ppn);
    assert!(view.frames.is_empty());
    assert_eq!(view.translate(VirtPageNum(77), &mem).unwrap().ppn(), PhysPageNum(50));
    assert_eq!(view.translate(VirtPageNum(78), &mem), None);
}

#[test]
fn release_gives_all_nodes_back() {
    let (mut fa, mut mem) = machine(64);
    let before = fa.free_count();
    let mut pt = PageTable::new(&mut fa, &mut mem).unwrap();
    let f = PTEFlags { bits: PTE_R };
    assert_eq!(pt.map(VirtPageNum(1), PhysPageNum(60), f, &mut fa, &mut mem), Ok(()));
    assert_eq!(pt.map(VirtPageNum(1 << 20), PhysPageNum(61), f, &mut fa, &mut mem), Ok(()));
    assert_eq!(fa.free_count(), before - 5);
    pt.release(&mut fa, &mem);
    assert_eq!(fa.free_count(), before);
}
