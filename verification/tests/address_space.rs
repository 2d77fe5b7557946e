use os_core::mm::elf::ElfError;
use os_core::mm::loader::LoadError;
use os_core::mm::memory_set::{PERM_R, PERM_U, PERM_W, PERM_X};
use os_core::mm::page_table::{PTE_R, PTE_U, PTE_V, PTE_W, PTE_X};
use os_core::mm::{
    AreaError, MapArea, MapPermission, MapType, MemorySet, PageTableError, PhysMemory,
    PhysPageNum, StackFrameAllocator, VirtAddr, VirtPageNum,
};

fn machine(frames: usize) -> (StackFrameAllocator, PhysMemory) {
    let mem = PhysMemory::new(frames).unwrap();
    let mut fa = StackFrameAllocator::new();
    fa.init(PhysPageNum(2), PhysPageNum(frames as u64));
    (fa, mem)
}

fn put(v: &mut Vec<u8>, off: usize, bytes: &[u8]) {
    v[off..off + bytes.len()].copy_from_slice(bytes);
}

/// An ELF image with the given loadable segments: (vaddr, flags, bytes, memsz).
fn elf(entry: u64, segments: &[(u64, u32, Vec<u8>, u64)]) -> Vec<u8> {
    let phoff = 64usize;
    let mut data_off = phoff + 56 * segments.len();
    let mut image = vec![0u8; data_off];
    put(&mut image, 0, &[0x7f, b'E', b'L', b'F', 2, 1, 1, 0]);
    put(&mut image, 16, &2u16.to_le_bytes());
    put(&mut image, 18, &243u16.to_le_bytes());
    put(&mut image, 24, &entry.to_le_bytes());
    put(&mut image, 32, &(phoff as u64).to_le_bytes());
    put(&mut image, 52, &64u16.to_le_bytes());
    put(&mut image, 54, &56u16.to_le_bytes());
    put(&mut image, 56, &(segments.len() as u16).to_le_bytes());
    for (i, (vaddr, flags, bytes, memsz)) in segments.iter().enumerate() {
        let ph = phoff + 56 * i;
        put(&mut image, ph, &1u32.to_le_bytes());
        put(&mut image, ph + 4, &flags.to_le_bytes());
        put(&mut image, ph + 8, &(data_off as u64).to_le_bytes());
        put(&mut image, ph + 16, &vaddr.to_le_bytes());
        put(&mut image, ph + 24, &vaddr.to_le_bytes());
        put(&mut image, ph + 32, &(bytes.len() as u64).to_le_bytes());
        put(&mut image, ph + 40, &memsz.to_le_bytes());
        put(&mut image, ph + 48, &4096u64.to_le_bytes());
        image.extend_from_slice(bytes);
        data_off += bytes.len();
    }
    image
}

fn byte_at(ms: &MemorySet, mem: &PhysMemory, va: u64) -> u8 {
    let e = ms.translate(VirtPageNum(va / 4096), mem).unwrap();
    mem.read_byte(e.ppn(), (va % 4096) as usize)
}

#[test]
fn permission_bits() {
    assert_eq!(MapPermission::from_bits(PERM_R | PERM_W), Some(MapPermission { bits: 6 }));
    assert_eq!(MapPermission::from_bits(1), None);
    assert_eq!(MapPermission::from_bits(0x20), None);
    let p = MapPermission { bits: PERM_R }.union(MapPermission { bits: PERM_U });
    assert_eq!(p.bits(), 18);
    assert!(p.contains(MapPermission { bits: PERM_U }));
    assert!(!p.contains(MapPermission { bits: PERM_X }));
    assert_eq!(MapPermission::empty().bits(), 0);
}

#[test]
fn framed_area_maps_zeroed_pages() {
    let (mut fa, mut mem) = machine(64);
    let mut ms = MemorySet::new_bare(&mut fa, &mut mem).unwrap();
    let perm = MapPermission { bits: PERM_R | PERM_W | PERM_U };
    let r = ms.insert_framed_area(VirtAddr(0x1_0800), VirtAddr(0x1_2001), perm, &mut fa, &mut mem);
    assert_eq!(r, Ok(()));
    assert_eq!(ms.areas.len(), 1);
    assert_eq!(ms.areas[0].start, VirtPageNum(0x10));
    assert_eq!(ms.areas[0].end, VirtPageNum(0x13));
    assert_eq!(ms.areas[0].data_frames.len(), 3);
    for vpn in 0x10..0x13u64 {
        let e = ms.translate(VirtPageNum(vpn), &mem).unwrap();
        assert_eq!(e.flags().bits(), PTE_R | PTE_W | PTE_U | PTE_V);
        assert_eq!(e.ppn(), ms.areas[0].data_frames[(vpn - 0x10) as usize].ppn);
        for i in 0..512 {
            assert_eq!(mem.read_word(e.ppn(), i), 0);
        }
    }
    assert_eq!(ms.translate(VirtPageNum(0xf), &mem), None);
    assert_eq!(ms.translate(VirtPageNum(0x13), &mem), None);
}

#[test]
fn overlapping_area_is_refused() {
    let (mut fa, mut mem) = machine(64);
    let mut ms = MemorySet::new_bare(&mut fa, &mut mem).unwrap();
    let perm = MapPermission { bits: PERM_R };
    assert_eq!(
        ms.insert_framed_area(VirtAddr(0x4000), VirtAddr(0x6000), perm, &mut fa, &mut mem),
        Ok(())
    );
    let free = fa.free_count();
    assert_eq!(
        ms.insert_framed_area(VirtAddr(0x5000), VirtAddr(0x7000), perm, &mut fa, &mut mem),
        Err(AreaError::Overlap)
    );
    assert_eq!(
        ms.insert_framed_area(VirtAddr(0x3000), VirtAddr(0x4001), perm, &mut fa, &mut mem),
        Err(AreaError::Overlap)
    );
    assert_eq!(fa.free_count(), free);
    assert_eq!(ms.areas.len(), 1);
    // the neighbours are free
    assert_eq!(
        ms.insert_framed_area(VirtAddr(0x6000), VirtAddr(0x7000), perm, &mut fa, &mut mem),
        Ok(())
    );
    assert_eq!(
        ms.insert_framed_area(VirtAddr(0x3000), VirtAddr(0x4000), perm, &mut fa, &mut mem),
        Ok(())
    );
}

#[test]
fn invalid_range_is_refused() {
    let (mut fa, mut mem) = machine(64);
    let mut ms = MemorySet::new_bare(&mut fa, &mut mem).unwrap();
    let perm = MapPermission { bits: PERM_R };
    assert_eq!(
        ms.insert_framed_area(VirtAddr(0x9000), VirtAddr(0x4000), perm, &mut fa, &mut mem),
        Err(AreaError::InvalidRange)
    );
    // the trampoline page is not for areas
    assert_eq!(
        ms.insert_framed_area(
            VirtAddr(0x7f_ffff_f000),
            VirtAddr(0x7f_ffff_f001),
            perm,
            &mut fa,
            &mut mem
        ),
        Err(AreaError::InvalidRange)
    );
}

#[test]
fn area_without_frames_is_refused() {
    let (mut fa, mut mem) = machine(8);
    let mut ms = MemorySet::new_bare(&mut fa, &mut mem).unwrap();
    let perm = MapPermission { bits: PERM_R };
    // 5 frames are free; 4 pages may need 4 frames and 2 nodes
    assert_eq!(fa.free_count(), 5);
    assert_eq!(MemorySet::frames_needed_of(VirtPageNum(4), VirtPageNum(8), MapType::Framed), 6);
    assert_eq!(
        ms.insert_framed_area(VirtAddr(0x4000), VirtAddr(0x8000), perm, &mut fa, &mut mem),
        Err(AreaError::OutOfFrames)
    );
    assert_eq!(fa.free_count(), 5);
    assert!(ms.areas.is_empty());
    // 3 pages may need 3 frames and 2 nodes
    assert_eq!(MemorySet::frames_needed_of(VirtPageNum(4), VirtPageNum(7), MapType::Framed), 5);
    assert_eq!(
        ms.insert_framed_area(VirtAddr(0x4000), VirtAddr(0x7000), perm, &mut fa, &mut mem),
        Ok(())
    );
    assert_eq!(fa.free_count(), 0);
}

#[test]
fn frames_needed_counts_pages_and_nodes() {
    assert_eq!(MemorySet::frames_needed_of(VirtPageNum(4), VirtPageNum(4), MapType::Framed), 0);
    assert_eq!(MemorySet::frames_needed_of(VirtPageNum(4), VirtPageNum(6), MapType::Identical), 2);
    // pages 510..514 lie under two nodes of the last level
    assert_eq!(MemorySet::frames_needed_of(VirtPageNum(510), VirtPageNum(514), MapType::Framed), 7);
    // pages 262143..262145 lie under two nodes of the middle level
    assert_eq!(
        MemorySet::frames_needed_of(VirtPageNum(262143), VirtPageNum(262145), MapType::Framed),
        6
    );
}

#[test]
fn removed_area_gives_its_frames_back() {
    let (mut fa, mut mem) = machine(64);
    let mut ms = MemorySet::new_bare(&mut fa, &mut mem).unwrap();
    let perm = MapPermission { bits: PERM_R | PERM_W };
    ms.insert_framed_area(VirtAddr(0x4000), VirtAddr(0x6000), perm, &mut fa, &mut mem).unwrap();
    ms.insert_framed_area(VirtAddr(0x8000), VirtAddr(0x9000), perm, &mut fa, &mut mem).unwrap();
    let free = fa.free_count();
    assert_eq!(ms.remove_area_with_start_vpn(VirtPageNum(5), &mut fa, &mut mem), None);
    assert_eq!(ms.remove_area_with_start_vpn(VirtPageNum(4), &mut fa, &mut mem), Some(0));
    assert_eq!(fa.free_count(), free + 2);
    assert_eq!(ms.areas.len(), 1);
    assert_eq!(ms.translate(VirtPageNum(4), &mem), None);
    assert_eq!(ms.translate(VirtPageNum(5), &mem), None);
    assert!(ms.translate(VirtPageNum(8), &mem).is_some());
    assert_eq!(ms.remove_area_with_start_vpn(VirtPageNum(4), &mut fa, &mut mem), None);
}

#[test]
fn identical_area_maps_pages_to_themselves() {
    let (mut fa, mut mem) = machine(64);
    let mut ms = MemorySet::new_bare(&mut fa, &mut mem).unwrap();
    let area = MapArea::new(
        VirtAddr(0x10_0000),
        VirtAddr(0x10_3000),
        MapType::Identical,
        MapPermission { bits: PERM_R | PERM_X },
    );
    let free = fa.free_count();
    assert_eq!(ms.push(area, None, &mut fa, &mut mem), Ok(()));
    // only nodes of the page table were taken
    assert_eq!(fa.free_count(), free - 2);
    for vpn in 0x100..0x103u64 {
        let e = ms.translate(VirtPageNum(vpn), &mem).unwrap();
        assert_eq!(e.ppn(), PhysPageNum(vpn));
        assert_eq!(e.flags().bits(), PTE_R | PTE_X | PTE_V);
    }
}

#[test]
fn pushed_data_lies_at_the_start_of_the_area() {
    let (mut fa, mut mem) = machine(64);
    let mut ms = MemorySet::new_bare(&mut fa, &mut mem).unwrap();
    let area = MapArea::new(
        VirtAddr(0x2000),
        VirtAddr(0x4000),
        MapType::Framed,
        MapPermission { bits: PERM_R | PERM_U },
    );
    let data: Vec<u8> = (0..5000u32).map(|i| (i % 251) as u8 + 1).collect();
    assert_eq!(ms.push(area, Some(&data), &mut fa, &mut mem), Ok(()));
    for (i, b) in data.iter().enumerate() {
        assert_eq!(byte_at(&ms, &mem, 0x2000 + i as u64), *b);
    }
    for i in 5000..8192u64 {
        assert_eq!(byte_at(&ms, &mem, 0x2000 + i), 0);
    }
}

#[test]
fn trampoline_is_mapped_once() {
    let (mut fa, mut mem) = machine(64);
    let mut ms = MemorySet::new_bare(&mut fa, &mut mem).unwrap();
    assert_eq!(ms.map_trampoline(PhysPageNum(1), &mut fa, &mut mem), Ok(()));
    let e = ms.translate(VirtPageNum(0x7ff_ffff), &mem).unwrap();
    assert_eq!(e.ppn(), PhysPageNum(1));
    assert_eq!(e.flags().bits(), PTE_R | PTE_X | PTE_V);
    assert_eq!(
        ms.map_trampoline(PhysPageNum(1), &mut fa, &mut mem),
        Err(PageTableError::AlreadyMapped)
    );
}

#[test]
fn copy_has_the_content_and_frames_of_its_own() {
    let (mut fa, mut mem) = machine(128);
    let mut parent = MemorySet::new_bare(&mut fa, &mut mem).unwrap();
    parent.map_trampoline(PhysPageNum(1), &mut fa, &mut mem).unwrap();
    let data: Vec<u8> = (0..6000u32).map(|i| (i * 7 % 256) as u8).collect();
    let area = MapArea::new(
        VirtAddr(0x1_0000),
        VirtAddr(0x1_2000),
        MapType::Framed,
        MapPermission { bits: PERM_R | PERM_W | PERM_U },
    );
    parent.push(area, Some(&data), &mut fa, &mut mem).unwrap();
    parent
        .insert_framed_area(
            VirtAddr(0x5_0000),
            VirtAddr(0x5_1000),
            MapPermission { bits: PERM_R },
            &mut fa,
            &mut mem,
        )
        .unwrap();
    let child = MemorySet::from_existed_user(&parent, &mut fa, &mut mem).unwrap();
    assert_eq!(child.areas.len(), 2);
    assert_eq!(child.trampoline, Some(PhysPageNum(1)));
    for a in 0..2 {
        assert_eq!(child.areas[a].start, parent.areas[a].start);
        assert_eq!(child.areas[a].end, parent.areas[a].end);
        assert_eq!(child.areas[a].map_perm, parent.areas[a].map_perm);
        for k in 0..parent.areas[a].data_frames.len() {
            let pf = parent.areas[a].data_frames[k].ppn;
            let cf = child.areas[a].data_frames[k].ppn;
            assert_ne!(pf, cf);
            for i in 0..512 {
                assert_eq!(mem.read_word(cf, i), mem.read_word(pf, i));
            }
        }
    }
    for (i, b) in data.iter().enumerate() {
        assert_eq!(byte_at(&child, &mem, 0x1_0000 + i as u64), *b);
    }
    // no frame is shared, nodes of the page tables included
    let mut parent_frames: Vec<u64> = parent.page_table.frames.iter().map(|f| f.ppn.0).collect();
    for a in &parent.areas {
        parent_frames.extend(a.data_frames.iter().map(|f| f.ppn.0));
    }
    for f in &child.page_table.frames {
        assert!(!parent_frames.contains(&f.ppn.0));
    }
    // a change in the copy does not reach the source
    let cf = child.areas[0].data_frames[0].ppn;
    mem.write_byte(cf, 10, 0xee);
    assert_eq!(byte_at(&child, &mem, 0x1_000a), 0xee);
    assert_eq!(byte_at(&parent, &mem, 0x1_000a), data[10]);
    // flags are those of the source
    let e = child.translate(VirtPageNum(0x10), &mem).unwrap();
    assert_eq!(e.flags().bits(), PTE_R | PTE_W | PTE_U | PTE_V);
}

#[test]
fn copy_without_frames_is_refused() {
    let (mut fa, mut mem) = machine(16);
    let mut parent = MemorySet::new_bare(&mut fa, &mut mem).unwrap();
    parent
        .insert_framed_area(
            VirtAddr(0x1000),
            VirtAddr(0x3000),
            MapPermission { bits: PERM_R },
            &mut fa,
            &mut mem,
        )
        .unwrap();
    // a root, 2 pages and 2 nodes
    assert_eq!(parent.clone_need_of(&mem), Some(5));
    while fa.free_count() > 4 {
        fa.alloc_frame().unwrap();
    }
    assert!(matches!(
        MemorySet::from_existed_user(&parent, &mut fa, &mut mem),
        Err(AreaError::OutOfFrames)
    ));
    assert_eq!(fa.free_count(), 4);
}

#[test]
fn recycle_releases_every_data_frame() {
    let (mut fa, mut mem) = machine(64);
    let start = fa.free_count();
    let mut ms = MemorySet::new_bare(&mut fa, &mut mem).unwrap();
    ms.map_trampoline(PhysPageNum(1), &mut fa, &mut mem).unwrap();
    let perm = MapPermission { bits: PERM_R | PERM_W };
    ms.insert_framed_area(VirtAddr(0x4000), VirtAddr(0x7000), perm, &mut fa, &mut mem).unwrap();
    ms.insert_framed_area(VirtAddr(0x9000), VirtAddr(0xa000), perm, &mut fa, &mut mem).unwrap();
    let nodes = ms.page_table.frames.len() as u64;
    let token = ms.token();
    ms.recycle_data_pages(&mut fa, &mut mem);
    assert!(ms.areas.is_empty());
    assert_eq!(fa.free_count(), start - nodes);
    assert_eq!(ms.translate(VirtPageNum(4), &mem), None);
    assert_eq!(ms.translate(VirtPageNum(9), &mem), None);
    // the token and the trampoline stay good
    assert_eq!(ms.token(), token);
    assert!(ms.translate(VirtPageNum(0x7ff_ffff), &mem).is_some());
    ms.release(&mut fa, &mut mem);
    assert_eq!(fa.free_count(), start);
}

#[test]
fn program_is_loaded_from_its_image() {
    let (mut fa, mut mem) = machine(128);
    let text: Vec<u8> = (0..5000u32).map(|i| (i % 200) as u8 + 1).collect();
    let data: Vec<u8> = vec![0xab; 100];
    let image = elf(
        0x1_0040,
        &[(0x1_0000, 5, text.clone(), 5000), (0x1_2000, 6, data.clone(), 9000)],
    );
    let (ms, sp, entry) = MemorySet::from_elf(&image, PhysPageNum(1), &mut fa, &mut mem).unwrap();
    assert_eq!(entry, 0x1_0040);
    // text: 2 pages from 0x10; data and bss: 3 pages from 0x12; guard: 0x15; stack: 0x16, 0x17
    assert_eq!(sp, 0x1_8000);
    assert_eq!(ms.areas.len(), 4);
    assert_eq!((ms.areas[0].start, ms.areas[0].end), (VirtPageNum(0x10), VirtPageNum(0x12)));
    assert_eq!((ms.areas[1].start, ms.areas[1].end), (VirtPageNum(0x12), VirtPageNum(0x15)));
    assert_eq!((ms.areas[2].start, ms.areas[2].end), (VirtPageNum(0x16), VirtPageNum(0x18)));
    assert_eq!(
        (ms.areas[3].start, ms.areas[3].end),
        (VirtPageNum(0x7ff_fffe), VirtPageNum(0x7ff_ffff))
    );
    assert_eq!(ms.areas[0].map_perm.bits, PERM_U | PERM_R | PERM_X);
    assert_eq!(ms.areas[1].map_perm.bits, PERM_U | PERM_R | PERM_W);
    assert_eq!(ms.areas[2].map_perm.bits, PERM_U | PERM_R | PERM_W);
    assert_eq!(ms.areas[3].map_perm.bits, PERM_R | PERM_W);
    for (i, b) in text.iter().enumerate() {
        assert_eq!(byte_at(&ms, &mem, 0x1_0000 + i as u64), *b);
    }
    for i in 5000..8192u64 {
        assert_eq!(byte_at(&ms, &mem, 0x1_0000 + i), 0);
    }
    for i in 0..100u64 {
        assert_eq!(byte_at(&ms, &mem, 0x1_2000 + i), 0xab);
    }
    for i in 100..9000u64 {
        assert_eq!(byte_at(&ms, &mem, 0x1_2000 + i), 0);
    }
    // the guard page is not mapped
    assert_eq!(ms.translate(VirtPageNum(0x15), &mem), None);
    assert_eq!(
        ms.translate(VirtPageNum(0x16), &mem).unwrap().flags().bits(),
        PTE_U | PTE_R | PTE_W | PTE_V
    );
    assert_eq!(
        ms.translate(VirtPageNum(0x7ff_fffe), &mem).unwrap().flags().bits(),
        PTE_R | PTE_W | PTE_V
    );
    assert_eq!(ms.translate(VirtPageNum(0x7ff_ffff), &mem).unwrap().ppn(), PhysPageNum(1));
}

#[test]
fn bad_images_are_refused() {
    let (mut fa, mut mem) = machine(128);
    let good = elf(0x1000, &[(0x1000, 5, vec![1, 2, 3], 3)]);
    let free = fa.free_count();
    let load = |image: &[u8], fa: &mut StackFrameAllocator, mem: &mut PhysMemory| {
        MemorySet::from_elf(image, PhysPageNum(1), fa, mem).err()
    };
    assert_eq!(load(&good[..40], &mut fa, &mut mem), Some(LoadError::Elf(ElfError::TooShort)));
    let mut bad_magic = good.clone();
    bad_magic[1] = b'X';
    assert_eq!(load(&bad_magic, &mut fa, &mut mem), Some(LoadError::Elf(ElfError::BadMagic)));
    let mut not_64 = good.clone();
    not_64[4] = 1;
    assert_eq!(load(&not_64, &mut fa, &mut mem), Some(LoadError::Elf(ElfError::Unsupported)));
    let mut truncated = good.clone();
    truncated[56] = 200;
    assert_eq!(load(&truncated, &mut fa, &mut mem), Some(LoadError::Elf(ElfError::Truncated)));
    // a segment that reaches beyond the image
    let mut beyond = good.clone();
    beyond[64 + 32] = 200;
    beyond[64 + 40] = 200;
    assert_eq!(load(&beyond, &mut fa, &mut mem), Some(LoadError::BadSegment));
    // a segment that does not start at a page boundary
    let unaligned = elf(0x1000, &[(0x1001, 5, vec![1], 1)]);
    assert_eq!(load(&unaligned, &mut fa, &mut mem), Some(LoadError::BadSegment));
    // a segment that starts in a page of the one before
    let overlap = elf(0x1000, &[(0x2000, 5, vec![1; 5000], 5000), (0x3000, 6, vec![1], 1)]);
    assert_eq!(load(&overlap, &mut fa, &mut mem), Some(LoadError::BadSegment));
    assert_eq!(fa.free_count(), free);
    assert!(load(&good, &mut fa, &mut mem).is_none());
}

#[test]
fn program_without_frames_is_refused() {
    let image = elf(0x1000, &[(0x1000, 5, vec![1, 2, 3], 3)]);
    // a root and the trampoline's 2 nodes; 1 page, 2 pages and 1 page, each with 2 nodes
    assert_eq!(os_core::mm::loader::elf_frames_needed(&image), Ok(Some(13)));
    let (mut fa, mut mem) = machine(14);
    assert_eq!(fa.free_count(), 12);
    assert_eq!(
        MemorySet::from_elf(&image, PhysPageNum(1), &mut fa, &mut mem).err(),
        Some(LoadError::OutOfFrames)
    );
    assert_eq!(fa.free_count(), 12);
    let (mut fa, mut mem) = machine(15);
    assert!(MemorySet::from_elf(&image, PhysPageNum(1), &mut fa, &mut mem).is_ok());
}
