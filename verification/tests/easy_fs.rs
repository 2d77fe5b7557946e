use os_core::fs::bitmap::{decomposition, Bitmap, BLOCK_BITS};
use os_core::fs::efs::{layout, EasyFileSystem};
use os_core::fs::layout::{
    get_word, init_inode, put_word, DiskInodeType, SuperBlock, EFS_MAGIC,
};
use os_core::fs::{BlockDevice, RamDisk, BLOCK_SZ};

fn block(dev: &RamDisk, id: usize) -> [u8; 512] {
    let mut buf = [0u8; 512];
    dev.read_block(id, &mut buf);
    buf
}

#[test]
fn ram_disk_keeps_its_blocks() {
    let mut dev = RamDisk::new(4);
    assert_eq!(dev.block_count(), 4);
    assert_eq!(BLOCK_SZ, 512);
    for id in 0..4 {
        assert_eq!(block(&dev, id), [0u8; 512]);
    }
    let mut buf = [0u8; 512];
    for (i, b) in buf.iter_mut().enumerate() {
        *b = (i % 251) as u8;
    }
    dev.write_block(2, &buf);
    assert_eq!(block(&dev, 2), buf);
    assert_eq!(block(&dev, 1), [0u8; 512]);
    assert_eq!(block(&dev, 3), [0u8; 512]);
}

#[test]
fn bit_has_its_place() {
    assert_eq!(BLOCK_BITS, 4096);
    assert_eq!(decomposition(0), (0, 0, 0));
    assert_eq!(decomposition(63), (0, 0, 63));
    assert_eq!(decomposition(64), (0, 1, 0));
    assert_eq!(decomposition(4095), (0, 63, 63));
    assert_eq!(decomposition(4096), (1, 0, 0));
    assert_eq!(decomposition(2 * 4096 + 3 * 64 + 5), (2, 3, 5));
}

#[test]
fn bitmap_hands_out_the_lowest_clear_bit() {
    let mut dev = RamDisk::new(4);
    let map = Bitmap::new(1, 2);
    assert_eq!(map.maximum(), 8192);
    for expected in 0..20 {
        assert_eq!(map.alloc_bit(&mut dev), Some(expected));
    }
    // 20 bits are set: two bytes of ones and four bits of the third
    let b = block(&dev, 1);
    assert_eq!(&b[..4], &[0xff, 0xff, 0x0f, 0]);
    assert_eq!(block(&dev, 0), [0u8; 512]);
    assert_eq!(block(&dev, 2), [0u8; 512]);
    assert!(map.is_set(&dev, 3));
    map.dealloc(&mut dev, 3);
    assert!(!map.is_set(&dev, 3));
    assert!(map.is_set(&dev, 17));
    map.dealloc(&mut dev, 17);
    assert!(!map.is_set(&dev, 17));
    assert_eq!(&block(&dev, 1)[..4], &[0xf7, 0xff, 0x0d, 0]);
    // a bit that is clear is not cleared again
    assert!(!map.is_set(&dev, 5000));
    assert_eq!(map.alloc_bit(&mut dev), Some(3));
    assert_eq!(map.alloc_bit(&mut dev), Some(17));
    assert_eq!(map.alloc_bit(&mut dev), Some(20));
}

#[test]
fn bitmap_goes_on_in_the_next_block() {
    let mut dev = RamDisk::new(3);
    dev.write_block(1, &[0xff; 512]);
    let map = Bitmap::new(1, 2);
    assert_eq!(map.alloc_bit(&mut dev), Some(4096));
    assert_eq!(map.alloc_bit(&mut dev), Some(4097));
    assert_eq!(block(&dev, 2)[0], 3);
    assert!(map.is_set(&dev, 4095));
    map.dealloc(&mut dev, 4095);
    assert!(!map.is_set(&dev, 4095));
    assert_eq!(block(&dev, 1)[511], 0x7f);
    assert_eq!(map.alloc_bit(&mut dev), Some(4095));
    assert!(map.is_set(&dev, 4096));
    map.dealloc(&mut dev, 4096);
    assert!(!map.is_set(&dev, 4096));
    assert_eq!(block(&dev, 2)[0], 2);
}

#[test]
fn full_bitmap_hands_out_nothing() {
    let mut dev = RamDisk::new(2);
    let map = Bitmap::new(1, 1);
    for expected in 0..4096 {
        assert_eq!(map.alloc_bit(&mut dev), Some(expected));
    }
    assert_eq!(block(&dev, 1), [0xff; 512]);
    assert_eq!(map.alloc_bit(&mut dev), None);
    assert_eq!(block(&dev, 1), [0xff; 512]);
    assert_eq!(block(&dev, 0), [0u8; 512]);
    assert!(map.is_set(&dev, 4000));
    map.dealloc(&mut dev, 4000);
    assert!(!map.is_set(&dev, 4000));
    assert_eq!(map.alloc_bit(&mut dev), Some(4000));
    let none = Bitmap::new(1, 0);
    assert_eq!(none.maximum(), 0);
    assert_eq!(none.alloc_bit(&mut dev), None);
}

#[test]
fn words_lie_lowest_byte_first() {
    let mut buf = [0xaau8; 512];
    put_word(&mut buf, 8, 0x0102_0304);
    assert_eq!(&buf[7..13], &[0xaa, 4, 3, 2, 1, 0xaa]);
    assert_eq!(get_word(&buf, 8), 0x0102_0304);
    put_word(&mut buf, 508, u32::MAX);
    assert_eq!(get_word(&buf, 508), u32::MAX);
    assert_eq!(get_word(&buf, 0), 0xaaaa_aaaa);
}

#[test]
fn super_block_is_stored_and_read() {
    let sb = SuperBlock::initialize(4096, 1, 1024, 1, 3069);
    assert!(sb.is_valid());
    assert_eq!(sb.magic, EFS_MAGIC);
    let mut buf = [0x55u8; 512];
    sb.encode(&mut buf);
    assert_eq!(
        &buf[..24],
        &[
            0x01, 0x00, 0x80, 0x3b, 0, 0x10, 0, 0, 1, 0, 0, 0, 0, 4, 0, 0, 1, 0, 0, 0, 0xfd, 0x0b,
            0, 0
        ]
    );
    assert_eq!(&buf[24..28], &[0x55; 4]);
    assert_eq!(SuperBlock::decode(&buf), sb);
    assert!(!SuperBlock::decode(&[0u8; 512]).is_valid());
}

#[test]
fn inode_is_made_empty() {
    let mut buf = [0x77u8; 512];
    init_inode(&mut buf, 128, DiskInodeType::Directory);
    assert_eq!(buf[127], 0x77);
    assert_eq!(&buf[128..252], &[0u8; 124][..]);
    assert_eq!(buf[252], 1);
    assert_eq!(&buf[253..256], &[0, 0, 0]);
    assert_eq!(buf[256], 0x77);
    init_inode(&mut buf, 384, DiskInodeType::File);
    assert_eq!(&buf[384..512], &[0u8; 128][..]);
}

#[test]
fn device_is_divided() {
    assert_eq!(layout(4096, 1, 4096), Some((1024, 1, 3069)));
    // nothing is left for data
    assert_eq!(layout(1026, 1, 2000), Some((1024, 0, 0)));
    assert_eq!(layout(1027, 1, 2000), Some((1024, 1, 0)));
    assert_eq!(layout(1028, 1, 2000), Some((1024, 1, 1)));
    // a block of the bitmap for every 4096 blocks of data
    assert_eq!(layout(1026 + 4097, 1, 10000), Some((1024, 1, 4096)));
    assert_eq!(layout(1026 + 4098, 1, 10000), Some((1024, 2, 4096)));
    assert_eq!(layout(1026 + 4099, 1, 10000), Some((1024, 2, 4097)));
    assert_eq!(layout(5000, 2, 5000), Some((2048, 1, 2948)));
    // no inode; the inodes do not fit; the device is too small
    assert_eq!(layout(4096, 0, 4096), None);
    assert_eq!(layout(1025, 1, 4096), None);
    assert_eq!(layout(4096, 4, 4096), None);
    assert_eq!(layout(4096, 1, 4095), None);
    assert_eq!(layout(u32::MAX, 0x10_0000, usize::MAX), None);
}

#[test]
fn new_file_system_has_a_root_directory() {
    let mut dev = RamDisk::new(1100);
    for id in 0..1100 {
        dev.write_block(id, &[0xee; 512]);
    }
    let efs = EasyFileSystem::create(dev, 1040, 1).unwrap();
    assert_eq!(efs.inode_bitmap, Bitmap::new(1, 1));
    assert_eq!(efs.data_bitmap, Bitmap::new(1026, 1));
    assert_eq!(efs.inode_area_start_block, 2);
    assert_eq!(efs.data_area_start_block, 1027);
    assert_eq!(efs.data_area_blocks, 13);
    let dev = &efs.block_device;
    let sb = SuperBlock::decode(&block(dev, 0));
    assert_eq!(sb, SuperBlock::initialize(1040, 1, 1024, 1, 13));
    assert_eq!(&block(dev, 0)[24..], &[0u8; 488][..]);
    // inode 0 is in use, and it is a directory
    let mut first = [0u8; 512];
    first[0] = 1;
    assert_eq!(block(dev, 1), first);
    let mut root = [0u8; 512];
    root[124] = 1;
    assert_eq!(block(dev, 2), root);
    assert_eq!(efs.root_inode(), (2, 0));
    for id in 3..1040 {
        assert_eq!(block(dev, id), [0u8; 512]);
    }
    // the blocks behind the file system stay
    for id in 1040..1100 {
        assert_eq!(block(dev, id), [0xee; 512]);
    }
}

#[test]
fn file_system_is_not_made() {
    assert!(EasyFileSystem::create(RamDisk::new(1100), 1101, 1).is_none());
    assert!(EasyFileSystem::create(RamDisk::new(1100), 1025, 1).is_none());
    assert!(EasyFileSystem::create(RamDisk::new(1100), 1100, 0).is_none());
    assert!(EasyFileSystem::create(RamDisk::new(1100), 1100, 2).is_none());
    assert!(EasyFileSystem::create(RamDisk::new(1100), 1026, 1).is_some());
}

#[test]
fn inodes_are_handed_out_in_order() {
    let mut efs = EasyFileSystem::create(RamDisk::new(1100), 1100, 1).unwrap();
    assert_eq!(efs.alloc_inode(), 1);
    assert_eq!(efs.alloc_inode(), 2);
    assert_eq!(efs.get_disk_inode_pos(0), (2, 0));
    assert_eq!(efs.get_disk_inode_pos(1), (2, 128));
    assert_eq!(efs.get_disk_inode_pos(3), (2, 384));
    assert_eq!(efs.get_disk_inode_pos(4), (3, 0));
    assert_eq!(efs.get_disk_inode_pos(4095), (2 + 1023, 384));
    for expected in 3..4096 {
        assert_eq!(efs.alloc_inode(), expected);
    }
    // every inode is in use: the bitmap is full
    assert_eq!(efs.inode_bitmap.alloc_bit(&mut efs.block_device), None);
}

#[test]
fn data_blocks_are_handed_out_and_given_back() {
    let mut efs = EasyFileSystem::create(RamDisk::new(1100), 1030, 1).unwrap();
    // blocks 1027, 1028 and 1029 hold data
    assert_eq!(efs.data_area_blocks, 3);
    assert_eq!(efs.get_data_block_id(0), 1027);
    assert_eq!(efs.get_data_block_id(2), 1029);
    assert_eq!(efs.alloc_data(), 1027);
    assert_eq!(efs.alloc_data(), 1028);
    efs.block_device.write_block(1027, &[9; 512]);
    assert!(efs.data_in_use(1027));
    efs.dealloc_data(1027);
    assert!(!efs.data_in_use(1027));
    // nothing is left of what the block held
    assert_eq!(block(&efs.block_device, 1027), [0; 512]);
    assert_eq!(block(&efs.block_device, 1026)[0], 2);
    // given back already; no data block
    assert!(!efs.data_in_use(1027));
    efs.block_device.write_block(1029, &[8; 512]);
    assert!(!efs.data_in_use(1029));
    assert_eq!(block(&efs.block_device, 1029), [8; 512]);
    assert!(!efs.data_in_use(1026));
    assert!(!efs.data_in_use(1030));
    assert!(!efs.data_in_use(0));
    assert_eq!(efs.alloc_data(), 1027);
    assert_eq!(efs.alloc_data(), 1029);
    // the bitmap has more bits than there are data blocks
    let before = block(&efs.block_device, 1026);
    assert_eq!(before[0], 7);
    // every data block is in use
    assert!((1027..1030).all(|id| efs.data_in_use(id)));
    assert_eq!(block(&efs.block_device, 1026), before);
    assert!(efs.data_in_use(1028));
    efs.dealloc_data(1028);
    assert!(!efs.data_in_use(1028));
    assert_eq!(efs.alloc_data(), 1028);
}

#[test]
fn file_system_is_found_again() {
    let mut efs = EasyFileSystem::create(RamDisk::new(1100), 1040, 1).unwrap();
    assert_eq!(efs.alloc_data(), 1027);
    assert_eq!(efs.alloc_inode(), 1);
    let mut again = EasyFileSystem::open(efs.block_device).unwrap();
    assert_eq!(again.inode_bitmap, Bitmap::new(1, 1));
    assert_eq!(again.data_bitmap, Bitmap::new(1026, 1));
    assert_eq!(again.inode_area_start_block, 2);
    assert_eq!(again.data_area_start_block, 1027);
    assert_eq!(again.data_area_blocks, 13);
    assert_eq!(again.alloc_data(), 1028);
    assert_eq!(again.alloc_inode(), 2);
}

#[test]
fn device_without_a_file_system_is_refused() {
    assert!(EasyFileSystem::open(RamDisk::new(0)).is_none());
    assert!(EasyFileSystem::open(RamDisk::new(2000)).is_none());
    let efs = EasyFileSystem::create(RamDisk::new(1100), 1040, 1).unwrap();
    let good = block(&efs.block_device, 0);
    let open_with = |change: &dyn Fn(&mut [u8; 512]), blocks: usize| {
        let mut dev = RamDisk::new(blocks);
        let mut b = good;
        change(&mut b);
        dev.write_block(0, &b);
        EasyFileSystem::open(dev).is_some()
    };
    assert!(open_with(&|_| {}, 1040));
    // the mark is wrong
    assert!(!open_with(&|b| b[0] = 2, 1040));
    // the device is smaller than the file system
    assert!(!open_with(&|_| {}, 1039));
    // the sizes of the parts do not follow from the number of blocks
    assert!(!open_with(&|b| put_word(b, 20, 12), 1040));
    assert!(!open_with(&|b| put_word(b, 16, 2), 1040));
    assert!(!open_with(&|b| put_word(b, 12, 1023), 1040));
    assert!(!open_with(&|b| put_word(b, 8, 0), 1040));
}
