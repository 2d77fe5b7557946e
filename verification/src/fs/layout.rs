//! What lies where on the device: the super block and the inodes.

use vstd::prelude::*;

verus! {

/// Marks a device that holds a file system.
pub const EFS_MAGIC: u32 = 0x3b80_0001;

/// Bytes of an inode on the device.
pub const INODE_SIZE: usize = 128;

/// Inodes of a block.
pub const INODES_PER_BLOCK: u32 = 4;

/// Place of the type of an inode among its bytes.
pub const INODE_TYPE_OFFSET: usize = 124;

/// What an inode stands for.
#[derive(Copy, Clone, Debug, PartialEq, Eq, Structural)]
pub enum DiskInodeType {
    File,
    Directory,
}

/// The 32-bit number whose four bytes lie at `off` in `b`, lowest first.
pub open spec fn word_at(b: Seq<u8>, off: int) -> int {
    b[off] + b[off + 1] * 0x100 + b[off + 2] * 0x1_0000 + b[off + 3] * 0x100_0000
}

/// Reads the 32-bit number at `off` of the block `buf`.
pub fn get_word(buf: &[u8; 512], off: usize) -> (r: u32)
    requires
        off + 4 <= 512,
    ensures
        r == word_at(buf@, off as int),
{
    buf[off] as u32 + buf[off + 1] as u32 * 0x100 + buf[off + 2] as u32 * 0x1_0000 + buf[off
        + 3] as u32 * 0x100_0000
}

/// Stores the 32-bit number `w` at `off` of the block `buf`; the other
/// bytes stay.
pub fn put_word(buf: &mut [u8; 512], off: usize, w: u32)
    requires
        off + 4 <= 512,
    ensures
        word_at(final(buf)@, off as int) == w,
        forall|i: int|
            0 <= i < 512 && !(off <= i < off + 4) ==> (#[trigger] final(buf)@[i]) == old(buf)@[i],
{
    buf[off] = (w % 0x100) as u8;
    buf[off + 1] = ((w / 0x100) % 0x100) as u8;
    buf[off + 2] = ((w / 0x1_0000) % 0x100) as u8;
    buf[off + 3] = (w / 0x100_0000) as u8;
}

/// The first block of the device: it says how the device is divided.
#[derive(Copy, Clone, Debug, PartialEq, Eq, Structural)]
pub struct SuperBlock {
    pub magic: u32,
    /// Blocks of the file system.
    pub total_blocks: u32,
    /// Blocks of the bitmap of the inodes.
    pub inode_bitmap_blocks: u32,
    /// Blocks that hold the inodes.
    pub inode_area_blocks: u32,
    /// Blocks of the bitmap of the data blocks.
    pub data_bitmap_blocks: u32,
    /// Blocks that hold data.
    pub data_area_blocks: u32,
}

impl SuperBlock {
    /// The super block that the first bytes of the block `b` stand for.
    pub open spec fn of(b: Seq<u8>) -> SuperBlock {
        SuperBlock {
            magic: word_at(b, 0) as u32,
            total_blocks: word_at(b, 4) as u32,
            inode_bitmap_blocks: word_at(b, 8) as u32,
            inode_area_blocks: word_at(b, 12) as u32,
            data_bitmap_blocks: word_at(b, 16) as u32,
            data_area_blocks: word_at(b, 20) as u32,
        }
    }

    /// The super block of a file system that is divided as the arguments
    /// say.
    pub fn initialize(
        total_blocks: u32,
        inode_bitmap_blocks: u32,
        inode_area_blocks: u32,
        data_bitmap_blocks: u32,
        data_area_blocks: u32,
    ) -> (r: Self)
        ensures
            r == (SuperBlock {
                magic: EFS_MAGIC,
                total_blocks,
                inode_bitmap_blocks,
                inode_area_blocks,
                data_bitmap_blocks,
                data_area_blocks,
            }),
    {
        SuperBlock {
            magic: EFS_MAGIC,
            total_blocks,
            inode_bitmap_blocks,
            inode_area_blocks,
            data_bitmap_blocks,
            data_area_blocks,
        }
    }

    /// Whether the super block is that of a file system.
    pub fn is_valid(&self) -> (r: bool)
        ensures
            r == (self.magic == EFS_MAGIC),
    {
        self.magic == EFS_MAGIC
    }

    /// Reads the super block from the block `buf`.
    pub fn decode(buf: &[u8; 512]) -> (r: Self)
        ensures
            r == Self::of(buf@),
    {
        SuperBlock {
            magic: get_word(buf, 0),
            total_blocks: get_word(buf, 4),
            inode_bitmap_blocks: get_word(buf, 8),
            inode_area_blocks: get_word(buf, 12),
            data_bitmap_blocks: get_word(buf, 16),
            data_area_blocks: get_word(buf, 20),
        }
    }

    /// Stores the super block at the start of the block `buf`; the other
    /// bytes stay.
    pub fn encode(&self, buf: &mut [u8; 512])
        ensures
            Self::of(final(buf)@) == *self,
            forall|i: int| 24 <= i < 512 ==> (#[trigger] final(buf)@[i]) == old(buf)@[i],
    {
        put_word(buf, 0, self.magic);
        put_word(buf, 4, self.total_blocks);
        put_word(buf, 8, self.inode_bitmap_blocks);
        put_word(buf, 12, self.inode_area_blocks);
        put_word(buf, 16, self.data_bitmap_blocks);
        put_word(buf, 20, self.data_area_blocks);
    }
}

/// The number that stands for the type `t` on the device.
pub open spec fn type_code(t: DiskInodeType) -> u8 {
    match t {
        DiskInodeType::File => 0,
        DiskInodeType::Directory => 1,
    }
}

/// Makes the inode at `offset` of the block `buf` an empty one of the
/// type `t`: its bytes are zero but for the type.  The other bytes of the
/// block stay.
pub fn init_inode(buf: &mut [u8; 512], offset: usize, t: DiskInodeType)
    requires
        offset + 128 <= 512,
    ensures
        forall|i: int|
            0 <= i < 512 ==> (#[trigger] final(buf)@[i]) == (if i == offset + 124 {
                type_code(t)
            } else if offset <= i < offset + 128 {
                0u8
            } else {
                old(buf)@[i]
            }),
{
    let mut i: usize = 0;
    while i < INODE_SIZE
        invariant
            i <= 128,
            offset + 128 <= 512,
            forall|j: int|
                0 <= j < 512 ==> (#[trigger] buf@[j]) == (if offset <= j < offset + i {
                    0u8
                } else {
                    old(buf)@[j]
                }),
        decreases 128 - i,
    {
        buf[offset + i] = 0;
        i = i + 1;
    }
    buf[offset + INODE_TYPE_OFFSET] = match t {
        DiskInodeType::File => 0,
        DiskInodeType::Directory => 1,
    };
}

} // verus!
