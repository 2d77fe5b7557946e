//! The file system on a block device: how the device is divided, and the
//! handing out of inodes and data blocks.
//!
//! Block 0 is the super block.  Then come the bitmap of the inodes, the
//! inodes, the bitmap of the data blocks, and the data blocks.

use vstd::prelude::*;
use crate::fs::bitmap::{lemma_with_bit, with_bit, Bitmap};
use crate::fs::block_dev::BlockDevice;
use crate::fs::layout::{init_inode, type_code, DiskInodeType, SuperBlock, EFS_MAGIC};

verus! {

/// Blocks that hold the inodes of a file system whose bitmap of inodes has
/// `ib` blocks: four inodes lie in a block.
pub open spec fn inode_area_of(ib: int) -> int {
    ib * 1024
}

/// Blocks that are left for the data and its bitmap in a file system of
/// `total` blocks whose bitmap of inodes has `ib` blocks.
pub open spec fn data_total_of(total: int, ib: int) -> int {
    total - 1 - ib - inode_area_of(ib)
}

/// Blocks of the bitmap of the data blocks: one for every 4096 data
/// blocks.
pub open spec fn data_bitmap_of(total: int, ib: int) -> int {
    (data_total_of(total, ib) + 4096) / 4097
}

/// Blocks that hold data.
pub open spec fn data_area_of(total: int, ib: int) -> int {
    data_total_of(total, ib) - data_bitmap_of(total, ib)
}

/// Blocks that the bitmap of the inodes can have at most: the number of
/// an inode fits in 32 bits.
pub const INODE_BITMAP_LIMIT: u32 = 0xf_ffff;

/// Whether a file system of `total` blocks whose bitmap of inodes has `ib`
/// blocks can be made on a device of `device` blocks: there is an inode,
/// the numbers of the inodes fit in 32 bits, and the super block, the
/// bitmap of the inodes and the inodes fit.
pub open spec fn layout_ok(total: int, ib: int, device: int) -> bool {
    1 <= ib <= INODE_BITMAP_LIMIT && 1 + ib + inode_area_of(ib) <= total <= device
}

/// How a file system of `total` blocks whose bitmap of inodes has `ib`
/// blocks is divided on a device of `count` blocks: the blocks of the
/// inodes, of the bitmap of the data blocks, and of the data.  `None` when
/// [`layout_ok`] does not hold.
pub fn layout(total: u32, ib: u32, count: usize) -> (r: Option<(u32, u32, u32)>)
    ensures
        r is Some <==> layout_ok(total as int, ib as int, count as int),
        r matches Some((ia, db, da)) ==> {
            &&& ia == inode_area_of(ib as int)
            &&& db == data_bitmap_of(total as int, ib as int)
            &&& da == data_area_of(total as int, ib as int)
            &&& 1 + ib + ia + db + da == total
            &&& da <= db * 4096
            &&& db * 4096 <= u32::MAX
            &&& ib * 4096 <= u32::MAX
        },
{
    if ib < 1 || ib > INODE_BITMAP_LIMIT || total as u64 > count as u64 {
        return None;
    }
    let head: u64 = 1 + ib as u64 + ib as u64 * 1024;
    if head > total as u64 {
        return None;
    }
    let data_total: u64 = total as u64 - head;
    let db: u64 = (data_total + 4096) / 4097;
    let da: u64 = data_total - db;
    proof {
        assert(data_total == data_total_of(total as int, ib as int));
        assert(4097 * db <= data_total + 4096);
        assert(4097 * db > data_total - 1);
        assert(db <= data_total);
    }
    Some(((ib as u64 * 1024) as u32, db as u32, da as u32))
}

/// The block of zeros.
pub open spec fn zero_block() -> Seq<u8> {
    Seq::new(512, |i: int| 0u8)
}

/// What the blocks `d1` of a device hold after a file system of `total`
/// blocks has been made on it, whose bitmap of inodes has `ib` blocks,
/// when it held `d0` before: block 0 holds the super block and then
/// zeros; of the bitmaps the bit of inode 0 alone is set; inode 0 is an
/// empty directory; every other byte of the file system is zero; and the
/// blocks behind the file system are as before.
pub open spec fn created(d0: Seq<Seq<u8>>, d1: Seq<Seq<u8>>, total: int, ib: int) -> bool {
    &&& d1.len() == d0.len()
    &&& forall|b: int| total <= b < d0.len() ==> (#[trigger] d1[b]) == d0[b]
    &&& SuperBlock::of(d1[0]) == (SuperBlock {
        magic: EFS_MAGIC,
        total_blocks: total as u32,
        inode_bitmap_blocks: ib as u32,
        inode_area_blocks: inode_area_of(ib) as u32,
        data_bitmap_blocks: data_bitmap_of(total, ib) as u32,
        data_area_blocks: data_area_of(total, ib) as u32,
    })
    &&& forall|i: int| 24 <= i < 512 ==> (#[trigger] d1[0][i]) == 0
    &&& forall|b: int, i: int|
        1 <= b < total && 0 <= i < 512 ==> (#[trigger] d1[b][i]) == (if b == 1 && i == 0 {
            1u8
        } else if b == 1 + ib && i == 124 {
            type_code(DiskInodeType::Directory)
        } else {
            0u8
        })
}

/// A file system on the block device `block_device`.
pub struct EasyFileSystem<D> {
    /// The device.
    pub block_device: D,
    /// The bitmap of the inodes.
    pub inode_bitmap: Bitmap,
    /// The bitmap of the data blocks.
    pub data_bitmap: Bitmap,
    /// First block of the inodes.
    pub inode_area_start_block: u32,
    /// First block of the data.
    pub data_area_start_block: u32,
    /// Number of blocks of data.
    pub data_area_blocks: u32,
}

impl<D: BlockDevice> EasyFileSystem<D> {
    /// Whether the file system is sound: the device is, the parts follow
    /// each other as the module says, and they lie on the device.
    pub open spec fn wf(&self) -> bool {
        let ib = self.inode_bitmap.blocks as int;
        &&& self.block_device.inv()
        &&& ib >= 1
        &&& self.inode_bitmap.start_block_id == 1
        &&& self.inode_area_start_block == 1 + ib
        &&& self.data_bitmap.start_block_id == 1 + ib + inode_area_of(ib)
        &&& self.data_area_start_block == self.data_bitmap.start_block_id + self.data_bitmap.blocks
        &&& self.data_area_blocks <= self.data_bitmap.blocks * 4096
        &&& self.data_bitmap.blocks * 4096 <= u32::MAX
        &&& self.data_area_start_block + self.data_area_blocks
            <= self.block_device.blocks().len()
        &&& self.data_area_start_block + self.data_area_blocks <= u32::MAX
        &&& ib * 4096 <= u32::MAX
    }

    /// Number of inodes that the file system has room for.
    pub open spec fn inode_count(&self) -> int {
        self.inode_bitmap.blocks * 4096
    }

    /// Whether inode `id` is in use.
    pub open spec fn inode_used(&self, id: int) -> bool {
        self.inode_bitmap.holds(self.block_device.blocks(), id)
    }

    /// Whether data block `id`, counted from the first, is in use.
    pub open spec fn data_used(&self, id: int) -> bool {
        self.data_bitmap.holds(self.block_device.blocks(), id)
    }

    /// Whether `other` is this file system but for the blocks of the
    /// device.
    pub open spec fn same_layout(&self, other: &Self) -> bool {
        &&& other.inode_bitmap == self.inode_bitmap
        &&& other.data_bitmap == self.data_bitmap
        &&& other.inode_area_start_block == self.inode_area_start_block
        &&& other.data_area_start_block == self.data_area_start_block
        &&& other.data_area_blocks == self.data_area_blocks
    }

    /// The block of inode `inode_id` and the place of the inode in it:
    /// four inodes lie in a block, one after the other.
    pub fn get_disk_inode_pos(&self, inode_id: u32) -> (r: (u32, usize))
        requires
            self.inode_area_start_block + inode_id / 4 <= u32::MAX,
        ensures
            r.0 == self.inode_area_start_block + inode_id / 4,
            r.1 == (inode_id % 4) * 128,
            r.1 + 128 <= 512,
    {
        let block_id: u32 = self.inode_area_start_block + inode_id / 4;
        (block_id, (inode_id % 4) as usize * 128)
    }

    /// The block of the root directory, which is inode 0, and the place of
    /// the inode in it.
    pub fn root_inode(&self) -> (r: (u32, usize))
        ensures
            r.0 == self.inode_area_start_block,
            r.1 == 0,
    {
        self.get_disk_inode_pos(0)
    }

    /// The number on the device of data block `data_block_id`, counted
    /// from the first.
    pub fn get_data_block_id(&self, data_block_id: u32) -> (r: u32)
        requires
            self.data_area_start_block + data_block_id <= u32::MAX,
        ensures
            r == self.data_area_start_block + data_block_id,
    {
        self.data_area_start_block + data_block_id
    }

    /// Whether an inode is free.
    pub open spec fn inode_left(&self) -> bool {
        exists|j: int| 0 <= j < self.inode_count() && !#[trigger] self.inode_used(j)
    }

    /// Whether a data block is free.
    pub open spec fn data_left(&self) -> bool {
        exists|j: int| 0 <= j < self.data_area_blocks && !#[trigger] self.data_used(j)
    }

    /// Takes the free inode with the lowest number.  To ask for an inode
    /// when none is free is a defect of the caller.
    pub fn alloc_inode(&mut self) -> (id: u32)
        requires
            old(self).wf(),
            old(self).inode_left(),
        ensures
            final(self).wf(),
            old(self).same_layout(final(self)),
            id < old(self).inode_count(),
            !old(self).inode_used(id as int),
            forall|j: int| 0 <= j < id ==> #[trigger] old(self).inode_used(j),
            final(self).block_device.blocks() == with_bit(
                old(self).block_device.blocks(),
                1,
                id as int,
                true,
            ),
    {
        let count: usize = self.block_device.block_count();
        let ghost disk = self.block_device.blocks();
        proof {
            let j = choose|j: int| 0 <= j < self.inode_count() && !#[trigger] self.inode_used(j);
            assert(!self.inode_bitmap.holds(disk, j));
        }
        match self.inode_bitmap.alloc_bit(&mut self.block_device) {
            Some(bit) => {
                proof {
                    self.block_device.lemma_block_len(1 + bit / 4096);
                    old(self).block_device.lemma_block_len(1 + bit / 4096);
                    lemma_with_bit(disk, 1, bit as int, true);
                    assert(!old(self).inode_used(bit as int));
                    assert forall|j: int| 0 <= j < bit implies #[trigger] old(self).inode_used(
                        j,
                    ) by {
                        assert(old(self).inode_bitmap.holds(disk, j));
                    }
                }
                bit as u32
            },
            None => 0,
        }
    }

    /// Takes the free data block with the lowest number, and returns its
    /// number on the device.  To ask for a data block when none is free is
    /// a defect of the caller.
    pub fn alloc_data(&mut self) -> (id: u32)
        requires
            old(self).wf(),
            old(self).data_left(),
        ensures
            final(self).wf(),
            old(self).same_layout(final(self)),
            old(self).data_area_start_block <= id < old(self).data_area_start_block + old(
                self,
            ).data_area_blocks,
            !old(self).data_used(id - old(self).data_area_start_block),
            forall|j: int|
                0 <= j < id - old(self).data_area_start_block ==> #[trigger] old(self).data_used(
                    j,
                ),
            final(self).block_device.blocks() == with_bit(
                old(self).block_device.blocks(),
                old(self).data_bitmap.start_block_id as int,
                id - old(self).data_area_start_block,
                true,
            ),
    {
        let count: usize = self.block_device.block_count();
        let ghost disk = self.block_device.blocks();
        let ghost start = self.data_bitmap.start_block_id as int;
        let ghost free = choose|j: int|
            0 <= j < self.data_area_blocks && !#[trigger] self.data_used(j);
        proof {
            assert(!self.data_bitmap.holds(disk, free));
        }
        match self.data_bitmap.alloc_bit(&mut self.block_device) {
            Some(bit) => {
                proof {
                    self.block_device.lemma_block_len(start + bit / 4096);
                    old(self).block_device.lemma_block_len(start + bit / 4096);
                    lemma_with_bit(disk, start, bit as int, true);
                    if bit > free {
                        assert(old(self).data_bitmap.holds(disk, free));
                    }
                    assert(!old(self).data_used(bit as int));
                    assert forall|j: int| 0 <= j < bit implies #[trigger] old(self).data_used(
                        j,
                    ) by {
                        assert(old(self).data_bitmap.holds(disk, j));
                    }
                }
                bit as u32 + self.data_area_start_block
            },
            None => 0,
        }
    }

    /// Whether the block with the number `block_id` on the device is a data
    /// block that is in use.
    pub fn data_in_use(&self, block_id: u32) -> (r: bool)
        requires
            self.wf(),
        ensures
            r == (self.data_area_start_block <= block_id < self.data_area_start_block
                + self.data_area_blocks && self.data_used(block_id - self.data_area_start_block)),
    {
        if block_id < self.data_area_start_block || block_id - self.data_area_start_block
            >= self.data_area_blocks {
            return false;
        }
        self.data_bitmap.is_set(
            &self.block_device,
            (block_id - self.data_area_start_block) as usize,
        )
    }

    /// Gives the data block with the number `block_id` on the device, which
    /// is in use, back, and fills it with zeros, so that whoever gets it
    /// next finds nothing of what it held.  To give back a block that is
    /// not in use is a defect of the caller;
    /// [`EasyFileSystem::data_in_use`] tells.
    pub fn dealloc_data(&mut self, block_id: u32)
        requires
            old(self).wf(),
            old(self).data_area_start_block <= block_id < old(self).data_area_start_block + old(
                self,
            ).data_area_blocks,
            old(self).data_used(block_id - old(self).data_area_start_block),
        ensures
            final(self).wf(),
            old(self).same_layout(final(self)),
            final(self).block_device.blocks() == with_bit(
                old(self).block_device.blocks(),
                old(self).data_bitmap.start_block_id as int,
                block_id - old(self).data_area_start_block,
                false,
            ).update(block_id as int, zero_block()),
    {
        let bit: usize = (block_id - self.data_area_start_block) as usize;
        let ghost disk = self.block_device.blocks();
        let ghost start = self.data_bitmap.start_block_id as int;
        proof {
            self.block_device.lemma_block_len(start + bit / 4096);
        }
        self.data_bitmap.dealloc(&mut self.block_device, bit);
        proof {
            lemma_with_bit(disk, start, bit as int, false);
        }
        let zeros: [u8; 512] = [0u8;512];
        proof {
            assert(zeros@ =~= zero_block());
        }
        self.block_device.write_block(block_id as usize, &zeros);
    }

    /// The file system with the parts that [`layout`] gave, on the device
    /// `block_device`.
    fn assemble(block_device: D, total: u32, ib: u32, ia: u32, db: u32, da: u32) -> (r: Self)
        requires
            block_device.inv(),
            layout_ok(total as int, ib as int, block_device.blocks().len() as int),
            ia == inode_area_of(ib as int),
            db == data_bitmap_of(total as int, ib as int),
            da == data_area_of(total as int, ib as int),
            1 + ib + ia + db + da == total,
            da <= db * 4096,
            db * 4096 <= u32::MAX,
            ib * 4096 <= u32::MAX,
        ensures
            r.wf(),
            r.block_device == block_device,
            r.inode_bitmap == (Bitmap { start_block_id: 1, blocks: ib as usize }),
            r.data_bitmap == (Bitmap {
                start_block_id: (1 + ib + ia) as usize,
                blocks: db as usize,
            }),
            r.inode_area_start_block == 1 + ib,
            r.data_area_start_block == 1 + ib + ia + db,
            r.data_area_blocks == da,
    {
        EasyFileSystem {
            block_device,
            inode_bitmap: Bitmap::new(1, ib as usize),
            data_bitmap: Bitmap::new((1 + ib + ia) as usize, db as usize),
            inode_area_start_block: 1 + ib,
            data_area_start_block: 1 + ib + ia + db,
            data_area_blocks: da,
        }
    }

    /// Fills the first `total` blocks of the device with zeros.
    fn clear_blocks(block_device: &mut D, total: u32)
        requires
            old(block_device).inv(),
            total <= old(block_device).blocks().len(),
        ensures
            final(block_device).inv(),
            final(block_device).blocks().len() == old(block_device).blocks().len(),
            forall|b: int| 0 <= b < total ==> (#[trigger] final(block_device).blocks()[b])
                == zero_block(),
            forall|b: int|
                total <= b < old(block_device).blocks().len() ==> (
                #[trigger] final(block_device).blocks()[b]) == old(block_device).blocks()[b],
    {
        let zeros: [u8; 512] = [0u8;512];
        proof {
            assert(zeros@ =~= zero_block());
        }
        let mut i: u32 = 0;
        while i < total
            invariant
                i <= total,
                zeros@ == zero_block(),
                block_device.inv(),
                block_device.blocks().len() == old(block_device).blocks().len(),
                total <= block_device.blocks().len(),
                forall|b: int| 0 <= b < i ==> (#[trigger] block_device.blocks()[b]) == zero_block(),
                forall|b: int|
                    i <= b < old(block_device).blocks().len() ==> (
                    #[trigger] block_device.blocks()[b]) == old(block_device).blocks()[b],
            decreases total - i,
        {
            block_device.write_block(i as usize, &zeros);
            i = i + 1;
        }
    }

    /// Makes a file system of `total_blocks` blocks on the device
    /// `block_device`, with `inode_bitmap_blocks` blocks for the bitmap of
    /// the inodes: clears the blocks, writes the super block, and makes
    /// inode 0 the root directory, which is empty.
    ///
    /// `None` when [`layout_ok`] does not hold.
    pub fn create(block_device: D, total_blocks: u32, inode_bitmap_blocks: u32) -> (r: Option<Self>)
        requires
            block_device.inv(),
        ensures
            r is Some <==> layout_ok(
                total_blocks as int,
                inode_bitmap_blocks as int,
                block_device.blocks().len() as int,
            ),
            r matches Some(efs) ==> {
                &&& efs.wf()
                &&& efs.inode_bitmap.blocks == inode_bitmap_blocks
                &&& efs.data_bitmap.blocks == data_bitmap_of(
                    total_blocks as int,
                    inode_bitmap_blocks as int,
                )
                &&& efs.data_area_blocks == data_area_of(
                    total_blocks as int,
                    inode_bitmap_blocks as int,
                )
                &&& created(
                    block_device.blocks(),
                    efs.block_device.blocks(),
                    total_blocks as int,
                    inode_bitmap_blocks as int,
                )
            },
    {
        let ghost d0 = block_device.blocks();
        let count: usize = block_device.block_count();
        let (ia, db, da) = match layout(total_blocks, inode_bitmap_blocks, count) {
            Some(l) => l,
            None => {
                return None;
            },
        };
        let mut block_device = block_device;
        Self::clear_blocks(&mut block_device, total_blocks);
        let mut buf: [u8; 512] = [0u8;512];
        let sb = SuperBlock::initialize(total_blocks, inode_bitmap_blocks, ia, db, da);
        sb.encode(&mut buf);
        block_device.write_block(0, &buf);
        let ghost d1 = block_device.blocks();
        let mut efs = Self::assemble(block_device, total_blocks, inode_bitmap_blocks, ia, db, da);
        let ghost e1 = efs;
        proof {
            assert(d1[1] == zero_block());
            assert(!e1.inode_used(0)) by {
                assert(d1[1][0] == 0u8);
                assert(0u8 & (1u8 << 0u8) == 0) by (bit_vector);
            }
        }
        let root = efs.alloc_inode();
        let ghost d2 = efs.block_device.blocks();
        proof {
            assert(root == 0u32);
            assert(0u8 | (1u8 << 0u8) == 1) by (bit_vector);
            assert(d2 == with_bit(d1, 1, 0, true));
            assert(d2[1] == d1[1].update(0, 1u8));
        }
        let (block_id, offset) = efs.get_disk_inode_pos(0);
        efs.block_device.read_block(block_id as usize, &mut buf);
        init_inode(&mut buf, offset, DiskInodeType::Directory);
        efs.block_device.write_block(block_id as usize, &buf);
        proof {
            let d3 = efs.block_device.blocks();
            let ib = inode_bitmap_blocks as int;
            assert(d3[0] == d1[0]);
            assert forall|b: int, i: int| 1 <= b < total_blocks && 0 <= i < 512 implies (
            #[trigger] d3[b][i]) == (if b == 1 && i == 0 {
                1u8
            } else if b == 1 + ib && i == 124 {
                type_code(DiskInodeType::Directory)
            } else {
                0u8
            }) by {
                if b == 1 + ib {
                    assert(d2[b] == d1[b]);
                    assert(d1[b] == zero_block());
                } else if b == 1 {
                    assert(d3[b] == d2[b]);
                } else {
                    assert(d3[b] == d2[b]);
                    assert(d2[b] == d1[b]);
                    assert(d1[b] == zero_block());
                }
            }
            assert forall|b: int| total_blocks <= b < d0.len() implies (#[trigger] d3[b])
                == d0[b] by {
                assert(d3[b] == d2[b]);
                assert(d2[b] == d1[b]);
            }
        }
        Some(efs)
    }

    /// Whether the super block `sb` is that of a file system that lies on
    /// a device of `count` blocks: it has the mark of a file system, and
    /// the parts have the sizes that follow from the number of blocks and
    /// the blocks of the bitmap of the inodes.
    pub open spec fn super_ok(sb: SuperBlock, count: int) -> bool {
        &&& sb.magic == EFS_MAGIC
        &&& layout_ok(sb.total_blocks as int, sb.inode_bitmap_blocks as int, count)
        &&& sb.inode_area_blocks == inode_area_of(sb.inode_bitmap_blocks as int)
        &&& sb.data_bitmap_blocks == data_bitmap_of(
            sb.total_blocks as int,
            sb.inode_bitmap_blocks as int,
        )
        &&& sb.data_area_blocks == data_area_of(
            sb.total_blocks as int,
            sb.inode_bitmap_blocks as int,
        )
    }

    /// The file system that lies on the device `block_device`, as its
    /// super block describes it.  `None` when [`EasyFileSystem::super_ok`]
    /// does not hold of block 0.
    pub fn open(block_device: D) -> (r: Option<Self>)
        requires
            block_device.inv(),
        ensures
            r is Some <==> block_device.blocks().len() > 0 && Self::super_ok(
                SuperBlock::of(block_device.blocks()[0]),
                block_device.blocks().len() as int,
            ),
            r matches Some(efs) ==> {
                &&& efs.wf()
                &&& efs.block_device == block_device
                &&& efs.inode_bitmap.blocks == SuperBlock::of(
                    block_device.blocks()[0],
                ).inode_bitmap_blocks
                &&& efs.data_bitmap.blocks == SuperBlock::of(
                    block_device.blocks()[0],
                ).data_bitmap_blocks
                &&& efs.data_area_blocks == SuperBlock::of(
                    block_device.blocks()[0],
                ).data_area_blocks
            },
    {
        let count: usize = block_device.block_count();
        if count == 0 {
            return None;
        }
        let mut buf: [u8; 512] = [0u8;512];
        block_device.read_block(0, &mut buf);
        let sb = SuperBlock::decode(&buf);
        if !sb.is_valid() {
            return None;
        }
        let (ia, db, da) = match layout(sb.total_blocks, sb.inode_bitmap_blocks, count) {
            Some(l) => l,
            None => {
                return None;
            },
        };
        if sb.inode_area_blocks != ia || sb.data_bitmap_blocks != db || sb.data_area_blocks != da {
            return None;
        }
        Some(Self::assemble(block_device, sb.total_blocks, sb.inode_bitmap_blocks, ia, db, da))
    }
}

} // verus!
