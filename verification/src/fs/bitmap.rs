//! A bitmap on a block device: one bit for each thing that can be handed
//! out, set while the thing is in use.

use vstd::prelude::*;
use crate::fs::block_dev::BlockDevice;

verus! {

/// Bits of a block.
pub const BLOCK_BITS: usize = 4096;

/// Whether bit `k` of the byte `b` is set; bit 0 is the lowest.
pub open spec fn byte_bit(b: u8, k: int) -> bool {
    b & (1u8 << (k as u8)) != 0
}

/// Whether bit `bit` of the bitmap that starts at block `start` of the
/// blocks `disk` is set.  A block holds 4096 bits; the bits of a block lie
/// in its bytes in rising order, eight in a byte, the lowest first.
pub open spec fn bit_set(disk: Seq<Seq<u8>>, start: int, bit: int) -> bool {
    byte_bit(disk[start + bit / 4096][(bit % 4096) / 8], bit % 8)
}

/// The blocks `disk` with bit `bit` of the bitmap that starts at block
/// `start` set, if `value` holds, or cleared, if not.
pub open spec fn with_bit(disk: Seq<Seq<u8>>, start: int, bit: int, value: bool) -> Seq<Seq<u8>> {
    let blk = start + bit / 4096;
    let i = (bit % 4096) / 8;
    let k = (bit % 8) as u8;
    let b = disk[blk][i];
    disk.update(
        blk,
        disk[blk].update(
            i,
            if value {
                b | (1u8 << k)
            } else {
                b & !(1u8 << k)
            },
        ),
    )
}

/// A byte of ones has every bit set, and a byte that is not all ones has a
/// bit that is clear.
proof fn lemma_full_byte(b: u8)
    ensures
        b == 255 ==> forall|k: int| 0 <= k < 8 ==> byte_bit(b, k),
        b != 255 ==> exists|k: int| 0 <= k < 8 && !byte_bit(b, k),
{
    if b == 255 {
        assert forall|k: int| 0 <= k < 8 implies byte_bit(b, k) by {
            let s = k as u8;
            assert(255u8 & (1u8 << s) != 0) by (bit_vector)
                requires
                    s < 8,
            ;
        }
    } else {
        assert(b & 1 == 0 || b & 2 == 0 || b & 4 == 0 || b & 8 == 0 || b & 16 == 0 || b & 32 == 0
            || b & 64 == 0 || b & 128 == 0) by (bit_vector)
            requires
                b != 255,
        ;
        assert(1u8 << 0u8 == 1 && 1u8 << 1u8 == 2 && 1u8 << 2u8 == 4 && 1u8 << 3u8 == 8 && 1u8
            << 4u8 == 16 && 1u8 << 5u8 == 32 && 1u8 << 6u8 == 64 && 1u8 << 7u8 == 128)
            by (bit_vector);
        if b & 1 == 0 {
            assert(!byte_bit(b, 0));
        } else if b & 2 == 0 {
            assert(!byte_bit(b, 1));
        } else if b & 4 == 0 {
            assert(!byte_bit(b, 2));
        } else if b & 8 == 0 {
            assert(!byte_bit(b, 3));
        } else if b & 16 == 0 {
            assert(!byte_bit(b, 4));
        } else if b & 32 == 0 {
            assert(!byte_bit(b, 5));
        } else if b & 64 == 0 {
            assert(!byte_bit(b, 6));
        } else {
            assert(!byte_bit(b, 7));
        }
    }
}

/// Setting or clearing a bit of a byte changes that bit alone.
proof fn lemma_byte_with_bit(b: u8, k: u8, j: u8)
    requires
        k < 8,
        j < 8,
    ensures
        byte_bit(b | (1u8 << k), j as int) == (j == k || byte_bit(b, j as int)),
        byte_bit(b & !(1u8 << k), j as int) == (j != k && byte_bit(b, j as int)),
{
    assert(((b | (1u8 << k)) & (1u8 << j) != 0) == (j == k || b & (1u8 << j) != 0)) by (bit_vector)
        requires
            k < 8,
            j < 8,
    ;
    assert(((b & !(1u8 << k)) & (1u8 << j) != 0) == (j != k && b & (1u8 << j) != 0))
        by (bit_vector)
        requires
            k < 8,
            j < 8,
    ;
}

/// In the blocks with one bit of a bitmap changed, that bit has its new
/// value, every other bit of the bitmap is as before, and so is every
/// block but the one of the bit.
pub proof fn lemma_with_bit(disk: Seq<Seq<u8>>, start: int, bit: int, value: bool)
    requires
        0 <= start,
        0 <= bit,
        start + bit / 4096 < disk.len(),
        disk[start + bit / 4096].len() == 512,
    ensures
        with_bit(disk, start, bit, value).len() == disk.len(),
        with_bit(disk, start, bit, value)[start + bit / 4096].len() == 512,
        forall|j: int|
            0 <= j && start + j / 4096 < disk.len() ==> (#[trigger] bit_set(
                with_bit(disk, start, bit, value),
                start,
                j,
            )) == (if j == bit {
                value
            } else {
                bit_set(disk, start, j)
            }),
        forall|b: int|
            0 <= b < disk.len() && b != start + bit / 4096 ==> (#[trigger] with_bit(
                disk,
                start,
                bit,
                value,
            )[b]) == disk[b],
{
    let d1 = with_bit(disk, start, bit, value);
    let blk = start + bit / 4096;
    let i = (bit % 4096) / 8;
    let k = (bit % 8) as u8;
    assert forall|j: int| 0 <= j && start + j / 4096 < disk.len() implies (#[trigger] bit_set(
        d1,
        start,
        j,
    )) == (if j == bit {
        value
    } else {
        bit_set(disk, start, j)
    }) by {
        let jb = start + j / 4096;
        let ji = (j % 4096) / 8;
        let jk = (j % 8) as u8;
        if jb == blk && ji == i {
            lemma_byte_with_bit(disk[blk][i], k, jk);
            if jk == k {
                assert(j == bit);
            }
        } else if jb == blk {
            assert(d1[jb][ji] == disk[jb][ji]);
        } else {
            assert(d1[jb] == disk[jb]);
        }
    }
}

/// A bitmap: `blocks` blocks of bits that start at block `start_block_id`
/// of a device.
#[derive(Copy, Clone, Debug, PartialEq, Eq, Structural)]
pub struct Bitmap {
    /// First block of the bitmap.
    pub start_block_id: usize,
    /// Number of blocks of the bitmap.
    pub blocks: usize,
}

/// The place of bit `bit` of a bitmap: the block that holds it, counted
/// from the start of the bitmap, the 64-bit word of the block, and the bit
/// of the word.
pub fn decomposition(bit: usize) -> (r: (usize, usize, usize))
    ensures
        r.0 == bit / 4096,
        r.1 == (bit % 4096) / 64,
        r.2 == bit % 64,
{
    let block_pos: usize = bit / BLOCK_BITS;
    let rest: usize = bit % BLOCK_BITS;
    (block_pos, rest / 64, rest % 64)
}

impl Bitmap {
    /// Whether the bitmap lies on a device with the blocks `disk`.
    pub open spec fn fits(&self, disk: Seq<Seq<u8>>) -> bool {
        &&& self.start_block_id + self.blocks <= disk.len()
        &&& self.blocks * 4096 <= usize::MAX
    }

    /// Whether bit `bit` of the bitmap is set on a device with the blocks
    /// `disk`.
    pub open spec fn holds(&self, disk: Seq<Seq<u8>>, bit: int) -> bool {
        bit_set(disk, self.start_block_id as int, bit)
    }

    /// Whether all of the first `n` bits of the bitmap are set.
    pub open spec fn full_upto(&self, disk: Seq<Seq<u8>>, n: int) -> bool {
        forall|j: int| 0 <= j < n ==> #[trigger] self.holds(disk, j)
    }

    /// The bitmap of `blocks` blocks that starts at block `start_block_id`.
    pub fn new(start_block_id: usize, blocks: usize) -> (r: Self)
        ensures
            r.start_block_id == start_block_id,
            r.blocks == blocks,
    {
        Bitmap { start_block_id, blocks }
    }

    /// Number of bits of the bitmap.
    pub fn maximum(&self) -> (r: usize)
        requires
            self.blocks * 4096 <= usize::MAX,
        ensures
            r == self.blocks * 4096,
    {
        self.blocks * BLOCK_BITS
    }

    /// The lowest byte of the block `buf` that is not all ones; 512 when
    /// there is none.
    fn first_free_byte(buf: &[u8; 512]) -> (i: usize)
        ensures
            i <= 512,
            forall|j: int| 0 <= j < i ==> buf@[j] == 255,
            i < 512 ==> buf@[i as int] != 255,
    {
        let mut i: usize = 0;
        while i < 512
            invariant
                i <= 512,
                forall|j: int| 0 <= j < i ==> buf@[j] == 255,
            decreases 512 - i,
        {
            if buf[i] != 255 {
                return i;
            }
            i = i + 1;
        }
        i
    }

    /// The lowest bit of the byte `b`, which is not all ones, that is
    /// clear.
    fn first_free_bit(b: u8) -> (k: u8)
        requires
            b != 255,
        ensures
            k < 8,
            !byte_bit(b, k as int),
            forall|j: int| 0 <= j < k ==> byte_bit(b, j),
    {
        proof {
            lemma_full_byte(b);
        }
        let mut k: u8 = 0;
        while k < 7 && b & (1u8 << k) != 0
            invariant
                k <= 7,
                b != 255,
                forall|j: int| 0 <= j < k ==> byte_bit(b, j),
                exists|j: int| 0 <= j < 8 && !byte_bit(b, j),
            decreases 7 - k,
        {
            k = k + 1;
        }
        proof {
            if byte_bit(b, k as int) {
                let j = choose|j: int| 0 <= j < 8 && !byte_bit(b, j);
                assert(j == 7);
            }
        }
        k
    }

    /// A block whose first `i` bytes are all ones extends the bits that
    /// are known to be set by eight for each of the bytes.
    proof fn lemma_bytes_full(&self, disk: Seq<Seq<u8>>, block: Seq<u8>, block_id: int, i: int)
        requires
            0 <= block_id,
            0 <= i <= 512,
            self.full_upto(disk, block_id * 4096),
            block == disk[self.start_block_id + block_id],
            forall|j: int| 0 <= j < i ==> #[trigger] block[j] == 255,
        ensures
            self.full_upto(disk, block_id * 4096 + i * 8),
    {
        assert forall|j: int| 0 <= j < block_id * 4096 + i * 8 implies #[trigger] self.holds(
            disk,
            j,
        ) by {
            if j >= block_id * 4096 {
                let ji = (j % 4096) / 8;
                assert(j / 4096 == block_id);
                assert(0 <= ji < i);
                assert(block[ji] == 255);
                lemma_full_byte(255);
                assert(byte_bit(255, j % 8));
            }
        }
    }

    /// The lowest clear bit of the first byte of a block that is not all
    /// ones is the lowest clear bit of the bitmap, if all bits before the
    /// block are set.
    proof fn lemma_lowest(&self, disk: Seq<Seq<u8>>, b: u8, block_id: int, i: int, k: int)
        requires
            0 <= block_id,
            0 <= i < 512,
            0 <= k < 8,
            self.full_upto(disk, block_id * 4096 + i * 8),
            b == disk[self.start_block_id + block_id][i],
            !byte_bit(b, k),
            forall|j: int| 0 <= j < k ==> #[trigger] byte_bit(b, j),
        ensures
            (block_id * 4096 + i * 8 + k) / 4096 == block_id,
            ((block_id * 4096 + i * 8 + k) % 4096) / 8 == i,
            (block_id * 4096 + i * 8 + k) % 8 == k,
            !self.holds(disk, block_id * 4096 + i * 8 + k),
            self.full_upto(disk, block_id * 4096 + i * 8 + k),
    {
        let bit = block_id * 4096 + i * 8 + k;
        assert(bit / 4096 == block_id);
        assert((bit % 4096) / 8 == i);
        assert(bit % 8 == k);
        assert forall|j: int| 0 <= j < bit implies #[trigger] self.holds(disk, j) by {
            if j >= block_id * 4096 + i * 8 {
                assert(j / 4096 == block_id);
                assert((j % 4096) / 8 == i);
                assert(j % 8 < k);
            }
        }
    }

    /// Takes the lowest clear bit of block `block_id` of the bitmap, and
    /// sets it, when all bits before the block are set.  `None`, with
    /// nothing changed, when every bit of the block is set.
    fn alloc_in_block<D: BlockDevice>(&self, block_device: &mut D, block_id: usize) -> (r: Option<
        usize,
    >)
        requires
            old(block_device).inv(),
            self.fits(old(block_device).blocks()),
            old(block_device).blocks().len() <= usize::MAX,
            block_id < self.blocks,
            self.full_upto(old(block_device).blocks(), block_id * 4096),
        ensures
            final(block_device).inv(),
            r is None ==> final(block_device).blocks() == old(block_device).blocks()
                && self.full_upto(old(block_device).blocks(), (block_id + 1) * 4096),
            r matches Some(bit) ==> {
                &&& bit < self.blocks * 4096
                &&& !self.holds(old(block_device).blocks(), bit as int)
                &&& self.full_upto(old(block_device).blocks(), bit as int)
                &&& final(block_device).blocks() == with_bit(
                    old(block_device).blocks(),
                    self.start_block_id as int,
                    bit as int,
                    true,
                )
            },
    {
        let ghost disk = block_device.blocks();
        let mut buf: [u8; 512] = [0u8;512];
        block_device.read_block(block_id + self.start_block_id, &mut buf);
        let i: usize = Self::first_free_byte(&buf);
        proof {
            self.lemma_bytes_full(disk, buf@, block_id as int, i as int);
        }
        if i >= 512 {
            return None;
        }
        let k: u8 = Self::first_free_bit(buf[i]);
        let bit: usize = block_id * BLOCK_BITS + i * 8 + k as usize;
        proof {
            self.lemma_lowest(disk, buf@[i as int], block_id as int, i as int, k as int);
            block_device.lemma_block_len(block_id + self.start_block_id);
        }
        buf[i] = buf[i] | (1u8 << k);
        block_device.write_block(block_id + self.start_block_id, &buf);
        proof {
            assert(buf@ =~= disk[block_id + self.start_block_id].update(
                i as int,
                disk[block_id + self.start_block_id][i as int] | (1u8 << k),
            ));
        }
        Some(bit)
    }

    /// Takes the lowest bit of the bitmap that is clear, and sets it.
    /// Returns the number of the bit; `None`, with nothing changed, when
    /// every bit is set.
    pub fn alloc_bit<D: BlockDevice>(&self, block_device: &mut D) -> (r: Option<usize>)
        requires
            old(block_device).inv(),
            self.fits(old(block_device).blocks()),
        ensures
            final(block_device).inv(),
            r is None <==> self.full_upto(old(block_device).blocks(), self.blocks * 4096),
            r is None ==> final(block_device).blocks() == old(block_device).blocks(),
            r matches Some(bit) ==> {
                &&& bit < self.blocks * 4096
                &&& !self.holds(old(block_device).blocks(), bit as int)
                &&& self.full_upto(old(block_device).blocks(), bit as int)
                &&& final(block_device).blocks() == with_bit(
                    old(block_device).blocks(),
                    self.start_block_id as int,
                    bit as int,
                    true,
                )
            },
    {
        let count: usize = block_device.block_count();
        let mut block_id: usize = 0;
        while block_id < self.blocks
            invariant
                block_id <= self.blocks,
                count == block_device.blocks().len(),
                block_device.blocks() == old(block_device).blocks(),
                block_device.inv(),
                self.fits(block_device.blocks()),
                self.full_upto(block_device.blocks(), block_id * 4096),
            decreases self.blocks - block_id,
        {
            match self.alloc_in_block(block_device, block_id) {
                Some(bit) => {
                    return Some(bit);
                },
                None => {},
            }
            block_id = block_id + 1;
        }
        None
    }

    /// Whether bit `bit` of the bitmap is set.
    pub fn is_set<D: BlockDevice>(&self, block_device: &D, bit: usize) -> (r: bool)
        requires
            block_device.inv(),
            self.fits(block_device.blocks()),
            bit < self.blocks * 4096,
        ensures
            r == self.holds(block_device.blocks(), bit as int),
    {
        let count: usize = block_device.block_count();
        let (block_pos, bits64_pos, inner_pos) = decomposition(bit);
        let i: usize = bits64_pos * 8 + inner_pos / 8;
        let k: u8 = (inner_pos % 8) as u8;
        proof {
            assert(i == (bit % 4096) / 8);
            assert(k == bit % 8);
        }
        let mut buf: [u8; 512] = [0u8;512];
        block_device.read_block(block_pos + self.start_block_id, &mut buf);
        buf[i] & (1u8 << k) != 0
    }

    /// Clears bit `bit` of the bitmap, which is set.  To clear a bit that
    /// is clear is a defect of the caller; [`Bitmap::is_set`] tells.
    pub fn dealloc<D: BlockDevice>(&self, block_device: &mut D, bit: usize)
        requires
            old(block_device).inv(),
            self.fits(old(block_device).blocks()),
            bit < self.blocks * 4096,
            self.holds(old(block_device).blocks(), bit as int),
        ensures
            final(block_device).inv(),
            final(block_device).blocks() == with_bit(
                old(block_device).blocks(),
                self.start_block_id as int,
                bit as int,
                false,
            ),
    {
        let ghost disk = block_device.blocks();
        let count: usize = block_device.block_count();
        let (block_pos, bits64_pos, inner_pos) = decomposition(bit);
        let i: usize = bits64_pos * 8 + inner_pos / 8;
        let k: u8 = (inner_pos % 8) as u8;
        proof {
            assert(i == (bit % 4096) / 8);
            assert(k == bit % 8);
            block_device.lemma_block_len(block_pos + self.start_block_id);
        }
        let mut buf: [u8; 512] = [0u8;512];
        block_device.read_block(block_pos + self.start_block_id, &mut buf);
        buf[i] = buf[i] & !(1u8 << k);
        block_device.write_block(block_pos + self.start_block_id, &buf);
        proof {
            assert(buf@ =~= disk[block_pos + self.start_block_id].update(
                i as int,
                disk[block_pos + self.start_block_id][i as int] & !(1u8 << k),
            ));
        }
    }
}

} // verus!
