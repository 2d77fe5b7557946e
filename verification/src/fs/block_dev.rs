//! Block devices: storage that is read and written a block at a time.

use vstd::prelude::*;

verus! {

/// Bytes of a block.
pub const BLOCK_SZ: usize = 512;

/// A device that holds blocks of [`BLOCK_SZ`] bytes, numbered from 0.
pub trait BlockDevice {
    /// The blocks of the device.
    spec fn blocks(&self) -> Seq<Seq<u8>>;

    /// Whether the device is sound: every block has [`BLOCK_SZ`] bytes.
    spec fn inv(&self) -> bool;

    /// Number of blocks of the device.
    fn block_count(&self) -> (r: usize)
        requires
            self.inv(),
        ensures
            r == self.blocks().len(),
    ;

    /// Reads block `block_id` into `buf`.
    fn read_block(&self, block_id: usize, buf: &mut [u8; 512])
        requires
            self.inv(),
            block_id < self.blocks().len(),
        ensures
            final(buf)@ == self.blocks()[block_id as int],
    ;

    /// Writes `buf` to block `block_id`; the other blocks stay.
    fn write_block(&mut self, block_id: usize, buf: &[u8; 512])
        requires
            old(self).inv(),
            block_id < old(self).blocks().len(),
        ensures
            final(self).inv(),
            final(self).blocks() == old(self).blocks().update(block_id as int, buf@),
    ;

    /// A sound device has blocks of [`BLOCK_SZ`] bytes.
    proof fn lemma_block_len(&self, block_id: int)
        requires
            self.inv(),
            0 <= block_id < self.blocks().len(),
        ensures
            self.blocks()[block_id].len() == 512,
    ;
}

/// A block device in memory.
pub struct RamDisk {
    pub data: Vec<[u8; 512]>,
}

impl RamDisk {
    /// A device of `blocks` blocks of zeros.
    pub fn new(blocks: usize) -> (r: Self)
        ensures
            r.inv(),
            r.blocks().len() == blocks,
            forall|b: int, i: int|
                0 <= b < blocks && 0 <= i < 512 ==> (#[trigger] r.blocks()[b][i]) == 0,
    {
        let mut data: Vec<[u8; 512]> = Vec::new();
        let mut n: usize = 0;
        while n < blocks
            invariant
                n <= blocks,
                data@.len() == n,
                forall|b: int, i: int| 0 <= b < n && 0 <= i < 512 ==> (#[trigger] data@[b]@[i]) == 0,
            decreases blocks - n,
        {
            data.push([0u8;512]);
            n = n + 1;
        }
        RamDisk { data }
    }
}

impl BlockDevice for RamDisk {
    open spec fn blocks(&self) -> Seq<Seq<u8>> {
        Seq::new(self.data@.len(), |b: int| self.data@[b]@)
    }

    open spec fn inv(&self) -> bool {
        true
    }

    fn block_count(&self) -> (r: usize) {
        self.data.len()
    }

    fn read_block(&self, block_id: usize, buf: &mut [u8; 512]) {
        *buf = self.data[block_id];
    }

    fn write_block(&mut self, block_id: usize, buf: &[u8; 512]) {
        self.data[block_id] = *buf;
        proof {
            assert(self.blocks() =~= old(self).blocks().update(block_id as int, buf@));
        }
    }

    proof fn lemma_block_len(&self, block_id: int) {
    }
}

} // verus!
