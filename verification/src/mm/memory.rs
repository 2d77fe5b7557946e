//! Physical memory as a value: a sequence of frames of 512 machine words.

use vstd::prelude::*;
use crate::config::PAGE_WORDS;
use crate::mm::address::PhysPageNum;

verus! {

/// Byte `k` (0 is the least significant) of the little-endian word `w`.
pub open spec fn word_byte(w: u64, k: u64) -> u8 {
    ((w >> (8 * k)) & 0xff) as u8
}

/// The word `w` with its byte `k` replaced by `b`.
pub open spec fn word_with_byte(w: u64, k: u64, b: u8) -> u64 {
    (w & !(0xffu64 << (8 * k))) | ((b as u64) << (8 * k))
}

/// A byte written into a word is read back, and the other bytes stay.
pub proof fn lemma_word_with_byte(w: u64, k: u64, b: u8, j: u64)
    requires
        k < 8,
        j < 8,
    ensures
        word_byte(word_with_byte(w, k, b), j) == (if j == k {
            b
        } else {
            word_byte(w, j)
        }),
{
    assert(word_byte(word_with_byte(w, k, b), j) == (if j == k {
        b
    } else {
        word_byte(w, j)
    })) by (bit_vector)
        requires
            k < 8,
            j < 8,
    ;
}

/// The bytes of a frame, lowest address first.
pub open spec fn frame_bytes(frame: Seq<u64>) -> Seq<u8> {
    Seq::new(4096, |i: int| word_byte(frame[i / 8], (i % 8) as u64))
}

/// The physical memory of the machine.
///
/// Its view is the sequence of its frames; frame `p` holds the 512 words of
/// physical page number `p`.
pub struct PhysMemory {
    words: Vec<u64>,
}

impl View for PhysMemory {
    type V = Seq<Seq<u64>>;

    closed spec fn view(&self) -> Seq<Seq<u64>> {
        Seq::new(
            (self.words@.len() / 512) as nat,
            |p: int| Seq::new(512, |i: int| self.words@[p * 512 + i]),
        )
    }
}

impl PhysMemory {
    /// Every frame of the view holds 512 words.
    pub proof fn lemma_frames(&self)
        ensures
            forall|p: int| 0 <= p < self@.len() ==> (#[trigger] self@[p]).len() == 512,
    {
    }

    /// Whether `ppn` names a frame of this memory.
    pub open spec fn has(&self, ppn: PhysPageNum) -> bool {
        ppn.0 < self@.len()
    }

    /// A memory of `frames` frames, all bytes zero; `None` when that many
    /// words cannot be indexed.
    pub fn new(frames: usize) -> (r: Option<Self>)
        ensures
            r is Some <==> frames * 512 <= usize::MAX,
            r matches Some(m) ==> m@.len() == frames && forall|p: int, i: int|
                0 <= p < frames && 0 <= i < 512 ==> (#[trigger] m@[p][i]) == 0,
    {
        let total: usize = match frames.checked_mul(PAGE_WORDS) {
            Some(t) => t,
            None => {
                return None;
            },
        };
        let mut words: Vec<u64> = Vec::new();
        let mut n: usize = 0;
        while n < total
            invariant
                n <= total,
                words@.len() == n,
                forall|j: int| 0 <= j < n ==> words@[j] == 0,
            decreases total - n,
        {
            words.push(0);
            n = n + 1;
        }
        Some(PhysMemory { words })
    }

    /// Number of frames.
    pub fn frame_count(&self) -> (r: usize)
        ensures
            r == self@.len(),
    {
        self.words.len() / PAGE_WORDS
    }

    /// Whether `ppn` names a frame of this memory.
    pub fn contains(&self, ppn: PhysPageNum) -> (r: bool)
        ensures
            r == self.has(ppn),
    {
        ppn.0 < (self.words.len() / PAGE_WORDS) as u64
    }

    /// Word `idx` of frame `ppn`.
    pub fn read_word(&self, ppn: PhysPageNum, idx: usize) -> (r: u64)
        requires
            self.has(ppn),
            idx < 512,
        ensures
            r == self@[ppn.0 as int][idx as int],
    {
        let n: usize = self.words.len();
        assert(ppn.0 * 512 + 512 <= n);
        let base: usize = ppn.0 as usize * PAGE_WORDS;
        self.words[base + idx]
    }

    /// Stores `v` as word `idx` of frame `ppn`; nothing else changes.
    pub fn write_word(&mut self, ppn: PhysPageNum, idx: usize, v: u64)
        requires
            old(self).has(ppn),
            idx < 512,
        ensures
            final(self)@ == old(self)@.update(
                ppn.0 as int,
                old(self)@[ppn.0 as int].update(idx as int, v),
            ),
    {
        assert(ppn.0 * 512 + 512 <= self.words@.len());
        let n: usize = self.words.len();
        assert(ppn.0 * 512 + 512 <= n);
        let base: usize = ppn.0 as usize * PAGE_WORDS;
        self.words[base + idx] = v;
        assert forall|p: int, i: int|
            0 <= p < self@.len() && 0 <= i < 512 implies #[trigger] self@[p][i] == old(self)@.update(ppn.0 as int, old(self)@[ppn.0 as int].update(idx as int, v))[p][i] by {
            if p != ppn.0 || i != idx {
                assert(p * 512 + i != base + idx);
            }
        }
        assert(self@ =~~= old(self)@.update(
            ppn.0 as int,
            old(self)@[ppn.0 as int].update(idx as int, v),
        ));
    }

    /// Fills frame `ppn` with zero words; the other frames stay.
    pub fn zero_frame(&mut self, ppn: PhysPageNum)
        requires
            old(self).has(ppn),
        ensures
            final(self)@ == old(self)@.update(ppn.0 as int, Seq::new(512, |i: int| 0u64)),
    {
        let mut i: usize = 0;
        while i < PAGE_WORDS
            invariant
                i <= 512,
                self.has(ppn),
                self@.len() == old(self)@.len(),
                forall|p: int|
                    0 <= p < self@.len() && p != ppn.0 ==> (#[trigger] self@[p]) == old(self)@[p],
                self@[ppn.0 as int].len() == 512,
                forall|j: int| 0 <= j < i ==> (#[trigger] self@[ppn.0 as int][j]) == 0,
            decreases 512 - i,
        {
            self.write_word(ppn, i, 0);
            i = i + 1;
        }
        assert(self@ =~~= old(self)@.update(ppn.0 as int, Seq::new(512, |i: int| 0u64)));
    }

    /// Copies the words of frame `src` into frame `dst`; the other frames stay.
    pub fn copy_frame(&mut self, dst: PhysPageNum, src: PhysPageNum)
        requires
            old(self).has(dst),
            old(self).has(src),
        ensures
            final(self)@ == old(self)@.update(dst.0 as int, old(self)@[src.0 as int]),
    {
        if dst.0 == src.0 {
            assert(self@ =~~= old(self)@.update(dst.0 as int, old(self)@[src.0 as int]));
            return ;
        }
        let mut i: usize = 0;
        while i < PAGE_WORDS
            invariant
                i <= 512,
                dst.0 != src.0,
                self.has(dst),
                self.has(src),
                self@.len() == old(self)@.len(),
                forall|p: int|
                    0 <= p < self@.len() && p != dst.0 ==> (#[trigger] self@[p]) == old(self)@[p],
                self@[dst.0 as int].len() == 512,
                old(self)@[src.0 as int].len() == 512,
                forall|j: int|
                    0 <= j < i ==> (#[trigger] self@[dst.0 as int][j]) == old(self)@[src.0 as int][j],
            decreases 512 - i,
        {
            let w: u64 = self.read_word(src, i);
            self.write_word(dst, i, w);
            i = i + 1;
        }
        assert(self@ =~~= old(self)@.update(dst.0 as int, old(self)@[src.0 as int]));
    }

    /// Byte `off` of frame `ppn`.
    pub fn read_byte(&self, ppn: PhysPageNum, off: usize) -> (r: u8)
        requires
            self.has(ppn),
            off < 4096,
        ensures
            r == frame_bytes(self@[ppn.0 as int])[off as int],
    {
        let w: u64 = self.read_word(ppn, off / 8);
        let k: u64 = (off % 8) as u64;
        assert(((w >> (8 * k)) & 0xff) < 256) by (bit_vector);
        ((w >> (8 * k)) & 0xff) as u8
    }

    /// Stores `b` as byte `off` of frame `ppn`; no other byte changes.
    pub fn write_byte(&mut self, ppn: PhysPageNum, off: usize, b: u8)
        requires
            old(self).has(ppn),
            off < 4096,
        ensures
            final(self)@.len() == old(self)@.len(),
            forall|p: int|
                0 <= p < old(self)@.len() && p != ppn.0 ==> (#[trigger] final(self)@[p]) == old(self)@[p],
            final(self)@[ppn.0 as int].len() == 512,
            frame_bytes(final(self)@[ppn.0 as int]) == frame_bytes(old(self)@[ppn.0 as int]).update(
                off as int,
                b,
            ),
    {
        let w: u64 = self.read_word(ppn, off / 8);
        let k: u64 = (off % 8) as u64;
        let nw: u64 = (w & !(0xffu64 << (8 * k))) | ((b as u64) << (8 * k));
        self.write_word(ppn, off / 8, nw);
        proof {
            let nf = self@[ppn.0 as int];
            let of = old(self)@[ppn.0 as int];
            assert forall|i: int| 0 <= i < 4096 implies #[trigger] frame_bytes(nf)[i] == frame_bytes(
                of,
            ).update(off as int, b)[i] by {
                if i / 8 == off / 8 {
                    lemma_word_with_byte(w, k, b, (i % 8) as u64);
                }
            }
            assert(frame_bytes(nf) =~= frame_bytes(of).update(off as int, b));
        }
    }
}

} // verus!
