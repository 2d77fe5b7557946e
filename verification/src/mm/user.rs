//! Reaching the memory of a process from the kernel: the bytes at a user
//! address are found through the page table of the process.

use vstd::prelude::*;
use crate::config::{PPN_LIMIT, TRAMPOLINE_VPN, VA_LIMIT};
use crate::mm::address::{PhysPageNum, VirtPageNum};
use crate::mm::memory::{frame_bytes, PhysMemory};
use crate::mm::memory_set::{MapType, MemorySet};
use crate::mm::page_table::{
    lemma_pte_bits, lookup, pte_flags, pte_ppn, PageTable, PTE_R, PTE_U, PTE_V, PTE_W, PTE_X,
};

verus! {

/// Where the byte at the user address `va` lies in the memory `m` when it
/// is looked up from the root `root` for an access that needs the rights
/// `need`: the frame and the offset in it.  `None` when the address is
/// outside the address space, its page is not mapped, the entry lacks the
/// user flag or a flag of `need`, or the frame is outside the memory.
pub open spec fn user_slot(m: Seq<Seq<u64>>, root: int, va: int, need: u8) -> Option<(int, int)> {
    if 0 <= va < VA_LIMIT {
        match lookup(m, root, va / 4096) {
            Some(e) => if pte_flags(e.bits) & (need | PTE_U) == (need | PTE_U) && pte_ppn(e.bits)
                < m.len() {
                Some((pte_ppn(e.bits), va % 4096))
            } else {
                None
            },
            None => None,
        }
    } else {
        None
    }
}

/// The byte at the user address `va`, which is readable.
pub open spec fn user_byte(m: Seq<Seq<u64>>, root: int, va: int) -> u8 {
    let slot = user_slot(m, root, va, PTE_R)->0;
    frame_bytes(m[slot.0])[slot.1]
}

/// Whether every one of the `len` bytes from `va` on is reachable for an
/// access that needs the rights `need`.
pub open spec fn user_range_ok(m: Seq<Seq<u64>>, root: int, va: int, len: int, need: u8) -> bool {
    forall|i: int| 0 <= i < len ==> (#[trigger] user_slot(m, root, va + i, need)) is Some
}

/// Whether every area of the address space is framed.
pub open spec fn framed_only(ms: MemorySet) -> bool {
    forall|a: int| 0 <= a < ms.areas@.len() ==> (#[trigger] ms.areas@[a]).map_type == MapType::Framed
}

/// In an address space of framed areas, a user address lies in a frame
/// that the address space owns as the frame of a page.
pub proof fn lemma_user_slot_owned(ms: MemorySet, m: Seq<Seq<u64>>, va: int, need: u8)
    requires
        ms.wf(m),
        framed_only(ms),
        user_slot(m, ms.page_table.root(), va, need) is Some,
    ensures
        ms.owns_data((user_slot(m, ms.page_table.root(), va, need)->0).0),
        0 <= (user_slot(m, ms.page_table.root(), va, need)->0).0 < m.len(),
        0 <= (user_slot(m, ms.page_table.root(), va, need)->0).1 < 4096,
{
    let root = ms.page_table.root();
    let v = va / 4096;
    ms.lemma_wf_facts(m);
    let e = lookup(m, root, v)->0;
    if v == TRAMPOLINE_VPN {
        let t = (ms.trampoline->0).0 as int;
        lemma_pte_bits(t, PTE_R | PTE_X | PTE_V);
        let f: u8 = PTE_R | PTE_X | PTE_V;
        assert(f & (need | PTE_U) != (need | PTE_U)) by (bit_vector)
            requires
                f == 2u8 | 8u8 | 1u8,
        ;
        assert(false);
    }
    assert(ms.covered(v));
    let a = choose|a: int| 0 <= a < ms.areas@.len() && (#[trigger] ms.areas@[a]).has_page(v);
    assert(ms.areas@[a].mapped());
    assert(lookup(m, root, v) == Some(ms.areas@[a].entry_of(v)));
    let k = v - ms.areas@[a].start.0;
    let f = ms.data_frame(a, k);
    assert(ms.owns_data(f));
    lemma_pte_bits(f, ms.areas@[a].map_perm.bits | PTE_V);
}

/// The root frame that the token `token` names.
pub open spec fn token_root(token: u64) -> int {
    (token % PPN_LIMIT) as int
}

/// The token of a consistent address space names the root of its page
/// table.
pub proof fn lemma_token_root(ms: MemorySet, m: Seq<Seq<u64>>)
    requires
        ms.wf(m),
    ensures
        token_root((0x8000_0000_0000_0000 + ms.page_table.root_ppn.0 % PPN_LIMIT) as u64)
            == ms.page_table.root(),
        0x8000_0000_0000_0000 + ms.page_table.root_ppn.0 % PPN_LIMIT <= u64::MAX,
{
    ms.lemma_wf_facts(m);
    ms.page_table.lemma_wf_basics(m);
    assert(ms.page_table.owns(ms.page_table.root()));
}

/// In an address space of framed areas, every mapped page below the
/// trampoline page lies in a frame that the address space owns as the frame
/// of a page.
pub proof fn lemma_page_frame(ms: MemorySet, m: Seq<Seq<u64>>, v: int)
    requires
        ms.wf(m),
        framed_only(ms),
        0 <= v < TRAMPOLINE_VPN,
        lookup(m, ms.page_table.root(), v) is Some,
    ensures
        ms.owns_data(pte_ppn(lookup(m, ms.page_table.root(), v)->0.bits)),
        0 <= pte_ppn(lookup(m, ms.page_table.root(), v)->0.bits) < m.len(),
        exists|a: int|
            0 <= a < ms.areas@.len() && (#[trigger] ms.areas@[a]).has_page(v) && pte_ppn(
                lookup(m, ms.page_table.root(), v)->0.bits,
            ) == ms.data_frame(a, v - ms.areas@[a].start.0),
{
    let root = ms.page_table.root();
    ms.lemma_wf_facts(m);
    assert(ms.covered(v));
    let a = choose|a: int| 0 <= a < ms.areas@.len() && (#[trigger] ms.areas@[a]).has_page(v);
    assert(ms.areas@[a].mapped());
    assert(lookup(m, root, v) == Some(ms.areas@[a].entry_of(v)));
    let k = v - ms.areas@[a].start.0;
    let f = ms.data_frame(a, k);
    assert(ms.owns_data(f));
    lemma_pte_bits(f, ms.areas@[a].map_perm.bits | PTE_V);
}

/// Looks the user address `va` up, in the address space that `token`
/// names, for an access that needs the rights `need`.
pub fn translate_user(mem: &PhysMemory, token: u64, va: u64, need: u8) -> (r: Option<
    (PhysPageNum, usize),
>)
    ensures
        r matches Some((p, o)) ==> user_slot(mem@, token_root(token), va as int, need) == Some(
            (p.0 as int, o as int),
        ) && mem.has(p) && o < 4096,
        r is None ==> user_slot(mem@, token_root(token), va as int, need) is None,
{
    if va >= VA_LIMIT {
        return None;
    }
    let pt = PageTable::from_token(token);
    match pt.translate(VirtPageNum(va / 4096), mem) {
        Some(e) => {
            let flags: u8 = e.flags().bits;
            let ppn = e.ppn();
            if flags & (need | PTE_U) == (need | PTE_U) && mem.contains(ppn) {
                Some((ppn, (va % 4096) as usize))
            } else {
                None
            }
        },
        None => None,
    }
}

/// Reads `len` bytes from the user address `va` on, in the address space
/// that `token` names.  `None` exactly when one of them is not readable in
/// user mode.
pub fn translated_byte_buffer(mem: &PhysMemory, token: u64, va: u64, len: usize) -> (r: Option<
    Vec<u8>,
>)
    ensures
        r is Some <==> user_range_ok(mem@, token_root(token), va as int, len as int, PTE_R),
        r matches Some(v) ==> v@.len() == len && forall|i: int|
            0 <= i < len ==> #[trigger] v@[i] == user_byte(mem@, token_root(token), va + i),
{
    let mut out: Vec<u8> = Vec::new();
    let mut i: usize = 0;
    while i < len
        invariant
            i <= len,
            out@.len() == i,
            forall|j: int|
                0 <= j < i ==> (#[trigger] user_slot(mem@, token_root(token), va + j, PTE_R))
                    is Some,
            forall|j: int|
                0 <= j < i ==> #[trigger] out@[j] == user_byte(mem@, token_root(token), va + j),
        decreases len - i,
    {
        if va > u64::MAX - i as u64 {
            proof {
                assert(user_slot(mem@, token_root(token), va + i, PTE_R) is None);
            }
            return None;
        }
        match translate_user(mem, token, va + i as u64, PTE_R) {
            Some((p, o)) => {
                out.push(mem.read_byte(p, o));
            },
            None => {
                return None;
            },
        }
        i = i + 1;
    }
    Some(out)
}

/// Reads the string at the user address `va`, in the address space that
/// `token` names: the bytes before the first zero byte.  `None` when a byte
/// that is not readable comes before a zero byte.
pub fn translated_str(mem: &PhysMemory, token: u64, va: u64) -> (r: Option<Vec<u8>>)
    ensures
        r matches Some(s) ==> {
            &&& user_range_ok(mem@, token_root(token), va as int, s@.len() as int + 1, PTE_R)
            &&& forall|i: int|
                0 <= i < s@.len() ==> #[trigger] s@[i] == user_byte(
                    mem@,
                    token_root(token),
                    va + i,
                ) && s@[i] != 0
            &&& user_byte(mem@, token_root(token), va + s@.len()) == 0
        },
        r is None ==> exists|n: int|
            {
                &&& 0 <= n
                &&& user_range_ok(mem@, token_root(token), va as int, n, PTE_R)
                &&& forall|i: int|
                    0 <= i < n ==> #[trigger] user_byte(mem@, token_root(token), va + i) != 0
                &&& user_slot(mem@, token_root(token), va + n, PTE_R) is None
            },
{
    let mut out: Vec<u8> = Vec::new();
    let mut i: u64 = 0;
    while i < VA_LIMIT
        invariant
            i <= VA_LIMIT,
            out@.len() == i,
            user_range_ok(mem@, token_root(token), va as int, i as int, PTE_R),
            forall|j: int|
                0 <= j < i ==> #[trigger] out@[j] == user_byte(mem@, token_root(token), va + j)
                    && out@[j] != 0,
        decreases VA_LIMIT - i,
    {
        if va > u64::MAX - i {
            proof {
                assert(user_slot(mem@, token_root(token), va + i, PTE_R) is None);
                assert(forall|j: int|
                    0 <= j < i ==> out@[j] == #[trigger] user_byte(
                        mem@,
                        token_root(token),
                        va + j,
                    ));
            }
            return None;
        }
        match translate_user(mem, token, va + i, PTE_R) {
            Some((p, o)) => {
                let b: u8 = mem.read_byte(p, o);
                if b == 0 {
                    return Some(out);
                }
                out.push(b);
            },
            None => {
                proof {
                    assert(forall|j: int|
                        0 <= j < i ==> out@[j] == #[trigger] user_byte(
                            mem@,
                            token_root(token),
                            va + j,
                        ));
                }
                return None;
            },
        }
        i = i + 1;
    }
    proof {
        assert(forall|j: int|
            0 <= j < i ==> out@[j] == #[trigger] user_byte(mem@, token_root(token), va + j));
        assert(user_slot(mem@, token_root(token), va + i, PTE_R) is None);
    }
    None
}

/// Whether every one of the `len` bytes from `va` on can be written in user
/// mode, in the address space that `token` names.
pub fn user_writable(mem: &PhysMemory, token: u64, va: u64, len: usize) -> (r: bool)
    ensures
        r == user_range_ok(mem@, token_root(token), va as int, len as int, PTE_W),
{
    let mut i: usize = 0;
    while i < len
        invariant
            i <= len,
            forall|j: int|
                0 <= j < i ==> (#[trigger] user_slot(mem@, token_root(token), va + j, PTE_W))
                    is Some,
        decreases len - i,
    {
        if va > u64::MAX - i as u64 {
            proof {
                assert(user_slot(mem@, token_root(token), va + i, PTE_W) is None);
            }
            return false;
        }
        if translate_user(mem, token, va + i as u64, PTE_W).is_none() {
            return false;
        }
        i = i + 1;
    }
    true
}

/// What writing `data` at the user address `va` does to the memory: byte
/// `i` of `data` lies where address `va + i` points, and no other byte of
/// the memory changed.
pub open spec fn user_written(
    m0: Seq<Seq<u64>>,
    m1: Seq<Seq<u64>>,
    root: int,
    va: int,
    data: Seq<u8>,
) -> bool {
    &&& m1.len() == m0.len()
    &&& forall|i: int|
        0 <= i < data.len() ==> frame_bytes(
            m1[(user_slot(m0, root, va + i, PTE_W)->0).0],
        )[(user_slot(m0, root, va + i, PTE_W)->0).1] == #[trigger] data[i]
    &&& forall|p: int, o: int|
        0 <= p < m0.len() && 0 <= o < 4096 && !(exists|i: int|
            0 <= i < data.len() && #[trigger] user_slot(m0, root, va + i, PTE_W) == Some((p, o)))
            ==> #[trigger] frame_bytes(m1[p])[o] == frame_bytes(m0[p])[o]
    &&& forall|p: int|
        0 <= p < m0.len() && !(exists|i: int|
            0 <= i < data.len() && ((#[trigger] user_slot(m0, root, va + i, PTE_W))->0).0 == p)
            ==> #[trigger] m1[p] == m0[p]
}

/// In an address space of framed areas, two different user addresses lie
/// at different places of the memory.
pub proof fn lemma_user_slots_differ(ms: MemorySet, m: Seq<Seq<u64>>, va1: int, va2: int, need: u8)
    requires
        ms.wf(m),
        framed_only(ms),
        va1 != va2,
        user_slot(m, ms.page_table.root(), va1, need) is Some,
        user_slot(m, ms.page_table.root(), va2, need) is Some,
    ensures
        user_slot(m, ms.page_table.root(), va1, need) != user_slot(
            m,
            ms.page_table.root(),
            va2,
            need,
        ),
{
    let root = ms.page_table.root();
    let v1 = va1 / 4096;
    let v2 = va2 / 4096;
    if v1 != v2 {
        ms.lemma_wf_facts(m);
        lemma_user_slot_owned(ms, m, va1, need);
        lemma_user_slot_owned(ms, m, va2, need);
        if v1 == TRAMPOLINE_VPN || v2 == TRAMPOLINE_VPN {
            let t = (ms.trampoline->0).0 as int;
            lemma_pte_bits(t, PTE_R | PTE_X | PTE_V);
            let f: u8 = PTE_R | PTE_X | PTE_V;
            assert(f & (need | PTE_U) != (need | PTE_U)) by (bit_vector)
                requires
                    f == 2u8 | 8u8 | 1u8,
            ;
            assert(false);
        }
        assert(ms.covered(v1));
        assert(ms.covered(v2));
        let a1 = choose|a: int| 0 <= a < ms.areas@.len() && (#[trigger] ms.areas@[a]).has_page(v1);
        let a2 = choose|a: int| 0 <= a < ms.areas@.len() && (#[trigger] ms.areas@[a]).has_page(v2);
        assert(ms.areas@[a1].mapped());
        assert(ms.areas@[a2].mapped());
        assert(lookup(m, root, v1) == Some(ms.areas@[a1].entry_of(v1)));
        assert(lookup(m, root, v2) == Some(ms.areas@[a2].entry_of(v2)));
        let k1 = v1 - ms.areas@[a1].start.0;
        let k2 = v2 - ms.areas@[a2].start.0;
        let f1 = ms.data_frame(a1, k1);
        let f2 = ms.data_frame(a2, k2);
        assert(ms.owns_data(f1));
        assert(ms.owns_data(f2));
        lemma_pte_bits(f1, ms.areas@[a1].map_perm.bits | PTE_V);
        lemma_pte_bits(f2, ms.areas@[a2].map_perm.bits | PTE_V);
        if a1 == a2 {
            assert(k1 != k2);
        }
        ms.lemma_distinct(m, a1, k1, a2, k2);
    }
}

/// Writes `data` at the user address `va`.  Refused, with nothing written,
/// when one of the bytes cannot be written in user mode.
pub fn write_user_bytes(ms: &MemorySet, mem: &mut PhysMemory, va: u64, data: &[u8]) -> (r: bool)
    requires
        ms.wf(old(mem)@),
        framed_only(*ms),
    ensures
        ms.wf(final(mem)@),
        r == user_range_ok(old(mem)@, ms.page_table.root(), va as int, data@.len() as int, PTE_W),
        !r ==> final(mem)@ == old(mem)@,
        r ==> user_written(old(mem)@, final(mem)@, ms.page_table.root(), va as int, data@),
        forall|v: int| #[trigger]
            lookup(final(mem)@, ms.page_table.root(), v) == lookup(
                old(mem)@,
                ms.page_table.root(),
                v,
            ),
        forall|p: int|
            0 <= p < old(mem)@.len() && !ms.owns_data(p) ==> (#[trigger] final(mem)@[p]) == old(mem)@[p],
        final(mem)@.len() == old(mem)@.len(),
{
    proof {
        lemma_token_root(*ms, mem@);
    }
    let token: u64 = ms.token();
    if !user_writable(mem, token, va, data.len()) {
        return false;
    }
    let ghost m0 = mem@;
    let ghost root = ms.page_table.root();
    let mut i: usize = 0;
    while i < data.len()
        invariant
            i <= data@.len(),
            ms.wf(m0),
            ms.wf(mem@),
            framed_only(*ms),
            root == ms.page_table.root(),
            root == token_root(token),
            mem@.len() == m0.len(),
            user_range_ok(m0, root, va as int, data@.len() as int, PTE_W),
            forall|v: int| #[trigger] lookup(mem@, root, v) == lookup(m0, root, v),
            forall|p: int| 0 <= p < m0.len() && !ms.owns_data(p) ==> (#[trigger] mem@[p]) == m0[p],
            forall|j: int|
                0 <= j < i ==> frame_bytes(
                    mem@[(user_slot(m0, root, va + j, PTE_W)->0).0],
                )[(user_slot(m0, root, va + j, PTE_W)->0).1] == #[trigger] data@[j],
            forall|p: int, o: int|
                0 <= p < m0.len() && 0 <= o < 4096 && !(exists|j: int|
                    0 <= j < i && #[trigger] user_slot(m0, root, va + j, PTE_W) == Some((p, o)))
                    ==> #[trigger] frame_bytes(mem@[p])[o] == frame_bytes(m0[p])[o],
            forall|p: int|
                0 <= p < m0.len() && !(exists|j: int|
                    0 <= j < i && ((#[trigger] user_slot(m0, root, va + j, PTE_W))->0).0 == p)
                    ==> #[trigger] mem@[p] == m0[p],
        decreases data@.len() - i,
    {
        let ghost m1 = mem@;
        proof {
            assert(user_slot(m0, root, va + i, PTE_W) is Some);
            assert(lookup(m1, root, (va + i) / 4096) == lookup(m0, root, (va + i) / 4096));
        }
        let slot = translate_user(mem, token, va + i as u64, PTE_W);
        match slot {
            Some((p, o)) => {
                proof {
                    lemma_user_slot_owned(*ms, m0, va + i, PTE_W);
                }
                mem.write_byte(p, o, data[i]);
                proof {
                    let m2 = mem@;
                    crate::mm::spaces::lemma_write_keeps(*ms, m1, m2, p.0 as int);
                    assert forall|j: int| 0 <= j < i + 1 implies frame_bytes(
                        m2[(user_slot(m0, root, va + j, PTE_W)->0).0],
                    )[(user_slot(m0, root, va + j, PTE_W)->0).1] == #[trigger] data@[j] by {
                        if j < i {
                            assert(user_slot(m0, root, va + j, PTE_W) is Some);
                            lemma_user_slots_differ(*ms, m0, va + j, va + i, PTE_W);
                            lemma_user_slot_owned(*ms, m0, va + j, PTE_W);
                        }
                    }
                    assert forall|q: int, o2: int|
                        0 <= q < m0.len() && 0 <= o2 < 4096 && !(exists|j: int|
                            0 <= j < i + 1 && #[trigger] user_slot(m0, root, va + j, PTE_W)
                                == Some((q, o2))) implies #[trigger] frame_bytes(m2[q])[o2]
                        == frame_bytes(m0[q])[o2] by {
                        assert(user_slot(m0, root, va + i, PTE_W) != Some((q, o2)));
                        assert(!(exists|j: int|
                            0 <= j < i && #[trigger] user_slot(m0, root, va + j, PTE_W) == Some(
                                (q, o2),
                            )));
                    }
                    assert forall|q: int|
                        0 <= q < m0.len() && !(exists|j: int|
                            0 <= j < i + 1 && ((#[trigger] user_slot(m0, root, va + j, PTE_W))->0).0
                                == q) implies #[trigger] m2[q] == m0[q] by {
                        assert((user_slot(m0, root, va + i, PTE_W)->0).0 != q);
                        assert(!(exists|j: int|
                            0 <= j < i && ((#[trigger] user_slot(m0, root, va + j, PTE_W))->0).0
                                == q));
                    }
                }
            },
            None => {
                proof {
                    assert(false);
                }
            },
        }
        i = i + 1;
    }
    true
}

} // verus!
