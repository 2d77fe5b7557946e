//! Strong types for addresses and page numbers, with checked conversions.

use vstd::prelude::*;
use crate::config::{PAGE_SIZE, PA_LIMIT, PPN_LIMIT, PT_FANOUT, VA_LIMIT, VPN_LIMIT};

verus! {

/// A physical byte address (56 bits).
#[derive(Copy, Clone, Debug, PartialEq, Eq, Structural)]
pub struct PhysAddr(pub u64);

/// A virtual byte address (39 bits, Sv39).
#[derive(Copy, Clone, Debug, PartialEq, Eq, Structural)]
pub struct VirtAddr(pub u64);

/// A physical page number (44 bits).
#[derive(Copy, Clone, Debug, PartialEq, Eq, Structural)]
pub struct PhysPageNum(pub u64);

/// A virtual page number (27 bits).
#[derive(Copy, Clone, Debug, PartialEq, Eq, Structural)]
pub struct VirtPageNum(pub u64);

/// Index of `vpn` in the page-table node of `level` (0 is the root).
pub open spec fn vpn_index(vpn: int, level: int) -> int {
    if level == 0 {
        (vpn / 262144) % 512
    } else if level == 1 {
        (vpn / 512) % 512
    } else {
        vpn % 512
    }
}

impl PhysAddr {
    /// The address that the low 56 bits of `v` name.
    pub fn new(v: u64) -> (r: Self)
        ensures
            r.0 == v % PA_LIMIT,
    {
        PhysAddr(v % PA_LIMIT)
    }

    /// Number of the page that holds this address.
    pub fn floor(&self) -> (r: PhysPageNum)
        ensures
            r.0 == self.0 / PAGE_SIZE,
    {
        PhysPageNum(self.0 / PAGE_SIZE)
    }

    /// Number of the first page that starts at or after this address.
    pub fn ceil(&self) -> (r: PhysPageNum)
        ensures
            r.0 == (self.0 + PAGE_SIZE - 1) / (PAGE_SIZE as int),
    {
        if self.0 % PAGE_SIZE == 0 {
            PhysPageNum(self.0 / PAGE_SIZE)
        } else {
            PhysPageNum(self.0 / PAGE_SIZE + 1)
        }
    }

    /// Offset of this address inside its page.
    pub fn page_offset(&self) -> (r: u64)
        ensures
            r == self.0 % PAGE_SIZE,
    {
        self.0 % PAGE_SIZE
    }

    /// Whether this address is the first of a page.
    pub fn aligned(&self) -> (r: bool)
        ensures
            r == (self.0 % PAGE_SIZE == 0),
    {
        self.0 % PAGE_SIZE == 0
    }
}

impl VirtAddr {
    /// The address that the low 39 bits of `v` name.
    pub fn new(v: u64) -> (r: Self)
        ensures
            r.0 == v % VA_LIMIT,
    {
        VirtAddr(v % VA_LIMIT)
    }

    /// Number of the page that holds this address.
    pub fn floor(&self) -> (r: VirtPageNum)
        ensures
            r.0 == self.0 / PAGE_SIZE,
    {
        VirtPageNum(self.0 / PAGE_SIZE)
    }

    /// Number of the first page that starts at or after this address.
    pub fn ceil(&self) -> (r: VirtPageNum)
        ensures
            r.0 == (self.0 + PAGE_SIZE - 1) / (PAGE_SIZE as int),
    {
        if self.0 % PAGE_SIZE == 0 {
            VirtPageNum(self.0 / PAGE_SIZE)
        } else {
            VirtPageNum(self.0 / PAGE_SIZE + 1)
        }
    }

    /// Offset of this address inside its page.
    pub fn page_offset(&self) -> (r: u64)
        ensures
            r == self.0 % PAGE_SIZE,
    {
        self.0 % PAGE_SIZE
    }

    /// Whether this address is the first of a page.
    pub fn aligned(&self) -> (r: bool)
        ensures
            r == (self.0 % PAGE_SIZE == 0),
    {
        self.0 % PAGE_SIZE == 0
    }
}

impl PhysPageNum {
    /// The page number that the low 44 bits of `v` name.
    pub fn new(v: u64) -> (r: Self)
        ensures
            r.0 == v % PPN_LIMIT,
    {
        PhysPageNum(v % PPN_LIMIT)
    }

    /// Address of the first byte of the page; `None` when it does not fit in
    /// 64 bits.
    pub fn addr(&self) -> (r: Option<PhysAddr>)
        ensures
            r == (if self.0 * PAGE_SIZE <= u64::MAX {
                Some(PhysAddr((self.0 * PAGE_SIZE) as u64))
            } else {
                None
            }),
    {
        match self.0.checked_mul(PAGE_SIZE) {
            Some(a) => Some(PhysAddr(a)),
            None => None,
        }
    }
}

impl VirtPageNum {
    /// The page number that the low 27 bits of `v` name.
    pub fn new(v: u64) -> (r: Self)
        ensures
            r.0 == v % VPN_LIMIT,
    {
        VirtPageNum(v % VPN_LIMIT)
    }

    /// Whether this is a page number of the Sv39 space.
    pub open spec fn valid(&self) -> bool {
        self.0 < VPN_LIMIT
    }

    /// Address of the first byte of the page; `None` when it does not fit in
    /// 64 bits.
    pub fn addr(&self) -> (r: Option<VirtAddr>)
        ensures
            r == (if self.0 * PAGE_SIZE <= u64::MAX {
                Some(VirtAddr((self.0 * PAGE_SIZE) as u64))
            } else {
                None
            }),
    {
        match self.0.checked_mul(PAGE_SIZE) {
            Some(a) => Some(VirtAddr(a)),
            None => None,
        }
    }

    /// The three node indices of the page, root first: 9 bits each.
    pub fn indexes(&self) -> (r: [usize; 3])
        ensures
            r[0] == vpn_index(self.0 as int, 0),
            r[1] == vpn_index(self.0 as int, 1),
            r[2] == vpn_index(self.0 as int, 2),
            r[0] < 512 && r[1] < 512 && r[2] < 512,
    {
        let i2: u64 = self.0 % PT_FANOUT;
        let i1: u64 = (self.0 / PT_FANOUT) % PT_FANOUT;
        let i0: u64 = (self.0 / (PT_FANOUT * PT_FANOUT)) % PT_FANOUT;
        [i0 as usize, i1 as usize, i2 as usize]
    }
}

/// A page number is rebuilt from its three indices.
pub proof fn lemma_vpn_from_indexes(vpn: int)
    requires
        0 <= vpn < VPN_LIMIT,
    ensures
        vpn == vpn_index(vpn, 0) * 262144 + vpn_index(vpn, 1) * 512 + vpn_index(vpn, 2),
        0 <= vpn_index(vpn, 0) < 512,
        0 <= vpn_index(vpn, 1) < 512,
        0 <= vpn_index(vpn, 2) < 512,
{
}

/// Two page numbers of the Sv39 space with the same three indices are equal.
pub proof fn lemma_vpn_indexes_injective(a: int, b: int)
    requires
        0 <= a < VPN_LIMIT,
        0 <= b < VPN_LIMIT,
        vpn_index(a, 0) == vpn_index(b, 0),
        vpn_index(a, 1) == vpn_index(b, 1),
        vpn_index(a, 2) == vpn_index(b, 2),
    ensures
        a == b,
{
    lemma_vpn_from_indexes(a);
    lemma_vpn_from_indexes(b);
}

} // verus!
