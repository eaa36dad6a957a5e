//! Physical and virtual addresses and their Sv39/Sv48/Sv57 bit fields.
use vstd::prelude::*;

verus! {

/// A physical address: a plain 64-bit value.
#[derive(Debug, Clone, Copy, PartialEq, Eq, Structural)]
pub struct PhyscialAddress(pub u64);

/// A virtual address: a plain 64-bit value.
#[derive(Debug, Clone, Copy, PartialEq, Eq, Structural)]
pub struct VirtualAddress(pub u64);

/// A physical page number: an address with the 12 offset bits removed.
#[derive(Debug, Clone, Copy, PartialEq, Eq, Structural)]
pub struct Ppn(pub u64);

impl PhyscialAddress {
    pub fn new(addr: u64) -> (r: Self)
        ensures
            r.0 == addr,
    {
        PhyscialAddress(addr)
    }

    pub fn as_u64(&self) -> (r: u64)
        ensures
            r == self.0,
    {
        self.0
    }

    /// The same numeric value seen as a virtual address (the kernel is
    /// identity-mapped, so no shift is applied).
    pub fn to_virt(&self) -> (r: VirtualAddress)
        ensures
            r.0 == self.0,
    {
        VirtualAddress(self.0)
    }

    /// Split into the page offset and the five PPN groups.
    pub fn sections(&self) -> (r: PhysSections)
        ensures
            r.page_offset == self.0 & 0xfff,
            r.ppn0 == (self.0 >> 12) & 0x1ff,
            r.ppn1 == (self.0 >> 21) & 0x1ff,
            r.ppn2 == (self.0 >> 30) & 0x1ff,
            r.ppn3 == (self.0 >> 39) & 0x1ff,
            r.ppn4 == (self.0 >> 48) & 0xff,
    {
        let addr = self.0;
        PhysSections {
            page_offset: addr & 0xfff,
            ppn0: (addr >> 12) & 0x1ff,
            ppn1: (addr >> 21) & 0x1ff,
            ppn2: (addr >> 30) & 0x1ff,
            ppn3: (addr >> 39) & 0x1ff,
            ppn4: (addr >> 48) & 0xff,
        }
    }
}

/// The bit fields of a physical address.
#[derive(Debug, Clone, Copy, PartialEq, Eq, Structural)]
pub struct PhysSections {
    pub page_offset: u64,
    pub ppn0: u64,
    pub ppn1: u64,
    pub ppn2: u64,
    pub ppn3: u64,
    pub ppn4: u64,
}

impl Ppn {
    pub fn from_phys(addr: PhyscialAddress) -> (r: Self)
        ensures
            r.0 == addr.0 >> 12,
    {
        Ppn(addr.0 >> 12)
    }

    pub fn as_u64(&self) -> (r: u64)
        ensures
            r == self.0,
    {
        self.0
    }
}

/// The virtual page number of `va` at walk level `level`:
/// nine bits starting at bit `12 + 9 * level`.
pub open spec fn spec_vpn(va: u64, level: nat) -> u64 {
    (va >> (12 + 9 * level)) & 0x1ff
}

impl VirtualAddress {
    pub fn new(addr: u64) -> (r: Self)
        ensures
            r.0 == addr,
    {
        VirtualAddress(addr)
    }

    pub fn to_phys(&self) -> (r: PhyscialAddress)
        ensures
            r.0 == self.0,
    {
        PhyscialAddress(self.0)
    }

    /// Split into the page offset and the five VPN groups.
    pub fn sections(&self) -> (r: VirtSections)
        ensures
            r.page_offset == self.0 & 0xfff,
            r.vpn0 == spec_vpn(self.0, 0),
            r.vpn1 == spec_vpn(self.0, 1),
            r.vpn2 == spec_vpn(self.0, 2),
            r.vpn3 == spec_vpn(self.0, 3),
            r.vpn4 == spec_vpn(self.0, 4),
    {
        let addr = self.0;
        VirtSections {
            page_offset: addr & 0xfff,
            vpn0: (addr >> 12) & 0x1ff,
            vpn1: (addr >> 21) & 0x1ff,
            vpn2: (addr >> 30) & 0x1ff,
            vpn3: (addr >> 39) & 0x1ff,
            vpn4: (addr >> 48) & 0x1ff,
        }
    }
}

/// The bit fields of a virtual address.
#[derive(Debug, Clone, Copy, PartialEq, Eq, Structural)]
pub struct VirtSections {
    pub page_offset: u64,
    pub vpn0: u64,
    pub vpn1: u64,
    pub vpn2: u64,
    pub vpn3: u64,
    pub vpn4: u64,
}

impl VirtSections {
    /// Reassemble the address from its fields. For addresses below
    /// 2^57 this inverts `VirtualAddress::sections`.
    pub fn address(&self) -> (r: VirtualAddress)
        requires
            self.page_offset < 0x1000,
            self.vpn0 < 0x200,
            self.vpn1 < 0x200,
            self.vpn2 < 0x200,
            self.vpn3 < 0x200,
            self.vpn4 < 0x200,
        ensures
            r.0 == self.page_offset + (self.vpn0 << 12) + (self.vpn1 << 21) + (self.vpn2 << 30)
                + (self.vpn3 << 39) + (self.vpn4 << 48),
    {
        proof {
            let (a, b, c, d, e) = (self.vpn0, self.vpn1, self.vpn2, self.vpn3, self.vpn4);
            assert((a << 12) < 0x20_0000 && (b << 21) < 0x4000_0000 && (c << 30) < 0x80_0000_0000
                && (d << 39) < 0x1_0000_0000_0000 && (e << 48) < 0x200_0000_0000_0000)
                by (bit_vector)
                requires
                    a < 0x200 && b < 0x200 && c < 0x200 && d < 0x200 && e < 0x200,
            ;
        }
        let mut address: u64 = self.page_offset;
        address = address + (self.vpn0 << 12);
        address = address + (self.vpn1 << 21);
        address = address + (self.vpn2 << 30);
        address = address + (self.vpn3 << 39);
        address = address + (self.vpn4 << 48);
        VirtualAddress(address)
    }

    /// The field at walk position `idx`, counted from the top:
    /// 0 is `vpn4`, 4 is `vpn0`; anything else is the page offset.
    pub fn index(&self, idx: usize) -> (r: u64)
        ensures
            r == self.spec_index_from_top(idx as int),
    {
        match idx {
            0 => self.vpn4,
            1 => self.vpn3,
            2 => self.vpn2,
            3 => self.vpn1,
            4 => self.vpn0,
            _ => self.page_offset,
        }
    }

    pub open spec fn spec_index_from_top(&self, idx: int) -> u64 {
        if idx == 0 {
            self.vpn4
        } else if idx == 1 {
            self.vpn3
        } else if idx == 2 {
            self.vpn2
        } else if idx == 3 {
            self.vpn1
        } else if idx == 4 {
            self.vpn0
        } else {
            self.page_offset
        }
    }
}

/// Splitting and reassembling a virtual address below 2^57 is the identity.
pub proof fn lemma_sections_round_trip(addr: u64)
    requires
        addr < 0x200_0000_0000_0000,
    ensures
        (addr & 0xfff) + (((addr >> 12) & 0x1ff) << 12) + (((addr >> 21) & 0x1ff) << 21) + (((addr
            >> 30) & 0x1ff) << 30) + (((addr >> 39) & 0x1ff) << 39) + (((addr >> 48) & 0x1ff)
            << 48) == addr,
{
    assert((addr & 0xfff) + (((addr >> 12) & 0x1ff) << 12) + (((addr >> 21) & 0x1ff) << 21) + (((
    addr >> 30) & 0x1ff) << 30) + (((addr >> 39) & 0x1ff) << 39) + (((addr >> 48) & 0x1ff) << 48)
        == addr) by (bit_vector)
        requires
            addr < 0x200_0000_0000_0000,
    ;
}

} // verus!
