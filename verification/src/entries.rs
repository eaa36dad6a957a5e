//! Page-table entries: a 64-bit word holding a valid bit, permission flags
//! and a 44-bit physical page number at bits 10..54.
use vstd::prelude::*;

verus! {

pub const FLAG_VALID: u64 = 0x01;

pub const FLAG_READ: u64 = 0x02;

pub const FLAG_WRITE: u64 = 0x04;

pub const FLAG_EXECUTE: u64 = 0x08;

pub const FLAG_USER_ACCESSIBLE: u64 = 0x10;

pub const FLAG_GLOBAL: u64 = 0x20;

pub const FLAG_ACCESSED: u64 = 0x40;

pub const FLAG_DIRTY: u64 = 0x80;

/// Mask of the PPN field once shifted down by 10.
pub const ENTRY_ADDR_MASK: u64 = 0xfff_ffff_ffff;

/// A set of permission flags for a page-table entry.
#[derive(Debug, Clone, Copy, PartialEq, Eq, Structural)]
pub struct EntryFlags(pub u64);

impl EntryFlags {
    pub fn new(bits: u64) -> (r: Self)
        ensures
            r.0 == bits,
    {
        EntryFlags(bits)
    }

    pub fn bits(&self) -> (r: u64)
        ensures
            r == self.0,
    {
        self.0
    }

    /// All bits of `other` are present in `self`.
    pub fn contains(&self, other: EntryFlags) -> (r: bool)
        ensures
            r == (self.0 & other.0 == other.0),
    {
        self.0 & other.0 == other.0
    }

    /// The union of two flag sets.
    pub fn union(&self, other: EntryFlags) -> (r: EntryFlags)
        ensures
            r.0 == self.0 | other.0,
    {
        EntryFlags(self.0 | other.0)
    }
}

/// An entry is valid when bit 0 is set.
pub open spec fn e_valid(bits: u64) -> bool {
    bits & FLAG_VALID == FLAG_VALID
}

/// A valid entry is a leaf when any of R, W, X is set; a valid entry
/// without them points to the next-level table.
pub open spec fn e_leaf(bits: u64) -> bool {
    e_valid(bits) && bits & (FLAG_READ | FLAG_WRITE | FLAG_EXECUTE) != 0
}

/// The physical page number held in bits 10..54.
pub open spec fn e_ppn(bits: u64) -> u64 {
    (bits >> 10) & ENTRY_ADDR_MASK
}

/// The entry that maps physical address `addr` (4 KiB-aligned contribution
/// only) with flag set `flags` and the valid bit.
pub open spec fn leaf_bits(addr: u64, flags: u64) -> u64 {
    (((addr >> 12) & ENTRY_ADDR_MASK) << 10) | flags | FLAG_VALID
}

/// The entry that points to the table whose frame has physical page
/// number `ppn`.
pub open spec fn pointer_bits(ppn: u64) -> u64 {
    ((ppn & ENTRY_ADDR_MASK) << 10) | FLAG_VALID
}

/// The zero entry is invalid.
pub proof fn lemma_invalid_zero()
    ensures
        !e_valid(0),
{
    assert(0u64 & 0x1 != 0x1) by (bit_vector);
}

/// A pointer entry is valid, is no leaf, and holds exactly the page
/// number it was built from.
pub proof fn lemma_pointer_bits_facts(ppn: u64)
    requires
        ppn <= 0xfff_ffff_ffff,
    ensures
        e_valid(pointer_bits(ppn)),
        !e_leaf(pointer_bits(ppn)),
        e_ppn(pointer_bits(ppn)) == ppn,
{
    assert((((ppn & 0xfff_ffff_ffffu64) << 10) | 0x1) & 0x1 == 0x1 && (((ppn & 0xfff_ffff_ffffu64)
        << 10) | 0x1) & 0xe == 0 && ((((ppn & 0xfff_ffff_ffffu64) << 10) | 0x1) >> 10)
        & 0xfff_ffff_ffff == ppn) by (bit_vector)
        requires
            ppn <= 0xfff_ffff_ffff,
    ;
    assert(FLAG_READ | FLAG_WRITE | FLAG_EXECUTE == 0xe) by (bit_vector);
}

/// A leaf entry built from an address below 2^56 and a flag set with at
/// least one of R, W, X keeps the address's page number, the flags, and
/// the valid bit.
pub proof fn lemma_leaf_bits_facts(addr: u64, flags: u64)
    requires
        addr < 0x100_0000_0000_0000,
        flags <= 0x3ff,
        flags & (FLAG_READ | FLAG_WRITE | FLAG_EXECUTE) != 0,
    ensures
        e_valid(leaf_bits(addr, flags)),
        e_leaf(leaf_bits(addr, flags)),
        e_ppn(leaf_bits(addr, flags)) == addr >> 12,
        leaf_bits(addr, flags) & 0x3fe == flags & 0x3fe,
{
    assert(((((addr >> 12) & 0xfff_ffff_ffffu64) << 10) | flags | 0x1) & 0x1 == 0x1 && ((((addr
        >> 12) & 0xfff_ffff_ffffu64) << 10) | flags | 0x1) & 0xe == flags & 0xe && (((((addr >> 12)
        & 0xfff_ffff_ffffu64) << 10) | flags | 0x1) >> 10) & 0xfff_ffff_ffff == addr >> 12 && ((((
    addr >> 12) & 0xfff_ffff_ffffu64) << 10) | flags | 0x1) & 0x3fe == flags & 0x3fe)
        by (bit_vector)
        requires
            addr < 0x100_0000_0000_0000 && flags <= 0x3ff,
    ;
    assert(FLAG_READ | FLAG_WRITE | FLAG_EXECUTE == 0xe) by (bit_vector);
}

/// One 64-bit page-table entry.
#[derive(Debug, Clone, Copy, PartialEq, Eq, Structural)]
pub struct Entry(pub u64);

impl Entry {
    pub fn new(bits: u64) -> (r: Self)
        ensures
            r.0 == bits,
    {
        Entry(bits)
    }

    pub fn bits(&self) -> (r: u64)
        ensures
            r == self.0,
    {
        self.0
    }

    pub fn add_flag(&mut self, flag: EntryFlags)
        ensures
            final(self).0 == old(self).0 | flag.0,
    {
        self.0 = self.0 | flag.0;
    }

    /// True when the entry shares any bit with `flag`.
    pub fn has_flag(&self, flag: EntryFlags) -> (r: bool)
        ensures
            r == (self.0 & flag.0 != 0),
    {
        self.0 & flag.0 > 0
    }

    /// The physical address of the frame this entry points to.
    pub fn addr(&self) -> (r: u64)
        ensures
            r == e_ppn(self.0) << 12,
    {
        ((self.0 >> 10) & ENTRY_ADDR_MASK) << 12
    }

    /// Install the PPN of physical address `addr` into the entry,
    /// keeping the low flag bits.
    pub fn set_addr(&mut self, addr: u64)
        ensures
            final(self).0 == (old(self).0 & 0x3ff) | (((addr >> 12) & ENTRY_ADDR_MASK) << 10),
    {
        proof {
            let a = addr;
            assert((((a >> 12) & 0xfff_ffff_ffffu64) << 10) <= 0xffff_ffff_ffff_fc00u64)
                by (bit_vector);
        }
        self.0 = (self.0 & 0x3ff) | (((addr >> 12) & ENTRY_ADDR_MASK) << 10);
    }
}

} // verus!
