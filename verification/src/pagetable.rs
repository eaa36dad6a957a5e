//! Page tables and the bump allocator that hands out fresh table frames.
use vstd::prelude::*;
use crate::addressing::{PhyscialAddress, Ppn};
use crate::entries::Entry;

verus! {

/// One page table: 512 entries, living in the 4 KiB frame whose physical
/// page number is `frame_ppn`.
#[derive(Debug)]
pub struct PageTable {
    pub frame_ppn: u64,
    pub entries: Vec<Entry>,
}

impl PageTable {
    /// 512 entries, as the hardware walk assumes.
    pub open spec fn wf(self) -> bool {
        self.entries.len() == 512
    }

    /// The bits of the entry at `slot`.
    pub open spec fn bits_at(self, slot: int) -> u64 {
        self.entries@[slot].0
    }

    /// All entries are zero, so every slot is invalid.
    pub open spec fn zeroed(self) -> bool {
        forall|s: int| 0 <= s < self.entries.len() ==> self.bits_at(s) == 0
    }

    /// The physical page number of the frame holding this table.
    pub fn ppn(&self) -> (r: Ppn)
        ensures
            r.0 == self.frame_ppn,
    {
        Ppn(self.frame_ppn)
    }

    pub fn entry(&self, slot: usize) -> (r: Entry)
        requires
            slot < self.entries.len(),
        ensures
            r.0 == self.bits_at(slot as int),
    {
        self.entries[slot]
    }

    pub fn set_entry(&mut self, slot: usize, entry: Entry)
        requires
            slot < old(self).entries.len(),
        ensures
            final(self).entries@ == old(self).entries@.update(slot as int, entry),
            final(self).frame_ppn == old(self).frame_ppn,
    {
        self.entries.set(slot, entry);
    }
}

/// A bump allocator over a run of physical frames starting at `base_ppn`:
/// the `n`-th table allocated lives in frame `base_ppn + n`, and every
/// fresh table comes back zeroed.
#[derive(Debug, Clone, Copy, PartialEq, Eq, Structural)]
pub struct PageTableAlloc {
    pub base_ppn: u64,
    pub pages_used: usize,
}

impl PageTableAlloc {
    pub fn new(base: PhyscialAddress) -> (r: Self)
        ensures
            r.base_ppn == base.0 >> 12,
            r.pages_used == 0,
    {
        PageTableAlloc { base_ppn: base.0 >> 12, pages_used: 0 }
    }

    /// Hand out the next frame as a freshly zeroed page table.
    /// Zeroing is mandatory: downstream code assumes entries default
    /// to invalid.
    pub fn allocate(&mut self) -> (r: PageTable)
        requires
            old(self).pages_used < usize::MAX,
            old(self).base_ppn + old(self).pages_used <= 0xfff_ffff_ffff,
        ensures
            final(self).base_ppn == old(self).base_ppn,
            final(self).pages_used == old(self).pages_used + 1,
            r.wf(),
            r.zeroed(),
            r.frame_ppn == old(self).base_ppn + old(self).pages_used,
    {
        let frame_ppn: u64 = self.base_ppn + (self.pages_used as u64);
        self.pages_used = self.pages_used + 1;
        let mut entries: Vec<Entry> = Vec::new();
        let mut i: usize = 0;
        while i < 512
            invariant
                i <= 512,
                entries.len() == i,
                forall|s: int| 0 <= s < i ==> entries@[s].0 == 0,
            decreases 512 - i,
        {
            entries.push(Entry(0));
            i = i + 1;
        }
        PageTable { frame_ppn, entries }
    }
}

} // verus!
