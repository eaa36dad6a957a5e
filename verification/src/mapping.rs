//! The multi-level virtual-address mapper.
//!
//! Page tables live in an arena indexed by frame number: the table in
//! frame `base + i` is `tables[i]`, and a non-leaf entry holding physical
//! page number `base + j` points to `tables[j]`. `lookup` is the
//! hardware's walk over that arena, and every operation is specified
//! against it.
use vstd::prelude::*;
use crate::addressing::{PhyscialAddress, VirtualAddress, spec_vpn};
use crate::entries::{
    Entry,
    EntryFlags,
    e_valid,
    e_leaf,
    e_ppn,
    leaf_bits,
    pointer_bits,
    lemma_invalid_zero,
    lemma_pointer_bits_facts,
    lemma_leaf_bits_facts,
    FLAG_VALID,
    FLAG_READ,
    FLAG_WRITE,
    FLAG_EXECUTE,
    ENTRY_ADDR_MASK,
};
use crate::pagetable::{PageTable, PageTableAlloc};
use crate::paging::{PagingType, PageSize};

verus! {

/// Why a mapping was refused.
#[derive(Debug, Clone, Copy, PartialEq, Eq, Structural)]
pub enum MappingError {
    Unknown,
    InvalidPermissions,
    Megapage,
    Gigapage,
    UnsupportedPagingType(PagingType),
}

/// How many levels of tables the mode walks.
pub open spec fn levels_of(pt: PagingType) -> nat {
    match pt {
        PagingType::Bare => 1,
        PagingType::Sv39 => 3,
        PagingType::Sv48 => 4,
        PagingType::Sv57 => 5,
    }
}

/// The level of the root table.
pub open spec fn top_of(pt: PagingType) -> nat {
    (levels_of(pt) - 1) as nat
}

/// The level at which a leaf of this size is written.
pub open spec fn leaf_level_of(ps: PageSize) -> nat {
    match ps {
        PageSize::Small => 0,
        PageSize::Medium => 1,
        PageSize::Large => 2,
    }
}

/// Bytes covered by a leaf at `level`: 4 KiB at level 0, 512 times more
/// per level above it.
pub open spec fn page_bytes(level: nat) -> int
    decreases level,
{
    if level == 0 {
        0x1000
    } else {
        0x200 * page_bytes((level - 1) as nat)
    }
}

/// The bits of the entry at `slot` of table `ti`.
pub open spec fn entry_bits(tables: Seq<PageTable>, ti: int, slot: int) -> u64 {
    tables[ti].entries@[slot].0
}

/// The hardware walk: from table `ti` at `level`, follow `va`'s VPN
/// fields down to a leaf. Returns the leaf's bits and its level.
pub open spec fn lookup(tables: Seq<PageTable>, base: u64, ti: int, va: u64, level: nat) -> Option<
    (u64, nat),
>
    decreases level,
{
    let b = entry_bits(tables, ti, spec_vpn(va, level) as int);
    if !e_valid(b) {
        None
    } else if e_leaf(b) {
        Some((b, level))
    } else if level == 0 {
        None
    } else {
        let ci = e_ppn(b) - base;
        if 0 <= ci < tables.len() {
            lookup(tables, base, ci, va, (level - 1) as nat)
        } else {
            None
        }
    }
}

/// The level of the pre-existing leaf that blocks mapping `va` at
/// `leaf_level`, if any: the walk stops caring once it reaches the
/// level it will overwrite.
pub open spec fn conflict_level(
    tables: Seq<PageTable>,
    base: u64,
    ti: int,
    va: u64,
    level: nat,
    leaf_level: nat,
) -> Option<nat>
    decreases level,
{
    if level <= leaf_level {
        None
    } else {
        let b = entry_bits(tables, ti, spec_vpn(va, level) as int);
        if !e_valid(b) {
            None
        } else if e_leaf(b) {
            Some(level)
        } else {
            let ci = e_ppn(b) - base;
            if 0 <= ci < tables.len() {
                conflict_level(tables, base, ci, va, (level - 1) as nat, leaf_level)
            } else {
                None
            }
        }
    }
}

/// `va` and `virt` agree on every VPN field from `lo` up to `hi`.
pub open spec fn vpn_prefix_eq(va: u64, virt: u64, lo: nat, hi: nat) -> bool {
    forall|j: nat| lo <= j <= hi ==> #[trigger] spec_vpn(va, j) == spec_vpn(virt, j)
}

/// Every VPN field is below 512.
pub proof fn lemma_vpn_bound(va: u64, level: nat)
    ensures
        spec_vpn(va, level) < 512,
{
    let y = va >> (12 + 9 * level);
    assert(y & 0x1ff < 512) by (bit_vector);
}

/// The mapper: the arena of tables (rooted at `tables[0]`), the bump
/// allocator the arena grows from, and the paging mode. `owner` is the
/// proof-only record of each table's place in the tree: the level it is
/// walked at and a virtual address carrying the VPN prefix that leads
/// to it.
pub struct Mapper {
    pub tables: Vec<PageTable>,
    pub alloc: PageTableAlloc,
    pub paging_type: PagingType,
    pub owner: Ghost<Seq<(nat, u64)>>,
}

impl Mapper {
    /// The frame number of the root table.
    pub open spec fn base(self) -> u64 {
        self.alloc.base_ppn
    }

    /// How many tables the arena holds.
    pub open spec fn n(self) -> int {
        self.tables@.len() as int
    }

    pub open spec fn top(self) -> nat {
        top_of(self.paging_type)
    }

    /// The walk level of table `i`.
    pub open spec fn olv(self, i: int) -> nat {
        self.owner@[i].0
    }

    /// The VPN prefix that leads to table `i`.
    pub open spec fn opre(self, i: int) -> u64 {
        self.owner@[i].1
    }

    /// The walk consults table `i` only for addresses matching its
    /// prefix above its level.
    pub open spec fn matches(self, va: u64, i: int) -> bool {
        vpn_prefix_eq(va, self.opre(i), (self.olv(i) + 1) as nat, self.top())
    }

    pub open spec fn table_ok(self, i: int) -> bool {
        &&& self.tables@[i].entries.len() == 512
        &&& self.tables@[i].frame_ppn == self.base() + i
        &&& self.olv(i) <= self.top()
    }

    pub open spec fn entry_ok(self, i: int, s: int) -> bool {
        let b = entry_bits(self.tables@, i, s);
        &&& (e_leaf(b) ==> (b & FLAG_WRITE != 0 ==> b & FLAG_READ != 0))
        &&& (e_valid(b) && !e_leaf(b) ==> {
            let ci = e_ppn(b) - self.base();
            &&& self.olv(i) >= 1
            &&& 0 < ci < self.n()
            &&& self.olv(ci) == (self.olv(i) - 1) as nat
            &&& spec_vpn(self.opre(ci), self.olv(i)) == s as u64
            &&& vpn_prefix_eq(self.opre(ci), self.opre(i), (self.olv(i) + 1) as nat, self.top())
        })
    }

    pub open spec fn wf(self) -> bool {
        &&& 1 <= self.n()
        &&& self.owner@.len() == self.n()
        &&& self.base() + self.n() <= 0xfff_ffff_ffff
        &&& self.alloc.pages_used == self.n()
        &&& self.olv(0) == self.top()
        &&& forall|i: int| 0 <= i < self.n() ==> #[trigger] self.table_ok(i)
        &&& forall|i: int, s: int|
            0 <= i < self.n() && 0 <= s < 512 ==> #[trigger] self.entry_ok(i, s)
    }

    /// What the hardware would translate `va` to: the leaf entry's bits
    /// and the level it sits at.
    pub open spec fn translate(self, va: u64) -> Option<(u64, nat)> {
        lookup(self.tables@, self.base(), 0, va, self.top())
    }

    /// The physical address `va` translates to.
    pub open spec fn translate_addr(self, va: u64) -> Option<int> {
        match self.translate(va) {
            Some((b, l)) => Some(e_ppn(b) * 0x1000 + (va as int) % page_bytes(l)),
            None => None,
        }
    }

    /// `chain` is the list of tables the walk for `virt` passes, from
    /// the root down to a table at `lvl`.
    pub open spec fn path_ok(self, chain: Seq<int>, virt: u64, lvl: nat) -> bool {
        &&& lvl <= self.top()
        &&& chain.len() == self.top() - lvl + 1
        &&& chain[0] == 0
        &&& forall|k: int|
            0 <= k < chain.len() ==> 0 <= #[trigger] chain[k] < self.n() && self.olv(chain[k]) == (
            self.top() - k) as nat
        &&& forall|k: int|
            0 <= k < chain.len() - 1 ==> {
                let b = entry_bits(
                    self.tables@,
                    #[trigger] chain[k],
                    spec_vpn(virt, (self.top() - k) as nat) as int,
                );
                &&& e_valid(b)
                &&& !e_leaf(b)
                &&& e_ppn(b) == self.base() + chain[k + 1]
            }
    }
}

/// A walk inside an all-zero table stops at once.
proof fn lemma_lookup_zeroed(tables: Seq<PageTable>, base: u64, ti: int, va: u64, level: nat)
    requires
        0 <= ti < tables.len(),
        tables[ti].zeroed(),
        tables[ti].entries.len() == 512,
    ensures
        lookup(tables, base, ti, va, level) == None::<(u64, nat)>,
{
    lemma_vpn_bound(va, level);
    assert(tables[ti].bits_at(spec_vpn(va, level) as int) == 0);
    assert(entry_bits(tables, ti, spec_vpn(va, level) as int) == 0);
    assert(!e_valid(0)) by (bit_vector);
}

/// Appending a table to the arena changes no walk that starts inside it.
proof fn lemma_lookup_push(m: Mapper, t: PageTable, ti: int, va: u64, level: nat)
    requires
        m.wf(),
        0 <= ti < m.n(),
    ensures
        lookup(m.tables@.push(t), m.base(), ti, va, level) == lookup(
            m.tables@,
            m.base(),
            ti,
            va,
            level,
        ),
    decreases level,
{
    lemma_vpn_bound(va, level);
    let s = spec_vpn(va, level) as int;
    assert(m.table_ok(ti));
    assert(m.entry_ok(ti, s));
    let b = entry_bits(m.tables@, ti, s);
    assert(entry_bits(m.tables@.push(t), ti, s) == b);
    if e_valid(b) && !e_leaf(b) && level > 0 {
        let ci = e_ppn(b) - m.base();
        if 0 <= ci < m.n() {
            lemma_lookup_push(m, t, ci, va, (level - 1) as nat);
        }
    }
}

/// Changing the single slot `(p, s)` leaves every walk alone whose
/// address cannot be routed to it.
proof fn lemma_lookup_update(m: Mapper, nt: Seq<PageTable>, p: int, s: int, ti: int, va: u64)
    requires
        m.wf(),
        0 <= p < m.n(),
        0 <= s < 512,
        nt.len() == m.n(),
        forall|i: int, j: int|
            0 <= i < nt.len() && 0 <= j < 512 && !(i == p && j == s) ==> entry_bits(nt, i, j)
                == entry_bits(m.tables@, i, j),
        0 <= ti < m.n(),
        m.matches(va, ti),
        !(m.matches(va, p) && spec_vpn(va, m.olv(p)) == s as u64),
    ensures
        lookup(nt, m.base(), ti, va, m.olv(ti)) == lookup(
            m.tables@,
            m.base(),
            ti,
            va,
            m.olv(ti),
        ),
    decreases m.olv(ti),
{
    let level = m.olv(ti);
    lemma_vpn_bound(va, level);
    let slot = spec_vpn(va, level) as int;
    if ti == p && slot == s {
        assert(false);
    }
    assert(m.entry_ok(ti, slot));
    let b = entry_bits(m.tables@, ti, slot);
    assert(entry_bits(nt, ti, slot) == b);
    if e_valid(b) && !e_leaf(b) && level > 0 {
        let ci = e_ppn(b) - m.base();
        // the walk stays on addresses matching the child's prefix
        assert(m.matches(va, ci)) by {
            assert forall|j: nat| m.olv(ci) + 1 <= j <= m.top() implies #[trigger] spec_vpn(
                va,
                j,
            ) == spec_vpn(m.opre(ci), j) by {
                if j == level {
                    assert(spec_vpn(m.opre(ci), level) == slot as u64);
                    assert(spec_vpn(va, level) == slot as u64);
                } else {
                    assert(spec_vpn(m.opre(ci), j) == spec_vpn(m.opre(ti), j));
                    assert(spec_vpn(va, j) == spec_vpn(m.opre(ti), j));
                }
            }
        }
        lemma_lookup_update(m, nt, p, s, ci, va);
    }
}

/// Turning the invalid slot `(p, s)` into a pointer to the all-zero
/// table `fi` changes no walk's outcome: addresses routed to the slot
/// translated to nothing before and still do.
proof fn lemma_lookup_install(m: Mapper, nt: Seq<PageTable>, p: int, s: int, fi: int, ti: int, va: u64)
    requires
        m.wf(),
        0 <= p < m.n(),
        0 <= s < 512,
        m.olv(p) >= 1,
        !e_valid(entry_bits(m.tables@, p, s)),
        nt.len() == m.n(),
        forall|i: int, j: int|
            0 <= i < nt.len() && 0 <= j < 512 && !(i == p && j == s) ==> entry_bits(nt, i, j)
                == entry_bits(m.tables@, i, j),
        forall|i: int| 0 <= i < nt.len() ==> (#[trigger] nt[i]).entries.len() == 512,
        0 <= fi < m.n(),
        fi != p,
        m.tables@[fi].zeroed(),
        e_valid(entry_bits(nt, p, s)),
        !e_leaf(entry_bits(nt, p, s)),
        e_ppn(entry_bits(nt, p, s)) == m.base() + fi,
        0 <= ti < m.n(),
        m.matches(va, ti),
    ensures
        lookup(nt, m.base(), ti, va, m.olv(ti)) == lookup(
            m.tables@,
            m.base(),
            ti,
            va,
            m.olv(ti),
        ),
    decreases m.olv(ti),
{
    let level = m.olv(ti);
    lemma_vpn_bound(va, level);
    let slot = spec_vpn(va, level) as int;
    assert(m.entry_ok(ti, slot));
    assert(m.table_ok(ti));
    let b = entry_bits(m.tables@, ti, slot);
    if ti == p && slot == s {
        // before: invalid, so no translation; after: a pointer into a
        // table with nothing in it
        assert(lookup(m.tables@, m.base(), ti, va, level) == None::<(u64, nat)>);
        assert(nt[fi].zeroed()) by {
            let ft = nt[fi];
            assert(m.table_ok(fi));
            assert forall|j: int| 0 <= j < ft.entries.len() implies #[trigger] ft.bits_at(j)
                == 0 by {
                assert(m.tables@[fi].bits_at(j) == 0);
                assert(entry_bits(nt, fi, j) == entry_bits(m.tables@, fi, j));
            }
        }
        lemma_lookup_zeroed(nt, m.base(), fi, va, (level - 1) as nat);
        assert(lookup(nt, m.base(), ti, va, level) == None::<(u64, nat)>);
    } else {
        assert(entry_bits(nt, ti, slot) == b);
        if e_valid(b) && !e_leaf(b) && level > 0 {
            let ci = e_ppn(b) - m.base();
            assert(m.matches(va, ci)) by {
                assert forall|j: nat| m.olv(ci) + 1 <= j <= m.top() implies #[trigger] spec_vpn(
                    va,
                    j,
                ) == spec_vpn(m.opre(ci), j) by {
                    if j == level {
                        assert(spec_vpn(m.opre(ci), level) == slot as u64);
                        assert(spec_vpn(va, level) == slot as u64);
                    } else {
                        assert(spec_vpn(m.opre(ci), j) == spec_vpn(m.opre(ti), j));
                        assert(spec_vpn(va, j) == spec_vpn(m.opre(ti), j));
                    }
                }
            }
            lemma_lookup_install(m, nt, p, s, fi, ci, va);
        }
    }
}

/// A walk for any address sharing `virt`'s prefix follows the chain
/// of tables, so a lookup from the root equals a lookup from the
/// chain's last table.
proof fn lemma_path_lookup(m: Mapper, chain: Seq<int>, virt: u64, lvl: nat, va: u64)
    requires
        m.wf(),
        m.path_ok(chain, virt, lvl),
        vpn_prefix_eq(va, virt, (lvl + 1) as nat, m.top()),
    ensures
        lookup(m.tables@, m.base(), 0, va, m.top()) == lookup(
            m.tables@,
            m.base(),
            chain[chain.len() - 1],
            va,
            lvl,
        ),
{
    lemma_path_lookup_from(m, chain, virt, lvl, va, 0);
}

proof fn lemma_path_lookup_from(m: Mapper, chain: Seq<int>, virt: u64, lvl: nat, va: u64, k: int)
    requires
        m.wf(),
        m.path_ok(chain, virt, lvl),
        vpn_prefix_eq(va, virt, (lvl + 1) as nat, m.top()),
        0 <= k < chain.len(),
    ensures
        lookup(m.tables@, m.base(), chain[k], va, (m.top() - k) as nat) == lookup(
            m.tables@,
            m.base(),
            chain[chain.len() - 1],
            va,
            lvl,
        ),
    decreases chain.len() - k,
{
    let level = (m.top() - k) as nat;
    if k == chain.len() - 1 {
        assert(level == lvl);
    } else {
        lemma_vpn_bound(va, level);
        lemma_vpn_bound(virt, level);
        // this step of the walk reads the chain's pointer: at this level
        // va's VPN equals virt's
        assert(level >= lvl + 1);
        assert(spec_vpn(va, level) == spec_vpn(virt, level));
        let b = entry_bits(m.tables@, chain[k], spec_vpn(virt, level) as int);
        assert(e_valid(b) && !e_leaf(b) && e_ppn(b) == m.base() + chain[k + 1]);
        assert(e_ppn(b) - m.base() == chain[k + 1]);
        lemma_path_lookup_from(m, chain, virt, lvl, va, k + 1);
    }
}

/// Every leaf entry sits in a table at or below walk level `lv`.
pub open spec fn leaves_below_level(m: Mapper, lv: nat) -> bool {
    forall|i: int, s: int|
        0 <= i < m.n() && 0 <= s < 512 && e_leaf(#[trigger] entry_bits(m.tables@, i, s))
            ==> m.olv(i) <= lv
}

/// Every leaf of `m2` is either a leaf `m1` already had, unchanged and
/// at its old level, or sits at level `lv`.
pub open spec fn leaves_from(m2: Mapper, m1: Mapper, lv: nat) -> bool {
    forall|i: int, s: int|
        0 <= i < m2.n() && 0 <= s < 512 && e_leaf(#[trigger] entry_bits(m2.tables@, i, s)) ==> ((i
            < m1.n() && entry_bits(m2.tables@, i, s) == entry_bits(m1.tables@, i, s) && m2.olv(i)
            == m1.olv(i)) || m2.olv(i) == lv)
}

proof fn lemma_leaves_from_trans(m3: Mapper, m2: Mapper, m1: Mapper, lv: nat)
    requires
        leaves_from(m3, m2, lv),
        leaves_from(m2, m1, lv),
        m1.n() <= m2.n(),
    ensures
        leaves_from(m3, m1, lv),
{
    assert forall|i: int, s: int|
        0 <= i < m3.n() && 0 <= s < 512 && e_leaf(#[trigger] entry_bits(m3.tables@, i, s))
            implies ((i < m1.n() && entry_bits(m3.tables@, i, s) == entry_bits(m1.tables@, i, s)
        && m3.olv(i) == m1.olv(i)) || m3.olv(i) == lv) by {
        if i < m2.n() && entry_bits(m3.tables@, i, s) == entry_bits(m2.tables@, i, s) && m3.olv(i)
            == m2.olv(i) {
            assert(e_leaf(entry_bits(m2.tables@, i, s)));
        }
    }
}

/// With every leaf at level zero, no walk meets a blocking leaf above
/// the 4 KiB level: a small mapping can never conflict.
pub proof fn lemma_conflict_none(m: Mapper, ti: int, va: u64)
    requires
        m.wf(),
        leaves_below_level(m, 0),
        0 <= ti < m.n(),
    ensures
        conflict_level(m.tables@, m.base(), ti, va, m.olv(ti), 0) == None::<nat>,
    decreases m.olv(ti),
{
    let level = m.olv(ti);
    if level > 0 {
        lemma_vpn_bound(va, level);
        let slot = spec_vpn(va, level) as int;
        assert(m.entry_ok(ti, slot));
        let b = entry_bits(m.tables@, ti, slot);
        if e_valid(b) {
            if e_leaf(b) {
                assert(m.olv(ti) <= 0);
                assert(false);
            } else {
                let ci = e_ppn(b) - m.base();
                lemma_conflict_none(m, ci, va);
            }
        }
    }
}

/// No leaf reachable from the root allows writing without reading.
pub proof fn lemma_translated_leaves_have_read(m: Mapper, va: u64)
    requires
        m.wf(),
    ensures
        m.translate(va) matches Some((b, l)) ==> (b & FLAG_WRITE != 0 ==> b & FLAG_READ != 0),
{
    lemma_lookup_w_implies_r(m, 0, va);
}

proof fn lemma_lookup_w_implies_r(m: Mapper, ti: int, va: u64)
    requires
        m.wf(),
        0 <= ti < m.n(),
    ensures
        lookup(m.tables@, m.base(), ti, va, m.olv(ti)) matches Some((b, l)) ==> (b & FLAG_WRITE
            != 0 ==> b & FLAG_READ != 0),
    decreases m.olv(ti),
{
    let level = m.olv(ti);
    lemma_vpn_bound(va, level);
    let slot = spec_vpn(va, level) as int;
    assert(m.entry_ok(ti, slot));
    let b = entry_bits(m.tables@, ti, slot);
    if e_valid(b) && !e_leaf(b) && level > 0 {
        let ci = e_ppn(b) - m.base();
        lemma_lookup_w_implies_r(m, ci, va);
    }
}

/// Under Sv39, two addresses in the low half share all three VPN
/// fields exactly when they lie in the same 4 KiB page.
pub proof fn lemma_prefix_eq_small(va: u64, virt: u64)
    requires
        va < 0x80_0000_0000,
        virt < 0x80_0000_0000,
    ensures
        vpn_prefix_eq(va, virt, 0, 2) <==> (va >> 12 == virt >> 12),
{
    if va >> 12 == virt >> 12 {
        assert((va >> 12) & 0x1ff == (virt >> 12) & 0x1ff && (va >> 21) & 0x1ff == (virt >> 21)
            & 0x1ff && (va >> 30) & 0x1ff == (virt >> 30) & 0x1ff) by (bit_vector)
            requires
                va >> 12 == virt >> 12,
        ;
        assert forall|j: nat| 0 <= j <= 2 implies #[trigger] spec_vpn(va, j) == spec_vpn(
            virt,
            j,
        ) by {
            if j == 0 {
                assert(spec_vpn(va, 0) == (va >> 12) & 0x1ff);
                assert(spec_vpn(virt, 0) == (virt >> 12) & 0x1ff);
            } else if j == 1 {
                assert(spec_vpn(va, 1) == (va >> 21) & 0x1ff);
                assert(spec_vpn(virt, 1) == (virt >> 21) & 0x1ff);
            } else {
                assert(spec_vpn(va, 2) == (va >> 30) & 0x1ff);
                assert(spec_vpn(virt, 2) == (virt >> 30) & 0x1ff);
            }
        }
    }
    if vpn_prefix_eq(va, virt, 0, 2) {
        assert(spec_vpn(va, 0) == spec_vpn(virt, 0));
        assert(spec_vpn(va, 1) == spec_vpn(virt, 1));
        assert(spec_vpn(va, 2) == spec_vpn(virt, 2));
        assert(((va >> 12) & 0x1ff == (virt >> 12) & 0x1ff && (va >> 21) & 0x1ff == (virt >> 21)
            & 0x1ff && (va >> 30) & 0x1ff == (virt >> 30) & 0x1ff) ==> va >> 12 == virt >> 12)
            by (bit_vector)
            requires
                va < 0x80_0000_0000 && virt < 0x80_0000_0000,
        ;
    }
}

/// The walk descends from a table only to addresses matching the
/// child's prefix.
proof fn lemma_matches_child(m: Mapper, ti: int, va: u64)
    requires
        m.wf(),
        0 <= ti < m.n(),
        m.matches(va, ti),
        e_valid(entry_bits(m.tables@, ti, spec_vpn(va, m.olv(ti)) as int)),
        !e_leaf(entry_bits(m.tables@, ti, spec_vpn(va, m.olv(ti)) as int)),
    ensures
        ({
            let ci = e_ppn(entry_bits(m.tables@, ti, spec_vpn(va, m.olv(ti)) as int)) - m.base();
            &&& 0 < ci < m.n()
            &&& m.olv(ci) == (m.olv(ti) - 1) as nat
            &&& m.matches(va, ci)
        }),
{
    let level = m.olv(ti);
    lemma_vpn_bound(va, level);
    let slot = spec_vpn(va, level) as int;
    assert(m.entry_ok(ti, slot));
    let b = entry_bits(m.tables@, ti, slot);
    let ci = e_ppn(b) - m.base();
    assert forall|j: nat| m.olv(ci) + 1 <= j <= m.top() implies #[trigger] spec_vpn(va, j)
        == spec_vpn(m.opre(ci), j) by {
        if j == level {
            assert(spec_vpn(m.opre(ci), level) == slot as u64);
        } else {
            assert(spec_vpn(m.opre(ci), j) == spec_vpn(m.opre(ti), j));
            assert(spec_vpn(va, j) == spec_vpn(m.opre(ti), j));
        }
    }
}

/// Growing the arena by one fresh, zeroed, unreferenced table keeps the
/// mapper well formed.
proof fn lemma_wf_after_push(m: Mapper, m2: Mapper, lvl: nat, pre: u64)
    requires
        m.wf(),
        m2.paging_type == m.paging_type,
        m2.alloc.base_ppn == m.base(),
        m2.alloc.pages_used == m.alloc.pages_used + 1,
        m2.tables@.len() == m.n() + 1,
        forall|i: int| 0 <= i < m.n() ==> m2.tables@[i] == m.tables@[i],
        m2.tables@[m.n()].entries.len() == 512,
        m2.tables@[m.n()].zeroed(),
        m2.tables@[m.n()].frame_ppn == m.base() + m.n(),
        m2.owner@ == m.owner@.push((lvl, pre)),
        lvl <= m.top(),
        m2.base() + m2.n() <= 0xfff_ffff_ffff,
    ensures
        m2.wf(),
{
    lemma_invalid_zero();
    assert forall|i: int| 0 <= i < m2.n() implies #[trigger] m2.table_ok(i) by {
        if i < m.n() {
            assert(m.table_ok(i));
        }
    }
    assert forall|i: int, s: int| 0 <= i < m2.n() && 0 <= s < 512 implies #[trigger] m2.entry_ok(
        i,
        s,
    ) by {
        if i < m.n() {
            assert(m.entry_ok(i, s));
            assert(entry_bits(m2.tables@, i, s) == entry_bits(m.tables@, i, s));
        } else {
            assert(m2.tables@[i].bits_at(s) == 0);
            assert(entry_bits(m2.tables@, i, s) == 0);
        }
    }
}

/// Rewriting one slot keeps the mapper well formed as long as the new
/// entry itself is in order.
proof fn lemma_wf_after_update(m: Mapper, m2: Mapper, p: int, s: int)
    requires
        m.wf(),
        0 <= p < m.n(),
        0 <= s < 512,
        m2.alloc == m.alloc,
        m2.paging_type == m.paging_type,
        m2.owner == m.owner,
        m2.tables@.len() == m.n(),
        forall|i: int| 0 <= i < m.n() && i != p ==> m2.tables@[i] == m.tables@[i],
        m2.tables@[p].entries@ == m.tables@[p].entries@.update(s, m2.tables@[p].entries@[s]),
        m2.tables@[p].frame_ppn == m.tables@[p].frame_ppn,
        m2.entry_ok(p, s),
    ensures
        m2.wf(),
{
    assert forall|i: int| 0 <= i < m2.n() implies #[trigger] m2.table_ok(i) by {
        assert(m.table_ok(i));
    }
    assert forall|i: int, s2: int| 0 <= i < m2.n() && 0 <= s2 < 512 implies #[trigger] m2.entry_ok(
        i,
        s2,
    ) by {
        if !(i == p && s2 == s) {
            assert(m.entry_ok(i, s2));
            assert(m.table_ok(p));
            assert(entry_bits(m2.tables@, i, s2) == entry_bits(m.tables@, i, s2));
        }
    }
}

/// Map `va`'s VPN field at `lvl`.
fn vpn_of(va: u64, lvl: usize) -> (r: usize)
    requires
        lvl <= 4,
    ensures
        r == spec_vpn(va, lvl as nat),
        r < 512,
{
    proof {
        lemma_vpn_bound(va, lvl as nat);
    }
    let sh: u64 = 12 + 9 * (lvl as u64);
    ((va >> sh) & 0x1ff) as usize
}

impl Mapper {
    /// A mapper over a fresh root table (the allocator's first frame),
    /// with nothing mapped.
    pub fn new(root: PageTable, alloc: PageTableAlloc, paging_type: PagingType) -> (r: Mapper)
        requires
            root.wf(),
            root.zeroed(),
            alloc.pages_used == 1,
            root.frame_ppn == alloc.base_ppn,
            alloc.base_ppn + 1 <= 0xfff_ffff_ffff,
        ensures
            r.wf(),
            r.base() == alloc.base_ppn,
            r.n() == 1,
            r.paging_type == paging_type,
            r.alloc == alloc,
            r.tables@[0] == root,
            forall|va: u64| r.translate(va) == None::<(u64, nat)>,
    {
        let ghost ow: Seq<(nat, u64)> = seq![(top_of(paging_type), 0u64)];
        let mut tables: Vec<PageTable> = Vec::new();
        tables.push(root);
        let m = Mapper { tables, alloc, paging_type, owner: Ghost(ow) };
        proof {
            lemma_invalid_zero();
            assert forall|i: int, s: int| 0 <= i < m.n() && 0 <= s < 512 implies
                #[trigger] m.entry_ok(i, s) by {
                assert(m.tables@[0].bits_at(s) == 0);
            }
            assert(m.wf());
            assert forall|va: u64| m.translate(va) == None::<(u64, nat)> by {
                lemma_lookup_zeroed(m.tables@, m.base(), 0, va, m.top());
            }
        }
        m
    }
}

impl Mapper {
    /// Map `page_size` bytes of physical memory at `phys` to the
    /// virtual address `virt` with the given flags, walking the tables
    /// and installing fresh intermediate tables where the path does not
    /// exist yet.
    ///
    /// On success, every address sharing `virt`'s VPN fields down to the
    /// leaf level translates through the new leaf, and no other
    /// translation moves. Re-mapping the same page is a no-op the second
    /// time; re-mapping with other flags rewrites the leaf without
    /// allocating. On any error the mapper is untouched, and a
    /// `Gigapage`/`Megapage` error comes exactly when a coarser leaf
    /// already covers `virt`.
    pub fn recursive_map(
        &mut self,
        phys: PhyscialAddress,
        virt: VirtualAddress,
        flags: EntryFlags,
        page_size: PageSize,
    ) -> (r: Result<(), MappingError>)
        requires
            old(self).wf(),
            flags.0 <= 0x3ff,
            flags.0 & (FLAG_READ | FLAG_WRITE | FLAG_EXECUTE) != 0,
            phys.0 < 0x100_0000_0000_0000,
            old(self).base() + old(self).n() + 3 <= 0xfff_ffff_ffff,
            old(self).n() + 3 <= usize::MAX,
            phys.0 as int % page_bytes(leaf_level_of(page_size)) == 0,
            virt.0 as int % page_bytes(leaf_level_of(page_size)) == 0,
            old(self).paging_type == PagingType::Sv39 ==> virt.0 < 0x80_0000_0000,
            old(self).paging_type == PagingType::Sv48 ==> virt.0 < 0x1_0000_0000_0000,
        ensures
            final(self).wf(),
            final(self).base() == old(self).base(),
            final(self).paging_type == old(self).paging_type,
            old(self).n() <= final(self).n() <= old(self).n() + 3,
            leaves_from(*final(self), *old(self), leaf_level_of(page_size)),
            (r == Err::<(), MappingError>(MappingError::InvalidPermissions)) <==> (flags.0
                & FLAG_WRITE != 0 && flags.0 & FLAG_READ == 0),
            ({
                let bad_flags = flags.0 & FLAG_WRITE != 0 && flags.0 & FLAG_READ == 0;
                let bad_mode = !(old(self).paging_type == PagingType::Sv39
                    || old(self).paging_type == PagingType::Sv48);
                let top = top_of(old(self).paging_type);
                let leaf = leaf_level_of(page_size);
                let conf = conflict_level(
                    old(self).tables@,
                    old(self).base(),
                    0,
                    virt.0,
                    top,
                    leaf,
                );
                let lb = leaf_bits(phys.0, flags.0);
                &&& (!bad_flags && bad_mode ==> r == Err::<(), MappingError>(
                    MappingError::UnsupportedPagingType(old(self).paging_type),
                ))
                &&& (!bad_flags && !bad_mode ==> {
                    &&& ((r == Ok::<(), MappingError>(())) <==> (conf == None::<nat>))
                    &&& (conf == Some(2nat) ==> r == Err::<(), MappingError>(
                        MappingError::Gigapage,
                    ))
                    &&& (conf == Some(1nat) ==> r == Err::<(), MappingError>(
                        MappingError::Megapage,
                    ))
                    &&& (conf matches Some(l) && l >= 3 ==> r == Err::<(), MappingError>(
                        MappingError::Unknown,
                    ))
                })
                &&& (r is Err ==> *final(self) == *old(self))
                &&& (r is Ok ==> {
                    &&& (forall|va: u64|
                        vpn_prefix_eq(va, virt.0, leaf, top) ==> final(self).translate(va)
                            == Some((lb, leaf)))
                    &&& (forall|va: u64|
                        !vpn_prefix_eq(va, virt.0, leaf, top) ==> final(self).translate(va)
                            == old(self).translate(va))
                    &&& (old(self).translate(virt.0) == Some((lb, leaf))
                        ==> *final(self) == *old(self))
                    &&& ((exists|b: u64| old(self).translate(virt.0) == Some((b, leaf)))
                        ==> final(self).n() == old(self).n())
                })
            }),
    {
        proof {
            let fb = flags.0;
            assert(((fb & 0x4 == 0x4) == (fb & 0x4 != 0)) && ((fb & 0x2 == 0x2) == (fb & 0x2
                != 0))) by (bit_vector);
        }
        if flags.contains(EntryFlags(FLAG_WRITE)) && !flags.contains(EntryFlags(FLAG_READ)) {
            return Err(MappingError::InvalidPermissions);
        }
        let levels: usize = match self.paging_type {
            PagingType::Sv39 => 3,
            PagingType::Sv48 => 4,
            _ => {
                return Err(MappingError::UnsupportedPagingType(self.paging_type));
            },
        };
        let leaf_level: usize = match page_size {
            PageSize::Small => 0,
            PageSize::Medium => 1,
            PageSize::Large => 2,
        };
        let ghost top = top_of(self.paging_type);
        let ghost leaf = leaf_level_of(page_size);
        let ghost lb = leaf_bits(phys.0, flags.0);

        let mut cur: usize = 0;
        let mut lvl: usize = levels - 1;
        let ghost mut chain: Seq<int> = seq![0int];

        proof {
            assert(self.matches(virt.0, 0));
        }
        while lvl > leaf_level
            invariant
                self.wf(),
                self.paging_type == old(self).paging_type,
                self.paging_type == PagingType::Sv39 || self.paging_type == PagingType::Sv48,
                self.base() == old(self).base(),
                self.alloc.base_ppn == old(self).alloc.base_ppn,
                old(self).wf(),
                leaf == leaf_level as nat,
                leaf == leaf_level_of(page_size),
                lb == leaf_bits(phys.0, flags.0),
                top == top_of(self.paging_type),
                levels as nat == levels_of(self.paging_type),
                top == (levels - 1) as nat,
                leaf_level <= lvl <= levels - 1,
                lvl <= 4,
                flags.0 <= 0x3ff,
                flags.0 & (FLAG_READ | FLAG_WRITE | FLAG_EXECUTE) != 0,
                !(flags.0 & FLAG_WRITE != 0 && flags.0 & FLAG_READ == 0),
                phys.0 < 0x100_0000_0000_0000,
                old(self).base() + old(self).n() + 3 <= 0xfff_ffff_ffff,
                old(self).n() + 3 <= usize::MAX,
                old(self).n() <= self.n() <= old(self).n() + (top - lvl),
                0 <= cur < self.n(),
                self.olv(cur as int) == lvl as nat,
                self.matches(virt.0, cur as int),
                self.path_ok(chain, virt.0, lvl as nat),
                chain[chain.len() - 1] == cur as int,
                forall|va: u64|
                    lookup(self.tables@, self.base(), 0, va, top) == lookup(
                        old(self).tables@,
                        self.base(),
                        0,
                        va,
                        top,
                    ),
                self.n() == old(self).n() ==> *self == *old(self),
                self.n() == old(self).n() ==> conflict_level(
                    old(self).tables@,
                    self.base(),
                    0,
                    virt.0,
                    top,
                    leaf,
                ) == conflict_level(
                    old(self).tables@,
                    self.base(),
                    cur as int,
                    virt.0,
                    lvl as nat,
                    leaf,
                ),
                self.n() > old(self).n() ==> conflict_level(
                    old(self).tables@,
                    self.base(),
                    0,
                    virt.0,
                    top,
                    leaf,
                ) == None::<nat>,
                self.n() > old(self).n() ==> self.tables@[cur as int].zeroed(),
                leaves_from(*self, *old(self), leaf),
                (exists|b: u64|
                    lookup(old(self).tables@, self.base(), 0, virt.0, top) == Some((b, leaf)))
                    ==> self.n() == old(self).n(),
            decreases lvl,
        {
            let ghost m_pre = *self;
            let slot: usize = vpn_of(virt.0, lvl);
            proof {
                assert(self.table_ok(cur as int));
                assert(self.entry_ok(cur as int, slot as int));
            }
            let e = self.tables[cur].entry(slot);
            let b = e.0;
            proof {
                assert((b & FLAG_VALID == 0) == !e_valid(b)) by (bit_vector);
                assert((b & (FLAG_READ | FLAG_WRITE | FLAG_EXECUTE)) == (b & 0xe)) by (bit_vector);
            }
            if b & FLAG_VALID == 0 {
                // nothing on the path here: grow a fresh table and point
                // this slot at it
                proof {
                    // an invalid slot on the walk means nothing was
                    // translated through here
                    if self.n() == old(self).n() {
                        lemma_path_lookup(m_pre, chain, virt.0, lvl as nat, virt.0);
                        assert(lookup(old(self).tables@, self.base(), 0, virt.0, top)
                            == None::<(u64, nat)>);
                        assert(conflict_level(
                            old(self).tables@,
                            self.base(),
                            cur as int,
                            virt.0,
                            lvl as nat,
                            leaf,
                        ) == None::<nat>);
                    }
                }
                proof {
                    assert(self.alloc.pages_used == self.n());
                    assert(self.n() <= old(self).n() + (top - lvl));
                }
                let fresh = self.alloc.allocate();
                let fresh_ppn = fresh.frame_ppn;
                let ghost fi = m_pre.n();
                self.tables.push(fresh);
                proof {
                    self.owner@ = self.owner@.push((((lvl - 1) as nat), virt.0));
                }
                let ghost m1 = *self;
                proof {
                    lemma_wf_after_push(m_pre, m1, (lvl - 1) as nat, virt.0);
                    assert forall|va: u64|
                        lookup(m1.tables@, m1.base(), 0, va, top) == lookup(
                            m_pre.tables@,
                            m1.base(),
                            0,
                            va,
                            top,
                        ) by {
                        lemma_lookup_push(m_pre, m1.tables@[fi], 0, va, top);
                        assert(m1.tables@ =~= m_pre.tables@.push(m1.tables@[fi]));
                    }
                    lemma_invalid_zero();
                    assert(leaves_from(m1, m_pre, leaf)) by {
                        assert forall|i: int, s: int|
                            0 <= i < m1.n() && 0 <= s < 512 && e_leaf(
                                #[trigger] entry_bits(m1.tables@, i, s),
                            ) implies ((i < m_pre.n() && entry_bits(m1.tables@, i, s)
                            == entry_bits(m_pre.tables@, i, s) && m1.olv(i) == m_pre.olv(i))
                            || m1.olv(i) == leaf) by {
                            if i == fi {
                                assert(m1.tables@[i].bits_at(s) == 0);
                                assert(entry_bits(m1.tables@, i, s) == 0);
                                assert(false);
                            }
                        }
                    }
                    lemma_leaves_from_trans(m1, m_pre, *old(self), leaf);
                }
                let pb: u64 = ((fresh_ppn & ENTRY_ADDR_MASK) << 10) | FLAG_VALID;
                proof {
                    lemma_pointer_bits_facts(fresh_ppn);
                    assert(pb == pointer_bits(fresh_ppn));
                }
                self.tables[cur].set_entry(slot, Entry(pb));
                let ghost m2 = *self;
                proof {
                    assert(entry_bits(m2.tables@, cur as int, slot as int) == pb);
                    assert forall|i: int, j: int|
                        0 <= i < m2.tables@.len() && 0 <= j < 512 && !(i == cur as int && j
                            == slot as int) implies entry_bits(m2.tables@, i, j) == entry_bits(
                        m1.tables@,
                        i,
                        j,
                    ) by {
                        assert(m1.table_ok(cur as int));
                    }
                    // the new pointer entry is in order: the fresh table
                    // sits one level below and carries virt's prefix
                    assert(m2.entry_ok(cur as int, slot as int)) by {
                        assert(e_ppn(pb) - m2.base() == fi);
                        assert(m2.opre(fi) == virt.0);
                        assert(m2.olv(fi) == (lvl - 1) as nat);
                        assert(spec_vpn(virt.0, lvl as nat) == slot as u64);
                    }
                    lemma_wf_after_update(m1, m2, cur as int, slot as int);
                    assert forall|i: int| 0 <= i < m2.tables@.len() implies (
                    #[trigger] m2.tables@[i]).entries.len() == 512 by {
                        assert(m2.table_ok(i));
                    }
                    assert forall|va: u64|
                        lookup(m2.tables@, m2.base(), 0, va, top) == lookup(
                            m1.tables@,
                            m2.base(),
                            0,
                            va,
                            top,
                        ) by {
                        assert(m1.matches(va, 0));
                        lemma_lookup_install(
                            m1,
                            m2.tables@,
                            cur as int,
                            slot as int,
                            fi,
                            0,
                            va,
                        );
                    }
                    assert(leaves_from(m2, m1, leaf)) by {
                        assert forall|i: int, s: int|
                            0 <= i < m2.n() && 0 <= s < 512 && e_leaf(
                                #[trigger] entry_bits(m2.tables@, i, s),
                            ) implies ((i < m1.n() && entry_bits(m2.tables@, i, s) == entry_bits(
                            m1.tables@,
                            i,
                            s,
                        ) && m2.olv(i) == m1.olv(i)) || m2.olv(i) == leaf) by {
                            if i == cur as int && s == slot as int {
                                assert(!e_leaf(pb));
                                assert(false);
                            }
                        }
                    }
                    lemma_leaves_from_trans(m2, m1, *old(self), leaf);
                    // extend the recorded path with the fresh table
                    chain = chain.push(fi);
                    assert(m2.path_ok(chain, virt.0, (lvl - 1) as nat)) by {
                        assert forall|k: int| 0 <= k < chain.len() - 1 implies {
                            let bb = entry_bits(
                                m2.tables@,
                                #[trigger] chain[k],
                                spec_vpn(virt.0, (m2.top() - k) as nat) as int,
                            );
                            e_valid(bb) && !e_leaf(bb) && e_ppn(bb) == m2.base() + chain[k + 1]
                        } by {
                            if k < chain.len() - 2 {
                                assert(m1.olv(chain[k]) == (m1.top() - k) as nat);
                                assert(chain[k] != cur as int);
                            }
                        }
                    }
                }
                cur = self.tables.len() - 1;
            } else if b & (FLAG_READ | FLAG_WRITE | FLAG_EXECUTE) != 0 {
                // a coarser pre-existing leaf already covers this address
                proof {
                    lemma_invalid_zero();
                    if self.n() > old(self).n() {
                        assert(self.tables@[cur as int].bits_at(slot as int) == 0);
                        assert(false);
                    }
                    assert(conflict_level(
                        old(self).tables@,
                        self.base(),
                        cur as int,
                        virt.0,
                        lvl as nat,
                        leaf,
                    ) == Some(lvl as nat));
                }
                return Err(
                    if lvl == 2 {
                        MappingError::Gigapage
                    } else if lvl == 1 {
                        MappingError::Megapage
                    } else {
                        MappingError::Unknown
                    },
                );
            } else {
                // descend into the existing next-level table
                proof {
                    lemma_invalid_zero();
                    if self.n() > old(self).n() {
                        assert(self.tables@[cur as int].bits_at(slot as int) == 0);
                        assert(false);
                    }
                    lemma_matches_child(*self, cur as int, virt.0);
                }
                let ci_ppn: u64 = (b >> 10) & ENTRY_ADDR_MASK;
                proof {
                    assert(ci_ppn == e_ppn(b));
                    assert(self.entry_ok(cur as int, slot as int));
                }
                let ci: usize = (ci_ppn - self.alloc.base_ppn) as usize;
                proof {
                    chain = chain.push(ci as int);
                    assert(self.path_ok(chain, virt.0, (lvl - 1) as nat));
                    assert(conflict_level(
                        old(self).tables@,
                        self.base(),
                        cur as int,
                        virt.0,
                        lvl as nat,
                        leaf,
                    ) == conflict_level(
                        old(self).tables@,
                        self.base(),
                        ci as int,
                        virt.0,
                        (lvl - 1) as nat,
                        leaf,
                    ));
                }
                cur = ci;
            }
            lvl = lvl - 1;
        }
        // write the leaf
        let slot: usize = vpn_of(virt.0, lvl);
        proof {
            assert(self.table_ok(cur as int));
        }
        let lbits: u64 = (((phys.0 >> 12) & ENTRY_ADDR_MASK) << 10) | flags.0 | FLAG_VALID;
        proof {
            assert(lbits == lb);
            lemma_leaf_bits_facts(phys.0, flags.0);
        }
        let e = self.tables[cur].entry(slot);
        if e.0 == lbits {
            // this exact mapping is already in place
            proof {
                assert(self.n() == old(self).n()) by {
                    if self.n() > old(self).n() {
                        assert(self.tables@[cur as int].bits_at(slot as int) == 0);
                        lemma_invalid_zero();
                        assert(false);
                    }
                }
                lemma_range_translations(*self, chain, virt.0, leaf, lb, cur as int, slot as int);
            }
            return Ok(());
        }
        let ghost m1 = *self;
        self.tables[cur].set_entry(slot, Entry(lbits));
        let ghost m2 = *self;
        proof {
            assert(entry_bits(m2.tables@, cur as int, slot as int) == lb);
            assert forall|i: int, j: int|
                0 <= i < m2.tables@.len() && 0 <= j < 512 && !(i == cur as int && j == slot as int)
                    implies entry_bits(m2.tables@, i, j) == entry_bits(m1.tables@, i, j) by {
                assert(m1.table_ok(cur as int));
            }
            assert(m2.entry_ok(cur as int, slot as int)) by {
                assert(lb & FLAG_WRITE != 0 ==> lb & FLAG_READ != 0) by {
                    let fb = flags.0;
                    assert(leaf_bits(phys.0, fb) & 0x3fe == fb & 0x3fe);
                    assert(forall|x: u64, y: u64|
                        #![trigger x & 0x3fe, y & 0x3fe]
                        x & 0x3fe == y & 0x3fe ==> (x & 0x4 == y & 0x4 && x & 0x2 == y & 0x2))
                        by (bit_vector);
                    assert(fb & FLAG_WRITE != 0 ==> fb & FLAG_READ != 0);
                }
            }
            lemma_wf_after_update(m1, m2, cur as int, slot as int);
            assert(leaves_from(m2, m1, leaf)) by {
                assert forall|i: int, s: int|
                    0 <= i < m2.n() && 0 <= s < 512 && e_leaf(
                        #[trigger] entry_bits(m2.tables@, i, s),
                    ) implies ((i < m1.n() && entry_bits(m2.tables@, i, s) == entry_bits(
                    m1.tables@,
                    i,
                    s,
                ) && m2.olv(i) == m1.olv(i)) || m2.olv(i) == leaf) by {
                    if i == cur as int && s == slot as int {
                        assert(m2.olv(i) == leaf);
                    }
                }
            }
            lemma_leaves_from_trans(m2, m1, *old(self), leaf);
            // path survives the write: the chain's links live in tables
            // above the leaf level
            assert(m2.path_ok(chain, virt.0, leaf)) by {
                assert forall|k: int| 0 <= k < chain.len() - 1 implies {
                    let bb = entry_bits(
                        m2.tables@,
                        #[trigger] chain[k],
                        spec_vpn(virt.0, (m2.top() - k) as nat) as int,
                    );
                    e_valid(bb) && !e_leaf(bb) && e_ppn(bb) == m2.base() + chain[k + 1]
                } by {
                    assert(m1.olv(chain[k]) == (m1.top() - k) as nat);
                    assert(chain[k] != cur as int);
                }
            }
            lemma_range_translations(m2, chain, virt.0, leaf, lb, cur as int, slot as int);
            // everything outside the page keeps its old translation
            assert forall|va: u64| !vpn_prefix_eq(va, virt.0, leaf, top) implies lookup(
                m2.tables@,
                m2.base(),
                0,
                va,
                top,
            ) == lookup(m1.tables@, m1.base(), 0, va, top) by {
                assert(!(m1.matches(va, cur as int) && spec_vpn(va, m1.olv(cur as int))
                    == slot as u64)) by {
                    if m1.matches(va, cur as int) && spec_vpn(va, m1.olv(cur as int))
                        == slot as u64 {
                        assert forall|j: nat| leaf <= j <= top implies #[trigger] spec_vpn(va, j)
                            == spec_vpn(virt.0, j) by {
                            if j == leaf {
                                assert(spec_vpn(va, leaf) == slot as u64);
                                assert(spec_vpn(virt.0, leaf) == slot as u64);
                            } else {
                                assert(spec_vpn(va, j) == spec_vpn(m1.opre(cur as int), j));
                                assert(spec_vpn(virt.0, j) == spec_vpn(m1.opre(cur as int), j));
                            }
                        }
                    }
                }
                assert(m1.matches(va, 0));
                lemma_lookup_update(m1, m2.tables@, cur as int, slot as int, 0, va);
            }
            // a pre-existing identical leaf would have taken the branch
            // above, so here the hypothesis of the no-op clause is false
            if exists|b: u64|
                lookup(old(self).tables@, self.base(), 0, virt.0, top) == Some((b, leaf)) {
                let bb = choose|b: u64|
                    lookup(old(self).tables@, self.base(), 0, virt.0, top) == Some((b, leaf));
                assert(m1.n() == old(self).n()) by {
                    if m1.n() > old(self).n() {
                        assert(m1.tables@[cur as int].bits_at(slot as int) == 0);
                        lemma_invalid_zero();
                        assert(false);
                    }
                }
                lemma_path_lookup(m1, chain, virt.0, leaf, virt.0);
                assert(lookup(m1.tables@, m1.base(), cur as int, virt.0, leaf) == Some(
                    (bb, leaf),
                ));
                let b0 = entry_bits(m1.tables@, cur as int, spec_vpn(virt.0, leaf) as int);
                if e_valid(b0) && !e_leaf(b0) && leaf > 0 {
                    let ci = e_ppn(b0) - m1.base();
                    if 0 <= ci < m1.tables@.len() {
                        lemma_lookup_result_level(
                            m1.tables@,
                            m1.base(),
                            ci,
                            virt.0,
                            (leaf - 1) as nat,
                        );
                    }
                }
                assert(bb == e.0);
            }
        }
        Ok(())
    }
}

/// A walk started at `level` never reports a leaf above `level`.
proof fn lemma_lookup_result_level(t: Seq<PageTable>, base: u64, ti: int, va: u64, level: nat)
    ensures
        lookup(t, base, ti, va, level) matches Some((b, l)) ==> l <= level,
    decreases level,
{
    let b0 = entry_bits(t, ti, spec_vpn(va, level) as int);
    if e_valid(b0) && !e_leaf(b0) && level > 0 {
        let ci = e_ppn(b0) - base;
        if 0 <= ci < t.len() {
            lemma_lookup_result_level(t, base, ci, va, (level - 1) as nat);
        }
    }
}

/// After the leaf is in place at the chain's end, every address sharing
/// `virt`'s prefix translates through it.
proof fn lemma_range_translations(
    m: Mapper,
    chain: Seq<int>,
    virt: u64,
    leaf: nat,
    lb: u64,
    cur: int,
    slot: int,
)
    requires
        m.wf(),
        m.path_ok(chain, virt, leaf),
        chain[chain.len() - 1] == cur,
        0 <= slot < 512,
        slot as u64 == spec_vpn(virt, leaf),
        entry_bits(m.tables@, cur, slot) == lb,
        e_valid(lb),
        e_leaf(lb),
    ensures
        forall|va: u64|
            vpn_prefix_eq(va, virt, leaf, m.top()) ==> m.translate(va) == Some((lb, leaf)),
{
    assert forall|va: u64| vpn_prefix_eq(va, virt, leaf, m.top()) implies m.translate(va) == Some(
        (lb, leaf),
    ) by {
        assert(vpn_prefix_eq(va, virt, (leaf + 1) as nat, m.top()));
        lemma_path_lookup(m, chain, virt, leaf, va);
        assert(spec_vpn(va, leaf) == spec_vpn(virt, leaf));
        assert(lookup(m.tables@, m.base(), cur, va, leaf) == Some((lb, leaf)));
    }
}

impl Mapper {
    /// Map one 4 KiB page under Sv39: the plain three-level walk the
    /// boot path uses. Same contract as `recursive_map` with the small
    /// page size.
    pub fn map(&mut self, phys: PhyscialAddress, virt: VirtualAddress, flags: EntryFlags) -> (r:
        Result<(), MappingError>)
        requires
            old(self).wf(),
            old(self).paging_type == PagingType::Sv39,
            flags.0 <= 0x3ff,
            flags.0 & (FLAG_READ | FLAG_WRITE | FLAG_EXECUTE) != 0,
            phys.0 < 0x100_0000_0000_0000,
            old(self).base() + old(self).n() + 3 <= 0xfff_ffff_ffff,
            old(self).n() + 3 <= usize::MAX,
            phys.0 % 0x1000 == 0,
            virt.0 % 0x1000 == 0,
            virt.0 < 0x80_0000_0000,
        ensures
            final(self).wf(),
            final(self).base() == old(self).base(),
            final(self).paging_type == old(self).paging_type,
            old(self).n() <= final(self).n() <= old(self).n() + 3,
            leaves_from(*final(self), *old(self), 0),
            (r == Err::<(), MappingError>(MappingError::InvalidPermissions)) <==> (flags.0
                & FLAG_WRITE != 0 && flags.0 & FLAG_READ == 0),
            ({
                let bad_flags = flags.0 & FLAG_WRITE != 0 && flags.0 & FLAG_READ == 0;
                let conf = conflict_level(old(self).tables@, old(self).base(), 0, virt.0, 2, 0);
                let lb = leaf_bits(phys.0, flags.0);
                &&& (!bad_flags ==> {
                    &&& ((r == Ok::<(), MappingError>(())) <==> (conf == None::<nat>))
                    &&& (conf == Some(2nat) ==> r == Err::<(), MappingError>(
                        MappingError::Gigapage,
                    ))
                    &&& (conf == Some(1nat) ==> r == Err::<(), MappingError>(
                        MappingError::Megapage,
                    ))
                })
                &&& (r is Err ==> *final(self) == *old(self))
                &&& (r is Ok ==> {
                    &&& (forall|va: u64|
                        vpn_prefix_eq(va, virt.0, 0, 2) ==> final(self).translate(va) == Some(
                            (lb, 0nat),
                        ))
                    &&& (forall|va: u64|
                        !vpn_prefix_eq(va, virt.0, 0, 2) ==> final(self).translate(va) == old(
                            self,
                        ).translate(va))
                    &&& (old(self).translate(virt.0) == Some((lb, 0nat))
                        ==> *final(self) == *old(self))
                })
            }),
    {
        self.recursive_map(phys, virt, flags, PageSize::Small)
    }

    /// Classify an entry met on the walk, as the original did before
    /// descending: a valid leaf blocks the mapping; a valid pointer
    /// yields its table's frame number; an invalid entry yields a
    /// freshly allocated, zeroed table (the arena grows by one and no
    /// translation moves).
    pub fn page_check(&mut self, entry: Entry) -> (r: Option<u64>)
        requires
            old(self).wf(),
            old(self).base() + old(self).n() + 1 <= 0xfff_ffff_ffff,
            old(self).n() + 1 <= usize::MAX,
        ensures
            final(self).wf(),
            final(self).base() == old(self).base(),
            final(self).paging_type == old(self).paging_type,
            forall|va: u64| final(self).translate(va) == old(self).translate(va),
            e_valid(entry.0) && e_leaf(entry.0) ==> r == None::<u64> && *final(self) == *old(
                self,
            ),
            e_valid(entry.0) && !e_leaf(entry.0) ==> r == Some(e_ppn(entry.0)) && *final(self)
                == *old(self),
            !e_valid(entry.0) ==> {
                &&& r == Some((old(self).base() + old(self).n()) as u64)
                &&& final(self).n() == old(self).n() + 1
                &&& final(self).tables@[old(self).n()].zeroed()
            },
    {
        let ghost m_pre = *self;
        let b = entry.0;
        proof {
            assert((b & FLAG_VALID == 0) == !e_valid(b)) by (bit_vector);
            assert((b & (FLAG_READ | FLAG_WRITE | FLAG_EXECUTE)) == (b & 0xe)) by (bit_vector);
            assert(((b >> 10) & ENTRY_ADDR_MASK) == e_ppn(b));
        }
        if b & FLAG_VALID == 0 {
            let fresh = self.alloc.allocate();
            let ppn = fresh.frame_ppn;
            self.tables.push(fresh);
            proof {
                self.owner@ = self.owner@.push((0nat, 0u64));
                lemma_wf_after_push(m_pre, *self, 0, 0);
                assert forall|va: u64|
                    lookup(self.tables@, self.base(), 0, va, self.top()) == lookup(
                        m_pre.tables@,
                        self.base(),
                        0,
                        va,
                        self.top(),
                    ) by {
                    lemma_lookup_push(m_pre, self.tables@[m_pre.n()], 0, va, self.top());
                    assert(self.tables@ =~= m_pre.tables@.push(self.tables@[m_pre.n()]));
                }
            }
            Some(ppn)
        } else if b & (FLAG_READ | FLAG_WRITE | FLAG_EXECUTE) != 0 {
            None
        } else {
            Some((b >> 10) & ENTRY_ADDR_MASK)
        }
    }
}

} // verus!
