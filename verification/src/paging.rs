//! Paging modes, page sizes, the breakdown of a byte count into pages,
//! and the paging activator: the identity map of RAM, kernel and MMIO
//! that the boot path installs before writing `satp`.
use vstd::prelude::*;
use crate::str_eq;
use crate::addressing::{PhyscialAddress, VirtualAddress, spec_vpn};
use crate::control_registers::SatpState;
use crate::entries::{EntryFlags, e_leaf, leaf_bits, lemma_leaf_bits_facts, lemma_invalid_zero, FLAG_READ, FLAG_WRITE, FLAG_EXECUTE};
use crate::mapping::{
    Mapper,
    conflict_level,
    entry_bits,
    leaves_below_level,
    leaves_from,
    lemma_conflict_none,
    lemma_prefix_eq_small,
    page_bytes,
    vpn_prefix_eq,
};
use crate::mem::MemoryMap;
use crate::pagetable::PageTableAlloc;

verus! {

/// Kernel pages: valid, readable, writable, executable, accessed, dirty.
pub const KERNEL_PAGE_FLAGS: u64 = 0xcf;

/// Heap and stack pages: as the kernel's, but not executable.
pub const REGION_PAGE_FLAGS: u64 = 0xc7;

/// Free memory: additionally executable and user-accessible.
pub const FREE_PAGE_FLAGS: u64 = 0xdf;

/// The MMIO window: readable and writable, never executable.
pub const MMIO_PAGE_FLAGS: u64 = 0xc7;

/// One 4 KiB page worth of bytes.
pub struct Page(pub [u8; 4096]);

/// The translation mode held in `satp`: numeric codes 0, 8, 9, 10.
#[derive(Debug, Clone, Copy, PartialEq, Eq, Structural)]
pub enum PagingType {
    Bare,
    Sv39,
    Sv48,
    Sv57,
}

/// The three leaf sizes the mapper writes.
#[derive(Debug, Clone, Copy, PartialEq, Eq, Structural)]
pub enum PageSize {
    Small,
    Medium,
    Large,
}

/// How many pages of each size cover a byte count.
#[derive(Debug, Clone, Copy, PartialEq, Eq, Structural)]
pub struct PageSizeSet {
    pub large: usize,
    pub medium: usize,
    pub small: usize,
}

impl PageSize {
    /// The leaf size in bytes: 4 KiB, 2 MiB or 1 GiB.
    pub fn as_usize(&self) -> (r: usize)
        ensures
            r == self.spec_bytes(),
    {
        match self {
            PageSize::Small => 0x1000,
            PageSize::Medium => 0x20_0000,
            PageSize::Large => 0x4000_0000,
        }
    }

    pub open spec fn spec_bytes(self) -> usize {
        match self {
            PageSize::Small => 0x1000,
            PageSize::Medium => 0x20_0000,
            PageSize::Large => 0x4000_0000,
        }
    }
}

/// What `PagingType::from_str` recognises: the `mmu-type` strings of the
/// device tree.
pub open spec fn spec_paging_type_from_str(s: Seq<char>) -> Option<PagingType> {
    if s == "riscv,sv39"@ {
        Some(PagingType::Sv39)
    } else if s == "riscv,sv48"@ {
        Some(PagingType::Sv48)
    } else if s == "riscv,sv57"@ {
        Some(PagingType::Sv57)
    } else {
        None
    }
}

impl PagingType {
    pub fn from_str(string: &str) -> (r: Option<Self>)
        ensures
            r == spec_paging_type_from_str(string@),
    {
        if str_eq(string, "riscv,sv39") {
            Some(PagingType::Sv39)
        } else if str_eq(string, "riscv,sv48") {
            Some(PagingType::Sv48)
        } else if str_eq(string, "riscv,sv57") {
            Some(PagingType::Sv57)
        } else {
            None
        }
    }

    /// The mode from its numeric code; anything unknown is `Bare`.
    pub fn from_usize(id: usize) -> (r: Self)
        ensures
            r == spec_paging_type_from_usize(id),
    {
        match id {
            8 => PagingType::Sv39,
            9 => PagingType::Sv48,
            10 => PagingType::Sv57,
            _ => PagingType::Bare,
        }
    }

    /// The numeric code of the mode, as written into `satp`.
    pub fn as_usize(&self) -> (r: usize)
        ensures
            r == self.spec_code(),
    {
        match self {
            PagingType::Sv39 => 8,
            PagingType::Sv48 => 9,
            PagingType::Sv57 => 10,
            _ => 0,
        }
    }

    pub open spec fn spec_code(self) -> usize {
        match self {
            PagingType::Bare => 0,
            PagingType::Sv39 => 8,
            PagingType::Sv48 => 9,
            PagingType::Sv57 => 10,
        }
    }
}

pub open spec fn spec_paging_type_from_usize(id: usize) -> PagingType {
    if id == 8 {
        PagingType::Sv39
    } else if id == 9 {
        PagingType::Sv48
    } else if id == 10 {
        PagingType::Sv57
    } else {
        PagingType::Bare
    }
}

/// Codes round-trip for the three translating modes; `Bare` and every
/// unknown code collapse to code 0.
pub proof fn lemma_paging_type_code_round_trip(pt: PagingType)
    requires
        pt != PagingType::Bare,
    ensures
        spec_paging_type_from_usize(pt.spec_code()) == pt,
{
}

/// Every address in `[lo, hi)` translates to itself through a 4 KiB
/// leaf carrying exactly these flags.
pub open spec fn identity_mapped_small(mp: Mapper, lo: u64, hi: u64, flags: u64) -> bool {
    forall|a: u64|
        lo <= a < hi ==> mp.translate(a) == Some((leaf_bits(((a >> 12) << 12) as u64, flags), 0nat))
            && mp.translate_addr(a) == Some(a as int)
}

/// Every address in `[lo, hi)` translates to itself through a 1 GiB
/// leaf carrying exactly these flags.
pub open spec fn identity_mapped_large(mp: Mapper, lo: u64, hi: u64, flags: u64) -> bool {
    forall|a: u64|
        lo <= a < hi ==> mp.translate(a) == Some((leaf_bits(((a >> 30) << 30) as u64, flags), 2nat))
            && mp.translate_addr(a) == Some(a as int)
}

/// What the identity map's leaves permit: kernel leaves are valid,
/// readable, writable and executable; MMIO and carved-region leaves
/// are valid, readable and writable but never executable; free-memory
/// leaves additionally allow user access and execution.
pub proof fn lemma_page_flag_bits(addr: u64)
    requires
        addr < 0x100_0000_0000_0000,
    ensures
        leaf_bits(addr, KERNEL_PAGE_FLAGS) & 0xf == 0xf,
        leaf_bits(addr, MMIO_PAGE_FLAGS) & 0x8 == 0,
        leaf_bits(addr, MMIO_PAGE_FLAGS) & 0x7 == 0x7,
        leaf_bits(addr, FREE_PAGE_FLAGS) & 0x1f == 0x1f,
{
    let x = leaf_bits(addr, KERNEL_PAGE_FLAGS);
    let y = leaf_bits(addr, MMIO_PAGE_FLAGS);
    let z = leaf_bits(addr, FREE_PAGE_FLAGS);
    assert(0xcfu64 & 0xe != 0 && 0xc7u64 & 0xe != 0 && 0xdfu64 & 0xe != 0 && 0xcfu64
        & (FLAG_READ | FLAG_WRITE | FLAG_EXECUTE) != 0 && 0xc7u64 & (FLAG_READ | FLAG_WRITE
        | FLAG_EXECUTE) != 0 && 0xdfu64 & (FLAG_READ | FLAG_WRITE | FLAG_EXECUTE) != 0 && (x
        & 0x3fe == 0xcfu64 & 0x3fe && x & 1 == 1 ==> x & 0xf == 0xf) && (y & 0x3fe == 0xc7u64
        & 0x3fe && y & 1 == 1 ==> (y & 0x8 == 0 && y & 0x7 == 0x7)) && (z & 0x3fe == 0xdfu64
        & 0x3fe && z & 1 == 1 ==> z & 0x1f == 0x1f)) by (bit_vector);
    lemma_leaf_bits_facts(addr, KERNEL_PAGE_FLAGS);
    lemma_leaf_bits_facts(addr, MMIO_PAGE_FLAGS);
    lemma_leaf_bits_facts(addr, FREE_PAGE_FLAGS);
}

/// Identity-map every 4 KiB page touching `[lo, hi)`, page by page.
/// Pages outside that span keep their translation, and every new leaf
/// sits at the 4 KiB level, so later ranges can follow.
fn identity_map_range(m: &mut Mapper, lo: u64, hi: u64, flags: EntryFlags)
    requires
        old(m).wf(),
        old(m).paging_type == PagingType::Sv39,
        leaves_below_level(*old(m), 0),
        flags.0 <= 0x3ff,
        flags.0 & 0xe != 0,
        !(flags.0 & 0x4 != 0 && flags.0 & 0x2 == 0),
        lo <= hi <= 0x40_0000_0000,
        old(m).base() <= 0x1_0000_0000,
        old(m).n() <= 0x1000_0000,
    ensures
        final(m).wf(),
        final(m).paging_type == old(m).paging_type,
        final(m).base() == old(m).base(),
        final(m).n() <= old(m).n() + 3 * ((hi - lo) as int / 0x1000 + 2),
        leaves_below_level(*final(m), 0),
        identity_mapped_small(*final(m), lo, hi, flags.0),
        forall|va: u64|
            va < 0x80_0000_0000 && !(lo >> 12 <= va >> 12 && (hi > 0 && va >> 12 <= ((hi - 1)
                as u64) >> 12)) ==> final(m).translate(va) == old(m).translate(va),
{
    proof {
        assert(FLAG_READ | FLAG_WRITE | FLAG_EXECUTE == 0xe) by (bit_vector);
    }
    if lo >= hi {
        return ;
    }
    let a0: u64 = (lo >> 12) << 12;
    let mut a: u64 = a0;
    proof {
        assert((lo >> 12) << 12 <= lo && lo - ((lo >> 12) << 12) < 0x1000 && ((lo >> 12) << 12)
            % 0x1000 == 0 && (((lo >> 12) << 12) >> 12) == lo >> 12) by (bit_vector);
    }
    while a < hi
        invariant
            m.wf(),
            m.paging_type == PagingType::Sv39,
            m.base() == old(m).base(),
            old(m).wf(),
            old(m).base() <= 0x1_0000_0000,
            old(m).n() <= 0x1000_0000,
            leaves_below_level(*m, 0),
            flags.0 <= 0x3ff,
            flags.0 & 0xe != 0,
            flags.0 & (FLAG_READ | FLAG_WRITE | FLAG_EXECUTE) != 0,
            !(flags.0 & 0x4 != 0 && flags.0 & 0x2 == 0),
            lo < hi <= 0x40_0000_0000,
            a0 == (lo >> 12) << 12,
            a0 <= lo,
            lo - a0 < 0x1000,
            a0 % 0x1000 == 0,
            a % 0x1000 == 0,
            a0 <= a <= hi + 0xfff,
            (a - a0) % 0x1000 == 0,
            m.n() <= old(m).n() + 3 * ((a - a0) as int / 0x1000),
            forall|x: u64|
                a0 <= x < a ==> m.translate(x) == Some(
                    (leaf_bits(((x >> 12) << 12) as u64, flags.0), 0nat),
                ),
            forall|va: u64|
                va < 0x80_0000_0000 && !(a0 >> 12 <= va >> 12 && (a > 0 && va >> 12 < a >> 12))
                    ==> m.translate(va) == old(m).translate(va),
        decreases hi + 0x1000 - a,
    {
        let ghost m_pre = *m;
        proof {
            assert((a - a0) as int / 0x1000 <= 0x4_0000_0000) by {
                assert(a - a0 <= 0x40_0000_0000 + 0xfff);
            }
            lemma_conflict_none(m_pre, 0, a);
            assert(page_bytes(0) == 0x1000);
            assert(a as int % 0x1000 == 0);
        }
        let res = m.recursive_map(
            PhyscialAddress::new(a),
            VirtualAddress::new(a),
            flags,
            PageSize::Small,
        );
        proof {
            assert(res is Ok);
        }
        match res {
            Ok(_) => (),
            Err(_) => {
                proof {
                    assert(false);
                }
            },
        }
        let a_next: u64 = a + 0x1000;
        proof {
            // every address in this page now goes through the new leaf,
            // and nothing else moved
            assert forall|x: u64| a0 <= x < a + 0x1000 implies m.translate(x) == Some(
                (leaf_bits(((x >> 12) << 12) as u64, flags.0), 0nat),
            ) by {
                lemma_prefix_eq_small(x, a);
                if a <= x {
                    assert(x >> 12 == a >> 12 && ((x >> 12) << 12) == a) by (bit_vector)
                        requires
                            a <= x < a + 0x1000 && a % 0x1000 == 0,
                    ;
                    assert(vpn_prefix_eq(x, a, 0, 2));
                } else {
                    assert(x >> 12 != a >> 12) by (bit_vector)
                        requires
                            x < a && a % 0x1000 == 0 && x < 0x80_0000_0000 && a
                                < 0x80_0000_0000,
                    ;
                    assert(!vpn_prefix_eq(x, a, 0, 2));
                    assert(m.translate(x) == m_pre.translate(x));
                }
            }
            assert(a_next >> 12 == (a >> 12) + 1 && a0 >> 12 <= a >> 12) by (bit_vector)
                requires
                    a_next == a + 0x1000 && a % 0x1000 == 0 && a <= 0x40_0000_0000 && a0 <= a,
            ;
            assert forall|va: u64|
                va < 0x80_0000_0000 && !(a0 >> 12 <= va >> 12 && va >> 12 < a_next
                    >> 12) implies m.translate(va) == old(m).translate(va) by {
                lemma_prefix_eq_small(va, a);
                assert(va >> 12 != a >> 12);
                assert(!vpn_prefix_eq(va, a, 0, 2));
                assert(m.translate(va) == m_pre.translate(va));
            }
            // the new leaf sits at level zero, so the low-leaf shape holds on
            assert(leaves_below_level(*m, 0)) by {
                assert forall|i: int, s: int|
                    0 <= i < m.n() && 0 <= s < 512 && e_leaf(
                        #[trigger] entry_bits(m.tables@, i, s),
                    ) implies m.olv(i) <= 0 by {
                    assert(leaves_from(*m, m_pre, 0));
                }
            }
            assert((a_next - a0) as int / 0x1000 == (a - a0) as int / 0x1000 + 1) by {
                vstd::arithmetic::div_mod::lemma_div_plus_one((a - a0) as int, 0x1000);
            }
        }
        a = a_next;
    }
    proof {
        assert(identity_mapped_small(*m, lo, hi, flags.0)) by {
            assert forall|x: u64| lo <= x < hi implies m.translate(x) == Some(
                (leaf_bits(((x >> 12) << 12) as u64, flags.0), 0nat),
            ) && m.translate_addr(x) == Some(x as int) by {
                assert(a0 <= x < a);
                let page = ((x >> 12) << 12) as u64;
                assert(((x >> 12) << 12) < 0x100_0000_0000_0000 && (((x >> 12) << 12) as u64)
                    >> 12 == x >> 12 && x >> 12 == x / 0x1000) by (bit_vector)
                    requires
                        x < 0x40_0000_0000,
                ;
                lemma_leaf_bits_facts(page, flags.0);
                vstd::arithmetic::div_mod::lemma_fundamental_div_mod(x as int, 0x1000);
                assert(page_bytes(0) == 0x1000);
            }
        }
        let ghost hi1: u64 = (hi - 1) as u64;
        assert(a >> 12 == (hi1 >> 12) + 1 && a0 >> 12 == lo >> 12) by (bit_vector)
            requires
                a % 0x1000 == 0 && hi <= a && a < hi + 0x1000 && hi1 == hi - 1 && 0 < hi && a0
                    == (lo >> 12) << 12,
        ;
        assert forall|va: u64|
            va < 0x80_0000_0000 && !(lo >> 12 <= va >> 12 && (hi > 0 && va >> 12 <= ((hi - 1)
                as u64) >> 12)) implies m.translate(va) == old(m).translate(va) by {
            assert(!(a0 >> 12 <= va >> 12 && va >> 12 < a >> 12));
        }
        assert(m.n() <= old(m).n() + 3 * ((hi - lo) as int / 0x1000 + 2)) by {
            let y = (a - a0) as int;
            let z = (hi - lo) as int;
            assert(y <= z + 2 * 0x1000);
            vstd::arithmetic::div_mod::lemma_div_is_ordered(y, z + 2 * 0x1000, 0x1000);
            vstd::arithmetic::div_mod::lemma_div_plus_one(z + 0x1000, 0x1000);
            vstd::arithmetic::div_mod::lemma_div_plus_one(z, 0x1000);
        }
    }
}

/// An address below an aligned boundary lies in an earlier page than
/// anything at or past it.
proof fn lemma_page_below(a: u64, hi: u64, lo2: u64)
    requires
        a < hi,
        hi <= lo2,
        hi % 0x1000 == 0,
    ensures
        a >> 12 < lo2 >> 12,
{
    assert(a >> 12 < lo2 >> 12) by (bit_vector)
        requires
            a < hi && hi <= lo2 && hi % 0x1000 == 0,
    ;
}

/// An address at or past an aligned boundary lies in a later page than
/// anything before it.
proof fn lemma_page_above(a: u64, hi: u64, hi1: u64)
    requires
        a >= hi,
        0 < hi,
        hi1 == hi - 1,
        hi % 0x1000 == 0,
    ensures
        a >> 12 > hi1 >> 12,
{
    assert(a >> 12 > hi1 >> 12) by (bit_vector)
        requires
            a >= hi && 0 < hi && hi1 == hi - 1 && hi % 0x1000 == 0,
    ;
}

/// A byte span inside the Sv39 low range covers at most 2^26 pages.
proof fn lemma_phase_bound(lo: u64, hi: u64)
    requires
        lo <= hi,
        hi <= 0x40_0000_0000,
    ensures
        (hi - lo) as int / 0x1000 <= 0x400_0000,
{
    vstd::arithmetic::div_mod::lemma_div_is_ordered((hi - lo) as int, 0x40_0000_0000, 0x1000);
}

/// An identity-mapped span below a later phase's pages keeps its
/// translations through that phase.
proof fn lemma_transport_below(m1: Mapper, m2: Mapper, lo: u64, hi: u64, flags: u64, plo: u64, phi: u64)
    requires
        identity_mapped_small(m1, lo, hi, flags),
        hi <= plo,
        hi % 0x1000 == 0,
        hi <= 0x40_0000_0000,
        forall|va: u64|
            va < 0x80_0000_0000 && !(plo >> 12 <= va >> 12 && (phi > 0 && va >> 12 <= ((phi - 1)
                as u64) >> 12)) ==> m2.translate(va) == m1.translate(va),
    ensures
        identity_mapped_small(m2, lo, hi, flags),
{
    assert forall|x: u64| lo <= x < hi implies m2.translate(x) == Some(
        (leaf_bits(((x >> 12) << 12) as u64, flags), 0nat),
    ) && m2.translate_addr(x) == Some(x as int) by {
        lemma_page_below(x, hi, plo);
        assert(m2.translate(x) == m1.translate(x));
    }
}

/// An identity-mapped span above a later phase's pages keeps its
/// translations through that phase.
proof fn lemma_transport_above(m1: Mapper, m2: Mapper, lo: u64, hi: u64, flags: u64, plo: u64, phi: u64)
    requires
        identity_mapped_small(m1, lo, hi, flags),
        phi <= lo,
        0 < phi,
        phi % 0x1000 == 0,
        hi <= 0x40_0000_0000,
        forall|va: u64|
            va < 0x80_0000_0000 && !(plo >> 12 <= va >> 12 && (phi > 0 && va >> 12 <= ((phi - 1)
                as u64) >> 12)) ==> m2.translate(va) == m1.translate(va),
    ensures
        identity_mapped_small(m2, lo, hi, flags),
{
    assert forall|x: u64| lo <= x < hi implies m2.translate(x) == Some(
        (leaf_bits(((x >> 12) << 12) as u64, flags), 0nat),
    ) && m2.translate_addr(x) == Some(x as int) by {
        lemma_page_above(x, phi, (phi - 1) as u64);
        assert(m2.translate(x) == m1.translate(x));
    }
}

/// Addresses at or above 2 GiB never share the top VPN field with the
/// two low gigapages, so a RAM span survives the MMIO mappings.
proof fn lemma_transport_over_giga(m1: Mapper, m2: Mapper, lo: u64, hi: u64, flags: u64, gbase: u64)
    requires
        identity_mapped_small(m1, lo, hi, flags),
        0x8000_0000 <= lo,
        hi <= 0x40_0000_0000,
        gbase == 0 || gbase == 0x4000_0000,
        forall|va: u64|
            !vpn_prefix_eq(va, gbase, 2, 2) ==> m2.translate(va) == m1.translate(va),
    ensures
        identity_mapped_small(m2, lo, hi, flags),
{
    assert forall|x: u64| lo <= x < hi implies m2.translate(x) == Some(
        (leaf_bits(((x >> 12) << 12) as u64, flags), 0nat),
    ) && m2.translate_addr(x) == Some(x as int) by {
        assert((x >> 30) & 0x1ff >= 2) by (bit_vector)
            requires
                0x8000_0000 <= x < 0x40_0000_0000,
        ;
        assert((0u64 >> 30) & 0x1ff == 0 && (0x4000_0000u64 >> 30) & 0x1ff == 1) by (bit_vector);
        assert(spec_vpn(x, 2) != spec_vpn(gbase, 2));
        assert(!vpn_prefix_eq(x, gbase, 2, 2));
        assert(m2.translate(x) == m1.translate(x));
    }
}

/// Build the initial kernel address space: identity-map the heap, the
/// two stacks, the kernel image (executable) and free memory at 4 KiB
/// granularity, then cover the low MMIO window with two 1 GiB leaves,
/// and report the `satp` value that turns the map on. Table frames are
/// taken from the start of free memory. The kernel image must start
/// and end on page boundaries — the linker script aligns it so — or
/// the heap's pages would strip the kernel's tail page of its execute
/// permission.
pub fn init(map: &MemoryMap) -> (r: (Mapper, SatpState))
    requires
        map.kernel.range.base % 0x1000 == 0,
        (map.kernel.range.base + map.kernel.range.length) % 0x1000 == 0,
        0x8000_0000 <= map.kernel.range.base,
        map.heap.range.base == map.kernel.range.base + map.kernel.range.length,
        map.heap.range.length == crate::mem::HEAP_SIZE,
        map.stack.range.base == map.heap.range.base + crate::mem::HEAP_SIZE,
        map.stack.range.length == crate::mem::STACK_SIZE,
        map.int_stack.range.base == map.stack.range.base + crate::mem::STACK_SIZE,
        map.int_stack.range.length == crate::mem::INT_STACK_SIZE,
        map.free.range.base == map.int_stack.range.base + crate::mem::INT_STACK_SIZE,
        map.free.range.base + map.free.range.length <= 0x40_0000_0000,
    ensures
        r.0.wf(),
        r.0.paging_type == PagingType::Sv39,
        identity_mapped_small(
            r.0,
            map.kernel.range.base,
            (map.kernel.range.base + map.kernel.range.length) as u64,
            KERNEL_PAGE_FLAGS,
        ),
        identity_mapped_small(
            r.0,
            map.heap.range.base,
            (map.heap.range.base + map.heap.range.length) as u64,
            REGION_PAGE_FLAGS,
        ),
        identity_mapped_small(
            r.0,
            map.stack.range.base,
            (map.stack.range.base + map.stack.range.length) as u64,
            REGION_PAGE_FLAGS,
        ),
        identity_mapped_small(
            r.0,
            map.int_stack.range.base,
            (map.int_stack.range.base + map.int_stack.range.length) as u64,
            REGION_PAGE_FLAGS,
        ),
        identity_mapped_small(
            r.0,
            map.free.range.base,
            (map.free.range.base + map.free.range.length) as u64,
            FREE_PAGE_FLAGS,
        ),
        identity_mapped_large(r.0, 0, 0x8000_0000, MMIO_PAGE_FLAGS),
        r.1.mode == PagingType::Sv39,
        r.1.asid == 0,
        r.1.ppn == r.0.base(),
{
    let kb = map.kernel.range.base;
    let ke = kb + map.kernel.range.length;
    let heap_lo = map.heap.range.base;
    let heap_hi = heap_lo + map.heap.range.length;
    let stack_lo = map.stack.range.base;
    let stack_hi = stack_lo + map.stack.range.length;
    let int_lo = map.int_stack.range.base;
    let int_hi = int_lo + map.int_stack.range.length;
    let free_lo = map.free.range.base;
    let free_hi = free_lo + map.free.range.length;

    let mut ptalloc = PageTableAlloc::new(PhyscialAddress::new(free_lo));
    proof {
        assert(free_lo >> 12 <= 0x400_0000 && free_lo >> 12 <= 0xfff_ffff_fffe) by (bit_vector)
            requires
                free_lo <= 0x40_0000_0000,
        ;
    }
    let root = ptalloc.allocate();
    let mut mapper = Mapper::new(root, ptalloc, PagingType::Sv39);
    proof {
        lemma_invalid_zero();
        assert(FLAG_READ | FLAG_WRITE | FLAG_EXECUTE == 0xe) by (bit_vector);
        assert(0xc7u64 & 0xe != 0 && 0xcfu64 & 0xe != 0 && 0xdfu64 & 0xe != 0 && !(0xc7u64 & 0x4
            != 0 && 0xc7u64 & 0x2 == 0) && !(0xcfu64 & 0x4 != 0 && 0xcfu64 & 0x2 == 0) && !(
        0xdfu64 & 0x4 != 0 && 0xdfu64 & 0x2 == 0)) by (bit_vector);
        assert(leaves_below_level(mapper, 0)) by {
            assert forall|i: int, s: int|
                0 <= i < mapper.n() && 0 <= s < 512 && e_leaf(
                    #[trigger] entry_bits(mapper.tables@, i, s),
                ) implies mapper.olv(i) <= 0 by {
                assert(mapper.tables@[i].bits_at(s) == 0);
                assert(entry_bits(mapper.tables@, i, s) == 0);
            }
        }
    }
    let ghost m0 = mapper;
    identity_map_range(&mut mapper, heap_lo, heap_hi, EntryFlags::new(REGION_PAGE_FLAGS));
    let ghost m1 = mapper;
    proof {
        lemma_phase_bound(heap_lo, heap_hi);
        assert(mapper.n() <= 0xc10_0000);
    }
    identity_map_range(&mut mapper, stack_lo, stack_hi, EntryFlags::new(REGION_PAGE_FLAGS));
    let ghost m2 = mapper;
    proof {
        lemma_phase_bound(stack_lo, stack_hi);
        assert(mapper.n() <= 0x1820_0000);
        lemma_transport_below(m1, m2, heap_lo, heap_hi, REGION_PAGE_FLAGS, stack_lo, stack_hi);
    }
    identity_map_range(&mut mapper, int_lo, int_hi, EntryFlags::new(REGION_PAGE_FLAGS));
    let ghost m3 = mapper;
    proof {
        lemma_phase_bound(int_lo, int_hi);
        assert(mapper.n() <= 0x2430_0000);
        lemma_transport_below(m2, m3, heap_lo, heap_hi, REGION_PAGE_FLAGS, int_lo, int_hi);
        lemma_transport_below(m2, m3, stack_lo, stack_hi, REGION_PAGE_FLAGS, int_lo, int_hi);
    }
    identity_map_range(&mut mapper, kb, ke, EntryFlags::new(KERNEL_PAGE_FLAGS));
    let ghost m4 = mapper;
    proof {
        lemma_phase_bound(kb, ke);
        assert(mapper.n() <= 0x3040_0000);
        lemma_transport_above(m3, m4, heap_lo, heap_hi, REGION_PAGE_FLAGS, kb, ke);
        lemma_transport_above(m3, m4, stack_lo, stack_hi, REGION_PAGE_FLAGS, kb, ke);
        lemma_transport_above(m3, m4, int_lo, int_hi, REGION_PAGE_FLAGS, kb, ke);
    }
    identity_map_range(&mut mapper, free_lo, free_hi, EntryFlags::new(FREE_PAGE_FLAGS));
    let ghost m5 = mapper;
    proof {
        lemma_phase_bound(free_lo, free_hi);
        assert(mapper.n() <= 0x3c50_0000);
        lemma_transport_below(m4, m5, heap_lo, heap_hi, REGION_PAGE_FLAGS, free_lo, free_hi);
        lemma_transport_below(m4, m5, stack_lo, stack_hi, REGION_PAGE_FLAGS, free_lo, free_hi);
        lemma_transport_below(m4, m5, int_lo, int_hi, REGION_PAGE_FLAGS, free_lo, free_hi);
        lemma_transport_below(m4, m5, kb, ke, KERNEL_PAGE_FLAGS, free_lo, free_hi);
        // the gigapage calls start at the level they write, so they
        // cannot meet a conflicting leaf
        assert(conflict_level(m5.tables@, m5.base(), 0, 0, 2, 2) == None::<nat>);
        assert(page_bytes(2) == 0x4000_0000) by {
            assert(page_bytes(0) == 0x1000);
            assert(page_bytes(1) == 0x20_0000);
        }
    }
    let res1 = mapper.recursive_map(
        PhyscialAddress::new(0),
        VirtualAddress::new(0),
        EntryFlags::new(MMIO_PAGE_FLAGS),
        PageSize::Large,
    );
    let ghost m6 = mapper;
    match res1 {
        Ok(_) => (),
        Err(_) => {
            proof {
                assert(false);
            }
        },
    }
    proof {
        lemma_transport_over_giga(m5, m6, heap_lo, heap_hi, REGION_PAGE_FLAGS, 0);
        lemma_transport_over_giga(m5, m6, stack_lo, stack_hi, REGION_PAGE_FLAGS, 0);
        lemma_transport_over_giga(m5, m6, int_lo, int_hi, REGION_PAGE_FLAGS, 0);
        lemma_transport_over_giga(m5, m6, kb, ke, KERNEL_PAGE_FLAGS, 0);
        lemma_transport_over_giga(m5, m6, free_lo, free_hi, FREE_PAGE_FLAGS, 0);
        // the first gigapage covers [0, 1 GiB)
        assert(identity_mapped_large(m6, 0, 0x4000_0000, MMIO_PAGE_FLAGS)) by {
            lemma_leaf_bits_facts(0, MMIO_PAGE_FLAGS);
            assert forall|a: u64| 0 <= a < 0x4000_0000 implies m6.translate(a) == Some(
                (leaf_bits(((a >> 30) << 30) as u64, MMIO_PAGE_FLAGS), 2nat),
            ) && m6.translate_addr(a) == Some(a as int) by {
                assert((a >> 30) & 0x1ff == 0 && (0u64 >> 30) & 0x1ff == 0 && ((a >> 30) << 30)
                    == 0 && a % 0x4000_0000 == a && (0u64 >> 12) == 0) by (bit_vector)
                    requires
                        a < 0x4000_0000,
                ;
                assert(vpn_prefix_eq(a, 0, 2, 2)) by {
                    assert forall|j: nat| 2 <= j <= 2 implies #[trigger] spec_vpn(a, j)
                        == spec_vpn(0, j) by {
                        assert(spec_vpn(a, 2) == (a >> 30) & 0x1ff);
                        assert(spec_vpn(0, 2) == (0u64 >> 30) & 0x1ff);
                    }
                }
                assert(m6.translate(a) == Some((leaf_bits(0, MMIO_PAGE_FLAGS), 2nat)));
            }
        }
        assert(conflict_level(m6.tables@, m6.base(), 0, 0x4000_0000, 2, 2) == None::<nat>);
    }
    let res2 = mapper.recursive_map(
        PhyscialAddress::new(0x4000_0000),
        VirtualAddress::new(0x4000_0000),
        EntryFlags::new(MMIO_PAGE_FLAGS),
        PageSize::Large,
    );
    let ghost m7 = mapper;
    match res2 {
        Ok(_) => (),
        Err(_) => {
            proof {
                assert(false);
            }
        },
    }
    proof {
        lemma_transport_over_giga(m6, m7, heap_lo, heap_hi, REGION_PAGE_FLAGS, 0x4000_0000);
        lemma_transport_over_giga(m6, m7, stack_lo, stack_hi, REGION_PAGE_FLAGS, 0x4000_0000);
        lemma_transport_over_giga(m6, m7, int_lo, int_hi, REGION_PAGE_FLAGS, 0x4000_0000);
        lemma_transport_over_giga(m6, m7, kb, ke, KERNEL_PAGE_FLAGS, 0x4000_0000);
        lemma_transport_over_giga(m6, m7, free_lo, free_hi, FREE_PAGE_FLAGS, 0x4000_0000);
        // the first gigapage survives the second
        assert(identity_mapped_large(m7, 0, 0x4000_0000, MMIO_PAGE_FLAGS)) by {
            assert forall|a: u64| 0 <= a < 0x4000_0000 implies m7.translate(a) == Some(
                (leaf_bits(((a >> 30) << 30) as u64, MMIO_PAGE_FLAGS), 2nat),
            ) && m7.translate_addr(a) == Some(a as int) by {
                assert((a >> 30) & 0x1ff == 0 && (0x4000_0000u64 >> 30) & 0x1ff == 1)
                    by (bit_vector)
                    requires
                        a < 0x4000_0000,
                ;
                assert(spec_vpn(a, 2) != spec_vpn(0x4000_0000, 2));
                assert(!vpn_prefix_eq(a, 0x4000_0000, 2, 2));
                assert(m7.translate(a) == m6.translate(a));
            }
        }
        // and the second covers [1 GiB, 2 GiB)
        assert(identity_mapped_large(m7, 0x4000_0000, 0x8000_0000, MMIO_PAGE_FLAGS)) by {
            lemma_leaf_bits_facts(0x4000_0000, MMIO_PAGE_FLAGS);
            assert forall|a: u64| 0x4000_0000 <= a < 0x8000_0000 implies m7.translate(a) == Some(
                (leaf_bits(((a >> 30) << 30) as u64, MMIO_PAGE_FLAGS), 2nat),
            ) && m7.translate_addr(a) == Some(a as int) by {
                assert((a >> 30) & 0x1ff == 1 && (0x4000_0000u64 >> 30) & 0x1ff == 1 && ((a >> 30)
                    << 30) == 0x4000_0000 && a % 0x4000_0000 == a - 0x4000_0000 && (
                0x4000_0000u64 >> 12) == 0x4_0000) by (bit_vector)
                    requires
                        0x4000_0000 <= a < 0x8000_0000,
                ;
                assert(vpn_prefix_eq(a, 0x4000_0000, 2, 2)) by {
                    assert forall|j: nat| 2 <= j <= 2 implies #[trigger] spec_vpn(a, j)
                        == spec_vpn(0x4000_0000, j) by {
                        assert(spec_vpn(a, 2) == (a >> 30) & 0x1ff);
                        assert(spec_vpn(0x4000_0000, 2) == (0x4000_0000u64 >> 30) & 0x1ff);
                    }
                }
                assert(m7.translate(a) == Some((leaf_bits(0x4000_0000, MMIO_PAGE_FLAGS), 2nat)));
            }
        }
        assert(identity_mapped_large(m7, 0, 0x8000_0000, MMIO_PAGE_FLAGS)) by {
            assert forall|a: u64| 0 <= a < 0x8000_0000 implies m7.translate(a) == Some(
                (leaf_bits(((a >> 30) << 30) as u64, MMIO_PAGE_FLAGS), 2nat),
            ) && m7.translate_addr(a) == Some(a as int) by {
                if a < 0x4000_0000 {
                    assert(identity_mapped_large(m7, 0, 0x4000_0000, MMIO_PAGE_FLAGS));
                } else {
                    assert(identity_mapped_large(m7, 0x4000_0000, 0x8000_0000, MMIO_PAGE_FLAGS));
                }
            }
        }
    }
    proof {
        assert(mapper.table_ok(0));
    }
    let root_ppn = mapper.tables[0].ppn();
    let satp = SatpState::new(PagingType::Sv39, 0, root_ppn);
    (mapper, satp)
}

} // verus!
