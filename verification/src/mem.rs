//! Physical memory layout: named regions carved out of RAM once at
//! boot, in the fixed order kernel, heap, stack, interrupt stack, free.
use vstd::prelude::*;
use crate::paging::{PageSizeSet};
use crate::str_eq;

verus! {

/// Bytes reserved for the early heap.
pub const HEAP_SIZE: u64 = 0x4000;

/// Bytes reserved for the boot stack.
pub const STACK_SIZE: u64 = 0x100000;

/// Bytes reserved for the interrupt stack.
pub const INT_STACK_SIZE: u64 = 0x10000;

/// `addr` rounded up to the next multiple of `align`.
pub open spec fn spec_align_up(addr: int, align: int) -> int {
    ((addr + align - 1) / align) * align
}

/// Round an address up to an alignment boundary.
pub fn align_up(addr: u64, align: u64) -> (r: u64)
    requires
        align >= 1,
        addr + align <= u64::MAX,
    ensures
        r == spec_align_up(addr as int, align as int),
        r % align == 0,
        addr <= r < addr + align,
{
    let sum = addr + align - 1;
    let q = sum / align;
    proof {
        vstd::arithmetic::div_mod::lemma_fundamental_div_mod(sum as int, align as int);
        vstd::arithmetic::div_mod::lemma_mod_bound(sum as int, align as int);
        vstd::arithmetic::div_mod::lemma_mod_multiples_basic(q as int, align as int);
        assert(q as int * align as int == sum - sum as int % align as int) by (nonlinear_arith)
            requires
                sum as int == align as int * (q as int) + sum as int % (align as int),
        ;
    }
    q * align
}

/// A read-only run of physical memory.
#[derive(Debug, Clone, Copy, PartialEq, Eq, Structural)]
pub struct ConstMemRange {
    pub base: u64,
    pub length: u64,
}

/// A writable run of physical memory.
#[derive(Debug, Clone, Copy, PartialEq, Eq, Structural)]
pub struct MutMemRange {
    pub base: u64,
    pub length: u64,
}

/// How many pages of each size cover `length` bytes, largest first,
/// rounding the tail up to whole 4 KiB pages.
pub open spec fn spec_size_set(length: u64) -> PageSizeSet {
    PageSizeSet {
        large: (length / 0x4000_0000) as usize,
        medium: ((length % 0x4000_0000) / 0x20_0000) as usize,
        small: ((length % 0x20_0000) / 0x1000 + if length % 0x1000 != 0 {
            1int
        } else {
            0
        }) as usize,
    }
}

impl ConstMemRange {
    pub fn new(base: u64, length: u64) -> (r: Self)
        requires
            base + length <= u64::MAX,
        ensures
            r.base() == base,
            r.length() == length,
            r.wf(),
    {
        ConstMemRange { base, length }
    }

    pub open spec fn wf(self) -> bool {
        self.base + self.length <= u64::MAX
    }

    #[verifier::when_used_as_spec(spec_base)]
    pub fn base(&self) -> (r: u64)
        ensures
            r == self.spec_base(),
    {
        self.base
    }

    pub open spec fn spec_base(&self) -> u64 {
        self.base
    }

    #[verifier::when_used_as_spec(spec_length)]
    pub fn length(&self) -> (r: u64)
        ensures
            r == self.spec_length(),
    {
        self.length
    }

    pub open spec fn spec_length(&self) -> u64 {
        self.length
    }

    /// One past the last byte of the region.
    pub fn max(&self) -> (r: u64)
        requires
            self.wf(),
        ensures
            r == self.spec_base() + self.spec_length(),
    {
        self.base + self.length
    }

    /// The region as a half-open address range.
    pub fn range(&self) -> (r: core::ops::Range<u64>)
        requires
            self.wf(),
        ensures
            r.start == self.spec_base(),
            r.end == self.spec_base() + self.spec_length(),
    {
        let base = self.base;
        let max = self.base + self.length;
        base..max
    }

    /// The page counts covering this region, largest pages first.
    pub fn size_set(&self) -> (r: PageSizeSet)
        ensures
            r == spec_size_set(self.spec_length()),
    {
        size_set_of(self.length)
    }
}

impl MutMemRange {
    pub fn new(base: u64, length: u64) -> (r: Self)
        requires
            base + length <= u64::MAX,
        ensures
            r.base() == base,
            r.length() == length,
            r.wf(),
    {
        MutMemRange { base, length }
    }

    pub open spec fn wf(self) -> bool {
        self.base + self.length <= u64::MAX
    }

    #[verifier::when_used_as_spec(spec_base)]
    pub fn base(&self) -> (r: u64)
        ensures
            r == self.spec_base(),
    {
        self.base
    }

    pub open spec fn spec_base(&self) -> u64 {
        self.base
    }

    #[verifier::when_used_as_spec(spec_length)]
    pub fn length(&self) -> (r: u64)
        ensures
            r == self.spec_length(),
    {
        self.length
    }

    pub open spec fn spec_length(&self) -> u64 {
        self.length
    }

    /// One past the last byte of the region.
    pub fn max(&self) -> (r: u64)
        requires
            self.wf(),
        ensures
            r == self.spec_base() + self.spec_length(),
    {
        self.base + self.length
    }

    /// The region as a half-open address range.
    pub fn range(&self) -> (r: core::ops::Range<u64>)
        requires
            self.wf(),
        ensures
            r.start == self.spec_base(),
            r.end == self.spec_base() + self.spec_length(),
    {
        let base = self.base;
        let max = self.base + self.length;
        base..max
    }

    /// The page counts covering this region, largest pages first.
    pub fn size_set(&self) -> (r: PageSizeSet)
        ensures
            r == spec_size_set(self.spec_length()),
    {
        size_set_of(self.length)
    }
}

/// Break a byte count into 1 GiB, 2 MiB and 4 KiB pages, largest first,
/// the 4 KiB count rounded up to cover a partial tail.
fn size_set_of(length: u64) -> (r: PageSizeSet)
    ensures
        r == spec_size_set(length),
{
    let large = (length / 0x4000_0000) as usize;
    let medium = ((length % 0x4000_0000) / 0x20_0000) as usize;
    let mut small = ((length % 0x20_0000) / 0x1000) as usize;
    if length % 0x1000 != 0 {
        small = small + 1;
    }
    PageSizeSet { large, medium, small }
}

/// A named region: an identifier of at most twelve bytes and its range.
#[derive(Debug, Clone, PartialEq, Eq)]
pub struct IDedMemRange {
    pub id: String,
    pub range: MutMemRange,
}

impl IDedMemRange {
    /// The empty region with no name.
    pub fn null() -> (r: Self)
        ensures
            r.spec_id() == Seq::<char>::empty(),
            r.range.base() == 0,
            r.range.length() == 0,
    {
        IDedMemRange { id: String::new(), range: MutMemRange { base: 0, length: 0 } }
    }

    pub fn new(id: &str, range: MutMemRange) -> (r: Self)
        requires
            id@.len() <= 12,
        ensures
            r.spec_id() == id@,
            r.range == range,
    {
        let mut new_self = IDedMemRange::null();
        new_self.set_id(id);
        new_self.set_range(range);
        new_self
    }

    pub open spec fn spec_id(&self) -> Seq<char> {
        self.id@
    }

    /// The region's name.
    pub fn id(&self) -> (r: String)
        ensures
            r@ == self.spec_id(),
    {
        self.id.clone()
    }

    /// Rename the region; identifiers hold at most twelve bytes.
    pub fn set_id(&mut self, id: &str)
        requires
            id@.len() <= 12,
        ensures
            final(self).spec_id() == id@,
            final(self).range == old(self).range,
    {
        self.id = String::from_str(id);
    }

    pub fn set_range(&mut self, range: MutMemRange)
        ensures
            final(self).range == range,
            final(self).spec_id() == old(self).spec_id(),
    {
        self.range = range;
    }

    pub fn base(&self) -> (r: u64)
        ensures
            r == self.range.base(),
    {
        self.range.base()
    }

    pub fn max(&self) -> (r: u64)
        requires
            self.range.wf(),
        ensures
            r == self.range.base() + self.range.length(),
    {
        self.range.max()
    }

    pub fn length(&self) -> (r: u64)
        ensures
            r == self.range.length(),
    {
        self.range.length()
    }

    /// The region as a half-open address range.
    pub fn range(&self) -> (r: core::ops::Range<u64>)
        requires
            self.range.wf(),
        ensures
            r.start == self.range.base(),
            r.end == self.range.base() + self.range.length(),
    {
        self.range.range()
    }

    /// The page counts covering this region, largest pages first.
    pub fn size_set(&self) -> (r: PageSizeSet)
        ensures
            r == spec_size_set(self.range.length()),
    {
        self.range.size_set()
    }

    /// Whether this region carries the given name.
    pub fn has_id(&self, id: &str) -> (r: bool)
        ensures
            r == (self.spec_id() == id@),
    {
        str_eq(self.id.as_str(), id)
    }
}

/// Why the memory map could not be built.
#[derive(Debug, Clone, Copy, PartialEq, Eq, Structural)]
pub enum MemoryMapError {
    ZeroLength,
    Overflow,
}

/// The boot-time layout: RAM as a whole, what precedes the kernel,
/// and the five carved regions in order.
#[derive(Debug, Clone, PartialEq, Eq)]
pub struct MemoryMap {
    pub mem: IDedMemRange,
    pub unknown: IDedMemRange,
    pub kernel: IDedMemRange,
    pub heap: IDedMemRange,
    pub stack: IDedMemRange,
    pub int_stack: IDedMemRange,
    pub free: IDedMemRange,
}

/// Where the boot stack starts: 16-byte aligned, after the heap.
pub open spec fn spec_stack_base(kernel_end: int) -> int {
    spec_align_up(kernel_end + HEAP_SIZE, 16)
}

/// Where the interrupt stack starts: 16-byte aligned, after the stack.
pub open spec fn spec_int_stack_base(kernel_end: int) -> int {
    spec_align_up(spec_stack_base(kernel_end) + STACK_SIZE, 16)
}

/// Where free memory starts: 16-byte aligned, after the interrupt stack.
pub open spec fn spec_free_base(kernel_end: int) -> int {
    spec_align_up(spec_int_stack_base(kernel_end) + INT_STACK_SIZE, 16)
}

impl MemoryMap {
    /// The named regions are laid out in order, pairwise disjoint, and
    /// all of them inside `mem`; `mem` alone contains the others.
    pub open spec fn regions_disjoint(self) -> bool {
        &&& self.mem.range.base <= self.unknown.range.base
        &&& self.unknown.range.base + self.unknown.range.length <= self.kernel.range.base
        &&& self.kernel.range.base + self.kernel.range.length <= self.heap.range.base
        &&& self.heap.range.base + self.heap.range.length <= self.stack.range.base
        &&& self.stack.range.base + self.stack.range.length <= self.int_stack.range.base
        &&& self.int_stack.range.base + self.int_stack.range.length <= self.free.range.base
        &&& self.free.range.base + self.free.range.length <= self.mem.range.base
            + self.mem.range.length
        &&& self.unknown.range.length + self.kernel.range.length + self.heap.range.length
            + self.stack.range.length + self.int_stack.range.length + self.free.range.length
            <= self.mem.range.length
    }
}

/// Partition RAM, as the device tree reports it, around the kernel the
/// linker placed: `unknown` before the kernel, then the kernel, the
/// heap right after it, the two stacks at 16-byte boundaries, and the
/// rest free. Fails exactly when RAM has zero length, or when the
/// fixed-size regions would run past the end of RAM.
pub fn memory_map(ram_base: u64, ram_len: u64, kernel_start: u64, kernel_end: u64) -> (r: Result<
    MemoryMap,
    MemoryMapError,
>)
    requires
        ram_base + ram_len <= 0x4000_0000_0000,
        ram_base <= kernel_start <= kernel_end,
        kernel_end <= ram_base + ram_len,
    ensures
        (r == Err::<MemoryMap, MemoryMapError>(MemoryMapError::ZeroLength)) <==> ram_len == 0,
        (r == Err::<MemoryMap, MemoryMapError>(MemoryMapError::Overflow)) <==> (ram_len > 0
            && spec_free_base(kernel_end as int) > ram_base + ram_len),
        r is Ok <==> (ram_len > 0 && spec_free_base(kernel_end as int) <= ram_base + ram_len),
        ({
            match r {
                Ok(m) => {
                    &&& m.mem.range.base == ram_base && m.mem.range.length == ram_len
                    &&& m.unknown.range.base == ram_base && m.unknown.range.length == kernel_start
                        - ram_base
                    &&& m.kernel.range.base == kernel_start && m.kernel.range.length == kernel_end
                        - kernel_start
                    &&& m.heap.range.base == kernel_end && m.heap.range.length == HEAP_SIZE
                    &&& m.stack.range.base == spec_stack_base(kernel_end as int)
                        && m.stack.range.length == STACK_SIZE
                    &&& m.int_stack.range.base == spec_int_stack_base(kernel_end as int)
                        && m.int_stack.range.length == INT_STACK_SIZE
                    &&& m.free.range.base == spec_free_base(kernel_end as int)
                        && m.free.range.length == ram_base + ram_len - spec_free_base(
                        kernel_end as int,
                    )
                    &&& m.mem.spec_id() == "mem"@ && m.unknown.spec_id() == "unknown"@
                        && m.kernel.spec_id() == "kernel"@ && m.heap.spec_id() == "heap0"@
                        && m.stack.spec_id() == "stack0"@ && m.int_stack.spec_id() == "int_stack0"@
                        && m.free.spec_id() == "free0"@
                    &&& m.regions_disjoint()
                },
                Err(_) => true,
            }
        }),
{
    if ram_len == 0 {
        return Err(MemoryMapError::ZeroLength);
    }
    let ram_end = ram_base + ram_len;
    let heap_base = kernel_end;
    let stack_base = align_up(heap_base + HEAP_SIZE, 16);
    let int_stack_base = align_up(stack_base + STACK_SIZE, 16);
    let free_base = align_up(int_stack_base + INT_STACK_SIZE, 16);
    if free_base > ram_end {
        return Err(MemoryMapError::Overflow);
    }
    proof {
        reveal_strlit("mem");
        reveal_strlit("unknown");
        reveal_strlit("kernel");
        reveal_strlit("heap0");
        reveal_strlit("stack0");
        reveal_strlit("int_stack0");
        reveal_strlit("free0");
    }
    let mem = IDedMemRange::new("mem", MutMemRange::new(ram_base, ram_len));
    let unknown = IDedMemRange::new("unknown", MutMemRange::new(ram_base, kernel_start - ram_base));
    let kernel = IDedMemRange::new(
        "kernel",
        MutMemRange::new(kernel_start, kernel_end - kernel_start),
    );
    let heap = IDedMemRange::new("heap0", MutMemRange::new(heap_base, HEAP_SIZE));
    let stack = IDedMemRange::new("stack0", MutMemRange::new(stack_base, STACK_SIZE));
    let int_stack = IDedMemRange::new(
        "int_stack0",
        MutMemRange::new(int_stack_base, INT_STACK_SIZE),
    );
    let free = IDedMemRange::new("free0", MutMemRange::new(free_base, ram_end - free_base));
    Ok(MemoryMap { mem, unknown, kernel, heap, stack, int_stack, free })
}

/// Rounding up never moves an already-aligned address.
pub proof fn lemma_align_up_identity(x: int, align: int)
    requires
        0 < align,
        0 <= x,
        x % align == 0,
    ensures
        spec_align_up(x, align) == x,
{
    let k = x / align;
    vstd::arithmetic::div_mod::lemma_fundamental_div_mod(x, align);
    assert(x == align * k);
    vstd::arithmetic::div_mod::lemma_div_multiples_vanish_fancy(k, align - 1, align);
    assert((align * k + (align - 1)) / align == k);
    assert(x + align - 1 == align * k + (align - 1));
    assert(spec_align_up(x, align) == ((x + align - 1) / align) * align);
    assert(k * align == align * k) by (nonlinear_arith);
}

/// Bring memory up, as `kmain` does first: build the map around the
/// kernel the linker placed, record the regions by name, and build and
/// report the initial address space. Fails exactly when the map does:
/// zero-length RAM, or regions running past its end.
pub fn init(ram_base: u64, ram_len: u64, kernel_start: u64, kernel_end: u64) -> (r: Result<
    (MemoryMap, crate::LLVec<IDedMemRange>, crate::mapping::Mapper, crate::control_registers::SatpState),
    MemoryMapError,
>)
    requires
        ram_base + ram_len <= 0x40_0000_0000,
        0x8000_0000 <= ram_base,
        ram_base <= kernel_start <= kernel_end,
        kernel_end <= ram_base + ram_len,
        kernel_start % 0x1000 == 0,
        kernel_end % 0x1000 == 0,
    ensures
        (r is Ok) <==> (ram_len > 0 && spec_free_base(kernel_end as int) <= ram_base + ram_len),
        ({
            match r {
                Ok((map, regions, mapper, satp)) => {
                    &&& map.kernel.range.base == kernel_start && map.kernel.range.length
                        == kernel_end - kernel_start
                    &&& map.mem.range.base == ram_base && map.mem.range.length == ram_len
                    &&& map.regions_disjoint()
                    &&& regions.entries@.len() == 7
                    &&& regions.entries@[0].data.spec_id() == "mem"@
                        && regions.entries@[0].data.range == map.mem.range
                    &&& regions.entries@[1].data.spec_id() == "unknown"@
                        && regions.entries@[1].data.range == map.unknown.range
                    &&& regions.entries@[2].data.spec_id() == "kernel"@
                        && regions.entries@[2].data.range == map.kernel.range
                    &&& regions.entries@[3].data.spec_id() == "heap0"@
                        && regions.entries@[3].data.range == map.heap.range
                    &&& regions.entries@[4].data.spec_id() == "stack0"@
                        && regions.entries@[4].data.range == map.stack.range
                    &&& regions.entries@[5].data.spec_id() == "int_stack0"@
                        && regions.entries@[5].data.range == map.int_stack.range
                    &&& regions.entries@[6].data.spec_id() == "free0"@
                        && regions.entries@[6].data.range == map.free.range
                    &&& mapper.wf()
                    &&& mapper.paging_type == crate::paging::PagingType::Sv39
                    &&& crate::paging::identity_mapped_small(
                        mapper,
                        kernel_start,
                        kernel_end,
                        crate::paging::KERNEL_PAGE_FLAGS,
                    )
                    &&& crate::paging::identity_mapped_small(
                        mapper,
                        map.heap.range.base,
                        (map.heap.range.base + map.heap.range.length) as u64,
                        crate::paging::REGION_PAGE_FLAGS,
                    )
                    &&& crate::paging::identity_mapped_small(
                        mapper,
                        map.stack.range.base,
                        (map.stack.range.base + map.stack.range.length) as u64,
                        crate::paging::REGION_PAGE_FLAGS,
                    )
                    &&& crate::paging::identity_mapped_small(
                        mapper,
                        map.int_stack.range.base,
                        (map.int_stack.range.base + map.int_stack.range.length) as u64,
                        crate::paging::REGION_PAGE_FLAGS,
                    )
                    &&& crate::paging::identity_mapped_small(
                        mapper,
                        map.free.range.base,
                        (map.free.range.base + map.free.range.length) as u64,
                        crate::paging::FREE_PAGE_FLAGS,
                    )
                    &&& crate::paging::identity_mapped_large(
                        mapper,
                        0,
                        0x8000_0000,
                        crate::paging::MMIO_PAGE_FLAGS,
                    )
                    &&& satp.mode == crate::paging::PagingType::Sv39
                    &&& satp.asid == 0
                    &&& satp.ppn == mapper.base()
                },
                Err(e) => e == MemoryMapError::ZeroLength && ram_len == 0 || e
                    == MemoryMapError::Overflow && ram_len > 0 && spec_free_base(kernel_end as int)
                    > ram_base + ram_len,
            }
        }),
{
    let map = match memory_map(ram_base, ram_len, kernel_start, kernel_end) {
        Ok(m) => m,
        Err(e) => {
            return Err(e);
        },
    };
    proof {
        // the kernel ends on a page boundary, so every later region
        // starts 16-byte aligned where the previous one ends
        assert(kernel_end as int % 16 == 0 && (kernel_end + HEAP_SIZE) as int % 16 == 0 && (
        kernel_end + HEAP_SIZE + STACK_SIZE) as int % 16 == 0 && (kernel_end + HEAP_SIZE
            + STACK_SIZE + INT_STACK_SIZE) as int % 16 == 0) by (nonlinear_arith)
            requires
                kernel_end % 0x1000 == 0,
                kernel_end <= 0x40_0000_0000,
        ;
        lemma_align_up_identity((kernel_end + HEAP_SIZE) as int, 16);
        lemma_align_up_identity((kernel_end + HEAP_SIZE + STACK_SIZE) as int, 16);
        lemma_align_up_identity((kernel_end + HEAP_SIZE + STACK_SIZE + INT_STACK_SIZE) as int, 16);
        assert(map.stack.range.base == kernel_end + HEAP_SIZE);
        assert(map.int_stack.range.base == kernel_end + HEAP_SIZE + STACK_SIZE);
        assert(map.free.range.base == kernel_end + HEAP_SIZE + STACK_SIZE + INT_STACK_SIZE);
    }
    let (mapper, satp) = crate::paging::init(&map);
    proof {
        reveal_strlit("mem");
        reveal_strlit("unknown");
        reveal_strlit("kernel");
        reveal_strlit("heap0");
        reveal_strlit("stack0");
        reveal_strlit("int_stack0");
        reveal_strlit("free0");
    }
    let mut regions: crate::LLVec<IDedMemRange> = crate::LLVec::new();
    regions.initialize(IDedMemRange::new("mem", map.mem.range));
    regions.push(IDedMemRange::new("unknown", map.unknown.range));
    regions.push(IDedMemRange::new("kernel", map.kernel.range));
    regions.push(IDedMemRange::new("heap0", map.heap.range));
    regions.push(IDedMemRange::new("stack0", map.stack.range));
    regions.push(IDedMemRange::new("int_stack0", map.int_stack.range));
    regions.push(IDedMemRange::new("free0", map.free.range));
    Ok((map, regions, mapper, satp))
}

} // verus!
