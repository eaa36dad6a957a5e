use lsd::mem::{align_up, memory_map, MemoryMapError, MutMemRange, IDedMemRange};

#[test]
fn align_up_values() {
    assert_eq!(align_up(0, 16), 0);
    assert_eq!(align_up(1, 16), 16);
    assert_eq!(align_up(16, 16), 16);
    assert_eq!(align_up(17, 16), 32);
    assert_eq!(align_up(0x1001, 0x1000), 0x2000);
}

#[test]
fn memory_map_layout_for_virt_machine() {
    // 128 MiB of RAM at 2 GiB, the kernel image at its usual load spot
    let ram_base = 0x8000_0000u64;
    let ram_len = 0x800_0000u64;
    let kstart = 0x8020_0000u64;
    let kend = 0x8040_0000u64;
    let m = memory_map(ram_base, ram_len, kstart, kend).expect("layout must fit");
    assert_eq!(m.mem.base(), ram_base);
    assert_eq!(m.mem.length(), ram_len);
    assert_eq!(m.unknown.base(), ram_base);
    assert_eq!(m.unknown.length(), kstart - ram_base);
    assert_eq!(m.kernel.base(), kstart);
    assert_eq!(m.kernel.length(), kend - kstart);
    assert_eq!(m.heap.base(), kend);
    assert_eq!(m.heap.length(), 0x4000);
    assert_eq!(m.stack.base(), kend + 0x4000);
    assert_eq!(m.stack.length(), 0x100000);
    assert_eq!(m.int_stack.base(), kend + 0x4000 + 0x100000);
    assert_eq!(m.int_stack.length(), 0x10000);
    assert_eq!(m.free.base(), kend + 0x4000 + 0x100000 + 0x10000);
    assert_eq!(m.free.max(), ram_base + ram_len);
    assert_eq!(m.mem.id(), "mem");
    assert_eq!(m.unknown.id(), "unknown");
    assert_eq!(m.kernel.id(), "kernel");
    assert_eq!(m.heap.id(), "heap0");
    assert_eq!(m.stack.id(), "stack0");
    assert_eq!(m.int_stack.id(), "int_stack0");
    assert_eq!(m.free.id(), "free0");
}

#[test]
fn memory_map_regions_stay_inside_ram() {
    let m = memory_map(0x8000_0000, 0x800_0000, 0x8020_0000, 0x8040_0000).unwrap();
    let regions = [
        &m.unknown, &m.kernel, &m.heap, &m.stack, &m.int_stack, &m.free,
    ];
    let mut sum = 0u64;
    for r in regions.iter() {
        assert!(r.base() >= m.mem.base());
        assert!(r.max() <= m.mem.max());
        sum += r.length();
    }
    assert!(sum <= m.mem.length());
    // adjacent regions do not overlap
    for w in regions.windows(2) {
        assert!(w[0].max() <= w[1].base());
    }
}

#[test]
fn memory_map_zero_length_ram_fails() {
    let r = memory_map(0x8000_0000, 0, 0x8000_0000, 0x8000_0000);
    assert_eq!(r.err(), Some(MemoryMapError::ZeroLength));
}

#[test]
fn memory_map_overflow_fails() {
    // RAM too small for the fixed regions behind the kernel
    let r = memory_map(0x8000_0000, 0x10_0000, 0x8000_0000, 0x800F_0000);
    assert_eq!(r.err(), Some(MemoryMapError::Overflow));
}

#[test]
fn size_set_breakdown() {
    let r = MutMemRange::new(0, 0x4000_0000 + 0x20_0000 + 0x1000);
    let set = r.size_set();
    assert_eq!(set.large, 1);
    assert_eq!(set.medium, 1);
    assert_eq!(set.small, 1);
    // a partial tail rounds up to one more small page
    let r2 = MutMemRange::new(0, 0x1001);
    let set2 = r2.size_set();
    assert_eq!(set2.large, 0);
    assert_eq!(set2.medium, 0);
    assert_eq!(set2.small, 2);
}

#[test]
fn ranges_and_ids() {
    let range = MutMemRange::new(0x1000, 0x2000);
    assert_eq!(range.base(), 0x1000);
    assert_eq!(range.length(), 0x2000);
    assert_eq!(range.max(), 0x3000);
    let r = range.range();
    assert_eq!(r.start, 0x1000);
    assert_eq!(r.end, 0x3000);

    let mut named = IDedMemRange::new("heap0", range);
    assert_eq!(named.id(), "heap0");
    assert!(named.has_id("heap0"));
    assert!(!named.has_id("heap1"));
    named.set_id("stack0");
    assert_eq!(named.id(), "stack0");
    assert_eq!(named.base(), 0x1000);
    assert_eq!(named.max(), 0x3000);
    assert_eq!(named.length(), 0x2000);

    let null = IDedMemRange::null();
    assert_eq!(null.id(), "");
    assert_eq!(null.length(), 0);

    let cr = lsd::mem::ConstMemRange::new(0x4000, 0x1000);
    assert_eq!(cr.base(), 0x4000);
    assert_eq!(cr.max(), 0x5000);
    assert_eq!(cr.range().end, 0x5000);
    assert_eq!(cr.size_set().small, 1);
}

#[test]
fn memory_map_kernel_at_ram_start_leaves_unknown_empty() {
    let m = memory_map(0x8000_0000, 0x800_0000, 0x8000_0000, 0x8000_1000).unwrap();
    assert_eq!(m.unknown.length(), 0);
    assert_eq!(m.kernel.base(), 0x8000_0000);
}

#[test]
fn memory_map_exact_fit_has_empty_free_region() {
    // RAM ends exactly where free memory would begin
    let kend = 0x8000_1000u64;
    let free_base = kend + 0x4000 + 0x100000 + 0x10000;
    let ram_len = free_base - 0x8000_0000;
    let m = memory_map(0x8000_0000, ram_len, 0x8000_0000, kend).unwrap();
    assert_eq!(m.free.length(), 0);
}
