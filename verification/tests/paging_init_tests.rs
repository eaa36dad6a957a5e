use lsd::entries::{FLAG_EXECUTE, FLAG_READ, FLAG_VALID, FLAG_WRITE};
use lsd::mapping::Mapper;
use lsd::mem;
use lsd::paging::PagingType;

/// Follow the tables by hand and return the physical address and leaf
/// flag bits `va` translates to.
fn translate(m: &Mapper, va: u64) -> Option<(u64, u64)> {
    let base = m.alloc.base_ppn;
    let mut ti: usize = 0;
    let mut level: usize = 2;
    loop {
        let slot = ((va >> (12 + 9 * (level as u64))) & 0x1ff) as usize;
        let bits = m.tables[ti].entry(slot).bits();
        if bits & FLAG_VALID == 0 {
            return None;
        }
        if bits & 0xe != 0 {
            let page_bytes = 0x1000u64 << (9 * (level as u64));
            let pa = (((bits >> 10) & 0xfff_ffff_ffff) << 12) + (va % page_bytes);
            return Some((pa, bits & 0x3ff));
        }
        if level == 0 {
            return None;
        }
        let ppn = (bits >> 10) & 0xfff_ffff_ffff;
        ti = (ppn - base) as usize;
        level -= 1;
    }
}

fn boot(ram_len: u64) -> (mem::MemoryMap, Mapper, lsd::control_registers::SatpState) {
    let ram_base = 0x8000_0000u64;
    let kstart = 0x8020_0000u64;
    let kend = 0x8021_0000u64;
    let (map, _regions, mapper, satp) =
        mem::init(ram_base, ram_len, kstart, kend).expect("boot layout must fit");
    (map, mapper, satp)
}

#[test]
fn kernel_pages_are_identity_mapped_executable() {
    let (map, mapper, _) = boot(0x40_0000);
    let mut a = map.kernel.base();
    while a < map.kernel.max() {
        let (pa, flags) = translate(&mapper, a).expect("kernel address must translate");
        assert_eq!(pa, a);
        assert_eq!(flags & (FLAG_READ | FLAG_EXECUTE | FLAG_VALID), FLAG_READ | FLAG_EXECUTE | FLAG_VALID);
        a += 0x1000;
    }
    // also mid-page addresses translate to themselves
    let (pa, _) = translate(&mapper, map.kernel.base() + 0x123).unwrap();
    assert_eq!(pa, map.kernel.base() + 0x123);
}

#[test]
fn mmio_window_is_identity_mapped_without_execute() {
    let (_, mapper, _) = boot(0x40_0000);
    let mut a = 0u64;
    while a < 0x8000_0000 {
        let (pa, flags) = translate(&mapper, a).expect("MMIO address must translate");
        assert_eq!(pa, a);
        assert_eq!(flags & (FLAG_READ | FLAG_WRITE | FLAG_VALID), FLAG_READ | FLAG_WRITE | FLAG_VALID);
        assert_eq!(flags & FLAG_EXECUTE, 0);
        a += 0x4000_0000;
    }
    // the UART's and PLIC's windows in particular
    let (pa, flags) = translate(&mapper, 0x1000_0000).unwrap();
    assert_eq!(pa, 0x1000_0000);
    assert_eq!(flags & FLAG_EXECUTE, 0);
    let (pa2, _) = translate(&mapper, 0x0c00_0000).unwrap();
    assert_eq!(pa2, 0x0c00_0000);
}

#[test]
fn carved_regions_are_identity_mapped() {
    let (map, mapper, _) = boot(0x40_0000);
    for (lo, hi) in [
        (map.heap.base(), map.heap.max()),
        (map.stack.base(), map.stack.max()),
        (map.int_stack.base(), map.int_stack.max()),
        (map.free.base(), map.free.max()),
    ] {
        let mut a = lo;
        while a < hi {
            let (pa, flags) = translate(&mapper, a).expect("carved region must translate");
            assert_eq!(pa, a);
            assert_eq!(flags & (FLAG_READ | FLAG_WRITE | FLAG_VALID), FLAG_READ | FLAG_WRITE | FLAG_VALID);
            a += 0x10000;
        }
    }
    // free memory is additionally executable and user-accessible
    let (_, flags) = translate(&mapper, map.free.base()).unwrap();
    assert_eq!(flags & 0x18, 0x18);
}

#[test]
fn satp_names_the_root_table() {
    let (_, mapper, satp) = boot(0x40_0000);
    assert_eq!(satp.mode, PagingType::Sv39);
    assert_eq!(satp.asid, 0);
    assert_eq!(satp.ppn, mapper.tables[0].ppn().as_u64());
    assert_eq!(satp.ppn, mapper.alloc.base_ppn);
}

#[test]
fn unmapped_address_does_not_translate() {
    // a store to this address right after paging comes up must fault
    let (_, mapper, _) = boot(0x40_0000);
    assert!(translate(&mapper, 0xdead_beef_0000).is_none());
}

#[test]
fn region_list_carries_the_seven_names() {
    let (map, _mapper, _) = boot(0x40_0000);
    let ram_base = 0x8000_0000u64;
    let (_, regions, _, _) = mem::init(ram_base, 0x40_0000, 0x8020_0000, 0x8021_0000).unwrap();
    assert_eq!(regions.len(), 7);
    let free = regions.find_id("free0").expect("free0 must be found");
    assert_eq!(free.read().base(), map.free.base());
    assert!(regions.find_id("mem").is_some());
    assert!(regions.find_id("int_stack0").is_some());
    assert!(regions.find_id("nosuch").is_none());
}
