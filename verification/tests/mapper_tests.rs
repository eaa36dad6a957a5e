use lsd::addressing::{PhyscialAddress, VirtualAddress};
use lsd::entries::{Entry, EntryFlags, FLAG_ACCESSED, FLAG_DIRTY, FLAG_READ, FLAG_VALID, FLAG_WRITE};
use lsd::mapping::{Mapper, MappingError};
use lsd::pagetable::PageTableAlloc;
use lsd::paging::{PageSize, PagingType};

fn fresh_mapper(pt: PagingType) -> Mapper {
    let mut alloc = PageTableAlloc::new(PhyscialAddress::new(0x8800_0000));
    let root = alloc.allocate();
    Mapper::new(root, alloc, pt)
}

/// Follow the tables by hand, as the hardware would, returning the
/// leaf entry bits and the level it sits at.
fn walk(m: &Mapper, va: u64) -> Option<(u64, usize)> {
    let base = m.alloc.base_ppn;
    let mut ti: usize = 0;
    let mut level: usize = 2;
    loop {
        let slot = ((va >> (12 + 9 * (level as u64))) & 0x1ff) as usize;
        let bits = m.tables[ti].entry(slot).bits();
        if bits & FLAG_VALID == 0 {
            return None;
        }
        if bits & 0xe != 0 {
            return Some((bits, level));
        }
        if level == 0 {
            return None;
        }
        let ppn = (bits >> 10) & 0xfff_ffff_ffff;
        ti = (ppn - base) as usize;
        level -= 1;
    }
}

const RWADV: u64 = FLAG_VALID | FLAG_READ | FLAG_WRITE | FLAG_ACCESSED | FLAG_DIRTY;

#[test]
fn map_then_walk_hits_the_leaf() {
    let mut m = fresh_mapper(PagingType::Sv39);
    let r = m.recursive_map(
        PhyscialAddress::new(0x8020_0000),
        VirtualAddress::new(0x8020_0000),
        EntryFlags::new(RWADV),
        PageSize::Small,
    );
    assert_eq!(r, Ok(()));
    let (bits, level) = walk(&m, 0x8020_0123).expect("mapped page must walk");
    assert_eq!(level, 0);
    assert_eq!((bits >> 10) & 0xfff_ffff_ffff, 0x80200);
    assert_eq!(bits & 0x3ff, RWADV);
    // a different page is untouched
    assert!(walk(&m, 0x8040_0000).is_none());
}

#[test]
fn map_twice_is_a_no_op() {
    let mut m = fresh_mapper(PagingType::Sv39);
    let phys = PhyscialAddress::new(0x8020_0000);
    let virt = VirtualAddress::new(0x8020_0000);
    let flags = EntryFlags::new(RWADV);
    assert_eq!(m.recursive_map(phys, virt, flags, PageSize::Small), Ok(()));
    let tables_before = m.tables.len();
    let leaf_before = walk(&m, 0x8020_0000);
    assert_eq!(m.recursive_map(phys, virt, flags, PageSize::Small), Ok(()));
    assert_eq!(m.tables.len(), tables_before);
    assert_eq!(walk(&m, 0x8020_0000), leaf_before);
}

#[test]
fn remap_updates_flags_without_new_tables() {
    let mut m = fresh_mapper(PagingType::Sv39);
    let phys = PhyscialAddress::new(0x8020_0000);
    let virt = VirtualAddress::new(0x8020_0000);
    assert_eq!(
        m.recursive_map(phys, virt, EntryFlags::new(RWADV), PageSize::Small),
        Ok(())
    );
    let tables_before = m.tables.len();
    let exec_flags = RWADV | 0x8;
    assert_eq!(
        m.recursive_map(phys, virt, EntryFlags::new(exec_flags), PageSize::Small),
        Ok(())
    );
    assert_eq!(m.tables.len(), tables_before);
    let (bits, _) = walk(&m, 0x8020_0000).unwrap();
    assert_eq!(bits & 0x3ff, exec_flags);
}

#[test]
fn write_without_read_is_refused() {
    let mut m = fresh_mapper(PagingType::Sv39);
    let r = m.recursive_map(
        PhyscialAddress::new(0x8020_0000),
        VirtualAddress::new(0x8020_0000),
        EntryFlags::new(FLAG_VALID | FLAG_WRITE),
        PageSize::Small,
    );
    assert_eq!(r, Err(MappingError::InvalidPermissions));
}

#[test]
fn unsupported_paging_type_is_refused() {
    let mut m = fresh_mapper(PagingType::Sv57);
    let r = m.recursive_map(
        PhyscialAddress::new(0x8020_0000),
        VirtualAddress::new(0x8020_0000),
        EntryFlags::new(RWADV),
        PageSize::Small,
    );
    assert_eq!(r, Err(MappingError::UnsupportedPagingType(PagingType::Sv57)));
}

#[test]
fn small_page_inside_gigapage_reports_conflict() {
    let mut m = fresh_mapper(PagingType::Sv39);
    assert_eq!(
        m.recursive_map(
            PhyscialAddress::new(0),
            VirtualAddress::new(0),
            EntryFlags::new(RWADV),
            PageSize::Large,
        ),
        Ok(())
    );
    let tables_before = m.tables.len();
    let root_slot0_before = m.tables[0].entry(0).bits();
    let r = m.recursive_map(
        PhyscialAddress::new(0x20_0000),
        VirtualAddress::new(0x20_0000),
        EntryFlags::new(RWADV),
        PageSize::Small,
    );
    assert_eq!(r, Err(MappingError::Gigapage));
    // nothing moved on the failed call
    assert_eq!(m.tables.len(), tables_before);
    assert_eq!(m.tables[0].entry(0).bits(), root_slot0_before);
}

#[test]
fn small_page_inside_megapage_reports_conflict() {
    let mut m = fresh_mapper(PagingType::Sv39);
    assert_eq!(
        m.recursive_map(
            PhyscialAddress::new(0x8020_0000),
            VirtualAddress::new(0x8020_0000),
            EntryFlags::new(RWADV),
            PageSize::Medium,
        ),
        Ok(())
    );
    let r = m.recursive_map(
        PhyscialAddress::new(0x8020_1000),
        VirtualAddress::new(0x8020_1000),
        EntryFlags::new(RWADV),
        PageSize::Small,
    );
    assert_eq!(r, Err(MappingError::Megapage));
}

#[test]
fn sv48_walks_four_levels() {
    let mut alloc = PageTableAlloc::new(PhyscialAddress::new(0x8800_0000));
    let root = alloc.allocate();
    let mut m = Mapper::new(root, alloc, PagingType::Sv48);
    let r = m.recursive_map(
        PhyscialAddress::new(0x8020_0000),
        VirtualAddress::new(0x8020_0000),
        EntryFlags::new(RWADV),
        PageSize::Small,
    );
    assert_eq!(r, Ok(()));
    // root, plus one fresh table per level below it
    assert_eq!(m.tables.len(), 4);
}

#[test]
fn page_check_classifies_entries() {
    let mut m = fresh_mapper(PagingType::Sv39);
    // a valid leaf blocks
    assert_eq!(m.page_check(Entry::new(RWADV | (0x80200 << 10))), None);
    // a valid pointer yields its frame number
    assert_eq!(
        m.page_check(Entry::new(FLAG_VALID | (0x88001 << 10))),
        Some(0x88001)
    );
    // an invalid entry allocates a fresh zeroed table
    let before = m.tables.len();
    let got = m.page_check(Entry::new(0));
    assert_eq!(got, Some(m.alloc.base_ppn + before as u64));
    assert_eq!(m.tables.len(), before + 1);
    for s in 0..512 {
        assert_eq!(m.tables[before].entry(s).bits(), 0);
    }
}

#[test]
fn map_is_the_small_page_walk() {
    let mut m = fresh_mapper(PagingType::Sv39);
    let r = m.map(
        PhyscialAddress::new(0x8030_0000),
        VirtualAddress::new(0x8030_0000),
        EntryFlags::new(RWADV),
    );
    assert_eq!(r, Ok(()));
    let (bits, level) = walk(&m, 0x8030_0000).unwrap();
    assert_eq!(level, 0);
    assert_eq!((bits >> 10) & 0xfff_ffff_ffff, 0x80300);
}
