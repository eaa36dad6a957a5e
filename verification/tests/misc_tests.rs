use lsd::bitmap::Bitmap;
use lsd::control_registers::{Satp, SatpState, Sie, Sstatus};
use lsd::entries::{Entry, EntryFlags, FLAG_READ, FLAG_VALID, FLAG_WRITE};
use lsd::linker::LinkerSymbol;
use lsd::paging::{PageSize, PagingType};
use lsd::timing::Time;
use lsd::{context, current_context, Compat, LLVec, LLVecEntry};
use lsd::addressing::Ppn;
use lsd::mem::{IDedMemRange, MutMemRange};

#[test]
fn timer_tick_conversions() {
    let f = 10_000_000usize;
    assert_eq!(Time::Second(2).as_usize(f), 2 * f);
    assert_eq!(Time::Second(8).as_usize(f), 8 * f);
    assert_eq!(Time::Minute(3).as_usize(f), 3 * 60 * f);
    assert_eq!(Time::Hour(1).as_usize(f), 3600 * f);
    assert_eq!(Time::Millisecond(2500).as_usize(f), 2 * f);
    assert_eq!(Time::Microsecond(3_000_000).as_usize(f), 3 * f);
}

#[test]
fn contexts_on_virt_are_odd() {
    assert_eq!(context(0), 1);
    assert_eq!(context(1), 3);
    assert_eq!(current_context(0), 1);
    assert_eq!(current_context(2), 5);
}

#[test]
fn paging_type_codes() {
    assert_eq!(PagingType::from_usize(8), PagingType::Sv39);
    assert_eq!(PagingType::from_usize(9), PagingType::Sv48);
    assert_eq!(PagingType::from_usize(10), PagingType::Sv57);
    assert_eq!(PagingType::from_usize(3), PagingType::Bare);
    assert_eq!(PagingType::Sv39.as_usize(), 8);
    assert_eq!(PagingType::Bare.as_usize(), 0);
}

#[test]
fn paging_type_from_device_tree_strings() {
    assert_eq!(PagingType::from_str("riscv,sv39"), Some(PagingType::Sv39));
    assert_eq!(PagingType::from_str("riscv,sv48"), Some(PagingType::Sv48));
    assert_eq!(PagingType::from_str("riscv,sv57"), Some(PagingType::Sv57));
    assert_eq!(PagingType::from_str("riscv,sv64"), None);
    assert_eq!(PagingType::from_str(""), None);
}

#[test]
fn page_sizes_in_bytes() {
    assert_eq!(PageSize::Small.as_usize(), 0x1000);
    assert_eq!(PageSize::Medium.as_usize(), 0x20_0000);
    assert_eq!(PageSize::Large.as_usize(), 0x4000_0000);
}

#[test]
fn satp_state_encodes_and_decodes() {
    let state = SatpState::new(PagingType::Sv39, 7, Ppn(0x80200));
    let satp = Satp::write_state(state);
    assert_eq!(satp.0, (8u64 << 60) | (7u64 << 44) | 0x80200);
    let back = satp.read_state();
    assert_eq!(back.mode, PagingType::Sv39);
    assert_eq!(back.asid, 7);
    assert_eq!(back.ppn, 0x80200);
    assert_eq!(satp.read_mode(), PagingType::Sv39);
}

#[test]
fn satp_write_mode_replaces_the_field() {
    let mut satp = Satp((8u64 << 60) | 0x123);
    satp.write_mode(PagingType::Sv48);
    assert_eq!(satp.0 >> 60, 9);
    assert_eq!(satp.0 & 0xfff_ffff_ffff, 0x123);
}

#[test]
fn sie_supervisor_bits() {
    assert_eq!(Sie::supervisor_all().0, 0x222);
    let st = Sstatus(0);
    assert_eq!(st.with_interrupts_enabled().0, 0x2);
}

#[test]
fn entry_flag_operations() {
    let mut e = Entry::new(0);
    e.set_addr(0x8020_0000);
    assert_eq!(e.addr(), 0x8020_0000);
    e.add_flag(EntryFlags::new(FLAG_VALID | FLAG_READ));
    assert!(e.has_flag(EntryFlags::new(FLAG_VALID)));
    assert!(!e.has_flag(EntryFlags::new(FLAG_WRITE)));
    assert_eq!(e.bits() & 0x3ff, FLAG_VALID | FLAG_READ);

    let f = EntryFlags::new(FLAG_READ).union(EntryFlags::new(FLAG_WRITE));
    assert!(f.contains(EntryFlags::new(FLAG_READ)));
    assert!(!f.contains(EntryFlags::new(FLAG_VALID)));
    assert_eq!(f.bits(), FLAG_READ | FLAG_WRITE);
}

#[test]
fn bitmap_set_read_clear() {
    let mut b = Bitmap::new(vec![0u8; 4], 32);
    assert!(!b.read(11));
    b.set(11);
    assert!(b.read(11));
    assert_eq!(b.buffer[1], 1 << 3);
    assert!(!b.read(10));
    b.clear(11);
    assert!(!b.read(11));
    assert_eq!(b.buffer[1], 0);
}

#[test]
fn linker_symbol_is_its_address() {
    let s = LinkerSymbol::new(0x8020_0000);
    assert_eq!(s.as_usize(), 0x8020_0000);
}

#[test]
fn llvec_push_get_remove() {
    let mut v: LLVec<u32> = LLVec::new();
    assert_eq!(v.len(), 0);
    v.initialize(10);
    v.push(20);
    v.push(30);
    v.push(40);
    assert_eq!(v.len(), 4);
    assert_eq!(*v.get(0).read(), 10);
    assert_eq!(*v.get(2).read(), 30);
    v.remove(1);
    assert_eq!(v.len(), 3);
    assert_eq!(*v.get(1).read(), 30);
    assert_eq!(*v.get(2).read(), 40);
}

#[test]
fn llvec_entry_read_write() {
    let mut e = LLVecEntry::new(5u64);
    assert_eq!(*e.read(), 5);
    e.write(9);
    assert_eq!(*e.read(), 9);
}

#[test]
fn llvec_find_id_scans_every_entry() {
    let mut v: LLVec<IDedMemRange> = LLVec::new();
    v.initialize(IDedMemRange::new("mem", MutMemRange::new(0, 100)));
    v.push(IDedMemRange::new("kernel", MutMemRange::new(0, 10)));
    v.push(IDedMemRange::new("free0", MutMemRange::new(50, 50)));
    // the last entry is found too
    let free = v.find_id("free0").expect("last entry must be found");
    assert_eq!(free.read().base(), 50);
    assert!(v.find_id("stack0").is_none());
}

#[test]
fn sub_second_durations_truncate_to_whole_seconds() {
    let f = 10_000_000usize;
    assert_eq!(Time::Millisecond(999).as_usize(f), 0);
    assert_eq!(Time::Microsecond(999_999).as_usize(f), 0);
}

#[test]
fn bitmap_boundary_bits() {
    let mut b = Bitmap::new(vec![0u8; 4], 32);
    b.set(0);
    b.set(31);
    assert!(b.read(0));
    assert!(b.read(31));
    assert_eq!(b.buffer[0], 1);
    assert_eq!(b.buffer[3], 1 << 7);
}

#[test]
fn compatible_strings_match_the_device_tree() {
    assert_eq!(lsd::uart::Uart16550::compatible(), vec!["ns16550", "ns16550a"]);
    assert_eq!(lsd::plic::Plic::compatible(), vec!["riscv,plic0"]);
}

#[test]
fn wait_deadline_adds_the_tick_count() {
    let f = 10_000_000usize;
    // a two-second wait must release within [2f, 2f + slack] ticks;
    // the deadline handed to the timer is exactly now + 2f
    assert_eq!(lsd::timing::wait_deadline(1_000, Time::Second(2), f), 1_000 + 2 * f as u64);
}
