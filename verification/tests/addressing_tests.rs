use lsd::addressing::{PhyscialAddress, Ppn, VirtSections, VirtualAddress};

#[test]
fn virtual_sections_split() {
    let va = VirtualAddress::new(0x8020_1234);
    let s = va.sections();
    assert_eq!(s.page_offset, 0x234);
    assert_eq!(s.vpn0, 0x001);
    assert_eq!(s.vpn1, 0x001);
    assert_eq!(s.vpn2, 0x002);
    assert_eq!(s.vpn3, 0);
    assert_eq!(s.vpn4, 0);
}

#[test]
fn virtual_sections_round_trip() {
    let va = VirtualAddress::new(0x0123_4567_89ab);
    let back = va.sections().address();
    assert_eq!(back.0, 0x0123_4567_89ab);
}

#[test]
fn physical_sections_split() {
    let pa = PhyscialAddress::new(0x8000_0000);
    let s = pa.sections();
    assert_eq!(s.page_offset, 0);
    assert_eq!(s.ppn0, 0);
    assert_eq!(s.ppn1, 0);
    assert_eq!(s.ppn2, 2);
}

#[test]
fn ppn_strips_page_offset() {
    let ppn = Ppn::from_phys(PhyscialAddress::new(0x8020_0fff));
    assert_eq!(ppn.as_u64(), 0x80200);
}

#[test]
fn sections_index_from_top() {
    let s = VirtSections {
        page_offset: 5,
        vpn0: 10,
        vpn1: 11,
        vpn2: 12,
        vpn3: 13,
        vpn4: 14,
    };
    assert_eq!(s.index(0), 14);
    assert_eq!(s.index(1), 13);
    assert_eq!(s.index(2), 12);
    assert_eq!(s.index(3), 11);
    assert_eq!(s.index(4), 10);
    assert_eq!(s.index(5), 5);
}

#[test]
fn phys_to_virt_is_identity_mapped() {
    let pa = PhyscialAddress::new(0x1234);
    assert_eq!(pa.to_virt().0, 0x1234);
    assert_eq!(VirtualAddress::new(0x1234).to_phys().0, 0x1234);
    assert_eq!(pa.as_u64(), 0x1234);
}
