use near_os::addr::Page;
use near_os::addr::PageTableLevel;
use near_os::addr::PhysAddr;
use near_os::addr::PhysFrame;
use near_os::addr::VirtAddr;
use near_os::entry::PageTableFlags;

#[test]
fn heap_base_selects_its_four_entries() {
    let addr = VirtAddr::new(0x4444_4444_0000);
    assert_eq!(addr.page_table_index(PageTableLevel::Four), 0x88);
    assert_eq!(addr.page_table_index(PageTableLevel::Three), 0x111);
    assert_eq!(addr.page_table_index(PageTableLevel::Two), 0x22);
    assert_eq!(addr.page_table_index(PageTableLevel::One), 0x40);
    assert_eq!(addr.page_offset(), 0);
}

#[test]
fn indices_of_a_high_address() {
    let addr = VirtAddr::new(0xffff_ffff_ffff_fabc);
    assert_eq!(addr.page_table_index(PageTableLevel::Four), 511);
    assert_eq!(addr.page_table_index(PageTableLevel::Three), 511);
    assert_eq!(addr.page_table_index(PageTableLevel::Two), 511);
    assert_eq!(addr.page_table_index(PageTableLevel::One), 511);
    assert_eq!(addr.page_offset(), 0xabc);
}

#[test]
fn indices_of_a_low_address() {
    let addr = VirtAddr::new(0x0000_0080_4020_1007);
    assert_eq!(addr.page_table_index(PageTableLevel::Four), 1);
    assert_eq!(addr.page_table_index(PageTableLevel::Three), 1);
    assert_eq!(addr.page_table_index(PageTableLevel::Two), 1);
    assert_eq!(addr.page_table_index(PageTableLevel::One), 1);
    assert_eq!(addr.page_offset(), 7);
}

#[test]
fn canonical_addresses_are_accepted() {
    assert_eq!(VirtAddr::try_new(0).unwrap().as_u64(), 0);
    assert_eq!(VirtAddr::try_new(0x7fff_ffff_ffff).unwrap().as_u64(), 0x7fff_ffff_ffff);
    assert_eq!(
        VirtAddr::try_new(0xffff_8000_0000_0000).unwrap().as_u64(),
        0xffff_8000_0000_0000
    );
}

#[test]
fn addresses_in_the_gap_are_refused() {
    assert!(VirtAddr::try_new(0x8000_0000_0000).is_none());
    assert!(VirtAddr::try_new(0xffff_7fff_ffff_ffff).is_none());
    assert!(VirtAddr::try_new(0x1234_0000_0000_0000).is_none());
}

#[test]
fn physical_addresses_have_52_bits() {
    assert_eq!(PhysAddr::try_new(0xf_ffff_ffff_ffff).unwrap().as_u64(), 0xf_ffff_ffff_ffff);
    assert!(PhysAddr::try_new(0x10_0000_0000_0000).is_none());
    assert!(PhysAddr::try_new(u64::MAX).is_none());
}

#[test]
fn frame_that_holds_an_address() {
    let frame = PhysFrame::containing_address(PhysAddr::new(0xb8123));
    assert_eq!(frame.start_address().as_u64(), 0xb8000);
    let first = PhysFrame::containing_address(PhysAddr::new(0xfff));
    assert_eq!(first.start_address().as_u64(), 0);
}

#[test]
fn frame_from_its_start() {
    let frame = PhysFrame::from_start_address(PhysAddr::new(0x7000)).unwrap();
    assert_eq!(frame, PhysFrame::containing_address(PhysAddr::new(0x7abc)));
    assert!(PhysFrame::from_start_address(PhysAddr::new(0x7001)).is_none());
}

#[test]
fn page_that_holds_an_address() {
    let page = Page::containing_address(VirtAddr::new(0x4444_4445_8fff));
    assert_eq!(page.start_address().as_u64(), 0x4444_4445_8000);
    let high = Page::containing_address(VirtAddr::new(0xffff_8000_0000_0001));
    assert_eq!(high.start_address().as_u64(), 0xffff_8000_0000_0000);
}

#[test]
fn levels_go_down_to_one() {
    assert_eq!(PageTableLevel::Four.next_lower_level(), Some(PageTableLevel::Three));
    assert_eq!(PageTableLevel::Three.next_lower_level(), Some(PageTableLevel::Two));
    assert_eq!(PageTableLevel::Two.next_lower_level(), Some(PageTableLevel::One));
    assert_eq!(PageTableLevel::One.next_lower_level(), None);
}

#[test]
fn flags_are_bits_outside_the_address() {
    assert_eq!(PageTableFlags::empty().bits(), 0);
    assert_eq!(PageTableFlags::present().bits(), 1);
    assert_eq!(PageTableFlags::writable().bits(), 2);
    assert_eq!(PageTableFlags::huge_page().bits(), 0x80);
    assert_eq!(PageTableFlags::present_writable().bits(), 3);
    assert_eq!(
        PageTableFlags::from_bits_truncate(0xffff_ffff_ffff_ffff).bits(),
        0xfff0_0000_0000_0fff
    );
}

#[test]
fn flags_union_and_contains() {
    let both = PageTableFlags::present().union(PageTableFlags::writable());
    assert_eq!(both, PageTableFlags::present_writable());
    assert!(both.contains(PageTableFlags::present()));
    assert!(both.contains(PageTableFlags::writable()));
    assert!(!both.contains(PageTableFlags::huge_page()));
    assert!(!PageTableFlags::present().contains(both));
    assert!(both.contains(PageTableFlags::empty()));
}
