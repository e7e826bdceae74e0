use bootloader::bootinfo::FrameRange;
use bootloader::bootinfo::MemoryMap;
use bootloader::bootinfo::MemoryRegion;
use bootloader::bootinfo::MemoryRegionType;
use near_os::addr::PhysAddr;
use near_os::addr::PhysFrame;
use near_os::memory::BootInfoFrameAllocator;
use near_os::memory::EmptyFrameAllocator;
use near_os::memory::FrameAllocator;

fn memory_map(regions: &[(u64, u64, MemoryRegionType)]) -> &'static MemoryMap {
    let mut map = MemoryMap::new();
    for &(start, end, region_type) in regions {
        map.add_region(MemoryRegion { range: FrameRange::new(start, end), region_type });
    }
    Box::leak(Box::new(map))
}

fn frame_at(addr: u64) -> PhysFrame {
    PhysFrame::containing_address(PhysAddr::new(addr))
}

#[test]
fn one_usable_megabyte_gives_256_frames_in_order() {
    let map = memory_map(&[(0x0, 0x10_0000, MemoryRegionType::Usable)]);
    let mut allocator = BootInfoFrameAllocator::init(map);
    assert_eq!(allocator.allocate_frame(), Some(frame_at(0x0)));
    assert_eq!(allocator.allocate_frame(), Some(frame_at(0x1000)));
    for n in 2..256u64 {
        let frame = allocator.allocate_frame().unwrap();
        assert_eq!(frame.start_address().as_u64(), n * 0x1000);
    }
    assert_eq!(allocator.allocate_frame(), None);
}

#[test]
fn last_frame_of_the_megabyte_is_0xff000() {
    let map = memory_map(&[(0x0, 0x10_0000, MemoryRegionType::Usable)]);
    let mut allocator = BootInfoFrameAllocator::init(map);
    let mut last = None;
    for _ in 0..256 {
        last = allocator.allocate_frame();
    }
    assert_eq!(last, Some(frame_at(0xff000)));
}

#[test]
fn exhaustion_is_sticky() {
    let map = memory_map(&[(0x5000, 0x7000, MemoryRegionType::Usable)]);
    let mut allocator = BootInfoFrameAllocator::init(map);
    assert_eq!(allocator.allocate_frame(), Some(frame_at(0x5000)));
    assert_eq!(allocator.allocate_frame(), Some(frame_at(0x6000)));
    for _ in 0..1000 {
        assert_eq!(allocator.allocate_frame(), None);
    }
}

#[test]
fn only_usable_regions_give_frames() {
    let map = memory_map(&[
        (0x0, 0x2000, MemoryRegionType::Reserved),
        (0x2000, 0x4000, MemoryRegionType::Usable),
        (0x4000, 0x8000, MemoryRegionType::Kernel),
        (0x8000, 0x9000, MemoryRegionType::Bootloader),
        (0x10_0000, 0x10_3000, MemoryRegionType::Usable),
        (0x10_3000, 0x10_4000, MemoryRegionType::AcpiReclaimable),
    ]);
    let mut allocator = BootInfoFrameAllocator::init(map);
    let expected = [0x2000u64, 0x3000, 0x10_0000, 0x10_1000, 0x10_2000];
    for &addr in expected.iter() {
        assert_eq!(allocator.allocate_frame(), Some(frame_at(addr)));
    }
    assert_eq!(allocator.allocate_frame(), None);
}

#[test]
fn frames_are_distinct_and_page_aligned() {
    let map = memory_map(&[
        (0x1000, 0x9000, MemoryRegionType::Usable),
        (0x9000, 0xa000, MemoryRegionType::Reserved),
        (0x20_0000, 0x20_8000, MemoryRegionType::Usable),
    ]);
    let mut allocator = BootInfoFrameAllocator::init(map);
    let mut seen: Vec<u64> = Vec::new();
    while let Some(frame) = allocator.allocate_frame() {
        let start = frame.start_address().as_u64();
        assert_eq!(start % 4096, 0);
        assert!(!seen.contains(&start));
        if let Some(&before) = seen.last() {
            assert!(before < start);
        }
        seen.push(start);
    }
    assert_eq!(seen.len(), 16);
}

#[test]
fn region_that_ends_inside_a_page_gives_the_whole_page() {
    let map = memory_map(&[(0x3000, 0x4801, MemoryRegionType::Usable)]);
    let mut allocator = BootInfoFrameAllocator::init(map);
    assert_eq!(allocator.allocate_frame(), Some(frame_at(0x3000)));
    assert_eq!(allocator.allocate_frame(), Some(frame_at(0x4000)));
    assert_eq!(allocator.allocate_frame(), None);
}

#[test]
fn map_without_regions_gives_nothing() {
    let map = memory_map(&[]);
    let mut allocator = BootInfoFrameAllocator::init(map);
    assert_eq!(allocator.allocate_frame(), None);
    assert_eq!(allocator.allocate_frame(), None);
}

#[test]
fn map_without_usable_region_gives_nothing() {
    let map = memory_map(&[
        (0x0, 0x1000, MemoryRegionType::FrameZero),
        (0x1000, 0x5000, MemoryRegionType::InUse),
    ]);
    let mut allocator = BootInfoFrameAllocator::init(map);
    assert_eq!(allocator.allocate_frame(), None);
}

#[test]
fn empty_allocator_gives_nothing() {
    let mut allocator = EmptyFrameAllocator;
    assert_eq!(allocator.allocate_frame(), None);
    assert_eq!(allocator.allocate_frame(), None);
}

#[test]
fn disjoint_regions_are_a_valid_map() {
    let map = memory_map(&[
        (0x0, 0x8000, MemoryRegionType::Usable),
        (0x4000, 0x10000, MemoryRegionType::Reserved),
        (0x8000, 0x10000, MemoryRegionType::Usable),
    ]);
    assert!(BootInfoFrameAllocator::is_valid_memory_map(map));
    assert!(BootInfoFrameAllocator::try_init(map).is_some());
}

#[test]
fn overlapping_usable_regions_are_no_valid_map() {
    let map = memory_map(&[
        (0x0, 0x8000, MemoryRegionType::Usable),
        (0x7000, 0x10000, MemoryRegionType::Usable),
    ]);
    assert!(!BootInfoFrameAllocator::is_valid_memory_map(map));
    assert!(BootInfoFrameAllocator::try_init(map).is_none());
}

#[test]
fn usable_region_beyond_52_bits_is_no_valid_map() {
    let map = memory_map(&[(0x10_0000_0000_0000, 0x10_0000_0000_2000, MemoryRegionType::Usable)]);
    assert!(!BootInfoFrameAllocator::is_valid_memory_map(map));
    assert!(BootInfoFrameAllocator::try_init(map).is_none());
}

#[test]
fn reserved_region_beyond_52_bits_is_ignored() {
    let map = memory_map(&[
        (0x1000, 0x2000, MemoryRegionType::Usable),
        (0x10_0000_0000_0000, 0x10_0000_0000_2000, MemoryRegionType::Reserved),
    ]);
    let mut allocator = BootInfoFrameAllocator::try_init(map).unwrap();
    assert_eq!(allocator.allocate_frame(), Some(frame_at(0x1000)));
    assert_eq!(allocator.allocate_frame(), None);
}

#[test]
fn usable_region_up_to_the_last_frame_is_valid() {
    let map = memory_map(&[(0xf_ffff_ffff_e000, 0x10_0000_0000_0000, MemoryRegionType::Usable)]);
    let mut allocator = BootInfoFrameAllocator::try_init(map).unwrap();
    assert_eq!(allocator.allocate_frame(), Some(frame_at(0xf_ffff_ffff_e000)));
    assert_eq!(allocator.allocate_frame(), Some(frame_at(0xf_ffff_ffff_f000)));
    assert_eq!(allocator.allocate_frame(), None);
}
