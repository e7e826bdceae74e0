use bootloader::bootinfo::FrameRange;
use bootloader::bootinfo::MemoryMap;
use bootloader::bootinfo::MemoryRegion;
use bootloader::bootinfo::MemoryRegionType;
use near_os::addr::Page;
use near_os::addr::PhysAddr;
use near_os::addr::PhysFrame;
use near_os::addr::VirtAddr;
use near_os::allocator::next_heap_mapping;
use near_os::allocator::init_heap;
use near_os::allocator::Dummy;
use near_os::allocator::HEAP_PAGES;
use near_os::allocator::HEAP_SIZE;
use near_os::allocator::HEAP_START;
use near_os::entry::PageTableFlags;
use near_os::memory::init;
use near_os::memory::mapper::MapToError;
use near_os::memory::mapper::OffsetPageTable;
use near_os::memory::physical::PhysicalMemory;
use near_os::memory::BootInfoFrameAllocator;
use near_os::memory::EmptyFrameAllocator;
use near_os::memory::FrameAllocator;

const ROOT: u64 = 0x20_0000;

fn usable(start: u64, end: u64) -> BootInfoFrameAllocator {
    let mut map = MemoryMap::new();
    map.add_region(MemoryRegion {
        range: FrameRange::new(start, end),
        region_type: MemoryRegionType::Usable,
    });
    BootInfoFrameAllocator::init(Box::leak(Box::new(map)))
}

fn frame_at(addr: u64) -> PhysFrame {
    PhysFrame::containing_address(PhysAddr::new(addr))
}

fn empty_mapper() -> OffsetPageTable {
    init(0, frame_at(ROOT), PhysicalMemory::new())
}

fn translated(mapper: &OffsetPageTable, addr: u64) -> Result<Option<u64>, MapToError> {
    mapper.try_translate_addr(VirtAddr::new(addr)).map(|found| found.map(|phys| phys.as_u64()))
}

#[test]
fn heap_is_100_kib_in_25_pages() {
    assert_eq!(HEAP_START, 0x4444_4444_0000);
    assert_eq!(HEAP_SIZE, 102_400);
    assert_eq!(HEAP_PAGES, 25);
    assert_eq!(HEAP_SIZE / 4096, HEAP_PAGES);
}

#[test]
fn heap_is_mapped_page_by_page() {
    let mut mapper = empty_mapper();
    let mut frames = usable(0x0, 0x10_0000);
    let duties = init_heap(&mut mapper, &mut frames).unwrap();
    assert_eq!(duties.len(), 25);
    for (k, duty) in duties.into_iter().enumerate() {
        assert_eq!(duty.into_page().start_address().as_u64(), HEAP_START + k as u64 * 0x1000);
    }
    assert_eq!(translated(&mapper, HEAP_START), Ok(Some(0x0)));
    assert_eq!(translated(&mapper, HEAP_START + 0x1000), Ok(Some(0x4000)));
    for k in 1..25u64 {
        let page = HEAP_START + k * 0x1000;
        assert_eq!(translated(&mapper, page), Ok(Some((k + 3) * 0x1000)));
        assert_eq!(translated(&mapper, page + 0xfff), Ok(Some((k + 3) * 0x1000 + 0xfff)));
    }
    assert_eq!(translated(&mapper, HEAP_START + HEAP_SIZE - 1), Ok(Some(27 * 0x1000 + 0xfff)));
    assert_eq!(translated(&mapper, HEAP_START + HEAP_SIZE), Ok(None));
    assert_eq!(translated(&mapper, HEAP_START - 1), Ok(None));
}

#[test]
fn heap_on_empty_tables_draws_28_frames() {
    let mut mapper = empty_mapper();
    let mut frames = usable(0x0, 0x10_0000);
    assert!(init_heap(&mut mapper, &mut frames).is_ok());
    assert_eq!(frames.allocate_frame(), Some(frame_at(28 * 0x1000)));
}

#[test]
fn heap_below_tables_that_exist_draws_25_frames() {
    let mut mapper = empty_mapper();
    let mut tables = usable(0x30_0000, 0x30_3000);
    let mapped = mapper.map_to(
        Page::containing_address(VirtAddr::new(HEAP_START + HEAP_SIZE)),
        frame_at(0x40_0000),
        PageTableFlags::present(),
        &mut tables,
    );
    assert!(mapped.is_ok());
    let mut frames = usable(0x0, 0x10_0000);
    assert!(init_heap(&mut mapper, &mut frames).is_ok());
    assert_eq!(frames.allocate_frame(), Some(frame_at(25 * 0x1000)));
    for k in 0..25u64 {
        assert_eq!(translated(&mapper, HEAP_START + k * 0x1000 + 8), Ok(Some(k * 0x1000 + 8)));
    }
    assert_eq!(translated(&mapper, HEAP_START + HEAP_SIZE + 8), Ok(Some(0x40_0008)));
    assert_eq!(translated(&mapper, HEAP_START + HEAP_SIZE + 0x1000), Ok(None));
    assert_eq!(translated(&mapper, HEAP_START - 0x1000), Ok(None));
}

#[test]
fn heap_frames_are_distinct() {
    let mut mapper = empty_mapper();
    let mut frames = usable(0x7000, 0x10_0000);
    assert!(init_heap(&mut mapper, &mut frames).is_ok());
    let mut seen: Vec<u64> = Vec::new();
    for k in 0..25u64 {
        let frame = translated(&mapper, HEAP_START + k * 0x1000).unwrap().unwrap();
        assert!(!seen.contains(&frame));
        seen.push(frame);
    }
    assert_eq!(seen.len(), 25);
}

#[test]
fn heap_with_exactly_28_frames_succeeds() {
    let mut mapper = empty_mapper();
    let mut frames = usable(0x0, 28 * 0x1000);
    assert!(init_heap(&mut mapper, &mut frames).is_ok());
    assert_eq!(frames.allocate_frame(), None);
}

#[test]
fn heap_with_27_frames_runs_out_at_the_last_page() {
    let mut mapper = empty_mapper();
    let mut frames = usable(0x0, 27 * 0x1000);
    assert_eq!(init_heap(&mut mapper, &mut frames).unwrap_err(), MapToError::FrameExhausted);
    assert_eq!(translated(&mapper, HEAP_START + 23 * 0x1000), Ok(Some(26 * 0x1000)));
    assert_eq!(translated(&mapper, HEAP_START + 24 * 0x1000), Ok(None));
}

#[test]
fn heap_without_frames_is_exhausted_at_once() {
    let mut mapper = empty_mapper();
    let mut none = EmptyFrameAllocator;
    assert_eq!(init_heap(&mut mapper, &mut none).unwrap_err(), MapToError::FrameExhausted);
    assert_eq!(translated(&mapper, HEAP_START), Ok(None));
}

#[test]
fn heap_with_one_frame_has_none_for_tables() {
    let mut mapper = empty_mapper();
    let mut frames = usable(0x0, 0x1000);
    assert_eq!(
        init_heap(&mut mapper, &mut frames).unwrap_err(),
        MapToError::IntermediateAllocationFailed
    );
}

#[test]
fn heap_with_three_frames_has_none_for_the_last_table() {
    let mut mapper = empty_mapper();
    let mut frames = usable(0x0, 0x3000);
    assert_eq!(
        init_heap(&mut mapper, &mut frames).unwrap_err(),
        MapToError::IntermediateAllocationFailed
    );
    assert_eq!(frames.allocate_frame(), None);
}

#[test]
fn heap_over_a_mapped_page_fails() {
    let mut mapper = empty_mapper();
    let mut frames = usable(0x0, 0x10_0000);
    let mapped = mapper.map_to(
        Page::containing_address(VirtAddr::new(HEAP_START + 2 * 0x1000)),
        frame_at(0x40_0000),
        PageTableFlags::present(),
        &mut frames,
    );
    assert!(mapped.is_ok());
    assert_eq!(init_heap(&mut mapper, &mut frames).unwrap_err(), MapToError::AlreadyMapped);
    assert_eq!(translated(&mapper, HEAP_START), Ok(Some(0x3000)));
    assert_eq!(translated(&mapper, HEAP_START + 0x1000), Ok(Some(0x4000)));
    assert_eq!(translated(&mapper, HEAP_START + 0x2000), Ok(Some(0x40_0000)));
    assert_eq!(translated(&mapper, HEAP_START + 0x3000), Ok(None));
    assert_eq!(frames.allocate_frame(), Some(frame_at(0x6000)));
}

#[test]
fn heap_cannot_be_mapped_twice() {
    let mut mapper = empty_mapper();
    let mut frames = usable(0x0, 0x10_0000);
    assert!(init_heap(&mut mapper, &mut frames).is_ok());
    assert_eq!(init_heap(&mut mapper, &mut frames).unwrap_err(), MapToError::AlreadyMapped);
}

#[test]
fn dummy_allocator_gives_nothing() {
    let dummy = Dummy;
    assert_eq!(dummy.allocate(8, 8), None);
    assert_eq!(dummy.allocate(0, 1), None);
    assert_eq!(dummy.allocate(4096, 4096), None);
}

#[test]
fn next_mapping_of_the_heap_draws_one_frame() {
    let mut frames = usable(0x5000, 0x7000);
    let (page, frame, flags) = next_heap_mapping(0, &mut frames).unwrap();
    assert_eq!(page.start_address().as_u64(), 0x4444_4444_0000);
    assert_eq!(frame, frame_at(0x5000));
    assert_eq!(flags, PageTableFlags::present_writable());
    let (page, frame, flags) = next_heap_mapping(24, &mut frames).unwrap();
    assert_eq!(page.start_address().as_u64(), 0x4444_4445_8000);
    assert_eq!(frame, frame_at(0x6000));
    assert_eq!(flags.bits(), 3);
    assert_eq!(next_heap_mapping(1, &mut frames).unwrap_err(), MapToError::FrameExhausted);
    assert_eq!(next_heap_mapping(1, &mut frames).unwrap_err(), MapToError::FrameExhausted);
}
