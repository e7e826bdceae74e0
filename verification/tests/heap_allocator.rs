use linked_list_allocator::Heap;
use near_os::allocator::heap::allocate;
use near_os::allocator::heap::judge_block;
use near_os::allocator::heap::AllocError;
use near_os::allocator::heap::HeapRegion;
use std::mem::MaybeUninit;

fn heap_of(bytes: usize) -> (Heap, HeapRegion) {
    let memory = vec![MaybeUninit::<u8>::uninit(); bytes].into_boxed_slice();
    let heap = Heap::from_slice(Box::leak(memory));
    let region = HeapRegion { start: heap.bottom() as usize, size: heap.size() };
    (heap, region)
}

#[test]
fn block_lies_inside_the_heap() {
    let (mut heap, region) = heap_of(4096);
    let block = allocate(&mut heap, region, 64, 8).unwrap();
    assert!(region.start <= block);
    assert!(block + 64 <= region.start + region.size);
    assert_eq!(block % 8, 0);
    assert!(region.contains_block(block, 64));
}

#[test]
fn blocks_do_not_overlap() {
    let (mut heap, region) = heap_of(4096);
    let first = allocate(&mut heap, region, 100, 4).unwrap();
    let second = allocate(&mut heap, region, 100, 4).unwrap();
    assert!(first + 100 <= second || second + 100 <= first);
    assert!(region.contains_block(second, 100));
}

#[test]
fn block_is_aligned() {
    let (mut heap, region) = heap_of(8192);
    let block = allocate(&mut heap, region, 32, 256).unwrap();
    assert_eq!(block % 256, 0);
    assert!(region.contains_block(block, 32));
}

#[test]
fn request_beyond_the_free_bytes_is_turned_down() {
    let (mut heap, region) = heap_of(4096);
    let free = heap.free();
    let used = heap.used();
    assert_eq!(allocate(&mut heap, region, free + 1, 1), Err(AllocError::OutOfMemory));
    assert_eq!(heap.free(), free);
    assert_eq!(heap.used(), used);
    assert!(allocate(&mut heap, region, 64, 8).is_ok());
}

#[test]
fn heap_runs_out_and_stays_as_it_is() {
    let (mut heap, region) = heap_of(1024);
    let mut blocks = 0;
    while allocate(&mut heap, region, 128, 8).is_ok() {
        blocks += 1;
        assert!(blocks <= 8);
    }
    assert!(blocks >= 7);
    let free = heap.free();
    assert_eq!(allocate(&mut heap, region, 128, 8), Err(AllocError::OutOfMemory));
    assert_eq!(heap.free(), free);
}

#[test]
fn alignment_must_be_a_power_of_two() {
    let (mut heap, region) = heap_of(4096);
    let free = heap.free();
    assert_eq!(allocate(&mut heap, region, 8, 0), Err(AllocError::InvalidAlignment));
    assert_eq!(allocate(&mut heap, region, 8, 3), Err(AllocError::InvalidAlignment));
    assert_eq!(allocate(&mut heap, region, 8, 24), Err(AllocError::InvalidAlignment));
    assert_eq!(heap.free(), free);
    assert!(allocate(&mut heap, region, 8, 1).is_ok());
}

#[test]
fn heap_without_memory_gives_nothing() {
    let mut heap = Heap::empty();
    let region = HeapRegion { start: 0, size: 0 };
    assert_eq!(allocate(&mut heap, region, 1, 1), Err(AllocError::OutOfMemory));
    assert_eq!(allocate(&mut heap, region, 16, 8), Err(AllocError::OutOfMemory));
}

#[test]
fn block_outside_the_region_is_not_handed_out() {
    let (mut heap, region) = heap_of(4096);
    let elsewhere = HeapRegion { start: region.start + region.size, size: 4096 };
    assert_eq!(allocate(&mut heap, elsewhere, 64, 8), Err(AllocError::OutsideHeap));
}

#[test]
fn answer_of_the_allocator_is_judged() {
    let region = HeapRegion { start: 0x4444_4444_0000, size: 100 * 1024 };
    assert_eq!(judge_block(None, region, 8), Err(AllocError::OutOfMemory));
    assert_eq!(judge_block(Some(0x4444_4444_0000), region, 8), Ok(0x4444_4444_0000));
    assert_eq!(judge_block(Some(0x4444_4445_8ff8), region, 8), Ok(0x4444_4445_8ff8));
    assert_eq!(judge_block(Some(0x4444_4445_8ff9), region, 8), Err(AllocError::OutsideHeap));
    assert_eq!(judge_block(Some(0x4444_4443_ffff), region, 8), Err(AllocError::OutsideHeap));
    assert_eq!(judge_block(Some(0x4444_4444_0000), region, 100 * 1024), Ok(0x4444_4444_0000));
    assert_eq!(
        judge_block(Some(0x4444_4444_0000), region, 100 * 1024 + 1),
        Err(AllocError::OutsideHeap)
    );
    assert_eq!(judge_block(Some(usize::MAX), region, usize::MAX), Err(AllocError::OutsideHeap));
}

#[test]
fn region_holds_the_blocks_inside_it() {
    let region = HeapRegion { start: 0x1000, size: 0x100 };
    assert!(region.contains_block(0x1000, 0));
    assert!(region.contains_block(0x1000, 0x100));
    assert!(region.contains_block(0x10ff, 1));
    assert!(region.contains_block(0x1100, 0));
    assert!(!region.contains_block(0x1100, 1));
    assert!(!region.contains_block(0xfff, 1));
    assert!(!region.contains_block(0x1001, 0x100));
}

#[test]
fn request_that_no_hole_fits_leaves_the_heap_as_it_was() {
    let (mut heap, region) = heap_of(4096);
    let free = heap.free();
    assert_eq!(allocate(&mut heap, region, free - 8, 8), Err(AllocError::OutOfMemory));
    assert_eq!(heap.free(), free);
    assert_eq!(heap.used(), 0);
    let block = allocate(&mut heap, region, free, 8).unwrap();
    assert!(region.contains_block(block, free));
    assert_eq!(heap.free(), 0);
}

#[test]
fn request_too_large_for_any_layout_is_out_of_memory() {
    let (mut heap, region) = heap_of(4096);
    let free = heap.free();
    assert_eq!(allocate(&mut heap, region, 16, 1 << 63), Err(AllocError::OutOfMemory));
    assert_eq!(heap.free(), free);
}

#[test]
fn free_bytes_shrink_by_what_the_allocator_takes() {
    let (mut heap, region) = heap_of(4096);
    let word = std::mem::size_of::<usize>();
    let free = heap.free();
    assert!(allocate(&mut heap, region, 1, 1).is_ok());
    assert_eq!(heap.free(), free - 2 * word);
    assert!(allocate(&mut heap, region, 2 * word + 1, 1).is_ok());
    assert_eq!(heap.free(), free - 5 * word);
    assert!(allocate(&mut heap, region, 8 * word, 2 * word).is_ok());
    assert_eq!(heap.free(), free - 13 * word);
}

#[test]
fn blocks_start_at_multiples_of_their_alignment() {
    let (mut heap, region) = heap_of(16384);
    let aligns: [usize; 6] = [1, 2, 8, 64, 512, 4096];
    for &align in aligns.iter() {
        let block = allocate(&mut heap, region, 24, align).unwrap();
        assert_eq!(block % align, 0);
        assert!(region.contains_block(block, 24));
    }
}
