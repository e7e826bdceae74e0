//! The kernel heap: a fixed range of virtual memory that is mapped to fresh
//! frames, page after page, before it is handed to the heap allocator.

use vstd::prelude::*;
use crate::addr::Page;
use crate::addr::PAGE_SIZE;
use crate::addr::PhysFrame;
use crate::addr::VirtAddr;
use crate::entry::PageTableFlags;
use crate::entry::TABLE_FLAGS;
use crate::memory::frame_allocator::first_of;
use crate::memory::frame_allocator::FrameAllocator;
use crate::memory::frame_allocator::rest_of;
use crate::memory::mapper::map_to;
use crate::memory::mapper::MapperFlush;
use crate::memory::mapper::Mapping;
use crate::memory::mapper::MapToError;
use crate::memory::mapper::OffsetPageTable;
use crate::memory::physical::Tables;

pub mod heap;
pub mod laws;

verus! {

/// The virtual address at which the heap starts.
pub const HEAP_START: u64 = 0x4444_4444_0000;

/// The size of the heap in bytes: 100 KiB.
pub const HEAP_SIZE: u64 = 100 * 1024;

/// The number of pages that the heap spans.
pub const HEAP_PAGES: u64 = 25;

/// The start of page `k` of the heap.
pub open spec fn heap_page(k: int) -> u64 {
    (HEAP_START + k * PAGE_SIZE) as u64
}

/// What mapping one page of the heap does: the next frame of the supply is
/// drawn and the page is mapped to it, present and writable.
pub open spec fn map_heap_page(mem: Tables, supply: Seq<u64>, root: u64, page: u64) -> Mapping {
    match first_of(supply) {
        None => Mapping { mem, supply, result: Err(MapToError::FrameExhausted) },
        Some(frame) => map_to(mem, rest_of(supply), root, page, frame, TABLE_FLAGS),
    }
}

/// What mapping the first `count` pages of the heap does, in ascending order
/// and up to the first failure, after which nothing more is done.
pub open spec fn map_heap_pages(mem: Tables, supply: Seq<u64>, root: u64, count: nat) -> Mapping
    decreases count,
{
    if count == 0 {
        Mapping { mem, supply, result: Ok(()) }
    } else {
        let before = map_heap_pages(mem, supply, root, (count - 1) as nat);
        match before.result {
            Err(_) => before,
            Ok(_) => map_heap_page(before.mem, before.supply, root, heap_page(count - 1)),
        }
    }
}

/// Once a page of the heap has failed, mapping more pages changes nothing.
pub proof fn lemma_map_heap_pages_failed(
    mem: Tables,
    supply: Seq<u64>,
    root: u64,
    failed: nat,
    count: nat,
)
    requires
        map_heap_pages(mem, supply, root, failed).result is Err,
        failed <= count,
    ensures
        map_heap_pages(mem, supply, root, count) == map_heap_pages(mem, supply, root, failed),
    decreases count,
{
    if failed < count {
        lemma_map_heap_pages_failed(mem, supply, root, failed, (count - 1) as nat);
    }
}

/// What to map for page `k` of the heap: the page, the next frame of
/// `frame_allocator`, and the flags present and writable; the error
/// `FrameExhausted` where no frame is left.
pub fn next_heap_mapping<A: FrameAllocator>(k: u64, frame_allocator: &mut A) -> (mapping: Result<
    (Page, PhysFrame, PageTableFlags),
    MapToError,
>)
    requires
        k < HEAP_PAGES,
        old(frame_allocator).wf(),
    ensures
        final(frame_allocator).wf(),
        final(frame_allocator).supply() == rest_of(old(frame_allocator).supply()),
        match mapping {
            Ok((page, frame, flags)) => page.start() == heap_page(k as int) && first_of(
                old(frame_allocator).supply(),
            ) == Some(frame.start()) && flags.value() == TABLE_FLAGS,
            Err(e) => e == MapToError::FrameExhausted && first_of(old(frame_allocator).supply())
                is None,
        },
{
    let page = Page::containing_address(VirtAddr::new(HEAP_START + k * PAGE_SIZE));
    match frame_allocator.allocate_frame() {
        Some(frame) => Ok((page, frame, PageTableFlags::present_writable())),
        None => Err(MapToError::FrameExhausted),
    }
}

/// Maps the pages of the heap, in ascending order, each to the next frame of
/// `frame_allocator`, present and writable. The first page that cannot be
/// mapped ends the work with its error; what was mapped before it stays. Where
/// every page was mapped, the duties that the mappings leave are handed back,
/// page by page: once they are done, the range may go to the heap allocator.
pub fn init_heap<A: FrameAllocator>(mapper: &mut OffsetPageTable, frame_allocator: &mut A) -> (heap:
    Result<Vec<MapperFlush>, MapToError>)
    requires
        old(mapper).wf(),
        old(frame_allocator).wf(),
    ensures
        final(mapper).wf(),
        final(frame_allocator).wf(),
        final(mapper).root() == old(mapper).root(),
        final(mapper).offset() == old(mapper).offset(),
        final(mapper)@ == map_heap_pages(
            old(mapper)@,
            old(frame_allocator).supply(),
            old(mapper).root(),
            HEAP_PAGES as nat,
        ).mem,
        final(frame_allocator).supply() == map_heap_pages(
            old(mapper)@,
            old(frame_allocator).supply(),
            old(mapper).root(),
            HEAP_PAGES as nat,
        ).supply,
        match heap {
            Ok(duties) => map_heap_pages(
                old(mapper)@,
                old(frame_allocator).supply(),
                old(mapper).root(),
                HEAP_PAGES as nat,
            ).result is Ok && duties.len() == HEAP_PAGES && forall|k: int|
                0 <= k < HEAP_PAGES ==> (#[trigger] duties[k]).page().start() == heap_page(k),
            Err(e) => map_heap_pages(
                old(mapper)@,
                old(frame_allocator).supply(),
                old(mapper).root(),
                HEAP_PAGES as nat,
            ).result == Err::<(), MapToError>(e),
        },
{
    let ghost mem = mapper@;
    let ghost supply = frame_allocator.supply();
    let ghost root = mapper.root();
    let mut duties: Vec<MapperFlush> = Vec::new();
    let mut k: u64 = 0;
    while k < HEAP_PAGES
        invariant
            mapper.wf(),
            frame_allocator.wf(),
            mapper.root() == root,
            root == old(mapper).root(),
            mem == old(mapper)@,
            supply == old(frame_allocator).supply(),
            mapper.offset() == old(mapper).offset(),
            k <= HEAP_PAGES,
            map_heap_pages(mem, supply, root, k as nat).result is Ok,
            mapper@ == map_heap_pages(mem, supply, root, k as nat).mem,
            frame_allocator.supply() == map_heap_pages(mem, supply, root, k as nat).supply,
            duties.len() == k,
            forall|j: int| 0 <= j < k ==> (#[trigger] duties[j]).page().start() == heap_page(j),
        decreases HEAP_PAGES - k,
    {
        proof {
            if map_heap_pages(mem, supply, root, (k + 1) as nat).result is Err {
                lemma_map_heap_pages_failed(mem, supply, root, (k + 1) as nat, HEAP_PAGES as nat);
            }
        }
        let (page, frame, flags) = next_heap_mapping(k, frame_allocator)?;
        let duty = mapper.map_to(page, frame, flags, frame_allocator)?;
        duties.push(duty);
        k += 1;
    }
    Ok(duties)
}

/// The allocator that has no memory to give.
pub struct Dummy;

impl Dummy {
    /// The address of a block of `size` bytes aligned to `align`: always
    /// nothing.
    pub fn allocate(&self, size: usize, align: usize) -> (block: Option<usize>)
        ensures
            block is None,
    {
        None
    }
}

} // verus!
