//! Frames, page tables and the mapping of pages to frames.

use vstd::prelude::*;
use crate::addr::is_canonical;
use crate::addr::Page;
use crate::addr::PhysAddr;
use crate::addr::PhysFrame;
use crate::addr::VirtAddr;
use crate::entry::PageTableFlags;
use crate::entry::TABLE_FLAGS;
use crate::memory::mapper::map_to;
use crate::memory::mapper::MapperFlush;
use crate::memory::mapper::MapToError;
use crate::memory::mapper::OffsetPageTable;
use crate::memory::mapper::translate;
use crate::memory::physical::PhysicalMemory;

pub mod frame_allocator;
pub mod laws;
pub mod mapper;
pub mod physical;

pub use crate::memory::frame_allocator::BootInfoFrameAllocator;
pub use crate::memory::frame_allocator::EmptyFrameAllocator;
pub use crate::memory::frame_allocator::FrameAllocator;

verus! {

/// The physical address of the text buffer of the screen.
pub const VGA_BUFFER: u64 = 0xb8000;

/// The mapper over the active tables: `level_4_frame` is the frame that the
/// processor names as that of its root table, `memory` holds the tables, and
/// the kernel sees physical memory at `physical_memory_offset`.
pub fn init(physical_memory_offset: u64, level_4_frame: PhysFrame, memory: PhysicalMemory) -> (mapper:
    OffsetPageTable)
    requires
        memory.wf(),
    ensures
        mapper.wf(),
        mapper@ == memory@,
        mapper.root() == level_4_frame.start(),
        mapper.offset() == physical_memory_offset,
{
    OffsetPageTable::new(memory, level_4_frame, physical_memory_offset)
}

/// The virtual address at which the kernel sees `frame` when it sees physical
/// memory at `physical_memory_offset`: the sum of the two, where that is a
/// canonical address of 64 bits, and nothing where it is not.
pub fn phys_to_virt(frame: PhysFrame, physical_memory_offset: u64) -> (virt: Option<VirtAddr>)
    ensures
        virt is Some <==> frame.start() + physical_memory_offset <= u64::MAX && is_canonical(
            (frame.start() + physical_memory_offset) as u64,
        ),
        virt matches Some(v) ==> v.value() == frame.start() + physical_memory_offset,
{
    match frame.start_address().as_u64().checked_add(physical_memory_offset) {
        Some(sum) => VirtAddr::try_new(sum),
        None => None,
    }
}

/// Maps `page` to the frame of the text buffer of the screen, present and
/// writable, where that succeeds: the page has no entry yet, no huge frame
/// lies on the way, and `frame_allocator` has a frame for each table that is
/// missing. For a page of which this is not known there is
/// [`try_create_example_mapping`].
pub fn create_example_mapping<A: FrameAllocator>(
    page: Page,
    mapper: &mut OffsetPageTable,
    frame_allocator: &mut A,
) -> (flush: MapperFlush)
    requires
        old(mapper).wf(),
        old(frame_allocator).wf(),
        map_to(
            old(mapper)@,
            old(frame_allocator).supply(),
            old(mapper).root(),
            page.start(),
            VGA_BUFFER,
            TABLE_FLAGS,
        ).result is Ok,
    ensures
        final(mapper).wf(),
        final(frame_allocator).wf(),
        final(mapper).root() == old(mapper).root(),
        final(mapper).offset() == old(mapper).offset(),
        final(mapper)@ == map_to(
            old(mapper)@,
            old(frame_allocator).supply(),
            old(mapper).root(),
            page.start(),
            VGA_BUFFER,
            TABLE_FLAGS,
        ).mem,
        final(frame_allocator).supply() == map_to(
            old(mapper)@,
            old(frame_allocator).supply(),
            old(mapper).root(),
            page.start(),
            VGA_BUFFER,
            TABLE_FLAGS,
        ).supply,
        flush.page() == page,
{
    try_create_example_mapping(page, mapper, frame_allocator).unwrap()
}

/// Maps `page` to the frame of the text buffer of the screen, present and
/// writable, or says why that cannot be done.
pub fn try_create_example_mapping<A: FrameAllocator>(
    page: Page,
    mapper: &mut OffsetPageTable,
    frame_allocator: &mut A,
) -> (flush: Result<MapperFlush, MapToError>)
    requires
        old(mapper).wf(),
        old(frame_allocator).wf(),
    ensures
        final(mapper).wf(),
        final(frame_allocator).wf(),
        final(mapper).root() == old(mapper).root(),
        final(mapper).offset() == old(mapper).offset(),
        final(mapper)@ == map_to(
            old(mapper)@,
            old(frame_allocator).supply(),
            old(mapper).root(),
            page.start(),
            VGA_BUFFER,
            TABLE_FLAGS,
        ).mem,
        final(frame_allocator).supply() == map_to(
            old(mapper)@,
            old(frame_allocator).supply(),
            old(mapper).root(),
            page.start(),
            VGA_BUFFER,
            TABLE_FLAGS,
        ).supply,
        match flush {
            Ok(f) => f.page() == page && map_to(
                old(mapper)@,
                old(frame_allocator).supply(),
                old(mapper).root(),
                page.start(),
                VGA_BUFFER,
                TABLE_FLAGS,
            ).result is Ok,
            Err(e) => map_to(
                old(mapper)@,
                old(frame_allocator).supply(),
                old(mapper).root(),
                page.start(),
                VGA_BUFFER,
                TABLE_FLAGS,
            ).result == Err::<(), MapToError>(e),
        },
{
    let frame = PhysFrame::containing_address(PhysAddr::new(VGA_BUFFER));
    let flags = PageTableFlags::present().union(PageTableFlags::writable());
    assert(flags.value() == TABLE_FLAGS) by {
        assert(1u64 | 2u64 == 3u64) by (bit_vector);
    }
    mapper.map_to(page, frame, flags, frame_allocator)
}

/// The physical address that `addr` stands for under the tables of `mapper`,
/// where the walk for it meets no huge frame. For tables that may hold a huge
/// frame there is [`try_translate_addr`].
pub fn translate_addr(addr: VirtAddr, mapper: &OffsetPageTable) -> (phys: Option<PhysAddr>)
    requires
        mapper.wf(),
        !(translate(mapper@, mapper.root(), addr.value()) is Err),
    ensures
        match phys {
            Some(p) => translate(mapper@, mapper.root(), addr.value()) == Ok::<
                Option<u64>,
                MapToError,
            >(Some(p.value())),
            None => translate(mapper@, mapper.root(), addr.value()) == Ok::<
                Option<u64>,
                MapToError,
            >(None),
        },
{
    mapper.translate_addr(addr)
}

/// The physical address that `addr` stands for under the tables of `mapper`;
/// the error `UnsupportedHugePage` where the walk for it meets a huge frame.
pub fn try_translate_addr(addr: VirtAddr, mapper: &OffsetPageTable) -> (phys: Result<
    Option<PhysAddr>,
    MapToError,
>)
    requires
        mapper.wf(),
    ensures
        match phys {
            Ok(Some(p)) => translate(mapper@, mapper.root(), addr.value()) == Ok::<
                Option<u64>,
                MapToError,
            >(Some(p.value())),
            Ok(None) => translate(mapper@, mapper.root(), addr.value()) == Ok::<
                Option<u64>,
                MapToError,
            >(None),
            Err(e) => translate(mapper@, mapper.root(), addr.value()) == Err::<
                Option<u64>,
                MapToError,
            >(e),
        },
{
    mapper.try_translate_addr(addr)
}

} // verus!
