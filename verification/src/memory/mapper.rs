//! The mapper: the root table, the memory that holds the tables below it, and
//! the two walks over them, one that reads and one that maps.

use vstd::prelude::*;
use crate::addr::is_frame_start;
use crate::addr::Page;
use crate::addr::PAGE_SIZE;
use crate::addr::PageTableLevel;
use crate::addr::PhysAddr;
use crate::addr::PhysFrame;
use crate::addr::VirtAddr;
use crate::entry::entry_of;
use crate::entry::frame_of;
use crate::entry::FrameError;
use crate::entry::PageTableFlags;
use crate::entry::TABLE_FLAGS;
use crate::memory::frame_allocator::first_of;
use crate::memory::frame_allocator::FrameAllocator;
use crate::memory::frame_allocator::rest_of;
use crate::memory::physical::entry_at;
use crate::memory::physical::PhysicalMemory;
use crate::memory::physical::Tables;
use crate::memory::physical::tables_wf;
use crate::memory::physical::with_empty_table;
use crate::memory::physical::with_entry;
use crate::x86::table_index;

verus! {

/// Why a page could not be mapped, or an address not be translated.
#[derive(Clone, Copy, PartialEq, Eq, Structural, Debug)]
pub enum MapToError {
    /// No usable frame is left for the page itself.
    FrameExhausted,
    /// The page has an entry already.
    AlreadyMapped,
    /// An entry on the way maps a huge frame.
    UnsupportedHugePage,
    /// No usable frame is left for a table on the way to the page.
    IntermediateAllocationFailed,
    /// An entry on the way is in use without being present: it leads to no
    /// table, and it is not overwritten.
    MalformedEntry,
}

/// Where the walk for an address ends.
pub enum Walk {
    /// At the frame that starts at the given address.
    Mapped(u64),
    /// At an entry that is not present.
    NotMapped,
    /// At a present entry that maps a huge frame.
    HugePage,
}

/// The walk for `addr` from the table of `level` in the frame at `table`: at
/// each level the entry that `addr` selects is followed, down to level one.
pub open spec fn walk(mem: Tables, table: u64, addr: u64, level: PageTableLevel) -> Walk
    decreases level.number(),
{
    match frame_of(entry_at(mem, table, table_index(addr, level))) {
        Err(FrameError::FrameNotPresent) => Walk::NotMapped,
        Err(FrameError::HugeFrame) => Walk::HugePage,
        Ok(next) => match level.lower() {
            None => Walk::Mapped(next),
            Some(lower) => walk(mem, next, addr, lower),
        },
    }
}

/// The physical address that `addr` stands for under the tables of `mem` with
/// the root table in the frame at `root`: the frame that the walk ends at plus
/// the offset of `addr` in its page; nothing where the walk meets an entry that
/// is not present; an error where it meets a huge frame.
pub open spec fn translate(mem: Tables, root: u64, addr: u64) -> Result<Option<u64>, MapToError> {
    match walk(mem, root, addr, PageTableLevel::Four) {
        Walk::Mapped(frame) => Ok(Some((frame + addr % PAGE_SIZE) as u64)),
        Walk::NotMapped => Ok(None),
        Walk::HugePage => Err(MapToError::UnsupportedHugePage),
    }
}

/// What the walk for an address does after it has read an entry.
#[derive(Clone, Copy, PartialEq, Eq, Structural, Debug)]
pub enum WalkStep {
    /// It goes on in the table of the next lower level in the given frame.
    Descend(PhysFrame, PageTableLevel),
    /// It ends: the address stands for the given physical address.
    Mapped(PhysAddr),
    /// It ends: the address stands for nothing.
    NotMapped,
    /// It ends at a huge frame.
    HugePage,
}

/// What the walk for `addr` does after it has read, in a table of `level`,
/// an entry that leads to `entry`: an entry that is not present ends the
/// walk, and so does one that maps a huge frame; at level one the walk ends
/// at the frame of the entry, and above level one it goes on in that frame.
pub fn walk_step(addr: VirtAddr, level: PageTableLevel, entry: Result<PhysFrame, FrameError>) -> (step:
    WalkStep)
    ensures
        match entry {
            Err(FrameError::FrameNotPresent) => step == WalkStep::NotMapped,
            Err(FrameError::HugeFrame) => step == WalkStep::HugePage,
            Ok(frame) => match level.lower() {
                Some(lower) => step == WalkStep::Descend(frame, lower),
                None => step matches WalkStep::Mapped(phys) && phys.value() == frame.start()
                    + addr.value() % PAGE_SIZE,
            },
        },
{
    match entry {
        Err(FrameError::FrameNotPresent) => WalkStep::NotMapped,
        Err(FrameError::HugeFrame) => WalkStep::HugePage,
        Ok(frame) => {
            match level.next_lower_level() {
                Some(lower) => WalkStep::Descend(frame, lower),
                None => {
                    let offset = addr.page_offset();
                    let start = frame.start_address().as_u64();
                    WalkStep::Mapped(PhysAddr::new(start + offset as u64))
                },
            }
        },
    }
}

/// Memory and supply of frames after one step down of the mapping walk, and
/// the table that the step arrived at.
pub struct Descent {
    pub mem: Tables,
    pub supply: Seq<u64>,
    pub table: Result<u64, MapToError>,
}

/// One step down of the mapping walk, from the entry at `index` of the table
/// in the frame at `table`. For an entry that is zero the next frame of the
/// supply is filled with zeroes and the entry is made to point to it, present
/// and writable; with the supply empty the step fails. Any other entry stays
/// as it is: a present one is followed, unless it maps a huge frame, and one
/// that is in use without being present ends the walk with an error.
pub open spec fn descend(mem: Tables, supply: Seq<u64>, table: u64, index: int) -> Descent {
    if entry_at(mem, table, index) == 0 {
        match first_of(supply) {
            None => Descent { mem, supply, table: Err(MapToError::IntermediateAllocationFailed) },
            Some(fresh) => Descent {
                mem: with_entry(with_empty_table(mem, fresh), table, index, entry_of(fresh, TABLE_FLAGS)),
                supply: rest_of(supply),
                table: Ok(fresh),
            },
        }
    } else {
        match frame_of(entry_at(mem, table, index)) {
            Ok(next) => Descent { mem, supply, table: Ok(next) },
            Err(FrameError::HugeFrame) => Descent {
                mem,
                supply,
                table: Err(MapToError::UnsupportedHugePage),
            },
            Err(FrameError::FrameNotPresent) => Descent {
                mem,
                supply,
                table: Err(MapToError::MalformedEntry),
            },
        }
    }
}

/// Memory and supply of frames after an attempt to map a page, and how the
/// attempt ended.
pub struct Mapping {
    pub mem: Tables,
    pub supply: Seq<u64>,
    pub result: Result<(), MapToError>,
}

/// The last step of the mapping walk, in the table of level one in the frame
/// at `table`: an entry that is zero is made to point to `frame` with `flags`;
/// any other stays and the attempt fails.
pub open spec fn map_leaf(
    mem: Tables,
    supply: Seq<u64>,
    table: u64,
    index: int,
    frame: u64,
    flags: u64,
) -> Mapping {
    if entry_at(mem, table, index) != 0 {
        Mapping { mem, supply, result: Err(MapToError::AlreadyMapped) }
    } else {
        Mapping { mem: with_entry(mem, table, index, entry_of(frame, flags)), supply, result: Ok(()) }
    }
}

/// The mapping walk from the table of `level`, above level one, in the frame
/// at `table`, down to level one.
pub open spec fn map_from(
    mem: Tables,
    supply: Seq<u64>,
    table: u64,
    level: PageTableLevel,
    page: u64,
    frame: u64,
    flags: u64,
) -> Mapping
    decreases level.number(),
{
    match level.lower() {
        None => map_leaf(mem, supply, table, table_index(page, level), frame, flags),
        Some(lower) => {
            let step = descend(mem, supply, table, table_index(page, level));
            match step.table {
                Err(e) => Mapping { mem: step.mem, supply: step.supply, result: Err(e) },
                Ok(next) => map_from(step.mem, step.supply, next, lower, page, frame, flags),
            }
        },
    }
}

/// What mapping the page at `page` to the frame at `frame` with `flags` does
/// to the tables of `mem` under the root table in the frame at `root`, drawing
/// the frames of new tables from `supply`.
pub open spec fn map_to(
    mem: Tables,
    supply: Seq<u64>,
    root: u64,
    page: u64,
    frame: u64,
    flags: u64,
) -> Mapping {
    map_from(mem, supply, root, PageTableLevel::Four, page, frame, flags)
}

/// The duty that a new mapping leaves: the translation cache may still hold
/// what the page stood for before, until the page is invalidated in it.
#[must_use]
#[derive(Debug)]
pub struct MapperFlush {
    page: Page,
}

impl MapperFlush {
    /// The page to invalidate.
    pub closed spec fn page(self) -> Page {
        self.page
    }

    /// Hands the duty on to the caller, who invalidates the page.
    pub fn into_page(self) -> (page: Page)
        ensures
            page == self.page(),
    {
        self.page
    }

    /// Drops the duty: the page is known to be in no translation cache, or
    /// is invalidated with others later.
    pub fn ignore(self) {
    }
}

/// The page tables of one address space: the frame of the root table, the
/// memory that holds the tables, and the offset at which the kernel sees
/// physical memory.
pub struct OffsetPageTable {
    memory: PhysicalMemory,
    level_4_frame: PhysFrame,
    physical_memory_offset: u64,
}

impl OffsetPageTable {
    /// The memory is well-formed and the root table fills a frame.
    pub closed spec fn wf(&self) -> bool {
        self.memory.wf() && self.level_4_frame.inv()
    }

    /// The tables in memory.
    pub closed spec fn view(&self) -> Tables {
        self.memory@
    }

    /// The start of the frame of the root table.
    pub closed spec fn root(&self) -> u64 {
        self.level_4_frame.start()
    }

    /// The offset at which the kernel sees physical memory.
    pub closed spec fn offset(&self) -> u64 {
        self.physical_memory_offset
    }

    /// What `wf` says of the tables: each fills a frame and has 512 entries.
    pub proof fn lemma_tables_wf(&self)
        requires
            self.wf(),
        ensures
            tables_wf(self@),
            is_frame_start(self.root()),
    {
        self.memory.lemma_view_wf();
        self.level_4_frame.lemma_inv();
    }

    /// The mapper over the tables of `memory` with the root table in
    /// `level_4_frame`.
    pub fn new(memory: PhysicalMemory, level_4_frame: PhysFrame, physical_memory_offset: u64) -> (mapper:
        OffsetPageTable)
        requires
            memory.wf(),
        ensures
            mapper.wf(),
            mapper@ == memory@,
            mapper.root() == level_4_frame.start(),
            mapper.offset() == physical_memory_offset,
    {
        proof {
            use_type_invariant(&level_4_frame);
        }
        OffsetPageTable { memory, level_4_frame, physical_memory_offset }
    }

    /// The memory that holds the tables.
    pub fn memory(&self) -> (memory: &PhysicalMemory)
        requires
            self.wf(),
        ensures
            memory.wf(),
            memory@ == self@,
    {
        &self.memory
    }

    /// The frame of the root table.
    pub fn level_4_frame(&self) -> (frame: PhysFrame)
        ensures
            frame.start() == self.root(),
    {
        self.level_4_frame
    }

    /// The offset at which the kernel sees physical memory.
    pub fn phys_offset(&self) -> (offset: u64)
        ensures
            offset == self.offset(),
    {
        self.physical_memory_offset
    }

    /// The physical address that `addr` stands for, found by a walk from the
    /// root table down to level one that meets no huge frame. For tables that
    /// may hold a huge frame there is [`OffsetPageTable::try_translate_addr`].
    pub fn translate_addr(&self, addr: VirtAddr) -> (phys: Option<PhysAddr>)
        requires
            self.wf(),
            !(translate(self@, self.root(), addr.value()) is Err),
        ensures
            match phys {
                Some(p) => translate(self@, self.root(), addr.value()) == Ok::<
                    Option<u64>,
                    MapToError,
                >(Some(p.value())),
                None => translate(self@, self.root(), addr.value()) == Ok::<
                    Option<u64>,
                    MapToError,
                >(None),
            },
    {
        self.try_translate_addr(addr).unwrap()
    }

    /// The physical address that `addr` stands for, found by a walk from the
    /// root table down to level one; the error `UnsupportedHugePage` where the
    /// walk meets a huge frame.
    pub fn try_translate_addr(&self, addr: VirtAddr) -> (phys: Result<Option<PhysAddr>, MapToError>)
        requires
            self.wf(),
        ensures
            match phys {
                Ok(Some(p)) => translate(self@, self.root(), addr.value()) == Ok::<
                    Option<u64>,
                    MapToError,
                >(Some(p.value())),
                Ok(None) => translate(self@, self.root(), addr.value()) == Ok::<
                    Option<u64>,
                    MapToError,
                >(None),
                Err(e) => translate(self@, self.root(), addr.value()) == Err::<
                    Option<u64>,
                    MapToError,
                >(e),
            },
    {
        let mut table = self.level_4_frame;
        let mut level = PageTableLevel::Four;
        loop
            invariant
                self.wf(),
                walk(self@, self.root(), addr.value(), PageTableLevel::Four) == walk(
                    self@,
                    table.start(),
                    addr.value(),
                    level,
                ),
            decreases level.number(),
        {
            let index = addr.page_table_index(level);
            let entry = self.memory.entry_frame(table, index);
            match walk_step(addr, level, entry) {
                WalkStep::NotMapped => {
                    return Ok(None);
                },
                WalkStep::HugePage => {
                    return Err(MapToError::UnsupportedHugePage);
                },
                WalkStep::Mapped(phys) => {
                    return Ok(Some(phys));
                },
                WalkStep::Descend(next, lower) => {
                    table = next;
                    level = lower;
                },
            }
        }
    }

    /// One step down of the mapping walk: see [`descend`].
    fn create_next_table<A: FrameAllocator>(
        &mut self,
        table: PhysFrame,
        index: u16,
        allocator: &mut A,
    ) -> (next: Result<PhysFrame, MapToError>)
        requires
            old(self).wf(),
            old(allocator).wf(),
            index < 512,
        ensures
            final(self).wf(),
            final(allocator).wf(),
            final(self).root() == old(self).root(),
            final(self).offset() == old(self).offset(),
            final(self)@ == descend(
                old(self)@,
                old(allocator).supply(),
                table.start(),
                index as int,
            ).mem,
            final(allocator).supply() == descend(
                old(self)@,
                old(allocator).supply(),
                table.start(),
                index as int,
            ).supply,
            match next {
                Ok(t) => descend(
                    old(self)@,
                    old(allocator).supply(),
                    table.start(),
                    index as int,
                ).table == Ok::<u64, MapToError>(t.start()),
                Err(e) => descend(
                    old(self)@,
                    old(allocator).supply(),
                    table.start(),
                    index as int,
                ).table == Err::<u64, MapToError>(e),
            },
    {
        if self.memory.entry_is_unused(table, index) {
            match allocator.allocate_frame() {
                None => Err(MapToError::IntermediateAllocationFailed),
                Some(fresh) => {
                    self.memory.zero_table(fresh);
                    self.memory.set_entry(table, index, fresh, PageTableFlags::present_writable());
                    Ok(fresh)
                },
            }
        } else {
            match self.memory.entry_frame(table, index) {
                Ok(next) => Ok(next),
                Err(FrameError::HugeFrame) => Err(MapToError::UnsupportedHugePage),
                Err(FrameError::FrameNotPresent) => Err(MapToError::MalformedEntry),
            }
        }
    }

    /// Maps `page` to `frame` with `flags`. The walk goes from the root table
    /// down to level one; where an entry on the way is zero, a table is made
    /// for it in a frame from `allocator`. No entry that is in use is
    /// overwritten, on the way or at the page itself: the entry of the page is
    /// written only where it was zero.
    pub fn map_to<A: FrameAllocator>(
        &mut self,
        page: Page,
        frame: PhysFrame,
        flags: PageTableFlags,
        allocator: &mut A,
    ) -> (flush: Result<MapperFlush, MapToError>)
        requires
            old(self).wf(),
            old(allocator).wf(),
        ensures
            final(self).wf(),
            final(allocator).wf(),
            final(self).root() == old(self).root(),
            final(self).offset() == old(self).offset(),
            final(self)@ == map_to(
                old(self)@,
                old(allocator).supply(),
                old(self).root(),
                page.start(),
                frame.start(),
                flags.value(),
            ).mem,
            final(allocator).supply() == map_to(
                old(self)@,
                old(allocator).supply(),
                old(self).root(),
                page.start(),
                frame.start(),
                flags.value(),
            ).supply,
            match flush {
                Ok(f) => f.page() == page && map_to(
                    old(self)@,
                    old(allocator).supply(),
                    old(self).root(),
                    page.start(),
                    frame.start(),
                    flags.value(),
                ).result is Ok,
                Err(e) => map_to(
                    old(self)@,
                    old(allocator).supply(),
                    old(self).root(),
                    page.start(),
                    frame.start(),
                    flags.value(),
                ).result == Err::<(), MapToError>(e),
            },
    {
        proof {
            reveal_with_fuel(map_from, 4);
        }
        let addr = page.start_address();
        let table_4 = self.level_4_frame;
        let index_4 = addr.page_table_index(PageTableLevel::Four);
        let table_3 = self.create_next_table(table_4, index_4, allocator)?;
        let index_3 = addr.page_table_index(PageTableLevel::Three);
        let table_2 = self.create_next_table(table_3, index_3, allocator)?;
        let index_2 = addr.page_table_index(PageTableLevel::Two);
        let table_1 = self.create_next_table(table_2, index_2, allocator)?;
        let index_1 = addr.page_table_index(PageTableLevel::One);
        if !self.memory.entry_is_unused(table_1, index_1) {
            return Err(MapToError::AlreadyMapped);
        }
        self.memory.set_entry(table_1, index_1, frame, flags);
        Ok(MapperFlush { page })
    }
}

} // verus!
