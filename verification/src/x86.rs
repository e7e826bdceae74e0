//! The calls into the `x86_64` crate. Every function here is believed, not
//! proved: its contract restates what the crate's source does.

use vstd::prelude::*;
use x86_64::structures::paging::PageTable;
use crate::addr::is_canonical;
use crate::addr::is_frame_start;
use crate::addr::PAGE_SIZE;
use crate::addr::PageTableLevel;
use crate::addr::PHYS_ADDR_END;
use crate::entry::entry_of;
use crate::entry::frame_of;
use crate::entry::FrameError;

verus! {

/// Number of bytes of virtual address space that one entry of a table of
/// `level` spans.
pub open spec fn entry_span(level: PageTableLevel) -> int {
    match level {
        PageTableLevel::One => 0x1000,
        PageTableLevel::Two => 0x20_0000,
        PageTableLevel::Three => 0x4000_0000,
        PageTableLevel::Four => 0x80_0000_0000,
    }
}

/// The slot of the table of `level` that the hardware consults for `addr`:
/// the nine address bits that start at bit 12, 21, 30 or 39.
pub open spec fn table_index(addr: u64, level: PageTableLevel) -> int {
    (addr as int / entry_span(level)) % 512
}

/// `VirtAddr::new(addr).page_table_index(level)` of `x86_64`: shifts the
/// address right by 12 bits and by 9 more for each level above the first, and
/// keeps the low nine bits. `VirtAddr::new` panics on an address that is not
/// canonical, which the precondition leaves out.
#[verifier::external_body]
pub(crate) fn page_table_index(addr: u64, level: PageTableLevel) -> (index: u16)
    requires
        is_canonical(addr),
    ensures
        index as int == table_index(addr, level),
{
    let level = match level {
        PageTableLevel::One => x86_64::structures::paging::page_table::PageTableLevel::One,
        PageTableLevel::Two => x86_64::structures::paging::page_table::PageTableLevel::Two,
        PageTableLevel::Three => x86_64::structures::paging::page_table::PageTableLevel::Three,
        PageTableLevel::Four => x86_64::structures::paging::page_table::PageTableLevel::Four,
    };
    u16::from(x86_64::VirtAddr::new(addr).page_table_index(level))
}

/// `VirtAddr::new(addr).page_offset()` of `x86_64`: the low twelve bits of the
/// address.
#[verifier::external_body]
pub(crate) fn page_offset(addr: u64) -> (offset: u16)
    requires
        is_canonical(addr),
    ensures
        offset as int == addr as int % PAGE_SIZE as int,
{
    u16::from(x86_64::VirtAddr::new(addr).page_offset())
}

/// `PhysFrame::containing_address(PhysAddr::new(addr)).start_address()` of
/// `x86_64`: the address with its low twelve bits cleared. `PhysAddr::new`
/// panics on an address of more than 52 bits, which the precondition leaves
/// out.
#[verifier::external_body]
pub(crate) fn frame_containing(addr: u64) -> (start: u64)
    requires
        addr < PHYS_ADDR_END,
    ensures
        start as int == addr as int - addr as int % PAGE_SIZE as int,
{
    x86_64::structures::paging::PhysFrame::<x86_64::structures::paging::Size4KiB>::containing_address(
        x86_64::PhysAddr::new(addr),
    ).start_address().as_u64()
}

/// `Page::containing_address(VirtAddr::new(addr)).start_address()` of
/// `x86_64`: the address with its low twelve bits cleared.
#[verifier::external_body]
pub(crate) fn page_containing(addr: u64) -> (start: u64)
    requires
        is_canonical(addr),
    ensures
        start as int == addr as int - addr as int % PAGE_SIZE as int,
{
    x86_64::structures::paging::Page::<x86_64::structures::paging::Size4KiB>::containing_address(
        x86_64::VirtAddr::new(addr),
    ).start_address().as_u64()
}

/// The page table of `x86_64`: 512 entries of 64 bits, kept as the hardware
/// reads them.
#[verifier::external_type_specification]
#[verifier::external_body]
pub struct ExPageTable(PageTable);

/// The entries of a page table, in order, as the hardware reads them.
pub uninterp spec fn table_entries(table: PageTable) -> Seq<u64>;

/// A table without any entry.
pub open spec fn empty_table() -> Seq<u64> {
    Seq::new(512, |i: int| 0u64)
}

/// `PageTable::new` of `x86_64`: a table of 512 entries that are all zero.
#[verifier::external_body]
pub(crate) fn new_table() -> (table: PageTable)
    ensures
        table_entries(table) == empty_table(),
{
    PageTable::new()
}

/// `PageTable::zero` of `x86_64`: sets each of the 512 entries to zero.
#[verifier::external_body]
pub(crate) fn zero_table(table: &mut PageTable)
    ensures
        table_entries(*final(table)) == empty_table(),
{
    table.zero()
}

/// `PageTableEntry::is_unused` of `x86_64` on the entry at `index`: whether
/// the entry is zero.
#[verifier::external_body]
pub(crate) fn entry_is_unused(table: &PageTable, index: usize) -> (unused: bool)
    requires
        index < 512,
    ensures
        unused == (table_entries(*table)[index as int] == 0),
{
    table[index].is_unused()
}

/// `PageTableEntry::frame` of `x86_64` on the entry at `index`: an entry
/// without the present flag gives `FrameNotPresent`, a present one with the
/// huge-page flag gives `HugeFrame`, any other the frame whose address stands
/// in bits 12 to 51.
#[verifier::external_body]
pub(crate) fn entry_frame(table: &PageTable, index: usize) -> (frame: Result<u64, FrameError>)
    requires
        index < 512,
    ensures
        frame == frame_of(table_entries(*table)[index as int]),
{
    match table[index].frame() {
        Ok(frame) => Ok(frame.start_address().as_u64()),
        Err(x86_64::structures::paging::page_table::FrameError::FrameNotPresent) => Err(
            FrameError::FrameNotPresent,
        ),
        Err(x86_64::structures::paging::page_table::FrameError::HugeFrame) => Err(
            FrameError::HugeFrame,
        ),
    }
}

/// `PageTableEntry::set_addr` of `x86_64` on the entry at `index`: the entry
/// becomes the address or-ed with the flags, and no other entry changes.
/// `set_addr` panics on an address that is not page-aligned and
/// `PhysAddr::new` on one of more than 52 bits; the precondition leaves both
/// out.
#[verifier::external_body]
pub(crate) fn set_entry(table: &mut PageTable, index: usize, frame: u64, flags: u64)
    requires
        index < 512,
        is_frame_start(frame),
    ensures
        table_entries(*final(table)) == table_entries(*old(table)).update(
            index as int,
            entry_of(frame, flags),
        ),
{
    table[index].set_addr(
        x86_64::PhysAddr::new(frame),
        x86_64::structures::paging::PageTableFlags::from_bits_retain(flags),
    )
}

} // verus!
