//! The memory map that the boot loader hands to the kernel, read through the
//! `bootloader` crate. The functions marked `external_body` are believed, not
//! proved.

use vstd::prelude::*;
use bootloader::bootinfo::MemoryMap;
use bootloader::bootinfo::MemoryRegionType;

verus! {

/// What a region of physical memory is used for.
#[derive(Clone, Copy, PartialEq, Eq, Structural, Debug)]
pub enum RegionType {
    /// Free for the kernel to use.
    Usable,
    /// In use already.
    InUse,
    /// Kept by the hardware.
    Reserved,
    /// Tables of the firmware that may be reclaimed.
    AcpiReclaimable,
    /// Memory of the firmware that must be kept.
    AcpiNvs,
    /// Memory that is broken.
    BadMemory,
    /// The kernel itself.
    Kernel,
    /// The stack of the kernel.
    KernelStack,
    /// The page tables.
    PageTables,
    /// The boot loader.
    Bootloader,
    /// The frame at address zero.
    FrameZero,
    /// A region of size zero.
    Empty,
    /// The boot information.
    BootInfo,
    /// A package that was handed to the kernel.
    Package,
    /// A type that is yet to be named.
    Other,
}

/// One region of the boot memory map: the frames from `start_frame_number` up
/// to, and without, `end_frame_number`, and what they are used for.
#[derive(Clone, Copy, PartialEq, Eq, Structural, Debug)]
pub struct Region {
    pub start_frame_number: u64,
    pub end_frame_number: u64,
    pub region_type: RegionType,
}

impl Region {
    /// Whether the kernel may use the frames of the region.
    pub open spec fn usable(self) -> bool {
        self.region_type == RegionType::Usable
    }

    /// Whether the kernel may use the frames of the region.
    pub fn is_usable(&self) -> (usable: bool)
        ensures
            usable == self.usable(),
    {
        self.region_type == RegionType::Usable
    }
}

/// The memory map of `bootloader`: at most 64 regions.
#[verifier::external_type_specification]
#[verifier::external_body]
pub struct ExMemoryMap(MemoryMap);

/// A region as `bootloader` holds it. The library names this type nowhere:
/// the declaration is here because `MemoryMap` dereferences to a slice of it,
/// and the verifier reads that impl. Regions are read through
/// [`region_bounds`] and [`region_type`] only.
#[verifier::external_type_specification]
#[verifier::external_body]
pub struct ExBootRegion(bootloader::bootinfo::MemoryRegion);

/// The regions of a memory map, in the order in which the map holds them:
/// of each the two frame numbers of its range and its type.
pub uninterp spec fn memory_regions(map: MemoryMap) -> Seq<Region>;

/// The length of the slice that `MemoryMap` dereferences to: the number of
/// regions in the map, which is a part of an array of 64.
#[verifier::external_body]
pub(crate) fn region_count(map: &MemoryMap) -> (count: usize)
    ensures
        count == memory_regions(*map).len(),
        count <= 64,
{
    map.len()
}

/// The two fields of the range of the region at `index` of the slice that
/// `MemoryMap` dereferences to: the number of its first frame and the number
/// of the first frame after it.
#[verifier::external_body]
pub(crate) fn region_bounds(map: &MemoryMap, index: usize) -> (bounds: (u64, u64))
    requires
        index < memory_regions(*map).len(),
    ensures
        bounds.0 == memory_regions(*map)[index as int].start_frame_number,
        bounds.1 == memory_regions(*map)[index as int].end_frame_number,
{
    let range = map[index].range;
    (range.start_frame_number, range.end_frame_number)
}

/// The type of the region at `index` of the slice that `MemoryMap`
/// dereferences to, variant by variant.
#[verifier::external_body]
pub(crate) fn region_type(map: &MemoryMap, index: usize) -> (region_type: RegionType)
    requires
        index < memory_regions(*map).len(),
    ensures
        region_type == memory_regions(*map)[index as int].region_type,
{
    match map[index].region_type {
        MemoryRegionType::Usable => RegionType::Usable, MemoryRegionType::InUse => RegionType::InUse,
        MemoryRegionType::Reserved => RegionType::Reserved,
        MemoryRegionType::AcpiReclaimable => RegionType::AcpiReclaimable,
        MemoryRegionType::AcpiNvs => RegionType::AcpiNvs,
        MemoryRegionType::BadMemory => RegionType::BadMemory,
        MemoryRegionType::Kernel => RegionType::Kernel,
        MemoryRegionType::KernelStack => RegionType::KernelStack,
        MemoryRegionType::PageTable => RegionType::PageTables,
        MemoryRegionType::Bootloader => RegionType::Bootloader,
        MemoryRegionType::FrameZero => RegionType::FrameZero,
        MemoryRegionType::Empty => RegionType::Empty, MemoryRegionType::BootInfo => RegionType::BootInfo,
        MemoryRegionType::Package => RegionType::Package,
        MemoryRegionType::NonExhaustive => RegionType::Other,
    }
}

/// The region at `index` of the memory map.
pub(crate) fn region_at(map: &MemoryMap, index: usize) -> (region: Region)
    requires
        index < memory_regions(*map).len(),
    ensures
        region == memory_regions(*map)[index as int],
{
    let (start_frame_number, end_frame_number) = region_bounds(map, index);
    Region { start_frame_number, end_frame_number, region_type: region_type(map, index) }
}

} // verus!
