//! Allocators of physical frames: one that hands out the usable frames of the
//! boot memory map in order and never takes one back, and one that has none.

use vstd::prelude::*;
use bootloader::bootinfo::MemoryMap;
use crate::addr::is_frame_start;
use crate::addr::PAGE_SIZE;
use crate::addr::PhysFrame;
use crate::boot::memory_regions;
use crate::boot::Region;
use crate::boot::region_at;
use crate::boot::region_count;

verus! {

/// One past the largest number of a frame: a frame number has 40 bits.
pub const FRAME_NUMBER_END: u64 = 0x100_0000_0000;

/// The number of frames that `region` offers.
pub open spec fn region_len(region: Region) -> nat {
    if region.usable() && region.start_frame_number < region.end_frame_number {
        (region.end_frame_number - region.start_frame_number) as nat
    } else {
        0
    }
}

/// The start addresses of the frames that `region` offers, ascending: every
/// frame of a usable region, none of any other.
pub open spec fn region_frames(region: Region) -> Seq<u64> {
    Seq::new(region_len(region), |k: int| ((region.start_frame_number + k) * PAGE_SIZE) as u64)
}

/// The start addresses of the usable frames of `regions`: the frames of each
/// usable region, region after region in the order of the map.
pub open spec fn usable_frames(regions: Seq<Region>) -> Seq<u64>
    decreases regions.len(),
{
    if regions.len() == 0 {
        Seq::empty()
    } else {
        usable_frames(regions.drop_last()) + region_frames(regions.last())
    }
}

/// Whether the frames of a usable `region` have addresses of at most 52
/// bits.
pub open spec fn region_in_range(region: Region) -> bool {
    region.usable() ==> region.start_frame_number <= FRAME_NUMBER_END && region.end_frame_number
        <= FRAME_NUMBER_END
}

/// Whether some frame is offered by both regions.
pub open spec fn regions_overlap(a: Region, b: Region) -> bool {
    &&& region_len(a) > 0
    &&& region_len(b) > 0
    &&& a.start_frame_number < b.end_frame_number
    &&& b.start_frame_number < a.end_frame_number
}

/// Whether `regions` describe physical memory: usable frames have valid
/// addresses and no frame is offered twice.
pub open spec fn is_partition(regions: Seq<Region>) -> bool {
    &&& forall|i: int| 0 <= i < regions.len() ==> region_in_range(#[trigger] regions[i])
    &&& forall|i: int, j: int|
        0 <= i < j < regions.len() ==> !regions_overlap(#[trigger] regions[i], #[trigger] regions[j])
}

/// The frame that a supply hands out next, if it has one.
pub open spec fn first_of(supply: Seq<u64>) -> Option<u64> {
    if supply.len() > 0 {
        Some(supply[0])
    } else {
        None
    }
}

/// The supply that is left after one frame was asked for.
pub open spec fn rest_of(supply: Seq<u64>) -> Seq<u64> {
    if supply.len() > 0 {
        supply.skip(1)
    } else {
        supply
    }
}

/// A source of physical frames.
pub trait FrameAllocator {
    /// What the allocator needs to hold of itself.
    spec fn wf(&self) -> bool;

    /// The start addresses of the frames that the coming calls of
    /// `allocate_frame` return, in order.
    spec fn supply(&self) -> Seq<u64>;

    /// Hands out the next frame of the supply, or nothing once the supply is
    /// empty; an empty supply stays empty.
    fn allocate_frame(&mut self) -> (frame: Option<PhysFrame>)
        requires
            old(self).wf(),
        ensures
            final(self).wf(),
            final(self).supply() == rest_of(old(self).supply()),
            match frame {
                Some(f) => first_of(old(self).supply()) == Some(f.start()),
                None => first_of(old(self).supply()) is None,
            },
    ;
}

/// The allocator that has no frame.
pub struct EmptyFrameAllocator;

impl FrameAllocator for EmptyFrameAllocator {
    open spec fn wf(&self) -> bool {
        true
    }

    open spec fn supply(&self) -> Seq<u64> {
        Seq::empty()
    }

    fn allocate_frame(&mut self) -> (frame: Option<PhysFrame>) {
        None
    }
}

/// The allocator that hands out the usable frames of the boot memory map,
/// each one once, in the order of the map.
pub struct BootInfoFrameAllocator {
    memory_map: &'static MemoryMap,
    next: u64,
}

impl BootInfoFrameAllocator {
    /// The regions of the memory map that the allocator reads.
    pub closed spec fn regions(&self) -> Seq<Region> {
        memory_regions(*self.memory_map)
    }

    /// The number of calls of `allocate_frame` so far; it stops counting at
    /// the largest `u64`.
    pub closed spec fn cursor(&self) -> u64 {
        self.next
    }

    /// Whether the regions of `memory_map` describe physical memory, as
    /// [`BootInfoFrameAllocator::init`] asks.
    pub fn is_valid_memory_map(memory_map: &MemoryMap) -> (valid: bool)
        ensures
            valid == is_partition(memory_regions(*memory_map)),
    {
        let count = region_count(memory_map);
        let ghost regions = memory_regions(*memory_map);
        let mut j: usize = 0;
        while j < count
            invariant
                j <= count,
                count == regions.len(),
                regions == memory_regions(*memory_map),
                is_partition(regions.take(j as int)),
            decreases count - j,
        {
            let region = region_at(memory_map, j);
            if region.is_usable() && (region.start_frame_number > FRAME_NUMBER_END
                || region.end_frame_number > FRAME_NUMBER_END) {
                assert(!region_in_range(regions[j as int]));
                return false;
            }
            let mut i: usize = 0;
            while i < j
                invariant
                    i <= j,
                    j < count,
                    count == regions.len(),
                    regions == memory_regions(*memory_map),
                    region == regions[j as int],
                    forall|k: int| 0 <= k < i ==> !regions_overlap(#[trigger] regions[k], region),
                decreases j - i,
            {
                let earlier = region_at(memory_map, i);
                if earlier.is_usable() && region.is_usable() && earlier.start_frame_number
                    < earlier.end_frame_number && region.start_frame_number
                    < region.end_frame_number && earlier.start_frame_number
                    < region.end_frame_number && region.start_frame_number
                    < earlier.end_frame_number {
                    assert(regions_overlap(regions[i as int], regions[j as int]));
                    return false;
                }
                i += 1;
            }
            proof {
                let shorter = regions.take(j as int);
                let longer = regions.take(j as int + 1);
                assert forall|k: int| 0 <= k < longer.len() implies region_in_range(
                    #[trigger] longer[k],
                ) by {
                    if k < j {
                        assert(shorter[k] == longer[k]);
                    }
                }
                assert forall|a: int, b: int| 0 <= a < b < longer.len() implies !regions_overlap(
                    #[trigger] longer[a],
                    #[trigger] longer[b],
                ) by {
                    if b < j {
                        assert(shorter[a] == longer[a] && shorter[b] == longer[b]);
                    } else {
                        assert(longer[a] == regions[a]);
                    }
                }
            }
            j += 1;
        }
        assert(regions.take(count as int) =~= regions);
        true
    }

    /// An allocator over `memory_map` that has handed out nothing, or
    /// nothing where the regions of `memory_map` do not describe physical
    /// memory.
    pub fn try_init(memory_map: &'static MemoryMap) -> (allocator: Option<BootInfoFrameAllocator>)
        ensures
            allocator is Some <==> is_partition(memory_regions(*memory_map)),
            allocator matches Some(a) ==> a.wf() && a.regions() == memory_regions(*memory_map)
                && a.cursor() == 0 && a.supply() == usable_frames(memory_regions(*memory_map)),
    {
        if BootInfoFrameAllocator::is_valid_memory_map(memory_map) {
            Some(BootInfoFrameAllocator::init(memory_map))
        } else {
            None
        }
    }

    /// The frames that are still to come are frames, and no two of them are
    /// the same.
    pub proof fn lemma_supply(&self)
        requires
            self.wf(),
        ensures
            self.supply().no_duplicates(),
            forall|k: int|
                0 <= k < self.supply().len() ==> is_frame_start(#[trigger] self.supply()[k]),
    {
        let frames = usable_frames(self.regions());
        lemma_usable_frames_distinct(self.regions());
        if self.cursor() < frames.len() {
            let cursor = self.cursor() as int;
            assert forall|k: int| 0 <= k < self.supply().len() implies is_frame_start(
                #[trigger] self.supply()[k],
            ) by {
                assert(self.supply()[k] == frames[cursor + k]);
            }
            assert forall|i: int, j: int|
                0 <= i < self.supply().len() && 0 <= j < self.supply().len() && i != j implies self.supply()[i]
                != self.supply()[j] by {
                assert(self.supply()[i] == frames[cursor + i]);
                assert(self.supply()[j] == frames[cursor + j]);
            }
        }
    }

    /// An allocator over `memory_map` that has handed out nothing.
    pub fn init(memory_map: &'static MemoryMap) -> (allocator: BootInfoFrameAllocator)
        requires
            is_partition(memory_regions(*memory_map)),
        ensures
            allocator.wf(),
            allocator.regions() == memory_regions(*memory_map),
            allocator.cursor() == 0,
            allocator.supply() == usable_frames(memory_regions(*memory_map)),
    {
        BootInfoFrameAllocator { memory_map, next: 0 }
    }
}

impl FrameAllocator for BootInfoFrameAllocator {
    open spec fn wf(&self) -> bool {
        is_partition(self.regions())
    }

    open spec fn supply(&self) -> Seq<u64> {
        let frames = usable_frames(self.regions());
        if self.cursor() < frames.len() {
            frames.skip(self.cursor() as int)
        } else {
            Seq::empty()
        }
    }

    fn allocate_frame(&mut self) -> (frame: Option<PhysFrame>)
        ensures
            final(self).regions() == old(self).regions(),
            match frame {
                Some(f) => old(self).cursor() < usable_frames(old(self).regions()).len()
                    && usable_frames(old(self).regions())[old(self).cursor() as int] == f.start(),
                None => old(self).cursor() >= usable_frames(old(self).regions()).len(),
            },
            final(self).cursor() == if old(self).cursor() < u64::MAX {
                old(self).cursor() + 1
            } else {
                old(self).cursor() as int
            },
    {
        let count = region_count(self.memory_map);
        let ghost regions = self.regions();
        let ghost frames = usable_frames(regions);
        let mut remaining: u64 = self.next;
        let mut frame: Option<PhysFrame> = None;
        let mut i: usize = 0;
        while i < count
            invariant_except_break
                frame is None,
            invariant
                i <= count,
                count == regions.len(),
                regions == memory_regions(*self.memory_map),
                frames == usable_frames(regions),
                is_partition(regions),
                self.next == old(self).next,
                self.memory_map == old(self).memory_map,
                remaining + usable_frames(regions.take(i as int)).len() == self.next,
            ensures
                match frame {
                    Some(f) => self.next < frames.len() && frames[self.next as int] == f.start(),
                    None => i == count,
                },
            decreases count - i,
        {
            let region = region_at(self.memory_map, i);
            proof {
                lemma_usable_frames_take(regions, i as int);
                lemma_usable_frames_prefix(regions, i as int + 1);
            }
            if region.is_usable() && region.start_frame_number < region.end_frame_number {
                let len = region.end_frame_number - region.start_frame_number;
                if remaining < len {
                    let start = (region.start_frame_number + remaining) * PAGE_SIZE;
                    proof {
                        let before = usable_frames(regions.take(i as int));
                        let through = usable_frames(regions.take(i as int + 1));
                        assert(through[before.len() + remaining] == region_frames(
                            region,
                        )[remaining as int]);
                        assert(frames.take(through.len() as int)[before.len() + remaining]
                            == frames[before.len() + remaining]);
                    }
                    frame = Some(PhysFrame::from_start(start));
                    break ;
                }
                remaining -= len;
            }
            i += 1;
        }
        proof {
            if frame is None {
                assert(regions.take(count as int) =~= regions);
            }
        }
        if self.next < u64::MAX {
            self.next += 1;
        }
        proof {
            let cursor = old(self).next as int;
            lemma_usable_frames_bound(regions);
            if cursor < frames.len() {
                assert(frames.skip(cursor).skip(1) =~= frames.skip(cursor + 1));
                assert(self.supply() =~= rest_of(old(self).supply()));
            }
        }
        frame
    }
}

/// The usable frames of the first `i + 1` regions are those of the first `i`
/// followed by the frames of region `i`.
pub proof fn lemma_usable_frames_take(regions: Seq<Region>, i: int)
    requires
        0 <= i < regions.len(),
    ensures
        usable_frames(regions.take(i + 1)) == usable_frames(regions.take(i)) + region_frames(
            regions[i],
        ),
{
    assert(regions.take(i + 1).drop_last() =~= regions.take(i));
    assert(regions.take(i + 1).last() == regions[i]);
}

/// The usable frames of the first `i` regions open the usable frames of all
/// regions.
pub proof fn lemma_usable_frames_prefix(regions: Seq<Region>, i: int)
    requires
        0 <= i <= regions.len(),
    ensures
        usable_frames(regions.take(i)).len() <= usable_frames(regions).len(),
        usable_frames(regions.take(i)) == usable_frames(regions).take(
            usable_frames(regions.take(i)).len() as int,
        ),
    decreases regions.len() - i,
{
    if i == regions.len() {
        assert(regions.take(i) =~= regions);
        assert(usable_frames(regions).take(usable_frames(regions).len() as int) =~= usable_frames(
            regions,
        ));
    } else {
        lemma_usable_frames_take(regions, i);
        lemma_usable_frames_prefix(regions, i + 1);
        let shorter = usable_frames(regions.take(i));
        let longer = usable_frames(regions.take(i + 1));
        assert(shorter =~= longer.take(shorter.len() as int));
        assert(shorter =~= usable_frames(regions).take(shorter.len() as int));
    }
}

/// Regions within range offer at most 2^40 frames each.
pub proof fn lemma_usable_frames_bound(regions: Seq<Region>)
    requires
        forall|i: int| 0 <= i < regions.len() ==> region_in_range(#[trigger] regions[i]),
    ensures
        usable_frames(regions).len() <= regions.len() * FRAME_NUMBER_END,
    decreases regions.len(),
{
    if regions.len() > 0 {
        let shorter = regions.drop_last();
        assert forall|i: int| 0 <= i < shorter.len() implies region_in_range(
            #[trigger] shorter[i],
        ) by {
            assert(shorter[i] == regions[i]);
        }
        lemma_usable_frames_bound(shorter);
        assert(region_in_range(regions[regions.len() - 1]));
    }
}

/// Whether `region` offers the frame that starts at `addr`.
pub open spec fn offers(region: Region, addr: u64) -> bool {
    &&& region_len(region) > 0
    &&& addr % PAGE_SIZE == 0
    &&& region.start_frame_number * PAGE_SIZE <= addr < region.end_frame_number * PAGE_SIZE
}

/// Every usable frame is offered by a region of the map.
pub proof fn lemma_usable_frame_origin(regions: Seq<Region>, n: int)
    requires
        forall|i: int| 0 <= i < regions.len() ==> region_in_range(#[trigger] regions[i]),
        0 <= n < usable_frames(regions).len(),
    ensures
        exists|i: int| 0 <= i < regions.len() && offers(#[trigger] regions[i], usable_frames(regions)[n]),
    decreases regions.len(),
{
    let shorter = regions.drop_last();
    let last = regions.last();
    let before = usable_frames(shorter);
    if n < before.len() {
        assert forall|i: int| 0 <= i < shorter.len() implies region_in_range(
            #[trigger] shorter[i],
        ) by {
            assert(shorter[i] == regions[i]);
        }
        lemma_usable_frame_origin(shorter, n);
        let i = choose|i: int| 0 <= i < shorter.len() && offers(#[trigger] shorter[i], before[n]);
        assert(offers(regions[i], usable_frames(regions)[n]));
    } else {
        let k = n - before.len();
        assert(usable_frames(regions)[n] == region_frames(last)[k]);
        assert(region_in_range(regions[regions.len() - 1]));
        assert(offers(regions[regions.len() - 1], usable_frames(regions)[n]));
    }
}

/// The usable frames of a memory map that describes physical memory start
/// each at an address that is page-aligned and has at most 52 bits, and no
/// two of them are the same frame: the frames that `allocate_frame` hands out
/// one after the other are pairwise distinct.
pub proof fn lemma_usable_frames_distinct(regions: Seq<Region>)
    requires
        is_partition(regions),
    ensures
        usable_frames(regions).no_duplicates(),
        forall|n: int|
            0 <= n < usable_frames(regions).len() ==> is_frame_start(
                #[trigger] usable_frames(regions)[n],
            ),
    decreases regions.len(),
{
    let frames = usable_frames(regions);
    assert forall|n: int| 0 <= n < frames.len() implies is_frame_start(#[trigger] frames[n]) by {
        lemma_usable_frame_origin(regions, n);
        let i = choose|i: int| 0 <= i < regions.len() && offers(#[trigger] regions[i], frames[n]);
        assert(region_in_range(regions[i]));
    }
    if regions.len() > 0 {
        let shorter = regions.drop_last();
        let last = regions.last();
        let before = usable_frames(shorter);
        assert(is_partition(shorter)) by {
            assert forall|i: int| 0 <= i < shorter.len() implies region_in_range(
                #[trigger] shorter[i],
            ) by {
                assert(shorter[i] == regions[i]);
            }
            assert forall|i: int, j: int| 0 <= i < j < shorter.len() implies !regions_overlap(
                #[trigger] shorter[i],
                #[trigger] shorter[j],
            ) by {
                assert(shorter[i] == regions[i] && shorter[j] == regions[j]);
            }
        }
        lemma_usable_frames_distinct(shorter);
        assert(region_in_range(regions[regions.len() - 1]));
        assert forall|m: int, n: int| 0 <= m < n < frames.len() implies frames[m] != frames[n] by {
            if n < before.len() {
                assert(frames[m] == before[m] && frames[n] == before[n]);
            } else if m >= before.len() {
                assert(frames[m] == region_frames(last)[m - before.len()]);
                assert(frames[n] == region_frames(last)[n - before.len()]);
            } else {
                lemma_usable_frame_origin(shorter, m);
                let i = choose|i: int|
                    0 <= i < shorter.len() && offers(#[trigger] shorter[i], before[m]);
                assert(shorter[i] == regions[i]);
                assert(!regions_overlap(regions[i], regions[regions.len() - 1]));
                assert(frames[m] == before[m]);
                assert(frames[n] == region_frames(last)[n - before.len()]);
            }
        }
    }
}

/// Within each usable region the frames are handed out in ascending order of
/// their addresses, one page apart: after the frames of the regions before
/// region `i` come the frames of region `i`, from its first to its last.
pub proof fn lemma_usable_frames_ascending(regions: Seq<Region>, i: int, k: int)
    requires
        forall|i: int| 0 <= i < regions.len() ==> region_in_range(#[trigger] regions[i]),
        0 <= i < regions.len(),
        0 <= k < region_len(regions[i]),
    ensures
        usable_frames(regions.take(i)).len() + k < usable_frames(regions).len(),
        usable_frames(regions)[usable_frames(regions.take(i)).len() + k] == (
        regions[i].start_frame_number + k) * PAGE_SIZE,
{
    lemma_usable_frames_take(regions, i);
    lemma_usable_frames_prefix(regions, i + 1);
    let before = usable_frames(regions.take(i));
    let through = usable_frames(regions.take(i + 1));
    let frames = usable_frames(regions);
    assert(through[before.len() + k] == region_frames(regions[i])[k]);
    assert(frames.take(through.len() as int)[before.len() + k] == frames[before.len() + k]);
    assert(region_in_range(regions[i]));
}

} // verus!
