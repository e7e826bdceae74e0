//! The heap allocator behind a guard: a request that cannot be met is turned
//! down before the allocator is asked, and a block is handed out only where it
//! lies inside the heap.

use vstd::prelude::*;
use core::alloc::Layout;
use linked_list_allocator::Heap;

verus! {

/// The heap of `linked_list_allocator`: a list of the free blocks of one
/// range of memory.
#[verifier::external_type_specification]
#[verifier::external_body]
pub struct ExHeap(Heap);

/// The number of bytes of a heap that are not in use, as `Heap::free` counts
/// them.
pub uninterp spec fn free_bytes(heap: Heap) -> usize;

/// `Heap::free` of `linked_list_allocator`: the size of the heap less the
/// bytes in use.
#[verifier::external_body]
pub(crate) fn heap_free(heap: &Heap) -> (free: usize)
    ensures
        free == free_bytes(*heap),
{
    heap.free()
}

/// The number of bytes that the allocator takes for a block of `size` bytes:
/// the larger of `size` and two machine words, rounded up to a whole number
/// of words.
pub open spec fn block_bytes(size: usize) -> int {
    let word = usize::BITS as int / 8;
    let least = if size < 2 * word {
        2 * word
    } else {
        size as int
    };
    (least + word - 1) / word * word
}

/// `Heap::allocate_first_fit` of `linked_list_allocator` with the layout that
/// `Layout::from_size_align` of std makes of `size` and `align`: the address
/// of the block that was found, or nothing where the heap has no hole that
/// fits. A heap that finds nothing stays as it was. A block that was found
/// starts at a multiple of `align`, and the bytes in use grow by the size that
/// the allocator rounds the request up to, so that the free bytes shrink by as
/// many.
#[verifier::external_body]
pub(crate) fn first_fit(heap: &mut Heap, size: usize, align: usize) -> (block: Option<usize>)
    requires
        is_power_of_two(align),
        size + align - 1 <= isize::MAX,
    ensures
        block is None ==> *final(heap) == *old(heap),
        block matches Some(addr) ==> addr % align == 0 && free_bytes(*final(heap)) + block_bytes(
            size,
        ) == free_bytes(*old(heap)),
{
    let layout = Layout::from_size_align(size, align).ok()?;
    heap.allocate_first_fit(layout).ok().map(|block| block.as_ptr() as usize)
}

/// Why no block was handed out.
#[derive(Clone, Copy, PartialEq, Eq, Structural, Debug)]
pub enum AllocError {
    /// The heap has no block for the request.
    OutOfMemory,
    /// The alignment is no power of two.
    InvalidAlignment,
    /// The allocator found a block that does not lie inside the heap.
    OutsideHeap,
}

/// The range of virtual memory that a heap manages.
#[derive(Clone, Copy, PartialEq, Eq, Structural, Debug)]
pub struct HeapRegion {
    pub start: usize,
    pub size: usize,
}

impl HeapRegion {
    /// Whether the `size` bytes from `addr` on lie inside the region.
    pub open spec fn holds(self, addr: usize, size: usize) -> bool {
        self.start <= addr && addr + size <= self.start + self.size
    }

    /// Whether the `size` bytes from `addr` on lie inside the region.
    pub fn contains_block(&self, addr: usize, size: usize) -> (inside: bool)
        ensures
            inside == self.holds(addr, size),
    {
        self.start <= addr && size <= self.size && addr - self.start <= self.size - size
    }
}

/// Whether `align` is a power of two.
pub open spec fn is_power_of_two(align: usize) -> bool {
    align > 0 && align & ((align - 1) as usize) == 0
}

/// What becomes of the answer of the allocator: a block inside the region is
/// handed out, one that is not inside the region is not, and no block means
/// that the heap has no memory for the request.
pub fn judge_block(block: Option<usize>, region: HeapRegion, size: usize) -> (judged: Result<
    usize,
    AllocError,
>)
    ensures
        judged == match block {
            Some(addr) => if region.holds(addr, size) {
                Ok::<usize, AllocError>(addr)
            } else {
                Err::<usize, AllocError>(AllocError::OutsideHeap)
            },
            None => Err::<usize, AllocError>(AllocError::OutOfMemory),
        },
{
    match block {
        Some(addr) => {
            if region.contains_block(addr, size) {
                Ok(addr)
            } else {
                Err(AllocError::OutsideHeap)
            }
        },
        None => Err(AllocError::OutOfMemory),
    }
}

/// Asks `heap`, which manages `region`, for a block of `size` bytes aligned to
/// `align`. Three requests are turned down before the allocator is asked: one
/// with an alignment that is no power of two, one for more bytes than the heap
/// has free, and one so large that, rounded up to its alignment, it exceeds
/// the largest `isize`. Any other request goes to the allocator as it came,
/// and the answer is judged by [`judge_block`]. A block that is handed out
/// lies inside the region and starts at a multiple of `align`, and the free
/// bytes have shrunk by what the allocator takes for `size` bytes. Whenever
/// the request fails for want of memory or for its alignment, the heap stays
/// as it was.
pub fn allocate(heap: &mut Heap, region: HeapRegion, size: usize, align: usize) -> (block: Result<
    usize,
    AllocError,
>)
    ensures
        block == Err::<usize, AllocError>(AllocError::InvalidAlignment) <==> !is_power_of_two(align),
        is_power_of_two(align) && size > free_bytes(*old(heap)) ==> block == Err::<
            usize,
            AllocError,
        >(AllocError::OutOfMemory),
        is_power_of_two(align) && size + align - 1 > isize::MAX ==> block == Err::<
            usize,
            AllocError,
        >(AllocError::OutOfMemory),
        block == Err::<usize, AllocError>(AllocError::OutOfMemory) || block == Err::<
            usize,
            AllocError,
        >(AllocError::InvalidAlignment) ==> *final(heap) == *old(heap),
        block matches Ok(addr) ==> region.holds(addr, size) && addr % align == 0,
        block is Ok || block == Err::<usize, AllocError>(AllocError::OutsideHeap) ==> free_bytes(
            *final(heap),
        ) + block_bytes(size) == free_bytes(*old(heap)),
{
    if align == 0 || align & (align - 1) != 0 {
        return Err(AllocError::InvalidAlignment);
    }
    if size > heap_free(heap) {
        return Err(AllocError::OutOfMemory);
    }
    match size.checked_add(align - 1) {
        Some(end) => {
            if end > isize::MAX as usize {
                return Err(AllocError::OutOfMemory);
            }
        },
        None => {
            return Err(AllocError::OutOfMemory);
        },
    }
    let found = first_fit(heap, size, align);
    judge_block(found, region, size)
}

} // verus!
