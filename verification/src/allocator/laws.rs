//! What holds of the heap once every page of it was mapped.

use vstd::prelude::*;
use crate::addr::is_frame_start;
use crate::addr::is_page_start;
use crate::addr::PAGE_SIZE;
use crate::addr::PageTableLevel;
use crate::allocator::heap_page;
use crate::allocator::HEAP_PAGES;
use crate::allocator::HEAP_SIZE;
use crate::allocator::HEAP_START;
use crate::allocator::lemma_map_heap_pages_failed;
use crate::allocator::map_heap_page;
use crate::allocator::map_heap_pages;
use crate::entry::ADDRESS_MASK;
use crate::entry::entry_of;
use crate::entry::frame_of;
use crate::entry::lemma_entry_of;
use crate::entry::TABLE_FLAGS;
use crate::memory::laws::drawn;
use crate::memory::laws::is_fresh;
use crate::memory::laws::is_neighbour;
use crate::memory::laws::is_rest;
use crate::memory::laws::leaf_entry;
use crate::memory::laws::lemma_fresh_rest;
use crate::memory::laws::lemma_index_within_page;
use crate::memory::laws::lemma_map_from;
use crate::memory::laws::lemma_map_from_keeps_neighbour;
use crate::memory::laws::lemma_map_from_unused;
use crate::memory::laws::lemma_map_to_keeps_fresh;
use crate::memory::laws::lemma_map_to_mapped_page;
use crate::memory::laws::lemma_rest;
use crate::memory::laws::lemma_rest_of_rest;
use crate::memory::laws::lemma_walk_by_leaf;
use crate::memory::laws::lemma_walk_kept;
use crate::memory::laws::lemma_zero_entry;
use crate::memory::mapper::map_from;
use crate::memory::mapper::map_to;
use crate::memory::mapper::Mapping;
use crate::memory::mapper::MapToError;
use crate::memory::mapper::translate;
use crate::memory::mapper::Walk;
use crate::memory::mapper::walk;
use crate::memory::physical::entry_at;
use crate::memory::physical::Tables;
use crate::memory::physical::tables_wf;
use crate::x86::table_index;

verus! {

/// The start of the frame that page `k` of the heap is mapped to: the first
/// frame of the supply that the pages before it have left.
pub open spec fn heap_frame(mem: Tables, supply: Seq<u64>, root: u64, k: int) -> u64 {
    map_heap_pages(mem, supply, root, k as nat).supply[0]
}

/// The pages of the heap are pages, and all of them lie below one table of
/// level one.
pub proof fn lemma_heap_page(k: int)
    requires
        0 <= k < HEAP_PAGES,
    ensures
        is_page_start(heap_page(k)),
        heap_page(k) == HEAP_START + k * PAGE_SIZE,
        table_index(heap_page(k), PageTableLevel::Four) == table_index(
            HEAP_START,
            PageTableLevel::Four,
        ),
        table_index(heap_page(k), PageTableLevel::Three) == table_index(
            HEAP_START,
            PageTableLevel::Three,
        ),
        table_index(heap_page(k), PageTableLevel::Two) == table_index(
            HEAP_START,
            PageTableLevel::Two,
        ),
        table_index(heap_page(k), PageTableLevel::One) == 0x40 + k,
{
    assert(heap_page(k) as int / 0x1000 == 0x4_4444_4440 + k);
}

/// The pages of the heap are the pages of the range of `HEAP_SIZE` bytes from
/// `HEAP_START` on: every page of the heap lies in the range, and every
/// address of the range lies in a page of the heap.
pub proof fn lemma_heap_pages_cover(addr: u64, k: int)
    requires
        HEAP_START <= addr < HEAP_START + HEAP_SIZE,
        0 <= k < HEAP_PAGES,
    ensures
        HEAP_START <= heap_page(k) < HEAP_START + HEAP_SIZE,
        ({
            let n = (addr - HEAP_START) / (PAGE_SIZE as int);
            0 <= n && n < HEAP_PAGES && heap_page(n) == addr - addr % PAGE_SIZE
        }),
{
}

/// A walk that ends at a frame has passed present entries only.
pub proof fn lemma_leaf_of_walk(mem: Tables, table: u64, addr: u64, level: PageTableLevel)
    requires
        walk(mem, table, addr, level) is Mapped,
    ensures
        leaf_entry(mem, table, addr, level) is Some,
    decreases level.number(),
{
    let entry = entry_at(mem, table, table_index(addr, level));
    match level.lower() {
        None => {},
        Some(lower) => {
            match frame_of(entry) {
                Ok(next) => {
                    lemma_leaf_of_walk(mem, next, addr, lower);
                },
                Err(_) => {},
            }
        },
    }
}

/// Two pages below the same table of level one are reached by the same way.
pub proof fn lemma_leaf_of_neighbour(
    mem: Tables,
    table: u64,
    page: u64,
    other: u64,
    level: PageTableLevel,
)
    requires
        leaf_entry(mem, table, page, level) is Some,
        forall|l: PageTableLevel|
            l != PageTableLevel::One ==> table_index(other, l) == table_index(page, l),
    ensures
        leaf_entry(mem, table, other, level) is Some,
    decreases level.number(),
{
    let entry = entry_at(mem, table, table_index(page, level));
    match level.lower() {
        None => {},
        Some(lower) => {
            assert(table_index(other, level) == table_index(page, level));
            match frame_of(entry) {
                Ok(next) => {
                    lemma_leaf_of_neighbour(mem, next, page, other, lower);
                },
                Err(_) => {},
            }
        },
    }
}

/// Where the way to a page has its tables already, mapping the page draws no
/// frame.
pub proof fn lemma_map_from_draws_nothing(
    mem: Tables,
    supply: Seq<u64>,
    table: u64,
    level: PageTableLevel,
    page: u64,
    frame: u64,
    flags: u64,
)
    requires
        leaf_entry(mem, table, page, level) is Some,
    ensures
        map_from(mem, supply, table, level, page, frame, flags).supply == supply,
    decreases level.number(),
{
    let entry = entry_at(mem, table, table_index(page, level));
    lemma_zero_entry();
    match level.lower() {
        None => {},
        Some(lower) => {
            match frame_of(entry) {
                Ok(next) => {
                    lemma_map_from_draws_nothing(mem, supply, next, lower, page, frame, flags);
                },
                Err(_) => {},
            }
        },
    }
}

/// What holds after the first `count` pages of the heap were mapped with a
/// fresh supply: each of them is mapped to a frame that was drawn from the
/// supply, what is left of the supply is fresh, and one frame was drawn for
/// each page, besides at most three for the tables on the way to the first.
pub proof fn lemma_map_heap_pages(mem: Tables, supply: Seq<u64>, root: u64, count: nat)
    requires
        tables_wf(mem),
        is_frame_start(root),
        is_fresh(mem, root, supply),
        count <= HEAP_PAGES,
        map_heap_pages(mem, supply, root, count).result is Ok,
    ensures
        ({
            let done = map_heap_pages(mem, supply, root, count);
            &&& tables_wf(done.mem)
            &&& is_fresh(done.mem, root, done.supply)
            &&& is_rest(supply, done.supply, if count == 0 {
                0int
            } else {
                count as int + 3
            })
            &&& supply.len() - done.supply.len() >= count
            &&& leaf_entry(mem, root, HEAP_START, PageTableLevel::Four) is Some ==> supply.len()
                - done.supply.len() == count
            &&& forall|k: int|
                0 <= k < count ==> drawn(supply, done.supply).contains(
                    #[trigger] heap_frame(mem, supply, root, k),
                ) && walk(done.mem, root, heap_page(k), PageTableLevel::Four) == Walk::Mapped(
                    heap_frame(mem, supply, root, k),
                )
        }),
    decreases count,
{
    let done = map_heap_pages(mem, supply, root, count);
    if count == 0 {
        assert(done.supply =~= supply.skip(0));
    } else {
        let n = (count - 1) as nat;
        let before = map_heap_pages(mem, supply, root, n);
        lemma_map_heap_pages(mem, supply, root, n);
        lemma_rest(supply, before.supply, n as int + 3);
        let frame = before.supply[0];
        let rest = before.supply.skip(1);
        let page = heap_page(n as int);
        assert(frame == heap_frame(mem, supply, root, n as int));
        assert(before.supply.contains(frame));
        lemma_fresh_rest(before.mem, root, before.supply);
        lemma_rest(before.supply, rest, 1);
        assert(drawn(before.supply, rest)[0] == frame);
        assert(TABLE_FLAGS & ADDRESS_MASK == 0) by (bit_vector);
        assert(TABLE_FLAGS & 1 != 0) by (bit_vector);
        assert(TABLE_FLAGS & 0x80 == 0) by (bit_vector);
        lemma_heap_page(n as int);
        assert(done == map_to(before.mem, rest, root, page, frame, TABLE_FLAGS));
        lemma_map_to_keeps_fresh(before.mem, rest, root, page, frame, TABLE_FLAGS);
        lemma_map_from(before.mem, root, rest, root, PageTableLevel::Four, page, frame, TABLE_FLAGS);
        lemma_walk_by_leaf(done.mem, root, page, page, PageTableLevel::Four);
        lemma_entry_of(frame, TABLE_FLAGS);
        lemma_rest_of_rest(before.supply, rest, done.supply, 1, 3);
        lemma_rest_of_rest(supply, before.supply, done.supply, n as int + 3, 4);
        lemma_rest(supply, done.supply, n as int + 7);
        if n > 0 {
            lemma_heap_page(n - 1);
            assert(walk(before.mem, root, heap_page(n - 1), PageTableLevel::Four) == Walk::Mapped(
                heap_frame(mem, supply, root, n - 1),
            ));
            lemma_leaf_of_walk(before.mem, root, heap_page(n - 1), PageTableLevel::Four);
            lemma_leaf_of_neighbour(
                before.mem,
                root,
                heap_page(n - 1),
                page,
                PageTableLevel::Four,
            );
            lemma_map_from_draws_nothing(
                before.mem,
                rest,
                root,
                PageTableLevel::Four,
                page,
                frame,
                TABLE_FLAGS,
            );
        } else {
            if leaf_entry(mem, root, HEAP_START, PageTableLevel::Four) is Some {
                lemma_map_from_draws_nothing(
                    before.mem,
                    rest,
                    root,
                    PageTableLevel::Four,
                    page,
                    frame,
                    TABLE_FLAGS,
                );
            }
        }
        assert forall|k: int| 0 <= k < count implies drawn(supply, done.supply).contains(
            #[trigger] heap_frame(mem, supply, root, k),
        ) && walk(done.mem, root, heap_page(k), PageTableLevel::Four) == Walk::Mapped(
            heap_frame(mem, supply, root, k),
        ) by {
            if k < n {
                assert(drawn(supply, before.supply).contains(heap_frame(mem, supply, root, k)));
                assert(walk(before.mem, root, heap_page(k), PageTableLevel::Four) == Walk::Mapped(
                    heap_frame(mem, supply, root, k),
                ));
                lemma_walk_kept(
                    before.mem,
                    done.mem,
                    root,
                    rest,
                    root,
                    heap_page(k),
                    PageTableLevel::Four,
                );
            } else {
                assert(drawn(before.supply, done.supply)[0] == frame);
                assert(drawn(before.supply, done.supply).contains(frame));
                assert(walk(done.mem, root, page, PageTableLevel::Four) == Walk::Mapped(frame));
            }
        }
    }
}

/// Where the heap was mapped with a fresh supply, each of its 25 pages stands
/// for a frame of its own that was drawn from the supply: an address of the
/// page translates to the address at the same offset in the frame. Besides
/// these 25 frames at most three were drawn, for the tables on the way to the
/// heap, and none where the tables were there before.
pub proof fn lemma_init_heap(
    mem: Tables,
    supply: Seq<u64>,
    root: u64,
    k: int,
    other: int,
    offset: u64,
)
    requires
        tables_wf(mem),
        is_frame_start(root),
        is_fresh(mem, root, supply),
        map_heap_pages(mem, supply, root, HEAP_PAGES as nat).result is Ok,
        0 <= k < HEAP_PAGES,
        0 <= other < HEAP_PAGES,
        offset < PAGE_SIZE,
    ensures
        ({
            let done = map_heap_pages(mem, supply, root, HEAP_PAGES as nat);
            let frame = heap_frame(mem, supply, root, k);
            &&& is_rest(supply, done.supply, HEAP_PAGES + 3)
            &&& supply.len() - done.supply.len() >= HEAP_PAGES
            &&& leaf_entry(mem, root, HEAP_START, PageTableLevel::Four) is Some ==> supply.len()
                - done.supply.len() == HEAP_PAGES
            &&& supply.contains(frame)
            &&& !done.supply.contains(frame)
            &&& other != k ==> heap_frame(mem, supply, root, other) != frame
            &&& translate(done.mem, root, (HEAP_START + k * PAGE_SIZE + offset) as u64) == Ok::<
                Option<u64>,
                MapToError,
            >(Some((frame + offset) as u64))
        }),
{
    let done = map_heap_pages(mem, supply, root, HEAP_PAGES as nat);
    lemma_map_heap_pages(mem, supply, root, HEAP_PAGES as nat);
    lemma_rest(supply, done.supply, HEAP_PAGES + 3);
    lemma_heap_page(k);
    let frame = heap_frame(mem, supply, root, k);
    assert(drawn(supply, done.supply).contains(frame));
    let addr = (heap_page(k) + offset) as u64;
    assert forall|l: PageTableLevel| table_index(addr, l) == table_index(heap_page(k), l) by {
        lemma_index_within_page(heap_page(k), offset, l);
    }
    lemma_index_within_page(heap_page(k), offset, PageTableLevel::One);
    lemma_leaf_of_walk(done.mem, root, heap_page(k), PageTableLevel::Four);
    lemma_walk_by_leaf(done.mem, root, heap_page(k), addr, PageTableLevel::Four);
    lemma_walk_by_leaf(
        done.mem,
        root,
        heap_page(k),
        heap_page(k),
        PageTableLevel::Four,
    );
    if other != k {
        lemma_heap_frames_differ(mem, supply, root, k, other);
    }
}

/// Two pages of the heap are mapped to two frames.
pub proof fn lemma_heap_frames_differ(mem: Tables, supply: Seq<u64>, root: u64, k: int, other: int)
    requires
        tables_wf(mem),
        is_frame_start(root),
        is_fresh(mem, root, supply),
        map_heap_pages(mem, supply, root, HEAP_PAGES as nat).result is Ok,
        0 <= k < HEAP_PAGES,
        0 <= other < HEAP_PAGES,
        k != other,
    ensures
        heap_frame(mem, supply, root, k) != heap_frame(mem, supply, root, other),
{
    let low = if k < other {
        k
    } else {
        other
    };
    let high = if k < other {
        other
    } else {
        k
    };
    lemma_map_heap_pages_succeeded(mem, supply, root, high as nat, HEAP_PAGES as nat);
    lemma_map_heap_pages_succeeded(mem, supply, root, (high + 1) as nat, HEAP_PAGES as nat);
    lemma_map_heap_pages(mem, supply, root, high as nat);
    let before = map_heap_pages(mem, supply, root, high as nat);
    lemma_rest(supply, before.supply, high + 3);
    assert(drawn(supply, before.supply).contains(heap_frame(mem, supply, root, low)));
    assert(before.supply.contains(before.supply[0]));
}

/// Where the pages of the heap were mapped, the first of them were.
pub proof fn lemma_map_heap_pages_succeeded(
    mem: Tables,
    supply: Seq<u64>,
    root: u64,
    fewer: nat,
    count: nat,
)
    requires
        fewer <= count,
        map_heap_pages(mem, supply, root, count).result is Ok,
    ensures
        map_heap_pages(mem, supply, root, fewer).result is Ok,
        fewer < count ==> map_heap_pages(mem, supply, root, fewer).supply.len() > 0,
    decreases count,
{
    if fewer < count {
        lemma_map_heap_pages_succeeded(mem, supply, root, fewer, (count - 1) as nat);
        if fewer == count - 1 {
            assert(map_heap_page(
                map_heap_pages(mem, supply, root, fewer).mem,
                map_heap_pages(mem, supply, root, fewer).supply,
                root,
                heap_page(fewer as int),
            ).result is Ok);
        }
    }
}

/// Whether `addr` lies below the table of level one of the heap, in a page
/// that is no page of the heap.
pub open spec fn is_beside_heap(addr: u64) -> bool {
    forall|k: int| 0 <= k < HEAP_PAGES ==> is_neighbour(#[trigger] heap_page(k), addr)
}

/// The page after the last page of the heap, and the page before its first,
/// lie beside the heap.
pub proof fn lemma_pages_beside_heap(offset: u64)
    requires
        offset < PAGE_SIZE,
    ensures
        is_beside_heap((HEAP_START + HEAP_SIZE + offset) as u64),
        is_beside_heap((HEAP_START - PAGE_SIZE + offset) as u64),
{
    assert forall|k: int| 0 <= k < HEAP_PAGES implies is_neighbour(
        #[trigger] heap_page(k),
        (HEAP_START + HEAP_SIZE + offset) as u64,
    ) && is_neighbour(heap_page(k), (HEAP_START - PAGE_SIZE + offset) as u64) by {
        lemma_heap_page(k);
        let page = heap_page(k) as int;
        let after = HEAP_START + HEAP_SIZE + offset;
        let before = HEAP_START - PAGE_SIZE + offset;
        assert(page / 0x1000 == 0x4_4444_4440 + k);
        assert(after / 0x1000 == 0x4_4444_4459);
        assert(before / 0x1000 == 0x4_4444_443f);
        assert(after / 0x20_0000 == HEAP_START as int / 0x20_0000);
        assert(before / 0x20_0000 == HEAP_START as int / 0x20_0000);
        assert(after / 0x4000_0000 == HEAP_START as int / 0x4000_0000);
        assert(before / 0x4000_0000 == HEAP_START as int / 0x4000_0000);
        assert(after / 0x80_0000_0000 == HEAP_START as int / 0x80_0000_0000);
        assert(before / 0x80_0000_0000 == HEAP_START as int / 0x80_0000_0000);
    }
}

/// Mapping the first `count` pages of the heap with a fresh supply leaves the
/// walk for an address beside the heap as it was, whether the pages are
/// mapped or the work ends with an error.
pub proof fn lemma_map_heap_pages_keeps_neighbour(
    mem: Tables,
    supply: Seq<u64>,
    root: u64,
    count: nat,
    addr: u64,
)
    requires
        tables_wf(mem),
        is_frame_start(root),
        is_fresh(mem, root, supply),
        count <= HEAP_PAGES,
        is_beside_heap(addr),
    ensures
        walk(map_heap_pages(mem, supply, root, count).mem, root, addr, PageTableLevel::Four)
            == walk(mem, root, addr, PageTableLevel::Four),
    decreases count,
{
    if count > 0 {
        let n = (count - 1) as nat;
        let before = map_heap_pages(mem, supply, root, n);
        lemma_map_heap_pages_keeps_neighbour(mem, supply, root, n, addr);
        if before.result is Ok && before.supply.len() > 0 {
            lemma_map_heap_pages(mem, supply, root, n);
            let frame = before.supply[0];
            let rest = before.supply.skip(1);
            let page = heap_page(n as int);
            lemma_fresh_rest(before.mem, root, before.supply);
            assert(TABLE_FLAGS & ADDRESS_MASK == 0) by (bit_vector);
            assert(is_neighbour(heap_page(n as int), addr));
            lemma_map_from_keeps_neighbour(
                before.mem,
                root,
                rest,
                root,
                PageTableLevel::Four,
                page,
                frame,
                TABLE_FLAGS,
                addr,
            );
        }
    }
}

/// Mapping the heap with a fresh supply changes the translation of no address
/// beside the heap: the page after the last page of the heap, for one, is
/// mapped after the call if and only if it was mapped before, and to the same
/// frame. This holds whether the heap is mapped or the work ends with an
/// error.
pub proof fn lemma_init_heap_keeps_neighbours(mem: Tables, supply: Seq<u64>, root: u64, addr: u64)
    requires
        tables_wf(mem),
        is_frame_start(root),
        is_fresh(mem, root, supply),
        is_beside_heap(addr),
    ensures
        translate(map_heap_pages(mem, supply, root, HEAP_PAGES as nat).mem, root, addr)
            == translate(mem, root, addr),
{
    lemma_map_heap_pages_keeps_neighbour(mem, supply, root, HEAP_PAGES as nat, addr);
}

/// Whether the tables on the way to the heap are there and the entry of each
/// page of the heap is zero.
pub open spec fn is_heap_unmapped(mem: Tables, root: u64) -> bool {
    forall|k: int|
        0 <= k < HEAP_PAGES ==> leaf_entry(mem, root, #[trigger] heap_page(k), PageTableLevel::Four)
            == Some(0u64)
}

/// Below tables that are there, the first `count` pages of the heap are
/// mapped, each to the frame that the supply holds at its place, and no other
/// frame is drawn.
pub proof fn lemma_map_heap_pages_below_tables(mem: Tables, supply: Seq<u64>, root: u64, count: nat)
    requires
        tables_wf(mem),
        is_frame_start(root),
        is_heap_unmapped(mem, root),
        count <= HEAP_PAGES,
        count <= supply.len(),
    ensures
        ({
            let done = map_heap_pages(mem, supply, root, count);
            &&& tables_wf(done.mem)
            &&& done.result is Ok
            &&& done.supply == supply.skip(count as int)
            &&& forall|k: int|
                0 <= k < count ==> leaf_entry(
                    done.mem,
                    root,
                    #[trigger] heap_page(k),
                    PageTableLevel::Four,
                ) == Some(entry_of(supply[k], TABLE_FLAGS))
            &&& forall|k: int|
                count <= k < HEAP_PAGES ==> leaf_entry(
                    done.mem,
                    root,
                    #[trigger] heap_page(k),
                    PageTableLevel::Four,
                ) == Some(0u64)
        }),
    decreases count,
{
    let done = map_heap_pages(mem, supply, root, count);
    if count == 0 {
        assert(done.supply =~= supply.skip(0));
    } else {
        let n = (count - 1) as nat;
        let before = map_heap_pages(mem, supply, root, n);
        lemma_map_heap_pages_below_tables(mem, supply, root, n);
        let frame = supply[n as int];
        let rest = supply.skip(count as int);
        let page = heap_page(n as int);
        assert(before.supply[0] == frame);
        assert(before.supply.skip(1) =~= rest);
        assert(done == map_to(before.mem, rest, root, page, frame, TABLE_FLAGS));
        lemma_heap_page(n as int);
        lemma_map_from_unused(
            before.mem,
            rest,
            root,
            PageTableLevel::Four,
            page,
            frame,
            TABLE_FLAGS,
            page,
        );
        assert forall|k: int| 0 <= k < HEAP_PAGES && k != n implies leaf_entry(
            done.mem,
            root,
            #[trigger] heap_page(k),
            PageTableLevel::Four,
        ) == leaf_entry(before.mem, root, heap_page(k), PageTableLevel::Four) by {
            lemma_heap_page(k);
            lemma_map_from_unused(
                before.mem,
                rest,
                root,
                PageTableLevel::Four,
                page,
                frame,
                TABLE_FLAGS,
                heap_page(k),
            );
        }
    }
}

/// Where the tables on the way to the heap are there, no page of the heap
/// has an entry and the allocator has 25 frames, the heap is mapped:
/// `init_heap` succeeds, exactly 25 frames are drawn, one for each page and
/// none for a table, and an address of page `k` translates to the address at
/// the same offset in the frame that was drawn for it. This holds whatever
/// frames the allocator hands out.
pub proof fn lemma_init_heap_below_tables(
    mem: Tables,
    supply: Seq<u64>,
    root: u64,
    k: int,
    offset: u64,
)
    requires
        tables_wf(mem),
        is_frame_start(root),
        is_heap_unmapped(mem, root),
        supply.len() >= HEAP_PAGES,
        is_frame_start(supply[k]),
        0 <= k < HEAP_PAGES,
        offset < PAGE_SIZE,
    ensures
        ({
            let done = map_heap_pages(mem, supply, root, HEAP_PAGES as nat);
            &&& done.result is Ok
            &&& done.supply == supply.skip(HEAP_PAGES as int)
            &&& translate(done.mem, root, (HEAP_START + k * PAGE_SIZE + offset) as u64) == Ok::<
                Option<u64>,
                MapToError,
            >(Some((supply[k] + offset) as u64))
        }),
{
    let done = map_heap_pages(mem, supply, root, HEAP_PAGES as nat);
    lemma_map_heap_pages_below_tables(mem, supply, root, HEAP_PAGES as nat);
    lemma_heap_page(k);
    let addr = (heap_page(k) + offset) as u64;
    assert forall|l: PageTableLevel| table_index(addr, l) == table_index(heap_page(k), l) by {
        lemma_index_within_page(heap_page(k), offset, l);
    }
    lemma_index_within_page(heap_page(k), offset, PageTableLevel::One);
    assert(leaf_entry(done.mem, root, heap_page(k), PageTableLevel::Four) == Some(
        entry_of(supply[k], TABLE_FLAGS),
    ));
    lemma_walk_by_leaf(done.mem, root, heap_page(k), addr, PageTableLevel::Four);
    assert(TABLE_FLAGS & ADDRESS_MASK == 0) by (bit_vector);
    assert(TABLE_FLAGS & 1 != 0) by (bit_vector);
    assert(TABLE_FLAGS & 0x80 == 0) by (bit_vector);
    lemma_entry_of(supply[k], TABLE_FLAGS);
}

/// Where the first page of the heap has an entry, `init_heap` fails at that
/// page with `AlreadyMapped` and leaves the tables as they were; the one frame
/// that it drew for the page is gone from the supply. With no frame in the
/// supply it fails with `FrameExhausted`. This holds whatever frames the
/// allocator hands out.
pub proof fn lemma_init_heap_mapped(mem: Tables, supply: Seq<u64>, root: u64)
    requires
        leaf_entry(mem, root, HEAP_START, PageTableLevel::Four) is Some,
        leaf_entry(mem, root, HEAP_START, PageTableLevel::Four) != Some(0u64),
    ensures
        supply.len() > 0 ==> map_heap_pages(mem, supply, root, HEAP_PAGES as nat) == (Mapping {
            mem,
            supply: supply.skip(1),
            result: Err(MapToError::AlreadyMapped),
        }),
        supply.len() == 0 ==> map_heap_pages(mem, supply, root, HEAP_PAGES as nat) == (Mapping {
            mem,
            supply,
            result: Err(MapToError::FrameExhausted),
        }),
{
    assert(heap_page(0) == HEAP_START);
    if supply.len() > 0 {
        lemma_map_to_mapped_page(mem, supply.skip(1), root, HEAP_START, supply[0], TABLE_FLAGS);
    }
    assert(map_heap_pages(mem, supply, root, 0).result is Ok);
    assert(map_heap_pages(mem, supply, root, 1) == map_heap_page(mem, supply, root, HEAP_START));
    lemma_map_heap_pages_failed(mem, supply, root, 1, HEAP_PAGES as nat);
}

/// Mapping the heap a second time fails: after `init_heap` has succeeded with
/// a fresh supply, a second run, with whatever supply, ends at the first page
/// with `AlreadyMapped`, or with `FrameExhausted` where the supply is empty,
/// and leaves the tables as the first run made them.
pub proof fn lemma_init_heap_twice(mem: Tables, supply: Seq<u64>, root: u64, other: Seq<u64>)
    requires
        tables_wf(mem),
        is_frame_start(root),
        is_fresh(mem, root, supply),
        map_heap_pages(mem, supply, root, HEAP_PAGES as nat).result is Ok,
    ensures
        ({
            let first = map_heap_pages(mem, supply, root, HEAP_PAGES as nat);
            let second = map_heap_pages(first.mem, other, root, HEAP_PAGES as nat);
            &&& second.mem == first.mem
            &&& other.len() > 0 ==> second.result == Err::<(), MapToError>(
                MapToError::AlreadyMapped,
            ) && second.supply == other.skip(1)
            &&& other.len() == 0 ==> second.result == Err::<(), MapToError>(
                MapToError::FrameExhausted,
            ) && second.supply == other
        }),
{
    let first = map_heap_pages(mem, supply, root, HEAP_PAGES as nat);
    lemma_map_heap_pages(mem, supply, root, HEAP_PAGES as nat);
    assert(heap_page(0) == HEAP_START);
    assert(walk(first.mem, root, heap_page(0), PageTableLevel::Four) == Walk::Mapped(
        heap_frame(mem, supply, root, 0),
    ));
    lemma_leaf_of_walk(first.mem, root, HEAP_START, PageTableLevel::Four);
    lemma_walk_by_leaf(first.mem, root, HEAP_START, HEAP_START, PageTableLevel::Four);
    lemma_zero_entry();
    lemma_init_heap_mapped(first.mem, other, root);
}

} // verus!
