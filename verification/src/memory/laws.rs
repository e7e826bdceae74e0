//! What holds of the mapper whatever the tables: a page that was mapped
//! translates to its frame, cannot be mapped again, and stays as it is when
//! other pages are mapped.

use vstd::prelude::*;
use crate::addr::is_frame_start;
use crate::addr::is_page_start;
use crate::addr::PAGE_SIZE;
use crate::addr::PageTableLevel;
use crate::entry::ADDRESS_MASK;
use crate::entry::address_of;
use crate::entry::entry_of;
use crate::entry::frame_of;
use crate::entry::FrameError;
use crate::entry::is_huge;
use crate::entry::is_present;
use crate::entry::lemma_address_of;
use crate::entry::lemma_entry_of;
use crate::entry::TABLE_FLAGS;
use crate::memory::mapper::descend;
use crate::memory::mapper::map_from;
use crate::memory::mapper::map_to;
use crate::memory::mapper::Mapping;
use crate::memory::mapper::MapToError;
use crate::memory::mapper::translate;
use crate::memory::mapper::Walk;
use crate::memory::mapper::walk;
use crate::memory::physical::entry_at;
use crate::memory::physical::Tables;
use crate::memory::physical::tables_wf;
use crate::memory::physical::with_empty_table;
use crate::memory::physical::with_entry;
use crate::x86::table_index;

verus! {

/// Whether some present entry of `mem` points to the frame at `frame`.
pub open spec fn is_referenced(mem: Tables, frame: u64) -> bool {
    exists|table: u64, index: int|
        0 <= index < 512 && is_present(#[trigger] entry_at(mem, table, index)) && address_of(
            entry_at(mem, table, index),
        ) == frame
}

/// Whether the frames of `supply` are free to hold new tables: each is a
/// frame, none comes twice, none is the root table and no present entry
/// points to one.
pub open spec fn is_fresh(mem: Tables, root: u64, supply: Seq<u64>) -> bool {
    &&& supply.no_duplicates()
    &&& forall|k: int|
        0 <= k < supply.len() ==> is_frame_start(#[trigger] supply[k]) && supply[k] != root
            && !is_referenced(mem, supply[k])
}

/// Whether every entry that is present in `before`, in a table outside the
/// frames of `supply`, is the same in `after`.
pub open spec fn keeps_present(before: Tables, after: Tables, supply: Seq<u64>) -> bool {
    forall|table: u64, index: int|
        0 <= index < 512 && is_present(#[trigger] entry_at(before, table, index))
            && !supply.contains(table) ==> entry_at(after, table, index) == entry_at(
            before,
            table,
            index,
        )
}

/// Whether every frame that a present entry of `after` points to was pointed
/// to in `before`, or is `frame`, or is one of `drawn`.
pub open spec fn refers_within(before: Tables, after: Tables, drawn: Seq<u64>, frame: u64) -> bool {
    forall|f: u64| #[trigger]
        is_referenced(after, f) ==> is_referenced(before, f) || f == frame || drawn.contains(f)
}

/// Whether `left` is what is left of `supply` after at most `most` frames
/// were drawn from it.
pub open spec fn is_rest(supply: Seq<u64>, left: Seq<u64>, most: int) -> bool {
    &&& left.len() <= supply.len()
    &&& supply.len() - left.len() <= most
    &&& left == supply.skip(supply.len() - left.len())
}

/// The frames that were drawn from `supply` when `left` is what is left of
/// it.
pub open spec fn drawn(supply: Seq<u64>, left: Seq<u64>) -> Seq<u64> {
    supply.take(supply.len() - left.len())
}

/// The entry of level one that the walk for `addr` arrives at from the table
/// of `level` in the frame at `table`, where every entry above it is present
/// and maps no huge frame.
pub open spec fn leaf_entry(mem: Tables, table: u64, addr: u64, level: PageTableLevel) -> Option<
    u64,
>
    decreases level.number(),
{
    let entry = entry_at(mem, table, table_index(addr, level));
    match level.lower() {
        None => Some(entry),
        Some(lower) => match frame_of(entry) {
            Ok(next) => leaf_entry(mem, next, addr, lower),
            Err(_) => None,
        },
    }
}

/// An entry that is zero is not present.
pub proof fn lemma_zero_entry()
    ensures
        !is_present(0),
        !is_huge(0),
        frame_of(0) == Err::<u64, FrameError>(FrameError::FrameNotPresent),
{
    assert(0u64 & 1 == 0) by (bit_vector);
    assert(0u64 & 0x80 == 0) by (bit_vector);
}

/// Every address of a page selects the same entries as the start of the page.
pub proof fn lemma_index_within_page(page: u64, offset: u64, level: PageTableLevel)
    requires
        page % PAGE_SIZE == 0,
        offset < PAGE_SIZE,
    ensures
        page + offset <= u64::MAX,
        (page + offset) % PAGE_SIZE as int == offset,
        table_index((page + offset) as u64, level) == table_index(page, level),
{
    let p = page as int;
    let o = offset as int;
    assert(p + o <= u64::MAX);
    assert((p + o) % 4096 == o);
    assert((p + o) / 0x1000 == p / 0x1000);
    assert((p + o) / 0x20_0000 == p / 0x20_0000);
    assert((p + o) / 0x4000_0000 == p / 0x4000_0000);
    assert((p + o) / 0x80_0000_0000 == p / 0x80_0000_0000);
}

/// What storing an entry does to the entries of memory.
pub proof fn lemma_with_entry(mem: Tables, table: u64, index: int, entry: u64)
    requires
        tables_wf(mem),
        is_frame_start(table),
        0 <= index < 512,
    ensures
        tables_wf(with_entry(mem, table, index, entry)),
        entry_at(with_entry(mem, table, index, entry), table, index) == entry,
        forall|t: u64, i: int|
            0 <= i < 512 && !(t == table && i == index) ==> #[trigger] entry_at(
                with_entry(mem, table, index, entry),
                t,
                i,
            ) == entry_at(mem, t, i),
{
}

/// What filling a frame with zeroes does to the entries of memory.
pub proof fn lemma_with_empty_table(mem: Tables, table: u64)
    requires
        tables_wf(mem),
        is_frame_start(table),
    ensures
        tables_wf(with_empty_table(mem, table)),
        forall|i: int| 0 <= i < 512 ==> #[trigger] entry_at(with_empty_table(mem, table), table, i) == 0,
        forall|t: u64, i: int|
            t != table ==> #[trigger] entry_at(with_empty_table(mem, table), t, i) == entry_at(
                mem,
                t,
                i,
            ),
{
}

/// What is left of a supply holds frames of the supply only, and none of
/// those that were drawn.
pub proof fn lemma_rest(supply: Seq<u64>, left: Seq<u64>, most: int)
    requires
        is_rest(supply, left, most),
    ensures
        forall|f: u64| #[trigger] left.contains(f) ==> supply.contains(f),
        forall|f: u64| #[trigger] drawn(supply, left).contains(f) ==> supply.contains(f),
        supply.no_duplicates() ==> left.no_duplicates(),
        supply.no_duplicates() ==> forall|f: u64|
            #[trigger] drawn(supply, left).contains(f) ==> !left.contains(f),
{
    let n = supply.len() - left.len();
    assert forall|f: u64| #[trigger] left.contains(f) implies supply.contains(f) by {
        let k = choose|k: int| 0 <= k < left.len() && left[k] == f;
        assert(supply[n + k] == f);
    }
    assert forall|f: u64| #[trigger] drawn(supply, left).contains(f) implies supply.contains(f) by {
        let k = choose|k: int| 0 <= k < n && drawn(supply, left)[k] == f;
        assert(supply[k] == f);
    }
    if supply.no_duplicates() {
        assert forall|i: int, j: int| 0 <= i < left.len() && 0 <= j < left.len() && i != j implies left[i]
            != left[j] by {
            assert(left[i] == supply[n + i] && left[j] == supply[n + j]);
        }
        assert forall|f: u64| #[trigger] drawn(supply, left).contains(f) implies !left.contains(f) by {
            let k = choose|k: int| 0 <= k < n && drawn(supply, left)[k] == f;
            assert(supply[k] == f);
            if left.contains(f) {
                let j = choose|j: int| 0 <= j < left.len() && left[j] == f;
                assert(supply[n + j] == f);
            }
        }
    }
}

/// What is left of what is left of a supply is left of the supply, and what
/// was drawn in the two rounds was drawn from the supply.
pub proof fn lemma_rest_of_rest(supply: Seq<u64>, middle: Seq<u64>, left: Seq<u64>, a: int, b: int)
    requires
        is_rest(supply, middle, a),
        is_rest(middle, left, b),
    ensures
        is_rest(supply, left, a + b),
        forall|f: u64| #[trigger] drawn(supply, middle).contains(f) ==> drawn(supply, left).contains(f),
        forall|f: u64| #[trigger] drawn(middle, left).contains(f) ==> drawn(supply, left).contains(f),
{
    let n = supply.len() - middle.len();
    let m = middle.len() - left.len();
    assert(left =~= supply.skip(n + m));
    assert forall|f: u64| #[trigger] drawn(supply, middle).contains(f) implies drawn(
        supply,
        left,
    ).contains(f) by {
        let k = choose|k: int| 0 <= k < n && drawn(supply, middle)[k] == f;
        assert(drawn(supply, left)[k] == f);
    }
    assert forall|f: u64| #[trigger] drawn(middle, left).contains(f) implies drawn(
        supply,
        left,
    ).contains(f) by {
        let k = choose|k: int| 0 <= k < m && drawn(middle, left)[k] == f;
        assert(drawn(supply, left)[n + k] == f);
    }
}

/// After its first frame was drawn, what is left of a fresh supply is fresh,
/// and the frame that was drawn is a frame that is not left.
pub proof fn lemma_fresh_rest(mem: Tables, root: u64, supply: Seq<u64>)
    requires
        is_fresh(mem, root, supply),
        supply.len() > 0,
    ensures
        is_fresh(mem, root, supply.skip(1)),
        is_rest(supply, supply.skip(1), 1),
        is_frame_start(supply[0]),
        !supply.skip(1).contains(supply[0]),
        drawn(supply, supply.skip(1)).contains(supply[0]),
{
    let rest = supply.skip(1);
    lemma_rest(supply, rest, 1);
    assert(drawn(supply, rest)[0] == supply[0]);
    assert forall|k: int| 0 <= k < rest.len() implies is_frame_start(#[trigger] rest[k]) && rest[k]
        != root && !is_referenced(mem, rest[k]) by {
        assert(rest[k] == supply[k + 1]);
    }
}

/// One step down of the mapping walk with a fresh supply: the step keeps
/// the entries that were present, points to nothing new but the frame that it
/// drew, and leaves an entry that leads to the table that it arrived at.
pub proof fn lemma_descend(mem: Tables, root: u64, supply: Seq<u64>, table: u64, index: int)
    requires
        tables_wf(mem),
        is_fresh(mem, root, supply),
        is_frame_start(table),
        !supply.contains(table),
        0 <= index < 512,
    ensures
        ({
            let step = descend(mem, supply, table, index);
            &&& tables_wf(step.mem)
            &&& is_rest(supply, step.supply, 1)
            &&& is_fresh(step.mem, root, step.supply)
            &&& keeps_present(mem, step.mem, supply)
            &&& forall|f: u64| #[trigger]
                is_referenced(step.mem, f) ==> is_referenced(mem, f) || drawn(
                    supply,
                    step.supply,
                ).contains(f)
            &&& step.table matches Ok(next) ==> is_frame_start(next) && !step.supply.contains(next)
                && frame_of(entry_at(step.mem, table, index)) == Ok::<u64, FrameError>(next)
            &&& step.table is Err ==> step.mem == mem
            &&& step.table != Err::<u64, MapToError>(MapToError::FrameExhausted)
            &&& step.table != Err::<u64, MapToError>(MapToError::AlreadyMapped)
        }),
{
    let step = descend(mem, supply, table, index);
    let entry = entry_at(mem, table, index);
    lemma_address_of(entry);
    lemma_zero_entry();
    if entry != 0 || supply.len() == 0 {
        assert(step.supply =~= supply.skip(0));
        if step.table is Ok {
            assert(is_referenced(mem, step.table->Ok_0));
        }
    } else {
        let fresh = supply[0];
        let cleared = with_empty_table(mem, fresh);
        let pointer = entry_of(fresh, TABLE_FLAGS);
        assert(supply.contains(fresh));
        assert(TABLE_FLAGS & ADDRESS_MASK == 0) by (bit_vector);
        assert(TABLE_FLAGS & 1 != 0) by (bit_vector);
        assert(TABLE_FLAGS & 0x80 == 0) by (bit_vector);
        lemma_entry_of(fresh, TABLE_FLAGS);
        lemma_with_empty_table(mem, fresh);
        lemma_with_entry(cleared, table, index, pointer);
        lemma_rest(supply, step.supply, 1);
        assert(drawn(supply, step.supply)[0] == fresh);
        assert forall|f: u64| #[trigger] is_referenced(step.mem, f) implies is_referenced(mem, f)
            || drawn(supply, step.supply).contains(f) by {
            let (t, i) = choose|t: u64, i: int|
                0 <= i < 512 && is_present(#[trigger] entry_at(step.mem, t, i)) && address_of(
                    entry_at(step.mem, t, i),
                ) == f;
            if t == table && i == index {
                assert(f == fresh);
            } else {
                assert(entry_at(step.mem, t, i) == entry_at(cleared, t, i));
                if t == fresh {
                    assert(entry_at(cleared, t, i) == 0);
                } else {
                    assert(entry_at(cleared, t, i) == entry_at(mem, t, i));
                    assert(is_referenced(mem, f));
                }
            }
        }
        assert forall|k: int| 0 <= k < step.supply.len() implies is_frame_start(
            #[trigger] step.supply[k],
        ) && step.supply[k] != root && !is_referenced(step.mem, step.supply[k]) by {
            assert(step.supply[k] == supply[k + 1]);
            assert(step.supply.contains(step.supply[k]));
        }
        assert forall|t: u64, i: int|
            0 <= i < 512 && is_present(#[trigger] entry_at(mem, t, i)) && !supply.contains(
                t,
            ) implies entry_at(step.mem, t, i) == entry_at(mem, t, i) by {
            assert(entry_at(cleared, t, i) == entry_at(mem, t, i));
        }
    }
}

/// The mapping walk with a fresh supply, from any level: it keeps the entries
/// that were present, points to nothing new but the frames that it drew and
/// the frame that it maps, draws at most one frame for each level above the
/// first, and on success leaves the entry of the page at the end of a way of
/// present entries.
pub proof fn lemma_map_from(
    mem: Tables,
    root: u64,
    supply: Seq<u64>,
    table: u64,
    level: PageTableLevel,
    page: u64,
    frame: u64,
    flags: u64,
)
    requires
        tables_wf(mem),
        is_fresh(mem, root, supply),
        is_frame_start(table),
        !supply.contains(table),
        is_frame_start(frame),
        flags & ADDRESS_MASK == 0,
    ensures
        ({
            let done = map_from(mem, supply, table, level, page, frame, flags);
            &&& tables_wf(done.mem)
            &&& is_rest(supply, done.supply, level.number() - 1)
            &&& keeps_present(mem, done.mem, supply)
            &&& refers_within(mem, done.mem, drawn(supply, done.supply), frame)
            &&& done.result is Ok ==> leaf_entry(done.mem, table, page, level) == Some(
                entry_of(frame, flags),
            )
            &&& done.result != Err::<(), MapToError>(MapToError::FrameExhausted)
        }),
    decreases level.number(),
{
    let done = map_from(mem, supply, table, level, page, frame, flags);
    let index = table_index(page, level);
    lemma_zero_entry();
    match level.lower() {
        None => {
            assert(done.supply =~= supply.skip(0));
            if entry_at(mem, table, index) == 0 {
                let entry = entry_of(frame, flags);
                lemma_with_entry(mem, table, index, entry);
                lemma_entry_of(frame, flags);
                assert forall|f: u64| #[trigger] is_referenced(done.mem, f) implies is_referenced(
                    mem,
                    f,
                ) || f == frame || drawn(supply, done.supply).contains(f) by {
                    let (t, i) = choose|t: u64, i: int|
                        0 <= i < 512 && is_present(#[trigger] entry_at(done.mem, t, i))
                            && address_of(entry_at(done.mem, t, i)) == f;
                    if t == table && i == index {
                    } else {
                        assert(entry_at(done.mem, t, i) == entry_at(mem, t, i));
                        assert(is_referenced(mem, f));
                    }
                }
            }
        },
        Some(lower) => {
            lemma_descend(mem, root, supply, table, index);
            let step = descend(mem, supply, table, index);
            lemma_rest(supply, step.supply, 1);
            match step.table {
                Err(e) => {
                    assert(is_rest(supply, done.supply, level.number() - 1));
                },
                Ok(next) => {
                    lemma_map_from(step.mem, root, step.supply, next, lower, page, frame, flags);
                    lemma_rest_of_rest(supply, step.supply, done.supply, 1, lower.number() - 1);
                    lemma_rest(step.supply, done.supply, lower.number() - 1);
                    assert forall|t: u64, i: int|
                        0 <= i < 512 && is_present(#[trigger] entry_at(mem, t, i))
                            && !supply.contains(t) implies entry_at(done.mem, t, i) == entry_at(
                        mem,
                        t,
                        i,
                    ) by {
                        assert(entry_at(step.mem, t, i) == entry_at(mem, t, i));
                        assert(is_present(entry_at(step.mem, t, i)));
                    }
                    assert forall|f: u64| #[trigger] is_referenced(done.mem, f) implies is_referenced(
                        mem,
                        f,
                    ) || f == frame || drawn(supply, done.supply).contains(f) by {
                        if is_referenced(step.mem, f) {
                        } else if f != frame {
                            assert(drawn(step.supply, done.supply).contains(f));
                        }
                    }
                    if done.result is Ok {
                        assert(is_present(entry_at(step.mem, table, index)));
                        assert(entry_at(done.mem, table, index) == entry_at(step.mem, table, index));
                    }
                },
            }
        },
    }
}

/// Where the walk ends that arrives at `entry` in a table of level one.
pub open spec fn walk_end(entry: u64) -> Walk {
    match frame_of(entry) {
        Ok(frame) => Walk::Mapped(frame),
        Err(FrameError::FrameNotPresent) => Walk::NotMapped,
        Err(FrameError::HugeFrame) => Walk::HugePage,
    }
}

/// The walk for an address ends as the entry of its page says.
pub proof fn lemma_walk_by_leaf(mem: Tables, table: u64, page: u64, addr: u64, level: PageTableLevel)
    requires
        forall|l: PageTableLevel| table_index(addr, l) == table_index(page, l),
        leaf_entry(mem, table, page, level) is Some,
    ensures
        walk(mem, table, addr, level) == walk_end(leaf_entry(mem, table, page, level).unwrap()),
    decreases level.number(),
{
    assert(table_index(addr, level) == table_index(page, level));
    let entry = entry_at(mem, table, table_index(page, level));
    match level.lower() {
        None => {},
        Some(lower) => {
            match frame_of(entry) {
                Ok(next) => {
                    lemma_walk_by_leaf(mem, next, page, addr, lower);
                },
                Err(_) => {},
            }
        },
    }
}

/// A page whose entry is not zero is not mapped again: the mapping walk
/// arrives at the entry, changes nothing and draws nothing.
pub proof fn lemma_map_from_mapped(
    mem: Tables,
    supply: Seq<u64>,
    table: u64,
    level: PageTableLevel,
    page: u64,
    frame: u64,
    flags: u64,
)
    requires
        leaf_entry(mem, table, page, level) is Some,
        leaf_entry(mem, table, page, level) != Some(0u64),
    ensures
        map_from(mem, supply, table, level, page, frame, flags) == (Mapping {
            mem,
            supply,
            result: Err(MapToError::AlreadyMapped),
        }),
    decreases level.number(),
{
    let entry = entry_at(mem, table, table_index(page, level));
    lemma_zero_entry();
    match level.lower() {
        None => {},
        Some(lower) => {
            match frame_of(entry) {
                Ok(next) => {
                    lemma_map_from_mapped(mem, supply, next, lower, page, frame, flags);
                },
                Err(_) => {},
            }
        },
    }
}

/// A walk that ends at a frame, or at a huge frame, ends there still after
/// memory has changed, where the change kept the entries that were present
/// outside the frames of a fresh supply.
pub proof fn lemma_walk_kept(
    mem: Tables,
    after: Tables,
    root: u64,
    supply: Seq<u64>,
    table: u64,
    addr: u64,
    level: PageTableLevel,
)
    requires
        is_fresh(mem, root, supply),
        keeps_present(mem, after, supply),
        !supply.contains(table),
        walk(mem, table, addr, level) != Walk::NotMapped,
    ensures
        walk(after, table, addr, level) == walk(mem, table, addr, level),
    decreases level.number(),
{
    let index = table_index(addr, level);
    let entry = entry_at(mem, table, index);
    assert(is_present(entry));
    assert(entry_at(after, table, index) == entry);
    match frame_of(entry) {
        Ok(next) => {
            assert(is_referenced(mem, next));
            match level.lower() {
                None => {},
                Some(lower) => {
                    lemma_walk_kept(mem, after, root, supply, next, addr, lower);
                },
            }
        },
        Err(_) => {},
    }
}

/// Mapping a page and then translating an address of it gives the address at
/// the same offset in the frame. This holds where the frames for new tables
/// are fresh and the flags say present, and not huge: a walk stops at an
/// entry without the first, or with the second.
pub proof fn lemma_map_to_then_translate(
    mem: Tables,
    supply: Seq<u64>,
    root: u64,
    page: u64,
    frame: u64,
    flags: u64,
    offset: u64,
)
    requires
        tables_wf(mem),
        is_frame_start(root),
        is_fresh(mem, root, supply),
        is_page_start(page),
        is_frame_start(frame),
        flags & ADDRESS_MASK == 0,
        is_present(flags),
        !is_huge(flags),
        offset < PAGE_SIZE,
        map_to(mem, supply, root, page, frame, flags).result is Ok,
    ensures
        translate(map_to(mem, supply, root, page, frame, flags).mem, root, (page + offset) as u64)
            == Ok::<Option<u64>, MapToError>(Some((frame + offset) as u64)),
{
    let done = map_to(mem, supply, root, page, frame, flags);
    let addr = (page + offset) as u64;
    lemma_map_from(mem, root, supply, root, PageTableLevel::Four, page, frame, flags);
    assert forall|l: PageTableLevel| table_index(addr, l) == table_index(page, l) by {
        lemma_index_within_page(page, offset, l);
    }
    lemma_index_within_page(page, offset, PageTableLevel::One);
    lemma_walk_by_leaf(done.mem, root, page, addr, PageTableLevel::Four);
    lemma_entry_of(frame, flags);
}

/// Mapping a page that was mapped fails with `AlreadyMapped` and changes
/// nothing, whatever frame and flags the second attempt names. This holds
/// where the frames for new tables are fresh and the first attempt wrote an
/// entry that is not zero: it named another frame than the one at address
/// zero, or some flag.
pub proof fn lemma_map_to_twice(
    mem: Tables,
    supply: Seq<u64>,
    root: u64,
    page: u64,
    frame: u64,
    flags: u64,
    other_frame: u64,
    other_flags: u64,
)
    requires
        tables_wf(mem),
        is_frame_start(root),
        is_fresh(mem, root, supply),
        is_frame_start(frame),
        flags & ADDRESS_MASK == 0,
        frame != 0 || flags != 0,
        map_to(mem, supply, root, page, frame, flags).result is Ok,
    ensures
        ({
            let first = map_to(mem, supply, root, page, frame, flags);
            map_to(first.mem, first.supply, root, page, other_frame, other_flags) == (Mapping {
                mem: first.mem,
                supply: first.supply,
                result: Err(MapToError::AlreadyMapped),
            })
        }),
{
    let first = map_to(mem, supply, root, page, frame, flags);
    lemma_map_from(mem, root, supply, root, PageTableLevel::Four, page, frame, flags);
    lemma_entry_of(frame, flags);
    lemma_map_from_mapped(
        first.mem,
        first.supply,
        root,
        PageTableLevel::Four,
        page,
        other_frame,
        other_flags,
    );
}

/// Mapping a page leaves every address that was translated as it was
/// translated, whether the attempt succeeds or fails, where the frames for
/// new tables are fresh.
pub proof fn lemma_map_to_keeps_translations(
    mem: Tables,
    supply: Seq<u64>,
    root: u64,
    page: u64,
    frame: u64,
    flags: u64,
    addr: u64,
)
    requires
        tables_wf(mem),
        is_frame_start(root),
        is_fresh(mem, root, supply),
        is_frame_start(frame),
        flags & ADDRESS_MASK == 0,
        translate(mem, root, addr) != Ok::<Option<u64>, MapToError>(None),
    ensures
        translate(map_to(mem, supply, root, page, frame, flags).mem, root, addr) == translate(
            mem,
            root,
            addr,
        ),
{
    let done = map_to(mem, supply, root, page, frame, flags);
    lemma_map_from(mem, root, supply, root, PageTableLevel::Four, page, frame, flags);
    lemma_walk_kept(mem, done.mem, root, supply, root, addr, PageTableLevel::Four);
}

/// After a page was mapped to a frame that is not in the supply, what is left
/// of a fresh supply is fresh still.
pub proof fn lemma_map_to_keeps_fresh(
    mem: Tables,
    supply: Seq<u64>,
    root: u64,
    page: u64,
    frame: u64,
    flags: u64,
)
    requires
        tables_wf(mem),
        is_frame_start(root),
        is_fresh(mem, root, supply),
        is_frame_start(frame),
        !supply.contains(frame),
        flags & ADDRESS_MASK == 0,
    ensures
        ({
            let done = map_to(mem, supply, root, page, frame, flags);
            &&& tables_wf(done.mem)
            &&& is_rest(supply, done.supply, 3)
            &&& is_fresh(done.mem, root, done.supply)
        }),
{
    let done = map_to(mem, supply, root, page, frame, flags);
    lemma_map_from(mem, root, supply, root, PageTableLevel::Four, page, frame, flags);
    lemma_rest(supply, done.supply, 3);
    assert forall|k: int| 0 <= k < done.supply.len() implies is_frame_start(
        #[trigger] done.supply[k],
    ) && done.supply[k] != root && !is_referenced(done.mem, done.supply[k]) by {
        let f = done.supply[k];
        assert(done.supply.contains(f));
        assert(supply.contains(f));
        let j = choose|j: int| 0 <= j < supply.len() && supply[j] == f;
        assert(is_frame_start(supply[j]));
        if is_referenced(done.mem, f) {
            assert(is_referenced(mem, f) || f == frame || drawn(supply, done.supply).contains(f));
        }
    }
}

/// Whether `addr` lies in another page below the same table of level one as
/// `page`: the two select the same entry at each level but the first.
pub open spec fn is_neighbour(page: u64, addr: u64) -> bool {
    &&& table_index(addr, PageTableLevel::Four) == table_index(page, PageTableLevel::Four)
    &&& table_index(addr, PageTableLevel::Three) == table_index(page, PageTableLevel::Three)
    &&& table_index(addr, PageTableLevel::Two) == table_index(page, PageTableLevel::Two)
    &&& table_index(addr, PageTableLevel::One) != table_index(page, PageTableLevel::One)
}

/// The mapping walk with a fresh supply, from any level, leaves the walk for
/// an address in a neighbour page as it was, whether the walk ended at a frame
/// or not.
pub proof fn lemma_map_from_keeps_neighbour(
    mem: Tables,
    root: u64,
    supply: Seq<u64>,
    table: u64,
    level: PageTableLevel,
    page: u64,
    frame: u64,
    flags: u64,
    addr: u64,
)
    requires
        tables_wf(mem),
        is_fresh(mem, root, supply),
        is_frame_start(table),
        !supply.contains(table),
        is_frame_start(frame),
        flags & ADDRESS_MASK == 0,
        is_neighbour(page, addr),
    ensures
        walk(map_from(mem, supply, table, level, page, frame, flags).mem, table, addr, level)
            == walk(mem, table, addr, level),
    decreases level.number(),
{
    let done = map_from(mem, supply, table, level, page, frame, flags);
    let index = table_index(page, level);
    lemma_zero_entry();
    match level.lower() {
        None => {
            if entry_at(mem, table, index) == 0 {
                lemma_with_entry(mem, table, index, entry_of(frame, flags));
            }
        },
        Some(lower) => {
            assert(table_index(addr, level) == index);
            lemma_descend(mem, root, supply, table, index);
            let step = descend(mem, supply, table, index);
            lemma_rest(supply, step.supply, 1);
            match step.table {
                Err(e) => {},
                Ok(next) => {
                    lemma_map_from(step.mem, root, step.supply, next, lower, page, frame, flags);
                    lemma_map_from_keeps_neighbour(
                        step.mem,
                        root,
                        step.supply,
                        next,
                        lower,
                        page,
                        frame,
                        flags,
                        addr,
                    );
                    assert(is_present(entry_at(step.mem, table, index)));
                    assert(entry_at(done.mem, table, index) == entry_at(step.mem, table, index));
                    assert(walk(done.mem, table, addr, level) == walk(step.mem, next, addr, lower));
                    if entry_at(mem, table, index) != 0 {
                        assert(step.mem == mem);
                    } else {
                        let cleared = with_empty_table(mem, next);
                        assert(supply.contains(next));
                        lemma_with_empty_table(mem, next);
                        lemma_with_entry(cleared, table, index, entry_of(next, TABLE_FLAGS));
                        assert(entry_at(step.mem, next, table_index(addr, lower)) == 0);
                    }
                },
            }
        },
    }
}

/// Mapping a page leaves every address of a neighbour page, one below the
/// same table of level one, as it was translated: what was mapped stays
/// mapped to its frame, and what was not mapped stays unmapped. This holds
/// whether the attempt succeeds or fails, where the frames for new tables are
/// fresh.
pub proof fn lemma_map_to_keeps_neighbours(
    mem: Tables,
    supply: Seq<u64>,
    root: u64,
    page: u64,
    frame: u64,
    flags: u64,
    addr: u64,
)
    requires
        tables_wf(mem),
        is_frame_start(root),
        is_fresh(mem, root, supply),
        is_frame_start(frame),
        flags & ADDRESS_MASK == 0,
        is_neighbour(page, addr),
    ensures
        translate(map_to(mem, supply, root, page, frame, flags).mem, root, addr) == translate(
            mem,
            root,
            addr,
        ),
{
    lemma_map_from_keeps_neighbour(
        mem,
        root,
        supply,
        root,
        PageTableLevel::Four,
        page,
        frame,
        flags,
        addr,
    );
}

/// Whether every entry that is not zero in `before` is the same in `after`.
pub open spec fn keeps_used(before: Tables, after: Tables) -> bool {
    forall|table: u64, index: int|
        0 <= index < 512 && #[trigger] entry_at(before, table, index) != 0 ==> entry_at(
            after,
            table,
            index,
        ) == entry_at(before, table, index)
}

/// The mapping walk for a page whose tables are there and whose entry is
/// zero, from any level: it succeeds, draws no frame, writes the entry of the
/// page and leaves every entry that was in use, and the entry of every
/// neighbour page, as it was.
pub proof fn lemma_map_from_unused(
    mem: Tables,
    supply: Seq<u64>,
    table: u64,
    level: PageTableLevel,
    page: u64,
    frame: u64,
    flags: u64,
    other: u64,
)
    requires
        tables_wf(mem),
        is_frame_start(table),
        leaf_entry(mem, table, page, level) == Some(0u64),
    ensures
        ({
            let done = map_from(mem, supply, table, level, page, frame, flags);
            &&& tables_wf(done.mem)
            &&& done.result is Ok
            &&& done.supply == supply
            &&& keeps_used(mem, done.mem)
            &&& leaf_entry(done.mem, table, page, level) == Some(entry_of(frame, flags))
            &&& is_neighbour(page, other) ==> leaf_entry(done.mem, table, other, level)
                == leaf_entry(mem, table, other, level)
        }),
    decreases level.number(),
{
    let done = map_from(mem, supply, table, level, page, frame, flags);
    let index = table_index(page, level);
    let entry = entry_at(mem, table, index);
    lemma_zero_entry();
    match level.lower() {
        None => {
            lemma_with_entry(mem, table, index, entry_of(frame, flags));
        },
        Some(lower) => {
            lemma_address_of(entry);
            match frame_of(entry) {
                Ok(next) => {
                    lemma_map_from_unused(mem, supply, next, lower, page, frame, flags, other);
                    assert(entry_at(done.mem, table, index) == entry);
                    if is_neighbour(page, other) {
                        assert(table_index(other, level) == index);
                    }
                },
                Err(_) => {},
            }
        },
    }
}

/// Below tables that are there, mapping a page whose entry is zero succeeds
/// without a frame from the allocator, and translating an address of the page
/// then gives the address at the same offset in the frame. The flags must say
/// present, and not huge: a walk stops at an entry without the first, or with
/// the second.
pub proof fn lemma_map_to_below_tables(
    mem: Tables,
    supply: Seq<u64>,
    root: u64,
    page: u64,
    frame: u64,
    flags: u64,
    offset: u64,
)
    requires
        tables_wf(mem),
        is_frame_start(root),
        is_page_start(page),
        is_frame_start(frame),
        flags & ADDRESS_MASK == 0,
        is_present(flags),
        !is_huge(flags),
        offset < PAGE_SIZE,
        leaf_entry(mem, root, page, PageTableLevel::Four) == Some(0u64),
    ensures
        map_to(mem, supply, root, page, frame, flags).result is Ok,
        map_to(mem, supply, root, page, frame, flags).supply == supply,
        translate(map_to(mem, supply, root, page, frame, flags).mem, root, (page + offset) as u64)
            == Ok::<Option<u64>, MapToError>(Some((frame + offset) as u64)),
{
    let done = map_to(mem, supply, root, page, frame, flags);
    let addr = (page + offset) as u64;
    lemma_map_from_unused(mem, supply, root, PageTableLevel::Four, page, frame, flags, page);
    assert forall|l: PageTableLevel| table_index(addr, l) == table_index(page, l) by {
        lemma_index_within_page(page, offset, l);
    }
    lemma_index_within_page(page, offset, PageTableLevel::One);
    lemma_walk_by_leaf(done.mem, root, page, addr, PageTableLevel::Four);
    lemma_entry_of(frame, flags);
}

/// Mapping a page that has an entry fails with `AlreadyMapped` and changes
/// nothing, whatever the allocator holds: the tables on the way are there and
/// the entry of the page is not zero.
pub proof fn lemma_map_to_mapped_page(
    mem: Tables,
    supply: Seq<u64>,
    root: u64,
    page: u64,
    frame: u64,
    flags: u64,
)
    requires
        leaf_entry(mem, root, page, PageTableLevel::Four) is Some,
        leaf_entry(mem, root, page, PageTableLevel::Four) != Some(0u64),
    ensures
        map_to(mem, supply, root, page, frame, flags) == (Mapping {
            mem,
            supply,
            result: Err(MapToError::AlreadyMapped),
        }),
{
    lemma_map_from_mapped(mem, supply, root, PageTableLevel::Four, page, frame, flags);
}

} // verus!
