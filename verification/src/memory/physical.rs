//! The physical memory that holds page tables, as a store of tables keyed by
//! the frame that each one fills. A frame that was never written reads as
//! zeroes.

use vstd::prelude::*;
use x86_64::structures::paging::PageTable;
use crate::addr::is_frame_start;
use crate::addr::PhysFrame;
use crate::entry::entry_of;
use crate::entry::frame_of;
use crate::entry::FrameError;
use crate::entry::lemma_address_of;
use crate::entry::PageTableFlags;
use crate::x86::empty_table;
use crate::x86::table_entries;
use crate::x86;

verus! {

/// What physical memory holds: for each frame that was written, the 512
/// entries of the table in it.
pub type Tables = Map<u64, Seq<u64>>;

/// Whether each table of `mem` fills a frame and has 512 entries.
pub open spec fn tables_wf(mem: Tables) -> bool {
    forall|frame: u64| #[trigger]
        mem.dom().contains(frame) ==> is_frame_start(frame) && mem[frame].len() == 512
}

/// The table in the frame at `table`; zeroes where the frame was never
/// written.
pub open spec fn table_at(mem: Tables, table: u64) -> Seq<u64> {
    if mem.dom().contains(table) {
        mem[table]
    } else {
        empty_table()
    }
}

/// The entry at `index` of the table in the frame at `table`.
pub open spec fn entry_at(mem: Tables, table: u64, index: int) -> u64 {
    table_at(mem, table)[index]
}

/// `mem` after `entry` is stored at `index` of the table in the frame at
/// `table`.
pub open spec fn with_entry(mem: Tables, table: u64, index: int, entry: u64) -> Tables {
    mem.insert(table, table_at(mem, table).update(index, entry))
}

/// `mem` after the frame at `table` is filled with zeroes.
pub open spec fn with_empty_table(mem: Tables, table: u64) -> Tables {
    mem.insert(table, empty_table())
}

/// A store of page tables that stands for the physical memory of the machine.
pub struct PhysicalMemory {
    frames: Vec<u64>,
    tables: Vec<PageTable>,
}

impl PhysicalMemory {
    /// Each stored table has its own frame.
    pub closed spec fn wf(&self) -> bool {
        &&& self.frames.len() == self.tables.len()
        &&& self.frames@.no_duplicates()
        &&& forall|i: int| 0 <= i < self.frames.len() ==> is_frame_start(#[trigger] self.frames@[i])
        &&& forall|i: int|
            0 <= i < self.tables.len() ==> (#[trigger] table_entries(self.tables@[i])).len() == 512
    }

    /// The tables by the frame that each one fills.
    pub closed spec fn view(&self) -> Tables {
        Map::new(
            |frame: u64| self.frames@.contains(frame),
            |frame: u64| table_entries(self.tables@[self.frames@.index_of(frame)]),
        )
    }

    proof fn lemma_slot(&self, i: int)
        requires
            self.wf(),
            0 <= i < self.frames.len(),
        ensures
            self.frames@.index_of(self.frames@[i]) == i,
            self@.dom().contains(self.frames@[i]),
            self@[self.frames@[i]] == table_entries(self.tables@[i]),
    {
        let frame = self.frames@[i];
        assert(self.frames@.contains(frame));
        let j = self.frames@.index_of(frame);
        assert(0 <= j < self.frames@.len() && self.frames@[j] == frame);
    }

    /// What `wf` says of the view.
    pub proof fn lemma_view_wf(&self)
        requires
            self.wf(),
        ensures
            tables_wf(self@),
    {
        assert forall|frame: u64| #[trigger] self@.dom().contains(frame) implies is_frame_start(
            frame,
        ) && self@[frame].len() == 512 by {
            let i = self.frames@.index_of(frame);
            assert(0 <= i < self.frames@.len() && self.frames@[i] == frame);
        }
    }

    /// A memory in which nothing was written.
    pub fn new() -> (memory: PhysicalMemory)
        ensures
            memory.wf(),
            memory@ == Map::<u64, Seq<u64>>::empty(),
    {
        let memory = PhysicalMemory { frames: Vec::new(), tables: Vec::new() };
        assert(memory@ =~= Map::<u64, Seq<u64>>::empty());
        memory
    }

    /// The place of the table of `frame` in the store.
    fn find(&self, frame: u64) -> (slot: Option<usize>)
        requires
            self.wf(),
        ensures
            slot matches Some(i) ==> i < self.frames.len() && self.frames@[i as int] == frame,
            slot is None ==> !self.frames@.contains(frame),
    {
        let mut i: usize = 0;
        while i < self.frames.len()
            invariant
                i <= self.frames.len(),
                forall|j: int| 0 <= j < i ==> self.frames@[j] != frame,
            decreases self.frames.len() - i,
        {
            if self.frames[i] == frame {
                return Some(i);
            }
            i += 1;
        }
        None
    }

    /// Whether a table was ever written in `frame`.
    pub fn holds_table(&self, frame: PhysFrame) -> (held: bool)
        requires
            self.wf(),
        ensures
            held == self@.dom().contains(frame.start()),
    {
        self.find(frame.start_address().as_u64()).is_some()
    }

    /// Whether the entry at `index` of the table in `table` is zero.
    pub fn entry_is_unused(&self, table: PhysFrame, index: u16) -> (unused: bool)
        requires
            self.wf(),
            index < 512,
        ensures
            unused == (entry_at(self@, table.start(), index as int) == 0),
    {
        match self.find(table.start_address().as_u64()) {
            Some(slot) => {
                proof {
                    self.lemma_slot(slot as int);
                }
                x86::entry_is_unused(&self.tables[slot], index as usize)
            },
            None => true,
        }
    }

    /// The frame that the entry at `index` of the table in `table` leads to.
    pub fn entry_frame(&self, table: PhysFrame, index: u16) -> (frame: Result<PhysFrame, FrameError>)
        requires
            self.wf(),
            index < 512,
        ensures
            match frame {
                Ok(f) => frame_of(entry_at(self@, table.start(), index as int)) == Ok::<
                    u64,
                    FrameError,
                >(f.start()),
                Err(e) => frame_of(entry_at(self@, table.start(), index as int)) == Err::<
                    u64,
                    FrameError,
                >(e),
            },
    {
        match self.find(table.start_address().as_u64()) {
            Some(slot) => {
                proof {
                    self.lemma_slot(slot as int);
                    lemma_address_of(entry_at(self@, table.start(), index as int));
                }
                match x86::entry_frame(&self.tables[slot], index as usize) {
                    Ok(start) => Ok(PhysFrame::from_start(start)),
                    Err(e) => Err(e),
                }
            },
            None => {
                assert(0u64 & 1 == 0) by (bit_vector);
                Err(FrameError::FrameNotPresent)
            },
        }
    }

    /// Stores the entry that points to `frame` with `flags` at `index` of the
    /// table in `table`.
    pub fn set_entry(&mut self, table: PhysFrame, index: u16, frame: PhysFrame, flags: PageTableFlags)
        requires
            old(self).wf(),
            index < 512,
        ensures
            final(self).wf(),
            final(self)@ == with_entry(
                old(self)@,
                table.start(),
                index as int,
                entry_of(frame.start(), flags.value()),
            ),
    {
        let key = table.start_address().as_u64();
        let target = frame.start_address().as_u64();
        match self.find(key) {
            Some(slot) => {
                proof {
                    self.lemma_slot(slot as int);
                }
                x86::set_entry(&mut self.tables[slot], index as usize, target, flags.bits());
                proof {
                    self.lemma_slot(slot as int);
                    assert forall|f: u64| self@.dom().contains(f) && f != key implies self@[f]
                        == old(self)@[f] by {
                        let j = self.frames@.index_of(f);
                        assert(0 <= j < self.frames@.len() && self.frames@[j] == f);
                    }
                    assert(self@ =~= with_entry(
                        old(self)@,
                        key,
                        index as int,
                        entry_of(target, flags.value()),
                    ));
                }
            },
            None => {
                let mut fresh = x86::new_table();
                x86::set_entry(&mut fresh, index as usize, target, flags.bits());
                self.push_table(key, fresh);
            },
        }
    }

    /// Fills `table` with zeroes.
    pub fn zero_table(&mut self, table: PhysFrame)
        requires
            old(self).wf(),
        ensures
            final(self).wf(),
            final(self)@ == with_empty_table(old(self)@, table.start()),
    {
        let key = table.start_address().as_u64();
        match self.find(key) {
            Some(slot) => {
                proof {
                    self.lemma_slot(slot as int);
                }
                x86::zero_table(&mut self.tables[slot]);
                proof {
                    self.lemma_slot(slot as int);
                    assert forall|f: u64| self@.dom().contains(f) && f != key implies self@[f]
                        == old(self)@[f] by {
                        let j = self.frames@.index_of(f);
                        assert(0 <= j < self.frames@.len() && self.frames@[j] == f);
                    }
                    assert(self@ =~= with_empty_table(old(self)@, key));
                }
            },
            None => {
                let fresh = x86::new_table();
                self.push_table(key, fresh);
            },
        }
    }

    /// Adds `table` as the table of the frame at `key`, which had none.
    fn push_table(&mut self, key: u64, table: PageTable)
        requires
            old(self).wf(),
            is_frame_start(key),
            !old(self).frames@.contains(key),
            table_entries(table).len() == 512,
        ensures
            final(self).wf(),
            final(self)@ == old(self)@.insert(key, table_entries(table)),
    {
        self.frames.push(key);
        self.tables.push(table);
        proof {
            let last = old(self).frames@.len() as int;
            assert(self.frames@[last] == key);
            self.lemma_slot(last);
            assert forall|f: u64| self@.dom().contains(f) && f != key implies old(
                self,
            )@.dom().contains(f) && self@[f] == old(self)@[f] by {
                let j = self.frames@.index_of(f);
                assert(0 <= j < self.frames@.len() && self.frames@[j] == f);
                assert(j < last);
                assert(old(self).frames@[j] == f);
                old(self).lemma_slot(j);
            }
            assert forall|f: u64| old(self)@.dom().contains(f) implies self@.dom().contains(
                f,
            ) by {
                let j = old(self).frames@.index_of(f);
                assert(0 <= j < last && old(self).frames@[j] == f);
                assert(self.frames@[j] == f);
            }
            assert(self@ =~= old(self)@.insert(key, table_entries(table)));
        }
    }
}

} // verus!
