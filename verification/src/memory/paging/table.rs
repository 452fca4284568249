//! The page tables: the tables of the four levels, the table that the
//! processor walks, and tables that wait to take its place.

use super::entry::{lemma_entry_bits, PageEntry, PageEntryFlags, WRITABLE};
use super::memory::{
    lemma_present_kept_transitive, lemma_present_kept_walk, present_kept, spec_child, spec_entry,
    spec_level1, spec_page_index, spec_resolve, tables_wf, PhysicalMemory, Tables, MAX_ENTRY_COUNT,
};
use super::page::Page;
use super::page_index::PageIndex;
use crate::memory::address::{PhysicalAddress, VirtualAddress};
use crate::memory::buddy_system::allocator::{BuddyAllocator, BuddyView, MAX_ORDER};
use crate::memory::frame::{Frame, State, SIZE};
use core::marker::PhantomData;
use vstd::prelude::*;

verus! {

#[derive(Copy, Clone, Debug, PartialEq, Eq, Structural)]
pub enum Error {
    /// A table on the way is missing and could not be made.
    NoPageTable,
    /// The page is mapped already.
    AlreadyMapped,
    /// The page is not mapped.
    NoEntry,
}

/// The mark of a level of page tables.
pub trait Level {

}

/// The mark of a level whose entries point to tables of a next level.
pub trait HierarchicalLevel: Level {
    type NextLevel: Level;
}

/// The mark of the level 1 tables.
pub struct Level1;

/// The mark of the level 2 tables.
pub struct Level2;

/// The mark of the level 3 tables.
pub struct Level3;

/// The mark of the level 4 table.
pub struct Level4;

impl Level for Level4 {

}

impl Level for Level3 {

}

impl Level for Level2 {

}

impl Level for Level1 {

}

impl HierarchicalLevel for Level4 {
    type NextLevel = Level3;
}

impl HierarchicalLevel for Level3 {
    type NextLevel = Level2;
}

impl HierarchicalLevel for Level2 {
    type NextLevel = Level1;
}

/// The virtual address at which the level 4 table stands, through its own
/// last entry.
pub const LEVEL4_PAGE_TABLE: u64 = 0xffff_ffff_ffff_f000;

/// The index of the entry of a table that points to the table itself.
pub const RECURSIVE_INDEX: usize = 511;

/// A table whose entries are all clear.
pub open spec fn clear_table() -> Seq<PageEntry> {
    Seq::new(MAX_ENTRY_COUNT as nat, |i: int| PageEntry(0))
}

/// The entry that points to the table at `frame`, present and writable.
pub open spec fn recursive_entry(frame: u64) -> PageEntry {
    PageEntry(0).with_frame_addr(frame).with_flags(PageEntryFlags { bits: WRITABLE })
}

/// A new table in the frame at `frame`: clear but for the last entry, which
/// points to the table itself.
pub open spec fn fresh_table(frame: u64) -> Seq<PageEntry> {
    clear_table().update(RECURSIVE_INDEX as int, recursive_entry(frame))
}

/// The tables after the table at `frame` was cleared.
pub open spec fn spec_cleared(tables: Tables, frame: u64) -> Tables {
    tables.insert(frame, clear_table())
}

/// Clearing a table twice is clearing it once.
pub proof fn lemma_clear_all_idempotent(tables: Tables, frame: u64)
    ensures
        spec_cleared(spec_cleared(tables, frame), frame) == spec_cleared(tables, frame),
        forall|i: int|
            0 <= i < MAX_ENTRY_COUNT ==> !(#[trigger] spec_cleared(tables, frame)[frame][i]).is_present(),
{
    assert(spec_cleared(spec_cleared(tables, frame), frame) =~= spec_cleared(tables, frame));
    lemma_entry_bits(0, 0, 0);
}

/// The entries from `start` on, `count` of them, lie in the table and none
/// is present.
pub open spec fn is_free_run(entries: Seq<PageEntry>, start: int, count: int) -> bool {
    &&& 1 <= start
    &&& start + count <= MAX_ENTRY_COUNT
    &&& forall|k: int| start <= k < start + count ==> !(#[trigger] entries[k]).is_present()
}

/// The first index from `start` on at which a free run of `count` entries
/// begins.
pub open spec fn spec_first_free_from(entries: Seq<PageEntry>, count: int, start: int) -> Option<int>
    decreases MAX_ENTRY_COUNT - start,
{
    if start < 1 || start + count > MAX_ENTRY_COUNT {
        None
    } else if is_free_run(entries, start, count) {
        Some(start)
    } else {
        spec_first_free_from(entries, count, start + 1)
    }
}

/// The first index from 1 on at which a free run of `count` entries of the
/// table at `frame` begins.
pub open spec fn spec_find_free(tables: Tables, frame: u64, count: int) -> Option<int> {
    if tables.contains_key(frame) {
        spec_first_free_from(tables[frame], count, 1)
    } else {
        None
    }
}

/// The search finds the first free run, and none where there is none.
pub proof fn lemma_first_free(entries: Seq<PageEntry>, count: int, start: int, found: Option<int>)
    requires
        1 <= start,
        count >= 1,
        found matches Some(i) ==> start <= i && is_free_run(entries, i, count) && forall|s: int|
            start <= s < i ==> !is_free_run(entries, s, count),
        found is None ==> forall|s: int| start <= s ==> !is_free_run(entries, s, count),
    ensures
        spec_first_free_from(entries, count, start) == found,
    decreases MAX_ENTRY_COUNT - start,
{
    if start + count > MAX_ENTRY_COUNT {
        if let Some(i) = found {
            assert(false);
        }
    } else if is_free_run(entries, start, count) {
        if let Some(i) = found {
            if start < i {
                assert(false);
            }
        }
    } else {
        lemma_first_free(entries, count, start + 1, found);
    }
}

/// An entry in whose place a table can be made: it is not present and does
/// not say that it maps a large page.
pub open spec fn creatable(e: PageEntry) -> bool {
    !e.is_present() && !e.is_huge()
}

/// The address of the frame that the allocator hands out next.
pub open spec fn spec_next_frame(allocator: BuddyView) -> Option<u64> {
    let from = allocator.first_nonempty(0);
    if from >= MAX_ORDER {
        None
    } else {
        Some(((allocator.base + allocator.free_lists[from][0]) * SIZE) as u64)
    }
}

/// The allocator after it handed out one frame, if it had one.
pub open spec fn spec_after_alloc(allocator: BuddyView) -> BuddyView {
    let from = allocator.first_nonempty(0);
    if from >= MAX_ORDER {
        allocator
    } else {
        allocator.allocated(0, from)
    }
}

/// The allocator after it handed out one frame and took it back at once.
pub open spec fn spec_alloc_and_back(allocator: BuddyView) -> BuddyView {
    let from = allocator.first_nonempty(0);
    if from >= MAX_ORDER {
        allocator
    } else {
        allocator.allocated(0, from).released(allocator.free_lists[from][0] as int)
    }
}

/// The tables and the allocator after a step, and the table that the step
/// arrived at.
pub struct Step {
    pub tables: Tables,
    pub allocator: BuddyView,
    pub table: Option<u64>,
}

/// The step from the table at `frame` to the table that its entry at
/// `index` points to, which is made where the entry is clear: a frame is
/// taken from the allocator, the entry is pointed to it, and the frame gets
/// a new table. No table is made in a frame that holds one already: the
/// frame goes back to the allocator.
pub open spec fn spec_create(tables: Tables, allocator: BuddyView, frame: u64, index: int) -> Step {
    match spec_entry(tables, frame, index) {
        None => Step { tables, allocator, table: None },
        Some(e) => if e.points_to_table() {
            Step { tables, allocator, table: Some(e.frame_addr()) }
        } else if !creatable(e) {
            Step { tables, allocator, table: None }
        } else {
            match spec_next_frame(allocator) {
                None => Step { tables, allocator, table: None },
                Some(new) => if tables.contains_key(new) {
                    Step { tables, allocator: spec_alloc_and_back(allocator), table: None }
                } else {
                    Step {
                        tables: tables.insert(
                            frame,
                            tables[frame].update(index, e.with_frame_addr(new)),
                        ).insert(new, fresh_table(new)),
                        allocator: spec_after_alloc(allocator),
                        table: Some(new),
                    }
                },
            }
        },
    }
}

/// What a step keeps and what it arrives at.
pub proof fn lemma_create(tables: Tables, allocator: BuddyView, frame: u64, index: int)
    requires
        tables_wf(tables),
        allocator.wf(),
    ensures
        ({
            let c = spec_create(tables, allocator, frame, index);
            &&& tables_wf(c.tables)
            &&& c.allocator.wf()
            &&& c.allocator.len() == allocator.len()
            &&& c.allocator.base == allocator.base
            &&& allocator.total_free() - 1 <= c.allocator.total_free() <= allocator.total_free()
            &&& allocator.keeps_allocated(c.allocator)
            &&& present_kept(tables, c.tables)
            &&& c.table matches Some(t) ==> spec_child(c.tables, frame, index) == Some(t)
            &&& c.table matches Some(t) ==> PageEntry::valid_frame_addr(t as int)
            &&& c.table matches Some(t) ==> (spec_child(tables, frame, index) is None ==> c.tables[t]
                == fresh_table(t) && c.tables.contains_key(t) && !tables.contains_key(t))
            &&& spec_child(tables, frame, index) is Some ==> c.table == spec_child(tables, frame, index)
                && c.tables == tables && c.allocator == allocator
        }),
{
    let c = spec_create(tables, allocator, frame, index);
    if let Some(e) = spec_entry(tables, frame, index) {
        lemma_entry_bits(e.0, 0, 0);
        assert(e.frame_addr() % 4096 == 0 && e.frame_addr() < 0x10_0000_0000_0000) by {
            let w = e.0;
            assert((w & 0x000F_FFFF_FFFF_F000) % 4096 == 0 && (w & 0x000F_FFFF_FFFF_F000)
                < 0x10_0000_0000_0000) by (bit_vector);
        }
        if !e.points_to_table() && creatable(e) {
            if let Some(new) = spec_next_frame(allocator) {
                allocator.lemma_allocated(0);
                let from = allocator.first_nonempty(0);
                let i = allocator.free_lists[from][0] as int;
                assert(allocator.frame_ok(i));
                crate::memory::buddy_system::allocator::lemma_start_of_order_zero(0);
                assert(new == (allocator.base + i) * 4096);
                lemma_entry_bits(e.0, new, 0);
                allocator.lemma_allocated_frames(0);
                if tables.contains_key(new) {
                    allocator.lemma_allocate_then_free(0);
                    let taken = allocator.allocated(0, from);
                    taken.lemma_coalesce_frames(i, 0);
                    assert(!allocator.is_allocated(i)) by {
                        assert(allocator.listed_ok(from, 0));
                    }
                }
                if !tables.contains_key(new) {
                    let changed = tables[frame].update(index, e.with_frame_addr(new));
                    assert(c.tables[frame] == changed);
                    assert(c.tables[new] == fresh_table(new));
                    assert(tables_wf(c.tables)) by {
                        assert forall|a: u64| c.tables.contains_key(a) implies (#[trigger] c.tables[a]).len()
                            == MAX_ENTRY_COUNT by {
                            if a != new && a != frame {
                                assert(tables.contains_key(a));
                            }
                        }
                    }
                    assert(present_kept(tables, c.tables)) by {
                        assert forall|a: u64, k: int|
                            tables.contains_key(a) && 0 <= k < MAX_ENTRY_COUNT && (#[trigger] tables[a][k]).is_present() implies c.tables[a][k]
                            == tables[a][k] by {
                            if a == frame && k == index {
                                assert(false);
                            }
                        }
                    }
                    let installed = e.with_frame_addr(new);
                    assert(installed.is_present() && installed.frame_addr() == new && !installed.is_huge());
                }
            }
        }
    }
}

/// A table, by the frame that holds it and the virtual address at which it
/// stands in the window of the level 4 table's last entry. The type
/// parameter is the level of the table.
#[derive(Debug)]
pub struct Table<T: Level> {
    pub address: VirtualAddress,
    pub frame: u64,
    pub level: PhantomData<T>,
}

impl<T: Level> Clone for Table<T> {
    fn clone(&self) -> (r: Self)
        ensures
            r == *self,
    {
        Table { address: self.address, frame: self.frame, level: PhantomData }
    }
}

impl<T: Level> Copy for Table<T> {

}

/// The address in the window of the table that the entry at `index` of the
/// table at `address` points to: the address moves up by one level and the
/// index takes the place of the lowest level.
pub open spec fn spec_next_level_address(address: u64, index: u64) -> u64 {
    (address << 9) | (index << 12)
}

/// The indexes that the address of the next table selects are those of the
/// table's own address moved up by one level, with the index at the lowest
/// level.
pub proof fn lemma_next_level_address(address: u64, index: u64)
    by (bit_vector)
    requires
        index < 512,
        address & 0xFFF == 0,
    ensures
        ({
            let next = (address << 9) | (index << 12);
            &&& (next >> 39) & 0o777 == (address >> 30) & 0o777
            &&& (next >> 30) & 0o777 == (address >> 21) & 0o777
            &&& (next >> 21) & 0o777 == (address >> 12) & 0o777
            &&& (next >> 12) & 0o777 == index
            &&& next & 0xFFF == 0
        }),
{
}

impl<T: Level> Table<T> {
    /// Clears every entry of the table.
    pub fn clear_all_entries(&self, memory: &mut PhysicalMemory)
        requires
            old(memory).wf(),
        ensures
            final(memory).wf(),
            final(memory)@ == spec_cleared(old(memory)@, self.frame),
    {
        let mut entries: Vec<PageEntry> = Vec::new();
        let mut i: usize = 0;
        while i < MAX_ENTRY_COUNT
            invariant
                i <= MAX_ENTRY_COUNT,
                entries@.len() == i,
                forall|k: int| 0 <= k < i ==> #[trigger] entries@[k] == PageEntry(0),
            decreases MAX_ENTRY_COUNT - i,
        {
            let mut entry = PageEntry(0);
            entry.clear_all();
            entries.push(entry);
            i += 1;
        }
        proof {
            assert(entries@ =~= clear_table());
        }
        memory.install(self.frame, entries);
    }

    /// The first index from 1 on of an entry that is not present.
    pub fn find_free_entry_index(&self, memory: &PhysicalMemory) -> (r: Option<usize>)
        requires
            memory.wf(),
        ensures
            r is Some <==> spec_find_free(memory@, self.frame, 1) is Some,
            r matches Some(i) ==> spec_find_free(memory@, self.frame, 1) == Some(i as int) && 1 <= i < 512,
            !memory@.contains_key(self.frame) ==> r is None,
            memory@.contains_key(self.frame) ==> ({
                let entries = memory@[self.frame];
                &&& r matches Some(i) ==> is_free_run(entries, i as int, 1) && forall|s: int|
                    1 <= s < i ==> !is_free_run(entries, s, 1)
                &&& r is None ==> forall|s: int| !is_free_run(entries, s, 1)
            }),
    {
        self.find_free_entry_index_with(memory, 1)
    }

    /// The first index from 1 on at which `count` entries in a row are not
    /// present. The entry 0 is never taken, so that the address 0 stays
    /// unmapped.
    pub fn find_free_entry_index_with(&self, memory: &PhysicalMemory, count: usize) -> (r: Option<usize>)
        requires
            memory.wf(),
            count >= 1,
        ensures
            r is Some <==> spec_find_free(memory@, self.frame, count as int) is Some,
            r matches Some(i) ==> spec_find_free(memory@, self.frame, count as int) == Some(i as int) && 1
                <= i && i + count <= 512,
            !memory@.contains_key(self.frame) ==> r is None,
            memory@.contains_key(self.frame) ==> ({
                let entries = memory@[self.frame];
                &&& r matches Some(i) ==> is_free_run(entries, i as int, count as int) && forall|s: int|
                    1 <= s < i ==> !is_free_run(entries, s, count as int)
                &&& r is None ==> forall|s: int| !is_free_run(entries, s, count as int)
            }),
    {
        if !memory.contains(self.frame) {
            return None;
        }
        let ghost entries = memory@[self.frame];
        let mut start: usize = 1;
        let mut i: usize = 1;
        while i < MAX_ENTRY_COUNT
            invariant
                memory.wf(),
                memory@.contains_key(self.frame),
                entries == memory@[self.frame],
                count >= 1,
                1 <= start <= i <= MAX_ENTRY_COUNT,
                i - start < count,
                forall|k: int| start <= k < i ==> !(#[trigger] entries[k]).is_present(),
                forall|s: int| 1 <= s < start ==> !is_free_run(entries, s, count as int),
            decreases MAX_ENTRY_COUNT - i,
        {
            let entry = memory.read(self.frame, i);
            let present = match entry {
                Some(e) => e.flags().contains(PageEntryFlags::present()),
                None => true,
            };
            if !present {
                if i + 1 - start == count {
                    proof {
                        lemma_first_free(entries, count as int, 1, Some(start as int));
                    }
                    return Some(start);
                }
            } else {
                proof {
                    assert forall|s: int| 1 <= s < i + 1 implies !is_free_run(entries, s, count as int) by {
                        if s >= start {
                            assert(entries[i as int].is_present());
                        }
                    }
                }
                start = i + 1;
            }
            i += 1;
        }
        proof {
            assert forall|s: int| 1 <= s implies !is_free_run(entries, s, count as int) by {}
            lemma_first_free(entries, count as int, 1, None);
        }
        None
    }
}

impl<T: HierarchicalLevel> Table<T> {
    /// The address in the window of the table of the next level that the
    /// entry at `index` points to, if it points to one.
    pub fn next_level_table_address(&self, memory: &PhysicalMemory, index: usize) -> (r: Option<VirtualAddress>)
        requires
            memory.wf(),
            index < MAX_ENTRY_COUNT,
        ensures
            r is Some <==> spec_child(memory@, self.frame, index as int) is Some,
            r matches Some(a) ==> a.0 == spec_next_level_address(self.address.0, index as u64),
    {
        match memory.read(self.frame, index) {
            Some(entry) => {
                let flags = entry.flags();
                if flags.contains(PageEntryFlags::present()) && !flags.contains(PageEntryFlags::huge_page()) {
                    Some(VirtualAddress((self.address.0 << 9) | ((index as u64) << 12)))
                } else {
                    None
                }
            },
            None => None,
        }
    }

    /// The table of the next level that the entry at `index` points to, if
    /// it points to one.
    pub fn next_level_table_mut(&self, memory: &PhysicalMemory, index: usize) -> (r: Option<Table<T::NextLevel>>)
        requires
            memory.wf(),
            index < MAX_ENTRY_COUNT,
        ensures
            r is Some <==> spec_child(memory@, self.frame, index as int) is Some,
            r matches Some(t) ==> Some(t.frame) == spec_child(memory@, self.frame, index as int)
                && t.address.0 == spec_next_level_address(self.address.0, index as u64),
    {
        match self.next_level_table_address(memory, index) {
            Some(address) => {
                match memory.read(self.frame, index) {
                    Some(entry) => Some(
                        Table { address, frame: entry.0 & super::entry::ADDRESS_BITS, level: PhantomData },
                    ),
                    None => None,
                }
            },
            None => None,
        }
    }

    /// The table of the next level that the entry at `index` points to.
    /// Where the entry is clear the table is made: the allocator gives a
    /// frame, the entry is pointed to it, and the new table is cleared and
    /// its last entry pointed to the table itself. `None` where the entry
    /// maps a large page, the allocator has no frame, or its frame holds a
    /// table already.
    pub fn next_level_table_create_mut(
        &self,
        memory: &mut PhysicalMemory,
        index: usize,
        allocator: &mut BuddyAllocator,
    ) -> (r: Option<Table<T::NextLevel>>)
        requires
            old(memory).wf(),
            old(allocator).wf(),
            index < MAX_ENTRY_COUNT,
        ensures
            final(memory).wf(),
            final(allocator).wf(),
            ({
                let c = spec_create(old(memory)@, old(allocator)@, self.frame, index as int);
                &&& final(memory)@ == c.tables
                &&& final(allocator)@ == c.allocator
                &&& r is Some <==> c.table is Some
                &&& r matches Some(t) ==> Some(t.frame) == c.table && t.address.0
                    == spec_next_level_address(self.address.0, index as u64)
            }),
    {
        proof {
            memory.lemma_wf();
            lemma_create(memory@, allocator@, self.frame, index as int);
        }
        let existing = self.next_level_table_mut(memory, index);
        if existing.is_some() {
            return existing;
        }
        let mut entry = match memory.read(self.frame, index) {
            Some(entry) => entry,
            None => {
                return None;
            },
        };
        let flags = entry.flags();
        if flags.contains(PageEntryFlags::present()) || flags.contains(PageEntryFlags::huge_page()) {
            return None;
        }
        proof {
            allocator@.lemma_first_nonempty(0);
            if allocator@.first_nonempty(0) < MAX_ORDER {
                allocator@.lemma_allocated(0);
            }
        }
        match allocator.allocate(0) {
            Some(frame) => {
                let new = frame.address();
                if memory.contains(new.0) {
                    allocator.free(frame);
                    return None;
                }
                entry.set_frame_addr(new);
                let _ = memory.write(self.frame, index, entry);
                let table: Table<T::NextLevel> = Table {
                    address: VirtualAddress((self.address.0 << 9) | ((index as u64) << 12)),
                    frame: new.0,
                    level: PhantomData,
                };
                table.clear_all_entries(memory);
                let mut recursive = PageEntry(0);
                recursive.set_frame_addr(new);
                recursive.set_flags(PageEntryFlags::writable());
                let _ = memory.write(new.0, RECURSIVE_INDEX, recursive);
                proof {
                    let c = spec_create(old(memory)@, old(allocator)@, self.frame, index as int);
                    assert(memory@ =~= c.tables);
                }
                Some(table)
            },
            None => None,
        }
    }
}


/// The tables and the allocator after an operation, and its result.
pub struct Outcome {
    pub tables: Tables,
    pub allocator: BuddyView,
    pub result: Result<(), Error>,
}

/// Mapping the page to the frame at `addr`, walking from the level 4 table
/// at `root`: the tables of the levels 3, 2 and 1 on the way are made where
/// they are missing, and the entry of the page is pointed to the frame,
/// present and writable, if it is not present yet.
#[verifier::opaque]
pub open spec fn spec_map(tables: Tables, allocator: BuddyView, root: u64, page: int, addr: u64) -> Outcome {
    let c3 = spec_create(tables, allocator, root, spec_page_index(page, 4));
    match c3.table {
        None => Outcome { tables: c3.tables, allocator: c3.allocator, result: Err(Error::NoPageTable) },
        Some(t3) => {
            let c2 = spec_create(c3.tables, c3.allocator, t3, spec_page_index(page, 3));
            match c2.table {
                None => Outcome {
                    tables: c2.tables,
                    allocator: c2.allocator,
                    result: Err(Error::NoPageTable),
                },
                Some(t2) => {
                    let c1 = spec_create(c2.tables, c2.allocator, t2, spec_page_index(page, 2));
                    match c1.table {
                        None => Outcome {
                            tables: c1.tables,
                            allocator: c1.allocator,
                            result: Err(Error::NoPageTable),
                        },
                        Some(t1) => match spec_entry(c1.tables, t1, spec_page_index(page, 1)) {
                            None => Outcome {
                                tables: c1.tables,
                                allocator: c1.allocator,
                                result: Err(Error::NoPageTable),
                            },
                            Some(e) => if e.is_present() {
                                Outcome {
                                    tables: c1.tables,
                                    allocator: c1.allocator,
                                    result: Err(Error::AlreadyMapped),
                                }
                            } else {
                                Outcome {
                                    tables: c1.tables.insert(
                                        t1,
                                        c1.tables[t1].update(
                                            spec_page_index(page, 1),
                                            e.mapped_to(addr),
                                        ),
                                    ),
                                    allocator: c1.allocator,
                                    result: Ok(()),
                                }
                            },
                        },
                    }
                },
            }
        },
    }
}

/// What mapping keeps and what it brings about: the present entries stay,
/// so whatever a walk found it finds again; after success the walk for the
/// page finds the frame, and it found nothing before; where the tables on the
/// way exist and the entry of the page is not present, mapping succeeds and
/// changes that entry alone.
pub proof fn lemma_map(tables: Tables, allocator: BuddyView, root: u64, page: int, addr: u64)
    requires
        tables_wf(tables),
        allocator.wf(),
        PageEntry::valid_frame_addr(addr as int),
    ensures
        ({
            let o = spec_map(tables, allocator, root, page, addr);
            &&& tables_wf(o.tables)
            &&& o.allocator.wf()
            &&& o.allocator.len() == allocator.len()
            &&& o.allocator.base == allocator.base
            &&& allocator.total_free() - 3 <= o.allocator.total_free() <= allocator.total_free()
            &&& allocator.keeps_allocated(o.allocator)
            &&& present_kept(tables, o.tables)
            &&& o.result is Ok ==> spec_resolve(o.tables, root, page) == Some(addr)
            &&& o.result is Ok ==> spec_resolve(tables, root, page) is None
            &&& o.result == Err::<(), Error>(Error::AlreadyMapped) ==> spec_resolve(o.tables, root, page) is Some
            &&& spec_resolve(tables, root, page) is Some ==> o.result == Err::<(), Error>(
                Error::AlreadyMapped,
            )
            &&& spec_level1(tables, root, page) matches Some(t1) ==> o.allocator == allocator && (
            match spec_entry(tables, t1, spec_page_index(page, 1)) {
                None => o.tables == tables && o.result == Err::<(), Error>(Error::NoPageTable),
                Some(e) => if e.is_present() {
                    o.tables == tables && o.result == Err::<(), Error>(Error::AlreadyMapped)
                } else {
                    o.result is Ok && o.tables == tables.insert(
                        t1,
                        tables[t1].update(spec_page_index(page, 1), e.mapped_to(addr)),
                    )
                },
            })
            &&& o.result is Ok ==> ({
                let t1 = spec_level1(o.tables, root, page)->0;
                let e = o.tables[t1][spec_page_index(page, 1)];
                &&& spec_level1(o.tables, root, page) is Some
                &&& o.tables.contains_key(t1)
                &&& e.is_present() && e.is_writable() && e.frame_addr() == addr
            })
        }),
{
    reveal(spec_map);
    let i4 = spec_page_index(page, 4);
    let i3 = spec_page_index(page, 3);
    let i2 = spec_page_index(page, 2);
    let i1 = spec_page_index(page, 1);
    let o = spec_map(tables, allocator, root, page, addr);
    lemma_create(tables, allocator, root, i4);
    let c3 = spec_create(tables, allocator, root, i4);
    lemma_present_kept_walk(tables, o.tables, root, page);
    if let Some(t3) = c3.table {
        lemma_create(c3.tables, c3.allocator, t3, i3);
        let c2 = spec_create(c3.tables, c3.allocator, t3, i3);
        lemma_present_kept_transitive(tables, c3.tables, c2.tables);
        lemma_present_kept_walk(c3.tables, c2.tables, root, page);
        if let Some(t2) = c2.table {
            lemma_create(c2.tables, c2.allocator, t2, i2);
            let c1 = spec_create(c2.tables, c2.allocator, t2, i2);
            lemma_present_kept_transitive(tables, c2.tables, c1.tables);
            lemma_present_kept_walk(c2.tables, c1.tables, root, page);
            lemma_present_kept_walk(tables, c1.tables, root, page);
            assert(spec_child(c1.tables, root, i4) == Some(t3));
            assert(spec_child(c1.tables, t3, i3) == Some(t2));
            if let Some(t1) = c1.table {
                assert(spec_level1(c1.tables, root, page) == Some(t1));
                if let Some(e) = spec_entry(c1.tables, t1, i1) {
                    if !e.is_present() {
                        lemma_entry_bits(e.0, addr, 0);
                        lemma_entry_bits(e.with_frame_addr(addr).0, 0, WRITABLE);
                        let changed = c1.tables[t1].update(i1, e.mapped_to(addr));
                        assert(o.tables == c1.tables.insert(t1, changed));
                        assert(o.tables[t1] == changed);
                        assert(present_kept(c1.tables, o.tables)) by {
                            assert forall|a: u64, k: int|
                                c1.tables.contains_key(a) && 0 <= k < MAX_ENTRY_COUNT && (
                                #[trigger] c1.tables[a][k]).is_present() implies o.tables[a][k]
                                == c1.tables[a][k] by {
                                if a == t1 && k == i1 {
                                    assert(false);
                                }
                            }
                        }
                        assert(tables_wf(o.tables)) by {
                            assert forall|a: u64| o.tables.contains_key(a) implies (#[trigger] o.tables[a]).len()
                                == MAX_ENTRY_COUNT by {
                                if a != t1 {
                                    assert(c1.tables.contains_key(a));
                                }
                            }
                        }
                        lemma_present_kept_transitive(tables, c1.tables, o.tables);
                        lemma_present_kept_walk(c1.tables, o.tables, root, page);
                        assert(spec_level1(o.tables, root, page) == Some(t1));
                        assert(spec_entry(o.tables, t1, i1) == Some(e.mapped_to(addr)));
                    }
                }
            }
        }
    }
}

/// Unmapping the page, walking from the level 4 table at `root`: the entry
/// of the page is cleared, and its frame goes back to the allocator if it is
/// a block that the allocator handed out.
pub open spec fn spec_unmap(tables: Tables, allocator: BuddyView, root: u64, page: int) -> Outcome {
    match spec_level1(tables, root, page) {
        None => Outcome { tables, allocator, result: Err(Error::NoEntry) },
        Some(t1) => match spec_entry(tables, t1, spec_page_index(page, 1)) {
            None => Outcome { tables, allocator, result: Err(Error::NoEntry) },
            Some(e) => if !e.is_present() {
                Outcome { tables, allocator, result: Err(Error::NoEntry) }
            } else {
                let number = e.frame_addr() as int / SIZE as int;
                Outcome {
                    tables: tables.insert(
                        t1,
                        tables[t1].update(spec_page_index(page, 1), PageEntry(0)),
                    ),
                    allocator: if allocator.base <= number && allocator.is_allocated(
                        number - allocator.base,
                    ) {
                        allocator.released(number - allocator.base)
                    } else {
                        allocator
                    },
                    result: Ok(()),
                }
            },
        },
    }
}

/// What unmapping brings about: it succeeds exactly if the walk for the page
/// found a frame; afterwards the walk finds nothing; a frame that the
/// allocator had handed out lies in its free blocks again; and every entry
/// but the one of the page is as it was.
pub proof fn lemma_unmap(tables: Tables, allocator: BuddyView, root: u64, page: int)
    requires
        tables_wf(tables),
        allocator.wf(),
    ensures
        ({
            let o = spec_unmap(tables, allocator, root, page);
            &&& tables_wf(o.tables)
            &&& o.allocator.wf()
            &&& o.allocator.len() == allocator.len()
            &&& o.allocator.base == allocator.base
            &&& o.result is Ok <==> spec_resolve(tables, root, page) is Some
            &&& o.result is Err ==> o.result == Err::<(), Error>(Error::NoEntry) && o.tables == tables
                && o.allocator == allocator
            &&& spec_resolve(o.tables, root, page) is None
            &&& forall|a: u64| tables.contains_key(a) <==> #[trigger] o.tables.contains_key(a)
            &&& spec_resolve(tables, root, page) matches Some(addr) ==> ({
                let t1 = spec_level1(tables, root, page)->0;
                let number = addr as int / SIZE as int;
                let index = number - allocator.base;
                &&& forall|a: u64, k: int|
                    tables.contains_key(a) && 0 <= k < MAX_ENTRY_COUNT && !(a == t1 && k
                        == spec_page_index(page, 1)) ==> #[trigger] o.tables[a][k] == tables[a][k]
                &&& allocator.base <= number && allocator.is_allocated(index)
                    ==> o.allocator.in_free_pool(index) && o.allocator.total_free()
                    == allocator.total_free() + crate::memory::buddy_system::allocator::block_len(
                    allocator.frames[index].order,
                )
                &&& !(allocator.base <= number && allocator.is_allocated(index)) ==> o.allocator
                    == allocator
                &&& allocator.keeps_allocated_but(o.allocator, index)
            })
        }),
{
    let i1 = spec_page_index(page, 1);
    let o = spec_unmap(tables, allocator, root, page);
    if let Some(t1) = spec_level1(tables, root, page) {
        if let Some(e) = spec_entry(tables, t1, i1) {
            if e.is_present() {
                lemma_entry_bits(0, 0, 0);
                let number = e.frame_addr() as int / SIZE as int;
                let index = number - allocator.base;
                if allocator.base <= number && allocator.is_allocated(index) {
                    assert(allocator.frame_ok(index));
                    crate::memory::buddy_system::allocator::lemma_block_len(
                        allocator.frames[index].order as u64,
                    );
                    allocator.lemma_coalesce(index, allocator.frames[index].order, index);
                    allocator.lemma_coalesce_frames(index, allocator.frames[index].order);
                }
                let changed = tables[t1].update(i1, PageEntry(0));
                assert(o.tables[t1] == changed);
                assert(tables_wf(o.tables)) by {
                    assert forall|a: u64| o.tables.contains_key(a) implies (#[trigger] o.tables[a]).len()
                        == MAX_ENTRY_COUNT by {
                        if a != t1 {
                            assert(tables.contains_key(a));
                        }
                    }
                }
                assert forall|a: u64| tables.contains_key(a) <==> #[trigger] o.tables.contains_key(a) by {}
                // The walk after: either it breaks before the table of level
                // 1, or it arrives at the cleared entry.
                let i4 = spec_page_index(page, 4);
                let i3 = spec_page_index(page, 3);
                let i2 = spec_page_index(page, 2);
                let t3 = spec_child(tables, root, i4)->0;
                let t2 = spec_child(tables, t3, i3)->0;
                assert(spec_child(tables, t2, i2) == Some(t1));
                if spec_resolve(o.tables, root, page) is Some {
                    let u3 = spec_child(o.tables, root, i4)->0;
                    assert(o.tables[root][i4].is_present());
                    assert(!(root == t1 && i4 == i1));
                    assert(o.tables[root][i4] == tables[root][i4]);
                    assert(u3 == t3);
                    let u2 = spec_child(o.tables, u3, i3)->0;
                    assert(o.tables[t3][i3].is_present());
                    assert(!(t3 == t1 && i3 == i1));
                    assert(o.tables[t3][i3] == tables[t3][i3]);
                    assert(u2 == t2);
                    assert(o.tables[t2][i2].is_present());
                    assert(!(t2 == t1 && i2 == i1));
                    assert(o.tables[t2][i2] == tables[t2][i2]);
                    assert(spec_level1(o.tables, root, page) == Some(t1));
                    assert(o.tables[t1][i1] == PageEntry(0));
                    assert(false);
                }
            }
        }
    }
}


/// The indexes that the address of a page selects are those that its number
/// selects.
pub proof fn lemma_page_indexes(number: u64)
    by (bit_vector)
    requires
        number <= 0xF_FFFF_FFFF_FFFF,
    ensures
        ((number * 4096) as u64 / 0x80_0000_0000) % 512 == (number / 0x800_0000) % 512,
        ((number * 4096) as u64 / 0x4000_0000) % 512 == (number / 0x4_0000) % 512,
        ((number * 4096) as u64 / 0x20_0000) % 512 == (number / 0x200) % 512,
        ((number * 4096) as u64 / 0x1000) % 512 == number % 512,
        ((number * 4096) as u64) / 4096 == number,
        number * 4096 <= 0xFFFF_FFFF_FFFF_F000,
{
}

/// The number of the page with the given indexes, and the indexes of the
/// number.
pub proof fn lemma_page_number(i4: u64, i3: u64, i2: u64, i1: u64)
    by (bit_vector)
    requires
        i4 < 512,
        i3 < 512,
        i2 < 512,
        i1 < 512,
    ensures
        ({
            let number = i4 * 512 * 512 * 512 + i3 * 512 * 512 + i2 * 512 + i1;
            &&& number < 0x10_0000_0000
            &&& ((number as u64) / 0x800_0000) % 512 == i4
            &&& ((number as u64) / 0x4_0000) % 512 == i3
            &&& ((number as u64) / 0x200) % 512 == i2
            &&& (number as u64) % 512 == i1
        }),
{
}

/// The tables and the allocator after the search for empty pages, and the
/// number of the first page found.
pub struct Found {
    pub tables: Tables,
    pub allocator: BuddyView,
    pub page: Option<int>,
}

/// The number of the page with the given indexes.
pub open spec fn spec_page_number(i4: int, i3: int, i2: int, i1: int) -> int {
    i4 * 512 * 512 * 512 + i3 * 512 * 512 + i2 * 512 + i1
}

/// The search for `count` pages in a row that are not mapped, walking from
/// the level 4 table at `root`: at each level the first entry from 1 on
/// that is not present is taken and its table made, and in the level 1
/// table the first run of `count` entries that are not present.
pub open spec fn spec_find_empty_pages(tables: Tables, allocator: BuddyView, root: u64, count: int) -> Found {
    match spec_find_free(tables, root, 1) {
        None => Found { tables, allocator, page: None },
        Some(i4) => {
            let c3 = spec_create(tables, allocator, root, i4);
            match c3.table {
                None => Found { tables: c3.tables, allocator: c3.allocator, page: None },
                Some(t3) => match spec_find_free(c3.tables, t3, 1) {
                    None => Found { tables: c3.tables, allocator: c3.allocator, page: None },
                    Some(i3) => {
                        let c2 = spec_create(c3.tables, c3.allocator, t3, i3);
                        match c2.table {
                            None => Found { tables: c2.tables, allocator: c2.allocator, page: None },
                            Some(t2) => match spec_find_free(c2.tables, t2, 1) {
                                None => Found { tables: c2.tables, allocator: c2.allocator, page: None },
                                Some(i2) => {
                                    let c1 = spec_create(c2.tables, c2.allocator, t2, i2);
                                    match c1.table {
                                        None => Found {
                                            tables: c1.tables,
                                            allocator: c1.allocator,
                                            page: None,
                                        },
                                        Some(t1) => match spec_find_free(c1.tables, t1, count) {
                                            None => Found {
                                                tables: c1.tables,
                                                allocator: c1.allocator,
                                                page: None,
                                            },
                                            Some(i1) => Found {
                                                tables: c1.tables,
                                                allocator: c1.allocator,
                                                page: Some(spec_page_number(i4, i3, i2, i1)),
                                            },
                                        },
                                    }
                                },
                            },
                        }
                    },
                },
            }
        },
    }
}

/// What a search finds is free.
pub proof fn lemma_found_free(entries: Seq<PageEntry>, count: int, start: int)
    requires
        spec_first_free_from(entries, count, start) is Some,
    ensures
        ({
            let i = spec_first_free_from(entries, count, start)->0;
            start <= i && is_free_run(entries, i, count)
        }),
    decreases MAX_ENTRY_COUNT - start,
{
    if !(start < 1 || start + count > MAX_ENTRY_COUNT) && !is_free_run(entries, start, count) {
        lemma_found_free(entries, count, start + 1);
    }
}

/// What the search keeps and what it finds: the present entries stay; the
/// pages found lie below the page numbers of 36 bits, the walk for each
/// arrives at one table of level 1 that is known, and none of them is
/// mapped.
pub proof fn lemma_find_empty_pages(tables: Tables, allocator: BuddyView, root: u64, count: int)
    requires
        tables_wf(tables),
        allocator.wf(),
        count >= 1,
    ensures
        ({
            let f = spec_find_empty_pages(tables, allocator, root, count);
            &&& tables_wf(f.tables)
            &&& f.allocator.wf()
            &&& f.allocator.len() == allocator.len()
            &&& f.allocator.base == allocator.base
            &&& allocator.total_free() - 3 <= f.allocator.total_free() <= allocator.total_free()
            &&& allocator.keeps_allocated(f.allocator)
            &&& present_kept(tables, f.tables)
            &&& f.page matches Some(p) ==> ({
                &&& 0 <= p
                &&& p + count <= 0x10_0000_0000
                &&& spec_level1(f.tables, root, p) is Some
                &&& f.tables.contains_key(spec_level1(f.tables, root, p)->0)
                &&& spec_page_index(p, 1) + count <= MAX_ENTRY_COUNT
                &&& forall|k: int|
                    0 <= k < count ==> #[trigger] spec_level1(f.tables, root, p + k) == spec_level1(
                        f.tables,
                        root,
                        p,
                    ) && spec_page_index(p + k, 1) == spec_page_index(p, 1) + k
                &&& forall|k: int|
                    0 <= k < count ==> !(#[trigger] f.tables[spec_level1(f.tables, root, p)->0][spec_page_index(
                        p,
                        1,
                    ) + k]).is_present()
            })
        }),
{
    let f = spec_find_empty_pages(tables, allocator, root, count);
    if let Some(i4) = spec_find_free(tables, root, 1) {
        lemma_found_free(tables[root], 1, 1);
        lemma_create(tables, allocator, root, i4);
        let c3 = spec_create(tables, allocator, root, i4);
        if let Some(t3) = c3.table {
            if let Some(i3) = spec_find_free(c3.tables, t3, 1) {
                lemma_found_free(c3.tables[t3], 1, 1);
                lemma_create(c3.tables, c3.allocator, t3, i3);
                let c2 = spec_create(c3.tables, c3.allocator, t3, i3);
                lemma_present_kept_transitive(tables, c3.tables, c2.tables);
                lemma_present_kept_walk(c3.tables, c2.tables, root, 0);
                if let Some(t2) = c2.table {
                    if let Some(i2) = spec_find_free(c2.tables, t2, 1) {
                        lemma_found_free(c2.tables[t2], 1, 1);
                        lemma_create(c2.tables, c2.allocator, t2, i2);
                        let c1 = spec_create(c2.tables, c2.allocator, t2, i2);
                        lemma_present_kept_transitive(tables, c2.tables, c1.tables);
                        lemma_present_kept_walk(c2.tables, c1.tables, root, 0);
                        assert(spec_child(c1.tables, root, i4) == Some(t3));
                        assert(spec_child(c1.tables, t3, i3) == Some(t2));
                        if let Some(t1) = c1.table {
                            if let Some(i1) = spec_find_free(c1.tables, t1, count) {
                                lemma_found_free(c1.tables[t1], count, 1);
                                let p = spec_page_number(i4, i3, i2, i1);
                                lemma_page_number(i4 as u64, i3 as u64, i2 as u64, i1 as u64);
                                assert forall|k: int| 0 <= k < count implies #[trigger] spec_level1(
                                    f.tables,
                                    root,
                                    p + k,
                                ) == Some(t1) && spec_page_index(p + k, 1) == i1 + k by {
                                    lemma_page_number(i4 as u64, i3 as u64, i2 as u64, (i1 + k) as u64);
                                    assert(p + k == spec_page_number(i4, i3, i2, i1 + k));
                                }
                                assert(spec_level1(f.tables, root, p + 0) == Some(t1));
                                assert forall|k: int| 0 <= k < count implies !(#[trigger] f.tables[t1][i1
                                    + k]).is_present() by {}
                            }
                        }
                    }
                }
            }
        }
    }
}


/// What a step writes: of the tables that were known it changes at most the
/// entry at `index` of the table at `frame`, and a table that it makes
/// stands in a frame that held none.
pub proof fn lemma_create_writes(tables: Tables, allocator: BuddyView, frame: u64, index: int)
    requires
        tables_wf(tables),
        allocator.wf(),
    ensures
        ({
            let c = spec_create(tables, allocator, frame, index);
            &&& forall|a: u64| tables.contains_key(a) && a != frame ==> #[trigger] c.tables[a] == tables[a]
            &&& forall|k: int|
                0 <= k < MAX_ENTRY_COUNT && k != index && tables.contains_key(frame) ==> #[trigger] c.tables[frame][k]
                    == tables[frame][k]
            &&& c.table matches Some(t) ==> (spec_child(tables, frame, index) is None ==> !tables.contains_key(t)
                && c.tables[t] == fresh_table(t))
        }),
{
    lemma_create(tables, allocator, frame, index);
}

/// What the search writes: of the tables that were known it changes one
/// entry, the entry of the table at `root` that it takes; the table of
/// level 1 that it arrives at stands in a frame that held no table.
pub proof fn lemma_find_empty_pages_writes(tables: Tables, allocator: BuddyView, root: u64, count: int)
    requires
        tables_wf(tables),
        allocator.wf(),
        count >= 1,
    ensures
        ({
            let f = spec_find_empty_pages(tables, allocator, root, count);
            &&& forall|a: u64| tables.contains_key(a) && a != root ==> #[trigger] f.tables[a] == tables[a]
            &&& forall|k: int|
                0 <= k < MAX_ENTRY_COUNT && Some(k) != spec_find_free(tables, root, 1) && tables.contains_key(root)
                    ==> #[trigger] f.tables[root][k] == tables[root][k]
            &&& f.page matches Some(p) ==> spec_level1(f.tables, root, p) is Some && !tables.contains_key(
                spec_level1(f.tables, root, p)->0,
            )
        }),
{
    let f = spec_find_empty_pages(tables, allocator, root, count);
    lemma_find_empty_pages(tables, allocator, root, count);
    if let Some(i4) = spec_find_free(tables, root, 1) {
        lemma_found_free(tables[root], 1, 1);
        lemma_create(tables, allocator, root, i4);
        lemma_create_writes(tables, allocator, root, i4);
        let c3 = spec_create(tables, allocator, root, i4);
        assert(!tables[root][i4].is_present());
        assert(spec_child(tables, root, i4) is None);
        if let Some(t3) = c3.table {
            assert(!tables.contains_key(t3));
            if let Some(i3) = spec_find_free(c3.tables, t3, 1) {
                lemma_found_free(c3.tables[t3], 1, 1);
                lemma_create(c3.tables, c3.allocator, t3, i3);
                lemma_create_writes(c3.tables, c3.allocator, t3, i3);
                let c2 = spec_create(c3.tables, c3.allocator, t3, i3);
                assert(!c3.tables[t3][i3].is_present());
                assert(spec_child(c3.tables, t3, i3) is None);
                lemma_present_kept_transitive(tables, c3.tables, c2.tables);
                lemma_present_kept_walk(c3.tables, c2.tables, root, 0);
                assert forall|a: u64| tables.contains_key(a) && a != root implies #[trigger] c2.tables[a]
                    == tables[a] by {
                    assert(c3.tables.contains_key(a));
                    assert(c3.tables[a] == tables[a]);
                }
                assert forall|k: int|
                    0 <= k < MAX_ENTRY_COUNT && k != i4 && tables.contains_key(root) implies #[trigger] c2.tables[root][k]
                    == tables[root][k] by {
                    assert(c3.tables.contains_key(root));
                    assert(c2.tables[root] == c3.tables[root]);
                }
                if let Some(t2) = c2.table {
                    assert(!c3.tables.contains_key(t2));
                    assert(!tables.contains_key(t2));
                    if let Some(i2) = spec_find_free(c2.tables, t2, 1) {
                        lemma_found_free(c2.tables[t2], 1, 1);
                        lemma_create(c2.tables, c2.allocator, t2, i2);
                        lemma_create_writes(c2.tables, c2.allocator, t2, i2);
                        let c1 = spec_create(c2.tables, c2.allocator, t2, i2);
                        assert(!c2.tables[t2][i2].is_present());
                        assert(spec_child(c2.tables, t2, i2) is None);
                        lemma_present_kept_transitive(tables, c2.tables, c1.tables);
                        lemma_present_kept_walk(c2.tables, c1.tables, root, 0);
                        assert(spec_child(c1.tables, root, i4) == Some(t3));
                        assert(spec_child(c1.tables, t3, i3) == Some(t2));
                        assert forall|a: u64| tables.contains_key(a) && a != root implies #[trigger] c1.tables[a]
                            == tables[a] by {
                            assert(c2.tables.contains_key(a));
                            assert(c1.tables[a] == c2.tables[a]);
                        }
                        assert forall|k: int|
                            0 <= k < MAX_ENTRY_COUNT && k != i4 && tables.contains_key(root) implies #[trigger] c1.tables[root][k]
                            == tables[root][k] by {
                            assert(c2.tables.contains_key(root));
                            assert(c1.tables[root] == c2.tables[root]);
                        }
                        if let Some(t1) = c1.table {
                            assert(!c2.tables.contains_key(t1));
                            assert(!tables.contains_key(t1));
                            if let Some(i1) = spec_find_free(c1.tables, t1, count) {
                                lemma_found_free(c1.tables[t1], count, 1);
                                let p = spec_page_number(i4, i3, i2, i1);
                                lemma_page_number(i4 as u64, i3 as u64, i2 as u64, i1 as u64);
                                assert(spec_level1(f.tables, root, p) == Some(t1));
                            }
                        }
                    }
                }
            }
        }
    }
}

/// What mapping writes where the entry of the page in the level 4 table at
/// `root` is not present and the walk for the page stays outside the last
/// entries below: the tables on the way are all made, so of the tables
/// that were known only the one at `root` changes.
pub proof fn lemma_map_writes(tables: Tables, allocator: BuddyView, root: u64, page: int, addr: u64)
    requires
        tables_wf(tables),
        allocator.wf(),
        PageEntry::valid_frame_addr(addr as int),
        tables.contains_key(root),
        !tables[root][spec_page_index(page, 4)].is_present(),
        spec_page_index(page, 3) != RECURSIVE_INDEX,
        spec_page_index(page, 2) != RECURSIVE_INDEX,
        spec_page_index(page, 1) != RECURSIVE_INDEX,
    ensures
        forall|a: u64|
            tables.contains_key(a) && a != root ==> #[trigger] spec_map(tables, allocator, root, page, addr).tables[a]
                == tables[a],
{
    reveal(spec_map);
    let i4 = spec_page_index(page, 4);
    let i3 = spec_page_index(page, 3);
    let i2 = spec_page_index(page, 2);
    let i1 = spec_page_index(page, 1);
    let o = spec_map(tables, allocator, root, page, addr);
    lemma_entry_bits(0, 0, 0);
    lemma_create(tables, allocator, root, i4);
    lemma_create_writes(tables, allocator, root, i4);
    let c3 = spec_create(tables, allocator, root, i4);
    assert(spec_child(tables, root, i4) is None);
    if let Some(t3) = c3.table {
        assert(!tables.contains_key(t3));
        assert(c3.tables[t3] == fresh_table(t3));
        assert(!c3.tables[t3][i3].is_present());
        assert(spec_child(c3.tables, t3, i3) is None);
        lemma_create(c3.tables, c3.allocator, t3, i3);
        lemma_create_writes(c3.tables, c3.allocator, t3, i3);
        let c2 = spec_create(c3.tables, c3.allocator, t3, i3);
        assert forall|a: u64| tables.contains_key(a) && a != root implies #[trigger] c2.tables[a] == tables[a] by {
            assert(c3.tables.contains_key(a));
            assert(c3.tables[a] == tables[a]);
        }
        if let Some(t2) = c2.table {
            assert(!c3.tables.contains_key(t2));
            assert(!tables.contains_key(t2));
            assert(c2.tables[t2] == fresh_table(t2));
            assert(!c2.tables[t2][i2].is_present());
            assert(spec_child(c2.tables, t2, i2) is None);
            lemma_create(c2.tables, c2.allocator, t2, i2);
            lemma_create_writes(c2.tables, c2.allocator, t2, i2);
            let c1 = spec_create(c2.tables, c2.allocator, t2, i2);
            assert forall|a: u64| tables.contains_key(a) && a != root implies #[trigger] c1.tables[a]
                == tables[a] by {
                assert(c2.tables.contains_key(a));
                assert(c1.tables[a] == c2.tables[a]);
            }
            if let Some(t1) = c1.table {
                assert(!c2.tables.contains_key(t1));
                assert(!tables.contains_key(t1));
                assert forall|a: u64| tables.contains_key(a) && a != root implies #[trigger] o.tables[a]
                    == tables[a] by {
                    assert(c1.tables[a] == tables[a]);
                    assert(a != t1);
                }
            }
        }
    }
}

/// The table that the processor walks, with the frames that hold tables.
pub struct ActivePageTable {
    level4_frame: u64,
    memory: PhysicalMemory,
}

/// A table of level 4 that the processor does not walk yet, by its frame.
#[derive(Copy, Clone, Debug, PartialEq, Eq, Structural)]
pub struct InActivePageTable {
    pub level4_page_table: Frame,
}

impl ActivePageTable {
    /// The tables by the address of their frame.
    pub closed spec fn tables(&self) -> Tables {
        self.memory@
    }

    /// The address of the frame of the level 4 table, which the processor
    /// walks from.
    pub closed spec fn level4_frame(&self) -> u64 {
        self.level4_frame
    }

    pub closed spec fn memory_wf(&self) -> bool {
        self.memory.wf()
    }

    /// The invariant: the tables are sound, and the level 4 table is among
    /// them.
    pub open spec fn wf(&self) -> bool {
        &&& self.memory_wf()
        &&& tables_wf(self.tables())
        &&& self.tables().contains_key(self.level4_frame())
        &&& PageEntry::valid_frame_addr(self.level4_frame() as int)
    }

    /// The frame of the table that stands in the window: the one that the
    /// last entry of the level 4 table points to.
    pub open spec fn window(&self) -> Option<u64> {
        spec_child(self.tables(), self.level4_frame(), RECURSIVE_INDEX as int)
    }

    /// The address of the frame that the page is mapped to in the table that
    /// stands in the window.
    pub open spec fn resolve(&self, page: Page) -> Option<u64> {
        match self.window() {
            Some(root) => spec_resolve(self.tables(), root, page.number as int),
            None => None,
        }
    }

    /// The address of the frame that the processor finds for the page.
    pub open spec fn translate(&self, page: Page) -> Option<u64> {
        spec_resolve(self.tables(), self.level4_frame(), page.number as int)
    }

    /// The last entry of the level 4 table points to the table's own frame,
    /// present and writable.
    pub open spec fn self_mapped(&self) -> bool {
        let e = self.tables()[self.level4_frame()][RECURSIVE_INDEX as int];
        e.is_present() && e.is_writable() && e.frame_addr() == self.level4_frame()
    }

    /// The state after `map`.
    pub open spec fn mapped(&self, allocator: BuddyView, page: Page, frame: Frame) -> Outcome {
        match self.window() {
            None => Outcome { tables: self.tables(), allocator, result: Err(Error::NoPageTable) },
            Some(root) => spec_map(
                self.tables(),
                allocator,
                root,
                page.number as int,
                (frame.number * SIZE) as u64,
            ),
        }
    }

    /// The state after `unmap`.
    pub open spec fn unmapped(&self, allocator: BuddyView, page: Page) -> Outcome {
        match self.window() {
            None => Outcome { tables: self.tables(), allocator, result: Err(Error::NoEntry) },
            Some(root) => spec_unmap(self.tables(), allocator, root, page.number as int),
        }
    }

    /// The state after `find_empty_pages`.
    pub open spec fn searched(&self, allocator: BuddyView, count: int) -> Found {
        match self.window() {
            None => Found { tables: self.tables(), allocator, page: None },
            Some(root) => spec_find_empty_pages(self.tables(), allocator, root, count),
        }
    }

    /// Where the level 4 table maps itself and its last entry maps no large
    /// page, the table in the window is the one that the processor walks:
    /// what the kernel sees of a page is what the processor finds.
    pub proof fn lemma_window_is_active(&self, page: Page)
        requires
            self.wf(),
            self.self_mapped(),
            !self.tables()[self.level4_frame()][RECURSIVE_INDEX as int].is_huge(),
        ensures
            self.window() == Some(self.level4_frame()),
            self.resolve(page) == self.translate(page),
    {
    }

    /// The table that the processor walks from the frame of `level4_frame`
    /// on, with the frames that are known to hold tables.
    pub fn new(level4_frame: Frame, memory: PhysicalMemory) -> (r: ActivePageTable)
        requires
            memory.wf(),
            level4_frame.number <= crate::memory::frame::MAX_NUMBER,
            memory@.contains_key((level4_frame.number * SIZE) as u64),
        ensures
            r.wf(),
            r.tables() == memory@,
            r.level4_frame() == level4_frame.number * SIZE,
    {
        proof {
            memory.lemma_wf();
        }
        ActivePageTable { level4_frame: level4_frame.address().0, memory }
    }

    /// A table of level 4 in the frame of `level4_frame` that maps nothing
    /// but itself.
    pub fn fresh(level4_frame: Frame) -> (r: ActivePageTable)
        requires
            level4_frame.number <= crate::memory::frame::MAX_NUMBER,
        ensures
            r.wf(),
            r.level4_frame() == level4_frame.number * SIZE,
            r.tables() == Map::<u64, Seq<PageEntry>>::empty().insert(
                r.level4_frame(),
                fresh_table(r.level4_frame()),
            ),
            r.self_mapped(),
            r.window() == Some(r.level4_frame()),
    {
        let address = level4_frame.address();
        let mut memory = PhysicalMemory::new();
        let table: Table<Level4> = Table {
            address: VirtualAddress(LEVEL4_PAGE_TABLE),
            frame: address.0,
            level: PhantomData,
        };
        table.clear_all_entries(&mut memory);
        let mut recursive = PageEntry(0);
        recursive.set_frame_addr(address);
        recursive.set_flags(PageEntryFlags::writable());
        let _ = memory.write(address.0, RECURSIVE_INDEX, recursive);
        proof {
            memory.lemma_wf();
            lemma_entry_bits(0, address.0, 0);
            assert(memory@ =~= Map::<u64, Seq<PageEntry>>::empty().insert(address.0, fresh_table(address.0)));
        }
        ActivePageTable { level4_frame: address.0, memory }
    }

    /// The frames that hold tables.
    pub fn memory(&self) -> (r: &PhysicalMemory)
        ensures
            r@ == self.tables(),
            self.memory_wf() ==> r.wf(),
    {
        &self.memory
    }

    /// The address of the frame of the level 4 table.
    pub fn level4_address(&self) -> (r: PhysicalAddress)
        ensures
            r@ == self.level4_frame(),
    {
        PhysicalAddress(self.level4_frame)
    }

    /// The table of level 4 that stands in the window, if the last entry of
    /// the table that the processor walks points to one.
    pub fn level4_page_table_mut(&self) -> (r: Option<Table<Level4>>)
        requires
            self.wf(),
        ensures
            r is Some <==> self.window() is Some,
            r matches Some(t) ==> Some(t.frame) == self.window() && t.address.0 == LEVEL4_PAGE_TABLE,
    {
        match self.memory.read(self.level4_frame, RECURSIVE_INDEX) {
            Some(entry) => {
                let flags = entry.flags();
                if flags.contains(PageEntryFlags::present()) && !flags.contains(PageEntryFlags::huge_page()) {
                    Some(
                        Table {
                            address: VirtualAddress(LEVEL4_PAGE_TABLE),
                            frame: entry.0 & super::entry::ADDRESS_BITS,
                            level: PhantomData,
                        },
                    )
                } else {
                    None
                }
            },
            None => None,
        }
    }

    /// What an operation that keeps the present entries keeps of the table.
    pub proof fn lemma_kept(&self, after: &ActivePageTable)
        requires
            self.wf(),
            after.level4_frame() == self.level4_frame(),
            present_kept(self.tables(), after.tables()),
        ensures
            self.window() is Some ==> after.window() == self.window(),
            self.self_mapped() ==> after.self_mapped(),
            forall|q: Page| (#[trigger] self.resolve(q)) is Some ==> after.resolve(q) == self.resolve(q),
            forall|q: Page| (#[trigger] self.translate(q)) is Some ==> after.translate(q) == self.translate(q),
    {
        lemma_present_kept_walk(self.tables(), after.tables(), self.level4_frame(), 0);
        assert forall|q: Page| (#[trigger] self.resolve(q)) is Some implies after.resolve(q) == self.resolve(
            q,
        ) by {
            lemma_present_kept_walk(self.tables(), after.tables(), self.window()->0, q.number as int);
        }
        assert forall|q: Page| (#[trigger] self.translate(q)) is Some implies after.translate(q)
            == self.translate(q) by {
            lemma_present_kept_walk(self.tables(), after.tables(), self.level4_frame(), q.number as int);
        }
        if self.self_mapped() {
            assert(self.tables()[self.level4_frame()][RECURSIVE_INDEX as int].is_present());
        }
    }

    /// Maps the page to the frame in the table that stands in the window:
    /// the entry of the page gets the address of the frame and is present
    /// and writable. The tables on the way are made where they are missing,
    /// with frames from the allocator. The page must not be mapped yet; the
    /// last entry of a table that is made points to the table itself, so a
    /// page whose entry that is counts as mapped. What the allocator had
    /// handed out stays handed out.
    pub fn map(&mut self, page: Page, frame: Frame, allocator: &mut BuddyAllocator) -> (r: Result<(), Error>)
        requires
            old(self).wf(),
            old(allocator).wf(),
            page.number <= super::page::MAX_NUMBER,
            frame.number <= crate::memory::frame::MAX_NUMBER,
        ensures
            final(self).wf(),
            final(allocator).wf(),
            final(self).level4_frame() == old(self).level4_frame(),
            final(self).tables() == old(self).mapped(old(allocator)@, page, frame).tables,
            final(allocator)@ == old(self).mapped(old(allocator)@, page, frame).allocator,
            r == old(self).mapped(old(allocator)@, page, frame).result,
            present_kept(old(self).tables(), final(self).tables()),
            final(self).window() == old(self).window(),
            old(self).self_mapped() ==> final(self).self_mapped(),
            r is Ok ==> final(self).resolve(page) == Some((frame.number * SIZE) as u64) && old(self).resolve(page) is None,
            r is Ok ==> old(self).window() is Some && ({
                let t1 = spec_level1(final(self).tables(), old(self).window()->0, page.number as int);
                let e = final(self).tables()[t1->0][spec_page_index(page.number as int, 1)];
                &&& t1 is Some
                &&& e.is_present() && e.is_writable() && e.frame_addr() == frame.number * SIZE
            }),
            old(self).resolve(page) is Some ==> r == Err::<(), Error>(Error::AlreadyMapped),
            old(allocator)@.keeps_allocated(final(allocator)@),
            forall|q: Page|
                (#[trigger] old(self).resolve(q)) is Some ==> final(self).resolve(q) == old(self).resolve(q),
            final(allocator)@.len() == old(allocator)@.len(),
            final(allocator)@.base == old(allocator)@.base,
    {
        proof {
            lemma_page_indexes(page.number);
            if let Some(root) = self.window() {
                lemma_map(self.tables(), allocator@, root, page.number as int, (frame.number * SIZE) as u64);
            }
        }
        let page_addr = page.address();
        let frame_addr = frame.address();
        let ghost before = *self;
        let result = self.map_steps(page_addr, frame_addr, allocator);
        proof {
            self.memory.lemma_wf();
            before.lemma_kept(self);
        }
        result
    }

    fn map_steps(&mut self, page_addr: VirtualAddress, frame_addr: PhysicalAddress, allocator: &mut BuddyAllocator) -> (r:
        Result<(), Error>)
        requires
            old(self).wf(),
            old(allocator).wf(),
            PageEntry::valid_frame_addr(frame_addr@),
        ensures
            final(self).memory_wf(),
            final(allocator).wf(),
            final(self).level4_frame() == old(self).level4_frame(),
            ({
                let o = match old(self).window() {
                    None => Outcome {
                        tables: old(self).tables(),
                        allocator: old(allocator)@,
                        result: Err(Error::NoPageTable),
                    },
                    Some(root) => spec_map(
                        old(self).tables(),
                        old(allocator)@,
                        root,
                        page_addr@ / 4096,
                        frame_addr.0,
                    ),
                };
                &&& final(self).tables() == o.tables
                &&& final(allocator)@ == o.allocator
                &&& r == o.result
            }),
    {
        proof {
            reveal(spec_map);
        }
        proof {
            lemma_index_bits_of(page_addr.0);
        }
        let l4 = match self.level4_page_table_mut() {
            Some(t) => t,
            None => {
                return Err(Error::NoPageTable);
            },
        };
        let t3 = match l4.next_level_table_create_mut(&mut self.memory, page_addr.level4_index(), allocator) {
            Some(t) => t,
            None => {
                return Err(Error::NoPageTable);
            },
        };
        let t2 = match t3.next_level_table_create_mut(&mut self.memory, page_addr.level3_index(), allocator) {
            Some(t) => t,
            None => {
                return Err(Error::NoPageTable);
            },
        };
        let t1 = match t2.next_level_table_create_mut(&mut self.memory, page_addr.level2_index(), allocator) {
            Some(t) => t,
            None => {
                return Err(Error::NoPageTable);
            },
        };
        let index = page_addr.level1_index();
        match self.memory.read(t1.frame, index) {
            None => Err(Error::NoPageTable),
            Some(entry) => {
                let mut entry = entry;
                if entry.flags().contains(PageEntryFlags::present()) {
                    Err(Error::AlreadyMapped)
                } else {
                    entry.set_frame_addr(frame_addr);
                    entry.set_flags(PageEntryFlags::writable());
                    let _ = self.memory.write(t1.frame, index, entry);
                    Ok(())
                }
            },
        }
    }

    /// Takes the mapping of the page out of the table that stands in the
    /// window. The frame goes back to the allocator if it is a block that
    /// the allocator handed out. The level 4 table maps itself afterwards
    /// as before, unless the entry of the page was the one that did so.
    pub fn unmap(&mut self, page: Page, allocator: &mut BuddyAllocator) -> (r: Result<(), Error>)
        requires
            old(self).wf(),
            old(allocator).wf(),
            page.number <= super::page::MAX_NUMBER,
        ensures
            final(self).wf(),
            final(allocator).wf(),
            final(self).level4_frame() == old(self).level4_frame(),
            final(self).tables() == old(self).unmapped(old(allocator)@, page).tables,
            final(allocator)@ == old(self).unmapped(old(allocator)@, page).allocator,
            r == old(self).unmapped(old(allocator)@, page).result,
            r is Ok <==> old(self).resolve(page) is Some,
            r is Err ==> r == Err::<(), Error>(Error::NoEntry) && final(self).tables() == old(self).tables()
                && final(allocator)@ == old(allocator)@,
            old(self).self_mapped() && !(old(self).window() is Some && spec_level1(
                old(self).tables(),
                old(self).window()->0,
                page.number as int,
            ) == Some(old(self).level4_frame()) && spec_page_index(page.number as int, 1) == RECURSIVE_INDEX)
                ==> final(self).self_mapped(),
            old(self).window() is Some ==> spec_resolve(
                final(self).tables(),
                old(self).window()->0,
                page.number as int,
            ) is None,
            old(self).resolve(page) matches Some(addr) ==> ({
                let number = addr as int / SIZE as int;
                let index = number - old(allocator)@.base;
                &&& old(allocator)@.base <= number && old(allocator)@.is_allocated(index) ==> final(allocator)@.in_free_pool(index) && final(allocator)@.total_free() == old(allocator)@.total_free()
                    + crate::memory::buddy_system::allocator::block_len(old(allocator)@.frames[index].order)
                &&& !(old(allocator)@.base <= number && old(allocator)@.is_allocated(index)) ==> final(allocator)@ == old(allocator)@
                &&& old(allocator)@.keeps_allocated_but(final(allocator)@, index)
            }),
            final(allocator)@.len() == old(allocator)@.len(),
            final(allocator)@.base == old(allocator)@.base,
    {
        proof {
            lemma_page_indexes(page.number);
            if let Some(root) = self.window() {
                lemma_unmap(self.tables(), allocator@, root, page.number as int);
            }
        }
        let addr = page.address();
        proof {
            lemma_index_bits_of(addr.0);
        }
        let l4 = match self.level4_page_table_mut() {
            Some(t) => t,
            None => {
                return Err(Error::NoEntry);
            },
        };
        let t3 = match l4.next_level_table_mut(&self.memory, addr.level4_index()) {
            Some(t) => t,
            None => {
                return Err(Error::NoEntry);
            },
        };
        let t2 = match t3.next_level_table_mut(&self.memory, addr.level3_index()) {
            Some(t) => t,
            None => {
                return Err(Error::NoEntry);
            },
        };
        let t1 = match t2.next_level_table_mut(&self.memory, addr.level2_index()) {
            Some(t) => t,
            None => {
                return Err(Error::NoEntry);
            },
        };
        let index = addr.level1_index();
        let entry = match self.memory.read(t1.frame, index) {
            Some(entry) => entry,
            None => {
                return Err(Error::NoEntry);
            },
        };
        let frame_addr = match entry.get_frame_addr() {
            Some(a) => a,
            None => {
                return Err(Error::NoEntry);
            },
        };
        let frame = Frame::from_address(frame_addr);
        if allocator.is_allocated(&frame) {
            allocator.free(frame);
        }
        let mut entry = entry;
        entry.clear_all();
        let _ = self.memory.write(t1.frame, index, entry);
        proof {
            self.memory.lemma_wf();
        }
        Ok(())
    }

    /// A page that is not mapped in the table that stands in the window.
    pub fn find_empty_page(&mut self, allocator: &mut BuddyAllocator) -> (r: Option<Page>)
        requires
            old(self).wf(),
            old(allocator).wf(),
        ensures
            final(self).wf(),
            final(allocator).wf(),
            final(self).level4_frame() == old(self).level4_frame(),
            final(self).tables() == old(self).searched(old(allocator)@, 1).tables,
            old(allocator)@.keeps_allocated(final(allocator)@),
            final(allocator)@ == old(self).searched(old(allocator)@, 1).allocator,
            r is Some <==> old(self).searched(old(allocator)@, 1).page is Some,
            r matches Some(p) ==> p.number == old(self).searched(old(allocator)@, 1).page->0 && p.number
                < 0x10_0000_0000 && final(self).resolve(p) is None,
            present_kept(old(self).tables(), final(self).tables()),
            old(self).window() is Some ==> final(self).window() == old(self).window(),
            old(self).self_mapped() ==> final(self).self_mapped(),
            final(allocator)@.len() == old(allocator)@.len(),
            final(allocator)@.base == old(allocator)@.base,
    {
        let r = self.find_empty_pages(1, allocator);
        proof {
            if let Some(p) = r {
                assert(p == (Page { number: (p.number + 0) as u64 }));
                assert(self.resolve(Page { number: (p.number + 0) as u64 }) is None);
            }
        }
        r
    }

    /// The first of `count` pages in a row that are not mapped in the table
    /// that stands in the window. The tables that lead to the pages are made
    /// on the way, with frames from the allocator, so that mapping the pages
    /// asks for no frame.
    pub fn find_empty_pages(&mut self, count: usize, allocator: &mut BuddyAllocator) -> (r: Option<Page>)
        requires
            old(self).wf(),
            old(allocator).wf(),
            count >= 1,
        ensures
            final(self).wf(),
            final(allocator).wf(),
            final(self).level4_frame() == old(self).level4_frame(),
            final(self).tables() == old(self).searched(old(allocator)@, count as int).tables,
            old(allocator)@.keeps_allocated(final(allocator)@),
            final(allocator)@ == old(self).searched(old(allocator)@, count as int).allocator,
            r is Some <==> old(self).searched(old(allocator)@, count as int).page is Some,
            r matches Some(p) ==> p.number == old(self).searched(old(allocator)@, count as int).page->0
                && p.number + count <= 0x10_0000_0000 && forall|k: int|
                0 <= k < count ==> (#[trigger] final(self).resolve(Page { number: (p.number + k) as u64 }))
                    is None,
            present_kept(old(self).tables(), final(self).tables()),
            old(self).window() is Some ==> final(self).window() == old(self).window(),
            old(self).self_mapped() ==> final(self).self_mapped(),
            final(allocator)@.len() == old(allocator)@.len(),
            final(allocator)@.base == old(allocator)@.base,
    {
        proof {
            if let Some(root) = self.window() {
                lemma_find_empty_pages(self.tables(), allocator@, root, count as int);
            }
        }
        let ghost before = *self;
        let r = self.search_steps(count, allocator);
        proof {
            self.memory.lemma_wf();
            before.lemma_kept(self);
            if let Some(p) = r {
                let root = before.window()->0;
                assert forall|k: int| 0 <= k < count implies (#[trigger] self.resolve(
                    Page { number: (p.number + k) as u64 },
                )) is None by {
                    assert(spec_level1(self.tables(), root, p.number + k) == spec_level1(
                        self.tables(),
                        root,
                        p.number as int,
                    ));
                    let t1 = spec_level1(self.tables(), root, p.number as int)->0;
                    assert(!self.tables()[t1][spec_page_index(p.number as int, 1) + k].is_present());
                }
            }
        }
        r
    }

    fn search_steps(&mut self, count: usize, allocator: &mut BuddyAllocator) -> (r: Option<Page>)
        requires
            old(self).wf(),
            old(allocator).wf(),
            count >= 1,
        ensures
            final(self).memory_wf(),
            final(allocator).wf(),
            final(self).level4_frame() == old(self).level4_frame(),
            final(self).tables() == old(self).searched(old(allocator)@, count as int).tables,
            final(allocator)@ == old(self).searched(old(allocator)@, count as int).allocator,
            r is Some <==> old(self).searched(old(allocator)@, count as int).page is Some,
            r matches Some(p) ==> p.number == old(self).searched(old(allocator)@, count as int).page->0,
    {
        let table = match self.level4_page_table_mut() {
            Some(t) => t,
            None => {
                return None;
            },
        };
        let i4 = match table.find_free_entry_index(&self.memory) {
            Some(i) => i,
            None => {
                return None;
            },
        };
        let table = match table.next_level_table_create_mut(&mut self.memory, i4, allocator) {
            Some(t) => t,
            None => {
                return None;
            },
        };
        let i3 = match table.find_free_entry_index(&self.memory) {
            Some(i) => i,
            None => {
                return None;
            },
        };
        let table = match table.next_level_table_create_mut(&mut self.memory, i3, allocator) {
            Some(t) => t,
            None => {
                return None;
            },
        };
        let i2 = match table.find_free_entry_index(&self.memory) {
            Some(i) => i,
            None => {
                return None;
            },
        };
        let table = match table.next_level_table_create_mut(&mut self.memory, i2, allocator) {
            Some(t) => t,
            None => {
                return None;
            },
        };
        match table.find_free_entry_index_with(&self.memory, count) {
            Some(i1) => {
                proof {
                    lemma_page_number(i4 as u64, i3 as u64, i2 as u64, i1 as u64);
                }
                let i: u64 = (i4 as u64) * 512 * 512 * 512 + (i3 as u64) * 512 * 512 + (i2 as u64) * 512 + (
                i1 as u64);
                Some(Page::from_number(i))
            },
            None => None,
        }
    }
}

/// The indexes that an address selects, by the number of its page.
pub proof fn lemma_index_bits_of(a: u64)
    ensures
        super::page_index::spec_level_index(a as int, 4) == spec_page_index(a as int / 4096, 4),
        super::page_index::spec_level_index(a as int, 3) == spec_page_index(a as int / 4096, 3),
        super::page_index::spec_level_index(a as int, 2) == spec_page_index(a as int / 4096, 2),
        super::page_index::spec_level_index(a as int, 1) == spec_page_index(a as int / 4096, 1),
{
    assert((a / 0x80_0000_0000) % 512 == ((a / 4096) / 0x800_0000) % 512 && (a / 0x4000_0000) % 512 == ((a
        / 4096) / 0x4_0000) % 512 && (a / 0x20_0000) % 512 == ((a / 4096) / 0x200) % 512 && (a / 0x1000)
        % 512 == (a / 4096) % 512) by (bit_vector);
}


/// Mapping `count` pages in a row from the page `page` on to the frames in
/// a row from the one at `addr` on, one after the other; the first failure
/// ends it, and what was mapped before stays.
pub open spec fn spec_map_range(tables: Tables, allocator: BuddyView, root: u64, page: int, addr: int, count: int) -> Outcome
    decreases count,
{
    if count <= 0 {
        Outcome { tables, allocator, result: Ok(()) }
    } else {
        let o = spec_map(tables, allocator, root, page, addr as u64);
        if o.result is Err {
            o
        } else {
            spec_map_range(o.tables, o.allocator, root, page + 1, addr + SIZE as int, count - 1)
        }
    }
}

/// The part of what mapping brings about that mapping a range builds on.
pub proof fn lemma_map_brief(tables: Tables, allocator: BuddyView, root: u64, page: int, addr: u64)
    requires
        tables_wf(tables),
        allocator.wf(),
        PageEntry::valid_frame_addr(addr as int),
    ensures
        ({
            let o = spec_map(tables, allocator, root, page, addr);
            &&& tables_wf(o.tables)
            &&& o.allocator.wf()
            &&& o.allocator.len() == allocator.len()
            &&& o.allocator.base == allocator.base
            &&& allocator.keeps_allocated(o.allocator)
            &&& present_kept(tables, o.tables)
            &&& o.result is Ok ==> spec_resolve(o.tables, root, page) == Some(addr)
            &&& o.result is Err ==> o.result == Err::<(), Error>(Error::NoPageTable) || o.result == Err::<
                (),
                Error,
            >(Error::AlreadyMapped)
        }),
{
    reveal(spec_map);
    lemma_map(tables, allocator, root, page, addr);
}

/// What mapping a range keeps and brings about: the present entries stay,
/// and after success the walk for each page of the range finds its frame.
pub proof fn lemma_map_range(tables: Tables, allocator: BuddyView, root: u64, page: int, addr: int, count: int)
    requires
        tables_wf(tables),
        allocator.wf(),
        addr % 4096 == 0,
        0 <= addr,
        addr + count * 4096 <= 0x10_0000_0000_0000,
    ensures
        ({
            let o = spec_map_range(tables, allocator, root, page, addr, count);
            &&& tables_wf(o.tables)
            &&& o.allocator.wf()
            &&& o.allocator.len() == allocator.len()
            &&& o.allocator.base == allocator.base
            &&& allocator.keeps_allocated(o.allocator)
            &&& present_kept(tables, o.tables)
            &&& o.result is Err ==> o.result == Err::<(), Error>(Error::NoPageTable) || o.result == Err::<
                (),
                Error,
            >(Error::AlreadyMapped)
            &&& o.result is Ok ==> forall|k: int|
                0 <= k < count ==> #[trigger] spec_resolve(o.tables, root, page + k) == Some(
                    (addr + k * 4096) as u64,
                )
        }),
    decreases count,
{
    if count > 0 {
        lemma_map_brief(tables, allocator, root, page, addr as u64);
        let o = spec_map(tables, allocator, root, page, addr as u64);
        if o.result is Ok {
            lemma_map_range(o.tables, o.allocator, root, page + 1, addr + 4096, count - 1);
            let r = spec_map_range(o.tables, o.allocator, root, page + 1, addr + 4096, count - 1);
            assert(r == spec_map_range(tables, allocator, root, page, addr, count));
            lemma_present_kept_transitive(tables, o.tables, r.tables);
            if r.result is Ok {
                assert forall|k: int| 0 <= k < count implies #[trigger] spec_resolve(r.tables, root, page + k)
                    == Some((addr + k * 4096) as u64) by {
                    if k == 0 {
                        lemma_present_kept_walk(o.tables, r.tables, root, page);
                    } else {
                        assert(spec_resolve(r.tables, root, (page + 1) + (k - 1)) == Some(
                            ((addr + 4096) + (k - 1) * 4096) as u64,
                        ));
                    }
                }
            }
        }
    } else {
        assert(present_kept(tables, tables));
    }
}

/// The start of the frame that holds the physical address, as the
/// processor's register of the page table base takes it.
///
/// This is `PhysFrame::containing_address` of the crate x86_64 on
/// `PhysAddr::new`, read back by `start_address` and `as_u64`. The address is
/// rounded down to a multiple of 4096; `PhysAddr::new` does not return for
/// an address of more than 52 bits, which the precondition leaves out.
#[verifier::external_body]
fn frame_start_address(addr: u64) -> (r: u64)
    requires
        addr < 0x10_0000_0000_0000,
    ensures
        r == addr - addr % 4096,
{
    let address = x86_64::PhysAddr::new(addr);
    let frame: x86_64::structures::paging::PhysFrame = x86_64::structures::paging::PhysFrame::containing_address(
        address,
    );
    frame.start_address().as_u64()
}

/// The table at `frame` with its last entry pointed to the frame at
/// `target`, present and writable; the other flags of the entry stay.
pub open spec fn spec_retarget(tables: Tables, frame: u64, target: u64) -> Tables {
    tables.insert(
        frame,
        tables[frame].update(
            RECURSIVE_INDEX as int,
            tables[frame][RECURSIVE_INDEX as int].with_frame_addr(target).with_flags(
                PageEntryFlags { bits: WRITABLE },
            ),
        ),
    )
}

/// An edit of the table that stands in the window.
pub trait TableEdit {
    /// The edit may lead from the tables and the allocator `before` to those
    /// `after`, with the given result, where the processor walks from the
    /// table at `level4_frame`.
    spec fn applies(
        &self,
        level4_frame: u64,
        before: (Tables, BuddyView),
        after: (Tables, BuddyView),
        result: Result<(), Error>,
    ) -> bool;

    fn apply(&self, table: &mut ActivePageTable, allocator: &mut BuddyAllocator) -> (r: Result<(), Error>)
        requires
            old(table).wf(),
            old(allocator).wf(),
        ensures
            final(table).wf(),
            final(allocator).wf(),
            final(table).level4_frame() == old(table).level4_frame(),
            final(allocator)@.len() == old(allocator)@.len(),
            final(allocator)@.base == old(allocator)@.base,
            self.applies(
                old(table).level4_frame(),
                (old(table).tables(), old(allocator)@),
                (final(table).tables(), final(allocator)@),
                r,
            ),
    ;
}

/// The edit that maps one page to one frame.
pub struct MapPage {
    pub page: Page,
    pub frame: Frame,
}

impl TableEdit for MapPage {
    open spec fn applies(
        &self,
        level4_frame: u64,
        before: (Tables, BuddyView),
        after: (Tables, BuddyView),
        result: Result<(), Error>,
    ) -> bool {
        let o = match spec_child(before.0, level4_frame, RECURSIVE_INDEX as int) {
            Some(root) => if self.page.number <= super::page::MAX_NUMBER && self.frame.number
                <= crate::memory::frame::MAX_NUMBER {
                spec_map(
                    before.0,
                    before.1,
                    root,
                    self.page.number as int,
                    (self.frame.number * SIZE) as u64,
                )
            } else {
                Outcome { tables: before.0, allocator: before.1, result: Err(Error::NoPageTable) }
            },
            None => Outcome { tables: before.0, allocator: before.1, result: Err(Error::NoPageTable) },
        };
        after.0 == o.tables && after.1 == o.allocator && result == o.result
    }

    /// Maps the page to the frame. A page or a frame whose number is out of
    /// range is not mapped.
    fn apply(&self, table: &mut ActivePageTable, allocator: &mut BuddyAllocator) -> (r: Result<(), Error>) {
        if self.page.number > super::page::MAX_NUMBER || self.frame.number > crate::memory::frame::MAX_NUMBER {
            return Err(Error::NoPageTable);
        }
        table.map(self.page, self.frame, allocator)
    }
}

impl ActivePageTable {
    /// The tables keep themselves.
    pub proof fn lemma_same(&self)
        ensures
            present_kept(self.tables(), self.tables()),
    {
    }

    /// The state after `map_fitting` of `count` pages.
    pub open spec fn range_mapped(&self, allocator: BuddyView, page: int, addr: int, count: int) -> Outcome {
        match self.window() {
            None => if count > 0 {
                Outcome { tables: self.tables(), allocator, result: Err(Error::NoPageTable) }
            } else {
                Outcome { tables: self.tables(), allocator, result: Ok(()) }
            },
            Some(root) => spec_map_range(self.tables(), allocator, root, page, addr, count),
        }
    }

    /// Maps the pages of the virtual range to the frames of the physical
    /// range, one to one and one after the other. The ranges have the same
    /// size. After a failure the pages that were mapped before it stay
    /// mapped.
    pub fn map_fitting(
        &mut self,
        v_range: (VirtualAddress, VirtualAddress),
        p_range: (PhysicalAddress, PhysicalAddress),
        allocator: &mut BuddyAllocator,
    ) -> (r: Result<(), Error>)
        requires
            old(self).wf(),
            old(allocator).wf(),
            v_range.0@ <= v_range.1@,
            v_range.1@ - v_range.0@ == p_range.1@ - p_range.0@,
            p_range.1@ <= 0x10_0000_0000_0000,
        ensures
            final(self).wf(),
            final(allocator).wf(),
            final(self).level4_frame() == old(self).level4_frame(),
            ({
                let o = old(self).range_mapped(
                    old(allocator)@,
                    v_range.0@ / 4096,
                    (p_range.0@ / 4096) * 4096,
                    (v_range.1@ - v_range.0@) / 4096,
                );
                &&& final(self).tables() == o.tables
                &&& final(allocator)@ == o.allocator
                &&& r == o.result
            }),
            old(allocator)@.keeps_allocated(final(allocator)@),
            present_kept(old(self).tables(), final(self).tables()),
            final(self).window() == old(self).window(),
            old(self).self_mapped() ==> final(self).self_mapped(),
            r is Ok ==> forall|k: int|
                0 <= k < (v_range.1@ - v_range.0@) / 4096 ==> #[trigger] final(self).resolve(
                    Page { number: (v_range.0@ / 4096 + k) as u64 },
                ) == Some(((p_range.0@ / 4096 + k) * 4096) as u64),
            final(allocator)@.len() == old(allocator)@.len(),
            final(allocator)@.base == old(allocator)@.base,
    {
        let (v_begin, v_end) = v_range;
        let (p_begin, p_end) = p_range;
        let size: u64 = v_end.0 - v_begin.0;
        let count_4kb: u64 = size / 4096;
        let ghost page0 = v_begin@ / 4096;
        let ghost addr0 = (p_begin@ / 4096) * 4096;
        let ghost goal = self.range_mapped(allocator@, page0, addr0, count_4kb as int);
        proof {
            if let Some(root) = self.window() {
                lemma_map_range(self.tables(), allocator@, root, page0, addr0, count_4kb as int);
            } else {
                self.lemma_same();
            }
        }
        let ghost before = *self;
        let mut offset: u64 = 0;
        let mut i: u64 = 0;
        while i < count_4kb
            invariant
                self.wf(),
                allocator.wf(),
                before.wf(),
                before == *old(self),
                v_begin == v_range.0,
                v_end == v_range.1,
                p_begin == p_range.0,
                p_end == p_range.1,
                i <= count_4kb,
                offset == i * 4096,
                count_4kb == (v_end.0 - v_begin.0) / 4096,
                v_begin@ <= v_end@,
                v_end@ - v_begin@ == p_end@ - p_begin@,
                p_end@ <= 0x10_0000_0000_0000,
                page0 == v_begin@ / 4096,
                addr0 == (p_begin@ / 4096) * 4096,
                self.level4_frame() == before.level4_frame(),
                self.window() == before.window(),
                present_kept(before.tables(), self.tables()),
                allocator@.len() == old(allocator)@.len(),
                allocator@.base == old(allocator)@.base,
                before.window() matches Some(root) ==> spec_map_range(
                    self.tables(),
                    allocator@,
                    root,
                    page0 + i,
                    addr0 + i * 4096,
                    count_4kb - i,
                ) == goal,
                before.window() is None ==> i == 0 && self.tables() == before.tables() && allocator@ == old(allocator)@,
                goal == before.range_mapped(old(allocator)@, page0, addr0, count_4kb as int),
                old(allocator)@.keeps_allocated(goal.allocator),
            decreases count_4kb - i,
        {
            let page = Page::from_address(VirtualAddress(v_begin.0 + offset));
            let frame = Frame::from_address(PhysicalAddress(p_begin.0 + offset));
            let ghost now = *self;
            let ghost now_allocator = allocator@;
            proof {
                assert(page.number == page0 + i);
                assert(frame.number * 4096 == addr0 + i * 4096);
                if let Some(root) = before.window() {
                    let o = spec_map(now.tables(), now_allocator, root, page0 + i, (addr0 + i * 4096) as u64);
                    assert(now.mapped(now_allocator, page, frame) == o);
                    assert(goal == if o.result is Err {
                        o
                    } else {
                        spec_map_range(
                            o.tables,
                            o.allocator,
                            root,
                            page0 + i + 1,
                            addr0 + i * 4096 + 4096,
                            count_4kb - i - 1,
                        )
                    });
                }
            }
            match self.map(page, frame, allocator) {
                Ok(()) => {},
                Err(e) => {
                    proof {
                        lemma_present_kept_transitive(before.tables(), now.tables(), self.tables());
                        before.lemma_kept(self);
                    }
                    return Err(e);
                },
            }
            proof {
                lemma_present_kept_transitive(before.tables(), now.tables(), self.tables());
            }
            offset += 4096;
            i += 1;
        }
        proof {
            before.lemma_kept(self);
            if let Some(root) = before.window() {
                assert forall|k: int| 0 <= k < count_4kb implies #[trigger] self.resolve(
                    Page { number: (page0 + k) as u64 },
                ) == Some(((p_begin@ / 4096 + k) * 4096) as u64) by {
                    assert(spec_resolve(goal.tables, root, page0 + k) == Some((addr0 + k * 4096) as u64));
                }
            }
        }
        Ok(())
    }

    /// Maps the frames of a block to pages in a row that were not mapped,
    /// and returns the virtual addresses of the first byte and behind the
    /// last. `None` where no run of so many pages is found.
    pub fn auto_continuous_map(&mut self, frame: &Frame, allocator: &mut BuddyAllocator) -> (r: Option<
        (VirtualAddress, VirtualAddress),
    >)
        requires
            old(self).wf(),
            old(allocator).wf(),
            frame.order < MAX_ORDER,
            frame.number + crate::memory::buddy_system::allocator::block_len(frame.order)
                <= crate::memory::frame::MAX_NUMBER + 1,
        ensures
            final(self).wf(),
            final(allocator).wf(),
            final(self).level4_frame() == old(self).level4_frame(),
            ({
                let count = crate::memory::buddy_system::allocator::block_len(frame.order) as int;
                let f = old(self).searched(old(allocator)@, count);
                &&& r is Some <==> f.page is Some
                &&& final(allocator)@ == f.allocator
                &&& present_kept(f.tables, final(self).tables())
                &&& r matches Some((begin, end)) ==> begin@ == f.page->0 * 4096 && end@ == begin@ + count
                    * 4096 && forall|k: int|
                    0 <= k < count ==> #[trigger] final(self).resolve(
                        Page { number: (f.page->0 + k) as u64 },
                    ) == Some(((frame.number + k) * 4096) as u64)
                &&& r is None ==> final(self).tables() == f.tables
                &&& r is Some ==> final(self).tables() == spec_map_range(
                    f.tables,
                    f.allocator,
                    old(self).window()->0,
                    f.page->0,
                    frame.number * 4096,
                    count,
                ).tables
            }),
            old(allocator)@.keeps_allocated(final(allocator)@),
            present_kept(old(self).tables(), final(self).tables()),
            old(self).window() is Some ==> final(self).window() == old(self).window(),
            old(self).self_mapped() ==> final(self).self_mapped(),
            final(allocator)@.len() == old(allocator)@.len(),
            final(allocator)@.base == old(allocator)@.base,
    {
        proof {
            crate::memory::buddy_system::allocator::lemma_block_len(frame.order as u64);
            if let Some(root) = self.window() {
                lemma_find_empty_pages(
                    self.tables(),
                    allocator@,
                    root,
                    crate::memory::buddy_system::allocator::block_len(frame.order) as int,
                );
            }
        }
        let frame_count: u64 = 1u64 << frame.order;
        let size: u64 = frame_count * SIZE;
        let ghost before = *self;
        let page = match self.find_empty_pages(frame_count as usize, allocator) {
            Some(p) => p,
            None => {
                return None;
            },
        };
        let ghost found = *self;
        let ghost root = found.window()->0;
        let ghost t1 = spec_level1(found.tables(), root, page.number as int)->0;
        let ghost i1 = spec_page_index(page.number as int, 1);
        let ghost goal = spec_map_range(
            found.tables(),
            allocator@,
            root,
            page.number as int,
            frame.number * 4096,
            frame_count as int,
        );
        let base = frame.address();
        let mut i: u64 = 0;
        while i < frame_count
            invariant
                self.wf(),
                allocator.wf(),
                i <= frame_count <= 0x4000,
                goal == spec_map_range(
                    self.tables(),
                    allocator@,
                    root,
                    page.number + i,
                    (frame.number + i) * 4096,
                    frame_count - i,
                ),
                frame_count == crate::memory::buddy_system::allocator::block_len(frame.order),
                frame.number + frame_count <= crate::memory::frame::MAX_NUMBER + 1,
                base@ == frame.number * 4096,
                page.number + frame_count <= 0x10_0000_0000,
                i1 + frame_count <= MAX_ENTRY_COUNT,
                i1 == spec_page_index(page.number as int, 1),
                self.level4_frame() == found.level4_frame(),
                self.window() == Some(root),
                present_kept(found.tables(), self.tables()),
                self.tables().contains_key(t1),
                forall|k: int|
                    0 <= k < frame_count ==> #[trigger] spec_level1(self.tables(), root, page.number + k)
                        == Some(t1) && spec_page_index(page.number + k, 1) == i1 + k,
                forall|k: int| i <= k < frame_count ==> !(#[trigger] self.tables()[t1][i1 + k]).is_present(),
                forall|k: int|
                    0 <= k < i ==> #[trigger] self.resolve(Page { number: (page.number + k) as u64 })
                        == Some(((frame.number + k) * 4096) as u64),
                allocator@ == old(self).searched(old(allocator)@, frame_count as int).allocator,
            decreases frame_count - i,
        {
            let sub_frame = Frame::from_address(PhysicalAddress(base.0 + i * SIZE));
            let sub_page = Page::from_address(VirtualAddress(page.address().0 + i * SIZE));
            let ghost now = *self;
            proof {
                assert(sub_frame.number == frame.number + i);
                assert(sub_page.number == page.number + i);
                lemma_map(
                    self.tables(),
                    allocator@,
                    root,
                    sub_page.number as int,
                    (sub_frame.number * SIZE) as u64,
                );
                assert(spec_level1(self.tables(), root, page.number + i) == Some(t1));
                assert(!self.tables()[t1][i1 + i].is_present());
            }
            let ghost now_allocator = allocator@;
            let mapped = self.map(sub_page, sub_frame, allocator);
            proof {
                assert(mapped is Ok);
                let o = spec_map(
                    now.tables(),
                    now_allocator,
                    root,
                    page.number + i,
                    ((frame.number + i) * 4096) as u64,
                );
                assert(self.tables() == o.tables && allocator@ == o.allocator && mapped == o.result);
                assert(goal == spec_map_range(
                    o.tables,
                    o.allocator,
                    root,
                    page.number + i + 1,
                    (frame.number + i) * 4096 + SIZE as int,
                    frame_count - i - 1,
                ));
                lemma_present_kept_transitive(found.tables(), now.tables(), self.tables());
                assert forall|k: int| 0 <= k < frame_count implies #[trigger] spec_level1(
                    self.tables(),
                    root,
                    page.number + k,
                ) == Some(t1) && spec_page_index(page.number + k, 1) == i1 + k by {
                    assert(spec_level1(now.tables(), root, page.number + k) == Some(t1));
                    lemma_present_kept_walk(now.tables(), self.tables(), root, page.number + k);
                }
                assert forall|k: int| 0 <= k < i + 1 implies #[trigger] self.resolve(
                    Page { number: (page.number + k) as u64 },
                ) == Some(((frame.number + k) * 4096) as u64) by {
                    if k < i {
                        assert(now.resolve(Page { number: (page.number + k) as u64 }) is Some);
                    }
                }
            }
            if mapped.is_err() {
                return None;
            }
            i += 1;
        }
        proof {
            before.lemma_kept(&found);
            lemma_present_kept_transitive(before.tables(), found.tables(), self.tables());
            before.lemma_kept(self);
        }
        let addr = page.address();
        Some((addr, VirtualAddress(addr.0 + size)))
    }

    /// The state in which the table at `inactive` stands in the window.
    pub open spec fn entered(&self, allocator: BuddyView, inactive: u64) -> Outcome {
        spec_entered(self.tables(), self.level4_frame(), allocator, inactive)
    }

    /// Lets `edit` work on the table at `inactive_page_table`: for the time
    /// of the edit that table stands in the window in place of the table
    /// that the processor walks. Afterwards the last entry of the table that
    /// the processor walks points to that table again, whatever the edit
    /// returned. The result is that of the edit, or the error that kept the
    /// edit from being entered.
    pub fn with<E: TableEdit>(
        &mut self,
        inactive_page_table: &mut InActivePageTable,
        allocator: &mut BuddyAllocator,
        edit: &E,
    ) -> (r: Result<(), Error>)
        requires
            old(self).wf(),
            old(allocator).wf(),
            old(inactive_page_table).level4_page_table.number <= crate::memory::frame::MAX_NUMBER,
        ensures
            final(self).wf(),
            final(allocator).wf(),
            final(self).level4_frame() == old(self).level4_frame(),
            *final(inactive_page_table) == *old(inactive_page_table),
            final(allocator)@.len() == old(allocator)@.len(),
            final(allocator)@.base == old(allocator)@.base,
            old(self).self_mapped() ==> final(self).self_mapped(),
            ({
                let inactive = (old(inactive_page_table).level4_page_table.number * SIZE) as u64;
                let entered = old(self).entered(old(allocator)@, inactive);
                &&& entered.result is Err ==> r == entered.result && final(self).tables() == entered.tables
                    && final(allocator)@ == entered.allocator
                &&& entered.result is Ok ==> final(self).self_mapped() && exists|after: (
                    Tables,
                    BuddyView,
                )|
                    #![auto]
                    edit.applies(
                        old(self).level4_frame(),
                        (entered.tables, entered.allocator),
                        after,
                        r,
                    ) && tables_wf(after.0) && after.0.contains_key(old(self).level4_frame()) && final(self).tables()
                        == spec_retarget(after.0, old(self).level4_frame(), old(self).level4_frame())
                        && final(allocator)@ == after.1
            }),
    {
        proof {
            reveal(spec_entered);
        }
        let ghost before = *self;
        let inactive = inactive_page_table.level4_page_table.address();
        // The frame of the table that the processor walks, to find it again.
        let addr = self.level4_frame;
        let walked_table_frame = Frame::from_address(PhysicalAddress(addr));
        let table = match self.level4_page_table_mut() {
            Some(t) => t,
            None => {
                return Err(Error::NoEntry);
            },
        };
        proof {
            lemma_find_empty_pages(self.tables(), allocator@, table.frame, 1);
        }
        let page = match self.find_empty_page(allocator) {
            Some(p) => p,
            None => {
                return Err(Error::NoEntry);
            },
        };
        proof {
            assert(walked_table_frame.number * 4096 == addr);
            lemma_map(self.tables(), allocator@, table.frame, page.number as int, addr);
        }
        let ghost searched = *self;
        match self.map(page, walked_table_frame, allocator) {
            Ok(()) => {},
            Err(e) => {
                proof {
                    lemma_present_kept_transitive(before.tables(), searched.tables(), self.tables());
                    before.lemma_kept(self);
                }
                return Err(e);
            },
        }
        // The table in the window gives way to the other table.
        let mut entry = match self.memory.read(table.frame, RECURSIVE_INDEX) {
            Some(e) => e,
            None => {
                proof {
                    assert(false);
                }
                return Err(Error::NoEntry);
            },
        };
        entry.set_frame_addr(inactive);
        entry.set_flags(PageEntryFlags::writable());
        let _ = self.memory.write(table.frame, RECURSIVE_INDEX, entry);
        proof {
            self.memory.lemma_wf();
            assert(self.tables() == before.entered(old(allocator)@, inactive.0).tables);
        }
        let ghost entered_tables = self.tables();
        let ghost entered_allocator = allocator@;

        let result = edit.apply(self, allocator);

        // The table that the processor walks stands in the window again.
        let ghost after = (self.tables(), allocator@);
        let mut entry = match self.memory.read(addr, RECURSIVE_INDEX) {
            Some(e) => e,
            None => {
                proof {
                    assert(false);
                }
                return result;
            },
        };
        entry.set_frame_addr(PhysicalAddress(addr));
        entry.set_flags(PageEntryFlags::writable());
        let _ = self.memory.write(addr, RECURSIVE_INDEX, entry);
        proof {
            self.memory.lemma_wf();
            let e = after.0[addr][RECURSIVE_INDEX as int];
            lemma_entry_bits(e.0, addr, 0);
            assert(edit.applies(addr, (entered_tables, entered_allocator), after, result));
            assert(self.tables() == spec_retarget(after.0, addr, addr));
        }
        result
    }

    /// Makes the processor walk `new_table` and returns the table that it
    /// walked. The caller loads the register of the page table base with the
    /// address of the new level 4 table.
    pub fn switch(&mut self, new_table: InActivePageTable) -> (r: InActivePageTable)
        requires
            old(self).wf(),
            new_table.level4_page_table.number <= crate::memory::frame::MAX_NUMBER,
            old(self).tables().contains_key((new_table.level4_page_table.number * SIZE) as u64),
        ensures
            final(self).wf(),
            final(self).tables() == old(self).tables(),
            final(self).level4_frame() == new_table.level4_page_table.number * SIZE,
            new_table.self_mapped_in(old(self).tables()) ==> final(self).self_mapped(),
            r.level4_page_table == (Frame {
                number: (old(self).level4_frame() / SIZE) as u64,
                order: 0,
                state: State::Free,
                linked: false,
            }),
    {
        let old_table = InActivePageTable {
            level4_page_table: Frame::from_address(PhysicalAddress(self.level4_frame)),
        };
        let addr = new_table.level4_page_table.address();
        self.level4_frame = frame_start_address(addr.0);
        old_table
    }
}


/// The tables and the allocator after a table was made to wait, and the
/// address of its frame.
pub struct Made {
    pub tables: Tables,
    pub allocator: BuddyView,
    pub table: Option<u64>,
}

/// The allocator after the frame at `addr` was given back, if it is a block
/// that the allocator handed out.
pub open spec fn spec_given_back(allocator: BuddyView, addr: u64) -> BuddyView {
    let number = addr as int / SIZE as int;
    if allocator.base <= number && allocator.is_allocated(number - allocator.base) {
        allocator.released(number - allocator.base)
    } else {
        allocator
    }
}

/// The state after `InActivePageTable::new`: the allocator gives a
/// frame, a page that was not mapped is mapped to it, and the frame gets
/// a new table. The frame goes back where no page is found, where the
/// page cannot be mapped, and where the frame holds a table already.
#[verifier::opaque]
pub open spec fn spec_made(tables: Tables, level4_frame: u64, allocator: BuddyView) -> Made {
    match spec_next_frame(allocator) {
        None => Made { tables, allocator, table: None },
        Some(addr) => {
            let taken = spec_after_alloc(allocator);
            if tables.contains_key(addr) {
                Made { tables, allocator: spec_alloc_and_back(allocator), table: None }
            } else {
                match spec_window(tables, level4_frame) {
                    None => Made {
                        tables,
                        allocator: spec_given_back(taken, addr),
                        table: None,
                    },
                    Some(root) => {
                        let f = spec_find_empty_pages(tables, taken, root, 1);
                        match f.page {
                            None => Made {
                                tables: f.tables,
                                allocator: spec_given_back(f.allocator, addr),
                                table: None,
                            },
                            Some(p) => {
                                let m = spec_map(f.tables, f.allocator, root, p, addr);
                                if m.result is Err {
                                    Made {
                                        tables: m.tables,
                                        allocator: spec_given_back(m.allocator, addr),
                                        table: None,
                                    }
                                } else if m.tables.contains_key(addr) {
                                    Made { tables: m.tables, allocator: m.allocator, table: None }
                                } else {
                                    Made {
                                        tables: m.tables.insert(addr, fresh_table(addr)),
                                        allocator: m.allocator,
                                        table: Some(addr),
                                    }
                                }
                            },
                        }
                    },
                }
            }
        },
    }
}

/// The table of level 4 that stands in the window where the processor walks
/// from the table at `level4_frame`: the one that the last entry of that
/// table points to.
pub open spec fn spec_window(tables: Tables, level4_frame: u64) -> Option<u64> {
    spec_child(tables, level4_frame, RECURSIVE_INDEX as int)
}

/// The state in which the table at `inactive` stands in the window: a page
/// that was not mapped is mapped to the frame of the table that the
/// processor walks, and the last entry of the table in the window is
/// pointed to `inactive`.
#[verifier::opaque]
pub open spec fn spec_entered(tables: Tables, level4_frame: u64, allocator: BuddyView, inactive: u64) -> Outcome {
    match spec_window(tables, level4_frame) {
        None => Outcome { tables, allocator, result: Err(Error::NoEntry) },
        Some(root) => {
            let f = spec_find_empty_pages(tables, allocator, root, 1);
            match f.page {
                None => Outcome { tables: f.tables, allocator: f.allocator, result: Err(Error::NoEntry) },
                Some(p) => {
                    let m = spec_map(f.tables, f.allocator, root, p, level4_frame);
                    if m.result is Err {
                        m
                    } else {
                        Outcome {
                            tables: spec_retarget(m.tables, root, inactive),
                            allocator: m.allocator,
                            result: Ok(()),
                        }
                    }
                },
            }
        },
    }
}

impl ActivePageTable {
    /// The state after `InActivePageTable::new`.
    pub open spec fn made(&self, allocator: BuddyView) -> Made {
        spec_made(self.tables(), self.level4_frame(), allocator)
    }
}

impl InActivePageTable {
    /// The address of the frame of the level 4 table.
    pub open spec fn spec_address(&self) -> u64 {
        (self.level4_page_table.number * SIZE) as u64
    }

    /// The last entry of the table points to the table's own frame, present
    /// and writable.
    pub open spec fn self_mapped_in(&self, tables: Tables) -> bool {
        let e = tables[self.spec_address()][RECURSIVE_INDEX as int];
        &&& tables.contains_key(self.spec_address())
        &&& e.is_present() && e.is_writable() && e.frame_addr() == self.spec_address()
    }

    /// A new table of level 4 that maps nothing but itself, in a frame from
    /// the allocator. The frame is reached through a page of the table that
    /// stands in the window, which stays mapped to it.
    pub fn new(active_page_table: &mut ActivePageTable, allocator: &mut BuddyAllocator) -> (r: Option<
        InActivePageTable,
    >)
        requires
            old(active_page_table).wf(),
            old(allocator).wf(),
        ensures
            final(active_page_table).wf(),
            final(allocator).wf(),
            final(active_page_table).level4_frame() == old(active_page_table).level4_frame(),
            final(active_page_table).tables() == old(active_page_table).made(old(allocator)@).tables,
            final(allocator)@ == old(active_page_table).made(old(allocator)@).allocator,
            r is Some <==> old(active_page_table).made(old(allocator)@).table is Some,
            old(allocator)@.first_nonempty(0) >= MAX_ORDER ==> r is None,
            r matches Some(t) ==> ({
                &&& Some(t.spec_address()) == old(active_page_table).made(old(allocator)@).table
                &&& t.level4_page_table.number <= crate::memory::frame::MAX_NUMBER
                &&& !old(active_page_table).tables().contains_key(t.spec_address())
                &&& final(active_page_table).tables()[t.spec_address()] == fresh_table(t.spec_address())
                &&& t.self_mapped_in(final(active_page_table).tables())
            }),
            present_kept(old(active_page_table).tables(), final(active_page_table).tables()),
            old(active_page_table).window() is Some ==> final(active_page_table).window() == old(active_page_table).window(),
            old(active_page_table).self_mapped() ==> final(active_page_table).self_mapped(),
            final(allocator)@.len() == old(allocator)@.len(),
            final(allocator)@.base == old(allocator)@.base,
    {
        let ghost before = *active_page_table;
        proof {
            reveal(spec_made);
            before.lemma_same();
            allocator@.lemma_first_nonempty(0);
            if allocator@.first_nonempty(0) < MAX_ORDER {
                allocator@.lemma_allocated(0);
                let from = allocator@.first_nonempty(0);
                assert(allocator@.frame_ok(allocator@.free_lists[from][0] as int));
            }
        }
        let frame = match allocator.allocate(0) {
            Some(f) => f,
            None => {
                return None;
            },
        };
        let address = frame.address();
        if active_page_table.memory.contains(address.0) {
            allocator.free(frame);
            return None;
        }
        let ghost taken = allocator@;
        proof {
            if let Some(root) = before.window() {
                lemma_find_empty_pages(before.tables(), taken, root, 1);
            }
        }
        let p = match active_page_table.find_empty_page(allocator) {
            Some(p) => p,
            None => {
                if allocator.is_allocated(&frame) {
                    allocator.free(frame);
                }
                return None;
            },
        };
        let ghost searched = *active_page_table;
        proof {
            lemma_map(
                searched.tables(),
                allocator@,
                before.window()->0,
                p.number as int,
                address.0,
            );
        }
        let mapped = active_page_table.map(p, frame, allocator);
        proof {
            lemma_present_kept_transitive(before.tables(), searched.tables(), active_page_table.tables());
            before.lemma_kept(active_page_table);
        }
        if mapped.is_err() {
            if allocator.is_allocated(&frame) {
                allocator.free(frame);
            }
            return None;
        }
        if active_page_table.memory.contains(address.0) {
            return None;
        }
        let ghost mapped_tables = active_page_table.tables();
        let table: Table<Level1> = Table { address: p.address(), frame: address.0, level: PhantomData };
        table.clear_all_entries(&mut active_page_table.memory);

        // The table maps itself.
        let mut entry = PageEntry(0);
        entry.set_frame_addr(address);
        entry.set_flags(PageEntryFlags::writable());
        let _ = active_page_table.memory.write(address.0, RECURSIVE_INDEX, entry);
        proof {
            active_page_table.memory.lemma_wf();
            lemma_entry_bits(0, address.0, 0);
            assert(active_page_table.tables() =~= mapped_tables.insert(address.0, fresh_table(address.0)));
            assert(present_kept(mapped_tables, active_page_table.tables()));
            lemma_present_kept_transitive(before.tables(), mapped_tables, active_page_table.tables());
            before.lemma_kept(active_page_table);
        }
        Some(InActivePageTable { level4_page_table: frame })
    }
}


/// The frame that the processor reaches for the virtual address of a table:
/// it walks from the level 4 table at `level4` through the entries that the
/// four indexes of the address select, each of which points to a table.
pub open spec fn spec_walk_to_table(tables: Tables, level4: u64, address: u64) -> Option<u64> {
    match spec_child(tables, level4, super::page_index::spec_level_index(address as int, 4)) {
        None => None,
        Some(t3) => match spec_child(tables, t3, super::page_index::spec_level_index(address as int, 3)) {
            None => None,
            Some(t2) => match spec_child(
                tables,
                t2,
                super::page_index::spec_level_index(address as int, 2),
            ) {
                None => None,
                Some(t1) => spec_child(tables, t1, super::page_index::spec_level_index(address as int, 1)),
            },
        },
    }
}

/// Where the last entry of the level 4 table points to a table whose last
/// entry points to that table itself, the processor finds that table at the
/// address `LEVEL4_PAGE_TABLE`: it stands in the window.
pub proof fn lemma_level4_in_window(tables: Tables, level4: u64, window: u64)
    requires
        spec_child(tables, level4, RECURSIVE_INDEX as int) == Some(window),
        spec_child(tables, window, RECURSIVE_INDEX as int) == Some(window),
    ensures
        spec_walk_to_table(tables, level4, LEVEL4_PAGE_TABLE) == Some(window),
{
    super::page_index::lemma_index_bits(LEVEL4_PAGE_TABLE);
    assert((0xffff_ffff_ffff_f000u64 >> 39) & 0o777 == 511 && (0xffff_ffff_ffff_f000u64 >> 30) & 0o777 == 511
        && (0xffff_ffff_ffff_f000u64 >> 21) & 0o777 == 511 && (0xffff_ffff_ffff_f000u64 >> 12) & 0o777
        == 511) by (bit_vector);
}

/// Where the processor finds a table at an address in the window, it finds
/// the table that an entry of that table points to at the address that
/// `next_level_table_address` computes: the tables of all levels stand in
/// the window, with no mapping but the one of the level 4 table to itself.
pub proof fn lemma_next_level_in_window(tables: Tables, level4: u64, window: u64, address: u64, index: u64)
    requires
        spec_child(tables, level4, RECURSIVE_INDEX as int) == Some(window),
        spec_child(tables, window, RECURSIVE_INDEX as int) == Some(window),
        address % 4096 == 0,
        index < 512,
        super::page_index::spec_level_index(address as int, 4) == 511,
        super::page_index::spec_level_index(address as int, 3) == 511,
        spec_walk_to_table(tables, level4, address) is Some,
        spec_child(tables, spec_walk_to_table(tables, level4, address)->0, index as int) is Some,
    ensures
        spec_walk_to_table(tables, level4, spec_next_level_address(address, index)) == spec_child(
            tables,
            spec_walk_to_table(tables, level4, address)->0,
            index as int,
        ),
        super::page_index::spec_level_index(spec_next_level_address(address, index) as int, 4) == 511,
        spec_next_level_address(address, index) % 4096 == 0,
{
    let next = spec_next_level_address(address, index);
    super::page_index::lemma_index_bits(address);
    super::page_index::lemma_index_bits(next);
    lemma_next_level_address(address, index);
}

} // verus!
