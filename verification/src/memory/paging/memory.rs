//! The frames that hold page tables, as the kernel knows them.
//!
//! The tables are built here as plain values, frame by frame, and walked as
//! the processor walks them; whoever brings the kernel up copies them into
//! the frames of the machine.

use super::entry::PageEntry;
use vstd::prelude::*;

verus! {

/// The number of entries of a table.
pub const MAX_ENTRY_COUNT: usize = 512;

/// The tables by the address of their frame.
pub type Tables = Map<u64, Seq<PageEntry>>;

/// Every table has its 512 entries.
pub open spec fn tables_wf(tables: Tables) -> bool {
    forall|a: u64| tables.contains_key(a) ==> (#[trigger] tables[a]).len() == MAX_ENTRY_COUNT
}

/// The entry at `index` of the table in the frame at `frame`, if that frame
/// is known to hold a table.
pub open spec fn spec_entry(tables: Tables, frame: u64, index: int) -> Option<PageEntry> {
    if tables.contains_key(frame) && 0 <= index < MAX_ENTRY_COUNT {
        Some(tables[frame][index])
    } else {
        None
    }
}

/// The frame of the table of the next level that the entry points to.
pub open spec fn spec_child(tables: Tables, frame: u64, index: int) -> Option<u64> {
    match spec_entry(tables, frame, index) {
        Some(e) => if e.points_to_table() {
            Some(e.frame_addr())
        } else {
            None
        },
        None => None,
    }
}

/// The index into the table of the given level, 1 to 4, that a page
/// selects.
pub open spec fn spec_page_index(page: int, level: int) -> int {
    if level == 4 {
        (page / 0x800_0000) % 512
    } else if level == 3 {
        (page / 0x4_0000) % 512
    } else if level == 2 {
        (page / 0x200) % 512
    } else {
        page % 512
    }
}

/// The frame of the level 1 table that the walk for the page from the
/// level 4 table at `root` arrives at.
pub open spec fn spec_level1(tables: Tables, root: u64, page: int) -> Option<u64> {
    match spec_child(tables, root, spec_page_index(page, 4)) {
        None => None,
        Some(t3) => match spec_child(tables, t3, spec_page_index(page, 3)) {
            None => None,
            Some(t2) => spec_child(tables, t2, spec_page_index(page, 2)),
        },
    }
}

/// The address of the frame that the page is mapped to, as the walk from
/// the level 4 table at `root` finds it.
pub open spec fn spec_resolve(tables: Tables, root: u64, page: int) -> Option<u64> {
    match spec_level1(tables, root, page) {
        None => None,
        Some(t1) => match spec_entry(tables, t1, spec_page_index(page, 1)) {
            Some(e) => if e.is_present() {
                Some(e.frame_addr())
            } else {
                None
            },
            None => None,
        },
    }
}

/// Every table of `before` is in `after`, and every entry that is present in
/// `before` is the same in `after`.
pub open spec fn present_kept(before: Tables, after: Tables) -> bool {
    &&& forall|a: u64| before.contains_key(a) ==> #[trigger] after.contains_key(a)
    &&& forall|a: u64, i: int|
        before.contains_key(a) && 0 <= i < MAX_ENTRY_COUNT && (#[trigger] before[a][i]).is_present()
            ==> after[a][i] == before[a][i]
}

/// What is kept over one step and over the next is kept over both.
pub proof fn lemma_present_kept_transitive(a: Tables, b: Tables, c: Tables)
    requires
        present_kept(a, b),
        present_kept(b, c),
    ensures
        present_kept(a, c),
{
    assert forall|x: u64| a.contains_key(x) implies #[trigger] c.contains_key(x) by {
        assert(b.contains_key(x));
    }
    assert forall|x: u64, i: int|
        a.contains_key(x) && 0 <= i < MAX_ENTRY_COUNT && (#[trigger] a[x][i]).is_present() implies c[x][i]
        == a[x][i] by {
        assert(b.contains_key(x));
        assert(b[x][i] == a[x][i]);
        assert(b[x][i].is_present());
    }
}

/// Every table of `before` is in `after`, and every entry that is present in
/// `before` is present in `after` and points to the same frame in the same
/// way: the address and the flag of the large page are the same.
pub open spec fn walks_kept(before: Tables, after: Tables) -> bool {
    &&& forall|a: u64| before.contains_key(a) ==> #[trigger] after.contains_key(a)
    &&& forall|a: u64, i: int|
        before.contains_key(a) && 0 <= i < MAX_ENTRY_COUNT && (#[trigger] before[a][i]).is_present()
            ==> after[a][i].is_present() && after[a][i].frame_addr() == before[a][i].frame_addr()
            && after[a][i].is_huge() == before[a][i].is_huge()
}

/// Where the walks are kept, what a walk found it finds again.
pub proof fn lemma_walks_kept_walk(before: Tables, after: Tables, root: u64, page: int)
    requires
        walks_kept(before, after),
    ensures
        spec_resolve(before, root, page) is Some ==> spec_resolve(after, root, page) == spec_resolve(
            before,
            root,
            page,
        ),
{
    assert forall|frame: u64, index: int| (#[trigger] spec_child(before, frame, index)) is Some implies spec_child(
        after,
        frame,
        index,
    ) == spec_child(before, frame, index) by {
        assert(before[frame][index].is_present());
    }
    if spec_resolve(before, root, page) is Some {
        let t3 = spec_child(before, root, spec_page_index(page, 4))->0;
        let t2 = spec_child(before, t3, spec_page_index(page, 3))->0;
        let t1 = spec_child(before, t2, spec_page_index(page, 2))->0;
        assert(spec_child(after, root, spec_page_index(page, 4)) == Some(t3));
        assert(spec_child(after, t3, spec_page_index(page, 3)) == Some(t2));
        assert(spec_child(after, t2, spec_page_index(page, 2)) == Some(t1));
        assert(before[t1][spec_page_index(page, 1)].is_present());
    }
}

/// Where the present entries are kept, what a walk found it finds again.
pub proof fn lemma_present_kept_walk(before: Tables, after: Tables, root: u64, page: int)
    requires
        present_kept(before, after),
    ensures
        forall|frame: u64, index: int|
            (#[trigger] spec_child(before, frame, index)) is Some ==> spec_child(after, frame, index)
                == spec_child(before, frame, index),
        spec_level1(before, root, page) is Some ==> spec_level1(after, root, page) == spec_level1(
            before,
            root,
            page,
        ),
        spec_resolve(before, root, page) is Some ==> spec_resolve(after, root, page) == spec_resolve(
            before,
            root,
            page,
        ),
{
    assert forall|frame: u64, index: int| (#[trigger] spec_child(before, frame, index)) is Some implies spec_child(
        after,
        frame,
        index,
    ) == spec_child(before, frame, index) by {
        assert(before[frame][index].is_present());
    }
    if spec_level1(before, root, page) is Some {
        let t3 = spec_child(before, root, spec_page_index(page, 4))->0;
        let t2 = spec_child(before, t3, spec_page_index(page, 3))->0;
        let t1 = spec_child(before, t2, spec_page_index(page, 2))->0;
        assert(spec_child(after, root, spec_page_index(page, 4)) == Some(t3));
        assert(spec_child(after, t3, spec_page_index(page, 3)) == Some(t2));
        assert(spec_child(after, t2, spec_page_index(page, 2)) == Some(t1));
        if spec_resolve(before, root, page) is Some {
            assert(before[t1][spec_page_index(page, 1)].is_present());
        }
    }
}

/// One frame that holds a table.
pub struct TableFrame {
    pub address: u64,
    pub entries: Vec<PageEntry>,
}

/// The frames that are known to hold tables.
pub struct PhysicalMemory {
    frames: Vec<TableFrame>,
}

impl View for PhysicalMemory {
    type V = Tables;

    closed spec fn view(&self) -> Tables {
        Map::new(
            |a: u64| exists|i: int| 0 <= i < self.frames@.len() && (#[trigger] self.frames@[i]).address == a,
            |a: u64|
                self.frames@[choose|i: int|
                    0 <= i < self.frames@.len() && (#[trigger] self.frames@[i]).address == a].entries@,
        )
    }
}

impl PhysicalMemory {
    /// No address stands twice, and every table has its 512 entries.
    pub closed spec fn wf(&self) -> bool {
        &&& forall|i: int, j: int|
            0 <= i < self.frames@.len() && 0 <= j < self.frames@.len() && i != j ==> (
            #[trigger] self.frames@[i]).address != (#[trigger] self.frames@[j]).address
        &&& forall|i: int|
            0 <= i < self.frames@.len() ==> (#[trigger] self.frames@[i]).entries@.len() == MAX_ENTRY_COUNT
    }

    /// The view of a sound memory is sound.
    pub proof fn lemma_wf(&self)
        requires
            self.wf(),
        ensures
            tables_wf(self@),
    {
        assert forall|a: u64| self@.contains_key(a) implies (#[trigger] self@[a]).len() == MAX_ENTRY_COUNT by {
            let i = choose|i: int| 0 <= i < self.frames@.len() && (#[trigger] self.frames@[i]).address == a;
            assert(self.frames@[i].entries@.len() == MAX_ENTRY_COUNT);
        }
    }

    proof fn lemma_at(&self, i: int)
        requires
            self.wf(),
            0 <= i < self.frames@.len(),
        ensures
            self@.contains_key(self.frames@[i].address),
            self@[self.frames@[i].address] == self.frames@[i].entries@,
    {
        let a = self.frames@[i].address;
        let j = choose|j: int| 0 <= j < self.frames@.len() && (#[trigger] self.frames@[j]).address == a;
        assert(i == j);
    }

    /// A memory without tables: no frame is known to hold one.
    pub fn new() -> (r: PhysicalMemory)
        ensures
            r.wf(),
            r@ == Map::<u64, Seq<PageEntry>>::empty(),
            r.spec_frame_count() == 0,
    {
        let r = PhysicalMemory { frames: Vec::new() };
        proof {
            assert(r@ =~= Map::<u64, Seq<PageEntry>>::empty());
        }
        r
    }

    /// The position of the frame at `address`.
    fn position(&self, address: u64) -> (r: Option<usize>)
        requires
            self.wf(),
        ensures
            r matches Some(i) ==> i < self.frames@.len() && self.frames@[i as int].address == address
                && self@.contains_key(address) && self@[address] == self.frames@[i as int].entries@,
            r is None ==> !self@.contains_key(address),
    {
        let mut i: usize = 0;
        while i < self.frames.len()
            invariant
                self.wf(),
                i <= self.frames@.len(),
                forall|k: int| 0 <= k < i ==> (#[trigger] self.frames@[k]).address != address,
            decreases self.frames@.len() - i,
        {
            if self.frames[i].address == address {
                proof {
                    self.lemma_at(i as int);
                }
                return Some(i);
            }
            i += 1;
        }
        None
    }

    /// Whether the frame at `address` is known to hold a table.
    pub fn contains(&self, address: u64) -> (r: bool)
        requires
            self.wf(),
        ensures
            r == self@.contains_key(address),
    {
        self.position(address).is_some()
    }

    /// The entry at `index` of the table in the frame at `address`.
    pub fn read(&self, address: u64, index: usize) -> (r: Option<PageEntry>)
        requires
            self.wf(),
        ensures
            r == spec_entry(self@, address, index as int),
    {
        if index >= MAX_ENTRY_COUNT {
            return None;
        }
        match self.position(address) {
            Some(i) => Some(self.frames[i].entries[index]),
            None => None,
        }
    }

    /// Puts `entry` at `index` of the table in the frame at `address`.
    /// Returns whether there is such an entry; nothing changes where there
    /// is none.
    pub fn write(&mut self, address: u64, index: usize, entry: PageEntry) -> (r: bool)
        requires
            old(self).wf(),
        ensures
            final(self).wf(),
            r == (old(self)@.contains_key(address) && index < MAX_ENTRY_COUNT),
            r ==> final(self)@ == old(self)@.insert(address, old(self)@[address].update(index as int, entry)),
            !r ==> final(self)@ == old(self)@,
            final(self).spec_frame_count() == old(self).spec_frame_count(),
    {
        if index >= MAX_ENTRY_COUNT {
            return false;
        }
        match self.position(address) {
            Some(i) => {
                self.frames[i].entries[index] = entry;
                proof {
                    let target = old(self)@.insert(address, old(self)@[address].update(index as int, entry));
                    assert forall|k: int| 0 <= k < self.frames@.len() implies (#[trigger] self.frames@[k]).address
                        == old(self).frames@[k].address by {}
                    assert(self.wf());
                    assert forall|a: u64| target.contains_key(a) <==> self@.contains_key(a) by {
                        if self@.contains_key(a) {
                            let k = choose|k: int|
                                0 <= k < self.frames@.len() && (#[trigger] self.frames@[k]).address == a;
                            assert(old(self).frames@[k].address == a);
                        }
                        if old(self)@.contains_key(a) {
                            let k = choose|k: int|
                                0 <= k < old(self).frames@.len() && (#[trigger] old(self).frames@[k]).address
                                    == a;
                            assert(self.frames@[k].address == a);
                        }
                    }
                    assert forall|a: u64| target.contains_key(a) implies #[trigger] target[a] == self@[a] by {
                        let k = choose|k: int|
                            0 <= k < self.frames@.len() && (#[trigger] self.frames@[k]).address == a;
                        self.lemma_at(k);
                        old(self).lemma_at(k);
                    }
                    assert(self@ =~= target);
                }
                true
            },
            None => false,
        }
    }

    /// Makes the frame at `address` hold the table `entries`, whatever it
    /// held before.
    pub fn install(&mut self, address: u64, entries: Vec<PageEntry>)
        requires
            old(self).wf(),
            entries@.len() == MAX_ENTRY_COUNT,
        ensures
            final(self).wf(),
            final(self)@ == old(self)@.insert(address, entries@),
            final(self).spec_frame_count() == old(self).spec_frame_count() + (if old(self)@.contains_key(
                address,
            ) {
                0nat
            } else {
                1nat
            }),
    {
        let ghost target = old(self)@.insert(address, entries@);
        match self.position(address) {
            Some(i) => {
                self.frames[i].entries = entries;
                proof {
                    assert forall|k: int| 0 <= k < self.frames@.len() implies (#[trigger] self.frames@[k]).address
                        == old(self).frames@[k].address by {}
                    assert(self.wf());
                    assert forall|a: u64| target.contains_key(a) <==> self@.contains_key(a) by {
                        if self@.contains_key(a) {
                            let k = choose|k: int|
                                0 <= k < self.frames@.len() && (#[trigger] self.frames@[k]).address == a;
                            assert(old(self).frames@[k].address == a);
                        }
                        if old(self)@.contains_key(a) {
                            let k = choose|k: int|
                                0 <= k < old(self).frames@.len() && (#[trigger] old(self).frames@[k]).address
                                    == a;
                            assert(self.frames@[k].address == a);
                        }
                    }
                    assert forall|a: u64| target.contains_key(a) implies #[trigger] target[a] == self@[a] by {
                        let k = choose|k: int|
                            0 <= k < self.frames@.len() && (#[trigger] self.frames@[k]).address == a;
                        self.lemma_at(k);
                        old(self).lemma_at(k);
                    }
                    assert(self@ =~= target);
                }
            },
            None => {
                self.frames.push(TableFrame { address, entries });
                proof {
                    let n = old(self).frames@.len() as int;
                    assert forall|k: int| 0 <= k < n implies (#[trigger] self.frames@[k]) == old(self).frames@[k] by {}
                    assert(self.frames@[n].address == address);
                    assert forall|i: int, j: int|
                        0 <= i < self.frames@.len() && 0 <= j < self.frames@.len() && i != j implies (
                    #[trigger] self.frames@[i]).address != (#[trigger] self.frames@[j]).address by {
                        if i < n && j == n {
                            assert(old(self).frames@[i].address != address);
                        }
                        if j < n && i == n {
                            assert(old(self).frames@[j].address != address);
                        }
                    }
                    assert(self.wf());
                    assert forall|a: u64| target.contains_key(a) <==> self@.contains_key(a) by {
                        if self@.contains_key(a) && a != address {
                            let k = choose|k: int|
                                0 <= k < self.frames@.len() && (#[trigger] self.frames@[k]).address == a;
                            assert(old(self).frames@[k].address == a);
                        }
                        if old(self)@.contains_key(a) {
                            let k = choose|k: int|
                                0 <= k < old(self).frames@.len() && (#[trigger] old(self).frames@[k]).address
                                    == a;
                            assert(self.frames@[k].address == a);
                        }
                    }
                    assert forall|a: u64| target.contains_key(a) implies #[trigger] target[a] == self@[a] by {
                        let k = choose|k: int|
                            0 <= k < self.frames@.len() && (#[trigger] self.frames@[k]).address == a;
                        self.lemma_at(k);
                        if k < n {
                            old(self).lemma_at(k);
                        }
                    }
                    assert(self@ =~= target);
                }
            },
        }
    }

    /// The number of frames that hold tables.
    pub fn frame_count(&self) -> (r: usize)
        ensures
            r == self.spec_frame_count(),
    {
        self.frames.len()
    }

    /// The number of frames that hold tables: none in a new memory, and one
    /// more with each table that is put into a frame that held none.
    pub closed spec fn spec_frame_count(&self) -> nat {
        self.frames@.len()
    }

    /// The address of the `i`-th frame and the words of its table, for whoever
    /// copies the tables into the machine.
    pub fn frame_words(&self, i: usize) -> (r: (u64, Vec<u64>))
        requires
            self.wf(),
            i < self.spec_frame_count(),
        ensures
            self@.contains_key(r.0),
            r.1@.len() == MAX_ENTRY_COUNT,
            forall|k: int| 0 <= k < MAX_ENTRY_COUNT ==> #[trigger] r.1@[k] == self@[r.0][k].0,
    {
        proof {
            self.lemma_at(i as int);
        }
        let frame = &self.frames[i];
        let mut words: Vec<u64> = Vec::new();
        let mut k: usize = 0;
        while k < MAX_ENTRY_COUNT
            invariant
                k <= MAX_ENTRY_COUNT,
                frame.entries@.len() == MAX_ENTRY_COUNT,
                words@.len() == k,
                forall|j: int| 0 <= j < k ==> #[trigger] words@[j] == frame.entries@[j].0,
            decreases MAX_ENTRY_COUNT - k,
        {
            words.push(frame.entries[k].0);
            k += 1;
        }
        (frame.address, words)
    }
}

} // verus!
