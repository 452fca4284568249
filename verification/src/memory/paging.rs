//! Paging on x86_64, with these names:
//!     Frame              := a block of physical memory
//!     Page               := a block of virtual memory
//!     Level4 table/entry := PML4E, page map level 4 table/entry
//!     Level3 table/entry := PDPTE, page directory pointer table/entry
//!     Level2 table/entry := PDE, page directory table/entry
//!     Level1 table/entry := PTE, page table/entry
//!
//! With pages of 4 KiB a virtual address has five parts:
//!      9 bits of index into the level 4 table,
//!      9 bits of index into the level 3 table,
//!      9 bits of index into the level 2 table,
//!      9 bits of index into the level 1 table,
//!     12 bits of offset into the frame.
//!
//! An index has 9 bits, so a table has 512 entries; an entry has 8 bytes,
//! so a table fills one frame.

pub mod entry;
pub mod memory;
pub mod page;
pub mod page_index;
pub mod table;

pub use page::Page;
pub use page_index::PageIndex;

use super::address::{KernelLayout, PhysicalAddress, VirtualAddress};
use super::buddy_system::allocator::{BuddyAllocator, BuddyView, MAX_ORDER};
use super::frame::Frame;
use super::Error;
use memory::{present_kept, spec_child, spec_resolve, Tables};
use table::{
    lemma_map_brief, spec_map, spec_map_range, ActivePageTable, Error as PageTableError, InActivePageTable,
    Outcome, TableEdit, RECURSIVE_INDEX,
};
use vstd::prelude::*;

verus! {

/// A request to map `count` frames from the physical address on to the
/// pages that the kernel's offset gives them.
#[derive(Copy, Clone, Debug, PartialEq, Eq, Structural)]
pub struct IdenticalReMapRequest(pub PhysicalAddress, pub u64);

impl IdenticalReMapRequest {
    pub fn new(addr: PhysicalAddress, count: u64) -> (r: IdenticalReMapRequest)
        ensures
            r == IdenticalReMapRequest(addr, count),
    {
        IdenticalReMapRequest(addr, count)
    }

    /// The frames of the request have addresses of at most 52 bits.
    pub open spec fn in_range(self) -> bool {
        self.0@ + self.1 * 4096 <= 0x10_0000_0000_0000
    }

    /// The number of the page that the `i`-th frame of the request is mapped
    /// to.
    pub open spec fn spec_page(self, offset: u64, i: int) -> int {
        super::address::spec_wrapping_sum(self.0@ + i * 4096, offset as int) / 4096
    }

    /// The address of the `i`-th frame of the request.
    pub open spec fn spec_frame(self, i: int) -> u64 {
        (((self.0@ + i * 4096) / 4096) * 4096) as u64
    }

    /// Every frame of the request is mapped to its page, walking from the
    /// table at `root`.
    pub open spec fn mapped_in(self, tables: Tables, root: u64, offset: u64) -> bool {
        forall|i: int|
            0 <= i < self.1 ==> #[trigger] spec_resolve(tables, root, self.spec_page(offset, i)) == Some(
                self.spec_frame(i),
            )
    }

    /// The state after the frames of the request from the `i`-th on were
    /// mapped one after the other, walking from the table at `root`; the
    /// first failure ends it.
    pub open spec fn spec_remap_from(
        self,
        tables: Tables,
        allocator: BuddyView,
        root: u64,
        offset: u64,
        i: int,
    ) -> Outcome
        decreases self.1 - i,
    {
        if i >= self.1 {
            Outcome { tables, allocator, result: Ok(()) }
        } else {
            let o = spec_map(tables, allocator, root, self.spec_page(offset, i), self.spec_frame(i));
            if o.result is Err {
                o
            } else {
                self.spec_remap_from(o.tables, o.allocator, root, offset, i + 1)
            }
        }
    }

    /// The state after `remap`, where `root` is the table in the window.
    pub open spec fn remapped(self, tables: Tables, allocator: BuddyView, root: Option<u64>, offset: u64) -> Outcome {
        if !self.in_range() {
            Outcome { tables, allocator, result: Err(PageTableError::NoPageTable) }
        } else {
            match root {
                None => Outcome {
                    tables,
                    allocator,
                    result: if self.1 > 0 {
                        Err(PageTableError::NoPageTable)
                    } else {
                        Ok(())
                    },
                },
                Some(root) => self.spec_remap_from(tables, allocator, root, offset, 0),
            }
        }
    }

    /// The page and the frame of the `i`-th frame of the request.
    fn page_and_frame(&self, i: u64, layout: &KernelLayout) -> (r: (Page, Frame))
        requires
            self.in_range(),
            i < self.1,
        ensures
            r.0.number == self.spec_page(layout.virtual_offset, i as int),
            r.0.number <= page::MAX_NUMBER,
            r.1.number * 4096 == self.spec_frame(i as int),
            r.1.number <= super::frame::MAX_NUMBER,
    {
        let addr = PhysicalAddress(self.0.0 + i * super::frame::SIZE);
        (Page::from_address(addr.to_virtual(layout)), Frame::from_address(addr))
    }

    /// Maps the frames of the request in the table that stands in the
    /// window, one after the other; the first failure ends it. A request
    /// out of range is not served.
    pub fn remap(&self, table: &mut ActivePageTable, allocator: &mut BuddyAllocator, layout: &KernelLayout) -> (r:
        Result<(), PageTableError>)
        requires
            old(table).wf(),
            old(allocator).wf(),
        ensures
            final(table).wf(),
            final(allocator).wf(),
            ({
                let o = self.remapped(
                    old(table).tables(),
                    old(allocator)@,
                    old(table).window(),
                    layout.virtual_offset,
                );
                &&& final(table).tables() == o.tables
                &&& final(allocator)@ == o.allocator
                &&& r == o.result
            }),
            final(table).level4_frame() == old(table).level4_frame(),
            final(allocator)@.len() == old(allocator)@.len(),
            final(allocator)@.base == old(allocator)@.base,
            present_kept(old(table).tables(), final(table).tables()),
            final(table).window() == old(table).window(),
            r is Ok ==> self.in_range() && (self.1 > 0 ==> old(table).window() is Some),
            r is Ok && old(table).window() is Some ==> self.mapped_in(
                final(table).tables(),
                old(table).window()->0,
                layout.virtual_offset,
            ),
    {
        if self.0.0 > 0x10_0000_0000_0000 || self.1 > (0x10_0000_0000_0000 - self.0.0) / 4096 {
            proof {
                table.lemma_same();
            }
            return Err(PageTableError::NoPageTable);
        }
        let ghost before = *table;
        let ghost root = before.window();
        let ghost goal = self.remapped(before.tables(), allocator@, root, layout.virtual_offset);
        proof {
            table.lemma_same();
        }
        let mut i: u64 = 0;
        while i < self.1
            invariant
                table.wf(),
                allocator.wf(),
                before == *old(table),
                root == before.window(),
                i <= self.1,
                self.in_range(),
                goal == self.remapped(before.tables(), old(allocator)@, root, layout.virtual_offset),
                root is Some ==> goal == self.spec_remap_from(
                    table.tables(),
                    allocator@,
                    root->0,
                    layout.virtual_offset,
                    i as int,
                ),
                root is None ==> i == 0 && table.tables() == before.tables() && allocator@ == old(allocator)@,
                table.level4_frame() == before.level4_frame(),
                allocator@.len() == old(allocator)@.len(),
                allocator@.base == old(allocator)@.base,
                present_kept(before.tables(), table.tables()),
                table.window() == root,
                i > 0 ==> root is Some,
                root is Some ==> forall|k: int|
                    0 <= k < i ==> #[trigger] spec_resolve(
                        table.tables(),
                        root->0,
                        self.spec_page(layout.virtual_offset, k),
                    ) == Some(self.spec_frame(k)),
            decreases self.1 - i,
        {
            let (page, frame) = self.page_and_frame(i, layout);
            let ghost now = table.tables();
            let ghost now_allocator = allocator@;
            let mapped = table.map(page, frame, allocator);
            proof {
                memory::lemma_present_kept_transitive(before.tables(), now, table.tables());
                if root is Some {
                    let o = spec_map(
                        now,
                        now_allocator,
                        root->0,
                        self.spec_page(layout.virtual_offset, i as int),
                        self.spec_frame(i as int),
                    );
                    assert(table.tables() == o.tables && allocator@ == o.allocator && mapped == o.result);
                    assert(goal == (if o.result is Err {
                        o
                    } else {
                        self.spec_remap_from(o.tables, o.allocator, root->0, layout.virtual_offset, i + 1)
                    }));
                }
            }
            match mapped {
                Ok(()) => {},
                Err(e) => {
                    return Err(e);
                },
            }
            proof {
                assert forall|k: int| 0 <= k < i + 1 implies #[trigger] spec_resolve(
                    table.tables(),
                    root->0,
                    self.spec_page(layout.virtual_offset, k),
                ) == Some(self.spec_frame(k)) by {
                    if k < i {
                        memory::lemma_present_kept_walk(
                            now,
                            table.tables(),
                            root->0,
                            self.spec_page(layout.virtual_offset, k),
                        );
                    }
                }
            }
            i += 1;
        }
        Ok(())
    }
}

/// The edit that builds the kernel's table: the frames of the requests and
/// the frames of the kernel are mapped to the pages that the kernel's
/// offset gives them.
pub struct KernelRemap {
    pub requests: Vec<IdenticalReMapRequest>,
    pub layout: KernelLayout,
}

impl KernelRemap {
    /// The kernel is not empty, both of its ends are the start of a frame
    /// and are addresses of at most 52 bits, and its pages end within the
    /// machine word.
    pub open spec fn kernel_fits(layout: KernelLayout) -> bool {
        &&& layout.physical_begin@ < layout.physical_end@
        &&& layout.physical_end@ <= 0x10_0000_0000_0000
        &&& layout.physical_begin@ % 4096 == 0
        &&& layout.physical_end@ % 4096 == 0
        &&& layout.virtual_begin@ % 4096 == 0
        &&& layout.virtual_begin@ + (layout.physical_end@ - layout.physical_begin@) <= u64::MAX
    }

    /// Every frame of the kernel is mapped to its page, walking from the
    /// table at `root`.
    pub open spec fn kernel_mapped_in(layout: KernelLayout, tables: Tables, root: u64) -> bool {
        forall|k: int|
            0 <= k < (layout.physical_end@ - layout.physical_begin@) / 4096 ==> #[trigger] spec_resolve(
                tables,
                root,
                layout.virtual_begin@ / 4096 + k,
            ) == Some((layout.physical_begin@ + k * 4096) as u64)
    }
}

/// What was mapped for a request stays mapped where the present entries
/// are kept.
pub proof fn lemma_request_kept(request: IdenticalReMapRequest, before: Tables, after: Tables, root: u64, offset: u64)
    requires
        present_kept(before, after),
        request.mapped_in(before, root, offset),
    ensures
        request.mapped_in(after, root, offset),
{
    assert forall|i: int| 0 <= i < request.1 implies #[trigger] spec_resolve(
        after,
        root,
        request.spec_page(offset, i),
    ) == Some(request.spec_frame(i)) by {
        memory::lemma_present_kept_walk(before, after, root, request.spec_page(offset, i));
    }
}

impl KernelRemap {
    /// The state after the requests from the `j`-th on were served one
    /// after the other; the first failure ends it.
    pub open spec fn spec_requests_from(
        requests: Seq<IdenticalReMapRequest>,
        offset: u64,
        tables: Tables,
        allocator: BuddyView,
        root: Option<u64>,
        j: int,
    ) -> Outcome
        decreases requests.len() - j,
    {
        if j < 0 || j >= requests.len() {
            Outcome { tables, allocator, result: Ok(()) }
        } else {
            let o = requests[j].remapped(tables, allocator, root, offset);
            if o.result is Err {
                o
            } else {
                Self::spec_requests_from(requests, offset, o.tables, o.allocator, root, j + 1)
            }
        }
    }

    /// The state after the frames of the kernel were mapped.
    pub open spec fn spec_kernel(layout: KernelLayout, tables: Tables, allocator: BuddyView, root: Option<u64>) -> Outcome {
        let count = (layout.physical_end@ - layout.physical_begin@) / 4096;
        match root {
            None => Outcome {
                tables,
                allocator,
                result: if count > 0 {
                    Err(PageTableError::NoPageTable)
                } else {
                    Ok(())
                },
            },
            Some(root) => spec_map_range(
                tables,
                allocator,
                root,
                layout.virtual_begin@ / 4096,
                (layout.physical_begin@ / 4096) * 4096,
                count,
            ),
        }
    }

    /// The state after the edit: the requests are served, then the kernel
    /// is mapped; the first failure ends it. A kernel that does not fit
    /// fails before anything is mapped.
    #[verifier::opaque]
    pub open spec fn spec_apply(
        requests: Seq<IdenticalReMapRequest>,
        layout: KernelLayout,
        tables: Tables,
        allocator: BuddyView,
        root: Option<u64>,
    ) -> Outcome {
        if !Self::kernel_fits(layout) {
            Outcome { tables, allocator, result: Err(PageTableError::NoPageTable) }
        } else {
            let o = Self::spec_requests_from(requests, layout.virtual_offset, tables, allocator, root, 0);
            if o.result is Err {
                o
            } else {
                Self::spec_kernel(layout, o.tables, o.allocator, root)
            }
        }
    }

    /// Every request is served, walking from the table at `root`.
    pub open spec fn requests_mapped_in(&self, tables: Tables, root: u64, upto: int) -> bool {
        forall|j: int|
            0 <= j < upto ==> (#[trigger] self.requests@[j]).mapped_in(tables, root, self.layout.virtual_offset)
    }

    /// Maps the frames of the requests.
    fn remap_requests(&self, table: &mut ActivePageTable, allocator: &mut BuddyAllocator) -> (r: Result<
        (),
        PageTableError,
    >)
        requires
            old(table).wf(),
            old(allocator).wf(),
        ensures
            final(table).wf(),
            final(allocator).wf(),
            final(table).level4_frame() == old(table).level4_frame(),
            final(allocator)@.len() == old(allocator)@.len(),
            final(allocator)@.base == old(allocator)@.base,
            present_kept(old(table).tables(), final(table).tables()),
            final(table).window() == old(table).window(),
            r is Ok && old(table).window() is Some ==> self.requests_mapped_in(
                final(table).tables(),
                old(table).window()->0,
                self.requests@.len() as int,
            ),
            ({
                let o = Self::spec_requests_from(
                    self.requests@,
                    self.layout.virtual_offset,
                    old(table).tables(),
                    old(allocator)@,
                    old(table).window(),
                    0,
                );
                &&& final(table).tables() == o.tables
                &&& final(allocator)@ == o.allocator
                &&& r == o.result
            }),
    {
        let ghost before = *table;
        let ghost root = before.window();
        let ghost goal = Self::spec_requests_from(
            self.requests@,
            self.layout.virtual_offset,
            before.tables(),
            allocator@,
            root,
            0,
        );
        proof {
            table.lemma_same();
        }
        let mut j: usize = 0;
        while j < self.requests.len()
            invariant
                table.wf(),
                allocator.wf(),
                before == *old(table),
                root == before.window(),
                j <= self.requests@.len(),
                table.level4_frame() == before.level4_frame(),
                allocator@.len() == old(allocator)@.len(),
                allocator@.base == old(allocator)@.base,
                present_kept(before.tables(), table.tables()),
                table.window() == root,
                root is Some ==> self.requests_mapped_in(table.tables(), root->0, j as int),
                goal == Self::spec_requests_from(
                    self.requests@,
                    self.layout.virtual_offset,
                    before.tables(),
                    old(allocator)@,
                    root,
                    0,
                ),
                goal == Self::spec_requests_from(
                    self.requests@,
                    self.layout.virtual_offset,
                    table.tables(),
                    allocator@,
                    root,
                    j as int,
                ),
            decreases self.requests@.len() - j,
        {
            let ghost now = table.tables();
            let ghost now_allocator = allocator@;
            let served = self.requests[j].remap(table, allocator, &self.layout);
            proof {
                memory::lemma_present_kept_transitive(before.tables(), now, table.tables());
                let o = self.requests@[j as int].remapped(now, now_allocator, root, self.layout.virtual_offset);
                assert(goal == (if o.result is Err {
                    o
                } else {
                    Self::spec_requests_from(
                        self.requests@,
                        self.layout.virtual_offset,
                        o.tables,
                        o.allocator,
                        root,
                        j + 1,
                    )
                }));
            }
            match served {
                Ok(()) => {},
                Err(e) => {
                    return Err(e);
                },
            }
            proof {
                if root is Some {
                    assert forall|k: int| 0 <= k < j + 1 implies (#[trigger] self.requests@[k]).mapped_in(
                        table.tables(),
                        root->0,
                        self.layout.virtual_offset,
                    ) by {
                        if k < j {
                            lemma_request_kept(
                                self.requests@[k],
                                now,
                                table.tables(),
                                root->0,
                                self.layout.virtual_offset,
                            );
                        }
                    }
                }
            }
            j += 1;
        }
        Ok(())
    }

    /// Maps the frames of the kernel.
    fn remap_kernel(&self, table: &mut ActivePageTable, allocator: &mut BuddyAllocator) -> (r: Result<
        (),
        PageTableError,
    >)
        requires
            old(table).wf(),
            old(allocator).wf(),
            Self::kernel_fits(self.layout),
        ensures
            final(table).wf(),
            final(allocator).wf(),
            final(table).level4_frame() == old(table).level4_frame(),
            final(allocator)@.len() == old(allocator)@.len(),
            final(allocator)@.base == old(allocator)@.base,
            present_kept(old(table).tables(), final(table).tables()),
            final(table).window() == old(table).window(),
            r is Ok ==> old(table).window() is Some && Self::kernel_mapped_in(
                self.layout,
                final(table).tables(),
                old(table).window()->0,
            ),
            ({
                let o = Self::spec_kernel(self.layout, old(table).tables(), old(allocator)@, old(table).window());
                &&& final(table).tables() == o.tables
                &&& final(allocator)@ == o.allocator
                &&& r == o.result
            }),
    {
        let p_begin = self.layout.physical_begin;
        let p_end = self.layout.physical_end;
        let v_begin = self.layout.virtual_begin;
        let v_range = (v_begin, VirtualAddress(v_begin.0 + (p_end.0 - p_begin.0)));
        let r = table.map_fitting(v_range, (p_begin, p_end), allocator);
        proof {
            if r is Ok {
                assert(old(table).window() is Some) by {
                    assert((p_end.0 - p_begin.0) / 4096 > 0);
                }
                Self::lemma_kernel_mapped(self.layout, *table);
            }
        }
        r
    }

    /// The pages that the table resolves one by one are the kernel's.
    proof fn lemma_kernel_mapped(layout: KernelLayout, table: ActivePageTable)
        requires
            Self::kernel_fits(layout),
            table.window() is Some,
            forall|k: int|
                0 <= k < (layout.physical_end@ - layout.physical_begin@) / 4096 ==> #[trigger] table.resolve(
                    Page { number: (layout.virtual_begin@ / 4096 + k) as u64 },
                ) == Some(((layout.physical_begin@ / 4096 + k) * 4096) as u64),
        ensures
            Self::kernel_mapped_in(layout, table.tables(), table.window()->0),
    {
        let root = table.window()->0;
        assert forall|k: int|
            0 <= k < (layout.physical_end@ - layout.physical_begin@) / 4096 implies #[trigger] spec_resolve(
            table.tables(),
            root,
            layout.virtual_begin@ / 4096 + k,
        ) == Some((layout.physical_begin@ + k * 4096) as u64) by {
            let page = Page { number: (layout.virtual_begin@ / 4096 + k) as u64 };
            assert(table.resolve(page) == Some(((layout.physical_begin@ / 4096 + k) * 4096) as u64));
            assert(page.number == layout.virtual_begin@ / 4096 + k);
            assert((layout.physical_begin@ / 4096 + k) * 4096 == layout.physical_begin@ + k * 4096);
        }
    }
}

impl TableEdit for KernelRemap {
    open spec fn applies(
        &self,
        level4_frame: u64,
        before: (Tables, BuddyView),
        after: (Tables, BuddyView),
        result: Result<(), PageTableError>,
    ) -> bool {
        &&& ({
            let o = Self::spec_apply(
                self.requests@,
                self.layout,
                before.0,
                before.1,
                spec_child(before.0, level4_frame, RECURSIVE_INDEX as int),
            );
            &&& after.0 == o.tables
            &&& after.1 == o.allocator
            &&& result == o.result
        })
        &&& present_kept(before.0, after.0)
        &&& result is Ok ==> Self::kernel_fits(self.layout) && spec_child(
            before.0,
            level4_frame,
            RECURSIVE_INDEX as int,
        ) is Some && ({
            let root = spec_child(before.0, level4_frame, RECURSIVE_INDEX as int)->0;
            &&& Self::kernel_mapped_in(self.layout, after.0, root)
            &&& self.requests_mapped_in(after.0, root, self.requests@.len() as int)
        })
    }

    /// Maps the frames of the requests and then those of the kernel. A
    /// kernel that does not fit is not mapped.
    fn apply(&self, table: &mut ActivePageTable, allocator: &mut BuddyAllocator) -> (r: Result<
        (),
        PageTableError,
    >) {
        let ghost before = table.tables();
        let ghost root = table.window();
        proof {
            table.lemma_same();
            reveal(KernelRemap::spec_apply);
        }
        let p_begin = self.layout.physical_begin;
        let p_end = self.layout.physical_end;
        let v_begin = self.layout.virtual_begin;
        if !(p_begin.0 < p_end.0 && p_end.0 <= 0x10_0000_0000_0000 && p_begin.0 % 4096 == 0 && p_end.0
            % 4096 == 0 && v_begin.0 % 4096 == 0 && p_end.0
            - p_begin.0 <= u64::MAX - v_begin.0) {
            return Err(PageTableError::NoPageTable);
        }
        match self.remap_requests(table, allocator) {
            Ok(()) => {},
            Err(e) => {
                return Err(e);
            },
        }
        let ghost served = table.tables();
        let r = self.remap_kernel(table, allocator);
        proof {
            memory::lemma_present_kept_transitive(before, served, table.tables());
            if r is Ok {
                assert forall|j: int| 0 <= j < self.requests@.len() implies (#[trigger] self.requests@[j]).mapped_in(
                    table.tables(),
                    root->0,
                    self.layout.virtual_offset,
                ) by {
                    lemma_request_kept(
                        self.requests@[j],
                        served,
                        table.tables(),
                        root->0,
                        self.layout.virtual_offset,
                    );
                }
            }
        }
        r
    }
}

/// The page that the test of the tables at bring-up maps and unmaps.
pub const RUNTIME_TEST_ADDRESS: u64 = 0x200000;

/// The tables and the allocator after a step of bring-up, and what the step
/// gave.
pub struct Stage<R> {
    pub tables: Tables,
    pub allocator: BuddyView,
    pub result: R,
}

/// The state after `runtime_test`, where the processor walks from the table
/// at `level4_frame`: the allocator hands a frame out, the page at
/// `RUNTIME_TEST_ADDRESS` is mapped to it in the table that stands in the
/// window, and unmapped again.
pub open spec fn spec_runtime_test(tables: Tables, level4_frame: u64, allocator: BuddyView) -> Stage<
    Result<(), Error>,
> {
    match table::spec_next_frame(allocator) {
        None => Stage { tables, allocator, result: Err(Error::NoUsableMemory) },
        Some(addr) => {
            let taken = table::spec_after_alloc(allocator);
            match table::spec_window(tables, level4_frame) {
                None => Stage {
                    tables,
                    allocator: taken,
                    result: Err(Error::PageTable { inner: PageTableError::NoPageTable }),
                },
                Some(root) => {
                    let m = spec_map(tables, taken, root, RUNTIME_TEST_ADDRESS as int / 4096, addr);
                    match m.result {
                        Err(inner) => Stage {
                            tables: m.tables,
                            allocator: m.allocator,
                            result: Err(Error::PageTable { inner }),
                        },
                        Ok(_) => {
                            let u = table::spec_unmap(m.tables, m.allocator, root, RUNTIME_TEST_ADDRESS as int / 4096);
                            Stage { tables: u.tables, allocator: u.allocator, result: Ok(()) }
                        },
                    }
                },
            }
        },
    }
}

/// Tries the tables out: a frame from the allocator is mapped to the page
/// at `RUNTIME_TEST_ADDRESS` and unmapped again, which gives the frame
/// back. Between the two the caller may write to the page.
pub fn runtime_test(active_page_table: &mut ActivePageTable, allocator: &mut BuddyAllocator) -> (r: Result<
    (),
    Error,
>)
    requires
        old(active_page_table).wf(),
        old(allocator).wf(),
    ensures
        final(active_page_table).wf(),
        final(allocator).wf(),
        final(active_page_table).level4_frame() == old(active_page_table).level4_frame(),
        final(allocator)@.len() == old(allocator)@.len(),
        final(allocator)@.base == old(allocator)@.base,
        ({
            let t = spec_runtime_test(
                old(active_page_table).tables(),
                old(active_page_table).level4_frame(),
                old(allocator)@,
            );
            &&& final(active_page_table).tables() == t.tables
            &&& final(allocator)@ == t.allocator
            &&& r == t.result
        }),
        old(allocator)@.first_nonempty(0) >= MAX_ORDER <==> r == Err::<(), Error>(Error::NoUsableMemory),
        r matches Err(Error::PageTable { inner }) ==> inner == PageTableError::NoPageTable || inner
            == PageTableError::AlreadyMapped,
        r is Ok ==> final(active_page_table).resolve(Page { number: 0x200 }) is None,
        old(active_page_table).window() is Some ==> final(active_page_table).window() == old(active_page_table).window(),
        old(active_page_table).self_mapped() ==> final(active_page_table).self_mapped(),
        forall|a: u64| old(active_page_table).tables().contains_key(a) ==> #[trigger] final(active_page_table).tables().contains_key(a),
{
    proof {
        allocator@.lemma_first_nonempty(0);
        active_page_table.lemma_same();
    }
    let frame = match allocator.allocate(0) {
        Some(f) => f,
        None => {
            return Err(Error::NoUsableMemory);
        },
    };
    let page = Page::from_address(VirtualAddress(RUNTIME_TEST_ADDRESS));
    let ghost before = *active_page_table;
    proof {
        if let Some(root) = before.window() {
            lemma_map_brief(
                before.tables(),
                allocator@,
                root,
                page.number as int,
                (frame.number * super::frame::SIZE) as u64,
            );
        }
    }
    match active_page_table.map(page, frame, allocator) {
        Ok(()) => {},
        Err(e) => {
            return Err(Error::from_page_table_error(e));
        },
    }
    let ghost mapped = *active_page_table;
    proof {
        table::lemma_unmap(mapped.tables(), allocator@, mapped.window()->0, page.number as int);
    }
    match active_page_table.unmap(page, allocator) {
        Ok(()) => {
            proof {
                let level4 = mapped.level4_frame();
                assert(mapped.tables().contains_key(level4));
                assert(active_page_table.tables()[level4][RECURSIVE_INDEX as int]
                    == mapped.tables()[level4][RECURSIVE_INDEX as int]);
            }
            Ok(())
        },
        Err(e) => Err(Error::from_page_table_error(e)),
    }
}


/// The walk for the page reads no last entry of a table below the level 4
/// table: none of its indexes into the tables of the levels 3, 2 and 1 is
/// the last.
pub open spec fn outside_recursion(page: int) -> bool {
    &&& memory::spec_page_index(page, 3) != RECURSIVE_INDEX
    &&& memory::spec_page_index(page, 2) != RECURSIVE_INDEX
    &&& memory::spec_page_index(page, 1) != RECURSIVE_INDEX
}

/// Pointing the last entry of the table at `frame` elsewhere changes no
/// walk from another table that stays outside the last entries.
pub proof fn lemma_retarget_keeps_walk(tables: Tables, frame: u64, target: u64, root: u64, page: int)
    requires
        memory::tables_wf(tables),
        tables.contains_key(frame),
        root != frame,
        outside_recursion(page),
    ensures
        spec_resolve(table::spec_retarget(tables, frame, target), root, page) == spec_resolve(tables, root, page),
{
    let after = table::spec_retarget(tables, frame, target);
    assert forall|a: u64, k: int|
        0 <= k < memory::MAX_ENTRY_COUNT && !(a == frame && k == RECURSIVE_INDEX) implies #[trigger] memory::spec_entry(
        after,
        a,
        k,
    ) == memory::spec_entry(tables, a, k) by {}
    let i4 = memory::spec_page_index(page, 4);
    let i3 = memory::spec_page_index(page, 3);
    let i2 = memory::spec_page_index(page, 2);
    let i1 = memory::spec_page_index(page, 1);
    assert(memory::spec_entry(after, root, i4) == memory::spec_entry(tables, root, i4));
    if let Some(t3) = spec_child(tables, root, i4) {
        assert(memory::spec_entry(after, t3, i3) == memory::spec_entry(tables, t3, i3));
        if let Some(t2) = spec_child(tables, t3, i3) {
            assert(memory::spec_entry(after, t2, i2) == memory::spec_entry(tables, t2, i2));
            if let Some(t1) = spec_child(tables, t2, i2) {
                assert(memory::spec_entry(after, t1, i1) == memory::spec_entry(tables, t1, i1));
            }
        }
    }
}

/// What the edit mapped in the new table is found there when the table
/// that the processor walked maps itself again.
pub proof fn lemma_kernel_table(
    edit: &KernelRemap,
    level4: u64,
    inactive: u64,
    entered: (Tables, BuddyView),
    after: (Tables, BuddyView),
    tables: Tables,
    edited: Result<(), PageTableError>,
)
    requires
        inactive != level4,
        spec_child(entered.0, level4, RECURSIVE_INDEX as int) == Some(inactive),
        edited is Ok,
        edit.applies(level4, entered, after, edited),
        after.0.contains_key(level4),
        memory::tables_wf(after.0),
        tables == table::spec_retarget(after.0, level4, level4),
    ensures
        forall|k: int|
            0 <= k < (edit.layout.physical_end@ - edit.layout.physical_begin@) / 4096 && outside_recursion(
                edit.layout.virtual_begin@ / 4096 + k,
            ) ==> #[trigger] spec_resolve(tables, inactive, edit.layout.virtual_begin@ / 4096 + k) == Some(
                (edit.layout.physical_begin@ + k * 4096) as u64,
            ),
        forall|j: int, i: int|
            0 <= j < edit.requests@.len() && 0 <= i < edit.requests@[j].1 && outside_recursion(
                edit.requests@[j].spec_page(edit.layout.virtual_offset, i),
            ) ==> #[trigger] spec_resolve(
                tables,
                inactive,
                edit.requests@[j].spec_page(edit.layout.virtual_offset, i),
            ) == Some(edit.requests@[j].spec_frame(i)),
{
    let layout = edit.layout;
    assert forall|k: int|
        0 <= k < (layout.physical_end@ - layout.physical_begin@) / 4096 && outside_recursion(
            layout.virtual_begin@ / 4096 + k,
        ) implies #[trigger] spec_resolve(tables, inactive, layout.virtual_begin@ / 4096 + k) == Some(
        (layout.physical_begin@ + k * 4096) as u64,
    ) by {
        lemma_retarget_keeps_walk(after.0, level4, level4, inactive, layout.virtual_begin@ / 4096 + k);
        assert(spec_resolve(after.0, inactive, layout.virtual_begin@ / 4096 + k) == Some(
            (layout.physical_begin@ + k * 4096) as u64,
        ));
    }
    assert forall|j: int, i: int|
        0 <= j < edit.requests@.len() && 0 <= i < edit.requests@[j].1 && outside_recursion(
            edit.requests@[j].spec_page(layout.virtual_offset, i),
        ) implies #[trigger] spec_resolve(
        tables,
        inactive,
        edit.requests@[j].spec_page(layout.virtual_offset, i),
    ) == Some(edit.requests@[j].spec_frame(i)) by {
        let request = edit.requests@[j];
        assert(request.mapped_in(after.0, inactive, layout.virtual_offset));
        lemma_retarget_keeps_walk(after.0, level4, level4, inactive, request.spec_page(layout.virtual_offset, i));
    }
}

/// What holds after the edit of the new table: the tables that were known
/// stay known, the new table maps itself, and what the edit mapped is found
/// in it.
pub proof fn lemma_after_with(
    made: &ActivePageTable,
    made_allocator: BuddyView,
    inactive: u64,
    edit: &KernelRemap,
    edited: Result<(), PageTableError>,
    after_table: &ActivePageTable,
    after_allocator: BuddyView,
)
    requires
        made.wf(),
        made_allocator.wf(),
        after_table.wf(),
        after_table.level4_frame() == made.level4_frame(),
        made.tables().contains_key(inactive),
        inactive != made.level4_frame(),
        entry::PageEntry::valid_frame_addr(inactive as int),
        ({
            let e = made.tables()[inactive][RECURSIVE_INDEX as int];
            e.is_present() && e.is_writable() && e.frame_addr() == inactive
        }),
        ({
            let entered = made.entered(made_allocator, inactive);
            &&& entered.result is Err ==> edited == entered.result && after_table.tables() == entered.tables
            &&& entered.result is Ok ==> exists|after: (Tables, BuddyView)|
                #![auto]
                edit.applies(made.level4_frame(), (entered.tables, entered.allocator), after, edited)
                    && memory::tables_wf(after.0) && after.0.contains_key(made.level4_frame())
                    && after_table.tables() == table::spec_retarget(
                    after.0,
                    made.level4_frame(),
                    made.level4_frame(),
                ) && after_allocator == after.1
        }),
    ensures
        forall|a: u64| made.tables().contains_key(a) ==> #[trigger] after_table.tables().contains_key(a),
        ({
            let level4 = made.level4_frame();
            let entered = made.entered(made_allocator, inactive);
            let o = KernelRemap::spec_apply(
                edit.requests@,
                edit.layout,
                entered.tables,
                entered.allocator,
                table::spec_window(entered.tables, level4),
            );
            entered.result is Ok ==> after_table.tables() == table::spec_retarget(o.tables, level4, level4)
                && after_allocator == o.allocator && edited == o.result
        }),
        ({
            let e = after_table.tables()[inactive][RECURSIVE_INDEX as int];
            e.is_present() && e.is_writable() && e.frame_addr() == inactive && (!made.tables()[inactive][RECURSIVE_INDEX as int].is_huge()
                ==> !e.is_huge())
        }),
        edited is Ok && made.window() == Some(made.level4_frame()) ==> ({
            let tables = after_table.tables();
            &&& forall|k: int|
                0 <= k < (edit.layout.physical_end@ - edit.layout.physical_begin@) / 4096
                    && outside_recursion(edit.layout.virtual_begin@ / 4096 + k) ==> #[trigger] spec_resolve(
                    tables,
                    inactive,
                    edit.layout.virtual_begin@ / 4096 + k,
                ) == Some((edit.layout.physical_begin@ + k * 4096) as u64)
            &&& forall|j: int, i: int|
                0 <= j < edit.requests@.len() && 0 <= i < edit.requests@[j].1 && outside_recursion(
                    edit.requests@[j].spec_page(edit.layout.virtual_offset, i),
                ) ==> #[trigger] spec_resolve(
                    tables,
                    inactive,
                    edit.requests@[j].spec_page(edit.layout.virtual_offset, i),
                ) == Some(edit.requests@[j].spec_frame(i))
        }),
{
    let level4 = made.level4_frame();
    lemma_entered(made, made_allocator, inactive);
    let entered = made.entered(made_allocator, inactive);
    if entered.result is Ok {
        let after = choose|after: (Tables, BuddyView)|
            #![auto]
            edit.applies(level4, (entered.tables, entered.allocator), after, edited) && memory::tables_wf(
                after.0,
            ) && after.0.contains_key(level4) && after_table.tables() == table::spec_retarget(
                after.0,
                level4,
                level4,
            ) && after_allocator == after.1;
        assert(entered.tables.contains_key(inactive));
        assert(after.0.contains_key(inactive));
        assert(after.0[inactive][RECURSIVE_INDEX as int] == entered.tables[inactive][RECURSIVE_INDEX as int]);
        assert(entered.tables.contains_key(level4));
        assert(after.0.contains_key(level4));
        assert forall|a: u64| made.tables().contains_key(a) implies #[trigger] after_table.tables().contains_key(
            a,
        ) by {
            assert(entered.tables.contains_key(a));
            assert(after.0.contains_key(a));
        }
        if edited is Ok && made.window() == Some(level4) {
            lemma_kernel_table(
                edit,
                level4,
                inactive,
                (entered.tables, entered.allocator),
                after,
                after_table.tables(),
                edited,
            );
        }
    }
}

/// The frames of the kernel and of the requests are mapped to their pages,
/// walking from the table at `root`, as far as the walks stay outside the
/// last entries.
pub open spec fn kernel_reachable(
    layout: KernelLayout,
    requests: Seq<IdenticalReMapRequest>,
    tables: Tables,
    root: u64,
) -> bool {
    &&& forall|k: int|
        0 <= k < (layout.physical_end@ - layout.physical_begin@) / 4096 && outside_recursion(
            layout.virtual_begin@ / 4096 + k,
        ) ==> #[trigger] spec_resolve(tables, root, layout.virtual_begin@ / 4096 + k) == Some(
            (layout.physical_begin@ + k * 4096) as u64,
        )
    &&& forall|j: int, i: int|
        0 <= j < requests.len() && 0 <= i < requests[j].1 && outside_recursion(
            requests[j].spec_page(layout.virtual_offset, i),
        ) ==> #[trigger] spec_resolve(tables, root, requests[j].spec_page(layout.virtual_offset, i))
            == Some(requests[j].spec_frame(i))
}

/// The state after `make_kernel_table`, where the processor walks from the
/// table at `level4_frame`: a table is made, it is entered, the edit maps
/// the requests and the kernel in it, and the table that the processor
/// walks maps itself again. The result is the address of the new table.
pub open spec fn spec_make_kernel_table(
    requests: Seq<IdenticalReMapRequest>,
    layout: KernelLayout,
    tables: Tables,
    level4_frame: u64,
    allocator: BuddyView,
) -> Stage<Result<u64, Error>> {
    let n = table::spec_made(tables, level4_frame, allocator);
    match n.table {
        None => Stage { tables: n.tables, allocator: n.allocator, result: Err(Error::NoUsableMemory) },
        Some(inactive) => {
            let e = table::spec_entered(n.tables, level4_frame, n.allocator, inactive);
            match e.result {
                Err(inner) => Stage {
                    tables: e.tables,
                    allocator: e.allocator,
                    result: Err(Error::PageTable { inner }),
                },
                Ok(_) => {
                    let o = KernelRemap::spec_apply(
                        requests,
                        layout,
                        e.tables,
                        e.allocator,
                        table::spec_window(e.tables, level4_frame),
                    );
                    Stage {
                        tables: table::spec_retarget(o.tables, level4_frame, level4_frame),
                        allocator: o.allocator,
                        result: match o.result {
                            Ok(_) => Ok(inactive),
                            Err(inner) => Err(Error::PageTable { inner }),
                        },
                    }
                },
            }
        },
    }
}

/// The state after `init`, and the table that the processor walks then.
pub struct Brought {
    pub tables: Tables,
    pub allocator: BuddyView,
    pub level4_frame: u64,
    pub result: Result<(), Error>,
}

/// The state after `init`, where the processor walks from the table at
/// `level4_frame`: the tables are tried out, the kernel's table is made,
/// and the processor walks it. After a failure the processor walks the old
/// table still.
pub open spec fn spec_init(
    requests: Seq<IdenticalReMapRequest>,
    layout: KernelLayout,
    tables: Tables,
    level4_frame: u64,
    allocator: BuddyView,
) -> Brought {
    let t = spec_runtime_test(tables, level4_frame, allocator);
    if t.result is Err {
        Brought { tables: t.tables, allocator: t.allocator, level4_frame, result: t.result }
    } else {
        let m = spec_make_kernel_table(requests, layout, t.tables, level4_frame, t.allocator);
        match m.result {
            Err(e) => Brought { tables: m.tables, allocator: m.allocator, level4_frame, result: Err(e) },
            Ok(inactive) => Brought {
                tables: m.tables,
                allocator: m.allocator,
                level4_frame: inactive,
                result: Ok(()),
            },
        }
    }
}

/// Makes the kernel's own table: a new table of level 4 in which the frames
/// of the requests and of the kernel are mapped to the pages that the
/// kernel's offset gives them. The table that the processor walks stays in
/// place.
pub fn make_kernel_table(
    remap_requests: Vec<IdenticalReMapRequest>,
    active_page_table: &mut ActivePageTable,
    bman: &mut BuddyAllocator,
    layout: &KernelLayout,
) -> (r: Result<InActivePageTable, Error>)
    requires
        old(active_page_table).wf(),
        old(bman).wf(),
    ensures
        final(active_page_table).wf(),
        final(bman).wf(),
        final(bman)@.len() == old(bman)@.len(),
        final(bman)@.base == old(bman)@.base,
        final(active_page_table).level4_frame() == old(active_page_table).level4_frame(),
        ({
            let m = spec_make_kernel_table(
                remap_requests@,
                *layout,
                old(active_page_table).tables(),
                old(active_page_table).level4_frame(),
                old(bman)@,
            );
            &&& final(active_page_table).tables() == m.tables
            &&& final(bman)@ == m.allocator
            &&& r matches Ok(t) ==> m.result == Ok::<u64, Error>(t.spec_address())
            &&& r matches Err(e) ==> m.result == Err::<u64, Error>(e)
        }),
        old(active_page_table).self_mapped() ==> final(active_page_table).self_mapped(),
        old(bman)@.first_nonempty(0) >= MAX_ORDER ==> r == Err::<InActivePageTable, Error>(
            Error::NoUsableMemory,
        ),
        forall|a: u64| old(active_page_table).tables().contains_key(a) ==> #[trigger] final(active_page_table).tables().contains_key(a),
        r matches Ok(t) ==> ({
            &&& t.level4_page_table.number <= super::frame::MAX_NUMBER
            &&& !old(active_page_table).tables().contains_key(t.spec_address())
            &&& t.self_mapped_in(final(active_page_table).tables())
            &&& !final(active_page_table).tables()[t.spec_address()][RECURSIVE_INDEX as int].is_huge()
            &&& KernelRemap::kernel_fits(*layout)
            &&& old(active_page_table).window() == Some(old(active_page_table).level4_frame())
                ==> kernel_reachable(
                *layout,
                remap_requests@,
                final(active_page_table).tables(),
                t.spec_address(),
            )
        }),
{
    let mut inactive_page_table = match InActivePageTable::new(active_page_table, bman) {
        Some(t) => t,
        None => {
            return Err(Error::NoUsableMemory);
        },
    };
    let ghost inactive = inactive_page_table.spec_address();
    let edit = KernelRemap { requests: remap_requests, layout: *layout };
    proof {
        let number = inactive_page_table.level4_page_table.number;
        assert(inactive == number * 4096);
        assert((number * 4096) % 4096 == 0);
        assert(number * 4096 < 0x10_0000_0000_0000);
        entry::lemma_entry_bits(0, inactive, 0);
        assert(!active_page_table.tables()[inactive][RECURSIVE_INDEX as int].is_huge());
    }
    match fill_kernel_table(&edit, &mut inactive_page_table, active_page_table, bman) {
        Ok(()) => Ok(inactive_page_table),
        Err(e) => Err(Error::from_page_table_error(e)),
    }
}

/// Lets the edit fill the new table, and says what holds of the tables
/// afterwards.
fn fill_kernel_table(
    edit: &KernelRemap,
    inactive_page_table: &mut InActivePageTable,
    active_page_table: &mut ActivePageTable,
    bman: &mut BuddyAllocator,
) -> (edited: Result<(), PageTableError>)
    requires
        old(active_page_table).wf(),
        old(bman).wf(),
        old(inactive_page_table).level4_page_table.number <= super::frame::MAX_NUMBER,
        old(inactive_page_table).spec_address() != old(active_page_table).level4_frame(),
        old(inactive_page_table).self_mapped_in(old(active_page_table).tables()),
    ensures
        final(active_page_table).wf(),
        final(bman).wf(),
        final(bman)@.len() == old(bman)@.len(),
        final(bman)@.base == old(bman)@.base,
        final(active_page_table).level4_frame() == old(active_page_table).level4_frame(),
        *final(inactive_page_table) == *old(inactive_page_table),
        old(active_page_table).self_mapped() ==> final(active_page_table).self_mapped(),
        forall|a: u64|
            old(active_page_table).tables().contains_key(a) ==> #[trigger] final(active_page_table).tables().contains_key(
                a,
            ),
        ({
            let inactive = old(inactive_page_table).spec_address();
            let level4 = old(active_page_table).level4_frame();
            let entered = table::spec_entered(old(active_page_table).tables(), level4, old(bman)@, inactive);
            let o = KernelRemap::spec_apply(
                edit.requests@,
                edit.layout,
                entered.tables,
                entered.allocator,
                table::spec_window(entered.tables, level4),
            );
            &&& entered.result is Err ==> edited == entered.result && final(active_page_table).tables()
                == entered.tables && final(bman)@ == entered.allocator
            &&& entered.result is Ok ==> final(active_page_table).tables() == table::spec_retarget(
                o.tables,
                level4,
                level4,
            ) && final(bman)@ == o.allocator && edited == o.result
        }),
        ({
            let inactive = old(inactive_page_table).spec_address();
            let e = final(active_page_table).tables()[inactive][RECURSIVE_INDEX as int];
            e.is_present() && e.is_writable() && e.frame_addr() == inactive && (!old(active_page_table).tables()[inactive][RECURSIVE_INDEX as int].is_huge()
                ==> !e.is_huge())
        }),
        edited is Ok ==> KernelRemap::kernel_fits(edit.layout),
        edited is Ok && old(active_page_table).window() == Some(old(active_page_table).level4_frame())
            ==> kernel_reachable(
            edit.layout,
            edit.requests@,
            final(active_page_table).tables(),
            old(inactive_page_table).spec_address(),
        ),
{
    let ghost made = *active_page_table;
    let ghost made_allocator = bman@;
    let ghost inactive = inactive_page_table.spec_address();
    proof {
        let number = inactive_page_table.level4_page_table.number;
        assert(inactive == number * 4096);
        assert((number * 4096) % 4096 == 0);
        assert(number * 4096 < 0x10_0000_0000_0000);
        entry::lemma_entry_bits(0, inactive, 0);
    }
    let edited = active_page_table.with(inactive_page_table, bman, edit);
    proof {
        lemma_after_with(&made, made_allocator, inactive, edit, edited, active_page_table, bman@);
    }
    edited
}

/// Builds the kernel's own table and makes the processor walk it: the
/// tables are tried out, the kernel's table is made, and it takes the place
/// of the old. After success the caller loads the register of the page
/// table base with the address of the new table. After a failure the
/// processor walks the old table still.
pub fn init(
    remap_requests: Vec<IdenticalReMapRequest>,
    active_page_table: &mut ActivePageTable,
    bman: &mut BuddyAllocator,
    layout: &KernelLayout,
) -> (r: Result<(), Error>)
    requires
        old(active_page_table).wf(),
        old(bman).wf(),
    ensures
        final(active_page_table).wf(),
        final(bman).wf(),
        final(bman)@.len() == old(bman)@.len(),
        final(bman)@.base == old(bman)@.base,
        ({
            let b = spec_init(
                remap_requests@,
                *layout,
                old(active_page_table).tables(),
                old(active_page_table).level4_frame(),
                old(bman)@,
            );
            &&& final(active_page_table).tables() == b.tables
            &&& final(bman)@ == b.allocator
            &&& final(active_page_table).level4_frame() == b.level4_frame
            &&& r == b.result
        }),
        old(bman)@.first_nonempty(0) >= MAX_ORDER ==> r == Err::<(), Error>(Error::NoUsableMemory),
        r is Ok ==> final(active_page_table).self_mapped() && !old(active_page_table).tables().contains_key(
            final(active_page_table).level4_frame(),
        ) && KernelRemap::kernel_fits(*layout),
        r is Err ==> final(active_page_table).level4_frame() == old(active_page_table).level4_frame() && (old(active_page_table).self_mapped() ==> final(active_page_table).self_mapped()),
        forall|a: u64| old(active_page_table).tables().contains_key(a) ==> #[trigger] final(active_page_table).tables().contains_key(a),
        r is Ok && old(active_page_table).window() == Some(old(active_page_table).level4_frame()) ==> final(active_page_table).window() == Some(final(active_page_table).level4_frame()) && kernel_reachable(
            *layout,
            remap_requests@,
            final(active_page_table).tables(),
            final(active_page_table).level4_frame(),
        ),
{
    match runtime_test(active_page_table, bman) {
        Ok(()) => {},
        Err(e) => {
            return Err(e);
        },
    }
    let ghost tested = *active_page_table;
    let inactive_page_table = match make_kernel_table(remap_requests, active_page_table, bman, layout) {
        Ok(t) => t,
        Err(e) => {
            return Err(e);
        },
    };
    proof {
        assert(active_page_table.tables().contains_key(inactive_page_table.spec_address()));
        assert forall|a: u64| old(active_page_table).tables().contains_key(a) implies #[trigger] active_page_table.tables().contains_key(
            a,
        ) by {
            assert(tested.tables().contains_key(a));
        }
    }
    // The new table takes the place of the old.
    let _old_table = active_page_table.switch(inactive_page_table);
    Ok(())
}

/// What entering a table keeps: the tables that were known stay known, and
/// the last entry of the table that is entered points to that table itself.
pub proof fn lemma_entered(table: &ActivePageTable, allocator: BuddyView, inactive: u64)
    requires
        table.wf(),
        allocator.wf(),
        table.tables().contains_key(inactive),
        inactive != table.level4_frame(),
        super::paging::entry::PageEntry::valid_frame_addr(inactive as int),
        ({
            let e = table.tables()[inactive][RECURSIVE_INDEX as int];
            e.is_present() && e.is_writable() && e.frame_addr() == inactive
        }),
    ensures
        ({
            let entered = table.entered(allocator, inactive);
            let e = entered.tables[inactive][RECURSIVE_INDEX as int];
            &&& forall|a: u64| table.tables().contains_key(a) ==> #[trigger] entered.tables.contains_key(a)
            &&& e.is_present() && e.is_writable() && e.frame_addr() == inactive
            &&& !table.tables()[inactive][RECURSIVE_INDEX as int].is_huge() ==> !e.is_huge()
            &&& entered.result is Err ==> present_kept(table.tables(), entered.tables)
            &&& entered.result is Ok && table.window() == Some(table.level4_frame()) ==> spec_child(
                entered.tables,
                table.level4_frame(),
                RECURSIVE_INDEX as int,
            ) == Some(inactive)
        }),
{
    reveal(table::spec_entered);
    let tables = table.tables();
    let entered = table.entered(allocator, inactive);
    assert(present_kept(tables, tables));
    if let Some(root) = table.window() {
        table::lemma_find_empty_pages(tables, allocator, root, 1);
        let f = table::spec_find_empty_pages(tables, allocator, root, 1);
        if let Some(p) = f.page {
            lemma_map_brief(f.tables, f.allocator, root, p, table.level4_frame());
            let m = spec_map(f.tables, f.allocator, root, p, table.level4_frame());
            memory::lemma_present_kept_transitive(tables, f.tables, m.tables);
            if m.result is Ok {
                let old_entry = m.tables[root][RECURSIVE_INDEX as int];
                entry::lemma_entry_bits(old_entry.0, inactive, 0);
                entry::lemma_entry_bits(inactive | ((old_entry.0 & entry::ALL_FLAGS) | 1), 0, 2);
                assert(tables[inactive][RECURSIVE_INDEX as int].is_present());
                assert(m.tables[inactive][RECURSIVE_INDEX as int] == tables[inactive][RECURSIVE_INDEX as int]);
                if table.window() == Some(table.level4_frame()) {
                    assert(tables[root][RECURSIVE_INDEX as int].is_present());
                    assert(m.tables[root][RECURSIVE_INDEX as int] == tables[root][RECURSIVE_INDEX as int]);
                }
                assert forall|a: u64| tables.contains_key(a) implies #[trigger] entered.tables.contains_key(a) by {
                    assert(m.tables.contains_key(a));
                }
            }
        }
    }
}

/// An edit of the table that waits is kept apart from the table that the
/// processor walks. Where the table at `inactive` is entered and the page
/// is mapped to the frame at `addr` in it, and the table that the processor
/// walks maps itself again: the page was not mapped in the table that
/// waits and is mapped to the frame in it now, and every page that the
/// walked table mapped it maps to the same frame still. The walk for the
/// page stays outside the last entries of the tables below level 4.
///
/// The walked table does not map the page afterwards either, where the
/// entry of the page in its level 4 table and in that of the table that
/// waits is not present, and is not the entry in which entering the table
/// makes the tables for the page that it maps to the walked table's frame.
pub proof fn lemma_with_isolation(
    tables: Tables,
    level4: u64,
    allocator: BuddyView,
    inactive: u64,
    page: int,
    addr: u64,
)
    requires
        memory::tables_wf(tables),
        allocator.wf(),
        tables.contains_key(level4),
        tables.contains_key(inactive),
        inactive != level4,
        entry::PageEntry::valid_frame_addr(inactive as int),
        entry::PageEntry::valid_frame_addr(level4 as int),
        entry::PageEntry::valid_frame_addr(addr as int),
        table::spec_window(tables, level4) == Some(level4),
        outside_recursion(page),
        table::spec_entered(tables, level4, allocator, inactive).result is Ok,
        ({
            let entered = table::spec_entered(tables, level4, allocator, inactive);
            spec_map(entered.tables, entered.allocator, inactive, page, addr).result is Ok
        }),
    ensures
        ({
            let entered = table::spec_entered(tables, level4, allocator, inactive);
            let mapped = spec_map(entered.tables, entered.allocator, inactive, page, addr);
            let after = table::spec_retarget(mapped.tables, level4, level4);
            &&& table::spec_window(entered.tables, level4) == Some(inactive)
            &&& spec_resolve(tables, inactive, page) is None
            &&& spec_resolve(after, inactive, page) == Some(addr)
            &&& forall|q: int|
                (#[trigger] spec_resolve(tables, level4, q)) is Some ==> spec_resolve(after, level4, q)
                    == spec_resolve(tables, level4, q)
            &&& ({
                let index = memory::spec_page_index(page, 4);
                !tables[level4][index].is_present() && !tables[inactive][index].is_present() && Some(index)
                    != table::spec_find_free(tables, level4, 1) ==> spec_resolve(tables, level4, page) is None
                    && spec_resolve(after, level4, page) is None
            })
        }),
{
    reveal(table::spec_entered);
    let entered = table::spec_entered(tables, level4, allocator, inactive);
    table::lemma_find_empty_pages(tables, allocator, level4, 1);
    let f = table::spec_find_empty_pages(tables, allocator, level4, 1);
    let p = f.page->0;
    lemma_map_brief(f.tables, f.allocator, level4, p, level4);
    let m1 = spec_map(f.tables, f.allocator, level4, p, level4);
    memory::lemma_present_kept_transitive(tables, f.tables, m1.tables);
    assert(entered.tables == table::spec_retarget(m1.tables, level4, inactive));
    let last = RECURSIVE_INDEX as int;
    let e0 = tables[level4][last];
    assert(e0.is_present() && !e0.is_huge() && e0.frame_addr() == level4);
    assert(m1.tables.contains_key(level4));
    assert(m1.tables[level4][last] == e0);
    let e1 = entered.tables[level4][last];
    entry::lemma_entry_bits(e0.0, inactive, 0);
    entry::lemma_entry_bits(e0.with_frame_addr(inactive).0, 0, 2);
    assert(e1 == e0.with_frame_addr(inactive).with_flags(entry::PageEntryFlags { bits: entry::WRITABLE }));
    assert(e1.is_present() && !e1.is_huge() && e1.frame_addr() == inactive);
    assert(memory::tables_wf(entered.tables)) by {
        assert forall|a: u64| entered.tables.contains_key(a) implies (#[trigger] entered.tables[a]).len()
            == memory::MAX_ENTRY_COUNT by {
            if a != level4 {
                assert(m1.tables.contains_key(a));
            }
        }
    }
    assert(spec_child(entered.tables, level4, last) == Some(inactive));
    // The edit.
    table::lemma_map(entered.tables, entered.allocator, inactive, page, addr);
    let mapped = spec_map(entered.tables, entered.allocator, inactive, page, addr);
    let after = table::spec_retarget(mapped.tables, level4, level4);
    assert(mapped.tables.contains_key(level4));
    lemma_retarget_keeps_walk(mapped.tables, level4, level4, inactive, page);
    // The page was not mapped in the table that waits.
    lemma_retarget_keeps_walk(m1.tables, level4, inactive, inactive, page);
    memory::lemma_present_kept_walk(tables, m1.tables, inactive, page);
    // The walks of the table that the processor walks.
    let e2 = after[level4][last];
    assert(mapped.tables[level4][last] == e1);
    entry::lemma_entry_bits(e1.0, level4, 0);
    entry::lemma_entry_bits(e1.with_frame_addr(level4).0, 0, 2);
    assert(e2 == e1.with_frame_addr(level4).with_flags(entry::PageEntryFlags { bits: entry::WRITABLE }));
    assert(e2.is_present() && !e2.is_huge() && e2.frame_addr() == level4);
    assert(memory::walks_kept(tables, after)) by {
        assert forall|a: u64| tables.contains_key(a) implies #[trigger] after.contains_key(a) by {
            assert(m1.tables.contains_key(a));
            assert(entered.tables.contains_key(a));
            assert(mapped.tables.contains_key(a));
        }
        assert forall|a: u64, i: int|
            tables.contains_key(a) && 0 <= i < memory::MAX_ENTRY_COUNT && (#[trigger] tables[a][i]).is_present() implies after[a][i].is_present()
            && after[a][i].frame_addr() == tables[a][i].frame_addr() && after[a][i].is_huge()
            == tables[a][i].is_huge() by {
            assert(m1.tables.contains_key(a));
            assert(entered.tables.contains_key(a));
            assert(mapped.tables.contains_key(a));
            if !(a == level4 && i == last) {
                assert(m1.tables[a][i] == tables[a][i]);
                assert(entered.tables[a][i] == m1.tables[a][i]);
                assert(entered.tables[a][i].is_present());
                assert(mapped.tables[a][i] == entered.tables[a][i]);
                assert(after[a][i] == mapped.tables[a][i]);
            }
        }
    }
    assert forall|q: int| (#[trigger] spec_resolve(tables, level4, q)) is Some implies spec_resolve(
        after,
        level4,
        q,
    ) == spec_resolve(tables, level4, q) by {
        memory::lemma_walks_kept_walk(tables, after, level4, q);
    }
    // The entry of the page in the level 4 table of the walked table.
    let index = memory::spec_page_index(page, 4);
    if !tables[level4][index].is_present() && !tables[inactive][index].is_present() && Some(index)
        != table::spec_find_free(tables, level4, 1) {
        assert(0 <= index < memory::MAX_ENTRY_COUNT);
        assert(index != last);
        table::lemma_find_empty_pages_writes(tables, allocator, level4, 1);
        assert(f.tables[level4][index] == tables[level4][index]);
        assert(f.tables[inactive] == tables[inactive]);
        table::lemma_map(f.tables, f.allocator, level4, p, level4);
        let t1 = memory::spec_level1(f.tables, level4, p)->0;
        assert(t1 != level4 && t1 != inactive);
        assert(f.tables.contains_key(level4) && f.tables.contains_key(inactive));
        assert(m1.tables[level4] == f.tables[level4]);
        assert(m1.tables[inactive] == f.tables[inactive]);
        assert(entered.tables[level4][index] == m1.tables[level4][index]);
        assert(entered.tables[inactive] == m1.tables[inactive]);
        table::lemma_map_writes(entered.tables, entered.allocator, inactive, page, addr);
        assert(entered.tables.contains_key(level4));
        assert(mapped.tables[level4] == entered.tables[level4]);
        assert(after[level4][index] == mapped.tables[level4][index]);
        assert(!after[level4][index].is_present());
        assert(spec_child(after, level4, index) is None);
        assert(spec_child(tables, level4, index) is None);
    }
}

} // verus!
