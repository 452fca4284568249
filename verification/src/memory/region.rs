//! A `Region` is a range of physical memory as the firmware reports it.

use super::address::PhysicalAddress;
use vstd::prelude::*;

verus! {

#[derive(Copy, Clone, PartialEq, Eq, Debug, Structural)]
pub enum State {
    Free,
    Used,
    Reserved,
}

#[derive(Copy, Clone, PartialEq, Eq, Debug, Structural)]
pub struct Region {
    pub base_addr: PhysicalAddress,
    pub size: u64,
    pub state: State,
}

impl Region {
    pub fn new(base_addr: PhysicalAddress, size: u64, state: State) -> (r: Region)
        ensures
            r == (Region { base_addr, size, state }),
    {
        Region { base_addr: base_addr, size: size, state: state }
    }

    pub fn base_addr(&self) -> (r: PhysicalAddress)
        ensures
            r == self.base_addr,
    {
        self.base_addr
    }

    pub fn size(&self) -> (r: u64)
        ensures
            r == self.size,
    {
        self.size
    }

    pub fn state(&self) -> (r: State)
        ensures
            r == self.state,
    {
        self.state
    }
}

/// The regions of a memory map, handed out one by one in the map's order.
#[derive(Debug)]
pub struct AdapterIter {
    regions: Vec<Region>,
    position: usize,
}

impl AdapterIter {
    /// The regions that are still to come.
    pub closed spec fn remaining(&self) -> Seq<Region> {
        if self.position <= self.regions@.len() {
            self.regions@.subrange(self.position as int, self.regions@.len() as int)
        } else {
            Seq::empty()
        }
    }

    pub fn new(regions: Vec<Region>) -> (r: AdapterIter)
        ensures
            r.remaining() == regions@,
    {
        let r = AdapterIter { regions, position: 0 };
        proof {
            assert(r.remaining() =~= regions@);
        }
        r
    }

    /// The next region, or `None` when the map is used up. A map without
    /// regions is in order: it is used up from the start.
    pub fn next(&mut self) -> (r: Option<Region>)
        ensures
            old(self).remaining().len() == 0 ==> r is None && final(self).remaining().len() == 0,
            old(self).remaining().len() > 0 ==> r == Some(old(self).remaining()[0])
                && final(self).remaining() == old(self).remaining().drop_first(),
    {
        if self.position < self.regions.len() {
            let region = self.regions[self.position];
            self.position += 1;
            proof {
                assert(self.remaining() =~= old(self).remaining().drop_first());
            }
            Some(region)
        } else {
            None
        }
    }
}

/// A source of memory regions, such as the memory map of a boot protocol.
pub trait Adapter {
    fn iter(&self) -> AdapterIter;
}

/// The region is free and starts at or behind `limit`.
pub open spec fn free_behind(region: Region, limit: int) -> bool {
    region.state == State::Free && limit <= region.base_addr@
}

/// The position of the first free region that starts at or behind `limit`,
/// or the number of regions where none does.
pub open spec fn first_at_or_behind(regions: Seq<Region>, limit: int) -> int
    decreases regions.len(),
{
    if regions.len() == 0 {
        0
    } else if free_behind(regions[0], limit) {
        0
    } else {
        1 + first_at_or_behind(regions.drop_first(), limit)
    }
}

/// The first free region of the map that starts at or behind `limit`;
/// `None` where the map holds no such region. Regions that are used or
/// reserved are passed over.
pub fn find_region_behind(regions: &mut AdapterIter, limit: PhysicalAddress) -> (r: Option<Region>)
    ensures
        ({
            let all = old(regions).remaining();
            let at = first_at_or_behind(all, limit@);
            &&& 0 <= at <= all.len()
            &&& at == all.len() ==> r is None
            &&& at < all.len() ==> r == Some(all[at]) && free_behind(all[at], limit@)
            &&& forall|i: int| 0 <= i < at ==> !free_behind(#[trigger] all[i], limit@)
            &&& at < all.len() ==> final(regions).remaining() == all.subrange(at + 1, all.len() as int)
            &&& at == all.len() ==> final(regions).remaining().len() == 0
        }),
{
    let ghost all = regions.remaining();
    let ghost mut skipped: int = 0;
    let mut found: Option<Region> = None;
    loop
        invariant_except_break
            found is None,
            0 <= skipped <= all.len(),
            regions.remaining() == all.subrange(skipped, all.len() as int),
            first_at_or_behind(all, limit@) == skipped + first_at_or_behind(regions.remaining(), limit@),
            forall|i: int| 0 <= i < skipped ==> !free_behind(#[trigger] all[i], limit@),
        ensures
            ({
                let at = first_at_or_behind(all, limit@);
                &&& 0 <= at <= all.len()
                &&& at == all.len() ==> found is None
                &&& at < all.len() ==> found == Some(all[at]) && free_behind(all[at], limit@)
                &&& forall|i: int| 0 <= i < at ==> !free_behind(#[trigger] all[i], limit@)
                &&& at < all.len() ==> regions.remaining() == all.subrange(at + 1, all.len() as int)
                &&& at == all.len() ==> regions.remaining().len() == 0
            }),
        decreases all.len() - skipped,
    {
        let ghost before = regions.remaining();
        match regions.next() {
            None => {
                break ;
            },
            Some(region) => {
                proof {
                    assert(before[0] == all[skipped]);
                }
                let free = match region.state {
                    State::Free => true,
                    _ => false,
                };
                if free && limit.0 <= region.base_addr.0 {
                    found = Some(region);
                    proof {
                        assert(before.drop_first() =~= all.subrange(skipped + 1, all.len() as int));
                    }
                    break ;
                }
                proof {
                    assert(before.drop_first() =~= all.subrange(skipped + 1, all.len() as int));
                    skipped = skipped + 1;
                }
            },
        }
    }
    found
}

} // verus!
