//! The buddy allocator over an array of frame descriptors.
//!
//! The descriptors of the managed frames stand in one array; a block of
//! order `k` is `2^k` neighbouring frames whose first index is a multiple of
//! `2^k`, and the descriptor of that first frame, the head, stands for the
//! block. Free blocks wait in one list per order, oldest first. The lists
//! are threaded through the array: each descriptor stands beside the links
//! to the heads before and behind it, so a block enters and leaves its list
//! without a search. A descriptor that is linked into no list is used.

use crate::alist::{lemma_distinct_below, lemma_linked_kept, AList, Node};
use crate::memory::address::PhysicalAddress;
use crate::memory::frame::{Frame, State, MAX_NUMBER, SIZE};
use vstd::prelude::*;

verus! {

/// The number of orders: a block holds at most `2^(MAX_ORDER - 1)` frames.
pub const MAX_ORDER: usize = 15;

/// The number of frames in a block of the given order.
pub open spec fn block_len(order: usize) -> u64 {
    1u64 << (order as u64)
}

/// The bits of an index that are zero where a block of the given order
/// starts.
pub open spec fn low_mask(order: usize) -> u64 {
    ((1u64 << (order as u64)) - 1) as u64
}

/// A block of the given order may start at the index: the index is a
/// multiple of the block's length.
pub open spec fn is_block_start(index: int, order: usize) -> bool {
    (index as u64) & low_mask(order) == 0
}

/// The index of the buddy: the index with the bit of the order flipped.
pub open spec fn spec_buddy(index: int, order: usize) -> int {
    ((index as u64) ^ block_len(order)) as int
}

/// The most frames that one allocator manages: the count of free frames,
/// summed over the orders, stays within a machine word.
pub open spec fn max_frame_count() -> int {
    usize::MAX as int / 0x8000
}

/// The sum over the orders below `upto` of the count times the block length.
pub open spec fn sum_counts(counts: Seq<usize>, upto: int) -> int
    decreases upto,
{
    if upto <= 0 {
        0
    } else {
        sum_counts(counts, upto - 1) + counts[upto - 1] * block_len((upto - 1) as usize)
    }
}

/// What the allocator holds, as mathematical values.
#[verifier::ext_equal]
pub struct BuddyView {
    /// The number of the first managed frame.
    pub base: u64,
    /// The descriptors, by index.
    pub frames: Seq<Frame>,
    /// For each order the indexes of the free blocks' heads, oldest first.
    pub free_lists: Seq<Seq<usize>>,
    /// For each order the length of its list.
    pub free_counts: Seq<usize>,
}

impl BuddyView {
    pub open spec fn len(self) -> int {
        self.frames.len() as int
    }

    /// The descriptor at `i` is sound by itself.
    pub open spec fn frame_ok(self, i: int) -> bool {
        let f = self.frames[i];
        &&& f.number == self.base + i
        &&& f.order < MAX_ORDER
        &&& is_block_start(i, f.order)
        &&& i + block_len(f.order) <= self.len()
        &&& f.linked == (f.state == State::Free)
    }

    /// `x` lies in the block that the descriptor at `head` stands for, behind
    /// its first frame.
    pub open spec fn inside(self, head: int, x: int) -> bool {
        head < x < head + block_len(self.frames[head].order)
    }

    /// The frame at `x` lies inside no block: it is the head of its own.
    pub open spec fn is_head(self, x: int) -> bool {
        forall|h: int| 0 <= h < self.len() ==> !#[trigger] self.inside(h, x)
    }

    /// The `j`-th entry of the list of order `k` is a free head of that order.
    pub open spec fn listed_ok(self, k: int, j: int) -> bool {
        let i = self.free_lists[k][j] as int;
        &&& i < self.len()
        &&& self.frames[i].state == State::Free
        &&& self.frames[i].order == k
    }

    /// A free descriptor stands in the list of its order.
    pub open spec fn free_is_listed(self, i: int) -> bool {
        self.frames[i].state == State::Free ==> self.free_lists[self.frames[i].order as int].contains(
            i as usize,
        )
    }

    /// A free block below the highest order has no free buddy of its order:
    /// the two would have been merged.
    pub open spec fn no_free_buddy(self, i: int) -> bool {
        let order = self.frames[i].order;
        let buddy = spec_buddy(i, order);
        self.frames[i].state == State::Free && order + 1 < MAX_ORDER && buddy < self.len() ==> !(
        self.frames[buddy].state == State::Free && self.frames[buddy].order == order)
    }

    /// The invariant of the allocator.
    pub open spec fn wf(self) -> bool {
        &&& self.free_lists.len() == MAX_ORDER
        &&& self.free_counts.len() == MAX_ORDER
        &&& self.len() <= max_frame_count()
        &&& self.base + self.len() <= MAX_NUMBER + 1
        &&& forall|i: int| 0 <= i < self.len() ==> #[trigger] self.frame_ok(i)
        &&& forall|h: int, x: int|
            0 <= h < self.len() && #[trigger] self.inside(h, x) ==> self.frames[x].state
                == State::Used && self.frames[x].order == 0
        &&& forall|k: int|
            0 <= k < MAX_ORDER ==> self.free_counts[k] == (#[trigger] self.free_lists[k]).len()
        &&& forall|k: int, j: int|
            0 <= k < MAX_ORDER && 0 <= j < self.free_lists[k].len() ==> #[trigger] self.listed_ok(
                k,
                j,
            )
        &&& forall|i: int| 0 <= i < self.len() ==> #[trigger] self.free_is_listed(i)
        &&& forall|k: int| 0 <= k < MAX_ORDER ==> (#[trigger] self.free_lists[k]).no_duplicates()
        &&& forall|i: int| 0 <= i < self.len() ==> #[trigger] self.no_free_buddy(i)
    }

    /// The number of free frames, counted by the lists.
    pub open spec fn total_free(self) -> int {
        sum_counts(self.free_counts, MAX_ORDER as int)
    }

    /// The frame at `x` belongs to a free block.
    pub open spec fn in_free_pool(self, x: int) -> bool {
        exists|h: int|
            0 <= h < self.len() && self.frames[h].state == State::Free && h <= x < h + block_len(
                #[trigger] self.frames[h].order,
            )
    }

    /// The frame at `x` heads a block that was handed out and not given back.
    pub open spec fn is_allocated(self, x: int) -> bool {
        &&& 0 <= x < self.len()
        &&& self.frames[x].state == State::Used
        &&& self.is_head(x)
    }

    /// The least order from `from` on whose list is not empty, or
    /// `MAX_ORDER` where every one is.
    pub open spec fn first_nonempty(self, from: int) -> int
        decreases MAX_ORDER - from,
    {
        if from >= MAX_ORDER {
            MAX_ORDER as int
        } else if self.free_lists[from].len() > 0 {
            from
        } else {
            self.first_nonempty(from + 1)
        }
    }

    pub open spec fn with_frame(self, i: int, f: Frame) -> BuddyView {
        BuddyView { frames: self.frames.update(i, f), ..self }
    }

    pub open spec fn with_list(self, k: int, list: Seq<usize>) -> BuddyView {
        BuddyView {
            free_lists: self.free_lists.update(k, list),
            free_counts: self.free_counts.update(k, list.len() as usize),
            ..self
        }
    }

    pub open spec fn descriptor(self, i: int, order: usize, state: State) -> Frame {
        Frame { number: (self.base + i) as u64, order, state, linked: state == State::Free }
    }

    /// The oldest block of order `from` leaves its list and is handed out
    /// with the order `order`.
    pub open spec fn take_front(self, from: int, order: usize) -> BuddyView {
        let i = self.free_lists[from][0] as int;
        self.with_list(from, self.free_lists[from].drop_first()).with_frame(
            i,
            self.descriptor(i, order, State::Used),
        )
    }

    /// The frame at `i` becomes the head of a free block of the given order,
    /// the youngest of its list.
    pub open spec fn push_free(self, i: int, order: usize) -> BuddyView {
        self.with_frame(i, self.descriptor(i, order, State::Free)).with_list(
            order as int,
            self.free_lists[order as int].push(i as usize),
        )
    }

    /// The halves of the block at `index` that a request of a lower order
    /// leaves over go back to the lists, from the order `order` up to
    /// `upto`, each the upper half of its level.
    pub open spec fn split(self, index: int, order: int, upto: int) -> BuddyView
        decreases upto - order,
    {
        if order >= upto {
            self
        } else {
            self.push_free(index + block_len(order as usize), order as usize).split(
                index,
                order + 1,
                upto,
            )
        }
    }

    /// The state after a request of the given order was served from the
    /// list of the order `from`.
    pub open spec fn allocated(self, order: usize, from: int) -> BuddyView {
        self.take_front(from, order).split(self.free_lists[from][0] as int, order as int, from)
    }

    /// The block at `cur` of order `order` can merge with its buddy: there is
    /// a higher order, and the buddy is managed, free and of the same order.
    pub open spec fn mergeable(self, cur: int, order: usize) -> bool {
        let buddy = spec_buddy(cur, order);
        &&& order + 1 < MAX_ORDER
        &&& buddy < self.len()
        &&& self.frames[buddy].state == State::Free
        &&& self.frames[buddy].order == order
    }

    /// The buddy leaves its list and the pair becomes one used block of the
    /// next order, headed by the lower of the two.
    pub open spec fn absorb(self, cur: int, order: usize) -> BuddyView {
        let buddy = spec_buddy(cur, order);
        let list = self.free_lists[order as int];
        let low = if cur < buddy { cur } else { buddy };
        let high = if cur < buddy { buddy } else { cur };
        self.with_list(order as int, list.remove(list.index_of(buddy as usize))).with_frame(
            high,
            self.descriptor(high, 0, State::Used),
        ).with_frame(low, self.descriptor(low, (order + 1) as usize, State::Used))
    }

    /// The head of the free block that giving back the used block at `cur`
    /// of order `order` ends in.
    pub open spec fn coalesced_head(self, cur: int, order: usize) -> int
        decreases MAX_ORDER - order,
    {
        if self.mergeable(cur, order) {
            let buddy = spec_buddy(cur, order);
            self.absorb(cur, order).coalesced_head(
                if cur < buddy { cur } else { buddy },
                (order + 1) as usize,
            )
        } else {
            cur
        }
    }

    /// The order of that block.
    pub open spec fn coalesced_order(self, cur: int, order: usize) -> usize
        decreases MAX_ORDER - order,
    {
        if self.mergeable(cur, order) {
            let buddy = spec_buddy(cur, order);
            self.absorb(cur, order).coalesced_order(
                if cur < buddy { cur } else { buddy },
                (order + 1) as usize,
            )
        } else {
            order
        }
    }

    /// The state after the used block at `cur` of order `order` was given
    /// back: it merges with its buddy as long as it can, and what is left
    /// goes to the list of its order.
    pub open spec fn coalesce(self, cur: int, order: usize) -> BuddyView
        decreases MAX_ORDER - order,
    {
        if self.mergeable(cur, order) {
            let buddy = spec_buddy(cur, order);
            self.absorb(cur, order).coalesce(
                if cur < buddy { cur } else { buddy },
                (order + 1) as usize,
            )
        } else {
            self.push_free(cur, order)
        }
    }

    /// The state after the block at `index` was given back.
    pub open spec fn released(self, index: int) -> BuddyView {
        self.coalesce(index, self.frames[index].order)
    }
}


/// The lengths of the blocks: each is at least one frame, and a block of the
/// next order is twice as long.
pub proof fn lemma_block_len(k: u64)
    by (bit_vector)
    requires
        k < 15,
    ensures
        1 <= (1u64 << k) <= 0x4000,
        k < 14 ==> (1u64 << ((k + 1) as u64)) == 2 * (1u64 << k),
        (((1u64 << k) - 1) as u64) < (1u64 << k),
{
}

/// Where a block may start, a block of a lower order may start too.
pub proof fn lemma_start_of_lower_order(i: u64, m: u64, k: u64)
    by (bit_vector)
    requires
        k <= m < 15,
        i & (((1u64 << m) - 1) as u64) == 0,
    ensures
        i & (((1u64 << k) - 1) as u64) == 0,
        (1u64 << k) <= (1u64 << m),
{
}

/// Every index starts a block of order 0.
pub proof fn lemma_start_of_order_zero(i: u64)
    by (bit_vector)
    ensures
        i & (((1u64 << 0u64) - 1) as u64) == 0,
        (1u64 << 0u64) == 1,
{
}

/// Inside a block of order `m` the buddy at a lower level `j` of the
/// block's head is the upper half of that level.
pub proof fn lemma_upper_half(i: u64, m: u64, j: u64)
    by (bit_vector)
    requires
        j < m < 15,
        i <= 0x10_0000_0000_0000,
        i & (((1u64 << m) - 1) as u64) == 0,
    ensures
        (i ^ (1u64 << j)) == i + (1u64 << j),
        ((i + (1u64 << j)) as u64) & (((1u64 << j) - 1) as u64) == 0,
        (1u64 << j) + (1u64 << j) <= (1u64 << m),
{
}

/// A block and its buddy are the two halves of a block of the next order,
/// which starts at the lower of the two.
pub proof fn lemma_buddy_pair(i: u64, j: u64)
    by (bit_vector)
    requires
        j < 15,
        i <= 0x10_0000_0000_0000,
        i & (((1u64 << j) - 1) as u64) == 0,
    ensures
        (i ^ (1u64 << j)) & (((1u64 << j) - 1) as u64) == 0,
        (i ^ (1u64 << j)) ^ (1u64 << j) == i,
        (i ^ (1u64 << j)) != i,
        i < (i ^ (1u64 << j)) ==> (i ^ (1u64 << j)) == i + (1u64 << j) && (j < 14 ==> i & (((1u64
            << ((j + 1) as u64)) - 1) as u64) == 0),
        (i ^ (1u64 << j)) < i ==> i == (i ^ (1u64 << j)) + (1u64 << j) && (j < 14 ==> (i ^ (1u64
            << j)) & (((1u64 << ((j + 1) as u64)) - 1) as u64) == 0),
{
}

/// The buddy of the buddy is the block itself.
pub proof fn lemma_buddy_involution(i: u64, j: u64)
    by (bit_vector)
    requires
        j < 15,
    ensures
        (i ^ (1u64 << j)) ^ (1u64 << j) == i,
        (i ^ (1u64 << j)) != i,
{
}


/// Changing one count changes the sum by the difference times the block
/// length of that order.
pub proof fn lemma_sum_counts_update(counts: Seq<usize>, upto: int, k: int, value: usize)
    requires
        0 <= k < counts.len(),
        0 <= upto <= counts.len(),
    ensures
        sum_counts(counts.update(k, value), upto) == sum_counts(counts, upto) + (if k < upto {
            (value - counts[k]) * block_len(k as usize)
        } else {
            0
        }),
        k < upto && value == counts[k] + 1 ==> sum_counts(counts.update(k, value), upto) == sum_counts(
            counts,
            upto,
        ) + block_len(k as usize),
        k < upto && value + 1 == counts[k] ==> sum_counts(counts.update(k, value), upto) == sum_counts(
            counts,
            upto,
        ) - block_len(k as usize),
    decreases upto,
{
    let b = block_len(k as usize) as int;
    let v = value as int;
    let c = counts[k] as int;
    assert(v == c + 1 ==> (v - c) * b == b) by (nonlinear_arith);
    assert(v + 1 == c ==> (v - c) * b == -b) by (nonlinear_arith);
    if upto > 0 {
        lemma_sum_counts_update(counts, upto - 1, k, value);
        if k == upto - 1 {
            assert(v * b == c * b + (v - c) * b) by (nonlinear_arith);
        }
    }
}

impl BuddyView {
    /// No list is longer than the array of descriptors.
    pub proof fn lemma_list_len(self, k: int)
        requires
            self.wf(),
            0 <= k < MAX_ORDER,
        ensures
            self.free_lists[k].len() <= self.len(),
            self.free_counts[k] <= self.len(),
    {
        let s = self.free_lists[k];
        assert forall|j: int| 0 <= j < s.len() implies s[j] < self.len() by {
            assert(self.listed_ok(k, j));
        }
        lemma_distinct_below(s, self.len());
    }

    /// A used descriptor stands in no list.
    pub proof fn lemma_used_not_listed(self, i: int, k: int)
        requires
            self.wf(),
            0 <= i < self.len(),
            0 <= k < MAX_ORDER,
            self.frames[i].state == State::Used || self.frames[i].order != k,
        ensures
            !self.free_lists[k].contains(i as usize),
    {
        if self.free_lists[k].contains(i as usize) {
            let j = self.free_lists[k].index_of(i as usize);
            assert(self.listed_ok(k, j));
        }
    }

    /// A descriptor is free exactly if it stands in the list of its order;
    /// it stands in no other list, and in none twice.
    pub proof fn lemma_free_iff_listed(self, i: int)
        requires
            self.wf(),
            0 <= i < self.len(),
        ensures
            self.frames[i].state == State::Free <==> self.free_lists[self.frames[i].order as int].contains(
                i as usize,
            ),
            forall|k: int|
                0 <= k < MAX_ORDER && k != self.frames[i].order ==> !(#[trigger] self.free_lists[k]).contains(
                    i as usize,
                ),
            forall|k: int| 0 <= k < MAX_ORDER ==> (#[trigger] self.free_lists[k]).no_duplicates(),
            forall|k: int| 0 <= k < MAX_ORDER ==> self.free_counts[k] == (#[trigger] self.free_lists[k]).len(),
    {
        assert(self.frame_ok(i));
        assert(self.free_is_listed(i));
        if self.frames[i].state == State::Used {
            self.lemma_used_not_listed(i, self.frames[i].order as int);
        }
        assert forall|k: int| 0 <= k < MAX_ORDER && k != self.frames[i].order implies !(
        #[trigger] self.free_lists[k]).contains(i as usize) by {
            self.lemma_used_not_listed(i, k);
        }
    }

    /// Taking the oldest block of a list keeps the invariant. The frames
    /// behind the part that is handed out are used heads of order 0.
    pub proof fn lemma_take_front(self, from: int, order: usize)
        requires
            self.wf(),
            0 <= order <= from < MAX_ORDER,
            self.free_lists[from].len() > 0,
        ensures
            self.take_front(from, order).wf(),
            self.take_front(from, order).total_free() == self.total_free() - block_len(from as usize),
            ({
                let i = self.free_lists[from][0] as int;
                let w = self.take_front(from, order);
                &&& 0 <= i < self.len()
                &&& is_block_start(i, from as usize)
                &&& i + block_len(from as usize) <= self.len()
                &&& w.is_allocated(i)
                &&& w.frames[i] == self.descriptor(i, order, State::Used)
                &&& forall|x: int|
                    i + block_len(order) <= x < i + block_len(from as usize) ==> #[trigger] w.is_single(x)
            }),
    {
        let list = self.free_lists[from];
        let i = list[0] as int;
        let rest = list.drop_first();
        let w = self.take_front(from, order);
        assert(self.listed_ok(from, 0));
        assert(self.frame_ok(i));
        lemma_start_of_lower_order(i as u64, from as u64, order as u64);
        lemma_block_len(from as u64);
        lemma_block_len(order as u64);
        lemma_sum_counts_update(self.free_counts, MAX_ORDER as int, from, rest.len() as usize);
        self.lemma_list_len(from);
        assert(w.frames[i] == self.descriptor(i, order, State::Used));
        assert forall|k: int| 0 <= k < MAX_ORDER implies w.free_counts[k] == (#[trigger] w.free_lists[k]).len() by {
            assert(self.free_counts[k] == self.free_lists[k].len());
        }
        assert forall|k: int| 0 <= k < MAX_ORDER implies (#[trigger] w.free_lists[k]).no_duplicates() by {
            assert(self.free_lists[k].no_duplicates());
            if k == from {
                assert forall|a: int, b: int| 0 <= a < rest.len() && 0 <= b < rest.len() && a != b implies rest[a]
                    != rest[b] by {
                    assert(rest[a] == list[a + 1]);
                    assert(rest[b] == list[b + 1]);
                }
            }
        }
        assert forall|k: int, j: int| 0 <= k < MAX_ORDER && 0 <= j < w.free_lists[k].len() implies #[trigger] w.listed_ok(
            k,
            j,
        ) by {
            if k == from {
                assert(rest[j] == list[j + 1]);
                assert(self.listed_ok(k, j + 1));
                assert(list[j + 1] != list[0]);
            } else {
                assert(self.listed_ok(k, j));
                assert(self.free_lists[k][j] != i);
            }
        }
        assert forall|x: int| 0 <= x < w.len() implies #[trigger] w.frame_ok(x) by {
            assert(self.frame_ok(x));
        }
        assert forall|h: int, x: int| 0 <= h < w.len() && #[trigger] w.inside(h, x) implies w.frames[x].state
            == State::Used && w.frames[x].order == 0 by {
            assert(w.frame_ok(h));
            assert(self.frame_ok(h));
            assert(self.inside(h, x));
            if x == i {
                assert(false);
            }
        }
        assert forall|x: int| 0 <= x < w.len() implies #[trigger] w.free_is_listed(x) by {
            assert(self.free_is_listed(x));
            if w.frames[x].state == State::Free {
                let k = self.frames[x].order as int;
                assert(self.frame_ok(x));
                let q = self.free_lists[k].index_of(x as usize);
                if k == from {
                    assert(q != 0);
                    assert(rest[q - 1] == list[q]);
                } else {
                    assert(w.free_lists[k][q] == x);
                }
            }
        }
        assert forall|x: int| 0 <= x < w.len() implies #[trigger] w.no_free_buddy(x) by {
            assert(self.no_free_buddy(x));
            assert(self.frame_ok(x));
        }
        assert(w.wf());
        assert(0 <= i < self.len());
        assert(is_block_start(i, from as usize));
        assert(i + block_len(from as usize) <= self.len());
        assert(w.frames[i].state == State::Used);
        assert(w.is_head(i)) by {
            assert forall|h: int| 0 <= h < w.len() implies !#[trigger] w.inside(h, i) by {
                if w.inside(h, i) {
                    assert(self.inside(h, i));
                }
            }
        }
        assert forall|x: int| i + block_len(order) <= x < i + block_len(from as usize) implies #[trigger] w.is_single(
            x,
        ) by {
            assert(self.inside(i, x));
            assert forall|h: int| 0 <= h < w.len() implies !#[trigger] w.inside(h, x) by {
                if w.inside(h, x) {
                    if h == i {
                    } else if h < i {
                        assert(self.inside(h, i));
                    } else {
                        assert(self.inside(i, h));
                        lemma_start_of_order_zero(h as u64);
                    }
                }
            }
        }
    }

    /// Making a used head, behind which only used frames of order 0 lie, a
    /// free block keeps the invariant.
    pub proof fn lemma_push_free(self, i: int, order: usize)
        requires
            self.wf(),
            0 <= i < self.len(),
            self.frames[i].state == State::Used,
            self.is_head(i),
            order < MAX_ORDER,
            is_block_start(i, order),
            i + block_len(order) <= self.len(),
            forall|x: int|
                i < x < i + block_len(order) ==> (#[trigger] self.frames[x]).state == State::Used
                    && self.frames[x].order == 0,
            order + 1 < MAX_ORDER && spec_buddy(i, order) < self.len() ==> !(self.frames[spec_buddy(
                i,
                order,
            )].state == State::Free && self.frames[spec_buddy(i, order)].order == order),
        ensures
            self.push_free(i, order).wf(),
            self.push_free(i, order).total_free() == self.total_free() + block_len(order),
            self.push_free(i, order).frames == self.frames.update(
                i,
                self.descriptor(i, order, State::Free),
            ),
    {
        let list = self.free_lists[order as int];
        let more = list.push(i as usize);
        let w = self.push_free(i, order);
        self.lemma_used_not_listed(i, order as int);
        assert(more.no_duplicates()) by {
            assert forall|a: int, b: int| 0 <= a < more.len() && 0 <= b < more.len() && a != b implies more[a]
                != more[b] by {
                assert(list.no_duplicates());
                if a < list.len() && b == list.len() {
                    assert(list[a] == more[a]);
                    assert(list.contains(more[a]));
                }
                if b < list.len() && a == list.len() {
                    assert(list[b] == more[b]);
                    assert(list.contains(more[b]));
                }
            }
        }
        assert forall|j: int| 0 <= j < more.len() implies more[j] < self.len() by {
            if j < list.len() {
                assert(self.listed_ok(order as int, j));
            }
        }
        lemma_distinct_below(more, self.len());
        lemma_sum_counts_update(self.free_counts, MAX_ORDER as int, order as int, more.len() as usize);
        assert(self.free_counts[order as int] == list.len());
        assert(self.frame_ok(i));
        assert forall|k: int| 0 <= k < MAX_ORDER implies w.free_counts[k] == (#[trigger] w.free_lists[k]).len() by {
            assert(self.free_counts[k] == self.free_lists[k].len());
        }
        assert forall|k: int| 0 <= k < MAX_ORDER implies (#[trigger] w.free_lists[k]).no_duplicates() by {
            assert(self.free_lists[k].no_duplicates());
        }
        assert forall|k: int, j: int| 0 <= k < MAX_ORDER && 0 <= j < w.free_lists[k].len() implies #[trigger] w.listed_ok(
            k,
            j,
        ) by {
            if k == order && j == list.len() {
            } else {
                assert(self.listed_ok(k, j));
                assert(self.free_lists[k][j] != i);
            }
        }
        assert forall|x: int| 0 <= x < w.len() implies #[trigger] w.frame_ok(x) by {
            assert(self.frame_ok(x));
        }
        assert forall|h: int, x: int| 0 <= h < w.len() && #[trigger] w.inside(h, x) implies w.frames[x].state
            == State::Used && w.frames[x].order == 0 by {
            assert(w.frame_ok(h));
            assert(self.frame_ok(h));
            if h == i {
                assert(self.frames[x].state == State::Used);
            } else {
                assert(self.inside(h, x));
            }
        }
        assert forall|x: int| 0 <= x < w.len() implies #[trigger] w.no_free_buddy(x) by {
            assert(self.no_free_buddy(x));
            assert(self.frame_ok(x));
            let o = w.frames[x].order;
            lemma_buddy_involution(x as u64, o as u64);
            lemma_buddy_involution(i as u64, order as u64);
        }
        assert forall|x: int| 0 <= x < w.len() implies #[trigger] w.free_is_listed(x) by {
            assert(self.free_is_listed(x));
            if x == i {
                assert(more[list.len() as int] == i);
            } else if w.frames[x].state == State::Free {
                let k = self.frames[x].order as int;
                assert(self.frame_ok(x));
                let q = self.free_lists[k].index_of(x as usize);
                assert(w.free_lists[k][q] == x);
            }
        }
    }

    /// The state in which the halves from `order` up to `upto` of the block
    /// at `index` wait to be pushed.
    pub open spec fn splitting(self, index: int, order: int, upto: int) -> bool {
        &&& self.wf()
        &&& 0 <= order <= upto < MAX_ORDER
        &&& 0 <= index
        &&& is_block_start(index, upto as usize)
        &&& index + block_len(upto as usize) <= self.len()
        &&& self.frames[index].state == State::Used
        &&& forall|x: int|
            index + block_len(order as usize) <= x < index + block_len(upto as usize)
                ==> #[trigger] self.is_single(x)
    }

    /// The frame at `x` is a used block of its own: a head of order 0.
    pub open spec fn is_single(self, x: int) -> bool {
        &&& self.frames[x].state == State::Used
        &&& self.frames[x].order == 0
        &&& self.is_head(x)
    }

    /// One step of a split keeps the invariant and leads to the state of the
    /// next step.
    pub proof fn lemma_split_step(self, index: int, order: int, upto: int)
        requires
            self.splitting(index, order, upto),
            order < upto,
        ensures
            spec_buddy(index, order as usize) == index + block_len(order as usize),
            index + block_len(order as usize) < self.len(),
            self.push_free(index + block_len(order as usize), order as usize).splitting(
                index,
                order + 1,
                upto,
            ),
            self.push_free(index + block_len(order as usize), order as usize).total_free()
                == self.total_free() + block_len(order as usize),
            block_len((order + 1) as usize) == 2 * block_len(order as usize),
            2 * block_len(order as usize) <= block_len(upto as usize),
            block_len(order as usize) >= 1,
            self.push_free(index + block_len(order as usize), order as usize).frames
                == self.frames.update(
                index + block_len(order as usize),
                self.descriptor(index + block_len(order as usize), order as usize, State::Free),
            ),
    {
        let b = index + block_len(order as usize);
        lemma_upper_half(index as u64, upto as u64, order as u64);
        lemma_block_len(order as u64);
        lemma_block_len(upto as u64);
        assert(self.is_single(b));
        assert forall|x: int| b < x < b + block_len(order as usize) implies (#[trigger] self.frames[x]).state
            == State::Used && self.frames[x].order == 0 by {
            assert(self.is_single(x));
        }
        lemma_buddy_involution(index as u64, order as u64);
        assert(spec_buddy(b, order as usize) == index);
        self.lemma_push_free(b, order as usize);
        let w = self.push_free(b, order as usize);
        if order + 1 < upto {
            lemma_start_of_lower_order(index as u64, upto as u64, (order + 1) as u64);
        }
        assert forall|x: int|
            index + block_len((order + 1) as usize) <= x < index + block_len(
                upto as usize,
            ) implies #[trigger] w.is_single(x) by {
            assert(self.is_single(x));
            assert(self.frames[x].state == State::Used && self.frames[x].order == 0);
            assert(x != b);
            assert(w.frames[x] == self.frames[x]);
            assert forall|h: int| 0 <= h < w.len() implies !#[trigger] w.inside(h, x) by {
                if h != b {
                    if w.inside(h, x) {
                        assert(self.inside(h, x));
                    }
                }
            }
        }
    }

    /// A split ends in a state that keeps the invariant; it adds to the free
    /// frames what the block is longer than the part handed out.
    pub proof fn lemma_split(self, index: int, order: int, upto: int)
        requires
            self.splitting(index, order, upto),
        ensures
            self.split(index, order, upto).wf(),
            self.split(index, order, upto).total_free() == self.total_free() + block_len(
                upto as usize,
            ) - block_len(order as usize),
            forall|x: int|
                0 <= x < index + block_len(order as usize) || index + block_len(upto as usize) <= x
                    < self.len() ==> self.split(index, order, upto).frames[x] == self.frames[x],
            self.split(index, order, upto).len() == self.len(),
            self.split(index, order, upto).base == self.base,
        decreases upto - order,
    {
        if order < upto {
            self.lemma_split_step(index, order, upto);
            let b = index + block_len(order as usize);
            let w = self.push_free(b, order as usize);
            w.lemma_split(index, order + 1, upto);
            let r = self.split(index, order, upto);
            assert(r == w.split(index, order + 1, upto));
            assert forall|x: int|
                0 <= x < index + block_len(order as usize) || index + block_len(upto as usize) <= x
                    < self.len() implies r.frames[x] == self.frames[x] by {
                assert(r.frames[x] == w.frames[x]);
                assert(x != b);
            }
        }
    }

    /// Merging a used block with its free buddy keeps the invariant.
    pub proof fn lemma_absorb(self, cur: int, order: usize)
        requires
            self.wf(),
            self.is_allocated(cur),
            self.frames[cur].order == order,
            self.mergeable(cur, order),
        ensures
            ({
                let buddy = spec_buddy(cur, order);
                let low = if cur < buddy { cur } else { buddy };
                let w = self.absorb(cur, order);
                &&& 0 <= buddy < self.len()
                &&& buddy != cur
                &&& self.free_lists[order as int].contains(buddy as usize)
                &&& w.wf()
                &&& w.is_allocated(low)
                &&& w.frames[low].order == order + 1
                &&& low <= cur
                &&& cur + block_len(order) <= low + block_len((order + 1) as usize)
                &&& block_len((order + 1) as usize) == 2 * block_len(order)
                &&& w.total_free() == self.total_free() - block_len(order)
            }),
    {
        let buddy = spec_buddy(cur, order);
        let low = if cur < buddy { cur } else { buddy };
        let high = if cur < buddy { buddy } else { cur };
        let list = self.free_lists[order as int];
        let w = self.absorb(cur, order);
        assert(self.frame_ok(cur));
        assert(self.frame_ok(buddy));
        lemma_buddy_pair(cur as u64, order as u64);
        lemma_block_len(order as u64);
        lemma_block_len((order + 1) as u64);
        lemma_start_of_order_zero(high as u64);
        assert(self.free_is_listed(buddy));
        let p = list.index_of(buddy as usize);
        let rest = list.remove(p);
        list.remove_ensures(p);
        lemma_sum_counts_update(self.free_counts, MAX_ORDER as int, order as int, rest.len() as usize);
        assert(self.free_counts[order as int] == list.len());
        assert forall|k: int| 0 <= k < MAX_ORDER implies w.free_counts[k] == (#[trigger] w.free_lists[k]).len() by {
            assert(self.free_counts[k] == self.free_lists[k].len());
        }
        assert forall|k: int| 0 <= k < MAX_ORDER implies (#[trigger] w.free_lists[k]).no_duplicates() by {
            assert(self.free_lists[k].no_duplicates());
            if k == order {
                assert forall|a: int, b: int| 0 <= a < rest.len() && 0 <= b < rest.len() && a != b implies rest[a]
                    != rest[b] by {
                    let a2 = if a < p { a } else { a + 1 };
                    let b2 = if b < p { b } else { b + 1 };
                    assert(rest[a] == list[a2]);
                    assert(rest[b] == list[b2]);
                }
            }
        }
        assert forall|k: int, j: int| 0 <= k < MAX_ORDER && 0 <= j < w.free_lists[k].len() implies #[trigger] w.listed_ok(
            k,
            j,
        ) by {
            if k == order {
                let j2 = if j < p { j } else { j + 1 };
                assert(rest[j] == list[j2]);
                assert(self.listed_ok(k, j2));
                assert(list[j2] != list[p]);
            } else {
                assert(self.listed_ok(k, j));
            }
        }
        assert forall|x: int| 0 <= x < w.len() implies #[trigger] w.frame_ok(x) by {
            assert(self.frame_ok(x));
        }
        assert forall|h: int| 0 <= h < self.len() implies !#[trigger] self.inside(h, low) by {
            if self.inside(h, low) {
                if low == cur {
                } else {
                    assert(self.frames[low].state == State::Used);
                }
            }
        }
        assert forall|h: int, x: int| 0 <= h < w.len() && #[trigger] w.inside(h, x) implies w.frames[x].state
            == State::Used && w.frames[x].order == 0 by {
            assert(w.frame_ok(h));
            assert(self.frame_ok(h));
            if h == low {
                if x == high {
                } else if x < high {
                    assert(self.inside(low, x));
                } else {
                    assert(self.inside(high, x));
                }
            } else if h == high {
            } else {
                assert(self.inside(h, x));
            }
        }
        assert forall|x: int| 0 <= x < w.len() implies #[trigger] w.free_is_listed(x) by {
            assert(self.free_is_listed(x));
            if w.frames[x].state == State::Free {
                let k = self.frames[x].order as int;
                assert(self.frame_ok(x));
                let q = self.free_lists[k].index_of(x as usize);
                if k == order {
                    assert(q != p);
                    if q < p {
                        assert(rest[q] == list[q]);
                    } else {
                        assert(rest[q - 1] == list[q]);
                    }
                } else {
                    assert(w.free_lists[k][q] == x);
                }
            }
        }
        assert forall|x: int| 0 <= x < w.len() implies #[trigger] w.no_free_buddy(x) by {
            assert(self.no_free_buddy(x));
            assert(self.frame_ok(x));
        }
        assert(w.wf());
        assert forall|h: int| 0 <= h < w.len() implies !#[trigger] w.inside(h, low) by {
            if w.inside(h, low) {
                assert(h != low && h != high);
                assert(self.inside(h, low));
            }
        }
    }

    /// What giving back a used block ends in: the invariant holds, the free
    /// frames grew by the block, the frame lies in a free block, and where a
    /// higher order is left that block's buddy is not free at its order.
    pub proof fn lemma_coalesce(self, cur: int, order: usize, index: int)
        requires
            self.wf(),
            self.is_allocated(cur),
            self.frames[cur].order == order,
            cur <= index < cur + block_len(order),
        ensures
            ({
                let r = self.coalesce(cur, order);
                let c = self.coalesced_head(cur, order);
                let o = self.coalesced_order(cur, order);
                &&& r.wf()
                &&& r.len() == self.len()
                &&& r.base == self.base
                &&& r.total_free() == self.total_free() + block_len(order)
                &&& 0 <= c <= index < c + block_len(o)
                &&& c < self.len()
                &&& order <= o < MAX_ORDER
                &&& is_block_start(c, o)
                &&& r.frames[c] == self.descriptor(c, o, State::Free)
                &&& r.in_free_pool(index)
                &&& (o + 1 < MAX_ORDER && spec_buddy(c, o) < self.len() ==> !(r.frames[spec_buddy(
                    c,
                    o,
                )].state == State::Free && r.frames[spec_buddy(c, o)].order == o))
            }),
        decreases MAX_ORDER - order,
    {
        assert(self.frame_ok(cur));
        if self.mergeable(cur, order) {
            let buddy = spec_buddy(cur, order);
            let low = if cur < buddy { cur } else { buddy };
            self.lemma_absorb(cur, order);
            let w = self.absorb(cur, order);
            w.lemma_coalesce(low, (order + 1) as usize, index);
        } else {
            assert forall|x: int| cur < x < cur + block_len(order) implies (#[trigger] self.frames[x]).state
                == State::Used && self.frames[x].order == 0 by {
                assert(self.inside(cur, x));
            }
            self.lemma_push_free(cur, order);
            lemma_buddy_pair(cur as u64, order as u64);
            let r = self.push_free(cur, order);
            assert(r.frames[cur].state == State::Free && cur <= index < cur + block_len(
                r.frames[cur].order,
            ));
        }
    }
}


/// Behind a block starts a block of the same order.
pub proof fn lemma_next_block_start(i: u64, k: u64)
    by (bit_vector)
    requires
        k < 15,
        i <= 0x10_0000_0000_0000,
        i & (((1u64 << k) - 1) as u64) == 0,
    ensures
        ((i + (1u64 << k)) as u64) & (((1u64 << k) - 1) as u64) == 0,
{
}

/// The head of a block is the index of any of its frames with the bits
/// below the order cleared.
pub proof fn lemma_head_of_block(h: u64, x: u64, o: u64)
    by (bit_vector)
    requires
        o < 15,
        x <= 0x10_0000_0000_0000,
    ensures
        h & (((1u64 << o) - 1) as u64) == 0 && h < x && x < h + (1u64 << o) ==> h == x & !(((1u64
            << o) - 1) as u64) && o >= 1,
        x & !(((1u64 << o) - 1) as u64) <= x,
        x < (x & !(((1u64 << o) - 1) as u64)) + (1u64 << o),
{
}

impl BuddyView {
    /// The allocator before any block was formed: every frame is a used
    /// block of its own, and the lists are empty.
    pub open spec fn unformed(base: u64, count: int) -> BuddyView {
        BuddyView {
            base,
            frames: Seq::new(
                count as nat,
                |i: int| Frame { number: (base + i) as u64, order: 0, state: State::Used, linked: false },
            ),
            free_lists: Seq::new(MAX_ORDER as nat, |k: int| Seq::<usize>::empty()),
            free_counts: Seq::new(MAX_ORDER as nat, |k: int| 0usize),
        }
    }

    /// Forms free blocks from the frames from `index` on: as many of the
    /// order `order` as fit, then of each lower order in turn.
    pub open spec fn formed(self, index: int, order: int) -> BuddyView
        decreases order, self.len() - index,
    {
        if order < 0 || order >= MAX_ORDER {
            self
        } else if 0 <= index && block_len(order as usize) >= 1 && index + block_len(order as usize)
            <= self.len() {
            proof {
                assert(self.push_free(index, order as usize).len() == self.len());
            }
            self.push_free(index, order as usize).formed(index + block_len(order as usize), order)
        } else if order == 0 {
            self
        } else {
            self.formed(index, order - 1)
        }
    }

    /// The allocator over `count` frames, all free, in the largest blocks
    /// that fit from the first frame on.
    pub open spec fn initial(base: u64, count: int) -> BuddyView {
        Self::unformed(base, count).formed(0, MAX_ORDER - 1)
    }

    /// The state while the blocks are formed.
    pub open spec fn forming(self, index: int, order: int) -> bool {
        &&& self.wf()
        &&& 0 <= index <= self.len()
        &&& 0 <= order < MAX_ORDER
        &&& is_block_start(index, order as usize)
        &&& self.total_free() == index
        &&& forall|x: int| index <= x < self.len() ==> #[trigger] self.is_single(x)
        &&& order + 1 < MAX_ORDER ==> self.len() - index < 2 * block_len(order as usize)
        &&& forall|x: int| 0 <= x < self.len() ==> #[trigger] self.formed_above(x, index, order)
    }

    /// While the blocks are formed, a free block is of a higher order than
    /// the one that is being formed, unless that is the highest or no
    /// further block of it fits.
    pub open spec fn formed_above(self, x: int, index: int, order: int) -> bool {
        self.frames[x].state == State::Free ==> self.frames[x].order > order || (self.frames[x].order
            == order && (order + 1 == MAX_ORDER || self.len() - index < block_len(order as usize)))
    }

    pub proof fn lemma_unformed(base: u64, count: int)
        requires
            0 <= count <= max_frame_count(),
            base + count <= MAX_NUMBER + 1,
        ensures
            Self::unformed(base, count).forming(0, MAX_ORDER - 1),
            Self::unformed(base, count).len() == count,
    {
        let v = Self::unformed(base, count);
        lemma_start_of_order_zero(0);
        assert(0u64 & (((1u64 << 14u64) - 1) as u64) == 0) by (bit_vector);
        assert forall|i: int| 0 <= i < v.len() implies #[trigger] v.frame_ok(i) by {
            lemma_start_of_order_zero(i as u64);
        }
        assert forall|h: int, x: int| 0 <= h < v.len() && #[trigger] v.inside(h, x) implies v.frames[x].state
            == State::Used && v.frames[x].order == 0 by {
            lemma_start_of_order_zero(h as u64);
        }
        assert forall|x: int| 0 <= x < v.len() implies #[trigger] v.is_single(x) by {
            assert forall|h: int| 0 <= h < v.len() implies !#[trigger] v.inside(h, x) by {
                lemma_start_of_order_zero(h as u64);
            }
        }
        assert forall|i: int| 0 <= i < v.len() implies #[trigger] v.free_is_listed(i) by {}
        assert forall|i: int| 0 <= i < v.len() implies #[trigger] v.no_free_buddy(i) by {}
        assert forall|i: int| 0 <= i < v.len() implies #[trigger] v.formed_above(i, 0, MAX_ORDER - 1) by {}
        assert forall|k: int| 0 <= k < MAX_ORDER implies (#[trigger] v.free_lists[k]).no_duplicates() by {}
        assert(v.total_free() == 0) by {
            Self::lemma_sum_of_zeros(v.free_counts, MAX_ORDER as int);
        }
    }

    pub proof fn lemma_sum_of_zeros(counts: Seq<usize>, upto: int)
        requires
            0 <= upto <= counts.len(),
            forall|k: int| 0 <= k < counts.len() ==> counts[k] == 0,
        ensures
            sum_counts(counts, upto) == 0,
        decreases upto,
    {
        if upto > 0 {
            Self::lemma_sum_of_zeros(counts, upto - 1);
            assert(counts[upto - 1] == 0);
        }
    }

    /// Forming one block keeps the state of forming.
    pub proof fn lemma_form_step(self, index: int, order: int)
        requires
            self.forming(index, order),
            index + block_len(order as usize) <= self.len(),
        ensures
            block_len(order as usize) >= 1,
            self.push_free(index, order as usize).forming(index + block_len(order as usize), order),
            self.push_free(index, order as usize).len() == self.len(),
            self.push_free(index, order as usize).base == self.base,
    {
        lemma_block_len(order as u64);
        lemma_next_block_start(index as u64, order as u64);
        assert(self.is_single(index));
        assert forall|x: int| index < x < index + block_len(order as usize) implies (#[trigger] self.frames[x]).state
            == State::Used && self.frames[x].order == 0 by {
            assert(self.is_single(x));
        }
        if order + 1 < MAX_ORDER && spec_buddy(index, order as usize) < self.len() {
            assert(self.formed_above(spec_buddy(index, order as usize), index, order));
        }
        self.lemma_push_free(index, order as usize);
        let w = self.push_free(index, order as usize);
        assert forall|x: int| 0 <= x < w.len() implies #[trigger] w.formed_above(
            x,
            index + block_len(order as usize),
            order,
        ) by {
            assert(self.formed_above(x, index, order));
        }
        assert forall|x: int| index + block_len(order as usize) <= x < w.len() implies #[trigger] w.is_single(
            x,
        ) by {
            assert(self.is_single(x));
            assert(w.frames[x] == self.frames[x]);
            assert forall|h: int| 0 <= h < w.len() implies !#[trigger] w.inside(h, x) by {
                if h != index {
                    if w.inside(h, x) {
                        assert(self.inside(h, x));
                    }
                }
            }
        }
    }

    /// Where no further block of the order fits, forming goes on with the
    /// next lower order.
    pub proof fn lemma_form_down(self, index: int, order: int)
        requires
            self.forming(index, order),
            order > 0,
            index + block_len(order as usize) > self.len(),
        ensures
            self.forming(index, order - 1),
    {
        lemma_start_of_lower_order(index as u64, order as u64, (order - 1) as u64);
        lemma_block_len((order - 1) as u64);
        assert forall|x: int| 0 <= x < self.len() implies #[trigger] self.formed_above(x, index, order - 1) by {
            assert(self.formed_above(x, index, order));
        }
    }

    /// Forming ends in a state that keeps the invariant and in which every
    /// frame is free.
    pub proof fn lemma_formed(self, index: int, order: int)
        requires
            self.forming(index, order),
        ensures
            self.formed(index, order).wf(),
            self.formed(index, order).total_free() == self.len(),
            self.formed(index, order).len() == self.len(),
            self.formed(index, order).base == self.base,
        decreases order, self.len() - index,
    {
        lemma_block_len(order as u64);
        if index + block_len(order as usize) <= self.len() {
            self.lemma_form_step(index, order);
            self.push_free(index, order as usize).lemma_formed(index + block_len(order as usize), order);
        } else if order > 0 {
            lemma_start_of_lower_order(index as u64, order as u64, (order - 1) as u64);
            self.lemma_form_down(index, order);
            self.lemma_formed(index, order - 1);
        } else {
            lemma_start_of_order_zero(index as u64);
            assert(self.formed(index, order) == self);
        }
    }

    /// What serving a request ends in: the invariant holds, the block handed
    /// out is a used head of the order asked for, and the free frames shrank
    /// by the block.
    pub proof fn lemma_allocated(self, order: usize)
        requires
            self.wf(),
            self.first_nonempty(order as int) < MAX_ORDER,
        ensures
            ({
                let from = self.first_nonempty(order as int);
                let index = self.free_lists[from][0] as int;
                let r = self.allocated(order, from);
                &&& order <= from < MAX_ORDER
                &&& self.free_lists[from].len() > 0
                &&& 0 <= index < self.len()
                &&& self.frames[index].state == State::Free
                &&& r.wf()
                &&& r.len() == self.len()
                &&& r.base == self.base
                &&& r.frames[index] == self.descriptor(index, order, State::Used)
                &&& r.is_allocated(index)
                &&& r.total_free() == self.total_free() - block_len(order)
            }),
    {
        self.lemma_first_nonempty(order as int);
        let from = self.first_nonempty(order as int);
        let index = self.free_lists[from][0] as int;
        self.lemma_take_front(from, order);
        assert(self.listed_ok(from, 0));
        let taken = self.take_front(from, order);
        assert(taken.splitting(index, order as int, from));
        taken.lemma_split(index, order as int, from);
        let done = self.allocated(order, from);
        lemma_block_len(order as u64);
        assert(done.frames[index] == taken.frames[index]);
        assert(done.is_head(index)) by {
            assert(done.frame_ok(index));
            assert forall|h: int| 0 <= h < done.len() implies !#[trigger] done.inside(h, index) by {
                if done.inside(h, index) {
                    assert(done.frame_ok(h));
                    assert(done.frames[index].state == State::Used);
                    if done.frames[index].order != 0 {
                        assert(false);
                    }
                    assert(h < index);
                    assert(done.frames[h] == taken.frames[h]);
                    assert(taken.inside(h, index));
                }
            }
        }
    }

    /// The first order from `from` on whose list is not empty lies from
    /// `from` on, and the lists between the two are empty.
    pub proof fn lemma_first_nonempty(self, from: int)
        requires
            0 <= from,
        ensures
            from <= self.first_nonempty(from) || self.first_nonempty(from) == MAX_ORDER,
            self.first_nonempty(from) <= MAX_ORDER,
            self.first_nonempty(from) < MAX_ORDER ==> self.free_lists[self.first_nonempty(from)].len() > 0,
            forall|k: int| from <= k < self.first_nonempty(from) ==> (#[trigger] self.free_lists[k]).len() == 0,
        decreases MAX_ORDER - from,
    {
        if from < MAX_ORDER && self.free_lists[from].len() == 0 {
            self.lemma_first_nonempty(from + 1);
        }
    }

    /// Handing a block out and giving it back leaves the number of free
    /// frames as it was.
    pub proof fn lemma_allocate_then_free(self, order: usize)
        requires
            self.wf(),
            self.first_nonempty(order as int) < MAX_ORDER,
        ensures
            ({
                let from = self.first_nonempty(order as int);
                let index = self.free_lists[from][0] as int;
                let after = self.allocated(order, from).released(index);
                &&& after.wf()
                &&& after.total_free() == self.total_free()
                &&& after.len() == self.len()
                &&& after.base == self.base
            }),
    {
        self.lemma_allocated(order);
        let from = self.first_nonempty(order as int);
        let index = self.free_lists[from][0] as int;
        let taken = self.allocated(order, from);
        lemma_block_len(order as u64);
        taken.lemma_coalesce(index, order, index);
    }
}


/// A block whose head lies in a block of the same or a higher order ends
/// in that block; a block of a higher order can only start where the
/// other starts.
pub proof fn lemma_block_within(i: u64, m: u64, h: u64, k: u64)
    by (bit_vector)
    requires
        k < 15,
        m < 15,
        i <= 0x10_0000_0000_0000,
        h <= 0x10_0000_0000_0000,
        i & (((1u64 << m) - 1) as u64) == 0,
        h & (((1u64 << k) - 1) as u64) == 0,
        i <= h,
        h < i + (1u64 << m),
    ensures
        k <= m ==> h + (1u64 << k) <= i + (1u64 << m),
        k > m ==> h == i,
{
}

impl BuddyView {
    /// Every block that is handed out in this state is handed out in
    /// `after` too, with the same descriptor.
    pub open spec fn keeps_allocated(self, after: BuddyView) -> bool {
        &&& after.len() == self.len()
        &&& forall|x: int| #[trigger] self.is_allocated(x) ==> after.is_allocated(x) && after.frames[x] == self.frames[x]
    }

    /// Every block but the one at `index` that is handed out in this state
    /// is handed out in `after` too, with the same descriptor.
    pub open spec fn keeps_allocated_but(self, after: BuddyView, index: int) -> bool {
        &&& after.len() == self.len()
        &&& forall|x: int|
            x != index && #[trigger] self.is_allocated(x) ==> after.is_allocated(x) && after.frames[x]
                == self.frames[x]
    }

    /// The descriptors outside the frames from `low` up to `high` are the
    /// same in both states.
    pub open spec fn same_outside(self, after: BuddyView, low: int, high: int) -> bool {
        &&& after.len() == self.len()
        &&& forall|x: int| 0 <= x < self.len() && !(low <= x < high) ==> #[trigger] after.frames[x] == self.frames[x]
    }

    /// What serving a request leaves alone: the descriptors outside the
    /// free block that it is served from, and with them every block that
    /// was handed out before.
    pub proof fn lemma_allocated_frames(self, order: usize)
        requires
            self.wf(),
            self.first_nonempty(order as int) < MAX_ORDER,
        ensures
            ({
                let from = self.first_nonempty(order as int);
                let index = self.free_lists[from][0] as int;
                let r = self.allocated(order, from);
                &&& self.same_outside(r, index, index + block_len(from as usize))
                &&& self.keeps_allocated(r)
            }),
    {
        self.lemma_allocated(order);
        self.lemma_first_nonempty(order as int);
        let from = self.first_nonempty(order as int);
        let index = self.free_lists[from][0] as int;
        self.lemma_take_front(from, order);
        assert(self.listed_ok(from, 0));
        assert(self.frame_ok(index));
        let taken = self.take_front(from, order);
        assert(taken.splitting(index, order as int, from));
        taken.lemma_split(index, order as int, from);
        let r = self.allocated(order, from);
        lemma_block_len(order as u64);
        lemma_block_len(from as u64);
        let high = index + block_len(from as usize);
        assert forall|x: int| 0 <= x < self.len() && !(index <= x < high) implies #[trigger] r.frames[x]
            == self.frames[x] by {
            assert(r.frames[x] == taken.frames[x]);
        }
        assert forall|x: int| #[trigger] self.is_allocated(x) implies r.is_allocated(x) && r.frames[x]
            == self.frames[x] by {
            if index < x < high {
                assert(self.inside(index, x));
            }
            assert(!(index <= x < high));
            assert(r.frames[x] == self.frames[x]);
            assert forall|h: int| 0 <= h < r.len() implies !#[trigger] r.inside(h, x) by {
                if r.inside(h, x) {
                    if index <= h < high {
                        assert(r.frame_ok(h));
                        lemma_block_within(index as u64, from as u64, h as u64, r.frames[h].order as u64);
                    } else {
                        assert(r.frames[h] == self.frames[h]);
                        assert(self.inside(h, x));
                    }
                }
            }
        }
    }

    /// What giving a block back leaves alone: the descriptors outside the
    /// free block that it ends in, and with them every other block that was
    /// handed out.
    pub proof fn lemma_coalesce_frames(self, cur: int, order: usize)
        requires
            self.wf(),
            self.is_allocated(cur),
            self.frames[cur].order == order,
        ensures
            ({
                let r = self.coalesce(cur, order);
                let c = self.coalesced_head(cur, order);
                let o = self.coalesced_order(cur, order);
                &&& self.same_outside(r, c, c + block_len(o))
                &&& self.keeps_allocated_but(r, cur)
            }),
        decreases MAX_ORDER - order,
    {
        assert(self.frame_ok(cur));
        lemma_block_len(order as u64);
        let r = self.coalesce(cur, order);
        if self.mergeable(cur, order) {
            let buddy = spec_buddy(cur, order);
            let low = if cur < buddy { cur } else { buddy };
            let high = if cur < buddy { buddy } else { cur };
            let w = self.absorb(cur, order);
            self.lemma_absorb(cur, order);
            lemma_buddy_pair(cur as u64, order as u64);
            assert(self.frame_ok(buddy));
            w.lemma_coalesce_frames(low, (order + 1) as usize);
            w.lemma_coalesce(low, (order + 1) as usize, low);
            w.lemma_coalesce(low, (order + 1) as usize, high);
            let c = self.coalesced_head(cur, order);
            let o = self.coalesced_order(cur, order);
            assert(c == w.coalesced_head(low, (order + 1) as usize));
            assert(o == w.coalesced_order(low, (order + 1) as usize));
            assert forall|x: int| 0 <= x < self.len() && !(c <= x < c + block_len(o)) implies #[trigger] r.frames[x]
                == self.frames[x] by {
                assert(r.frames[x] == w.frames[x]);
                assert(x != low && x != high);
            }
            assert forall|x: int| x != cur && #[trigger] self.is_allocated(x) implies r.is_allocated(x)
                && r.frames[x] == self.frames[x] by {
                assert(x != buddy);
                assert(w.frames[x] == self.frames[x]);
                assert forall|h: int| 0 <= h < w.len() implies !#[trigger] w.inside(h, x) by {
                    if w.inside(h, x) {
                        if h == low {
                            if x < high {
                                assert(self.inside(low, x));
                            } else {
                                assert(self.inside(high, x));
                            }
                        } else if h == high {
                            lemma_start_of_order_zero(0);
                        } else {
                            assert(w.frames[h] == self.frames[h]);
                            assert(self.inside(h, x));
                        }
                    }
                }
                assert(w.is_allocated(x));
            }
        } else {
            assert forall|x: int| x != cur && #[trigger] self.is_allocated(x) implies r.is_allocated(x)
                && r.frames[x] == self.frames[x] by {
                assert forall|h: int| 0 <= h < r.len() implies !#[trigger] r.inside(h, x) by {
                    if r.inside(h, x) {
                        assert(self.inside(h, x));
                    }
                }
            }
        }
    }
}

/// The buddy allocator: the descriptors of the managed frames with their
/// links, the ends of the free lists and their lengths.
pub struct BuddyAllocator {
    base: u64,
    frames: Vec<Node<Frame>>,
    free_lists: Vec<AList<Frame>>,
    free_counts: Vec<usize>,
}

impl View for BuddyAllocator {
    type V = BuddyView;

    closed spec fn view(&self) -> BuddyView {
        BuddyView {
            base: self.base,
            frames: Seq::new(self.frames@.len(), |i: int| self.frames@[i].value),
            free_lists: Seq::new(self.free_lists@.len(), |k: int| self.free_lists@[k]@),
            free_counts: self.free_counts@,
        }
    }
}

impl BuddyAllocator {
    /// The links of the descriptors are those that the free lists ask for,
    /// and a used descriptor stands in no list.
    pub closed spec fn links_ok(&self) -> bool {
        &&& self.free_lists@.len() == MAX_ORDER
        &&& forall|k: int| 0 <= k < MAX_ORDER ==> (#[trigger] self.free_lists@[k]).wf(self.frames@)
        &&& forall|i: int|
            0 <= i < self.frames@.len() && self.frames@[i].value.state == State::Used ==> (
            #[trigger] self.frames@[i]).is_unlinked()
    }

    /// The invariant of the allocator: that of its contents, and the links
    /// that thread the free blocks.
    pub open spec fn wf(&self) -> bool {
        self@.wf() && self.links_ok()
    }

    /// The allocator over the `count` frames from the one that holds
    /// `base_addr` on. Every frame is free, in the largest blocks that fit
    /// from the first frame on.
    pub fn new(base_addr: PhysicalAddress, count: usize) -> (r: BuddyAllocator)
        requires
            count <= max_frame_count(),
            base_addr@ / SIZE as int + count <= MAX_NUMBER + 1,
        ensures
            r@ == BuddyView::initial((base_addr@ / SIZE as int) as u64, count as int),
            r.wf(),
            r@.len() == count,
            r@.base == base_addr@ / SIZE as int,
            r@.total_free() == count,
    {
        let base: u64 = base_addr.0 / SIZE;
        let mut frames: Vec<Node<Frame>> = Vec::new();
        let mut i: usize = 0;
        while i < count
            invariant
                i <= count,
                base + count <= MAX_NUMBER + 1,
                frames@.len() == i,
                forall|x: int|
                    0 <= x < i ==> (#[trigger] frames@[x]).value == (Frame {
                        number: (base + x) as u64,
                        order: 0,
                        state: State::Used,
                        linked: false,
                    }) && frames@[x].is_unlinked(),
            decreases count - i,
        {
            frames.push(Node::new(Frame { number: base + i as u64, order: 0, state: State::Used, linked: false }));
            i += 1;
        }
        let mut free_lists: Vec<AList<Frame>> = Vec::new();
        let mut free_counts: Vec<usize> = Vec::new();
        let mut k: usize = 0;
        while k < MAX_ORDER
            invariant
                k <= MAX_ORDER,
                free_lists@.len() == k,
                free_counts@.len() == k,
                forall|x: int|
                    0 <= x < k ==> (#[trigger] free_lists@[x])@ == Seq::<usize>::empty() && free_lists@[x].head is None
                        && free_lists@[x].tail is None,
                forall|x: int| 0 <= x < k ==> free_counts@[x] == 0,
            decreases MAX_ORDER - k,
        {
            free_lists.push(AList::new());
            free_counts.push(0);
            k += 1;
        }
        let mut allocator = BuddyAllocator { base, frames, free_lists, free_counts };
        proof {
            assert(allocator@ =~~= BuddyView::unformed(base, count as int));
            BuddyView::lemma_unformed(base, count as int);
            assert forall|k: int| 0 <= k < MAX_ORDER implies (#[trigger] allocator.free_lists@[k]).wf(
                allocator.frames@,
            ) by {
                assert(allocator.free_lists@[k]@ == Seq::<usize>::empty());
            }
            assert(allocator.links_ok());
        }
        let ghost start = allocator@;
        let mut index: usize = 0;
        let mut order: usize = MAX_ORDER - 1;
        loop
            invariant
                allocator@.forming(index as int, order as int),
                allocator.links_ok(),
                allocator@.len() == count,
                allocator@.base == base,
                allocator@.formed(index as int, order as int) == start.formed(0, MAX_ORDER - 1),
            ensures
                allocator@ == start.formed(0, MAX_ORDER - 1),
                allocator.wf(),
                allocator@.total_free() == count,
                allocator@.len() == count,
                allocator@.base == base,
            decreases order, count - index,
        {
            proof {
                lemma_block_len(order as u64);
                allocator@.lemma_formed(index as int, order as int);
            }
            let size: usize = (1u64 << order) as usize;
            if size <= count - index {
                proof {
                    allocator@.lemma_form_step(index as int, order as int);
                    assert(allocator@.is_single(index as int));
                    assert forall|x: int| index < x < index + block_len(order) implies (
                    #[trigger] allocator@.frames[x]).state == State::Used && allocator@.frames[x].order
                        == 0 by {
                        assert(allocator@.is_single(x));
                    }
                    if order + 1 < MAX_ORDER && spec_buddy(index as int, order) < allocator@.len() {
                        assert(allocator@.formed_above(spec_buddy(index as int, order), index as int, order as int));
                    }
                }
                allocator.push_block(index, order);
                index += size;
            } else if order == 0 {
                proof {
                    assert(allocator@.formed(index as int, 0) == allocator@);
                }
                break ;
            } else {
                proof {
                    allocator@.lemma_form_down(index as int, order as int);
                }
                order -= 1;
            }
        }
        allocator
    }

    /// The frame at `index`, a used head, becomes a free block of the given
    /// order.
    fn push_block(&mut self, index: usize, order: usize)
        requires
            old(self).wf(),
            index < old(self)@.len(),
            old(self)@.frames[index as int].state == State::Used,
            old(self)@.is_head(index as int),
            order < MAX_ORDER,
            is_block_start(index as int, order),
            index + block_len(order) <= old(self)@.len(),
            forall|x: int|
                index < x < index + block_len(order) ==> (#[trigger] old(self)@.frames[x]).state
                    == State::Used && old(self)@.frames[x].order == 0,
            order + 1 < MAX_ORDER && spec_buddy(index as int, order) < old(self)@.len() ==> !(old(self)@.frames[spec_buddy(index as int, order)].state == State::Free && old(self)@.frames[spec_buddy(index as int, order)].order == order),
        ensures
            final(self)@ == old(self)@.push_free(index as int, order),
            final(self).wf(),
    {
        let ghost view = self@;
        let ghost before = self.frames@;
        let ghost lists = self.free_lists@;
        proof {
            view.lemma_push_free(index as int, order);
            assert(view.frame_ok(index as int));
            assert(view.free_counts[order as int] == view.free_lists[order as int].len());
            view.lemma_list_len(order as int);
            view.lemma_used_not_listed(index as int, order as int);
            assert(lists[order as int].wf(before));
            assert(before[index as int].is_unlinked());
            if view.free_lists[order as int].len() > 0 {
                assert(view.listed_ok(order as int, view.free_lists[order as int].len() - 1));
            }
        }
        let number = self.frames[index].value.number;
        self.free_lists[order].push_back(&mut self.frames, index);
        let ghost mid = self.frames@;
        self.frames[index].value = Frame { number, order, state: State::Free, linked: true };
        self.free_counts[order] += 1;
        proof {
            assert(self@ =~~= view.push_free(index as int, order));
            self.lemma_links_kept(before, mid, lists, view, order as int, index as int);
        }
    }

    /// After one list was changed, and the value of one descriptor with it,
    /// the links are sound again: the other lists hold none of the nodes
    /// that were touched.
    proof fn lemma_links_kept(
        &self,
        before: Seq<Node<Frame>>,
        mid: Seq<Node<Frame>>,
        lists: Seq<AList<Frame>>,
        view: BuddyView,
        order: int,
        index: int,
    )
        requires
            view.wf(),
            0 <= order < MAX_ORDER,
            0 <= index < before.len(),
            before.len() == mid.len() == self.frames@.len(),
            view.frames.len() == before.len(),
            lists.len() == MAX_ORDER,
            self.free_lists@.len() == MAX_ORDER,
            forall|i: int| 0 <= i < before.len() ==> view.frames[i] == (#[trigger] before[i]).value,
            forall|k: int| 0 <= k < MAX_ORDER ==> (#[trigger] lists[k])@ == view.free_lists[k],
            forall|k: int| 0 <= k < MAX_ORDER ==> (#[trigger] lists[k]).wf(before),
            forall|i: int| 0 <= i < before.len() && before[i].value.state == State::Used ==> (#[trigger] before[i]).is_unlinked(),
            forall|k: int| 0 <= k < MAX_ORDER && k != order ==> #[trigger] self.free_lists@[k] == lists[k],
            self.free_lists@[order].wf(mid),
            forall|i: int|
                0 <= i < before.len() && i != index && !(view.frames[i].state == State::Free && view.frames[i].order
                    == order) ==> #[trigger] mid[i] == before[i],
            forall|i: int|
                0 <= i < mid.len() ==> (#[trigger] self.frames@[i]).next == mid[i].next && self.frames@[i].prev
                    == mid[i].prev,
            forall|i: int| 0 <= i < mid.len() && i != index ==> (#[trigger] self.frames@[i]).value == before[i].value,
            self.frames@[index].value.state == State::Used ==> mid[index].is_unlinked(),
            view.frames[index].state == State::Used || view.frames[index].order == order,
        ensures
            self.links_ok(),
    {
        let after = self.frames@;
        assert forall|k: int| 0 <= k < MAX_ORDER implies (#[trigger] self.free_lists@[k]).wf(after) by {
            if k == order {
                lemma_linked_kept(mid, after, self.free_lists@[k]@);
            } else {
                let list = lists[k]@;
                assert(lists[k].wf(before));
                assert forall|j: int| 0 <= j < list.len() implies after[(#[trigger] list[j]) as int].next
                    == before[list[j] as int].next && after[list[j] as int].prev == before[list[j] as int].prev by {
                    assert(view.listed_ok(k, j));
                    assert(mid[list[j] as int] == before[list[j] as int]);
                }
                lemma_linked_kept(before, after, list);
            }
        }
        assert forall|i: int| 0 <= i < after.len() && after[i].value.state == State::Used implies (
        #[trigger] after[i]).is_unlinked() by {
            if i != index {
                assert(before[i].value == after[i].value);
                assert(before[i].is_unlinked());
                assert(mid[i] == before[i]);
            }
        }
    }

    /// The oldest block of the order `from` leaves its list and is handed
    /// out with the order `order`.
    fn take_front(&mut self, from: usize, order: usize) -> (index: usize)
        requires
            old(self).wf(),
            order <= from < MAX_ORDER,
            old(self)@.free_lists[from as int].len() > 0,
        ensures
            index == old(self)@.free_lists[from as int][0],
            final(self)@ == old(self)@.take_front(from as int, order),
            final(self).links_ok(),
    {
        let ghost view = self@;
        let ghost before = self.frames@;
        let ghost lists = self.free_lists@;
        proof {
            assert(view.listed_ok(from as int, 0));
            assert(view.frame_ok(view.free_lists[from as int][0] as int));
            assert(view.free_counts[from as int] == view.free_lists[from as int].len());
            assert(lists[from as int].wf(before));
            if view.free_lists[from as int].len() > 1 {
                assert(view.listed_ok(from as int, 1));
            }
        }
        let popped = self.free_lists[from].pop_front(&mut self.frames);
        let index = popped.unwrap();
        let ghost mid = self.frames@;
        self.free_counts[from] -= 1;
        let number = self.frames[index].value.number;
        self.frames[index].value = Frame { number, order, state: State::Used, linked: false };
        proof {
            assert(self@ =~~= view.take_front(from as int, order));
            self.lemma_links_kept(before, mid, lists, view, from as int, index as int);
        }
        index
    }

    /// Hands out a block of `2^request_order` frames: the oldest free block
    /// of the lowest order that has one, split down to the order asked for.
    /// `None` if the order is no order or no such block is free. The
    /// descriptors outside the block that is split stay as they are, and
    /// what was handed out before stays handed out.
    pub fn allocate(&mut self, request_order: usize) -> (r: Option<Frame>)
        requires
            old(self).wf(),
        ensures
            final(self).wf(),
            r is None <==> old(self)@.first_nonempty(request_order as int) >= MAX_ORDER,
            r is None ==> final(self)@ == old(self)@,
            r matches Some(frame) ==> ({
                let from = old(self)@.first_nonempty(request_order as int);
                let index = old(self)@.free_lists[from][0] as int;
                &&& request_order <= from < MAX_ORDER
                &&& 0 <= index < old(self)@.len()
                &&& frame == old(self)@.descriptor(index, request_order, State::Used)
                &&& final(self)@ == old(self)@.allocated(request_order, from)
                &&& final(self)@.frames[index] == frame
                &&& final(self)@.is_allocated(index)
                &&& final(self)@.total_free() == old(self)@.total_free() - block_len(request_order)
                &&& final(self)@.len() == old(self)@.len()
                &&& final(self)@.base == old(self)@.base
                &&& old(self)@.same_outside(final(self)@, index, index + block_len(from as usize))
            }),
            old(self)@.keeps_allocated(final(self)@),
    {
        if MAX_ORDER <= request_order {
            return None;
        }
        let mut from: usize = request_order;
        while from < MAX_ORDER
            invariant
                request_order <= from <= MAX_ORDER,
                *self == *old(self),
                self.wf(),
                self@.first_nonempty(from as int) == self@.first_nonempty(request_order as int),
            decreases MAX_ORDER - from,
        {
            proof {
                assert(self@.free_counts[from as int] == self@.free_lists[from as int].len());
            }
            if self.free_counts[from] != 0 {
                proof {
                    self@.lemma_first_nonempty(request_order as int);
                    assert(self@.first_nonempty(request_order as int) == from);
                    self@.lemma_allocated(request_order);
                    self@.lemma_allocated_frames(request_order);
                    self@.lemma_take_front(from as int, request_order);
                }
                let index = self.take_front(from, request_order);
                let ghost taken = self@;
                proof {
                    assert(taken.splitting(index as int, request_order as int, from as int));
                }
                let mut level: usize = request_order;
                while level < from
                    invariant
                        request_order <= level <= from < MAX_ORDER,
                        self@.splitting(index as int, level as int, from as int),
                        self.links_ok(),
                        self@.split(index as int, level as int, from as int) == taken.split(
                            index as int,
                            request_order as int,
                            from as int,
                        ),
                    decreases from - level,
                {
                    proof {
                        self@.lemma_split_step(index as int, level as int, from as int);
                        let b = index + block_len(level);
                        assert(self@.is_single(b));
                        assert forall|x: int| b < x < b + block_len(level) implies (#[trigger] self@.frames[x]).state
                            == State::Used && self@.frames[x].order == 0 by {
                            assert(self@.is_single(x));
                        }
                        lemma_upper_half(index as u64, from as u64, level as u64);
                        lemma_block_len(level as u64);
                        lemma_buddy_involution(index as u64, level as u64);
                        assert(spec_buddy(b, level) == index);
                    }
                    let buddy: usize = ((index as u64) ^ (1u64 << level)) as usize;
                    self.push_block(buddy, level);
                    level += 1;
                }
                proof {
                    assert(self@ == old(self)@.allocated(request_order, from as int));
                }
                return Some(self.frames[index].value);
            }
            from += 1;
        }
        None
    }

    /// The used block at `cur` takes in its free buddy at `buddy`.
    fn absorb(&mut self, cur: usize, buddy: usize, order: usize)
        requires
            old(self).wf(),
            old(self)@.is_allocated(cur as int),
            old(self)@.frames[cur as int].order == order,
            old(self)@.mergeable(cur as int, order),
            buddy == spec_buddy(cur as int, order),
        ensures
            final(self)@ == old(self)@.absorb(cur as int, order),
            final(self).wf(),
    {
        let ghost view = self@;
        let ghost before = self.frames@;
        let ghost lists = self.free_lists@;
        proof {
            view.lemma_absorb(cur as int, order);
            assert(view.free_counts[order as int] == view.free_lists[order as int].len());
            assert(view.free_is_listed(buddy as int));
            assert(lists[order as int].wf(before));
            assert forall|i: int|
                0 <= i < before.len() && !(view.frames[i].state == State::Free && view.frames[i].order
                    == order) implies !view.free_lists[order as int].contains(i as usize) by {
                view.lemma_used_not_listed(i, order as int);
            }
        }
        Node::disjoint(&mut self.frames, buddy, &mut self.free_lists[order]);
        let ghost mid = self.frames@;
        self.free_counts[order] -= 1;
        let low = if cur < buddy { cur } else { buddy };
        let high = if cur < buddy { buddy } else { cur };
        let high_number = self.frames[high].value.number;
        self.frames[high].value = Frame { number: high_number, order: 0, state: State::Used, linked: false };
        let ghost between = self.frames@;
        let low_number = self.frames[low].value.number;
        self.frames[low].value = Frame { number: low_number, order: order + 1, state: State::Used, linked: false };
        proof {
            assert(view.frame_ok(high as int));
            assert(view.frame_ok(low as int));
            assert(self@ =~~= view.absorb(cur as int, order));
            assert(self.frames@[cur as int].next == before[cur as int].next);
            assert(self.frames@[cur as int].prev == before[cur as int].prev);
            assert(before[cur as int].is_unlinked());
            self.lemma_absorbed_links(before, mid, lists, view, order as int, cur as int, buddy as int);
        }
    }

    /// After the buddy left its list and the two descriptors were written,
    /// the links are sound again.
    proof fn lemma_absorbed_links(
        &self,
        before: Seq<Node<Frame>>,
        mid: Seq<Node<Frame>>,
        lists: Seq<AList<Frame>>,
        view: BuddyView,
        order: int,
        cur: int,
        buddy: int,
    )
        requires
            view.wf(),
            0 <= order < MAX_ORDER,
            0 <= cur < before.len(),
            0 <= buddy < before.len(),
            before.len() == mid.len() == self.frames@.len(),
            view.frames.len() == before.len(),
            lists.len() == MAX_ORDER,
            self.free_lists@.len() == MAX_ORDER,
            forall|i: int| 0 <= i < before.len() ==> view.frames[i] == (#[trigger] before[i]).value,
            forall|k: int| 0 <= k < MAX_ORDER ==> (#[trigger] lists[k])@ == view.free_lists[k],
            forall|k: int| 0 <= k < MAX_ORDER ==> (#[trigger] lists[k]).wf(before),
            forall|i: int| 0 <= i < before.len() && before[i].value.state == State::Used ==> (#[trigger] before[i]).is_unlinked(),
            forall|k: int| 0 <= k < MAX_ORDER && k != order ==> #[trigger] self.free_lists@[k] == lists[k],
            self.free_lists@[order].wf(mid),
            forall|i: int|
                0 <= i < before.len() && !(view.frames[i].state == State::Free && view.frames[i].order == order)
                    ==> #[trigger] mid[i] == before[i],
            forall|i: int|
                0 <= i < mid.len() ==> (#[trigger] self.frames@[i]).next == mid[i].next && self.frames@[i].prev
                    == mid[i].prev,
            forall|i: int|
                0 <= i < mid.len() && i != cur && i != buddy ==> (#[trigger] self.frames@[i]).value
                    == before[i].value,
            view.frames[cur].state == State::Used,
            mid[buddy].is_unlinked(),
        ensures
            self.links_ok(),
    {
        let after = self.frames@;
        assert forall|k: int| 0 <= k < MAX_ORDER implies (#[trigger] self.free_lists@[k]).wf(after) by {
            if k == order {
                lemma_linked_kept(mid, after, self.free_lists@[k]@);
            } else {
                let list = lists[k]@;
                assert(lists[k].wf(before));
                assert forall|j: int| 0 <= j < list.len() implies after[(#[trigger] list[j]) as int].next
                    == before[list[j] as int].next && after[list[j] as int].prev == before[list[j] as int].prev by {
                    assert(view.listed_ok(k, j));
                    assert(mid[list[j] as int] == before[list[j] as int]);
                }
                lemma_linked_kept(before, after, list);
            }
        }
        assert forall|i: int| 0 <= i < after.len() && after[i].value.state == State::Used implies (
        #[trigger] after[i]).is_unlinked() by {
            if i == cur {
                assert(before[i].is_unlinked());
                assert(mid[i] == before[i]);
            } else if i != buddy {
                assert(before[i].value == after[i].value);
                assert(before[i].is_unlinked());
                assert(mid[i] == before[i]);
            }
        }
    }

    /// Whether the allocator manages the frame of the descriptor.
    pub fn is_managed_obj(&self, frame: &Frame) -> (r: bool)
        ensures
            r == (self@.base <= frame.number < self@.base + self@.len()),
    {
        self.base <= frame.number && frame.number - self.base < self.frames.len() as u64
    }

    /// Whether the frame heads a block that was handed out and not given
    /// back: it is managed and used, and lies inside no other block.
    pub fn is_allocated(&self, frame: &Frame) -> (r: bool)
        requires
            self.wf(),
        ensures
            r == (self@.base <= frame.number && self@.is_allocated(frame.number - self@.base)),
    {
        if !self.is_managed_obj(frame) {
            return false;
        }
        let index: usize = (frame.number - self.base) as usize;
        if self.frames[index].value.state != State::Used {
            return false;
        }
        let mut order: usize = 1;
        proof {
            assert forall|h: int|
                0 <= h < self@.len() && self@.frames[h].order < 1 implies !#[trigger] self@.inside(
                    h,
                    index as int,
                ) by {
                lemma_start_of_order_zero(h as u64);
            }
        }
        while order < MAX_ORDER
            invariant
                self@.wf(),
                index < self@.len(),
                self@.base <= frame.number,
                index == frame.number - self@.base,
                self@.frames[index as int].state == State::Used,
                1 <= order <= MAX_ORDER,
                forall|h: int|
                    0 <= h < self@.len() && self@.frames[h].order < order ==> !#[trigger] self@.inside(
                        h,
                        index as int,
                    ),
            decreases MAX_ORDER - order,
        {
            proof {
                lemma_head_of_block(0, index as u64, order as u64);
                lemma_block_len(order as u64);
            }
            let mask: u64 = (1u64 << order) - 1;
            let head: usize = ((index as u64) & !mask) as usize;
            if head != index && self.frames[head].value.order == order {
                proof {
                    assert(self@.inside(head as int, index as int));
                }
                return false;
            }
            proof {
                assert forall|h: int|
                    0 <= h < self@.len() && self@.frames[h].order < order + 1 implies !#[trigger] self@.inside(
                        h,
                        index as int,
                    ) by {
                    if self@.frames[h].order == order && self@.inside(h, index as int) {
                        assert(self@.frame_ok(h));
                        lemma_head_of_block(h as u64, index as u64, order as u64);
                    }
                }
            }
            order += 1;
        }
        proof {
            assert forall|h: int| 0 <= h < self@.len() implies !#[trigger] self@.inside(h, index as int) by {
                assert(self@.frame_ok(h));
            }
        }
        true
    }

    /// Gives a block back. It merges with its buddy as long as that one is
    /// managed, free and of the same order and a higher order is left; what
    /// is left goes to the end of the list of its order. The descriptors
    /// outside the block that it ends in stay as they are, and the other
    /// blocks that were handed out stay handed out.
    pub fn free(&mut self, frame: Frame)
        requires
            old(self).wf(),
            old(self)@.base <= frame.number,
            old(self)@.is_allocated(frame.number - old(self)@.base),
        ensures
            ({
                let index = frame.number - old(self)@.base;
                let order = old(self)@.frames[index].order;
                let head = old(self)@.coalesced_head(index, order);
                let merged = old(self)@.coalesced_order(index, order);
                &&& final(self)@ == old(self)@.released(index)
                &&& final(self).wf()
                &&& final(self)@.len() == old(self)@.len()
                &&& final(self)@.base == old(self)@.base
                &&& final(self)@.total_free() == old(self)@.total_free() + block_len(order)
                &&& final(self)@.in_free_pool(index)
                &&& 0 <= head <= index < head + block_len(merged)
                &&& is_block_start(head, merged)
                &&& final(self)@.frames[head] == old(self)@.descriptor(head, merged, State::Free)
                &&& (merged + 1 < MAX_ORDER && spec_buddy(head, merged) < old(self)@.len() ==> {
                    let other = final(self)@.frames[spec_buddy(head, merged)];
                    !(other.state == State::Free && other.order == merged)
                })
                &&& old(self)@.same_outside(final(self)@, head, head + block_len(merged))
                &&& old(self)@.keeps_allocated_but(final(self)@, index)
            }),
    {
        let index: usize = (frame.number - self.base) as usize;
        proof {
            assert(self@.frame_ok(index as int));
            lemma_block_len(self@.frames[index as int].order as u64);
            self@.lemma_coalesce(index as int, self@.frames[index as int].order, index as int);
            self@.lemma_coalesce_frames(index as int, self@.frames[index as int].order);
        }
        let mut cur: usize = index;
        let mut order: usize = self.frames[index].value.order;
        loop
            invariant_except_break
                self.wf(),
                self@.is_allocated(cur as int),
                self@.frames[cur as int].order == order,
                order < MAX_ORDER,
                self@.coalesce(cur as int, order) == old(self)@.released(index as int),
            ensures
                self@ == old(self)@.released(index as int),
                self.links_ok(),
            decreases MAX_ORDER - order,
        {
            proof {
                assert(self@.frame_ok(cur as int));
                lemma_block_len(order as u64);
                lemma_buddy_pair(cur as u64, order as u64);
            }
            let buddy: u64 = (cur as u64) ^ (1u64 << order);
            let mut merge = false;
            if order + 1 < MAX_ORDER && buddy < self.frames.len() as u64 {
                let other = &self.frames[buddy as usize].value;
                merge = other.state == State::Free && other.order == order;
            }
            if merge {
                proof {
                    self@.lemma_absorb(cur as int, order);
                }
                self.absorb(cur, buddy as usize, order);
                if (buddy as usize) < cur {
                    cur = buddy as usize;
                }
                order = order + 1;
            } else {
                proof {
                    assert forall|x: int| cur < x < cur + block_len(order) implies (#[trigger] self@.frames[x]).state
                        == State::Used && self@.frames[x].order == 0 by {
                        assert(self@.inside(cur as int, x));
                    }
                }
                self.push_block(cur, order);
                break ;
            }
        }
    }

    /// The descriptor of the buddy of the frame at the given order: the
    /// frame whose index differs in the bit of the order. `None` if the order
    /// is no order, the frame is not managed or the buddy is not.
    pub fn buddy(&self, frame: &Frame, order: usize) -> (r: Option<Frame>)
        ensures
            r == (if order < MAX_ORDER && self@.base <= frame.number < self@.base + self@.len()
                && spec_buddy(frame.number - self@.base, order) < self@.len() {
                Some(self@.frames[spec_buddy(frame.number - self@.base, order)])
            } else {
                None
            }),
    {
        if MAX_ORDER <= order {
            return None;
        }
        if !self.is_managed_obj(frame) {
            return None;
        }
        let index: u64 = frame.number - self.base;
        let buddy: u64 = index ^ (1u64 << order);
        if buddy < self.frames.len() as u64 {
            Some(self.frames[buddy as usize].value)
        } else {
            None
        }
    }

    /// The number of free frames.
    pub fn count_free_objs(&self) -> (r: usize)
        requires
            self@.wf(),
        ensures
            r == self@.total_free(),
    {
        let mut total: usize = 0;
        let mut order: usize = 0;
        proof {
            lemma_start_of_order_zero(0);
        }
        while order < MAX_ORDER
            invariant
                self@.wf(),
                order <= MAX_ORDER,
                total == sum_counts(self@.free_counts, order as int),
                order < MAX_ORDER ==> total <= self@.len() * (block_len(order) - 1),
                order == MAX_ORDER ==> total <= self@.len() * 0x7fff,
            decreases MAX_ORDER - order,
        {
            proof {
                self@.lemma_list_len(order as int);
                lemma_block_len(order as u64);
                let n = self@.len();
                let c = self@.free_counts[order as int] as int;
                let b = block_len(order) as int;
                assert(c * b <= n * b) by (nonlinear_arith)
                    requires
                        0 <= c <= n,
                        0 <= b,
                ;
                assert(n * (b - 1) + n * b == n * (2 * b - 1)) by (nonlinear_arith);
                assert(n * 0x7fff <= usize::MAX) by (nonlinear_arith)
                    requires
                        0 <= n <= usize::MAX as int / 0x8000,
                ;
                assert(n * (2 * b - 1) <= n * 0x7fff) by (nonlinear_arith)
                    requires
                        0 <= n,
                        1 <= b <= 0x4000,
                ;
                if order + 1 < MAX_ORDER {
                    lemma_block_len((order + 1) as u64);
                }
            }
            let size: usize = (1u64 << order) as usize;
            total = total + self.free_counts[order] * size;
            order += 1;
        }
        total
    }

    /// The number of free blocks of the given order.
    pub fn free_count(&self, order: usize) -> (r: usize)
        requires
            self@.wf(),
            order < MAX_ORDER,
        ensures
            r == self@.free_counts[order as int],
            r == self@.free_lists[order as int].len(),
    {
        proof {
            assert(self@.free_counts[order as int] == self@.free_lists[order as int].len());
        }
        self.free_counts[order]
    }

    /// The number of managed frames.
    pub fn len(&self) -> (r: usize)
        ensures
            r == self@.len(),
    {
        self.frames.len()
    }
}

} // verus!
