//! A doubly linked list whose links are kept in the nodes themselves. The
//! nodes stand in an array that the list does not own; a link is the index
//! of a node in it. A node stands in at most one list at a time.

use core::marker::PhantomData;
use vstd::prelude::*;

verus! {

/// The index of a node, or nothing.
pub type Link = Option<usize>;

/// What leads to a node in an array of nodes.
pub trait Get {
    /// The index of the node, if there is one.
    spec fn spec_index(&self) -> Option<usize>;

    /// The node, if there is one.
    fn get<'a, T>(&self, nodes: &'a Vec<Node<T>>) -> (r: Option<&'a Node<T>>)
        requires
            self.spec_index() matches Some(i) ==> i < nodes@.len(),
        ensures
            r is Some <==> self.spec_index() is Some,
            r matches Some(node) ==> *node == nodes@[self.spec_index()->0 as int],
    ;

    /// The node, if there is one, to be changed in place.
    fn get_mut<'a, T>(&self, nodes: &'a mut Vec<Node<T>>) -> (r: Option<&'a mut Node<T>>)
        requires
            self.spec_index() matches Some(i) ==> i < old(nodes)@.len(),
        ensures
            r is Some <==> self.spec_index() is Some,
            r is None ==> final(nodes)@ == old(nodes)@,
            r matches Some(node) ==> *node == old(nodes)@[self.spec_index()->0 as int] && final(nodes)@ == old(nodes)@.update(self.spec_index()->0 as int, *final(node)),
    ;
}

impl Get for Link {
    open spec fn spec_index(&self) -> Option<usize> {
        *self
    }

    fn get<'a, T>(&self, nodes: &'a Vec<Node<T>>) -> (r: Option<&'a Node<T>>) {
        match *self {
            None => None,
            Some(i) => Some(&nodes[i]),
        }
    }

    fn get_mut<'a, T>(&self, nodes: &'a mut Vec<Node<T>>) -> (r: Option<&'a mut Node<T>>) {
        match *self {
            None => None,
            Some(i) => Some(&mut nodes[i]),
        }
    }
}

/// A value beside the links to the nodes behind and before it in the list
/// that it stands in.
pub struct Node<T> {
    pub next: Link,
    pub prev: Link,
    pub value: T,
}

impl<T> Node<T> {
    /// The node stands in no list.
    pub open spec fn is_unlinked(&self) -> bool {
        self.next is None && self.prev is None
    }

    pub fn new(v: T) -> (r: Node<T>)
        ensures
            r.is_unlinked(),
            r.value == v,
    {
        Node { next: None, prev: None, value: v }
    }

    pub fn init(&mut self, v: T)
        ensures
            final(self).is_unlinked(),
            final(self).value == v,
    {
        self.next = None;
        self.prev = None;
        self.value = v;
    }

    pub fn get(&self) -> (r: &T)
        ensures
            *r == self.value,
    {
        &self.value
    }

    pub fn get_mut(&mut self) -> (r: &mut T)
        ensures
            *r == old(self).value,
            final(self).value == *final(r),
            final(self).next == old(self).next,
            final(self).prev == old(self).prev,
    {
        &mut self.value
    }

    /// Takes the node at `index`, which stands in the list, out of it.
    pub fn disjoint(nodes: &mut Vec<Node<T>>, index: usize, belong_list: &mut AList<T>)
        requires
            old(belong_list).wf(old(nodes)@),
            old(belong_list)@.contains(index),
        ensures
            final(belong_list).wf(final(nodes)@),
            same_values(old(nodes)@, final(nodes)@),
            final(belong_list)@ == old(belong_list)@.remove(old(belong_list)@.index_of(index)),
            final(nodes)@[index as int].is_unlinked(),
            forall|i: int|
                0 <= i < old(nodes)@.len() && !old(belong_list)@.contains(i as usize) ==> #[trigger] final(nodes)@[i]
                    == old(nodes)@[i],
    {
        let ghost position = belong_list@.index_of(index);
        belong_list.unlink(nodes, index, Ghost(position));
    }
}

/// The links as the order of a list asks for them: each node points to the
/// one before and the one behind it.
pub open spec fn linked_as<T>(nodes: Seq<Node<T>>, order: Seq<usize>) -> bool {
    &&& order.no_duplicates()
    &&& forall|j: int| 0 <= j < order.len() ==> (#[trigger] order[j]) < nodes.len()
    &&& forall|j: int|
        0 <= j < order.len() ==> (#[trigger] nodes[order[j] as int]).next == (if j + 1 < order.len() {
            Some(order[j + 1])
        } else {
            None
        })
    &&& forall|j: int|
        0 <= j < order.len() ==> (#[trigger] nodes[order[j] as int]).prev == (if j > 0 {
            Some(order[j - 1])
        } else {
            None
        })
}

/// The ends of a list as its order asks for them.
pub open spec fn ends_of(order: Seq<usize>) -> (Link, Link) {
    if order.len() == 0 {
        (None, None)
    } else {
        (Some(order[0]), Some(order[order.len() - 1]))
    }
}

/// The nodes of `order` have the same links in both arrays.
pub open spec fn same_links<T>(before: Seq<Node<T>>, after: Seq<Node<T>>, order: Seq<usize>) -> bool {
    forall|j: int|
        0 <= j < order.len() ==> after[(#[trigger] order[j]) as int].next == before[order[j] as int].next
            && after[order[j] as int].prev == before[order[j] as int].prev
}

/// A list keeps its shape where the links of its nodes stay as they are.
pub proof fn lemma_linked_kept<T>(before: Seq<Node<T>>, after: Seq<Node<T>>, order: Seq<usize>)
    requires
        linked_as(before, order),
        before.len() == after.len(),
        same_links(before, after, order),
    ensures
        linked_as(after, order),
{
    assert forall|j: int| 0 <= j < order.len() implies (#[trigger] after[order[j] as int]).next == (if j + 1
        < order.len() {
        Some(order[j + 1])
    } else {
        None
    }) by {
        assert(after[order[j] as int].next == before[order[j] as int].next);
    }
    assert forall|j: int| 0 <= j < order.len() implies (#[trigger] after[order[j] as int]).prev == (if j > 0 {
        Some(order[j - 1])
    } else {
        None
    }) by {
        assert(after[order[j] as int].prev == before[order[j] as int].prev);
    }
}

/// The values of the nodes are the same in both arrays.
pub open spec fn same_values<T>(before: Seq<Node<T>>, after: Seq<Node<T>>) -> bool {
    &&& before.len() == after.len()
    &&& forall|i: int| 0 <= i < before.len() ==> (#[trigger] after[i]).value == before[i].value
}

/// The two ends of a list of nodes.
pub struct AList<T> {
    pub head: Link,
    pub tail: Link,
    /// The indexes of the nodes from the head to the tail.
    pub order: Ghost<Seq<usize>>,
    pub marker: PhantomData<T>,
}

impl<T> View for AList<T> {
    type V = Seq<usize>;

    open spec fn view(&self) -> Seq<usize> {
        self.order@
    }
}

impl<T> AList<T> {
    /// The list is sound over the array of nodes: the links of its nodes
    /// and its two ends are those that its order asks for.
    pub open spec fn wf(&self, nodes: Seq<Node<T>>) -> bool {
        &&& linked_as(nodes, self@)
        &&& (self.head, self.tail) == ends_of(self@)
    }

    pub fn new() -> (r: AList<T>)
        ensures
            r@ == Seq::<usize>::empty(),
            r.head is None,
            r.tail is None,
            forall|nodes: Seq<Node<T>>| #[trigger] r.wf(nodes),
    {
        AList { head: None, tail: None, order: Ghost(Seq::empty()), marker: PhantomData }
    }

    pub fn is_empty(&self) -> (r: bool)
        ensures
            r == (self.head is None && self.tail is None),
            forall|nodes: Seq<Node<T>>| #[trigger] self.wf(nodes) ==> r == (self@.len() == 0),
    {
        self.head.is_none() && self.tail.is_none()
    }

    /// The number of nodes in the list.
    pub fn len(&self, nodes: &Vec<Node<T>>) -> (r: usize)
        requires
            self.wf(nodes@),
        ensures
            r == self@.len(),
    {
        let mut cnt: usize = 0;
        let mut link = self.head;
        let bound: usize = nodes.len();
        proof {
            lemma_distinct_below(self@, nodes@.len() as int);
        }
        loop
            invariant
                self.wf(nodes@),
                cnt <= self@.len() <= bound,
                link == (if cnt < self@.len() {
                    Some(self@[cnt as int])
                } else {
                    None
                }),
            ensures
                cnt == self@.len(),
            decreases self@.len() - cnt,
        {
            match link {
                None => {
                    break ;
                },
                Some(i) => {
                    proof {
                        assert(self@[cnt as int] == i);
                    }
                    link = nodes[i].next;
                    cnt += 1;
                },
            }
        }
        cnt
    }

    /// The value of the first node of the list.
    pub fn front<'a>(&self, nodes: &'a Vec<Node<T>>) -> (r: Option<&'a T>)
        requires
            self.wf(nodes@),
        ensures
            self@.len() == 0 ==> r is None,
            self@.len() > 0 ==> (r matches Some(v) && *v == nodes@[self@[0] as int].value),
    {
        match self.head {
            None => None,
            Some(h) => {
                proof {
                    assert(self@[0] == h);
                }
                Some(nodes[h].get())
            },
        }
    }

    /// The value of the last node of the list.
    pub fn back<'a>(&self, nodes: &'a Vec<Node<T>>) -> (r: Option<&'a T>)
        requires
            self.wf(nodes@),
        ensures
            self@.len() == 0 ==> r is None,
            self@.len() > 0 ==> (r matches Some(v) && *v == nodes@[self@[self@.len() - 1] as int].value),
    {
        match self.tail {
            None => None,
            Some(t) => {
                proof {
                    assert(self@[self@.len() - 1] == t);
                }
                Some(nodes[t].get())
            },
        }
    }

    /// The value of the first node of the list, to be changed in place.
    pub fn front_mut<'a>(&self, nodes: &'a mut Vec<Node<T>>) -> (r: Option<&'a mut T>)
        requires
            self.wf(old(nodes)@),
        ensures
            self@.len() == 0 ==> r is None && final(nodes)@ == old(nodes)@,
            self@.len() > 0 ==> (r matches Some(v) && *v == old(nodes)@[self@[0] as int].value && final(nodes)@
                == old(nodes)@.update(
                self@[0] as int,
                (Node { value: *final(v), ..old(nodes)@[self@[0] as int] }),
            )),
            same_links(old(nodes)@, final(nodes)@, self@),
    {
        match self.head {
            None => None,
            Some(h) => {
                proof {
                    assert(self@[0] == h);
                }
                Some(nodes[h].get_mut())
            },
        }
    }

    /// The value of the last node of the list, to be changed in place.
    pub fn back_mut<'a>(&self, nodes: &'a mut Vec<Node<T>>) -> (r: Option<&'a mut T>)
        requires
            self.wf(old(nodes)@),
        ensures
            self@.len() == 0 ==> r is None && final(nodes)@ == old(nodes)@,
            self@.len() > 0 ==> (r matches Some(v) && *v == old(nodes)@[self@[self@.len() - 1] as int].value
                && final(nodes)@ == old(nodes)@.update(
                self@[self@.len() - 1] as int,
                (Node { value: *final(v), ..old(nodes)@[self@[self@.len() - 1] as int] }),
            )),
            same_links(old(nodes)@, final(nodes)@, self@),
    {
        match self.tail {
            None => None,
            Some(t) => {
                proof {
                    assert(self@[self@.len() - 1] == t);
                }
                Some(nodes[t].get_mut())
            },
        }
    }

    /// Puts the node at `new`, which stands in no list, before the first.
    pub fn push_front(&mut self, nodes: &mut Vec<Node<T>>, new: usize)
        requires
            old(self).wf(old(nodes)@),
            new < old(nodes)@.len(),
            !old(self)@.contains(new),
            old(nodes)@[new as int].is_unlinked(),
        ensures
            final(self).wf(final(nodes)@),
            final(self)@ == seq![new] + old(self)@,
            same_values(old(nodes)@, final(nodes)@),
            forall|i: int|
                0 <= i < old(nodes)@.len() && i != new && Some(i as usize) != old(self).head ==> #[trigger] final(nodes)@[i] == old(nodes)@[i],
    {
        let ghost before = nodes@;
        let ghost order = self@;
        let ghost after_order = seq![new] + order;
        match self.head {
            None => {
                self.head = Some(new);
                self.tail = Some(new);
            },
            Some(h) => {
                proof {
                    assert(order[0] == h);
                }
                nodes[new].next = Some(h);
                nodes[h].prev = Some(new);
                self.head = Some(new);
            },
        }
        self.order = Ghost(after_order);
        proof {
            assert(after_order.no_duplicates()) by {
                assert forall|a: int, b: int|
                    0 <= a < after_order.len() && 0 <= b < after_order.len() && a != b implies after_order[a]
                    != after_order[b] by {
                    if a > 0 && b > 0 {
                        assert(order[a - 1] != order[b - 1]);
                    } else if a == 0 {
                        assert(order[b - 1] == after_order[b]);
                        assert(order.contains(order[b - 1]));
                    } else {
                        assert(order[a - 1] == after_order[a]);
                        assert(order.contains(order[a - 1]));
                    }
                }
            }
            assert forall|j: int| 0 <= j < after_order.len() implies (#[trigger] nodes@[after_order[j] as int]).next
                == (if j + 1 < after_order.len() {
                Some(after_order[j + 1])
            } else {
                None
            }) by {
                if j > 0 {
                    assert(after_order[j] == order[j - 1]);
                    assert(order.contains(order[j - 1]));
                    assert(before[order[j - 1] as int].next == (if j < order.len() {
                        Some(order[j])
                    } else {
                        None
                    }));
                }
            }
            assert forall|j: int| 0 <= j < after_order.len() implies (#[trigger] nodes@[after_order[j] as int]).prev
                == (if j > 0 {
                Some(after_order[j - 1])
            } else {
                None
            }) by {
                if j > 1 {
                    assert(after_order[j] == order[j - 1]);
                    assert(order.contains(order[j - 1]));
                    assert(order[j - 1] != order[0]);
                    assert(before[order[j - 1] as int].prev == Some(order[j - 2]));
                } else if j == 1 {
                    assert(after_order[j] == order[0]);
                }
            }
        }
    }

    /// Puts the node at `new`, which stands in no list, behind the last.
    pub fn push_back(&mut self, nodes: &mut Vec<Node<T>>, new: usize)
        requires
            old(self).wf(old(nodes)@),
            new < old(nodes)@.len(),
            !old(self)@.contains(new),
            old(nodes)@[new as int].is_unlinked(),
        ensures
            final(self).wf(final(nodes)@),
            final(self)@ == old(self)@.push(new),
            same_values(old(nodes)@, final(nodes)@),
            forall|i: int|
                0 <= i < old(nodes)@.len() && i != new && Some(i as usize) != old(self).tail ==> #[trigger] final(nodes)@[i] == old(nodes)@[i],
    {
        let ghost before = nodes@;
        let ghost order = self@;
        let ghost after_order = order.push(new);
        match self.tail {
            None => {
                self.head = Some(new);
                self.tail = Some(new);
            },
            Some(t) => {
                proof {
                    assert(order[order.len() - 1] == t);
                }
                nodes[t].next = Some(new);
                nodes[new].prev = Some(t);
                self.tail = Some(new);
            },
        }
        self.order = Ghost(after_order);
        proof {
            assert(after_order.no_duplicates()) by {
                assert forall|a: int, b: int|
                    0 <= a < after_order.len() && 0 <= b < after_order.len() && a != b implies after_order[a]
                    != after_order[b] by {
                    if a < order.len() && b < order.len() {
                        assert(order[a] != order[b]);
                    } else if a == order.len() {
                        assert(order.contains(order[b]));
                    } else {
                        assert(order.contains(order[a]));
                    }
                }
            }
            assert forall|j: int| 0 <= j < after_order.len() implies (#[trigger] nodes@[after_order[j] as int]).next
                == (if j + 1 < after_order.len() {
                Some(after_order[j + 1])
            } else {
                None
            }) by {
                if j < order.len() {
                    assert(order.contains(order[j]));
                    if j + 1 < order.len() {
                        assert(order[j] != order[order.len() - 1]);
                        assert(before[order[j] as int].next == Some(order[j + 1]));
                    }
                }
            }
            assert forall|j: int| 0 <= j < after_order.len() implies (#[trigger] nodes@[after_order[j] as int]).prev
                == (if j > 0 {
                Some(after_order[j - 1])
            } else {
                None
            }) by {
                if j < order.len() {
                    assert(order.contains(order[j]));
                    assert(before[order[j] as int].prev == (if j > 0 {
                        Some(order[j - 1])
                    } else {
                        None
                    }));
                }
            }
        }
    }

    /// Takes the first node out of the list.
    pub fn pop_front(&mut self, nodes: &mut Vec<Node<T>>) -> (r: Link)
        requires
            old(self).wf(old(nodes)@),
        ensures
            final(self).wf(final(nodes)@),
            same_values(old(nodes)@, final(nodes)@),
            old(self)@.len() == 0 ==> r is None && final(self)@ == old(self)@ && final(nodes)@ == old(nodes)@,
            old(self)@.len() > 0 ==> r == Some(old(self)@[0]) && final(self)@ == old(self)@.drop_first()
                && final(nodes)@[old(self)@[0] as int].is_unlinked(),
            forall|i: int|
                0 <= i < old(nodes)@.len() && !(old(self)@.len() > 0 && (i == old(self)@[0] || (old(self)@.len() > 1
                    && i == old(self)@[1]))) ==> #[trigger] final(nodes)@[i] == old(nodes)@[i],
    {
        match self.head {
            None => None,
            Some(h) => {
                proof {
                    assert(self@[0] == h);
                }
                self.unlink(nodes, h, Ghost(0));
                Some(h)
            },
        }
    }

    /// Takes the last node out of the list.
    pub fn pop_back(&mut self, nodes: &mut Vec<Node<T>>) -> (r: Link)
        requires
            old(self).wf(old(nodes)@),
        ensures
            final(self).wf(final(nodes)@),
            same_values(old(nodes)@, final(nodes)@),
            old(self)@.len() == 0 ==> r is None && final(self)@ == old(self)@ && final(nodes)@ == old(nodes)@,
            old(self)@.len() > 0 ==> r == Some(old(self)@[old(self)@.len() - 1]) && final(self)@ == old(self)@.drop_last() && final(nodes)@[old(self)@[old(self)@.len() - 1] as int].is_unlinked(),
    {
        match self.tail {
            None => None,
            Some(t) => {
                let ghost last = self@.len() - 1;
                proof {
                    assert(self@[last] == t);
                }
                self.unlink(nodes, t, Ghost(last));
                proof {
                    assert(old(self)@.remove(last) =~= old(self)@.drop_last());
                }
                Some(t)
            },
        }
    }

    /// Takes the node at `index`, which stands at `position` of the list,
    /// out of it: the nodes before and behind it point to each other, or
    /// the ends of the list move.
    pub(crate) fn unlink(&mut self, nodes: &mut Vec<Node<T>>, index: usize, position: Ghost<int>)
        requires
            old(self).wf(old(nodes)@),
            0 <= position@ < old(self)@.len(),
            old(self)@[position@] == index,
        ensures
            final(self).wf(final(nodes)@),
            same_values(old(nodes)@, final(nodes)@),
            final(self)@ == old(self)@.remove(position@),
            final(nodes)@[index as int].is_unlinked(),
            forall|i: int|
                0 <= i < old(nodes)@.len() && i != index && !(position@ > 0 && i == old(self)@[position@ - 1])
                    && !(position@ + 1 < old(self)@.len() && i == old(self)@[position@ + 1]) ==> #[trigger] final(nodes)@[i] == old(nodes)@[i],
    {
        let ghost before = nodes@;
        let ghost order = self@;
        let ghost p = position@;
        let ghost after_order = order.remove(p);
        proof {
            order.remove_ensures(p);
        }
        let next = nodes[index].next;
        let prev = nodes[index].prev;
        match prev {
            Some(b) => {
                nodes[b].next = next;
            },
            None => {
                self.head = next;
            },
        }
        match next {
            Some(n) => {
                nodes[n].prev = prev;
            },
            None => {
                self.tail = prev;
            },
        }
        nodes[index].next = None;
        nodes[index].prev = None;
        self.order = Ghost(after_order);
        proof {
            assert(after_order.no_duplicates()) by {
                assert forall|a: int, b: int|
                    0 <= a < after_order.len() && 0 <= b < after_order.len() && a != b implies after_order[a]
                    != after_order[b] by {
                    let a2 = if a < p { a } else { a + 1 };
                    let b2 = if b < p { b } else { b + 1 };
                    assert(after_order[a] == order[a2]);
                    assert(after_order[b] == order[b2]);
                }
            }
            assert forall|j: int| 0 <= j < after_order.len() implies (#[trigger] after_order[j]) < nodes@.len() by {
                let j2 = if j < p { j } else { j + 1 };
                assert(after_order[j] == order[j2]);
            }
            assert forall|j: int| 0 <= j < after_order.len() implies (#[trigger] nodes@[after_order[j] as int]).next
                == (if j + 1 < after_order.len() {
                Some(after_order[j + 1])
            } else {
                None
            }) by {
                let j2 = if j < p { j } else { j + 1 };
                assert(after_order[j] == order[j2]);
                assert(order[j2] != order[p]);
                assert(before[order[j2] as int].next == (if j2 + 1 < order.len() {
                    Some(order[j2 + 1])
                } else {
                    None
                }));
                if p + 1 < order.len() {
                    assert(order[j2] != order[p + 1] || j2 == p + 1);
                }
                if j + 1 < after_order.len() {
                    let k2 = if j + 1 < p { j + 1 } else { j + 2 };
                    assert(after_order[j + 1] == order[k2]);
                }
            }
            assert forall|j: int| 0 <= j < after_order.len() implies (#[trigger] nodes@[after_order[j] as int]).prev
                == (if j > 0 {
                Some(after_order[j - 1])
            } else {
                None
            }) by {
                let j2 = if j < p { j } else { j + 1 };
                assert(after_order[j] == order[j2]);
                assert(order[j2] != order[p]);
                assert(before[order[j2] as int].prev == (if j2 > 0 {
                    Some(order[j2 - 1])
                } else {
                    None
                }));
                if p > 0 {
                    assert(order[j2] != order[p - 1] || j2 == p - 1);
                }
                if j > 0 {
                    let k2 = if j - 1 < p { j - 1 } else { j };
                    assert(after_order[j - 1] == order[k2]);
                }
            }
        }
    }
}

/// A list without repetition whose entries lie below `n` has at most `n`
/// entries.
pub proof fn lemma_distinct_below(s: Seq<usize>, n: int)
    requires
        0 <= n,
        s.no_duplicates(),
        forall|j: int| 0 <= j < s.len() ==> s[j] < n,
    ensures
        s.len() <= n,
    decreases n,
{
    if s.len() > 0 {
        if n <= 0 {
            assert(s[0] < n);
            assert(false);
        } else if n - 1 <= usize::MAX && s.contains((n - 1) as usize) {
            let p = s.index_of((n - 1) as usize);
            assert(0 <= p < s.len() && s[p] == (n - 1) as usize);
            let t = s.remove(p);
            s.remove_ensures(p);
            assert(s[p] < n);
            assert(s[p] == n - 1);
            assert forall|j: int| 0 <= j < t.len() implies t[j] < n - 1 by {
                if j < p {
                    assert(t[j] == s[j]);
                    assert(s[j] < n);
                    assert(s[j] != s[p]);
                } else {
                    assert(t[j] == s[j + 1]);
                    assert(s[j + 1] < n);
                    assert(s[j + 1] != s[p]);
                }
            }
            assert(t.no_duplicates()) by {
                assert forall|a: int, b: int| 0 <= a < t.len() && 0 <= b < t.len() && a != b implies t[a]
                    != t[b] by {
                    let a2 = if a < p { a } else { a + 1 };
                    let b2 = if b < p { b } else { b + 1 };
                    assert(t[a] == s[a2]);
                    assert(t[b] == s[b2]);
                }
            }
            lemma_distinct_below(t, n - 1);
            assert(t.len() == s.len() - 1);
            assert(s.len() <= n);
        } else {
            assert forall|j: int| 0 <= j < s.len() implies s[j] < n - 1 by {
                assert(s[j] < n);
                if s[j] == n - 1 {
                    assert(s.contains((n - 1) as usize));
                }
            }
            lemma_distinct_below(s, n - 1);
            assert(s.len() <= n);
        }
    }
}

} // verus!
