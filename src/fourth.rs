//! A deque with links in both directions. Its nodes live in an arena of slots,
//! and a link is the index of a slot, so a node's two neighbours refer to it
//! without owning it.
use vstd::prelude::*;

verus! {

/// A doubly-linked deque, pushed, popped and peeked at both ends.
///
/// A peek hands out a borrow of the deque itself, so no other borrow of it can
/// be taken while that one is held; releasing the deque releases the arena, one
/// slot after another, with no call nested per node.
pub struct List<T> {
    /// The arena: every node, linked or vacant.
    slots: Vec<Node<T>>,
    /// Vacant slots, to be reused before the arena grows.
    free: Vec<usize>,
    head: Option<usize>,
    tail: Option<usize>,
    /// The slots of the linked nodes, front to back.
    order: Ghost<Seq<usize>>,
}

/// A slot of the arena: a value while it is linked, `None` while it is vacant.
struct Node<T> {
    elem: Option<T>,
    next: Option<usize>,
    prev: Option<usize>,
}

/// Consumes a deque, handing out its values from either end.
pub struct IntoIter<T>(List<T>);

/// Hands out shared borrows of a deque's values, front first.
pub struct Iter<'a, T> {
    list: &'a List<T>,
    cur: Option<usize>,
    /// How many values have been handed out.
    pos: Ghost<int>,
}

impl<T> Node<T> {
    /// An unlinked node holding `elem`.
    fn new(elem: T) -> (r: Self)
        ensures
            r.elem == Some(elem),
            r.next is None,
            r.prev is None,
    {
        Node { elem: Some(elem), prev: None, next: None }
    }
}

impl<T> List<T> {
    /// The node at position `i` is in the arena, holds a value, and links to
    /// the nodes at positions `i - 1` and `i + 1`.
    spec fn linked_at(&self, i: int) -> bool {
        let order = self.order@;
        let k = order[i] as int;
        &&& k < self.slots@.len()
        &&& self.slots@[k].elem is Some
        &&& self.slots@[k].prev == (if i == 0 { None } else { Some(order[i - 1]) })
        &&& self.slots@[k].next == (if i == order.len() - 1 { None } else { Some(order[i + 1]) })
    }

    /// Every vacant slot is in the arena, holds no value, and is listed once.
    spec fn free_ok(&self) -> bool {
        &&& forall|k: int|
            0 <= k < self.free@.len() ==> {
                &&& #[trigger] self.free@[k] < self.slots@.len()
                &&& self.slots@[self.free@[k] as int].elem is None
            }
        &&& forall|a: int, b: int|
            0 <= a < self.free@.len() && 0 <= b < self.free@.len() && a != b
                ==> #[trigger] self.free@[a] != #[trigger] self.free@[b]
    }

    /// The deque is well formed: its nodes form one chain from `head` to `tail`
    /// through `next`, and back through `prev`.
    pub closed spec fn wf(&self) -> bool {
        let order = self.order@;
        &&& forall|i: int| 0 <= i < order.len() ==> #[trigger] self.linked_at(i)
        &&& forall|i: int, j: int|
            0 <= i < order.len() && 0 <= j < order.len() && i != j
                ==> #[trigger] order[i] != #[trigger] order[j]
        &&& self.head == (if order.len() == 0 { None } else { Some(order[0]) })
        &&& self.tail == (if order.len() == 0 { None } else { Some(order.last()) })
        &&& self.free_ok()
    }
}

impl<T> View for List<T> {
    type V = Seq<T>;

    /// The values of the deque, front to back.
    closed spec fn view(&self) -> Seq<T> {
        Seq::new(self.order@.len(), |i: int| self.slots@[self.order@[i] as int].elem->0)
    }
}

impl<T> List<T> {
    /// An empty deque.
    pub fn new() -> (r: Self)
        ensures
            r.wf(),
            r@ == Seq::<T>::empty(),
    {
        let r = List { slots: Vec::new(), free: Vec::new(), head: None, tail: None, order: Ghost(Seq::empty()) };
        assert(r@ =~= Seq::<T>::empty());
        r
    }

    /// Stores `node` in a vacant slot, or in a new one, and returns the slot's index.
    fn store(&mut self, node: Node<T>) -> (idx: usize)
        requires
            old(self).wf(),
            node.elem is Some,
        ensures
            idx < final(self).slots@.len(),
            final(self).slots@[idx as int] == node,
            old(self).slots@.len() <= final(self).slots@.len(),
            idx == old(self).slots@.len()
                || (idx < old(self).slots@.len() && old(self).slots@[idx as int].elem is None),
            forall|k: int|
                0 <= k < old(self).slots@.len() && k != idx
                    ==> final(self).slots@[k] == old(self).slots@[k],
            final(self).free_ok(),
            final(self).head == old(self).head,
            final(self).tail == old(self).tail,
            final(self).order == old(self).order,
    {
        match self.free.pop() {
            Some(idx) => {
                proof {
                    let last = old(self).free@.len() - 1;
                    assert(old(self).free@[last] == idx);
                    assert forall|k: int| 0 <= k < self.free@.len() implies #[trigger] self.free@[k] != idx by {
                        assert(old(self).free@[k] == self.free@[k]);
                    }
                }
                self.slots.set(idx, node);
                proof {
                    assert forall|k: int| 0 <= k < self.free@.len() implies {
                        &&& #[trigger] self.free@[k] < self.slots@.len()
                        &&& self.slots@[self.free@[k] as int].elem is None
                    } by {
                        assert(old(self).free@[k] == self.free@[k]);
                    }
                    assert forall|a: int, b: int|
                        0 <= a < self.free@.len() && 0 <= b < self.free@.len() && a != b
                        implies #[trigger] self.free@[a] != #[trigger] self.free@[b] by {
                        assert(old(self).free@[a] == self.free@[a]);
                        assert(old(self).free@[b] == self.free@[b]);
                    }
                }
                idx
            },
            None => {
                let idx = self.slots.len();
                self.slots.push(node);
                idx
            },
        }
    }

    /// A slot that is past the arena's end, or that holds no value, is not linked.
    proof fn lemma_slot_not_linked(&self, idx: int)
        requires
            self.wf(),
            idx >= self.slots@.len() || self.slots@[idx].elem is None,
        ensures
            forall|i: int| 0 <= i < self.order@.len() ==> #[trigger] self.order@[i] != idx,
    {
        assert forall|i: int| 0 <= i < self.order@.len() implies #[trigger] self.order@[i] != idx by {
            assert(self.linked_at(i));
        }
    }

    /// `b` is `self` with only the value of the node at position `p` replaced.
    spec fn with_elem_set(&self, b: Self, p: int) -> bool {
        let k = self.order@[p] as int;
        &&& b.order == self.order
        &&& b.head == self.head
        &&& b.tail == self.tail
        &&& b.free@ == self.free@
        &&& b.slots@[k].elem is Some
        &&& b.slots@ == self.slots@.update(
            k,
            Node { elem: b.slots@[k].elem, next: self.slots@[k].next, prev: self.slots@[k].prev },
        )
    }

    /// Writing a new value into the node at position `p` keeps the deque well formed,
    /// and changes that one value.
    proof fn lemma_set_elem(a: Self, p: int)
        requires
            a.wf(),
            0 <= p < a.order@.len(),
        ensures
            forall|b: Self| a.with_elem_set(b, p) ==> #[trigger] b.wf(),
            forall|b: Self|
                a.with_elem_set(b, p) ==> a@.update(p, b.slots@[a.order@[p] as int].elem->0) == #[trigger] b.view(),
    {
        assert forall|b: Self| #[trigger] a.with_elem_set(b, p) implies b.wf()
            && b@ == a@.update(p, b.slots@[a.order@[p] as int].elem->0) by {
            let o = a.order@;
            let v = b.slots@[o[p] as int].elem->0;
            assert(a.linked_at(p));
            assert forall|i: int| 0 <= i < o.len() implies #[trigger] b.linked_at(i) by {
                assert(a.linked_at(i));
            }
            assert forall|k: int| 0 <= k < b.free@.len() implies {
                &&& #[trigger] b.free@[k] < b.slots@.len()
                &&& b.slots@[b.free@[k] as int].elem is None
            } by {
                assert(a.free@[k] == b.free@[k]);
            }
            assert forall|i: int| 0 <= i < b@.len() implies #[trigger] b@[i] == a@.update(p, v)[i] by {
                assert(a.linked_at(i));
            }
            assert(b@ =~= a@.update(p, v));
        }
    }

    /// Puts `elem` at the front of the deque.
    pub fn push_front(&mut self, elem: T)
        requires
            old(self).wf(),
        ensures
            final(self).wf(),
            final(self)@ == seq![elem] + old(self)@,
    {
        let mut node = Node::new(elem);
        node.next = self.head;
        let new_head = self.store(node);
        proof {
            old(self).lemma_slot_not_linked(new_head as int);
        }
        match self.head {
            Some(old_head) => {
                proof {
                    assert(old(self).linked_at(0));
                }
                self.slots[old_head].prev = Some(new_head);
            },
            None => {
                self.tail = Some(new_head);
            },
        }
        self.head = Some(new_head);
        self.order = Ghost(seq![new_head] + old(self).order@);
        proof {
            let o = old(self).order@;
            assert forall|i: int| 0 <= i < self.order@.len() implies #[trigger] self.linked_at(i) by {
                if i > 0 {
                    assert(old(self).linked_at(i - 1));
                }
            }
            assert forall|i: int, j: int|
                0 <= i < self.order@.len() && 0 <= j < self.order@.len() && i != j
                implies #[trigger] self.order@[i] != #[trigger] self.order@[j] by {
                if i > 0 && j > 0 {
                    assert(o[i - 1] != o[j - 1]);
                }
            }
            assert forall|i: int| 0 <= i < self@.len() implies #[trigger] self@[i] == (seq![elem] + old(self)@)[i] by {
                if i > 0 {
                    assert(old(self).linked_at(i - 1));
                }
            }
            assert(self@ =~= seq![elem] + old(self)@);
        }
    }

    /// Puts `elem` at the back of the deque.
    pub fn push_back(&mut self, elem: T)
        requires
            old(self).wf(),
        ensures
            final(self).wf(),
            final(self)@ == old(self)@.push(elem),
    {
        let mut node = Node::new(elem);
        node.prev = self.tail;
        let new_tail = self.store(node);
        proof {
            old(self).lemma_slot_not_linked(new_tail as int);
        }
        match self.tail {
            Some(old_tail) => {
                proof {
                    assert(old(self).linked_at(old(self).order@.len() - 1));
                }
                self.slots[old_tail].next = Some(new_tail);
            },
            None => {
                self.head = Some(new_tail);
            },
        }
        self.tail = Some(new_tail);
        self.order = Ghost(old(self).order@.push(new_tail));
        proof {
            let o = old(self).order@;
            assert forall|i: int| 0 <= i < self.order@.len() implies #[trigger] self.linked_at(i) by {
                if i < o.len() {
                    assert(old(self).linked_at(i));
                }
            }
            assert forall|i: int, j: int|
                0 <= i < self.order@.len() && 0 <= j < self.order@.len() && i != j
                implies #[trigger] self.order@[i] != #[trigger] self.order@[j] by {
                if i < o.len() && j < o.len() {
                    assert(o[i] != o[j]);
                }
            }
            assert forall|i: int| 0 <= i < self@.len() implies #[trigger] self@[i] == old(self)@.push(elem)[i] by {
                if i < o.len() {
                    assert(old(self).linked_at(i));
                }
            }
            assert(self@ =~= old(self)@.push(elem));
        }
    }

    /// Removes and returns the front value; `None` when the deque is empty.
    pub fn pop_front(&mut self) -> (r: Option<T>)
        requires
            old(self).wf(),
        ensures
            final(self).wf(),
            old(self)@.len() == 0 ==> r == None::<T> && final(self)@ == old(self)@,
            old(self)@.len() > 0 ==> r == Some(old(self)@[0]) && final(self)@ == old(self)@.drop_first(),
    {
        match self.head {
            None => {
                assert(self@ =~= Seq::<T>::empty());
                None
            },
            Some(old_head) => {
                proof {
                    assert(self.linked_at(0));
                }
                let next = self.slots[old_head].next;
                let elem = self.slots[old_head].elem.take();
                self.slots[old_head].next = None;
                self.free.push(old_head);
                match next {
                    Some(new_head) => {
                        proof {
                            assert(old(self).linked_at(1));
                        }
                        self.slots[new_head].prev = None;
                        self.head = Some(new_head);
                    },
                    None => {
                        self.head = None;
                        self.tail = None;
                    },
                }
                self.order = Ghost(old(self).order@.drop_first());
                proof {
                    let o = old(self).order@;
                    assert forall|i: int| 0 <= i < self.order@.len() implies #[trigger] self.linked_at(i) by {
                        assert(old(self).linked_at(i + 1));
                        assert(o[i + 1] != o[0]);
                        if i > 0 {
                            assert(o[i + 1] != o[1]);
                        }
                    }
                    assert forall|i: int, j: int|
                        0 <= i < self.order@.len() && 0 <= j < self.order@.len() && i != j
                        implies #[trigger] self.order@[i] != #[trigger] self.order@[j] by {
                        assert(o[i + 1] != o[j + 1]);
                    }
                    assert forall|k: int| 0 <= k < self.free@.len() implies {
                        &&& #[trigger] self.free@[k] < self.slots@.len()
                        &&& self.slots@[self.free@[k] as int].elem is None
                    } by {
                        if k < old(self).free@.len() {
                            assert(self.free@[k] == old(self).free@[k]);
                            if o.len() > 1 {
                                assert(old(self).linked_at(1));
                            }
                        }
                    }
                    assert forall|a: int, b: int|
                        0 <= a < self.free@.len() && 0 <= b < self.free@.len() && a != b
                        implies #[trigger] self.free@[a] != #[trigger] self.free@[b] by {
                        if a < old(self).free@.len() {
                            assert(self.free@[a] == old(self).free@[a]);
                        }
                        if b < old(self).free@.len() {
                            assert(self.free@[b] == old(self).free@[b]);
                        }
                    }
                    assert forall|i: int| 0 <= i < self@.len() implies #[trigger] self@[i] == old(self)@.drop_first()[i] by {
                        assert(old(self).linked_at(i + 1));
                        assert(o[i + 1] != o[0]);
                    }
                    assert(self@ =~= old(self)@.drop_first());
                }
                elem
            },
        }
    }

    /// Removes and returns the back value; `None` when the deque is empty.
    pub fn pop_back(&mut self) -> (r: Option<T>)
        requires
            old(self).wf(),
        ensures
            final(self).wf(),
            old(self)@.len() == 0 ==> r == None::<T> && final(self)@ == old(self)@,
            old(self)@.len() > 0 ==> r == Some(old(self)@.last()) && final(self)@ == old(self)@.drop_last(),
    {
        match self.tail {
            None => {
                assert(self@ =~= Seq::<T>::empty());
                None
            },
            Some(old_tail) => {
                let ghost last = old(self).order@.len() - 1;
                proof {
                    assert(self.linked_at(last));
                }
                let prev = self.slots[old_tail].prev;
                let elem = self.slots[old_tail].elem.take();
                self.slots[old_tail].prev = None;
                self.free.push(old_tail);
                match prev {
                    Some(new_tail) => {
                        proof {
                            assert(old(self).linked_at(last - 1));
                        }
                        self.slots[new_tail].next = None;
                        self.tail = Some(new_tail);
                    },
                    None => {
                        self.head = None;
                        self.tail = None;
                    },
                }
                self.order = Ghost(old(self).order@.drop_last());
                proof {
                    let o = old(self).order@;
                    assert forall|i: int| 0 <= i < self.order@.len() implies #[trigger] self.linked_at(i) by {
                        assert(old(self).linked_at(i));
                        assert(o[i] != o[last]);
                        if i < last - 1 {
                            assert(o[i] != o[last - 1]);
                        }
                    }
                    assert forall|i: int, j: int|
                        0 <= i < self.order@.len() && 0 <= j < self.order@.len() && i != j
                        implies #[trigger] self.order@[i] != #[trigger] self.order@[j] by {
                        assert(o[i] != o[j]);
                    }
                    assert forall|k: int| 0 <= k < self.free@.len() implies {
                        &&& #[trigger] self.free@[k] < self.slots@.len()
                        &&& self.slots@[self.free@[k] as int].elem is None
                    } by {
                        if k < old(self).free@.len() {
                            assert(self.free@[k] == old(self).free@[k]);
                            if o.len() > 1 {
                                assert(old(self).linked_at(last - 1));
                            }
                        }
                    }
                    assert forall|a: int, b: int|
                        0 <= a < self.free@.len() && 0 <= b < self.free@.len() && a != b
                        implies #[trigger] self.free@[a] != #[trigger] self.free@[b] by {
                        if a < old(self).free@.len() {
                            assert(self.free@[a] == old(self).free@[a]);
                        }
                        if b < old(self).free@.len() {
                            assert(self.free@[b] == old(self).free@[b]);
                        }
                    }
                    assert forall|i: int| 0 <= i < self@.len() implies #[trigger] self@[i] == old(self)@.drop_last()[i] by {
                        assert(old(self).linked_at(i));
                        assert(o[i] != o[last]);
                    }
                    assert(self@ =~= old(self)@.drop_last());
                }
                elem
            },
        }
    }

    /// A shared borrow of the front value; `None` when the deque is empty.
    pub fn peek_front(&self) -> (r: Option<&T>)
        requires
            self.wf(),
        ensures
            self@.len() == 0 ==> r == None::<&T>,
            self@.len() > 0 ==> r == Some(&self@[0]),
    {
        match self.head {
            None => None,
            Some(h) => {
                proof {
                    assert(self.linked_at(0));
                }
                self.slots[h].elem.as_ref()
            },
        }
    }

    /// A shared borrow of the back value; `None` when the deque is empty.
    pub fn peek_back(&self) -> (r: Option<&T>)
        requires
            self.wf(),
        ensures
            self@.len() == 0 ==> r == None::<&T>,
            self@.len() > 0 ==> r == Some(&self@.last()),
    {
        match self.tail {
            None => None,
            Some(t) => {
                proof {
                    assert(self.linked_at(self.order@.len() - 1));
                }
                self.slots[t].elem.as_ref()
            },
        }
    }

    /// A mutable borrow of the back value; `None` when the deque is empty.
    /// What is written through it becomes the back value.
    pub fn peek_back_mut(&mut self) -> (r: Option<&mut T>)
        requires
            old(self).wf(),
        ensures
            final(self).wf(),
            old(self)@.len() == 0 ==> r is None && final(self)@ == old(self)@,
            old(self)@.len() > 0 ==> r is Some && *r->0 == old(self)@.last()
                && final(self)@ == old(self)@.update(old(self)@.len() - 1, *final(r->0)),
    {
        match self.tail {
            None => None,
            Some(t) => {
                proof {
                    assert(self.linked_at(self.order@.len() - 1));
                    Self::lemma_set_elem(*old(self), old(self).order@.len() - 1);
                }
                self.slots[t].elem.as_mut()
            },
        }
    }

    /// A mutable borrow of the front value; `None` when the deque is empty.
    /// What is written through it becomes the front value.
    pub fn peek_front_mut(&mut self) -> (r: Option<&mut T>)
        requires
            old(self).wf(),
        ensures
            final(self).wf(),
            old(self)@.len() == 0 ==> r is None && final(self)@ == old(self)@,
            old(self)@.len() > 0 ==> r is Some && *r->0 == old(self)@[0]
                && final(self)@ == old(self)@.update(0, *final(r->0)),
    {
        match self.head {
            None => None,
            Some(h) => {
                proof {
                    assert(self.linked_at(0));
                    Self::lemma_set_elem(*old(self), 0);
                }
                self.slots[h].elem.as_mut()
            },
        }
    }

    /// Consumes the deque into an iterator over its values, from either end.
    pub fn into_iter(self) -> (r: IntoIter<T>)
        requires
            self.wf(),
        ensures
            r.wf(),
            r@ == self@,
    {
        IntoIter(self)
    }

    /// Shared borrows of the values, front first.
    pub fn iter(&self) -> (r: Iter<'_, T>)
        requires
            self.wf(),
        ensures
            r.wf(),
            r@ == self@,
    {
        let r = Iter { list: self, cur: self.head, pos: Ghost(0) };
        assert(r@ =~= self@);
        r
    }
}

impl<T> View for IntoIter<T> {
    type V = Seq<T>;

    /// The values still to come, front to back.
    closed spec fn view(&self) -> Seq<T> {
        self.0@
    }
}

impl<T> IntoIter<T> {
    /// The deque inside is well formed.
    pub closed spec fn wf(&self) -> bool {
        self.0.wf()
    }

    /// The front value; `None` once every value has been handed out.
    pub fn next(&mut self) -> (r: Option<T>)
        requires
            old(self).wf(),
        ensures
            final(self).wf(),
            old(self)@.len() == 0 ==> r == None::<T> && final(self)@ == old(self)@,
            old(self)@.len() > 0 ==> r == Some(old(self)@[0]) && final(self)@ == old(self)@.drop_first(),
    {
        self.0.pop_front()
    }

    /// The back value; `None` once every value has been handed out.
    pub fn next_back(&mut self) -> (r: Option<T>)
        requires
            old(self).wf(),
        ensures
            final(self).wf(),
            old(self)@.len() == 0 ==> r == None::<T> && final(self)@ == old(self)@,
            old(self)@.len() > 0 ==> r == Some(old(self)@.last()) && final(self)@ == old(self)@.drop_last(),
    {
        self.0.pop_back()
    }
}

impl<'a, T> View for Iter<'a, T> {
    type V = Seq<T>;

    /// The values still to come, in order.
    closed spec fn view(&self) -> Seq<T> {
        self.list@.subrange(self.pos@, self.list@.len() as int)
    }
}

impl<'a, T> Iter<'a, T> {
    /// The deque is well formed and `cur` is the slot of the value at `pos`.
    pub closed spec fn wf(&self) -> bool {
        let order = self.list.order@;
        &&& self.list.wf()
        &&& 0 <= self.pos@ <= order.len()
        &&& self.cur == (if self.pos@ < order.len() { Some(order[self.pos@]) } else { None })
    }

    /// A borrow of the next value; `None` once every value has been handed out.
    pub fn next(&mut self) -> (r: Option<&'a T>)
        requires
            old(self).wf(),
        ensures
            final(self).wf(),
            old(self)@.len() == 0 ==> r == None::<&T> && final(self)@ == old(self)@,
            old(self)@.len() > 0 ==> r == Some(&old(self)@[0]) && final(self)@ == old(self)@.drop_first(),
    {
        match self.cur {
            None => None,
            Some(c) => {
                proof {
                    assert(self.list.linked_at(self.pos@));
                }
                let node = &self.list.slots[c];
                self.cur = node.next;
                self.pos = Ghost(self.pos@ + 1);
                proof {
                    assert(self@ =~= old(self)@.drop_first());
                }
                node.elem.as_ref()
            },
        }
    }
}

} // verus!
