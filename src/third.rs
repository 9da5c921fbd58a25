//! A persistent list: immutable nodes shared between lists by reference counting.
use std::rc::Rc;
use vstd::prelude::*;

verus! {

/// Relies on `Rc::clone`: the new handle points to the same value as the old one.
/// It only raises a count, and aborts rather than unwinds if the count would overflow.
#[verifier::external_body]
fn share<T>(r: &Rc<T>) -> (res: Rc<T>)
    ensures
        res == *r,
    opens_invariants none
    no_unwind
{
    Rc::clone(r)
}

/// An immutable singly-linked list; lists built from one another share their common tail.
pub struct List<T> {
    head: Link<T>,
}

type Link<T> = Option<Rc<Node<T>>>;

struct Node<T> {
    elem: T,
    next: Link<T>,
}

/// The values reachable through `link`, nearest first.
spec fn link_view<T>(link: Link<T>) -> Seq<T>
    decreases link,
{
    match link {
        None => Seq::empty(),
        Some(node) => seq![node.elem] + link_view(node.next),
    }
}

/// A second handle on what `link` holds.
fn share_link<T>(link: &Link<T>) -> (r: Link<T>)
    ensures
        r == *link,
    opens_invariants none
    no_unwind
{
    match link {
        None => None,
        Some(node) => Some(share(node)),
    }
}

/// The sequence without its first value; the empty sequence stays empty.
pub open spec fn tail_of<T>(s: Seq<T>) -> Seq<T> {
    if s.len() == 0 {
        s
    } else {
        s.drop_first()
    }
}

/// The sequence after `n` tails.
pub open spec fn tails<T>(s: Seq<T>, n: nat) -> Seq<T>
    decreases n,
{
    if n == 0 {
        s
    } else {
        tails(tail_of(s), (n - 1) as nat)
    }
}

/// The tail of a list made by `append` holds the values of the list it was
/// made from, and its head is the appended value.
pub proof fn lemma_tail_undoes_append<T>(x: T, s: Seq<T>)
    ensures
        tail_of(seq![x] + s) == s,
        (seq![x] + s)[0] == x,
{
    assert((seq![x] + s).drop_first() =~= s);
}

/// Taking tails past the end of a list gives the empty list, and the empty
/// list is its own tail: once reached, it is never left.
pub proof fn lemma_tails_past_the_end<T>(s: Seq<T>, n: nat)
    requires
        s.len() <= n,
    ensures
        tails(s, n) == Seq::<T>::empty(),
        tail_of(tails(s, n)) == tails(s, n),
    decreases n,
{
    if n > 0 {
        lemma_tails_past_the_end(tail_of(s), (n - 1) as nat);
    } else {
        assert(s =~= Seq::<T>::empty());
    }
}

/// Hands out shared borrows of a list's values, head first.
pub struct Iter<'a, T> {
    next: Option<&'a Node<T>>,
}

impl<T> View for List<T> {
    type V = Seq<T>;

    /// The values of the list, head first.
    closed spec fn view(&self) -> Seq<T> {
        link_view(self.head)
    }
}

impl<'a, T> View for Iter<'a, T> {
    type V = Seq<T>;

    /// The values still to come, in order.
    closed spec fn view(&self) -> Seq<T> {
        match self.next {
            None => Seq::empty(),
            Some(node) => seq![node.elem] + link_view(node.next),
        }
    }
}

impl<T> List<T> {
    /// Shared borrows of the values, head first.
    pub fn iter<'a>(&'a self) -> (r: Iter<'a, T>)
        ensures
            r@ == self@,
    {
        match &self.head {
            None => Iter { next: None },
            Some(node) => Iter { next: Some(&**node) },
        }
    }

    /// An empty list.
    pub fn new() -> (r: Self)
        ensures
            r@ == Seq::<T>::empty(),
    {
        List { head: None }
    }

    /// A new list: `elem` followed by the values of this one, whose nodes it shares.
    pub fn append(&self, elem: T) -> (r: List<T>)
        ensures
            r@ == seq![elem] + self@,
    {
        List { head: Some(Rc::new(Node { elem: elem, next: share_link(&self.head) })) }
    }

    /// A new list of this one's values after the first, sharing their nodes;
    /// the empty list when this one is empty.
    pub fn tail(&self) -> (r: List<T>)
        ensures
            r@ == tail_of(self@),
    {
        match &self.head {
            None => List { head: None },
            Some(node) => List { head: share_link(&node.next) },
        }
    }

    /// A borrow of the first value; `None` when the list is empty.
    pub fn head(&self) -> (r: Option<&T>)
        ensures
            self@.len() == 0 ==> r == None::<&T>,
            self@.len() > 0 ==> r == Some(&self@[0]),
    {
        match &self.head {
            None => None,
            Some(node) => Some(&node.elem),
        }
    }
}

impl<'a, T> Iter<'a, T> {
    /// A borrow of the next value; `None` once every value has been handed out.
    pub fn next(&mut self) -> (r: Option<&'a T>)
        ensures
            old(self)@.len() == 0 ==> r == None::<&T> && final(self)@ == old(self)@,
            old(self)@.len() > 0 ==> r == Some(&old(self)@[0]) && final(self)@ == old(self)@.drop_first(),
    {
        match self.next {
            None => None,
            Some(node) => {
                self.next = match &node.next {
                    None => None,
                    Some(n) => Some(&**n),
                };
                Some(&node.elem)
            },
        }
    }
}

impl<T> Drop for List<T> {
    /// Walks the list with a second handle on each next node, so that releasing
    /// a node this list alone held never releases its successor in a nested call.
    fn drop(&mut self)
        opens_invariants none
        no_unwind
    {
        let mut cur_link: Link<T> = None;
        core::mem::swap(&mut self.head, &mut cur_link);
        loop
            decreases link_view(cur_link).len(),
        {
            match cur_link {
                None => break,
                Some(node) => {
                    cur_link = share_link(&node.next);
                },
            }
        }
    }
}

} // verus!
