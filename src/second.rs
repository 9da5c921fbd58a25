//! A generic stack whose nodes own their successor, with three kinds of iteration.
use vstd::prelude::*;

verus! {

/// A singly-linked stack, pushed and popped at its head.
pub struct List<T> {
    head: Link<T>,
}

type Link<T> = Option<Box<Node<T>>>;

/// A node of a list: a value and the link to the next node. Its fields are private;
/// the contracts of [`IterMut`] speak of the final value of a borrowed node.
pub struct Node<T> {
    elem: T,
    next: Link<T>,
}

impl<T> Node<T> {
    /// The values from this node on.
    pub closed spec fn values(self) -> Seq<T> {
        seq![self.elem] + link_view(self.next)
    }
}

/// The values reachable through `link`, nearest first.
spec fn link_view<T>(link: Link<T>) -> Seq<T>
    decreases link,
{
    match link {
        None => Seq::empty(),
        Some(node) => seq![node.elem] + link_view(node.next),
    }
}

/// Consumes a list, handing out its values from the head.
pub struct IntoIter<T>(List<T>);

/// Hands out shared borrows of a list's values, head first.
pub struct Iter<'a, T> {
    next: Option<&'a Node<T>>,
}

/// Hands out mutable borrows of a list's values, head first, each one once.
pub struct IterMut<'a, T> {
    next: Option<&'a mut Node<T>>,
}

impl<T> View for List<T> {
    type V = Seq<T>;

    /// The values of the stack, head first.
    closed spec fn view(&self) -> Seq<T> {
        link_view(self.head)
    }
}

impl<T> View for IntoIter<T> {
    type V = Seq<T>;

    /// The values still to come, in order.
    closed spec fn view(&self) -> Seq<T> {
        self.0@
    }
}

impl<'a, T> View for Iter<'a, T> {
    type V = Seq<T>;

    /// The values still to come, in order.
    closed spec fn view(&self) -> Seq<T> {
        match self.next {
            None => Seq::empty(),
            Some(node) => node.values(),
        }
    }
}

impl<'a, T> View for IterMut<'a, T> {
    type V = Seq<T>;

    /// The values still to come, as they stand now.
    closed spec fn view(&self) -> Seq<T> {
        match self.next {
            None => Seq::empty(),
            Some(node) => node.values(),
        }
    }
}

impl<'a, T> IterMut<'a, T> {
    /// The borrow of the next node, if any. Once the borrow of the list ends,
    /// the values from that node on are `(*final(n)).values()`.
    pub closed spec fn first(&self) -> Option<&'a mut Node<T>> {
        self.next
    }

    /// A mutable borrow of the next value; `None` once every value has been handed out.
    /// What is written through it becomes that value of the list.
    pub fn next(&mut self) -> (r: Option<&'a mut T>)
        ensures
            old(self).first() is None <==> old(self)@.len() == 0,
            final(self).first() is None <==> final(self)@.len() == 0,
            old(self)@.len() == 0 ==> r is None && final(self)@ == old(self)@,
            old(self)@.len() > 0 ==> r is Some && *r->0 == old(self)@[0]
                && final(self)@ == old(self)@.drop_first(),
            old(self).first() matches Some(n) ==> (*final(n)).values() == seq![*final(r->0)] + (
                match final(self).first() {
                    None => Seq::empty(),
                    Some(m) => (*final(m)).values(),
                }),
    {
        match self.next.take() {
            None => None,
            Some(node) => {
                let Node { elem, next } = node;
                self.next = match next {
                    None => None,
                    Some(n) => Some(&mut **n),
                };
                Some(elem)
            },
        }
    }
}

impl<T> List<T> {
    /// An empty stack.
    pub fn new() -> (r: Self)
        ensures
            r@ == Seq::<T>::empty(),
    {
        List { head: None }
    }

    /// Puts `elem` on top of the stack.
    pub fn push(&mut self, elem: T)
        ensures
            final(self)@ == seq![elem] + old(self)@,
    {
        let new_node = Box::new(Node { elem: elem, next: self.head.take() });
        self.head = Some(new_node);
    }

    /// Removes and returns the top of the stack; `None` when it is empty.
    pub fn pop(&mut self) -> (r: Option<T>)
        ensures
            old(self)@.len() == 0 ==> r == None::<T> && final(self)@ == old(self)@,
            old(self)@.len() > 0 ==> r == Some(old(self)@[0]) && final(self)@ == old(self)@.drop_first(),
    {
        match self.head.take() {
            None => None,
            Some(boxed_node) => {
                let node = *boxed_node;
                self.head = node.next;
                Some(node.elem)
            },
        }
    }

    /// A shared borrow of the top of the stack; `None` when it is empty.
    pub fn peek(&self) -> (r: Option<&T>)
        ensures
            self@.len() == 0 ==> r == None::<&T>,
            self@.len() > 0 ==> r == Some(&self@[0]),
    {
        match &self.head {
            None => None,
            Some(node) => Some(&node.elem),
        }
    }

    /// A mutable borrow of the top of the stack; `None` when it is empty.
    /// What is written through it becomes the top of the stack.
    pub fn peek_mut(&mut self) -> (r: Option<&mut T>)
        ensures
            old(self)@.len() == 0 ==> r is None && final(self)@ == old(self)@,
            old(self)@.len() > 0 ==> r is Some && *r->0 == old(self)@[0]
                && final(self)@ == old(self)@.update(0, *final(r->0)),
    {
        match &mut self.head {
            None => None,
            Some(node) => Some(&mut node.elem),
        }
    }

    /// Consumes the stack into an iterator over its values, head first.
    pub fn into_iter(self) -> (r: IntoIter<T>)
        ensures
            r@ == self@,
    {
        IntoIter(self)
    }

    /// Mutable borrows of the values, head first; what is written through
    /// them becomes the values of the list.
    pub fn iter_mut(&mut self) -> (r: IterMut<'_, T>)
        ensures
            r@ == old(self)@,
            final(self)@ == (match r.first() {
                None => Seq::empty(),
                Some(n) => (*final(n)).values(),
            }),
    {
        match &mut self.head {
            None => IterMut { next: None },
            Some(node) => IterMut { next: Some(&mut **node) },
        }
    }

    /// Shared borrows of the values, head first.
    pub fn iter(&self) -> (r: Iter<'_, T>)
        ensures
            r@ == self@,
    {
        match &self.head {
            None => Iter { next: None },
            Some(node) => Iter { next: Some(&**node) },
        }
    }
}

impl<T> IntoIter<T> {
    /// The next value; `None` once every value has been handed out.
    pub fn next(&mut self) -> (r: Option<T>)
        ensures
            old(self)@.len() == 0 ==> r == None::<T> && final(self)@ == old(self)@,
            old(self)@.len() > 0 ==> r == Some(old(self)@[0]) && final(self)@ == old(self)@.drop_first(),
    {
        self.0.pop()
    }
}

impl<'a, T> Iter<'a, T> {
    /// A borrow of the next value; `None` once every value has been handed out.
    pub fn next(&mut self) -> (r: Option<&'a T>)
        ensures
            old(self)@.len() == 0 ==> r == None::<&T> && final(self)@ == old(self)@,
            old(self)@.len() > 0 ==> r == Some(&old(self)@[0]) && final(self)@ == old(self)@.drop_first(),
    {
        match self.next {
            None => None,
            Some(node) => {
                self.next = match &node.next {
                    None => None,
                    Some(n) => Some(&**n),
                };
                Some(&node.elem)
            },
        }
    }
}

impl<T> Drop for List<T> {
    /// Unlinks the nodes one at a time, so that a long stack is released
    /// by a loop rather than by one nested call per node.
    fn drop(&mut self)
        opens_invariants none
        no_unwind
    {
        let mut cur_link: Link<T> = None;
        core::mem::swap(&mut self.head, &mut cur_link);
        loop
            decreases link_view(cur_link).len(),
        {
            match cur_link {
                None => break,
                Some(mut boxed_node) => {
                    cur_link = None;
                    core::mem::swap(&mut boxed_node.next, &mut cur_link);
                },
            }
        }
    }
}

} // verus!
