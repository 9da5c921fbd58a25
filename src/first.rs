//! A stack of `i32` values: each node owns its successor.
use vstd::prelude::*;

verus! {

/// A singly-linked stack of `i32`, pushed and popped at its head.
pub struct List {
    head: Link,
}

/// The link from a list or a node to the next node, if any.
enum Link {
    Empty,
    More(Box<Node>),
}

struct Node {
    elem: i32,
    next: Link,
}

impl Link {
    /// The values reachable through this link, nearest first.
    spec fn view(self) -> Seq<i32>
        decreases self,
    {
        match self {
            Link::Empty => Seq::empty(),
            Link::More(node) => seq![node.elem] + node.next.view(),
        }
    }

    /// Moves the link out, leaving `Empty` behind.
    fn take(&mut self) -> (r: Link)
        ensures
            r == *old(self),
            *final(self) == Link::Empty,
    {
        let mut out = Link::Empty;
        core::mem::swap(self, &mut out);
        out
    }
}

impl View for List {
    type V = Seq<i32>;

    /// The values of the stack, head first.
    closed spec fn view(&self) -> Seq<i32> {
        self.head.view()
    }
}

impl List {
    /// An empty stack.
    pub fn new() -> (r: Self)
        ensures
            r@ == Seq::<i32>::empty(),
    {
        List { head: Link::Empty }
    }

    /// Puts `elem` on top of the stack.
    pub fn push(&mut self, elem: i32)
        ensures
            final(self)@ == seq![elem] + old(self)@,
    {
        let new_node = Box::new(Node { elem: elem, next: self.head.take() });
        self.head = Link::More(new_node);
    }

    /// Removes and returns the top of the stack; `None` when it is empty.
    pub fn pop(&mut self) -> (r: Option<i32>)
        ensures
            old(self)@.len() == 0 ==> r == None::<i32> && final(self)@ == old(self)@,
            old(self)@.len() > 0 ==> r == Some(old(self)@[0]) && final(self)@ == old(self)@.drop_first(),
    {
        match self.head.take() {
            Link::Empty => None,
            Link::More(boxed_node) => {
                let node = *boxed_node;
                self.head = node.next;
                Some(node.elem)
            },
        }
    }
}

impl Drop for List {
    /// Unlinks the nodes one at a time, so that a long stack is released
    /// by a loop rather than by one nested call per node.
    fn drop(&mut self)
        opens_invariants none
        no_unwind
    {
        let mut cur_link = Link::Empty;
        core::mem::swap(&mut self.head, &mut cur_link);
        loop
            decreases cur_link.view().len(),
        {
            match cur_link {
                Link::Empty => break,
                Link::More(mut boxed_node) => {
                    cur_link = Link::Empty;
                    core::mem::swap(&mut boxed_node.next, &mut cur_link);
                },
            }
        }
    }
}

} // verus!
