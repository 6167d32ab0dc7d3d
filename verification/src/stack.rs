//! A last-in-first-out list in which every node exclusively owns its
//! successor.

use vstd::prelude::*;

verus! {

/// An owning, possibly absent, pointer to a node.
pub type Link<T> = Option<Box<Node<T>>>;

/// One cell of the chain: a value and the rest of the chain below it.
pub struct Node<T> {
    pub val: T,
    pub next: Link<T>,
}

/// The values reachable from `link`, oldest first: the node that `link`
/// itself points at contributes the last element.
pub open spec fn chain_values<T>(link: Link<T>) -> Seq<T>
    decreases link,
{
    match link {
        None => Seq::empty(),
        Some(node) => chain_values(node.next).push(node.val),
    }
}

/// A stack of values; the most recently pushed value is removed first.
pub struct List<T> {
    head: Link<T>,
}

impl<T> View for List<T> {
    type V = Seq<T>;

    /// The stacked values in the order in which they were pushed.
    closed spec fn view(&self) -> Seq<T> {
        chain_values(self.head)
    }
}

impl<T> List<T> {
    /// Creates an empty stack.
    pub fn new() -> (list: Self)
        ensures
            list@ == Seq::<T>::empty(),
    {
        List { head: None }
    }

    /// Puts `v` on top of the stack.
    pub fn push(&mut self, v: T)
        ensures
            final(self)@ == old(self)@.push(v),
    {
        let next = self.head.take();
        self.head = Some(Box::new(Node { val: v, next }));
    }

    /// Detaches the top node and returns it, or returns `None` and leaves
    /// the stack untouched when it is empty. The returned node carries the
    /// value pushed last and no longer links to the rest of the chain.
    pub fn pop(&mut self) -> (top: Link<T>)
        ensures
            old(self)@.len() == 0 ==> top is None && final(self)@ == old(self)@,
            old(self)@.len() > 0 ==> {
                &&& top matches Some(node)
                &&& node.val == old(self)@.last()
                &&& node.next is None
                &&& final(self)@ == old(self)@.drop_last()
            },
    {
        if let Some(mut n) = self.head.take() {
            self.head = n.next.take();
            Some(n)
        } else {
            None
        }
    }
}

} // verus!
