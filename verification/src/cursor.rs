//! A forward-only walker over the nodes of a [`List`].
//!
//! A cursor holds a handle, not a borrow: the list can change while cursors
//! exist, and any number of cursors can walk the same list independently.
//! A cursor shows its current node before it is advanced for the first
//! time, and an advance reports the node it arrives at, not the one it
//! leaves.

use crate::queue::{link_after, Link, List, NodeRef};
use vstd::prelude::*;

verus! {

/// A position in a list: a link to the current node, absent once the walk
/// has run off the end.
pub struct Inter {
    pub iter: Link,
}

/// Where a cursor on `at` stands after one advance over `list`: on the node
/// that the current node links to. A cursor that stands nowhere, or on a
/// node that is not of `list`'s arena, has nowhere to go.
pub open spec fn successor<T>(list: &List<T>, at: Link) -> Link {
    match at {
        None => None,
        Some(h) => if list.owns(h) {
            list.node(h).next
        } else {
            None
        },
    }
}

/// Where a cursor that starts on `start` stands after `steps` advances
/// over `list`.
pub open spec fn walk<T>(list: &List<T>, start: Link, steps: nat) -> Link
    decreases steps,
{
    if steps == 0 {
        start
    } else {
        successor(list, walk(list, start, (steps - 1) as nat))
    }
}

impl Inter {
    /// Moves the cursor to the node after the current one and returns the
    /// link it now holds, which is absent once the walk has run off the
    /// end. A cursor that stands nowhere stays there and returns `None`.
    ///
    /// The list is only read. A cursor that `list` handed out stays on
    /// nodes of `list`'s arena however `list` has changed since.
    pub fn next<T>(&mut self, list: &List<T>) -> (current: Link)
        requires
            list.wf(),
        ensures
            final(self).iter == successor(list, old(self).iter),
            current == final(self).iter,
            current matches Some(h) ==> list.owns(h),
    {
        proof {
            lemma_successor_owned(list, self.iter);
        }
        if let Some(cur) = self.iter.take() {
            if list.owns(cur) {
                self.iter = list.borrow(cur).next;
            }
            self.iter
        } else {
            None
        }
    }
}

/// An advance never leaves the arena: from a node of the list the cursor
/// arrives at a node of the list or nowhere.
pub proof fn lemma_successor_owned<T>(list: &List<T>, at: Link)
    requires
        list.wf(),
    ensures
        successor(list, at) matches Some(h) ==> list.owns(h),
{
    if at is Some && list.owns(at.unwrap()) {
        let h = at.unwrap();
        let chain = list.chain();
        if chain.contains(h) {
            let i = choose|i: int| 0 <= i < chain.len() && chain[i] == h;
            assert(list.node(chain[i]).next == link_after(chain, i));
            if i + 1 < chain.len() {
                assert(list.owns(chain[i + 1]));
            }
        } else {
            assert(list.node(h).next is None);
        }
    }
}

/// A cursor that starts at the head visits the linked nodes in queue
/// order: after `steps` advances it stands on the node at position `steps`
/// of the chain, and nowhere once `steps` reaches the length of the chain.
pub proof fn lemma_walk_from_head<T>(list: &List<T>, steps: nat)
    requires
        list.wf(),
    ensures
        walk(list, list.head(), steps) == if steps < list.chain().len() {
            Some(list.chain()[steps as int])
        } else {
            None
        },
    decreases steps,
{
    let chain = list.chain();
    if steps > 0 {
        lemma_walk_from_head(list, (steps - 1) as nat);
        if steps - 1 < chain.len() {
            let i = steps - 1;
            assert(list.node(chain[i]).next == link_after(chain, i));
        }
    }
}

/// Following the links from the head arrives at the tail after exactly
/// one step fewer than there are linked nodes, and no node is met twice on
/// the way.
pub proof fn lemma_walk_reaches_tail<T>(list: &List<T>)
    requires
        list.wf(),
        list@.len() > 0,
    ensures
        walk(list, list.head(), (list@.len() - 1) as nat) == list.tail(),
        forall|i: nat, j: nat|
            i < j < list@.len() ==>
                #[trigger] walk(list, list.head(), i) != #[trigger] walk(list, list.head(), j),
{
    let chain = list.chain();
    lemma_walk_from_head(list, (chain.len() - 1) as nat);
    assert forall|i: nat, j: nat| i < j < chain.len() implies
        #[trigger] walk(list, list.head(), i) != #[trigger] walk(list, list.head(), j) by {
        lemma_walk_from_head(list, i);
        lemma_walk_from_head(list, j);
        assert(chain[i as int] != chain[j as int]);
    }
}

/// The value under a cursor that started at the head and was advanced
/// `steps` times is the value at position `steps` of the queue.
pub proof fn lemma_walk_reads_queue<T>(list: &List<T>, steps: nat)
    requires
        list.wf(),
        steps < list@.len(),
    ensures
        walk(list, list.head(), steps) matches Some(h) && list.owns(h) && list.node(h).val
            == list@[steps as int],
{
    lemma_walk_from_head(list, steps);
    assert(list.owns(list.chain()[steps as int]));
}

/// A cursor on a node that has left the chain has nowhere to go: its next
/// advance ends the walk.
pub proof fn lemma_detached_ends_walk<T>(list: &List<T>, h: NodeRef)
    requires
        list.wf(),
        !list.chain().contains(h),
    ensures
        successor(list, Some(h)) is None,
{
    if list.owns(h) {
        assert(list.node(h).next is None);
    }
}

} // verus!
