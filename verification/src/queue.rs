//! A first-in-first-out list whose nodes can have several holders.
//!
//! The list keeps its nodes in an arena and names them by [`NodeRef`]
//! handles. A handle is a plain copyable value: the list's own links, any
//! number of cursors and the caller of a removal may all hold the same one.
//! What a handle names is read through a shared borrow of the list and
//! written through an exclusive one, so a write can never overlap another
//! access to the same node, and a conflicting access is rejected when the
//! program is compiled instead of when it runs.
//!
//! A node stays in the arena for as long as the list lives. A handle to a
//! node that has left the chain therefore never dangles: it still reads the
//! value the node had when it left.

use crate::cursor::Inter;
use crate::model::{after_pop, front};
use vstd::prelude::*;

verus! {

/// Names one node of the list that handed it out.
#[derive(Clone, Copy, PartialEq, Eq, Debug)]
pub struct NodeRef {
    idx: usize,
}

/// A possibly absent reference to a node.
pub type Link = Option<NodeRef>;

/// A value together with the link to the node that follows it.
pub struct Node<T> {
    pub val: T,
    pub next: Link,
}

/// A queue of values: `push` appends at the tail, `pop_front` removes at
/// the head.
pub struct List<T> {
    nodes: Vec<Node<T>>,
    head: Link,
    tail: Link,
    chain: Ghost<Seq<NodeRef>>,
}

/// The link that the node at position `i` of `chain` holds: to the node
/// after it, or to nothing at the end of the chain.
pub open spec fn link_after(chain: Seq<NodeRef>, i: int) -> Link {
    if i + 1 < chain.len() {
        Some(chain[i + 1])
    } else {
        None
    }
}

/// `arena` with the outgoing link of the node under `at` replaced by `next`;
/// unchanged when `at` is absent.
pub open spec fn relinked<T>(arena: Map<NodeRef, Node<T>>, at: Link, next: Link) -> Map<
    NodeRef,
    Node<T>,
> {
    match at {
        None => arena,
        Some(h) => arena.insert(h, Node { val: arena[h].val, next }),
    }
}

impl<T> View for List<T> {
    type V = Seq<T>;

    /// The queued values, front first.
    open spec fn view(&self) -> Seq<T> {
        Seq::new(self.chain().len(), |i: int| self.node(self.chain()[i]).val)
    }
}

impl<T> List<T> {
    /// Every node this list has ever created, by handle. Nodes that have
    /// been removed from the chain remain in the arena.
    pub closed spec fn arena(&self) -> Map<NodeRef, Node<T>> {
        Map::new(|h: NodeRef| h.idx < self.nodes@.len(), |h: NodeRef| self.nodes@[h.idx as int])
    }

    /// The handles of the linked nodes, front first.
    pub closed spec fn chain(&self) -> Seq<NodeRef> {
        self.chain@
    }

    /// The link to the front node.
    pub closed spec fn spec_head(&self) -> Link {
        self.head
    }

    /// The link to the back node.
    pub closed spec fn spec_tail(&self) -> Link {
        self.tail
    }

    /// Whether `h` names a node of this list's arena.
    pub open spec fn spec_owns(&self, h: NodeRef) -> bool {
        self.arena().dom().contains(h)
    }

    /// The node that `h` names.
    pub open spec fn node(&self, h: NodeRef) -> Node<T>
        recommends
            self.owns(h),
    {
        self.arena()[h]
    }

    /// The structural invariant of the list.
    ///
    /// The chain names each linked node once, and only nodes of the arena.
    /// `head` and `tail` are the two ends of the chain, both absent exactly
    /// when the chain is empty. Every linked node points at its successor in
    /// the chain and the last one points nowhere. A node outside the chain
    /// points nowhere.
    pub open spec fn wf(&self) -> bool {
        let chain = self.chain();
        &&& chain.no_duplicates()
        &&& forall|i: int| 0 <= i < chain.len() ==> self.owns(#[trigger] chain[i])
        &&& self.head() == if chain.len() == 0 {
            None
        } else {
            Some(chain.first())
        }
        &&& self.tail() == if chain.len() == 0 {
            None
        } else {
            Some(chain.last())
        }
        &&& forall|i: int|
            0 <= i < chain.len() ==> (#[trigger] self.node(chain[i])).next == link_after(chain, i)
        &&& forall|h: NodeRef|
            self.owns(h) && !chain.contains(h) ==> (#[trigger] self.node(h)).next is None
    }

    /// The list is empty exactly when it has no head, and exactly when it
    /// has no tail.
    pub proof fn lemma_empty_iff_no_ends(&self)
        requires
            self.wf(),
        ensures
            self@.len() == 0 <==> self.head() is None,
            self@.len() == 0 <==> self.tail() is None,
    {
    }

    /// The front value is the value of the head node, and the back value
    /// is the value of the tail node, which links to nothing.
    pub proof fn lemma_ends_hold_outer_values(&self)
        requires
            self.wf(),
            self@.len() > 0,
        ensures
            self.head() matches Some(h) && self.owns(h) && self.node(h).val == self@.first(),
            self.tail() matches Some(t) && self.owns(t) && self.node(t).val == self@.last()
                && self.node(t).next is None,
    {
        let chain = self.chain();
        assert(self.owns(chain[0]));
        assert(self.owns(chain[chain.len() - 1]));
        assert(self.node(chain[chain.len() - 1]).next == link_after(chain, chain.len() - 1));
    }

    /// `post` differs from this list at most in the value of node `h`.
    spec fn rewrites_to(&self, post: Self, h: NodeRef) -> bool {
        &&& post.head == self.head
        &&& post.tail == self.tail
        &&& post.chain == self.chain
        &&& post.nodes@ == self.nodes@.update(
            h.idx as int,
            Node { val: post.nodes@[h.idx as int].val, next: self.nodes@[h.idx as int].next },
        )
    }

    /// Writing a value into a node keeps the list well formed.
    proof fn lemma_rewrite_keeps_wf(&self, post: Self, h: NodeRef)
        requires
            self.wf(),
            self.owns(h),
            self.rewrites_to(post, h),
        ensures
            post.wf(),
    {
        let chain = self.chain();
        assert forall|i: int| 0 <= i < chain.len() implies post.owns(#[trigger] chain[i]) by {
            assert(self.owns(chain[i]));
        }
        assert forall|i: int| 0 <= i < chain.len() implies
            (#[trigger] post.node(chain[i])).next == link_after(chain, i) by {
            assert(self.owns(chain[i]));
            assert(self.node(chain[i]).next == link_after(chain, i));
        }
        assert forall|g: NodeRef| post.owns(g) && !chain.contains(g) implies
            (#[trigger] post.node(g)).next is None by {
            assert(self.node(g).next is None);
        }
    }

    /// Whether `h` names a node of this list's arena.
    #[verifier::when_used_as_spec(spec_owns)]
    pub fn owns(&self, h: NodeRef) -> (b: bool)
        ensures
            b == self.owns(h),
    {
        h.idx < self.nodes.len()
    }

    /// The link to the front node, absent when the list is empty.
    #[verifier::when_used_as_spec(spec_head)]
    pub fn head(&self) -> (link: Link)
        ensures
            link == self.head(),
    {
        self.head
    }

    /// The link to the back node, absent when the list is empty.
    #[verifier::when_used_as_spec(spec_tail)]
    pub fn tail(&self) -> (link: Link)
        ensures
            link == self.tail(),
    {
        self.tail
    }

    /// Read access to the node that `h` names, whether or not the node is
    /// still linked.
    pub fn borrow(&self, h: NodeRef) -> (node: &Node<T>)
        requires
            self.owns(h),
        ensures
            *node == self.node(h),
    {
        &self.nodes[h.idx]
    }
}

impl<T: Clone> List<T> {
    /// Creates an empty list with an empty arena.
    pub fn new() -> (list: Self)
        ensures
            list.wf(),
            list@ == Seq::<T>::empty(),
            list.arena() == Map::<NodeRef, Node<T>>::empty(),
    {
        List { nodes: Vec::new(), head: None, tail: None, chain: Ghost(Seq::empty()) }
    }

    /// A fresh cursor on the front node. The cursor shows the front node
    /// at once, before its first advance.
    #[allow(non_snake_case)]
    pub fn IntoIter(&self) -> (cursor: Inter)
        ensures
            cursor.iter == self.head(),
    {
        Inter { iter: self.head }
    }

    /// Appends `v` at the tail.
    ///
    /// The value lands in a node that the arena did not hold before. The
    /// former tail, if there was one, is linked to it; nothing else changes.
    pub fn push(&mut self, v: T)
        requires
            old(self).wf(),
        ensures
            final(self).wf(),
            final(self)@ == old(self)@.push(v),
            final(self).tail() matches Some(n) && {
                &&& !old(self).owns(n)
                &&& final(self).chain() == old(self).chain().push(n)
                &&& final(self).arena() == relinked(
                    old(self).arena(),
                    old(self).tail(),
                    Some(n),
                ).insert(n, (Node { val: v, next: None }))
            },
    {
        let n = NodeRef { idx: self.nodes.len() };
        self.nodes.push(Node { val: v, next: None });
        match self.head {
            None => {
                self.head = Some(n);
                self.tail = Some(n);
            },
            Some(_) => {
                if let Some(tail) = self.tail {
                    self.nodes[tail.idx].next = Some(n);
                    self.tail = Some(n);
                }
            },
        }
        proof {
            self.chain@ = self.chain@.push(n);
            let before = old(self).chain();
            let after = self.chain();
            assert forall|i: int| 0 <= i < after.len() implies
                (#[trigger] self.node(after[i])).next == link_after(after, i) by {
                if i < before.len() {
                    assert(old(self).owns(before[i]));
                    assert(old(self).node(before[i]).next == link_after(before, i));
                }
            }
            assert forall|h: NodeRef| self.owns(h) && !after.contains(h) implies
                (#[trigger] self.node(h)).next is None by {
                assert(after[after.len() - 1] == n);
                if before.contains(h) {
                    let i = choose|i: int| 0 <= i < before.len() && before[i] == h;
                    assert(after[i] == h);
                }
                assert(old(self).node(h).next is None);
            }
        }
    }

    /// Removes the front node from the chain and returns its handle, or
    /// returns `None` and changes nothing when the list is empty.
    ///
    /// The removed node stays in the arena with its value; only its
    /// outgoing link is cleared.
    pub fn pop_front(&mut self) -> (front: Link)
        requires
            old(self).wf(),
        ensures
            final(self).wf(),
            front == old(self).head(),
            final(self)@ == after_pop(old(self)@),
            final(self).chain() == after_pop(old(self).chain()),
            final(self).arena() == relinked(old(self).arena(), front, None),
    {
        if let Some(head) = self.head.take() {
            assert(head == old(self).chain()[0]);
            assert(old(self).owns(old(self).chain()[0]));
            if let Some(next) = self.nodes[head.idx].next.take() {
                self.head = Some(next);
            } else {
                self.head = None;
                self.tail = None;
            }
            proof {
                self.chain@ = self.chain@.skip(1);
                let before = old(self).chain();
                let after = self.chain();
                assert(old(self).node(before[0]).next == link_after(before, 0));
                assert forall|i: int| 0 <= i < after.len() implies
                    self.owns(#[trigger] after[i]) by {
                    assert(old(self).owns(before[i + 1]));
                }
                assert forall|i: int| 0 <= i < after.len() implies
                    (#[trigger] self.node(after[i])).next == link_after(after, i) by {
                    assert(before[i + 1] != before[0]);
                    assert(old(self).node(before[i + 1]).next == link_after(before, i + 1));
                }
                assert forall|h: NodeRef| self.owns(h) && !after.contains(h) implies
                    (#[trigger] self.node(h)).next is None by {
                    if h != head {
                        if before.contains(h) {
                            let i = choose|i: int| 0 <= i < before.len() && before[i] == h;
                            assert(after[i - 1] == h);
                        }
                        assert(old(self).node(h).next is None);
                    }
                }
            }
            Some(head)
        } else {
            None
        }
    }

    /// A duplicate of the front value, or `None` when the list is empty.
    /// The list is left as it is.
    pub fn peek_front(&self) -> (front: Option<T>)
        requires
            self.wf(),
        ensures
            self@.len() == 0 ==> front is None,
            self@.len() > 0 ==> (front matches Some(v) && cloned(self@[0], v)),
    {
        if let Some(head) = &self.head {
            assert(*head == self.chain()[0]);
            assert(self.owns(self.chain()[0]));
            let node = &self.nodes[head.idx];
            Some(node.val.clone())
        } else {
            None
        }
    }
}

impl<T: Clone + Copy> List<T> {
    /// Removes the front node from the chain as `pop_front` does and
    /// returns a copy of its value instead of its handle.
    pub fn pop_front_val(&mut self) -> (val: Option<T>)
        requires
            old(self).wf(),
        ensures
            final(self).wf(),
            val == front(old(self)@),
            final(self)@ == after_pop(old(self)@),
            final(self).chain() == after_pop(old(self).chain()),
            final(self).arena() == relinked(old(self).arena(), old(self).head(), None),
    {
        if let Some(head) = self.pop_front() {
            assert(head == old(self).chain()[0]);
            assert(old(self).owns(old(self).chain()[0]));
            assert(self.node(head).val == old(self).node(head).val);
            Some(self.nodes[head.idx].val)
        } else {
            None
        }
    }

    /// Read access to the front value in place, or `None` when the list is
    /// empty. While the access is held the list cannot be changed.
    pub fn peek_front_ref(&self) -> (guard: Option<&T>)
        requires
            self.wf(),
        ensures
            self@.len() == 0 ==> guard is None,
            self@.len() > 0 ==> (guard matches Some(r) && *r == self@[0]),
    {
        if let Some(head) = &self.head {
            assert(*head == self.chain()[0]);
            assert(self.owns(self.chain()[0]));
            Some(&self.nodes[head.idx].val)
        } else {
            None
        }
    }

    /// Exclusive read and write access to the front value in place, or
    /// `None` when the list is empty.
    ///
    /// While the access is held nothing else can reach the list. What is
    /// written through it is the front value from then on; the chain and
    /// every other node stay as they were.
    #[allow(non_snake_case)]
    pub fn peek_front_refMut(&mut self) -> (guard: Option<&mut T>)
        requires
            old(self).wf(),
        ensures
            final(self).wf(),
            final(self).chain() == old(self).chain(),
            match guard {
                None => old(self)@.len() == 0 && final(self).arena() == old(self).arena(),
                Some(r) => {
                    &&& old(self).head() matches Some(h)
                    &&& *r == old(self)@[0]
                    &&& final(self)@ == old(self)@.update(0, *final(r))
                    &&& final(self).arena() == old(self).arena().insert(
                        h,
                        (Node { val: *final(r), next: old(self).node(h).next }),
                    )
                },
            },
    {
        if let Some(head) = self.head {
            assert(head == old(self).chain()[0]);
            assert(old(self).owns(old(self).chain()[0]));
            proof {
                let pre = *old(self);
                assert forall|post: Self| pre.rewrites_to(post, head) implies #[trigger] post.wf() by {
                    pre.lemma_rewrite_keeps_wf(post, head);
                }
            }
            Some(&mut self.nodes[head.idx].val)
        } else {
            None
        }
    }
}

} // verus!
