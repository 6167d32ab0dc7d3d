//! The queue seen as a mathematical sequence, front first.
//!
//! The contracts of [`crate::queue::List`] describe every operation by what
//! it does to this sequence. The laws below are consequences that hold for
//! every sequence of operations.

use vstd::prelude::*;

verus! {

/// The value that the next removal yields, if there is one.
pub open spec fn front<T>(q: Seq<T>) -> Option<T> {
    if q.len() > 0 {
        Some(q[0])
    } else {
        None
    }
}

/// The queue after one removal; an empty queue stays empty.
pub open spec fn after_pop<T>(q: Seq<T>) -> Seq<T> {
    if q.len() > 0 {
        q.skip(1)
    } else {
        q
    }
}

/// The queue after appending the values of `vs` one by one.
pub open spec fn after_pushes<T>(q: Seq<T>, vs: Seq<T>) -> Seq<T>
    decreases vs.len(),
{
    if vs.len() == 0 {
        q
    } else {
        after_pushes(q.push(vs[0]), vs.skip(1))
    }
}

/// The queue after `n` removals in a row.
pub open spec fn after_pops<T>(q: Seq<T>, n: nat) -> Seq<T>
    decreases n,
{
    if n == 0 {
        q
    } else {
        after_pops(after_pop(q), (n - 1) as nat)
    }
}

/// Appending one by one is concatenation.
pub proof fn lemma_pushes_concat<T>(q: Seq<T>, vs: Seq<T>)
    ensures
        after_pushes(q, vs) == q + vs,
    decreases vs.len(),
{
    if vs.len() > 0 {
        lemma_pushes_concat(q.push(vs[0]), vs.skip(1));
        assert(q.push(vs[0]) + vs.skip(1) =~= q + vs);
    } else {
        assert(q + vs =~= q);
    }
}

/// `n` removals drop the first `n` values, or all of them when there are
/// fewer.
pub proof fn lemma_pops_skip<T>(q: Seq<T>, n: nat)
    ensures
        after_pops(q, n) == if n <= q.len() {
            q.skip(n as int)
        } else {
            Seq::empty()
        },
    decreases n,
{
    if n == 0 {
        assert(q.skip(0) =~= q);
    } else {
        lemma_pops_skip(after_pop(q), (n - 1) as nat);
        if q.len() > 0 {
            if n <= q.len() {
                assert(q.skip(1).skip(n - 1) =~= q.skip(n as int));
            }
        } else {
            assert(q =~= Seq::empty());
        }
    }
}

/// First in, first out: when the values `vs` are appended to an empty
/// queue, the removal that follows `k` earlier removals yields `vs[k]`,
/// and every removal after the last value yields nothing.
pub proof fn lemma_fifo_order<T>(vs: Seq<T>, k: nat)
    ensures
        front(after_pops(after_pushes(Seq::empty(), vs), k)) == if k < vs.len() {
            Some(vs[k as int])
        } else {
            None
        },
{
    lemma_pushes_concat(Seq::empty(), vs);
    assert(Seq::<T>::empty() + vs =~= vs);
    lemma_pops_skip(vs, k);
}

/// Once every value has been removed the queue is empty, and it stays
/// empty under further removals.
pub proof fn lemma_pops_exhaust<T>(q: Seq<T>, n: nat)
    requires
        n >= q.len(),
    ensures
        after_pops(q, n).len() == 0,
        front(after_pops(q, n)) is None,
        after_pop(after_pops(q, n)) == after_pops(q, n),
{
    lemma_pops_skip(q, n);
    if n == q.len() {
        assert(q.skip(n as int).len() == 0);
    }
}

/// A value written over the front is the value that the next removal
/// yields, and the values behind it are untouched.
pub proof fn lemma_front_write_visible<T>(q: Seq<T>, v: T)
    requires
        q.len() > 0,
    ensures
        front(q.update(0, v)) == Some(v),
        after_pop(q.update(0, v)) == after_pop(q),
{
    assert(q.update(0, v).skip(1) =~= q.skip(1));
}

} // verus!
