//! Singly linked lists under two ownership strategies.
//!
//! [`stack`] holds a list in which every node is owned by its predecessor.
//! [`queue`] holds a first-in-first-out list whose nodes can be named by
//! several holders at once, and [`cursor`] walks such a list without
//! disturbing it. [`model`] describes the queue as a plain sequence and
//! states the ordering laws that the queue's contracts refer to.

pub mod cursor;
pub mod model;
pub mod queue;
pub mod stack;
