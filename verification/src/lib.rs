//! Block-level storage layer of a log-structured merge-tree engine:
//! the on-disk block codec, an incremental size-bounded block builder,
//! a seeking cursor over a block, and the iterator combinators that
//! filter tombstones and latch failures at the top of a scan stack.

pub mod block;
pub mod builder;
pub mod iterator;
pub mod iterators;
pub mod keys;
pub mod lsm_iterator;
pub mod wire;

use vstd::prelude::*;

verus! {

/// Failure conditions surfaced by this layer.
///
/// Exhaustion of an iterator is not an error; it is reported through
/// `is_valid` alone.
#[derive(Clone, Copy, Debug, PartialEq, Eq, Structural)]
pub enum Error {
    /// A byte buffer handed to `Block::decode` is not a well-formed
    /// encoded block: truncated, inconsistent entry count, or offsets
    /// that do not delimit entries.
    CorruptBlock,
    /// A failure reported by an underlying source while advancing an
    /// iterator; forwarded, never retried.
    PropagatedIo,
    /// The remembered failure of a fused iterator, re-raised on every
    /// call after the first error.
    Latched,
}

} // verus!
