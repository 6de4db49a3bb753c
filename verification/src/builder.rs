//! Incremental construction of a block under a soft size budget.

use crate::block::Block;
use crate::keys::{entries_sorted, lemma_sorted_push, lex_lt};
use crate::wire::{
    enc_entry, entries_of, layout_wf, lemma_layout_bounds, lemma_layout_push, push_u16,
};
use vstd::prelude::*;

verus! {

/// Accumulates encoded entries until the block's byte budget is reached,
/// then finalizes into an immutable `Block`.
pub struct BlockBuilder {
    /// Byte offset in `data` at which each entry starts.
    pub offsets: Vec<u16>,
    /// The encoded entries added so far.
    pub data: Vec<u8>,
    /// Soft byte budget for the finished block.
    pub block_size: usize,
    /// Copy of the first added key, for per-block indexes built above this
    /// layer; empty until the first entry is added.
    pub first_key: Vec<u8>,
}

impl View for BlockBuilder {
    type V = Seq<(Seq<u8>, Seq<u8>)>;

    open spec fn view(&self) -> Self::V {
        entries_of(self.data@, self.offsets@)
    }
}

impl BlockBuilder {
    /// The accumulated buffers form a well-formed, strictly ascending run of
    /// entries, and `first_key` caches the first key.
    pub open spec fn wf(&self) -> bool {
        &&& layout_wf(self.data@, self.offsets@)
        &&& entries_sorted(self@)
        &&& self.first_key@ == if self@.len() == 0 {
            Seq::<u8>::empty()
        } else {
            self@[0].0
        }
    }

    /// The size in bytes of the block this builder would currently encode
    /// to: entry data, one `u16` per offset, and the trailing `u16` count.
    pub open spec fn current_size_spec(&self) -> int {
        2 + 2 * self.offsets@.len() as int + self.data@.len() as int
    }

    /// An `add` of this entry succeeds: always for the first entry;
    /// afterwards only when the grown block stays within `block_size` and
    /// the new entry's offset and index slot still fit the `u16` wire
    /// format.
    pub open spec fn can_add(&self, key: Seq<u8>, val: Seq<u8>) -> bool {
        self@.len() == 0 || {
            &&& self.current_size_spec() + key.len() + val.len() + 6 <= self.block_size
            &&& self.data@.len() <= 0xffff
            &&& self@.len() < 0xffff
        }
    }

    /// Creates an empty builder with the given byte budget.
    pub fn new(block_size: usize) -> (r: BlockBuilder)
        ensures
            r.wf(),
            r@.len() == 0,
            r.block_size == block_size,
    {
        BlockBuilder {
            offsets: Vec::new(),
            data: Vec::new(),
            block_size,
            first_key: Vec::new(),
        }
    }

    /// The size in bytes of the block this builder would currently encode
    /// to.
    pub fn current_size(&self) -> (s: usize)
        requires
            self.wf(),
        ensures
            s == self.current_size_spec(),
    {
        proof {
            lemma_layout_bounds(self.data@, self.offsets@);
        }
        2 + self.offsets.len() * 2 + self.data.len()
    }

    /// The size the block would have after admitting this entry.
    pub fn estimated_size(&self, key: &[u8], value: &[u8]) -> (s: usize)
        requires
            self.wf(),
            key@.len() <= 0xffff,
            value@.len() <= 0xffff,
        ensures
            s == self.current_size_spec() + key@.len() + value@.len() + 6,
    {
        proof {
            lemma_layout_bounds(self.data@, self.offsets@);
        }
        self.current_size() + key.len() + value.len() + 6
    }

    /// True while no entry has been added, judged by the offset count.
    pub fn is_empty(&self) -> (r: bool)
        ensures
            r == (self@.len() == 0),
    {
        self.offsets.len() == 0
    }

    /// Appends an entry, or rejects it without any change of state when the
    /// builder is non-empty and the entry would not fit.
    ///
    /// The very first entry is admitted unconditionally, however large, so
    /// every block holds at least one entry and callers always make
    /// progress. The caller owes strictly ascending, duplicate-free keys.
    #[must_use]
    pub fn add(&mut self, key: &[u8], value: &[u8]) -> (r: bool)
        requires
            old(self).wf(),
            1 <= key@.len() <= 0xffff,
            value@.len() <= 0xffff,
            old(self)@.len() > 0 ==> lex_lt(old(self)@.last().0, key@),
        ensures
            final(self).wf(),
            final(self).block_size == old(self).block_size,
            r == old(self).can_add(key@, value@),
            r ==> final(self)@ == old(self)@.push((key@, value@)),
            !r ==> *final(self) == *old(self),
            old(self)@.len() == 0 ==> r,
    {
        proof {
            lemma_layout_bounds(self.data@, self.offsets@);
        }
        if !self.is_empty() {
            let cur = self.current_size();
            let extra = key.len() + value.len() + 6;
            if cur > self.block_size || extra > self.block_size - cur {
                return false;
            }
            if self.data.len() > 0xffff || self.offsets.len() >= 0xffff {
                return false;
            }
        }
        let ghost old_data = self.data@;
        let ghost old_offsets = self.offsets@;
        let ghost old_entries = self@;
        proof {
            lemma_layout_push(old_data, old_offsets, key@, value@);
        }
        let off = self.data.len() as u16;
        self.offsets.push(off);
        push_u16(&mut self.data, key.len() as u16);
        self.data.extend_from_slice(key);
        push_u16(&mut self.data, value.len() as u16);
        self.data.extend_from_slice(value);
        proof {
            assert(self.data@ =~= old_data + enc_entry(key@, value@));
            assert(self.offsets@ =~= old_offsets.push(old_data.len() as u16));
            assert(self@ == old_entries.push((key@, value@)));
            lemma_sorted_push(old_entries, (key@, value@));
        }
        if self.first_key.len() == 0 {
            proof {
                assert(old_entries.len() == 0);
            }
            self.first_key = vstd::slice::slice_to_vec(key);
        }
        true
    }

    /// Once the builder already holds an entry, an entry whose admission
    /// would push the encoded block size over `block_size` can never be
    /// admitted: `add` then returns false and, by its contract, leaves the
    /// builder entirely unchanged.
    pub proof fn lemma_add_rejects_over_budget(&self, key: Seq<u8>, val: Seq<u8>)
        requires
            self@.len() > 0,
            self.current_size_spec() + key.len() + val.len() + 6 > self.block_size,
        ensures
            !self.can_add(key, val),
    {
    }

    /// Consumes the builder and returns the finished, immutable block.
    pub fn build(self) -> (b: Block)
        requires
            self.wf(),
        ensures
            b.wf(),
            b.sorted(),
            b@ == self@,
            b.data@ == self.data@,
            b.offsets@ == self.offsets@,
    {
        Block { data: self.data, offsets: self.offsets }
    }
}

} // verus!
