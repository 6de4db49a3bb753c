//! A seeking, forward-stepping cursor over one shared block.

use crate::block::Block;
use crate::iterators::StorageIterator;
use crate::keys::{lemma_lex_trichotomy, lex_cmp, lex_le, lex_lt, KeyOrder};
use crate::wire::{copy_range, entry_wf_at, read_u16};
use crate::Error;
use std::sync::Arc;
use vstd::prelude::*;

verus! {

/// A cursor over one `Block`. The block is shared read-only among any
/// number of cursors; the cursor itself is exclusively owned by one scan.
///
/// An empty `key` marks the cursor invalid (exhausted); while valid, `idx`
/// is the current entry's index, `key` a copy of its key, and `value_range`
/// the byte range of its value inside the block's data.
pub struct BlockIterator {
    pub block: Arc<Block>,
    pub key: Vec<u8>,
    pub value_range: (usize, usize),
    pub idx: usize,
}

impl BlockIterator {
    /// The entries of the underlying block.
    pub open spec fn blk_entries(&self) -> Seq<(Seq<u8>, Seq<u8>)> {
        (*self.block)@
    }

    /// The cursor points at an entry.
    pub open spec fn valid(&self) -> bool {
        self.key@.len() > 0
    }

    /// The block is well-formed and, while valid, the cached key, value
    /// range and index agree with the entry at `idx`.
    pub open spec fn wf(&self) -> bool {
        &&& (*self.block).wf()
        &&& self.valid() ==> {
            &&& self.idx < self.blk_entries().len()
            &&& self.key@ == self.blk_entries()[self.idx as int].0
            &&& self.value_range.0 <= self.value_range.1 <= (*self.block).data@.len()
            &&& (*self.block).data@.subrange(self.value_range.0 as int, self.value_range.1 as int)
                == self.blk_entries()[self.idx as int].1
        }
    }

    /// A fresh, not yet positioned cursor.
    pub fn new(block: Arc<Block>) -> (r: BlockIterator)
        requires
            (*block).wf(),
        ensures
            r.wf(),
            r.block == block,
            !r.valid(),
    {
        BlockIterator { block, key: Vec::new(), value_range: (0, 0), idx: 0 }
    }

    /// Creates a cursor positioned at the first entry, or exhausted if the
    /// block is empty. The stream it will yield is exactly the block's
    /// entries, in order.
    pub fn create_and_seek_to_first(block: Arc<Block>) -> (r: BlockIterator)
        requires
            (*block).wf(),
        ensures
            r.wf(),
            r.block == block,
            (*block)@.len() > 0 ==> r.valid() && r.idx == 0,
            (*block)@.len() == 0 ==> !r.valid(),
            r.entries() == (*block)@,
    {
        let mut iter = BlockIterator::new(block);
        iter.seek_to_first();
        proof {
            assert(iter.entries() =~= (*iter.block)@);
        }
        iter
    }

    /// Creates a cursor positioned at the first entry whose key is at or
    /// above `key`, or exhausted if there is none.
    pub fn create_and_seek_to_key(block: Arc<Block>, key: &[u8]) -> (r: BlockIterator)
        requires
            (*block).wf(),
            (*block).sorted(),
        ensures
            r.wf(),
            r.block == block,
            r.valid() ==> r.idx < (*block)@.len() && lex_le(key@, (*block)@[r.idx as int].0)
                && (forall|j: int| 0 <= j < r.idx ==> lex_lt((#[trigger] (*block)@[j]).0, key@)),
            !r.valid() ==> forall|j: int|
                0 <= j < (*block)@.len() ==> lex_lt((#[trigger] (*block)@[j]).0, key@),
            r.valid() <==> exists|j: int|
                0 <= j < (*block)@.len() && lex_le(key@, (#[trigger] (*block)@[j]).0),
    {
        let mut iter = BlockIterator::new(block);
        let ghost pre = iter;
        iter.seek_to_key(key);
        proof {
            assert(pre.blk_entries() == (*block)@);
            assert(iter.blk_entries() == (*block)@);
        }
        iter
    }

    /// The current key; empty when the cursor is invalid.
    pub fn key(&self) -> (k: &[u8])
        ensures
            k@ == self.key@,
            self.wf() && self.valid() ==> k@ == self.blk_entries()[self.idx as int].0,
    {
        self.key.as_slice()
    }

    /// The current value, read straight out of the shared block.
    pub fn value(&self) -> (v: &[u8])
        requires
            self.wf(),
            self.valid(),
        ensures
            v@ == self.blk_entries()[self.idx as int].1,
    {
        vstd::slice::slice_subrange(
            self.block.data.as_slice(),
            self.value_range.0,
            self.value_range.1,
        )
    }

    /// True while the cursor points at an entry.
    pub fn is_valid(&self) -> (r: bool)
        ensures
            r == self.valid(),
    {
        self.key.len() > 0
    }

    /// Positions the cursor at entry `idx`, or marks it exhausted when
    /// `idx` is past the last entry.
    pub fn seek_to_idx(&mut self, idx: usize)
        requires
            old(self).wf(),
        ensures
            final(self).wf(),
            final(self).block == old(self).block,
            idx < old(self).blk_entries().len() ==> final(self).valid() && final(self).idx == idx,
            idx >= old(self).blk_entries().len() ==> !final(self).valid(),
    {
        let n = self.block.offsets.len();
        if idx >= n {
            self.key.clear();
            self.value_range = (0, 0);
            return ;
        }
        proof {
            assert(entry_wf_at((*self.block).data@, ((*self.block).offsets@[idx as int]) as int));
        }
        let off = self.block.offsets[idx] as usize;
        let klen = read_u16(self.block.data.as_slice(), off) as usize;
        self.key = copy_range(self.block.data.as_slice(), off + 2, off + 2 + klen);
        let vlen = read_u16(self.block.data.as_slice(), off + 2 + klen) as usize;
        self.value_range = (off + 4 + klen, off + 4 + klen + vlen);
        self.idx = idx;
    }

    /// Positions the cursor at the block's first entry, or marks it
    /// exhausted when the block is empty.
    pub fn seek_to_first(&mut self)
        requires
            old(self).wf(),
        ensures
            final(self).wf(),
            final(self).block == old(self).block,
            old(self).blk_entries().len() > 0 ==> final(self).valid() && final(self).idx == 0,
            old(self).blk_entries().len() == 0 ==> !final(self).valid(),
    {
        self.seek_to_idx(0);
    }

    /// Steps to the next entry; the cursor becomes exhausted once it moves
    /// past the last one.
    pub fn next(&mut self)
        requires
            old(self).wf(),
            old(self).valid(),
        ensures
            final(self).wf(),
            final(self).block == old(self).block,
            old(self).idx + 1 < old(self).blk_entries().len() ==> final(self).valid()
                && final(self).idx == old(self).idx + 1,
            old(self).idx + 1 >= old(self).blk_entries().len() ==> !final(self).valid(),
    {
        let i = self.idx;
        self.seek_to_idx(i + 1);
    }

    /// Seeks to the first entry whose key is at or above `key` in byte-wise
    /// lexicographic order (its lower bound), assuming the block's keys are
    /// sorted; exhausted when every key is below `key`.
    pub fn seek_to_key(&mut self, key: &[u8])
        requires
            old(self).wf(),
            (*old(self).block).sorted(),
        ensures
            final(self).wf(),
            final(self).block == old(self).block,
            final(self).valid() ==> final(self).idx < old(self).blk_entries().len() && lex_le(
                key@,
                old(self).blk_entries()[final(self).idx as int].0,
            ) && (forall|j: int|
                0 <= j < final(self).idx ==> lex_lt(
                    (#[trigger] old(self).blk_entries()[j]).0,
                    key@,
                )),
            !final(self).valid() ==> forall|j: int|
                0 <= j < old(self).blk_entries().len() ==> lex_lt(
                    (#[trigger] old(self).blk_entries()[j]).0,
                    key@,
                ),
            final(self).valid() <==> exists|j: int|
                0 <= j < old(self).blk_entries().len() && lex_le(
                    key@,
                    (#[trigger] old(self).blk_entries()[j]).0,
                ),
    {
        let n = self.block.num_entries();
        let mut i: usize = 0;
        let mut stop = false;
        while i < n && !stop
            invariant
                *self == *old(self),
                self.wf(),
                (*self.block).sorted(),
                n == self.blk_entries().len(),
                i <= n,
                stop ==> i < n && lex_le(key@, self.blk_entries()[i as int].0),
                forall|j: int| 0 <= j < i ==> lex_lt((#[trigger] self.blk_entries()[j]).0, key@),
            decreases n - i + if stop {
                0int
            } else {
                1int
            },
        {
            let k = self.block.entry_key(i);
            match lex_cmp(k.as_slice(), key) {
                KeyOrder::Before => {
                    i = i + 1;
                },
                _ => {
                    stop = true;
                },
            }
        }
        if stop {
            self.seek_to_idx(i);
        } else {
            proof {
                assert(i == n);
                assert forall|j: int| 0 <= j < self.blk_entries().len() implies !lex_le(
                    key@,
                    (#[trigger] self.blk_entries()[j]).0,
                ) by {
                    lemma_lex_trichotomy(key@, self.blk_entries()[j].0);
                }
            }
            self.seek_to_idx(n);
        }
    }
}

impl StorageIterator for BlockIterator {
    open spec fn inv(&self) -> bool {
        self.wf()
    }

    open spec fn entries(&self) -> Seq<(Seq<u8>, Seq<u8>)> {
        if self.valid() {
            self.blk_entries().skip(self.idx as int)
        } else {
            Seq::empty()
        }
    }

    fn is_valid(&self) -> (r: bool) {
        BlockIterator::is_valid(self)
    }

    fn key(&self) -> (k: &[u8]) {
        BlockIterator::key(self)
    }

    fn value(&self) -> (v: &[u8]) {
        BlockIterator::value(self)
    }

    /// A block cursor reads only from memory and never fails.
    fn next(&mut self) -> (res: Result<(), Error>)
        returns
            Ok::<(), Error>(()),
    {
        if BlockIterator::is_valid(self) {
            let ghost pre = self.entries();
            BlockIterator::next(self);
            proof {
                assert(self.entries() =~= pre.drop_first());
            }
        }
        Ok(())
    }
}

} // verus!
