//! The narrow capability set every sorted source exposes, and a simple
//! in-memory source.
//!
//! Block cursors, in-memory runs, an external merge iterator and the
//! combinators in this crate all speak this one interface; composition is
//! by wrapping, never by subclassing.

use crate::Error;
use vstd::prelude::*;

verus! {

/// A forward iterator over key-value entries.
///
/// The abstract stream `entries()` holds the entries still to be yielded,
/// current entry first. `next` either pops the head, or reports a failure
/// after which the stream is empty; exhaustion itself is not an error and
/// is observed through `is_valid` alone.
pub trait StorageIterator: Sized {
    /// The implementation's invariant; every operation preserves it.
    spec fn inv(&self) -> bool;

    /// The remaining entries, current one first.
    spec fn entries(&self) -> Seq<(Seq<u8>, Seq<u8>)>;

    /// True while a current entry exists.
    fn is_valid(&self) -> (r: bool)
        requires
            self.inv(),
        ensures
            r == (self.entries().len() > 0),
    ;

    /// The current entry's key.
    fn key(&self) -> (k: &[u8])
        requires
            self.inv(),
            self.entries().len() > 0,
        ensures
            k@ == self.entries()[0].0,
    ;

    /// The current entry's value.
    fn value(&self) -> (v: &[u8])
        requires
            self.inv(),
            self.entries().len() > 0,
        ensures
            v@ == self.entries()[0].1,
    ;

    /// Advances past the current entry. Calling it while exhausted is a
    /// no-op; a failure empties the stream and is forwarded to the caller.
    fn next(&mut self) -> (r: Result<(), Error>)
        requires
            old(self).inv(),
        ensures
            final(self).inv(),
            r is Ok && old(self).entries().len() > 0 ==> final(self).entries() == old(
                self,
            ).entries().drop_first(),
            r is Ok && old(self).entries().len() == 0 ==> final(self).entries() == old(
                self,
            ).entries(),
            r is Err ==> final(self).entries().len() == 0,
    ;
}

/// The entry views of a vector of owned entries.
pub open spec fn entry_views(es: Seq<(Vec<u8>, Vec<u8>)>) -> Seq<(Seq<u8>, Seq<u8>)> {
    Seq::new(es.len(), |i: int| (es[i].0@, es[i].1@))
}

/// An iterator over a fixed in-memory run of entries, standing in for a
/// source such as a memtable scan. It can be scripted to report a storage
/// failure when asked to advance past entry `fail_at`, which exercises the
/// failure paths of the combinators built on `StorageIterator`.
pub struct VecIterator {
    pub entries: Vec<(Vec<u8>, Vec<u8>)>,
    pub idx: usize,
    pub fail_at: Option<usize>,
    pub failed: bool,
}

impl VecIterator {
    /// An iterator positioned at the first of `entries`; if `fail_at` is
    /// set, advancing past that entry reports a failure instead.
    pub fn new(entries: Vec<(Vec<u8>, Vec<u8>)>, fail_at: Option<usize>) -> (r: VecIterator)
        ensures
            r.inv(),
            !r.failed,
            r.entries() == entry_views(entries@),
    {
        let r = VecIterator { entries, idx: 0, fail_at, failed: false };
        proof {
            assert(entry_views(r.entries@).skip(0) =~= entry_views(r.entries@));
        }
        r
    }
}

impl StorageIterator for VecIterator {
    open spec fn inv(&self) -> bool {
        self.idx <= self.entries@.len()
    }

    open spec fn entries(&self) -> Seq<(Seq<u8>, Seq<u8>)> {
        if self.failed {
            Seq::empty()
        } else {
            entry_views(self.entries@).skip(self.idx as int)
        }
    }

    fn is_valid(&self) -> (r: bool) {
        !self.failed && self.idx < self.entries.len()
    }

    fn key(&self) -> (k: &[u8]) {
        let e = &self.entries[self.idx];
        e.0.as_slice()
    }

    fn value(&self) -> (v: &[u8]) {
        let e = &self.entries[self.idx];
        e.1.as_slice()
    }

    /// Fails exactly when asked to advance past the scripted entry.
    fn next(&mut self) -> (r: Result<(), Error>)
        ensures
            (r is Err) == (!old(self).failed && old(self).idx < old(self).entries@.len() && old(
                self,
            ).fail_at == Some(old(self).idx)),
    {
        if self.failed {
            return Ok(());
        }
        if self.idx >= self.entries.len() {
            return Ok(());
        }
        let should_fail = match self.fail_at {
            Some(f) => f == self.idx,
            None => false,
        };
        if should_fail {
            self.failed = true;
            return Err(Error::PropagatedIo);
        }
        let ghost pre = self.entries();
        self.idx = self.idx + 1;
        proof {
            assert(self.entries() =~= pre.drop_first());
        }
        Ok(())
    }
}

} // verus!
