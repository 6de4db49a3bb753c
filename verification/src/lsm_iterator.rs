//! The top of a scan stack: tombstone filtering over a merged stream, and
//! fail-stop decoration for consumers that must never observe post-error
//! state.

use crate::iterators::StorageIterator;
use crate::Error;
use vstd::prelude::*;

verus! {

/// The entries of `s` that are not tombstones (whose value is non-empty),
/// in order.
pub open spec fn live_entries(s: Seq<(Seq<u8>, Seq<u8>)>) -> Seq<(Seq<u8>, Seq<u8>)>
    decreases s.len(),
{
    if s.len() == 0 {
        Seq::empty()
    } else if s[0].1.len() > 0 {
        seq![s[0]] + live_entries(s.drop_first())
    } else {
        live_entries(s.drop_first())
    }
}

pub proof fn lemma_live_head(s: Seq<(Seq<u8>, Seq<u8>)>)
    requires
        s.len() > 0,
        s[0].1.len() > 0,
    ensures
        live_entries(s).len() > 0,
        live_entries(s)[0] == s[0],
        live_entries(s).drop_first() == live_entries(s.drop_first()),
{
    assert(live_entries(s) == seq![s[0]] + live_entries(s.drop_first()));
    assert(live_entries(s).drop_first() =~= live_entries(s.drop_first()));
}

pub proof fn lemma_live_tombstone(s: Seq<(Seq<u8>, Seq<u8>)>)
    requires
        s.len() > 0,
        s[0].1.len() == 0,
    ensures
        live_entries(s) == live_entries(s.drop_first()),
{
}

/// No tombstone survives the filter: every entry of `live_entries(s)` has a
/// non-empty value, whatever `s` holds.
pub proof fn lemma_live_entries_no_tombstones(s: Seq<(Seq<u8>, Seq<u8>)>)
    ensures
        forall|i: int|
            0 <= i < live_entries(s).len() ==> (#[trigger] live_entries(s)[i]).1.len() > 0,
    decreases s.len(),
{
    if s.len() > 0 {
        lemma_live_entries_no_tombstones(s.drop_first());
        if s[0].1.len() > 0 {
            assert forall|i: int|
                0 <= i < live_entries(s).len() implies (#[trigger] live_entries(s)[i]).1.len()
                > 0 by {
                if i > 0 {
                    assert(live_entries(s)[i] == live_entries(s.drop_first())[i - 1]);
                }
            }
        }
    }
}

/// Filters a merged, already ordered and duplicate-free stream so that no
/// deletion marker (entry with an empty value) ever surfaces: the stream it
/// exposes is exactly the live entries of the stream it wraps.
///
/// `is_valid` latches false permanently when the wrapped source fails.
pub struct LsmIterator<I: StorageIterator> {
    pub inner: I,
    pub is_valid: bool,
}

impl<I: StorageIterator> LsmIterator<I> {
    /// What holds between advancing and re-establishing the tombstone-free
    /// invariant: while the flag is set, a current entry exists, though it
    /// may still be a tombstone.
    pub open spec fn loose_inv(&self) -> bool {
        self.is_valid ==> self.inner.inv() && self.inner.entries().len() > 0
    }

    /// Wraps a merged stream and skips any leading tombstones, so that the
    /// new iterator exposes exactly the live entries of `iter`. A failure
    /// while skipping is forwarded and nothing is returned.
    pub fn new(iter: I) -> (r: Result<LsmIterator<I>, Error>)
        requires
            iter.inv(),
        ensures
            r matches Ok(it) ==> it.inv() && it.entries() == live_entries(iter.entries()),
            iter.entries().len() == 0 ==> r is Ok,
            iter.entries().len() > 0 && iter.entries()[0].1.len() > 0 ==> r is Ok,
    {
        let valid = iter.is_valid();
        let mut it = LsmIterator { inner: iter, is_valid: valid };
        match it.skip_deleted() {
            Ok(()) => {
                proof {
                    if !valid {
                        assert(live_entries(iter.entries()) =~= Seq::<(Seq<u8>, Seq<u8>)>::empty());
                    }
                }
                Ok(it)
            },
            Err(e) => Err(e),
        }
    }

    /// Advances the wrapped stream once and clears the flag when it is
    /// exhausted or fails.
    pub fn inner_next(&mut self) -> (r: Result<(), Error>)
        requires
            old(self).is_valid,
            old(self).inner.inv(),
            old(self).inner.entries().len() > 0,
        ensures
            final(self).loose_inv(),
            r is Ok ==> final(self).inner.inv() && final(self).inner.entries() == old(
                self,
            ).inner.entries().drop_first() && final(self).is_valid == (
            final(self).inner.entries().len() > 0),
            r is Err ==> final(self).is_valid == false,
    {
        match self.inner.next() {
            Ok(()) => {
                if !self.inner.is_valid() {
                    self.is_valid = false;
                }
                Ok(())
            },
            Err(e) => {
                self.is_valid = false;
                Err(e)
            },
        }
    }

    /// Advances the wrapped stream while its current entry is a tombstone,
    /// leaving the exposed stream unchanged; on a failure the iterator
    /// reports invalid from then on.
    pub fn skip_deleted(&mut self) -> (r: Result<(), Error>)
        requires
            old(self).loose_inv(),
        ensures
            final(self).inv(),
            r is Ok ==> final(self).entries() == old(self).entries(),
            r is Err ==> final(self).is_valid == false,
            !old(self).is_valid || old(self).inner.entries()[0].1.len() > 0 ==> r is Ok
                && *final(self) == *old(self),
    {
        while self.is_valid && self.inner.value().len() == 0
            invariant
                self.loose_inv(),
                self.entries() == old(self).entries(),
                (!old(self).is_valid || old(self).inner.entries()[0].1.len() > 0) ==> *self
                    == *old(self),
            decreases self.inner.entries().len(),
        {
            proof {
                lemma_live_tombstone(self.inner.entries());
            }
            match self.inner_next() {
                Ok(()) => {
                },
                Err(e) => {
                    return Err(e);
                },
            }
        }
        Ok(())
    }
}

impl<I: StorageIterator> StorageIterator for LsmIterator<I> {
    open spec fn inv(&self) -> bool {
        self.is_valid ==> {
            &&& self.inner.inv()
            &&& self.inner.entries().len() > 0
            &&& self.inner.entries()[0].1.len() > 0
        }
    }

    open spec fn entries(&self) -> Seq<(Seq<u8>, Seq<u8>)> {
        if self.is_valid {
            live_entries(self.inner.entries())
        } else {
            Seq::empty()
        }
    }

    fn is_valid(&self) -> (r: bool) {
        proof {
            if self.is_valid {
                lemma_live_head(self.inner.entries());
            }
        }
        self.is_valid
    }

    fn key(&self) -> (k: &[u8]) {
        proof {
            lemma_live_head(self.inner.entries());
        }
        self.inner.key()
    }

    fn value(&self) -> (v: &[u8]) {
        proof {
            lemma_live_head(self.inner.entries());
        }
        self.inner.value()
    }

    /// Calling this while already invalid is a quiet no-op; otherwise it
    /// advances the wrapped stream and forwards any failure it reports.
    fn next(&mut self) -> (r: Result<(), Error>)
        ensures
            !old(self).is_valid ==> r is Ok && *final(self) == *old(self),
    {
        if !self.is_valid {
            return Ok(());
        }
        let ghost s0 = self.inner.entries();
        proof {
            lemma_live_head(s0);
        }
        match self.inner_next() {
            Err(e) => Err(e),
            Ok(()) => {
                let ghost mid = self.entries();
                proof {
                    if self.is_valid {
                        assert(mid == live_entries(s0.drop_first()));
                    } else {
                        assert(live_entries(s0.drop_first()) =~= Seq::<(Seq<u8>, Seq<u8>)>::empty());
                    }
                    assert(mid == live_entries(s0).drop_first());
                }
                match self.skip_deleted() {
                    Err(e) => Err(e),
                    Ok(()) => Ok(()),
                }
            },
        }
    }
}

/// Fail-stop decoration: behaves as the wrapped iterator until its first
/// error, then reports invalid forever and re-raises an equivalent error
/// from every later `next`, without ever touching the wrapped iterator
/// again.
pub struct FusedIterator<I: StorageIterator> {
    pub iter: I,
    pub has_errored: bool,
}

impl<I: StorageIterator> FusedIterator<I> {
    /// Wraps an iterator; no error has been observed yet.
    pub fn new(iter: I) -> (r: FusedIterator<I>)
        requires
            iter.inv(),
        ensures
            r.inv(),
            !r.has_errored,
            r.iter == iter,
            r.entries() == iter.entries(),
    {
        FusedIterator { iter, has_errored: false }
    }
}

impl<I: StorageIterator> StorageIterator for FusedIterator<I> {
    open spec fn inv(&self) -> bool {
        !self.has_errored ==> self.iter.inv()
    }

    open spec fn entries(&self) -> Seq<(Seq<u8>, Seq<u8>)> {
        if self.has_errored {
            Seq::empty()
        } else {
            self.iter.entries()
        }
    }

    fn is_valid(&self) -> (r: bool) {
        !self.has_errored && self.iter.is_valid()
    }

    fn key(&self) -> (k: &[u8]) {
        self.iter.key()
    }

    fn value(&self) -> (v: &[u8]) {
        self.iter.value()
    }

    /// A no-op while merely exhausted; once the wrapped `next` has failed,
    /// the error is latched: every later call leaves the wrapped iterator
    /// untouched and returns the latched error again.
    fn next(&mut self) -> (r: Result<(), Error>)
        ensures
            old(self).has_errored ==> r == Err::<(), Error>(Error::Latched) && *final(self)
                == *old(self),
            old(self).has_errored ==> final(self).has_errored,
            r is Ok ==> final(self).has_errored == old(self).has_errored,
            r is Err ==> final(self).has_errored && r == Err::<(), Error>(Error::Latched),
            !old(self).has_errored && old(self).entries().len() == 0 ==> *final(self) == *old(self)
                && r is Ok,
    {
        if self.has_errored {
            return Err(Error::Latched);
        }
        if self.iter.is_valid() {
            match self.iter.next() {
                Ok(()) => Ok(()),
                Err(_) => {
                    self.has_errored = true;
                    Err(Error::Latched)
                },
            }
        } else {
            Ok(())
        }
    }
}

} // verus!
