//! Tests of tombstone filtering and fail-stop decoration.

use lsm_block::builder::BlockBuilder;
use lsm_block::iterator::BlockIterator;
use lsm_block::iterators::{StorageIterator, VecIterator};
use lsm_block::lsm_iterator::{FusedIterator, LsmIterator};
use lsm_block::Error;
use std::sync::Arc;

fn run(entries: &[(&[u8], &[u8])], fail_at: Option<usize>) -> VecIterator {
    let owned: Vec<(Vec<u8>, Vec<u8>)> = entries
        .iter()
        .map(|(k, v)| (k.to_vec(), v.to_vec()))
        .collect();
    VecIterator::new(owned, fail_at)
}

fn collect<I: StorageIterator>(it: &mut I) -> Vec<(Vec<u8>, Vec<u8>)> {
    let mut seen = Vec::new();
    while it.is_valid() {
        seen.push((it.key().to_vec(), it.value().to_vec()));
        it.next().expect("no failure scripted");
    }
    seen
}

#[test]
fn lsm_iterator_hides_tombstones() {
    let merged = run(&[(b"k1", b"v1"), (b"k2", b""), (b"k3", b"v3")], None);
    let mut lsm = LsmIterator::new(merged).expect("no failure scripted");
    let seen = collect(&mut lsm);
    assert_eq!(
        seen,
        vec![(b"k1".to_vec(), b"v1".to_vec()), (b"k3".to_vec(), b"v3".to_vec())]
    );
}

#[test]
fn lsm_iterator_skips_leading_and_trailing_tombstones() {
    let merged = run(&[(b"a", b""), (b"b", b""), (b"c", b"x"), (b"d", b"")], None);
    let mut lsm = LsmIterator::new(merged).expect("no failure scripted");
    assert!(lsm.is_valid());
    assert_eq!(lsm.key(), b"c");
    assert_eq!(lsm.value(), b"x");
    lsm.next().unwrap();
    assert!(!lsm.is_valid());
}

#[test]
fn all_tombstones_give_invalid_iterator() {
    let merged = run(&[(b"a", b""), (b"b", b"")], None);
    let lsm = LsmIterator::new(merged).expect("no failure scripted");
    assert!(!lsm.is_valid());
}

#[test]
fn lsm_iterator_over_block_cursor() {
    let mut b = BlockBuilder::new(4096);
    assert!(b.add(b"apple", b"1"));
    assert!(b.add(b"banana", b"")); // deletion marker in the block
    assert!(b.add(b"cherry", b"3"));
    let block = Arc::new(b.build());
    let cursor = BlockIterator::create_and_seek_to_first(block);
    let mut lsm = LsmIterator::new(cursor).expect("block cursors never fail");
    let seen = collect(&mut lsm);
    assert_eq!(
        seen,
        vec![(b"apple".to_vec(), b"1".to_vec()), (b"cherry".to_vec(), b"3".to_vec())]
    );
}

#[test]
fn source_failure_surfaces_from_new() {
    // The scripted failure hits while the constructor skips the leading
    // tombstone.
    let merged = run(&[(b"a", b""), (b"b", b"x")], Some(0));
    match LsmIterator::new(merged) {
        Err(e) => assert_eq!(e, Error::PropagatedIo),
        Ok(_) => panic!("construction must forward the failure"),
    }
}

#[test]
fn source_failure_surfaces_from_next() {
    let merged = run(&[(b"a", b"1"), (b"b", b"2")], Some(0));
    let mut lsm = LsmIterator::new(merged).expect("failure is scripted later");
    assert!(lsm.is_valid());
    assert_eq!(lsm.key(), b"a");
    assert_eq!(lsm.next(), Err(Error::PropagatedIo));
    assert!(!lsm.is_valid());
}

#[test]
fn vec_iterator_reports_scripted_failure() {
    let mut it = run(&[(b"a", b"1")], Some(0));
    assert!(it.is_valid());
    assert_eq!(it.next(), Err(Error::PropagatedIo));
    assert!(!it.is_valid());
}

#[test]
fn fused_iterator_latches_errors() {
    let merged = run(&[(b"a", b"1"), (b"b", b"2"), (b"c", b"3")], Some(1));
    let mut fused = FusedIterator::new(merged);
    assert!(fused.is_valid());
    assert_eq!(fused.key(), b"a");
    assert_eq!(fused.next(), Ok(()));
    // The wrapped source fails here; the error latches.
    assert_eq!(fused.next(), Err(Error::Latched));
    assert!(!fused.is_valid());
    // Every later call reports an equivalent error without touching the
    // wrapped iterator again.
    assert_eq!(fused.next(), Err(Error::Latched));
    assert_eq!(fused.next(), Err(Error::Latched));
    assert!(!fused.is_valid());
}

#[test]
fn fused_next_is_noop_when_merely_exhausted() {
    let merged = run(&[(b"a", b"1")], None);
    let mut fused = FusedIterator::new(merged);
    assert_eq!(fused.next(), Ok(()));
    assert!(!fused.is_valid());
    // Exhausted but never errored: next stays a quiet no-op.
    assert_eq!(fused.next(), Ok(()));
    assert_eq!(fused.next(), Ok(()));
    assert!(!fused.is_valid());
}

#[test]
fn full_stack_block_lsm_fused() {
    let mut b = BlockBuilder::new(4096);
    assert!(b.add(b"a", b"1"));
    assert!(b.add(b"b", b""));
    assert!(b.add(b"c", b"3"));
    let block = Arc::new(b.build());
    let cursor = BlockIterator::create_and_seek_to_first(block);
    let lsm = LsmIterator::new(cursor).expect("block cursors never fail");
    let mut fused = FusedIterator::new(lsm);
    let seen = collect(&mut fused);
    assert_eq!(
        seen,
        vec![(b"a".to_vec(), b"1".to_vec()), (b"c".to_vec(), b"3".to_vec())]
    );
}
