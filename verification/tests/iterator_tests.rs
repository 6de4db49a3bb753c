//! Tests of the block cursor: seeking, stepping, enumeration.

use lsm_block::block::Block;
use lsm_block::builder::BlockBuilder;
use lsm_block::iterator::BlockIterator;
use std::sync::Arc;

fn build_arc(entries: &[(&[u8], &[u8])]) -> Arc<Block> {
    let mut b = BlockBuilder::new(4096);
    for (k, v) in entries {
        assert!(b.add(k, v));
    }
    Arc::new(b.build())
}

#[test]
fn seek_to_key_finds_lower_bound() {
    let block = build_arc(&[(b"apple", b"1"), (b"cherry", b"2"), (b"mango", b"3")]);
    // Between two keys: lands on the next greater one.
    let it = BlockIterator::create_and_seek_to_key(Arc::clone(&block), b"banana");
    assert!(it.is_valid());
    assert_eq!(it.key(), b"cherry");
    // Exact hit: lands on the equal key, not strictly greater.
    let it = BlockIterator::create_and_seek_to_key(Arc::clone(&block), b"cherry");
    assert!(it.is_valid());
    assert_eq!(it.key(), b"cherry");
    // Above every key: exhausted.
    let it = BlockIterator::create_and_seek_to_key(Arc::clone(&block), b"zebra");
    assert!(!it.is_valid());
    // Below every key: lands on the first.
    let it = BlockIterator::create_and_seek_to_key(Arc::clone(&block), b"aaa");
    assert!(it.is_valid());
    assert_eq!(it.key(), b"apple");
}

#[test]
fn seek_orders_prefixes_before_extensions() {
    // "app" < "apple" < "applf" in byte-wise lexicographic order.
    let block = build_arc(&[(b"app", b"1"), (b"apple", b"2")]);
    let it = BlockIterator::create_and_seek_to_key(Arc::clone(&block), b"app");
    assert_eq!(it.key(), b"app");
    let it = BlockIterator::create_and_seek_to_key(Arc::clone(&block), b"appl");
    assert_eq!(it.key(), b"apple");
    let it = BlockIterator::create_and_seek_to_key(Arc::clone(&block), b"applf");
    assert!(!it.is_valid());
}

#[test]
fn full_scan_enumerates_in_order() {
    let entries: Vec<(&[u8], &[u8])> =
        vec![(b"apple", b"1"), (b"banana", b"2"), (b"cherry", b"3")];
    let block = build_arc(&entries);
    let mut it = BlockIterator::create_and_seek_to_first(block);
    let mut seen: Vec<(Vec<u8>, Vec<u8>)> = Vec::new();
    while it.is_valid() {
        seen.push((it.key().to_vec(), it.value().to_vec()));
        it.next();
    }
    let expected: Vec<(Vec<u8>, Vec<u8>)> = entries
        .iter()
        .map(|(k, v)| (k.to_vec(), v.to_vec()))
        .collect();
    assert_eq!(seen, expected);
}

#[test]
fn empty_block_cursor_is_exhausted() {
    let block = Arc::new(BlockBuilder::new(64).build());
    let it = BlockIterator::create_and_seek_to_first(block.clone());
    assert!(!it.is_valid());
    let it = BlockIterator::create_and_seek_to_key(block, b"anything");
    assert!(!it.is_valid());
}

#[test]
fn scenario_build_encode_decode_seek_step() {
    // Build, persist, reload, then cursor through the reloaded block.
    let mut b = BlockBuilder::new(4096);
    assert!(b.add(b"apple", b"1"));
    assert!(b.add(b"banana", b"2"));
    assert!(b.add(b"cherry", b"3"));
    let enc = b.build().encode();
    let block = Arc::new(Block::decode(&enc).expect("well-formed encoding"));
    let mut it = BlockIterator::create_and_seek_to_key(Arc::clone(&block), b"banana");
    assert!(it.is_valid());
    assert_eq!(it.key(), b"banana");
    assert_eq!(it.value(), b"2");
    it.next();
    assert!(it.is_valid());
    assert_eq!(it.key(), b"cherry");
    assert_eq!(it.value(), b"3");
    it.next();
    assert!(!it.is_valid());
}

#[test]
fn many_cursors_share_one_block() {
    let block = build_arc(&[(b"a", b"1"), (b"b", b"2")]);
    let it1 = BlockIterator::create_and_seek_to_first(Arc::clone(&block));
    let mut it2 = BlockIterator::create_and_seek_to_first(Arc::clone(&block));
    it2.next();
    assert_eq!(it1.key(), b"a");
    assert_eq!(it2.key(), b"b");
}
