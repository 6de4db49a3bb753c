//! Tests of the block codec and the builder.

use lsm_block::block::Block;
use lsm_block::builder::BlockBuilder;
use lsm_block::Error;

fn build_block(entries: &[(&[u8], &[u8])], block_size: usize) -> Block {
    let mut b = BlockBuilder::new(block_size);
    for (k, v) in entries {
        assert!(b.add(k, v));
    }
    b.build()
}

#[test]
fn encode_is_byte_exact() {
    // One entry ("k", "v"): [key_len][key][value_len][value], both u16
    // length fields big-endian, then the offset index and the count.
    let block = build_block(&[(b"k", b"v")], 4096);
    let enc = block.encode();
    let expected: Vec<u8> = vec![0, 1, b'k', 0, 1, b'v', 0, 0, 0, 1];
    assert_eq!(&enc[..], &expected[..]);
}

#[test]
fn offsets_are_increasing_and_end_at_data_len() {
    let block = build_block(&[(b"apple", b"1"), (b"banana", b"2"), (b"cherry", b"3")], 4096);
    assert_eq!(block.offsets, vec![0u16, 10, 21]);
    assert_eq!(block.data.len(), 32);
    for w in block.offsets.windows(2) {
        assert!(w[0] < w[1]);
    }
}

#[test]
fn roundtrip_reproduces_data_and_offsets() {
    let block = build_block(&[(b"apple", b"1"), (b"banana", b"2"), (b"cherry", b"3")], 4096);
    let enc = block.encode();
    let back = Block::decode(&enc).expect("roundtrip must decode");
    assert_eq!(back.data, block.data);
    assert_eq!(back.offsets, block.offsets);
}

#[test]
fn roundtrip_with_tombstone_and_empty_block() {
    let block = build_block(&[(b"a", b""), (b"b", b"x")], 4096);
    let enc = block.encode();
    let back = Block::decode(&enc).expect("tombstone block must decode");
    assert_eq!(back.data, block.data);
    assert_eq!(back.offsets, block.offsets);

    let empty = BlockBuilder::new(16).build();
    let enc = empty.encode();
    assert_eq!(&enc[..], &[0u8, 0][..]);
    let back = Block::decode(&enc).expect("empty block must decode");
    assert_eq!(back.offsets.len(), 0);
    assert_eq!(back.data.len(), 0);
}

#[test]
fn decode_rejects_corrupt_input() {
    // Too short to hold a count.
    assert!(matches!(Block::decode(&[]), Err(Error::CorruptBlock)));
    assert!(matches!(Block::decode(&[7]), Err(Error::CorruptBlock)));
    // Count larger than the buffer can hold.
    assert!(matches!(Block::decode(&[0, 5]), Err(Error::CorruptBlock)));
    // Data left over although the count says zero entries.
    assert!(matches!(Block::decode(&[9, 9, 0, 0]), Err(Error::CorruptBlock)));
    // A valid block, truncated anywhere, no longer decodes.
    let block = build_block(&[(b"apple", b"1"), (b"banana", b"2")], 4096);
    let enc = block.encode();
    for cut in 1..enc.len() {
        assert!(matches!(Block::decode(&enc[..cut]), Err(Error::CorruptBlock)), "cut={cut}");
    }
    // An offset pointing into the middle of an entry.
    let mut bad: Vec<u8> = enc.to_vec();
    let off_pos = bad.len() - 4; // second offset, big-endian
    bad[off_pos] = 0;
    bad[off_pos + 1] = 3;
    assert!(matches!(Block::decode(&bad), Err(Error::CorruptBlock)));
    // A key length field of zero.
    let zero_key: Vec<u8> = vec![0, 0, 0, 1, b'x', 0, 0, 0, 1];
    assert!(matches!(Block::decode(&zero_key), Err(Error::CorruptBlock)));
}

#[test]
fn first_add_is_unconditional() {
    // The entry alone is far over the budget, yet the first add succeeds.
    let mut b = BlockBuilder::new(10);
    assert!(b.is_empty());
    let big_value = vec![b'v'; 100];
    assert!(b.add(b"key", &big_value));
    assert!(!b.is_empty());
    let block = b.build();
    assert_eq!(block.offsets.len(), 1);
    assert_eq!(block.get_first_key(), b"key".to_vec());
}

#[test]
fn add_over_budget_rejects_without_partial_write() {
    let mut b = BlockBuilder::new(20);
    assert!(b.add(b"a", b"1")); // size becomes 2 + 2 + 6 = 10
    assert!(b.add(b"b", b"2")); // size becomes 2 + 4 + 12 = 18
    assert_eq!(b.current_size(), 18);
    // 18 + 8 = 26 > 20: rejected, and nothing about the builder changes.
    assert!(!b.add(b"c", b"3"));
    assert_eq!(b.current_size(), 18);
    assert!(!b.add(b"c", b"3"));
    let block = b.build();
    assert_eq!(block.offsets, vec![0u16, 6]);
    let enc = block.encode();
    let back = Block::decode(&enc).unwrap();
    assert_eq!(back.offsets, vec![0u16, 6]);
}

#[test]
fn add_exactly_at_budget_is_admitted() {
    let mut b = BlockBuilder::new(18);
    assert!(b.add(b"a", b"1"));
    // 10 + 8 == 18: does not exceed the budget, so it is admitted.
    assert!(b.add(b"b", b"2"));
    assert_eq!(b.current_size(), 18);
}

#[test]
fn builder_caches_first_key() {
    let mut b = BlockBuilder::new(4096);
    assert_eq!(b.first_key, Vec::<u8>::new());
    assert!(b.add(b"apple", b"1"));
    assert!(b.add(b"pear", b"2"));
    assert_eq!(b.first_key, b"apple".to_vec());
}

#[test]
fn get_first_key_reads_head_entry() {
    let block = build_block(&[(b"apple", b"1"), (b"banana", b"2")], 4096);
    assert_eq!(block.get_first_key(), b"apple".to_vec());
}

#[test]
fn entry_accessors_read_each_entry() {
    let block = build_block(&[(b"apple", b"1"), (b"banana", b"2"), (b"cherry", b"3")], 4096);
    assert_eq!(block.num_entries(), 3);
    assert_eq!(block.entry_key(1), b"banana".to_vec());
    assert_eq!(block.entry_value(2), b"3".to_vec());
}
