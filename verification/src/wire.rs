//! Byte layout of an encoded block.
//!
//! An encoded entry is `key_len:u16, key bytes, value_len:u16, value bytes`.
//! An encoded block is `data ++ offset_0:u16 ++ .. ++ offset_{n-1}:u16 ++ n:u16`,
//! where `data` is the concatenation of the encoded entries and `offset_i` is
//! the byte position in `data` at which entry `i` starts.
//!
//! Every `u16` field of the wire format is big-endian; this order is part of
//! the format and is used by every reader and writer in this crate.

use vstd::arithmetic::div_mod::{lemma_div_is_ordered_by_denominator, lemma_fundamental_div_mod};
use vstd::prelude::*;

verus! {

/// The value of a big-endian `u16` read from the two bytes `hi`, `lo`.
pub open spec fn u16_be(hi: u8, lo: u8) -> int {
    hi * 256 + lo
}

/// The two big-endian bytes of a value in `0 ..= 0xffff`.
pub open spec fn enc_u16(v: int) -> Seq<u8>
    recommends
        0 <= v <= 0xffff,
{
    seq![(v / 256) as u8, (v % 256) as u8]
}

pub proof fn lemma_u16_be_enc(v: int)
    requires
        0 <= v <= 0xffff,
    ensures
        0 <= v / 256 <= 255,
        0 <= v % 256 <= 255,
        u16_be(enc_u16(v)[0], enc_u16(v)[1]) == v,
{
    lemma_fundamental_div_mod(v, 256);
    lemma_div_is_ordered_by_denominator(v, 1, 256);
}

pub proof fn lemma_enc_u16_be(hi: u8, lo: u8)
    ensures
        enc_u16(u16_be(hi, lo)) == seq![hi, lo],
{
    vstd::arithmetic::div_mod::lemma_fundamental_div_mod_converse(
        u16_be(hi, lo),
        256,
        hi as int,
        lo as int,
    );
    assert(enc_u16(u16_be(hi, lo)) =~= seq![hi, lo]);
}

/// The length field of the key of the entry starting at `off`.
pub open spec fn key_len_at(data: Seq<u8>, off: int) -> int {
    u16_be(data[off], data[off + 1])
}

/// The key bytes of the entry starting at `off`.
pub open spec fn key_at(data: Seq<u8>, off: int) -> Seq<u8> {
    data.subrange(off + 2, off + 2 + key_len_at(data, off))
}

/// The length field of the value of the entry starting at `off`.
pub open spec fn val_len_at(data: Seq<u8>, off: int) -> int {
    u16_be(data[off + 2 + key_len_at(data, off)], data[off + 3 + key_len_at(data, off)])
}

/// The byte position in `data` at which the value of the entry starting at
/// `off` begins.
pub open spec fn val_start_at(data: Seq<u8>, off: int) -> int {
    off + 4 + key_len_at(data, off)
}

/// The value bytes of the entry starting at `off`.
pub open spec fn val_at(data: Seq<u8>, off: int) -> Seq<u8> {
    data.subrange(val_start_at(data, off), val_start_at(data, off) + val_len_at(data, off))
}

/// One past the last byte of the entry starting at `off`.
pub open spec fn entry_end_at(data: Seq<u8>, off: int) -> int {
    val_start_at(data, off) + val_len_at(data, off)
}

/// A complete entry with a non-empty key starts at `off` and lies within
/// `data`.
pub open spec fn entry_wf_at(data: Seq<u8>, off: int) -> bool {
    &&& 0 <= off
    &&& off + 2 <= data.len()
    &&& 1 <= key_len_at(data, off)
    &&& off + 4 + key_len_at(data, off) <= data.len()
    &&& entry_end_at(data, off) <= data.len()
}

/// `offsets` delimits `data` into a contiguous run of well-formed entries:
/// the first entry starts at byte 0, each entry starts exactly where its
/// predecessor ends, and the last entry ends exactly at `data.len()`.
pub open spec fn layout_wf(data: Seq<u8>, offsets: Seq<u16>) -> bool {
    &&& offsets.len() <= 0xffff
    &&& forall|i: int| 0 <= i < offsets.len() ==> entry_wf_at(data, (#[trigger] offsets[i]) as int)
    &&& (offsets.len() == 0 ==> data.len() == 0)
    &&& (offsets.len() > 0 ==> offsets[0] == 0)
    &&& (offsets.len() > 0 ==> entry_end_at(data, offsets[offsets.len() - 1] as int) == data.len())
    &&& forall|i: int|
        0 <= i < offsets.len() - 1 ==> (#[trigger] offsets[i + 1]) as int == entry_end_at(
            data,
            offsets[i] as int,
        )
}

/// The key-value pairs held by a block with buffer `data` and offset index
/// `offsets`.
pub open spec fn entries_of(data: Seq<u8>, offsets: Seq<u16>) -> Seq<(Seq<u8>, Seq<u8>)> {
    Seq::new(offsets.len(), |i: int| (key_at(data, offsets[i] as int), val_at(data, offsets[i] as int)))
}

/// The encoding of one entry.
pub open spec fn enc_entry(key: Seq<u8>, val: Seq<u8>) -> Seq<u8> {
    enc_u16(key.len() as int) + key + enc_u16(val.len() as int) + val
}

/// The trailing offset index of an encoded block.
pub open spec fn enc_offsets(offsets: Seq<u16>) -> Seq<u8>
    decreases offsets.len(),
{
    if offsets.len() == 0 {
        Seq::empty()
    } else {
        enc_offsets(offsets.drop_last()) + enc_u16(offsets.last() as int)
    }
}

/// The full encoding of a block: entry data, then the offset index, then the
/// entry count.
pub open spec fn encode_spec(data: Seq<u8>, offsets: Seq<u16>) -> Seq<u8> {
    data + enc_offsets(offsets) + enc_u16(offsets.len() as int)
}

pub proof fn lemma_enc_offsets_len(offsets: Seq<u16>)
    ensures
        enc_offsets(offsets).len() == 2 * offsets.len(),
    decreases offsets.len(),
{
    if offsets.len() > 0 {
        lemma_enc_offsets_len(offsets.drop_last());
    }
}

pub proof fn lemma_enc_offsets_index(offsets: Seq<u16>, i: int)
    requires
        0 <= i < offsets.len(),
    ensures
        enc_offsets(offsets)[2 * i] == enc_u16(offsets[i] as int)[0],
        enc_offsets(offsets)[2 * i + 1] == enc_u16(offsets[i] as int)[1],
    decreases offsets.len(),
{
    lemma_enc_offsets_len(offsets.drop_last());
    if i < offsets.len() - 1 {
        lemma_enc_offsets_index(offsets.drop_last(), i);
    }
}

/// Extending the buffer beyond an entry does not change how the entry parses.
pub proof fn lemma_entry_parse_prefix(d1: Seq<u8>, d2: Seq<u8>, off: int)
    requires
        entry_wf_at(d1, off),
        d1.len() <= d2.len(),
        forall|j: int| 0 <= j < d1.len() ==> d1[j] == #[trigger] d2[j],
    ensures
        entry_wf_at(d2, off),
        key_len_at(d2, off) == key_len_at(d1, off),
        key_at(d2, off) == key_at(d1, off),
        val_len_at(d2, off) == val_len_at(d1, off),
        val_at(d2, off) == val_at(d1, off),
        entry_end_at(d2, off) == entry_end_at(d1, off),
{
    assert(key_len_at(d2, off) == key_len_at(d1, off));
    assert(val_len_at(d2, off) == val_len_at(d1, off));
    assert(key_at(d2, off) =~= key_at(d1, off));
    assert(val_at(d2, off) =~= val_at(d1, off));
}

/// An entry appended at the end of the buffer parses back to the key and
/// value it was built from.
#[verifier::rlimit(50)]
pub proof fn lemma_parse_appended_entry(data: Seq<u8>, key: Seq<u8>, val: Seq<u8>)
    requires
        1 <= key.len() <= 0xffff,
        val.len() <= 0xffff,
    ensures
        ({
            let d2 = data + enc_entry(key, val);
            let off = data.len() as int;
            &&& entry_wf_at(d2, off)
            &&& key_len_at(d2, off) == key.len()
            &&& key_at(d2, off) == key
            &&& val_len_at(d2, off) == val.len()
            &&& val_at(d2, off) == val
            &&& entry_end_at(d2, off) == d2.len()
        }),
{
    let d2 = data + enc_entry(key, val);
    let off = data.len() as int;
    let e = enc_entry(key, val);
    lemma_u16_be_enc(key.len() as int);
    lemma_u16_be_enc(val.len() as int);
    assert(forall|j: int| 0 <= j < e.len() ==> d2[off + j] == #[trigger] e[j]);
    assert(d2[off] == e[0] && d2[off + 1] == e[1]);
    assert(key_len_at(d2, off) == key.len());
    assert(forall|t: int| 0 <= t < key.len() ==> e[2 + t] == #[trigger] key[t]);
    assert(key_at(d2, off) =~= key);
    assert(e[2 + key.len() as int] == enc_u16(val.len() as int)[0]);
    assert(e[3 + key.len() as int] == enc_u16(val.len() as int)[1]);
    assert(val_len_at(d2, off) == val.len());
    assert(forall|t: int| 0 <= t < val.len() ==> e[4 + key.len() + t] == #[trigger] val[t]);
    assert(val_at(d2, off) =~= val);
}

/// Appending one encoded entry and its offset preserves well-formed layout
/// and appends exactly that pair to the parsed entries.
pub proof fn lemma_layout_push(data: Seq<u8>, offsets: Seq<u16>, key: Seq<u8>, val: Seq<u8>)
    requires
        layout_wf(data, offsets),
        1 <= key.len() <= 0xffff,
        val.len() <= 0xffff,
        data.len() <= 0xffff,
        offsets.len() < 0xffff,
    ensures
        ({
            let d2 = data + enc_entry(key, val);
            let o2 = offsets.push(data.len() as u16);
            &&& layout_wf(d2, o2)
            &&& entries_of(d2, o2) == entries_of(data, offsets).push((key, val))
        }),
{
    let d2 = data + enc_entry(key, val);
    let o2 = offsets.push(data.len() as u16);
    lemma_parse_appended_entry(data, key, val);
    assert forall|i: int| 0 <= i < offsets.len() implies entry_wf_at(d2, (#[trigger] o2[i]) as int)
        && key_at(d2, o2[i] as int) == key_at(data, offsets[i] as int)
        && val_at(d2, o2[i] as int) == val_at(data, offsets[i] as int)
        && entry_end_at(d2, o2[i] as int) == entry_end_at(data, offsets[i] as int) by {
        lemma_entry_parse_prefix(data, d2, offsets[i] as int);
    }
    assert(layout_wf(d2, o2));
    assert(entries_of(d2, o2) =~= entries_of(data, offsets).push((key, val)));
}

/// Bounds that well-formed layout places on the buffer: offsets are `u16`
/// and an entry holds at most `0xffff` key and value bytes each, so the
/// buffer ends within `0xffff + 4 + 2 * 0xffff` bytes.
pub proof fn lemma_layout_bounds(data: Seq<u8>, offsets: Seq<u16>)
    requires
        layout_wf(data, offsets),
    ensures
        data.len() <= 0x30003,
        offsets.len() <= 0xffff,
{
    if offsets.len() > 0 {
        let last = offsets[offsets.len() - 1] as int;
        assert(entry_wf_at(data, last));
        assert(key_len_at(data, last) <= 0xffff);
        assert(val_len_at(data, last) <= 0xffff);
    }
}

/// Reads the big-endian `u16` at byte position `pos`.
pub fn read_u16(data: &[u8], pos: usize) -> (v: u16)
    requires
        pos + 2 <= data@.len(),
    ensures
        v as int == u16_be(data@[pos as int], data@[pos as int + 1]),
{
    let hi = data[pos];
    let lo = data[pos + 1];
    (hi as u16) * 256 + (lo as u16)
}

/// Appends the two big-endian bytes of `v` to `buf`.
pub fn push_u16(buf: &mut Vec<u8>, v: u16)
    ensures
        final(buf)@ == old(buf)@ + enc_u16(v as int),
{
    let hi: u8 = (v / 256) as u8;
    let lo: u8 = (v % 256) as u8;
    buf.push(hi);
    buf.push(lo);
    proof {
        lemma_u16_be_enc(v as int);
        assert(buf@ =~= old(buf)@ + enc_u16(v as int));
    }
}

/// Copies the byte range `start .. end` out of `data`.
pub fn copy_range(data: &[u8], start: usize, end: usize) -> (out: Vec<u8>)
    requires
        start <= end,
        end <= data@.len(),
    ensures
        out@ == data@.subrange(start as int, end as int),
{
    let s = vstd::slice::slice_subrange(data, start, end);
    vstd::slice::slice_to_vec(s)
}

} // verus!
