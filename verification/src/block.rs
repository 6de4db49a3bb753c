//! The block: an immutable, sorted run of key-value entries with a trailing
//! offset index, and its codec to and from a flat byte buffer.

use crate::keys::entries_sorted;
use crate::wire::{
    copy_range, enc_offsets, enc_u16, encode_spec, entries_of, entry_end_at, entry_wf_at,
    layout_wf, lemma_enc_offsets_index, lemma_enc_offsets_len, lemma_enc_u16_be,
    lemma_layout_bounds, lemma_u16_be_enc, push_u16, read_u16, u16_be,
};
use crate::Error;
use vstd::prelude::*;

verus! {

/// The smallest unit of read and caching in the engine: a collection of
/// sorted key-value pairs, already encoded, plus the byte offset of each
/// entry in `data`.
pub struct Block {
    pub data: Vec<u8>,
    pub offsets: Vec<u16>,
}

#[verifier::external_type_specification]
#[verifier::external_body]
pub struct ExBytes(bytes::Bytes);

/// The bytes held by a `bytes::Bytes` buffer.
pub uninterp spec fn bytes_content(b: bytes::Bytes) -> Seq<u8>;

/// Relies on `bytes::Bytes::from(Vec<u8>)`: the constructed buffer holds
/// exactly the vector's bytes.
#[verifier::external_body]
fn bytes_from_vec(v: Vec<u8>) -> (b: bytes::Bytes)
    ensures
        bytes_content(b) == v@,
{
    bytes::Bytes::from(v)
}

/// The entry count stored in the last two bytes of an encoded block.
pub open spec fn decoded_count(input: Seq<u8>) -> int {
    u16_be(input[input.len() - 2], input[input.len() - 1])
}

/// The entry data portion of an encoded block.
pub open spec fn decoded_data(input: Seq<u8>) -> Seq<u8> {
    input.subrange(0, input.len() - 2 - 2 * decoded_count(input))
}

/// The offset index stored before the entry count of an encoded block.
pub open spec fn decoded_offsets(input: Seq<u8>) -> Seq<u16> {
    Seq::new(
        decoded_count(input) as nat,
        |i: int|
            u16_be(
                input[input.len() - 2 - 2 * decoded_count(input) + 2 * i],
                input[input.len() - 2 - 2 * decoded_count(input) + 2 * i + 1],
            ) as u16,
    )
}

/// `input` is a well-formed encoded block: it holds its trailing count and
/// offset index, and the offsets delimit the data into well-formed entries.
pub open spec fn decode_ok(input: Seq<u8>) -> bool {
    &&& input.len() >= 2
    &&& 2 + 2 * decoded_count(input) <= input.len()
    &&& layout_wf(decoded_data(input), decoded_offsets(input))
}

impl View for Block {
    type V = Seq<(Seq<u8>, Seq<u8>)>;

    open spec fn view(&self) -> Self::V {
        entries_of(self.data@, self.offsets@)
    }
}

impl Block {
    /// The offsets delimit the data into a contiguous run of well-formed
    /// entries.
    pub open spec fn wf(&self) -> bool {
        layout_wf(self.data@, self.offsets@)
    }

    /// The keys are strictly ascending in byte-wise lexicographic order.
    pub open spec fn sorted(&self) -> bool {
        entries_sorted(self@)
    }

    /// Encodes the block as `data ++ offsets ++ count`, each index field a
    /// big-endian `u16`.
    pub fn encode(&self) -> (r: bytes::Bytes)
        requires
            self.wf(),
        ensures
            bytes_content(r) == encode_spec(self.data@, self.offsets@),
    {
        let mut buf: Vec<u8> = Vec::new();
        buf.extend_from_slice(self.data.as_slice());
        proof {
            assert(buf@ =~= self.data@);
            assert(self.data@ + enc_offsets(self.offsets@.subrange(0, 0)) =~= self.data@);
        }
        let n = self.offsets.len();
        let mut i: usize = 0;
        while i < n
            invariant
                i <= n,
                n == self.offsets@.len(),
                self.wf(),
                buf@ == self.data@ + enc_offsets(self.offsets@.subrange(0, i as int)),
            decreases n - i,
        {
            let ghost pre = self.offsets@.subrange(0, i as int);
            push_u16(&mut buf, self.offsets[i]);
            proof {
                let cur = self.offsets@.subrange(0, i + 1 as int);
                assert(cur.drop_last() =~= pre);
                assert(cur.last() == self.offsets@[i as int]);
                assert(buf@ =~= self.data@ + enc_offsets(cur));
            }
            i = i + 1;
        }
        proof {
            assert(self.offsets@.subrange(0, n as int) =~= self.offsets@);
        }
        push_u16(&mut buf, n as u16);
        bytes_from_vec(buf)
    }

    /// Decodes an encoded block, validating it completely: the count and
    /// offset index must fit, and every offset must point at a well-formed
    /// entry starting exactly where its predecessor ends. Any violation is
    /// reported as `CorruptBlock`.
    pub fn decode(input: &[u8]) -> (r: Result<Block, Error>)
        ensures
            (r is Ok) <==> decode_ok(input@),
            r matches Ok(b) ==> b.wf() && b.data@ == decoded_data(input@) && b.offsets@
                == decoded_offsets(input@),
            r matches Err(e) ==> e == Error::CorruptBlock,
    {
        let len = input.len();
        if len < 2 {
            return Err(Error::CorruptBlock);
        }
        let n = read_u16(input, len - 2) as usize;
        proof {
            assert(decoded_count(input@) == n);
        }
        if n > (len - 2) / 2 {
            proof {
                assert(!(2 + 2 * decoded_count(input@) <= input@.len()));
            }
            return Err(Error::CorruptBlock);
        }
        let base = len - 2 - 2 * n;
        let data = copy_range(input, 0, base);
        proof {
            assert(data@ == decoded_data(input@));
        }
        let mut offsets: Vec<u16> = Vec::new();
        let mut i: usize = 0;
        while i < n
            invariant
                i <= n,
                n == decoded_count(input@),
                len == input@.len(),
                base == len - 2 - 2 * n,
                offsets@.len() == i,
                forall|j: int| 0 <= j < i ==> offsets@[j] == decoded_offsets(input@)[j],
            decreases n - i,
        {
            offsets.push(read_u16(input, base + 2 * i));
            i = i + 1;
        }
        proof {
            assert(offsets@ =~= decoded_offsets(input@));
        }
        if n == 0 {
            if data.len() != 0 {
                return Err(Error::CorruptBlock);
            }
            return Ok(Block { data, offsets });
        }
        if offsets[0] != 0 {
            return Err(Error::CorruptBlock);
        }
        let data_len = data.len();
        let mut expected: usize = 0;
        let mut i: usize = 0;
        while i < n
            invariant
                i <= n,
                n == offsets@.len(),
                data_len == data@.len(),
                offsets@[0] == 0,
                offsets@ == decoded_offsets(input@),
                data@ == decoded_data(input@),
                decoded_count(input@) == n,
                n >= 1,
                2 + 2 * n <= input@.len(),
                expected == if i == 0 {
                    0int
                } else {
                    entry_end_at(data@, offsets@[i - 1] as int)
                },
                expected <= data_len,
                forall|j: int| 0 <= j < i ==> entry_wf_at(data@, (#[trigger] offsets@[j]) as int),
                forall|j: int|
                    0 <= j < i - 1 ==> (#[trigger] offsets@[j + 1]) as int == entry_end_at(
                        data@,
                        offsets@[j] as int,
                    ),
            decreases n - i,
        {
            let off = offsets[i] as usize;
            if off != expected {
                proof {
                    if i > 0 && layout_wf(data@, offsets@) {
                        assert(offsets@[(i - 1) + 1] as int == entry_end_at(
                            data@,
                            offsets@[i - 1] as int,
                        ));
                        assert(false);
                    }
                }
                return Err(Error::CorruptBlock);
            }
            if off + 2 > data_len {
                proof {
                    assert(!entry_wf_at(data@, offsets@[i as int] as int));
                }
                return Err(Error::CorruptBlock);
            }
            let klen = read_u16(data.as_slice(), off) as usize;
            if klen < 1 || off + 4 + klen > data_len {
                proof {
                    assert(!entry_wf_at(data@, offsets@[i as int] as int));
                }
                return Err(Error::CorruptBlock);
            }
            let vlen = read_u16(data.as_slice(), off + 2 + klen) as usize;
            if vlen > data_len - (off + 4 + klen) {
                proof {
                    assert(!entry_wf_at(data@, offsets@[i as int] as int));
                }
                return Err(Error::CorruptBlock);
            }
            expected = off + 4 + klen + vlen;
            proof {
                assert(entry_wf_at(data@, offsets@[i as int] as int));
                assert(expected == entry_end_at(data@, offsets@[i as int] as int));
            }
            i = i + 1;
        }
        if expected != data_len {
            proof {
                assert(!layout_wf(data@, offsets@));
            }
            return Err(Error::CorruptBlock);
        }
        proof {
            assert(layout_wf(data@, offsets@));
        }
        Ok(Block { data, offsets })
    }

    /// Reads the first entry's key straight from the head of `data`,
    /// without creating a cursor.
    pub fn get_first_key(&self) -> (k: Vec<u8>)
        requires
            self.wf(),
            self@.len() > 0,
        ensures
            k@ == self@[0].0,
    {
        proof {
            assert(entry_wf_at(self.data@, (self.offsets@[0]) as int));
        }
        let klen = read_u16(self.data.as_slice(), 0) as usize;
        copy_range(self.data.as_slice(), 2, 2 + klen)
    }

    /// The number of entries the block holds.
    pub fn num_entries(&self) -> (n: usize)
        ensures
            n == self@.len(),
    {
        self.offsets.len()
    }

    /// Copies out the key of entry `i`.
    pub fn entry_key(&self, i: usize) -> (k: Vec<u8>)
        requires
            self.wf(),
            i < self@.len(),
        ensures
            k@ == self@[i as int].0,
    {
        proof {
            assert(entry_wf_at(self.data@, (self.offsets@[i as int]) as int));
        }
        let off = self.offsets[i] as usize;
        let klen = read_u16(self.data.as_slice(), off) as usize;
        copy_range(self.data.as_slice(), off + 2, off + 2 + klen)
    }

    /// Copies out the value of entry `i`.
    pub fn entry_value(&self, i: usize) -> (v: Vec<u8>)
        requires
            self.wf(),
            i < self@.len(),
        ensures
            v@ == self@[i as int].1,
    {
        proof {
            assert(entry_wf_at(self.data@, (self.offsets@[i as int]) as int));
        }
        let off = self.offsets[i] as usize;
        let klen = read_u16(self.data.as_slice(), off) as usize;
        let vlen = read_u16(self.data.as_slice(), off + 2 + klen) as usize;
        copy_range(self.data.as_slice(), off + 4 + klen, off + 4 + klen + vlen)
    }
}

/// Decoding inverts encoding: a well-formed layout, encoded, decodes back
/// to exactly the same data buffer and offset index.
pub proof fn lemma_encode_decode(data: Seq<u8>, offsets: Seq<u16>)
    requires
        layout_wf(data, offsets),
    ensures
        decode_ok(encode_spec(data, offsets)),
        decoded_data(encode_spec(data, offsets)) == data,
        decoded_offsets(encode_spec(data, offsets)) == offsets,
{
    let e = encode_spec(data, offsets);
    let n = offsets.len() as int;
    lemma_enc_offsets_len(offsets);
    lemma_u16_be_enc(n);
    assert(e.len() == data.len() + 2 * n + 2);
    assert(e[e.len() - 2] == enc_u16(n)[0]);
    assert(e[e.len() - 1] == enc_u16(n)[1]);
    assert(decoded_count(e) == n);
    assert(decoded_data(e) =~= data);
    assert forall|i: int| 0 <= i < n implies decoded_offsets(e)[i] == offsets[i] by {
        lemma_enc_offsets_index(offsets, i);
        lemma_u16_be_enc(offsets[i] as int);
        assert(e[data.len() + 2 * i] == enc_offsets(offsets)[2 * i]);
        assert(e[data.len() + 2 * i + 1] == enc_offsets(offsets)[2 * i + 1]);
    }
    assert(decoded_offsets(e) =~= offsets);
}

/// Encoding inverts decoding: any buffer that decodes is, byte for byte,
/// the encoding of what it decodes to. Together with `lemma_encode_decode`
/// this makes the codec a bijection between well-formed layouts and
/// well-formed encodings.
pub proof fn lemma_decode_encode(input: Seq<u8>)
    requires
        decode_ok(input),
    ensures
        encode_spec(decoded_data(input), decoded_offsets(input)) == input,
{
    let dd = decoded_data(input);
    let dof = decoded_offsets(input);
    let n = decoded_count(input);
    let e = encode_spec(dd, dof);
    lemma_enc_offsets_len(dof);
    assert(e.len() == input.len());
    lemma_enc_u16_be(input[input.len() - 2], input[input.len() - 1]);
    assert(e[e.len() - 2] == enc_u16(n)[0] && e[e.len() - 1] == enc_u16(n)[1]);
    assert forall|j: int| 0 <= j < input.len() implies e[j] == input[j] by {
        if j < dd.len() {
        } else if j < input.len() - 2 {
            let i = (j - dd.len()) / 2;
            vstd::arithmetic::div_mod::lemma_fundamental_div_mod(j - dd.len(), 2);
            assert(0 <= i < n);
            assert(j == dd.len() + 2 * i || j == dd.len() + 2 * i + 1);
            lemma_enc_offsets_index(dof, i);
            lemma_enc_u16_be(input[dd.len() + 2 * i], input[dd.len() + 2 * i + 1]);
            assert(e[dd.len() + 2 * i] == input[dd.len() + 2 * i] && e[dd.len() + 2 * i + 1]
                == input[dd.len() + 2 * i + 1]);
        }
    }
    assert(e =~= input);
}

/// Strict monotonicity of the offsets over any span, from the adjacency in
/// `layout_wf`.
proof fn lemma_offsets_mono_span(data: Seq<u8>, offsets: Seq<u16>, i: int, j: int)
    requires
        layout_wf(data, offsets),
        0 <= i < j < offsets.len(),
    ensures
        offsets[i] < offsets[j],
    decreases j - i,
{
    assert(entry_wf_at(data, offsets[i] as int));
    assert(offsets[i + 1] as int == entry_end_at(data, offsets[i] as int));
    assert(offsets[i] < offsets[i + 1]);
    if i + 1 < j {
        lemma_offsets_mono_span(data, offsets, i + 1, j);
    }
}

/// In any well-formed block, the offsets are strictly increasing and the
/// entry at the final offset ends exactly at the end of the data buffer.
pub proof fn lemma_offsets_increasing(data: Seq<u8>, offsets: Seq<u16>)
    requires
        layout_wf(data, offsets),
    ensures
        forall|i: int, j: int| 0 <= i < j < offsets.len() ==> offsets[i] < offsets[j],
        offsets.len() > 0 ==> entry_end_at(data, offsets[offsets.len() - 1] as int) == data.len(),
{
    assert forall|i: int, j: int| 0 <= i < j < offsets.len() implies offsets[i] < offsets[j] by {
        lemma_offsets_mono_span(data, offsets, i, j);
    }
}

} // verus!
