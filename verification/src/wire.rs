//! Wire forms: the four encoder-stream instructions, the three
//! decoder-stream instructions, the field-block prefix, and the five
//! field-line representations.
//!
//! Every form is a prefix-coded integer with opcode and flag bits ORed into
//! the bits above the prefix of its first byte, optionally followed by
//! length-prefixed strings. The spec functions here give each form's exact
//! bytes; the encoders append exactly those bytes, and the decoders accept
//! exactly them.

use vstd::prelude::*;
use crate::huffman::huff_decode;
use crate::huffman::huff_encode_bytes;
use crate::huffman::HuffmanTransformer;
use crate::types::Header;
use crate::types::HeaderString;
use crate::types::QpackError;
use crate::varint::vi_decode;
use crate::varint::vi_encode;
use crate::varint::vi_mask;
use crate::varint::Qnum;
use crate::table::static_pair;
use crate::table::Table;

verus! {

/// `bytes` with `flags` ORed into its first byte.
pub open spec fn or_first(bytes: Seq<u8>, flags: u8) -> Seq<u8> {
    bytes.update(0, bytes[0] | flags)
}

/// The single bit at position `n`: the Huffman flag of a string whose
/// length has an `n`-bit prefix.
pub open spec fn flag_bit(n: nat) -> u8 {
    if n == 1 {
        2
    } else if n == 2 {
        4
    } else if n == 3 {
        8
    } else if n == 4 {
        16
    } else if n == 5 {
        32
    } else if n == 6 {
        64
    } else {
        128
    }
}

/// A length-prefixed string: an `n`-bit-prefix varint carrying the length,
/// the Huffman flag at bit `n` of the first byte, then the octets, Huffman
/// coded when the flag is set.
pub open spec fn spec_string(value: Seq<u8>, huffman: bool, n: nat) -> Seq<u8> {
    if huffman {
        let coded = huff_encode_bytes(value);
        or_first(vi_encode(coded.len(), n), flag_bit(n)) + coded
    } else {
        vi_encode(value.len(), n) + value
    }
}

/// Whether a string's on-wire length fits the 32-bit integer space.
pub open spec fn str_fits(value: Seq<u8>, huffman: bool) -> bool {
    if huffman {
        huff_encode_bytes(value).len() <= u32::MAX
    } else {
        value.len() <= u32::MAX
    }
}

/// Set Dynamic Table Capacity: `001` + 5-bit capacity.
pub open spec fn set_capacity_bytes(cap: nat) -> Seq<u8> {
    or_first(vi_encode(cap, 5), 0x20)
}

/// Insert With Name Reference: `1 T` + 6-bit name index + value string.
pub open spec fn insert_refer_name_bytes(
    on_static: bool,
    name_idx: nat,
    value: Seq<u8>,
    huffman: bool,
) -> Seq<u8> {
    or_first(
        vi_encode(name_idx, 6),
        if on_static {
            0xc0
        } else {
            0x80
        },
    ) + spec_string(value, huffman, 7)
}

/// Insert With Literal Name: `01` + 5-bit-prefix name string + value string.
pub open spec fn insert_both_literal_bytes(
    name: Seq<u8>,
    name_huffman: bool,
    value: Seq<u8>,
    value_huffman: bool,
) -> Seq<u8> {
    or_first(spec_string(name, name_huffman, 5), 0x40) + spec_string(value, value_huffman, 7)
}

/// Duplicate: `000` + 5-bit relative index.
pub open spec fn duplicate_bytes(idx: nat) -> Seq<u8> {
    vi_encode(idx, 5)
}

/// Section Acknowledgment: `1` + 7-bit stream id.
pub open spec fn section_ack_bytes(stream_id: nat) -> Seq<u8> {
    or_first(vi_encode(stream_id, 7), 0x80)
}

/// Stream Cancellation: `01` + 6-bit stream id.
pub open spec fn stream_cancel_bytes(stream_id: nat) -> Seq<u8> {
    or_first(vi_encode(stream_id, 6), 0x40)
}

/// Insert Count Increment: `00` + 6-bit delta.
pub open spec fn insert_count_increment_bytes(increment: nat) -> Seq<u8> {
    vi_encode(increment, 6)
}

/// Indexed field line: `1 T` + 6-bit index.
pub open spec fn indexed_bytes(idx: nat, from_static: bool) -> Seq<u8> {
    or_first(
        vi_encode(idx, 6),
        if from_static {
            0xc0
        } else {
            0x80
        },
    )
}

/// Indexed field line with post-base index: `0001` + 4-bit index.
pub open spec fn indexed_post_base_bytes(idx: nat) -> Seq<u8> {
    or_first(vi_encode(idx, 4), 0x10)
}

/// Literal field line with name reference: `01 N T` + 4-bit name index +
/// value string.
pub open spec fn refer_name_flags(from_static: bool, sensitive: bool) -> u8 {
    if sensitive && from_static {
        0x70
    } else if sensitive {
        0x60
    } else if from_static {
        0x50
    } else {
        0x40
    }
}

pub open spec fn refer_name_bytes(
    idx: nat,
    from_static: bool,
    sensitive: bool,
    value: Seq<u8>,
    huffman: bool,
) -> Seq<u8> {
    or_first(vi_encode(idx, 4), refer_name_flags(from_static, sensitive)) + spec_string(
        value,
        huffman,
        7,
    )
}

/// Literal field line with post-base name reference: `0000 N` + 3-bit name
/// index + value string.
pub open spec fn refer_name_post_base_bytes(
    idx: nat,
    sensitive: bool,
    value: Seq<u8>,
    huffman: bool,
) -> Seq<u8> {
    or_first(
        vi_encode(idx, 3),
        if sensitive {
            0x08u8
        } else {
            0u8
        },
    ) + spec_string(value, huffman, 7)
}

/// Literal field line with literal name: `001 N H` + 3-bit-prefix name
/// string + value string.
pub open spec fn both_literal_bytes(
    name: Seq<u8>,
    name_huffman: bool,
    sensitive: bool,
    value: Seq<u8>,
    value_huffman: bool,
) -> Seq<u8> {
    or_first(
        spec_string(name, name_huffman, 3),
        if sensitive {
            0x30u8
        } else {
            0x20u8
        },
    ) + spec_string(value, value_huffman, 7)
}

/// Field-block prefix: 8-bit-prefix encoded insert count, then the sign bit
/// and a 7-bit-prefix delta base.
pub open spec fn prefix_bytes(encoded_insert_count: nat, s_flag: bool, delta_base: nat) -> Seq<
    u8,
> {
    vi_encode(encoded_insert_count, 8) + or_first(
        vi_encode(delta_base, 7),
        if s_flag {
            0x80u8
        } else {
            0u8
        },
    )
}

/// Appends `bytes_to_append` as one varint with `flags` ORed into the first
/// byte. Helper shared by every instruction encoder.
fn push_varint_flag(encoded: &mut Vec<u8>, val: u32, n: u8, flags: u8) -> (len: usize)
    requires
        1 <= n <= 8,
        flags & (vi_mask(n as nat) as u8) == 0,
    ensures
        final(encoded)@ == old(encoded)@ + or_first(vi_encode(val as nat, n as nat), flags),
        len == vi_encode(val as nat, n as nat).len(),
        1 <= len <= final(encoded)@.len(),
{
    let ghost orig = encoded@;
    let len = Qnum::encode(encoded, val, n);
    let pos = encoded.len() - len;
    let b = encoded[pos];
    encoded[pos] = b | flags;
    proof {
        assert(encoded@ =~= orig + or_first(vi_encode(val as nat, n as nat), flags));
    }
    len
}

/// The encoder half of a peer: what it still has in flight.
///
/// `known_sending_count` counts the insertions this peer has sent on its
/// encoder stream; `pending_sections` holds, per stream, the required
/// insert count and the absolute indices a planned field section references.
pub struct Encoder {
    pub known_sending_count: usize,
    pub pending_sections: Vec<(u16, usize, Vec<usize>)>,
}

/// Whether some pending section is keyed by `stream_id`.
pub open spec fn has_sid(s: Seq<(u16, usize, Vec<usize>)>, stream_id: u16) -> bool {
    exists|i: int| 0 <= i < s.len() && (#[trigger] s[i]).0 == stream_id
}

/// Stream ids key pending sections uniquely.
pub open spec fn sids_unique(s: Seq<(u16, usize, Vec<usize>)>) -> bool {
    forall|i: int, j: int| 0 <= i < j < s.len() ==> (#[trigger] s[i]).0 != (#[trigger] s[j]).0
}

impl Encoder {
    pub open spec fn wf(&self) -> bool {
        sids_unique(self.pending_sections@)
    }

    pub fn new() -> (r: Self)
        ensures
            r.wf(),
            r.known_sending_count == 0,
            r.pending_sections@.len() == 0,
    {
        Encoder { known_sending_count: 0, pending_sections: Vec::new() }
    }

    pub fn has_section(&self, stream_id: u16) -> (r: bool)
        ensures
            r == has_sid(self.pending_sections@, stream_id),
    {
        let mut i: usize = 0;
        while i < self.pending_sections.len()
            invariant
                i <= self.pending_sections@.len(),
                forall|j: int| 0 <= j < i ==> (#[trigger] self.pending_sections@[j]).0
                    != stream_id,
            decreases self.pending_sections@.len() - i,
        {
            if self.pending_sections[i].0 == stream_id {
                return true;
            }
            i = i + 1;
        }
        false
    }

    /// Records a planned field section, replacing any previous record for
    /// the stream.
    pub fn add_section(
        &mut self,
        stream_id: u16,
        required_insert_count: usize,
        dynamic_table_indices: Vec<usize>,
    )
        requires
            old(self).wf(),
        ensures
            final(self).wf(),
            final(self).known_sending_count == old(self).known_sending_count,
            has_sid(final(self).pending_sections@, stream_id),
            exists|i: int|
                0 <= i < final(self).pending_sections@.len()
                    && (#[trigger] final(self).pending_sections@[i]).0 == stream_id
                    && final(self).pending_sections@[i].1 == required_insert_count
                    && final(self).pending_sections@[i].2@ == dynamic_table_indices@,
            forall|sid: u16|
                sid != stream_id ==> section_for(final(self).pending_sections@, sid)
                    == section_for(old(self).pending_sections@, sid),
            forall|j: int|
                0 <= j < final(self).pending_sections@.len()
                    ==> ((#[trigger] final(self).pending_sections@[j]).1 == required_insert_count
                    || old(self).pending_sections@.contains(final(self).pending_sections@[j])),
    {
        self.remove_section(stream_id);
        let ghost mid = self.pending_sections@;
        self.pending_sections.push((stream_id, required_insert_count, dynamic_table_indices));
        proof {
            let s = self.pending_sections@;
            let i = s.len() - 1;
            assert(s[i].0 == stream_id);
            lemma_section_for_none_absent(mid, stream_id);
            assert(forall|j: int| 0 <= j < mid.len() ==> s[j] == mid[j]);
            assert(sids_unique(s));
            assert forall|j: int| 0 <= j < s.len() implies (s[j].1 == required_insert_count || old(
                self,
            ).pending_sections@.contains(s[j])) by {
                if j < mid.len() {
                    assert(old(self).pending_sections@.contains(mid[j]));
                }
            }
            assert forall|sid: u16| sid != stream_id implies section_for(s, sid) == section_for(
                mid,
                sid,
            ) by {
                lemma_section_for_push(mid, (stream_id, required_insert_count,
                    dynamic_table_indices), sid);
            }
        }
    }

    /// Removes the pending section of `stream_id`, handing back what it
    /// recorded: the required insert count and the referenced indices.
    pub fn take_section(&mut self, stream_id: u16) -> (r: Option<(usize, Vec<usize>)>)
        requires
            old(self).wf(),
        ensures
            final(self).wf(),
            final(self).known_sending_count == old(self).known_sending_count,
            match r {
                Some((ric, refs)) => {
                    &&& section_for(old(self).pending_sections@, stream_id) is Some
                    &&& {
                        let sec = section_for(old(self).pending_sections@, stream_id)->Some_0;
                        ric == sec.1 && refs@ == sec.2@
                    }
                },
                None => {
                    &&& section_for(old(self).pending_sections@, stream_id) is None
                    &&& *final(self) == *old(self)
                },
            },
            section_for(final(self).pending_sections@, stream_id) is None,
            forall|sid: u16|
                sid != stream_id ==> section_for(final(self).pending_sections@, sid)
                    == section_for(old(self).pending_sections@, sid),
            forall|j: int|
                0 <= j < final(self).pending_sections@.len()
                    ==> old(self).pending_sections@.contains(
                    #[trigger] final(self).pending_sections@[j],
                ),
    {
        let mut i: usize = 0;
        let ghost s0 = self.pending_sections@;
        while i < self.pending_sections.len()
            invariant
                old(self).wf(),
                s0 == self.pending_sections@,
                *self == *old(self),
                i <= s0.len(),
                forall|j: int| 0 <= j < i ==> (#[trigger] s0[j]).0 != stream_id,
            decreases s0.len() - i,
        {
            if self.pending_sections[i].0 == stream_id {
                let ghost pre = self.pending_sections@;
                let entry = self.pending_sections.remove(i);
                proof {
                    lemma_section_for_remove(pre, i as int, stream_id);
                    lemma_section_for_found(s0, i as int, stream_id);
                    assert forall|j: int|
                        0 <= j < self.pending_sections@.len() implies pre.contains(
                        #[trigger] self.pending_sections@[j],
                    ) by {
                        if j < i {
                            assert(self.pending_sections@[j] == pre[j]);
                        } else {
                            assert(self.pending_sections@[j] == pre[j + 1]);
                        }
                    }
                }
                return Some((entry.1, entry.2));
            }
            i = i + 1;
        }
        proof {
            lemma_section_for_absent(s0, stream_id);
        }
        None
    }

    /// Removes any pending section of `stream_id`.
    fn remove_section(&mut self, stream_id: u16)
        requires
            old(self).wf(),
        ensures
            final(self).wf(),
            final(self).known_sending_count == old(self).known_sending_count,
            section_for(final(self).pending_sections@, stream_id) is None,
            forall|sid: u16|
                sid != stream_id ==> section_for(final(self).pending_sections@, sid)
                    == section_for(old(self).pending_sections@, sid),
            forall|j: int|
                0 <= j < final(self).pending_sections@.len()
                    ==> old(self).pending_sections@.contains(
                    #[trigger] final(self).pending_sections@[j],
                ),
    {
        let _ = self.take_section(stream_id);
    }
}

/// Appends every byte of `src`.
pub fn push_all(dst: &mut Vec<u8>, src: &Vec<u8>)
    ensures
        final(dst)@ == old(dst)@ + src@,
{
    let ghost orig = dst@;
    let mut i: usize = 0;
    proof {
        assert(src@.take(0) =~= Seq::<u8>::empty());
        assert(orig + src@.take(0) =~= orig);
    }
    while i < src.len()
        invariant
            i <= src@.len(),
            dst@ == orig + src@.take(i as int),
        decreases src@.len() - i,
    {
        dst.push(src[i]);
        proof {
            assert(src@.take(i as int + 1) =~= src@.take(i as int).push(src@[i as int]));
            assert(dst@ =~= orig + src@.take(i as int + 1));
        }
        i = i + 1;
    }
    proof {
        assert(src@.take(src@.len() as int) =~= src@);
    }
}

/// The Huffman-flag bit of an `n`-bit length prefix, with the fact that it
/// sits above the prefix.
fn flag_bit_exec(n: u8) -> (r: u8)
    requires
        1 <= n <= 7,
    ensures
        r == flag_bit(n as nat),
        r & (vi_mask(n as nat) as u8) == 0,
{
    if n == 1 {
        proof {
            assert(2u8 & 1u8 == 0) by (bit_vector);
        }
        2
    } else if n == 2 {
        proof {
            assert(4u8 & 3u8 == 0) by (bit_vector);
        }
        4
    } else if n == 3 {
        proof {
            assert(8u8 & 7u8 == 0) by (bit_vector);
        }
        8
    } else if n == 4 {
        proof {
            assert(16u8 & 15u8 == 0) by (bit_vector);
        }
        16
    } else if n == 5 {
        proof {
            assert(32u8 & 31u8 == 0) by (bit_vector);
        }
        32
    } else if n == 6 {
        proof {
            assert(64u8 & 63u8 == 0) by (bit_vector);
        }
        64
    } else {
        proof {
            assert(128u8 & 127u8 == 0) by (bit_vector);
        }
        128
    }
}

/// Appends a length-prefixed string under an `n`-bit prefix, Huffman coding
/// the octets when the string's flag asks for it. Fails without mutation
/// when the on-wire length leaves the 32-bit space.
pub fn pack_string(encoded: &mut Vec<u8>, value: &HeaderString, n: u8) -> (r: Result<
    usize,
    QpackError,
>)
    requires
        1 <= n <= 7,
    ensures
        match r {
            Ok(len) => {
                &&& str_fits(value.value@, value.huffman)
                &&& final(encoded)@ == old(encoded)@ + spec_string(
                    value.value@,
                    value.huffman,
                    n as nat,
                )
                &&& len == spec_string(value.value@, value.huffman, n as nat).len()
                &&& 1 <= len <= final(encoded)@.len()
            },
            Err(e) => {
                &&& e == QpackError::EncoderStreamError
                &&& !str_fits(value.value@, value.huffman)
                &&& final(encoded)@ == old(encoded)@
            },
        },
{
    let ghost orig = encoded@;
    let start = encoded.len();
    if value.huffman {
        let transformer = HuffmanTransformer::new();
        let mut coded: Vec<u8> = Vec::new();
        transformer.encode(&mut coded, &value.value);
        if coded.len() as u64 > 0xffff_ffffu64 {
            return Err(QpackError::EncoderStreamError);
        }
        let flag = flag_bit_exec(n);
        let _ = push_varint_flag(encoded, coded.len() as u32, n, flag);
        push_all(encoded, &coded);
        proof {
            assert(encoded@ =~= orig + spec_string(value.value@, true, n as nat));
        }
        Ok(encoded.len() - start)
    } else {
        if value.value.len() as u64 > 0xffff_ffffu64 {
            return Err(QpackError::EncoderStreamError);
        }
        let _ = Qnum::encode(encoded, value.value.len() as u32, n);
        push_all(encoded, &value.value);
        proof {
            assert(encoded@ =~= orig + spec_string(value.value@, false, n as nat));
        }
        Ok(encoded.len() - start)
    }
}

impl Encoder {
    /// Appends a Set Dynamic Table Capacity instruction.
    pub fn encode_set_dynamic_table_capacity(encoded: &mut Vec<u8>, cap: usize) -> (r: Result<
        (),
        QpackError,
    >)
        ensures
            match r {
                Ok(()) => {
                    &&& cap <= u32::MAX
                    &&& final(encoded)@ == old(encoded)@ + set_capacity_bytes(cap as nat)
                },
                Err(e) => {
                    &&& e == QpackError::EncoderStreamError
                    &&& cap > u32::MAX
                    &&& final(encoded)@ == old(encoded)@
                },
            },
    {
        if cap as u64 > 0xffff_ffffu64 {
            return Err(QpackError::EncoderStreamError);
        }
        proof {
            assert(0x20u8 & 31u8 == 0) by (bit_vector);
        }
        let _ = push_varint_flag(encoded, cap as u32, 5, 0x20);
        Ok(())
    }

    /// Appends an Insert With Name Reference instruction.
    pub fn encode_insert_refer_name(
        encoded: &mut Vec<u8>,
        on_static: bool,
        name_idx: usize,
        value: &HeaderString,
    ) -> (r: Result<(), QpackError>)
        ensures
            match r {
                Ok(()) => {
                    &&& name_idx <= u32::MAX
                    &&& str_fits(value.value@, value.huffman)
                    &&& final(encoded)@ == old(encoded)@ + insert_refer_name_bytes(
                        on_static,
                        name_idx as nat,
                        value.value@,
                        value.huffman,
                    )
                },
                Err(e) => {
                    &&& e == QpackError::EncoderStreamError
                    &&& (name_idx > u32::MAX || !str_fits(value.value@, value.huffman))
                    &&& final(encoded)@ == old(encoded)@
                },
            },
    {
        if name_idx as u64 > 0xffff_ffffu64 {
            return Err(QpackError::EncoderStreamError);
        }
        let mut tmp: Vec<u8> = Vec::new();
        let flags: u8 = if on_static {
            0xc0
        } else {
            0x80
        };
        proof {
            assert(0xc0u8 & 63u8 == 0) by (bit_vector);
            assert(0x80u8 & 63u8 == 0) by (bit_vector);
        }
        let _ = push_varint_flag(&mut tmp, name_idx as u32, 6, flags);
        match pack_string(&mut tmp, value, 7) {
            Ok(_) => (),
            Err(e) => {
                return Err(e);
            },
        }
        push_all(encoded, &tmp);
        proof {
            assert(encoded@ =~= old(encoded)@ + insert_refer_name_bytes(
                on_static,
                name_idx as nat,
                value.value@,
                value.huffman,
            ));
        }
        Ok(())
    }

    /// Appends an Insert With Literal Name instruction.
    pub fn encode_insert_both_literal(encoded: &mut Vec<u8>, header: &Header) -> (r: Result<
        (),
        QpackError,
    >)
        ensures
            match r {
                Ok(()) => {
                    &&& str_fits(header.name_bytes(), header.name.huffman)
                    &&& str_fits(header.value_bytes(), header.value.huffman)
                    &&& final(encoded)@ == old(encoded)@ + insert_both_literal_bytes(
                        header.name_bytes(),
                        header.name.huffman,
                        header.value_bytes(),
                        header.value.huffman,
                    )
                },
                Err(e) => {
                    &&& e == QpackError::EncoderStreamError
                    &&& (!str_fits(header.name_bytes(), header.name.huffman) || !str_fits(
                        header.value_bytes(),
                        header.value.huffman,
                    ))
                    &&& final(encoded)@ == old(encoded)@
                },
            },
    {
        let mut tmp: Vec<u8> = Vec::new();
        match pack_string(&mut tmp, &header.name, 5) {
            Ok(_) => (),
            Err(e) => {
                return Err(e);
            },
        }
        let ghost name_str = tmp@;
        let b = tmp[0];
        tmp[0] = b | 0x40;
        let mut tmp2: Vec<u8> = Vec::new();
        match pack_string(&mut tmp2, &header.value, 7) {
            Ok(_) => (),
            Err(e) => {
                return Err(e);
            },
        }
        push_all(&mut tmp, &tmp2);
        push_all(encoded, &tmp);
        proof {
            assert(encoded@ =~= old(encoded)@ + insert_both_literal_bytes(
                header.name_bytes(),
                header.name.huffman,
                header.value_bytes(),
                header.value.huffman,
            ));
        }
        Ok(())
    }

    /// Appends a Duplicate instruction.
    pub fn encode_duplicate(encoded: &mut Vec<u8>, idx: usize) -> (r: Result<(), QpackError>)
        ensures
            match r {
                Ok(()) => {
                    &&& idx <= u32::MAX
                    &&& final(encoded)@ == old(encoded)@ + duplicate_bytes(idx as nat)
                },
                Err(e) => {
                    &&& e == QpackError::EncoderStreamError
                    &&& idx > u32::MAX
                    &&& final(encoded)@ == old(encoded)@
                },
            },
    {
        if idx as u64 > 0xffff_ffffu64 {
            return Err(QpackError::EncoderStreamError);
        }
        let _ = Qnum::encode(encoded, idx as u32, 5);
        Ok(())
    }

    /// Appends an Indexed field line.
    pub fn encode_indexed(encoded: &mut Vec<u8>, idx: usize, from_static: bool) -> (r: Result<
        (),
        QpackError,
    >)
        ensures
            match r {
                Ok(()) => {
                    &&& idx <= u32::MAX
                    &&& final(encoded)@ == old(encoded)@ + indexed_bytes(idx as nat, from_static)
                },
                Err(e) => {
                    &&& e == QpackError::EncoderStreamError
                    &&& idx > u32::MAX
                    &&& final(encoded)@ == old(encoded)@
                },
            },
    {
        if idx as u64 > 0xffff_ffffu64 {
            return Err(QpackError::EncoderStreamError);
        }
        let flags: u8 = if from_static {
            0xc0
        } else {
            0x80
        };
        proof {
            assert(0xc0u8 & 63u8 == 0) by (bit_vector);
            assert(0x80u8 & 63u8 == 0) by (bit_vector);
        }
        let _ = push_varint_flag(encoded, idx as u32, 6, flags);
        Ok(())
    }

    /// Appends an Indexed field line with a post-base index.
    pub fn encode_indexed_post_base(encoded: &mut Vec<u8>, idx: usize) -> (r: Result<
        (),
        QpackError,
    >)
        ensures
            match r {
                Ok(()) => {
                    &&& idx <= u32::MAX
                    &&& final(encoded)@ == old(encoded)@ + indexed_post_base_bytes(idx as nat)
                },
                Err(e) => {
                    &&& e == QpackError::EncoderStreamError
                    &&& idx > u32::MAX
                    &&& final(encoded)@ == old(encoded)@
                },
            },
    {
        if idx as u64 > 0xffff_ffffu64 {
            return Err(QpackError::EncoderStreamError);
        }
        proof {
            assert(0x10u8 & 15u8 == 0) by (bit_vector);
        }
        let _ = push_varint_flag(encoded, idx as u32, 4, 0x10);
        Ok(())
    }

    /// Appends a Literal field line with a name reference.
    pub fn encode_refer_name(
        encoded: &mut Vec<u8>,
        idx: usize,
        header: &Header,
        from_static: bool,
    ) -> (r: Result<(), QpackError>)
        ensures
            match r {
                Ok(()) => {
                    &&& idx <= u32::MAX
                    &&& str_fits(header.value_bytes(), header.value.huffman)
                    &&& final(encoded)@ == old(encoded)@ + refer_name_bytes(
                        idx as nat,
                        from_static,
                        header.sensitive,
                        header.value_bytes(),
                        header.value.huffman,
                    )
                },
                Err(e) => {
                    &&& e == QpackError::EncoderStreamError
                    &&& (idx > u32::MAX || !str_fits(header.value_bytes(), header.value.huffman))
                    &&& final(encoded)@ == old(encoded)@
                },
            },
    {
        if idx as u64 > 0xffff_ffffu64 {
            return Err(QpackError::EncoderStreamError);
        }
        let mut tmp: Vec<u8> = Vec::new();
        let flags: u8 = if header.sensitive && from_static {
            0x70
        } else if header.sensitive {
            0x60
        } else if from_static {
            0x50
        } else {
            0x40
        };
        proof {
            assert(0x40u8 & 15 == 0 && 0x60u8 & 15 == 0 && 0x50u8 & 15 == 0 && 0x70u8 & 15 == 0)
                by (bit_vector);
        }
        let _ = push_varint_flag(&mut tmp, idx as u32, 4, flags);
        match pack_string(&mut tmp, &header.value, 7) {
            Ok(_) => (),
            Err(e) => {
                return Err(e);
            },
        }
        push_all(encoded, &tmp);
        proof {
            assert(encoded@ =~= old(encoded)@ + refer_name_bytes(
                idx as nat,
                from_static,
                header.sensitive,
                header.value_bytes(),
                header.value.huffman,
            ));
        }
        Ok(())
    }

    /// Appends a Literal field line with a post-base name reference.
    pub fn encode_refer_name_post_base(encoded: &mut Vec<u8>, idx: usize, header: &Header) -> (r:
        Result<(), QpackError>)
        ensures
            match r {
                Ok(()) => {
                    &&& idx <= u32::MAX
                    &&& str_fits(header.value_bytes(), header.value.huffman)
                    &&& final(encoded)@ == old(encoded)@ + refer_name_post_base_bytes(
                        idx as nat,
                        header.sensitive,
                        header.value_bytes(),
                        header.value.huffman,
                    )
                },
                Err(e) => {
                    &&& e == QpackError::EncoderStreamError
                    &&& (idx > u32::MAX || !str_fits(header.value_bytes(), header.value.huffman))
                    &&& final(encoded)@ == old(encoded)@
                },
            },
    {
        if idx as u64 > 0xffff_ffffu64 {
            return Err(QpackError::EncoderStreamError);
        }
        let mut tmp: Vec<u8> = Vec::new();
        let flags: u8 = if header.sensitive {
            0x08
        } else {
            0
        };
        proof {
            assert(0x08u8 & 7 == 0 && 0u8 & 7 == 0) by (bit_vector);
        }
        let _ = push_varint_flag(&mut tmp, idx as u32, 3, flags);
        match pack_string(&mut tmp, &header.value, 7) {
            Ok(_) => (),
            Err(e) => {
                return Err(e);
            },
        }
        push_all(encoded, &tmp);
        proof {
            assert(encoded@ =~= old(encoded)@ + refer_name_post_base_bytes(
                idx as nat,
                header.sensitive,
                header.value_bytes(),
                header.value.huffman,
            ));
        }
        Ok(())
    }

    /// Appends a Literal field line with a literal name.
    pub fn encode_both_literal(encoded: &mut Vec<u8>, header: &Header) -> (r: Result<
        (),
        QpackError,
    >)
        ensures
            match r {
                Ok(()) => {
                    &&& str_fits(header.name_bytes(), header.name.huffman)
                    &&& str_fits(header.value_bytes(), header.value.huffman)
                    &&& final(encoded)@ == old(encoded)@ + both_literal_bytes(
                        header.name_bytes(),
                        header.name.huffman,
                        header.sensitive,
                        header.value_bytes(),
                        header.value.huffman,
                    )
                },
                Err(e) => {
                    &&& e == QpackError::EncoderStreamError
                    &&& (!str_fits(header.name_bytes(), header.name.huffman) || !str_fits(
                        header.value_bytes(),
                        header.value.huffman,
                    ))
                    &&& final(encoded)@ == old(encoded)@
                },
            },
    {
        let mut tmp: Vec<u8> = Vec::new();
        match pack_string(&mut tmp, &header.name, 3) {
            Ok(_) => (),
            Err(e) => {
                return Err(e);
            },
        }
        let flags: u8 = if header.sensitive {
            0x30
        } else {
            0x20
        };
        let b = tmp[0];
        tmp[0] = b | flags;
        let mut tmp2: Vec<u8> = Vec::new();
        match pack_string(&mut tmp2, &header.value, 7) {
            Ok(_) => (),
            Err(e) => {
                return Err(e);
            },
        }
        push_all(&mut tmp, &tmp2);
        push_all(encoded, &tmp);
        proof {
            assert(encoded@ =~= old(encoded)@ + both_literal_bytes(
                header.name_bytes(),
                header.name.huffman,
                header.sensitive,
                header.value_bytes(),
                header.value.huffman,
            ));
        }
        Ok(())
    }
}

/// A length-prefixed string, parsed: bytes consumed, the octets (Huffman
/// decoded when the flag was set), and the flag.
pub open spec fn spec_parse_string(bytes: Seq<u8>, n: nat) -> Option<(int, Seq<u8>, bool)> {
    match vi_decode(bytes, n) {
        Some((l, slen)) => if slen > u32::MAX {
            None
        } else if l + slen > bytes.len() {
            None
        } else {
            let seg = bytes.subrange(l, l + slen);
            let h = bytes[0] & flag_bit(n) != 0;
            if h {
                match huff_decode(seg) {
                    Some(v) => Some((l + slen, v, true)),
                    None => None,
                }
            } else {
                Some((l + slen, seg, false))
            }
        },
        None => None,
    }
}

/// A parsed encoder-stream instruction.
pub enum EncInstrModel {
    SetCapacity { cap: nat },
    InsertReferName { on_static: bool, name_idx: nat, value: Seq<u8>, huffman: bool },
    InsertBothLiteral { name: Seq<u8>, name_huffman: bool, value: Seq<u8>, value_huffman: bool },
    Duplicate { idx: nat },
}

/// One encoder-stream instruction, parsed off the front of `bytes`.
pub open spec fn spec_enc_instr(bytes: Seq<u8>) -> Option<(int, EncInstrModel)> {
    if bytes.len() == 0 {
        None
    } else {
        let b = bytes[0];
        if b & 0x80 == 0x80 {
            // Insert With Name Reference.
            let on_static = b & 0x40 == 0x40;
            match vi_decode(bytes, 6) {
                Some((l1, name_idx)) => if name_idx > u32::MAX {
                    None
                } else {
                    match spec_parse_string(bytes.skip(l1), 7) {
                        Some((l2, value, huffman)) => Some(
                            (
                                l1 + l2,
                                EncInstrModel::InsertReferName { on_static, name_idx, value, huffman },
                            ),
                        ),
                        None => None,
                    }
                },
                None => None,
            }
        } else if b & 0x40 == 0x40 {
            // Insert With Literal Name.
            match spec_parse_string(bytes, 5) {
                Some((l1, name, name_huffman)) => match spec_parse_string(bytes.skip(l1), 7) {
                    Some((l2, value, value_huffman)) => Some(
                        (
                            l1 + l2,
                            EncInstrModel::InsertBothLiteral {
                                name,
                                name_huffman,
                                value,
                                value_huffman,
                            },
                        ),
                    ),
                    None => None,
                },
                None => None,
            }
        } else if b & 0x20 == 0x20 {
            // Set Dynamic Table Capacity.
            match vi_decode(bytes, 5) {
                Some((l, cap)) => if cap > u32::MAX {
                    None
                } else {
                    Some((l, EncInstrModel::SetCapacity { cap }))
                },
                None => None,
            }
        } else {
            // Duplicate.
            match vi_decode(bytes, 5) {
                Some((l, idx)) => if idx > u32::MAX {
                    None
                } else {
                    Some((l, EncInstrModel::Duplicate { idx }))
                },
                None => None,
            }
        }
    }
}

/// A parsed decoder-stream instruction.
pub enum DecInstrModel {
    SectionAck { stream_id: nat },
    StreamCancel { stream_id: nat },
    InsertCountIncrement { increment: nat },
}

/// One decoder-stream instruction, parsed off the front of `bytes`.
pub open spec fn spec_dec_instr(bytes: Seq<u8>) -> Option<(int, DecInstrModel)> {
    if bytes.len() == 0 {
        None
    } else {
        let b = bytes[0];
        if b & 0x80 == 0x80 {
            match vi_decode(bytes, 7) {
                Some((l, sid)) => if sid > u16::MAX {
                    None
                } else {
                    Some((l, DecInstrModel::SectionAck { stream_id: sid }))
                },
                None => None,
            }
        } else if b & 0x40 == 0x40 {
            match vi_decode(bytes, 6) {
                Some((l, sid)) => if sid > u16::MAX {
                    None
                } else {
                    Some((l, DecInstrModel::StreamCancel { stream_id: sid }))
                },
                None => None,
            }
        } else {
            match vi_decode(bytes, 6) {
                Some((l, inc)) => if inc > u32::MAX {
                    None
                } else {
                    Some((l, DecInstrModel::InsertCountIncrement { increment: inc }))
                },
                None => None,
            }
        }
    }
}

/// The required insert count recovered from its encoded form, following the
/// wrapping rule of the field-block prefix. `total` is the receiver's
/// insert count.
pub open spec fn spec_ric(eic: nat, max_entries: nat, total: nat) -> Option<nat> {
    if eic == 0 {
        Some(0)
    } else {
        let full_range = 2 * max_entries;
        if eic > full_range {
            None
        } else {
            let max_value = total + max_entries;
            let max_wrapped = (max_value / full_range) * full_range;
            let r0 = max_wrapped + eic - 1;
            if r0 > max_value {
                if r0 <= full_range {
                    None
                } else {
                    Some((r0 - full_range) as nat)
                }
            } else if r0 == 0 {
                None
            } else {
                Some(r0 as nat)
            }
        }
    }
}

/// A field-block prefix, parsed: bytes consumed, the required insert count,
/// and the base.
pub open spec fn spec_prefix(bytes: Seq<u8>, max_entries: nat, total: nat) -> Option<
    (int, nat, nat),
> {
    match vi_decode(bytes, 8) {
        Some((l1, eic)) => if eic > u32::MAX {
            None
        } else {
            match spec_ric(eic, max_entries, total) {
                Some(ric) => match vi_decode(bytes.skip(l1), 7) {
                    Some((l2, delta)) => if delta > u32::MAX {
                        None
                    } else {
                        let s = bytes[l1] & 0x80 == 0x80;
                        if s {
                            if delta + 1 > ric {
                                None
                            } else {
                                Some((l1 + l2, ric, (ric - delta - 1) as nat))
                            }
                        } else {
                            Some((l1 + l2, ric, ric + delta))
                        }
                    },
                    None => None,
                },
                None => None,
            }
        },
        None => None,
    }
}

/// The decoder half of a peer: how many of its streams are suspended
/// waiting for table insertions, and the required insert count of each
/// field section it has decoded but not yet acknowledged.
pub struct Decoder {
    pub current_blocked_streams: u16,
    pub pending_sections: Vec<(u16, usize)>,
}

/// Whether some decoder-side pending section is keyed by `stream_id`.
pub open spec fn dec_has_sid(s: Seq<(u16, usize)>, stream_id: u16) -> bool {
    exists|i: int| 0 <= i < s.len() && (#[trigger] s[i]).0 == stream_id
}

/// The decoder-side pending section keyed by `stream_id`.
pub open spec fn dec_section_for(s: Seq<(u16, usize)>, stream_id: u16) -> Option<(u16, usize)>
    decreases s.len(),
{
    if s.len() == 0 {
        None
    } else if s[0].0 == stream_id {
        Some(s[0])
    } else {
        dec_section_for(s.skip(1), stream_id)
    }
}

/// The position of the first pending section keyed by `sid`; the sequence's
/// length when there is none.
pub open spec fn dec_first_index(s: Seq<(u16, usize)>, sid: u16) -> int
    decreases s.len(),
{
    if s.len() == 0 {
        0
    } else if s[0].0 == sid {
        0
    } else {
        1 + dec_first_index(s.skip(1), sid)
    }
}

/// The first occurrence of `sid` is at `dec_first_index`.
pub proof fn lemma_dec_first_index(s: Seq<(u16, usize)>, i: int, sid: u16)
    requires
        0 <= i < s.len(),
        s[i].0 == sid,
        forall|j: int| 0 <= j < i ==> (#[trigger] s[j]).0 != sid,
    ensures
        dec_first_index(s, sid) == i,
    decreases i,
{
    if i > 0 {
        assert(s.skip(1)[i - 1] == s[i]);
        assert(forall|j: int| 0 <= j < i - 1 ==> (#[trigger] s.skip(1)[j]).0 != sid);
        lemma_dec_first_index(s.skip(1), i - 1, sid);
    }
}

/// The first element carrying `sid` is `dec_section_for`'s answer.
pub proof fn lemma_dec_section_found(s: Seq<(u16, usize)>, i: int, sid: u16)
    requires
        0 <= i < s.len(),
        s[i].0 == sid,
        forall|j: int| 0 <= j < i ==> (#[trigger] s[j]).0 != sid,
    ensures
        dec_section_for(s, sid) == Some(s[i]),
    decreases i,
{
    if i > 0 {
        assert(s.skip(1)[i - 1] == s[i]);
        assert(forall|j: int| 0 <= j < i - 1 ==> (#[trigger] s.skip(1)[j]).0 != sid);
        lemma_dec_section_found(s.skip(1), i - 1, sid);
    }
}

/// A stream id's section is one of the sequence's elements.
pub proof fn lemma_section_for_is_element(s: Seq<(u16, usize, Vec<usize>)>, sid: u16)
    requires
        section_for(s, sid) is Some,
    ensures
        exists|i: int|
            0 <= i < s.len() && (#[trigger] s[i]) == section_for(s, sid)->Some_0,
    decreases s.len(),
{
    if s[0].0 == sid {
        assert(s[0] == section_for(s, sid)->Some_0);
    } else {
        lemma_section_for_is_element(s.skip(1), sid);
        let i = choose|i: int|
            0 <= i < s.skip(1).len() && (#[trigger] s.skip(1)[i]) == section_for(
                s.skip(1),
                sid,
            )->Some_0;
        assert(s[i + 1] == s.skip(1)[i]);
    }
}

impl Decoder {
    pub fn new() -> (r: Self)
        ensures
            r.current_blocked_streams == 0,
            r.pending_sections@.len() == 0,
    {
        Decoder { current_blocked_streams: 0, pending_sections: Vec::new() }
    }

    /// Records a decoded field section awaiting acknowledgement.
    pub fn add_section(&mut self, stream_id: u16, required_insert_count: usize)
        ensures
            final(self).current_blocked_streams == old(self).current_blocked_streams,
            final(self).pending_sections@ == old(self).pending_sections@.push(
                (stream_id, required_insert_count),
            ),
    {
        self.pending_sections.push((stream_id, required_insert_count));
    }

    /// Removes the first pending section of `stream_id` and hands back its
    /// required insert count.
    pub fn take_section(&mut self, stream_id: u16) -> (r: Option<usize>)
        ensures
            final(self).current_blocked_streams == old(self).current_blocked_streams,
            match r {
                Some(ric) => {
                    &&& dec_has_sid(old(self).pending_sections@, stream_id)
                    &&& dec_section_for(old(self).pending_sections@, stream_id) == Some(
                        (stream_id, ric),
                    )
                    &&& exists|i: int|
                        0 <= i < old(self).pending_sections@.len()
                            && (#[trigger] old(self).pending_sections@[i]) == (stream_id, ric)
                    &&& 0 <= dec_first_index(old(self).pending_sections@, stream_id) < old(
                        self,
                    ).pending_sections@.len()
                    &&& final(self).pending_sections@ == old(self).pending_sections@.remove(
                        dec_first_index(old(self).pending_sections@, stream_id),
                    )
                },
                None => {
                    &&& !dec_has_sid(old(self).pending_sections@, stream_id)
                    &&& final(self).pending_sections@ == old(self).pending_sections@
                },
            },
            forall|j: int|
                0 <= j < final(self).pending_sections@.len()
                    ==> old(self).pending_sections@.contains(
                    #[trigger] final(self).pending_sections@[j],
                ),
    {
        let mut i: usize = 0;
        let ghost s0 = self.pending_sections@;
        while i < self.pending_sections.len()
            invariant
                s0 == self.pending_sections@,
                *self == *old(self),
                i <= s0.len(),
                forall|j: int| 0 <= j < i ==> (#[trigger] s0[j]).0 != stream_id,
            decreases s0.len() - i,
        {
            if self.pending_sections[i].0 == stream_id {
                let ghost pre = self.pending_sections@;
                let entry = self.pending_sections.remove(i);
                proof {
                    lemma_dec_section_found(pre, i as int, stream_id);
                    lemma_dec_first_index(pre, i as int, stream_id);
                    assert forall|j: int|
                        0 <= j < self.pending_sections@.len() implies pre.contains(
                        #[trigger] self.pending_sections@[j],
                    ) by {
                        if j < i {
                            assert(self.pending_sections@[j] == pre[j]);
                        } else {
                            assert(self.pending_sections@[j] == pre[j + 1]);
                        }
                    }
                }
                return Some(entry.1);
            }
            i = i + 1;
        }
        None
    }

    /// Drops the first pending section of `stream_id`, if one exists.
    #[verifier::rlimit(100)]
    pub fn cancel_section(&mut self, stream_id: u16)
        ensures
            final(self).current_blocked_streams == old(self).current_blocked_streams,
            forall|j: int|
                0 <= j < final(self).pending_sections@.len() ==> old(
                    self,
                ).pending_sections@.contains(#[trigger] final(self).pending_sections@[j]),
            dec_has_sid(old(self).pending_sections@, stream_id) ==> {
                &&& 0 <= dec_first_index(old(self).pending_sections@, stream_id) < old(
                    self,
                ).pending_sections@.len()
                &&& final(self).pending_sections@ == old(self).pending_sections@.remove(
                    dec_first_index(old(self).pending_sections@, stream_id),
                )
            },
            !dec_has_sid(old(self).pending_sections@, stream_id)
                ==> final(self).pending_sections@ == old(self).pending_sections@,
    {
        let taken = self.take_section(stream_id);
        proof {
            if old(self).pending_sections@ == self.pending_sections@ {
                assert forall|j: int|
                    0 <= j < self.pending_sections@.len() implies old(
                    self,
                ).pending_sections@.contains(#[trigger] self.pending_sections@[j]) by {
                    assert(old(self).pending_sections@[j] == self.pending_sections@[j]);
                }
            }
        }
    }

    /// Appends a Section Acknowledgment instruction.
    pub fn encode_section_ackowledgment(encoded: &mut Vec<u8>, stream_id: u16) -> (r: Result<
        (),
        QpackError,
    >)
        ensures
            r is Ok,
            final(encoded)@ == old(encoded)@ + section_ack_bytes(stream_id as nat),
    {
        proof {
            assert(0x80u8 & 127u8 == 0) by (bit_vector);
        }
        let _ = push_varint_flag(encoded, stream_id as u32, 7, 0x80);
        Ok(())
    }

    /// Appends a Stream Cancellation instruction.
    pub fn encode_stream_cancellation(encoded: &mut Vec<u8>, stream_id: u16) -> (r: Result<
        (),
        QpackError,
    >)
        ensures
            r is Ok,
            final(encoded)@ == old(encoded)@ + stream_cancel_bytes(stream_id as nat),
    {
        proof {
            assert(0x40u8 & 63u8 == 0) by (bit_vector);
        }
        let _ = push_varint_flag(encoded, stream_id as u32, 6, 0x40);
        Ok(())
    }

    /// Appends an Insert Count Increment instruction.
    pub fn encode_insert_count_increment(encoded: &mut Vec<u8>, increment: usize) -> (r: Result<
        (),
        QpackError,
    >)
        ensures
            match r {
                Ok(()) => {
                    &&& increment <= u32::MAX
                    &&& final(encoded)@ == old(encoded)@ + insert_count_increment_bytes(
                        increment as nat,
                    )
                },
                Err(e) => {
                    &&& e == QpackError::DecoderStreamError
                    &&& increment > u32::MAX
                    &&& final(encoded)@ == old(encoded)@
                },
            },
    {
        if increment as u64 > 0xffff_ffffu64 {
            return Err(QpackError::DecoderStreamError);
        }
        let _ = Qnum::encode(encoded, increment as u32, 6);
        Ok(())
    }

    /// Reads a length-prefixed string under an `n`-bit prefix, Huffman
    /// decoding the octets when the flag at bit `n` is set.
    pub fn parse_string(wire: &Vec<u8>, idx: usize, n: u8) -> (r: Result<
        (usize, HeaderString),
        QpackError,
    >)
        requires
            1 <= n <= 7,
            idx <= wire@.len(),
        ensures
            match r {
                Ok((len, hs)) => {
                    &&& spec_parse_string(wire@.skip(idx as int), n as nat) == Some(
                        (len as int, hs.value@, hs.huffman),
                    )
                    &&& 1 <= len
                    &&& idx + len <= wire@.len()
                },
                Err(e) => {
                    &&& e == QpackError::DecompressionFailed
                    &&& spec_parse_string(wire@.skip(idx as int), n as nat) is None
                },
            },
    {
        let ghost sub = wire@.skip(idx as int);
        let wlen = wire.len();
        let (vlen, slen32) = match Qnum::decode(wire, idx, n) {
            Ok(p) => p,
            Err(e) => {
                return Err(e);
            },
        };
        let slen = slen32 as usize;
        if wlen - (idx + vlen) < slen {
            proof {
                assert(vlen + slen32 as nat > sub.len());
            }
            return Err(QpackError::DecompressionFailed);
        }
        let start = idx + vlen;
        let ghost seg = sub.subrange(vlen as int, vlen as int + slen as int);
        proof {
            assert(seg =~= wire@.subrange(start as int, start as int + slen as int));
        }
        let flag = flag_bit_exec(n);
        let huffman = wire[idx] & flag != 0;
        proof {
            assert(sub[0] == wire@[idx as int]);
        }
        if huffman {
            let transformer = HuffmanTransformer::new();
            match transformer.decode(wire, start, slen) {
                Ok(out) => Ok((vlen + slen, HeaderString::new(out, true))),
                Err(e) => Err(e),
            }
        } else {
            let mut out: Vec<u8> = Vec::new();
            let mut i: usize = 0;
            while i < slen
                invariant
                    i <= slen,
                    wlen == wire@.len(),
                    start + slen <= wlen,
                    out@ == wire@.subrange(start as int, start as int + i as int),
                decreases slen - i,
            {
                out.push(wire[start + i]);
                proof {
                    assert(wire@.subrange(start as int, start as int + i as int + 1)
                        =~= wire@.subrange(start as int, start as int + i as int).push(
                        wire@[start as int + i as int],
                    ));
                }
                i = i + 1;
            }
            Ok((vlen + slen, HeaderString::new(out, false)))
        }
    }
}

impl Decoder {
    /// Reads a Set Dynamic Table Capacity instruction.
    pub fn decode_dynamic_table_capacity(wire: &Vec<u8>, idx: usize) -> (r: Result<
        (usize, usize),
        QpackError,
    >)
        requires
            idx < wire@.len(),
            wire@[idx as int] & 0x80 == 0,
            wire@[idx as int] & 0x40 == 0,
            wire@[idx as int] & 0x20 == 0x20,
        ensures
            match r {
                Ok((len, cap)) => {
                    &&& spec_enc_instr(wire@.skip(idx as int)) == Some(
                        (len as int, EncInstrModel::SetCapacity { cap: cap as nat }),
                    )
                    &&& 1 <= len
                    &&& idx + len <= wire@.len()
                },
                Err(e) => {
                    &&& e == QpackError::DecompressionFailed
                    &&& spec_enc_instr(wire@.skip(idx as int)) is None
                },
            },
    {
        proof {
            reveal(spec_line);
            assert(wire@.skip(idx as int)[0] == wire@[idx as int]);
        }
        match Qnum::decode(wire, idx, 5) {
            Ok((len, cap)) => Ok((len, cap as usize)),
            Err(e) => Err(e),
        }
    }

    /// Reads an Insert With Name Reference instruction: the name index, the
    /// value string, and whether the name is a static-table reference.
    pub fn decode_insert_refer_name(wire: &Vec<u8>, idx: usize) -> (r: Result<
        (usize, (usize, HeaderString, bool)),
        QpackError,
    >)
        requires
            idx < wire@.len(),
            wire@[idx as int] & 0x80 == 0x80,
        ensures
            match r {
                Ok((len, (name_idx, value, on_static))) => {
                    &&& spec_enc_instr(wire@.skip(idx as int)) == Some(
                        (
                            len as int,
                            EncInstrModel::InsertReferName {
                                on_static,
                                name_idx: name_idx as nat,
                                value: value.value@,
                                huffman: value.huffman,
                            },
                        ),
                    )
                    &&& 1 <= len
                    &&& idx + len <= wire@.len()
                },
                Err(e) => {
                    &&& e == QpackError::DecompressionFailed
                    &&& spec_enc_instr(wire@.skip(idx as int)) is None
                },
            },
    {
        proof {
            reveal(spec_line);
            assert(wire@.skip(idx as int)[0] == wire@[idx as int]);
        }
        let wlen = wire.len();
        let on_static = wire[idx] & 0x40 == 0x40;
        let (l1, name_idx) = match Qnum::decode(wire, idx, 6) {
            Ok(p) => p,
            Err(e) => {
                return Err(e);
            },
        };
        proof {
            assert(wire@.skip(idx as int).skip(l1 as int) =~= wire@.skip(idx as int + l1 as int));
        }
        match Decoder::parse_string(wire, idx + l1, 7) {
            Ok((l2, value)) => Ok((l1 + l2, (name_idx as usize, value, on_static))),
            Err(e) => Err(e),
        }
    }

    /// Reads an Insert With Literal Name instruction: the name and value.
    pub fn decode_insert_both_literal(wire: &Vec<u8>, idx: usize) -> (r: Result<
        (usize, Header),
        QpackError,
    >)
        requires
            idx < wire@.len(),
            wire@[idx as int] & 0x80 == 0,
            wire@[idx as int] & 0x40 == 0x40,
        ensures
            match r {
                Ok((len, header)) => {
                    &&& spec_enc_instr(wire@.skip(idx as int)) == Some(
                        (
                            len as int,
                            EncInstrModel::InsertBothLiteral {
                                name: header.name_bytes(),
                                name_huffman: header.name.huffman,
                                value: header.value_bytes(),
                                value_huffman: header.value.huffman,
                            },
                        ),
                    )
                    &&& !header.sensitive
                    &&& 1 <= len
                    &&& idx + len <= wire@.len()
                },
                Err(e) => {
                    &&& e == QpackError::DecompressionFailed
                    &&& spec_enc_instr(wire@.skip(idx as int)) is None
                },
            },
    {
        proof {
            reveal(spec_line);
            assert(wire@.skip(idx as int)[0] == wire@[idx as int]);
        }
        let wlen = wire.len();
        let (l1, name) = match Decoder::parse_string(wire, idx, 5) {
            Ok(p) => p,
            Err(e) => {
                return Err(e);
            },
        };
        proof {
            assert(wire@.skip(idx as int).skip(l1 as int) =~= wire@.skip(idx as int + l1 as int));
        }
        match Decoder::parse_string(wire, idx + l1, 7) {
            Ok((l2, value)) => Ok(
                (l1 + l2, Header::new_with_header_string(name, value, false)),
            ),
            Err(e) => Err(e),
        }
    }

    /// Reads a Duplicate instruction: the relative index to re-insert.
    pub fn decode_duplicate(wire: &Vec<u8>, idx: usize) -> (r: Result<(usize, usize), QpackError>)
        requires
            idx < wire@.len(),
            wire@[idx as int] & 0x80 == 0,
            wire@[idx as int] & 0x40 == 0,
            wire@[idx as int] & 0x20 == 0,
        ensures
            match r {
                Ok((len, index)) => {
                    &&& spec_enc_instr(wire@.skip(idx as int)) == Some(
                        (len as int, EncInstrModel::Duplicate { idx: index as nat }),
                    )
                    &&& 1 <= len
                    &&& idx + len <= wire@.len()
                },
                Err(e) => {
                    &&& e == QpackError::DecompressionFailed
                    &&& spec_enc_instr(wire@.skip(idx as int)) is None
                },
            },
    {
        proof {
            reveal(spec_line);
            assert(wire@.skip(idx as int)[0] == wire@[idx as int]);
        }
        match Qnum::decode(wire, idx, 5) {
            Ok((len, index)) => Ok((len, index as usize)),
            Err(e) => Err(e),
        }
    }
}

impl Encoder {
    /// Reads a Section Acknowledgment instruction: the stream id.
    pub fn decode_section_ackowledgment(wire: &Vec<u8>, idx: usize) -> (r: Result<
        (usize, u16),
        QpackError,
    >)
        requires
            idx < wire@.len(),
            wire@[idx as int] & 0x80 == 0x80,
        ensures
            match r {
                Ok((len, sid)) => {
                    &&& spec_dec_instr(wire@.skip(idx as int)) == Some(
                        (len as int, DecInstrModel::SectionAck { stream_id: sid as nat }),
                    )
                    &&& 1 <= len
                    &&& idx + len <= wire@.len()
                },
                Err(e) => {
                    &&& e == QpackError::DecoderStreamError || e
                        == QpackError::DecompressionFailed
                    &&& spec_dec_instr(wire@.skip(idx as int)) is None
                },
            },
    {
        proof {
            reveal(spec_line);
            assert(wire@.skip(idx as int)[0] == wire@[idx as int]);
        }
        match Qnum::decode(wire, idx, 7) {
            Ok((len, sid)) => {
                if sid > 0xffff {
                    return Err(QpackError::DecoderStreamError);
                }
                Ok((len, sid as u16))
            },
            Err(e) => Err(e),
        }
    }

    /// Reads a Stream Cancellation instruction: the stream id.
    pub fn decode_stream_cancellation(wire: &Vec<u8>, idx: usize) -> (r: Result<
        (usize, u16),
        QpackError,
    >)
        requires
            idx < wire@.len(),
            wire@[idx as int] & 0x80 == 0,
            wire@[idx as int] & 0x40 == 0x40,
        ensures
            match r {
                Ok((len, sid)) => {
                    &&& spec_dec_instr(wire@.skip(idx as int)) == Some(
                        (len as int, DecInstrModel::StreamCancel { stream_id: sid as nat }),
                    )
                    &&& 1 <= len
                    &&& idx + len <= wire@.len()
                },
                Err(e) => {
                    &&& e == QpackError::DecoderStreamError || e
                        == QpackError::DecompressionFailed
                    &&& spec_dec_instr(wire@.skip(idx as int)) is None
                },
            },
    {
        proof {
            reveal(spec_line);
            assert(wire@.skip(idx as int)[0] == wire@[idx as int]);
        }
        match Qnum::decode(wire, idx, 6) {
            Ok((len, sid)) => {
                if sid > 0xffff {
                    return Err(QpackError::DecoderStreamError);
                }
                Ok((len, sid as u16))
            },
            Err(e) => Err(e),
        }
    }

    /// Reads an Insert Count Increment instruction: the increment.
    pub fn decode_insert_count_increment(wire: &Vec<u8>, idx: usize) -> (r: Result<
        (usize, usize),
        QpackError,
    >)
        requires
            idx < wire@.len(),
            wire@[idx as int] & 0x80 == 0,
            wire@[idx as int] & 0x40 == 0,
        ensures
            match r {
                Ok((len, inc)) => {
                    &&& spec_dec_instr(wire@.skip(idx as int)) == Some(
                        (len as int, DecInstrModel::InsertCountIncrement { increment: inc as nat }),
                    )
                    &&& 1 <= len
                    &&& idx + len <= wire@.len()
                },
                Err(e) => {
                    &&& e == QpackError::DecompressionFailed
                    &&& spec_dec_instr(wire@.skip(idx as int)) is None
                },
            },
    {
        proof {
            reveal(spec_line);
            assert(wire@.skip(idx as int)[0] == wire@[idx as int]);
        }
        match Qnum::decode(wire, idx, 6) {
            Ok((len, inc)) => Ok((len, inc as usize)),
            Err(e) => Err(e),
        }
    }
}

/// The encoded form of a required insert count: zero stays zero, anything
/// else is sent modulo twice the table's maximum entry count, plus one.
pub open spec fn spec_eic(ric: nat, max_entries: nat) -> nat {
    if ric == 0 {
        0
    } else {
        ric % (2 * max_entries) + 1
    }
}

impl Encoder {
    /// Appends a field-block prefix. With the sign flag set the base lies
    /// below the required insert count; without it, at or above.
    pub fn prefix(
        encoded: &mut Vec<u8>,
        table: &Table,
        required_insert_count: usize,
        s_flag: bool,
        base: usize,
    ) -> (r: Result<(), QpackError>)
        requires
            table.wf(),
            s_flag ==> base < required_insert_count,
            !s_flag ==> base >= required_insert_count,
        ensures
            match r {
                Ok(()) => final(encoded)@ == old(encoded)@ + prefix_bytes(
                    spec_eic(
                        required_insert_count as nat,
                        (table.dynamic_table.max_capacity as int / 32) as nat,
                    ),
                    s_flag,
                    (if s_flag {
                        required_insert_count - base - 1
                    } else {
                        base - required_insert_count
                    }) as nat,
                ),
                Err(e) => {
                    &&& e == QpackError::EncoderStreamError
                    &&& final(encoded)@ == old(encoded)@
                    &&& {
                        ||| (required_insert_count > 0 && table.dynamic_table.max_capacity as int
                            / 32 == 0)
                        ||| spec_eic(
                            required_insert_count as nat,
                            (table.dynamic_table.max_capacity as int / 32) as nat,
                        ) > u32::MAX
                        ||| (if s_flag {
                            required_insert_count - base - 1
                        } else {
                            base - required_insert_count
                        }) > u32::MAX
                    }
                },
            },
    {
        let ghost me_spec = (table.dynamic_table.max_capacity as int / 32) as nat;
        let eic: usize = if required_insert_count == 0 {
            0
        } else {
            let me = table.get_max_entries();
            if me == 0 {
                return Err(QpackError::EncoderStreamError);
            }
            proof {
                // Twice the entry bound cannot overflow: thirty-two times it
                // fits the capacity bound already.
                vstd::arithmetic::div_mod::lemma_fundamental_div_mod(
                    table.dynamic_table.max_capacity as int,
                    32,
                );
                assert(32 * (me as int) <= table.dynamic_table.max_capacity as int);
                assert(2 * (me as int) <= 32 * (me as int)) by (nonlinear_arith)
                    requires
                        me >= 0,
                ;
            }
            let full: usize = 2 * me;
            proof {
                assert(required_insert_count as int % (full as int) < full as int) by {
                    vstd::arithmetic::div_mod::lemma_mod_bound(
                        required_insert_count as int,
                        full as int,
                    );
                }
            }
            required_insert_count % full + 1
        };
        if eic as u64 > 0xffff_ffffu64 {
            return Err(QpackError::EncoderStreamError);
        }
        let delta: usize = if s_flag {
            required_insert_count - base - 1
        } else {
            base - required_insert_count
        };
        if delta as u64 > 0xffff_ffffu64 {
            return Err(QpackError::EncoderStreamError);
        }
        let ghost orig = encoded@;
        let _ = Qnum::encode(encoded, eic as u32, 8);
        let flags: u8 = if s_flag {
            0x80
        } else {
            0
        };
        proof {
            assert(0x80u8 & 127u8 == 0 && 0u8 & 127u8 == 0) by (bit_vector);
        }
        let _ = push_varint_flag(encoded, delta as u32, 7, flags);
        proof {
            assert(encoded@ =~= orig + prefix_bytes(
                spec_eic(required_insert_count as nat, me_spec),
                s_flag,
                (if s_flag {
                    required_insert_count - base - 1
                } else {
                    base - required_insert_count
                }) as nat,
            ));
        }
        Ok(())
    }
}

impl Decoder {
    /// Reads a field-block prefix, recovering the required insert count
    /// from its wrapped encoding against this table's insert count, and the
    /// base from the sign bit and delta. Returns the bytes consumed, the
    /// required insert count, and the base.
    pub fn prefix(wire: &Vec<u8>, idx: usize, table: &Table) -> (r: Result<
        (usize, usize, usize),
        QpackError,
    >)
        requires
            table.wf(),
            idx <= wire@.len(),
        ensures
            match r {
                Ok((len, ric, base)) => {
                    &&& spec_prefix(
                        wire@.skip(idx as int),
                        (table.dynamic_table.max_capacity as int / 32) as nat,
                        table.dynamic_table.insert_count as nat,
                    ) == Some((len as int, ric as nat, base as nat))
                    &&& 1 <= len
                    &&& idx + len <= wire@.len()
                },
                Err(e) => {
                    &&& e == QpackError::DecompressionFailed
                    &&& match spec_prefix(
                        wire@.skip(idx as int),
                        (table.dynamic_table.max_capacity as int / 32) as nat,
                        table.dynamic_table.insert_count as nat,
                    ) {
                        Some((len, ric, base)) => ric > usize::MAX || base > usize::MAX,
                        None => true,
                    }
                },
            },
    {
        let ghost sub = wire@.skip(idx as int);
        let ghost me_spec = (table.dynamic_table.max_capacity as int / 32) as nat;
        let wlen = wire.len();
        let (l1, eic) = match Qnum::decode(wire, idx, 8) {
            Ok(p) => p,
            Err(e) => {
                return Err(e);
            },
        };
        let me = table.get_max_entries();
        let total = table.get_insert_count();
        let ric128: u128 = if eic == 0 {
            0
        } else {
            let full: u128 = 2 * (me as u128);
            if eic as u128 > full {
                return Err(QpackError::DecompressionFailed);
            }
            let max_value: u128 = total as u128 + me as u128;
            proof {
                vstd::arithmetic::div_mod::lemma_fundamental_div_mod(
                    max_value as int,
                    full as int,
                );
                assert((max_value as int / full as int) * (full as int) == (full as int) * (
                max_value as int / full as int)) by (nonlinear_arith);
                assert((max_value as int / full as int) * (full as int) <= max_value as int);
            }
            let max_wrapped: u128 = (max_value / full) * full;
            let r0: u128 = max_wrapped + eic as u128 - 1;
            if r0 > max_value {
                if r0 <= full {
                    return Err(QpackError::DecompressionFailed);
                }
                r0 - full
            } else {
                if r0 == 0 {
                    return Err(QpackError::DecompressionFailed);
                }
                r0
            }
        };
        if ric128 > usize::MAX as u128 {
            return Err(QpackError::DecompressionFailed);
        }
        let ric = ric128 as usize;
        let (l2, delta) = match Qnum::decode(wire, idx + l1, 7) {
            Ok(p) => p,
            Err(e) => {
                proof {
                    assert(sub.skip(l1 as int) =~= wire@.skip(idx as int + l1 as int));
                }
                return Err(e);
            },
        };
        proof {
            assert(sub.skip(l1 as int) =~= wire@.skip(idx as int + l1 as int));
            assert(sub[l1 as int] == wire@[idx as int + l1 as int]);
        }
        let s_flag = wire[idx + l1] & 0x80 == 0x80;
        if s_flag {
            if delta as u128 + 1 > ric128 {
                return Err(QpackError::DecompressionFailed);
            }
            let base = ric - delta as usize - 1;
            Ok((l1 + l2, ric, base))
        } else {
            let base128 = ric128 + delta as u128;
            if base128 > usize::MAX as u128 {
                return Err(QpackError::DecompressionFailed);
            }
            Ok((l1 + l2, ric, base128 as usize))
        }
    }
}

/// One field line, parsed off the front of `bytes` and resolved against the
/// tables: bytes consumed, the field's name and value octets, its
/// sensitivity, and whether it referenced the dynamic table.
///
/// A dynamic reference must name a live entry whose absolute index lies
/// below the block's required insert count `ric`; a static reference must
/// lie within the static table.
#[verifier::opaque]
pub open spec fn spec_line(t: Table, base: int, ric: nat, bytes: Seq<u8>) -> Option<
    (int, Seq<u8>, Seq<u8>, bool, bool),
> {
    if bytes.len() == 0 {
        None
    } else {
        let b = bytes[0];
        if b & 0x80 == 0x80 {
            // Indexed.
            let from_static = b & 0x40 == 0x40;
            match vi_decode(bytes, 6) {
                Some((l, idx)) => if idx > u32::MAX {
                    None
                } else if from_static {
                    if idx < 99 {
                        Some((l, static_pair(idx as int).0, static_pair(idx as int).1, false, false))
                    } else {
                        None
                    }
                } else {
                    let abs = base - idx - 1;
                    if t.dynamic_table.valid_abs(abs) && abs < ric {
                        Some(
                            (
                                l,
                                t.dynamic_table.entry_at(abs).name@,
                                t.dynamic_table.entry_at(abs).value@,
                                false,
                                true,
                            ),
                        )
                    } else {
                        None
                    }
                },
                None => None,
            }
        } else if b & 0x40 == 0x40 {
            // Literal with name reference.
            let sensitive = b & 0x20 == 0x20;
            let from_static = b & 0x10 == 0x10;
            match vi_decode(bytes, 4) {
                Some((l1, idx)) => if idx > u32::MAX {
                    None
                } else {
                    match spec_parse_string(bytes.skip(l1), 7) {
                        Some((l2, value, h)) => if from_static {
                            if idx < 99 {
                                Some((l1 + l2, static_pair(idx as int).0, value, sensitive, false))
                            } else {
                                None
                            }
                        } else {
                            let abs = base - idx - 1;
                            if t.dynamic_table.valid_abs(abs) && abs < ric {
                                Some(
                                    (
                                        l1 + l2,
                                        t.dynamic_table.entry_at(abs).name@,
                                        value,
                                        sensitive,
                                        true,
                                    ),
                                )
                            } else {
                                None
                            }
                        },
                        None => None,
                    }
                },
                None => None,
            }
        } else if b & 0x20 == 0x20 {
            // Literal with literal name.
            let sensitive = b & 0x10 == 0x10;
            match spec_parse_string(bytes, 3) {
                Some((l1, name, hn)) => match spec_parse_string(bytes.skip(l1), 7) {
                    Some((l2, value, hv)) => Some((l1 + l2, name, value, sensitive, false)),
                    None => None,
                },
                None => None,
            }
        } else if b & 0x10 == 0x10 {
            // Indexed, post-base.
            match vi_decode(bytes, 4) {
                Some((l, idx)) => if idx > u32::MAX {
                    None
                } else {
                    let abs = base + idx;
                    if t.dynamic_table.valid_abs(abs) && abs < ric {
                        Some(
                            (
                                l,
                                t.dynamic_table.entry_at(abs).name@,
                                t.dynamic_table.entry_at(abs).value@,
                                false,
                                true,
                            ),
                        )
                    } else {
                        None
                    }
                },
                None => None,
            }
        } else {
            // Literal with post-base name reference.
            let sensitive = b & 0x08 == 0x08;
            match vi_decode(bytes, 3) {
                Some((l1, idx)) => if idx > u32::MAX {
                    None
                } else {
                    match spec_parse_string(bytes.skip(l1), 7) {
                        Some((l2, value, h)) => {
                            let abs = base + idx;
                            if t.dynamic_table.valid_abs(abs) && abs < ric {
                                Some(
                                    (
                                        l1 + l2,
                                        t.dynamic_table.entry_at(abs).name@,
                                        value,
                                        sensitive,
                                        true,
                                    ),
                                )
                            } else {
                                None
                            }
                        },
                        None => None,
                    }
                },
                None => None,
            }
        }
    }
}

/// What a field-line decoder hands back on success: the header and whether
/// the dynamic table was referenced, matching `spec_line` at the suffix.
pub open spec fn line_result_ok(
    t: Table,
    base: int,
    ric: nat,
    bytes: Seq<u8>,
    len: int,
    h: Header,
    refd: bool,
) -> bool {
    match spec_line(t, base, ric, bytes) {
        Some((l, name, value, sensitive, rd)) => {
            &&& len == l
            &&& h.name_bytes() == name
            &&& h.value_bytes() == value
            &&& h.sensitive == sensitive
            &&& refd == rd
            &&& 1 <= l <= bytes.len()
        },
        None => false,
    }
}

impl Decoder {
    /// Reads an Indexed field line and resolves it.
    pub fn decode_indexed(
        wire: &Vec<u8>,
        idx: usize,
        base: usize,
        required_insert_count: usize,
        table: &Table,
    ) -> (r: Result<(usize, Header, bool), QpackError>)
        requires
            table.wf(),
            idx < wire@.len(),
            wire@[idx as int] & 0x80 == 0x80,
        ensures
            match r {
                Ok((len, h, refd)) => {
                    &&& line_result_ok(
                        *table,
                        base as int,
                        required_insert_count as nat,
                        wire@.skip(idx as int),
                        len as int,
                        h,
                        refd,
                    )
                    &&& idx + len <= wire@.len()
                },
                Err(e) => {
                    &&& e == QpackError::DecompressionFailed
                    &&& spec_line(
                        *table,
                        base as int,
                        required_insert_count as nat,
                        wire@.skip(idx as int),
                    ) is None
                },
            },
    {
        proof {
            reveal(spec_line);
            assert(wire@.skip(idx as int)[0] == wire@[idx as int]);
        }
        let from_static = wire[idx] & 0x40 == 0x40;
        let (len, table_idx) = match Qnum::decode(wire, idx, 6) {
            Ok(p) => p,
            Err(e) => {
                return Err(e);
            },
        };
        if from_static {
            match table.get_header_from_static(table_idx as usize) {
                Ok(h) => Ok((len, h, false)),
                Err(e) => Err(e),
            }
        } else {
            match table.get_header_from_dynamic(base, table_idx as usize, false) {
                Ok(h) => {
                    if base - table_idx as usize - 1 >= required_insert_count {
                        return Err(QpackError::DecompressionFailed);
                    }
                    Ok((len, h, true))
                },
                Err(e) => Err(e),
            }
        }
    }

    /// Reads a Literal field line with a name reference and resolves it.
    pub fn decode_refer_name(
        wire: &Vec<u8>,
        idx: usize,
        base: usize,
        required_insert_count: usize,
        table: &Table,
    ) -> (r: Result<(usize, Header, bool), QpackError>)
        requires
            table.wf(),
            idx < wire@.len(),
            wire@[idx as int] & 0x80 == 0,
            wire@[idx as int] & 0x40 == 0x40,
        ensures
            match r {
                Ok((len, h, refd)) => {
                    &&& line_result_ok(
                        *table,
                        base as int,
                        required_insert_count as nat,
                        wire@.skip(idx as int),
                        len as int,
                        h,
                        refd,
                    )
                    &&& idx + len <= wire@.len()
                },
                Err(e) => {
                    &&& e == QpackError::DecompressionFailed
                    &&& spec_line(
                        *table,
                        base as int,
                        required_insert_count as nat,
                        wire@.skip(idx as int),
                    ) is None
                },
            },
    {
        proof {
            reveal(spec_line);
            assert(wire@.skip(idx as int)[0] == wire@[idx as int]);
        }
        let wlen = wire.len();
        let sensitive = wire[idx] & 0x20 == 0x20;
        let from_static = wire[idx] & 0x10 == 0x10;
        let (l1, table_idx) = match Qnum::decode(wire, idx, 4) {
            Ok(p) => p,
            Err(e) => {
                return Err(e);
            },
        };
        proof {
            assert(wire@.skip(idx as int).skip(l1 as int) =~= wire@.skip(idx as int + l1 as int));
        }
        let (l2, value) = match Decoder::parse_string(wire, idx + l1, 7) {
            Ok(p) => p,
            Err(e) => {
                return Err(e);
            },
        };
        let mut h = if from_static {
            match table.get_header_from_static(table_idx as usize) {
                Ok(h) => h,
                Err(e) => {
                    return Err(e);
                },
            }
        } else {
            match table.get_header_from_dynamic(base, table_idx as usize, false) {
                Ok(h) => {
                    if base - table_idx as usize - 1 >= required_insert_count {
                        return Err(QpackError::DecompressionFailed);
                    }
                    h
                },
                Err(e) => {
                    return Err(e);
                },
            }
        };
        h.set_value(value);
        h.set_sensitive(sensitive);
        Ok((l1 + l2, h, !from_static))
    }

    /// Reads a Literal field line with a literal name.
    pub fn decode_both_literal(
        wire: &Vec<u8>,
        idx: usize,
        base: usize,
        required_insert_count: usize,
        table: &Table,
    ) -> (r: Result<(usize, Header, bool), QpackError>)
        requires
            table.wf(),
            idx < wire@.len(),
            wire@[idx as int] & 0x80 == 0,
            wire@[idx as int] & 0x40 == 0,
            wire@[idx as int] & 0x20 == 0x20,
        ensures
            match r {
                Ok((len, h, refd)) => {
                    &&& line_result_ok(
                        *table,
                        base as int,
                        required_insert_count as nat,
                        wire@.skip(idx as int),
                        len as int,
                        h,
                        refd,
                    )
                    &&& idx + len <= wire@.len()
                },
                Err(e) => {
                    &&& e == QpackError::DecompressionFailed
                    &&& spec_line(
                        *table,
                        base as int,
                        required_insert_count as nat,
                        wire@.skip(idx as int),
                    ) is None
                },
            },
    {
        proof {
            reveal(spec_line);
            assert(wire@.skip(idx as int)[0] == wire@[idx as int]);
        }
        let wlen = wire.len();
        let sensitive = wire[idx] & 0x10 == 0x10;
        let (l1, name) = match Decoder::parse_string(wire, idx, 3) {
            Ok(p) => p,
            Err(e) => {
                return Err(e);
            },
        };
        proof {
            assert(wire@.skip(idx as int).skip(l1 as int) =~= wire@.skip(idx as int + l1 as int));
        }
        let (l2, value) = match Decoder::parse_string(wire, idx + l1, 7) {
            Ok(p) => p,
            Err(e) => {
                return Err(e);
            },
        };
        Ok((l1 + l2, Header::new_with_header_string(name, value, sensitive), false))
    }

    /// Reads an Indexed field line with a post-base index and resolves it.
    pub fn decode_indexed_post_base(
        wire: &Vec<u8>,
        idx: usize,
        base: usize,
        required_insert_count: usize,
        table: &Table,
    ) -> (r: Result<(usize, Header, bool), QpackError>)
        requires
            table.wf(),
            idx < wire@.len(),
            wire@[idx as int] & 0x80 == 0,
            wire@[idx as int] & 0x40 == 0,
            wire@[idx as int] & 0x20 == 0,
            wire@[idx as int] & 0x10 == 0x10,
        ensures
            match r {
                Ok((len, h, refd)) => {
                    &&& line_result_ok(
                        *table,
                        base as int,
                        required_insert_count as nat,
                        wire@.skip(idx as int),
                        len as int,
                        h,
                        refd,
                    )
                    &&& idx + len <= wire@.len()
                },
                Err(e) => {
                    &&& e == QpackError::DecompressionFailed
                    &&& spec_line(
                        *table,
                        base as int,
                        required_insert_count as nat,
                        wire@.skip(idx as int),
                    ) is None
                },
            },
    {
        proof {
            reveal(spec_line);
            assert(wire@.skip(idx as int)[0] == wire@[idx as int]);
        }
        let (len, table_idx) = match Qnum::decode(wire, idx, 4) {
            Ok(p) => p,
            Err(e) => {
                return Err(e);
            },
        };
        match table.get_header_from_dynamic(base, table_idx as usize, true) {
            Ok(h) => {
                if base + table_idx as usize >= required_insert_count {
                    return Err(QpackError::DecompressionFailed);
                }
                Ok((len, h, true))
            },
            Err(e) => Err(e),
        }
    }

    /// Reads a Literal field line with a post-base name reference and
    /// resolves it.
    pub fn decode_refer_name_post_base(
        wire: &Vec<u8>,
        idx: usize,
        base: usize,
        required_insert_count: usize,
        table: &Table,
    ) -> (r: Result<(usize, Header, bool), QpackError>)
        requires
            table.wf(),
            idx < wire@.len(),
            wire@[idx as int] & 0x80 == 0,
            wire@[idx as int] & 0x40 == 0,
            wire@[idx as int] & 0x20 == 0,
            wire@[idx as int] & 0x10 == 0,
        ensures
            match r {
                Ok((len, h, refd)) => {
                    &&& line_result_ok(
                        *table,
                        base as int,
                        required_insert_count as nat,
                        wire@.skip(idx as int),
                        len as int,
                        h,
                        refd,
                    )
                    &&& idx + len <= wire@.len()
                },
                Err(e) => {
                    &&& e == QpackError::DecompressionFailed
                    &&& spec_line(
                        *table,
                        base as int,
                        required_insert_count as nat,
                        wire@.skip(idx as int),
                    ) is None
                },
            },
    {
        proof {
            reveal(spec_line);
            assert(wire@.skip(idx as int)[0] == wire@[idx as int]);
        }
        let wlen = wire.len();
        let sensitive = wire[idx] & 0x08 == 0x08;
        let (l1, table_idx) = match Qnum::decode(wire, idx, 3) {
            Ok(p) => p,
            Err(e) => {
                return Err(e);
            },
        };
        proof {
            assert(wire@.skip(idx as int).skip(l1 as int) =~= wire@.skip(idx as int + l1 as int));
        }
        let (l2, value) = match Decoder::parse_string(wire, idx + l1, 7) {
            Ok(p) => p,
            Err(e) => {
                return Err(e);
            },
        };
        let mut h = match table.get_header_from_dynamic(base, table_idx as usize, true) {
            Ok(h) => h,
            Err(e) => {
                return Err(e);
            },
        };
        if base + table_idx as usize >= required_insert_count {
            return Err(QpackError::DecompressionFailed);
        }
        h.set_value(value);
        h.set_sensitive(sensitive);
        Ok((l1 + l2, h, true))
    }
}

/// The pending section keyed by `stream_id`, when one exists.
pub open spec fn section_for(s: Seq<(u16, usize, Vec<usize>)>, stream_id: u16) -> Option<
    (u16, usize, Vec<usize>),
>
    decreases s.len(),
{
    if s.len() == 0 {
        None
    } else if s[0].0 == stream_id {
        Some(s[0])
    } else {
        section_for(s.skip(1), stream_id)
    }
}

/// With unique stream ids, the section found by scanning is `section_for`.
pub proof fn lemma_section_for_found(s: Seq<(u16, usize, Vec<usize>)>, i: int, sid: u16)
    requires
        sids_unique(s),
        0 <= i < s.len(),
        s[i].0 == sid,
        forall|j: int| 0 <= j < i ==> (#[trigger] s[j]).0 != sid,
    ensures
        section_for(s, sid) == Some(s[i]),
    decreases i,
{
    if i == 0 {
    } else {
        assert(s.skip(1)[i - 1] == s[i]);
        assert(forall|j: int| 0 <= j < i - 1 ==> (#[trigger] s.skip(1)[j]).0 != sid);
        assert(sids_unique(s.skip(1))) by {
            assert(forall|a: int, b: int|
                0 <= a < b < s.skip(1).len() ==> (#[trigger] s.skip(1)[a]).0
                    != (#[trigger] s.skip(1)[b]).0);
        }
        lemma_section_for_found(s.skip(1), i - 1, sid);
    }
}

/// A stream id that no element carries has no section.
proof fn lemma_section_for_absent(s: Seq<(u16, usize, Vec<usize>)>, sid: u16)
    requires
        forall|j: int| 0 <= j < s.len() ==> (#[trigger] s[j]).0 != sid,
    ensures
        section_for(s, sid) is None,
    decreases s.len(),
{
    if s.len() > 0 {
        assert(forall|j: int| 0 <= j < s.skip(1).len() ==> (#[trigger] s.skip(1)[j]).0 != sid);
        lemma_section_for_absent(s.skip(1), sid);
    }
}

/// Removing one element changes `section_for` only for its own stream id.
proof fn lemma_section_for_remove(s: Seq<(u16, usize, Vec<usize>)>, i: int, removed_sid: u16)
    requires
        sids_unique(s),
        0 <= i < s.len(),
        s[i].0 == removed_sid,
        forall|j: int| 0 <= j < i ==> (#[trigger] s[j]).0 != removed_sid,
    ensures
        sids_unique(s.remove(i)),
        section_for(s.remove(i), removed_sid) is None,
        forall|sid: u16|
            sid != removed_sid ==> section_for(s.remove(i), sid) == section_for(s, sid),
    decreases s.len(),
{
    let t = s.remove(i);
    assert(sids_unique(t)) by {
        assert(forall|a: int, b: int|
            0 <= a < b < t.len() ==> (#[trigger] t[a]).0 != (#[trigger] t[b]).0) by {
            assert(forall|a: int| 0 <= a < t.len() ==> t[a] == (if a < i {
                s[a]
            } else {
                s[a + 1]
            }));
        }
    }
    assert(forall|j: int| 0 <= j < t.len() ==> (#[trigger] t[j]).0 != removed_sid) by {
        assert(forall|a: int| 0 <= a < t.len() ==> t[a] == (if a < i {
            s[a]
        } else {
            s[a + 1]
        }));
    }
    lemma_section_for_absent(t, removed_sid);
    assert forall|sid: u16| sid != removed_sid implies section_for(t, sid) == section_for(
        s,
        sid,
    ) by {
        lemma_section_for_skip_one(s, i, sid);
    }
}

/// `section_for` over a removal, for a different stream id.
proof fn lemma_section_for_skip_one(s: Seq<(u16, usize, Vec<usize>)>, i: int, sid: u16)
    requires
        0 <= i < s.len(),
        s[i].0 != sid,
    ensures
        section_for(s.remove(i), sid) == section_for(s, sid),
    decreases s.len(),
{
    if i == 0 {
        assert(s.remove(0) =~= s.skip(1));
    } else {
        if s[0].0 == sid {
            assert(s.remove(i)[0] == s[0]);
        } else {
            assert(s.remove(i)[0] == s[0]);
            assert(s.remove(i).skip(1) =~= s.skip(1).remove(i - 1));
            assert(s.skip(1)[i - 1] == s[i]);
            lemma_section_for_skip_one(s.skip(1), i - 1, sid);
        }
    }
}

/// Appending a section with another stream id leaves `section_for` alone.
proof fn lemma_section_for_push(
    s: Seq<(u16, usize, Vec<usize>)>,
    e: (u16, usize, Vec<usize>),
    sid: u16,
)
    requires
        e.0 != sid,
    ensures
        section_for(s.push(e), sid) == section_for(s, sid),
    decreases s.len(),
{
    if s.len() == 0 {
        assert(s.push(e)[0] == e);
        assert(s.push(e).skip(1) =~= Seq::<(u16, usize, Vec<usize>)>::empty());
        assert(section_for(Seq::<(u16, usize, Vec<usize>)>::empty(), sid) is None);
    } else {
        assert(s.push(e)[0] == s[0]);
        assert(s.push(e).skip(1) =~= s.skip(1).push(e));
        lemma_section_for_push(s.skip(1), e, sid);
    }
}

/// A stream id with no section occurs in no element.
proof fn lemma_section_for_none_absent(s: Seq<(u16, usize, Vec<usize>)>, sid: u16)
    requires
        section_for(s, sid) is None,
    ensures
        forall|j: int| 0 <= j < s.len() ==> (#[trigger] s[j]).0 != sid,
    decreases s.len(),
{
    if s.len() > 0 {
        lemma_section_for_none_absent(s.skip(1), sid);
        assert(forall|j: int| 1 <= j < s.len() ==> s[j] == s.skip(1)[j - 1]);
    }
}

} // verus!
