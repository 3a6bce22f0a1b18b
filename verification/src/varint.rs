//! QPACK prefix-coded integers.
//!
//! A value is written into the low `n` bits of the first byte; a value that
//! does not fit stores all-ones there and continues in little-endian base-128
//! groups, the high bit set on every group but the last.

use vstd::prelude::*;
use crate::types::QpackError;

verus! {

/// The all-ones prefix of width `n`: `2^n - 1`.
pub open spec fn vi_mask(n: nat) -> nat
    recommends
        1 <= n <= 8,
{
    if n == 1 {
        1
    } else if n == 2 {
        3
    } else if n == 3 {
        7
    } else if n == 4 {
        15
    } else if n == 5 {
        31
    } else if n == 6 {
        63
    } else if n == 7 {
        127
    } else {
        255
    }
}

/// The continuation bytes that carry `v`: little-endian base-128 groups,
/// high bit set on all but the last.
pub open spec fn vi_tail(v: nat) -> Seq<u8>
    decreases v,
{
    if v < 128 {
        seq![v as u8]
    } else {
        seq![(v % 128 + 128) as u8] + vi_tail(v / 128)
    }
}

/// The bytes of `v` under an `n`-bit prefix, as produced by `Qnum::encode`.
/// Bits above the prefix of the first byte are zero.
pub open spec fn vi_encode(v: nat, n: nat) -> Seq<u8>
    recommends
        1 <= n <= 8,
{
    if v < vi_mask(n) {
        seq![v as u8]
    } else {
        seq![vi_mask(n) as u8] + vi_tail((v - vi_mask(n)) as nat)
    }
}

/// Decode of a continuation-byte sequence: the number of bytes consumed and
/// the value carried, or `None` when the sequence runs past its end.
pub open spec fn vi_decode_tail(bytes: Seq<u8>) -> Option<(int, nat)>
    decreases bytes.len(),
{
    if bytes.len() == 0 {
        None
    } else {
        let b = bytes[0];
        if b < 128 {
            Some((1, b as nat))
        } else {
            match vi_decode_tail(bytes.skip(1)) {
                Some((l, v)) => Some((l + 1, ((b - 128) + 128 * v) as nat)),
                None => None,
            }
        }
    }
}

/// Decode of a prefix-coded integer that starts at the first byte of
/// `bytes`, masking everything above the low `n` bits of that byte.
pub open spec fn vi_decode(bytes: Seq<u8>, n: nat) -> Option<(int, nat)>
    recommends
        1 <= n <= 8,
{
    if bytes.len() == 0 {
        None
    } else {
        let first = (bytes[0] & (vi_mask(n) as u8)) as nat;
        if first < vi_mask(n) {
            Some((1, first))
        } else {
            match vi_decode_tail(bytes.skip(1)) {
                Some((l, v)) => Some((l + 1, vi_mask(n) + v)),
                None => None,
            }
        }
    }
}

/// `128^k`, the weight of the `k`-th continuation byte.
pub open spec fn p128(k: nat) -> nat
    decreases k,
{
    if k == 0 {
        1
    } else {
        128 * p128((k - 1) as nat)
    }
}

/// Decoding the continuation bytes of `v` recovers `v` exactly, whatever
/// follows them.
pub proof fn lemma_vi_tail_round_trip(v: nat, rest: Seq<u8>)
    ensures
        vi_decode_tail(vi_tail(v) + rest) == Some((vi_tail(v).len() as int, v)),
    decreases v,
{
    if v < 128 {
        let all = vi_tail(v) + rest;
        assert(all[0] == v as u8);
        assert(all[0] < 128);
    } else {
        let b0 = (v % 128 + 128) as u8;
        let all = vi_tail(v) + rest;
        assert(all[0] == b0);
        assert(v % 128 + 128 < 256);
        assert(b0 >= 128);
        assert(all.skip(1) =~= vi_tail(v / 128) + rest);
        lemma_vi_tail_round_trip(v / 128, rest);
        assert((b0 - 128) + 128 * (v / 128) == v % 128 + 128 * (v / 128));
        assert(v % 128 + 128 * (v / 128) == v) by (nonlinear_arith);
        assert(vi_tail(v).len() == 1 + vi_tail(v / 128).len());
    }
}

/// Round trip of the prefix-integer coding: decoding the bytes that encode
/// `v` under an `n`-bit prefix yields `v` back and consumes exactly those
/// bytes, whatever follows them.
pub proof fn lemma_varint_round_trip(v: nat, n: nat, rest: Seq<u8>)
    requires
        1 <= n <= 8,
    ensures
        vi_decode(vi_encode(v, n) + rest, n) == Some((vi_encode(v, n).len() as int, v)),
{
    let m = vi_mask(n) as u8;
    if v < vi_mask(n) {
        let all = vi_encode(v, n) + rest;
        assert(all[0] == v as u8);
        let b = v as u8;
        assert((b <= m && (m == 1 || m == 3 || m == 7 || m == 15 || m == 31 || m == 63 || m == 127
            || m == 255)) ==> (b & m) == b) by (bit_vector);
        assert((all[0] & m) as nat == v);
    } else {
        let all = vi_encode(v, n) + rest;
        assert(all[0] == m);
        assert((m & m) == m) by (bit_vector);
        let tail_v = (v - vi_mask(n)) as nat;
        assert(all.skip(1) =~= vi_tail(tail_v) + rest);
        lemma_vi_tail_round_trip(tail_v, rest);
        assert(vi_encode(v, n).len() == 1 + vi_tail(tail_v).len());
    }
}

/// A prefix integer ignores bits set above the prefix in its first byte, so
/// opcode and flag bits may be ORed in after encoding.
pub proof fn lemma_vi_decode_flags(bytes: Seq<u8>, flags: u8, n: nat)
    requires
        1 <= n <= 8,
        bytes.len() > 0,
        flags & (vi_mask(n) as u8) == 0,
    ensures
        vi_decode(bytes.update(0, bytes[0] | flags), n) == vi_decode(bytes, n),
{
    let m = vi_mask(n) as u8;
    let b = bytes[0];
    assert((flags & m) == 0 ==> ((b | flags) & m) == (b & m)) by (bit_vector);
    let updated = bytes.update(0, b | flags);
    assert(updated.skip(1) =~= bytes.skip(1));
}

/// Prefix-coded integer encode and decode.
pub struct Qnum;

impl Qnum {
    /// Appends `val` under an `n`-bit prefix; returns how many bytes were
    /// appended. Bits above the prefix of the first byte are left zero.
    pub fn encode(encoded: &mut Vec<u8>, val: u32, n: u8) -> (len: usize)
        requires
            1 <= n <= 8,
        ensures
            final(encoded)@ == old(encoded)@ + vi_encode(val as nat, n as nat),
            len == vi_encode(val as nat, n as nat).len(),
            1 <= len <= final(encoded)@.len(),
    {
        let ghost orig = encoded@;
        let mask: u8 = if n == 1 {
            1
        } else if n == 2 {
            3
        } else if n == 3 {
            7
        } else if n == 4 {
            15
        } else if n == 5 {
            31
        } else if n == 6 {
            63
        } else if n == 7 {
            127
        } else {
            255
        };
        assert(mask as nat == vi_mask(n as nat));
        if val < mask as u32 {
            encoded.push(val as u8);
            assert(encoded@ =~= orig + vi_encode(val as nat, n as nat));
            return 1;
        }
        encoded.push(mask);
        let start = encoded.len();
        let mut v = val - mask as u32;
        assert(encoded@ + vi_tail(v as nat) =~= orig + vi_encode(val as nat, n as nat));
        while v >= 128
            invariant
                1 <= start <= encoded@.len(),
                encoded@ + vi_tail(v as nat) =~= orig + vi_encode(val as nat, n as nat),
            decreases v,
        {
            let ghost pre = encoded@;
            encoded.push((v % 128 + 128) as u8);
            assert(encoded@ + vi_tail((v / 128) as nat) =~= pre + vi_tail(v as nat));
            v = v / 128;
        }
        let ghost pre = encoded@;
        encoded.push(v as u8);
        assert(encoded@ =~= pre + vi_tail(v as nat));
        assert(encoded@ =~= orig + vi_encode(val as nat, n as nat));
        encoded.len() - (start - 1)
    }

    /// Reads a prefix-coded integer starting at `idx`. Returns the number of
    /// bytes consumed and the value; fails with `DecompressionFailed` when
    /// the continuation runs past the end of the buffer or the value does
    /// not fit in a `u32`.
    pub fn decode(encoded: &Vec<u8>, idx: usize, n: u8) -> (r: Result<(usize, u32), QpackError>)
        requires
            1 <= n <= 8,
            idx <= encoded@.len(),
        ensures
            match r {
                Ok((len, val)) => {
                    &&& vi_decode(encoded@.skip(idx as int), n as nat) == Some(
                        (len as int, val as nat),
                    )
                    &&& 1 <= len
                    &&& idx + len <= encoded@.len()
                },
                Err(e) => {
                    &&& e == QpackError::DecompressionFailed
                    &&& match vi_decode(encoded@.skip(idx as int), n as nat) {
                        Some((l, v)) => v > u32::MAX,
                        None => true,
                    }
                },
            },
    {
        let ghost whole = encoded@.skip(idx as int);
        if idx == encoded.len() {
            return Err(QpackError::DecompressionFailed);
        }
        let mask: u8 = if n == 1 {
            1
        } else if n == 2 {
            3
        } else if n == 3 {
            7
        } else if n == 4 {
            15
        } else if n == 5 {
            31
        } else if n == 6 {
            63
        } else if n == 7 {
            127
        } else {
            255
        };
        assert(mask as nat == vi_mask(n as nat));
        let b0 = encoded[idx];
        let first = b0 & mask;
        assert(whole[0] == b0);
        if first < mask {
            return Ok((1, first as u32));
        }
        // All-ones prefix: continuation bytes follow.
        let ghost tail = encoded@.skip(idx as int + 1);
        assert(whole.skip(1) =~= tail);
        let mut i: usize = idx + 1;
        let mut total: u64 = mask as u64;
        let mut mult: u64 = 1;
        let mut done: usize = 0;
        let ghost mut gm: nat = 1;
        let ghost mut acc: nat = 0;
        proof {
            assert(tail.skip(0) =~= tail);
        }
        loop
            invariant
                1 <= n <= 8,
                idx < encoded@.len(),
                idx + 1 + done == i <= encoded@.len(),
                tail == encoded@.skip(idx as int + 1),
                whole == encoded@.skip(idx as int),
                mask as nat == vi_mask(n as nat),
                vi_decode(whole, n as nat) == match vi_decode_tail(tail) {
                    Some((l, v)) => Some((l + 1, (vi_mask(n as nat) + v) as nat)),
                    None => None::<(int, nat)>,
                },
                gm == p128(done as nat),
                done <= 4 ==> mult == gm,
                done >= 5 ==> gm > u32::MAX,
                total == vi_mask(n as nat) + acc,
                total <= u32::MAX,
                match vi_decode_tail(tail.skip(done as int)) {
                    Some((l, v)) => vi_decode_tail(tail) == Some(
                        ((done + l) as int, (acc + gm * v) as nat),
                    ),
                    None => vi_decode_tail(tail) is None,
                },
            decreases encoded@.len() - i,
        {
            if i == encoded.len() {
                assert(tail.skip(done as int).len() == 0);
                return Err(QpackError::DecompressionFailed);
            }
            let b = encoded[i];
            let low = b & 0x7f;
            let ghost rem = tail.skip(done as int);
            assert(rem[0] == b);
            assert(rem.skip(1) =~= tail.skip(done as int + 1));
            assert((b < 128 ==> low == b) && (b >= 128 ==> low as int == b - 128) && low <= 127)
                by (bit_vector)
                requires
                    low == b & 0x7f,
            ;
            // The value the remaining groups carry, when they are complete.
            let ghost rem_val: nat = match vi_decode_tail(rem) {
                Some((l, v)) => v,
                None => 0,
            };
            proof {
                if vi_decode_tail(rem) is Some {
                    if b >= 128 {
                        match vi_decode_tail(rem.skip(1)) {
                            Some((l2, v2)) => {
                                assert(rem_val == (low + 128 * v2) as nat);
                                assert(rem_val >= low);
                            },
                            None => {},
                        }
                    } else {
                        assert(rem_val == low as nat);
                    }
                }
            }
            let ghost old_acc = acc;
            if done <= 4 {
                proof {
                    lemma_p128_small(done as nat);
                    assert((low as u64) * mult <= 127 * 0x10000000) by (nonlinear_arith)
                        requires
                            low <= 127,
                            mult <= 0x10000000,
                    ;
                }
                total = total + (low as u64) * mult;
                proof {
                    acc = acc + (low as nat) * gm;
                }
                if total > 0xffff_ffff {
                    proof {
                        assert(mult as nat == gm);
                        assert(((low as u64) * mult) as nat == (low as nat) * gm)
                            by (nonlinear_arith)
                            requires
                                mult as nat == gm,
                                (low as u64) * mult <= 127 * 0x10000000,
                        ;
                        assert(total as nat == vi_mask(n as nat) + old_acc + (low as nat) * gm);
                        if vi_decode_tail(rem) is Some {
                            assert(gm * rem_val >= gm * (low as nat)) by (nonlinear_arith)
                                requires
                                    rem_val >= low as nat,
                                    gm >= 0,
                            ;
                            assert((low as nat) * gm == gm * (low as nat)) by (nonlinear_arith);
                            let (l, v) = vi_decode_tail(rem)->Some_0;
                            assert(v == rem_val);
                            assert(vi_decode_tail(tail) == Some(
                                ((done + l) as int, (old_acc + gm * v) as nat),
                            ));
                            assert(vi_mask(n as nat) + old_acc + gm * rem_val > u32::MAX);
                        }
                    }
                    return Err(QpackError::DecompressionFailed);
                }
            } else {
                if low != 0 {
                    proof {
                        if vi_decode_tail(rem) is Some {
                            assert(rem_val >= low);
                            assert(gm * rem_val >= gm * 1) by (nonlinear_arith)
                                requires
                                    rem_val >= 1,
                                    gm >= 0,
                            ;
                            let (l, v) = vi_decode_tail(rem)->Some_0;
                            assert(v == rem_val);
                            assert(vi_decode_tail(tail) == Some(
                                ((done + l) as int, (acc + gm * v) as nat),
                            ));
                            assert(gm > u32::MAX);
                        }
                    }
                    return Err(QpackError::DecompressionFailed);
                }
            }
            if b < 128 {
                // Final group: this byte closes the integer.
                proof {
                    assert(vi_decode_tail(rem) == Some((1int, low as nat)));
                    assert(acc == old_acc + (low as nat) * gm || (low == 0 && acc == old_acc));
                    assert(vi_decode_tail(tail) == Some(
                        ((done + 1) as int, (old_acc + gm * (low as nat)) as nat),
                    ));
                    assert(gm * (low as nat) == (low as nat) * gm) by (nonlinear_arith);
                }
                return Ok((i + 1 - idx, total as u32));
            }
            i = i + 1;
            done = done + 1;
            proof {
                let prev_gm = gm;
                gm = 128 * gm;
                assert(gm == p128(done as nat));
                if done >= 6 {
                    assert(gm > u32::MAX) by (nonlinear_arith)
                        requires
                            gm == 128 * prev_gm,
                            prev_gm > u32::MAX,
                    ;
                }
                if done == 5 {
                    lemma_p128_small(4);
                    assert(prev_gm == 0x10000000);
                }
                // Re-establish the decomposition for the next group.
                match vi_decode_tail(tail.skip(done as int)) {
                    Some((l2, v2)) => {
                        assert(vi_decode_tail(rem) == Some(
                            (l2 + 1, ((low as nat) + 128 * v2) as nat),
                        ));
                        assert(vi_decode_tail(tail) == Some(
                            (
                                ((done - 1) + (l2 + 1)) as int,
                                (old_acc + prev_gm * ((low as nat) + 128 * v2)) as nat,
                            ),
                        ));
                        assert(old_acc + prev_gm * ((low as nat) + 128 * v2) == (old_acc
                            + (low as nat) * prev_gm) + (128 * prev_gm) * v2) by (nonlinear_arith);
                        assert(acc == old_acc + (low as nat) * prev_gm || (low == 0 && acc
                            == old_acc));
                    },
                    None => {
                        assert(vi_decode_tail(rem) is None);
                    },
                }
            }
            if done <= 4 {
                mult = mult * 128;
                proof {
                    lemma_p128_small(done as nat);
                }
            }
        }
    }
}

/// `p128` of the first few exponents.
proof fn lemma_p128_small(k: nat)
    requires
        k <= 5,
    ensures
        k == 0 ==> p128(k) == 1,
        k == 1 ==> p128(k) == 128,
        k == 2 ==> p128(k) == 0x4000,
        k == 3 ==> p128(k) == 0x200000,
        k == 4 ==> p128(k) == 0x10000000,
        k == 5 ==> p128(k) == 0x800000000,
    decreases k,
{
    if k >= 1 {
        lemma_p128_small((k - 1) as nat);
    }
}

} // verus!
