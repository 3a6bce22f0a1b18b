//! The laws the library keeps, stated on their own.
//!
//! Each proof function here restates, over the spec functions the contracts
//! already use, a property that holds of every reachable state or of every
//! encode/decode pair, and proves it from what the modules export.

use vstd::prelude::*;
use crate::codec::Qpack;
use crate::dynamic_table::evict_len;
use crate::dynamic_table::prefix_evictable;
use crate::dynamic_table::DynamicTable;
use crate::table::static_pair;
use crate::table::Table;
use crate::types::Header;
use crate::varint::vi_decode;
use crate::varint::vi_encode;
use crate::varint::vi_mask;
use crate::varint::lemma_varint_round_trip;
use crate::varint::lemma_vi_decode_flags;
use crate::wire::flag_bit;
use crate::wire::or_first;
use crate::wire::spec_parse_string;
use crate::wire::spec_string;

verus! {

/// The acknowledged prefix never exceeds the insert count, and the held
/// octets never exceed the capacity, which never exceeds the configured
/// maximum. Every table a constructor or method hands back is well-formed,
/// so these bounds hold in every reachable state.
pub proof fn lemma_table_invariants(t: DynamicTable)
    requires
        t.wf(),
    ensures
        0 <= t.known_received_count <= t.insert_count,
        t.current_size <= t.capacity <= t.max_capacity,
{
}

/// The count of suspended decoder streams never exceeds the configured
/// blocked-streams limit. Every peer a constructor or method hands back is
/// well-formed, so the bound holds in every reachable state.
pub proof fn lemma_blocked_streams_bounded(q: Qpack)
    requires
        q.wf(),
    ensures
        q.decoder.current_blocked_streams <= q.blocked_streams_limit,
{
}

/// Whenever the table may shrink to `upto` octets, every entry the eviction
/// removes has a zero outstanding count at that moment and is already
/// acknowledged: its absolute index lies below the known received count.
pub proof fn lemma_eviction_respects_references(t: DynamicTable, upto: nat)
    requires
        t.wf(),
        t.can_evict_upto(upto),
    ensures
        prefix_evictable(
            t.list@,
            t.eviction_count(),
            t.known_received_count as int,
            evict_len(t.list@, upto),
        ),
        0 <= evict_len(t.list@, upto) <= t.list@.len(),
{
    crate::dynamic_table::lemma_evict_len_bounds(t.list@, upto);
}

/// ORing flags into the first byte distributes over appending more bytes.
pub proof fn lemma_or_first_concat(a: Seq<u8>, b: Seq<u8>, flags: u8)
    requires
        a.len() > 0,
    ensures
        or_first(a, flags) + b == or_first(a + b, flags),
{
    assert(or_first(a, flags) + b =~= or_first(a + b, flags));
}

/// The first byte of a varint carries nothing above its prefix, so a flag
/// bit ORed in above the prefix reads back and the prefix still decodes.
pub proof fn lemma_varint_first_byte(v: nat, n: nat)
    requires
        1 <= n <= 7,
    ensures
        vi_encode(v, n)[0] & flag_bit(n) == 0,
        (vi_encode(v, n)[0] | flag_bit(n)) & flag_bit(n) == flag_bit(n),
{
    let b = vi_encode(v, n)[0];
    let m = vi_mask(n) as u8;
    let f = flag_bit(n);
    assert(b <= m);
    assert((b <= m && ((m == 1 && f == 2) || (m == 3 && f == 4) || (m == 7 && f == 8) || (m == 15
        && f == 16) || (m == 31 && f == 32) || (m == 63 && f == 64) || (m == 127 && f == 128)))
        ==> (b & f == 0 && ((b | f) & f) == f)) by (bit_vector);
}

/// Round trip of a literal-coded string: parsing the bytes that
/// `spec_string` lays down recovers the octets and consumes exactly those
/// bytes, whatever follows them.
pub proof fn lemma_string_round_trip(value: Seq<u8>, n: nat, rest: Seq<u8>)
    requires
        1 <= n <= 7,
        value.len() <= u32::MAX,
    ensures
        spec_parse_string(spec_string(value, false, n) + rest, n) == Some(
            (spec_string(value, false, n).len() as int, value, false),
        ),
{
    let s = spec_string(value, false, n);
    let all = s + rest;
    let vi = vi_encode(value.len(), n);
    assert(all =~= vi + (value + rest));
    lemma_varint_round_trip(value.len(), n, value + rest);
    let l = vi.len() as int;
    assert(vi_decode(all, n) == Some((l, value.len())));
    assert(all.subrange(l, l + value.len() as int) =~= value);
    assert(all[0] == vi[0]);
    lemma_varint_first_byte(value.len(), n);
    assert(all[0] & flag_bit(n) == 0);
    assert(s.len() == l + value.len());
}

/// Round trip of an Indexed field line naming a static entry: decoding the
/// bytes that encode it yields that entry's field.
pub proof fn lemma_indexed_static_round_trip(t: Table, base: int, ric: nat, idx: nat, rest: Seq<
    u8,
>)
    requires
        idx < 99,
    ensures
        crate::wire::spec_line(t, base, ric, crate::wire::indexed_bytes(idx, true) + rest)
            == Some(
            (
                crate::wire::indexed_bytes(idx, true).len() as int,
                static_pair(idx as int).0,
                static_pair(idx as int).1,
                false,
                false,
            ),
        ),
{
    reveal(crate::wire::spec_line);
    let vi = vi_encode(idx, 6);
    let all = crate::wire::indexed_bytes(idx, true) + rest;
    lemma_or_first_concat(vi, rest, 0xc0);
    assert(all =~= or_first(vi + rest, 0xc0));
    assert(0xc0u8 & 63u8 == 0) by (bit_vector);
    lemma_vi_decode_flags(vi + rest, 0xc0, 6);
    lemma_varint_round_trip(idx, 6, rest);
    let b0 = vi[0];
    assert(vi_mask(6) == 63);
    assert(b0 <= 63);
    assert((b0 <= 63) ==> ((b0 | 0xc0) & 0x80 == 0x80 && (b0 | 0xc0) & 0x40 == 0x40))
        by (bit_vector);
    assert((vi + rest)[0] == b0);
    assert(all[0] == (b0 | 0xc0));
}

/// Round trip of an Indexed field line naming a dynamic entry relative to
/// the base: decoding yields the entry's field and marks the dynamic
/// reference.
pub proof fn lemma_indexed_dynamic_round_trip(t: Table, base: int, ric: nat, rel: nat, rest: Seq<
    u8,
>)
    requires
        rel <= u32::MAX,
        t.dynamic_table.valid_abs(base - rel - 1),
        base - rel - 1 < ric,
    ensures
        crate::wire::spec_line(t, base, ric, crate::wire::indexed_bytes(rel, false) + rest)
            == Some(
            (
                crate::wire::indexed_bytes(rel, false).len() as int,
                t.dynamic_table.entry_at(base - rel - 1).name@,
                t.dynamic_table.entry_at(base - rel - 1).value@,
                false,
                true,
            ),
        ),
{
    reveal(crate::wire::spec_line);
    let vi = vi_encode(rel, 6);
    let all = crate::wire::indexed_bytes(rel, false) + rest;
    lemma_or_first_concat(vi, rest, 0x80);
    assert(all =~= or_first(vi + rest, 0x80));
    assert(0x80u8 & 63u8 == 0) by (bit_vector);
    lemma_vi_decode_flags(vi + rest, 0x80, 6);
    lemma_varint_round_trip(rel, 6, rest);
    let b0 = vi[0];
    assert(vi_mask(6) == 63);
    assert(b0 <= 63);
    assert((b0 <= 63) ==> ((b0 | 0x80) & 0x80 == 0x80 && (b0 | 0x80) & 0x40 == 0))
        by (bit_vector);
    assert((vi + rest)[0] == b0);
    assert(all[0] == (b0 | 0x80));
}

/// Round trip of an Indexed field line with a post-base index.
pub proof fn lemma_indexed_post_base_round_trip(
    t: Table,
    base: int,
    ric: nat,
    idx: nat,
    rest: Seq<u8>,
)
    requires
        idx <= u32::MAX,
        t.dynamic_table.valid_abs(base + idx),
        base + idx < ric,
    ensures
        crate::wire::spec_line(t, base, ric, crate::wire::indexed_post_base_bytes(idx) + rest)
            == Some(
            (
                crate::wire::indexed_post_base_bytes(idx).len() as int,
                t.dynamic_table.entry_at(base + idx).name@,
                t.dynamic_table.entry_at(base + idx).value@,
                false,
                true,
            ),
        ),
{
    reveal(crate::wire::spec_line);
    let vi = vi_encode(idx, 4);
    let all = crate::wire::indexed_post_base_bytes(idx) + rest;
    lemma_or_first_concat(vi, rest, 0x10);
    assert(all =~= or_first(vi + rest, 0x10));
    assert(0x10u8 & 15u8 == 0) by (bit_vector);
    lemma_vi_decode_flags(vi + rest, 0x10, 4);
    lemma_varint_round_trip(idx, 4, rest);
    let b0 = vi[0];
    assert(vi_mask(4) == 15);
    assert(b0 <= 15);
    assert((b0 <= 15) ==> ((b0 | 0x10) & 0x80 == 0 && (b0 | 0x10) & 0x40 == 0 && (b0 | 0x10)
        & 0x20 == 0 && (b0 | 0x10) & 0x10 == 0x10)) by (bit_vector);
    assert((vi + rest)[0] == b0);
    assert(all[0] == (b0 | 0x10));
}

/// Round trip of a Literal field line with a name reference and a
/// literal-coded value: decoding yields the referenced name, the value, and
/// the sensitivity bit.
#[verifier::rlimit(100)]
pub proof fn lemma_refer_name_round_trip(
    t: Table,
    base: int,
    ric: nat,
    idx: nat,
    from_static: bool,
    sensitive: bool,
    value: Seq<u8>,
    rest: Seq<u8>,
)
    requires
        idx <= u32::MAX,
        value.len() <= u32::MAX,
        from_static ==> idx < 99,
        !from_static ==> t.dynamic_table.valid_abs(base - idx - 1) && base - idx - 1 < ric,
    ensures
        crate::wire::spec_line(
            t,
            base,
            ric,
            crate::wire::refer_name_bytes(idx, from_static, sensitive, value, false) + rest,
        ) == Some(
            (
                crate::wire::refer_name_bytes(idx, from_static, sensitive, value, false).len()
                    as int,
                if from_static {
                    static_pair(idx as int).0
                } else {
                    t.dynamic_table.entry_at(base - idx - 1).name@
                },
                value,
                sensitive,
                !from_static,
            ),
        ),
{
    reveal(crate::wire::spec_line);
    let flags = crate::wire::refer_name_flags(from_static, sensitive);
    let vi = vi_encode(idx, 4);
    let s = spec_string(value, false, 7);
    let all = crate::wire::refer_name_bytes(idx, from_static, sensitive, value, false) + rest;
    lemma_or_first_concat(vi, s, flags);
    lemma_or_first_concat(vi + s, rest, flags);
    assert(all =~= or_first(vi + (s + rest), flags));
    assert(vi + (s + rest) =~= (vi + s) + rest);
    assert(0x40u8 & 15 == 0 && 0x50u8 & 15 == 0 && 0x60u8 & 15 == 0 && 0x70u8 & 15 == 0)
        by (bit_vector);
    lemma_vi_decode_flags(vi + (s + rest), flags, 4);
    lemma_varint_round_trip(idx, 4, s + rest);
    let b0 = vi[0];
    assert(vi_mask(4) == 15);
    assert(b0 <= 15);
    assert((b0 <= 15) ==> (((b0 | 0x40) & 0x80 == 0 && (b0 | 0x40) & 0x40 == 0x40 && (b0 | 0x40)
        & 0x20 == 0 && (b0 | 0x40) & 0x10 == 0) && ((b0 | 0x50) & 0x80 == 0 && (b0 | 0x50) & 0x40
        == 0x40 && (b0 | 0x50) & 0x20 == 0 && (b0 | 0x50) & 0x10 == 0x10) && ((b0 | 0x60) & 0x80
        == 0 && (b0 | 0x60) & 0x40 == 0x40 && (b0 | 0x60) & 0x20 == 0x20 && (b0 | 0x60) & 0x10
        == 0) && ((b0 | 0x70) & 0x80 == 0 && (b0 | 0x70) & 0x40 == 0x40 && (b0 | 0x70) & 0x20
        == 0x20 && (b0 | 0x70) & 0x10 == 0x10))) by (bit_vector);
    assert((vi + (s + rest))[0] == b0);
    assert(all[0] == (b0 | flags));
    let l1 = vi.len() as int;
    assert(all.skip(l1) =~= s + rest);
    lemma_string_round_trip(value, 7, rest);
}

/// Round trip of a Literal field line with a post-base name reference and a
/// literal-coded value.
#[verifier::rlimit(100)]
pub proof fn lemma_refer_name_post_base_round_trip(
    t: Table,
    base: int,
    ric: nat,
    idx: nat,
    sensitive: bool,
    value: Seq<u8>,
    rest: Seq<u8>,
)
    requires
        idx <= u32::MAX,
        value.len() <= u32::MAX,
        t.dynamic_table.valid_abs(base + idx),
        base + idx < ric,
    ensures
        crate::wire::spec_line(
            t,
            base,
            ric,
            crate::wire::refer_name_post_base_bytes(idx, sensitive, value, false) + rest,
        ) == Some(
            (
                crate::wire::refer_name_post_base_bytes(idx, sensitive, value, false).len()
                    as int,
                t.dynamic_table.entry_at(base + idx).name@,
                value,
                sensitive,
                true,
            ),
        ),
{
    reveal(crate::wire::spec_line);
    let flags: u8 = if sensitive {
        0x08
    } else {
        0
    };
    let vi = vi_encode(idx, 3);
    let s = spec_string(value, false, 7);
    let all = crate::wire::refer_name_post_base_bytes(idx, sensitive, value, false) + rest;
    lemma_or_first_concat(vi, s, flags);
    lemma_or_first_concat(vi + s, rest, flags);
    assert(all =~= or_first(vi + (s + rest), flags));
    assert(vi + (s + rest) =~= (vi + s) + rest);
    assert(0x08u8 & 7 == 0 && 0u8 & 7 == 0) by (bit_vector);
    lemma_vi_decode_flags(vi + (s + rest), flags, 3);
    lemma_varint_round_trip(idx, 3, s + rest);
    let b0 = vi[0];
    assert(vi_mask(3) == 7);
    assert(b0 <= 7);
    assert((b0 <= 7) ==> (((b0 | 0x08) & 0x80 == 0 && (b0 | 0x08) & 0x40 == 0 && (b0 | 0x08)
        & 0x20 == 0 && (b0 | 0x08) & 0x10 == 0 && (b0 | 0x08) & 0x08 == 0x08) && ((b0 | 0) & 0x80
        == 0 && (b0 | 0) & 0x40 == 0 && (b0 | 0) & 0x20 == 0 && (b0 | 0) & 0x10 == 0 && (b0 | 0)
        & 0x08 == 0))) by (bit_vector);
    assert((vi + (s + rest))[0] == b0);
    assert(all[0] == (b0 | flags));
    let l1 = vi.len() as int;
    assert(all.skip(l1) =~= s + rest);
    lemma_string_round_trip(value, 7, rest);
}

/// Round trip of a fully literal field line with literal-coded name and
/// value.
#[verifier::rlimit(100)]
pub proof fn lemma_both_literal_round_trip(
    t: Table,
    base: int,
    ric: nat,
    name: Seq<u8>,
    sensitive: bool,
    value: Seq<u8>,
    rest: Seq<u8>,
)
    requires
        name.len() <= u32::MAX,
        value.len() <= u32::MAX,
    ensures
        crate::wire::spec_line(
            t,
            base,
            ric,
            crate::wire::both_literal_bytes(name, false, sensitive, value, false) + rest,
        ) == Some(
            (
                crate::wire::both_literal_bytes(name, false, sensitive, value, false).len()
                    as int,
                name,
                value,
                sensitive,
                false,
            ),
        ),
{
    reveal(crate::wire::spec_line);
    let flags: u8 = if sensitive {
        0x30
    } else {
        0x20
    };
    let ns = spec_string(name, false, 3);
    let vs = spec_string(value, false, 7);
    let vi = vi_encode(name.len(), 3);
    let all = crate::wire::both_literal_bytes(name, false, sensitive, value, false) + rest;
    lemma_or_first_concat(ns, vs, flags);
    lemma_or_first_concat(ns + vs, rest, flags);
    assert(all =~= or_first(ns + (vs + rest), flags));
    assert(ns + (vs + rest) =~= (ns + vs) + rest);
    // The name string itself decomposes as its length prefix plus octets.
    assert(ns =~= vi + name);
    assert(ns + (vs + rest) =~= vi + (name + (vs + rest)));
    assert(0x20u8 & 7 == 0 && 0x30u8 & 7 == 0) by (bit_vector);
    lemma_vi_decode_flags(ns + (vs + rest), flags, 3);
    lemma_varint_round_trip(name.len(), 3, name + (vs + rest));
    let b0 = vi[0];
    assert(vi_mask(3) == 7);
    assert(b0 <= 7);
    assert((b0 <= 7) ==> (((b0 | 0x20) & 0x80 == 0 && (b0 | 0x20) & 0x40 == 0 && (b0 | 0x20)
        & 0x20 == 0x20 && (b0 | 0x20) & 0x10 == 0 && (b0 | 0x20) & flag_bit(3) == 0) && ((b0
        | 0x30) & 0x80 == 0 && (b0 | 0x30) & 0x40 == 0 && (b0 | 0x30) & 0x20 == 0x20 && (b0
        | 0x30) & 0x10 == 0x10 && (b0 | 0x30) & flag_bit(3) == 0))) by (bit_vector)
        requires
            flag_bit(3) == 8,
    ;
    assert((ns + (vs + rest))[0] == b0);
    assert(all[0] == (b0 | flags));
    // Parsing the name string off the modified bytes: the length prefix
    // still decodes, the Huffman flag reads zero, and the octets follow.
    let l1 = vi.len() as int;
    assert(vi_decode(all, 3) == Some((l1, name.len())));
    assert(all.subrange(l1, l1 + name.len() as int) =~= name);
    assert(crate::wire::spec_parse_string(all, 3) == Some(
        (l1 + name.len() as int, name, false),
    ));
    let nl = l1 + name.len() as int;
    assert(all.skip(nl) =~= vs + rest);
    lemma_string_round_trip(value, 7, rest);
}

/// Round trip of a whole field block, for fields whose strings are
/// literal-coded: the field lines that `encode_headers` lays down for
/// `headers`, given their find results against the tables, decode against
/// the same tables to exactly those fields — names, values and sensitivity
/// recovered, and a dynamic reference reported exactly where one was used.
///
/// Fields asking for Huffman-coded strings are not covered: the greedy
/// Huffman decode has not been proved to invert the encode.
pub proof fn lemma_block_round_trip(
    t: Table,
    headers: Seq<Header>,
    frs: Seq<(bool, bool, usize)>,
    ric: usize,
    pb: bool,
    base: usize,
)
    requires
        t.wf(),
        frs.len() == headers.len(),
        ric <= u32::MAX,
        pb ==> base < ric,
        !pb ==> base == ric,
        forall|i: int|
            0 <= i < frs.len() ==> crate::table::is_find_result(t, headers[i], #[trigger] frs[i]),
        forall|i: int|
            0 <= i < frs.len() && crate::codec::dyn_ref(#[trigger] frs[i]) ==> frs[i].2 < ric && (
            pb ==> base <= frs[i].2),
        forall|i: int|
            0 <= i < headers.len() ==> {
                &&& !(#[trigger] headers[i]).name.huffman
                &&& !headers[i].value.huffman
                &&& headers[i].name_bytes().len() <= u32::MAX
                &&& headers[i].value_bytes().len() <= u32::MAX
            },
    ensures
        ({
            let ls = crate::codec::spec_lines(
                t,
                base as int,
                ric as nat,
                crate::codec::lines_bytes(headers, frs, pb, base),
            );
            &&& ls is Some
            &&& ls->Some_0.len() == headers.len()
            &&& forall|i: int|
                0 <= i < headers.len() ==> {
                    &&& (#[trigger] ls->Some_0[i]).0 == headers[i].name_bytes()
                    &&& ls->Some_0[i].1 == headers[i].value_bytes()
                    &&& ls->Some_0[i].2 == headers[i].sensitive
                    &&& ls->Some_0[i].3 == crate::codec::dyn_ref(frs[i])
                }
        }),
    decreases headers.len(),
{
    if headers.len() == 0 {
        assert(crate::codec::lines_bytes(headers, frs, pb, base) == Seq::<u8>::empty());
        assert(crate::codec::spec_lines(t, base as int, ric as nat, Seq::<u8>::empty()) == Some(
            Seq::<(Seq<u8>, Seq<u8>, bool, bool)>::empty(),
        ));
    } else {
        let h = headers[0];
        let fr = frs[0];
        let first = crate::codec::line_bytes(h, fr, pb, base);
        let restb = crate::codec::lines_bytes(headers.skip(1), frs.skip(1), pb, base);
        assert(crate::codec::lines_bytes(headers, frs, pb, base) == first + restb);
        // The first line decodes to the first field.
        let (both, on_static, idx) = fr;
        assert(crate::table::is_find_result(t, h, fr));
        if both && !h.sensitive {
            if on_static {
                lemma_indexed_static_round_trip(t, base as int, ric as nat, idx as nat, restb);
            } else if pb {
                lemma_indexed_post_base_round_trip(
                    t,
                    base as int,
                    ric as nat,
                    (idx - base) as nat,
                    restb,
                );
            } else {
                lemma_indexed_dynamic_round_trip(
                    t,
                    base as int,
                    ric as nat,
                    (base - idx - 1) as nat,
                    restb,
                );
            }
        } else if idx != usize::MAX {
            if on_static {
                lemma_refer_name_round_trip(
                    t,
                    base as int,
                    ric as nat,
                    idx as nat,
                    true,
                    h.sensitive,
                    h.value_bytes(),
                    restb,
                );
            } else if pb {
                lemma_refer_name_post_base_round_trip(
                    t,
                    base as int,
                    ric as nat,
                    (idx - base) as nat,
                    h.sensitive,
                    h.value_bytes(),
                    restb,
                );
            } else {
                lemma_refer_name_round_trip(
                    t,
                    base as int,
                    ric as nat,
                    (base - idx - 1) as nat,
                    false,
                    h.sensitive,
                    h.value_bytes(),
                    restb,
                );
            }
        } else {
            lemma_both_literal_round_trip(
                t,
                base as int,
                ric as nat,
                h.name_bytes(),
                h.sensitive,
                h.value_bytes(),
                restb,
            );
        }
        assert(crate::wire::spec_line(t, base as int, ric as nat, first + restb) matches Some(lm)
            && lm.0 == first.len() && lm.1 == h.name_bytes() && lm.2 == h.value_bytes() && lm.3
            == h.sensitive && lm.4 == crate::codec::dyn_ref(fr));
        // The rest of the block decodes by induction.
        assert(forall|i: int|
            0 <= i < frs.skip(1).len() ==> #[trigger] frs.skip(1)[i] == frs[i + 1]);
        assert(forall|i: int|
            0 <= i < headers.skip(1).len() ==> #[trigger] headers.skip(1)[i] == headers[i + 1]);
        lemma_block_round_trip(t, headers.skip(1), frs.skip(1), ric, pb, base);
        let ls_rest = crate::codec::spec_lines(t, base as int, ric as nat, restb)->Some_0;
        // Compose: one line, then the rest.
        let all = first + restb;
        assert(all.len() > 0) by {
            assert(first.len() >= 1) by {
                lemma_line_bytes_nonempty(h, fr, pb, base);
            }
        }
        assert(all.skip(first.len() as int) =~= restb);
        let lm = crate::wire::spec_line(t, base as int, ric as nat, all)->Some_0;
        assert(crate::codec::spec_lines(t, base as int, ric as nat, all) == Some(
            seq![(lm.1, lm.2, lm.3, lm.4)] + ls_rest,
        ));
        let ls = seq![(lm.1, lm.2, lm.3, lm.4)] + ls_rest;
        assert forall|i: int| 0 <= i < headers.len() implies {
            &&& (#[trigger] ls[i]).0 == headers[i].name_bytes()
            &&& ls[i].1 == headers[i].value_bytes()
            &&& ls[i].2 == headers[i].sensitive
            &&& ls[i].3 == crate::codec::dyn_ref(frs[i])
        } by {
            if i > 0 {
                assert(ls[i] == ls_rest[i - 1]);
                assert(headers.skip(1)[i - 1] == headers[i]);
                assert(frs.skip(1)[i - 1] == frs[i]);
            }
        }
    }
}

/// Round trip of the wrapped insert count in the block prefix: a decoder
/// whose insert count has reached the block's required insert count, and
/// whose table still holds a referenced entry (so the block is at most
/// `max_entries` insertions old), recovers the required insert count
/// exactly from its encoded form.
#[verifier::rlimit(100)]
pub proof fn lemma_prefix_insert_count_round_trip(ric: nat, max_entries: nat, total: nat)
    requires
        max_entries >= 1,
        1 <= ric <= total,
        total < ric + max_entries,
    ensures
        crate::wire::spec_ric(crate::wire::spec_eic(ric, max_entries), max_entries, total)
            == Some(ric),
{
    let m = 2 * max_entries;
    let r = ric % m;
    let k = ric / m;
    let eic = crate::wire::spec_eic(ric, max_entries);
    vstd::arithmetic::div_mod::lemma_mod_bound(ric as int, m as int);
    assert(eic == r + 1);
    assert(1 <= eic <= m);
    let mv = total + max_entries;
    let q = mv / m;
    let s = mv % m;
    vstd::arithmetic::div_mod::lemma_mod_bound(mv as int, m as int);
    vstd::arithmetic::div_mod::lemma_fundamental_div_mod(mv as int, m as int);
    vstd::arithmetic::div_mod::lemma_fundamental_div_mod(ric as int, m as int);
    assert(mv == q * m + s) by (nonlinear_arith)
        requires
            mv as int == m as int * (mv as int / m as int) + mv as int % m as int,
            q == mv / m,
            s == mv % m,
    ;
    assert(ric == k * m + r) by (nonlinear_arith)
        requires
            ric as int == m as int * (ric as int / m as int) + ric as int % m as int,
            k == ric / m,
            r == ric % m,
    ;
    let max_wrapped = q * m;
    let r0 = max_wrapped + r;
    // The window: mv - m < ric <= mv, since ric <= total <= mv and
    // total < ric + max_entries gives mv < ric + m.
    assert(mv < ric + m);
    // k is q or q - 1.
    assert(k <= q) by (nonlinear_arith)
        requires
            ric == k * m + r,
            mv == q * m + s,
            ric <= mv,
            0 <= r < m,
            0 <= s < m,
            m >= 2,
    ;
    assert(k + 1 >= q) by (nonlinear_arith)
        requires
            ric == k * m + r,
            mv == q * m + s,
            mv < ric + m,
            0 <= r < m,
            0 <= s < m,
            m >= 2,
    ;
    if r0 > mv {
        // The wrapped value overshoots: the true count sits one period
        // lower.
        assert(k != q) by (nonlinear_arith)
            requires
                ric == k * m + r,
                mv == q * m + s,
                r0 == q * m + r,
                ric <= mv,
                r0 > mv,
        ;
        assert(k == q - 1);
        assert(r0 == ric + m) by (nonlinear_arith)
            requires
                ric == k * m + r,
                r0 == q * m + r,
                k == q - 1,
        ;
        assert(r0 > m);
    } else {
        assert(k == q) by (nonlinear_arith)
            requires
                ric == k * m + r,
                mv == q * m + s,
                r0 == q * m + r,
                mv < ric + m,
                r0 <= mv,
                k <= q,
                k + 1 >= q,
        ;
        assert(r0 == ric);
    }
}

/// Round trip of the whole field-block prefix: parsing the bytes that
/// `Encoder::prefix` lays down recovers the required insert count and the
/// base, at a decoder whose insert count has caught up and whose table
/// still reaches the block's references.
#[verifier::rlimit(100)]
pub proof fn lemma_prefix_bytes_round_trip(
    ric: nat,
    max_entries: nat,
    total: nat,
    s_flag: bool,
    delta: nat,
    rest: Seq<u8>,
)
    requires
        ric == 0 ==> !s_flag,
        ric >= 1 ==> max_entries >= 1 && ric <= total && total < ric + max_entries,
        ric <= total,
        crate::wire::spec_eic(ric, max_entries) <= u32::MAX,
        delta <= u32::MAX,
        s_flag ==> delta + 1 <= ric,
        !s_flag ==> ric + delta <= usize::MAX,
    ensures
        ({
            let pb = crate::wire::prefix_bytes(
                crate::wire::spec_eic(ric, max_entries),
                s_flag,
                delta,
            );
            crate::wire::spec_prefix(pb + rest, max_entries, total) == Some(
                (
                    pb.len() as int,
                    ric,
                    if s_flag {
                        (ric - delta - 1) as nat
                    } else {
                        (ric + delta) as nat
                    },
                ),
            )
        }),
{
    let eic = crate::wire::spec_eic(ric, max_entries);
    let sbit: u8 = if s_flag {
        0x80
    } else {
        0
    };
    let vi8 = vi_encode(eic, 8);
    let vi7 = vi_encode(delta, 7);
    let second = or_first(vi7, sbit);
    let pb = crate::wire::prefix_bytes(eic, s_flag, delta);
    let all = pb + rest;
    assert(all =~= vi8 + (second + rest));
    lemma_varint_round_trip(eic, 8, second + rest);
    let l1 = vi8.len() as int;
    assert(vi_decode(all, 8) == Some((l1, eic)));
    // The wrapped insert count decodes back to the required insert count.
    if ric == 0 {
        assert(eic == 0);
        assert(crate::wire::spec_ric(0, max_entries, total) == Some(0nat));
    } else {
        lemma_prefix_insert_count_round_trip(ric, max_entries, total);
    }
    // The sign bit and delta base follow.
    assert(all.skip(l1) =~= second + rest);
    lemma_or_first_concat(vi7, rest, sbit);
    assert(second + rest =~= or_first(vi7 + rest, sbit));
    assert(0x80u8 & 127u8 == 0 && 0u8 & 127u8 == 0) by (bit_vector);
    lemma_vi_decode_flags(vi7 + rest, sbit, 7);
    lemma_varint_round_trip(delta, 7, rest);
    let b0 = vi7[0];
    assert(vi_mask(7) == 127);
    assert(b0 <= 127);
    assert((b0 <= 127) ==> ((b0 | 0x80) & 0x80 == 0x80 && (b0 | 0u8) & 0x80 == 0))
        by (bit_vector);
    assert((vi7 + rest)[0] == b0);
    assert(all[l1] == (second + rest)[0]);
    assert((second + rest)[0] == (b0 | sbit));
    assert(pb.len() == l1 + vi7.len());
}

/// Every field-line representation takes at least one byte.
proof fn lemma_line_bytes_nonempty(h: Header, fr: (bool, bool, usize), pb: bool, base: usize)
    ensures
        crate::codec::line_bytes(h, fr, pb, base).len() >= 1,
{
}

} // verus!
