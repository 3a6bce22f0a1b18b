//! The canonical static Huffman alphabet of HPACK, reused verbatim by QPACK:
//! 256 octet symbols plus an end-of-string symbol, each with a code of 5 to
//! 30 bits. Encoding packs code bits most significant bit first and pads the
//! final byte with ones (a prefix of the end-of-string code); decoding walks
//! the bit string greedily, emitting a symbol at the shortest matching code.

use vstd::prelude::*;
use vstd::arithmetic::power2::pow2;
use vstd::arithmetic::power2::lemma2_to64;
use vstd::arithmetic::power2::lemma_pow2_adds;
use vstd::arithmetic::power2::lemma_pow2_strictly_increases;
use vstd::arithmetic::power2::lemma_pow2_pos;
use vstd::arithmetic::div_mod::lemma_div_denominator;
use vstd::bits::lemma_u32_shr_is_div;
use crate::types::QpackError;

verus! {

/// The `(code, bit length)` pair of a symbol; 0 to 255 are the octets and
/// 256 is the end-of-string symbol.
pub open spec fn huff_code(sym: nat) -> (u32, u8) {
    if sym == 0 {
        (0x1ff8u32, 13u8)
    } else if sym == 1 {
        (0x7fffd8u32, 23u8)
    } else if sym == 2 {
        (0xfffffe2u32, 28u8)
    } else if sym == 3 {
        (0xfffffe3u32, 28u8)
    } else if sym == 4 {
        (0xfffffe4u32, 28u8)
    } else if sym == 5 {
        (0xfffffe5u32, 28u8)
    } else if sym == 6 {
        (0xfffffe6u32, 28u8)
    } else if sym == 7 {
        (0xfffffe7u32, 28u8)
    } else if sym == 8 {
        (0xfffffe8u32, 28u8)
    } else if sym == 9 {
        (0xffffeau32, 24u8)
    } else if sym == 10 {
        (0x3ffffffcu32, 30u8)
    } else if sym == 11 {
        (0xfffffe9u32, 28u8)
    } else if sym == 12 {
        (0xfffffeau32, 28u8)
    } else if sym == 13 {
        (0x3ffffffdu32, 30u8)
    } else if sym == 14 {
        (0xfffffebu32, 28u8)
    } else if sym == 15 {
        (0xfffffecu32, 28u8)
    } else if sym == 16 {
        (0xfffffedu32, 28u8)
    } else if sym == 17 {
        (0xfffffeeu32, 28u8)
    } else if sym == 18 {
        (0xfffffefu32, 28u8)
    } else if sym == 19 {
        (0xffffff0u32, 28u8)
    } else if sym == 20 {
        (0xffffff1u32, 28u8)
    } else if sym == 21 {
        (0xffffff2u32, 28u8)
    } else if sym == 22 {
        (0x3ffffffeu32, 30u8)
    } else if sym == 23 {
        (0xffffff3u32, 28u8)
    } else if sym == 24 {
        (0xffffff4u32, 28u8)
    } else if sym == 25 {
        (0xffffff5u32, 28u8)
    } else if sym == 26 {
        (0xffffff6u32, 28u8)
    } else if sym == 27 {
        (0xffffff7u32, 28u8)
    } else if sym == 28 {
        (0xffffff8u32, 28u8)
    } else if sym == 29 {
        (0xffffff9u32, 28u8)
    } else if sym == 30 {
        (0xffffffau32, 28u8)
    } else if sym == 31 {
        (0xffffffbu32, 28u8)
    } else if sym == 32 {
        (0x14u32, 6u8)
    } else if sym == 33 {
        (0x3f8u32, 10u8)
    } else if sym == 34 {
        (0x3f9u32, 10u8)
    } else if sym == 35 {
        (0xffau32, 12u8)
    } else if sym == 36 {
        (0x1ff9u32, 13u8)
    } else if sym == 37 {
        (0x15u32, 6u8)
    } else if sym == 38 {
        (0xf8u32, 8u8)
    } else if sym == 39 {
        (0x7fau32, 11u8)
    } else if sym == 40 {
        (0x3fau32, 10u8)
    } else if sym == 41 {
        (0x3fbu32, 10u8)
    } else if sym == 42 {
        (0xf9u32, 8u8)
    } else if sym == 43 {
        (0x7fbu32, 11u8)
    } else if sym == 44 {
        (0xfau32, 8u8)
    } else if sym == 45 {
        (0x16u32, 6u8)
    } else if sym == 46 {
        (0x17u32, 6u8)
    } else if sym == 47 {
        (0x18u32, 6u8)
    } else if sym == 48 {
        (0x0u32, 5u8)
    } else if sym == 49 {
        (0x1u32, 5u8)
    } else if sym == 50 {
        (0x2u32, 5u8)
    } else if sym == 51 {
        (0x19u32, 6u8)
    } else if sym == 52 {
        (0x1au32, 6u8)
    } else if sym == 53 {
        (0x1bu32, 6u8)
    } else if sym == 54 {
        (0x1cu32, 6u8)
    } else if sym == 55 {
        (0x1du32, 6u8)
    } else if sym == 56 {
        (0x1eu32, 6u8)
    } else if sym == 57 {
        (0x1fu32, 6u8)
    } else if sym == 58 {
        (0x5cu32, 7u8)
    } else if sym == 59 {
        (0xfbu32, 8u8)
    } else if sym == 60 {
        (0x7ffcu32, 15u8)
    } else if sym == 61 {
        (0x20u32, 6u8)
    } else if sym == 62 {
        (0xffbu32, 12u8)
    } else if sym == 63 {
        (0x3fcu32, 10u8)
    } else if sym == 64 {
        (0x1ffau32, 13u8)
    } else if sym == 65 {
        (0x21u32, 6u8)
    } else if sym == 66 {
        (0x5du32, 7u8)
    } else if sym == 67 {
        (0x5eu32, 7u8)
    } else if sym == 68 {
        (0x5fu32, 7u8)
    } else if sym == 69 {
        (0x60u32, 7u8)
    } else if sym == 70 {
        (0x61u32, 7u8)
    } else if sym == 71 {
        (0x62u32, 7u8)
    } else if sym == 72 {
        (0x63u32, 7u8)
    } else if sym == 73 {
        (0x64u32, 7u8)
    } else if sym == 74 {
        (0x65u32, 7u8)
    } else if sym == 75 {
        (0x66u32, 7u8)
    } else if sym == 76 {
        (0x67u32, 7u8)
    } else if sym == 77 {
        (0x68u32, 7u8)
    } else if sym == 78 {
        (0x69u32, 7u8)
    } else if sym == 79 {
        (0x6au32, 7u8)
    } else if sym == 80 {
        (0x6bu32, 7u8)
    } else if sym == 81 {
        (0x6cu32, 7u8)
    } else if sym == 82 {
        (0x6du32, 7u8)
    } else if sym == 83 {
        (0x6eu32, 7u8)
    } else if sym == 84 {
        (0x6fu32, 7u8)
    } else if sym == 85 {
        (0x70u32, 7u8)
    } else if sym == 86 {
        (0x71u32, 7u8)
    } else if sym == 87 {
        (0x72u32, 7u8)
    } else if sym == 88 {
        (0xfcu32, 8u8)
    } else if sym == 89 {
        (0x73u32, 7u8)
    } else if sym == 90 {
        (0xfdu32, 8u8)
    } else if sym == 91 {
        (0x1ffbu32, 13u8)
    } else if sym == 92 {
        (0x7fff0u32, 19u8)
    } else if sym == 93 {
        (0x1ffcu32, 13u8)
    } else if sym == 94 {
        (0x3ffcu32, 14u8)
    } else if sym == 95 {
        (0x22u32, 6u8)
    } else if sym == 96 {
        (0x7ffdu32, 15u8)
    } else if sym == 97 {
        (0x3u32, 5u8)
    } else if sym == 98 {
        (0x23u32, 6u8)
    } else if sym == 99 {
        (0x4u32, 5u8)
    } else if sym == 100 {
        (0x24u32, 6u8)
    } else if sym == 101 {
        (0x5u32, 5u8)
    } else if sym == 102 {
        (0x25u32, 6u8)
    } else if sym == 103 {
        (0x26u32, 6u8)
    } else if sym == 104 {
        (0x27u32, 6u8)
    } else if sym == 105 {
        (0x6u32, 5u8)
    } else if sym == 106 {
        (0x74u32, 7u8)
    } else if sym == 107 {
        (0x75u32, 7u8)
    } else if sym == 108 {
        (0x28u32, 6u8)
    } else if sym == 109 {
        (0x29u32, 6u8)
    } else if sym == 110 {
        (0x2au32, 6u8)
    } else if sym == 111 {
        (0x7u32, 5u8)
    } else if sym == 112 {
        (0x2bu32, 6u8)
    } else if sym == 113 {
        (0x76u32, 7u8)
    } else if sym == 114 {
        (0x2cu32, 6u8)
    } else if sym == 115 {
        (0x8u32, 5u8)
    } else if sym == 116 {
        (0x9u32, 5u8)
    } else if sym == 117 {
        (0x2du32, 6u8)
    } else if sym == 118 {
        (0x77u32, 7u8)
    } else if sym == 119 {
        (0x78u32, 7u8)
    } else if sym == 120 {
        (0x79u32, 7u8)
    } else if sym == 121 {
        (0x7au32, 7u8)
    } else if sym == 122 {
        (0x7bu32, 7u8)
    } else if sym == 123 {
        (0x7ffeu32, 15u8)
    } else if sym == 124 {
        (0x7fcu32, 11u8)
    } else if sym == 125 {
        (0x3ffdu32, 14u8)
    } else if sym == 126 {
        (0x1ffdu32, 13u8)
    } else if sym == 127 {
        (0xffffffcu32, 28u8)
    } else if sym == 128 {
        (0xfffe6u32, 20u8)
    } else if sym == 129 {
        (0x3fffd2u32, 22u8)
    } else if sym == 130 {
        (0xfffe7u32, 20u8)
    } else if sym == 131 {
        (0xfffe8u32, 20u8)
    } else if sym == 132 {
        (0x3fffd3u32, 22u8)
    } else if sym == 133 {
        (0x3fffd4u32, 22u8)
    } else if sym == 134 {
        (0x3fffd5u32, 22u8)
    } else if sym == 135 {
        (0x7fffd9u32, 23u8)
    } else if sym == 136 {
        (0x3fffd6u32, 22u8)
    } else if sym == 137 {
        (0x7fffdau32, 23u8)
    } else if sym == 138 {
        (0x7fffdbu32, 23u8)
    } else if sym == 139 {
        (0x7fffdcu32, 23u8)
    } else if sym == 140 {
        (0x7fffddu32, 23u8)
    } else if sym == 141 {
        (0x7fffdeu32, 23u8)
    } else if sym == 142 {
        (0xffffebu32, 24u8)
    } else if sym == 143 {
        (0x7fffdfu32, 23u8)
    } else if sym == 144 {
        (0xffffecu32, 24u8)
    } else if sym == 145 {
        (0xffffedu32, 24u8)
    } else if sym == 146 {
        (0x3fffd7u32, 22u8)
    } else if sym == 147 {
        (0x7fffe0u32, 23u8)
    } else if sym == 148 {
        (0xffffeeu32, 24u8)
    } else if sym == 149 {
        (0x7fffe1u32, 23u8)
    } else if sym == 150 {
        (0x7fffe2u32, 23u8)
    } else if sym == 151 {
        (0x7fffe3u32, 23u8)
    } else if sym == 152 {
        (0x7fffe4u32, 23u8)
    } else if sym == 153 {
        (0x1fffdcu32, 21u8)
    } else if sym == 154 {
        (0x3fffd8u32, 22u8)
    } else if sym == 155 {
        (0x7fffe5u32, 23u8)
    } else if sym == 156 {
        (0x3fffd9u32, 22u8)
    } else if sym == 157 {
        (0x7fffe6u32, 23u8)
    } else if sym == 158 {
        (0x7fffe7u32, 23u8)
    } else if sym == 159 {
        (0xffffefu32, 24u8)
    } else if sym == 160 {
        (0x3fffdau32, 22u8)
    } else if sym == 161 {
        (0x1fffddu32, 21u8)
    } else if sym == 162 {
        (0xfffe9u32, 20u8)
    } else if sym == 163 {
        (0x3fffdbu32, 22u8)
    } else if sym == 164 {
        (0x3fffdcu32, 22u8)
    } else if sym == 165 {
        (0x7fffe8u32, 23u8)
    } else if sym == 166 {
        (0x7fffe9u32, 23u8)
    } else if sym == 167 {
        (0x1fffdeu32, 21u8)
    } else if sym == 168 {
        (0x7fffeau32, 23u8)
    } else if sym == 169 {
        (0x3fffddu32, 22u8)
    } else if sym == 170 {
        (0x3fffdeu32, 22u8)
    } else if sym == 171 {
        (0xfffff0u32, 24u8)
    } else if sym == 172 {
        (0x1fffdfu32, 21u8)
    } else if sym == 173 {
        (0x3fffdfu32, 22u8)
    } else if sym == 174 {
        (0x7fffebu32, 23u8)
    } else if sym == 175 {
        (0x7fffecu32, 23u8)
    } else if sym == 176 {
        (0x1fffe0u32, 21u8)
    } else if sym == 177 {
        (0x1fffe1u32, 21u8)
    } else if sym == 178 {
        (0x3fffe0u32, 22u8)
    } else if sym == 179 {
        (0x1fffe2u32, 21u8)
    } else if sym == 180 {
        (0x7fffedu32, 23u8)
    } else if sym == 181 {
        (0x3fffe1u32, 22u8)
    } else if sym == 182 {
        (0x7fffeeu32, 23u8)
    } else if sym == 183 {
        (0x7fffefu32, 23u8)
    } else if sym == 184 {
        (0xfffeau32, 20u8)
    } else if sym == 185 {
        (0x3fffe2u32, 22u8)
    } else if sym == 186 {
        (0x3fffe3u32, 22u8)
    } else if sym == 187 {
        (0x3fffe4u32, 22u8)
    } else if sym == 188 {
        (0x7ffff0u32, 23u8)
    } else if sym == 189 {
        (0x3fffe5u32, 22u8)
    } else if sym == 190 {
        (0x3fffe6u32, 22u8)
    } else if sym == 191 {
        (0x7ffff1u32, 23u8)
    } else if sym == 192 {
        (0x3ffffe0u32, 26u8)
    } else if sym == 193 {
        (0x3ffffe1u32, 26u8)
    } else if sym == 194 {
        (0xfffebu32, 20u8)
    } else if sym == 195 {
        (0x7fff1u32, 19u8)
    } else if sym == 196 {
        (0x3fffe7u32, 22u8)
    } else if sym == 197 {
        (0x7ffff2u32, 23u8)
    } else if sym == 198 {
        (0x3fffe8u32, 22u8)
    } else if sym == 199 {
        (0x1ffffecu32, 25u8)
    } else if sym == 200 {
        (0x3ffffe2u32, 26u8)
    } else if sym == 201 {
        (0x3ffffe3u32, 26u8)
    } else if sym == 202 {
        (0x3ffffe4u32, 26u8)
    } else if sym == 203 {
        (0x7ffffdeu32, 27u8)
    } else if sym == 204 {
        (0x7ffffdfu32, 27u8)
    } else if sym == 205 {
        (0x3ffffe5u32, 26u8)
    } else if sym == 206 {
        (0xfffff1u32, 24u8)
    } else if sym == 207 {
        (0x1ffffedu32, 25u8)
    } else if sym == 208 {
        (0x7fff2u32, 19u8)
    } else if sym == 209 {
        (0x1fffe3u32, 21u8)
    } else if sym == 210 {
        (0x3ffffe6u32, 26u8)
    } else if sym == 211 {
        (0x7ffffe0u32, 27u8)
    } else if sym == 212 {
        (0x7ffffe1u32, 27u8)
    } else if sym == 213 {
        (0x3ffffe7u32, 26u8)
    } else if sym == 214 {
        (0x7ffffe2u32, 27u8)
    } else if sym == 215 {
        (0xfffff2u32, 24u8)
    } else if sym == 216 {
        (0x1fffe4u32, 21u8)
    } else if sym == 217 {
        (0x1fffe5u32, 21u8)
    } else if sym == 218 {
        (0x3ffffe8u32, 26u8)
    } else if sym == 219 {
        (0x3ffffe9u32, 26u8)
    } else if sym == 220 {
        (0xffffffdu32, 28u8)
    } else if sym == 221 {
        (0x7ffffe3u32, 27u8)
    } else if sym == 222 {
        (0x7ffffe4u32, 27u8)
    } else if sym == 223 {
        (0x7ffffe5u32, 27u8)
    } else if sym == 224 {
        (0xfffecu32, 20u8)
    } else if sym == 225 {
        (0xfffff3u32, 24u8)
    } else if sym == 226 {
        (0xfffedu32, 20u8)
    } else if sym == 227 {
        (0x1fffe6u32, 21u8)
    } else if sym == 228 {
        (0x3fffe9u32, 22u8)
    } else if sym == 229 {
        (0x1fffe7u32, 21u8)
    } else if sym == 230 {
        (0x1fffe8u32, 21u8)
    } else if sym == 231 {
        (0x7ffff3u32, 23u8)
    } else if sym == 232 {
        (0x3fffeau32, 22u8)
    } else if sym == 233 {
        (0x3fffebu32, 22u8)
    } else if sym == 234 {
        (0x1ffffeeu32, 25u8)
    } else if sym == 235 {
        (0x1ffffefu32, 25u8)
    } else if sym == 236 {
        (0xfffff4u32, 24u8)
    } else if sym == 237 {
        (0xfffff5u32, 24u8)
    } else if sym == 238 {
        (0x3ffffeau32, 26u8)
    } else if sym == 239 {
        (0x7ffff4u32, 23u8)
    } else if sym == 240 {
        (0x3ffffebu32, 26u8)
    } else if sym == 241 {
        (0x7ffffe6u32, 27u8)
    } else if sym == 242 {
        (0x3ffffecu32, 26u8)
    } else if sym == 243 {
        (0x3ffffedu32, 26u8)
    } else if sym == 244 {
        (0x7ffffe7u32, 27u8)
    } else if sym == 245 {
        (0x7ffffe8u32, 27u8)
    } else if sym == 246 {
        (0x7ffffe9u32, 27u8)
    } else if sym == 247 {
        (0x7ffffeau32, 27u8)
    } else if sym == 248 {
        (0x7ffffebu32, 27u8)
    } else if sym == 249 {
        (0xffffffeu32, 28u8)
    } else if sym == 250 {
        (0x7ffffecu32, 27u8)
    } else if sym == 251 {
        (0x7ffffedu32, 27u8)
    } else if sym == 252 {
        (0x7ffffeeu32, 27u8)
    } else if sym == 253 {
        (0x7ffffefu32, 27u8)
    } else if sym == 254 {
        (0x7fffff0u32, 27u8)
    } else if sym == 255 {
        (0x3ffffeeu32, 26u8)
    } else {
        (0x3fffffffu32, 30u8)
    }
}

/// The code of a symbol, as a number.
pub open spec fn code_val(sym: nat) -> nat {
    huff_code(sym).0 as nat
}

/// The bit length of a symbol's code.
pub open spec fn code_len(sym: nat) -> nat {
    huff_code(sym).1 as nat
}

/// Table lookup: the `(code, bit length)` pair of `sym`.
#[verifier::rlimit(100)]
pub fn huffman_code(sym: u16) -> (r: (u32, u8))
    requires
        sym <= 256,
    ensures
        r == huff_code(sym as nat),
        5 <= r.1 <= 30,
        (r.0 as nat) < pow2(r.1 as nat),
{
    proof {
        lemma2_to64();
    }
    match sym {
        0 => (0x1ff8u32, 13u8),
        1 => (0x7fffd8u32, 23u8),
        2 => (0xfffffe2u32, 28u8),
        3 => (0xfffffe3u32, 28u8),
        4 => (0xfffffe4u32, 28u8),
        5 => (0xfffffe5u32, 28u8),
        6 => (0xfffffe6u32, 28u8),
        7 => (0xfffffe7u32, 28u8),
        8 => (0xfffffe8u32, 28u8),
        9 => (0xffffeau32, 24u8),
        10 => (0x3ffffffcu32, 30u8),
        11 => (0xfffffe9u32, 28u8),
        12 => (0xfffffeau32, 28u8),
        13 => (0x3ffffffdu32, 30u8),
        14 => (0xfffffebu32, 28u8),
        15 => (0xfffffecu32, 28u8),
        16 => (0xfffffedu32, 28u8),
        17 => (0xfffffeeu32, 28u8),
        18 => (0xfffffefu32, 28u8),
        19 => (0xffffff0u32, 28u8),
        20 => (0xffffff1u32, 28u8),
        21 => (0xffffff2u32, 28u8),
        22 => (0x3ffffffeu32, 30u8),
        23 => (0xffffff3u32, 28u8),
        24 => (0xffffff4u32, 28u8),
        25 => (0xffffff5u32, 28u8),
        26 => (0xffffff6u32, 28u8),
        27 => (0xffffff7u32, 28u8),
        28 => (0xffffff8u32, 28u8),
        29 => (0xffffff9u32, 28u8),
        30 => (0xffffffau32, 28u8),
        31 => (0xffffffbu32, 28u8),
        32 => (0x14u32, 6u8),
        33 => (0x3f8u32, 10u8),
        34 => (0x3f9u32, 10u8),
        35 => (0xffau32, 12u8),
        36 => (0x1ff9u32, 13u8),
        37 => (0x15u32, 6u8),
        38 => (0xf8u32, 8u8),
        39 => (0x7fau32, 11u8),
        40 => (0x3fau32, 10u8),
        41 => (0x3fbu32, 10u8),
        42 => (0xf9u32, 8u8),
        43 => (0x7fbu32, 11u8),
        44 => (0xfau32, 8u8),
        45 => (0x16u32, 6u8),
        46 => (0x17u32, 6u8),
        47 => (0x18u32, 6u8),
        48 => (0x0u32, 5u8),
        49 => (0x1u32, 5u8),
        50 => (0x2u32, 5u8),
        51 => (0x19u32, 6u8),
        52 => (0x1au32, 6u8),
        53 => (0x1bu32, 6u8),
        54 => (0x1cu32, 6u8),
        55 => (0x1du32, 6u8),
        56 => (0x1eu32, 6u8),
        57 => (0x1fu32, 6u8),
        58 => (0x5cu32, 7u8),
        59 => (0xfbu32, 8u8),
        60 => (0x7ffcu32, 15u8),
        61 => (0x20u32, 6u8),
        62 => (0xffbu32, 12u8),
        63 => (0x3fcu32, 10u8),
        64 => (0x1ffau32, 13u8),
        65 => (0x21u32, 6u8),
        66 => (0x5du32, 7u8),
        67 => (0x5eu32, 7u8),
        68 => (0x5fu32, 7u8),
        69 => (0x60u32, 7u8),
        70 => (0x61u32, 7u8),
        71 => (0x62u32, 7u8),
        72 => (0x63u32, 7u8),
        73 => (0x64u32, 7u8),
        74 => (0x65u32, 7u8),
        75 => (0x66u32, 7u8),
        76 => (0x67u32, 7u8),
        77 => (0x68u32, 7u8),
        78 => (0x69u32, 7u8),
        79 => (0x6au32, 7u8),
        80 => (0x6bu32, 7u8),
        81 => (0x6cu32, 7u8),
        82 => (0x6du32, 7u8),
        83 => (0x6eu32, 7u8),
        84 => (0x6fu32, 7u8),
        85 => (0x70u32, 7u8),
        86 => (0x71u32, 7u8),
        87 => (0x72u32, 7u8),
        88 => (0xfcu32, 8u8),
        89 => (0x73u32, 7u8),
        90 => (0xfdu32, 8u8),
        91 => (0x1ffbu32, 13u8),
        92 => (0x7fff0u32, 19u8),
        93 => (0x1ffcu32, 13u8),
        94 => (0x3ffcu32, 14u8),
        95 => (0x22u32, 6u8),
        96 => (0x7ffdu32, 15u8),
        97 => (0x3u32, 5u8),
        98 => (0x23u32, 6u8),
        99 => (0x4u32, 5u8),
        100 => (0x24u32, 6u8),
        101 => (0x5u32, 5u8),
        102 => (0x25u32, 6u8),
        103 => (0x26u32, 6u8),
        104 => (0x27u32, 6u8),
        105 => (0x6u32, 5u8),
        106 => (0x74u32, 7u8),
        107 => (0x75u32, 7u8),
        108 => (0x28u32, 6u8),
        109 => (0x29u32, 6u8),
        110 => (0x2au32, 6u8),
        111 => (0x7u32, 5u8),
        112 => (0x2bu32, 6u8),
        113 => (0x76u32, 7u8),
        114 => (0x2cu32, 6u8),
        115 => (0x8u32, 5u8),
        116 => (0x9u32, 5u8),
        117 => (0x2du32, 6u8),
        118 => (0x77u32, 7u8),
        119 => (0x78u32, 7u8),
        120 => (0x79u32, 7u8),
        121 => (0x7au32, 7u8),
        122 => (0x7bu32, 7u8),
        123 => (0x7ffeu32, 15u8),
        124 => (0x7fcu32, 11u8),
        125 => (0x3ffdu32, 14u8),
        126 => (0x1ffdu32, 13u8),
        127 => (0xffffffcu32, 28u8),
        128 => (0xfffe6u32, 20u8),
        129 => (0x3fffd2u32, 22u8),
        130 => (0xfffe7u32, 20u8),
        131 => (0xfffe8u32, 20u8),
        132 => (0x3fffd3u32, 22u8),
        133 => (0x3fffd4u32, 22u8),
        134 => (0x3fffd5u32, 22u8),
        135 => (0x7fffd9u32, 23u8),
        136 => (0x3fffd6u32, 22u8),
        137 => (0x7fffdau32, 23u8),
        138 => (0x7fffdbu32, 23u8),
        139 => (0x7fffdcu32, 23u8),
        140 => (0x7fffddu32, 23u8),
        141 => (0x7fffdeu32, 23u8),
        142 => (0xffffebu32, 24u8),
        143 => (0x7fffdfu32, 23u8),
        144 => (0xffffecu32, 24u8),
        145 => (0xffffedu32, 24u8),
        146 => (0x3fffd7u32, 22u8),
        147 => (0x7fffe0u32, 23u8),
        148 => (0xffffeeu32, 24u8),
        149 => (0x7fffe1u32, 23u8),
        150 => (0x7fffe2u32, 23u8),
        151 => (0x7fffe3u32, 23u8),
        152 => (0x7fffe4u32, 23u8),
        153 => (0x1fffdcu32, 21u8),
        154 => (0x3fffd8u32, 22u8),
        155 => (0x7fffe5u32, 23u8),
        156 => (0x3fffd9u32, 22u8),
        157 => (0x7fffe6u32, 23u8),
        158 => (0x7fffe7u32, 23u8),
        159 => (0xffffefu32, 24u8),
        160 => (0x3fffdau32, 22u8),
        161 => (0x1fffddu32, 21u8),
        162 => (0xfffe9u32, 20u8),
        163 => (0x3fffdbu32, 22u8),
        164 => (0x3fffdcu32, 22u8),
        165 => (0x7fffe8u32, 23u8),
        166 => (0x7fffe9u32, 23u8),
        167 => (0x1fffdeu32, 21u8),
        168 => (0x7fffeau32, 23u8),
        169 => (0x3fffddu32, 22u8),
        170 => (0x3fffdeu32, 22u8),
        171 => (0xfffff0u32, 24u8),
        172 => (0x1fffdfu32, 21u8),
        173 => (0x3fffdfu32, 22u8),
        174 => (0x7fffebu32, 23u8),
        175 => (0x7fffecu32, 23u8),
        176 => (0x1fffe0u32, 21u8),
        177 => (0x1fffe1u32, 21u8),
        178 => (0x3fffe0u32, 22u8),
        179 => (0x1fffe2u32, 21u8),
        180 => (0x7fffedu32, 23u8),
        181 => (0x3fffe1u32, 22u8),
        182 => (0x7fffeeu32, 23u8),
        183 => (0x7fffefu32, 23u8),
        184 => (0xfffeau32, 20u8),
        185 => (0x3fffe2u32, 22u8),
        186 => (0x3fffe3u32, 22u8),
        187 => (0x3fffe4u32, 22u8),
        188 => (0x7ffff0u32, 23u8),
        189 => (0x3fffe5u32, 22u8),
        190 => (0x3fffe6u32, 22u8),
        191 => (0x7ffff1u32, 23u8),
        192 => (0x3ffffe0u32, 26u8),
        193 => (0x3ffffe1u32, 26u8),
        194 => (0xfffebu32, 20u8),
        195 => (0x7fff1u32, 19u8),
        196 => (0x3fffe7u32, 22u8),
        197 => (0x7ffff2u32, 23u8),
        198 => (0x3fffe8u32, 22u8),
        199 => (0x1ffffecu32, 25u8),
        200 => (0x3ffffe2u32, 26u8),
        201 => (0x3ffffe3u32, 26u8),
        202 => (0x3ffffe4u32, 26u8),
        203 => (0x7ffffdeu32, 27u8),
        204 => (0x7ffffdfu32, 27u8),
        205 => (0x3ffffe5u32, 26u8),
        206 => (0xfffff1u32, 24u8),
        207 => (0x1ffffedu32, 25u8),
        208 => (0x7fff2u32, 19u8),
        209 => (0x1fffe3u32, 21u8),
        210 => (0x3ffffe6u32, 26u8),
        211 => (0x7ffffe0u32, 27u8),
        212 => (0x7ffffe1u32, 27u8),
        213 => (0x3ffffe7u32, 26u8),
        214 => (0x7ffffe2u32, 27u8),
        215 => (0xfffff2u32, 24u8),
        216 => (0x1fffe4u32, 21u8),
        217 => (0x1fffe5u32, 21u8),
        218 => (0x3ffffe8u32, 26u8),
        219 => (0x3ffffe9u32, 26u8),
        220 => (0xffffffdu32, 28u8),
        221 => (0x7ffffe3u32, 27u8),
        222 => (0x7ffffe4u32, 27u8),
        223 => (0x7ffffe5u32, 27u8),
        224 => (0xfffecu32, 20u8),
        225 => (0xfffff3u32, 24u8),
        226 => (0xfffedu32, 20u8),
        227 => (0x1fffe6u32, 21u8),
        228 => (0x3fffe9u32, 22u8),
        229 => (0x1fffe7u32, 21u8),
        230 => (0x1fffe8u32, 21u8),
        231 => (0x7ffff3u32, 23u8),
        232 => (0x3fffeau32, 22u8),
        233 => (0x3fffebu32, 22u8),
        234 => (0x1ffffeeu32, 25u8),
        235 => (0x1ffffefu32, 25u8),
        236 => (0xfffff4u32, 24u8),
        237 => (0xfffff5u32, 24u8),
        238 => (0x3ffffeau32, 26u8),
        239 => (0x7ffff4u32, 23u8),
        240 => (0x3ffffebu32, 26u8),
        241 => (0x7ffffe6u32, 27u8),
        242 => (0x3ffffecu32, 26u8),
        243 => (0x3ffffedu32, 26u8),
        244 => (0x7ffffe7u32, 27u8),
        245 => (0x7ffffe8u32, 27u8),
        246 => (0x7ffffe9u32, 27u8),
        247 => (0x7ffffeau32, 27u8),
        248 => (0x7ffffebu32, 27u8),
        249 => (0xffffffeu32, 28u8),
        250 => (0x7ffffecu32, 27u8),
        251 => (0x7ffffedu32, 27u8),
        252 => (0x7ffffeeu32, 27u8),
        253 => (0x7ffffefu32, 27u8),
        254 => (0x7fffff0u32, 27u8),
        255 => (0x3ffffeeu32, 26u8),
        _ => (0x3fffffffu32, 30u8),
    }
}

/// The low `len` bits of `v`, most significant bit first.
pub open spec fn be_bits(v: nat, len: nat) -> Seq<bool> {
    Seq::new(len, |i: int| (v / pow2((len - 1 - i) as nat)) % 2 == 1)
}

/// The value of a bit string read most significant bit first.
pub open spec fn bits_val(bits: Seq<bool>) -> nat
    decreases bits.len(),
{
    if bits.len() == 0 {
        0
    } else {
        2 * bits_val(bits.drop_last()) + (if bits.last() {
            1nat
        } else {
            0nat
        })
    }
}

/// The eight bits of a byte, most significant bit first.
pub open spec fn byte_bits(b: u8) -> Seq<bool> {
    be_bits(b as nat, 8)
}

/// The bit string of a byte string.
pub open spec fn bytes_bits(s: Seq<u8>) -> Seq<bool>
    decreases s.len(),
{
    if s.len() == 0 {
        Seq::empty()
    } else {
        byte_bits(s[0]) + bytes_bits(s.skip(1))
    }
}

/// The code bits of one symbol.
pub open spec fn code_bits(sym: nat) -> Seq<bool> {
    be_bits(code_val(sym), code_len(sym))
}

/// The concatenated code bits of a byte string.
pub open spec fn huff_bits(s: Seq<u8>) -> Seq<bool>
    decreases s.len(),
{
    if s.len() == 0 {
        Seq::empty()
    } else {
        code_bits(s[0] as nat) + huff_bits(s.skip(1))
    }
}

/// `k` one-bits: the padding, a prefix of the end-of-string code.
pub open spec fn ones(k: nat) -> Seq<bool> {
    Seq::new(k, |i: int| true)
}

/// Bits packed into bytes most significant bit first, the final partial
/// byte padded with ones.
pub open spec fn pack_bits(bits: Seq<bool>) -> Seq<u8>
    decreases bits.len(),
{
    if bits.len() == 0 {
        Seq::empty()
    } else if bits.len() < 8 {
        seq![bits_val(bits + ones((8 - bits.len()) as nat)) as u8]
    } else {
        seq![bits_val(bits.take(8)) as u8] + pack_bits(bits.skip(8))
    }
}

/// The whole Huffman coding of a byte string, as it stands on the wire.
pub open spec fn huff_encode_bytes(s: Seq<u8>) -> Seq<u8> {
    pack_bits(huff_bits(s))
}

/// Appending a bit doubles the value and adds the bit.
pub proof fn lemma_bits_val_push(bits: Seq<bool>, b: bool)
    ensures
        bits_val(bits.push(b)) == 2 * bits_val(bits) + (if b {
            1nat
        } else {
            0nat
        }),
{
    assert(bits.push(b).drop_last() =~= bits);
    assert(bits.push(b).last() == b);
}

/// A bit string's value is below two to its length.
pub proof fn lemma_bits_val_bound(bits: Seq<bool>)
    ensures
        bits_val(bits) < pow2(bits.len()),
    decreases bits.len(),
{
    if bits.len() == 0 {
        lemma2_to64();
    } else {
        lemma_bits_val_bound(bits.drop_last());
        lemma_pow2_adds((bits.len() - 1) as nat, 1);
        lemma2_to64();
    }
}

/// `be_bits` unrolls from the least significant end.
pub proof fn lemma_be_bits_unsnoc(v: nat, len: nat)
    requires
        len >= 1,
    ensures
        be_bits(v, len) == be_bits(v / 2, (len - 1) as nat).push(v % 2 == 1),
{
    let a = be_bits(v, len);
    let b = be_bits(v / 2, (len - 1) as nat).push(v % 2 == 1);
    assert forall|i: int| 0 <= i < len implies a[i] == b[i] by {
        if i == len - 1 {
            lemma2_to64();
            assert(pow2(0) == 1);
            assert(a[i] == ((v / 1) % 2 == 1));
            assert(b[i] == (v % 2 == 1));
        } else {
            let k = (len - 2 - i) as nat;
            lemma_pow2_pos(k);
            lemma_pow2_adds(1, k);
            lemma2_to64();
            assert(pow2(1) == 2);
            lemma_div_denominator(v as int, 2, pow2(k) as int);
            assert(2 * pow2(k) == pow2((k + 1) as nat));
            assert((v / 2) / pow2(k) == v / (2 * pow2(k)));
            assert(a[i] == ((v / pow2((len - 1 - i) as nat)) % 2 == 1));
            assert((len - 1 - i) as nat == (k + 1) as nat);
            assert(b[i] == (((v / 2) / pow2(k)) % 2 == 1));
        }
    }
    assert(a =~= b);
}

/// The value of `be_bits(v, len)` is `v` again, when `v` fits in `len` bits.
pub proof fn lemma_be_bits_val(v: nat, len: nat)
    requires
        v < pow2(len),
    ensures
        bits_val(be_bits(v, len)) == v,
    decreases len,
{
    if len == 0 {
        lemma2_to64();
        assert(be_bits(v, 0) =~= Seq::<bool>::empty());
    } else {
        lemma_be_bits_unsnoc(v, len);
        lemma_pow2_adds(1, (len - 1) as nat);
        lemma2_to64();
        assert(pow2(len) == 2 * pow2((len - 1) as nat));
        lemma_be_bits_val(v / 2, (len - 1) as nat);
        lemma_bits_val_push(be_bits(v / 2, (len - 1) as nat), v % 2 == 1);
    }
}

/// `bytes_bits` distributes over appending one byte.
pub proof fn lemma_bytes_bits_push(s: Seq<u8>, b: u8)
    ensures
        bytes_bits(s.push(b)) == bytes_bits(s) + byte_bits(b),
    decreases s.len(),
{
    if s.len() == 0 {
        assert(s.push(b).skip(1) =~= Seq::<u8>::empty());
        assert(s.push(b)[0] == b);
        assert(bytes_bits(s.push(b)) == byte_bits(b) + bytes_bits(Seq::<u8>::empty()));
        assert(bytes_bits(s.push(b)) =~= bytes_bits(s) + byte_bits(b));
    } else {
        assert(s.push(b).skip(1) =~= s.skip(1).push(b));
        assert(s.push(b)[0] == s[0]);
        lemma_bytes_bits_push(s.skip(1), b);
        assert(bytes_bits(s.push(b)) == byte_bits(s[0]) + bytes_bits(s.skip(1).push(b)));
        assert(bytes_bits(s.push(b)) =~= bytes_bits(s) + byte_bits(b));
    }
}

/// `huff_bits` distributes over appending one symbol.
pub proof fn lemma_huff_bits_push(s: Seq<u8>, b: u8)
    ensures
        huff_bits(s.push(b)) == huff_bits(s) + code_bits(b as nat),
    decreases s.len(),
{
    if s.len() == 0 {
        assert(s.push(b).skip(1) =~= Seq::<u8>::empty());
        assert(s.push(b)[0] == b);
        assert(huff_bits(s.push(b)) == code_bits(b as nat) + huff_bits(Seq::<u8>::empty()));
        assert(huff_bits(s.push(b)) =~= huff_bits(s) + code_bits(b as nat));
    } else {
        assert(s.push(b).skip(1) =~= s.skip(1).push(b));
        assert(s.push(b)[0] == s[0]);
        lemma_huff_bits_push(s.skip(1), b);
        assert(huff_bits(s.push(b)) == code_bits(s[0] as nat) + huff_bits(s.skip(1).push(b)));
        assert(huff_bits(s.push(b)) =~= huff_bits(s) + code_bits(b as nat));
    }
}

/// Encoder and decoder over the static Huffman alphabet.
pub struct HuffmanTransformer {}

impl HuffmanTransformer {
    pub fn new() -> (r: Self) {
        HuffmanTransformer {}
    }

    /// The concatenated code bits of `value`.
    fn symbol_bits(value: &Vec<u8>) -> (bits: Vec<bool>)
        ensures
            bits@ == huff_bits(value@),
    {
        let mut bits: Vec<bool> = Vec::new();
        let mut i: usize = 0;
        while i < value.len()
            invariant
                i <= value@.len(),
                bits@ == huff_bits(value@.take(i as int)),
            decreases value@.len() - i,
        {
            let ghost pre = bits@;
            let sym = value[i];
            let ghost cb = code_bits(sym as nat);
            let (code, len) = huffman_code(sym as u16);
            let mut j: u8 = 0;
            while j < len
                invariant
                    j <= len,
                    (code, len) == huff_code(sym as nat),
                    (code as nat) < pow2(len as nat),
                    5 <= len <= 30,
                    cb == code_bits(sym as nat),
                    cb.len() == len,
                    bits@ == pre + cb.take(j as int),
                decreases len - j,
            {
                let shift = (len - 1 - j) as u32;
                let bit = ((code >> shift) & 1) == 1;
                proof {
                    lemma_u32_shr_is_div(code, shift);
                    let y = code >> shift;
                    assert((y & 1) == y % 2) by (bit_vector);
                    assert(cb[j as int] == ((code_val(sym as nat) / pow2(
                        (len - 1 - j) as nat,
                    )) % 2 == 1));
                    assert(bit == cb[j as int]);
                    assert(cb.take(j as int + 1) =~= cb.take(j as int).push(cb[j as int]));
                }
                bits.push(bit);
                j = j + 1;
            }
            proof {
                assert(cb.take(len as int) =~= cb);
                assert(value@.take(i as int + 1) =~= value@.take(i as int).push(
                    value@[i as int],
                ));
                lemma_huff_bits_push(value@.take(i as int), value@[i as int]);
            }
            i = i + 1;
        }
        proof {
            assert(value@.take(value@.len() as int) =~= value@);
        }
        bits
    }

    /// Packs a bit string into bytes, padding the final byte with ones.
    fn pack(encoded: &mut Vec<u8>, bits: &Vec<bool>)
        ensures
            final(encoded)@ == old(encoded)@ + pack_bits(bits@),
    {
        let ghost orig = encoded@;
        let blen: usize = bits.len();
        let mut pos: usize = 0;
        proof {
            assert(bits@.skip(0) =~= bits@);
        }
        while blen - pos >= 8
            invariant
                blen == bits@.len(),
                pos <= blen,
                orig + pack_bits(bits@) =~= encoded@ + pack_bits(bits@.skip(pos as int)),
            decreases blen - pos,
        {
            let ghost sub = bits@.skip(pos as int);
            let ghost chunk = sub.take(8);
            let mut acc: u16 = 0;
            let mut j: usize = 0;
            proof {
                lemma2_to64();
                assert(chunk.take(0) =~= Seq::<bool>::empty());
            }
            while j < 8
                invariant
                    j <= 8,
                    blen == bits@.len(),
                    pos + 8 <= blen,
                    sub == bits@.skip(pos as int),
                    chunk == sub.take(8),
                    acc as nat == bits_val(chunk.take(j as int)),
                    (acc as nat) < pow2(j as nat),
                decreases 8 - j,
            {
                let bit = bits[pos + j];
                proof {
                    assert(chunk[j as int] == bits@[pos + j]);
                    assert(chunk.take(j as int + 1) =~= chunk.take(j as int).push(
                        chunk[j as int],
                    ));
                    lemma_bits_val_push(chunk.take(j as int), chunk[j as int]);
                    lemma2_to64();
                    lemma_pow2_adds(j as nat, 1);
                }
                acc = 2 * acc + (if bit {
                    1
                } else {
                    0
                });
                j = j + 1;
            }
            proof {
                lemma2_to64();
                assert(chunk.take(8) =~= chunk);
                assert(acc < 256);
                assert(pack_bits(sub) == seq![bits_val(chunk) as u8] + pack_bits(sub.skip(8)));
                assert(sub.skip(8) =~= bits@.skip(pos as int + 8));
            }
            let ghost before = encoded@;
            encoded.push(acc as u8);
            proof {
                assert(encoded@ + pack_bits(bits@.skip(pos as int + 8)) =~= before + pack_bits(
                    bits@.skip(pos as int),
                ));
            }
            pos = pos + 8;
        }
        let rem = blen - pos;
        if rem == 0 {
            proof {
                assert(pack_bits(bits@.skip(pos as int)) =~= Seq::<u8>::empty());
                assert(encoded@ =~= orig + pack_bits(bits@));
            }
            return ;
        }
        // Final partial byte, padded with ones.
        let ghost sub = bits@.skip(pos as int);
        let ghost chunk = sub + ones((8 - rem) as nat);
        let mut acc: u16 = 0;
        let mut j: usize = 0;
        proof {
            lemma2_to64();
            assert(chunk.take(0) =~= Seq::<bool>::empty());
        }
        while j < 8
            invariant
                j <= 8,
                blen == bits@.len(),
                pos < blen,
                rem == blen - pos,
                rem < 8,
                sub == bits@.skip(pos as int),
                chunk == sub + ones((8 - rem) as nat),
                chunk.len() == 8,
                acc as nat == bits_val(chunk.take(j as int)),
                (acc as nat) < pow2(j as nat),
            decreases 8 - j,
        {
            let bit = if j < rem {
                bits[pos + j]
            } else {
                true
            };
            proof {
                assert(chunk[j as int] == bit);
                assert(chunk.take(j as int + 1) =~= chunk.take(j as int).push(chunk[j as int]));
                lemma_bits_val_push(chunk.take(j as int), chunk[j as int]);
                lemma2_to64();
                lemma_pow2_adds(j as nat, 1);
            }
            acc = 2 * acc + (if bit {
                1
            } else {
                0
            });
            j = j + 1;
        }
        proof {
            lemma2_to64();
            assert(chunk.take(8) =~= chunk);
            assert(acc < 256);
            assert(pack_bits(sub) == seq![bits_val(chunk) as u8]);
        }
        let ghost before = encoded@;
        encoded.push(acc as u8);
        proof {
            assert(encoded@ =~= before + pack_bits(bits@.skip(pos as int)));
            assert(encoded@ =~= orig + pack_bits(bits@));
        }
    }

    /// Appends the Huffman coding of `value`: its code bits packed most
    /// significant bit first, the final byte padded with ones.
    pub fn encode(&self, encoded: &mut Vec<u8>, value: &Vec<u8>)
        ensures
            final(encoded)@ == old(encoded)@ + huff_encode_bytes(value@),
    {
        let bits = Self::symbol_bits(value);
        Self::pack(encoded, &bits);
    }

    /// Scans the alphabet for a symbol whose code is `v` with length `l`.
    fn find_code(v: u32, l: u8) -> (r: Option<u16>)
        ensures
            match r {
                Some(sym) => sym <= 256 && find_sym(v as nat, l as nat, 0) == Some(sym as nat),
                None => find_sym(v as nat, l as nat, 0) is None,
            },
    {
        let mut k: u16 = 0;
        while k <= 256
            invariant
                k <= 257,
                find_sym(v as nat, l as nat, 0) == find_sym(v as nat, l as nat, k as nat),
            decreases 257 - k,
        {
            let (cv, cl) = huffman_code(k);
            if cv == v && cl == l {
                return Some(k);
            }
            k = k + 1;
        }
        None
    }

    /// Finds the shortest whole code starting at `pos`.
    fn first_code(bits: &Vec<bool>, pos: usize) -> (r: Option<(u16, usize)>)
        requires
            pos <= bits@.len(),
        ensures
            match r {
                Some((sym, l)) => {
                    &&& first_match(bits@.skip(pos as int), 1) == Some((sym as nat, l as nat))
                    &&& 1 <= l <= 30
                    &&& pos + l <= bits@.len()
                    &&& sym <= 256
                },
                None => first_match(bits@.skip(pos as int), 1) is None,
            },
    {
        let ghost sub = bits@.skip(pos as int);
        let blen = bits.len();
        let mut l: usize = 0;
        let mut acc: u32 = 0;
        proof {
            assert(sub.take(0) =~= Seq::<bool>::empty());
        }
        loop
            invariant
                pos <= blen,
                blen == bits@.len(),
                sub == bits@.skip(pos as int),
                sub.len() == blen - pos,
                l <= 30,
                pos + l <= blen,
                acc as nat == bits_val(sub.take(l as int)),
                first_match(sub, 1) == first_match(sub, (l + 1) as nat),
            decreases 30 - l,
        {
            if l == 30 || pos + l == blen {
                return None;
            }
            let bit = bits[pos + l];
            proof {
                assert(sub[l as int] == bits@[pos + l]);
                assert(sub.take(l as int + 1) =~= sub.take(l as int).push(sub[l as int]));
                lemma_bits_val_push(sub.take(l as int), sub[l as int]);
                lemma_bits_val_bound(sub.take(l as int));
                lemma_pow2_strictly_increases(l as nat, 30);
                lemma2_to64();
            }
            acc = 2 * acc + (if bit {
                1
            } else {
                0
            });
            l = l + 1;
            match Self::find_code(acc, l as u8) {
                Some(sym) => {
                    return Some((sym, l));
                },
                None => {
                },
            }
        }
    }

    /// Greedy decode of an unpacked bit string.
    fn greedy_decode(bits: &Vec<bool>) -> (r: Result<Vec<u8>, QpackError>)
        ensures
            match r {
                Ok(out) => huff_decode_bits(bits@) == Some(out@),
                Err(e) => e == QpackError::DecompressionFailed && huff_decode_bits(bits@)
                    is None,
            },
    {
        let blen = bits.len();
        let mut out: Vec<u8> = Vec::new();
        let mut pos: usize = 0;
        proof {
            assert(bits@.skip(0) =~= bits@);
        }
        loop
            invariant
                pos <= blen,
                blen == bits@.len(),
                huff_decode_bits(bits@) == match huff_decode_bits(bits@.skip(pos as int)) {
                    Some(rest) => Some(out@ + rest),
                    None => None::<Seq<u8>>,
                },
            decreases blen - pos,
        {
            let ghost sub = bits@.skip(pos as int);
            if pos == blen {
                proof {
                    assert(sub.len() == 0);
                    assert(out@ + Seq::<u8>::empty() =~= out@);
                }
                return Ok(out);
            }
            match Self::first_code(bits, pos) {
                Some((sym, l)) => {
                    if sym == 256 {
                        return Err(QpackError::DecompressionFailed);
                    }
                    proof {
                        assert(sub.skip(l as int) =~= bits@.skip(pos as int + l as int));
                    }
                    let ghost preout = out@;
                    out.push(sym as u8);
                    proof {
                        match huff_decode_bits(bits@.skip(pos as int + l as int)) {
                            Some(rest) => {
                                assert(preout + (seq![(sym as u8)] + rest) =~= out@ + rest);
                            },
                            None => {
                            },
                        }
                    }
                    pos = pos + l;
                },
                None => {
                    // No code fits: accept only an all-ones padding shorter
                    // than one byte.
                    let rem = blen - pos;
                    if rem >= 8 {
                        return Err(QpackError::DecompressionFailed);
                    }
                    let mut all1 = true;
                    let mut j = pos;
                    while j < blen
                        invariant
                            pos <= j <= blen,
                            blen == bits@.len(),
                            all1 == (forall|t: int| pos <= t < j ==> bits@[t]),
                        decreases blen - j,
                    {
                        if !bits[j] {
                            all1 = false;
                        }
                        j = j + 1;
                    }
                    if all1 {
                        proof {
                            assert(sub =~= ones(sub.len()));
                            assert(out@ + Seq::<u8>::empty() =~= out@);
                        }
                        return Ok(out);
                    } else {
                        proof {
                            let t = choose|t: int| pos <= t < blen && !bits@[t];
                            assert(!sub[t - pos]);
                            assert(ones(sub.len())[t - pos]);
                            assert(sub != ones(sub.len()));
                        }
                        return Err(QpackError::DecompressionFailed);
                    }
                },
            }
        }
    }

    /// Decodes `str_len` bytes of Huffman-coded wire starting at `idx`: the
    /// greedy walk of the coded bits, with all-ones padding of fewer than
    /// eight bits accepted at the end and the end-of-string code rejected.
    pub fn decode(&self, wire: &Vec<u8>, idx: usize, str_len: usize) -> (r: Result<
        Vec<u8>,
        QpackError,
    >)
        requires
            idx + str_len <= wire@.len(),
        ensures
            match r {
                Ok(out) => huff_decode(wire@.subrange(idx as int, idx as int + str_len as int))
                    == Some(out@),
                Err(e) => {
                    &&& e == QpackError::DecompressionFailed
                    &&& huff_decode(wire@.subrange(idx as int, idx as int + str_len as int))
                        is None
                },
            },
    {
        let bits = Self::unpack(wire, idx, str_len);
        Self::greedy_decode(&bits)
    }

    /// Unpacks `str_len` wire bytes starting at `idx` into their bits.
    fn unpack(wire: &Vec<u8>, idx: usize, str_len: usize) -> (bits: Vec<bool>)
        requires
            idx + str_len <= wire@.len(),
        ensures
            bits@ == bytes_bits(wire@.subrange(idx as int, idx as int + str_len as int)),
    {
        let ghost seg = wire@.subrange(idx as int, idx as int + str_len as int);
        let wlen = wire.len();
        let mut bits: Vec<bool> = Vec::new();
        let mut i: usize = 0;
        proof {
            assert(seg.take(0) =~= Seq::<u8>::empty());
        }
        while i < str_len
            invariant
                i <= str_len,
                wlen == wire@.len(),
                idx + str_len <= wlen,
                seg == wire@.subrange(idx as int, idx as int + str_len as int),
                bits@ == bytes_bits(seg.take(i as int)),
            decreases str_len - i,
        {
            let b = wire[idx + i];
            let ghost bb = byte_bits(b);
            proof {
                assert(seg[i as int] == b);
                assert(bb.take(0) =~= Seq::<bool>::empty());
            }
            let ghost pre = bits@;
            let mut j: u8 = 0;
            while j < 8
                invariant
                    j <= 8,
                    i < str_len,
                    idx + str_len <= wire@.len(),
                    b == wire@[idx as int + i as int],
                    bb == byte_bits(b),
                    bb.len() == 8,
                    bits@ == pre + bb.take(j as int),
                decreases 8 - j,
            {
                let shift = (7 - j) as u32;
                let bit = (((b as u32) >> shift) & 1) == 1;
                proof {
                    lemma_u32_shr_is_div(b as u32, shift);
                    let y = (b as u32) >> shift;
                    assert((y & 1) == y % 2) by (bit_vector);
                    assert(bb[j as int] == ((b as nat / pow2((7 - j) as nat)) % 2 == 1));
                    assert(bb.take(j as int + 1) =~= bb.take(j as int).push(bb[j as int]));
                }
                bits.push(bit);
                j = j + 1;
            }
            proof {
                assert(bb.take(8) =~= bb);
                assert(seg.take(i as int + 1) =~= seg.take(i as int).push(seg[i as int]));
                lemma_bytes_bits_push(seg.take(i as int), seg[i as int]);
            }
            i = i + 1;
        }
        proof {
            assert(seg.take(str_len as int) =~= seg);
        }
        bits
    }
}

/// The lowest symbol, from `k` up, whose code is `v` with bit length `l`.
pub open spec fn find_sym(v: nat, l: nat, k: nat) -> Option<nat>
    recommends
        k <= 257,
    decreases 257 - k,
{
    if k > 256 {
        None
    } else if code_val(k) == v && code_len(k) == l {
        Some(k)
    } else {
        find_sym(v, l, (k + 1) as nat)
    }
}

/// The shortest prefix of `bits`, of length `l` or more, that is a whole
/// code, together with its symbol.
pub open spec fn first_match(bits: Seq<bool>, l: nat) -> Option<(nat, nat)>
    recommends
        1 <= l <= 31,
    decreases 31 - l,
{
    if l > 30 || l > bits.len() {
        None
    } else {
        match find_sym(bits_val(bits.take(l as int)), l, 0) {
            Some(sym) => Some((sym, l)),
            None => if l >= 30 {
                None
            } else {
                first_match(bits, (l + 1) as nat)
            },
        }
    }
}

/// Greedy decode of a bit string: emit the symbol of the shortest matching
/// code; end on an all-ones padding of fewer than eight bits; reject the
/// end-of-string symbol and anything else that is left over.
pub open spec fn huff_decode_bits(bits: Seq<bool>) -> Option<Seq<u8>>
    decreases bits.len(),
{
    if bits.len() == 0 {
        Some(Seq::empty())
    } else {
        match first_match(bits, 1) {
            Some((sym, l)) => if sym == 256 || l < 1 || l > bits.len() {
                None
            } else {
                match huff_decode_bits(bits.skip(l as int)) {
                    Some(rest) => Some(seq![sym as u8] + rest),
                    None => None,
                }
            },
            None => if bits.len() < 8 && bits == ones(bits.len()) {
                Some(Seq::empty())
            } else {
                None
            },
        }
    }
}

/// Decode of a whole Huffman-coded byte string.
pub open spec fn huff_decode(bytes: Seq<u8>) -> Option<Seq<u8>> {
    huff_decode_bits(bytes_bits(bytes))
}

} // verus!
