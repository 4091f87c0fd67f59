//! One character at a time: is it a hex digit, and which nibble does it
//! stand for.
//!
//! There are three ways of finding out, and they agree on every byte: a
//! table of 256 entries; bias arithmetic with a bound, guarded against the
//! gaps that ASCII leaves between the digits and the letters; and two tables
//! of 64 entries picked by a high bit of the character.

use vstd::prelude::*;
use crate::model::{
    is_hex_char, is_nibble, nibble_of, ASCII_LOWER_A, ASCII_NINE, ASCII_UPPER_A, ASCII_UPPER_F,
    ASCII_ZERO,
};

verus! {

/// The table entry of every byte that is not a hex digit.
pub const INVALID_NIBBLE: u8 = 255;

/// The distance that separates the letters from the digits once `'0'` is
/// taken away: `'A' - '9' - 1`.
pub const GAP_DIGIT_TO_UPPER: u8 = 7;

/// The distance between the two cases: `'a' - 'A'`.
pub const GAP_UPPER_TO_LOWER: u8 = 32;

/// For every byte, the nibble it stands for, or [`INVALID_NIBBLE`].
pub const HEX_DECODE_LUT: [u8; 256] = [
    255, 255, 255, 255, 255, 255, 255, 255, 255, 255, 255, 255, 255, 255, 255, 255,
    255, 255, 255, 255, 255, 255, 255, 255, 255, 255, 255, 255, 255, 255, 255, 255,
    255, 255, 255, 255, 255, 255, 255, 255, 255, 255, 255, 255, 255, 255, 255, 255,
      0,   1,   2,   3,   4,   5,   6,   7,   8,   9, 255, 255, 255, 255, 255, 255,
    255,  10,  11,  12,  13,  14,  15, 255, 255, 255, 255, 255, 255, 255, 255, 255,
    255, 255, 255, 255, 255, 255, 255, 255, 255, 255, 255, 255, 255, 255, 255, 255,
    255,  10,  11,  12,  13,  14,  15, 255, 255, 255, 255, 255, 255, 255, 255, 255,
    255, 255, 255, 255, 255, 255, 255, 255, 255, 255, 255, 255, 255, 255, 255, 255,
    255, 255, 255, 255, 255, 255, 255, 255, 255, 255, 255, 255, 255, 255, 255, 255,
    255, 255, 255, 255, 255, 255, 255, 255, 255, 255, 255, 255, 255, 255, 255, 255,
    255, 255, 255, 255, 255, 255, 255, 255, 255, 255, 255, 255, 255, 255, 255, 255,
    255, 255, 255, 255, 255, 255, 255, 255, 255, 255, 255, 255, 255, 255, 255, 255,
    255, 255, 255, 255, 255, 255, 255, 255, 255, 255, 255, 255, 255, 255, 255, 255,
    255, 255, 255, 255, 255, 255, 255, 255, 255, 255, 255, 255, 255, 255, 255, 255,
    255, 255, 255, 255, 255, 255, 255, 255, 255, 255, 255, 255, 255, 255, 255, 255,
    255, 255, 255, 255, 255, 255, 255, 255, 255, 255, 255, 255, 255, 255, 255, 255,
];

/// What the lookup table holds for the byte `c`.
pub open spec fn lut_entry(c: u8) -> u8 {
    if is_hex_char(c) {
        nibble_of(c)
    } else {
        INVALID_NIBBLE
    }
}

/// Looks a byte up in [`HEX_DECODE_LUT`].
pub fn lut_lookup(c: u8) -> (r: u8)
    ensures
        r == lut_entry(c),
        r == INVALID_NIBBLE <==> !is_hex_char(c),
        r != INVALID_NIBBLE ==> is_nibble(r),
{
    HEX_DECODE_LUT[c as usize]
}

/// True for the bytes that lie between `'9'` and `'A'`, or between `'F'` and `'a'`.
pub open spec fn in_ascii_gap(c: u8) -> bool {
    ||| ASCII_NINE < c < ASCII_UPPER_A
    ||| ASCII_UPPER_F < c < ASCII_LOWER_A
}

/// The value that bias arithmetic alone gives the byte `c`: `'0'` is taken
/// away, then the distance to the uppercase letters where `c > '9'`, then the
/// distance between the cases where `c >= 'a'`, each time modulo 256.
pub open spec fn biased_value(c: u8) -> u8 {
    let from_zero = c.wrapping_sub(ASCII_ZERO);
    let from_upper = if c > ASCII_NINE {
        from_zero.wrapping_sub(GAP_DIGIT_TO_UPPER)
    } else {
        from_zero
    };
    if c >= ASCII_LOWER_A {
        from_upper.wrapping_sub(GAP_UPPER_TO_LOWER)
    } else {
        from_upper
    }
}

/// On hex digits the biased value is the nibble. The bound 15 alone does not
/// tell the digits apart: the bytes from `':'` to `'@'` land in range too, and
/// only the test for the gaps refuses them.
pub proof fn lemma_biased_value(c: u8)
    ensures
        is_hex_char(c) ==> biased_value(c) == nibble_of(c),
        is_hex_char(c) <==> biased_value(c) <= 15 && !in_ascii_gap(c),
        ASCII_NINE < c < ASCII_UPPER_A ==> biased_value(c) <= 15,
{
}

/// Classifies one character: its value, and whether it is a hex digit.
pub fn decode_lane(c: u8) -> (r: (u8, bool))
    ensures
        r.0 == biased_value(c),
        r.1 == is_hex_char(c),
        r.1 ==> r.0 == nibble_of(c),
{
    let mut val: u8 = c.wrapping_sub(ASCII_ZERO);
    if c > ASCII_NINE {
        val = val.wrapping_sub(GAP_DIGIT_TO_UPPER);
    }
    if c >= ASCII_LOWER_A {
        val = val.wrapping_sub(GAP_UPPER_TO_LOWER);
    }
    let in_gap = (c > ASCII_NINE && c < ASCII_UPPER_A) || (c > ASCII_UPPER_F && c
        < ASCII_LOWER_A);
    proof {
        lemma_biased_value(c);
    }
    (val, val <= 15 && !in_gap)
}

/// The first permute table: the entries of the characters `0x00..=0x3F`.
pub const PERMUTE_LOW: [u8; 64] = [
    255, 255, 255, 255, 255, 255, 255, 255, 255, 255, 255, 255, 255, 255, 255, 255,
    255, 255, 255, 255, 255, 255, 255, 255, 255, 255, 255, 255, 255, 255, 255, 255,
    255, 255, 255, 255, 255, 255, 255, 255, 255, 255, 255, 255, 255, 255, 255, 255,
      0,   1,   2,   3,   4,   5,   6,   7,   8,   9, 255, 255, 255, 255, 255, 255,
];

/// The second permute table: the entries of the characters `0x40..=0x7F`.
pub const PERMUTE_HIGH: [u8; 64] = [
    255,  10,  11,  12,  13,  14,  15, 255, 255, 255, 255, 255, 255, 255, 255, 255,
    255, 255, 255, 255, 255, 255, 255, 255, 255, 255, 255, 255, 255, 255, 255, 255,
    255,  10,  11,  12,  13,  14,  15, 255, 255, 255, 255, 255, 255, 255, 255, 255,
    255, 255, 255, 255, 255, 255, 255, 255, 255, 255, 255, 255, 255, 255, 255, 255,
];

/// One lane of the table permute: the low six bits of the character index
/// a table, the seventh bit picks the table, and a character with the eighth
/// bit set is marked invalid whatever the tables hold.
pub fn permute_lane(c: u8) -> (r: u8)
    ensures
        r == lut_entry(c),
        r == INVALID_NIBBLE <==> !is_hex_char(c),
        r != INVALID_NIBBLE ==> is_nibble(r),
{
    assert(c & 0x3f == c % 64) by (bit_vector);
    assert((c & 0x40 == 0) <==> (c % 128 < 64)) by (bit_vector);
    assert((c & 0x80 == 0) <==> (c < 128)) by (bit_vector);
    let index: usize = (c & 0x3f) as usize;
    let picked: u8 = if c & 0x40 == 0 {
        PERMUTE_LOW[index]
    } else {
        PERMUTE_HIGH[index]
    };
    if c & 0x80 == 0 {
        picked
    } else {
        INVALID_NIBBLE
    }
}

/// Combines two nibbles into a byte by multiply and add: `hi * 16 + lo`.
pub fn multiply_add(hi: u8, lo: u8) -> (r: u8)
    requires
        is_nibble(hi),
        is_nibble(lo),
    ensures
        r == 16 * hi + lo,
{
    hi * 16 + lo
}

/// Packs two nibbles into a byte: the high one shifted left by four bits, or-ed with the low one.
pub fn pack_nibbles(hi: u8, lo: u8) -> (r: u8)
    requires
        is_nibble(hi),
        is_nibble(lo),
    ensures
        r == 16 * hi + lo,
{
    assert((hi << 4) | lo == 16 * hi + lo) by (bit_vector)
        requires
            hi < 16,
            lo < 16,
    ;
    (hi << 4) | lo
}

} // verus!
