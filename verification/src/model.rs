//! The mathematical model of the codec.
//!
//! Hex text is modelled as a sequence of bytes (ASCII codes). A byte `b`
//! is written as the two digits of `b / 16` and `b % 16`, in lowercase; the
//! digits `0-9`, `A-F` and `a-f` are read back, every other byte is refused.

use vstd::prelude::*;
use crate::error::Error;

verus! {

/// ASCII `'0'`.
pub const ASCII_ZERO: u8 = 0x30;

/// ASCII `'9'`.
pub const ASCII_NINE: u8 = 0x39;

/// ASCII `'A'`.
pub const ASCII_UPPER_A: u8 = 0x41;

/// ASCII `'F'`.
pub const ASCII_UPPER_F: u8 = 0x46;

/// ASCII `'a'`.
pub const ASCII_LOWER_A: u8 = 0x61;

/// ASCII `'f'`.
pub const ASCII_LOWER_F: u8 = 0x66;

/// True for the values that fit in four bits.
pub open spec fn is_nibble(n: u8) -> bool {
    n < 16
}

/// The lowercase hex digit that stands for the nibble `n`.
pub open spec fn hex_digit(n: u8) -> u8
    recommends
        is_nibble(n),
{
    if n < 10 {
        (ASCII_ZERO + n) as u8
    } else {
        (ASCII_LOWER_A + (n - 10)) as u8
    }
}

/// True for `0-9` and `a-f`: the digits that encoding produces.
pub open spec fn is_lower_hex_char(c: u8) -> bool {
    ||| ASCII_ZERO <= c <= ASCII_NINE
    ||| ASCII_LOWER_A <= c <= ASCII_LOWER_F
}

/// True for `0-9`, `A-F` and `a-f`: the digits that decoding accepts.
pub open spec fn is_hex_char(c: u8) -> bool {
    ||| ASCII_ZERO <= c <= ASCII_NINE
    ||| ASCII_UPPER_A <= c <= ASCII_UPPER_F
    ||| ASCII_LOWER_A <= c <= ASCII_LOWER_F
}

/// The nibble that the hex digit `c` stands for.
pub open spec fn nibble_of(c: u8) -> u8
    recommends
        is_hex_char(c),
{
    if c <= ASCII_NINE {
        (c - ASCII_ZERO) as u8
    } else if c <= ASCII_UPPER_F {
        (c - ASCII_UPPER_A + 10) as u8
    } else {
        (c - ASCII_LOWER_A + 10) as u8
    }
}

/// The byte that the two hex digits `hi`, `lo` stand for.
pub open spec fn pair_value(hi: u8, lo: u8) -> u8
    recommends
        is_hex_char(hi),
        is_hex_char(lo),
{
    (16 * nibble_of(hi) + nibble_of(lo)) as u8
}

/// The hex text of `bytes`: position `2 * k` holds the digit of the high
/// nibble of byte `k`, position `2 * k + 1` the digit of its low nibble.
pub open spec fn hex_encode(bytes: Seq<u8>) -> Seq<u8> {
    Seq::new(
        2 * bytes.len(),
        |i: int|
            if i % 2 == 0 {
                hex_digit(bytes[i / 2] / 16)
            } else {
                hex_digit(bytes[i / 2] % 16)
            },
    )
}

/// The characters of the hex text of `bytes`.
pub open spec fn hex_text(bytes: Seq<u8>) -> Seq<char> {
    Seq::new(2 * bytes.len(), |i: int| hex_encode(bytes)[i] as char)
}

/// True when every byte of `text` is a hex digit.
pub open spec fn is_hex_text(text: Seq<u8>) -> bool {
    forall|i: int| 0 <= i < text.len() ==> is_hex_char(#[trigger] text[i])
}

/// The bytes that the digit pairs of `text` stand for. It is meant for hex
/// text of even length; a pair with another character in it has no meaning.
pub open spec fn hex_decode_bytes(text: Seq<u8>) -> Seq<u8> {
    Seq::new(text.len() / 2, |k: int| pair_value(text[2 * k], text[2 * k + 1]))
}

/// What decoding `text` gives. The length is judged first, before any
/// character; then one character outside the alphabet refuses the whole text.
pub open spec fn hex_decode(text: Seq<u8>) -> Result<Seq<u8>, Error> {
    if text.len() % 2 != 0 {
        Err(Error::OddLength)
    } else if !is_hex_text(text) {
        Err(Error::InvalidCharacter)
    } else {
        Ok(hex_decode_bytes(text))
    }
}

/// Every nibble has a lowercase hex digit, and that digit reads back as the nibble.
pub proof fn lemma_hex_digit(n: u8)
    requires
        is_nibble(n),
    ensures
        is_lower_hex_char(hex_digit(n)),
        is_hex_char(hex_digit(n)),
        nibble_of(hex_digit(n)) == n,
{
}

/// The two digits written for a byte read back as that byte.
pub proof fn lemma_pair_value_of_digits(b: u8)
    ensures
        pair_value(hex_digit(b / 16), hex_digit(b % 16)) == b,
{
}

/// Encoding a window of the input gives the matching window of the output.
pub proof fn lemma_hex_encode_subrange(bytes: Seq<u8>, from: int, to: int)
    requires
        0 <= from <= to <= bytes.len(),
    ensures
        hex_encode(bytes.subrange(from, to)) == hex_encode(bytes).subrange(2 * from, 2 * to),
{
    let part = bytes.subrange(from, to);
    assert forall|i: int| 0 <= i < 2 * (to - from) implies hex_encode(part)[i] == hex_encode(
        bytes,
    )[2 * from + i] by {
        assert((2 * from + i) / 2 == from + i / 2);
        assert((2 * from + i) % 2 == i % 2);
        assert(part[i / 2] == bytes[from + i / 2]);
    }
    assert(hex_encode(part) =~= hex_encode(bytes).subrange(2 * from, 2 * to));
}

/// Decoding a window of pairs gives the matching window of the output.
pub proof fn lemma_hex_decode_bytes_subrange(text: Seq<u8>, from: int, to: int)
    requires
        0 <= from <= to,
        2 * to <= text.len(),
    ensures
        hex_decode_bytes(text.subrange(2 * from, 2 * to)) == hex_decode_bytes(text).subrange(
            from,
            to,
        ),
{
    let part = text.subrange(2 * from, 2 * to);
    assert(part.len() / 2 == (to - from) as nat);
    assert forall|k: int| 0 <= k < to - from implies hex_decode_bytes(part)[k]
        == hex_decode_bytes(text)[from + k] by {
        assert(part[2 * k] == text[2 * from + 2 * k]);
        assert(part[2 * k + 1] == text[2 * from + 2 * k + 1]);
    }
    assert(hex_decode_bytes(part) =~= hex_decode_bytes(text).subrange(from, to));
}

/// A text is hex text exactly when both of its parts are.
pub proof fn lemma_is_hex_text_split(text: Seq<u8>, mid: int)
    requires
        0 <= mid <= text.len(),
    ensures
        is_hex_text(text) <==> is_hex_text(text.subrange(0, mid)) && is_hex_text(
            text.subrange(mid, text.len() as int),
        ),
{
    let left = text.subrange(0, mid);
    let right = text.subrange(mid, text.len() as int);
    if is_hex_text(text) {
        assert forall|i: int| 0 <= i < left.len() implies is_hex_char(#[trigger] left[i]) by {
            assert(left[i] == text[i]);
        }
        assert forall|i: int| 0 <= i < right.len() implies is_hex_char(#[trigger] right[i]) by {
            assert(right[i] == text[mid + i]);
        }
    }
    if is_hex_text(left) && is_hex_text(right) {
        assert forall|i: int| 0 <= i < text.len() implies is_hex_char(#[trigger] text[i]) by {
            if i < mid {
                assert(text[i] == left[i]);
            } else {
                assert(text[i] == right[i - mid]);
            }
        }
    }
}

/// A window of hex text is hex text.
pub proof fn lemma_is_hex_text_subrange(text: Seq<u8>, from: int, to: int)
    requires
        0 <= from <= to <= text.len(),
        is_hex_text(text),
    ensures
        is_hex_text(text.subrange(from, to)),
{
    let part = text.subrange(from, to);
    assert forall|i: int| 0 <= i < part.len() implies is_hex_char(#[trigger] part[i]) by {
        assert(part[i] == text[from + i]);
    }
}

} // verus!
