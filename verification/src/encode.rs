//! Bytes to hex text.
//!
//! The input is taken in chunks, widest first: 32 bytes, then 16. What is
//! left is shorter than every chunk. Where the whole input holds at least one
//! narrow chunk, the last 16 bytes are encoded once more, ending exactly at
//! the end of the input; a shorter input is encoded byte by byte.
//!
//! A chunk kernel splits every byte into its two nibbles, turns every nibble
//! into its digit, and interleaves the digits. The families differ in how a
//! nibble becomes a digit: by arithmetic, or out of a table.

use vstd::pervasive::unreached;
use vstd::prelude::*;
use vstd::slice::slice_subrange;
use vstd::utf8::encode_utf8;
use crate::buf::{
    holds_prefix, initialized, lemma_initialized_bytes, lemma_stored_next, stored, Buf,
};
use crate::error::Error;
use crate::family::{default_family, Family};
use crate::laws::{law_encode_is_lowercase_pairs, law_encode_tails_agree};
use crate::model::{
    hex_digit, hex_encode, hex_text, is_lower_hex_char, is_nibble, lemma_hex_encode_subrange,
    ASCII_LOWER_A, ASCII_ZERO,
};
use crate::tail::{choose_tail, Tail};
use crate::text::{ascii_chars, is_ascii_bytes, string_from_ascii};

verus! {

/// The widest chunk of the encoder, in input bytes.
pub const ENCODE_WIDE: usize = 32;

/// The narrowest chunk of the encoder, in input bytes.
pub const ENCODE_NARROW: usize = 16;

/// Turns each nibble lane into its lowercase hex digit.
///
/// Both candidates are formed in every lane, `'0' + n` and `'a' - 10 + n`,
/// and the compare `n > 9` picks between them.
pub fn nibble_lanes_to_ascii<const LANES: usize>(n: &[u8; LANES]) -> (r: [u8; LANES])
    requires
        forall|i: int| 0 <= i < LANES ==> is_nibble(#[trigger] n@[i]),
    ensures
        forall|i: int| 0 <= i < LANES ==> #[trigger] r@[i] == hex_digit(n@[i]),
{
    let mut out: [u8; LANES] = [0u8; LANES];
    let mut i: usize = 0;
    while i < LANES
        invariant
            i <= LANES,
            forall|k: int| 0 <= k < LANES ==> is_nibble(#[trigger] n@[k]),
            forall|k: int| 0 <= k < i ==> #[trigger] out@[k] == hex_digit(n@[k]),
        decreases LANES - i,
    {
        let lane: u8 = n[i];
        assert(is_nibble(n@[i as int]));
        let base_0: u8 = lane + ASCII_ZERO;
        let base_a: u8 = lane + (ASCII_LOWER_A - 10);
        out[i] = if lane > 9 {
            base_a
        } else {
            base_0
        };
        i += 1;
    }
    out
}

/// The lowercase hex digit of every nibble.
pub const HEX_DIGITS: [u8; 16] = [
    0x30, 0x31, 0x32, 0x33, 0x34, 0x35, 0x36, 0x37, 0x38, 0x39, 0x61, 0x62, 0x63, 0x64, 0x65, 0x66,
];

/// Turns each nibble lane into its lowercase hex digit by looking it up in
/// [`HEX_DIGITS`], the one table serving all lanes.
pub fn nibble_lanes_by_table<const LANES: usize>(n: &[u8; LANES]) -> (r: [u8; LANES])
    requires
        forall|i: int| 0 <= i < LANES ==> is_nibble(#[trigger] n@[i]),
    ensures
        forall|i: int| 0 <= i < LANES ==> #[trigger] r@[i] == hex_digit(n@[i]),
{
    let mut out: [u8; LANES] = [0u8; LANES];
    let mut i: usize = 0;
    while i < LANES
        invariant
            i <= LANES,
            forall|k: int| 0 <= k < LANES ==> is_nibble(#[trigger] n@[k]),
            forall|k: int| 0 <= k < i ==> #[trigger] out@[k] == hex_digit(n@[k]),
        decreases LANES - i,
    {
        let lane: u8 = n[i];
        assert(is_nibble(n@[i as int]));
        out[i] = HEX_DIGITS[lane as usize];
        i += 1;
    }
    out
}

/// Sixteen nibble lanes to sixteen lowercase hex digits.
pub fn nibble_to_ascii(n: &[u8; 16]) -> (r: [u8; 16])
    requires
        forall|i: int| 0 <= i < 16 ==> is_nibble(#[trigger] n@[i]),
    ensures
        forall|i: int| 0 <= i < 16 ==> #[trigger] r@[i] == hex_digit(n@[i]),
{
    nibble_lanes_to_ascii::<16>(n)
}

/// Thirty-two nibble lanes to thirty-two lowercase hex digits.
pub fn nibble_to_ascii_32(n: &[u8; 32]) -> (r: [u8; 32])
    requires
        forall|i: int| 0 <= i < 32 ==> is_nibble(#[trigger] n@[i]),
    ensures
        forall|i: int| 0 <= i < 32 ==> #[trigger] r@[i] == hex_digit(n@[i]),
{
    nibble_lanes_to_ascii::<32>(n)
}

/// Splits the bytes of a chunk into a lane set of high nibbles and one of low nibbles.
fn split_nibbles<const LANES: usize>(input: &[u8]) -> (r: ([u8; LANES], [u8; LANES]))
    requires
        input@.len() == LANES,
    ensures
        forall|i: int| 0 <= i < LANES ==> #[trigger] r.0@[i] == input@[i] / 16,
        forall|i: int| 0 <= i < LANES ==> #[trigger] r.1@[i] == input@[i] % 16,
{
    let mut high: [u8; LANES] = [0u8; LANES];
    let mut low: [u8; LANES] = [0u8; LANES];
    let mut i: usize = 0;
    while i < LANES
        invariant
            i <= LANES,
            input@.len() == LANES,
            forall|k: int| 0 <= k < i ==> #[trigger] high@[k] == input@[k] / 16,
            forall|k: int| 0 <= k < i ==> #[trigger] low@[k] == input@[k] % 16,
        decreases LANES - i,
    {
        let byte: u8 = input[i];
        assert(byte >> 4 == byte / 16) by (bit_vector);
        assert(byte & 0x0f == byte % 16) by (bit_vector);
        high[i] = byte >> 4;
        low[i] = byte & 0x0f;
        i += 1;
    }
    (high, low)
}

/// Interleaves two lane sets into output order: `hi0, lo0, hi1, lo1, ...`.
fn interleave<const LANES: usize, const WIDTH: usize>(
    hi: &[u8; LANES],
    lo: &[u8; LANES],
) -> (r: [u8; WIDTH])
    requires
        WIDTH == 2 * LANES,
    ensures
        forall|i: int| 0 <= i < LANES ==> r@[2 * i] == #[trigger] hi@[i],
        forall|i: int| 0 <= i < LANES ==> r@[2 * i + 1] == #[trigger] lo@[i],
{
    let mut out: [u8; WIDTH] = [0u8; WIDTH];
    let mut i: usize = 0;
    while i < LANES
        invariant
            i <= LANES,
            WIDTH == 2 * LANES,
            forall|k: int| 0 <= k < i ==> out@[2 * k] == #[trigger] hi@[k],
            forall|k: int| 0 <= k < i ==> out@[2 * k + 1] == #[trigger] lo@[k],
        decreases LANES - i,
    {
        out[2 * i] = hi[i];
        out[2 * i + 1] = lo[i];
        i += 1;
    }
    out
}

/// The chunk kernel of the encoder, for a chunk of `LANES` bytes: split every
/// byte into its nibbles, turn each nibble lane into its digit in the way of
/// the family, interleave.
fn encode_lanes<const LANES: usize, const WIDTH: usize>(
    family: Family,
    input: &[u8],
) -> (out: [u8; WIDTH])
    requires
        input@.len() == LANES,
        WIDTH == 2 * LANES,
    ensures
        out@ == hex_encode(input@),
{
    let (high_nibble, low_nibble) = split_nibbles::<LANES>(input);
    assert forall|i: int| 0 <= i < LANES implies is_nibble(#[trigger] high_nibble@[i]) by {
        assert(high_nibble@[i] == input@[i] / 16);
    }
    assert forall|i: int| 0 <= i < LANES implies is_nibble(#[trigger] low_nibble@[i]) by {
        assert(low_nibble@[i] == input@[i] % 16);
    }
    let (hi_ascii, lo_ascii) = match family {
        Family::Table => (
            nibble_lanes_by_table::<LANES>(&high_nibble),
            nibble_lanes_by_table::<LANES>(&low_nibble),
        ),
        _ => (
            nibble_lanes_to_ascii::<LANES>(&high_nibble),
            nibble_lanes_to_ascii::<LANES>(&low_nibble),
        ),
    };
    let out = interleave::<LANES, WIDTH>(&hi_ascii, &lo_ascii);
    proof {
        let want = hex_encode(input@);
        assert forall|j: int| 0 <= j < WIDTH implies out@[j] == want[j] by {
            let k = j / 2;
            assert(hi_ascii@[k] == hex_digit(high_nibble@[k]));
            assert(lo_ascii@[k] == hex_digit(low_nibble@[k]));
            assert(high_nibble@[k] == input@[k] / 16);
            assert(low_nibble@[k] == input@[k] % 16);
            if j % 2 == 0 {
                assert(j == 2 * k);
            } else {
                assert(j == 2 * k + 1);
            }
        }
        assert(out@ =~= want);
    }
    out
}

/// Encodes one chunk of 32 bytes into 64 hex digits, by arithmetic.
pub fn encode_simd_32(input: &[u8]) -> (out: [u8; 64])
    requires
        input@.len() == 32,
    ensures
        out@ == hex_encode(input@),
{
    encode_lanes::<32, 64>(Family::Portable, input)
}

/// Encodes one chunk of 16 bytes into 32 hex digits, by arithmetic.
pub fn encode_simd_16(input: &[u8]) -> (out: [u8; 32])
    requires
        input@.len() == 16,
    ensures
        out@ == hex_encode(input@),
{
    encode_lanes::<16, 32>(Family::Portable, input)
}

/// Encodes one wide chunk with the kernel of the family. Whatever the family,
/// the chunk comes out the same.
pub fn encode_wide(family: Family, input: &[u8]) -> (out: [u8; 64])
    requires
        input@.len() == ENCODE_WIDE,
    ensures
        out@ == hex_encode(input@),
{
    match family {
        Family::Table => encode_lanes::<32, 64>(Family::Table, input),
        _ => encode_simd_32(input),
    }
}

/// Encodes one narrow chunk with the kernel of the family. Whatever the
/// family, the chunk comes out the same.
pub fn encode_narrow(family: Family, input: &[u8]) -> (out: [u8; 32])
    requires
        input@.len() == ENCODE_NARROW,
    ensures
        out@ == hex_encode(input@),
{
    match family {
        Family::Table => encode_lanes::<16, 32>(Family::Table, input),
        _ => encode_simd_16(input),
    }
}

/// The scalar kernel: encodes `data` byte by byte into the slots from `at` on.
/// Right for any length.
pub fn encode_scalar<Dst: Buf + ?Sized>(data: &[u8], result: &mut Dst, at: usize)
    requires
        at + 2 * data@.len() <= old(result).slots().len(),
    ensures
        final(result).slots() == stored(old(result).slots(), at as int, hex_encode(data@)),
{
    let count: usize = data.len();
    let ghost total = result.slots().len();
    proof {
        result.lemma_slots_fit();
    }
    let mut i: usize = 0;
    while i < count
        invariant
            i <= count,
            count == data@.len(),
            at + 2 * count <= total <= usize::MAX,
            total == result.slots().len(),
            total == old(result).slots().len(),
            forall|k: int|
                0 <= k < total ==> #[trigger] result.slots()[k] == (if at <= k < at + 2 * i {
                    Some(hex_encode(data@)[k - at])
                } else {
                    old(result).slots()[k]
                }),
        decreases count - i,
    {
        let byte: u8 = data[i];
        assert(byte >> 4 == byte / 16) by (bit_vector);
        assert(byte & 0x0f == byte % 16) by (bit_vector);
        let hi: usize = (byte >> 4) as usize;
        let lo: usize = (byte & 0x0f) as usize;
        let pair: [u8; 2] = [
            ASCII_ZERO + hi as u8 + ((hi >= 10) as u8) * (ASCII_LOWER_A - ASCII_ZERO - 10),
            ASCII_ZERO + lo as u8 + ((lo >= 10) as u8) * (ASCII_LOWER_A - ASCII_ZERO - 10),
        ];
        assert(pair@[0] == hex_encode(data@)[2 * i]);
        assert(pair@[1] == hex_encode(data@)[2 * i + 1]);
        let ghost before = result.slots();
        result.write_at(at + 2 * i, &pair);
        assert forall|k: int| 0 <= k < total implies #[trigger] result.slots()[k] == (if at <= k
            < at + 2 * (i + 1) {
            Some(hex_encode(data@)[k - at])
        } else {
            old(result).slots()[k]
        }) by {
            assert(result.slots()[k] == stored(before, at + 2 * i, pair@)[k]);
            if at + 2 * i <= k < at + 2 * i + 2 {
                assert(k - (at + 2 * i) == 0 || k - (at + 2 * i) == 1);
            } else {
                assert(result.slots()[k] == before[k]);
            }
        }
        i += 1;
    }
    assert(result.slots() =~= stored(old(result).slots(), at as int, hex_encode(data@)));
}

/// Finishes an encode whose chunks covered the first `pos` bytes, in the way
/// `tail` says. Both ways leave the same slots: the whole text.
pub fn encode_tail<Dst: Buf + ?Sized>(
    family: Family,
    data: &[u8],
    dst: &mut Dst,
    pos: usize,
    tail: Tail,
)
    requires
        pos <= data@.len(),
        old(dst).slots().len() == 2 * data@.len(),
        holds_prefix(old(dst).slots(), hex_encode(data@), 2 * pos),
        tail == Tail::Overlap ==> data@.len() >= ENCODE_NARROW && data@.len() - pos
            <= ENCODE_NARROW,
    ensures
        final(dst).slots() == initialized(hex_encode(data@)),
{
    let len: usize = data.len();
    proof {
        dst.lemma_slots_fit();
        law_encode_tails_agree(data@, dst.slots(), pos as int);
    }
    match tail {
        Tail::Overlap => {
            let start: usize = len - ENCODE_NARROW;
            let chunk = encode_narrow(family, slice_subrange(data, start, len));
            dst.write_at(2 * start, &chunk);
        },
        Tail::Scalar => {
            let rest = slice_subrange(data, pos, len);
            encode_scalar(rest, dst, 2 * pos);
        },
    }
}

/// What `encode_to_buf` answers for an input of `len` bytes and a destination of `dst_len` slots.
pub open spec fn encode_to_buf_outcome(len: nat, dst_len: nat) -> Result<(), Error> {
    if dst_len == 2 * len {
        Ok(())
    } else {
        Err(Error::LengthMismatch { expected: (2 * len) as usize, actual: dst_len as usize })
    }
}

/// Writes the hex text of `data` into `dst`, which must have exactly two
/// slots per byte, with the kernels of the family named.
///
/// With any other destination nothing is written and the mismatch is
/// reported. Otherwise every slot is written. The family has no part in the
/// outcome.
pub fn encode_to_buf_with<Dst: Buf + ?Sized>(
    family: Family,
    data: &[u8],
    dst: &mut Dst,
) -> (r: Result<(), Error>)
    requires
        2 * data@.len() <= usize::MAX,
    ensures
        r == encode_to_buf_outcome(data@.len(), old(dst).slots().len()),
        r is Ok ==> final(dst).slots() == initialized(hex_encode(data@)),
        r is Err ==> final(dst).slots() == old(dst).slots(),
{
    let len: usize = data.len();
    let expected_len: usize = len * 2;
    let actual: usize = dst.dst_len();
    if actual != expected_len {
        return Err(Error::LengthMismatch { expected: expected_len, actual });
    }
    let chunked: bool = match family {
        Family::Scalar => false,
        _ => true,
    };
    let ghost want = hex_encode(data@);
    let mut pos: usize = 0;
    while chunked && len - pos >= ENCODE_WIDE
        invariant
            pos <= len,
            len == data@.len(),
            2 * len <= usize::MAX,
            dst.slots().len() == 2 * len,
            want == hex_encode(data@),
            holds_prefix(dst.slots(), want, 2 * pos),
        decreases len - pos,
    {
        let chunk = encode_wide(family, slice_subrange(data, pos, pos + ENCODE_WIDE));
        proof {
            lemma_hex_encode_subrange(data@, pos as int, pos + ENCODE_WIDE);
            lemma_stored_next(dst.slots(), want, 2 * pos, 2 * (pos + ENCODE_WIDE));
        }
        dst.write_at(pos * 2, &chunk);
        pos += ENCODE_WIDE;
    }
    while chunked && len - pos >= ENCODE_NARROW
        invariant
            pos <= len,
            len == data@.len(),
            2 * len <= usize::MAX,
            dst.slots().len() == 2 * len,
            want == hex_encode(data@),
            holds_prefix(dst.slots(), want, 2 * pos),
        decreases len - pos,
    {
        let chunk = encode_narrow(family, slice_subrange(data, pos, pos + ENCODE_NARROW));
        proof {
            lemma_hex_encode_subrange(data@, pos as int, pos + ENCODE_NARROW);
            lemma_stored_next(dst.slots(), want, 2 * pos, 2 * (pos + ENCODE_NARROW));
        }
        dst.write_at(pos * 2, &chunk);
        pos += ENCODE_NARROW;
    }
    if pos < len {
        encode_tail(family, data, dst, pos, choose_tail(family, len, ENCODE_NARROW));
    } else {
        assert(dst.slots() =~= initialized(want));
    }
    Ok(())
}

/// Writes the hex text of `data` into `dst`, which must have exactly two slots per byte.
///
/// With any other destination nothing is written and the mismatch is
/// reported. Otherwise every slot is written.
pub fn encode_to_buf<Dst: Buf + ?Sized>(data: &[u8], dst: &mut Dst) -> (r: Result<(), Error>)
    requires
        2 * data@.len() <= usize::MAX,
    ensures
        r == encode_to_buf_outcome(data@.len(), old(dst).slots().len()),
        r is Ok ==> final(dst).slots() == initialized(hex_encode(data@)),
        r is Err ==> final(dst).slots() == old(dst).slots(),
{
    encode_to_buf_with(default_family(), data, dst)
}

/// Hex text is ASCII, and its characters are those with the codes of its bytes.
pub proof fn lemma_hex_encode_is_ascii(bytes: Seq<u8>)
    ensures
        is_ascii_bytes(hex_encode(bytes)),
        ascii_chars(hex_encode(bytes)) == hex_text(bytes),
{
    law_encode_is_lowercase_pairs(bytes);
    assert forall|i: int| 0 <= i < hex_encode(bytes).len() implies #[trigger] hex_encode(
        bytes,
    )[i] < 0x80 by {
        assert(is_lower_hex_char(hex_encode(bytes)[i]));
    }
    assert(ascii_chars(hex_encode(bytes)) =~= hex_text(bytes));
}

/// The hex text of `data`: lowercase, two digits per byte, in one allocation.
pub fn encode(data: &[u8]) -> (text: String)
    requires
        2 * data@.len() <= usize::MAX,
    ensures
        text@ == hex_text(data@),
        encode_utf8(text@) == hex_encode(data@),
{
    let mut result: Vec<u8> = vec![0u8; data.len() * 2];
    match encode_to_buf(data, result.as_mut_slice()) {
        Ok(()) => {},
        Err(_) => unreached(),
    }
    proof {
        lemma_initialized_bytes(result@, hex_encode(data@));
        lemma_hex_encode_is_ascii(data@);
    }
    string_from_ascii(result)
}

} // verus!
