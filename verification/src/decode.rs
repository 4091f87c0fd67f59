//! Hex text to bytes, with validation.
//!
//! The text is taken in chunks, widest first: 64 characters, then 32. Every
//! chunk is validated and converted in one pass, and one invalid character
//! stops the whole operation. What the chunks leave over is finished by
//! decoding the last 32 characters once more, where the text is that long,
//! and by table lookup where it is shorter.
//!
//! The families differ in how a chunk is classified and packed: by bias
//! arithmetic with a guard for the gaps of ASCII, then shift and or; or by a
//! permute through two tables, then multiply and add.

use vstd::prelude::*;
use vstd::slice::slice_subrange;
use vstd::string::StringSliceAdditionalSpecFns;
use crate::buf::{
    holds_prefix, initialized, lemma_initialized_bytes, lemma_slice_len_fits,
    lemma_stored_in_part_next, lemma_stored_next, stored_in_part, Buf,
};
use crate::classify::{
    biased_value, decode_lane, lemma_biased_value, multiply_add, pack_nibbles, permute_lane,
    INVALID_NIBBLE,
};
use crate::error::Error;
use crate::family::{default_family, Family};
use crate::laws::law_decode_tails_agree;
use crate::model::{
    hex_decode, hex_decode_bytes, is_hex_char, is_hex_text, is_nibble,
    lemma_hex_decode_bytes_subrange, lemma_is_hex_text_split, lemma_is_hex_text_subrange,
    nibble_of,
};
use crate::remainder::decode_remainder_lut;
use crate::tail::{choose_tail, Tail};

verus! {

/// The widest chunk of the decoder, in characters.
pub const DECODE_WIDE: usize = 64;

/// The narrowest chunk of the decoder, in characters.
pub const DECODE_NARROW: usize = 32;

/// Classifies a lane set of characters: the value of every lane, and whether
/// all lanes are hex digits. Where they are, the values are the nibbles.
pub fn decode_hex_nibbles<const LANES: usize>(n: &[u8; LANES]) -> (r: ([u8; LANES], bool))
    ensures
        r.1 == is_hex_text(n@),
        forall|i: int| 0 <= i < LANES ==> #[trigger] r.0@[i] == biased_value(n@[i]),
        r.1 ==> forall|i: int| 0 <= i < LANES ==> #[trigger] r.0@[i] == nibble_of(n@[i]),
{
    let mut val: [u8; LANES] = [0u8; LANES];
    let mut valid: bool = true;
    let mut i: usize = 0;
    while i < LANES
        invariant
            i <= LANES,
            valid <==> forall|k: int| 0 <= k < i ==> is_hex_char(#[trigger] n@[k]),
            forall|k: int| 0 <= k < i ==> #[trigger] val@[k] == biased_value(n@[k]),
        decreases LANES - i,
    {
        let (lane, lane_valid) = decode_lane(n[i]);
        val[i] = lane;
        valid = valid && lane_valid;
        i += 1;
    }
    proof {
        if valid {
            assert forall|k: int| 0 <= k < LANES implies #[trigger] val@[k] == nibble_of(
                n@[k],
            ) by {
                assert(is_hex_char(n@[k]));
                lemma_biased_value(n@[k]);
            }
        }
    }
    (val, valid)
}

/// Splits a chunk into its characters at even positions and those at odd positions.
fn deinterleave<const LANES: usize>(chunk: &[u8]) -> (r: ([u8; LANES], [u8; LANES]))
    requires
        chunk@.len() == 2 * LANES,
    ensures
        forall|i: int| 0 <= i < LANES ==> #[trigger] r.0@[i] == chunk@[2 * i],
        forall|i: int| 0 <= i < LANES ==> #[trigger] r.1@[i] == chunk@[2 * i + 1],
{
    proof {
        lemma_slice_len_fits(chunk);
    }
    let mut high: [u8; LANES] = [0u8; LANES];
    let mut low: [u8; LANES] = [0u8; LANES];
    let mut i: usize = 0;
    while i < LANES
        invariant
            i <= LANES,
            chunk@.len() == 2 * LANES <= usize::MAX,
            forall|k: int| 0 <= k < i ==> #[trigger] high@[k] == chunk@[2 * k],
            forall|k: int| 0 <= k < i ==> #[trigger] low@[k] == chunk@[2 * k + 1],
        decreases LANES - i,
    {
        high[i] = chunk[2 * i];
        low[i] = chunk[2 * i + 1];
        i += 1;
    }
    (high, low)
}

/// Packs two lane sets of nibbles into bytes, lane by lane.
pub fn pack_lanes<const LANES: usize>(hi: &[u8; LANES], lo: &[u8; LANES]) -> (r: [u8; LANES])
    requires
        forall|i: int| 0 <= i < LANES ==> is_nibble(#[trigger] hi@[i]),
        forall|i: int| 0 <= i < LANES ==> is_nibble(#[trigger] lo@[i]),
    ensures
        forall|i: int| 0 <= i < LANES ==> #[trigger] r@[i] == 16 * hi@[i] + lo@[i],
{
    let mut out: [u8; LANES] = [0u8; LANES];
    let mut i: usize = 0;
    while i < LANES
        invariant
            i <= LANES,
            forall|k: int| 0 <= k < LANES ==> is_nibble(#[trigger] hi@[k]),
            forall|k: int| 0 <= k < LANES ==> is_nibble(#[trigger] lo@[k]),
            forall|k: int| 0 <= k < i ==> #[trigger] out@[k] == 16 * hi@[k] + lo@[k],
        decreases LANES - i,
    {
        assert(is_nibble(hi@[i as int]) && is_nibble(lo@[i as int]));
        out[i] = pack_nibbles(hi[i], lo[i]);
        i += 1;
    }
    out
}

/// A text whose characters at even positions and at odd positions are all
/// hex digits is hex text, and the other way round.
proof fn lemma_is_hex_text_lanes(chunk: Seq<u8>, high: Seq<u8>, low: Seq<u8>)
    requires
        chunk.len() == 2 * high.len(),
        high.len() == low.len(),
        forall|i: int| 0 <= i < high.len() ==> #[trigger] high[i] == chunk[2 * i],
        forall|i: int| 0 <= i < low.len() ==> #[trigger] low[i] == chunk[2 * i + 1],
    ensures
        is_hex_text(chunk) <==> is_hex_text(high) && is_hex_text(low),
{
    if is_hex_text(chunk) {
        assert forall|i: int| 0 <= i < high.len() implies is_hex_char(#[trigger] high[i]) by {
            assert(is_hex_char(chunk[2 * i]));
        }
        assert forall|i: int| 0 <= i < low.len() implies is_hex_char(#[trigger] low[i]) by {
            assert(is_hex_char(chunk[2 * i + 1]));
        }
    }
    if is_hex_text(high) && is_hex_text(low) {
        assert forall|j: int| 0 <= j < chunk.len() implies is_hex_char(#[trigger] chunk[j]) by {
            let k = j / 2;
            if j % 2 == 0 {
                assert(high[k] == chunk[2 * k]);
                assert(is_hex_char(high[k]));
            } else {
                assert(low[k] == chunk[2 * k + 1]);
                assert(is_hex_char(low[k]));
            }
        }
    }
}

/// The chunk kernel of the decoder, for a chunk of `2 * LANES` characters:
/// deinterleave, classify both lane sets, and, only where every lane of both
/// is a hex digit, pack the nibble pairs into bytes.
fn decode_lanes<const LANES: usize>(chunk: &[u8]) -> (r: Option<[u8; LANES]>)
    requires
        chunk@.len() == 2 * LANES,
    ensures
        r is Some <==> is_hex_text(chunk@),
        r matches Some(out) ==> out@ == hex_decode_bytes(chunk@),
{
    let (high_bytes, low_bytes) = deinterleave::<LANES>(chunk);
    let (high_nibbles, high_valid) = decode_hex_nibbles::<LANES>(&high_bytes);
    let (low_nibbles, low_valid) = decode_hex_nibbles::<LANES>(&low_bytes);
    proof {
        lemma_is_hex_text_lanes(chunk@, high_bytes@, low_bytes@);
    }
    if !(high_valid && low_valid) {
        return None;
    }
    assert forall|i: int| 0 <= i < LANES implies is_nibble(#[trigger] high_nibbles@[i]) by {
        assert(high_nibbles@[i] == nibble_of(high_bytes@[i]));
        assert(is_hex_char(high_bytes@[i]));
    }
    assert forall|i: int| 0 <= i < LANES implies is_nibble(#[trigger] low_nibbles@[i]) by {
        assert(low_nibbles@[i] == nibble_of(low_bytes@[i]));
        assert(is_hex_char(low_bytes@[i]));
    }
    let decoded = pack_lanes::<LANES>(&high_nibbles, &low_nibbles);
    proof {
        let want = hex_decode_bytes(chunk@);
        assert(chunk@.len() / 2 == LANES);
        assert forall|k: int| 0 <= k < LANES implies decoded@[k] == want[k] by {
            assert(decoded@[k] == 16 * high_nibbles@[k] + low_nibbles@[k]);
            assert(high_nibbles@[k] == nibble_of(high_bytes@[k]));
            assert(low_nibbles@[k] == nibble_of(low_bytes@[k]));
            assert(high_bytes@[k] == chunk@[2 * k]);
            assert(low_bytes@[k] == chunk@[2 * k + 1]);
        }
        assert(decoded@ =~= want);
    }
    Some(decoded)
}

/// Validates and decodes one chunk of 64 characters into 32 bytes, by arithmetic.
pub fn decode_simd_64(chunk: &[u8]) -> (r: Option<[u8; 32]>)
    requires
        chunk@.len() == 64,
    ensures
        r is Some <==> is_hex_text(chunk@),
        r matches Some(out) ==> out@ == hex_decode_bytes(chunk@),
{
    decode_lanes::<32>(chunk)
}

/// Validates and decodes one chunk of 32 characters into 16 bytes, by arithmetic.
pub fn decode_simd_32(chunk: &[u8]) -> (r: Option<[u8; 16]>)
    requires
        chunk@.len() == 32,
    ensures
        r is Some <==> is_hex_text(chunk@),
        r matches Some(out) ==> out@ == hex_decode_bytes(chunk@),
{
    decode_lanes::<16>(chunk)
}

/// The kernel of the decoder by table permute, for a chunk of `2 * LANES`
/// characters, in one pass: every character is replaced by its entry in the
/// two permute tables, the chunk is refused if any lane holds the invalid
/// mark, and neighbouring nibbles are combined by multiply and add.
fn decode_permute<const LANES: usize>(chunk: &[u8]) -> (r: Option<[u8; LANES]>)
    requires
        chunk@.len() == 2 * LANES,
    ensures
        r is Some <==> is_hex_text(chunk@),
        r matches Some(out) ==> out@ == hex_decode_bytes(chunk@),
{
    proof {
        lemma_slice_len_fits(chunk);
    }
    let mut out: [u8; LANES] = [0u8; LANES];
    let mut any_invalid: bool = false;
    let mut k: usize = 0;
    while k < LANES
        invariant
            k <= LANES,
            chunk@.len() == 2 * LANES <= usize::MAX,
            any_invalid <==> exists|j: int| 0 <= j < 2 * k && !is_hex_char(#[trigger] chunk@[j]),
            !any_invalid ==> forall|i: int|
                0 <= i < k ==> #[trigger] out@[i] == hex_decode_bytes(chunk@)[i],
        decreases LANES - k,
    {
        let hi: u8 = permute_lane(chunk[2 * k]);
        let lo: u8 = permute_lane(chunk[2 * k + 1]);
        if hi == INVALID_NIBBLE || lo == INVALID_NIBBLE {
            any_invalid = true;
        } else if !any_invalid {
            out[k] = multiply_add(hi, lo);
        }
        proof {
            if !is_hex_char(chunk@[2 * k]) || !is_hex_char(chunk@[2 * k + 1]) {
                let j = if !is_hex_char(chunk@[2 * k]) {
                    2 * k
                } else {
                    2 * k + 1
                };
                assert(0 <= j < 2 * (k + 1) && !is_hex_char(chunk@[j]));
            }
        }
        k += 1;
    }
    proof {
        if any_invalid {
            let j = choose|j: int| 0 <= j < 2 * LANES && !is_hex_char(#[trigger] chunk@[j]);
            assert(!is_hex_text(chunk@));
        } else {
            assert forall|j: int| 0 <= j < chunk@.len() implies is_hex_char(
                #[trigger] chunk@[j],
            ) by {}
            assert(chunk@.len() / 2 == LANES);
            assert(out@ =~= hex_decode_bytes(chunk@));
        }
    }
    if any_invalid {
        None
    } else {
        Some(out)
    }
}

/// Validates and decodes one wide chunk with the kernel of the family.
/// Whatever the family, the chunk is judged and decoded the same.
pub fn decode_wide(family: Family, chunk: &[u8]) -> (r: Option<[u8; 32]>)
    requires
        chunk@.len() == DECODE_WIDE,
    ensures
        r is Some <==> is_hex_text(chunk@),
        r matches Some(out) ==> out@ == hex_decode_bytes(chunk@),
{
    match family {
        Family::Table => decode_permute::<32>(chunk),
        _ => decode_simd_64(chunk),
    }
}

/// Validates and decodes one narrow chunk with the kernel of the family.
/// Whatever the family, the chunk is judged and decoded the same.
pub fn decode_narrow(family: Family, chunk: &[u8]) -> (r: Option<[u8; 16]>)
    requires
        chunk@.len() == DECODE_NARROW,
    ensures
        r is Some <==> is_hex_text(chunk@),
        r matches Some(out) ==> out@ == hex_decode_bytes(chunk@),
{
    match family {
        Family::Table => decode_permute::<16>(chunk),
        _ => decode_simd_32(chunk),
    }
}

/// The error for a character that is not a hex digit.
pub fn invalid_hex_char_error() -> (e: Error)
    ensures
        e == Error::InvalidCharacter,
{
    Error::InvalidCharacter
}

/// The number of bytes that a text of `input_len` characters decodes to;
/// a text of odd length decodes to nothing.
pub fn required_output_len(input_len: usize) -> (r: Result<usize, Error>)
    ensures
        input_len % 2 != 0 ==> r == Err::<usize, Error>(Error::OddLength),
        input_len % 2 == 0 ==> r == Ok::<usize, Error>(input_len / 2),
{
    if input_len % 2 != 0 {
        Err(Error::OddLength)
    } else {
        Ok(input_len / 2)
    }
}

/// A front part that is hex text, followed by a chunk that is, makes a longer front part that is.
proof fn lemma_is_hex_text_extend(text: Seq<u8>, front: int, to: int)
    requires
        0 <= front <= to <= text.len(),
        is_hex_text(text.subrange(0, front)),
        is_hex_text(text.subrange(front, to)),
    ensures
        is_hex_text(text.subrange(0, to)),
{
    let whole = text.subrange(0, to);
    assert(whole.subrange(0, front) =~= text.subrange(0, front));
    assert(whole.subrange(front, to) =~= text.subrange(front, to));
    lemma_is_hex_text_split(whole, front);
}

/// Finishes a decode whose chunks covered the first `pos` characters, in the
/// way `tail` says. Both ways give the same answer and leave the same slots.
pub fn decode_tail<Dst: Buf + ?Sized>(
    family: Family,
    input: &[u8],
    output: &mut Dst,
    pos: usize,
    tail: Tail,
) -> (r: Result<(), Error>)
    requires
        input@.len() % 2 == 0,
        pos % 2 == 0,
        pos <= input@.len(),
        old(output).slots().len() == input@.len() / 2,
        is_hex_text(input@.subrange(0, pos as int)),
        holds_prefix(old(output).slots(), hex_decode_bytes(input@), pos as int / 2),
        tail == Tail::Overlap ==> input@.len() >= DECODE_NARROW && input@.len() - pos
            <= DECODE_NARROW,
    ensures
        r is Ok <==> is_hex_text(input@),
        r matches Err(e) ==> e == Error::InvalidCharacter,
        r is Ok ==> final(output).slots() == initialized(hex_decode_bytes(input@)),
        stored_in_part(final(output).slots(), old(output).slots(), 0, hex_decode_bytes(input@)),
{
    let len: usize = input.len();
    proof {
        law_decode_tails_agree(input@, output.slots(), pos as int);
        lemma_hex_decode_bytes_subrange(input@, pos as int / 2, len as int / 2);
    }
    match tail {
        Tail::Overlap => {
            let start: usize = len - DECODE_NARROW;
            match decode_narrow(family, slice_subrange(input, start, len)) {
                None => Err(invalid_hex_char_error()),
                Some(chunk) => {
                    output.write_at(start / 2, &chunk);
                    Ok(())
                },
            }
        },
        Tail::Scalar => decode_remainder_lut(input, output, pos, pos / 2, len - pos),
    }
}

/// What a decode of `text` answers once the destination has the right length.
pub open spec fn decode_outcome(text: Seq<u8>) -> Result<(), Error> {
    match hex_decode(text) {
        Ok(_) => Ok(()),
        Err(e) => Err(e),
    }
}

/// Decodes `input` into `output`, which has one slot for every pair, with
/// the kernels of the family named.
///
/// A text of odd length is refused before anything is read or written. One
/// character that is no hex digit refuses the text; a slot written before it
/// was met holds the byte of its own pair, which counts for nothing. The
/// family has no part in the outcome.
pub fn decode_into_with<Dst: Buf + ?Sized>(
    family: Family,
    input: &[u8],
    output: &mut Dst,
) -> (r: Result<(), Error>)
    requires
        input@.len() % 2 == 0 ==> old(output).slots().len() == input@.len() / 2,
    ensures
        r == decode_outcome(input@),
        r is Ok ==> final(output).slots() == initialized(hex_decode_bytes(input@)),
        input@.len() % 2 != 0 ==> final(output).slots() == old(output).slots(),
        stored_in_part(final(output).slots(), old(output).slots(), 0, hex_decode_bytes(input@)),
{
    let n: usize = input.len();
    if n % 2 != 0 {
        return Err(Error::OddLength);
    }
    let chunked: bool = match family {
        Family::Scalar => false,
        _ => true,
    };
    let ghost want = hex_decode_bytes(input@);
    let mut pos: usize = 0;
    let mut out_pos: usize = 0;
    assert(input@.subrange(0, 0) =~= Seq::<u8>::empty());
    while chunked && n - pos >= DECODE_WIDE
        invariant
            pos <= n,
            pos % 2 == 0,
            out_pos == pos / 2,
            n == input@.len(),
            n % 2 == 0,
            output.slots().len() == n / 2,
            stored_in_part(output.slots(), old(output).slots(), 0, want),
            want == hex_decode_bytes(input@),
            is_hex_text(input@.subrange(0, pos as int)),
            holds_prefix(output.slots(), want, out_pos as int),
        decreases n - pos,
    {
        match decode_wide(family, slice_subrange(input, pos, pos + DECODE_WIDE)) {
            None => {
                proof {
                    if is_hex_text(input@) {
                        lemma_is_hex_text_subrange(input@, pos as int, pos + DECODE_WIDE);
                    }
                }
                return Err(invalid_hex_char_error());
            },
            Some(decoded) => {
                proof {
                    lemma_is_hex_text_extend(input@, pos as int, pos + DECODE_WIDE);
                    lemma_hex_decode_bytes_subrange(input@, out_pos as int, out_pos + 32);
                    lemma_stored_next(output.slots(), want, out_pos as int, out_pos + 32);
                    lemma_stored_in_part_next(
                        output.slots(),
                        old(output).slots(),
                        want,
                        out_pos as int,
                        out_pos + 32,
                    );
                }
                output.write_at(out_pos, &decoded);
            },
        }
        pos += DECODE_WIDE;
        out_pos += 32;
    }
    while chunked && n - pos >= DECODE_NARROW
        invariant
            pos <= n,
            pos % 2 == 0,
            out_pos == pos / 2,
            n == input@.len(),
            n % 2 == 0,
            output.slots().len() == n / 2,
            stored_in_part(output.slots(), old(output).slots(), 0, want),
            want == hex_decode_bytes(input@),
            is_hex_text(input@.subrange(0, pos as int)),
            holds_prefix(output.slots(), want, out_pos as int),
        decreases n - pos,
    {
        match decode_narrow(family, slice_subrange(input, pos, pos + DECODE_NARROW)) {
            None => {
                proof {
                    if is_hex_text(input@) {
                        lemma_is_hex_text_subrange(input@, pos as int, pos + DECODE_NARROW);
                    }
                }
                return Err(invalid_hex_char_error());
            },
            Some(decoded) => {
                proof {
                    lemma_is_hex_text_extend(input@, pos as int, pos + DECODE_NARROW);
                    lemma_hex_decode_bytes_subrange(input@, out_pos as int, out_pos + 16);
                    lemma_stored_next(output.slots(), want, out_pos as int, out_pos + 16);
                    lemma_stored_in_part_next(
                        output.slots(),
                        old(output).slots(),
                        want,
                        out_pos as int,
                        out_pos + 16,
                    );
                }
                output.write_at(out_pos, &decoded);
            },
        }
        pos += DECODE_NARROW;
        out_pos += 16;
    }
    if pos < n {
        let ghost before = output.slots();
        let outcome = decode_tail(
            family,
            input,
            output,
            pos,
            choose_tail(family, n, DECODE_NARROW),
        );
        assert(stored_in_part(output.slots(), old(output).slots(), 0, want)) by {
            assert forall|k: int| 0 <= k < before.len() implies #[trigger] output.slots()[k]
                == old(output).slots()[k] || (0 <= k < want.len() && output.slots()[k] == Some(
                want[k],
            )) by {
                assert(output.slots()[k] == before[k] || output.slots()[k] == Some(want[k]));
                assert(before[k] == old(output).slots()[k] || before[k] == Some(want[k]));
            }
        }
        assert(outcome == decode_outcome(input@)) by {
            match outcome {
                Ok(unit) => {
                    assert(unit == ());
                },
                Err(e) => {},
            }
        }
        outcome
    } else {
        assert(input@.subrange(0, pos as int) =~= input@);
        assert(output.slots() =~= initialized(want));
        Ok(())
    }
}

/// Decodes `input` into `output`, which has one slot for every pair.
///
/// A text of odd length is refused before anything is read or written. One
/// character that is no hex digit refuses the text; a slot written before it
/// was met holds the byte of its own pair, which counts for nothing.
pub fn decode_into<Dst: Buf + ?Sized>(input: &[u8], output: &mut Dst) -> (r: Result<(), Error>)
    requires
        input@.len() % 2 == 0 ==> old(output).slots().len() == input@.len() / 2,
    ensures
        r == decode_outcome(input@),
        r is Ok ==> final(output).slots() == initialized(hex_decode_bytes(input@)),
        input@.len() % 2 != 0 ==> final(output).slots() == old(output).slots(),
        stored_in_part(final(output).slots(), old(output).slots(), 0, hex_decode_bytes(input@)),
{
    decode_into_with(default_family(), input, output)
}

/// What `decode_to_buf` answers for the text `text` and a destination of
/// `dst_len` slots: both lengths are judged before any character is.
pub open spec fn decode_to_buf_outcome(text: Seq<u8>, dst_len: nat) -> Result<(), Error> {
    if text.len() % 2 != 0 {
        Err(Error::OddLength)
    } else if dst_len != text.len() / 2 {
        Err(Error::LengthMismatch { expected: (text.len() / 2) as usize, actual: dst_len as usize })
    } else if !is_hex_text(text) {
        Err(Error::InvalidCharacter)
    } else {
        Ok(())
    }
}

/// Decodes the hex text `input` into `output`, which must have exactly one
/// slot for every two characters, with the kernels of the family named.
///
/// A structural error leaves `output` as it was. On success every slot is
/// written. On a content error some slots may hold the bytes of their pairs,
/// and the others are as they were. The family has no part in the outcome.
pub fn decode_to_buf_with<Dst: Buf + ?Sized>(
    family: Family,
    input: &str,
    output: &mut Dst,
) -> (r: Result<(), Error>)
    ensures
        r == decode_to_buf_outcome(input.spec_bytes(), old(output).slots().len()),
        r is Ok ==> final(output).slots() == initialized(hex_decode_bytes(input.spec_bytes())),
        r matches Err(e) && e.is_structural() ==> final(output).slots() == old(output).slots(),
        stored_in_part(
            final(output).slots(),
            old(output).slots(),
            0,
            hex_decode_bytes(input.spec_bytes()),
        ),
{
    let input = input.as_bytes();
    let expected_len: usize = match required_output_len(input.len()) {
        Ok(len) => len,
        Err(e) => {
            return Err(e);
        },
    };
    let actual: usize = output.dst_len();
    if actual != expected_len {
        return Err(Error::LengthMismatch { expected: expected_len, actual });
    }
    decode_into_with(family, input, output)
}

/// Decodes the hex text `input` into `output`, which must have exactly one
/// slot for every two characters.
///
/// A structural error leaves `output` as it was. On success every slot is
/// written. On a content error some slots may hold the bytes of their pairs,
/// and the others are as they were.
pub fn decode_to_buf<Dst: Buf + ?Sized>(input: &str, output: &mut Dst) -> (r: Result<(), Error>)
    ensures
        r == decode_to_buf_outcome(input.spec_bytes(), old(output).slots().len()),
        r is Ok ==> final(output).slots() == initialized(hex_decode_bytes(input.spec_bytes())),
        r matches Err(e) && e.is_structural() ==> final(output).slots() == old(output).slots(),
        stored_in_part(
            final(output).slots(),
            old(output).slots(),
            0,
            hex_decode_bytes(input.spec_bytes()),
        ),
{
    decode_to_buf_with(default_family(), input, output)
}

/// Decodes the hex text `input` into the byte slice `output`, which must
/// have exactly one element for every two characters.
///
/// A structural error leaves `output` as it was. On success `output` holds
/// the decoded bytes. On a content error some elements may hold the bytes of
/// their pairs, and the others are as they were.
pub fn decode_to_slice(input: &str, output: &mut [u8]) -> (r: Result<(), Error>)
    ensures
        r == decode_to_buf_outcome(input.spec_bytes(), old(output)@.len()),
        r is Ok ==> final(output)@ == hex_decode_bytes(input.spec_bytes()),
        r matches Err(e) && e.is_structural() ==> final(output)@ == old(output)@,
        final(output)@.len() == old(output)@.len(),
        forall|k: int|
            0 <= k < old(output)@.len() ==> #[trigger] final(output)@[k] == old(output)@[k] || (k
                < input.spec_bytes().len() / 2 && final(output)@[k] == hex_decode_bytes(
                input.spec_bytes(),
            )[k]),
{
    let r = decode_to_buf(input, output);
    proof {
        if r is Ok {
            lemma_initialized_bytes(output@, hex_decode_bytes(input.spec_bytes()));
        }
        if r matches Err(e) && e.is_structural() {
            lemma_initialized_bytes(output@, old(output)@);
        }
        assert forall|k: int| 0 <= k < old(output)@.len() implies #[trigger] output@[k] == old(
            output,
        )@[k] || (k < input.spec_bytes().len() / 2 && output@[k] == hex_decode_bytes(
            input.spec_bytes(),
        )[k]) by {
            assert(output.slots()[k] == Some(output@[k]));
            assert(old(output).slots()[k] == Some(old(output)@[k]));
        }
    }
    r
}

/// The result of a decode with the bytes taken as a sequence.
pub open spec fn decoded_view(r: Result<Vec<u8>, Error>) -> Result<Seq<u8>, Error> {
    match r {
        Ok(bytes) => Ok(bytes@),
        Err(e) => Err(e),
    }
}

/// The bytes that the hex text `input` stands for.
///
/// Fails with [`Error::OddLength`] on a text of odd length, whatever it
/// holds, and with [`Error::InvalidCharacter`] on a text of even length that
/// holds a character outside `0-9`, `A-F`, `a-f`.
pub fn decode(input: &str) -> (r: Result<Vec<u8>, Error>)
    ensures
        decoded_view(r) == hex_decode(input.spec_bytes()),
{
    let input = input.as_bytes();
    let n: usize = input.len();
    if n % 2 != 0 {
        return Err(Error::OddLength);
    }
    let mut output: Vec<u8> = vec![0u8; n / 2];
    match decode_into(input, output.as_mut_slice()) {
        Ok(()) => {
            proof {
                lemma_initialized_bytes(output@, hex_decode_bytes(input@));
            }
            Ok(output)
        },
        Err(e) => Err(e),
    }
}

} // verus!
