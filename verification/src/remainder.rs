//! Decoding what the chunks left over, where no chunk is decoded a second
//! time: pair by pair through the lookup table, or up to sixteen pairs at
//! once in lanes padded with `'0'`.

use vstd::prelude::*;
use vstd::slice::slice_subrange;
use std::mem::MaybeUninit;
use crate::buf::{lemma_slice_len_fits, stored, stored_in_part, Buf};
use crate::classify::{lut_lookup, pack_nibbles, INVALID_NIBBLE};
use crate::decode::{decode_hex_nibbles, pack_lanes};
use crate::error::Error;
use crate::model::{hex_decode_bytes, is_hex_char, is_hex_text, is_nibble, nibble_of, ASCII_ZERO};

verus! {

/// The table strategy for what the chunks left over: decodes the `remaining`
/// characters from `pos` on, pair by pair, into the slots from `out_pos` on.
/// A pair is refused where either of its table entries is the invalid mark;
/// the pairs before it have been stored by then, and nothing else has.
pub fn decode_remainder_lut<Dst: Buf + ?Sized>(
    input: &[u8],
    output: &mut Dst,
    pos: usize,
    out_pos: usize,
    remaining: usize,
) -> (r: Result<(), Error>)
    requires
        remaining % 2 == 0,
        pos + remaining <= input@.len(),
        out_pos + remaining / 2 <= old(output).slots().len(),
    ensures
        r is Ok <==> is_hex_text(input@.subrange(pos as int, pos + remaining)),
        r matches Err(e) ==> e == Error::InvalidCharacter,
        r is Ok ==> final(output).slots() == stored(
            old(output).slots(),
            out_pos as int,
            hex_decode_bytes(input@.subrange(pos as int, pos + remaining)),
        ),
        stored_in_part(
            final(output).slots(),
            old(output).slots(),
            out_pos as int,
            hex_decode_bytes(input@.subrange(pos as int, pos + remaining)),
        ),
{
    proof {
        lemma_slice_len_fits(input);
        output.lemma_slots_fit();
    }
    let end: usize = pos + remaining;
    let ghost total = output.slots().len();
    let ghost part = input@.subrange(pos as int, end as int);
    let mut at: usize = pos;
    let mut out_at: usize = out_pos;
    while at < end
        invariant
            pos <= at <= end,
            end == pos + remaining,
            end <= input@.len() <= usize::MAX,
            remaining % 2 == 0,
            (at - pos) % 2 == 0,
            out_at == out_pos + (at - pos) / 2,
            out_pos + remaining / 2 <= total <= usize::MAX,
            total == output.slots().len(),
            total == old(output).slots().len(),
            part == input@.subrange(pos as int, end as int),
            forall|j: int| 0 <= j < at - pos ==> is_hex_char(#[trigger] part[j]),
            forall|k: int|
                0 <= k < total ==> #[trigger] output.slots()[k] == (if out_pos <= k < out_at {
                    Some(hex_decode_bytes(part)[k - out_pos])
                } else {
                    old(output).slots()[k]
                }),
        decreases end - at,
    {
        let hi: u8 = lut_lookup(input[at]);
        let lo: u8 = lut_lookup(input[at + 1]);
        assert((hi | lo) == 255 <==> (hi == 255 || lo == 255)) by (bit_vector)
            requires
                hi < 16 || hi == 255,
                lo < 16 || lo == 255,
        ;
        assert(part[at - pos] == input@[at as int]);
        assert(part[at - pos + 1] == input@[at + 1]);
        if (hi | lo) == INVALID_NIBBLE {
            assert(!is_hex_text(part)) by {
                if is_hex_text(part) {
                    assert(is_hex_char(part[at - pos]));
                    assert(is_hex_char(part[at - pos + 1]));
                }
            }
            return Err(Error::InvalidCharacter);
        }
        let byte: [u8; 1] = [pack_nibbles(hi, lo)];
        let ghost before = output.slots();
        output.write_at(out_at, &byte);
        proof {
            let k0 = (at - pos) / 2;
            assert(2 * k0 == at - pos);
            assert(byte@[0] == hex_decode_bytes(part)[k0]);
            assert forall|k: int| 0 <= k < total implies #[trigger] output.slots()[k] == (
            if out_pos <= k < out_at + 1 {
                Some(hex_decode_bytes(part)[k - out_pos])
            } else {
                old(output).slots()[k]
            }) by {
                assert(output.slots()[k] == stored(before, out_at as int, byte@)[k]);
                if k != out_at {
                    assert(output.slots()[k] == before[k]);
                }
            }
            assert forall|j: int| 0 <= j < at + 2 - pos implies is_hex_char(#[trigger] part[j]) by {
                if j == at - pos {
                } else if j == at - pos + 1 {
                }
            }
        }
        at += 2;
        out_at += 1;
    }
    assert(output.slots() =~= stored(old(output).slots(), out_pos as int, hex_decode_bytes(part)));
    Ok(())
}

/// The number of pairs that the padded lane strategy takes in one call.
pub open spec fn simd_remainder_pairs(remaining: nat) -> nat {
    if remaining / 2 < 16 {
        remaining / 2
    } else {
        16
    }
}

/// The padded lane strategy for what the chunks left over: takes up to 16
/// pairs from `pos` on into two lane sets, pads the unused lanes with `'0'`,
/// classifies and packs all lanes at once, and stores the bytes of the pairs
/// taken into the slots from `out_pos` on. Pairs beyond the sixteenth are
/// not looked at.
pub fn decode_remainder_simd<Dst: Buf + ?Sized>(
    input: &[u8],
    output: &mut Dst,
    pos: usize,
    out_pos: usize,
    remaining: usize,
) -> (r: Result<(), Error>)
    requires
        pos + 2 * simd_remainder_pairs(remaining as nat) <= input@.len(),
        out_pos + simd_remainder_pairs(remaining as nat) <= old(output).slots().len(),
    ensures
        r is Ok <==> is_hex_text(
            input@.subrange(pos as int, pos + 2 * simd_remainder_pairs(remaining as nat)),
        ),
        r matches Err(e) ==> e == Error::InvalidCharacter,
        r is Ok ==> final(output).slots() == stored(
            old(output).slots(),
            out_pos as int,
            hex_decode_bytes(
                input@.subrange(pos as int, pos + 2 * simd_remainder_pairs(remaining as nat)),
            ),
        ),
        r is Err ==> final(output).slots() == old(output).slots(),
{
    let pairs: usize = remaining / 2;
    let pairs_to_process: usize = if pairs < 16 {
        pairs
    } else {
        16
    };
    proof {
        lemma_slice_len_fits(input);
    }
    let ghost part = input@.subrange(pos as int, pos + 2 * pairs_to_process);
    let mut high_arr: [u8; 16] = [ASCII_ZERO; 16];
    let mut low_arr: [u8; 16] = [ASCII_ZERO; 16];
    let mut j: usize = 0;
    while j < pairs_to_process
        invariant
            j <= pairs_to_process <= 16,
            pos + 2 * pairs_to_process <= input@.len() <= usize::MAX,
            forall|k: int| 0 <= k < j ==> #[trigger] high_arr@[k] == input@[pos + 2 * k],
            forall|k: int| 0 <= k < j ==> #[trigger] low_arr@[k] == input@[pos + 2 * k + 1],
            forall|k: int| j <= k < 16 ==> #[trigger] high_arr@[k] == ASCII_ZERO,
            forall|k: int| j <= k < 16 ==> #[trigger] low_arr@[k] == ASCII_ZERO,
        decreases pairs_to_process - j,
    {
        high_arr[j] = input[pos + j * 2];
        low_arr[j] = input[pos + j * 2 + 1];
        j += 1;
    }
    let (high_nibbles, high_valid) = decode_hex_nibbles::<16>(&high_arr);
    let (low_nibbles, low_valid) = decode_hex_nibbles::<16>(&low_arr);
    proof {
        if is_hex_text(part) {
            assert forall|k: int| 0 <= k < 16 implies is_hex_char(#[trigger] high_arr@[k]) by {
                if k < pairs_to_process {
                    assert(part[2 * k] == input@[pos + 2 * k]);
                    assert(is_hex_char(part[2 * k]));
                }
            }
            assert forall|k: int| 0 <= k < 16 implies is_hex_char(#[trigger] low_arr@[k]) by {
                if k < pairs_to_process {
                    assert(part[2 * k + 1] == input@[pos + 2 * k + 1]);
                    assert(is_hex_char(part[2 * k + 1]));
                }
            }
        }
        if is_hex_text(high_arr@) && is_hex_text(low_arr@) {
            assert forall|i: int| 0 <= i < part.len() implies is_hex_char(#[trigger] part[i]) by {
                let k = i / 2;
                if i % 2 == 0 {
                    assert(part[i] == input@[pos + 2 * k]);
                    assert(is_hex_char(high_arr@[k]));
                } else {
                    assert(part[i] == input@[pos + 2 * k + 1]);
                    assert(is_hex_char(low_arr@[k]));
                }
            }
        }
    }
    if !(high_valid && low_valid) {
        return Err(Error::InvalidCharacter);
    }
    assert forall|i: int| 0 <= i < 16 implies is_nibble(#[trigger] high_nibbles@[i]) by {
        assert(high_nibbles@[i] == nibble_of(high_arr@[i]));
        assert(is_hex_char(high_arr@[i]));
    }
    assert forall|i: int| 0 <= i < 16 implies is_nibble(#[trigger] low_nibbles@[i]) by {
        assert(low_nibbles@[i] == nibble_of(low_arr@[i]));
        assert(is_hex_char(low_arr@[i]));
    }
    let decoded = pack_lanes::<16>(&high_nibbles, &low_nibbles);
    let taken = slice_subrange(decoded.as_slice(), 0, pairs_to_process);
    proof {
        let want = hex_decode_bytes(part);
        assert(part.len() / 2 == pairs_to_process);
        assert forall|k: int| 0 <= k < pairs_to_process implies taken@[k] == want[k] by {
            assert(taken@[k] == decoded@[k]);
            assert(decoded@[k] == 16 * high_nibbles@[k] + low_nibbles@[k]);
            assert(high_nibbles@[k] == nibble_of(high_arr@[k]));
            assert(low_nibbles@[k] == nibble_of(low_arr@[k]));
            assert(part[2 * k] == input@[pos + 2 * k]);
            assert(part[2 * k + 1] == input@[pos + 2 * k + 1]);
        }
        assert(taken@ =~= want);
    }
    output.write_at(out_pos, taken);
    Ok(())
}

/// [`decode_remainder_simd`] on uninitialized storage, for measurements.
pub fn decode_remainder_simd_bench(
    input: &[u8],
    output: &mut [MaybeUninit<u8>],
    pos: usize,
    out_pos: usize,
    remaining: usize,
) -> (r: Result<(), Error>)
    requires
        pos + 2 * simd_remainder_pairs(remaining as nat) <= input@.len(),
        out_pos + simd_remainder_pairs(remaining as nat) <= old(output).slots().len(),
    ensures
        r is Ok <==> is_hex_text(
            input@.subrange(pos as int, pos + 2 * simd_remainder_pairs(remaining as nat)),
        ),
        r matches Err(e) ==> e == Error::InvalidCharacter,
        r is Ok ==> final(output).slots() == stored(
            old(output).slots(),
            out_pos as int,
            hex_decode_bytes(
                input@.subrange(pos as int, pos + 2 * simd_remainder_pairs(remaining as nat)),
            ),
        ),
        r is Err ==> final(output).slots() == old(output).slots(),
{
    decode_remainder_simd(input, output, pos, out_pos, remaining)
}

/// [`decode_remainder_lut`] on uninitialized storage, for measurements.
pub fn decode_remainder_lut_bench(
    input: &[u8],
    output: &mut [MaybeUninit<u8>],
    pos: usize,
    out_pos: usize,
    remaining: usize,
) -> (r: Result<(), Error>)
    requires
        remaining % 2 == 0,
        pos + remaining <= input@.len(),
        out_pos + remaining / 2 <= old(output).slots().len(),
    ensures
        r is Ok <==> is_hex_text(input@.subrange(pos as int, pos + remaining)),
        r matches Err(e) ==> e == Error::InvalidCharacter,
        r is Ok ==> final(output).slots() == stored(
            old(output).slots(),
            out_pos as int,
            hex_decode_bytes(input@.subrange(pos as int, pos + remaining)),
        ),
        stored_in_part(
            final(output).slots(),
            old(output).slots(),
            out_pos as int,
            hex_decode_bytes(input@.subrange(pos as int, pos + remaining)),
        ),
{
    decode_remainder_lut(input, output, pos, out_pos, remaining)
}

} // verus!
