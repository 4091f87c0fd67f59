//! What holds of the codec for every input, proved over the model that the
//! contracts of the functions are stated in.

use vstd::prelude::*;
use crate::buf::{holds_prefix, initialized, lemma_stored_rest, stored};
use crate::classify::{biased_value, in_ascii_gap, lut_entry, INVALID_NIBBLE};
use crate::decode::{decode_to_buf_outcome, DECODE_NARROW};
use crate::encode::{encode_to_buf_outcome, ENCODE_NARROW};
use crate::error::Error;
use crate::model::{
    hex_decode, hex_decode_bytes, hex_digit, hex_encode, is_hex_char, is_hex_text,
    is_lower_hex_char, is_nibble, lemma_hex_decode_bytes_subrange, lemma_hex_digit,
    lemma_hex_encode_subrange, lemma_is_hex_text_split, lemma_is_hex_text_subrange,
    lemma_pair_value_of_digits, nibble_of, pair_value,
};

verus! {

/// Decoding the hex text of any bytes succeeds and gives those bytes back.
pub proof fn law_decode_inverts_encode(bytes: Seq<u8>)
    ensures
        hex_decode(hex_encode(bytes)) == Ok::<Seq<u8>, Error>(bytes),
{
    let text = hex_encode(bytes);
    law_encode_is_lowercase_pairs(bytes);
    assert forall|i: int| 0 <= i < text.len() implies is_hex_char(#[trigger] text[i]) by {
        assert(is_lower_hex_char(text[i]));
    }
    assert forall|k: int| 0 <= k < bytes.len() implies hex_decode_bytes(text)[k] == bytes[k] by {
        assert((2 * k) / 2 == k && (2 * k) % 2 == 0);
        assert((2 * k + 1) / 2 == k && (2 * k + 1) % 2 == 1);
        lemma_pair_value_of_digits(bytes[k]);
    }
    assert(hex_decode_bytes(text) =~= bytes);
}

/// The hex text of any bytes is their rendering in lowercase, two digits for
/// each byte: it is twice as long, byte `k` stands at `2 * k` and
/// `2 * k + 1`, first the digit of its high nibble, then that of its low
/// nibble, and every character is one of `0-9`, `a-f`.
pub proof fn law_encode_is_lowercase_pairs(bytes: Seq<u8>)
    ensures
        hex_encode(bytes).len() == 2 * bytes.len(),
        forall|k: int|
            0 <= k < bytes.len() ==> #[trigger] hex_encode(bytes)[2 * k] == hex_digit(
                bytes[k] / 16,
            ),
        forall|k: int|
            0 <= k < bytes.len() ==> #[trigger] hex_encode(bytes)[2 * k + 1] == hex_digit(
                bytes[k] % 16,
            ),
        forall|i: int|
            0 <= i < 2 * bytes.len() ==> is_lower_hex_char(#[trigger] hex_encode(bytes)[i]),
{
    assert forall|k: int| 0 <= k < bytes.len() implies #[trigger] hex_encode(bytes)[2 * k]
        == hex_digit(bytes[k] / 16) by {
        assert((2 * k) / 2 == k && (2 * k) % 2 == 0);
    }
    assert forall|k: int| 0 <= k < bytes.len() implies #[trigger] hex_encode(bytes)[2 * k + 1]
        == hex_digit(bytes[k] % 16) by {
        assert((2 * k + 1) / 2 == k && (2 * k + 1) % 2 == 1);
    }
    assert forall|i: int| 0 <= i < 2 * bytes.len() implies is_lower_hex_char(
        #[trigger] hex_encode(bytes)[i],
    ) by {
        lemma_hex_digit(bytes[i / 2] / 16);
        lemma_hex_digit(bytes[i / 2] % 16);
    }
}

/// Decoding a text of even length over `0-9`, `A-F`, `a-f` succeeds, and
/// gives half as many bytes as the text has characters.
pub proof fn law_decode_accepts_hex_text(text: Seq<u8>)
    requires
        text.len() % 2 == 0,
        is_hex_text(text),
    ensures
        hex_decode(text) matches Ok(bytes) && bytes.len() == text.len() / 2,
{
}

/// Decoding a text of even length that holds, at any position, a byte
/// outside `0-9`, `A-F`, `a-f` fails with the content error, however long the
/// text is.
pub proof fn law_decode_refuses_invalid_character(text: Seq<u8>, at: int)
    requires
        text.len() % 2 == 0,
        0 <= at < text.len(),
        !is_hex_char(text[at]),
    ensures
        hex_decode(text) == Err::<Seq<u8>, Error>(Error::InvalidCharacter),
        Error::InvalidCharacter.is_content(),
{
}

/// The bytes that follow `'9'` up to `'@'`, and those that follow `'Z'` up
/// to `` '`' ``, are no hex digits, nor is any byte that is not ASCII.
pub proof fn law_gap_bytes_are_invalid(c: u8)
    requires
        0x3A <= c <= 0x40 || 0x5B <= c <= 0x60 || c >= 0x80,
    ensures
        !is_hex_char(c),
{
}

/// Decoding a text of odd length fails with a structural error, whatever the text holds.
pub proof fn law_decode_refuses_odd_length(text: Seq<u8>)
    requires
        text.len() % 2 == 1,
    ensures
        hex_decode(text) == Err::<Seq<u8>, Error>(Error::OddLength),
        Error::OddLength.is_structural(),
        !Error::OddLength.is_content(),
{
}

/// Encoding into a destination that does not have two slots for every byte
/// fails with a structural error.
pub proof fn law_encode_refuses_wrong_destination(len: nat, dst_len: nat)
    requires
        dst_len != 2 * len,
    ensures
        encode_to_buf_outcome(len, dst_len) matches Err(e) && e.is_structural(),
{
}

/// The destination of an encode is accepted exactly when it has two slots for every byte.
pub proof fn law_encode_accepts_exact_destination(len: nat, dst_len: nat)
    ensures
        encode_to_buf_outcome(len, dst_len) is Ok <==> dst_len == 2 * len,
{
}

/// Decoding into a destination that does not have one slot for every two
/// characters fails with a structural error, whatever the text holds.
pub proof fn law_decode_refuses_wrong_destination(text: Seq<u8>, dst_len: nat)
    requires
        2 * dst_len != text.len(),
    ensures
        decode_to_buf_outcome(text, dst_len) matches Err(e) && e.is_structural(),
{
}

/// Decoding into a destination succeeds exactly when the destination has one
/// slot for every two characters and the text decodes.
pub proof fn law_decode_to_buf_agrees_with_decode(text: Seq<u8>, dst_len: nat)
    ensures
        decode_to_buf_outcome(text, dst_len) is Ok <==> 2 * dst_len == text.len()
            && hex_decode(text) is Ok,
        2 * dst_len == text.len() ==> (decode_to_buf_outcome(text, dst_len) matches Err(e)
            ==> hex_decode(text) == Err::<Seq<u8>, Error>(e)),
{
}

/// The lowercase form of a hex digit.
pub open spec fn lower(c: u8) -> u8
    recommends
        is_hex_char(c),
{
    if 0x41 <= c <= 0x46 {
        (c + 0x20) as u8
    } else {
        c
    }
}

/// The lowercase form of hex text.
pub open spec fn lower_text(text: Seq<u8>) -> Seq<u8> {
    Seq::new(text.len(), |i: int| lower(text[i]))
}

/// The two digits of a byte, read back in either case, give the byte: an
/// uppercase letter stands for the same nibble as the lowercase one.
pub proof fn law_case_is_ignored(hi: u8, lo: u8)
    requires
        is_hex_char(hi),
        is_hex_char(lo),
    ensures
        pair_value(hi, lo) == pair_value(lower(hi), lower(lo)),
        is_lower_hex_char(lower(hi)),
        is_lower_hex_char(lower(lo)),
{
}

/// Encoding the bytes that a hex text of even length decodes to gives the
/// text back in lowercase.
pub proof fn law_encode_inverts_decode(text: Seq<u8>)
    requires
        text.len() % 2 == 0,
        is_hex_text(text),
    ensures
        hex_encode(hex_decode_bytes(text)) == lower_text(text),
{
    let bytes = hex_decode_bytes(text);
    assert forall|i: int| 0 <= i < text.len() implies hex_encode(bytes)[i] == lower(text[i]) by {
        let k = i / 2;
        assert(is_hex_char(text[2 * k]));
        assert(is_hex_char(text[2 * k + 1]));
        assert(bytes[k] == pair_value(text[2 * k], text[2 * k + 1]));
        assert(bytes[k] / 16 == nibble_of(text[2 * k]));
        assert(bytes[k] % 16 == nibble_of(text[2 * k + 1]));
        if i % 2 == 0 {
            assert(i == 2 * k);
        } else {
            assert(i == 2 * k + 1);
        }
    }
    assert(hex_encode(bytes) =~= lower_text(text));
}

/// The two ways of finishing an encode leave the same slots, the whole hex
/// text: encoding what is left behind `pos`, and encoding the last narrow
/// chunk once more, over positions that hold their digits already.
pub proof fn law_encode_tails_agree(data: Seq<u8>, slots: Seq<Option<u8>>, pos: int)
    requires
        slots.len() == 2 * data.len(),
        0 <= pos <= data.len(),
        holds_prefix(slots, hex_encode(data), 2 * pos),
    ensures
        stored(slots, 2 * pos, hex_encode(data.subrange(pos, data.len() as int))) == initialized(
            hex_encode(data),
        ),
        data.len() >= ENCODE_NARROW && data.len() - pos <= ENCODE_NARROW ==> stored(
            slots,
            2 * (data.len() - ENCODE_NARROW),
            hex_encode(data.subrange(data.len() - ENCODE_NARROW, data.len() as int)),
        ) == initialized(hex_encode(data)),
{
    let len = data.len() as int;
    let text = hex_encode(data);
    lemma_hex_encode_subrange(data, pos, len);
    lemma_stored_rest(slots, text, 2 * pos, 2 * pos);
    if len >= ENCODE_NARROW && len - pos <= ENCODE_NARROW {
        let start = len - ENCODE_NARROW;
        lemma_hex_encode_subrange(data, start, len);
        lemma_stored_rest(slots, text, 2 * pos, 2 * start);
    }
}

/// The two ways of finishing a decode agree. Behind a front part that is
/// hex text, what is left is hex text exactly when the last narrow chunk is,
/// and then both ways leave the same slots, all the decoded bytes.
pub proof fn law_decode_tails_agree(text: Seq<u8>, slots: Seq<Option<u8>>, pos: int)
    requires
        text.len() % 2 == 0,
        2 * slots.len() == text.len(),
        0 <= pos <= text.len(),
        pos % 2 == 0,
        is_hex_text(text.subrange(0, pos)),
        holds_prefix(slots, hex_decode_bytes(text), pos / 2),
    ensures
        is_hex_text(text.subrange(pos, text.len() as int)) <==> is_hex_text(text),
        stored(slots, pos / 2, hex_decode_bytes(text.subrange(pos, text.len() as int)))
            == initialized(hex_decode_bytes(text)),
        text.len() >= DECODE_NARROW && text.len() - pos <= DECODE_NARROW ==> {
            let start = text.len() - DECODE_NARROW;
            &&& is_hex_text(text.subrange(start, text.len() as int)) <==> is_hex_text(text)
            &&& stored(slots, start / 2, hex_decode_bytes(text.subrange(start, text.len() as int)))
                == initialized(hex_decode_bytes(text))
        },
{
    let len = text.len() as int;
    let bytes = hex_decode_bytes(text);
    lemma_is_hex_text_split(text, pos);
    lemma_hex_decode_bytes_subrange(text, pos / 2, len / 2);
    lemma_stored_rest(slots, bytes, pos / 2, pos / 2);
    if len >= DECODE_NARROW && len - pos <= DECODE_NARROW {
        let start = len - DECODE_NARROW;
        let last = text.subrange(start, len);
        if is_hex_text(text) {
            lemma_is_hex_text_subrange(text, start, len);
        }
        if is_hex_text(last) {
            assert forall|i: int| 0 <= i < len implies is_hex_char(#[trigger] text[i]) by {
                if i < pos {
                    assert(text[i] == text.subrange(0, pos)[i]);
                } else {
                    assert(text[i] == last[i - start]);
                }
            }
        }
        lemma_hex_decode_bytes_subrange(text, start / 2, len / 2);
        lemma_stored_rest(slots, bytes, pos / 2, start / 2);
    }
}

/// The kernel families classify every character alike. The table entry is
/// the invalid mark exactly where the biased value is out of bound or the
/// character lies in a gap, which is exactly where the character is no hex
/// digit; and on a hex digit both give its nibble.
pub proof fn law_classifications_agree(c: u8)
    ensures
        lut_entry(c) != INVALID_NIBBLE <==> is_hex_char(c),
        biased_value(c) <= 15 && !in_ascii_gap(c) <==> is_hex_char(c),
        is_hex_char(c) ==> lut_entry(c) == nibble_of(c) && biased_value(c) == nibble_of(c),
{
}

/// The kernel families pack two nibbles alike: shift and or gives what
/// multiply and add gives, the byte that the two digits stand for.
pub proof fn law_packings_agree(hi: u8, lo: u8)
    requires
        is_nibble(hi),
        is_nibble(lo),
    ensures
        (hi << 4) | lo == 16 * hi + lo,
        pair_value(hex_digit(hi), hex_digit(lo)) == 16 * hi + lo,
{
    assert((hi << 4) | lo == 16 * hi + lo) by (bit_vector)
        requires
            hi < 16,
            lo < 16,
    ;
}

} // verus!
