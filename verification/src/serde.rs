//! The two halves of a text-serialization adapter that are pure: the string
//! to emit for a value, and the value that a string read back stands for.
//!
//! A serializer is handed the string that [`serialize`] returns. A
//! deserializer reads a string, hands it to [`deserialize`] or
//! [`deserialize_fixed`], and reports an error of theirs as a format error.

use vstd::prelude::*;
use vstd::std_specs::convert::FromSpec;
use vstd::string::StringSliceAdditionalSpecFns;
use vstd::utf8::encode_utf8;
use crate::decode::{decode, decode_to_buf_outcome, decode_to_slice};
use crate::encode::encode;
use crate::error::Error;
use crate::model::{hex_decode, hex_decode_bytes, hex_encode, hex_text};

verus! {

/// The string that stands for `value` when it is serialized: its hex text.
pub fn serialize(value: &[u8]) -> (text: String)
    requires
        2 * value@.len() <= usize::MAX,
    ensures
        text@ == hex_text(value@),
        encode_utf8(text@) == hex_encode(value@),
{
    encode(value)
}

/// The value that the string `value` stands for: what `T` makes of the bytes
/// that the text decodes to. A text that does not decode gives the error of
/// the decoding, and `T` is not asked.
pub fn deserialize<T: From<Vec<u8>>>(value: &str) -> (r: Result<T, Error>)
    ensures
        match hex_decode(value.spec_bytes()) {
            Ok(bytes) => r matches Ok(made) && (T::obeys_from_spec() ==> exists|v: Vec<u8>|
                v@ == bytes && made == #[trigger] T::from_spec(v)),
            Err(e) => r matches Err(err) && err == e,
        },
{
    match decode(value) {
        Ok(bytes) => Ok(T::from(bytes)),
        Err(e) => Err(e),
    }
}

/// The result of reading a value of fixed size with the bytes taken as a sequence.
pub open spec fn fixed_view<const N: usize>(r: Result<[u8; N], Error>) -> Result<Seq<u8>, Error> {
    match r {
        Ok(bytes) => Ok(bytes@),
        Err(e) => Err(e),
    }
}

/// What reading a value of `size` bytes from `text` gives: the text must
/// decode, and to exactly `size` bytes.
pub open spec fn hex_decode_fixed(text: Seq<u8>, size: nat) -> Result<Seq<u8>, Error> {
    match decode_to_buf_outcome(text, size) {
        Ok(_) => Ok(hex_decode_bytes(text)),
        Err(e) => Err(e),
    }
}

/// The value of fixed size `N` that the string `value` stands for. A text
/// that decodes to another number of bytes is refused with
/// [`Error::LengthMismatch`], where `expected` is the size that the text
/// calls for and `actual` is `N`.
pub fn deserialize_fixed<const N: usize>(value: &str) -> (r: Result<[u8; N], Error>)
    ensures
        fixed_view(r) == hex_decode_fixed(value.spec_bytes(), N as nat),
{
    let mut bytes: [u8; N] = [0u8; N];
    match decode_to_slice(value, &mut bytes) {
        Ok(()) => Ok(bytes),
        Err(e) => Err(e),
    }
}

} // verus!
