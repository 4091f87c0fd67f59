use muhex::classify::{
    lut_lookup, multiply_add, pack_nibbles, permute_lane, PERMUTE_HIGH, PERMUTE_LOW,
};
use muhex::decode::{decode_into_with, decode_narrow, decode_wide};
use muhex::encode::{
    encode_narrow, encode_wide, nibble_lanes_by_table, nibble_lanes_to_ascii, HEX_DIGITS,
};
use muhex::family::{default_family, select_family};
use muhex::{decode_to_buf_with, encode_to_buf_with, Error, Family};

const FAMILIES: [Family; 3] = [Family::Scalar, Family::Portable, Family::Table];

const LENGTHS: [usize; 16] = [0, 1, 3, 7, 15, 16, 17, 31, 32, 33, 63, 64, 65, 127, 128, 129];

fn noise(seed: u32, len: usize) -> Vec<u8> {
    let mut state = seed ^ 0x5bd1e995;
    (0..len)
        .map(|_| {
            state = state.wrapping_mul(1103515245).wrapping_add(12345);
            (state >> 16) as u8
        })
        .collect()
}

fn rendering(bytes: &[u8], upper: bool) -> String {
    bytes
        .iter()
        .map(|b| if upper { format!("{:02X}", b) } else { format!("{:02x}", b) })
        .collect()
}

#[test]
fn families_are_preferred_in_order() {
    assert_eq!(select_family(true, true), Family::Table);
    assert_eq!(select_family(true, false), Family::Portable);
    assert_eq!(select_family(false, false), Family::Scalar);
    assert_eq!(select_family(false, true), Family::Scalar);
    assert_eq!(default_family(), Family::Portable);
}

#[test]
fn every_family_encodes_alike_at_every_chunk_boundary() {
    for len in LENGTHS {
        let bytes = noise(len as u32, len);
        let want = rendering(&bytes, false).into_bytes();
        for family in FAMILIES {
            let mut dst = vec![0xEEu8; 2 * len];
            assert_eq!(encode_to_buf_with(family, &bytes, &mut dst[..]), Ok(()));
            assert_eq!(dst, want, "{:?} at length {}", family, len);
        }
    }
}

#[test]
fn every_family_decodes_alike_at_every_chunk_boundary() {
    for len in LENGTHS {
        let bytes = noise(100 + len as u32, len);
        for upper in [false, true] {
            let text = rendering(&bytes, upper);
            for family in FAMILIES {
                let mut dst = vec![0xEEu8; len];
                assert_eq!(decode_to_buf_with(family, &text, &mut dst[..]), Ok(()));
                assert_eq!(dst, bytes, "{:?} at length {}", family, len);
            }
        }
    }
}

#[test]
fn every_family_refuses_one_invalid_character_at_any_position() {
    for len in [1usize, 16, 17, 32, 33, 48, 64, 65] {
        let valid = rendering(&noise(7, len), true).into_bytes();
        for at in 0..valid.len() {
            for bad in [b':', b'@', b'[', b'`', b'g', b'/', 0x7f] {
                let mut text = valid.clone();
                text[at] = bad;
                let text = String::from_utf8(text).unwrap();
                for family in FAMILIES {
                    let mut dst = vec![0u8; len];
                    assert_eq!(
                        decode_to_buf_with(family, &text, &mut dst[..]),
                        Err(Error::InvalidCharacter),
                        "{:?} on {:?}",
                        family,
                        text
                    );
                }
            }
        }
    }
}

#[test]
fn every_family_refuses_bytes_that_are_not_ascii() {
    for len in [2usize, 32, 64, 66] {
        for at in [0, len - 1] {
            for bad in [0x80u8, 0xb0, 0xc1, 0xe6, 0xff] {
                let mut text = vec![b'a'; len];
                text[at] = bad;
                for family in FAMILIES {
                    let mut dst = vec![0u8; len / 2];
                    assert_eq!(
                        decode_into_with(family, &text, &mut dst[..]),
                        Err(Error::InvalidCharacter),
                        "{:?} byte {:#04x} at {} of {}",
                        family,
                        bad,
                        at,
                        len
                    );
                }
            }
        }
    }
}

#[test]
fn every_family_judges_lengths_first() {
    for family in FAMILIES {
        let mut dst = [0x11u8; 3];
        assert_eq!(
            encode_to_buf_with(family, &[0x01, 0x02], &mut dst[..]),
            Err(Error::LengthMismatch { expected: 4, actual: 3 })
        );
        assert_eq!(dst, [0x11; 3]);
        assert_eq!(decode_to_buf_with(family, "zzz", &mut dst[..]), Err(Error::OddLength));
        assert_eq!(
            decode_to_buf_with(family, "zz", &mut dst[..]),
            Err(Error::LengthMismatch { expected: 1, actual: 3 })
        );
        assert_eq!(dst, [0x11; 3]);
    }
}

#[test]
fn chunk_kernels_of_the_families_agree() {
    let wide = noise(1, 32);
    let narrow = noise(2, 16);
    let wide_text = rendering(&wide, false).into_bytes();
    let narrow_text = rendering(&narrow, true).into_bytes();
    for family in FAMILIES {
        assert_eq!(encode_wide(family, &wide).to_vec(), wide_text);
        assert_eq!(encode_narrow(family, &narrow).to_vec(), narrow_text.to_ascii_lowercase());
        assert_eq!(decode_wide(family, &wide_text).unwrap().to_vec(), wide);
        assert_eq!(decode_narrow(family, &narrow_text).unwrap().to_vec(), narrow);
        for at in [0usize, 1, 30, 31] {
            for bad in [b':', b'`', 0xb1] {
                let mut text = narrow_text.clone();
                text[at] = bad;
                assert_eq!(decode_narrow(family, &text), None);
                let mut text = wide_text.clone();
                text[2 * at] = bad;
                assert_eq!(decode_wide(family, &text), None);
            }
        }
    }
}

#[test]
fn digit_table_holds_the_lowercase_digits() {
    assert_eq!(&HEX_DIGITS, b"0123456789abcdef");
    let lanes: [u8; 16] = [15, 14, 13, 12, 11, 10, 9, 8, 7, 6, 5, 4, 3, 2, 1, 0];
    assert_eq!(&nibble_lanes_by_table::<16>(&lanes), b"fedcba9876543210");
    assert_eq!(nibble_lanes_by_table::<16>(&lanes), nibble_lanes_to_ascii::<16>(&lanes));
}

#[test]
fn permute_tables_agree_with_the_lookup_table_on_every_byte() {
    for c in 0..=255u8 {
        assert_eq!(permute_lane(c), lut_lookup(c), "byte {:#04x}", c);
    }
    for c in 0..64usize {
        assert_eq!(PERMUTE_LOW[c], lut_lookup(c as u8));
        assert_eq!(PERMUTE_HIGH[c], lut_lookup(c as u8 + 64));
    }
    // A byte with the eighth bit set has the low seven bits of a digit, and is refused.
    assert_eq!(permute_lane(b'0' | 0x80), 255);
    assert_eq!(permute_lane(b'a' | 0x80), 255);
}

#[test]
fn multiply_add_packs_as_shift_and_or_does() {
    for hi in 0..16u8 {
        for lo in 0..16u8 {
            assert_eq!(multiply_add(hi, lo), hi * 16 + lo);
            assert_eq!(multiply_add(hi, lo), pack_nibbles(hi, lo));
        }
    }
}
