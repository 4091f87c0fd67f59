use std::mem::MaybeUninit;

use muhex::classify::{decode_lane, lut_lookup, pack_nibbles, HEX_DECODE_LUT, INVALID_NIBBLE};
use muhex::decode::{
    decode_hex_nibbles, decode_into, decode_simd_32, decode_simd_64, decode_tail,
    invalid_hex_char_error, required_output_len, DECODE_NARROW, DECODE_WIDE,
};
use muhex::remainder::{decode_remainder_lut, decode_remainder_simd};
use muhex::encode::{
    encode_scalar, encode_simd_16, encode_simd_32, encode_tail, nibble_lanes_to_ascii,
    nibble_to_ascii, nibble_to_ascii_32, ENCODE_NARROW, ENCODE_WIDE,
};
use muhex::tail::{choose_tail, Tail};
use muhex::text::string_from_ascii;
use muhex::{decode_remainder_lut_bench, decode_remainder_simd_bench, Buf, Error, Family};

fn bytes_from(start: u8, step: u8, len: usize) -> Vec<u8> {
    (0..len).map(|i| start.wrapping_add(step.wrapping_mul(i as u8))).collect()
}

fn lowercase(bytes: &[u8]) -> Vec<u8> {
    let mut text = String::new();
    for b in bytes {
        text.push_str(&format!("{:02x}", b));
    }
    text.into_bytes()
}

fn nibble(c: u8) -> Option<u8> {
    match c {
        b'0'..=b'9' => Some(c - b'0'),
        b'A'..=b'F' => Some(c - b'A' + 10),
        b'a'..=b'f' => Some(c - b'a' + 10),
        _ => None,
    }
}

#[test]
fn nibble_lanes_become_lowercase_digits() {
    let lanes: [u8; 16] = [0, 1, 2, 3, 4, 5, 6, 7, 8, 9, 10, 11, 12, 13, 14, 15];
    assert_eq!(&nibble_to_ascii(&lanes), b"0123456789abcdef");
    let mut wide = [0u8; 32];
    for i in 0..32 {
        wide[i] = (31 - i) as u8 % 16;
    }
    assert_eq!(&nibble_to_ascii_32(&wide), b"fedcba9876543210fedcba9876543210");
    assert_eq!(&nibble_lanes_to_ascii::<4>(&[9, 10, 0, 15]), b"9a0f");
}

#[test]
fn encode_chunk_kernels_give_the_lowercase_rendering() {
    assert_eq!(ENCODE_WIDE, 32);
    assert_eq!(ENCODE_NARROW, 16);
    let narrow = bytes_from(0x07, 0x1d, 16);
    assert_eq!(encode_simd_16(&narrow).to_vec(), lowercase(&narrow));
    let wide = bytes_from(0xf3, 0x3b, 32);
    assert_eq!(encode_simd_32(&wide).to_vec(), lowercase(&wide));
    let zeros = [0u8; 16];
    assert_eq!(&encode_simd_16(&zeros), &[b'0'; 32]);
    let ones = [0xffu8; 32];
    assert_eq!(&encode_simd_32(&ones), &[b'f'; 64]);
}

#[test]
fn scalar_kernel_matches_the_chunk_kernels() {
    let wide = bytes_from(0x11, 0x57, 32);
    let mut dst = [0u8; 64];
    encode_scalar(&wide, &mut dst[..], 0);
    assert_eq!(dst, encode_simd_32(&wide));
    let narrow = bytes_from(0xa0, 0x09, 16);
    let mut dst = [0u8; 32];
    encode_scalar(&narrow, &mut dst[..], 0);
    assert_eq!(dst, encode_simd_16(&narrow));
}

#[test]
fn scalar_kernel_writes_only_its_window() {
    let mut dst = [b'.'; 8];
    encode_scalar(&[0xab, 0x01], &mut dst[..], 2);
    assert_eq!(&dst, b"..ab01..");
    encode_scalar(&[], &mut dst[..], 8);
    assert_eq!(&dst, b"..ab01..");
}

#[test]
fn both_encode_tails_leave_the_same_text() {
    for len in 16..32usize {
        let data = bytes_from(0x35, 0x6b, len);
        let want = lowercase(&data);
        let mut front = vec![b'?'; 2 * len];
        front[..32].copy_from_slice(&want[..32]);
        let mut by_scalar = front.clone();
        encode_tail(Family::Portable, &data, &mut by_scalar[..], 16, Tail::Scalar);
        let mut by_overlap = front.clone();
        encode_tail(Family::Portable, &data, &mut by_overlap[..], 16, Tail::Overlap);
        assert_eq!(by_scalar, want, "length {}", len);
        assert_eq!(by_overlap, want, "length {}", len);
    }
}

#[test]
fn tail_is_overlap_from_the_narrow_chunk_on() {
    for family in [Family::Portable, Family::Table] {
        assert_eq!(choose_tail(family, 0, 16), Tail::Scalar);
        assert_eq!(choose_tail(family, 15, 16), Tail::Scalar);
        assert_eq!(choose_tail(family, 16, 16), Tail::Overlap);
        assert_eq!(choose_tail(family, 17, 16), Tail::Overlap);
        assert_eq!(choose_tail(family, 31, 32), Tail::Scalar);
        assert_eq!(choose_tail(family, 32, 32), Tail::Overlap);
    }
    assert_eq!(choose_tail(Family::Scalar, 15, 16), Tail::Scalar);
    assert_eq!(choose_tail(Family::Scalar, 16, 16), Tail::Scalar);
    assert_eq!(choose_tail(Family::Scalar, 1000, 16), Tail::Scalar);
}

#[test]
fn lookup_table_holds_the_nibble_of_every_digit_and_nothing_else() {
    assert_eq!(INVALID_NIBBLE, 255);
    for c in 0..=255u8 {
        let want = nibble(c).unwrap_or(255);
        assert_eq!(HEX_DECODE_LUT[c as usize], want, "byte {:#04x}", c);
        assert_eq!(lut_lookup(c), want, "byte {:#04x}", c);
    }
}

#[test]
fn lane_classification_agrees_with_the_table_on_every_byte() {
    for c in 0..=255u8 {
        let (value, valid) = decode_lane(c);
        assert_eq!(valid, nibble(c).is_some(), "byte {:#04x}", c);
        if let Some(n) = nibble(c) {
            assert_eq!(value, n, "byte {:#04x}", c);
        }
    }
}

#[test]
fn bias_arithmetic_alone_would_accept_the_first_gap() {
    // ':' is '9' + 1: the biased value is 3, within the bound, and the lane is
    // refused all the same.
    assert_eq!(decode_lane(b':'), (3, false));
    assert_eq!(decode_lane(b'@'), (9, false));
    assert_eq!(decode_lane(b'9'), (9, true));
    assert_eq!(decode_lane(b'A'), (10, true));
    assert_eq!(decode_lane(b'F'), (15, true));
    assert_eq!(decode_lane(b'G'), (16, false));
    assert_eq!(decode_lane(b'a'), (10, true));
    assert_eq!(decode_lane(b'f'), (15, true));
    assert_eq!(decode_lane(b'g'), (16, false));
    assert_eq!(decode_lane(b'/'), (255, false));
}

#[test]
fn lane_sets_are_valid_only_when_every_lane_is() {
    let digits = *b"0123456789abcdefABCDEF0123456789";
    let (values, valid) = decode_hex_nibbles::<32>(&digits);
    assert!(valid);
    assert_eq!(
        values,
        [
            0, 1, 2, 3, 4, 5, 6, 7, 8, 9, 10, 11, 12, 13, 14, 15, 10, 11, 12, 13, 14, 15, 0, 1,
            2, 3, 4, 5, 6, 7, 8, 9
        ]
    );
    for at in 0..32 {
        for bad in [b':', b'@', b'[', b'`', b'g', b'G', b'/', 0x80, 0xff] {
            let mut lanes = digits;
            lanes[at] = bad;
            assert!(!decode_hex_nibbles::<32>(&lanes).1, "lane {} byte {:#04x}", at, bad);
        }
    }
    assert!(decode_hex_nibbles::<0>(&[]).1);
}

#[test]
fn nibbles_pack_high_first() {
    assert_eq!(pack_nibbles(0, 0), 0x00);
    assert_eq!(pack_nibbles(0xa, 0x5), 0xa5);
    assert_eq!(pack_nibbles(0xf, 0xf), 0xff);
    assert_eq!(pack_nibbles(0x1, 0x0), 0x10);
    assert_eq!(pack_nibbles(0x0, 0x1), 0x01);
}

#[test]
fn decode_chunk_kernels_validate_and_convert() {
    assert_eq!(DECODE_WIDE, 64);
    assert_eq!(DECODE_NARROW, 32);
    let wide = bytes_from(0x2a, 0x4f, 32);
    let text = lowercase(&wide);
    assert_eq!(decode_simd_64(&text).unwrap().to_vec(), wide);
    assert_eq!(decode_simd_64(&text.to_ascii_uppercase()).unwrap().to_vec(), wide);
    let narrow = bytes_from(0xc1, 0x13, 16);
    let text = lowercase(&narrow);
    assert_eq!(decode_simd_32(&text).unwrap().to_vec(), narrow);
    for at in 0..32 {
        let mut bad = text.clone();
        bad[at] = b':';
        assert_eq!(decode_simd_32(&bad), None);
    }
}

#[test]
fn table_strategy_decodes_its_window() {
    let input = b"zz00FF0azz";
    let mut out = [0x55u8; 5];
    assert_eq!(decode_remainder_lut(input, &mut out[..], 2, 1, 6), Ok(()));
    assert_eq!(out, [0x55, 0x00, 0xFF, 0x0A, 0x55]);
    assert_eq!(decode_remainder_lut(input, &mut out[..], 0, 0, 0), Ok(()));
    assert_eq!(out, [0x55, 0x00, 0xFF, 0x0A, 0x55]);
}

#[test]
fn table_strategy_refuses_a_pair_with_one_invalid_character() {
    let mut out = [0x55u8; 3];
    assert_eq!(
        decode_remainder_lut(b"00g0ff", &mut out[..], 0, 0, 6),
        Err(Error::InvalidCharacter)
    );
    assert_eq!(out[2], 0x55);
    let mut out = [0x55u8; 3];
    assert_eq!(
        decode_remainder_lut(b"000:ff", &mut out[..], 0, 0, 6),
        Err(Error::InvalidCharacter)
    );
    assert_eq!(out[2], 0x55);
}

#[test]
fn padded_lane_strategy_decodes_up_to_sixteen_pairs() {
    let bytes = bytes_from(0x5e, 0x29, 20);
    let text = lowercase(&bytes);
    for pairs in 0..=16usize {
        let mut out = [0x55u8; 20];
        assert_eq!(decode_remainder_simd(&text, &mut out[..], 0, 0, 2 * pairs), Ok(()));
        assert_eq!(&out[..pairs], &bytes[..pairs]);
        assert_eq!(&out[pairs..], &[0x55u8; 20][pairs..]);
    }
    let mut out = [0x55u8; 20];
    assert_eq!(decode_remainder_simd(&text, &mut out[..], 0, 0, 40), Ok(()));
    assert_eq!(&out[..16], &bytes[..16]);
    assert_eq!(&out[16..], &[0x55u8; 4]);
    let mut out = [0x55u8; 20];
    assert_eq!(decode_remainder_simd(&text, &mut out[..], 4, 3, 5), Ok(()));
    assert_eq!(out[3], bytes[2]);
    assert_eq!(out[4], bytes[3]);
    assert_eq!(out[5], 0x55);
}

#[test]
fn padded_lane_strategy_refuses_and_writes_nothing() {
    let mut text = lowercase(&bytes_from(0x5e, 0x29, 20));
    text[7] = b'@';
    let mut out = [0x55u8; 20];
    assert_eq!(
        decode_remainder_simd(&text, &mut out[..], 0, 0, 32),
        Err(Error::InvalidCharacter)
    );
    assert_eq!(out, [0x55u8; 20]);
    // A character behind the sixteenth pair is not looked at.
    let mut text = lowercase(&bytes_from(0x5e, 0x29, 20));
    text[33] = b'@';
    assert_eq!(decode_remainder_simd(&text, &mut out[..], 0, 0, 40), Ok(()));
}

#[test]
fn remainder_strategies_agree_on_uninitialized_storage() {
    let bytes = bytes_from(0x90, 0x07, 12);
    let text = lowercase(&bytes);
    let mut a: Vec<MaybeUninit<u8>> = vec![MaybeUninit::uninit(); 12];
    let mut b: Vec<MaybeUninit<u8>> = vec![MaybeUninit::uninit(); 12];
    assert_eq!(decode_remainder_simd_bench(&text, &mut a[..], 0, 0, 24), Ok(()));
    assert_eq!(decode_remainder_lut_bench(&text, &mut b[..], 0, 0, 24), Ok(()));
    let mut bad = text.clone();
    bad[23] = b'[';
    assert_eq!(
        decode_remainder_simd_bench(&bad, &mut a[..], 0, 0, 24),
        Err(Error::InvalidCharacter)
    );
    assert_eq!(
        decode_remainder_lut_bench(&bad, &mut b[..], 0, 0, 24),
        Err(Error::InvalidCharacter)
    );
}

#[test]
fn both_decode_tails_give_the_same_answer() {
    for len in 16..32usize {
        let bytes = bytes_from(0x77, 0x3d, len);
        let text = lowercase(&bytes);
        let mut front = vec![0x55u8; len];
        front[..16].copy_from_slice(&bytes[..16]);
        let mut by_table = front.clone();
        assert_eq!(
            decode_tail(Family::Portable, &text, &mut by_table[..], 32, Tail::Scalar),
            Ok(())
        );
        let mut by_overlap = front.clone();
        assert_eq!(
            decode_tail(Family::Table, &text, &mut by_overlap[..], 32, Tail::Overlap),
            Ok(())
        );
        assert_eq!(by_table, bytes);
        assert_eq!(by_overlap, bytes);
        if len > 16 {
            let mut bad = text.clone();
            bad[2 * len - 1] = b':';
            let mut out = front.clone();
            assert_eq!(
                decode_tail(Family::Portable, &bad, &mut out[..], 32, Tail::Scalar),
                Err(Error::InvalidCharacter)
            );
            let mut out = front.clone();
            assert_eq!(
                decode_tail(Family::Portable, &bad, &mut out[..], 32, Tail::Overlap),
                Err(Error::InvalidCharacter)
            );
        }
    }
}

#[test]
fn decode_into_answers_as_decode_does() {
    let bytes = bytes_from(0x01, 0x11, 70);
    let text = lowercase(&bytes);
    let mut out = vec![0u8; 70];
    assert_eq!(decode_into(&text, &mut out[..]), Ok(()));
    assert_eq!(out, bytes);
    let mut odd = vec![0x55u8; 3];
    assert_eq!(decode_into(b"abc", &mut odd[..]), Err(Error::OddLength));
    assert_eq!(odd, vec![0x55u8; 3]);
    let mut bad = text.clone();
    bad[139] = b'G';
    assert_eq!(decode_into(&bad, &mut out[..]), Err(Error::InvalidCharacter));
}

#[test]
fn required_output_len_is_half_of_an_even_length() {
    assert_eq!(required_output_len(0), Ok(0));
    assert_eq!(required_output_len(2), Ok(1));
    assert_eq!(required_output_len(130), Ok(65));
    assert_eq!(required_output_len(1), Err(Error::OddLength));
    assert_eq!(required_output_len(131), Err(Error::OddLength));
    assert_eq!(required_output_len(usize::MAX), Err(Error::OddLength));
    assert_eq!(invalid_hex_char_error(), Error::InvalidCharacter);
}

#[test]
fn byte_buffer_stores_where_it_is_told() {
    let mut dst = [0u8; 6];
    assert_eq!(Buf::dst_len(&dst[..]), 6);
    Buf::write_at(&mut dst[..], 2, b"abc");
    assert_eq!(&dst, b"\0\0abc\0");
    Buf::write_at(&mut dst[..], 6, b"");
    Buf::write_at(&mut dst[..], 0, b"xy");
    assert_eq!(&dst, b"xyabc\0");
    let mut raw = [MaybeUninit::<u8>::uninit(); 4];
    assert_eq!(Buf::dst_len(&raw[..]), 4);
    Buf::write_at(&mut raw[..], 1, b"ab");
}

#[test]
fn ascii_bytes_become_the_same_characters() {
    assert_eq!(string_from_ascii(b"00ff0a".to_vec()), "00ff0a");
    assert_eq!(string_from_ascii(Vec::new()), "");
    assert_eq!(string_from_ascii(vec![0x00, 0x7f]), "\u{0}\u{7f}");
}
