use muhex::{decode, decode_to_slice, encode, Error};

fn stream(seed: u64, len: usize) -> Vec<u8> {
    let mut state = seed ^ 0x9e3779b97f4a7c15;
    let mut bytes = Vec::with_capacity(len);
    for _ in 0..len {
        state ^= state << 13;
        state ^= state >> 7;
        state ^= state << 17;
        bytes.push((state >> 32) as u8);
    }
    bytes
}

#[test]
fn test_hex_encode_parity() {
    for len in 0..300 {
        let input = stream(len as u64, len);
        assert_eq!(encode(&input), hex::encode(&input));
    }
}

#[test]
fn test_hex_decode_parity() {
    let alphabet = b"0123456789abcdefABCDEF:@[`gG/ z";
    for round in 0..600u64 {
        let len = (round % 150) as usize;
        let picks = stream(round + 1, len);
        let weight = if round % 3 == 0 { alphabet.len() } else { 22 };
        let text: Vec<u8> = picks.iter().map(|p| alphabet[*p as usize % weight]).collect();
        let text = String::from_utf8(text).unwrap();
        assert_eq!(decode(&text).map_err(|_| ()), hex::decode(&text).map_err(|_| ()), "{:?}", text);
    }
}

#[test]
fn decode_errors_match_those_of_the_hex_crate() {
    let texts =
        ["0", "0g", ":0", "abc", "00gg00", "zzz", "0123456789abcdefABCDEF0123456789abcdefABCDE@"];
    for text in texts {
        let ours = decode(text).unwrap_err();
        match hex::decode(text).unwrap_err() {
            hex::FromHexError::OddLength => assert_eq!(ours, Error::OddLength, "{}", text),
            hex::FromHexError::InvalidHexCharacter { .. } => {
                assert_eq!(ours, Error::InvalidCharacter, "{}", text)
            }
            hex::FromHexError::InvalidStringLength => {
                panic!("the hex crate took {} for a length error", text)
            }
        }
    }
}

#[test]
fn test_decode_to_slice_roundtrip() {
    for len in 0..300 {
        let input = stream(5000 + len as u64, len);
        let encoded = hex::encode(&input);
        let mut buffer = vec![0u8; input.len()];
        assert!(decode_to_slice(&encoded, &mut buffer).is_ok());
        assert_eq!(buffer, input);
    }
}

#[test]
fn test_hex_roundtrip() {
    for len in 0..300 {
        let input = stream(9000 + len as u64, len);
        assert_eq!(decode(&encode(&input)).unwrap(), input);
    }
}

#[test]
fn test_hex_roundtrip_parity() {
    for len in 0..300 {
        let input = stream(13000 + len as u64, len);
        assert_eq!(decode(&encode(&input)).is_ok(), hex::decode(hex::encode(&input)).is_ok());
    }
}
