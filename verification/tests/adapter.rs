use muhex::serde::{deserialize, deserialize_fixed, serialize};
use muhex::Error;

struct Label(Vec<u8>);

impl From<Vec<u8>> for Label {
    fn from(bytes: Vec<u8>) -> Self {
        Label(bytes)
    }
}

#[test]
fn serialize_gives_the_hex_text() {
    assert_eq!(serialize(&[0x00, 0xFF, 0x0A]), "00ff0a");
    assert_eq!(serialize(&[]), "");
}

#[test]
fn deserialize_builds_the_value_from_the_decoded_bytes() {
    let bytes: Vec<u8> = deserialize("00FF0a").unwrap();
    assert_eq!(bytes, vec![0x00, 0xFF, 0x0A]);
    let label: Label = deserialize("6869").unwrap();
    assert_eq!(label.0, b"hi");
}

#[test]
fn deserialize_hands_on_the_error_of_the_decoding() {
    assert_eq!(deserialize::<Vec<u8>>("0").unwrap_err(), Error::OddLength);
    assert_eq!(deserialize::<Vec<u8>>("0g").unwrap_err(), Error::InvalidCharacter);
    assert_eq!(deserialize::<Vec<u8>>(":0").unwrap_err(), Error::InvalidCharacter);
}

#[test]
fn deserialize_round_trips_what_serialize_gave() {
    for len in [0usize, 1, 16, 17, 33, 64, 100] {
        let bytes: Vec<u8> = (0..len).map(|i| (i * 37 + 11) as u8).collect();
        let back: Vec<u8> = deserialize(&serialize(&bytes)).unwrap();
        assert_eq!(back, bytes);
    }
}

#[test]
fn deserialize_fixed_wants_the_exact_size() {
    assert_eq!(deserialize_fixed::<3>("00FF0a"), Ok([0x00, 0xFF, 0x0A]));
    assert_eq!(deserialize_fixed::<0>(""), Ok([]));
    assert_eq!(
        deserialize_fixed::<2>("00FF0a"),
        Err(Error::LengthMismatch { expected: 3, actual: 2 })
    );
    assert_eq!(
        deserialize_fixed::<4>("00FF0a"),
        Err(Error::LengthMismatch { expected: 3, actual: 4 })
    );
    assert_eq!(deserialize_fixed::<3>("00FF0"), Err(Error::OddLength));
    assert_eq!(deserialize_fixed::<3>("00FF0g"), Err(Error::InvalidCharacter));
    assert_eq!(
        deserialize_fixed::<2>("zzzzzz"),
        Err(Error::LengthMismatch { expected: 3, actual: 2 })
    );
}

#[test]
fn deserialize_fixed_reads_a_wide_value() {
    let text = "000102030405060708090a0b0c0d0e0f101112131415161718191A1B1C1D1E1F20";
    let want: Vec<u8> = (0..33).collect();
    assert_eq!(deserialize_fixed::<33>(text).unwrap().to_vec(), want);
}
