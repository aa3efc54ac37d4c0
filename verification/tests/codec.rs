use base58::FromBase58;
use base58::ToBase58;
use pipehub::codec::decode;
use pipehub::codec::encode;
use pipehub::codec::DecodeError;

#[test]
fn round_trip_zero() {
    assert_eq!(encode(0), "11111111");
    assert_eq!(decode("11111111"), Ok(0));
}

#[test]
fn round_trip_small_values() {
    for x in [1i64, 2, 57, 58, 255, 256, 4096, 65535, 1_000_000] {
        assert_eq!(decode(&encode(x)), Ok(x), "round trip failed for {}", x);
    }
}

#[test]
fn round_trip_negative_values() {
    for x in [-1i64, -2, -255, -65536, -1_000_000_007] {
        assert_eq!(decode(&encode(x)), Ok(x), "round trip failed for {}", x);
    }
}

#[test]
fn round_trip_extremes() {
    assert_eq!(decode(&encode(i64::MAX)), Ok(i64::MAX));
    assert_eq!(decode(&encode(i64::MIN)), Ok(i64::MIN));
}

#[test]
fn round_trip_low_zero_bytes() {
    // low-order zero bytes of the identifier become leading '1' characters
    for x in [256i64, 65536, 16777216, 0x0100_0000_0000_0000] {
        let key = encode(x);
        assert!(key.starts_with('1'), "no leading 1 in {}", key);
        assert_eq!(decode(&key), Ok(x));
    }
}

#[test]
fn encode_matches_reference_base58() {
    for x in [0i64, 1, -1, 42, 58, 255, 256, -123456789, i64::MAX, i64::MIN, 77777777777] {
        assert_eq!(encode(x), x.to_le_bytes().to_base58(), "mismatch for {}", x);
    }
}

#[test]
fn decode_matches_reference_base58() {
    for x in [0i64, 5, -5, 4242424242, i64::MAX, i64::MIN] {
        let key = x.to_le_bytes().to_base58();
        let bytes = key.from_base58().unwrap();
        let mut first8 = [0u8; 8];
        first8.copy_from_slice(&bytes[0..8]);
        assert_eq!(decode(&key), Ok(i64::from_le_bytes(first8)));
    }
}

#[test]
fn decode_rejects_foreign_characters() {
    // 0, O, I and l are outside the alphabet, as is anything non-alphanumeric
    for key in ["0", "O", "I", "l", "3mJr0", "O3yxU", "s!5<", "abc def", "ключ", "1111111O"] {
        assert_eq!(decode(key), Err(DecodeError::InvalidCharacter), "accepted {:?}", key);
    }
}

#[test]
fn decode_rejects_short_strings() {
    // too few decoded bytes, even when every character is in the alphabet
    for key in ["", "z", "21", "1111111", "zzzz"] {
        assert_eq!(decode(key), Err(DecodeError::TooShort), "accepted {:?}", key);
    }
}

#[test]
fn decode_ignores_bytes_beyond_eight() {
    // a longer byte string decodes to its first 8 bytes, little-endian
    let bytes: [u8; 10] = [1, 2, 3, 4, 5, 6, 7, 8, 9, 10];
    let key = bytes.to_base58();
    let mut first8 = [0u8; 8];
    first8.copy_from_slice(&bytes[0..8]);
    assert_eq!(decode(&key), Ok(i64::from_le_bytes(first8)));
}
