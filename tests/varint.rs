use navira_car::wire::varint::{SignedVarint, UnsignedVarint};

#[test]
fn test_unsigned_varint_encoding() {
    let varint = UnsignedVarint(624485);
    let expected = vec![0xE5, 0x8E, 0x26];
    assert_eq!(varint.encode(), expected);
}

#[test]
fn test_unsigned_varint_encoding_decoding() {
    let varint = vec![0xE5, 0x8E, 0x26];
    let (decoded, bytes_read) = UnsignedVarint::decode(&varint).unwrap();
    assert_eq!(decoded, UnsignedVarint(624485));
    assert_eq!(bytes_read, varint.len());
}

#[test]
fn test_unsigned_varint_round_trip() {
    for i in 0..=65537 {
        let varint = UnsignedVarint(i);
        let encoded = varint.encode();
        let (decoded, bytes_read) = UnsignedVarint::decode(&encoded).unwrap();
        assert_eq!(varint, decoded);
        assert_eq!(bytes_read, encoded.len());
    }
}

#[test]
fn test_signed_varint_encoding() {
    let varint = SignedVarint(-123456);
    let expected = vec![0xC0, 0xBB, 0x78];
    assert_eq!(varint.encode(), expected);
}

#[test]
fn test_signed_varint_encoding_decoding() {
    let varint = vec![0xC0, 0xBB, 0x78];
    let (decoded, bytes_read) = SignedVarint::decode(&varint).unwrap();
    assert_eq!(decoded, SignedVarint(-123456));
    assert_eq!(bytes_read, varint.len());
}

#[test]
fn test_signed_varint_round_trip() {
    let test_values = [-65537, -32768, -1, 0, 1, 32767, 65537];
    for &i in &test_values {
        let varint = SignedVarint(i);
        let encoded = varint.encode();
        let (decoded, bytes_read) = SignedVarint::decode(&encoded).unwrap();
        assert_eq!(varint, decoded);
        assert_eq!(bytes_read, encoded.len());
    }
}

#[test]
fn test_unsigned_varint_decode_car_header_size() {
    const CAR_EXTRACT: [u8; 12] = [
        0x63, 0xA2, 0x65, 0x72, 0x6F, 0x6F, 0x74, 0x73, 0x82, 0xD8, 0x2A, 0x58,
    ];
    let (decoded, bytes_read) = UnsignedVarint::decode(&CAR_EXTRACT).unwrap();
    assert_eq!(decoded, UnsignedVarint(99));
    assert_eq!(bytes_read, 1);
}

#[test]
fn unsigned_varint_extremes_round_trip() {
    for v in [127u64, 128, 16383, 16384, u64::MAX - 1, u64::MAX] {
        let encoded = UnsignedVarint(v).encode();
        assert!(encoded.len() <= 10);
        assert_eq!(UnsignedVarint::decode(&encoded), Some((UnsignedVarint(v), encoded.len())));
    }
    assert_eq!(UnsignedVarint(u64::MAX).encode().len(), 10);
    assert_eq!(UnsignedVarint(0).encode(), vec![0x00]);
    assert_eq!(UnsignedVarint(300).encode(), vec![0xAC, 0x02]);
}

#[test]
fn signed_varint_extremes_round_trip() {
    for v in [i64::MIN, i64::MIN + 1, -64, -65, 63, 64, i64::MAX] {
        let encoded = SignedVarint(v).encode();
        assert!(encoded.len() <= 10);
        assert_eq!(SignedVarint::decode(&encoded), Some((SignedVarint(v), encoded.len())));
    }
    assert_eq!(SignedVarint(-1).encode(), vec![0x7F]);
    assert_eq!(SignedVarint(64).encode(), vec![0xC0, 0x00]);
}

#[test]
fn varint_longer_than_ten_bytes_is_rejected() {
    let eleven = [0x80u8, 0x80, 0x80, 0x80, 0x80, 0x80, 0x80, 0x80, 0x80, 0x80, 0x01];
    assert_eq!(UnsignedVarint::decode(&eleven), None);
    assert_eq!(SignedVarint::decode(&eleven), None);
    let ten = [0x80u8, 0x80, 0x80, 0x80, 0x80, 0x80, 0x80, 0x80, 0x80, 0x01];
    assert_eq!(UnsignedVarint::decode(&ten), Some((UnsignedVarint(1u64 << 63), 10)));
}

#[test]
fn varint_truncated_is_none() {
    assert_eq!(UnsignedVarint::decode(&[]), None);
    assert_eq!(UnsignedVarint::decode(&[0xE5, 0x8E]), None);
    assert_eq!(SignedVarint::decode(&[0xC0]), None);
}

#[test]
fn varint_trailing_bytes_are_not_read() {
    assert_eq!(UnsignedVarint::decode(&[0x05, 0xFF, 0xFF]), Some((UnsignedVarint(5), 1)));
}
