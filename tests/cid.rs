use navira_car::wire::cbor::CborValue;
use navira_car::wire::cid::{CidFormatError, RawCid};

#[test]
fn test_raw_cid_bin_parsing_cidv0() {
    let cidv0_bytes =
        hex::decode("12200E7071C59DF3B9454D1D18A15270AA36D54F89606A576DC621757AFD44AD1D2E")
            .unwrap();
    let (parsed_cidv0, size_v0) = RawCid::try_read_bytes(&cidv0_bytes).unwrap();
    assert_eq!(size_v0, 34);
    assert_eq!(parsed_cidv0.bytes(), &cidv0_bytes[..34]);
}

#[test]
fn test_raw_cid_bin_parsing_cidv1() {
    let cidv1_bytes = vec![
        1, 112, 18, 32, 44, 95, 104, 130, 98, 224, 236, 232, 86, 154, 166, 249, 77, 96, 170,
        213, 92, 168, 217, 216, 55, 52, 228, 167, 67, 13, 12, 255, 101, 136, 236, 43,
    ];
    let (parsed_cidv1, size_v1) = RawCid::try_read_bytes(&cidv1_bytes).unwrap();
    assert_eq!(size_v1, cidv1_bytes.len());
    assert_eq!(parsed_cidv1.bytes(), &cidv1_bytes[..]);
}

#[test]
fn test_raw_cid_bin_parsing_cidv1_insufficient() {
    let cidv1_bytes = vec![
        1, 112, 18, 32, 44, 95, 104, 130, 98, 224, 236, 232, 86, 154, 166, 249, 77, 96, 170,
        213, 92, 168, 217, 216, 55, 52, 228, 167, 67, 13, 12, 255, 101, 136,
    ];
    let result = RawCid::try_read_bytes(&cidv1_bytes);
    assert!(matches!(result, Err(CidFormatError::InsufficientData)));
}

#[test]
fn cidv1_every_truncation_is_insufficient() {
    let cid = vec![
        1, 112, 18, 32, 44, 95, 104, 130, 98, 224, 236, 232, 86, 154, 166, 249, 77, 96, 170,
        213, 92, 168, 217, 216, 55, 52, 228, 167, 67, 13, 12, 255, 101, 136, 236, 43,
    ];
    for cut in 0..cid.len() {
        assert!(matches!(
            RawCid::try_read_bytes(&cid[..cut]),
            Err(CidFormatError::InsufficientData)
        ));
    }
}

#[test]
fn cid_parse_stops_at_cid_end() {
    let mut bytes = RawCid::from_hex(
        "01551220b6fbd675f98e2abd22d4ed29fdc83150fedc48597e92dd1a7a24381d44a27451",
    )
    .unwrap()
    .bytes()
    .to_vec();
    bytes.extend_from_slice(&[0x62, 0x65, 0x61, 0x72]);
    let (cid, n) = RawCid::try_read_bytes(&bytes).unwrap();
    assert_eq!(n, 36);
    assert_eq!(cid.bytes(), &bytes[..36]);
}

#[test]
fn cid_unsupported_version() {
    assert!(matches!(
        RawCid::try_read_bytes(&[0x02, 0x55, 0x12, 0x20]),
        Err(CidFormatError::UnsupportedVersion)
    ));
    assert!(matches!(
        RawCid::try_read_bytes(&[0x12, 0x21, 0x00]),
        Err(CidFormatError::UnsupportedVersion)
    ));
}

#[test]
fn cid_hex_round_trip() {
    let text = "01551220b6fbd675f98e2abd22d4ed29fdc83150fedc48597e92dd1a7a24381d44a27451";
    let cid = RawCid::from_hex(text).unwrap();
    assert_eq!(cid.bytes().len(), 36);
    assert_eq!(cid.bytes()[..4], [0x01, 0x55, 0x12, 0x20]);
    assert_eq!(cid.to_hex(), text);
    assert_eq!(RawCid::from_hex("ABcd").unwrap().bytes(), &[0xAB, 0xCD]);
    assert!(RawCid::from_hex("abc").is_err());
    assert!(RawCid::from_hex("zz").is_err());
}

#[test]
fn raw_cid_cbor_link_has_identity_prefix() {
    let raw_cid = RawCid::new(vec![0x01, 0x55, 0x02, 0x03, 0x04]);
    let buf = raw_cid.to_cbor_bytes();
    let expected = vec![0xD8, 0x2A, 0x46, 0x00, 0x01, 0x55, 0x02, 0x03, 0x04];
    assert_eq!(buf, expected);
}

#[test]
fn raw_cid_cbor_link_strips_identity_prefix() {
    let data = vec![0xD8, 0x2A, 0x46, 0x00, 0x01, 0x55, 0x02, 0x03, 0x04];
    let raw_cid = RawCid::from_cbor_bytes(&data).unwrap();
    assert_eq!(raw_cid, RawCid::new(vec![0x01, 0x55, 0x02, 0x03, 0x04]));
}

#[test]
fn test_raw_cid_deserialization_invalid_tag() {
    let invalid_cid_data = vec![0xD8, 0x1A, 0x45, 0x01, 0x55, 0x02, 0x03, 0x04];
    assert!(RawCid::from_cbor_bytes(&invalid_cid_data).is_none());
    // A byte string without the identity prefix is no link either.
    assert!(RawCid::from_cbor_bytes(&[0xD8, 0x2A, 0x45, 0x01, 0x55, 0x02, 0x03, 0x04]).is_none());
    assert!(RawCid::from_cbor_bytes(&[0xFF]).is_none());
    assert!(RawCid::from_cbor(&CborValue::Bytes(vec![0x00, 0x01])).is_none());
}
