use diameter_client::address::Address;
use diameter_client::address::AddressValue;
use diameter_client::error::Error;

#[test]
fn test_encode_decode_ipv4() {
    let avp = Address::new(AddressValue::IPv4(127, 0, 0, 1));
    let mut encoded: Vec<u8> = Vec::new();
    avp.encode_to(&mut encoded).unwrap();
    let decoded = Address::decode_from(&encoded, 6).unwrap();
    assert_eq!(decoded.0, AddressValue::IPv4(127, 0, 0, 1));
}

#[test]
fn test_encode_decode_ipv6() {
    let avp = Address::new(AddressValue::IPv6(0, 0, 0, 0, 0, 0, 0, 1));
    let mut encoded: Vec<u8> = Vec::new();
    avp.encode_to(&mut encoded).unwrap();
    let decoded = Address::decode_from(&encoded, encoded.len()).unwrap();
    assert_eq!(decoded.0, AddressValue::IPv6(0, 0, 0, 0, 0, 0, 0, 1));
}

#[test]
fn test_encode_ipv4_exact_bytes() {
    let avp = Address::new(AddressValue::IPv4(127, 0, 0, 1));
    let mut encoded: Vec<u8> = Vec::new();
    avp.encode_to(&mut encoded).unwrap();
    assert_eq!(encoded, vec![0x00, 0x01, 0x7f, 0x00, 0x00, 0x01]);
}

#[test]
fn test_encode_ipv6_exact_bytes() {
    let avp = Address::new(AddressValue::IPv6(0, 0, 0, 0, 0, 0, 0, 1));
    let mut encoded: Vec<u8> = Vec::new();
    avp.encode_to(&mut encoded).unwrap();
    let mut expected: Vec<u8> = vec![0x00, 0x02];
    expected.extend_from_slice(&[0; 15]);
    expected.push(0x01);
    assert_eq!(encoded, expected);
}

#[test]
fn test_encode_ipv6_group_bytes_big_endian() {
    let avp = Address::new(AddressValue::IPv6(
        0x2001, 0x0db8, 0x85a3, 0x0000, 0x0000, 0x8a2e, 0x0370, 0x7334,
    ));
    let mut encoded: Vec<u8> = Vec::new();
    avp.encode_to(&mut encoded).unwrap();
    assert_eq!(
        encoded,
        vec![
            0x00, 0x02, 0x20, 0x01, 0x0d, 0xb8, 0x85, 0xa3, 0x00, 0x00, 0x00, 0x00, 0x8a, 0x2e,
            0x03, 0x70, 0x73, 0x34,
        ]
    );
    let decoded = Address::decode_from(&encoded, 18).unwrap();
    assert_eq!(
        decoded.0,
        AddressValue::IPv6(0x2001, 0x0db8, 0x85a3, 0x0000, 0x0000, 0x8a2e, 0x0370, 0x7334)
    );
}

#[test]
fn test_wire_length_matches_encoded_bytes() {
    let v4 = Address::new(AddressValue::IPv4(10, 0, 0, 7));
    let mut b4: Vec<u8> = Vec::new();
    v4.encode_to(&mut b4).unwrap();
    assert_eq!(v4.length().unwrap() as usize, b4.len());

    let v6 = Address::new(AddressValue::IPv6(1, 2, 3, 4, 5, 6, 7, 8));
    let mut b6: Vec<u8> = Vec::new();
    v6.encode_to(&mut b6).unwrap();
    assert_eq!(v6.length().unwrap() as usize, b6.len());
}

#[test]
fn test_ipv4_length_mismatch_rejected() {
    let bytes = vec![0x00, 0x01, 0x7f, 0x00, 0x00, 0x01];
    assert_eq!(
        Address::decode_from(&bytes, 7).unwrap_err(),
        Error::InvalidAddressLength
    );
    assert_eq!(
        Address::decode_from(&bytes, 18).unwrap_err(),
        Error::InvalidAddressLength
    );
}

#[test]
fn test_ipv6_length_mismatch_rejected() {
    let mut bytes = vec![0x00, 0x02];
    bytes.extend_from_slice(&[0; 16]);
    assert_eq!(
        Address::decode_from(&bytes, 17).unwrap_err(),
        Error::InvalidAddressLength
    );
    assert_eq!(
        Address::decode_from(&bytes, 6).unwrap_err(),
        Error::InvalidAddressLength
    );
}

#[test]
fn test_unrecognized_family_rejected() {
    let bytes = vec![0x00, 0x03, 0x01, 0x02, 0x03, 0x04];
    assert_eq!(
        Address::decode_from(&bytes, 6).unwrap_err(),
        Error::UnsupportedAddressType
    );
    let high = vec![0x01, 0x01, 0x7f, 0x00, 0x00, 0x01];
    assert_eq!(
        Address::decode_from(&high, 6).unwrap_err(),
        Error::UnsupportedAddressType
    );
}

#[test]
fn test_e164_family_unsupported() {
    let bytes = vec![0x00, 0x08, 0x31, 0x32, 0x33];
    assert_eq!(
        Address::decode_from(&bytes, 5).unwrap_err(),
        Error::UnsupportedValueType
    );
}

#[test]
fn test_e164_value_refused_on_encode_and_length() {
    let avp = Address::new(AddressValue::E164(vec![0x31, 0x32, 0x33]));
    let mut buf: Vec<u8> = vec![0xaa];
    assert_eq!(avp.encode_to(&mut buf).unwrap_err(), Error::UnsupportedValueType);
    assert_eq!(buf, vec![0xaa]);
    assert_eq!(avp.length().unwrap_err(), Error::UnsupportedValueType);
}

#[test]
fn test_truncated_input_rejected() {
    assert_eq!(Address::decode_from(&[0x00], 6).unwrap_err(), Error::Truncated);
    assert_eq!(
        Address::decode_from(&[0x00, 0x01, 0x7f, 0x00], 6).unwrap_err(),
        Error::Truncated
    );
    let short6 = vec![0x00, 0x02, 0x00, 0x00];
    assert_eq!(Address::decode_from(&short6, 18).unwrap_err(), Error::Truncated);
}
