use diameter_client::address::Address;
use diameter_client::address::AddressValue;
use diameter_client::error::Error;
use diameter_client::message::frame_length;
use diameter_client::message::Avp;
use diameter_client::message::DiameterMessage;
use diameter_client::message::REQUEST_FLAG;

fn sample_message() -> DiameterMessage {
    let mut msg = DiameterMessage::new(272, 4, REQUEST_FLAG, 1123158610, 3102381851);
    msg.add_avp(Avp::new(
        257,
        None,
        0x40,
        Address::new(AddressValue::IPv4(127, 0, 0, 1)),
    ));
    msg.add_avp(Avp::new(
        257,
        Some(10415),
        0x40,
        Address::new(AddressValue::IPv6(0, 0, 0, 0, 0, 0, 0, 1)),
    ));
    msg
}

#[test]
fn test_message_round_trip() {
    let msg = sample_message();
    let mut encoded: Vec<u8> = Vec::new();
    msg.encode_to(&mut encoded).unwrap();
    let decoded = DiameterMessage::decode_from(&encoded).unwrap();
    assert_eq!(decoded, msg);
}

#[test]
fn test_encoded_length_field_is_computed() {
    let msg = sample_message();
    let mut encoded: Vec<u8> = Vec::new();
    msg.encode_to(&mut encoded).unwrap();
    // header 21, first record 9 + 6, second record 13 + 18
    assert_eq!(encoded.len(), 67);
    assert_eq!(encoded[0], 0);
    let declared =
        ((encoded[1] as u32) << 16) | ((encoded[2] as u32) << 8) | (encoded[3] as u32);
    assert_eq!(declared as usize, encoded.len());
}

#[test]
fn test_decode_rejects_declared_length_mismatch() {
    let msg = sample_message();
    let mut encoded: Vec<u8> = Vec::new();
    msg.encode_to(&mut encoded).unwrap();
    encoded.pop();
    assert_eq!(
        DiameterMessage::decode_from(&encoded).unwrap_err(),
        Error::InvalidMessageLength
    );
}

#[test]
fn test_decode_rejects_short_header() {
    let bytes = vec![0x00, 0x00, 0x00, 0x08, 0x00, 0x00, 0x00, 0x00];
    assert_eq!(
        DiameterMessage::decode_from(&bytes).unwrap_err(),
        Error::InvalidMessageLength
    );
}

#[test]
fn test_decode_rejects_attribute_past_boundary() {
    // A 36-byte message whose single attribute record declares 16 bytes but
    // only 15 remain: the record would read past the message boundary.
    let mut bytes: Vec<u8> = vec![0x00, 0x00, 0x00, 36];
    bytes.extend_from_slice(&[0x00, 0x00, 0x01, 0x10]); // command code
    bytes.extend_from_slice(&[0x00, 0x00, 0x00, 0x04]); // application id
    bytes.push(REQUEST_FLAG);
    bytes.extend_from_slice(&[0x00, 0x00, 0x00, 0x01]); // hop-by-hop id
    bytes.extend_from_slice(&[0x00, 0x00, 0x00, 0x02]); // end-to-end id
    bytes.extend_from_slice(&[0x00, 0x00, 0x01, 0x01]); // attribute code
    bytes.push(0x00); // attribute flags, no vendor
    bytes.extend_from_slice(&[0x00, 0x00, 0x00, 0x10]); // declared record length 16
    bytes.extend_from_slice(&[0x00, 0x01, 0x7f, 0x00, 0x00, 0x01]); // 6 value bytes
    assert_eq!(bytes.len(), 36);
    assert_eq!(
        DiameterMessage::decode_from(&bytes).unwrap_err(),
        Error::InvalidMessageLength
    );
}

#[test]
fn test_decode_propagates_value_errors() {
    // A well-framed message whose single attribute carries an unknown
    // address family.
    let mut bytes: Vec<u8> = vec![0x00, 0x00, 0x00, 36];
    bytes.extend_from_slice(&[0x00, 0x00, 0x01, 0x10]);
    bytes.extend_from_slice(&[0x00, 0x00, 0x00, 0x04]);
    bytes.push(0x00);
    bytes.extend_from_slice(&[0x00, 0x00, 0x00, 0x01]);
    bytes.extend_from_slice(&[0x00, 0x00, 0x00, 0x02]);
    bytes.extend_from_slice(&[0x00, 0x00, 0x01, 0x01]);
    bytes.push(0x00);
    bytes.extend_from_slice(&[0x00, 0x00, 0x00, 0x0f]); // record length 15
    bytes.extend_from_slice(&[0x00, 0x03, 0x7f, 0x00, 0x00, 0x01]); // family 3
    assert_eq!(bytes.len(), 36);
    assert_eq!(
        DiameterMessage::decode_from(&bytes).unwrap_err(),
        Error::UnsupportedAddressType
    );
}

#[test]
fn test_encode_refuses_e164_value() {
    let mut msg = DiameterMessage::new(272, 4, 0, 1, 2);
    msg.add_avp(Avp::new(
        257,
        None,
        0,
        Address::new(AddressValue::E164(vec![0x31])),
    ));
    let mut buf: Vec<u8> = Vec::new();
    assert_eq!(msg.encode_to(&mut buf).unwrap_err(), Error::UnsupportedValueType);
    assert!(buf.is_empty());
}

#[test]
fn test_stray_vendor_bit_is_never_emitted() {
    // Even a hand-built record whose stored flags carry the vendor bit with
    // no vendor qualifier encodes a self-consistent frame.
    let mut msg = DiameterMessage::new(272, 4, 0, 6, 7);
    msg.add_avp(Avp {
        code: 257,
        vendor_id: None,
        flags: 0xff,
        value: Address::new(AddressValue::IPv4(10, 0, 0, 1)),
    });
    let mut encoded: Vec<u8> = Vec::new();
    msg.encode_to(&mut encoded).unwrap();
    let decoded = DiameterMessage::decode_from(&encoded).unwrap();
    assert_eq!(decoded.avps[0].flags, 0x7f);
    assert_eq!(decoded.avps[0].vendor_id, None);
}

#[test]
fn test_message_without_attributes_round_trips() {
    let msg = DiameterMessage::new(257, 0, 0, 42, 43);
    let mut encoded: Vec<u8> = Vec::new();
    msg.encode_to(&mut encoded).unwrap();
    assert_eq!(encoded.len(), 21);
    let decoded = DiameterMessage::decode_from(&encoded).unwrap();
    assert_eq!(decoded, msg);
}

#[test]
fn test_encode_refuses_message_over_length_field() {
    // Enough 15-byte records to push the total past the 24-bit length field.
    let mut msg = DiameterMessage::new(272, 4, 0, 1, 2);
    let avp = Avp::new(257, None, 0, Address::new(AddressValue::IPv4(10, 0, 0, 1)));
    for _ in 0..1_118_482 {
        msg.add_avp(avp.clone());
    }
    let mut buf: Vec<u8> = Vec::new();
    assert_eq!(msg.encode_to(&mut buf).unwrap_err(), Error::MessageTooLarge);
    assert!(buf.is_empty());
}

#[test]
fn test_frame_length_accepts_reasonable_lengths() {
    assert_eq!(frame_length(&[0x00, 0x00, 0x00, 0x64]).unwrap(), 100);
    assert_eq!(frame_length(&[0xff, 0x00, 0x00, 0x64]).unwrap(), 100); // high byte ignored
    assert_eq!(frame_length(&[0x00, 0x10, 0x00, 0x00]).unwrap(), 1024 * 1024);
}

#[test]
fn test_frame_length_rejects_oversize() {
    assert_eq!(
        frame_length(&[0x00, 0x10, 0x00, 0x01]).unwrap_err(),
        Error::MessageTooLarge
    );
    assert_eq!(
        frame_length(&[0x00, 0xff, 0xff, 0xff]).unwrap_err(),
        Error::MessageTooLarge
    );
}

#[test]
fn test_frame_length_rejects_too_short() {
    assert_eq!(
        frame_length(&[0x00, 0x00, 0x00, 0x03]).unwrap_err(),
        Error::InvalidMessageLength
    );
}
