//! Wire codec: variable-byte integers and the PUBREC packet.

use rsmqtt_core::codec::{DecodeError, EncodeError, decode_pubrec_packet, encode_pubrec,
    read_varint, write_varint};
use rsmqtt_core::packets::{PubRec, PubRecProperties, PubRecReasonCode};

fn success_pubrec(packet_id: u16) -> PubRec {
    PubRec { packet_id, reason_code: PubRecReasonCode::Success, properties: PubRecProperties::empty() }
}

#[test]
fn varint_single_byte() {
    let mut out = Vec::new();
    write_varint(&mut out, 0);
    assert_eq!(out, vec![0u8]);
    out.clear();
    write_varint(&mut out, 127);
    assert_eq!(out, vec![127u8]);
}

#[test]
fn varint_multi_byte() {
    let mut out = Vec::new();
    write_varint(&mut out, 321);
    assert_eq!(out, vec![0xC1u8, 0x02]);
    let (v, c) = read_varint(&out, 0).unwrap();
    assert_eq!((v, c), (321, 2));
    out.clear();
    write_varint(&mut out, 0x0FFF_FFFF);
    assert_eq!(out, vec![0xFFu8, 0xFF, 0xFF, 0x7F]);
    let (v, c) = read_varint(&out, 0).unwrap();
    assert_eq!((v, c), (0x0FFF_FFFF, 4));
}

#[test]
fn varint_rejects_overlong_input() {
    assert!(read_varint(&[0x80u8, 0x80, 0x80, 0x80, 0x01], 0).is_none());
    assert!(read_varint(&[0x80u8], 0).is_none());
}

#[test]
fn pubrec_success_is_two_byte_body() {
    let data = encode_pubrec(&success_pubrec(42), 1024).unwrap();
    assert_eq!(data, vec![0x50u8, 0x02, 0x00, 0x2A]);
    let back = decode_pubrec_packet(&data, 1024).unwrap();
    assert_eq!(back.packet_id, 42);
    assert_eq!(back.reason_code, PubRecReasonCode::Success);
    assert!(back.properties.reason_string.is_none());
    assert!(back.properties.user_properties.is_empty());
}

#[test]
fn pubrec_error_reason_round_trips() {
    let p = PubRec {
        packet_id: 7,
        reason_code: PubRecReasonCode::PacketIdentifierInUse,
        properties: PubRecProperties::empty(),
    };
    let data = encode_pubrec(&p, 1024).unwrap();
    assert_eq!(data, vec![0x50u8, 0x03, 0x00, 0x07, 0x91]);
    let back = decode_pubrec_packet(&data, 1024).unwrap();
    assert_eq!(back.packet_id, 7);
    assert_eq!(back.reason_code, PubRecReasonCode::PacketIdentifierInUse);
}

#[test]
fn pubrec_with_properties_round_trips() {
    let p = PubRec {
        packet_id: 9,
        reason_code: PubRecReasonCode::QuotaExceeded,
        properties: PubRecProperties {
            reason_string: Some(b"busy".to_vec()),
            user_properties: vec![
                (b"k1".to_vec(), b"v1".to_vec()),
                (b"k2".to_vec(), b"v2".to_vec()),
            ],
        },
    };
    let data = encode_pubrec(&p, 1024).unwrap();
    let back = decode_pubrec_packet(&data, 1024).unwrap();
    assert_eq!(back.packet_id, 9);
    assert_eq!(back.reason_code, PubRecReasonCode::QuotaExceeded);
    assert_eq!(back.properties.reason_string.as_deref(), Some(b"busy".as_slice()));
    assert_eq!(back.properties.user_properties.len(), 2);
    assert_eq!(back.properties.user_properties[0].0, b"k1".to_vec());
    assert_eq!(back.properties.user_properties[1].1, b"v2".to_vec());
}

#[test]
fn pubrec_success_with_properties_keeps_reason_code_byte() {
    let p = PubRec {
        packet_id: 3,
        reason_code: PubRecReasonCode::Success,
        properties: PubRecProperties {
            reason_string: Some(b"ok".to_vec()),
            user_properties: Vec::new(),
        },
    };
    let data = encode_pubrec(&p, 1024).unwrap();
    // header, remaining length, packet id, reason code, property length,
    // reason-string property
    assert_eq!(data[0], 0x50);
    assert_eq!(data[4], 0x00);
    let back = decode_pubrec_packet(&data, 1024).unwrap();
    assert_eq!(back.reason_code, PubRecReasonCode::Success);
    assert_eq!(back.properties.reason_string.as_deref(), Some(b"ok".as_slice()));
}

#[test]
fn encode_enforces_outbound_size() {
    assert_eq!(encode_pubrec(&success_pubrec(42), 3), Err(EncodeError::PayloadTooLarge));
}

#[test]
fn decode_enforces_inbound_size() {
    let data = encode_pubrec(&success_pubrec(42), 1024).unwrap();
    assert_eq!(decode_pubrec_packet(&data, 3), Err(DecodeError::PacketTooLarge));
}

#[test]
fn decode_rejects_zero_packet_id() {
    assert_eq!(
        decode_pubrec_packet(&[0x50u8, 0x02, 0x00, 0x00], 1024),
        Err(DecodeError::InvalidPacketId)
    );
}

#[test]
fn decode_rejects_unknown_reason_code() {
    assert_eq!(
        decode_pubrec_packet(&[0x50u8, 0x03, 0x00, 0x07, 0x42], 1024),
        Err(DecodeError::InvalidPubRecReasonCode(0x42))
    );
}

#[test]
fn decode_rejects_unknown_property() {
    // pid 7, reason 0, property length 1, unknown property byte
    assert_eq!(
        decode_pubrec_packet(&[0x50u8, 0x05, 0x00, 0x07, 0x00, 0x01, 0x99], 1024),
        Err(DecodeError::InvalidPubRecProperty(0x99))
    );
}

#[test]
fn decode_rejects_truncated_packets() {
    assert_eq!(decode_pubrec_packet(&[0x50u8, 0x02, 0x00], 1024), Err(DecodeError::MalformedPacket));
    assert_eq!(decode_pubrec_packet(&[0x50u8], 1024), Err(DecodeError::MalformedPacket));
}
