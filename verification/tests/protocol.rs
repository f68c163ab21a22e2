use dynamod::common::protocol::{
    decode, decode_parsed, encode, encode_serialized, DecodeError, EncodeError, Message,
    MessageBody, MessageKind, HEADER_SIZE, MAGIC_FIRST, MAGIC_SECOND, MAX_MESSAGE_SIZE,
};

fn payload(text: &str) -> Vec<u8> {
    rmp_serde::to_vec(&(42u64, text)).unwrap()
}

#[test]
fn decode_incomplete_header() {
    let buf = [0x44, 0x4D];
    assert!(matches!(decode(&buf), Err(DecodeError::Incomplete)));
}

#[test]
fn decode_empty() {
    assert!(matches!(decode(&[]), Err(DecodeError::Incomplete)));
}

#[test]
fn decode_bad_magic() {
    let buf = [0xFF, 0xFF, 0x00, 0x00, 0x00, 0x00];
    assert!(matches!(decode(&buf), Err(DecodeError::BadMagic)));
}

#[test]
fn decode_too_large() {
    let mut buf = vec![0x44, 0x4D];
    let huge_len = MAX_MESSAGE_SIZE + 1;
    buf.extend_from_slice(&huge_len.to_le_bytes());
    assert!(matches!(decode(&buf), Err(DecodeError::TooLarge(_))));
}

#[test]
fn decode_incomplete_payload() {
    let encoded = encode(&payload("heartbeat")).unwrap();
    let partial = &encoded[..encoded.len() - 1];
    assert!(matches!(decode(partial), Err(DecodeError::Incomplete)));
}

#[test]
fn wire_format_structure() {
    let encoded = encode(&payload("heartbeat")).unwrap();
    assert_eq!(encoded[0], 0x44);
    assert_eq!(encoded[1], 0x4D);
    let payload_len =
        u32::from_le_bytes([encoded[2], encoded[3], encoded[4], encoded[5]]) as usize;
    assert_eq!(encoded.len(), HEADER_SIZE + payload_len);
}

#[test]
fn decode_consumes_correct_bytes() {
    let first = payload("heartbeat");
    let second = payload("heartbeat-ack");
    let enc1 = encode(&first).unwrap();
    let enc2 = encode(&second).unwrap();
    let mut combined = enc1.clone();
    combined.extend_from_slice(&enc2);

    let (decoded1, consumed1) = decode(&combined).unwrap();
    assert_eq!(consumed1, enc1.len());
    assert_eq!(decoded1, first);

    let (decoded2, consumed2) = decode(&combined[consumed1..]).unwrap();
    assert_eq!(consumed2, enc2.len());
    assert_eq!(decoded2, second);
}

#[test]
fn frames_carry_any_payload() {
    for n in [0usize, 1, 255, 256, 65535, 65536] {
        let body = vec![7u8; n];
        let encoded = encode(&body).unwrap();
        assert_eq!(encoded[0], MAGIC_FIRST);
        assert_eq!(encoded[1], MAGIC_SECOND);
        let (decoded, consumed) = decode(&encoded).unwrap();
        assert_eq!(decoded, body);
        assert_eq!(consumed, encoded.len());
    }
}

#[test]
fn too_long_payload_is_refused() {
    let body = vec![0u8; 65537];
    match encode(&body) {
        Err(EncodeError::TooLarge(n)) => {
            assert_eq!(n, 65537);
            assert_eq!(
                EncodeError::TooLarge(n).message(),
                "message too large: 65537 bytes"
            );
        }
        other => panic!("expected TooLarge, got {other:?}"),
    }
}

#[test]
fn serialization_failure_is_passed_on() {
    match encode_serialized(Err("no".to_string())) {
        Err(e) => assert_eq!(e.message(), "serialization failed: no"),
        Ok(_) => panic!("expected an error"),
    }
    assert_eq!(encode_serialized(Ok(vec![1, 2])).unwrap(), encode(&[1, 2]).unwrap());
}

#[test]
fn parsed_payload_keeps_the_length() {
    let message = Message { id: 42, kind: MessageKind::Request, body: MessageBody::Heartbeat };
    let (decoded, consumed) = decode_parsed(Ok(message), 9).unwrap();
    assert_eq!(consumed, 9);
    assert_eq!(decoded.id, 42);
    assert!(matches!(decoded.body, MessageBody::Heartbeat));
    match decode_parsed(Err("odd".to_string()), 9) {
        Err(e) => assert_eq!(e.message(), "deserialization failed: odd"),
        Ok(_) => panic!("expected an error"),
    }
}
