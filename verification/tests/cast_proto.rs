use soundsync::cast::proto::{decode_frame, decode_message, encode_frame, string_message, CastMessage, PayloadType, ProtocolVersion};

fn sample_msg() -> CastMessage {
    string_message(
        "urn:x-cast:com.google.cast.tp.connection",
        "receiver-0",
        r#"{"type":"CONNECT"}"#,
    )
}

#[test]
fn roundtrip_string_message() {
    let msg = sample_msg();
    let frame = encode_frame(&msg);
    let (decoded, consumed) = decode_frame(&frame).expect("should decode");
    assert_eq!(consumed, frame.len(), "all bytes consumed");
    assert_eq!(decoded.source_id, "sender-0");
    assert_eq!(decoded.destination_id, "receiver-0");
    assert_eq!(
        decoded.namespace,
        "urn:x-cast:com.google.cast.tp.connection"
    );
    assert_eq!(
        decoded.payload_utf8.as_deref(),
        Some(r#"{"type":"CONNECT"}"#)
    );
    assert_eq!(decoded.payload_type, Some(PayloadType::String.number()));
    assert_eq!(
        decoded.protocol_version,
        Some(ProtocolVersion::Castv210.number())
    );
}

#[test]
fn roundtrip_preserves_all_fields() {
    let msg = CastMessage {
        protocol_version: Some(ProtocolVersion::Castv210.number()),
        source_id: "sender-0".to_string(),
        destination_id: "transport-abc123".to_string(),
        namespace: "urn:x-cast:com.google.cast.media".to_string(),
        payload_type: Some(PayloadType::String.number()),
        payload_utf8: Some(r#"{"type":"LOAD","requestId":2}"#.to_string()),
        payload_binary: None,
    };
    let frame = encode_frame(&msg);
    let (decoded, _) = decode_frame(&frame).unwrap();
    assert_eq!(decoded, msg);
}

#[test]
fn roundtrip_binary_payload() {
    let msg = CastMessage {
        protocol_version: Some(ProtocolVersion::Castv210.number()),
        source_id: "sender-0".to_string(),
        destination_id: "receiver-0".to_string(),
        namespace: "urn:x-cast:com.google.cast.tp.heartbeat".to_string(),
        payload_type: Some(PayloadType::Binary.number()),
        payload_utf8: None,
        payload_binary: Some(vec![0xDE, 0xAD, 0xBE, 0xEF]),
    };
    let frame = encode_frame(&msg);
    let (decoded, consumed) = decode_frame(&frame).unwrap();
    assert_eq!(consumed, frame.len());
    assert_eq!(decoded.payload_binary, Some(vec![0xDE, 0xAD, 0xBE, 0xEF]));
    assert_eq!(decoded.payload_type, Some(PayloadType::Binary.number()));
}

#[test]
fn encode_frame_length_prefix_is_correct() {
    let msg = sample_msg();
    let frame = encode_frame(&msg);
    let prefix = u32::from_be_bytes([frame[0], frame[1], frame[2], frame[3]]) as usize;
    assert_eq!(
        prefix,
        frame.len() - 4,
        "length prefix must equal payload size"
    );
}

#[test]
fn encode_frame_starts_with_4_byte_prefix() {
    let frame = encode_frame(&sample_msg());
    assert!(
        frame.len() > 4,
        "frame must be longer than the 4-byte prefix"
    );
}

#[test]
fn decode_frame_too_short_for_length_prefix_returns_none() {
    assert_eq!(decode_frame(&[]), None);
    assert_eq!(decode_frame(&[0]), None);
    assert_eq!(decode_frame(&[0, 0]), None);
    assert_eq!(decode_frame(&[0, 0, 0]), None);
}

#[test]
fn decode_frame_has_prefix_but_incomplete_payload_returns_none() {
    let msg = sample_msg();
    let frame = encode_frame(&msg);
    let partial = &frame[..4 + (frame.len() - 4) / 2];
    assert_eq!(decode_frame(partial), None);
}

#[test]
fn decode_frame_exactly_one_frame_with_trailing_bytes() {
    let msg = sample_msg();
    let frame = encode_frame(&msg);
    let mut extended = frame.clone();
    extended.extend_from_slice(&[0xFF, 0xFF, 0xFF]);
    let (decoded, consumed) = decode_frame(&extended).unwrap();
    assert_eq!(consumed, frame.len(), "only the first frame is consumed");
    assert_eq!(decoded.source_id, "sender-0");
}

#[test]
fn decode_frame_reports_consumed_bytes() {
    let msg = sample_msg();
    let frame = encode_frame(&msg);
    let (_, consumed) = decode_frame(&frame).unwrap();
    assert_eq!(consumed, frame.len());
}

#[test]
fn string_message_sets_sender_id() {
    let msg = string_message("ns", "dest", "{}");
    assert_eq!(msg.source_id, "sender-0");
}

#[test]
fn string_message_sets_payload_type_string() {
    let msg = string_message("ns", "dest", "{}");
    assert_eq!(msg.payload_type, Some(PayloadType::String.number()));
}

#[test]
fn string_message_no_binary_payload() {
    let msg = string_message("ns", "dest", "{}");
    assert!(msg.payload_binary.is_none());
}

#[test]
fn string_message_sets_namespace_and_dest() {
    let msg = string_message("urn:x-cast:com.google.cast.receiver", "receiver-0", "{}");
    assert_eq!(msg.namespace, "urn:x-cast:com.google.cast.receiver");
    assert_eq!(msg.destination_id, "receiver-0");
}

#[test]
fn string_message_protocol_version_is_castv2_1_0() {
    let msg = string_message("ns", "dest", "{}");
    assert_eq!(msg.protocol_version, Some(ProtocolVersion::Castv210.number()));
}

#[test]
fn wire_encoding_includes_zero_valued_protocol_version_and_payload_type() {
    let msg = string_message(
        "urn:x-cast:com.google.cast.tp.connection",
        "receiver-0",
        r#"{"type":"CONNECT"}"#,
    );
    let frame = encode_frame(&msg);
    let proto_bytes = &frame[4..];
    let decoded = decode_message(proto_bytes).expect("must decode");

    assert_eq!(
        decoded.protocol_version,
        Some(ProtocolVersion::Castv210.number()),
        "protocol_version must be encoded even though its value is 0 (Chromecast-compat)"
    );
    assert_eq!(
        decoded.payload_type,
        Some(PayloadType::String.number()),
        "payload_type must be encoded even though its value is 0 (Chromecast-compat)"
    );
}

#[test]
fn unknown_fields_are_passed_over_by_their_wire_type() {
    let known = encode_frame(&sample_msg())[4..].to_vec();
    let with = |extra: &[u8]| decode_message(&[extra, known.as_slice()].concat());
    assert_eq!(with(&[0x48, 0x96, 0x01]), Some(sample_msg()));
    assert_eq!(with(&[0x49, 1, 2, 3, 4, 5, 6, 7, 8]), Some(sample_msg()));
    assert_eq!(with(&[0x4a, 2, 0xff, 0xff]), Some(sample_msg()));
    assert_eq!(with(&[0x4b, 0x08, 0x01, 0x4c]), Some(sample_msg()));
    assert_eq!(with(&[0x4d, 1, 2, 3, 4]), Some(sample_msg()));
    assert_eq!(with(&[0x4c]), None);
    assert_eq!(decode_message(&[0x49, 1, 2, 3]), None);
    assert_eq!(decode_message(&[0x4d, 1, 2, 3]), None);
    assert_eq!(decode_message(&[0x4a, 9, 1]), None);
    assert_eq!(decode_message(&[0x48, 0x80]), None);
}
