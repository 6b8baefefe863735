use fileporter::protocol::{
    decode_frame, encode_chunk, encode_control, frame_len, protocol_preface_bytes, Auth, Chunk,
    ControlMessage, Frame, Hello, OfferAccept, OfferStart, ProtocolError, SessionPhase,
    SessionValidator, WireFrame, CONTROL_KIND, FRAME_HEADER_LEN, MAX_CONTROL_PAYLOAD,
};

fn uuid(n: u128) -> [u8; 16] {
    n.to_be_bytes()
}

fn id() -> [u8; 16] {
    uuid(42)
}

fn hello() -> Frame {
    Frame::Control(ControlMessage::Hello(Hello {
        protocol_min: 1,
        protocol_max: 1,
        device_id: "device".into(),
        display_name: "Desk".into(),
        session_nonce: "nonce".into(),
        capabilities: vec!["transfer".into()],
    }))
}

fn offer() -> Frame {
    Frame::Control(ControlMessage::OfferStart(OfferStart {
        batch_id: id(),
        items: vec![],
        total_bytes: 0,
        total_entries: 0,
        created_at: "2026-01-01T00:00:00Z".into(),
    }))
}

#[test]
fn preface_is_version_one() {
    let preface = protocol_preface_bytes();
    assert_eq!(&preface[..11], b"FILEPORTER\0");
    assert_eq!(u16::from_be_bytes(preface[11..].try_into().unwrap()), 1);
}

#[test]
fn control_payload_framing_round_trips() {
    let payload = br#"{"type":"ping"}"#.to_vec();
    let frame = encode_control(&payload).unwrap();
    assert_eq!(frame[0], CONTROL_KIND);
    assert_eq!(decode_frame(&frame).unwrap(), WireFrame::Control(payload));
}

#[test]
fn chunk_round_trip_and_hash_validation() {
    let frame = encode_chunk(&Chunk { batch_id: id(), entry_id: uuid(43), offset: 9, data: b"hello".to_vec() }).unwrap();
    assert_eq!(
        decode_frame(&frame).unwrap(),
        WireFrame::Chunk(Chunk { batch_id: id(), entry_id: uuid(43), offset: 9, data: b"hello".to_vec() })
    );
    let mut bad = frame;
    *bad.last_mut().unwrap() ^= 1;
    assert_eq!(decode_frame(&bad), Err(ProtocolError::ChunkHashMismatch));
}

#[test]
fn rejects_truncated_unknown_and_oversized_frames() {
    assert_eq!(decode_frame(&[CONTROL_KIND]), Err(ProtocolError::TruncatedFrame));
    assert_eq!(frame_len(&[99, 0, 0, 0, 0]), Err(ProtocolError::UnknownFrameKind(99)));
    let mut oversize = vec![CONTROL_KIND];
    oversize.extend_from_slice(&((MAX_CONTROL_PAYLOAD + 1) as u32).to_be_bytes());
    assert!(matches!(frame_len(&oversize), Err(ProtocolError::OversizedFrame { .. })));
}

#[test]
fn rejects_bad_chunk_declared_length() {
    let mut frame = encode_chunk(&Chunk { batch_id: id(), entry_id: id(), offset: 0, data: vec![1] }).unwrap();
    frame[FRAME_HEADER_LEN + 40..FRAME_HEADER_LEN + 44].copy_from_slice(&2u32.to_be_bytes());
    assert_eq!(decode_frame(&frame), Err(ProtocolError::InvalidChunk));
}

#[test]
fn rejects_incompatible_protocol_version() {
    let frame = Frame::Control(ControlMessage::Hello(Hello {
        protocol_min: 2,
        protocol_max: 2,
        device_id: "a".into(),
        display_name: "a".into(),
        session_nonce: "n".into(),
        capabilities: vec![],
    }));
    assert_eq!(SessionValidator::new().validate(&frame), Err(ProtocolError::UnsupportedVersion(1)));
}

#[test]
fn state_machine_rejects_data_before_authentication_and_acceptance() {
    let chunk = Frame::Chunk(Chunk { batch_id: id(), entry_id: id(), offset: 0, data: vec![] });
    let mut validator = SessionValidator::new();
    assert!(matches!(validator.validate(&chunk), Err(ProtocolError::InvalidState { .. })));
    validator.validate(&hello()).unwrap();
    validator
        .validate(&Frame::Control(ControlMessage::Auth(Auth { transcript: "t".into(), signature: "s".into() })))
        .unwrap();
    assert!(matches!(validator.validate(&chunk), Err(ProtocolError::InvalidState { .. })));
    validator.validate(&offer()).unwrap();
    validator
        .validate(&Frame::Control(ControlMessage::OfferAccept(OfferAccept {
            batch_id: id(),
            destination_generation: 1,
            resolved_top_level_names: vec![],
            available_space_ok: true,
            checkpoints: vec![],
        })))
        .unwrap();
    assert!(validator.validate(&chunk).is_ok());
}

#[test]
fn invalid_control_transition_is_rejected() {
    let mut validator = SessionValidator::new();
    assert!(matches!(
        validator.validate(&offer()),
        Err(ProtocolError::InvalidState { message: "offer_start", phase: SessionPhase::New })
    ));
}

#[test]
fn chunk_frame_announces_its_exact_length() {
    let frame = encode_chunk(&Chunk { batch_id: id(), entry_id: id(), offset: 7, data: vec![1, 2, 3] }).unwrap();
    assert_eq!(frame_len(&frame), Ok(frame.len()));
    assert_eq!(frame.len(), FRAME_HEADER_LEN + 76 + 3);
}

fn hello_payload(message: &Hello) -> Vec<u8> {
    let mut object = serde_json::Map::new();
    object.insert("type".to_string(), serde_json::Value::from("hello"));
    object.insert("protocolMin".to_string(), serde_json::Value::from(message.protocol_min));
    object.insert("protocolMax".to_string(), serde_json::Value::from(message.protocol_max));
    object.insert("deviceId".to_string(), serde_json::Value::from(message.device_id.clone()));
    object.insert("displayName".to_string(), serde_json::Value::from(message.display_name.clone()));
    object.insert("sessionNonce".to_string(), serde_json::Value::from(message.session_nonce.clone()));
    object.insert("capabilities".to_string(), serde_json::Value::from(message.capabilities.clone()));
    serde_json::to_vec(&serde_json::Value::Object(object)).unwrap()
}

#[test]
fn control_round_trip() {
    let message = match hello() {
        Frame::Control(ControlMessage::Hello(v)) => v,
        _ => unreachable!(),
    };
    let payload = hello_payload(&message);
    let decoded = match decode_frame(&encode_control(&payload).unwrap()).unwrap() {
        WireFrame::Control(bytes) => bytes,
        _ => unreachable!(),
    };
    assert_eq!(decoded, payload);
    let value: serde_json::Value = serde_json::from_slice(&decoded).unwrap();
    assert_eq!(value["type"], "hello");
    assert_eq!(value["deviceId"], "device");
    assert_eq!(value["displayName"], "Desk");
    assert_eq!(value["capabilities"][0], "transfer");
}
