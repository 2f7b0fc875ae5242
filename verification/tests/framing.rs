use ciborium::Value;
use hop::protocol::{MessageCodec, ProtocolError, HEADER_LEN, MAX_FRAME_BYTES};

/// The CBOR body a unit message variant is written as: a map with its
/// snake-case name under `"type"`.
fn unit_body(kind: &str) -> Vec<u8> {
    let value = Value::Map(vec![(Value::Text("type".into()), Value::Text(kind.into()))]);
    let mut body = Vec::new();
    ciborium::into_writer(&value, &mut body).expect("cbor encode");
    body
}

fn kind_of(body: &[u8]) -> String {
    let value: Value = ciborium::from_reader(body).expect("cbor decode");
    match value {
        Value::Map(entries) => match &entries[0] {
            (Value::Text(k), Value::Text(v)) if k == "type" => v.clone(),
            other => panic!("unexpected entry {other:?}"),
        },
        other => panic!("expected a map, got {other:?}"),
    }
}

fn encode(body: &[u8]) -> Vec<u8> {
    let mut codec = MessageCodec::new();
    let mut buf = Vec::new();
    codec.encode(body, &mut buf).expect("encode");
    buf
}

#[test]
fn empty_buffer_yields_none() {
    let mut codec = MessageCodec::new();
    let mut buf: Vec<u8> = Vec::new();
    assert!(matches!(codec.decode(&mut buf), Ok(None)));
}

#[test]
fn truncated_header_yields_none() {
    let mut codec = MessageCodec::new();
    let mut buf = vec![0x00, 0x00, 0x00];
    assert!(matches!(codec.decode(&mut buf), Ok(None)));
    assert_eq!(buf.len(), 3);
}

#[test]
fn truncated_body_yields_none_then_completes() {
    let full = encode(&unit_body("keep_alive"));
    assert!(full.len() > 4, "keep-alive frame is non-trivial");
    let mut buf = full[..full.len() - 1].to_vec();
    let mut codec = MessageCodec::new();
    assert!(matches!(codec.decode(&mut buf), Ok(None)));
    buf.extend_from_slice(&full[full.len() - 1..]);
    let body = codec.decode(&mut buf).unwrap().expect("frame now complete");
    assert_eq!(kind_of(&body), "keep_alive");
    assert!(buf.is_empty());
}

#[test]
fn two_frames_in_one_buffer_decode_independently() {
    let mut buf = Vec::new();
    let mut codec = MessageCodec::new();
    codec.encode(&unit_body("keep_alive"), &mut buf).unwrap();
    codec.encode(&unit_body("screen_leave"), &mut buf).unwrap();

    let first = codec.decode(&mut buf).unwrap().expect("first");
    assert_eq!(kind_of(&first), "keep_alive");
    let second = codec.decode(&mut buf).unwrap().expect("second");
    assert_eq!(kind_of(&second), "screen_leave");
    assert!(buf.is_empty());
}

#[test]
fn oversized_frame_header_errors() {
    let oversized = u32::try_from(MAX_FRAME_BYTES + 1).expect("fits in u32");
    let mut buf = Vec::new();
    buf.extend_from_slice(&oversized.to_be_bytes());
    let mut codec = MessageCodec::new();
    match codec.decode(&mut buf) {
        Err(ProtocolError::FrameTooLarge { size }) => {
            assert_eq!(size, oversized as usize);
        },
        other => panic!("expected FrameTooLarge, got {other:?}"),
    }
    assert!(buf.is_empty(), "buffer is dropped to resynchronize");
}

#[test]
fn malformed_cbor_body_errors() {
    let mut buf = Vec::new();
    buf.extend_from_slice(&3u32.to_be_bytes());
    buf.extend_from_slice(&[0xff, 0xff, 0xff]);
    let mut codec = MessageCodec::new();
    let body = codec.decode(&mut buf).unwrap().expect("the frame itself is well formed");
    assert_eq!(body, vec![0xff, 0xff, 0xff]);
    assert!(ciborium::from_reader::<Value, _>(body.as_slice()).is_err());
}

#[test]
fn encode_writes_big_endian_length_prefix() {
    let mut codec = MessageCodec::new();
    let mut buf = vec![9u8];
    codec.encode(&[1, 2, 3], &mut buf).unwrap();
    assert_eq!(buf, vec![9, 0, 0, 0, 3, 1, 2, 3]);
    assert_eq!(HEADER_LEN, 4);
}

#[test]
fn encode_rejects_oversized_body_untouched() {
    let mut codec = MessageCodec::new();
    let body = vec![0u8; MAX_FRAME_BYTES + 1];
    let mut buf = vec![7u8];
    match codec.encode(&body, &mut buf) {
        Err(ProtocolError::FrameTooLarge { size }) => assert_eq!(size, MAX_FRAME_BYTES + 1),
        other => panic!("expected FrameTooLarge, got {other:?}"),
    }
    assert_eq!(buf, vec![7u8]);
}

#[test]
fn frame_with_multibyte_length_round_trips() {
    let mut codec = MessageCodec::new();
    let body = vec![0xabu8; 300];
    let mut buf = Vec::new();
    codec.encode(&body, &mut buf).unwrap();
    assert_eq!(&buf[..4], &[0, 0, 1, 44]);
    assert_eq!(codec.decode(&mut buf).unwrap(), Some(body));
}

#[test]
fn frame_len_peeks_without_consuming() {
    let codec = MessageCodec::new();
    assert!(matches!(codec.frame_len(&[0, 0]), Ok(None)));
    assert!(matches!(codec.frame_len(&[0, 0, 0, 2, 9]), Ok(None)));
    assert!(matches!(codec.frame_len(&[0, 0, 0, 2, 9, 9, 1]), Ok(Some(2))));
    match codec.frame_len(&[1, 0, 0, 1]) {
        Err(ProtocolError::FrameTooLarge { size }) => assert_eq!(size, MAX_FRAME_BYTES + 1),
        other => panic!("expected FrameTooLarge, got {other:?}"),
    }
}

#[test]
fn pipelined_frames_decode_in_order_and_leave_the_tail() {
    let bodies: Vec<Vec<u8>> = vec![vec![], vec![7], vec![1, 2, 3], vec![0xff; 300]];
    let mut codec = MessageCodec::new();
    let mut buf = Vec::new();
    for b in &bodies {
        codec.encode(b, &mut buf).unwrap();
    }
    buf.extend_from_slice(&[0, 0]);
    for b in &bodies {
        assert_eq!(codec.decode(&mut buf).unwrap().as_ref(), Some(b));
    }
    assert_eq!(buf, vec![0, 0]);
    assert!(matches!(codec.decode(&mut buf), Ok(None)));
}
