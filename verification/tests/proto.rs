use zenoh_plugin_sequence_detector::{decode_protobuf, ProtoMessage};

fn varint(mut v: u64) -> Vec<u8> {
    let mut out = Vec::new();
    loop {
        if v < 128 {
            out.push(v as u8);
            return out;
        }
        out.push((v % 128) as u8 | 0x80);
        v /= 128;
    }
}

fn encode(m: &ProtoMessage) -> Vec<u8> {
    let mut out = Vec::new();
    if m.seq != 0 {
        out.push(8);
        out.extend(varint(m.seq));
    }
    if !m.publisher_id.is_empty() {
        out.push(18);
        out.extend(varint(m.publisher_id.len() as u64));
        out.extend(m.publisher_id.as_bytes());
    }
    if let Some(t) = m.timestamp_ns {
        out.push(24);
        out.extend(varint(t));
    }
    if let Some(p) = &m.payload {
        out.push(34);
        out.extend(varint(p.len() as u64));
        out.extend(p);
    }
    out
}

fn message(seq: u64, id: &str, ts: Option<u64>, payload: Option<&[u8]>) -> ProtoMessage {
    ProtoMessage {
        seq,
        publisher_id: id.to_string(),
        timestamp_ns: ts,
        payload: payload.map(|p| p.to_vec()),
    }
}

#[test]
fn decodes_documented_example() {
    let mut bytes = vec![0x08, 0x2a, 0x12, 0x0a];
    bytes.extend(b"sensor-001");
    bytes.push(0x18);
    bytes.extend(varint(1709571234567890123));
    bytes.extend([0x22, 0x05]);
    bytes.extend(b"Hello");
    assert_eq!(
        decode_protobuf(&bytes),
        Some(message(42, "sensor-001", Some(1709571234567890123), Some(b"Hello")))
    );
}

#[test]
fn empty_input_is_the_default_message() {
    assert_eq!(decode_protobuf(&[]), Some(message(0, "", None, None)));
}

#[test]
fn encoded_messages_decode_back() {
    let cases = [
        message(1, "a", None, None),
        message(u64::MAX, "sensor-ü-001", Some(0), Some(b"")),
        message(0, "", Some(u64::MAX), Some(&[0, 255, 128])),
        message(300, "pub", Some(127), None),
        message(128, "\u{1F600}", None, Some(&[7; 200])),
    ];
    for m in cases.iter() {
        assert_eq!(decode_protobuf(&encode(m)).as_ref(), Some(m));
    }
}

#[test]
fn fields_in_any_order_last_wins() {
    let mut bytes = vec![0x12, 0x01, b'x', 0x08, 0x05, 0x08, 0x07, 0x12, 0x01, b'y'];
    bytes.extend([0x18, 0x01, 0x18, 0x02]);
    assert_eq!(decode_protobuf(&bytes), Some(message(7, "y", Some(2), None)));
}

#[test]
fn unknown_fields_are_skipped() {
    let mut bytes = vec![0x28, 0x96, 0x01]; // field 5, varint
    bytes.extend([0x31, 1, 2, 3, 4, 5, 6, 7, 8]); // field 6, fixed64
    bytes.extend([0x3a, 0x02, 0xff, 0xfe]); // field 7, length-delimited (not UTF-8)
    bytes.extend([0x4d, 1, 2, 3, 4]); // field 9, fixed32
    bytes.extend([0x08, 0x03]);
    assert_eq!(decode_protobuf(&bytes), Some(message(3, "", None, None)));
}

#[test]
fn malformed_inputs_are_refused() {
    let cases: Vec<Vec<u8>> = vec![
        vec![0x08],                   // missing value
        vec![0x12, 0x05, b'a'],       // truncated string
        vec![0x12, 0x02, 0xff, 0xfe], // publisher id not UTF-8
        vec![0x0a, 0x00],             // seq with length-delimited wire type
        vec![0x10, 0x01],             // publisher id with varint wire type
        vec![0x19, 0, 0, 0, 0, 0, 0, 0, 0], // timestamp as fixed64
        vec![0x00, 0x01],             // field number 0
        vec![0x2b, 0x2c],             // group (wire type 3)
        vec![0x0e, 0x00],             // wire type 6
        vec![0x31, 1, 2, 3],          // truncated fixed64
        vec![0x08, 0x80, 0x80, 0x80, 0x80, 0x80, 0x80, 0x80, 0x80, 0x80, 0x80, 0x01], // 11-byte varint
        vec![0x08, 0xff, 0xff, 0xff, 0xff, 0xff, 0xff, 0xff, 0xff, 0xff, 0x02], // past u64::MAX
        vec![0x80, 0x80, 0x80, 0x80, 0x10, 0x00], // key above u32::MAX
        b"hello".to_vec(),
    ];
    for c in cases {
        assert_eq!(decode_protobuf(&c), None, "{:?}", c);
    }
}

#[test]
fn largest_varint_is_accepted() {
    let bytes = vec![0x08, 0xff, 0xff, 0xff, 0xff, 0xff, 0xff, 0xff, 0xff, 0xff, 0x01];
    assert_eq!(decode_protobuf(&bytes), Some(message(u64::MAX, "", None, None)));
}
