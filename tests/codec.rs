use wsproto::codec::{protocol_decode, protocol_encode, DecodeError, FieldKind, Value};
use wsproto::schema::{decode_message, encode_message, is_plain_name, Message, Schema, Variant};

fn round_trip(v: Value, k: FieldKind, width: usize) {
    let bytes = protocol_encode(&v);
    assert_eq!(bytes.len(), width);
    let (back, end) = protocol_decode(k, &bytes, 0).unwrap();
    assert_eq!(back, v);
    assert_eq!(end, width);
}

#[test]
fn primitives_round_trip() {
    round_trip(Value::U8(200), FieldKind::U8, 1);
    round_trip(Value::Bool(true), FieldKind::Bool, 1);
    round_trip(Value::Bool(false), FieldKind::Bool, 1);
    round_trip(Value::U16(0xBEEF), FieldKind::U16, 2);
    round_trip(Value::U32(0xDEAD_BEEF), FieldKind::U32, 4);
    round_trip(Value::U64(u64::MAX - 1), FieldKind::U64, 8);
    round_trip(Value::I32(-123456), FieldKind::I32, 4);
    round_trip(Value::F32(1.5f32.to_bits()), FieldKind::F32, 4);
    round_trip(Value::Text("héllo".to_string()), FieldKind::Text, 2 + 6);
    round_trip(Value::Text(String::new()), FieldKind::Text, 2);
}

#[test]
fn encodings_are_big_endian() {
    assert_eq!(protocol_encode(&Value::U16(0x0102)), vec![1, 2]);
    assert_eq!(protocol_encode(&Value::U32(0x01020304)), vec![1, 2, 3, 4]);
    assert_eq!(protocol_encode(&Value::U64(1)), vec![0, 0, 0, 0, 0, 0, 0, 1]);
    assert_eq!(protocol_encode(&Value::I32(-1)), vec![0xff; 4]);
    assert_eq!(protocol_encode(&Value::F32(1.0f32.to_bits())), vec![0x3f, 0x80, 0, 0]);
    assert_eq!(protocol_encode(&Value::Bool(true)), vec![1]);
    assert_eq!(protocol_encode(&Value::Text("AB".to_string())), vec![0, 2, 0x41, 0x42]);
}

#[test]
fn bool_decodes_only_one_as_true() {
    assert_eq!(protocol_decode(FieldKind::Bool, &[2], 0).unwrap().0, Value::Bool(false));
    assert_eq!(protocol_decode(FieldKind::Bool, &[1], 0).unwrap().0, Value::Bool(true));
}

#[test]
fn exhausted_cursor_fails() {
    assert_eq!(protocol_decode(FieldKind::U8, &[], 0), Err(DecodeError {}));
    assert_eq!(protocol_decode(FieldKind::U32, &[1, 2, 3], 0), Err(DecodeError {}));
    assert_eq!(protocol_decode(FieldKind::U64, &[0; 9], 2), Err(DecodeError {}));
    assert_eq!(protocol_decode(FieldKind::Text, &[0], 0), Err(DecodeError {}));
}

#[test]
fn text_shorter_than_declared_fails() {
    assert_eq!(protocol_decode(FieldKind::Text, &[0, 3, 0x41, 0x42], 0), Err(DecodeError {}));
}

#[test]
fn text_invalid_utf8_fails() {
    assert_eq!(protocol_decode(FieldKind::Text, &[0, 2, 0xff, 0xfe], 0), Err(DecodeError {}));
}

#[test]
fn decode_error_has_a_message() {
    assert_eq!(DecodeError {}.message(), "Protocol Decode Error");
}

fn chat_schema() -> Schema {
    Schema {
        name: "Chat".to_string(),
        variants: vec![
            Variant { name: "Ping".to_string(), fields: vec![] },
            Variant { name: "Say".to_string(), fields: vec![FieldKind::U32, FieldKind::Text, FieldKind::Bool] },
        ],
    }
}

#[test]
fn message_round_trip() {
    let s = chat_schema();
    let m = Message {
        opcode: 1,
        args: vec![Value::U32(7), Value::Text("hi".to_string()), Value::Bool(true)],
    };
    let bytes = encode_message(&s, &m);
    assert_eq!(bytes, vec![1, 0, 0, 0, 7, 0, 2, b'h', b'i', 1]);
    assert_eq!(decode_message(&s, &bytes), Ok(m.clone()));
    let mut longer = bytes.clone();
    longer.extend_from_slice(&[9, 9, 9]);
    assert_eq!(decode_message(&s, &longer), Ok(m));
    let ping = Message { opcode: 0, args: vec![] };
    assert_eq!(encode_message(&s, &ping), vec![0]);
    assert_eq!(decode_message(&s, &[0]), Ok(ping));
}

#[test]
fn unknown_opcode_fails() {
    let s = chat_schema();
    assert_eq!(decode_message(&s, &[2]), Err(DecodeError {}));
    assert_eq!(decode_message(&s, &[255, 1, 2]), Err(DecodeError {}));
    assert_eq!(decode_message(&s, &[]), Err(DecodeError {}));
}

#[test]
fn truncated_field_fails() {
    let s = chat_schema();
    assert_eq!(decode_message(&s, &[1, 0, 0, 0]), Err(DecodeError {}));
}

#[test]
fn full_opcode_space() {
    let variants: Vec<Variant> = (0..256).map(|i| Variant { name: format!("V{}", i), fields: vec![FieldKind::U8] }).collect();
    let s = Schema { name: "Big".to_string(), variants };
    let m = Message { opcode: 255, args: vec![Value::U8(3)] };
    let bytes = encode_message(&s, &m);
    assert_eq!(bytes, vec![255, 3]);
    assert_eq!(decode_message(&s, &bytes), Ok(m));
    let small = chat_schema();
    assert_eq!(decode_message(&small, &[255, 3]), Err(DecodeError {}));
}

#[test]
fn manifest_lists_variants() {
    let s = chat_schema();
    assert_eq!(
        s.manifest(),
        "{\"protocol\":\"Chat\",\"operations\":[{\"name\":\"Ping\",\"opcode\":0,\"args\":[]},{\"name\":\"Say\",\"opcode\":1,\"args\":[\"u32\",\"String\",\"bool\"]}]}"
    );
}

#[test]
fn manifest_opcode_numbers_in_decimal() {
    let variants: Vec<Variant> = (0..201).map(|i| Variant { name: format!("V{}", i), fields: vec![] }).collect();
    let s = Schema { name: "N".to_string(), variants };
    let m = s.manifest();
    assert!(m.contains("{\"name\":\"V200\",\"opcode\":200,\"args\":[]}"));
    assert!(m.contains("{\"name\":\"V42\",\"opcode\":42,\"args\":[]}"));
}

#[test]
fn schema_checks() {
    let s = chat_schema();
    assert!(s.is_well_formed());
    assert!(s.accepts(&Message { opcode: 0, args: vec![] }));
    assert!(!s.accepts(&Message { opcode: 2, args: vec![] }));
    assert!(!s.accepts(&Message { opcode: 1, args: vec![Value::U32(1)] }));
    assert!(!s.accepts(&Message { opcode: 1, args: vec![Value::U16(1), Value::Text(String::new()), Value::Bool(true)] }));
    let long = "x".repeat(65536);
    assert!(!s.accepts(&Message { opcode: 1, args: vec![Value::U32(1), Value::Text(long), Value::Bool(true)] }));
    assert_eq!(Value::Text(String::new()).kind(), FieldKind::Text);
    let variants: Vec<Variant> = (0..257).map(|i| Variant { name: format!("V{}", i), fields: vec![] }).collect();
    assert!(!Schema { name: "Big".to_string(), variants }.is_well_formed());
}

#[test]
fn names_must_be_plain_for_json() {
    assert!(is_plain_name("Ping"));
    assert!(!is_plain_name("Pi\"ng"));
    assert!(!is_plain_name("a\\b"));
    let quoted = Schema { name: "Chat\"".to_string(), variants: vec![] };
    assert!(!quoted.is_well_formed());
    let bad_variant = Schema { name: "Chat".to_string(), variants: vec![Variant { name: "a\\b".to_string(), fields: vec![] }] };
    assert!(!bad_variant.is_well_formed());
}
