use foxglove_ws::{decode_message_data, encode_message_data, ParameterValue, SchemaDescriptor};

#[test]
fn data_frame_layout_is_little_endian() {
    let frame = encode_message_data(7, 100, &[1, 2, 3]);
    assert_eq!(frame, vec![1, 7, 0, 0, 0, 100, 0, 0, 0, 0, 0, 0, 0, 1, 2, 3]);
}

#[test]
fn data_frame_multi_byte_integers() {
    let frame = encode_message_data(0x0102_0304, 0x0102_0304_0506_0708, &[]);
    assert_eq!(frame, vec![1, 4, 3, 2, 1, 8, 7, 6, 5, 4, 3, 2, 1]);
}

#[test]
fn data_frame_round_trip() {
    let payload: Vec<u8> = (0..=255u8).collect();
    let frame = encode_message_data(u32::MAX, u64::MAX - 1, &payload);
    assert_eq!(decode_message_data(&frame), Some((u32::MAX, u64::MAX - 1, payload)));
}

#[test]
fn data_frame_round_trip_empty_payload() {
    let frame = encode_message_data(0, 0, &[]);
    assert_eq!(frame.len(), 13);
    assert_eq!(decode_message_data(&frame), Some((0, 0, vec![])));
}

#[test]
fn decode_rejects_short_frame() {
    assert_eq!(decode_message_data(&[1, 0, 0, 0, 0, 0, 0, 0, 0, 0, 0, 0]), None);
    assert_eq!(decode_message_data(&[]), None);
}

#[test]
fn decode_rejects_other_opcode() {
    assert_eq!(decode_message_data(&[2, 0, 0, 0, 0, 0, 0, 0, 0, 0, 0, 0, 0]), None);
}

#[test]
fn schema_from_text_is_kept() {
    assert_eq!(SchemaDescriptor::from_text("string data").0, "string data");
    assert_eq!(SchemaDescriptor::from(String::from("x y")).0, "x y");
}

#[test]
fn schema_from_binary_is_unpadded_base64() {
    assert_eq!(SchemaDescriptor::from_binary(&[0, 1, 2]).0, "AAEC");
    assert_eq!(SchemaDescriptor::from_binary(&[0xff]).0, "/w");
    assert_eq!(SchemaDescriptor::from_binary(b"hello").0, "aGVsbG8");
    assert_eq!(SchemaDescriptor::from_binary(&[]).0, "");
}

#[test]
fn parameter_value_constructors() {
    let p = ParameterValue::new("rate", "10");
    assert_eq!(p.name, "rate");
    assert_eq!(p.value, "10");
    assert_eq!(p.field_type, None);
    let t = ParameterValue::with_type("rate", "10", "int");
    assert_eq!(t.field_type, Some(String::from("int")));
}
