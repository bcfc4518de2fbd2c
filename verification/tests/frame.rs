use astraval::frame::{
    decode, decode_preamble, encode, encode_preamble, Field, Message, LENGTH_LEN, PREAMBLE_LEN,
};

/// The exact 23 bytes of a real `func = release2` packet, preamble included.
const GOLDEN_RELEASE2: &[u8] = &[
    0x12, 0x12, 0x00, 0x00, 0x00, // preamble: check 0x12, length 18 (LE)
    0x66, 0x75, 0x6e, 0x63, 0x00, // "func\0"
    0x08, 0x00, 0x00, 0x00, // value length 8 (LE)
    0x72, 0x65, 0x6c, 0x65, 0x61, 0x73, 0x65, 0x32, // "release2"
    0x00, // value terminator
];

#[test]
fn round_trip_preserves_fields() {
    let original = Message::new()
        .with(b"func", b"user-info")
        .with(b"prog", b"p4")
        .with(b"client", b"Titan");

    let bytes = encode(&original);
    let decoded = decode(&bytes).unwrap().expect("a complete frame");

    assert_eq!(decoded.message, original);
    assert_eq!(decoded.consumed, bytes.len());
}

#[test]
fn round_trip_preserves_empty_and_binary_values() {
    let original = Message::new()
        .with(b"serverID", b"")
        .with(b"blob", &[0x00u8, 0xff, 0x7f, 0x80])
        .with(b"", b"empty-name");

    let bytes = encode(&original);
    let decoded = decode(&bytes).unwrap().expect("a complete frame");
    assert_eq!(decoded.message, original);
}

#[test]
fn golden_frame_encodes_to_real_wire_bytes() {
    let message = Message::new().with(b"func", b"release2");
    assert_eq!(encode(&message), GOLDEN_RELEASE2);
}

#[test]
fn golden_frame_decodes_to_expected_field() {
    let decoded = decode(GOLDEN_RELEASE2).unwrap().expect("a complete frame");
    assert_eq!(decoded.consumed, GOLDEN_RELEASE2.len());
    assert_eq!(decoded.message.fields().len(), 1);
    assert_eq!(decoded.message.value(b"func"), Some(&b"release2"[..]));
}

#[test]
fn decode_reports_partial_buffers_as_incomplete() {
    let bytes = encode(&Message::new().with(b"func", b"release2"));

    assert_eq!(decode(&bytes[..3]).unwrap(), None);
    assert_eq!(decode(&bytes[..PREAMBLE_LEN + 2]).unwrap(), None);
}

#[test]
fn decode_drains_coalesced_frames_one_at_a_time() {
    let first = encode(&Message::new().with(b"func", b"release2"));
    let second = encode(&Message::new().with(b"func", b"user-info").with(b"prog", b"p4"));

    let mut buffer = first.clone();
    buffer.extend_from_slice(&second);

    let head = decode(&buffer).unwrap().expect("first frame");
    assert_eq!(head.consumed, first.len());
    assert_eq!(head.message.value(b"func"), Some(&b"release2"[..]));

    let tail = decode(&buffer[head.consumed..])
        .unwrap()
        .expect("second frame");
    assert_eq!(tail.consumed, second.len());
    assert_eq!(tail.message.value(b"prog"), Some(&b"p4"[..]));
}

#[test]
fn decode_rejects_a_bad_checksum() {
    let mut bytes = encode(&Message::new().with(b"func", b"release2"));
    bytes[0] ^= 0xff;

    let err = decode(&bytes).unwrap_err();
    assert!(err.is_checksum());
}

#[test]
fn decode_rejects_a_value_running_past_the_payload() {
    let mut bytes = encode(&Message::new().with(b"func", b"x"));
    let length_at = PREAMBLE_LEN + b"func\0".len();
    bytes[length_at..length_at + LENGTH_LEN].copy_from_slice(&0xffff_u32.to_le_bytes());
    let payload_len = u32::try_from(bytes.len() - PREAMBLE_LEN).unwrap();
    bytes[..PREAMBLE_LEN].copy_from_slice(&encode_preamble(payload_len.to_le_bytes()));

    let err = decode(&bytes).unwrap_err();
    assert!(err.is_truncated_field());
}

#[test]
fn preamble_check_is_xor_of_length_bytes() {
    for payload_len in [0u32, 18, 235, 241, 0x0001_0203] {
        let preamble = encode_preamble(payload_len.to_le_bytes());
        let expected = preamble[1] ^ preamble[2] ^ preamble[3] ^ preamble[4];
        assert_eq!(preamble[0], expected);
        assert_eq!(
            decode_preamble(&preamble).unwrap(),
            Some(payload_len as usize)
        );
    }
}

#[test]
fn debug_renders_fields_as_text() {
    let field = Field::new(b"func", b"release2");
    let rendered = field.debug_text();
    assert!(rendered.contains("func"));
    assert!(rendered.contains("release2"));
}

#[test]
fn debug_text_escapes_non_printable_bytes() {
    let field = Field::new(b"a\tb", &[0x00, 0xff, b'"', b'\\']);
    assert_eq!(
        field.debug_text(),
        "Field { name: \"a\\tb\", value: \"\\x00\\xff\\\"\\\\\" }"
    );
}

#[test]
fn decode_rejects_a_missing_value_terminator() {
    let mut bytes = encode(&Message::new().with(b"func", b"x"));
    let last = bytes.len() - 1;
    bytes[last] = 0x41;
    let err = decode(&bytes).unwrap_err();
    assert!(err.is_missing_terminator());
    assert!(!err.is_checksum());
}

#[test]
fn decode_rejects_a_name_without_terminator() {
    // A payload of two bytes with no null: the field name never ends.
    let mut bytes = encode_preamble(2u32.to_le_bytes()).to_vec();
    bytes.extend_from_slice(b"ab");
    let err = decode(&bytes).unwrap_err();
    assert!(err.is_truncated_field());
}

#[test]
fn empty_message_encodes_to_a_bare_preamble() {
    let bytes = encode(&Message::new());
    assert_eq!(bytes, vec![0, 0, 0, 0, 0]);
    let decoded = decode(&bytes).unwrap().unwrap();
    assert!(decoded.message.fields().is_empty());
    assert_eq!(decoded.consumed, 5);
}

#[test]
fn value_returns_the_first_match_in_wire_order() {
    let msg = Message::new()
        .with(b"k", b"first")
        .with(b"other", b"x")
        .with(b"k", b"second");
    assert_eq!(msg.value(b"k"), Some(&b"first"[..]));
    assert_eq!(msg.value(b"missing"), None);
}

#[test]
fn push_appends_a_built_field() {
    let mut msg = Message::new().with(b"a", b"1");
    msg.push(Field::new(b"b", b"2"));
    assert_eq!(msg.fields().len(), 2);
    assert_eq!(msg.fields()[1].name(), b"b");
    assert_eq!(msg.fields()[1].value(), b"2");
}

#[test]
fn encoded_length_counts_every_field_byte() {
    // preamble (5) + "func\0" (5) + len (4) + "release2\0" (9) = 23 bytes
    let bytes = encode(&Message::new().with(b"func", b"release2"));
    assert_eq!(bytes.len(), 23);
}

#[test]
fn frame_errors_render_one_line_diagnostics() {
    let mut bytes = encode(&Message::new().with(b"func", b"release2"));
    bytes[0] ^= 0xff;
    assert_eq!(
        decode(&bytes).unwrap_err().to_string(),
        "rpc preamble checksum mismatch: expected 0x12, found 0xed"
    );

    let mut bytes = encode(&Message::new().with(b"func", b"x"));
    let last = bytes.len() - 1;
    bytes[last] = 0x41;
    assert_eq!(
        decode(&bytes).unwrap_err().to_string(),
        "rpc field value missing its null terminator, found 0x41"
    );

    let mut bytes = encode_preamble(2u32.to_le_bytes()).to_vec();
    bytes.extend_from_slice(b"ab");
    assert_eq!(
        decode(&bytes).unwrap_err().to_string(),
        "rpc field ended before its name, length, or value was complete"
    );
}

#[test]
fn decoded_frames_reencode_to_the_bytes_they_occupied() {
    let mut input = GOLDEN_RELEASE2.to_vec();
    input.extend_from_slice(&[0xde, 0xad]);
    let decoded = decode(&input).unwrap().expect("a complete frame");
    assert_eq!(decoded.consumed, GOLDEN_RELEASE2.len());
    assert_eq!(encode(&decoded.message), &input[..decoded.consumed]);
}
