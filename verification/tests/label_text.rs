use nvdsmeta::label::decode_utf8_bytes;
use nvdsmeta::label::encode_label;
use nvdsmeta::label::encode_utf8_chars;
use nvdsmeta::label::label_to_text;
use nvdsmeta::label::LabelError;
use nvdsmeta::NvBbox_Coords;
use nvdsmeta::NvDsObjectMeta;

fn obj_with_label(obj_label: Vec<u8>) -> NvDsObjectMeta {
    let zero = NvBbox_Coords { left_bits: 0, top_bits: 0, width_bits: 0, height_bits: 0 };
    NvDsObjectMeta {
        class_id: 0,
        object_id: 0,
        confidence_bits: 0,
        tracker_confidence_bits: 0,
        obj_label,
        detector_bbox_info: zero,
        tracker_bbox_info: zero,
    }
}

#[test]
fn label_round_trips() {
    let text: Vec<char> = vec!['c', 'a', 'r'];
    let field = encode_label(&text);
    assert_eq!(field, vec![b'c', b'a', b'r', 0]);
    let o = obj_with_label(field);
    assert_eq!(o.label(), Some(vec![b'c', b'a', b'r']));
    assert_eq!(o.label_text(), Ok(text));
}

#[test]
fn multibyte_label_round_trips() {
    let text: Vec<char> = vec!['h', 'é', 'λ', '語', '🚗'];
    let field = encode_label(&text);
    let o = obj_with_label(field);
    assert_eq!(o.label_text(), Ok(text));
}

#[test]
fn label_ignores_bytes_after_terminator() {
    let o = obj_with_label(vec![b'o', b'k', 0, b'x', 0xff]);
    assert_eq!(o.label(), Some(vec![b'o', b'k']));
    assert_eq!(o.label_text(), Ok(vec!['o', 'k']));
}

#[test]
fn empty_label_is_empty_text() {
    let o = obj_with_label(vec![0]);
    assert_eq!(o.label(), Some(Vec::new()));
    assert_eq!(o.label_text(), Ok(Vec::new()));
}

#[test]
fn unterminated_field_fails_distinctly() {
    let o = obj_with_label(vec![b'a', b'b']);
    assert_eq!(o.label(), None);
    assert_eq!(o.label_text(), Err(LabelError::Unterminated));
    let empty = obj_with_label(Vec::new());
    assert_eq!(empty.label_text(), Err(LabelError::Unterminated));
}

#[test]
fn invalid_encoding_surfaces_failure() {
    // A stray continuation byte is not silently truncated or replaced.
    let o = obj_with_label(vec![b'a', 0xff, b'b', 0]);
    assert_eq!(o.label_text(), Err(LabelError::InvalidEncoding));
    assert_eq!(label_to_text(&vec![0x80, 0]), Err(LabelError::InvalidEncoding));
}

#[test]
fn truncated_scalar_rejected() {
    // A two-byte lead whose continuation never comes before the terminator.
    assert_eq!(label_to_text(&vec![0xc3, 0]), Err(LabelError::InvalidEncoding));
}

#[test]
fn overlong_encoding_rejected() {
    // 0xC0 0xAF would decode to '/' but is an overlong form.
    assert_eq!(decode_utf8_bytes(&vec![0xc0, 0xaf]), None);
    // 0xE0 0x80 0x80 is an overlong form of the null scalar.
    assert_eq!(decode_utf8_bytes(&vec![0xe0, 0x80, 0x80]), None);
}

#[test]
fn surrogate_rejected() {
    // 0xED 0xA0 0x80 encodes the first high surrogate, which UTF-8 forbids.
    assert_eq!(decode_utf8_bytes(&vec![0xed, 0xa0, 0x80]), None);
}

#[test]
fn out_of_range_scalar_rejected() {
    // 0xF4 0x90 0x80 0x80 would be 0x110000, past the last scalar.
    assert_eq!(decode_utf8_bytes(&vec![0xf4, 0x90, 0x80, 0x80]), None);
}

#[test]
fn decode_exact_values() {
    assert_eq!(decode_utf8_bytes(&vec![0xc3, 0xa9]), Some(vec!['é']));
    assert_eq!(decode_utf8_bytes(&vec![0xe8, 0xaa, 0x9e]), Some(vec!['語']));
    assert_eq!(decode_utf8_bytes(&vec![0xf0, 0x9f, 0x9a, 0x97]), Some(vec!['🚗']));
    assert_eq!(decode_utf8_bytes(&Vec::new()), Some(Vec::new()));
}

#[test]
fn encode_exact_values() {
    assert_eq!(encode_utf8_chars(&vec!['A']), vec![0x41]);
    assert_eq!(encode_utf8_chars(&vec!['é']), vec![0xc3, 0xa9]);
    assert_eq!(encode_utf8_chars(&vec!['語']), vec![0xe8, 0xaa, 0x9e]);
    assert_eq!(encode_utf8_chars(&vec!['🚗']), vec![0xf0, 0x9f, 0x9a, 0x97]);
}
