use elex_proxy::cbor::{cbor_to_json, find_cbor_first_bytes, has_json_form, CborValue};
use elex_proxy::envelope::{extract_envelope, Envelope, ScriptItem};
use elex_proxy::json::{JsonNumber, JsonValue};

fn text(s: &str) -> CborValue {
    CborValue::Text(s.to_string())
}

#[test]
fn byte_strings_become_lowercase_hex() {
    let bytes: Vec<u8> = (0..=255u8).collect();
    let expected: String = bytes.iter().map(|b| format!("{:02x}", b)).collect();
    assert!(matches!(cbor_to_json(&CborValue::Bytes(bytes)), JsonValue::String(s) if s == expected));
    assert!(matches!(cbor_to_json(&CborValue::Bytes(vec![0x00, 0xab, 0x10, 0xff])), JsonValue::String(s) if s == "00ab10ff"));
    assert!(matches!(cbor_to_json(&CborValue::Bytes(vec![])), JsonValue::String(s) if s.is_empty()));
}

#[test]
fn cbor_scalars_become_json() {
    assert!(matches!(cbor_to_json(&CborValue::Integer(-3)), JsonValue::Number(JsonNumber::NegInt(-3))));
    assert!(matches!(cbor_to_json(&CborValue::Integer(3)), JsonValue::Number(JsonNumber::PosInt(3))));
    assert!(!has_json_form(&CborValue::Integer(i64::MAX as i128 + 1)));
    assert!(matches!(cbor_to_json(&CborValue::Bytes(vec![0xde, 0xad])), JsonValue::String(s) if s == "dead"));
    assert!(matches!(cbor_to_json(&CborValue::Bool(true)), JsonValue::Bool(true)));
    assert!(matches!(cbor_to_json(&CborValue::Null), JsonValue::Null));
    let one = 1.5f64.to_bits();
    assert!(matches!(cbor_to_json(&CborValue::Float(one)), JsonValue::Number(JsonNumber::Float(b)) if b == one));
    assert!(!has_json_form(&CborValue::Float(f64::NAN.to_bits())));
    assert!(!has_json_form(&CborValue::Float(f64::INFINITY.to_bits())));
    let tagged = CborValue::Tag(42, Box::new(text("inside")));
    assert!(matches!(cbor_to_json(&tagged), JsonValue::String(s) if s == "inside"));
}

#[test]
fn cbor_maps_become_objects_with_later_members_winning() {
    let map = CborValue::Mapping(vec![
        (text("a"), CborValue::Integer(1)),
        (text("b"), CborValue::Array(vec![CborValue::Integer(2), text("x")])),
        (text("a"), CborValue::Integer(3)),
    ]);
    match cbor_to_json(&map) {
        JsonValue::Object(members) => {
            assert_eq!(members.len(), 2);
            assert_eq!(members[0].0, "a");
            assert!(matches!(members[0].1, JsonValue::Number(JsonNumber::PosInt(3))));
            assert_eq!(members[1].0, "b");
            assert!(matches!(&members[1].1, JsonValue::Array(items) if items.len() == 2));
        }
        other => panic!("unexpected {:?}", other),
    }
    let bad_key = CborValue::Mapping(vec![(CborValue::Integer(1), CborValue::Null)]);
    assert!(!has_json_form(&bad_key));
    let bad_item = CborValue::Array(vec![CborValue::Null, CborValue::Float(f64::NAN.to_bits())]);
    assert!(!has_json_form(&bad_item));
}

#[test]
fn first_bytes_is_found_depth_first() {
    let value = CborValue::Mapping(vec![
        (text("k1"), CborValue::Array(vec![CborValue::Null, CborValue::Tag(1, Box::new(CborValue::Bytes(vec![1])))])),
        (text("k2"), CborValue::Bytes(vec![2])),
    ]);
    assert_eq!(find_cbor_first_bytes(&value), Some(&vec![1]));
    assert_eq!(find_cbor_first_bytes(&text("t")), None);
    let keys_ignored = CborValue::Mapping(vec![(CborValue::Bytes(vec![9]), CborValue::Null)]);
    assert_eq!(find_cbor_first_bytes(&keys_ignored), None);
}

fn op(code: u8) -> ScriptItem {
    ScriptItem::Op(code)
}

fn data(bytes: &[u8]) -> ScriptItem {
    ScriptItem::Push(bytes.to_vec())
}

/// pubkey OP_CHECKSIG OP_FALSE OP_IF marker "dat" payload... OP_ENDIF "after"
fn envelope_items(marker: &[u8], payload: &[&[u8]]) -> Vec<ScriptItem> {
    let mut items = vec![data(&[7u8; 32]), op(0xac), data(&[]), op(0x63), data(marker), data(b"dat")];
    for p in payload {
        items.push(data(p));
    }
    items.push(op(0x68));
    items.push(data(b"after"));
    items
}

#[test]
fn envelope_payload_is_the_pushes_after_the_marker() {
    match extract_envelope(&envelope_items(b"atom", &[b"\xa1", b"\x61b\x01"])) {
        Envelope::Payload(p) => assert_eq!(p, vec![0xa1, 0x61, b'b', 0x01]),
        other => panic!("unexpected {:?}", other),
    }
    assert!(matches!(extract_envelope(&envelope_items(b"atox", &[b"\x00"])), Envelope::NotAtomicals));
    assert!(matches!(extract_envelope(&vec![data(b"no envelope")]), Envelope::Payload(p) if p.is_empty()));
    let op_in_payload = vec![op(0x63), data(b"atom"), op(0x51), op(0x76), op(0x68)];
    assert!(matches!(extract_envelope(&op_in_payload), Envelope::Unreadable));
    let second_item_may_be_an_op = vec![op(0x63), data(b"atom"), op(0x51), data(&[5]), op(0x68)];
    assert!(matches!(extract_envelope(&second_item_may_be_an_op), Envelope::Payload(p) if p == vec![5]));
    let unreadable = vec![data(&[1]), ScriptItem::Invalid];
    assert!(matches!(extract_envelope(&unreadable), Envelope::Unreadable));
    let before_start = vec![op(0x51), data(&[1]), op(0x63), data(b"atom"), data(b"x"), data(&[2, 3])];
    assert!(matches!(extract_envelope(&before_start), Envelope::Payload(p) if p == vec![2, 3]));
}

#[test]
fn cbor_arrays_keep_their_items_in_order() {
    let array = CborValue::Array(vec![
        CborValue::Integer(1),
        CborValue::Tag(9, Box::new(text("x"))),
        CborValue::Bytes(vec![0xab]),
    ]);
    match cbor_to_json(&array) {
        JsonValue::Array(items) => {
            assert_eq!(items.len(), 3);
            assert!(matches!(&items[0], JsonValue::Number(JsonNumber::PosInt(1))));
            assert!(matches!(&items[1], JsonValue::String(s) if s == "x"));
            assert!(matches!(&items[2], JsonValue::String(s) if s == "ab"));
        }
        other => panic!("unexpected {:?}", other),
    }
    let bad = CborValue::Array(vec![CborValue::Null, CborValue::Float(f64::NAN.to_bits())]);
    assert!(!has_json_form(&bad));
}
