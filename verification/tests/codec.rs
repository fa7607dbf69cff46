use json_bridge::json_to_struct;
use json_bridge::struct_to_json;
use json_bridge::TaggedNode;
use json_bridge::ValueTree;

#[test]
fn round_trip_null() {
    let node = json_to_struct(&ValueTree::Null);
    assert!(matches!(node, TaggedNode::Null));
    let back = struct_to_json(&node);
    assert!(matches!(back, ValueTree::Null));
}

#[test]
fn round_trip_booleans() {
    let node = json_to_struct(&ValueTree::Boolean(true));
    match &node {
        TaggedNode::Boolean(flag) => assert_eq!(*flag, 1),
        _ => panic!("expected a boolean node"),
    }
    match struct_to_json(&node) {
        ValueTree::Boolean(b) => assert!(b),
        _ => panic!("expected a boolean tree"),
    }

    let node = json_to_struct(&ValueTree::Boolean(false));
    match &node {
        TaggedNode::Boolean(flag) => assert_eq!(*flag, 0),
        _ => panic!("expected a boolean node"),
    }
    match struct_to_json(&node) {
        ValueTree::Boolean(b) => assert!(!b),
        _ => panic!("expected a boolean tree"),
    }
}

#[test]
fn round_trip_short_string() {
    let node = json_to_struct(&ValueTree::Short(String::from("abc")));
    match &node {
        TaggedNode::Str(Some(bytes)) => assert_eq!(bytes.as_slice(), b"abc"),
        _ => panic!("expected a string node with a payload"),
    }
    match struct_to_json(&node) {
        ValueTree::Short(s) => assert_eq!(s.as_str(), "abc"),
        _ => panic!("expected the small-string class back"),
    }
}

#[test]
fn round_trip_long_string_stays_heap() {
    let text = "a string that is well over thirty bytes long";
    assert!(text.len() > 30);
    let node = json_to_struct(&ValueTree::Str(String::from(text)));
    match &node {
        TaggedNode::Str(Some(bytes)) => assert_eq!(bytes.as_slice(), text.as_bytes()),
        _ => panic!("expected a string node with a payload"),
    }
    match struct_to_json(&node) {
        ValueTree::Str(s) => assert_eq!(s.as_str(), text),
        _ => panic!("expected the heap string class back"),
    }
}

#[test]
fn decode_short_boundary() {
    let exactly_thirty = "abcdefghijklmnopqrstuvwxyz0123";
    assert_eq!(exactly_thirty.len(), 30);
    let node = json_to_struct(&ValueTree::Short(String::from(exactly_thirty)));
    match struct_to_json(&node) {
        ValueTree::Short(s) => assert_eq!(s.as_str(), exactly_thirty),
        _ => panic!("thirty bytes belong in the small-string class"),
    }

    let thirty_one = "abcdefghijklmnopqrstuvwxyz01234";
    assert_eq!(thirty_one.len(), 31);
    let node = json_to_struct(&ValueTree::Str(String::from(thirty_one)));
    match struct_to_json(&node) {
        ValueTree::Str(s) => assert_eq!(s.as_str(), thirty_one),
        _ => panic!("thirty-one bytes belong in the heap class"),
    }
}

#[test]
fn round_trip_array() {
    let tree = ValueTree::Array(vec![
        ValueTree::Null,
        ValueTree::Boolean(true),
        ValueTree::Short(String::from("hi")),
    ]);
    let node = json_to_struct(&tree);
    match &node {
        TaggedNode::Array(children) => {
            assert_eq!(children.len(), 3);
            assert!(matches!(children[0], TaggedNode::Null));
        }
        _ => panic!("expected an array node"),
    }
    match struct_to_json(&node) {
        ValueTree::Array(elems) => {
            assert_eq!(elems.len(), 3);
            assert!(matches!(elems[0], ValueTree::Null));
            assert!(matches!(elems[1], ValueTree::Boolean(true)));
            match &elems[2] {
                ValueTree::Short(s) => assert_eq!(s.as_str(), "hi"),
                _ => panic!("expected the short string back"),
            }
        }
        _ => panic!("expected an array tree"),
    }
}

#[test]
fn encode_nul_string_gets_null_payload() {
    let node = json_to_struct(&ValueTree::Short(String::from("a\0b")));
    assert!(matches!(node, TaggedNode::Str(None)));
}

#[test]
fn decode_null_payload_is_empty_text() {
    match struct_to_json(&TaggedNode::Str(None)) {
        ValueTree::Short(s) => assert_eq!(s.as_str(), ""),
        _ => panic!("expected the empty small string"),
    }
}

#[test]
fn decode_invalid_utf8_is_empty_text() {
    match struct_to_json(&TaggedNode::Str(Some(vec![0xff, 0xfe]))) {
        ValueTree::Short(s) => assert_eq!(s.as_str(), ""),
        _ => panic!("expected the empty small string"),
    }
}

#[test]
fn number_slot_stays_zero() {
    match json_to_struct(&ValueTree::Number) {
        TaggedNode::Number(slot) => assert_eq!(slot, 0),
        _ => panic!("expected a number node"),
    }
}

#[test]
fn decode_number_node() {
    assert!(matches!(
        struct_to_json(&TaggedNode::Number(7)),
        ValueTree::Number
    ));
}

#[test]
fn decode_boolean_flags() {
    assert!(matches!(
        struct_to_json(&TaggedNode::Boolean(0)),
        ValueTree::Boolean(false)
    ));
    assert!(matches!(
        struct_to_json(&TaggedNode::Boolean(2)),
        ValueTree::Boolean(true)
    ));
}
