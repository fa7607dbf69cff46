use json_bridge::json_object_clear;
use json_bridge::json_object_get;
use json_bridge::json_object_is_empty;
use json_bridge::json_object_len;
use json_bridge::json_object_new;
use json_bridge::json_object_new_with_capacity;
use json_bridge::json_parse;
use json_bridge::ObjectStore;
use json_bridge::TaggedNode;

fn parse_object(text: &[u8]) -> ObjectStore {
    match json_parse(text) {
        Some(TaggedNode::Object(store)) => store,
        _ => panic!("expected an object document"),
    }
}

#[test]
fn parse_null_document() {
    assert!(matches!(json_parse(b"null"), Some(TaggedNode::Null)));
}

#[test]
fn parse_boolean_documents() {
    match json_parse(b"true") {
        Some(TaggedNode::Boolean(flag)) => assert_eq!(flag, 1),
        _ => panic!("expected a boolean node"),
    }
    match json_parse(b"false") {
        Some(TaggedNode::Boolean(flag)) => assert_eq!(flag, 0),
        _ => panic!("expected a boolean node"),
    }
}

#[test]
fn parse_string_document() {
    match json_parse(b"\"abc\"") {
        Some(TaggedNode::Str(Some(bytes))) => assert_eq!(bytes.as_slice(), b"abc"),
        _ => panic!("expected a string node with a payload"),
    }
}

#[test]
fn parse_rejects_bad_text() {
    assert!(json_parse(b"not json").is_none());
}

#[test]
fn parse_rejects_bad_utf8() {
    assert!(json_parse(b"\xff\xfe\"x\"").is_none());
}

#[test]
fn parse_number_document() {
    match json_parse(b"12.5") {
        Some(TaggedNode::Number(slot)) => assert_eq!(slot, 0),
        _ => panic!("expected a number node"),
    }
}

#[test]
fn parse_array_document() {
    match json_parse(b"[null, true, \"x\"]") {
        Some(TaggedNode::Array(children)) => {
            assert_eq!(children.len(), 3);
            assert!(matches!(children[0], TaggedNode::Null));
            assert!(matches!(children[1], TaggedNode::Boolean(1)));
            match &children[2] {
                TaggedNode::Str(Some(bytes)) => assert_eq!(bytes.as_slice(), b"x"),
                _ => panic!("expected a string child"),
            }
        }
        _ => panic!("expected an array node"),
    }
}

#[test]
fn fresh_stores_are_empty() {
    let store = json_object_new();
    assert_eq!(json_object_len(&store), 0);
    assert_eq!(json_object_is_empty(&store), 1);

    let store = json_object_new_with_capacity(16);
    assert_eq!(json_object_len(&store), 0);
    assert_eq!(json_object_is_empty(&store), 1);
}

#[test]
fn store_length_and_clear() {
    let mut store = parse_object(b"{\"a\": true, \"b\": \"hi\"}");
    assert_eq!(json_object_len(&store), 2);
    assert_eq!(json_object_is_empty(&store), 0);
    json_object_clear(&mut store);
    assert_eq!(json_object_len(&store), 0);
    assert_eq!(json_object_is_empty(&store), 1);
}

#[test]
fn get_absent_key_is_null() {
    let store = parse_object(b"{\"a\": true}");
    assert!(json_object_get(&store, b"missing").is_none());
}

#[test]
fn get_rejects_bad_utf8_key() {
    let store = parse_object(b"{\"a\": true}");
    assert!(json_object_get(&store, b"\xff").is_none());
}

#[test]
fn get_matches_stored_discriminants() {
    let store = parse_object(
        b"{\"n\": null, \"b\": false, \"num\": 3, \"s\": \"text\", \"o\": {}, \"arr\": [null]}",
    );
    assert!(matches!(
        json_object_get(&store, b"n"),
        Some(TaggedNode::Null)
    ));
    assert!(matches!(
        json_object_get(&store, b"b"),
        Some(TaggedNode::Boolean(0))
    ));
    assert!(matches!(
        json_object_get(&store, b"num"),
        Some(TaggedNode::Number(0))
    ));
    match json_object_get(&store, b"s") {
        Some(TaggedNode::Str(Some(bytes))) => assert_eq!(bytes.as_slice(), b"text"),
        _ => panic!("expected a string node"),
    }
    match json_object_get(&store, b"o") {
        Some(TaggedNode::Object(inner)) => assert_eq!(json_object_len(&inner), 0),
        _ => panic!("expected an object node"),
    }
    match json_object_get(&store, b"arr") {
        Some(TaggedNode::Array(children)) => assert_eq!(children.len(), 1),
        _ => panic!("expected an array node"),
    }
}

#[test]
fn parsed_long_string_keeps_heap_class() {
    let node = json_parse(b"\"a string that is well over thirty bytes long\"")
        .expect("the document is well-formed");
    match &node {
        TaggedNode::Str(Some(bytes)) => {
            assert!(bytes.len() > 30);
        }
        _ => panic!("expected a string node"),
    }
    match json_bridge::struct_to_json(&node) {
        json_bridge::ValueTree::Str(s) => {
            assert_eq!(s.as_str(), "a string that is well over thirty bytes long")
        }
        _ => panic!("a long text belongs in the heap class"),
    }
}

#[test]
fn nested_object_values_come_back_encoded() {
    let store = parse_object(b"{\"outer\": {\"inner\": true}}");
    match json_object_get(&store, b"outer") {
        Some(TaggedNode::Object(inner)) => {
            assert_eq!(json_object_len(&inner), 1);
            assert!(matches!(
                json_object_get(&inner, b"inner"),
                Some(TaggedNode::Boolean(1))
            ));
        }
        _ => panic!("expected an object node"),
    }
}
