use vstd::prelude::*;
use vstd::utf8::decode_utf8;
use vstd::utf8::valid_utf8;

use crate::codec::encode_spec;
use crate::codec::json_to_struct;
use crate::codec::utf8_str;
use crate::node::TaggedNode;
use crate::value::lookup;
use crate::value::store_get;
use crate::value::wf_view;
use crate::value::ObjectStore;
use crate::value::TreeView;
use crate::value::ValueTree;

verus! {

/// What the black-box JSON parser makes of a text: a value tree for a
/// well-formed JSON document, nothing for ill-formed text.
pub uninterp spec fn parse_of(text: Seq<char>) -> Option<TreeView>;

#[verifier::external_type_specification]
#[verifier::external_body]
pub struct ExJsonValue(json::JsonValue);

/// Relies on the json crate's value enum: every variant is carried over one
/// for one. The tree it builds is well formed because the crate's small
/// strings hold at most 30 bytes by construction, and its objects keep keys
/// unique by overwriting an existing key on insertion.
#[verifier::external_body]
fn tree_from(v: json::JsonValue) -> (r: ValueTree)
    ensures
        wf_view(r@),
{
    match v {
        json::JsonValue::Null => ValueTree::Null,
        json::JsonValue::Short(s) => ValueTree::Short(s.as_str().to_owned()),
        json::JsonValue::String(s) => ValueTree::Str(s),
        json::JsonValue::Number(_) => ValueTree::Number,
        json::JsonValue::Boolean(b) => ValueTree::Boolean(b),
        json::JsonValue::Object(o) => ValueTree::Object(ObjectStore {
            entries: o.iter().map(|(k, w)| (k.to_owned(), tree_from(w.clone()))).collect(),
        }),
        json::JsonValue::Array(a) => ValueTree::Array(a.into_iter().map(tree_from).collect()),
    }
}

/// Relies on json::parse: whether it accepts a text, and what tree comes
/// back, depend on the text alone; an Err marks a syntax error.
#[verifier::external_body]
fn parse_via_json(source: &str) -> (r: Option<ValueTree>)
    ensures
        r matches Some(t) ==> parse_of(source@) == Some(t@) && wf_view(t@),
        r is None ==> parse_of(source@) is None,
{
    match json::parse(source) {
        Ok(v) => Some(tree_from(v)),
        Err(_) => None,
    }
}

/// Parses a JSON text from its bytes and hands the document over encoded.
/// Nothing comes back exactly when the bytes are not UTF-8 or the text is
/// not well-formed JSON.
pub fn json_parse(source: &[u8]) -> (r: Option<TaggedNode>)
    ensures
        match r {
            Some(node) => valid_utf8(source@) && (match parse_of(decode_utf8(source@)) {
                Some(tv) => node@ == encode_spec(tv) && wf_view(tv),
                None => false,
            }),
            None => !valid_utf8(source@) || parse_of(decode_utf8(source@)) is None,
        },
{
    match utf8_str(source) {
        None => None,
        Some(s) => match parse_via_json(s) {
            None => None,
            Some(t) => Some(json_to_struct(&t)),
        },
    }
}

/// Fetches the value under `key` and hands it over encoded. Nothing comes
/// back exactly when the key bytes are not UTF-8 or the key is absent.
pub fn json_object_get(object: &ObjectStore, key: &[u8]) -> (r: Option<TaggedNode>)
    ensures
        match r {
            Some(node) => valid_utf8(key@) && (match lookup(object@, decode_utf8(key@)) {
                Some(tv) => node@ == encode_spec(tv),
                None => false,
            }),
            None => !valid_utf8(key@) || lookup(object@, decode_utf8(key@)) is None,
        },
{
    match utf8_str(key) {
        None => None,
        Some(k) => {
            let key_string = k.to_owned();
            match store_get(object, &key_string) {
                None => None,
                Some(v) => Some(json_to_struct(v)),
            }
        },
    }
}

} // verus!
