use vstd::prelude::*;
use vstd::string::StrSliceExecFns;
use vstd::utf8::decode_utf8;
use vstd::utf8::encode_utf8;
use vstd::utf8::valid_utf8;

use crate::node::lemma_nodes_view_push;
use crate::node::nodes_view;
use crate::node::NodeView;
use crate::node::TaggedNode;
use crate::value::clone_store;
use crate::value::lemma_trees_view_push;
use crate::value::trees_view;
use crate::value::TreeView;
use crate::value::ValueTree;
use crate::value::SHORT_MAX;

verus! {

/// What the encoder makes of a text: its UTF-8 bytes, or the null payload
/// when the text holds an embedded NUL and so cannot live in a
/// NUL-terminated byte string.
pub open spec fn encode_bytes(s: Seq<char>) -> Option<Seq<u8>> {
    if s.contains('\0') {
        None
    } else {
        Some(encode_utf8(s))
    }
}

/// What the encoder makes of a value tree.
///
/// An object's store moves behind the node untransformed; array elements are
/// encoded one by one; the number slot stays zero, reserved for a numeric
/// wire format.
pub open spec fn encode_spec(t: TreeView) -> NodeView
    decreases t,
{
    match t {
        TreeView::Null => NodeView::Null,
        TreeView::Short(s) => NodeView::Str(encode_bytes(s)),
        TreeView::Str(s) => NodeView::Str(encode_bytes(s)),
        TreeView::Number => NodeView::Number(0),
        TreeView::Boolean(b) => NodeView::Boolean(
            if b {
                1
            } else {
                0
            },
        ),
        TreeView::Object(es) => NodeView::Object(es),
        TreeView::Array(ts) => NodeView::Array(encode_seq(ts)),
    }
}

pub open spec fn encode_seq(ts: Seq<TreeView>) -> Seq<NodeView>
    decreases ts,
{
    if ts.len() == 0 {
        Seq::empty()
    } else {
        encode_seq(ts.drop_last()).push(encode_spec(ts.last()))
    }
}

/// What the decoder makes of a string payload: bytes that are not UTF-8,
/// and the null payload, come back as the empty text; otherwise the decoded
/// text lands in the size class its byte length calls for.
pub open spec fn decode_bytes(p: Option<Seq<u8>>) -> TreeView {
    match p {
        None => TreeView::Short(Seq::empty()),
        Some(b) => if !valid_utf8(b) {
            TreeView::Short(Seq::empty())
        } else if b.len() <= SHORT_MAX {
            TreeView::Short(decode_utf8(b))
        } else {
            TreeView::Str(decode_utf8(b))
        },
    }
}

/// What the decoder makes of a tagged node.
pub open spec fn decode_spec(n: NodeView) -> TreeView
    decreases n,
{
    match n {
        NodeView::Null => TreeView::Null,
        NodeView::Str(p) => decode_bytes(p),
        NodeView::Number(_) => TreeView::Number,
        NodeView::Boolean(f) => TreeView::Boolean(f != 0),
        NodeView::Object(es) => TreeView::Object(es),
        NodeView::Array(ns) => TreeView::Array(decode_seq(ns)),
    }
}

pub open spec fn decode_seq(ns: Seq<NodeView>) -> Seq<TreeView>
    decreases ns,
{
    if ns.len() == 0 {
        Seq::empty()
    } else {
        decode_seq(ns.drop_last()).push(decode_spec(ns.last()))
    }
}

proof fn lemma_encode_seq_push(s: Seq<TreeView>, x: TreeView)
    ensures
        encode_seq(s.push(x)) == encode_seq(s).push(encode_spec(x)),
{
    reveal_with_fuel(encode_seq, 2);
    assert(s.push(x).drop_last() =~= s);
    assert(s.push(x).last() == x);
}

proof fn lemma_decode_seq_push(s: Seq<NodeView>, x: NodeView)
    ensures
        decode_seq(s.push(x)) == decode_seq(s).push(decode_spec(x)),
{
    reveal_with_fuel(decode_seq, 2);
    assert(s.push(x).drop_last() =~= s);
    assert(s.push(x).last() == x);
}

/// Relies on str::from_utf8: it returns Ok exactly when the input is valid
/// UTF-8, and the returned slice is the input, decoded.
#[verifier::external_body]
pub(crate) fn utf8_str(b: &[u8]) -> (r: Option<&str>)
    ensures
        match r {
            Some(s) => valid_utf8(b@) && s@ == decode_utf8(b@),
            None => !valid_utf8(b@),
        },
{
    std::str::from_utf8(b).ok()
}

proof fn lemma_concat_contains(a: Seq<u8>, b: Seq<u8>, x: u8)
    ensures
        (a + b).contains(x) <==> a.contains(x) || b.contains(x),
{
    if a.contains(x) {
        let i = choose|i: int| 0 <= i < a.len() && a[i] == x;
        assert((a + b)[i] == x);
    }
    if b.contains(x) {
        let i = choose|i: int| 0 <= i < b.len() && b[i] == x;
        assert((a + b)[a.len() + i] == x);
    }
    if (a + b).contains(x) {
        let i = choose|i: int| 0 <= i < (a + b).len() && (a + b)[i] == x;
        if i < a.len() {
            assert(a[i] == x);
        } else {
            assert(b[i - a.len()] == x);
        }
    }
}

proof fn lemma_nul_scalar(c: u32)
    requires
        vstd::utf8::is_scalar(c),
    ensures
        vstd::utf8::encode_scalar(c).contains(0u8) <==> c == 0,
{
    let e = vstd::utf8::encode_scalar(c);
    if vstd::utf8::has_width_1_encoding(c) {
        assert(vstd::utf8::leading_byte_width_1(c) == 0 <==> c == 0) by (bit_vector)
            requires
                c <= 0x7F,
        ;
        if c == 0 {
            assert(e[0] == 0u8);
        } else {
            assert forall|i: int| 0 <= i < e.len() implies e[i] != 0u8 by {
                assert(e[0] == vstd::utf8::leading_byte_width_1(c));
            }
        }
    } else {
        assert(vstd::utf8::leading_byte_width_2(c) != 0) by (bit_vector);
        assert(vstd::utf8::leading_byte_width_3(c) != 0) by (bit_vector);
        assert(vstd::utf8::leading_byte_width_4(c) != 0) by (bit_vector);
        assert(vstd::utf8::last_continuation_byte(c) != 0) by (bit_vector);
        assert(vstd::utf8::second_last_continuation_byte(c) != 0) by (bit_vector);
        assert(vstd::utf8::third_last_continuation_byte(c) != 0) by (bit_vector);
        assert forall|i: int| 0 <= i < e.len() implies e[i] != 0u8 by {
        }
    }
}

/// A NUL byte stands in a text's UTF-8 encoding exactly where the text has
/// the NUL character: no other scalar's encoding touches the zero byte.
pub proof fn lemma_nul_byte_iff_nul_char(s: Seq<char>)
    ensures
        encode_utf8(s).contains(0u8) <==> s.contains('\0'),
    decreases s.len(),
{
    if s.len() == 0 {
    } else {
        let c = s[0] as u32;
        let a = vstd::utf8::encode_scalar(c);
        let b = encode_utf8(s.drop_first());
        vstd::utf8::char_is_scalar(s[0]);
        lemma_nul_scalar(c);
        lemma_nul_byte_iff_nul_char(s.drop_first());
        lemma_concat_contains(a, b, 0u8);
        assert(encode_utf8(s) == a + b);
        assert(('\0') as u32 == 0);
        if c == 0 {
            vstd::utf8::char_u32_cast(s[0], 0);
            vstd::utf8::char_u32_cast('\0', 0);
            assert(s[0] == '\0');
            assert(s.contains('\0'));
        }
        if s.contains('\0') {
            let i = choose|i: int| 0 <= i < s.len() && s[i] == '\0';
            if i > 0 {
                assert(s.drop_first()[i - 1] == '\0');
                assert(s.drop_first().contains('\0'));
            }
        }
        if s.drop_first().contains('\0') {
            let i = choose|i: int| 0 <= i < s.drop_first().len() && s.drop_first()[i] == '\0';
            assert(s[i + 1] == '\0');
            assert(s.contains('\0'));
        }
    }
}

/// Whether the bytes hold a NUL, which a NUL-terminated byte string cannot.
fn contains_nul(b: &Vec<u8>) -> (r: bool)
    ensures
        r == b@.contains(0u8),
{
    let n = b.len();
    let mut i: usize = 0;
    while i < n
        invariant
            n == b@.len(),
            i <= n,
            forall|j: int| 0 <= j < i ==> b@[j] != 0,
        decreases n - i,
    {
        if b[i] == 0 {
            proof {
                assert(b@[i as int] == 0u8);
            }
            return true;
        }
        i = i + 1;
    }
    false
}

/// Encodes one text into a string payload node.
fn encode_text(s: &String) -> (r: TaggedNode)
    ensures
        r@ == NodeView::Str(encode_bytes(s@)),
{
    let bytes = s.as_str().as_bytes_vec();
    proof {
        lemma_nul_byte_iff_nul_char(s@);
    }
    if contains_nul(&bytes) {
        TaggedNode::Str(None)
    } else {
        TaggedNode::Str(Some(bytes))
    }
}

/// The encoder: turns a value tree into a freshly built tagged node tree
/// that the caller owns.
pub fn json_to_struct(t: &ValueTree) -> (r: TaggedNode)
    ensures
        r@ == encode_spec(t@),
    decreases t,
{
    match t {
        ValueTree::Null => TaggedNode::Null,
        ValueTree::Short(s) => encode_text(s),
        ValueTree::Str(s) => encode_text(s),
        ValueTree::Number => TaggedNode::Number(0),
        ValueTree::Boolean(b) => TaggedNode::Boolean(
            if *b {
                1
            } else {
                0
            },
        ),
        ValueTree::Object(store) => TaggedNode::Object(clone_store(store)),
        ValueTree::Array(elems) => {
            let mut out: Vec<TaggedNode> = Vec::new();
            let n = elems.len();
            let mut i: usize = 0;
            while i < n
                invariant
                    *t == ValueTree::Array(*elems),
                    n == elems@.len(),
                    i <= n,
                    nodes_view(out@) == encode_seq(trees_view(elems@.subrange(0, i as int))),
                decreases n - i,
            {
                proof {
                    assert(decreases_to!(*t => t->Array_0));
                    assert(decreases_to!(*elems => elems@));
                    assert(decreases_to!(elems@ => elems@[i as int]));
                }
                let ghost prev = out@;
                let c = json_to_struct(&elems[i]);
                out.push(c);
                proof {
                    lemma_nodes_view_push(prev, c);
                    assert(elems@.subrange(0, i as int + 1) =~= elems@.subrange(
                        0,
                        i as int,
                    ).push(elems@[i as int]));
                    lemma_trees_view_push(elems@.subrange(0, i as int), elems@[i as int]);
                    lemma_encode_seq_push(trees_view(elems@.subrange(0, i as int)), elems@[i as int]@);
                }
                i = i + 1;
            }
            proof {
                assert(elems@.subrange(0, n as int) =~= elems@);
            }
            TaggedNode::Array(out)
        },
    }
}

/// Decodes one string payload into an owned text value.
fn decode_text(b: &Vec<u8>) -> (r: ValueTree)
    ensures
        r@ == decode_bytes(Some(b@)),
{
    match utf8_str(b.as_slice()) {
        Some(s) => {
            let owned = s.to_owned();
            if b.len() <= SHORT_MAX {
                ValueTree::Short(owned)
            } else {
                ValueTree::Str(owned)
            }
        },
        None => ValueTree::Short(String::new()),
    }
}

/// The decoder: reads a caller-supplied tagged node, without consuming it,
/// and builds an owned value tree of the same shape.
pub fn struct_to_json(n: &TaggedNode) -> (r: ValueTree)
    ensures
        r@ == decode_spec(n@),
    decreases n,
{
    match n {
        TaggedNode::Null => ValueTree::Null,
        TaggedNode::Str(payload) => match payload {
            Some(b) => decode_text(b),
            None => ValueTree::Short(String::new()),
        },
        TaggedNode::Number(_) => ValueTree::Number,
        TaggedNode::Boolean(f) => ValueTree::Boolean(*f != 0),
        TaggedNode::Object(store) => ValueTree::Object(clone_store(store)),
        TaggedNode::Array(children) => {
            let mut out: Vec<ValueTree> = Vec::new();
            let n_children = children.len();
            let mut i: usize = 0;
            while i < n_children
                invariant
                    *n == TaggedNode::Array(*children),
                    n_children == children@.len(),
                    i <= n_children,
                    trees_view(out@) == decode_seq(nodes_view(children@.subrange(0, i as int))),
                decreases n_children - i,
            {
                proof {
                    assert(decreases_to!(*n => n->Array_0));
                    assert(decreases_to!(*children => children@));
                    assert(decreases_to!(children@ => children@[i as int]));
                }
                let ghost prev = out@;
                let c = struct_to_json(&children[i]);
                out.push(c);
                proof {
                    lemma_trees_view_push(prev, c);
                    assert(children@.subrange(0, i as int + 1) =~= children@.subrange(
                        0,
                        i as int,
                    ).push(children@[i as int]));
                    lemma_nodes_view_push(children@.subrange(0, i as int), children@[i as int]);
                    lemma_decode_seq_push(nodes_view(children@.subrange(0, i as int)), children@[i as int]@);
                }
                i = i + 1;
            }
            proof {
                assert(children@.subrange(0, n_children as int) =~= children@);
            }
            ValueTree::Array(out)
        },
    }
}

/// A tree survives the round trip when each of its texts is NUL-free and
/// sits in the size class its byte length calls for; every other variant
/// passes through unharmed.
pub open spec fn round_trippable(t: TreeView) -> bool
    decreases t,
{
    match t {
        TreeView::Short(s) => encode_utf8(s).len() <= SHORT_MAX && !s.contains('\0'),
        TreeView::Str(s) => encode_utf8(s).len() > SHORT_MAX && !s.contains('\0'),
        TreeView::Array(ts) => trees_round_trippable(ts),
        _ => true,
    }
}

pub open spec fn trees_round_trippable(ts: Seq<TreeView>) -> bool
    decreases ts,
{
    ts.len() == 0 || (trees_round_trippable(ts.drop_last()) && round_trippable(ts.last()))
}

/// Law: decoding an encoded tree reproduces the tree, discriminant and
/// payload alike, for every round-trippable tree.
pub proof fn lemma_round_trip(t: TreeView)
    requires
        round_trippable(t),
    ensures
        decode_spec(encode_spec(t)) == t,
    decreases t,
{
    broadcast use vstd::utf8::encode_utf8_valid_utf8;
    broadcast use vstd::utf8::encode_utf8_decode_utf8;

    match t {
        TreeView::Array(ts) => {
            lemma_round_trip_seq(ts);
        },
        _ => {},
    }
}

/// Law: the round trip reproduces a sequence of trees element by element.
pub proof fn lemma_round_trip_seq(ts: Seq<TreeView>)
    requires
        trees_round_trippable(ts),
    ensures
        decode_seq(encode_seq(ts)) == ts,
    decreases ts,
{
    reveal_with_fuel(encode_seq, 2);
    if ts.len() == 0 {
        assert(decode_seq(encode_seq(ts)) =~= ts);
    } else {
        lemma_round_trip_seq(ts.drop_last());
        lemma_round_trip(ts.last());
        lemma_decode_seq_push(encode_seq(ts.drop_last()), encode_spec(ts.last()));
        assert(decode_seq(encode_seq(ts)) =~= ts);
    }
}

} // verus!
