use vstd::prelude::*;

use crate::value::ObjectStore;
use crate::value::TreeView;

verus! {

/// The cross-boundary value: a self-describing tagged record.
///
/// The string payload is the byte content of a NUL-terminated byte string;
/// `None` stands for the null payload that marks a text the byte-string
/// representation cannot carry (one with an embedded NUL). The `Number`
/// payload is a reserved 64-bit slot: the numeric wire format is a
/// deliberate extension point and the slot is never populated from a source
/// value. Array children carry their count with them, so a consumer never
/// has to guess a length.
pub enum TaggedNode {
    Null,
    Str(Option<Vec<u8>>),
    Number(u64),
    Boolean(i32),
    Object(ObjectStore),
    Array(Vec<TaggedNode>),
}

/// The mathematical shape of a tagged node.
#[verifier::ext_equal]
pub enum NodeView {
    Null,
    Str(Option<Seq<u8>>),
    Number(u64),
    Boolean(i32),
    Object(Seq<(Seq<char>, TreeView)>),
    Array(Seq<NodeView>),
}

impl View for TaggedNode {
    type V = NodeView;

    open spec fn view(&self) -> NodeView
        decreases self,
    {
        match self {
            TaggedNode::Null => NodeView::Null,
            TaggedNode::Str(p) => NodeView::Str(
                match p {
                    Some(b) => Some(b@),
                    None => None,
                },
            ),
            TaggedNode::Number(n) => NodeView::Number(*n),
            TaggedNode::Boolean(f) => NodeView::Boolean(*f),
            TaggedNode::Object(store) => NodeView::Object(store@),
            TaggedNode::Array(children) => NodeView::Array(nodes_view(children@)),
        }
    }
}

/// The views of a sequence of tagged nodes, in order.
pub open spec fn nodes_view(s: Seq<TaggedNode>) -> Seq<NodeView>
    decreases s,
{
    if s.len() == 0 {
        Seq::empty()
    } else {
        nodes_view(s.drop_last()).push(s.last()@)
    }
}

pub proof fn lemma_nodes_view_push(s: Seq<TaggedNode>, x: TaggedNode)
    ensures
        nodes_view(s.push(x)) == nodes_view(s).push(x@),
{
    reveal_with_fuel(nodes_view, 2);
    assert(s.push(x).drop_last() =~= s);
    assert(s.push(x).last() == x);
}

} // verus!
