use vstd::prelude::*;

pub mod codec;
pub mod node;
pub mod parse;
pub mod value;

verus! {

pub use crate::codec::json_to_struct;
pub use crate::codec::struct_to_json;
pub use crate::node::NodeView;
pub use crate::node::TaggedNode;
pub use crate::parse::json_object_get;
pub use crate::parse::json_parse;
pub use crate::value::json_object_clear;
pub use crate::value::json_object_is_empty;
pub use crate::value::json_object_len;
pub use crate::value::json_object_new;
pub use crate::value::json_object_new_with_capacity;
pub use crate::value::store_get;
pub use crate::value::ObjectStore;
pub use crate::value::TreeView;
pub use crate::value::ValueTree;

} // verus!

