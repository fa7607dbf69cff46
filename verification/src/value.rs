use vstd::prelude::*;
use vstd::utf8::encode_utf8;

verus! {

/// Byte-length bound of the small-string size class: texts whose UTF-8
/// encoding fits in this many bytes belong in the `Short` variant, longer
/// ones in the heap-allocated `Str` variant.
pub const SHORT_MAX: usize = 30;

/// A parsed JSON document: the value tree the parser hands over.
///
/// `Number` carries no payload: the numeric wire format is a deliberate
/// extension point, and nothing here pretends to preserve a value for it.
pub enum ValueTree {
    Null,
    /// Small-string size class: text whose UTF-8 encoding is at most
    /// `SHORT_MAX` bytes long.
    Short(String),
    /// Heap size class, for text above the small-string bound.
    Str(String),
    Number,
    Boolean(bool),
    Object(ObjectStore),
    Array(Vec<ValueTree>),
}

/// An ordered, string-keyed map of value trees: keys are unique and
/// iteration order is insertion order.
pub struct ObjectStore {
    pub(crate) entries: Vec<(String, ValueTree)>,
}

/// The mathematical shape of a value tree.
#[verifier::ext_equal]
pub enum TreeView {
    Null,
    Short(Seq<char>),
    Str(Seq<char>),
    Number,
    Boolean(bool),
    Object(Seq<(Seq<char>, TreeView)>),
    Array(Seq<TreeView>),
}

impl View for ValueTree {
    type V = TreeView;

    open spec fn view(&self) -> TreeView
        decreases self,
    {
        match self {
            ValueTree::Null => TreeView::Null,
            ValueTree::Short(s) => TreeView::Short(s@),
            ValueTree::Str(s) => TreeView::Str(s@),
            ValueTree::Number => TreeView::Number,
            ValueTree::Boolean(b) => TreeView::Boolean(*b),
            ValueTree::Object(store) => TreeView::Object(store@),
            ValueTree::Array(elems) => TreeView::Array(trees_view(elems@)),
        }
    }
}

impl View for ObjectStore {
    type V = Seq<(Seq<char>, TreeView)>;

    closed spec fn view(&self) -> Seq<(Seq<char>, TreeView)>
        decreases self,
    {
        entries_view(self.entries@)
    }
}

/// The views of a sequence of value trees, in order.
pub open spec fn trees_view(s: Seq<ValueTree>) -> Seq<TreeView>
    decreases s,
{
    if s.len() == 0 {
        Seq::empty()
    } else {
        trees_view(s.drop_last()).push(s.last()@)
    }
}

/// The views of a sequence of store entries, in order.
pub open spec fn entries_view(s: Seq<(String, ValueTree)>) -> Seq<(Seq<char>, TreeView)>
    decreases s,
{
    if s.len() == 0 {
        Seq::empty()
    } else {
        entries_view(s.drop_last()).push((s.last().0@, s.last().1@))
    }
}

pub proof fn entries_view_len(s: Seq<(String, ValueTree)>)
    ensures
        entries_view(s).len() == s.len(),
    decreases s,
{
    reveal_with_fuel(entries_view, 2);
    if s.len() > 0 {
        entries_view_len(s.drop_last());
    }
}

pub proof fn entries_view_index(s: Seq<(String, ValueTree)>, i: int)
    requires
        0 <= i < s.len(),
    ensures
        entries_view(s)[i] == (s[i].0@, s[i].1@),
    decreases s,
{
    reveal_with_fuel(entries_view, 2);
    entries_view_len(s);
    if i < s.len() - 1 {
        entries_view_index(s.drop_last(), i);
    }
}

/// No two entries of an object share a key.
pub open spec fn keys_unique(es: Seq<(Seq<char>, TreeView)>) -> bool {
    forall|i: int, j: int| 0 <= i < j < es.len() ==> es[i].0 != es[j].0
}

/// A well-formed tree keeps every small-string text within the size bound
/// and every object's keys unique.
pub open spec fn wf_view(t: TreeView) -> bool
    decreases t,
{
    match t {
        TreeView::Short(s) => encode_utf8(s).len() <= SHORT_MAX,
        TreeView::Object(es) => keys_unique(es) && entries_wf(es),
        TreeView::Array(ts) => trees_wf(ts),
        _ => true,
    }
}

pub open spec fn trees_wf(ts: Seq<TreeView>) -> bool
    decreases ts,
{
    ts.len() == 0 || (trees_wf(ts.drop_last()) && wf_view(ts.last()))
}

pub open spec fn entries_wf(es: Seq<(Seq<char>, TreeView)>) -> bool
    decreases es,
{
    es.len() == 0 || (entries_wf(es.drop_last()) && wf_view(es.last().1))
}

/// The value stored under `key`: the first entry whose key matches, if any.
pub open spec fn lookup(es: Seq<(Seq<char>, TreeView)>, key: Seq<char>) -> Option<TreeView>
    decreases es,
{
    if es.len() == 0 {
        None
    } else if es.first().0 == key {
        Some(es.first().1)
    } else {
        lookup(es.drop_first(), key)
    }
}

/// Copies a value tree; the copy has the same view as the original.
pub fn clone_tree(t: &ValueTree) -> (r: ValueTree)
    ensures
        r@ == t@,
    decreases t,
{
    match t {
        ValueTree::Null => ValueTree::Null,
        ValueTree::Short(s) => ValueTree::Short(s.clone()),
        ValueTree::Str(s) => ValueTree::Str(s.clone()),
        ValueTree::Number => ValueTree::Number,
        ValueTree::Boolean(b) => ValueTree::Boolean(*b),
        ValueTree::Object(store) => ValueTree::Object(clone_store(store)),
        ValueTree::Array(elems) => {
            let mut out: Vec<ValueTree> = Vec::new();
            let n = elems.len();
            let mut i: usize = 0;
            while i < n
                invariant
                    *t == ValueTree::Array(*elems),
                    n == elems@.len(),
                    i <= n,
                    trees_view(out@) == trees_view(elems@.subrange(0, i as int)),
                decreases n - i,
            {
                proof {
                    assert(decreases_to!(*t => t->Array_0));
                    assert(t->Array_0 == *elems);
                    assert(decreases_to!(*elems => elems@));
                    assert(decreases_to!(elems@ => elems@[i as int]));
                }
                let ghost prev = out@;
                let c = clone_tree(&elems[i]);
                out.push(c);
                proof {
                    lemma_trees_view_push(prev, c);
                    lemma_trees_view_push(elems@.subrange(0, i as int), elems@[i as int]);
                    assert(elems@.subrange(0, i as int + 1) =~= elems@.subrange(
                        0,
                        i as int,
                    ).push(elems@[i as int]));
                }
                i = i + 1;
            }
            proof {
                assert(elems@.subrange(0, n as int) =~= elems@);
            }
            ValueTree::Array(out)
        },
    }
}

/// Copies an object store; the copy has the same view as the original.
pub fn clone_store(store: &ObjectStore) -> (r: ObjectStore)
    ensures
        r@ == store@,
    decreases store,
{
    let mut out: Vec<(String, ValueTree)> = Vec::new();
    let n = store.entries.len();
    let mut i: usize = 0;
    while i < n
        invariant
            n == store.entries@.len(),
            i <= n,
            entries_view(out@) == entries_view(store.entries@.subrange(0, i as int)),
        decreases n - i,
    {
        proof {
            assert(decreases_to!(*store => store.entries));
            assert(decreases_to!(store.entries => store.entries@));
            assert(decreases_to!(store.entries@ => store.entries@[i as int]));
            assert(decreases_to!(store.entries@[i as int] => store.entries@[i as int].1));
        }
        let ghost prev = out@;
        let key = store.entries[i].0.clone();
        let val = clone_tree(&store.entries[i].1);
        out.push((key, val));
        proof {
            lemma_entries_view_push(prev, (key, val));
            lemma_entries_view_push(store.entries@.subrange(0, i as int), store.entries@[i as int]);
            assert(store.entries@.subrange(0, i as int + 1) =~= store.entries@.subrange(
                0,
                i as int,
            ).push(store.entries@[i as int]));
        }
        i = i + 1;
    }
    proof {
        assert(store.entries@.subrange(0, n as int) =~= store.entries@);
    }
    ObjectStore { entries: out }
}

pub proof fn lemma_trees_view_push(s: Seq<ValueTree>, x: ValueTree)
    ensures
        trees_view(s.push(x)) == trees_view(s).push(x@),
{
    reveal_with_fuel(trees_view, 2);
    assert(s.push(x).drop_last() =~= s);
    assert(s.push(x).last() == x);
}

pub proof fn lemma_entries_view_push(s: Seq<(String, ValueTree)>, x: (String, ValueTree))
    ensures
        entries_view(s.push(x)) == entries_view(s).push((x.0@, x.1@)),
{
    reveal_with_fuel(entries_view, 2);
    assert(s.push(x).drop_last() =~= s);
    assert(s.push(x).last() == x);
}

/// Makes a new, empty object store.
pub fn json_object_new() -> (r: ObjectStore)
    ensures
        r@ == Seq::<(Seq<char>, TreeView)>::empty(),
{
    ObjectStore { entries: Vec::new() }
}

/// Makes a new, empty object store with room reserved for `capacity`
/// entries.
pub fn json_object_new_with_capacity(capacity: usize) -> (r: ObjectStore)
    ensures
        r@ == Seq::<(Seq<char>, TreeView)>::empty(),
{
    ObjectStore { entries: Vec::with_capacity(capacity) }
}

/// Whether the store holds no entry: the flag is 1 exactly when the length
/// is zero, and 0 otherwise.
pub fn json_object_is_empty(object: &ObjectStore) -> (r: i32)
    ensures
        r == 1 || r == 0,
        (r == 1) <==> object@.len() == 0,
{
    proof {
        entries_view_len(object.entries@);
    }
    if object.entries.is_empty() {
        1
    } else {
        0
    }
}

/// The number of live entries in the store.
pub fn json_object_len(object: &ObjectStore) -> (r: usize)
    ensures
        r == object@.len(),
{
    proof {
        entries_view_len(object.entries@);
    }
    object.entries.len()
}

/// Empties the store: afterwards its length is zero.
pub fn json_object_clear(object: &mut ObjectStore)
    ensures
        final(object)@ == Seq::<(Seq<char>, TreeView)>::empty(),
{
    object.entries.clear();
}

/// Finds the value stored under `key`: the first entry with that key, or
/// nothing when the key is absent.
pub fn store_get<'a>(object: &'a ObjectStore, key: &String) -> (r: Option<&'a ValueTree>)
    ensures
        match r {
            Some(v) => lookup(object@, key@) == Some(v@),
            None => lookup(object@, key@) is None,
        },
{
    let ghost v = object@;
    proof {
        entries_view_len(object.entries@);
        assert(v.skip(0) =~= v);
    }
    let n = object.entries.len();
    let mut i: usize = 0;
    while i < n
        invariant
            v == object@,
            v == entries_view(object.entries@),
            n == object.entries@.len(),
            v.len() == n,
            i <= n,
            lookup(v, key@) == lookup(v.skip(i as int), key@),
        decreases n - i,
    {
        proof {
            entries_view_index(object.entries@, i as int);
            assert(v.skip(i as int).first() == v[i as int]);
        }
        if object.entries[i].0 == *key {
            return Some(&object.entries[i].1);
        }
        proof {
            assert(v.skip(i as int).drop_first() =~= v.skip(i as int + 1));
        }
        i = i + 1;
    }
    proof {
        assert(v.skip(n as int) =~= Seq::<(Seq<char>, TreeView)>::empty());
    }
    None
}

} // verus!
