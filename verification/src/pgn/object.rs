//! A parsed PGN game: its tag pairs and its move tree.
use vstd::prelude::*;
use indexmap::IndexMap;
use crate::text::{push_char, push_string};
use crate::pgn::tree::MoveTree;

verus! {

/// `indexmap::IndexMap`, a hash map that keeps the order in which keys were first inserted.
#[verifier::external_type_specification]
#[verifier::external_body]
#[verifier::reject_recursive_types(K)]
#[verifier::reject_recursive_types(V)]
#[verifier::reject_recursive_types(S)]
pub struct ExIndexMap<K, V, S>(IndexMap<K, V, S>);

/// The key-value pairs of a tag map, in the map's order.
pub uninterp spec fn tag_entries(m: IndexMap<String, String>) -> Seq<(Seq<char>, Seq<char>)>;

/// `IndexMap::new`: a map with no pair.
#[verifier::external_body]
fn new_tag_map() -> (m: IndexMap<String, String>)
    ensures
        tag_entries(m) == Seq::<(Seq<char>, Seq<char>)>::empty(),
{
    IndexMap::new()
}

/// `IndexMap::insert`: when the key is already there, its pair keeps its place and takes the
/// new value; otherwise the pair goes last.
#[verifier::external_body]
fn tag_map_insert(m: &mut IndexMap<String, String>, key: String, value: String)
    ensures
        forall|i: int|
            0 <= i < tag_entries(*old(m)).len() && #[trigger] tag_entries(*old(m))[i].0 == key@
                ==> tag_entries(*final(m)) == tag_entries(*old(m)).update(i, (key@, value@)),
        (forall|i: int| 0 <= i < tag_entries(*old(m)).len() ==> #[trigger] tag_entries(*old(m))[i].0 != key@)
            ==> tag_entries(*final(m)) == tag_entries(*old(m)).push((key@, value@)),
{
    m.insert(key, value);
}

/// `IndexMap::len`: the number of pairs.
#[verifier::external_body]
fn tag_map_len(m: &IndexMap<String, String>) -> (n: usize)
    ensures
        n == tag_entries(*m).len(),
{
    m.len()
}

/// `IndexMap::get_index`: the pair at position `i`, copied out.
#[verifier::external_body]
fn tag_map_get(m: &IndexMap<String, String>, i: usize) -> (r: (String, String))
    requires
        i < tag_entries(*m).len(),
    ensures
        r.0@ == tag_entries(*m)[i as int].0,
        r.1@ == tag_entries(*m)[i as int].1,
{
    let (k, v) = m.get_index(i).unwrap();
    (k.clone(), v.clone())
}

/// The tag section of a rendered game: one line `[key "value"]` per pair, in order.
pub open spec fn tags_text(e: Seq<(Seq<char>, Seq<char>)>) -> Seq<char>
    decreases e.len(),
{
    if e.len() == 0 {
        Seq::empty()
    } else {
        tags_text(e.drop_last()) + seq!['['] + e.last().0 + seq![' ', '"'] + e.last().1 + seq!['"', ']', '\n']
    }
}

/// A parsed PGN game: its tag pairs and its move tree.
pub struct PgnObject {
    /// The move tree, root first.
    pub tree_root: MoveTree,
    /// The tag pairs (e.g. `[Event "World Championship"]`), in the order first seen.
    pub tags: IndexMap<String, String>,
}

impl PgnObject {
    /// A game with no move and no tag.
    pub fn new() -> (o: PgnObject)
        ensures
            o.tree_root.wf(),
            o.tree_root.nodes@.len() == 1,
            o.tree_root.nodes@[0].comment is None,
            o.tree_root.nodes@[0].continuations@.len() == 0,
            tag_entries(o.tags) == Seq::<(Seq<char>, Seq<char>)>::empty(),
    {
        PgnObject { tree_root: MoveTree::new(None), tags: new_tag_map() }
    }

    /// Adds a tag pair; an existing key keeps its place and takes the new value.
    pub fn add_tag(&mut self, key: String, value: String)
        ensures
            final(self).tree_root == old(self).tree_root,
            forall|i: int|
                0 <= i < tag_entries(old(self).tags).len() && #[trigger] tag_entries(old(self).tags)[i].0 == key@
                    ==> tag_entries(final(self).tags) == tag_entries(old(self).tags).update(i, (key@, value@)),
            (forall|i: int| 0 <= i < tag_entries(old(self).tags).len() ==> #[trigger] tag_entries(old(self).tags)[i].0 != key@)
                ==> tag_entries(final(self).tags) == tag_entries(old(self).tags).push((key@, value@)),
    {
        tag_map_insert(&mut self.tags, key, value);
    }

    /// The tag pairs rendered one per line.
    pub fn render_tags(&self) -> (r: String)
        ensures
            r@ == tags_text(tag_entries(self.tags)),
    {
        let mut result = String::new();
        let n = tag_map_len(&self.tags);
        let ghost e = tag_entries(self.tags);
        let mut i: usize = 0;
        while i < n
            invariant
                n == e.len(),
                e == tag_entries(self.tags),
                i <= n,
                result@ == tags_text(e.subrange(0, i as int)),
            decreases n - i,
        {
            let (key, value) = tag_map_get(&self.tags, i);
            push_char(&mut result, '[');
            push_string(&mut result, &key);
            push_char(&mut result, ' ');
            push_char(&mut result, '"');
            push_string(&mut result, &value);
            push_char(&mut result, '"');
            push_char(&mut result, ']');
            push_char(&mut result, '\n');
            proof {
                let s = e.subrange(0, i + 1);
                assert(s.drop_last() =~= e.subrange(0, i as int));
                assert(s.last() == e[i as int]);
                assert(result@ =~= tags_text(s));
            }
            i = i + 1;
        }
        proof {
            assert(e.subrange(0, n as int) =~= e);
        }
        result
    }
}

} // verus!
