//! A builder for map-shaped nodes.

use vstd::prelude::*;

use crate::node::lemma_view_entries_push;
use crate::node::view_entries;
use crate::node::MapEntry;
use crate::node::Node;
use crate::node::Tree;
use crate::DebugPls;
use crate::Formatter;

verus! {

/// A single-use builder accumulating the key/value entries of one map node;
/// the renderer never re-sorts them, so callers supply them already
/// ordered. `finish` consumes the builder and hands back the node.
pub struct DebugMap {
    entries: Vec<MapEntry>,
}

impl DebugMap {
    /// The entries added so far: each a key tree and a value tree, in the
    /// order they were added.
    pub closed spec fn entries_model(&self) -> Seq<(Tree, Tree)> {
        view_entries(self.entries@)
    }

    pub(crate) fn new() -> (d: DebugMap)
        ensures
            d.entries_model() == Seq::<(Tree, Tree)>::empty(),
    {
        let d = DebugMap { entries: Vec::new() };
        proof {
            assert(d.entries_model() =~= Seq::<(Tree, Tree)>::empty());
        }
        d
    }

    /// Adds one entry: dispatches key and value into nodes at once and
    /// appends the pair, keeping insertion order.
    pub fn entry<K: DebugPls, V: DebugPls>(self, key: &K, value: &V) -> (d: DebugMap)
        ensures
            d.entries_model() == self.entries_model().push((key.tree(), value.tree())),
    {
        let k = Formatter::process(key);
        let v = Formatter::process(value);
        let e = MapEntry { key: k, value: v };
        let ghost eg = e;
        let ghost before = self.entries@;
        let mut entries = self.entries;
        entries.push(e);
        proof {
            lemma_view_entries_push(before, eg);
        }
        DebugMap { entries }
    }

    /// Adds every pair of `pairs`, first to last.
    pub fn entries<K: DebugPls, V: DebugPls>(self, pairs: &Vec<(K, V)>) -> (d: DebugMap)
        ensures
            d.entries_model() == self.entries_model() + pairs@.map(
                |j: int, p: (K, V)| (p.0.tree(), p.1.tree()),
            ),
    {
        let ghost start = self.entries_model();
        let mut d = self;
        proof {
            assert(d.entries_model() =~= start + pairs@.take(0).map(
                |j: int, p: (K, V)| (p.0.tree(), p.1.tree()),
            ));
        }
        let mut i: usize = 0;
        while i < pairs.len()
            invariant
                i <= pairs@.len(),
                d.entries_model() == start + pairs@.take(i as int).map(
                    |j: int, p: (K, V)| (p.0.tree(), p.1.tree()),
                ),
            decreases pairs@.len() - i,
        {
            d = d.entry(&pairs[i].0, &pairs[i].1);
            proof {
                assert(pairs@.take(i + 1).map(|j: int, p: (K, V)| (p.0.tree(), p.1.tree()))
                    =~= pairs@.take(i as int).map(
                    |j: int, p: (K, V)| (p.0.tree(), p.1.tree()),
                ).push((pairs@[i as int].0.tree(), pairs@[i as int].1.tree())));
                assert(d.entries_model() =~= start + pairs@.take(i + 1).map(
                    |j: int, p: (K, V)| (p.0.tree(), p.1.tree()),
                ));
            }
            i = i + 1;
        }
        proof {
            assert(pairs@.take(pairs@.len() as int) =~= pairs@);
        }
        d
    }

    /// Builds the map node from the accumulated entries and hands it back,
    /// consuming the builder.
    pub fn finish(self) -> (n: Node)
        ensures
            n@ == (Tree::Dict { entries: self.entries_model() }),
    {
        Node::Dict { entries: self.entries }
    }
}

} // verus!
