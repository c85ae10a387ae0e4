//! A builder for set-shaped nodes.

use vstd::prelude::*;

use crate::node::lemma_view_nodes_push;
use crate::node::view_nodes;
use crate::node::Node;
use crate::node::Tree;
use crate::DebugPls;
use crate::Formatter;

verus! {

/// A single-use builder accumulating the items of one set node; the
/// renderer never re-sorts them, so callers supply them already ordered.
/// `finish` consumes the builder and hands back the node.
pub struct DebugSet {
    items: Vec<Node>,
}

impl DebugSet {
    /// The items added so far, in the order they were added.
    pub closed spec fn items_model(&self) -> Seq<Tree> {
        view_nodes(self.items@)
    }

    pub(crate) fn new() -> (d: DebugSet)
        ensures
            d.items_model() == Seq::<Tree>::empty(),
    {
        let d = DebugSet { items: Vec::new() };
        proof {
            assert(d.items_model() =~= Seq::<Tree>::empty());
        }
        d
    }

    /// Adds one item: dispatches `value` into a node at once and appends
    /// it, keeping insertion order.
    pub fn entry<T: DebugPls>(self, value: &T) -> (d: DebugSet)
        ensures
            d.items_model() == self.items_model().push(value.tree()),
    {
        let node = Formatter::process(value);
        let ghost ng = node;
        let ghost before = self.items@;
        let mut items = self.items;
        items.push(node);
        proof {
            lemma_view_nodes_push(before, ng);
        }
        DebugSet { items }
    }

    /// Adds every value of `values`, first to last.
    pub fn entries<T: DebugPls>(self, values: &Vec<T>) -> (d: DebugSet)
        ensures
            d.items_model() == self.items_model() + values@.map(|j: int, x: T| x.tree()),
    {
        let ghost start = self.items_model();
        let mut d = self;
        proof {
            assert(d.items_model() =~= start + values@.take(0).map(|j: int, x: T| x.tree()));
        }
        let mut i: usize = 0;
        while i < values.len()
            invariant
                i <= values@.len(),
                d.items_model() == start + values@.take(i as int).map(|j: int, x: T| x.tree()),
            decreases values@.len() - i,
        {
            d = d.entry(&values[i]);
            proof {
                assert(values@.take(i + 1).map(|j: int, x: T| x.tree()) =~= values@.take(
                    i as int,
                ).map(|j: int, x: T| x.tree()).push(values@[i as int].tree()));
                assert(d.items_model() =~= start + values@.take(i + 1).map(
                    |j: int, x: T| x.tree(),
                ));
            }
            i = i + 1;
        }
        proof {
            assert(values@.take(values@.len() as int) =~= values@);
        }
        d
    }

    /// Builds the set node from the accumulated items and hands it back,
    /// consuming the builder.
    pub fn finish(self) -> (n: Node)
        ensures
            n@ == (Tree::SetOf { items: self.items_model() }),
    {
        Node::SetOf { items: self.items }
    }
}

} // verus!
