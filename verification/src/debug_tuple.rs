//! A builder for tuple-shaped nodes.

use vstd::prelude::*;

use crate::node::lemma_view_nodes_push;
use crate::node::view_nodes;
use crate::node::Node;
use crate::node::Tree;
use crate::DebugPls;
use crate::Formatter;

verus! {

/// A single-use builder accumulating the positional fields of one tuple
/// node; `finish` consumes it and hands back the node.
pub struct DebugTuple {
    fields: Vec<Node>,
}

impl DebugTuple {
    /// The fields added so far, in the order they were added.
    pub closed spec fn fields_model(&self) -> Seq<Tree> {
        view_nodes(self.fields@)
    }

    pub(crate) fn new() -> (d: DebugTuple)
        ensures
            d.fields_model() == Seq::<Tree>::empty(),
    {
        let d = DebugTuple { fields: Vec::new() };
        proof {
            assert(d.fields_model() =~= Seq::<Tree>::empty());
        }
        d
    }

    /// Adds a positional field: dispatches `value` into a node at once and
    /// appends it.
    pub fn field<T: DebugPls>(self, value: &T) -> (d: DebugTuple)
        ensures
            d.fields_model() == self.fields_model().push(value.tree()),
    {
        let node = Formatter::process(value);
        let ghost ng = node;
        let ghost before = self.fields@;
        let mut fields = self.fields;
        fields.push(node);
        proof {
            lemma_view_nodes_push(before, ng);
        }
        DebugTuple { fields }
    }

    /// Builds the tuple node from the accumulated fields and hands it back,
    /// consuming the builder.
    pub fn finish(self) -> (n: Node)
        ensures
            n@ == (Tree::Tuple { fields: self.fields_model() }),
    {
        Node::Tuple { fields: self.fields }
    }
}

} // verus!
