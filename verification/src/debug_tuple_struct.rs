//! A builder for named tuple-struct nodes.

use vstd::prelude::*;

use crate::node::lemma_view_nodes_push;
use crate::node::view_nodes;
use crate::node::Node;
use crate::node::Tree;
use crate::DebugPls;
use crate::Formatter;

verus! {

/// A single-use builder accumulating the positional fields of one named
/// tuple-struct node; `finish` consumes it and hands back the node.
pub struct DebugTupleStruct {
    name: String,
    fields: Vec<Node>,
}

impl DebugTupleStruct {
    /// The name the builder was created with.
    pub closed spec fn name_model(&self) -> Seq<char> {
        self.name@
    }

    /// The fields added so far, in the order they were added.
    pub closed spec fn fields_model(&self) -> Seq<Tree> {
        view_nodes(self.fields@)
    }

    pub(crate) fn new(name: &str) -> (d: DebugTupleStruct)
        ensures
            d.name_model() == name@,
            d.fields_model() == Seq::<Tree>::empty(),
    {
        let d = DebugTupleStruct { name: name.to_owned(), fields: Vec::new() };
        proof {
            assert(d.fields_model() =~= Seq::<Tree>::empty());
        }
        d
    }

    /// Adds a positional field: dispatches `value` into a node at once and
    /// appends it.
    pub fn field<T: DebugPls>(self, value: &T) -> (d: DebugTupleStruct)
        ensures
            d.name_model() == self.name_model(),
            d.fields_model() == self.fields_model().push(value.tree()),
    {
        let node = Formatter::process(value);
        let ghost ng = node;
        let ghost before = self.fields@;
        let mut fields = self.fields;
        fields.push(node);
        proof {
            lemma_view_nodes_push(before, ng);
        }
        DebugTupleStruct { name: self.name, fields }
    }

    /// Builds the tuple-struct node from the accumulated fields and hands
    /// it back, consuming the builder.
    pub fn finish(self) -> (n: Node)
        ensures
            n@ == (Tree::TupleStruct { name: self.name_model(), fields: self.fields_model() }),
    {
        Node::TupleStruct { name: self.name, fields: self.fields }
    }
}

} // verus!
