//! A builder for struct-shaped nodes.

use vstd::prelude::*;

use crate::node::lemma_view_fields_push;
use crate::node::view_fields;
use crate::node::Field;
use crate::node::Node;
use crate::node::Tree;
use crate::DebugPls;
use crate::Formatter;

verus! {

/// A single-use builder accumulating the named fields of one struct node;
/// `finish` consumes it and hands back the node, so a builder can be
/// finished at most once.
pub struct DebugStruct {
    name: String,
    fields: Vec<Field>,
}

impl DebugStruct {
    /// The struct name the builder was created with.
    pub closed spec fn name_model(&self) -> Seq<char> {
        self.name@
    }

    /// The fields added so far: each a name and the child's tree, in the
    /// order they were added.
    pub closed spec fn fields_model(&self) -> Seq<(Seq<char>, Tree)> {
        view_fields(self.fields@)
    }

    pub(crate) fn new(name: &str) -> (d: DebugStruct)
        ensures
            d.name_model() == name@,
            d.fields_model() == Seq::<(Seq<char>, Tree)>::empty(),
    {
        let d = DebugStruct { name: name.to_owned(), fields: Vec::new() };
        proof {
            assert(d.fields_model() =~= Seq::<(Seq<char>, Tree)>::empty());
        }
        d
    }

    /// Adds a field: dispatches `value` into a node at once and appends it
    /// under `name`, keeping insertion order.
    pub fn field<T: DebugPls>(self, name: &str, value: &T) -> (d: DebugStruct)
        ensures
            d.name_model() == self.name_model(),
            d.fields_model() == self.fields_model().push((name@, value.tree())),
    {
        let node = Formatter::process(value);
        let f = Field { name: name.to_owned(), value: node };
        let ghost fg = f;
        let ghost before = self.fields@;
        let mut fields = self.fields;
        fields.push(f);
        proof {
            lemma_view_fields_push(before, fg);
        }
        DebugStruct { name: self.name, fields }
    }

    /// Builds the struct node from the accumulated fields and hands it
    /// back, consuming the builder.
    pub fn finish(self) -> (n: Node)
        ensures
            n@ == (Tree::NamedStruct { name: self.name_model(), fields: self.fields_model() }),
    {
        Node::NamedStruct { name: self.name, fields: self.fields }
    }
}

} // verus!
