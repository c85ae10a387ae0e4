//! Syntax-aware pretty debug printing.
//!
//! A value describes itself as a [`Node`] tree through the [`DebugPls`]
//! capability and the builder API on [`Formatter`]; the layout engine then
//! renders the tree as canonical, deterministically line-wrapped text, with
//! an optional syntax-highlighted variant.
//!
//! The two entry points are [`debug`], which returns the plain layout, and
//! [`color`], which returns the same layout with highlight markers around
//! name and atom tokens.

use vstd::prelude::*;

pub mod debug_list;
pub mod debug_map;
pub mod debug_set;
pub mod debug_struct;
pub mod debug_tuple;
pub mod debug_tuple_struct;
pub mod impls;
pub mod laws;
pub mod node;
pub mod render;
pub mod text;

pub use debug_list::DebugList;
pub use debug_map::DebugMap;
pub use debug_set::DebugSet;
pub use debug_struct::DebugStruct;
pub use debug_tuple::DebugTuple;
pub use debug_tuple_struct::DebugTupleStruct;
pub use node::Field;
pub use node::MapEntry;
pub use node::Node;
pub use node::Tree;

verus! {

/// Syntax-aware pretty-printed debug formatting: the one capability a
/// renderable value implements.
///
/// `tree` is the value's debug shape in the mathematical model; `fmt` is
/// the executable side and must produce exactly that shape, normally by
/// picking one builder on the given [`Formatter`], adding every child in
/// declaration order, and finishing it.
pub trait DebugPls {
    /// The tree this value describes itself as. The default is the empty
    /// verbatim node, the same tree an implementation that never populates
    /// its output slot produces; a useful implementation overrides it.
    open spec fn tree(&self) -> Tree {
        Tree::Verbatim { text: Seq::empty() }
    }

    /// Formats the value using the given formatter.
    fn fmt(&self, f: Formatter) -> (n: Node)
        ensures
            n@ == self.tree(),
    ;
}

/// Tool for formatting, used within [`DebugPls`] implementations: the
/// output slot a value populates with exactly one node, by one builder's
/// `finish`, by `debug_ident`, or by `write_expr`.
pub struct Formatter {}

impl Formatter {
    /// Builds the debug tree of one value.
    pub(crate) fn process<T: DebugPls>(value: &T) -> (n: Node)
        ensures
            n@ == value.tree(),
    {
        value.fmt(Formatter {  })
    }

    /// Writes a ready-made node into the formatter. This is typically
    /// reserved for more advanced uses.
    pub fn write_expr(self, node: Node) -> (n: Node)
        ensures
            n == node,
    {
        node
    }

    /// Creates a [`DebugStruct`] builder designed to assist with creation
    /// of [`DebugPls`] implementations for structs.
    #[must_use]
    pub fn debug_struct(self, name: &str) -> (d: DebugStruct)
        ensures
            d.name_model() == name@,
            d.fields_model() == Seq::<(Seq<char>, Tree)>::empty(),
    {
        DebugStruct::new(name)
    }

    /// Creates a [`DebugTuple`] builder designed to assist with creation
    /// of [`DebugPls`] implementations for tuples.
    #[must_use]
    pub fn debug_tuple(self) -> (d: DebugTuple)
        ensures
            d.fields_model() == Seq::<Tree>::empty(),
    {
        DebugTuple::new()
    }

    /// Creates a [`DebugTupleStruct`] builder designed to assist with
    /// creation of [`DebugPls`] implementations for tuple structs.
    #[must_use]
    pub fn debug_tuple_struct(self, name: &str) -> (d: DebugTupleStruct)
        ensures
            d.name_model() == name@,
            d.fields_model() == Seq::<Tree>::empty(),
    {
        DebugTupleStruct::new(name)
    }

    /// Creates a [`DebugList`] builder designed to assist with creation of
    /// [`DebugPls`] implementations for list-like structures.
    #[must_use]
    pub fn debug_list(self) -> (d: DebugList)
        ensures
            d.items_model() == Seq::<Tree>::empty(),
    {
        DebugList::new()
    }

    /// Creates a [`DebugMap`] builder designed to assist with creation of
    /// [`DebugPls`] implementations for maps; entries keep the order they
    /// are added in.
    #[must_use]
    pub fn debug_map(self) -> (d: DebugMap)
        ensures
            d.entries_model() == Seq::<(Tree, Tree)>::empty(),
    {
        DebugMap::new()
    }

    /// Creates a [`DebugSet`] builder designed to assist with creation of
    /// [`DebugPls`] implementations for sets; items keep the order they
    /// are added in.
    #[must_use]
    pub fn debug_set(self) -> (d: DebugSet)
        ensures
            d.items_model() == Seq::<Tree>::empty(),
    {
        DebugSet::new()
    }

    /// Writes a bare identifier into the formatter. Useful for unit
    /// structs and unit variants.
    pub fn debug_ident(self, name: &str) -> (n: Node)
        ensures
            n@ == (Tree::Ident { name: name@ }),
    {
        Node::Ident { name: name.to_owned() }
    }
}

/// Renders `value`'s debug tree as plain text: single-line where the
/// 80-column budget allows it, broken into indented lines elsewhere.
pub fn debug<T: DebugPls>(value: &T) -> (s: String)
    ensures
        s@ == render::rendered(value.tree(), 0, 0, false),
{
    let n = Formatter::process(value);
    let pad = String::new();
    proof {
        assert(pad@ =~= text::spaces(0));
    }
    render::render_at(&n, &pad, 0, false, Ghost(0))
}

/// Renders `value`'s debug tree with syntax highlighting: the same layout
/// as [`debug`], with highlight markers around name and atom tokens.
pub fn color<T: DebugPls>(value: &T) -> (s: String)
    ensures
        s@ == render::rendered(value.tree(), 0, 0, true),
{
    let n = Formatter::process(value);
    let pad = String::new();
    proof {
        assert(pad@ =~= text::spaces(0));
    }
    render::render_at(&n, &pad, 0, true, Ghost(0))
}

} // verus!
