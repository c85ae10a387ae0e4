//! The tree model: the shape of a value's debug representation.
//!
//! A [`Node`] is the finished, immutable description of one value: either an
//! atomic token (rendered verbatim, never broken across lines) or a composite
//! shape holding an ordered sequence of child nodes. Its mathematical model is
//! [`Tree`], the same shape over `Seq<char>` and `Seq`, reached through
//! [`view_node`] (and `@`).

use vstd::prelude::*;

verus! {

/// The mathematical model of a debug tree: each text is a `Seq<char>` and
/// each child list a `Seq`. The layout functions all speak of `Tree`s.
#[allow(inconsistent_fields)]
pub enum Tree {
    /// A pre-rendered token (a number, a quoted string, a boolean).
    Atom { text: Seq<char> },
    /// A bare identifier, such as a unit struct or unit variant name.
    Ident { name: Seq<char> },
    /// A struct with named fields, in insertion order.
    NamedStruct { name: Seq<char>, fields: Seq<(Seq<char>, Tree)> },
    /// An unnamed tuple.
    Tuple { fields: Seq<Tree> },
    /// A named tuple struct.
    TupleStruct { name: Seq<char>, fields: Seq<Tree> },
    /// An ordered list.
    List { items: Seq<Tree> },
    /// An ordered map of key/value pairs; the renderer never re-sorts them.
    Dict { entries: Seq<(Tree, Tree)> },
    /// An ordered set; the renderer never re-sorts it.
    SetOf { items: Seq<Tree> },
    /// A fully custom pre-rendered expression, bypassing the shapes above.
    Verbatim { text: Seq<char> },
}

/// One named field of a [`Node::NamedStruct`].
pub struct Field {
    pub name: String,
    pub value: Node,
}

/// One key/value entry of a [`Node::Dict`].
pub struct MapEntry {
    pub key: Node,
    pub value: Node,
}

/// A finished debug tree for one value.
///
/// Nodes are produced by the builders and by `Formatter`'s direct writes; a
/// node owns all its children, so every tree is finite and acyclic.
#[allow(inconsistent_fields)]
pub enum Node {
    /// A pre-rendered token (a number, a quoted string, a boolean).
    Atom { text: String },
    /// A bare identifier, such as a unit struct or unit variant name.
    Ident { name: String },
    /// A struct with named fields, in insertion order.
    NamedStruct { name: String, fields: Vec<Field> },
    /// An unnamed tuple.
    Tuple { fields: Vec<Node> },
    /// A named tuple struct.
    TupleStruct { name: String, fields: Vec<Node> },
    /// An ordered list.
    List { items: Vec<Node> },
    /// An ordered map of key/value pairs, in insertion order.
    Dict { entries: Vec<MapEntry> },
    /// An ordered set, in insertion order.
    SetOf { items: Vec<Node> },
    /// A fully custom pre-rendered expression.
    Verbatim { text: String },
}

/// The model of a sequence of nodes, element by element, in order.
pub open spec fn view_nodes(ns: Seq<Node>) -> Seq<Tree>
    decreases ns,
{
    if ns.len() == 0 {
        Seq::empty()
    } else {
        view_nodes(ns.drop_last()).push(view_node(ns.last()))
    }
}

/// The model of a sequence of named fields, in order.
pub open spec fn view_fields(fs: Seq<Field>) -> Seq<(Seq<char>, Tree)>
    decreases fs,
{
    if fs.len() == 0 {
        Seq::empty()
    } else {
        view_fields(fs.drop_last()).push((fs.last().name@, view_node(fs.last().value)))
    }
}

/// The model of a sequence of map entries, in order.
pub open spec fn view_entries(es: Seq<MapEntry>) -> Seq<(Tree, Tree)>
    decreases es,
{
    if es.len() == 0 {
        Seq::empty()
    } else {
        view_entries(es.drop_last()).push(
            (view_node(es.last().key), view_node(es.last().value)),
        )
    }
}

/// The model of one node.
pub open spec fn view_node(n: Node) -> Tree
    decreases n,
{
    match n {
        Node::Atom { text } => Tree::Atom { text: text@ },
        Node::Ident { name } => Tree::Ident { name: name@ },
        Node::NamedStruct { name, fields } => Tree::NamedStruct {
            name: name@,
            fields: view_fields(fields@),
        },
        Node::Tuple { fields } => Tree::Tuple { fields: view_nodes(fields@) },
        Node::TupleStruct { name, fields } => Tree::TupleStruct {
            name: name@,
            fields: view_nodes(fields@),
        },
        Node::List { items } => Tree::List { items: view_nodes(items@) },
        Node::Dict { entries } => Tree::Dict { entries: view_entries(entries@) },
        Node::SetOf { items } => Tree::SetOf { items: view_nodes(items@) },
        Node::Verbatim { text } => Tree::Verbatim { text: text@ },
    }
}

impl View for Node {
    type V = Tree;

    open spec fn view(&self) -> Tree {
        view_node(*self)
    }
}

/// The model of a sequence of nodes has the same length and holds each
/// node's model at the node's own position.
pub proof fn lemma_view_nodes_index(ns: Seq<Node>)
    ensures
        view_nodes(ns).len() == ns.len(),
        forall|i: int| 0 <= i < ns.len() ==> view_nodes(ns)[i] == view_node(ns[i]),
    decreases ns,
{
    if ns.len() > 0 {
        lemma_view_nodes_index(ns.drop_last());
    }
}

/// The model of a sequence of fields has the same length and holds each
/// field's name and value model at the field's own position.
pub proof fn lemma_view_fields_index(fs: Seq<Field>)
    ensures
        view_fields(fs).len() == fs.len(),
        forall|i: int| 0 <= i < fs.len() ==> view_fields(fs)[i] == (
            fs[i].name@,
            view_node(fs[i].value),
        ),
    decreases fs,
{
    if fs.len() > 0 {
        lemma_view_fields_index(fs.drop_last());
    }
}

/// The model of a sequence of map entries has the same length and holds each
/// entry's key and value models at the entry's own position.
pub proof fn lemma_view_entries_index(es: Seq<MapEntry>)
    ensures
        view_entries(es).len() == es.len(),
        forall|i: int| 0 <= i < es.len() ==> view_entries(es)[i] == (
            view_node(es[i].key),
            view_node(es[i].value),
        ),
    decreases es,
{
    if es.len() > 0 {
        lemma_view_entries_index(es.drop_last());
    }
}

/// Appending a node to a sequence appends its model: the builders rely on
/// this to show that children are kept in insertion order.
pub proof fn lemma_view_nodes_push(ns: Seq<Node>, n: Node)
    ensures
        view_nodes(ns.push(n)) == view_nodes(ns).push(view_node(n)),
{
    assert(ns.push(n).drop_last() =~= ns);
    assert(ns.push(n).last() == n);
}

/// Appending a field to a sequence appends its model.
pub proof fn lemma_view_fields_push(fs: Seq<Field>, f: Field)
    ensures
        view_fields(fs.push(f)) == view_fields(fs).push((f.name@, view_node(f.value))),
{
    assert(fs.push(f).drop_last() =~= fs);
    assert(fs.push(f).last() == f);
}

/// Appending a map entry to a sequence appends its model.
pub proof fn lemma_view_entries_push(es: Seq<MapEntry>, e: MapEntry)
    ensures
        view_entries(es.push(e)) == view_entries(es).push(
            (view_node(e.key), view_node(e.value)),
        ),
{
    assert(es.push(e).drop_last() =~= es);
    assert(es.push(e).last() == e);
}

} // verus!
