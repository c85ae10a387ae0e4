//! The layout engine: how a finished [`Tree`] becomes text.
//!
//! Every composite node first gets a *single-line candidate*. The node is
//! emitted on one line when nothing below it demands breaking and the
//! candidate fits the 80-column budget measured from the node's starting
//! column; otherwise it is broken across indented lines (four spaces per
//! level) with each shape's own trailing punctuation. Three shapes demand
//! breaking on their own: a named struct whose braced body is wider than 34
//! columns, and any non-empty map or set. A parent holding such a child is
//! broken as well, however short its own candidate is.
//!
//! The colored rendering makes exactly the same decisions — widths are always
//! measured on the plain candidate — and only wraps name and atom tokens in
//! highlight markers: names in the identifier marker, atoms in the string or
//! number marker according to their first character.

use vstd::prelude::*;

use crate::node::Field;
use crate::node::MapEntry;
use crate::node::Node;
use crate::node::Tree;
use crate::node::lemma_view_entries_index;
use crate::node::lemma_view_fields_index;
use crate::node::lemma_view_nodes_index;
use crate::node::view_entries;
use crate::node::view_fields;
use crate::node::view_node;
use crate::node::view_nodes;
use crate::text::indent_one;
use crate::text::lemma_spaces_add;
use crate::text::push_char;
use crate::text::spaces;

verus! {

broadcast use crate::text::lemma_spaces_len;

/// The line-width budget: the widest a single-line form may be, measured
/// from the column where the node starts.
pub open spec fn line_width() -> int {
    80
}

/// The widest braced body (`{ ... }` inclusive) a named struct may keep on
/// one line; wider bodies are always broken.
pub open spec fn struct_width() -> int {
    34
}

/// The highlight marker opening an identifier or type name.
pub open spec fn mark_name() -> Seq<char> {
    seq!['\u{1b}', '[', '3', '6', 'm']
}

/// The highlight marker opening a string literal atom.
pub open spec fn mark_str() -> Seq<char> {
    seq!['\u{1b}', '[', '3', '2', 'm']
}

/// The highlight marker opening every other atom (numbers, booleans).
pub open spec fn mark_num() -> Seq<char> {
    seq!['\u{1b}', '[', '3', '3', 'm']
}

/// The highlight marker closing any highlighted token.
pub open spec fn mark_reset() -> Seq<char> {
    seq!['\u{1b}', '[', '0', 'm']
}

/// The marker an atom opens with: its first character decides whether it is
/// highlighted as a string or as a number.
pub open spec fn atom_mark(text: Seq<char>) -> Seq<char> {
    if text.len() > 0 && text[0] == '"' {
        mark_str()
    } else {
        mark_num()
    }
}

/// `text` wrapped in the given highlight marker when `colored` holds, and
/// bare otherwise.
pub open spec fn wrap(mark: Seq<char>, text: Seq<char>, colored: bool) -> Seq<char> {
    if colored {
        mark + text + mark_reset()
    } else {
        text
    }
}

/// A column position, saturated just past the budget: everything beyond 81
/// behaves alike, and saturating keeps the executable arithmetic small.
pub open spec fn cap_col(x: nat) -> int {
    if x <= line_width() {
        x as int
    } else {
        line_width() + 1
    }
}

/// The single-line candidate of a node.
pub open spec fn single_line(t: Tree, colored: bool) -> Seq<char>
    decreases t, 0int,
{
    match t {
        Tree::Atom { text } => wrap(atom_mark(text), text, colored),
        Tree::Ident { name } => wrap(mark_name(), name, colored),
        Tree::Verbatim { text } => text,
        Tree::NamedStruct { name, fields } => if fields.len() == 0 {
            wrap(mark_name(), name, colored)
        } else {
            wrap(mark_name(), name, colored) + seq![' ', '{', ' '] + single_line_fields(
                fields,
                0,
                colored,
            ) + seq![' ', '}']
        },
        Tree::Tuple { fields } => seq!['('] + single_line_items(fields, 0, seq![',', ' '], colored)
            + seq![')'],
        Tree::TupleStruct { name, fields } => wrap(mark_name(), name, colored) + seq!['(']
            + single_line_items(fields, 0, seq![',', ' '], colored) + seq![')'],
        Tree::List { items } => seq!['['] + single_line_items(items, 0, seq![',', ' '], colored)
            + seq![']'],
        Tree::Dict { entries } => seq!['{'] + single_line_entries(entries, 0, colored) + seq!['}'],
        Tree::SetOf { items } => seq!['{'] + single_line_items(items, 0, seq![';', ' '], colored)
            + seq!['}'],
    }
}

/// Children from position `i` on, single-line, joined by `sep`.
pub open spec fn single_line_items(ts: Seq<Tree>, i: int, sep: Seq<char>, colored: bool) -> Seq<
    char,
>
    decreases ts, ts.len() - i,
{
    if i < 0 || i >= ts.len() {
        Seq::empty()
    } else if i == ts.len() - 1 {
        single_line(ts[i], colored)
    } else {
        single_line(ts[i], colored) + sep + single_line_items(ts, i + 1, sep, colored)
    }
}

/// Named fields from position `i` on, single-line, as `name: value` joined
/// by `, `.
pub open spec fn single_line_fields(
    fs: Seq<(Seq<char>, Tree)>,
    i: int,
    colored: bool,
) -> Seq<char>
    decreases fs, fs.len() - i,
{
    if i < 0 || i >= fs.len() {
        Seq::empty()
    } else if i == fs.len() - 1 {
        fs[i].0 + seq![':', ' '] + single_line(fs[i].1, colored)
    } else {
        fs[i].0 + seq![':', ' '] + single_line(fs[i].1, colored) + seq![',', ' ']
            + single_line_fields(fs, i + 1, colored)
    }
}

/// Map entries from position `i` on, single-line, as `[key] = value;`
/// joined by a space.
pub open spec fn single_line_entries(es: Seq<(Tree, Tree)>, i: int, colored: bool) -> Seq<char>
    decreases es, es.len() - i,
{
    if i < 0 || i >= es.len() {
        Seq::empty()
    } else if i == es.len() - 1 {
        seq!['['] + single_line(es[i].0, colored) + seq![']', ' ', '=', ' '] + single_line(
            es[i].1,
            colored,
        ) + seq![';']
    } else {
        seq!['['] + single_line(es[i].0, colored) + seq![']', ' ', '=', ' '] + single_line(
            es[i].1,
            colored,
        ) + seq![';', ' '] + single_line_entries(es, i + 1, colored)
    }
}

/// How many direct children a node has; leaves have none.
pub open spec fn child_count(t: Tree) -> nat {
    match t {
        Tree::Atom { .. } => 0,
        Tree::Ident { .. } => 0,
        Tree::Verbatim { .. } => 0,
        Tree::NamedStruct { fields, .. } => fields.len(),
        Tree::Tuple { fields } => fields.len(),
        Tree::TupleStruct { fields, .. } => fields.len(),
        Tree::List { items } => items.len(),
        Tree::Dict { entries } => entries.len(),
        Tree::SetOf { items } => items.len(),
    }
}

/// Whether a node demands the multi-line form no matter how much room is
/// left: a named struct with an over-wide body, any non-empty map or set,
/// or any composite holding such a node.
pub open spec fn forced(t: Tree) -> bool
    decreases t, 0int,
{
    match t {
        Tree::Atom { .. } => false,
        Tree::Ident { .. } => false,
        Tree::Verbatim { .. } => false,
        Tree::NamedStruct { fields, .. } => fields.len() > 0 && (4 + single_line_fields(
            fields,
            0,
            false,
        ).len() > struct_width() || forced_fields(fields, 0)),
        Tree::Tuple { fields } => forced_items(fields, 0),
        Tree::TupleStruct { fields, .. } => forced_items(fields, 0),
        Tree::List { items } => forced_items(items, 0),
        Tree::Dict { entries } => entries.len() > 0,
        Tree::SetOf { items } => items.len() > 0,
    }
}

/// Whether some child at position `i` or later demands the multi-line form.
pub open spec fn forced_items(ts: Seq<Tree>, i: int) -> bool
    decreases ts, ts.len() - i,
{
    if i < 0 || i >= ts.len() {
        false
    } else {
        forced(ts[i]) || forced_items(ts, i + 1)
    }
}

/// Whether some field value at position `i` or later demands the multi-line
/// form.
pub open spec fn forced_fields(fs: Seq<(Seq<char>, Tree)>, i: int) -> bool
    decreases fs, fs.len() - i,
{
    if i < 0 || i >= fs.len() {
        false
    } else {
        forced(fs[i].1) || forced_fields(fs, i + 1)
    }
}

/// The rendering of a node standing at column `col` on a line indented
/// `depth` levels: its single-line candidate when it is a leaf, an empty
/// composite, or an unforced composite whose plain candidate fits the
/// budget; its multi-line form otherwise.
pub open spec fn rendered(t: Tree, depth: nat, col: int, colored: bool) -> Seq<char>
    decreases t, 1int,
{
    if child_count(t) == 0 {
        single_line(t, colored)
    } else if !forced(t) && col + single_line(t, false).len() <= line_width() {
        single_line(t, colored)
    } else {
        multi_line(t, depth, colored)
    }
}

/// The multi-line form of a composite node whose own line is indented
/// `depth` levels; its children stand on lines indented one level more, and
/// its closing delimiter on a line of its own at `depth`.
pub open spec fn multi_line(t: Tree, depth: nat, colored: bool) -> Seq<char>
    decreases t, 0int,
{
    match t {
        Tree::Atom { text } => wrap(atom_mark(text), text, colored),
        Tree::Ident { name } => wrap(mark_name(), name, colored),
        Tree::Verbatim { text } => text,
        Tree::NamedStruct { name, fields } => wrap(mark_name(), name, colored) + seq![
            ' ',
            '{',
            '\n',
        ] + multi_line_fields(fields, 0, depth + 1, colored) + spaces(4 * depth) + seq!['}'],
        Tree::Tuple { fields } => seq!['(', '\n'] + multi_line_items(fields, 0, depth + 1, colored)
            + spaces(4 * depth) + seq![')'],
        Tree::TupleStruct { name, fields } => wrap(mark_name(), name, colored) + seq!['(', '\n']
            + multi_line_items(fields, 0, depth + 1, colored) + spaces(4 * depth) + seq![')'],
        Tree::List { items } => seq!['[', '\n'] + multi_line_items(items, 0, depth + 1, colored)
            + spaces(4 * depth) + seq![']'],
        Tree::Dict { entries } => seq!['{', '\n'] + multi_line_entries(entries, 0, depth + 1, colored)
            + spaces(4 * depth) + seq!['}'],
        Tree::SetOf { items } => seq!['{', '\n'] + multi_line_set_items(items, 0, depth + 1, colored)
            + spaces(4 * depth) + seq!['}'],
    }
}

/// Lines of a broken tuple, tuple struct or list from position `i` on: each
/// child indented, rendered at its column, and closed by `,` — after every
/// child, the last included.
pub open spec fn multi_line_items(ts: Seq<Tree>, i: int, depth: nat, colored: bool) -> Seq<char>
    decreases ts, ts.len() - i,
{
    if i < 0 || i >= ts.len() {
        Seq::empty()
    } else {
        spaces(4 * depth) + rendered(ts[i], depth, cap_col(4 * depth), colored) + seq![',', '\n']
            + multi_line_items(ts, i + 1, depth, colored)
    }
}

/// Lines of a broken named struct from position `i` on: `name: value`
/// indented, each closed by `,` — after every field, the last included.
pub open spec fn multi_line_fields(
    fs: Seq<(Seq<char>, Tree)>,
    i: int,
    depth: nat,
    colored: bool,
) -> Seq<char>
    decreases fs, fs.len() - i,
{
    if i < 0 || i >= fs.len() {
        Seq::empty()
    } else {
        spaces(4 * depth) + fs[i].0 + seq![':', ' '] + rendered(
            fs[i].1,
            depth,
            cap_col(4 * depth + fs[i].0.len() + 2),
            colored,
        ) + seq![',', '\n'] + multi_line_fields(fs, i + 1, depth, colored)
    }
}

/// Lines of a broken set from position `i` on: each item indented and closed
/// by `;`, except the last, which ends its line bare.
pub open spec fn multi_line_set_items(ts: Seq<Tree>, i: int, depth: nat, colored: bool) -> Seq<
    char,
>
    decreases ts, ts.len() - i,
{
    if i < 0 || i >= ts.len() {
        Seq::empty()
    } else if i == ts.len() - 1 {
        spaces(4 * depth) + rendered(ts[i], depth, cap_col(4 * depth), colored) + seq!['\n']
    } else {
        spaces(4 * depth) + rendered(ts[i], depth, cap_col(4 * depth), colored) + seq![';', '\n']
            + multi_line_set_items(ts, i + 1, depth, colored)
    }
}

/// The bracketed key of a broken map entry: `[key]` on the entry's line when
/// the key is unforced and fits, otherwise the bracket itself is broken
/// around the key, with a trailing `,` after the key.
pub open spec fn entry_key(k: Tree, depth: nat, colored: bool) -> Seq<char>
    decreases k, 2int,
{
    if !forced(k) && cap_col(4 * depth) + 2 + single_line(k, false).len() <= line_width() {
        seq!['['] + single_line(k, colored) + seq![']']
    } else {
        seq!['[', '\n'] + spaces(4 * (depth + 1)) + rendered(
            k,
            depth + 1,
            cap_col(4 * (depth + 1)),
            colored,
        ) + seq![',', '\n'] + spaces(4 * depth) + seq![']']
    }
}

/// The column where a broken map entry's value starts, just after `] = `.
pub open spec fn entry_value_col(k: Tree, depth: nat) -> int {
    if !forced(k) && cap_col(4 * depth) + 2 + single_line(k, false).len() <= line_width() {
        cap_col(4 * depth + single_line(k, false).len() + 5)
    } else {
        cap_col(4 * depth + 4)
    }
}

/// Lines of a broken map from position `i` on: `[key] = value;` indented,
/// with `;` after every entry, the last included.
pub open spec fn multi_line_entries(es: Seq<(Tree, Tree)>, i: int, depth: nat, colored: bool) -> Seq<
    char,
>
    decreases es, es.len() - i,
{
    if i < 0 || i >= es.len() {
        Seq::empty()
    } else {
        spaces(4 * depth) + entry_key(es[i].0, depth, colored) + seq![' ', '=', ' '] + rendered(
            es[i].1,
            depth,
            entry_value_col(es[i].0, depth),
            colored,
        ) + seq![';', '\n'] + multi_line_entries(es, i + 1, depth, colored)
    }
}

/// Adds two column positions, saturated just past the budget as [`cap_col`]
/// is; saturating keeps the sum within `usize` whatever the inputs.
fn col_add(a: usize, b: usize) -> (r: usize)
    ensures
        r as int == cap_col((a + b) as nat),
{
    if a > 80 || b > 80 {
        81
    } else if a + b <= 80 {
        a + b
    } else {
        81
    }
}

/// Appends the closing highlight marker.
fn append_reset(out: &mut String)
    ensures
        final(out)@ == old(out)@ + mark_reset(),
{
    push_char(out, '\u{1b}');
    push_char(out, '[');
    push_char(out, '0');
    push_char(out, 'm');
    proof {
        assert(out@ =~= old(out)@ + mark_reset());
    }
}

/// Appends a name or identifier token, highlighted when `colored` holds.
fn append_name_token(out: &mut String, name: &str, colored: bool)
    ensures
        final(out)@ == old(out)@ + wrap(mark_name(), name@, colored),
{
    if colored {
        push_char(out, '\u{1b}');
        push_char(out, '[');
        push_char(out, '3');
        push_char(out, '6');
        push_char(out, 'm');
        out.append(name);
        append_reset(out);
        proof {
            assert(out@ =~= old(out)@ + wrap(mark_name(), name@, colored));
        }
    } else {
        out.append(name);
    }
}

/// Appends an atom token, highlighted by its first character when `colored`
/// holds.
fn append_atom_token(out: &mut String, text: &str, colored: bool)
    ensures
        final(out)@ == old(out)@ + wrap(atom_mark(text@), text@, colored),
{
    if colored {
        push_char(out, '\u{1b}');
        push_char(out, '[');
        push_char(out, '3');
        if text.unicode_len() > 0 && text.get_char(0) == '"' {
            push_char(out, '2');
        } else {
            push_char(out, '3');
        }
        push_char(out, 'm');
        out.append(text);
        append_reset(out);
        proof {
            assert(out@ =~= old(out)@ + wrap(atom_mark(text@), text@, colored));
        }
    } else {
        out.append(text);
    }
}

/// Builds the single-line candidate of a row of children joined by
/// `sep0` + space.
fn single_line_of_items(items: &Vec<Node>, sep0: char, colored: bool) -> (s: String)
    ensures
        s@ == single_line_items(view_nodes(items@), 0, seq![sep0, ' '], colored),
    decreases items,
{
    proof {
        lemma_view_nodes_index(items@);
    }
    let ghost v = view_nodes(items@);
    let ghost sep = seq![sep0, ' '];
    let mut out = String::new();
    let len = items.len();
    proof {
        if len == 0 {
            assert(out@ =~= single_line_items(v, 0, sep, colored));
        } else {
            assert(single_line_items(v, 0, sep, colored) =~= out@ + single_line_items(
                v,
                0,
                sep,
                colored,
            ));
        }
    }
    let mut i: usize = 0;
    while i < len
        invariant
            i <= len,
            len == items@.len(),
            v == view_nodes(items@),
            sep == seq![sep0, ' '],
            v.len() == len,
            forall|j: int| 0 <= j < len ==> v[j] == view_node(items@[j]),
            i < len ==> single_line_items(v, 0, sep, colored) == out@ + single_line_items(
                v,
                i as int,
                sep,
                colored,
            ),
            i >= len ==> out@ == single_line_items(v, 0, sep, colored),
        decreases len - i,
    {
        let ghost o = out@;
        let piece = single_line_of(&items[i], colored);
        out.append(piece.as_str());
        if i + 1 < len {
            push_char(&mut out, sep0);
            push_char(&mut out, ' ');
            proof {
                assert(single_line_items(v, i as int, sep, colored) == single_line(
                    v[i as int],
                    colored,
                ) + sep + single_line_items(v, i + 1, sep, colored));
                assert(out@ =~= o + (single_line(v[i as int], colored) + sep));
                assert(single_line_items(v, 0, sep, colored) =~= out@ + single_line_items(
                    v,
                    i + 1,
                    sep,
                    colored,
                ));
            }
        } else {
            proof {
                assert(single_line_items(v, i as int, sep, colored) == single_line(
                    v[i as int],
                    colored,
                ));
                assert(out@ =~= single_line_items(v, 0, sep, colored));
            }
        }
        i = i + 1;
    }
    out
}

/// Builds the single-line candidate of a row of named fields joined by `, `.
fn single_line_of_fields(fields: &Vec<Field>, colored: bool) -> (s: String)
    ensures
        s@ == single_line_fields(view_fields(fields@), 0, colored),
    decreases fields,
{
    proof {
        lemma_view_fields_index(fields@);
    }
    let ghost v = view_fields(fields@);
    let mut out = String::new();
    let len = fields.len();
    proof {
        if len == 0 {
            assert(out@ =~= single_line_fields(v, 0, colored));
        } else {
            assert(single_line_fields(v, 0, colored) =~= out@ + single_line_fields(v, 0, colored));
        }
    }
    let mut i: usize = 0;
    while i < len
        invariant
            i <= len,
            len == fields@.len(),
            v == view_fields(fields@),
            v.len() == len,
            forall|j: int| 0 <= j < len ==> v[j] == (
                fields@[j].name@,
                view_node(fields@[j].value),
            ),
            i < len ==> single_line_fields(v, 0, colored) == out@ + single_line_fields(
                v,
                i as int,
                colored,
            ),
            i >= len ==> out@ == single_line_fields(v, 0, colored),
        decreases len - i,
    {
        let ghost o = out@;
        out.append(fields[i].name.as_str());
        push_char(&mut out, ':');
        push_char(&mut out, ' ');
        let piece = single_line_of(&fields[i].value, colored);
        out.append(piece.as_str());
        if i + 1 < len {
            push_char(&mut out, ',');
            push_char(&mut out, ' ');
            proof {
                assert(out@ =~= o + (v[i as int].0 + seq![':', ' '] + single_line(
                    v[i as int].1,
                    colored,
                ) + seq![',', ' ']));
                assert(single_line_fields(v, 0, colored) =~= out@ + single_line_fields(
                    v,
                    i + 1,
                    colored,
                ));
            }
        } else {
            proof {
                assert(out@ =~= o + (v[i as int].0 + seq![':', ' '] + single_line(
                    v[i as int].1,
                    colored,
                )));
                assert(out@ =~= single_line_fields(v, 0, colored));
            }
        }
        i = i + 1;
    }
    out
}

/// Builds the single-line candidate of a row of map entries joined by a
/// space.
fn single_line_of_entries(entries: &Vec<MapEntry>, colored: bool) -> (s: String)
    ensures
        s@ == single_line_entries(view_entries(entries@), 0, colored),
    decreases entries,
{
    proof {
        lemma_view_entries_index(entries@);
    }
    let ghost v = view_entries(entries@);
    let mut out = String::new();
    let len = entries.len();
    proof {
        if len == 0 {
            assert(out@ =~= single_line_entries(v, 0, colored));
        } else {
            assert(single_line_entries(v, 0, colored) =~= out@ + single_line_entries(
                v,
                0,
                colored,
            ));
        }
    }
    let mut i: usize = 0;
    while i < len
        invariant
            i <= len,
            len == entries@.len(),
            v == view_entries(entries@),
            v.len() == len,
            forall|j: int| 0 <= j < len ==> v[j] == (
                view_node(entries@[j].key),
                view_node(entries@[j].value),
            ),
            i < len ==> single_line_entries(v, 0, colored) == out@ + single_line_entries(
                v,
                i as int,
                colored,
            ),
            i >= len ==> out@ == single_line_entries(v, 0, colored),
        decreases len - i,
    {
        let ghost o = out@;
        push_char(&mut out, '[');
        let kp = single_line_of(&entries[i].key, colored);
        out.append(kp.as_str());
        push_char(&mut out, ']');
        push_char(&mut out, ' ');
        push_char(&mut out, '=');
        push_char(&mut out, ' ');
        let vp = single_line_of(&entries[i].value, colored);
        out.append(vp.as_str());
        push_char(&mut out, ';');
        if i + 1 < len {
            push_char(&mut out, ' ');
            proof {
                assert(out@ =~= o + (seq!['['] + single_line(v[i as int].0, colored) + seq![
                    ']',
                    ' ',
                    '=',
                    ' ',
                ] + single_line(v[i as int].1, colored) + seq![';', ' ']));
                assert(single_line_entries(v, 0, colored) =~= out@ + single_line_entries(
                    v,
                    i + 1,
                    colored,
                ));
            }
        } else {
            proof {
                assert(out@ =~= o + (seq!['['] + single_line(v[i as int].0, colored) + seq![
                    ']',
                    ' ',
                    '=',
                    ' ',
                ] + single_line(v[i as int].1, colored) + seq![';']));
                assert(out@ =~= single_line_entries(v, 0, colored));
            }
        }
        i = i + 1;
    }
    out
}

/// Builds a node's single-line candidate.
fn single_line_of(n: &Node, colored: bool) -> (s: String)
    ensures
        s@ == single_line(view_node(*n), colored),
    decreases n,
{
    match n {
        Node::Atom { text } => {
            let mut out = String::new();
            append_atom_token(&mut out, text.as_str(), colored);
            proof {
                assert(out@ =~= single_line(view_node(*n), colored));
            }
            out
        },
        Node::Ident { name } => {
            let mut out = String::new();
            append_name_token(&mut out, name.as_str(), colored);
            proof {
                assert(out@ =~= single_line(view_node(*n), colored));
            }
            out
        },
        Node::Verbatim { text } => text.clone(),
        Node::NamedStruct { name, fields } => {
            proof {
                lemma_view_fields_index(fields@);
            }
            let mut out = String::new();
            append_name_token(&mut out, name.as_str(), colored);
            if fields.len() > 0 {
                push_char(&mut out, ' ');
                push_char(&mut out, '{');
                push_char(&mut out, ' ');
                let body = single_line_of_fields(fields, colored);
                out.append(body.as_str());
                push_char(&mut out, ' ');
                push_char(&mut out, '}');
            }
            proof {
                assert(out@ =~= single_line(view_node(*n), colored));
            }
            out
        },
        Node::Tuple { fields } => {
            let mut out = String::new();
            push_char(&mut out, '(');
            let body = single_line_of_items(fields, ',', colored);
            out.append(body.as_str());
            push_char(&mut out, ')');
            proof {
                assert(out@ =~= single_line(view_node(*n), colored));
            }
            out
        },
        Node::TupleStruct { name, fields } => {
            let mut out = String::new();
            append_name_token(&mut out, name.as_str(), colored);
            push_char(&mut out, '(');
            let body = single_line_of_items(fields, ',', colored);
            out.append(body.as_str());
            push_char(&mut out, ')');
            proof {
                assert(out@ =~= single_line(view_node(*n), colored));
            }
            out
        },
        Node::List { items } => {
            let mut out = String::new();
            push_char(&mut out, '[');
            let body = single_line_of_items(items, ',', colored);
            out.append(body.as_str());
            push_char(&mut out, ']');
            proof {
                assert(out@ =~= single_line(view_node(*n), colored));
            }
            out
        },
        Node::Dict { entries } => {
            let mut out = String::new();
            push_char(&mut out, '{');
            let body = single_line_of_entries(entries, colored);
            out.append(body.as_str());
            push_char(&mut out, '}');
            proof {
                assert(out@ =~= single_line(view_node(*n), colored));
            }
            out
        },
        Node::SetOf { items } => {
            let mut out = String::new();
            push_char(&mut out, '{');
            let body = single_line_of_items(items, ';', colored);
            out.append(body.as_str());
            push_char(&mut out, '}');
            proof {
                assert(out@ =~= single_line(view_node(*n), colored));
            }
            out
        },
    }
}

/// Decides whether some child at or after position `i` demands breaking.
fn any_forced_items(items: &Vec<Node>) -> (b: bool)
    ensures
        b == forced_items(view_nodes(items@), 0),
    decreases items,
{
    proof {
        lemma_view_nodes_index(items@);
    }
    let ghost v = view_nodes(items@);
    let len = items.len();
    let mut found = false;
    let mut i: usize = 0;
    while i < len
        invariant
            i <= len,
            len == items@.len(),
            v == view_nodes(items@),
            v.len() == len,
            forall|j: int| 0 <= j < len ==> v[j] == view_node(items@[j]),
            forced_items(v, 0) == (found || forced_items(v, i as int)),
        decreases len - i,
    {
        let f = is_forced(&items[i]);
        found = found || f;
        i = i + 1;
    }
    found
}

/// Decides whether some field value at or after position `i` demands
/// breaking.
fn any_forced_fields(fields: &Vec<Field>) -> (b: bool)
    ensures
        b == forced_fields(view_fields(fields@), 0),
    decreases fields,
{
    proof {
        lemma_view_fields_index(fields@);
    }
    let ghost v = view_fields(fields@);
    let len = fields.len();
    let mut found = false;
    let mut i: usize = 0;
    while i < len
        invariant
            i <= len,
            len == fields@.len(),
            v == view_fields(fields@),
            v.len() == len,
            forall|j: int| 0 <= j < len ==> v[j] == (
                fields@[j].name@,
                view_node(fields@[j].value),
            ),
            forced_fields(v, 0) == (found || forced_fields(v, i as int)),
        decreases len - i,
    {
        let f = is_forced(&fields[i].value);
        found = found || f;
        i = i + 1;
    }
    found
}

/// Decides whether a node demands the multi-line form no matter how much
/// room is left.
fn is_forced(n: &Node) -> (b: bool)
    ensures
        b == forced(view_node(*n)),
    decreases n,
{
    match n {
        Node::Atom { .. } => false,
        Node::Ident { .. } => false,
        Node::Verbatim { .. } => false,
        Node::NamedStruct { name, fields } => {
            proof {
                lemma_view_fields_index(fields@);
            }
            if fields.len() == 0 {
                false
            } else {
                let body = single_line_of_fields(fields, false);
                if body.as_str().unicode_len() > 30 {
                    true
                } else {
                    any_forced_fields(fields)
                }
            }
        },
        Node::Tuple { fields } => any_forced_items(fields),
        Node::TupleStruct { name, fields } => any_forced_items(fields),
        Node::List { items } => any_forced_items(items),
        Node::Dict { entries } => {
            proof {
                lemma_view_entries_index(entries@);
            }
            entries.len() > 0
        },
        Node::SetOf { items } => {
            proof {
                lemma_view_nodes_index(items@);
            }
            items.len() > 0
        },
    }
}

/// Builds the lines of a broken tuple, tuple struct or list.
fn ml_of_items(items: &Vec<Node>, pad: &String, colored: bool, depth: Ghost<nat>) -> (s: String)
    requires
        pad@ == spaces(4 * depth@),
    ensures
        s@ == multi_line_items(view_nodes(items@), 0, depth@, colored),
    decreases items,
{
    proof {
        lemma_view_nodes_index(items@);
    }
    let ghost v = view_nodes(items@);
    let base = pad.as_str().unicode_len();
    let c0 = col_add(base, 0);
    let mut out = String::new();
    let len = items.len();
    proof {
        if len == 0 {
            assert(out@ =~= multi_line_items(v, 0, depth@, colored));
        } else {
            assert(multi_line_items(v, 0, depth@, colored) =~= out@ + multi_line_items(
                v,
                0,
                depth@,
                colored,
            ));
        }
    }
    let mut i: usize = 0;
    while i < len
        invariant
            i <= len,
            len == items@.len(),
            v == view_nodes(items@),
            v.len() == len,
            forall|j: int| 0 <= j < len ==> v[j] == view_node(items@[j]),
            pad@ == spaces(4 * depth@),
            c0 as int == cap_col(4 * depth@),
            multi_line_items(v, 0, depth@, colored) == out@ + multi_line_items(
                v,
                i as int,
                depth@,
                colored,
            ),
        decreases len - i,
    {
        let ghost o = out@;
        out.append(pad.as_str());
        let piece = render_at(&items[i], pad, c0, colored, depth);
        out.append(piece.as_str());
        push_char(&mut out, ',');
        push_char(&mut out, '\n');
        proof {
            assert(out@ =~= o + (spaces(4 * depth@) + rendered(
                v[i as int],
                depth@,
                cap_col(4 * depth@),
                colored,
            ) + seq![',', '\n']));
            assert(multi_line_items(v, 0, depth@, colored) =~= out@ + multi_line_items(
                v,
                i + 1,
                depth@,
                colored,
            ));
        }
        i = i + 1;
    }
    proof {
        assert(out@ =~= multi_line_items(v, 0, depth@, colored));
    }
    out
}

/// Builds the lines of a broken named struct.
fn ml_of_fields(fields: &Vec<Field>, pad: &String, colored: bool, depth: Ghost<nat>) -> (s: String)
    requires
        pad@ == spaces(4 * depth@),
    ensures
        s@ == multi_line_fields(view_fields(fields@), 0, depth@, colored),
    decreases fields,
{
    proof {
        lemma_view_fields_index(fields@);
    }
    let ghost v = view_fields(fields@);
    let base = pad.as_str().unicode_len();
    let mut out = String::new();
    let len = fields.len();
    proof {
        if len == 0 {
            assert(out@ =~= multi_line_fields(v, 0, depth@, colored));
        } else {
            assert(multi_line_fields(v, 0, depth@, colored) =~= out@ + multi_line_fields(
                v,
                0,
                depth@,
                colored,
            ));
        }
    }
    let mut i: usize = 0;
    while i < len
        invariant
            i <= len,
            len == fields@.len(),
            v == view_fields(fields@),
            v.len() == len,
            forall|j: int| 0 <= j < len ==> v[j] == (
                fields@[j].name@,
                view_node(fields@[j].value),
            ),
            pad@ == spaces(4 * depth@),
            base == 4 * depth@,
            multi_line_fields(v, 0, depth@, colored) == out@ + multi_line_fields(
                v,
                i as int,
                depth@,
                colored,
            ),
        decreases len - i,
    {
        let ghost o = out@;
        out.append(pad.as_str());
        out.append(fields[i].name.as_str());
        push_char(&mut out, ':');
        push_char(&mut out, ' ');
        let c = col_add(col_add(base, fields[i].name.as_str().unicode_len()), 2);
        proof {
            assert(c as int == cap_col(4 * depth@ + v[i as int].0.len() + 2));
        }
        let piece = render_at(&fields[i].value, pad, c, colored, depth);
        out.append(piece.as_str());
        push_char(&mut out, ',');
        push_char(&mut out, '\n');
        proof {
            assert(out@ =~= o + (spaces(4 * depth@) + v[i as int].0 + seq![':', ' '] + rendered(
                v[i as int].1,
                depth@,
                cap_col(4 * depth@ + v[i as int].0.len() + 2),
                colored,
            ) + seq![',', '\n']));
            assert(multi_line_fields(v, 0, depth@, colored) =~= out@ + multi_line_fields(
                v,
                i + 1,
                depth@,
                colored,
            ));
        }
        i = i + 1;
    }
    proof {
        assert(out@ =~= multi_line_fields(v, 0, depth@, colored));
    }
    out
}

/// Builds the lines of a broken set: `;` after every item but the last.
fn ml_of_set(items: &Vec<Node>, pad: &String, colored: bool, depth: Ghost<nat>) -> (s: String)
    requires
        pad@ == spaces(4 * depth@),
    ensures
        s@ == multi_line_set_items(view_nodes(items@), 0, depth@, colored),
    decreases items,
{
    proof {
        lemma_view_nodes_index(items@);
    }
    let ghost v = view_nodes(items@);
    let base = pad.as_str().unicode_len();
    let c0 = col_add(base, 0);
    let mut out = String::new();
    let len = items.len();
    proof {
        if len == 0 {
            assert(out@ =~= multi_line_set_items(v, 0, depth@, colored));
        } else {
            assert(multi_line_set_items(v, 0, depth@, colored) =~= out@ + multi_line_set_items(
                v,
                0,
                depth@,
                colored,
            ));
        }
    }
    let mut i: usize = 0;
    while i < len
        invariant
            i <= len,
            len == items@.len(),
            v == view_nodes(items@),
            v.len() == len,
            forall|j: int| 0 <= j < len ==> v[j] == view_node(items@[j]),
            pad@ == spaces(4 * depth@),
            c0 as int == cap_col(4 * depth@),
            i < len ==> multi_line_set_items(v, 0, depth@, colored) == out@
                + multi_line_set_items(v, i as int, depth@, colored),
            i >= len ==> out@ == multi_line_set_items(v, 0, depth@, colored),
        decreases len - i,
    {
        let ghost o = out@;
        out.append(pad.as_str());
        let piece = render_at(&items[i], pad, c0, colored, depth);
        out.append(piece.as_str());
        if i + 1 < len {
            push_char(&mut out, ';');
            push_char(&mut out, '\n');
            proof {
                assert(out@ =~= o + (spaces(4 * depth@) + rendered(
                    v[i as int],
                    depth@,
                    cap_col(4 * depth@),
                    colored,
                ) + seq![';', '\n']));
                assert(multi_line_set_items(v, 0, depth@, colored) =~= out@
                    + multi_line_set_items(v, i + 1, depth@, colored));
            }
        } else {
            push_char(&mut out, '\n');
            proof {
                assert(out@ =~= o + (spaces(4 * depth@) + rendered(
                    v[i as int],
                    depth@,
                    cap_col(4 * depth@),
                    colored,
                ) + seq!['\n']));
                assert(out@ =~= multi_line_set_items(v, 0, depth@, colored));
            }
        }
        i = i + 1;
    }
    out
}

/// Builds the lines of a broken map: `[key] = value;` per entry, the
/// bracket itself broken around a key that demands it or does not fit.
#[verifier::rlimit(100)]
fn ml_of_entries(entries: &Vec<MapEntry>, pad: &String, colored: bool, depth: Ghost<nat>) -> (s:
    String)
    requires
        pad@ == spaces(4 * depth@),
    ensures
        s@ == multi_line_entries(view_entries(entries@), 0, depth@, colored),
    decreases entries,
{
    proof {
        lemma_view_entries_index(entries@);
    }
    let ghost v = view_entries(entries@);
    let base = pad.as_str().unicode_len();
    let c0 = col_add(base, 0);
    let padc = indent_one(pad);
    proof {
        lemma_spaces_add(4 * depth@, 4);
        assert(padc@ == spaces(4 * (depth@ + 1)));
    }
    let basec = padc.as_str().unicode_len();
    let cc0 = col_add(basec, 0);
    let mut out = String::new();
    let len = entries.len();
    proof {
        if len == 0 {
            assert(out@ =~= multi_line_entries(v, 0, depth@, colored));
        } else {
            assert(multi_line_entries(v, 0, depth@, colored) =~= out@ + multi_line_entries(
                v,
                0,
                depth@,
                colored,
            ));
        }
    }
    let mut i: usize = 0;
    while i < len
        invariant
            i <= len,
            len == entries@.len(),
            v == view_entries(entries@),
            v.len() == len,
            forall|j: int| 0 <= j < len ==> v[j] == (
                view_node(entries@[j].key),
                view_node(entries@[j].value),
            ),
            pad@ == spaces(4 * depth@),
            padc@ == spaces(4 * (depth@ + 1)),
            c0 as int == cap_col(4 * depth@),
            cc0 as int == cap_col(4 * (depth@ + 1)),
            multi_line_entries(v, 0, depth@, colored) == out@ + multi_line_entries(
                v,
                i as int,
                depth@,
                colored,
            ),
        decreases len - i,
    {
        let ghost o = out@;
        let ghost k = v[i as int].0;
        out.append(pad.as_str());
        let kplain = single_line_of(&entries[i].key, false);
        let kw = kplain.as_str().unicode_len();
        let kf = is_forced(&entries[i].key);
        let vcol: usize;
        if !kf && col_add(col_add(c0, 2), kw) <= 80 {
            proof {
                assert(cap_col(4 * depth@) + 2 + single_line(k, false).len() <= line_width());
            }
            push_char(&mut out, '[');
            let kp = single_line_of(&entries[i].key, colored);
            out.append(kp.as_str());
            push_char(&mut out, ']');
            vcol = col_add(col_add(c0, kw), 5);
            proof {
                assert(vcol as int == entry_value_col(k, depth@));
                assert(out@ =~= o + spaces(4 * depth@) + entry_key(k, depth@, colored));
            }
        } else {
            proof {
                assert(!(!forced(k) && cap_col(4 * depth@) + 2 + single_line(k, false).len()
                    <= line_width()));
            }
            push_char(&mut out, '[');
            push_char(&mut out, '\n');
            out.append(padc.as_str());
            let kr = render_at(&entries[i].key, &padc, cc0, colored, Ghost(depth@ + 1));
            out.append(kr.as_str());
            push_char(&mut out, ',');
            push_char(&mut out, '\n');
            out.append(pad.as_str());
            push_char(&mut out, ']');
            vcol = col_add(c0, 4);
            proof {
                assert(vcol as int == entry_value_col(k, depth@));
                assert(out@ =~= o + spaces(4 * depth@) + entry_key(k, depth@, colored));
            }
        }
        push_char(&mut out, ' ');
        push_char(&mut out, '=');
        push_char(&mut out, ' ');
        let vr = render_at(&entries[i].value, pad, vcol, colored, depth);
        out.append(vr.as_str());
        push_char(&mut out, ';');
        push_char(&mut out, '\n');
        proof {
            assert(out@ =~= o + (spaces(4 * depth@) + entry_key(k, depth@, colored) + seq![
                ' ',
                '=',
                ' ',
            ] + rendered(v[i as int].1, depth@, entry_value_col(k, depth@), colored) + seq![
                ';',
                '\n',
            ]));
            assert(multi_line_entries(v, 0, depth@, colored) =~= out@ + multi_line_entries(
                v,
                i + 1,
                depth@,
                colored,
            ));
        }
        i = i + 1;
    }
    proof {
        assert(out@ =~= multi_line_entries(v, 0, depth@, colored));
    }
    out
}

/// Renders a node standing at column `col` on a line indented `depth`
/// levels; `pad` is that indentation as text.
pub(crate) fn render_at(n: &Node, pad: &String, col: usize, colored: bool, depth: Ghost<nat>) -> (s:
    String)
    requires
        pad@ == spaces(4 * depth@),
    ensures
        s@ == rendered(view_node(*n), depth@, col as int, colored),
    decreases n,
{
    let cc: usize = match n {
        Node::Atom { .. } => 0,
        Node::Ident { .. } => 0,
        Node::Verbatim { .. } => 0,
        Node::NamedStruct { fields, .. } => {
            proof {
                lemma_view_fields_index(fields@);
            }
            fields.len()
        },
        Node::Tuple { fields } => {
            proof {
                lemma_view_nodes_index(fields@);
            }
            fields.len()
        },
        Node::TupleStruct { fields, .. } => {
            proof {
                lemma_view_nodes_index(fields@);
            }
            fields.len()
        },
        Node::List { items } => {
            proof {
                lemma_view_nodes_index(items@);
            }
            items.len()
        },
        Node::Dict { entries } => {
            proof {
                lemma_view_entries_index(entries@);
            }
            entries.len()
        },
        Node::SetOf { items } => {
            proof {
                lemma_view_nodes_index(items@);
            }
            items.len()
        },
    };
    proof {
        assert(cc == child_count(view_node(*n)));
    }
    if cc == 0 {
        return single_line_of(n, colored);
    }
    let plain = single_line_of(n, false);
    let w = plain.as_str().unicode_len();
    let f = is_forced(n);
    if !f && col_add(col, w) <= 80 {
        proof {
            assert(col as int + single_line(view_node(*n), false).len() <= line_width());
        }
        if colored {
            return single_line_of(n, true);
        } else {
            return plain;
        }
    }
    proof {
        assert(rendered(view_node(*n), depth@, col as int, colored) == multi_line(
            view_node(*n),
            depth@,
            colored,
        ));
    }
    let padc = indent_one(pad);
    proof {
        lemma_spaces_add(4 * depth@, 4);
        assert(padc@ == spaces(4 * (depth@ + 1)));
    }
    let mut out = String::new();
    match n {
        Node::Atom { text } => {
            append_atom_token(&mut out, text.as_str(), colored);
        },
        Node::Ident { name } => {
            append_name_token(&mut out, name.as_str(), colored);
        },
        Node::Verbatim { text } => {
            out.append(text.as_str());
        },
        Node::NamedStruct { name, fields } => {
            append_name_token(&mut out, name.as_str(), colored);
            push_char(&mut out, ' ');
            push_char(&mut out, '{');
            push_char(&mut out, '\n');
            let block = ml_of_fields(fields, &padc, colored, Ghost(depth@ + 1));
            out.append(block.as_str());
            out.append(pad.as_str());
            push_char(&mut out, '}');
        },
        Node::Tuple { fields } => {
            push_char(&mut out, '(');
            push_char(&mut out, '\n');
            let block = ml_of_items(fields, &padc, colored, Ghost(depth@ + 1));
            out.append(block.as_str());
            out.append(pad.as_str());
            push_char(&mut out, ')');
        },
        Node::TupleStruct { name, fields } => {
            append_name_token(&mut out, name.as_str(), colored);
            push_char(&mut out, '(');
            push_char(&mut out, '\n');
            let block = ml_of_items(fields, &padc, colored, Ghost(depth@ + 1));
            out.append(block.as_str());
            out.append(pad.as_str());
            push_char(&mut out, ')');
        },
        Node::List { items } => {
            push_char(&mut out, '[');
            push_char(&mut out, '\n');
            let block = ml_of_items(items, &padc, colored, Ghost(depth@ + 1));
            out.append(block.as_str());
            out.append(pad.as_str());
            push_char(&mut out, ']');
        },
        Node::Dict { entries } => {
            push_char(&mut out, '{');
            push_char(&mut out, '\n');
            let block = ml_of_entries(entries, &padc, colored, Ghost(depth@ + 1));
            out.append(block.as_str());
            out.append(pad.as_str());
            push_char(&mut out, '}');
        },
        Node::SetOf { items } => {
            push_char(&mut out, '{');
            push_char(&mut out, '\n');
            let block = ml_of_set(items, &padc, colored, Ghost(depth@ + 1));
            out.append(block.as_str());
            out.append(pad.as_str());
            push_char(&mut out, '}');
        },
    }
    proof {
        assert(out@ =~= multi_line(view_node(*n), depth@, colored));
    }
    out
}

} // verus!
