//! The laws of the layout engine, stated and proved once over the
//! mathematical model: what every rendering satisfies.

use vstd::prelude::*;

use crate::node::Tree;
use crate::render::atom_mark;
use crate::render::cap_col;
use crate::render::mark_name;
use crate::render::mark_num;
use crate::render::mark_reset;
use crate::render::mark_str;
use crate::render::single_line_entries;
use crate::render::single_line_items;
use crate::render::wrap;
use crate::render::child_count;
use crate::render::forced;
use crate::render::line_width;
use crate::render::multi_line;
use crate::render::multi_line_entries;
use crate::render::multi_line_fields;
use crate::render::multi_line_items;
use crate::render::multi_line_set_items;
use crate::render::rendered;
use crate::render::single_line;
use crate::render::single_line_fields;
use crate::render::struct_width;
use crate::render::entry_key;
use crate::render::entry_value_col;
use crate::text::spaces;

verus! {

/// Width threshold: an unforced composite node standing at column `col` is
/// emitted as its single-line candidate exactly when the candidate's plain
/// width, measured from that column, stays within the 80-column budget; one
/// column over forces the full multi-line form.
pub proof fn lemma_width_threshold(t: Tree, depth: nat, col: int, colored: bool)
    requires
        child_count(t) > 0,
        !forced(t),
    ensures
        col + single_line(t, false).len() <= line_width() ==> rendered(t, depth, col, colored)
            == single_line(t, colored),
        col + single_line(t, false).len() > line_width() ==> rendered(t, depth, col, colored)
            == multi_line(t, depth, colored),
{
}

/// Determinism: the rendering of a tree is a function of the tree and its
/// position alone, so rendering the same tree twice yields identical text.
pub proof fn lemma_render_deterministic(
    t: Tree,
    depth: nat,
    col: int,
    colored: bool,
    s1: Seq<char>,
    s2: Seq<char>,
)
    requires
        s1 == rendered(t, depth, col, colored),
        s2 == rendered(t, depth, col, colored),
    ensures
        s1 == s2,
{
}

/// Order preservation and trailing punctuation for broken tuples, tuple
/// structs and lists: the block of lines from position `i` on starts with
/// exactly the `i`-th child's rendering on its own indented line, closed by
/// `,` — after every child, the last included.
pub proof fn lemma_multi_line_items_shape(ts: Seq<Tree>, i: int, depth: nat, colored: bool)
    requires
        0 <= i < ts.len(),
    ensures
        multi_line_items(ts, i, depth, colored) == spaces(4 * depth) + rendered(
            ts[i],
            depth,
            cap_col(4 * depth),
            colored,
        ) + seq![',', '\n'] + multi_line_items(ts, i + 1, depth, colored),
{
}

/// Order preservation and trailing punctuation for broken named structs:
/// the block of lines from position `i` on starts with exactly the `i`-th
/// field, `name: value`, closed by `,` — after every field, the last
/// included.
pub proof fn lemma_multi_line_fields_shape(
    fs: Seq<(Seq<char>, Tree)>,
    i: int,
    depth: nat,
    colored: bool,
)
    requires
        0 <= i < fs.len(),
    ensures
        multi_line_fields(fs, i, depth, colored) == spaces(4 * depth) + fs[i].0 + seq![':', ' ']
            + rendered(fs[i].1, depth, cap_col(4 * depth + fs[i].0.len() + 2), colored) + seq![
            ',',
            '\n',
        ] + multi_line_fields(fs, i + 1, depth, colored),
{
}

/// Order preservation and trailing punctuation for broken maps: the block
/// of lines from position `i` on starts with exactly the `i`-th entry,
/// `[key] = value`, closed by `;` — after every entry, the last included.
pub proof fn lemma_multi_line_entries_shape(
    es: Seq<(Tree, Tree)>,
    i: int,
    depth: nat,
    colored: bool,
)
    requires
        0 <= i < es.len(),
    ensures
        multi_line_entries(es, i, depth, colored) == spaces(4 * depth) + entry_key(
            es[i].0,
            depth,
            colored,
        ) + seq![' ', '=', ' '] + rendered(es[i].1, depth, entry_value_col(es[i].0, depth), colored)
            + seq![';', '\n'] + multi_line_entries(es, i + 1, depth, colored),
{
}

/// Trailing punctuation for broken sets: every item's line is closed by
/// `;` except the last, which ends bare — the one shape that omits the
/// separator after its final child.
pub proof fn lemma_multi_line_set_shape(ts: Seq<Tree>, i: int, depth: nat, colored: bool)
    requires
        0 <= i < ts.len(),
    ensures
        i == ts.len() - 1 ==> multi_line_set_items(ts, i, depth, colored) == spaces(4 * depth)
            + rendered(ts[i], depth, cap_col(4 * depth), colored) + seq!['\n'],
        i < ts.len() - 1 ==> multi_line_set_items(ts, i, depth, colored) == spaces(4 * depth)
            + rendered(ts[i], depth, cap_col(4 * depth), colored) + seq![';', '\n']
            + multi_line_set_items(ts, i + 1, depth, colored),
{
}

/// Recursive width propagation, first half: a named struct whose
/// single-line body is wider than the struct budget demands the multi-line
/// form at any column, however much room is left there.
pub proof fn lemma_wide_struct_forced(
    name: Seq<char>,
    fields: Seq<(Seq<char>, Tree)>,
    depth: nat,
    col: int,
    colored: bool,
)
    requires
        fields.len() > 0,
        4 + single_line_fields(fields, 0, false).len() > struct_width(),
    ensures
        forced(Tree::NamedStruct { name, fields }),
        rendered(Tree::NamedStruct { name, fields }, depth, col, colored) == multi_line(
            Tree::NamedStruct { name, fields },
            depth,
            colored,
        ),
{
}

/// Recursive width propagation, second half: inside a broken parent, a
/// sibling that demands nothing itself and fits at its indented column
/// still renders on a single line; a broken child does not drag its
/// siblings along.
pub proof fn lemma_fitting_sibling_single_line(ts: Seq<Tree>, i: int, depth: nat, colored: bool)
    requires
        0 <= i < ts.len(),
        !forced(ts[i]),
        cap_col(4 * depth) + single_line(ts[i], false).len() <= line_width(),
    ensures
        rendered(ts[i], depth, cap_col(4 * depth), colored) == single_line(ts[i], colored),
{
}

/// A parent whose candidate fits the budget is still broken when some child
/// demands breaking: being forced propagates upward.
pub proof fn lemma_forced_child_breaks_parent(t: Tree, depth: nat, col: int, colored: bool)
    requires
        child_count(t) > 0,
        forced(t),
    ensures
        rendered(t, depth, col, colored) == multi_line(t, depth, colored),
{
}

/// Text that carries the escape character of a highlight marker nowhere;
/// stripping leaves such text untouched.
pub open spec fn mark_free(s: Seq<char>) -> bool {
    forall|i: int| 0 <= i < s.len() ==> s[i] != '\u{1b}'
}

/// `s` with every highlight marker removed: a marker runs from its escape
/// character through the next `m`. `in_mark` tells whether the text starts
/// inside such a marker.
pub open spec fn strip_from(s: Seq<char>, in_mark: bool) -> Seq<char>
    decreases s.len(),
{
    if s.len() == 0 {
        Seq::empty()
    } else if in_mark {
        strip_from(s.skip(1), s[0] != 'm')
    } else if s[0] == '\u{1b}' {
        strip_from(s.skip(1), true)
    } else {
        seq![s[0]] + strip_from(s.skip(1), false)
    }
}

/// `s` with every highlight marker removed.
pub open spec fn strip_marks(s: Seq<char>) -> Seq<char> {
    strip_from(s, false)
}

/// Whether every text in the trees from position `i` on is marker-free.
pub open spec fn items_mark_free(ts: Seq<Tree>, i: int) -> bool
    decreases ts, ts.len() - i,
{
    if i < 0 || i >= ts.len() {
        true
    } else {
        tree_mark_free(ts[i]) && items_mark_free(ts, i + 1)
    }
}

/// Whether every text in the fields from position `i` on is marker-free.
pub open spec fn fields_mark_free(fs: Seq<(Seq<char>, Tree)>, i: int) -> bool
    decreases fs, fs.len() - i,
{
    if i < 0 || i >= fs.len() {
        true
    } else {
        mark_free(fs[i].0) && tree_mark_free(fs[i].1) && fields_mark_free(fs, i + 1)
    }
}

/// Whether every text in the entries from position `i` on is marker-free.
pub open spec fn entries_mark_free(es: Seq<(Tree, Tree)>, i: int) -> bool
    decreases es, es.len() - i,
{
    if i < 0 || i >= es.len() {
        true
    } else {
        tree_mark_free(es[i].0) && tree_mark_free(es[i].1) && entries_mark_free(es, i + 1)
    }
}

/// Whether every text a tree holds — atom texts, names, field names,
/// verbatim text — is marker-free. Stripping a colored rendering recovers
/// the plain one only for such trees: a text containing the escape
/// character itself would lose characters to stripping.
pub open spec fn tree_mark_free(t: Tree) -> bool
    decreases t, 0int,
{
    match t {
        Tree::Atom { text } => mark_free(text),
        Tree::Ident { name } => mark_free(name),
        Tree::Verbatim { text } => mark_free(text),
        Tree::NamedStruct { name, fields } => mark_free(name) && fields_mark_free(fields, 0),
        Tree::Tuple { fields } => items_mark_free(fields, 0),
        Tree::TupleStruct { name, fields } => mark_free(name) && items_mark_free(fields, 0),
        Tree::List { items } => items_mark_free(items, 0),
        Tree::Dict { entries } => entries_mark_free(entries, 0),
        Tree::SetOf { items } => items_mark_free(items, 0),
    }
}

/// Marker-free text passes through stripping untouched.
proof fn lemma_strip_text(t: Seq<char>, rest: Seq<char>)
    requires
        mark_free(t),
    ensures
        strip_from(t + rest, false) == t + strip_from(rest, false),
    decreases t.len(),
{
    if t.len() == 0 {
        assert(t + rest =~= rest);
        assert(t + strip_from(rest, false) =~= strip_from(rest, false));
    } else {
        let s = t + rest;
        assert(s[0] == t[0]);
        assert(s.skip(1) =~= t.skip(1) + rest);
        assert(mark_free(t.skip(1)));
        lemma_strip_text(t.skip(1), rest);
        assert(strip_from(t + rest, false) =~= t + strip_from(rest, false));
    }
}

/// Inside a marker, everything through the closing `m` is dropped.
proof fn lemma_strip_in_mark(m: Seq<char>, rest: Seq<char>)
    requires
        m.len() >= 1,
        m[m.len() - 1] == 'm',
        forall|i: int| 0 <= i < m.len() - 1 ==> m[i] != 'm',
    ensures
        strip_from(m + rest, true) == strip_from(rest, false),
    decreases m.len(),
{
    let s = m + rest;
    assert(s[0] == m[0]);
    assert(s.skip(1) =~= m.skip(1) + rest);
    if m.len() == 1 {
        assert(m[0] == 'm');
        assert(s.skip(1) =~= rest);
    } else {
        assert(m[0] != 'm');
        assert(m.skip(1)[m.skip(1).len() - 1] == 'm');
        assert(forall|i: int| 0 <= i < m.skip(1).len() - 1 ==> m.skip(1)[i] != 'm');
        lemma_strip_in_mark(m.skip(1), rest);
    }
}

/// A whole marker is dropped by stripping.
proof fn lemma_strip_mark(m: Seq<char>, rest: Seq<char>)
    requires
        m.len() >= 2,
        m[0] == '\u{1b}',
        m[m.len() - 1] == 'm',
        forall|i: int| 1 <= i < m.len() - 1 ==> m[i] != 'm',
    ensures
        strip_from(m + rest, false) == strip_from(rest, false),
{
    let s = m + rest;
    assert(s[0] == '\u{1b}');
    assert(s.skip(1) =~= m.skip(1) + rest);
    assert(m.skip(1)[m.skip(1).len() - 1] == 'm');
    assert(forall|i: int| 0 <= i < m.skip(1).len() - 1 ==> m.skip(1)[i] != 'm');
    lemma_strip_in_mark(m.skip(1), rest);
}

/// Every highlight marker of the renderer has the dropped shape: it opens
/// with the escape character and closes with its first `m`.
proof fn lemma_marker_ok(m: Seq<char>)
    requires
        m == mark_name() || m == mark_str() || m == mark_num() || m == mark_reset(),
    ensures
        m.len() >= 2,
        m[0] == '\u{1b}',
        m[m.len() - 1] == 'm',
        forall|i: int| 1 <= i < m.len() - 1 ==> m[i] != 'm',
{
    if m == mark_name() {
        assert(forall|i: int| 1 <= i < m.len() - 1 ==> m[i] != 'm');
    } else if m == mark_str() {
        assert(forall|i: int| 1 <= i < m.len() - 1 ==> m[i] != 'm');
    } else if m == mark_num() {
        assert(forall|i: int| 1 <= i < m.len() - 1 ==> m[i] != 'm');
    } else {
        assert(forall|i: int| 1 <= i < m.len() - 1 ==> m[i] != 'm');
    }
}

/// Stripping a wrapped token recovers the bare token, whether or not the
/// wrapping was applied.
proof fn lemma_strip_wrap(m: Seq<char>, text: Seq<char>, colored: bool, rest: Seq<char>)
    requires
        mark_free(text),
        m == mark_name() || m == mark_str() || m == mark_num(),
    ensures
        strip_from(wrap(m, text, colored) + rest, false) == text + strip_from(rest, false),
{
    if colored {
        lemma_marker_ok(m);
        lemma_marker_ok(mark_reset());
        assert(wrap(m, text, colored) + rest =~= m + (text + (mark_reset() + rest)));
        lemma_strip_mark(m, text + (mark_reset() + rest));
        lemma_strip_text(text, mark_reset() + rest);
        lemma_strip_mark(mark_reset(), rest);
    } else {
        lemma_strip_text(text, rest);
    }
}

/// A run of spaces is marker-free.
proof fn lemma_spaces_mark_free(n: nat)
    ensures
        mark_free(spaces(n)),
    decreases n,
{
    broadcast use crate::text::lemma_spaces_len;

    if n > 0 {
        lemma_spaces_mark_free((n - 1) as nat);
        assert(forall|i: int| 0 <= i < spaces(n).len() ==> spaces(n)[i] != '\u{1b}');
    }
}

/// Stripping the colored single-line candidate of a tree recovers the plain
/// one, with any continuation.
#[verifier::rlimit(100)]
#[verifier::spinoff_prover]
proof fn lemma_strip_single(t: Tree, colored: bool, rest: Seq<char>)
    requires
        tree_mark_free(t),
    ensures
        strip_from(single_line(t, colored) + rest, false) == single_line(t, false) + strip_from(
            rest,
            false,
        ),
    decreases t, 0int,
{
    match t {
        Tree::Atom { text } => {
            lemma_strip_wrap(atom_mark(text), text, colored, rest);
        },
        Tree::Ident { name } => {
            lemma_strip_wrap(mark_name(), name, colored, rest);
        },
        Tree::Verbatim { text } => {
            lemma_strip_text(text, rest);
        },
        Tree::NamedStruct { name, fields } => {
            if fields.len() == 0 {
                lemma_strip_wrap(mark_name(), name, colored, rest);
            } else {
                let a = seq![' ', '{', ' '];
                let b = seq![' ', '}'];
                assert(mark_free(a));
                assert(mark_free(b));
                let inner = single_line_fields(fields, 0, colored);
                assert(single_line(t, colored) + rest =~= wrap(mark_name(), name, colored) + (a
                    + (inner + (b + rest))));
                lemma_strip_wrap(mark_name(), name, colored, a + (inner + (b + rest)));
                lemma_strip_text(a, inner + (b + rest));
                lemma_strip_sl_fields(fields, 0, colored, b + rest);
                lemma_strip_text(b, rest);
                assert(single_line(t, false) + strip_from(rest, false) =~= name + (a + (
                single_line_fields(fields, 0, false) + (b + strip_from(rest, false)))));
            }
        },
        Tree::Tuple { fields } => {
            let a = seq!['('];
            let b = seq![')'];
            assert(mark_free(a));
            assert(mark_free(b));
            let sep = seq![',', ' '];
            assert(mark_free(sep));
            let inner = single_line_items(fields, 0, sep, colored);
            assert(single_line(t, colored) + rest =~= a + (inner + (b + rest)));
            lemma_strip_text(a, inner + (b + rest));
            lemma_strip_sl_items(fields, 0, sep, colored, b + rest);
            lemma_strip_text(b, rest);
            assert(single_line(t, false) + strip_from(rest, false) =~= a + (single_line_items(
                fields,
                0,
                sep,
                false,
            ) + (b + strip_from(rest, false))));
        },
        Tree::TupleStruct { name, fields } => {
            let a = seq!['('];
            let b = seq![')'];
            assert(mark_free(a));
            assert(mark_free(b));
            let sep = seq![',', ' '];
            assert(mark_free(sep));
            let inner = single_line_items(fields, 0, sep, colored);
            assert(single_line(t, colored) + rest =~= wrap(mark_name(), name, colored) + (a + (
            inner + (b + rest))));
            lemma_strip_wrap(mark_name(), name, colored, a + (inner + (b + rest)));
            lemma_strip_text(a, inner + (b + rest));
            lemma_strip_sl_items(fields, 0, sep, colored, b + rest);
            lemma_strip_text(b, rest);
            assert(single_line(t, false) + strip_from(rest, false) =~= name + (a + (
            single_line_items(fields, 0, sep, false) + (b + strip_from(rest, false)))));
        },
        Tree::List { items } => {
            let a = seq!['['];
            let b = seq![']'];
            assert(mark_free(a));
            assert(mark_free(b));
            let sep = seq![',', ' '];
            assert(mark_free(sep));
            let inner = single_line_items(items, 0, sep, colored);
            assert(single_line(t, colored) + rest =~= a + (inner + (b + rest)));
            lemma_strip_text(a, inner + (b + rest));
            lemma_strip_sl_items(items, 0, sep, colored, b + rest);
            lemma_strip_text(b, rest);
            assert(single_line(t, false) + strip_from(rest, false) =~= a + (single_line_items(
                items,
                0,
                sep,
                false,
            ) + (b + strip_from(rest, false))));
        },
        Tree::Dict { entries } => {
            let a = seq!['{'];
            let b = seq!['}'];
            assert(mark_free(a));
            assert(mark_free(b));
            let inner = single_line_entries(entries, 0, colored);
            assert(single_line(t, colored) + rest =~= a + (inner + (b + rest)));
            lemma_strip_text(a, inner + (b + rest));
            lemma_strip_sl_entries(entries, 0, colored, b + rest);
            lemma_strip_text(b, rest);
            assert(single_line(t, false) + strip_from(rest, false) =~= a + (single_line_entries(
                entries,
                0,
                false,
            ) + (b + strip_from(rest, false))));
        },
        Tree::SetOf { items } => {
            let a = seq!['{'];
            let b = seq!['}'];
            assert(mark_free(a));
            assert(mark_free(b));
            let sep = seq![';', ' '];
            assert(mark_free(sep));
            let inner = single_line_items(items, 0, sep, colored);
            assert(single_line(t, colored) + rest =~= a + (inner + (b + rest)));
            lemma_strip_text(a, inner + (b + rest));
            lemma_strip_sl_items(items, 0, sep, colored, b + rest);
            lemma_strip_text(b, rest);
            assert(single_line(t, false) + strip_from(rest, false) =~= a + (single_line_items(
                items,
                0,
                sep,
                false,
            ) + (b + strip_from(rest, false))));
        },
    }
}

/// Stripping the colored single-line row of children recovers the plain
/// one, with any continuation.
proof fn lemma_strip_sl_items(ts: Seq<Tree>, i: int, sep: Seq<char>, colored: bool, rest: Seq<char>)
    requires
        items_mark_free(ts, i),
        mark_free(sep),
    ensures
        strip_from(single_line_items(ts, i, sep, colored) + rest, false) == single_line_items(
            ts,
            i,
            sep,
            false,
        ) + strip_from(rest, false),
    decreases ts, ts.len() - i,
{
    if i < 0 || i >= ts.len() {
        assert(single_line_items(ts, i, sep, colored) + rest =~= rest);
        assert(single_line_items(ts, i, sep, false) + strip_from(rest, false) =~= strip_from(
            rest,
            false,
        ));
    } else if i == ts.len() - 1 {
        lemma_strip_single(ts[i], colored, rest);
    } else {
        let tail = single_line_items(ts, i + 1, sep, colored);
        assert(single_line_items(ts, i, sep, colored) + rest =~= single_line(ts[i], colored) + (sep
            + (tail + rest)));
        lemma_strip_single(ts[i], colored, sep + (tail + rest));
        lemma_strip_text(sep, tail + rest);
        lemma_strip_sl_items(ts, i + 1, sep, colored, rest);
        assert(single_line_items(ts, i, sep, false) + strip_from(rest, false) =~= single_line(
            ts[i],
            false,
        ) + (sep + (single_line_items(ts, i + 1, sep, false) + strip_from(rest, false))));
    }
}

/// Stripping the colored single-line row of fields recovers the plain one,
/// with any continuation.
proof fn lemma_strip_sl_fields(
    fs: Seq<(Seq<char>, Tree)>,
    i: int,
    colored: bool,
    rest: Seq<char>,
)
    requires
        fields_mark_free(fs, i),
    ensures
        strip_from(single_line_fields(fs, i, colored) + rest, false) == single_line_fields(
            fs,
            i,
            false,
        ) + strip_from(rest, false),
    decreases fs, fs.len() - i,
{
    if i < 0 || i >= fs.len() {
        assert(single_line_fields(fs, i, colored) + rest =~= rest);
        assert(single_line_fields(fs, i, false) + strip_from(rest, false) =~= strip_from(
            rest,
            false,
        ));
    } else {
        let a = seq![':', ' '];
        assert(mark_free(a));
        if i == fs.len() - 1 {
            assert(single_line_fields(fs, i, colored) + rest =~= fs[i].0 + (a + (single_line(
                fs[i].1,
                colored,
            ) + rest)));
            lemma_strip_text(fs[i].0, a + (single_line(fs[i].1, colored) + rest));
            lemma_strip_text(a, single_line(fs[i].1, colored) + rest);
            lemma_strip_single(fs[i].1, colored, rest);
            assert(single_line_fields(fs, i, false) + strip_from(rest, false) =~= fs[i].0 + (a + (
            single_line(fs[i].1, false) + strip_from(rest, false))));
        } else {
            let sep = seq![',', ' '];
            assert(mark_free(sep));
            let tail = single_line_fields(fs, i + 1, colored);
            assert(single_line_fields(fs, i, colored) + rest =~= fs[i].0 + (a + (single_line(
                fs[i].1,
                colored,
            ) + (sep + (tail + rest)))));
            lemma_strip_text(fs[i].0, a + (single_line(fs[i].1, colored) + (sep + (tail + rest))));
            lemma_strip_text(a, single_line(fs[i].1, colored) + (sep + (tail + rest)));
            lemma_strip_single(fs[i].1, colored, sep + (tail + rest));
            lemma_strip_text(sep, tail + rest);
            lemma_strip_sl_fields(fs, i + 1, colored, rest);
            assert(single_line_fields(fs, i, false) + strip_from(rest, false) =~= fs[i].0 + (a + (
            single_line(fs[i].1, false) + (sep + (single_line_fields(fs, i + 1, false)
                + strip_from(rest, false))))));
        }
    }
}

/// Stripping the colored single-line row of map entries recovers the plain
/// one, with any continuation.
#[verifier::rlimit(100)]
#[verifier::spinoff_prover]
proof fn lemma_strip_sl_entries(es: Seq<(Tree, Tree)>, i: int, colored: bool, rest: Seq<char>)
    requires
        entries_mark_free(es, i),
    ensures
        strip_from(single_line_entries(es, i, colored) + rest, false) == single_line_entries(
            es,
            i,
            false,
        ) + strip_from(rest, false),
    decreases es, es.len() - i,
{
    if i < 0 || i >= es.len() {
        assert(single_line_entries(es, i, colored) + rest =~= rest);
        assert(single_line_entries(es, i, false) + strip_from(rest, false) =~= strip_from(
            rest,
            false,
        ));
    } else {
        let a = seq!['['];
        let b = seq![']', ' ', '=', ' '];
        assert(mark_free(a));
        assert(mark_free(b));
        if i == es.len() - 1 {
            let c = seq![';'];
            assert(mark_free(c));
            assert(single_line_entries(es, i, colored) + rest =~= a + (single_line(
                es[i].0,
                colored,
            ) + (b + (single_line(es[i].1, colored) + (c + rest)))));
            lemma_strip_text(
                a,
                single_line(es[i].0, colored) + (b + (single_line(es[i].1, colored) + (c + rest))),
            );
            lemma_strip_single(es[i].0, colored, b + (single_line(es[i].1, colored) + (c + rest)));
            lemma_strip_text(b, single_line(es[i].1, colored) + (c + rest));
            lemma_strip_single(es[i].1, colored, c + rest);
            lemma_strip_text(c, rest);
            assert(single_line_entries(es, i, false) + strip_from(rest, false) =~= a + (
            single_line(es[i].0, false) + (b + (single_line(es[i].1, false) + (c + strip_from(
                rest,
                false,
            ))))));
        } else {
            let c = seq![';', ' '];
            assert(mark_free(c));
            let tail = single_line_entries(es, i + 1, colored);
            assert(single_line_entries(es, i, colored) + rest =~= a + (single_line(
                es[i].0,
                colored,
            ) + (b + (single_line(es[i].1, colored) + (c + (tail + rest))))));
            lemma_strip_text(
                a,
                single_line(es[i].0, colored) + (b + (single_line(es[i].1, colored) + (c + (tail
                    + rest)))),
            );
            lemma_strip_single(
                es[i].0,
                colored,
                b + (single_line(es[i].1, colored) + (c + (tail + rest))),
            );
            lemma_strip_text(b, single_line(es[i].1, colored) + (c + (tail + rest)));
            lemma_strip_single(es[i].1, colored, c + (tail + rest));
            lemma_strip_text(c, tail + rest);
            lemma_strip_sl_entries(es, i + 1, colored, rest);
            assert(single_line_entries(es, i, false) + strip_from(rest, false) =~= a + (
            single_line(es[i].0, false) + (b + (single_line(es[i].1, false) + (c + (
            single_line_entries(es, i + 1, false) + strip_from(rest, false)))))));
        }
    }
}

/// Stripping the colored bracketed key of a broken map entry recovers the
/// plain one, with any continuation; both sides break the bracket under the
/// same condition, which is measured on the plain candidate.
#[verifier::rlimit(100)]
#[verifier::spinoff_prover]
proof fn lemma_strip_entry_key(k: Tree, depth: nat, colored: bool, rest: Seq<char>)
    requires
        tree_mark_free(k),
    ensures
        strip_from(entry_key(k, depth, colored) + rest, false) == entry_key(k, depth, false)
            + strip_from(rest, false),
    decreases k, 3int,
{
    let a = seq!['['];
    assert(mark_free(a));
    if !forced(k) && cap_col(4 * depth) + 2 + single_line(k, false).len() <= line_width() {
        let b = seq![']'];
        assert(mark_free(b));
        assert(entry_key(k, depth, colored) + rest =~= a + (single_line(k, colored) + (b + rest)));
        lemma_strip_text(a, single_line(k, colored) + (b + rest));
        lemma_strip_single(k, colored, b + rest);
        lemma_strip_text(b, rest);
        assert(entry_key(k, depth, false) + strip_from(rest, false) =~= a + (single_line(k, false)
            + (b + strip_from(rest, false))));
    } else {
        let a2 = seq!['[', '\n'];
        assert(mark_free(a2));
        let mid = seq![',', '\n'];
        assert(mark_free(mid));
        let b = seq![']'];
        assert(mark_free(b));
        lemma_spaces_mark_free(4 * (depth + 1));
        lemma_spaces_mark_free(4 * depth);
        let kr = rendered(k, depth + 1, cap_col(4 * (depth + 1)), colored);
        assert(entry_key(k, depth, colored) + rest =~= a2 + (spaces(4 * (depth + 1)) + (kr + (mid
            + (spaces(4 * depth) + (b + rest))))));
        lemma_strip_text(a2, spaces(4 * (depth + 1)) + (kr + (mid + (spaces(4 * depth) + (b
            + rest)))));
        lemma_strip_text(spaces(4 * (depth + 1)), kr + (mid + (spaces(4 * depth) + (b + rest))));
        lemma_strip_rendered(
            k,
            depth + 1,
            cap_col(4 * (depth + 1)),
            colored,
            mid + (spaces(4 * depth) + (b + rest)),
        );
        lemma_strip_text(mid, spaces(4 * depth) + (b + rest));
        lemma_strip_text(spaces(4 * depth), b + rest);
        lemma_strip_text(b, rest);
        assert(entry_key(k, depth, false) + strip_from(rest, false) =~= a2 + (spaces(4 * (depth
            + 1)) + (rendered(k, depth + 1, cap_col(4 * (depth + 1)), false) + (mid + (spaces(
            4 * depth,
        ) + (b + strip_from(rest, false)))))));
    }
}

/// Stripping the colored lines of a broken tuple, tuple struct or list
/// recovers the plain ones, with any continuation.
proof fn lemma_strip_ml_items(ts: Seq<Tree>, i: int, depth: nat, colored: bool, rest: Seq<char>)
    requires
        items_mark_free(ts, i),
    ensures
        strip_from(multi_line_items(ts, i, depth, colored) + rest, false) == multi_line_items(
            ts,
            i,
            depth,
            false,
        ) + strip_from(rest, false),
    decreases ts, ts.len() - i,
{
    if i < 0 || i >= ts.len() {
        assert(multi_line_items(ts, i, depth, colored) + rest =~= rest);
        assert(multi_line_items(ts, i, depth, false) + strip_from(rest, false) =~= strip_from(
            rest,
            false,
        ));
    } else {
        let sep = seq![',', '\n'];
        assert(mark_free(sep));
        lemma_spaces_mark_free(4 * depth);
        let r = rendered(ts[i], depth, cap_col(4 * depth), colored);
        let tail = multi_line_items(ts, i + 1, depth, colored);
        assert(multi_line_items(ts, i, depth, colored) + rest =~= spaces(4 * depth) + (r + (sep + (
        tail + rest))));
        lemma_strip_text(spaces(4 * depth), r + (sep + (tail + rest)));
        lemma_strip_rendered(ts[i], depth, cap_col(4 * depth), colored, sep + (tail + rest));
        lemma_strip_text(sep, tail + rest);
        lemma_strip_ml_items(ts, i + 1, depth, colored, rest);
        assert(multi_line_items(ts, i, depth, false) + strip_from(rest, false) =~= spaces(
            4 * depth,
        ) + (rendered(ts[i], depth, cap_col(4 * depth), false) + (sep + (multi_line_items(
            ts,
            i + 1,
            depth,
            false,
        ) + strip_from(rest, false)))));
    }
}

/// Stripping the colored lines of a broken named struct recovers the plain
/// ones, with any continuation.
#[verifier::rlimit(100)]
#[verifier::spinoff_prover]
proof fn lemma_strip_ml_fields(
    fs: Seq<(Seq<char>, Tree)>,
    i: int,
    depth: nat,
    colored: bool,
    rest: Seq<char>,
)
    requires
        fields_mark_free(fs, i),
    ensures
        strip_from(multi_line_fields(fs, i, depth, colored) + rest, false) == multi_line_fields(
            fs,
            i,
            depth,
            false,
        ) + strip_from(rest, false),
    decreases fs, fs.len() - i,
{
    if i < 0 || i >= fs.len() {
        assert(multi_line_fields(fs, i, depth, colored) + rest =~= rest);
        assert(multi_line_fields(fs, i, depth, false) + strip_from(rest, false) =~= strip_from(
            rest,
            false,
        ));
    } else {
        let a = seq![':', ' '];
        assert(mark_free(a));
        let sep = seq![',', '\n'];
        assert(mark_free(sep));
        lemma_spaces_mark_free(4 * depth);
        let c = cap_col(4 * depth + fs[i].0.len() + 2);
        let r = rendered(fs[i].1, depth, c, colored);
        let tail = multi_line_fields(fs, i + 1, depth, colored);
        assert(multi_line_fields(fs, i, depth, colored) + rest =~= spaces(4 * depth) + (fs[i].0 + (
        a + (r + (sep + (tail + rest))))));
        lemma_strip_text(spaces(4 * depth), fs[i].0 + (a + (r + (sep + (tail + rest)))));
        lemma_strip_text(fs[i].0, a + (r + (sep + (tail + rest))));
        lemma_strip_text(a, r + (sep + (tail + rest)));
        lemma_strip_rendered(fs[i].1, depth, c, colored, sep + (tail + rest));
        lemma_strip_text(sep, tail + rest);
        lemma_strip_ml_fields(fs, i + 1, depth, colored, rest);
        assert(multi_line_fields(fs, i, depth, false) + strip_from(rest, false) =~= spaces(
            4 * depth,
        ) + (fs[i].0 + (a + (rendered(fs[i].1, depth, c, false) + (sep + (multi_line_fields(
            fs,
            i + 1,
            depth,
            false,
        ) + strip_from(rest, false)))))));
    }
}

/// Stripping the colored lines of a broken set recovers the plain ones,
/// with any continuation.
proof fn lemma_strip_ml_set(ts: Seq<Tree>, i: int, depth: nat, colored: bool, rest: Seq<char>)
    requires
        items_mark_free(ts, i),
    ensures
        strip_from(multi_line_set_items(ts, i, depth, colored) + rest, false)
            == multi_line_set_items(ts, i, depth, false) + strip_from(rest, false),
    decreases ts, ts.len() - i,
{
    if i < 0 || i >= ts.len() {
        assert(multi_line_set_items(ts, i, depth, colored) + rest =~= rest);
        assert(multi_line_set_items(ts, i, depth, false) + strip_from(rest, false) =~= strip_from(
            rest,
            false,
        ));
    } else {
        lemma_spaces_mark_free(4 * depth);
        let r = rendered(ts[i], depth, cap_col(4 * depth), colored);
        if i == ts.len() - 1 {
            let sep = seq!['\n'];
            assert(mark_free(sep));
            assert(multi_line_set_items(ts, i, depth, colored) + rest =~= spaces(4 * depth) + (r
                + (sep + rest)));
            lemma_strip_text(spaces(4 * depth), r + (sep + rest));
            lemma_strip_rendered(ts[i], depth, cap_col(4 * depth), colored, sep + rest);
            lemma_strip_text(sep, rest);
            assert(multi_line_set_items(ts, i, depth, false) + strip_from(rest, false) =~= spaces(
                4 * depth,
            ) + (rendered(ts[i], depth, cap_col(4 * depth), false) + (sep + strip_from(
                rest,
                false,
            ))));
        } else {
            let sep = seq![';', '\n'];
            assert(mark_free(sep));
            let tail = multi_line_set_items(ts, i + 1, depth, colored);
            assert(multi_line_set_items(ts, i, depth, colored) + rest =~= spaces(4 * depth) + (r
                + (sep + (tail + rest))));
            lemma_strip_text(spaces(4 * depth), r + (sep + (tail + rest)));
            lemma_strip_rendered(ts[i], depth, cap_col(4 * depth), colored, sep + (tail + rest));
            lemma_strip_text(sep, tail + rest);
            lemma_strip_ml_set(ts, i + 1, depth, colored, rest);
            assert(multi_line_set_items(ts, i, depth, false) + strip_from(rest, false) =~= spaces(
                4 * depth,
            ) + (rendered(ts[i], depth, cap_col(4 * depth), false) + (sep + (multi_line_set_items(
                ts,
                i + 1,
                depth,
                false,
            ) + strip_from(rest, false)))));
        }
    }
}

/// Stripping the colored lines of a broken map recovers the plain ones,
/// with any continuation.
#[verifier::rlimit(100)]
#[verifier::spinoff_prover]
proof fn lemma_strip_ml_entries(
    es: Seq<(Tree, Tree)>,
    i: int,
    depth: nat,
    colored: bool,
    rest: Seq<char>,
)
    requires
        entries_mark_free(es, i),
    ensures
        strip_from(multi_line_entries(es, i, depth, colored) + rest, false) == multi_line_entries(
            es,
            i,
            depth,
            false,
        ) + strip_from(rest, false),
    decreases es, es.len() - i,
{
    if i < 0 || i >= es.len() {
        assert(multi_line_entries(es, i, depth, colored) + rest =~= rest);
        assert(multi_line_entries(es, i, depth, false) + strip_from(rest, false) =~= strip_from(
            rest,
            false,
        ));
    } else {
        let a = seq![' ', '=', ' '];
        assert(mark_free(a));
        let sep = seq![';', '\n'];
        assert(mark_free(sep));
        lemma_spaces_mark_free(4 * depth);
        let kk = entry_key(es[i].0, depth, colored);
        let vc = entry_value_col(es[i].0, depth);
        let r = rendered(es[i].1, depth, vc, colored);
        let tail = multi_line_entries(es, i + 1, depth, colored);
        assert(multi_line_entries(es, i, depth, colored) + rest =~= spaces(4 * depth) + (kk + (a
            + (r + (sep + (tail + rest))))));
        lemma_strip_text(spaces(4 * depth), kk + (a + (r + (sep + (tail + rest)))));
        lemma_strip_entry_key(es[i].0, depth, colored, a + (r + (sep + (tail + rest))));
        lemma_strip_text(a, r + (sep + (tail + rest)));
        lemma_strip_rendered(es[i].1, depth, vc, colored, sep + (tail + rest));
        lemma_strip_text(sep, tail + rest);
        lemma_strip_ml_entries(es, i + 1, depth, colored, rest);
        assert(multi_line_entries(es, i, depth, false) + strip_from(rest, false) =~= spaces(
            4 * depth,
        ) + (entry_key(es[i].0, depth, false) + (a + (rendered(es[i].1, depth, vc, false) + (sep
            + (multi_line_entries(es, i + 1, depth, false) + strip_from(rest, false)))))));
    }
}

/// Stripping the colored multi-line form of a broken named struct recovers
/// the plain one, with any continuation.
#[verifier::rlimit(100)]
#[verifier::spinoff_prover]
proof fn lemma_strip_multi_struct(
    name: Seq<char>,
    fields: Seq<(Seq<char>, Tree)>,
    depth: nat,
    colored: bool,
    rest: Seq<char>,
)
    requires
        mark_free(name),
        fields_mark_free(fields, 0),
    ensures
        strip_from(multi_line(Tree::NamedStruct { name, fields }, depth, colored) + rest, false)
            == multi_line(Tree::NamedStruct { name, fields }, depth, false) + strip_from(
            rest,
            false,
        ),
    decreases fields, fields.len() + 1,
{
    let t = Tree::NamedStruct { name, fields };
    let a = seq![' ', '{', '\n'];
    assert(mark_free(a));
    let b = seq!['}'];
    assert(mark_free(b));
    lemma_spaces_mark_free(4 * depth);
    let block = multi_line_fields(fields, 0, depth + 1, colored);
    assert(multi_line(t, depth, colored) + rest =~= wrap(mark_name(), name, colored) + (a + (block
        + (spaces(4 * depth) + (b + rest)))));
    lemma_strip_wrap(mark_name(), name, colored, a + (block + (spaces(4 * depth) + (b + rest))));
    lemma_strip_text(a, block + (spaces(4 * depth) + (b + rest)));
    lemma_strip_ml_fields(fields, 0, depth + 1, colored, spaces(4 * depth) + (b + rest));
    lemma_strip_text(spaces(4 * depth), b + rest);
    lemma_strip_text(b, rest);
    assert(multi_line(t, depth, false) + strip_from(rest, false) =~= name + (a + (
    multi_line_fields(fields, 0, depth + 1, false) + (spaces(4 * depth) + (b + strip_from(
        rest,
        false,
    ))))));
}

/// Stripping the colored multi-line form of a broken tuple or list recovers
/// the plain one, with any continuation.
#[verifier::rlimit(100)]
#[verifier::spinoff_prover]
proof fn lemma_strip_multi_items(t: Tree, depth: nat, colored: bool, rest: Seq<char>)
    requires
        tree_mark_free(t),
        t is Tuple || t is List,
    ensures
        strip_from(multi_line(t, depth, colored) + rest, false) == multi_line(t, depth, false)
            + strip_from(rest, false),
    decreases t, 0int,
{
    lemma_spaces_mark_free(4 * depth);
    match t {
        Tree::Tuple { fields } => {
            let a = seq!['(', '\n'];
            assert(mark_free(a));
            let b = seq![')'];
            assert(mark_free(b));
            let block = multi_line_items(fields, 0, depth + 1, colored);
            assert(multi_line(t, depth, colored) + rest =~= a + (block + (spaces(4 * depth) + (b
                + rest))));
            lemma_strip_text(a, block + (spaces(4 * depth) + (b + rest)));
            lemma_strip_ml_items(fields, 0, depth + 1, colored, spaces(4 * depth) + (b + rest));
            lemma_strip_text(spaces(4 * depth), b + rest);
            lemma_strip_text(b, rest);
            assert(multi_line(t, depth, false) + strip_from(rest, false) =~= a + (multi_line_items(
                fields,
                0,
                depth + 1,
                false,
            ) + (spaces(4 * depth) + (b + strip_from(rest, false)))));
        },
        Tree::List { items } => {
            let a = seq!['[', '\n'];
            assert(mark_free(a));
            let b = seq![']'];
            assert(mark_free(b));
            let block = multi_line_items(items, 0, depth + 1, colored);
            assert(multi_line(t, depth, colored) + rest =~= a + (block + (spaces(4 * depth) + (b
                + rest))));
            lemma_strip_text(a, block + (spaces(4 * depth) + (b + rest)));
            lemma_strip_ml_items(items, 0, depth + 1, colored, spaces(4 * depth) + (b + rest));
            lemma_strip_text(spaces(4 * depth), b + rest);
            lemma_strip_text(b, rest);
            assert(multi_line(t, depth, false) + strip_from(rest, false) =~= a + (multi_line_items(
                items,
                0,
                depth + 1,
                false,
            ) + (spaces(4 * depth) + (b + strip_from(rest, false)))));
        },
        _ => {
        },
    }
}

/// Stripping the colored multi-line form of a broken tuple struct recovers
/// the plain one, with any continuation.
#[verifier::rlimit(100)]
#[verifier::spinoff_prover]
proof fn lemma_strip_multi_tuple_struct(t: Tree, depth: nat, colored: bool, rest: Seq<char>)
    requires
        tree_mark_free(t),
        t is TupleStruct,
    ensures
        strip_from(multi_line(t, depth, colored) + rest, false) == multi_line(t, depth, false)
            + strip_from(rest, false),
    decreases t, 0int,
{
    lemma_spaces_mark_free(4 * depth);
    match t {
        Tree::TupleStruct { name, fields } => {
            let a = seq!['(', '\n'];
            assert(mark_free(a));
            let b = seq![')'];
            assert(mark_free(b));
            let block = multi_line_items(fields, 0, depth + 1, colored);
            assert(multi_line(t, depth, colored) + rest =~= wrap(mark_name(), name, colored) + (a
                + (block + (spaces(4 * depth) + (b + rest)))));
            lemma_strip_wrap(mark_name(), name, colored, a + (block + (spaces(4 * depth) + (b
                + rest))));
            lemma_strip_text(a, block + (spaces(4 * depth) + (b + rest)));
            lemma_strip_ml_items(fields, 0, depth + 1, colored, spaces(4 * depth) + (b + rest));
            lemma_strip_text(spaces(4 * depth), b + rest);
            lemma_strip_text(b, rest);
            assert(multi_line(t, depth, false) + strip_from(rest, false) =~= name + (a + (
            multi_line_items(fields, 0, depth + 1, false) + (spaces(4 * depth) + (b + strip_from(
                rest,
                false,
            ))))));
        },
        _ => {
        },
    }
}

/// Stripping the colored multi-line form of a broken map or set recovers
/// the plain one, with any continuation.
#[verifier::rlimit(100)]
#[verifier::spinoff_prover]
proof fn lemma_strip_multi_braced(t: Tree, depth: nat, colored: bool, rest: Seq<char>)
    requires
        tree_mark_free(t),
        t is Dict || t is SetOf,
    ensures
        strip_from(multi_line(t, depth, colored) + rest, false) == multi_line(t, depth, false)
            + strip_from(rest, false),
    decreases t, 0int,
{
    lemma_spaces_mark_free(4 * depth);
    let a = seq!['{', '\n'];
    assert(mark_free(a));
    let b = seq!['}'];
    assert(mark_free(b));
    match t {
        Tree::Dict { entries } => {
            let block = multi_line_entries(entries, 0, depth + 1, colored);
            assert(multi_line(t, depth, colored) + rest =~= a + (block + (spaces(4 * depth) + (b
                + rest))));
            lemma_strip_text(a, block + (spaces(4 * depth) + (b + rest)));
            lemma_strip_ml_entries(entries, 0, depth + 1, colored, spaces(4 * depth) + (b + rest));
            lemma_strip_text(spaces(4 * depth), b + rest);
            lemma_strip_text(b, rest);
            assert(multi_line(t, depth, false) + strip_from(rest, false) =~= a + (
            multi_line_entries(entries, 0, depth + 1, false) + (spaces(4 * depth) + (b
                + strip_from(rest, false)))));
        },
        Tree::SetOf { items } => {
            let block = multi_line_set_items(items, 0, depth + 1, colored);
            assert(multi_line(t, depth, colored) + rest =~= a + (block + (spaces(4 * depth) + (b
                + rest))));
            lemma_strip_text(a, block + (spaces(4 * depth) + (b + rest)));
            lemma_strip_ml_set(items, 0, depth + 1, colored, spaces(4 * depth) + (b + rest));
            lemma_strip_text(spaces(4 * depth), b + rest);
            lemma_strip_text(b, rest);
            assert(multi_line(t, depth, false) + strip_from(rest, false) =~= a + (
            multi_line_set_items(items, 0, depth + 1, false) + (spaces(4 * depth) + (b
                + strip_from(rest, false)))));
        },
        _ => {
        },
    }
}

/// Stripping the colored multi-line form of a node recovers the plain one,
/// with any continuation.
proof fn lemma_strip_multi(t: Tree, depth: nat, colored: bool, rest: Seq<char>)
    requires
        tree_mark_free(t),
    ensures
        strip_from(multi_line(t, depth, colored) + rest, false) == multi_line(t, depth, false)
            + strip_from(rest, false),
    decreases t, 1int,
{
    match t {
        Tree::Atom { text } => {
            lemma_strip_wrap(atom_mark(text), text, colored, rest);
        },
        Tree::Ident { name } => {
            lemma_strip_wrap(mark_name(), name, colored, rest);
        },
        Tree::Verbatim { text } => {
            lemma_strip_text(text, rest);
        },
        Tree::NamedStruct { name, fields } => {
            lemma_strip_multi_struct(name, fields, depth, colored, rest);
        },
        Tree::Tuple { .. } => {
            lemma_strip_multi_items(t, depth, colored, rest);
        },
        Tree::TupleStruct { .. } => {
            lemma_strip_multi_tuple_struct(t, depth, colored, rest);
        },
        Tree::List { .. } => {
            lemma_strip_multi_items(t, depth, colored, rest);
        },
        Tree::Dict { .. } => {
            lemma_strip_multi_braced(t, depth, colored, rest);
        },
        Tree::SetOf { .. } => {
            lemma_strip_multi_braced(t, depth, colored, rest);
        },
    }
}

/// Stripping the colored rendering of a node recovers the plain one, with
/// any continuation: both renderings make the same layout decision, which
/// is measured on the plain candidate.
proof fn lemma_strip_rendered(t: Tree, depth: nat, col: int, colored: bool, rest: Seq<char>)
    requires
        tree_mark_free(t),
    ensures
        strip_from(rendered(t, depth, col, colored) + rest, false) == rendered(t, depth, col, false)
            + strip_from(rest, false),
    decreases t, 2int,
{
    if child_count(t) == 0 {
        lemma_strip_single(t, colored, rest);
    } else if !forced(t) && col + single_line(t, false).len() <= line_width() {
        lemma_strip_single(t, colored, rest);
    } else {
        lemma_strip_multi(t, depth, colored, rest);
    }
}

/// Color/plain layout agreement: for a tree whose own texts are free of the
/// marker escape character, stripping all highlight markers from the
/// colored rendering yields exactly the plain rendering.
pub proof fn lemma_color_plain_agreement(t: Tree, depth: nat, col: int)
    requires
        tree_mark_free(t),
    ensures
        strip_marks(rendered(t, depth, col, true)) == rendered(t, depth, col, false),
{
    let e = Seq::<char>::empty();
    lemma_strip_rendered(t, depth, col, true, e);
    assert(rendered(t, depth, col, true) + e =~= rendered(t, depth, col, true));
    assert(strip_from(e, false) == e);
    assert(rendered(t, depth, col, false) + e =~= rendered(t, depth, col, false));
}

} // verus!
