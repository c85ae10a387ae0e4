//! [`DebugPls`] implementations for the common leaf and container types:
//! integers as their canonical decimal atoms, booleans and strings as their
//! literal atoms, vectors and arrays as lists of their elements.

use vstd::prelude::*;

use crate::node::Node;
use crate::node::Tree;
use crate::text::dec_int;
use crate::text::dec_nat;
use crate::text::fmt_i64;
use crate::text::fmt_u64;
use crate::text::quote_str;
use crate::text::quoted;
use crate::DebugPls;
use crate::Formatter;

verus! {

/// The text of a boolean literal atom.
pub open spec fn bool_text(b: bool) -> Seq<char> {
    if b {
        seq!['t', 'r', 'u', 'e']
    } else {
        seq!['f', 'a', 'l', 's', 'e']
    }
}

impl DebugPls for bool {
    open spec fn tree(&self) -> Tree {
        Tree::Atom { text: bool_text(*self) }
    }

    fn fmt(&self, f: Formatter) -> (n: Node) {
        let text = if *self {
            proof {
                reveal_strlit("true");
                assert("true"@ =~= bool_text(true));
            }
            "true".to_owned()
        } else {
            proof {
                reveal_strlit("false");
                assert("false"@ =~= bool_text(false));
            }
            "false".to_owned()
        };
        f.write_expr(Node::Atom { text })
    }
}

impl DebugPls for u8 {
    open spec fn tree(&self) -> Tree {
        Tree::Atom { text: dec_nat(*self as nat) }
    }

    fn fmt(&self, f: Formatter) -> (n: Node) {
        f.write_expr(Node::Atom { text: fmt_u64(*self as u64) })
    }
}

impl DebugPls for u16 {
    open spec fn tree(&self) -> Tree {
        Tree::Atom { text: dec_nat(*self as nat) }
    }

    fn fmt(&self, f: Formatter) -> (n: Node) {
        f.write_expr(Node::Atom { text: fmt_u64(*self as u64) })
    }
}

impl DebugPls for u32 {
    open spec fn tree(&self) -> Tree {
        Tree::Atom { text: dec_nat(*self as nat) }
    }

    fn fmt(&self, f: Formatter) -> (n: Node) {
        f.write_expr(Node::Atom { text: fmt_u64(*self as u64) })
    }
}

impl DebugPls for u64 {
    open spec fn tree(&self) -> Tree {
        Tree::Atom { text: dec_nat(*self as nat) }
    }

    fn fmt(&self, f: Formatter) -> (n: Node) {
        f.write_expr(Node::Atom { text: fmt_u64(*self) })
    }
}

impl DebugPls for usize {
    open spec fn tree(&self) -> Tree {
        Tree::Atom { text: dec_nat(*self as nat) }
    }

    fn fmt(&self, f: Formatter) -> (n: Node) {
        f.write_expr(Node::Atom { text: fmt_u64(*self as u64) })
    }
}

impl DebugPls for i8 {
    open spec fn tree(&self) -> Tree {
        Tree::Atom { text: dec_int(*self as int) }
    }

    fn fmt(&self, f: Formatter) -> (n: Node) {
        f.write_expr(Node::Atom { text: fmt_i64(*self as i64) })
    }
}

impl DebugPls for i16 {
    open spec fn tree(&self) -> Tree {
        Tree::Atom { text: dec_int(*self as int) }
    }

    fn fmt(&self, f: Formatter) -> (n: Node) {
        f.write_expr(Node::Atom { text: fmt_i64(*self as i64) })
    }
}

impl DebugPls for i32 {
    open spec fn tree(&self) -> Tree {
        Tree::Atom { text: dec_int(*self as int) }
    }

    fn fmt(&self, f: Formatter) -> (n: Node) {
        f.write_expr(Node::Atom { text: fmt_i64(*self as i64) })
    }
}

impl DebugPls for i64 {
    open spec fn tree(&self) -> Tree {
        Tree::Atom { text: dec_int(*self as int) }
    }

    fn fmt(&self, f: Formatter) -> (n: Node) {
        f.write_expr(Node::Atom { text: fmt_i64(*self) })
    }
}

impl DebugPls for isize {
    open spec fn tree(&self) -> Tree {
        Tree::Atom { text: dec_int(*self as int) }
    }

    fn fmt(&self, f: Formatter) -> (n: Node) {
        f.write_expr(Node::Atom { text: fmt_i64(*self as i64) })
    }
}

impl<'a> DebugPls for &'a str {
    open spec fn tree(&self) -> Tree {
        Tree::Atom { text: quoted(self@) }
    }

    fn fmt(&self, f: Formatter) -> (n: Node) {
        f.write_expr(Node::Atom { text: quote_str(self) })
    }
}

impl DebugPls for String {
    open spec fn tree(&self) -> Tree {
        Tree::Atom { text: quoted(self@) }
    }

    fn fmt(&self, f: Formatter) -> (n: Node) {
        f.write_expr(Node::Atom { text: quote_str(self.as_str()) })
    }
}

impl<T: DebugPls> DebugPls for Vec<T> {
    open spec fn tree(&self) -> Tree {
        Tree::List { items: self@.map(|j: int, x: T| x.tree()) }
    }

    fn fmt(&self, f: Formatter) -> (n: Node) {
        let n = f.debug_list().entries(self).finish();
        proof {
            assert(Seq::<Tree>::empty() + self@.map(|j: int, x: T| x.tree()) =~= self@.map(
                |j: int, x: T| x.tree(),
            ));
        }
        n
    }
}

impl<T: DebugPls, const N: usize> DebugPls for [T; N] {
    open spec fn tree(&self) -> Tree {
        Tree::List { items: self@.map(|j: int, x: T| x.tree()) }
    }

    fn fmt(&self, f: Formatter) -> (n: Node) {
        let mut b = f.debug_list();
        proof {
            assert(b.items_model() =~= self@.take(0).map(|j: int, x: T| x.tree()));
        }
        let mut i: usize = 0;
        while i < N
            invariant
                i <= N,
                self@.len() == N,
                b.items_model() == self@.take(i as int).map(|j: int, x: T| x.tree()),
            decreases N - i,
        {
            b = b.entry(&self[i]);
            proof {
                assert(self@.take(i + 1).map(|j: int, x: T| x.tree()) =~= self@.take(i as int).map(
                    |j: int, x: T| x.tree(),
                ).push(self@[i as int].tree()));
            }
            i = i + 1;
        }
        let n = b.finish();
        proof {
            assert(self@.take(N as int) =~= self@);
        }
        n
    }
}

} // verus!
