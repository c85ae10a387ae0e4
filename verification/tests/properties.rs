use dbg_pls::color;
use dbg_pls::debug;
use dbg_pls::DebugPls;
use dbg_pls::Formatter;
use dbg_pls::Node;

/// An atom of `n` repeated `x` characters.
struct Wide(usize);

impl DebugPls for Wide {
    fn fmt(&self, f: Formatter) -> Node {
        f.write_expr(Node::Atom {
            text: "x".repeat(self.0),
        })
    }
}

/// A list holding one `Wide` atom.
struct OneList(usize);

impl DebugPls for OneList {
    fn fmt(&self, f: Formatter) -> Node {
        f.debug_list().entry(&Wide(self.0)).finish()
    }
}

struct Ints(Vec<i32>);

impl DebugPls for Ints {
    fn fmt(&self, f: Formatter) -> Node {
        f.debug_list().entries(&self.0).finish()
    }
}

struct StrMap(Vec<(&'static str, i32)>);

impl DebugPls for StrMap {
    fn fmt(&self, f: Formatter) -> Node {
        f.debug_map().entries(&self.0).finish()
    }
}

struct IntSet(Vec<i32>);

impl DebugPls for IntSet {
    fn fmt(&self, f: Formatter) -> Node {
        f.debug_set().entries(&self.0).finish()
    }
}

struct Pair(i32, &'static str);

impl DebugPls for Pair {
    fn fmt(&self, f: Formatter) -> Node {
        f.debug_tuple().field(&self.0).field(&self.1).finish()
    }
}

struct Foo(i32, &'static str);

impl DebugPls for Foo {
    fn fmt(&self, f: Formatter) -> Node {
        f.debug_tuple_struct("Foo")
            .field(&self.0)
            .field(&self.1)
            .finish()
    }
}

struct Unit;

impl DebugPls for Unit {
    fn fmt(&self, f: Formatter) -> Node {
        f.debug_ident("Unit")
    }
}

struct Empty;

impl DebugPls for Empty {
    fn fmt(&self, f: Formatter) -> Node {
        f.debug_struct("Empty").finish()
    }
}

struct EmptyTuple;

impl DebugPls for EmptyTuple {
    fn fmt(&self, f: Formatter) -> Node {
        f.debug_tuple().finish()
    }
}

struct EmptyList;

impl DebugPls for EmptyList {
    fn fmt(&self, f: Formatter) -> Node {
        f.debug_list().finish()
    }
}

struct EmptyMap;

impl DebugPls for EmptyMap {
    fn fmt(&self, f: Formatter) -> Node {
        f.debug_map().finish()
    }
}

struct EmptySet;

impl DebugPls for EmptySet {
    fn fmt(&self, f: Formatter) -> Node {
        f.debug_set().finish()
    }
}

struct Custom;

impl DebugPls for Custom {
    fn fmt(&self, f: Formatter) -> Node {
        f.write_expr(Node::Verbatim {
            text: String::from("anything at all"),
        })
    }
}

#[derive(Clone, Copy)]
struct Demo {
    foo: i32,
    bar: &'static str,
}

impl DebugPls for Demo {
    fn fmt(&self, f: Formatter) -> Node {
        f.debug_struct("Demo")
            .field("foo", &self.foo)
            .field("bar", &self.bar)
            .finish()
    }
}

/// Removes every ANSI highlight marker: an escape character through the
/// following `m`.
fn strip_markers(s: &str) -> String {
    let mut out = String::new();
    let mut in_mark = false;
    for c in s.chars() {
        if in_mark {
            if c == 'm' {
                in_mark = false;
            }
        } else if c == '\u{1b}' {
            in_mark = true;
        } else {
            out.push(c);
        }
    }
    out
}

#[test]
fn width_exactly_80_single_line() {
    // `[` + 78 atom characters + `]` is exactly 80 columns.
    let s = debug(&OneList(78));
    assert_eq!(s.chars().count(), 80);
    assert_eq!(s, format!("[{}]", "x".repeat(78)));
}

#[test]
fn width_exactly_81_multi_line() {
    // One more column and the list must break.
    let s = debug(&OneList(79));
    assert_eq!(s, format!("[\n    {},\n]", "x".repeat(79)));
}

#[test]
fn rendering_is_deterministic() {
    let mut val = [Demo {
        foo: 5,
        bar: "hello",
    }; 10];
    val[6].bar = "Hello, world! I am a very long string";
    assert_eq!(debug(&val), debug(&val));
    assert_eq!(color(&val), color(&val));
}

#[test]
fn order_is_preserved() {
    assert_eq!(debug(&Ints(vec![3, 1, 2])), "[3, 1, 2]");
    assert_eq!(
        debug(&StrMap(vec![("b", 1), ("a", 2)])),
        "{\n    [\"b\"] = 1;\n    [\"a\"] = 2;\n}"
    );
}

#[test]
fn set_omits_final_separator_only() {
    assert_eq!(debug(&IntSet(vec![1, 2, 3])), "{\n    1;\n    2;\n    3\n}");
    assert_eq!(debug(&IntSet(vec![7])), "{\n    7\n}");
}

#[test]
fn color_stripped_equals_plain() {
    let mut val = [Demo {
        foo: 5,
        bar: "hello",
    }; 10];
    val[6].bar = "Hello, world! I am a very long string";
    assert_eq!(strip_markers(&color(&val)), debug(&val));

    let map = StrMap(vec![("hello", 60), ("x", 12)]);
    assert_eq!(strip_markers(&color(&map)), debug(&map));

    let tup = Foo(10, "Hello");
    assert_eq!(strip_markers(&color(&tup)), debug(&tup));
}

#[test]
fn color_wraps_tokens() {
    let val = Demo {
        foo: 5,
        bar: "hello",
    };
    assert_eq!(
        color(&val),
        "\u{1b}[36mDemo\u{1b}[0m { foo: \u{1b}[33m5\u{1b}[0m, bar: \u{1b}[32m\"hello\"\u{1b}[0m }"
    );
}

#[test]
fn tuples_and_tuple_structs() {
    assert_eq!(debug(&Pair(10, "Hello")), "(10, \"Hello\")");
    assert_eq!(debug(&Foo(10, "Hello")), "Foo(10, \"Hello\")");
}

#[test]
fn idents_and_empty_shapes() {
    assert_eq!(debug(&Unit), "Unit");
    assert_eq!(debug(&Empty), "Empty");
    assert_eq!(debug(&EmptyTuple), "()");
    assert_eq!(debug(&EmptyList), "[]");
    assert_eq!(debug(&EmptyMap), "{}");
    assert_eq!(debug(&EmptySet), "{}");
}

#[test]
fn integer_atoms() {
    assert_eq!(debug(&0i32), "0");
    assert_eq!(debug(&-42i32), "-42");
    assert_eq!(debug(&i64::MIN), "-9223372036854775808");
    assert_eq!(debug(&u64::MAX), "18446744073709551615");
    assert_eq!(debug(&true), "true");
    assert_eq!(debug(&false), "false");
}

#[test]
fn string_atoms_are_quoted_and_escaped() {
    assert_eq!(debug(&"hello"), "\"hello\"");
    assert_eq!(debug(&"a\"b\\c\nd\te\rf"), "\"a\\\"b\\\\c\\nd\\te\\rf\"");
    assert_eq!(debug(&String::from("owned")), "\"owned\"");
}

#[test]
fn long_atom_never_breaks() {
    // An atom wider than the budget still renders on its own single line
    // inside the broken list.
    let s = debug(&OneList(100));
    assert_eq!(s, format!("[\n    {},\n]", "x".repeat(100)));
}

#[test]
fn write_expr_injects_verbatim() {
    assert_eq!(debug(&Custom), "anything at all");
}

#[test]
fn vectors_render_as_lists() {
    let v: Vec<u32> = vec![10, 11];
    assert_eq!(debug(&v), "[10, 11]");
}
