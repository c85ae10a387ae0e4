use std::collections::BTreeMap;
use std::collections::BTreeSet;

use dbg_pls::debug;
use dbg_pls::DebugPls;
use dbg_pls::Formatter;
use dbg_pls::Node;

#[derive(Clone, Copy, Hash, PartialEq, Eq, PartialOrd, Ord)]
pub struct Demo {
    foo: i32,
    bar: &'static str,
}

impl DebugPls for Demo {
    fn fmt(&self, f: Formatter) -> Node {
        f.debug_struct("Demo")
            .field("foo", &self.foo)
            .field("bar", &self.bar)
            .finish()
    }
}

struct IntSet(Vec<i32>);

impl DebugPls for IntSet {
    fn fmt(&self, f: Formatter) -> Node {
        f.debug_set().entries(&self.0).finish()
    }
}

struct DemoSet(Vec<Demo>);

impl DebugPls for DemoSet {
    fn fmt(&self, f: Formatter) -> Node {
        f.debug_set().entries(&self.0).finish()
    }
}

struct StrMap(Vec<(&'static str, i32)>);

impl DebugPls for StrMap {
    fn fmt(&self, f: Formatter) -> Node {
        f.debug_map().entries(&self.0).finish()
    }
}

struct DemoMap(Vec<(Demo, i32)>);

impl DebugPls for DemoMap {
    fn fmt(&self, f: Formatter) -> Node {
        f.debug_map().entries(&self.0).finish()
    }
}

#[test]
fn debug_struct() {
    let val = Demo {
        foo: 5,
        bar: "hello",
    };
    assert_eq!(debug(&val).to_string(), r#"Demo { foo: 5, bar: "hello" }"#);
}

#[test]
fn debug_struct_big() {
    let val = Demo {
        foo: 5,
        bar: "Hello, world! I am a very long string",
    };
    assert_eq!(
        debug(&val).to_string(),
        r#"Demo {
    foo: 5,
    bar: "Hello, world! I am a very long string",
}"#
    );
}

#[test]
fn debug_nested_struct() {
    let mut val = [Demo {
        foo: 5,
        bar: "hello",
    }; 10];
    val[6].bar = "Hello, world! I am a very long string";

    assert_eq!(
        debug(&val).to_string(),
        r#"[
    Demo { foo: 5, bar: "hello" },
    Demo { foo: 5, bar: "hello" },
    Demo { foo: 5, bar: "hello" },
    Demo { foo: 5, bar: "hello" },
    Demo { foo: 5, bar: "hello" },
    Demo { foo: 5, bar: "hello" },
    Demo {
        foo: 5,
        bar: "Hello, world! I am a very long string",
    },
    Demo { foo: 5, bar: "hello" },
    Demo { foo: 5, bar: "hello" },
    Demo { foo: 5, bar: "hello" },
]"#
    );
}

#[test]
fn debug_small_set() {
    let set = BTreeSet::from([420, 69]);
    let val = IntSet(set.into_iter().collect());

    assert_eq!(
        debug(&val).to_string(),
        r#"{
    69;
    420
}"#
    );
}

#[test]
fn debug_nested_set() {
    let set = BTreeSet::from([
        Demo {
            foo: 5,
            bar: "hello",
        },
        Demo {
            foo: 5,
            bar: "Hello, world! I am a very long string",
        },
    ]);
    let val = DemoSet(set.into_iter().collect());

    assert_eq!(
        debug(&val).to_string(),
        r#"{
    Demo {
        foo: 5,
        bar: "Hello, world! I am a very long string",
    };
    Demo { foo: 5, bar: "hello" }
}"#
    );
}

#[test]
fn debug_map() {
    let map = BTreeMap::from([("hello", 60), ("Hello, world! I am a very long string", 12)]);
    let val = StrMap(map.into_iter().collect());

    assert_eq!(
        debug(&val).to_string(),
        r#"{
    ["Hello, world! I am a very long string"] = 12;
    ["hello"] = 60;
}"#
    );
}

#[test]
fn debug_nested_map() {
    let map = BTreeMap::from([
        (
            Demo {
                foo: 5,
                bar: "hello",
            },
            60,
        ),
        (
            Demo {
                foo: 5,
                bar: "Hello, world! I am a very long string",
            },
            12,
        ),
    ]);
    let val = DemoMap(map.into_iter().collect());

    assert_eq!(
        debug(&val).to_string(),
        r#"{
    [
        Demo {
            foo: 5,
            bar: "Hello, world! I am a very long string",
        },
    ] = 12;
    [Demo { foo: 5, bar: "hello" }] = 60;
}"#
    );
}
