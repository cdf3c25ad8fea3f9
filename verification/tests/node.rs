use blog::node::{Node, Root};
use std::cell::Cell;
use std::rc::Rc;

type Boxed = Box<dyn Fn() -> String>;

#[test]
fn sanity() {
    let root = Root {
        root: Node::List(vec![
            Node::Str("Hello "),
            Node::Fn(Box::new(|| "world".into())),
            Node::List(vec![Node::Str("!")]),
        ]),
    };
    let expected = "Hello world!";

    let out = root.render();
    assert_eq!(expected, out);
}

#[test]
fn empty_list_renders_empty() {
    let node: Node<Boxed> = Node::List(vec![]);
    assert_eq!(node.render(), "");
    let root: Root<Boxed> = Root::from(Node::List(vec![Node::List(vec![]), Node::List(vec![])]));
    assert_eq!(root.render(), "");
}

#[test]
fn text_renders_verbatim() {
    let node: Node<Boxed> = Node::Str("<b>&amp; \"quoted\" \u{e9}\n</b>");
    assert_eq!(node.render(), "<b>&amp; \"quoted\" \u{e9}\n</b>");
    let empty: Node<Boxed> = Node::Str("");
    assert_eq!(empty.render(), "");
}

#[test]
fn pair_renders_in_order_without_separator() {
    let a: Node<Boxed> = Node::Str("left");
    let b: Node<Boxed> = Node::Str("right");
    let (ra, rb) = (a.render(), b.render());
    let pair = Node::List(vec![a, b]);
    assert_eq!(pair.render(), format!("{}{}", ra, rb));
    assert_eq!(pair.render(), "leftright");
}

#[test]
fn nesting_does_not_change_the_text() {
    let flat: Node<Boxed> =
        Node::List(vec![Node::Str("a"), Node::Str("b"), Node::Str("c"), Node::Str("d")]);
    let nested: Node<Boxed> = Node::List(vec![
        Node::Str("a"),
        Node::List(vec![Node::Str("b"), Node::List(vec![Node::Str("c")])]),
        Node::List(vec![]),
        Node::Str("d"),
    ]);
    assert_eq!(flat.render(), "abcd");
    assert_eq!(nested.render(), flat.render());
}

#[test]
fn end_to_end() {
    let tree: Node<Boxed> = Node::List(vec![
        Node::Str("a"),
        Node::List(vec![Node::Str("b"), Node::Str("c")]),
        Node::Fn(Box::new(|| "d".to_string())),
    ]);
    assert_eq!(tree.render(), "abcd");
}

#[test]
fn closures_of_different_kinds_in_one_tree() {
    let name = String::from("Ada");
    let tree: Node<Boxed> = Node::List(vec![
        Node::Fn(Box::new(|| "Hello, ".to_string())),
        Node::Fn(Box::new(move || name.clone())),
        Node::Str("!"),
    ]);
    assert_eq!(tree.render(), "Hello, Ada!");
}

#[test]
fn collected_list_renders_like_folded_nodes() {
    let words = ["one", " ", "two", " ", "three"];
    let collected: Node<Boxed> = Node::from(words.iter().map(|w| Node::Str(w)).collect::<Vec<_>>());
    let folded = Node::<Boxed>::render_all(words.iter().map(|w| Node::Str(w)).collect());
    assert_eq!(collected.render(), folded);
    assert_eq!(folded, "one two three");
    assert_eq!(Node::<Boxed>::render_all(vec![]), "");
}

#[test]
fn render_all_calls_computations_in_order() {
    let log = Rc::new(Cell::new(0u32));
    let (first, second) = (log.clone(), log.clone());
    let nodes: Vec<Node<Boxed>> = vec![
        Node::Fn(Box::new(move || {
            first.set(first.get() * 10 + 1);
            first.get().to_string()
        })),
        Node::Str("-"),
        Node::Fn(Box::new(move || {
            second.set(second.get() * 10 + 2);
            second.get().to_string()
        })),
    ];
    assert_eq!(Node::render_all(nodes), "1-12");
    assert_eq!(log.get(), 12);
}

#[test]
fn lazy_leaf_runs_once_per_render() {
    let calls = Rc::new(Cell::new(0u32));
    let seen = calls.clone();
    let tree: Node<Boxed> = Node::List(vec![
        Node::Str("Hello "),
        Node::Fn(Box::new(move || {
            seen.set(seen.get() + 1);
            "world".to_string()
        })),
        Node::List(vec![Node::Str("!")]),
    ]);
    assert_eq!(calls.get(), 0);
    assert_eq!(tree.render(), "Hello world!");
    assert_eq!(calls.get(), 1);
}

#[test]
fn rendering_again_runs_the_computations_again() {
    let counter = Rc::new(Cell::new(0u32));
    let seen = counter.clone();
    let tree: Node<Boxed> = Node::List(vec![
        Node::Str("n="),
        Node::Fn(Box::new(move || {
            seen.set(seen.get() + 1);
            seen.get().to_string()
        })),
    ]);
    assert_eq!(tree.render(), "n=1");
    assert_eq!(tree.render(), "n=2");
    assert_eq!(counter.get(), 2);
}

#[test]
fn root_renders_like_its_node() {
    let node: Node<Boxed> = Node::List(vec![Node::Str("<p>"), Node::Str("x"), Node::Str("</p>")]);
    let text = node.render();
    let root: Root<Boxed> = node.into();
    assert_eq!(root.render(), text);
    assert_eq!(root.render(), "<p>x</p>");
}

#[test]
fn debug_string_shows_the_structure() {
    let tree: Node<Boxed> = Node::List(vec![
        Node::Str("a"),
        Node::List(vec![Node::Str("b \"c\"\n"), Node::List(vec![])]),
        Node::Fn(Box::new(|| "d".to_string())),
    ]);
    assert_eq!(tree.debug_string(), "List([Str(\"a\"), List([Str(\"b \\\"c\\\"\\n\"), List([])]), Fn])");
    let text: Node<Boxed> = Node::Str("a");
    assert_eq!(text.debug_string(), format!("Str({:?})", "a"));
    let lazy: Node<Boxed> = Node::Fn(Box::new(|| String::new()));
    assert_eq!(lazy.debug_string(), "Fn");
    let root: Root<Boxed> = Root::from(tree);
    assert_eq!(
        root.debug_string(),
        "Root { root: List([Str(\"a\"), List([Str(\"b \\\"c\\\"\\n\"), List([])]), Fn]) }"
    );
}

#[test]
fn debug_string_runs_no_computation() {
    let calls = Rc::new(Cell::new(0u32));
    let seen = calls.clone();
    let tree: Node<Boxed> = Node::List(vec![
        Node::Fn(Box::new(move || {
            seen.set(seen.get() + 1);
            "x".to_string()
        })),
        Node::Fn(Box::new(|| panic!("must not run"))),
    ]);
    assert_eq!(tree.debug_string(), "List([Fn, Fn])");
    assert_eq!(Root::from(tree).debug_string(), "Root { root: List([Fn, Fn]) }");
    assert_eq!(calls.get(), 0);
}
