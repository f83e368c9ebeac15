use std::sync::Arc;
use tree_diff::{diff, reconcile_children};
use tree_diff::{Attrs, Element, EditLog, EditOp, Node, NodePtr};

fn element(tag: &str, attrs: &[(&str, &str)], children: Vec<NodePtr>) -> Node {
    let mut map: Attrs = im::OrdMap::new();
    for (k, v) in attrs {
        map.insert(k.to_string(), v.to_string());
    }
    Node::Element(Element { tag: tag.into(), children, attrs: map })
}

fn ptr(n: Node) -> NodePtr {
    NodePtr(Arc::new(n))
}

fn run(a: &Node, b: &Node) -> Vec<EditOp> {
    let mut w = EditLog::new();
    diff(a, b, &mut w);
    w.ops
}

#[test]
fn same_node_gives_only_skips() {
    let c1 = ptr(element("span", &[], vec![]));
    let c2 = ptr(Node::Text("x".into()));
    let a = element("div", &[("id", "main"), ("class", "c")], vec![c1, c2]);
    assert_eq!(run(&a, &a), vec![EditOp::SkipChild, EditOp::SkipChild]);
}

#[test]
fn same_text_node_sets_its_own_text() {
    let a = Node::Text("hi".into());
    assert_eq!(run(&a, &a), vec![EditOp::SetText("hi".into())]);
}

#[test]
fn equal_content_in_distinct_allocations_is_replaced() {
    let a = ptr(element("p", &[], vec![]));
    let b = ptr(element("p", &[], vec![]));
    assert!(a != b);
    assert!(a == a.clone());
    let old = element("div", &[], vec![a]);
    let new = element("div", &[], vec![b.clone()]);
    assert_eq!(run(&old, &new), vec![EditOp::PrependChild(b), EditOp::DeleteChild]);
}

#[test]
fn attributes_come_in_ascending_key_order() {
    let old = element("div", &[("zeta", "1"), ("beta", "1"), ("alpha", "1"), ("mid", "same")], vec![]);
    let new = element("div", &[("mid", "same"), ("gamma", "2"), ("alpha", "2"), ("zeta", "1")], vec![]);
    assert_eq!(
        run(&old, &new),
        vec![
            EditOp::SetAttribute("alpha".into(), "2".into()),
            EditOp::RemoveAttribute("beta".into()),
            EditOp::SetAttribute("gamma".into(), "2".into()),
        ]
    );
}

#[test]
fn only_the_first_leading_insertion_is_a_prepend() {
    let a = ptr(element("a", &[], vec![]));
    let b = ptr(element("b", &[], vec![]));
    let c = ptr(element("c", &[], vec![]));
    let old = element("div", &[], vec![a.clone()]);
    let new = element("div", &[], vec![b.clone(), c.clone(), a]);
    assert_eq!(
        run(&old, &new),
        vec![EditOp::PrependChild(b), EditOp::InsertChild(c), EditOp::SkipChild]
    );
}

#[test]
fn keyed_children_are_minimal() {
    let children = vec![
        ptr(Node::Text("two".into())),
        ptr(Node::Text("three".into())),
        ptr(Node::Text("four".into())),
    ];
    let mut w = EditLog::new();
    reconcile_children(&vec![1, 2, 3], &vec![2, 3, 4], &children, &mut w);
    assert_eq!(
        w.ops,
        vec![
            EditOp::DeleteChild,
            EditOp::SkipChild,
            EditOp::SkipChild,
            EditOp::InsertChild(children[2].clone()),
        ]
    );
}

#[test]
fn keyed_children_without_common_keys_never_skip() {
    let children = vec![ptr(Node::Text("x".into())), ptr(Node::Text("y".into()))];
    let mut w = EditLog::new();
    reconcile_children(&vec![7, 8], &vec![9, 10], &children, &mut w);
    let skips = w.ops.iter().filter(|op| **op == EditOp::SkipChild).count();
    let deletes = w.ops.iter().filter(|op| **op == EditOp::DeleteChild).count();
    assert_eq!(skips, 0);
    assert_eq!(deletes, 2);
    assert_eq!(w.ops.len(), 4);
}

#[test]
fn both_child_lists_empty_give_nothing() {
    let old = element("div", &[("k", "v")], vec![]);
    let new = element("div", &[("k", "v")], vec![]);
    assert_eq!(run(&old, &new), vec![]);
}

#[test]
fn tag_change_replaces_whole_element() {
    let child = ptr(Node::Text("t".into()));
    let old = element("div", &[("a", "1")], vec![child.clone()]);
    let new = element("section", &[("b", "2")], vec![child]);
    let expected = match &new {
        Node::Element(e) => e.clone(),
        _ => panic!(),
    };
    let d = run(&old, &new);
    assert_eq!(d, vec![EditOp::ReplaceWithElement(expected)]);
    match &d[0] {
        EditOp::ReplaceWithElement(e) => {
            assert_eq!(e.attrs.get("b"), Some(&"2".to_string()));
            assert_eq!(e.children.len(), 1);
        }
        _ => panic!(),
    }
}

#[test]
fn attributes_and_children_in_one_diff() {
    let a = ptr(Node::Text("a".into()));
    let m = ptr(Node::Text("m".into()));
    let old = element("ul", &[("k", "old")], vec![a.clone()]);
    let new = element("ul", &[("k", "new")], vec![a, m.clone()]);
    assert_eq!(
        run(&old, &new),
        vec![
            EditOp::SetAttribute("k".into(), "new".into()),
            EditOp::SkipChild,
            EditOp::InsertChild(m),
        ]
    );
}
