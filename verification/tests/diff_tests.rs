use seed::diff::{diff, AttrPatch, ChildOp, ListenerPatch, Patch};
use seed::tree::{Element, Node};

fn el(tag: &str, key: Option<u64>, attrs: Vec<(&str, &str)>, children: Vec<Node>) -> Node {
    Node::Element(Element {
        tag: tag.to_string(),
        attrs: attrs
            .into_iter()
            .map(|(k, v)| (k.to_string(), v.to_string()))
            .collect(),
        styles: vec![],
        listeners: vec![],
        children,
        key,
        ref_slot: None,
    })
}

fn txt(s: &str) -> Node {
    Node::Text(s.to_string())
}

#[test]
fn diff_equal_trees_is_noop() {
    let make = || {
        el(
            "div",
            None,
            vec![("id", "root"), ("class", "wide")],
            vec![
                txt("hello"),
                Node::Empty,
                el("li", Some(1), vec![], vec![txt("one")]),
                el("li", Some(2), vec![], vec![txt("two")]),
            ],
        )
    };
    let a = make();
    let b = make();
    assert!(matches!(diff(&a, &b), Patch::NoOp));
}

#[test]
fn diff_text_change_is_update_text() {
    let a = txt("before");
    let b = txt("after");
    match diff(&a, &b) {
        Patch::UpdateText(s) => assert_eq!(s, "after"),
        _ => panic!("expected a text update"),
    }
}

#[test]
fn diff_kind_change_is_replace() {
    let a = txt("x");
    let b = el("div", None, vec![], vec![]);
    assert!(matches!(diff(&a, &b), Patch::Replace(Node::Element(_))));
}

#[test]
fn diff_tag_change_is_replace() {
    let a = el("div", None, vec![], vec![]);
    let b = el("span", None, vec![], vec![]);
    assert!(matches!(diff(&a, &b), Patch::Replace(_)));
}

#[test]
fn diff_attr_changes_are_set_difference() {
    let a = el("div", None, vec![("kept", "same"), ("changed", "old"), ("gone", "x")], vec![]);
    let b = el("div", None, vec![("kept", "same"), ("changed", "new"), ("fresh", "y")], vec![]);
    match diff(&a, &b) {
        Patch::UpdateElement { attr_patches, style_patches, listener_patches, child_ops } => {
            assert_eq!(style_patches.len(), 0);
            assert_eq!(listener_patches.len(), 0);
            assert_eq!(child_ops.len(), 0);
            assert_eq!(attr_patches.len(), 3);
            assert!(matches!(
                &attr_patches[0],
                AttrPatch::Update { name, value } if name == "changed" && value == "new"
            ));
            assert!(matches!(
                &attr_patches[1],
                AttrPatch::Insert { name, value } if name == "fresh" && value == "y"
            ));
            assert!(matches!(
                &attr_patches[2],
                AttrPatch::Remove { name } if name == "gone"
            ));
        }
        _ => panic!("expected an element update"),
    }
}

#[test]
fn placeholder_occupies_one_position() {
    // [X, Empty, Y] against [X, Z, Y]: only the middle position changes,
    // and Y is compared position three to position three.
    let a = el("div", None, vec![], vec![txt("x"), Node::Empty, txt("y")]);
    let b = el("div", None, vec![], vec![txt("x"), txt("z"), txt("y")]);
    match diff(&a, &b) {
        Patch::UpdateElement { child_ops, .. } => {
            assert_eq!(child_ops.len(), 3);
            assert!(matches!(&child_ops[0], ChildOp::Patched { patch: Patch::NoOp }));
            match &child_ops[1] {
                ChildOp::Patched { patch: Patch::Replace(Node::Text(s)) } => {
                    assert_eq!(s, "z")
                }
                _ => panic!("middle position must be replaced in place"),
            }
            assert!(matches!(&child_ops[2], ChildOp::Patched { patch: Patch::NoOp }));
        }
        _ => panic!("expected an element update"),
    }
}

#[test]
fn keyed_swap_emits_moves_not_recreation() {
    let a = el(
        "ul",
        None,
        vec![],
        vec![
            el("li", Some(1), vec![], vec![txt("a")]),
            el("li", Some(2), vec![], vec![txt("b")]),
        ],
    );
    let b = el(
        "ul",
        None,
        vec![],
        vec![
            el("li", Some(2), vec![], vec![txt("b")]),
            el("li", Some(1), vec![], vec![txt("a")]),
        ],
    );
    match diff(&a, &b) {
        Patch::UpdateElement { child_ops, .. } => {
            assert_eq!(child_ops.len(), 2);
            assert!(matches!(&child_ops[0], ChildOp::Moved { from: 1, patch: Patch::NoOp }));
            assert!(matches!(&child_ops[1], ChildOp::Moved { from: 0, patch: Patch::NoOp }));
        }
        _ => panic!("expected an element update"),
    }
}

#[test]
fn trailing_child_is_removed() {
    let a = el("div", None, vec![], vec![txt("x"), txt("y")]);
    let b = el("div", None, vec![], vec![txt("x")]);
    match diff(&a, &b) {
        Patch::UpdateElement { child_ops, .. } => {
            assert_eq!(child_ops.len(), 2);
            assert!(matches!(&child_ops[0], ChildOp::Patched { patch: Patch::NoOp }));
            assert!(matches!(&child_ops[1], ChildOp::Removed { from: 1 }));
        }
        _ => panic!("expected an element update"),
    }
}

#[test]
fn new_child_is_inserted() {
    let a = el("div", None, vec![], vec![txt("x")]);
    let b = el("div", None, vec![], vec![txt("x"), txt("y")]);
    match diff(&a, &b) {
        Patch::UpdateElement { child_ops, .. } => {
            assert_eq!(child_ops.len(), 2);
            assert!(matches!(&child_ops[0], ChildOp::Patched { patch: Patch::NoOp }));
            assert!(matches!(&child_ops[1], ChildOp::Inserted { node: Node::Text(_) }));
        }
        _ => panic!("expected an element update"),
    }
}

#[test]
fn listener_identity_change_is_detach_then_attach() {
    let old = Node::Element(Element {
        tag: "button".to_string(),
        attrs: vec![],
        styles: vec![],
        listeners: vec![("click".to_string(), 7)],
        children: vec![],
        key: None,
        ref_slot: None,
    });
    let new = Node::Element(Element {
        tag: "button".to_string(),
        attrs: vec![],
        styles: vec![],
        listeners: vec![("click".to_string(), 8)],
        children: vec![],
        key: None,
        ref_slot: None,
    });
    match diff(&old, &new) {
        Patch::UpdateElement { listener_patches, .. } => {
            assert_eq!(listener_patches.len(), 2);
            assert!(matches!(
                &listener_patches[0],
                ListenerPatch::Detach { event, handler: 7 } if event == "click"
            ));
            assert!(matches!(
                &listener_patches[1],
                ListenerPatch::Attach { event, handler: 8 } if event == "click"
            ));
        }
        _ => panic!("expected an element update"),
    }
}
