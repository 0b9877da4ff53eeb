use fusion_design::canvas::{
    check_limits, CanvasError, LayoutMode, Measure, NodeKind, NodeStyle, Page, PenDocument, PenNode,
    MAX_NODES, MAX_NODE_DEPTH,
};
use fusion_design::num::Num;
use fusion_design::undo::{UndoDelta, UndoRedoStack, MAX_UNDO_LEVELS};

fn num(x: f64) -> Num {
    Num { bits: x.to_bits(), text: x.to_string() }
}

fn node(id: &str) -> PenNode {
    PenNode {
        id: id.into(),
        kind: NodeKind::Rect,
        name: id.into(),
        x: num(0.0),
        y: num(0.0),
        w: num(10.0),
        h: num(10.0),
        style: NodeStyle {
            fill: None,
            stroke: None,
            stroke_width: None,
            radius: None,
            opacity: None,
            font_size: None,
            font_family: None,
            layout: LayoutMode::Free,
            design_token_refs: vec![],
        },
        text: None,
        children: vec![],
        rotation: num(0.0),
        z_index: 0,
        measure: Measure {
            right: num(10.0),
            bottom: num(10.0),
            text_width: num(0.0),
            rotation_rest: num(0.0),
            rotation_label: "0.0".into(),
            contrast: num(1.0),
            center_x: num(5.0),
            center_y: num(5.0),
            half_side: num(5.0),
        },
    }
}

fn doc_with_nodes(ids: &[&str]) -> PenDocument {
    PenDocument {
        schema_version: 1,
        pages: vec![Page {
            id: "p0".into(),
            name: "P0".into(),
            width: num(100.0),
            height: num(100.0),
            nodes: ids.iter().map(|id| node(id)).collect(),
        }],
        active_design_system: None,
    }
}

fn node_ids(doc: &PenDocument) -> Vec<String> {
    match doc.pages.first() {
        Some(p) => p.nodes.iter().map(|n| n.id.clone()).collect(),
        None => vec![],
    }
}

#[test]
fn undo_reverses_add() {
    let mut stack = UndoRedoStack::new(doc_with_nodes(&["a"]));
    let new_doc = doc_with_nodes(&["a", "b"]);
    let delta = UndoDelta::compute(stack.current(), &new_doc);
    stack.push(delta);
    assert_eq!(node_ids(stack.current()), vec!["a".to_string(), "b".into()]);
    let undone = stack.undo().unwrap();
    assert_eq!(node_ids(&undone), vec!["a".to_string()]);
}

#[test]
fn undo_reverses_delete() {
    let mut stack = UndoRedoStack::new(doc_with_nodes(&["a", "b"]));
    let new_doc = doc_with_nodes(&["a"]);
    let delta = UndoDelta::compute(stack.current(), &new_doc);
    stack.push(delta);
    assert_eq!(node_ids(stack.current()), vec!["a".to_string()]);
    let undone = stack.undo().unwrap();
    assert_eq!(node_ids(&undone), vec!["a".to_string(), "b".into()]);
}

#[test]
fn undo_reverses_modify() {
    let mut doc0 = doc_with_nodes(&["a"]);
    doc0.pages[0].nodes[0].x = num(5.0);
    let mut stack = UndoRedoStack::new(doc0.clone());
    let mut new_doc = doc0.clone();
    new_doc.pages[0].nodes[0].x = num(99.0);
    let delta = UndoDelta::compute(stack.current(), &new_doc);
    stack.push(delta);
    assert_eq!(stack.current().pages[0].nodes[0].x.text, "99");
    let undone = stack.undo().unwrap();
    assert_eq!(undone.pages[0].nodes[0].x.text, "5");
}

#[test]
fn redo_reapplies_delta() {
    let mut stack = UndoRedoStack::new(doc_with_nodes(&["a"]));
    let new_doc = doc_with_nodes(&["a", "b", "c"]);
    let delta = UndoDelta::compute(stack.current(), &new_doc);
    stack.push(delta);
    let _ = stack.undo().unwrap();
    assert_eq!(node_ids(stack.current()), vec!["a".to_string()]);
    let redone = stack.redo().unwrap();
    assert_eq!(node_ids(&redone), vec!["a".to_string(), "b".into(), "c".into()]);
}

#[test]
fn nothing_to_undo_or_redo() {
    let mut stack = UndoRedoStack::new(doc_with_nodes(&["a"]));
    assert!(stack.undo().is_none());
    assert!(stack.redo().is_none());
}

#[test]
fn oldest_changes_are_forgotten() {
    let mut stack = UndoRedoStack::new(doc_with_nodes(&["n0"]));
    for i in 1..(MAX_UNDO_LEVELS + 10) {
        let id = format!("n{i}");
        let delta = UndoDelta::compute(stack.current(), &doc_with_nodes(&[id.as_str()]));
        stack.push(delta);
    }
    let mut steps = 0;
    while stack.undo().is_some() {
        steps += 1;
    }
    assert_eq!(steps, MAX_UNDO_LEVELS);
}

#[test]
fn push_forgets_what_could_be_redone() {
    let mut stack = UndoRedoStack::new(doc_with_nodes(&["a"]));
    let delta = UndoDelta::compute(stack.current(), &doc_with_nodes(&["a", "b"]));
    stack.push(delta);
    stack.undo().unwrap();
    let delta = UndoDelta::compute(stack.current(), &doc_with_nodes(&["a", "c"]));
    stack.push(delta);
    assert!(stack.redo().is_none());
    assert_eq!(node_ids(stack.current()), vec!["a".to_string(), "c".into()]);
}

#[test]
fn nested_node_is_replaced() {
    let mut old = doc_with_nodes(&["g"]);
    old.pages[0].nodes[0].children.push(node("inner"));
    let mut new = old.clone();
    new.pages[0].nodes[0].children[0].x = num(7.0);
    let delta = UndoDelta::compute(&old, &new);
    let mut doc = old.clone();
    delta.apply(&mut doc);
    assert_eq!(doc.pages[0].nodes[0].children[0].x.text, "7");
    delta.apply_reverse(&mut doc);
    assert_eq!(doc.pages[0].nodes[0].children[0].x.text, "0");
}

#[test]
fn stack_is_put_together_again() {
    let mut stack = UndoRedoStack::new(doc_with_nodes(&["a"]));
    let delta = UndoDelta::compute(stack.current(), &doc_with_nodes(&["a", "b"]));
    stack.push(delta);
    let (current, undo, redo) = stack.into_parts();
    assert_eq!((undo.len(), redo.len()), (1, 0));
    let mut back = UndoRedoStack::from_parts(current, undo, redo);
    assert_eq!(node_ids(back.current()), vec!["a".to_string(), "b".into()]);
    assert_eq!(node_ids(&back.undo().unwrap()), vec!["a".to_string()]);
}

#[test]
fn difference_leads_to_the_new_nodes() {
    let old = doc_with_nodes(&["a", "b", "c"]);
    let mut new = doc_with_nodes(&["c", "d", "a"]);
    new.pages[0].nodes[0].x = num(3.0);
    let mut doc = old.clone();
    UndoDelta::compute(&old, &new).apply(&mut doc);
    let mut ids = node_ids(&doc);
    ids.sort();
    assert_eq!(ids, vec!["a".to_string(), "c".into(), "d".into()]);
    for n in &doc.pages[0].nodes {
        let wanted = if n.id == "c" { "3" } else { "0" };
        assert_eq!(n.x.text, wanted);
    }
}

#[test]
fn node_may_move_between_levels() {
    let mut old = doc_with_nodes(&["a", "b"]);
    old.pages[0].nodes[0].children.push(node("inner"));
    let new = doc_with_nodes(&["a", "inner"]);
    let delta = UndoDelta::compute(&old, &new);
    let mut doc = old.clone();
    delta.apply(&mut doc);
    assert_eq!(node_ids(&doc), vec!["a".to_string(), "inner".into()]);
    assert!(doc.pages[0].nodes[0].children.is_empty());
    delta.apply_reverse(&mut doc);
    assert_eq!(node_ids(&doc), vec!["a".to_string(), "b".into()]);
    assert_eq!(doc.pages[0].nodes[0].children[0].id, "inner");
}

#[test]
fn deleted_nodes_come_back_at_the_end() {
    let old = doc_with_nodes(&["a", "b", "c"]);
    let mut stack = UndoRedoStack::new(old.clone());
    stack.push(UndoDelta::compute(&old, &doc_with_nodes(&["c", "d"])));
    assert_eq!(node_ids(stack.current()), vec!["c".to_string(), "d".into()]);
    let back = stack.undo().unwrap();
    assert_eq!(node_ids(&back), vec!["c".to_string(), "a".into(), "b".into()]);
}

#[test]
fn way_back_is_turned_round() {
    let a = doc_with_nodes(&["x", "y", "z"]);
    let mut b = doc_with_nodes(&["z", "y", "w"]);
    b.pages[0].nodes[0].x = num(1.0);
    b.pages[0].nodes[1].x = num(2.0);
    let there = UndoDelta::compute(&a, &b);
    let back = UndoDelta::compute(&b, &a);
    let ids = |ns: &[PenNode]| ns.iter().map(|n| n.id.clone()).collect::<Vec<_>>();
    assert_eq!(ids(&there.added), ids(&back.deleted));
    assert_eq!(ids(&there.deleted), ids(&back.added));
    assert_eq!(there.modified.len(), 2);
    for c in &there.modified {
        let r = back.modified.iter().find(|r| r.node_id == c.node_id).unwrap();
        assert_eq!((&r.old.x.text, &r.new.x.text), (&c.new.x.text, &c.old.x.text));
    }
    let none = UndoDelta::compute(&a, &a);
    assert!(none.added.is_empty() && none.deleted.is_empty() && none.modified.is_empty());
}

fn nested(levels: usize) -> PenNode {
    let mut n = node("0");
    for i in 1..levels {
        let mut outer = node(&i.to_string());
        outer.children.push(n);
        n = outer;
    }
    n
}

#[test]
fn deep_documents_are_refused() {
    let mut doc = doc_with_nodes(&["a"]);
    doc.pages[0].nodes.push(nested(MAX_NODE_DEPTH));
    assert!(check_limits(&doc).is_ok());
    doc.pages[0].nodes.push(nested(MAX_NODE_DEPTH + 1));
    assert_eq!(check_limits(&doc), Err(CanvasError::DepthExceeded));
    assert!(check_limits(&doc_with_nodes(&[])).is_ok());
}

#[test]
fn large_documents_are_refused() {
    let mut doc = doc_with_nodes(&["a"]);
    let mut group = node("g");
    group.children = (0..MAX_NODES - 2).map(|i| node(&i.to_string())).collect();
    doc.pages.push(Page {
        id: "p1".into(),
        name: "P1".into(),
        width: num(1.0),
        height: num(1.0),
        nodes: vec![group],
    });
    assert!(check_limits(&doc).is_ok());
    doc.pages[0].nodes.push(node("b"));
    assert_eq!(check_limits(&doc), Err(CanvasError::NodeTotalExceeded));
}
