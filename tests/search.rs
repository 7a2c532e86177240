use oi3h::model::{Node, NodeBorder, NodeType, Rect, Workspace};
use oi3h::search::{
    i3_find_focused_node, i3_find_focused_workspace, i3_find_largest_tiled_window,
    i3_tree_find_all, i3_tree_find_first,
};

fn tnode(id: usize, name: &str, node_type: NodeType) -> Node {
    Node {
        id,
        name: if name.is_empty() { None } else { Some(name.to_string()) },
        node_type,
        border: NodeBorder::Normal,
        current_border_width: 2,
        window_rect: Rect { x: 0, y: 0, width: 0, height: 0 },
        window: None,
        window_properties: None,
        window_type: None,
        urgent: false,
        marks: vec![],
        focused: false,
        focus: vec![],
        nodes: vec![],
        floating_nodes: vec![],
    }
}

fn window(id: usize, name: &str, width: isize, height: isize) -> Node {
    let mut n = tnode(id, name, NodeType::Con);
    n.window = Some(id * 10);
    n.window_rect = Rect { x: 0, y: 0, width, height };
    n
}

#[test]
fn find_focused_follows_focus_lists_deeply() {
    let mut leaf = window(5, "deep", 10, 10);
    leaf.focused = true;
    let mut inner = tnode(4, "inner", NodeType::Con);
    inner.nodes = vec![window(6, "other", 1, 1), leaf];
    inner.focus = vec![5, 6];
    let mut ws = tnode(3, "1", NodeType::Workspace);
    ws.nodes = vec![inner];
    ws.focus = vec![4];
    let mut out = tnode(2, "eDP-1", NodeType::Output);
    out.nodes = vec![ws];
    out.focus = vec![3];
    let mut root = tnode(1, "root", NodeType::Root);
    root.nodes = vec![out];
    root.focus = vec![2];
    let f = i3_find_focused_node(&root).unwrap();
    assert_eq!(f.id, 5);
    assert_eq!(f.name.as_deref(), Some("deep"));
}

#[test]
fn find_focused_looks_in_floating_children() {
    let mut float = window(7, "float", 5, 5);
    float.focused = true;
    let mut ws = tnode(3, "1", NodeType::Workspace);
    ws.nodes = vec![window(6, "tiled", 1, 1)];
    ws.floating_nodes = vec![float];
    ws.focus = vec![7, 6];
    assert_eq!(i3_find_focused_node(&ws).unwrap().id, 7);
}

#[test]
fn find_focused_without_focus_entry_is_none() {
    let mut ws = tnode(3, "1", NodeType::Workspace);
    ws.nodes = vec![window(6, "tiled", 1, 1)];
    assert!(i3_find_focused_node(&ws).is_none());
    ws.focus = vec![99];
    assert!(i3_find_focused_node(&ws).is_none());
}

#[test]
fn largest_tiled_prefers_larger_area() {
    let mut ws = tnode(3, "1", NodeType::Workspace);
    ws.nodes = vec![window(10, "small", 10, 10), window(11, "big", 10, 20)];
    assert_eq!(i3_find_largest_tiled_window(&ws).unwrap().id, 11);
}

#[test]
fn largest_tiled_keeps_earlier_on_tie() {
    let mut ws = tnode(3, "1", NodeType::Workspace);
    ws.nodes = vec![window(10, "first", 10, 10), window(11, "second", 20, 5)];
    assert_eq!(i3_find_largest_tiled_window(&ws).unwrap().id, 10);
}

#[test]
fn largest_tiled_descends_and_skips_floating() {
    let mut split = tnode(20, "split", NodeType::Con);
    split.nodes = vec![window(21, "nested", 30, 30)];
    let mut ws = tnode(3, "1", NodeType::Workspace);
    ws.nodes = vec![window(10, "a", 10, 10), split];
    ws.floating_nodes = vec![window(30, "huge float", 1000, 1000)];
    assert_eq!(i3_find_largest_tiled_window(&ws).unwrap().id, 21);
    assert!(i3_find_largest_tiled_window(&tnode(1, "", NodeType::Workspace)).is_none());
}

#[test]
fn find_first_is_preorder() {
    let mut a = tnode(2, "x", NodeType::Con);
    a.nodes = vec![tnode(3, "x", NodeType::Con)];
    let mut root = tnode(1, "root", NodeType::Root);
    root.nodes = vec![a];
    root.floating_nodes = vec![tnode(4, "x", NodeType::FloatingCon)];
    let found = i3_tree_find_first(&root, |n: &Node| n.name.as_deref() == Some("x"));
    assert_eq!(found.unwrap().id, 2);
    assert!(i3_tree_find_first(&root, |n: &Node| n.id == 42).is_none());
    assert_eq!(i3_tree_find_first(&root, |n: &Node| n.id == 4).unwrap().id, 4);
}

#[test]
fn find_all_is_postorder() {
    let mut a = tnode(2, "a", NodeType::Con);
    a.nodes = vec![tnode(3, "b", NodeType::Con)];
    let mut root = tnode(1, "root", NodeType::Con);
    root.nodes = vec![a];
    root.floating_nodes = vec![tnode(4, "c", NodeType::Con)];
    let ids: Vec<usize> = i3_tree_find_all(&root, |n: &Node| n.node_type == NodeType::Con)
        .iter()
        .map(|n| n.id)
        .collect();
    assert_eq!(ids, vec![3, 2, 4, 1]);
}

#[test]
fn focused_workspace_by_name() {
    let mut root = tnode(1, "root", NodeType::Root);
    let mut out = tnode(2, "eDP-1", NodeType::Output);
    out.nodes = vec![tnode(3, "1", NodeType::Workspace), tnode(4, "2", NodeType::Workspace)];
    root.nodes = vec![out];
    let wss = vec![
        Workspace { name: "1".to_string(), visible: false, focused: false, urgent: false },
        Workspace { name: "2".to_string(), visible: true, focused: true, urgent: false },
    ];
    assert_eq!(i3_find_focused_workspace(&wss, &root).unwrap().id, 4);
    let none_focused = vec![Workspace {
        name: "1".to_string(),
        visible: true,
        focused: false,
        urgent: false,
    }];
    assert!(i3_find_focused_workspace(&none_focused, &root).is_none());
}
