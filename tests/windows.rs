use oi3h::criteria::{parse_criteria, Match, WindowType};
use oi3h::model::{Node, NodeBorder, NodeType, Output, Rect, WindowProperties, Workspace};
use oi3h::search::TreeIter;
use oi3h::windows::select_windows;

fn wnode(id: usize, name: &str, node_type: NodeType) -> Node {
    Node {
        id,
        name: Some(name.to_string()),
        node_type,
        border: NodeBorder::Normal,
        current_border_width: 1,
        window_rect: Rect { x: 0, y: 0, width: 1, height: 1 },
        window: None,
        window_properties: None,
        window_type: None,
        urgent: false,
        marks: vec![],
        focused: false,
        focus: vec![],
        nodes: vec![],
        floating_nodes: vec![],
    }
}

fn app(id: usize, class: &str, title: &str) -> Node {
    let mut n = wnode(id, title, NodeType::Con);
    n.window = Some(id * 100);
    n.window_properties = Some(WindowProperties {
        title: Some(title.to_string()),
        instance: Some(class.to_lowercase()),
        class: Some(class.to_string()),
        window_role: None,
    });
    n.window_type = Some(WindowType::Normal);
    n
}

fn desk() -> Node {
    let mut term = app(31, "Alacritty", "shell");
    term.marks = vec!["main".to_string()];
    term.focused = true;
    let browser = app(32, "Firefox", "news");
    let mut float = wnode(33, "float", NodeType::FloatingCon);
    let mut dialog = app(34, "Firefox", "Save as");
    dialog.window_type = Some(WindowType::Dialog);
    dialog.urgent = true;
    float.nodes = vec![dialog];
    let mut ws = wnode(30, "1", NodeType::Workspace);
    ws.nodes = vec![term, browser];
    ws.floating_nodes = vec![float];
    let mut out = wnode(20, "eDP-1", NodeType::Output);
    out.nodes = vec![ws];
    let mut root = wnode(10, "root", NodeType::Root);
    root.nodes = vec![out];
    root
}

fn run(tokens: &[&str]) -> Vec<(usize, bool)> {
    let tree = desk();
    let crit: Vec<Match> = tokens.iter().filter_map(|t| parse_criteria(t).unwrap()).collect();
    let outs = vec![Output { name: "eDP-1".to_string(), active: true, primary: true }];
    let wss = vec![Workspace { name: "1".to_string(), visible: true, focused: true, urgent: false }];
    select_windows(&tree, &outs, &wss, &crit)
        .iter()
        .map(|w| (w.node.id, w.floating))
        .collect()
}

#[test]
fn tree_iter_walks_preorder() {
    let tree = desk();
    let mut walk = TreeIter::new(&tree);
    let mut ids = Vec::new();
    while let Some(n) = walk.next() {
        ids.push(n.id);
    }
    assert_eq!(ids, vec![10, 20, 30, 31, 32, 33, 34]);
    assert!(walk.next().is_none());
}

#[test]
fn windows_without_criteria_are_all_windows() {
    assert_eq!(run(&[]), vec![(31, false), (32, false), (34, true)]);
}

#[test]
fn windows_by_class_and_floating() {
    assert_eq!(run(&["class=^Fire"]), vec![(32, false), (34, true)]);
    assert_eq!(run(&["class=^Fire", "tiling"]), vec![(32, false)]);
    assert_eq!(run(&["floating"]), vec![(34, true)]);
}

#[test]
fn windows_by_fields() {
    assert_eq!(run(&["window_type=dialog"]), vec![(34, true)]);
    assert_eq!(run(&["id=3200"]), vec![(32, false)]);
    assert_eq!(run(&["con_id=31"]), vec![(31, false)]);
    assert_eq!(run(&["con_id=__focused__"]), vec![(31, false)]);
    assert_eq!(run(&["con_mark=ma"]), vec![(31, false)]);
    assert_eq!(run(&["urgent=latest"]), vec![(34, true)]);
    assert_eq!(run(&["title=^news$", "instance=firefox"]), vec![(32, false)]);
    assert_eq!(run(&["window_role=."]), vec![]);
}

#[test]
fn windows_follow_workspace_narrowing() {
    assert_eq!(run(&["workspace=^9$"]), vec![]);
    assert_eq!(run(&["output=__primary__", "class=Alacritty"]), vec![(31, false)]);
}
