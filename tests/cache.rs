use oi3h::border::Border;
use oi3h::i3cache::{CacheError, Fetch, I3Cache};
use oi3h::model::{Node, NodeBorder, NodeType, Output, Rect, Workspace};

fn knode(id: usize, name: &str, node_type: NodeType) -> Node {
    Node {
        id,
        name: Some(name.to_string()),
        node_type,
        border: NodeBorder::Normal,
        current_border_width: 3,
        window_rect: Rect { x: 0, y: 0, width: 4, height: 4 },
        window: None,
        window_properties: None,
        window_type: None,
        urgent: false,
        marks: vec![],
        focused: false,
        focus: vec![],
        nodes: vec![],
        floating_nodes: vec![],
    }
}

fn tree() -> Node {
    let mut win = knode(5, "term", NodeType::Con);
    win.window = Some(77);
    win.focused = true;
    win.border = NodeBorder::Pixel;
    let mut ws = knode(4, "2", NodeType::Workspace);
    ws.nodes = vec![win];
    ws.focus = vec![5];
    let mut out = knode(2, "eDP-1", NodeType::Output);
    out.nodes = vec![knode(3, "1", NodeType::Workspace), ws];
    out.focus = vec![4, 3];
    let mut root = knode(1, "root", NodeType::Root);
    root.nodes = vec![out];
    root.focus = vec![2];
    root
}

#[test]
fn cache_starts_empty() {
    let mut cache = I3Cache::new();
    assert!(cache.needs(Fetch::Tree));
    assert!(cache.needs(Fetch::Workspaces));
    assert!(cache.needs(Fetch::Outputs));
    assert_eq!(cache.full_tree().err(), Some(CacheError::NotFetched(Fetch::Tree)));
    assert_eq!(cache.focused_node().err(), Some(CacheError::NotFetched(Fetch::Tree)));
    assert_eq!(cache.workspaces().err(), Some(CacheError::NotFetched(Fetch::Workspaces)));
    assert_eq!(cache.outputs().err(), Some(CacheError::NotFetched(Fetch::Outputs)));
}

#[test]
fn cache_transport_error_leaves_it_unfilled() {
    let mut cache = I3Cache::new();
    assert_eq!(
        cache.store_tree(Err("broken pipe".to_string())),
        Err(CacheError::Transport("broken pipe".to_string()))
    );
    assert!(cache.needs(Fetch::Tree));
    assert_eq!(cache.store_tree(Ok(tree())), Ok(()));
    assert!(!cache.needs(Fetch::Tree));
}

#[test]
fn cache_keeps_first_snapshot() {
    let mut cache = I3Cache::new();
    cache.store_tree(Ok(tree())).unwrap();
    cache.store_tree(Ok(knode(100, "other", NodeType::Root))).unwrap();
    assert_eq!(cache.full_tree().unwrap().id, 1);
}

#[test]
fn cache_focused_node_and_border() {
    let mut cache = I3Cache::new();
    cache.store_tree(Ok(tree())).unwrap();
    let f = cache.focused_node().unwrap();
    assert_eq!(f.id, 5);
    let current = Border::of_node(f);
    assert_eq!((current.border, current.width), (NodeBorder::Pixel, Some(3)));
    assert_eq!(cache.focused_node().unwrap().id, 5);
}

#[test]
fn cache_focused_node_missing() {
    let mut cache = I3Cache::new();
    cache.store_tree(Ok(knode(1, "root", NodeType::Root))).unwrap();
    assert!(matches!(cache.focused_node(), Err(CacheError::NotFound(_))));
}

#[test]
fn cache_focused_workspace() {
    let mut cache = I3Cache::new();
    cache.store_tree(Ok(tree())).unwrap();
    assert_eq!(cache.focused_workspace().err(), Some(CacheError::NotFetched(Fetch::Workspaces)));
    let wss = vec![
        Workspace { name: "1".to_string(), visible: false, focused: false, urgent: false },
        Workspace { name: "2".to_string(), visible: true, focused: true, urgent: false },
    ];
    cache.store_workspaces(Ok(wss)).unwrap();
    assert_eq!(cache.focused_workspace().unwrap().id, 4);
    assert_eq!(cache.focused_workspace().unwrap().name.as_deref(), Some("2"));
    assert_eq!(cache.workspaces().unwrap().len(), 2);
}

#[test]
fn cache_focused_workspace_missing() {
    let mut cache = I3Cache::new();
    cache.store_tree(Ok(tree())).unwrap();
    let wss = vec![Workspace { name: "9".to_string(), visible: true, focused: true, urgent: false }];
    cache.store_workspaces(Ok(wss)).unwrap();
    assert!(matches!(cache.focused_workspace(), Err(CacheError::NotFound(_))));
}

#[test]
fn cache_outputs() {
    let mut cache = I3Cache::new();
    let outs = vec![Output { name: "eDP-1".to_string(), active: true, primary: true }];
    assert_eq!(cache.store_outputs(Ok(outs)), Ok(()));
    assert_eq!(cache.outputs().unwrap()[0].name, "eDP-1");
    assert!(cache.store_outputs(Err("x".to_string())).is_ok());
}
