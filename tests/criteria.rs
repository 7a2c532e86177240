use oi3h::criteria::{
    all_outputs, all_workspaces, match_output, match_workspace, parse_con_id, parse_criteria,
    parse_urgent, parse_window_type, select_workspaces, validate_criteria, ConId, Match, Urgent,
    WindowType,
};
use oi3h::model::{Node, NodeBorder, NodeType, Output, Rect, Workspace};

fn cnode(id: usize, name: &str, node_type: NodeType) -> Node {
    Node {
        id,
        name: Some(name.to_string()),
        node_type,
        border: NodeBorder::Pixel,
        current_border_width: 1,
        window_rect: Rect { x: 0, y: 0, width: 1, height: 1 },
        window: None,
        window_properties: None,
        window_type: None,
        urgent: false,
        marks: vec![],
        focused: false,
        focus: vec![],
        nodes: vec![],
        floating_nodes: vec![],
    }
}

fn output(name: &str, ws: &[(usize, &str)], id: usize) -> Node {
    let mut o = cnode(id, name, NodeType::Output);
    let mut content = cnode(id + 1, "content", NodeType::Con);
    content.nodes = ws.iter().map(|(i, n)| cnode(*i, n, NodeType::Workspace)).collect();
    o.nodes = vec![content];
    o
}

fn layout() -> Node {
    let mut root = cnode(1, "root", NodeType::Root);
    root.nodes = vec![
        output("eDP-1", &[(11, "1"), (12, "2")], 10),
        output("HDMI-1", &[(21, "3"), (22, "web")], 20),
    ];
    root
}

fn out_list(primary: bool) -> Vec<Output> {
    vec![
        Output { name: "eDP-1".to_string(), active: true, primary: false },
        Output { name: "HDMI-1".to_string(), active: true, primary },
    ]
}

fn ws_list() -> Vec<Workspace> {
    vec![
        Workspace { name: "1".to_string(), visible: true, focused: false, urgent: false },
        Workspace { name: "3".to_string(), visible: true, focused: true, urgent: false },
        Workspace { name: "web".to_string(), visible: false, focused: false, urgent: true },
    ]
}

fn names(v: &[&Node]) -> Vec<String> {
    v.iter().map(|n| n.name.clone().unwrap_or_default()).collect()
}

fn criteria(tokens: &[&str]) -> Vec<Match> {
    tokens.iter().filter_map(|t| parse_criteria(t).unwrap()).collect()
}

#[test]
fn criteria_class_pattern() {
    match parse_criteria("class=foo.*") {
        Ok(Some(Match::Class(p))) => assert_eq!(p.as_str(), "foo.*"),
        _ => panic!("expected a class criterion"),
    }
}

#[test]
fn criteria_unknown_key_is_error() {
    let e = parse_criteria("bogus=x").err().unwrap();
    assert!(e.contains("bogus=x"));
}

#[test]
fn criteria_hex_id() {
    assert!(matches!(parse_criteria("id=0x1A"), Ok(Some(Match::Id(26)))));
    assert!(matches!(parse_criteria("id=42"), Ok(Some(Match::Id(42)))));
    assert!(parse_criteria("id=4294967296").is_err());
    assert!(parse_criteria("id=0x").is_err());
    assert!(parse_criteria("id=abc").is_err());
}

#[test]
fn criteria_quotes_are_stripped() {
    match parse_criteria("title=\"a b\"") {
        Ok(Some(Match::Title(p))) => assert_eq!(p.as_str(), "a b"),
        _ => panic!("expected a title criterion"),
    }
    match parse_criteria("instance=\"") {
        Ok(Some(Match::Instance(p))) => assert_eq!(p.as_str(), "\""),
        _ => panic!("expected an instance criterion"),
    }
}

#[test]
fn criteria_keys_ignore_case() {
    assert!(matches!(parse_criteria("FLOATING"), Ok(Some(Match::Floating))));
    assert!(matches!(parse_criteria("tiling"), Ok(Some(Match::Tiling))));
    assert!(matches!(parse_criteria("Output=eDP.*"), Ok(Some(Match::Output(_)))));
}

#[test]
fn criteria_brackets_give_nothing() {
    assert!(matches!(parse_criteria("["), Ok(None)));
    assert!(matches!(parse_criteria("]"), Ok(None)));
}

#[test]
fn criteria_missing_value_names_key() {
    let e = parse_criteria("workspace").err().unwrap();
    assert!(e.contains("workspace"));
    assert!(parse_criteria("con_id").is_err());
}

#[test]
fn criteria_bad_regex_names_key() {
    let e = parse_criteria("con_mark=(").err().unwrap();
    assert!(e.starts_with("con_mark: "));
    assert!(e.len() > "con_mark: ".len());
}

#[test]
fn criteria_enum_values() {
    assert!(matches!(
        parse_criteria("window_type=Dropdown_Menu"),
        Ok(Some(Match::WindowType(WindowType::DropdownMenu)))
    ));
    assert!(matches!(parse_criteria("urgent=NEWEST"), Ok(Some(Match::Urgent(Urgent::Latest)))));
    assert!(matches!(parse_criteria("con_id=__focused__"), Ok(Some(Match::ConId(ConId::Focused)))));
    assert!(matches!(parse_criteria("con_id=0x10"), Ok(Some(Match::ConId(ConId::Id(16))))));
    assert!(parse_criteria("window_type=dock").is_err());
}

#[test]
fn value_parsers() {
    assert_eq!(parse_window_type("Tooltip"), Ok(WindowType::Tooltip));
    assert!(parse_window_type("window").is_err());
    assert_eq!(parse_urgent("first"), Ok(Urgent::Oldest));
    assert_eq!(parse_urgent("Recent"), Ok(Urgent::Latest));
    assert!(parse_urgent("soon").is_err());
    assert_eq!(parse_con_id("12"), Ok(ConId::Id(12)));
    assert!(parse_con_id("-1").is_err());
}

#[test]
fn validate_criteria_reports_validity() {
    assert_eq!(validate_criteria("class=x".to_string()), Ok(()));
    assert!(validate_criteria("nope".to_string()).is_err());
}

#[test]
fn narrowing_primary_without_primary_output_is_empty() {
    let tree = layout();
    let crit = criteria(&["output=__primary__"]);
    let outs = out_list(false);
    let selected = select_workspaces(&tree, &outs, &ws_list(), &crit);
    assert!(selected.0.is_empty());
}

#[test]
fn narrowing_primary_output_keeps_its_workspaces() {
    let tree = layout();
    let crit = criteria(&["output=__primary__"]);
    let selected = select_workspaces(&tree, &out_list(true), &ws_list(), &crit);
    assert_eq!(names(&selected.0), vec!["3", "web"]);
}

#[test]
fn narrowing_by_output_regex_and_workspace_selector() {
    let tree = layout();
    let all = all_outputs(&tree);
    assert_eq!(names(&all.0), vec!["eDP-1", "HDMI-1"]);
    let p = match parse_criteria("output=^HD").unwrap() {
        Some(Match::Output(p)) => p,
        _ => panic!("expected an output criterion"),
    };
    let kept = match_output(&out_list(false), all, &p);
    assert_eq!(names(&kept.0), vec!["HDMI-1"]);
    let wss = all_workspaces(kept);
    assert_eq!(names(&wss.0), vec!["3", "web"]);
    let sel = match parse_criteria("workspace=__urgent__").unwrap() {
        Some(Match::Workspace(p)) => p,
        _ => panic!("expected a workspace criterion"),
    };
    let urgent = match_workspace(&ws_list(), wss, &sel);
    assert_eq!(names(&urgent.0), vec!["web"]);
}

#[test]
fn narrowing_chains_criteria_in_order() {
    let tree = layout();
    let crit = criteria(&["[", "output=HDMI", "workspace=^[0-9]+$", "workspace=__focused__", "]"]);
    let selected = select_workspaces(&tree, &out_list(false), &ws_list(), &crit);
    assert_eq!(names(&selected.0), vec!["3"]);
    let none = criteria(&["workspace=__visible__", "workspace=web"]);
    let selected = select_workspaces(&tree, &out_list(false), &ws_list(), &none);
    assert!(selected.0.is_empty());
}
