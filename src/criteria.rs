//! The criteria language: `key` or `key=value` tokens that select outputs,
//! workspaces and windows, and the narrowing of candidate sets by them.
use vstd::prelude::*;
use vstd::string::*;

use crate::model::{postorder, targets, Node, NodeType, Output, Workspace};
use crate::pattern::{
    compile_pattern, pattern_is_match, regex_compiles, regex_error_message, regex_is_match, Pattern,
};
use crate::search::{computes, find_all_by};
use crate::text::{lowercase, lowered, parse_unsigned, text_eq, unsigned_value};

verus! {

/// The `_NET_WM_WINDOW_TYPE` values that a criterion can ask for.
#[derive(Debug, Clone, Copy, PartialEq, Eq, Structural, Hash)]
pub enum WindowType {
    Normal,
    Dialog,
    Utility,
    Toolbar,
    Splash,
    Menu,
    DropdownMenu,
    PopupMenu,
    Tooltip,
    Notification,
}

/// Which urgent window a criterion selects.
#[derive(Debug, Clone, Copy, PartialEq, Eq, Structural, Hash)]
pub enum Urgent {
    Latest,
    Oldest,
}

/// A container id, or the focused container.
#[derive(Debug, Clone, Copy, PartialEq, Eq, Structural, Hash)]
pub enum ConId {
    Focused,
    Id(usize),
}

/// A criterion: one predicate on outputs, workspaces or windows.
pub enum Match {
    Class(Pattern),
    Instance(Pattern),
    WindowRole(Pattern),
    WindowType(WindowType),
    Id(u32),
    Title(Pattern),
    Urgent(Urgent),
    Output(Pattern),
    Workspace(Pattern),
    ConMark(Pattern),
    ConId(ConId),
    Floating,
    Tiling,
}

// ---------------------------------------------------------------------------
// Values
// ---------------------------------------------------------------------------

/// The window type that a lower-cased name stands for.
pub open spec fn window_type_value(w: Seq<char>) -> Option<WindowType> {
    if w == "normal"@ {
        Some(WindowType::Normal)
    } else if w == "dialog"@ {
        Some(WindowType::Dialog)
    } else if w == "utility"@ {
        Some(WindowType::Utility)
    } else if w == "toolbar"@ {
        Some(WindowType::Toolbar)
    } else if w == "splash"@ {
        Some(WindowType::Splash)
    } else if w == "menu"@ {
        Some(WindowType::Menu)
    } else if w == "dropdown_menu"@ {
        Some(WindowType::DropdownMenu)
    } else if w == "popup_menu"@ {
        Some(WindowType::PopupMenu)
    } else if w == "tooltip"@ {
        Some(WindowType::Tooltip)
    } else if w == "notification"@ {
        Some(WindowType::Notification)
    } else {
        None
    }
}

/// The urgency selection that a lower-cased name stands for.
pub open spec fn urgent_value(w: Seq<char>) -> Option<Urgent> {
    if w == "latest"@ || w == "newest"@ || w == "recent"@ || w == "last"@ {
        Some(Urgent::Latest)
    } else if w == "oldest"@ || w == "first"@ {
        Some(Urgent::Oldest)
    } else {
        None
    }
}

/// An unsigned number no larger than `max`: hexadecimal after a `0x` prefix,
/// decimal otherwise.
pub open spec fn number_value(v: Seq<char>, max: nat) -> Option<nat> {
    if v.len() >= 2 && v[0] == '0' && v[1] == 'x' {
        unsigned_value(v.skip(2), 16, max)
    } else {
        unsigned_value(v, 10, max)
    }
}

/// The container id that a value stands for: `__focused__`, or a number.
pub open spec fn con_id_value(v: Seq<char>) -> Option<ConId> {
    if v == "__focused__"@ {
        Some(ConId::Focused)
    } else {
        match number_value(v, usize::MAX as nat) {
            Some(n) => Some(ConId::Id(n as usize)),
            None => None,
        }
    }
}

/// Names the window type that `name` stands for, once lower-cased.
pub fn window_type_from_name(name: &str) -> (r: Result<WindowType, String>)
    ensures
        match r {
            Ok(t) => window_type_value(name@) == Some(t),
            Err(_) => window_type_value(name@) is None,
        },
{
    if text_eq(name, "normal") {
        Ok(WindowType::Normal)
    } else if text_eq(name, "dialog") {
        Ok(WindowType::Dialog)
    } else if text_eq(name, "utility") {
        Ok(WindowType::Utility)
    } else if text_eq(name, "toolbar") {
        Ok(WindowType::Toolbar)
    } else if text_eq(name, "splash") {
        Ok(WindowType::Splash)
    } else if text_eq(name, "menu") {
        Ok(WindowType::Menu)
    } else if text_eq(name, "dropdown_menu") {
        Ok(WindowType::DropdownMenu)
    } else if text_eq(name, "popup_menu") {
        Ok(WindowType::PopupMenu)
    } else if text_eq(name, "tooltip") {
        Ok(WindowType::Tooltip)
    } else if text_eq(name, "notification") {
        Ok(WindowType::Notification)
    } else {
        let mut msg = String::from_str("Unknown window_type: '");
        msg.append(name);
        msg.append("'");
        Err(msg)
    }
}

/// Parses a window type, in any case.
pub fn parse_window_type(input: &str) -> (r: Result<WindowType, String>)
    ensures
        match r {
            Ok(t) => window_type_value(lowered(input@)) == Some(t),
            Err(_) => window_type_value(lowered(input@)) is None,
        },
{
    let name = lowercase(input);
    window_type_from_name(name.as_str())
}

/// Names the urgency selection that `name` stands for, once lower-cased.
pub fn urgent_from_name(name: &str) -> (r: Result<Urgent, String>)
    ensures
        match r {
            Ok(u) => urgent_value(name@) == Some(u),
            Err(_) => urgent_value(name@) is None,
        },
{
    if text_eq(name, "latest") || text_eq(name, "newest") || text_eq(name, "recent") || text_eq(
        name,
        "last",
    ) {
        Ok(Urgent::Latest)
    } else if text_eq(name, "oldest") || text_eq(name, "first") {
        Ok(Urgent::Oldest)
    } else {
        let mut msg = String::from_str("Unknown urgency: '");
        msg.append(name);
        msg.append("'");
        Err(msg)
    }
}

/// Parses an urgency selection, in any case.
pub fn parse_urgent(input: &str) -> (r: Result<Urgent, String>)
    ensures
        match r {
            Ok(u) => urgent_value(lowered(input@)) == Some(u),
            Err(_) => urgent_value(lowered(input@)) is None,
        },
{
    let name = lowercase(input);
    urgent_from_name(name.as_str())
}

/// Parses an unsigned number no larger than `max`, in hexadecimal after a
/// `0x` prefix and in decimal otherwise.
pub fn parse_number(v: &str, max: u64) -> (r: Option<u64>)
    ensures
        match r {
            Some(n) => number_value(v@, max as nat) == Some(n as nat),
            None => number_value(v@, max as nat) is None,
        },
{
    let len = v.unicode_len();
    if len >= 2 && v.get_char(0) == '0' && v.get_char(1) == 'x' {
        let rest = v.substring_char(2, len);
        assert(rest@ =~= v@.skip(2));
        parse_unsigned(rest, 16, max)
    } else {
        parse_unsigned(v, 10, max)
    }
}

/// Parses a container id: `__focused__`, or a number that fits in `usize`.
pub fn parse_con_id(input: &str) -> (r: Result<ConId, String>)
    ensures
        match r {
            Ok(c) => con_id_value(input@) == Some(c),
            Err(_) => con_id_value(input@) is None,
        },
{
    if text_eq(input, "__focused__") {
        return Ok(ConId::Focused);
    }
    match parse_number(input, usize::MAX as u64) {
        Some(n) => Ok(ConId::Id(n as usize)),
        None => {
            let mut msg = String::from_str("con_id: '");
            msg.append(input);
            msg.append("' is not a container id");
            Err(msg)
        },
    }
}

// ---------------------------------------------------------------------------
// Tokens
// ---------------------------------------------------------------------------

/// The position of the first `=` at or after `i`, or the length of `s`.
pub open spec fn eq_position(s: Seq<char>, i: int) -> int
    decreases s.len() - i,
{
    if i < 0 || i >= s.len() {
        s.len() as int
    } else if s[i] == '=' {
        i
    } else {
        eq_position(s, i + 1)
    }
}

/// A value without its surrounding pair of double quotes, if it has one.
pub open spec fn unquoted(v: Seq<char>) -> Seq<char> {
    if v.len() > 1 && v[0] == '"' && v.last() == '"' {
        v.subrange(1, v.len() - 1)
    } else {
        v
    }
}

/// The key of a token: what stands before its first `=`.
pub open spec fn token_key(s: Seq<char>) -> Seq<char> {
    s.subrange(0, eq_position(s, 0))
}

/// The value of a token: what follows its first `=`, unquoted; none without `=`.
pub open spec fn token_param(s: Seq<char>) -> Option<Seq<char>> {
    let e = eq_position(s, 0);
    if e < s.len() {
        Some(unquoted(s.subrange(e + 1, s.len() as int)))
    } else {
        None
    }
}

/// Whether a key's value is a regular expression.
pub open spec fn is_pattern_key(k: Seq<char>) -> bool {
    k == "class"@ || k == "instance"@ || k == "window_role"@ || k == "title"@ || k == "output"@
        || k == "workspace"@ || k == "con_mark"@
}

/// The pattern of a criterion, when it is of the kind that `k` names.
pub open spec fn pattern_for(k: Seq<char>, m: Match) -> Option<Pattern> {
    match m {
        Match::Class(p) => if k == "class"@ {
            Some(p)
        } else {
            None
        },
        Match::Instance(p) => if k == "instance"@ {
            Some(p)
        } else {
            None
        },
        Match::WindowRole(p) => if k == "window_role"@ {
            Some(p)
        } else {
            None
        },
        Match::Title(p) => if k == "title"@ {
            Some(p)
        } else {
            None
        },
        Match::Output(p) => if k == "output"@ {
            Some(p)
        } else {
            None
        },
        Match::Workspace(p) => if k == "workspace"@ {
            Some(p)
        } else {
            None
        },
        Match::ConMark(p) => if k == "con_mark"@ {
            Some(p)
        } else {
            None
        },
        _ => None,
    }
}

/// Whether a lower-cased key and its value make a valid criterion.
pub open spec fn criterion_ok(k: Seq<char>, param: Option<Seq<char>>) -> bool {
    if k == "["@ || k == "]"@ || k == "floating"@ || k == "tiling"@ {
        true
    } else if is_pattern_key(k) {
        param matches Some(v) && regex_compiles(v)
    } else if k == "window_type"@ {
        param matches Some(v) && window_type_value(lowered(v)) is Some
    } else if k == "urgent"@ {
        param matches Some(v) && urgent_value(lowered(v)) is Some
    } else if k == "id"@ {
        param matches Some(v) && number_value(v, u32::MAX as nat) is Some
    } else if k == "con_id"@ {
        param matches Some(v) && con_id_value(v) is Some
    } else {
        false
    }
}

/// Whether `m` is the criterion that a valid lower-cased key and its value
/// give: brackets give none; a regular-expression key gives its kind with
/// the value as pattern; the others give the value they name.
pub open spec fn criterion_is(k: Seq<char>, param: Option<Seq<char>>, m: Option<Match>) -> bool {
    if k == "["@ || k == "]"@ {
        m is None
    } else if k == "floating"@ {
        m == Some(Match::Floating)
    } else if k == "tiling"@ {
        m == Some(Match::Tiling)
    } else if is_pattern_key(k) {
        param matches Some(v) && m matches Some(x) && pattern_for(k, x) matches Some(p) && p@ == v
    } else if k == "window_type"@ {
        param matches Some(v) && m == Some(Match::WindowType(window_type_value(lowered(v))->0))
    } else if k == "urgent"@ {
        param matches Some(v) && m == Some(Match::Urgent(urgent_value(lowered(v))->0))
    } else if k == "id"@ {
        param matches Some(v) && m == Some(Match::Id(number_value(v, u32::MAX as nat)->0 as u32))
    } else if k == "con_id"@ {
        param matches Some(v) && m == Some(Match::ConId(con_id_value(v)->0))
    } else {
        false
    }
}

/// The text of an optional string.
pub open spec fn opt_text(o: Option<&str>) -> Option<Seq<char>> {
    match o {
        Some(v) => Some(v@),
        None => None,
    }
}

fn pattern_param(key: &str, param: Option<&str>) -> (r: Result<Pattern, String>)
    ensures
        match r {
            Ok(p) => param matches Some(v) && regex_compiles(v@) && p@ == v@,
            Err(_) => !(param matches Some(v) && regex_compiles(v@)),
        },
{
    match param {
        None => {
            let mut msg = String::from_str(key);
            msg.append(" requires a parameter");
            Err(msg)
        },
        Some(v) => match compile_pattern(v) {
            Ok(p) => Ok(p),
            Err(e) => {
                let mut msg = String::from_str(key);
                msg.append(": ");
                msg.append(regex_error_message(&e).as_str());
                Err(msg)
            },
        },
    }
}

fn missing_param(key: &str) -> String {
    let mut msg = String::from_str(key);
    msg.append(" requires a parameter");
    msg
}

/// Builds the criterion for a lower-cased key and its unquoted value; `token`
/// is the whole token, for the message when the key is unknown.
pub fn criterion_from_parts(token: &str, key: &str, param: Option<&str>) -> (r: Result<
    Option<Match>,
    String,
>)
    ensures
        r is Ok <==> criterion_ok(key@, opt_text(param)),
        r matches Ok(m) ==> criterion_is(key@, opt_text(param), m),
{
    if text_eq(key, "[") || text_eq(key, "]") {
        return Ok(None);
    }
    if text_eq(key, "floating") {
        return Ok(Some(Match::Floating));
    }
    if text_eq(key, "tiling") {
        return Ok(Some(Match::Tiling));
    }
    if text_eq(key, "class") {
        return match pattern_param(key, param) {
            Ok(p) => Ok(Some(Match::Class(p))),
            Err(e) => Err(e),
        };
    }
    if text_eq(key, "instance") {
        return match pattern_param(key, param) {
            Ok(p) => Ok(Some(Match::Instance(p))),
            Err(e) => Err(e),
        };
    }
    if text_eq(key, "window_role") {
        return match pattern_param(key, param) {
            Ok(p) => Ok(Some(Match::WindowRole(p))),
            Err(e) => Err(e),
        };
    }
    if text_eq(key, "title") {
        return match pattern_param(key, param) {
            Ok(p) => Ok(Some(Match::Title(p))),
            Err(e) => Err(e),
        };
    }
    if text_eq(key, "output") {
        return match pattern_param(key, param) {
            Ok(p) => Ok(Some(Match::Output(p))),
            Err(e) => Err(e),
        };
    }
    if text_eq(key, "workspace") {
        return match pattern_param(key, param) {
            Ok(p) => Ok(Some(Match::Workspace(p))),
            Err(e) => Err(e),
        };
    }
    if text_eq(key, "con_mark") {
        return match pattern_param(key, param) {
            Ok(p) => Ok(Some(Match::ConMark(p))),
            Err(e) => Err(e),
        };
    }
    if text_eq(key, "window_type") {
        return match param {
            None => Err(missing_param(key)),
            Some(v) => match parse_window_type(v) {
                Ok(t) => Ok(Some(Match::WindowType(t))),
                Err(e) => Err(e),
            },
        };
    }
    if text_eq(key, "urgent") {
        return match param {
            None => Err(missing_param(key)),
            Some(v) => match parse_urgent(v) {
                Ok(u) => Ok(Some(Match::Urgent(u))),
                Err(e) => Err(e),
            },
        };
    }
    if text_eq(key, "id") {
        return match param {
            None => Err(missing_param(key)),
            Some(v) => match parse_number(v, u32::MAX as u64) {
                Some(n) => Ok(Some(Match::Id(n as u32))),
                None => {
                    let mut msg = String::from_str("id: '");
                    msg.append(v);
                    msg.append("' is not a window id");
                    Err(msg)
                },
            },
        };
    }
    if text_eq(key, "con_id") {
        return match param {
            None => Err(missing_param(key)),
            Some(v) => match parse_con_id(v) {
                Ok(c) => Ok(Some(Match::ConId(c))),
                Err(e) => Err(e),
            },
        };
    }
    let mut msg = String::from_str("Unknown criteria: '");
    msg.append(token);
    msg.append("'");
    Err(msg)
}

fn unquote(v: &str) -> (r: &str)
    ensures
        r@ == unquoted(v@),
{
    let len = v.unicode_len();
    if len > 1 && v.get_char(0) == '"' && v.get_char(len - 1) == '"' {
        v.substring_char(1, len - 1)
    } else {
        v
    }
}

/// The lower-cased key of a token.
pub open spec fn criteria_key(s: Seq<char>) -> Seq<char> {
    lowered(token_key(s))
}

/// Parses one criteria token: `key` or `key=value`, where the value may be
/// wrapped in double quotes and the key is read in any case. Brackets give no
/// criterion.
pub fn parse_criteria(input: &str) -> (r: Result<Option<Match>, String>)
    ensures
        r is Ok <==> criterion_ok(criteria_key(input@), token_param(input@)),
        r matches Ok(m) ==> criterion_is(criteria_key(input@), token_param(input@), m),
{
    let len = input.unicode_len();
    let mut e: usize = 0;
    while e < len && input.get_char(e) != '='
        invariant
            e <= len,
            len == input@.len(),
            eq_position(input@, e as int) == eq_position(input@, 0),
        decreases len - e,
    {
        e = e + 1;
    }
    let key = lowercase(input.substring_char(0, e));
    if e < len {
        let v = unquote(input.substring_char(e + 1, len));
        criterion_from_parts(input, key.as_str(), Some(v))
    } else {
        criterion_from_parts(input, key.as_str(), None)
    }
}

/// Checks that a string is a valid criteria token.
pub fn validate_criteria(criteria: String) -> (r: Result<(), String>)
    ensures
        r is Ok <==> criterion_ok(criteria_key(criteria@), token_param(criteria@)),
{
    match parse_criteria(criteria.as_str()) {
        Ok(_) => Ok(()),
        Err(e) => Err(e),
    }
}

// ---------------------------------------------------------------------------
// Narrowing
// ---------------------------------------------------------------------------

/// Output nodes of the tree that are still candidates.
pub struct OutputMatches<'a>(pub Vec<&'a Node>);

/// Workspace nodes of the tree that are still candidates.
pub struct WorkspaceMatches<'a>(pub Vec<&'a Node>);

/// The nodes of a given type.
pub open spec fn of_type(t: NodeType) -> spec_fn(Node) -> bool {
    |n: Node| n.node_type == t
}

/// Whether a node has exactly the given name.
pub open spec fn has_name_text(n: Node, name: Seq<char>) -> bool {
    n.name matches Some(s) && s@ == name
}

/// Whether a node has a name that the pattern matches.
pub open spec fn name_matches(n: Node, pattern: Seq<char>) -> bool {
    n.name matches Some(s) && regex_is_match(pattern, s@)
}

/// The flag of the output list that a selector names: `Some(false)` for the
/// active output (`__focused__`, `__active__`), `Some(true)` for the primary
/// one (`__primary__`), none for a plain pattern.
pub open spec fn output_selector(pattern: Seq<char>) -> Option<bool> {
    if pattern == "__focused__"@ || pattern == "__active__"@ {
        Some(false)
    } else if pattern == "__primary__"@ {
        Some(true)
    } else {
        None
    }
}

/// The name of the first output at or after `i` that is primary (or active).
pub open spec fn first_output_name(outs: Seq<Output>, primary: bool, i: int) -> Option<Seq<char>>
    decreases outs.len() - i,
{
    if i < 0 || i >= outs.len() {
        None
    } else if (if primary {
        outs[i].primary
    } else {
        outs[i].active
    }) {
        Some(outs[i].name@)
    } else {
        first_output_name(outs, primary, i + 1)
    }
}

/// The output nodes that an output criterion keeps: for a selector, the node
/// named like the first output in the list with the selected flag (none when
/// no output has it); otherwise the nodes whose name the pattern matches.
pub open spec fn output_kept(outs: Seq<Output>, pattern: Seq<char>) -> spec_fn(Node) -> bool {
    |n: Node|
        match output_selector(pattern) {
            Some(primary) => match first_output_name(outs, primary, 0) {
                Some(name) => has_name_text(n, name),
                None => false,
            },
            None => name_matches(n, pattern),
        }
}

/// Which flag of the workspace list a selector names.
#[derive(Debug, Clone, Copy, PartialEq, Eq, Structural)]
pub enum WorkspaceFlag {
    Focused,
    Visible,
    Urgent,
}

/// Whether a workspace has the flag.
pub open spec fn has_flag(w: Workspace, f: WorkspaceFlag) -> bool {
    match f {
        WorkspaceFlag::Focused => w.focused,
        WorkspaceFlag::Visible => w.visible,
        WorkspaceFlag::Urgent => w.urgent,
    }
}

/// The flag that a workspace selector names (`__focused__`, `__visible__`,
/// `__urgent__`), or none for a plain pattern.
pub open spec fn workspace_selector(pattern: Seq<char>) -> Option<WorkspaceFlag> {
    if pattern == "__focused__"@ {
        Some(WorkspaceFlag::Focused)
    } else if pattern == "__visible__"@ {
        Some(WorkspaceFlag::Visible)
    } else if pattern == "__urgent__"@ {
        Some(WorkspaceFlag::Urgent)
    } else {
        None
    }
}

/// The name of the first workspace at or after `i` with the flag.
pub open spec fn first_workspace_name(ws: Seq<Workspace>, f: WorkspaceFlag, i: int) -> Option<
    Seq<char>,
>
    decreases ws.len() - i,
{
    if i < 0 || i >= ws.len() {
        None
    } else if has_flag(ws[i], f) {
        Some(ws[i].name@)
    } else {
        first_workspace_name(ws, f, i + 1)
    }
}

/// The workspace nodes that a workspace criterion keeps, as for outputs.
pub open spec fn workspace_kept(ws: Seq<Workspace>, pattern: Seq<char>) -> spec_fn(Node) -> bool {
    |n: Node|
        match workspace_selector(pattern) {
            Some(f) => match first_workspace_name(ws, f, 0) {
                Some(name) => has_name_text(n, name),
                None => false,
            },
            None => name_matches(n, pattern),
        }
}

/// The workspace nodes under each of the given nodes, one node after another,
/// each node's in post-order.
pub open spec fn workspaces_under(s: Seq<Node>) -> Seq<Node>
    decreases s.len(),
{
    if s.len() == 0 {
        seq![]
    } else {
        workspaces_under(s.drop_last()) + postorder(s.last()).filter(of_type(NodeType::Workspace))
    }
}

/// The output criteria of a list applied in order, each to what the ones
/// before it kept; other criteria leave the set as it is.
pub open spec fn narrow_outputs(s: Seq<Node>, criteria: Seq<Match>, outs: Seq<Output>) -> Seq<
    Node,
>
    decreases criteria.len(),
{
    if criteria.len() == 0 {
        s
    } else {
        let prev = narrow_outputs(s, criteria.drop_last(), outs);
        match criteria.last() {
            Match::Output(p) => prev.filter(output_kept(outs, p@)),
            _ => prev,
        }
    }
}

/// The workspace criteria of a list applied in order.
pub open spec fn narrow_workspaces(s: Seq<Node>, criteria: Seq<Match>, ws: Seq<Workspace>) -> Seq<
    Node,
>
    decreases criteria.len(),
{
    if criteria.len() == 0 {
        s
    } else {
        let prev = narrow_workspaces(s, criteria.drop_last(), ws);
        match criteria.last() {
            Match::Workspace(p) => prev.filter(workspace_kept(ws, p@)),
            _ => prev,
        }
    }
}

/// The workspaces that a list of criteria selects: all output nodes of the
/// tree, narrowed by the output criteria; the workspace nodes under those,
/// narrowed by the workspace criteria.
pub open spec fn selected_workspaces(
    tree: Node,
    outs: Seq<Output>,
    ws: Seq<Workspace>,
    criteria: Seq<Match>,
) -> Seq<Node> {
    let outputs = postorder(tree).filter(of_type(NodeType::Output));
    narrow_workspaces(workspaces_under(narrow_outputs(outputs, criteria, outs)), criteria, ws)
}

/// Every output node of the tree, in post-order.
pub fn all_outputs<'a>(tree: &'a Node) -> (r: OutputMatches<'a>)
    ensures
        targets(r.0@) == postorder(*tree).filter(of_type(NodeType::Output)),
{
    let pred = |n: &Node| -> (b: bool)
        ensures
            b == (n.node_type == NodeType::Output),
        { n.node_type == NodeType::Output };
    OutputMatches(find_all_by(tree, &pred, Ghost(of_type(NodeType::Output))))
}

fn first_output(outputs: &Vec<Output>, primary: bool) -> (r: Option<&str>)
    ensures
        opt_text(r) == first_output_name(outputs@, primary, 0),
{
    let mut i: usize = 0;
    while i < outputs.len()
        invariant
            i <= outputs@.len(),
            first_output_name(outputs@, primary, i as int) == first_output_name(outputs@, primary, 0),
        decreases outputs@.len() - i,
    {
        let o = &outputs[i];
        if (primary && o.primary) || (!primary && o.active) {
            return Some(o.name.as_str());
        }
        i = i + 1;
    }
    None
}

fn first_workspace(workspaces: &Vec<Workspace>, f: WorkspaceFlag) -> (r: Option<&str>)
    ensures
        opt_text(r) == first_workspace_name(workspaces@, f, 0),
{
    let mut i: usize = 0;
    while i < workspaces.len()
        invariant
            i <= workspaces@.len(),
            first_workspace_name(workspaces@, f, i as int) == first_workspace_name(workspaces@, f, 0),
        decreases workspaces@.len() - i,
    {
        let w = &workspaces[i];
        let flagged = match f {
            WorkspaceFlag::Focused => w.focused,
            WorkspaceFlag::Visible => w.visible,
            WorkspaceFlag::Urgent => w.urgent,
        };
        if flagged {
            return Some(w.name.as_str());
        }
        i = i + 1;
    }
    None
}

/// Whether a node is kept by a selection: the name of the selected entry
/// (`Some(None)` when nothing was selected) or, for `None`, the pattern.
fn kept(n: &Node, selection: Option<Option<&str>>, pattern: &Pattern) -> (r: bool)
    ensures
        r == match selection {
            Some(Some(name)) => has_name_text(*n, name@),
            Some(None) => false,
            None => name_matches(*n, pattern@),
        },
{
    match &n.name {
        None => false,
        Some(s) => match selection {
            Some(Some(name)) => text_eq(s.as_str(), name),
            Some(None) => false,
            None => pattern_is_match(pattern, s.as_str()),
        },
    }
}

/// Keeps the nodes of `nodes` that the selection keeps, in order.
fn keep_selected<'a>(nodes: Vec<&'a Node>, selection: Option<Option<&str>>, pattern: &Pattern, Ghost(
    p,
): Ghost<spec_fn(Node) -> bool>) -> (r: Vec<&'a Node>)
    requires
        forall|n: Node|
            #[trigger] p(n) == match selection {
                Some(Some(name)) => has_name_text(n, name@),
                Some(None) => false,
                None => name_matches(n, pattern@),
            },
    ensures
        targets(r@) == targets(nodes@).filter(p),
{
    let mut res: Vec<&'a Node> = Vec::new();
    let mut i: usize = 0;
    proof {
        assert(targets(nodes@).take(0) =~= Seq::<Node>::empty());
        reveal(Seq::filter);
        assert(targets(res@) =~= targets(nodes@).take(0).filter(p));
    }
    while i < nodes.len()
        invariant
            i <= nodes@.len(),
            forall|n: Node|
                #[trigger] p(n) == match selection {
                    Some(Some(name)) => has_name_text(n, name@),
                    Some(None) => false,
                    None => name_matches(n, pattern@),
                },
            targets(res@) == targets(nodes@).take(i as int).filter(p),
        decreases nodes@.len() - i,
    {
        let n = nodes[i];
        let ghost before = res@;
        proof {
            assert(targets(nodes@).take(i + 1) =~= targets(nodes@).take(i as int).push(*n));
            targets(nodes@).take(i as int).lemma_filter_push(*n, p);
        }
        if kept(n, selection, pattern) {
            res.push(n);
            assert(targets(res@) =~= targets(before).push(*n));
        }
        i = i + 1;
    }
    assert(targets(nodes@).take(i as int) =~= targets(nodes@));
    res
}

/// Narrows the output candidates by one output criterion. The selectors
/// `__focused__` / `__active__` and `__primary__` keep the node named like the
/// first output of the list with that flag, and nothing when no output has
/// it; any other pattern keeps the nodes whose name it matches.
pub fn match_output<'a>(outputs: &Vec<Output>, matches: OutputMatches<'a>, pattern: &Pattern) -> (r:
    OutputMatches<'a>)
    ensures
        targets(r.0@) == targets(matches.0@).filter(output_kept(outputs@, pattern@)),
{
    let text = pattern.as_str();
    let selection = if text_eq(text, "__focused__") || text_eq(text, "__active__") {
        Some(first_output(outputs, false))
    } else if text_eq(text, "__primary__") {
        Some(first_output(outputs, true))
    } else {
        None
    };
    OutputMatches(keep_selected(matches.0, selection, pattern, Ghost(output_kept(outputs@, pattern@))))
}

/// Every workspace node under the output candidates: each output's
/// workspaces in post-order, output after output.
pub fn all_workspaces<'a>(matches: OutputMatches<'a>) -> (r: WorkspaceMatches<'a>)
    ensures
        targets(r.0@) == workspaces_under(targets(matches.0@)),
{
    let pred = |n: &Node| -> (b: bool)
        ensures
            b == (n.node_type == NodeType::Workspace),
        { n.node_type == NodeType::Workspace };
    let outs = matches.0;
    let mut res: Vec<&'a Node> = Vec::new();
    let mut i: usize = 0;
    assert(targets(outs@).take(0) =~= Seq::<Node>::empty());
    assert(targets(res@) =~= Seq::<Node>::empty());
    while i < outs.len()
        invariant
            i <= outs@.len(),
            computes(&pred, of_type(NodeType::Workspace)),
            targets(res@) == workspaces_under(targets(outs@).take(i as int)),
        decreases outs@.len() - i,
    {
        let mut found = find_all_by(outs[i], &pred, Ghost(of_type(NodeType::Workspace)));
        let ghost before = res@;
        let ghost more = found@;
        res.append(&mut found);
        proof {
            assert(targets(outs@).take(i + 1).drop_last() =~= targets(outs@).take(i as int));
            assert(targets(res@) =~= targets(before) + targets(more));
        }
        i = i + 1;
    }
    assert(targets(outs@).take(i as int) =~= targets(outs@));
    WorkspaceMatches(res)
}

/// Narrows the workspace candidates by one workspace criterion. The
/// selectors `__focused__`, `__visible__` and `__urgent__` keep the node named
/// like the first workspace of the list with that flag, and nothing when no
/// workspace has it; any other pattern keeps the nodes whose name it matches.
pub fn match_workspace<'a>(
    workspaces: &Vec<Workspace>,
    matches: WorkspaceMatches<'a>,
    pattern: &Pattern,
) -> (r: WorkspaceMatches<'a>)
    ensures
        targets(r.0@) == targets(matches.0@).filter(workspace_kept(workspaces@, pattern@)),
{
    let text = pattern.as_str();
    let selection = if text_eq(text, "__focused__") {
        Some(first_workspace(workspaces, WorkspaceFlag::Focused))
    } else if text_eq(text, "__visible__") {
        Some(first_workspace(workspaces, WorkspaceFlag::Visible))
    } else if text_eq(text, "__urgent__") {
        Some(first_workspace(workspaces, WorkspaceFlag::Urgent))
    } else {
        None
    };
    WorkspaceMatches(
        keep_selected(matches.0, selection, pattern, Ghost(workspace_kept(workspaces@, pattern@))),
    )
}

/// Selects workspaces by a list of criteria: the output criteria narrow the
/// outputs of the tree in order, then the workspace criteria narrow the
/// workspaces on the outputs that are left. Other criteria are not used here.
pub fn select_workspaces<'a>(
    tree: &'a Node,
    outputs: &Vec<Output>,
    workspaces: &Vec<Workspace>,
    criteria: &Vec<Match>,
) -> (r: WorkspaceMatches<'a>)
    ensures
        targets(r.0@) == selected_workspaces(*tree, outputs@, workspaces@, criteria@),
{
    let ghost start = postorder(*tree).filter(of_type(NodeType::Output));
    let mut outs = all_outputs(tree);
    let mut i: usize = 0;
    assert(criteria@.take(0) =~= Seq::<Match>::empty());
    while i < criteria.len()
        invariant
            i <= criteria@.len(),
            targets(outs.0@) == narrow_outputs(start, criteria@.take(i as int), outputs@),
        decreases criteria@.len() - i,
    {
        assert(criteria@.take(i + 1).drop_last() =~= criteria@.take(i as int));
        if let Match::Output(p) = &criteria[i] {
            outs = match_output(outputs, outs, p);
        }
        i = i + 1;
    }
    assert(criteria@.take(i as int) =~= criteria@);
    let ghost under = workspaces_under(targets(outs.0@));
    let mut wss = all_workspaces(outs);
    let mut j: usize = 0;
    while j < criteria.len()
        invariant
            j <= criteria@.len(),
            targets(wss.0@) == narrow_workspaces(under, criteria@.take(j as int), workspaces@),
        decreases criteria@.len() - j,
    {
        assert(criteria@.take(j + 1).drop_last() =~= criteria@.take(j as int));
        if let Match::Workspace(p) = &criteria[j] {
            wss = match_workspace(workspaces, wss, p);
        }
        j = j + 1;
    }
    assert(criteria@.take(j as int) =~= criteria@);
    wss
}

proof fn lemma_filter_none(s: Seq<Node>, p: spec_fn(Node) -> bool)
    requires
        forall|n: Node| !#[trigger] p(n),
    ensures
        s.filter(p).len() == 0,
{
    if s.filter(p).len() > 0 {
        s.lemma_filter_pred(p, 0);
    }
}

proof fn lemma_no_primary(outs: Seq<Output>, i: int)
    requires
        0 <= i,
        forall|k: int| 0 <= k < outs.len() ==> !(#[trigger] outs[k]).primary,
    ensures
        first_output_name(outs, true, i) is None,
    decreases outs.len() - i,
{
    if i < outs.len() {
        lemma_no_primary(outs, i + 1);
    }
}

proof fn lemma_narrow_outputs_empty(
    s: Seq<Node>,
    criteria: Seq<Match>,
    outs: Seq<Output>,
    k: int,
)
    requires
        0 <= k < criteria.len(),
        criteria[k] matches Match::Output(p) && output_kept(outs, p@) == (|n: Node| false),
    ensures
        narrow_outputs(s, criteria, outs).len() == 0,
    decreases criteria.len(),
{
    let prev = narrow_outputs(s, criteria.drop_last(), outs);
    if k < criteria.len() - 1 {
        assert(criteria.drop_last()[k] == criteria[k]);
        lemma_narrow_outputs_empty(s, criteria.drop_last(), outs, k);
        assert(prev =~= Seq::<Node>::empty());
        match criteria.last() {
            Match::Output(p) => {
                lemma_filter_none(prev, |n: Node| false);
                reveal(Seq::filter);
            },
            _ => {},
        }
    } else {
        lemma_filter_none(prev, |n: Node| false);
    }
}

proof fn lemma_narrow_workspaces_empty(criteria: Seq<Match>, ws: Seq<Workspace>)
    ensures
        narrow_workspaces(Seq::<Node>::empty(), criteria, ws).len() == 0,
    decreases criteria.len(),
{
    if criteria.len() > 0 {
        lemma_narrow_workspaces_empty(criteria.drop_last(), ws);
        reveal(Seq::filter);
    }
}

/// When no output is marked primary, an output criterion `__primary__` leaves
/// no output, so the criteria select no workspace: an empty result, not an
/// error.
pub proof fn lemma_primary_absent_selects_nothing(
    tree: Node,
    outs: Seq<Output>,
    ws: Seq<Workspace>,
    criteria: Seq<Match>,
    k: int,
)
    requires
        0 <= k < criteria.len(),
        criteria[k] matches Match::Output(p) && p@ == "__primary__"@,
        forall|i: int| 0 <= i < outs.len() ==> !(#[trigger] outs[i]).primary,
    ensures
        selected_workspaces(tree, outs, ws, criteria).len() == 0,
{
    reveal_strlit("__primary__");
    reveal_strlit("__focused__");
    reveal_strlit("__active__");
    let p = criteria[k]->Output_0;
    assert("__primary__"@[2] != "__focused__"@[2]);
    assert("__primary__"@.len() != "__active__"@.len());
    lemma_no_primary(outs, 0);
    assert(output_selector(p@) == Some(true));
    assert(output_kept(outs, p@) =~= (|n: Node| false));
    let start = postorder(tree).filter(of_type(NodeType::Output));
    lemma_narrow_outputs_empty(start, criteria, outs, k);
    assert(narrow_outputs(start, criteria, outs) =~= Seq::<Node>::empty());
    lemma_narrow_workspaces_empty(criteria, ws);
}

} // verus!
