//! The window manager's layout tree, workspace list and output list, as
//! plain values, with the spec-level views that the searches are stated over.
use vstd::prelude::*;

use crate::criteria::WindowType;

verus! {

/// What a tree node stands for.
#[derive(Debug, Clone, Copy, PartialEq, Eq, Structural, Hash)]
pub enum NodeType {
    Root,
    Output,
    Con,
    FloatingCon,
    Workspace,
    Dockarea,
}

/// How a window's border is drawn.
#[derive(Debug, Clone, Copy, PartialEq, Eq, Structural, Hash)]
pub enum NodeBorder {
    Normal,
    NoBorder,
    Pixel,
}

/// A rectangle on screen.
#[derive(Debug, Clone, Copy, PartialEq, Eq, Structural, Hash)]
pub struct Rect {
    pub x: isize,
    pub y: isize,
    pub width: isize,
    pub height: isize,
}

/// The X11 properties of an application window.
#[derive(Debug, Clone)]
pub struct WindowProperties {
    pub title: Option<String>,
    pub instance: Option<String>,
    pub class: Option<String>,
    pub window_role: Option<String>,
}

/// One node of the layout tree. Tiled children and floating children are
/// kept in two separate lists.
#[derive(Debug)]
pub struct Node {
    pub id: usize,
    pub name: Option<String>,
    pub node_type: NodeType,
    pub border: NodeBorder,
    /// Border width as the window manager reports it, in device-scaled pixels.
    pub current_border_width: i32,
    pub window_rect: Rect,
    pub window: Option<usize>,
    pub window_properties: Option<WindowProperties>,
    pub window_type: Option<WindowType>,
    pub urgent: bool,
    pub marks: Vec<String>,
    pub focused: bool,
    /// Ids of children, most recently focused first.
    pub focus: Vec<usize>,
    pub nodes: Vec<Node>,
    pub floating_nodes: Vec<Node>,
}

/// An entry of the workspace list.
#[derive(Debug, Clone)]
pub struct Workspace {
    pub name: String,
    pub visible: bool,
    pub focused: bool,
    pub urgent: bool,
}

/// An entry of the output list.
#[derive(Debug, Clone)]
pub struct Output {
    pub name: String,
    pub active: bool,
    pub primary: bool,
}

/// The nodes of the tree under `n`, children before their parent: the tiled
/// children's subtrees in order, then the floating children's, then `n`.
pub open spec fn postorder(n: Node) -> Seq<Node>
    decreases n,
{
    postorder_list(n.nodes@) + postorder_list(n.floating_nodes@) + seq![n]
}

/// The post-order sequences of a list of sibling subtrees, one after another.
pub open spec fn postorder_list(s: Seq<Node>) -> Seq<Node>
    decreases s,
{
    if s.len() == 0 {
        seq![]
    } else {
        postorder_list(s.drop_last()) + postorder(s.last())
    }
}

/// The nodes that a sequence of references points to.
pub open spec fn targets(s: Seq<&Node>) -> Seq<Node> {
    s.map_values(|r: &Node| *r)
}

/// A node's name as text; a node without a name has the empty name.
pub open spec fn name_text(n: Node) -> Seq<char> {
    match n.name {
        Some(s) => s@,
        None => seq![],
    }
}

/// Area of a window rectangle.
pub open spec fn area(n: Node) -> int {
    n.window_rect.width * n.window_rect.height
}

pub proof fn lemma_postorder_list_contains(s: Seq<Node>, i: int, m: Node)
    requires
        0 <= i < s.len(),
        postorder(s[i]).contains(m),
    ensures
        postorder_list(s).contains(m),
    decreases s,
{
    let k = choose|k: int| 0 <= k < postorder(s[i]).len() && postorder(s[i])[k] == m;
    if i == s.len() - 1 {
        let pre = postorder_list(s.drop_last());
        assert(postorder_list(s)[pre.len() + k] == m);
    } else {
        assert(s.drop_last()[i] == s[i]);
        lemma_postorder_list_contains(s.drop_last(), i, m);
        let j = choose|j: int|
            0 <= j < postorder_list(s.drop_last()).len() && postorder_list(s.drop_last())[j] == m;
        assert(postorder_list(s)[j] == m);
    }
}

/// Every node of a child's subtree is a node of the parent's subtree.
pub proof fn lemma_child_subtree(n: Node, c: Node, m: Node)
    requires
        n.nodes@.contains(c) || n.floating_nodes@.contains(c),
        postorder(c).contains(m),
    ensures
        postorder(n).contains(m),
{
    let a = postorder_list(n.nodes@);
    let b = postorder_list(n.floating_nodes@);
    if n.nodes@.contains(c) {
        let i = choose|i: int| 0 <= i < n.nodes@.len() && n.nodes@[i] == c;
        lemma_postorder_list_contains(n.nodes@, i, m);
        let j = choose|j: int| 0 <= j < a.len() && a[j] == m;
        assert(postorder(n)[j] == m);
    } else {
        let i = choose|i: int| 0 <= i < n.floating_nodes@.len() && n.floating_nodes@[i] == c;
        lemma_postorder_list_contains(n.floating_nodes@, i, m);
        let j = choose|j: int| 0 <= j < b.len() && b[j] == m;
        assert(postorder(n)[a.len() + j] == m);
    }
}

pub proof fn lemma_postorder_contains_self(n: Node)
    ensures
        postorder(n).contains(n),
{
    let s = postorder(n);
    assert(s[s.len() - 1] == n);
}

} // verus!
