//! Window-level criteria: the windows under the selected workspaces, narrowed
//! by the criteria that speak of windows, each tested on the node's own fields.
use vstd::prelude::*;

use crate::criteria::{selected_workspaces, select_workspaces, ConId, Match, WorkspaceMatches};
use crate::model::{targets, Node, Output, Workspace};
use crate::pattern::{pattern_is_match, regex_is_match, Pattern};

verus! {

/// A candidate window, and whether it lies in a floating list below the
/// workspace it was found under.
pub struct WindowMatch<'a> {
    pub node: &'a Node,
    pub floating: bool,
}

/// The nodes and floating marks of a sequence of candidates.
pub open spec fn candidates(s: Seq<WindowMatch>) -> Seq<(Node, bool)> {
    s.map_values(|c: WindowMatch| (*c.node, c.floating))
}

/// The windows under `n` in pre-order, each with whether a floating list was
/// passed on the way down to it (`floating` says whether one was passed
/// above `n`).
pub open spec fn windows_in(n: Node, floating: bool) -> Seq<(Node, bool)>
    decreases n,
{
    (if n.window is Some {
        seq![(n, floating)]
    } else {
        seq![]
    }) + windows_in_list(n.nodes@, floating) + windows_in_list(n.floating_nodes@, true)
}

/// The windows under a list of siblings, one after another.
pub open spec fn windows_in_list(s: Seq<Node>, floating: bool) -> Seq<(Node, bool)>
    decreases s,
{
    if s.len() == 0 {
        seq![]
    } else {
        windows_in_list(s.drop_last(), floating) + windows_in(s.last(), floating)
    }
}

/// The windows under each of a sequence of workspace nodes, in order.
pub open spec fn windows_under(ws: Seq<Node>) -> Seq<(Node, bool)>
    decreases ws.len(),
{
    if ws.len() == 0 {
        seq![]
    } else {
        windows_under(ws.drop_last()) + windows_in(ws.last(), false)
    }
}

/// Whether an optional text is present and the pattern matches it.
pub open spec fn text_matches(o: Option<String>, p: Pattern) -> bool {
    o matches Some(s) && regex_is_match(p@, s@)
}

/// Whether a window passes a criterion. Output and workspace criteria are
/// applied before, to the outputs and workspaces, and pass every window.
/// `urgent` keeps urgent windows: the tree carries no urgency times, so the
/// latest and the oldest are not told apart.
pub open spec fn window_kept(m: Match, c: (Node, bool)) -> bool {
    let n = c.0;
    let props = n.window_properties;
    match m {
        Match::Class(p) => props matches Some(w) && text_matches(w.class, p),
        Match::Instance(p) => props matches Some(w) && text_matches(w.instance, p),
        Match::WindowRole(p) => props matches Some(w) && text_matches(w.window_role, p),
        Match::Title(p) => props matches Some(w) && text_matches(w.title, p),
        Match::WindowType(t) => n.window_type == Some(t),
        Match::Id(id) => n.window == Some(id as usize),
        Match::Urgent(_) => n.urgent,
        Match::ConMark(p) => exists|k: int|
            0 <= k < n.marks@.len() && regex_is_match(p@, #[trigger] n.marks@[k]@),
        Match::ConId(ConId::Focused) => n.focused,
        Match::ConId(ConId::Id(id)) => n.id == id,
        Match::Floating => c.1,
        Match::Tiling => !c.1,
        Match::Output(_) => true,
        Match::Workspace(_) => true,
    }
}

/// The windows that one criterion keeps.
pub open spec fn kept_by(m: Match) -> spec_fn((Node, bool)) -> bool {
    |c: (Node, bool)| window_kept(m, c)
}

/// The criteria of a list applied in order to a sequence of windows.
pub open spec fn narrow_windows(s: Seq<(Node, bool)>, criteria: Seq<Match>) -> Seq<(Node, bool)>
    decreases criteria.len(),
{
    if criteria.len() == 0 {
        s
    } else {
        narrow_windows(s, criteria.drop_last()).filter(kept_by(criteria.last()))
    }
}

/// The windows that a list of criteria selects: those under the selected
/// workspaces, narrowed by every criterion in order.
pub open spec fn selected_windows(
    tree: Node,
    outs: Seq<Output>,
    ws: Seq<Workspace>,
    criteria: Seq<Match>,
) -> Seq<(Node, bool)> {
    narrow_windows(windows_under(selected_workspaces(tree, outs, ws, criteria)), criteria)
}

fn collect_windows<'a>(n: &'a Node, floating: bool, res: &mut Vec<WindowMatch<'a>>)
    ensures
        candidates(final(res)@) == candidates(old(res)@) + windows_in(*n, floating),
    decreases n,
{
    let ghost start = candidates(res@);
    if n.window.is_some() {
        res.push(WindowMatch { node: n, floating });
        assert(candidates(res@) =~= start + seq![(*n, floating)]);
    } else {
        assert(candidates(res@) =~= start + Seq::<(Node, bool)>::empty());
    }
    let ghost own = candidates(res@);
    collect_windows_among(&n.nodes, floating, res);
    collect_windows_among(&n.floating_nodes, true, res);
    assert(candidates(res@) =~= start + windows_in(*n, floating));
}

fn collect_windows_among<'a>(list: &'a Vec<Node>, floating: bool, res: &mut Vec<WindowMatch<'a>>)
    ensures
        candidates(final(res)@) == candidates(old(res)@) + windows_in_list(list@, floating),
    decreases list,
{
    let ghost start = candidates(res@);
    let mut i: usize = 0;
    assert(list@.take(0) =~= Seq::<Node>::empty());
    assert(start + Seq::<(Node, bool)>::empty() =~= start);
    while i < list.len()
        invariant
            i <= list@.len(),
            candidates(res@) == start + windows_in_list(list@.take(i as int), floating),
        decreases list@.len() - i,
    {
        collect_windows(&list[i], floating, res);
        assert(list@.take(i + 1).drop_last() =~= list@.take(i as int));
        assert(candidates(res@) =~= start + windows_in_list(list@.take(i + 1), floating));
        i = i + 1;
    }
    assert(list@.take(i as int) =~= list@);
}

/// Every window under the workspace candidates, workspace after workspace,
/// each workspace's windows in pre-order.
pub fn all_windows<'a>(matches: WorkspaceMatches<'a>) -> (r: Vec<WindowMatch<'a>>)
    ensures
        candidates(r@) == windows_under(targets(matches.0@)),
{
    let wss = matches.0;
    let mut res: Vec<WindowMatch<'a>> = Vec::new();
    let mut i: usize = 0;
    assert(targets(wss@).take(0) =~= Seq::<Node>::empty());
    assert(candidates(res@) =~= Seq::<(Node, bool)>::empty());
    while i < wss.len()
        invariant
            i <= wss@.len(),
            candidates(res@) == windows_under(targets(wss@).take(i as int)),
        decreases wss@.len() - i,
    {
        collect_windows(wss[i], false, &mut res);
        assert(targets(wss@).take(i + 1).drop_last() =~= targets(wss@).take(i as int));
        i = i + 1;
    }
    assert(targets(wss@).take(i as int) =~= targets(wss@));
    res
}

fn opt_text_matches(o: &Option<String>, p: &Pattern) -> (r: bool)
    ensures
        r == text_matches(*o, *p),
{
    match o {
        Some(s) => pattern_is_match(p, s.as_str()),
        None => false,
    }
}

fn any_mark_matches(marks: &Vec<String>, p: &Pattern) -> (r: bool)
    ensures
        r == exists|k: int| 0 <= k < marks@.len() && regex_is_match(p@, #[trigger] marks@[k]@),
{
    let mut k: usize = 0;
    while k < marks.len()
        invariant
            k <= marks@.len(),
            forall|j: int| 0 <= j < k ==> !regex_is_match(p@, #[trigger] marks@[j]@),
        decreases marks@.len() - k,
    {
        if pattern_is_match(p, marks[k].as_str()) {
            assert(regex_is_match(p@, marks@[k as int]@));
            return true;
        }
        k = k + 1;
    }
    false
}

/// Whether a window passes a criterion.
pub fn window_passes(m: &Match, c: &WindowMatch) -> (r: bool)
    ensures
        r == window_kept(*m, (*c.node, c.floating)),
{
    let n = c.node;
    match m {
        Match::Class(p) => match &n.window_properties {
            Some(w) => opt_text_matches(&w.class, p),
            None => false,
        },
        Match::Instance(p) => match &n.window_properties {
            Some(w) => opt_text_matches(&w.instance, p),
            None => false,
        },
        Match::WindowRole(p) => match &n.window_properties {
            Some(w) => opt_text_matches(&w.window_role, p),
            None => false,
        },
        Match::Title(p) => match &n.window_properties {
            Some(w) => opt_text_matches(&w.title, p),
            None => false,
        },
        Match::WindowType(t) => match n.window_type {
            Some(u) => u == *t,
            None => false,
        },
        Match::Id(id) => match n.window {
            Some(w) => w == *id as usize,
            None => false,
        },
        Match::Urgent(_) => n.urgent,
        Match::ConMark(p) => any_mark_matches(&n.marks, p),
        Match::ConId(ConId::Focused) => n.focused,
        Match::ConId(ConId::Id(id)) => n.id == *id,
        Match::Floating => c.floating,
        Match::Tiling => !c.floating,
        Match::Output(_) => true,
        Match::Workspace(_) => true,
    }
}

/// Narrows the window candidates by one criterion, keeping their order.
pub fn match_window<'a>(matches: Vec<WindowMatch<'a>>, m: &Match) -> (r: Vec<WindowMatch<'a>>)
    ensures
        candidates(r@) == candidates(matches@).filter(kept_by(*m)),
{
    let ghost p = kept_by(*m);
    let mut res: Vec<WindowMatch<'a>> = Vec::new();
    let mut i: usize = 0;
    proof {
        assert(candidates(matches@).take(0) =~= Seq::<(Node, bool)>::empty());
        reveal(Seq::filter);
        assert(candidates(res@) =~= candidates(matches@).take(0).filter(p));
    }
    while i < matches.len()
        invariant
            i <= matches@.len(),
            p == kept_by(*m),
            candidates(res@) == candidates(matches@).take(i as int).filter(p),
        decreases matches@.len() - i,
    {
        let c = &matches[i];
        let ghost before = res@;
        let ghost item = (*c.node, c.floating);
        proof {
            assert(candidates(matches@).take(i + 1) =~= candidates(matches@).take(i as int).push(
                item,
            ));
            candidates(matches@).take(i as int).lemma_filter_push(item, p);
        }
        if window_passes(m, c) {
            res.push(WindowMatch { node: c.node, floating: c.floating });
            assert(candidates(res@) =~= candidates(before).push(item));
        }
        i = i + 1;
    }
    assert(candidates(matches@).take(i as int) =~= candidates(matches@));
    res
}

/// Selects windows by a list of criteria: the workspaces are selected as
/// `select_workspaces` does, and the windows under them are narrowed by each
/// criterion in order.
pub fn select_windows<'a>(
    tree: &'a Node,
    outputs: &Vec<Output>,
    workspaces: &Vec<Workspace>,
    criteria: &Vec<Match>,
) -> (r: Vec<WindowMatch<'a>>)
    ensures
        candidates(r@) == selected_windows(*tree, outputs@, workspaces@, criteria@),
{
    let wss = select_workspaces(tree, outputs, workspaces, criteria);
    let mut wins = all_windows(wss);
    let ghost start = candidates(wins@);
    let mut i: usize = 0;
    assert(criteria@.take(0) =~= Seq::<Match>::empty());
    while i < criteria.len()
        invariant
            i <= criteria@.len(),
            candidates(wins@) == narrow_windows(start, criteria@.take(i as int)),
        decreases criteria@.len() - i,
    {
        assert(criteria@.take(i + 1).drop_last() =~= criteria@.take(i as int));
        wins = match_window(wins, &criteria[i]);
        i = i + 1;
    }
    assert(criteria@.take(i as int) =~= criteria@);
    wins
}

} // verus!
