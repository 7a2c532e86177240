//! Searches over the layout tree: first match in pre-order, all matches in
//! post-order, the focused node by the focus lists, and the largest tiled
//! window.
use vstd::prelude::*;

use crate::model::{
    area, lemma_child_subtree, lemma_postorder_contains_self, name_text, postorder,
    postorder_list, targets, Node, NodeType, Workspace,
};
use crate::text::text_eq;

verus! {

/// The node that an optional reference points to.
pub open spec fn target(o: Option<&Node>) -> Option<Node> {
    match o {
        Some(r) => Some(*r),
        None => None,
    }
}

/// Whether a predicate can be called on every node and gives one answer for
/// each.
pub open spec fn decides<P: Fn(&Node) -> bool>(pred: &P) -> bool {
    &&& forall|m: &Node| call_requires(*pred, (m,))
    &&& forall|m: &Node, b: bool|
        #[trigger] call_ensures(*pred, (m,), b) ==> b == call_ensures(*pred, (m,), true)
}

/// Whether a predicate can be called on every node and answers as `p` does.
pub open spec fn computes<P: Fn(&Node) -> bool>(pred: &P, p: spec_fn(Node) -> bool) -> bool {
    &&& forall|m: &Node| call_requires(*pred, (m,))
    &&& forall|m: &Node, b: bool| #[trigger] call_ensures(*pred, (m,), b) ==> b == p(*m)
}

/// The nodes on which a predicate answers `true`.
pub open spec fn accepted<P: Fn(&Node) -> bool>(pred: P) -> spec_fn(Node) -> bool {
    |m: Node| call_ensures(pred, (&m,), true)
}

// ---------------------------------------------------------------------------
// First match, pre-order
// ---------------------------------------------------------------------------

/// The first node under `n`, in pre-order, that satisfies `p`: `n` itself,
/// then its tiled children's subtrees, then its floating children's.
pub open spec fn first_match(n: Node, p: spec_fn(Node) -> bool) -> Option<Node>
    decreases n,
{
    if p(n) {
        Some(n)
    } else {
        match first_match_list(n.nodes@, p) {
            Some(x) => Some(x),
            None => first_match_list(n.floating_nodes@, p),
        }
    }
}

/// The first match among a list of sibling subtrees, in order.
pub open spec fn first_match_list(s: Seq<Node>, p: spec_fn(Node) -> bool) -> Option<Node>
    decreases s,
{
    if s.len() == 0 {
        None
    } else {
        match first_match(s[0], p) {
            Some(x) => Some(x),
            None => first_match_list(s.subrange(1, s.len() as int), p),
        }
    }
}

/// Finds the first node under `parent`, in pre-order, on which `predicate`
/// answers `true`. Each node is tested before its children.
pub fn i3_tree_find_first<'a, P: Fn(&Node) -> bool>(parent: &'a Node, predicate: P) -> (r: Option<
    &'a Node,
>)
    requires
        decides(&predicate),
    ensures
        target(r) == first_match(*parent, accepted(predicate)),
{
    find_first_in(parent, &predicate, Ghost(accepted(predicate)))
}

pub(crate) fn find_first_in<'a, P: Fn(&Node) -> bool>(
    parent: &'a Node,
    predicate: &P,
    Ghost(p): Ghost<spec_fn(Node) -> bool>,
) -> (r: Option<&'a Node>)
    requires
        computes(predicate, p),
    ensures
        target(r) == first_match(*parent, p),
    decreases parent,
{
    if predicate(parent) {
        return Some(parent);
    }
    let r = find_first_among(&parent.nodes, predicate, Ghost(p));
    if r.is_some() {
        return r;
    }
    find_first_among(&parent.floating_nodes, predicate, Ghost(p))
}

fn find_first_among<'a, P: Fn(&Node) -> bool>(
    list: &'a Vec<Node>,
    predicate: &P,
    Ghost(p): Ghost<spec_fn(Node) -> bool>,
) -> (r: Option<&'a Node>)
    requires
        computes(predicate, p),
    ensures
        target(r) == first_match_list(list@, p),
    decreases list,
{
    let mut i: usize = 0;
    assert(list@.subrange(0, list@.len() as int) =~= list@);
    while i < list.len()
        invariant
            i <= list@.len(),
            computes(predicate, p),
            first_match_list(list@, p) == first_match_list(list@.subrange(i as int, list@.len() as int), p),
        decreases list@.len() - i,
    {
        let ghost rest = list@.subrange(i as int, list@.len() as int);
        assert(rest[0] == list@[i as int]);
        assert(rest.subrange(1, rest.len() as int) =~= list@.subrange(i + 1, list@.len() as int));
        let r = find_first_in(&list[i], predicate, Ghost(p));
        if r.is_some() {
            return r;
        }
        i = i + 1;
    }
    assert(list@.subrange(i as int, list@.len() as int) =~= Seq::<Node>::empty());
    None
}

// ---------------------------------------------------------------------------
// All matches, post-order
// ---------------------------------------------------------------------------

/// The nodes under `n` that satisfy `p`, children before their parent.
pub open spec fn all_matches(n: Node, p: spec_fn(Node) -> bool) -> Seq<Node>
    decreases n,
{
    all_matches_list(n.nodes@, p) + all_matches_list(n.floating_nodes@, p) + if p(n) {
        seq![n]
    } else {
        seq![]
    }
}

/// The matches among a list of sibling subtrees, one subtree after another.
pub open spec fn all_matches_list(s: Seq<Node>, p: spec_fn(Node) -> bool) -> Seq<Node>
    decreases s,
{
    if s.len() == 0 {
        seq![]
    } else {
        all_matches_list(s.drop_last(), p) + all_matches(s.last(), p)
    }
}

/// The matches under a node are its post-order sequence, filtered.
pub proof fn lemma_all_matches_filter(n: Node, p: spec_fn(Node) -> bool)
    ensures
        all_matches(n, p) == postorder(n).filter(p),
    decreases n,
{
    lemma_all_matches_list_filter(n.nodes@, p);
    lemma_all_matches_list_filter(n.floating_nodes@, p);
    let a = postorder_list(n.nodes@);
    let b = postorder_list(n.floating_nodes@);
    Seq::filter_distributes_over_add(a + b, seq![n], p);
    Seq::filter_distributes_over_add(a, b, p);
    reveal(Seq::filter);
    assert(seq![n].drop_last() =~= Seq::<Node>::empty());
    assert(Seq::<Node>::empty().filter(p) =~= Seq::<Node>::empty());
    assert(seq![n].filter(p) =~= if p(n) {
        seq![n]
    } else {
        seq![]
    });
}

proof fn lemma_all_matches_list_filter(s: Seq<Node>, p: spec_fn(Node) -> bool)
    ensures
        all_matches_list(s, p) == postorder_list(s).filter(p),
    decreases s,
{
    if s.len() == 0 {
        reveal(Seq::filter);
        assert(Seq::<Node>::empty().filter(p) =~= Seq::<Node>::empty());
    } else {
        lemma_all_matches_list_filter(s.drop_last(), p);
        lemma_all_matches_filter(s.last(), p);
        Seq::filter_distributes_over_add(postorder_list(s.drop_last()), postorder(s.last()), p);
    }
}

/// Finds every node under `parent` on which `predicate` answers `true`. The
/// nodes come in post-order: a node's children (tiled, then floating) before
/// the node itself.
pub fn i3_tree_find_all<'a, P: Fn(&Node) -> bool>(parent: &'a Node, predicate: P) -> (r: Vec<
    &'a Node,
>)
    requires
        decides(&predicate),
    ensures
        targets(r@) == all_matches(*parent, accepted(predicate)),
        targets(r@) == postorder(*parent).filter(accepted(predicate)),
{
    find_all_by(parent, &predicate, Ghost(accepted(predicate)))
}

/// Finds every node under `parent` that satisfies `p`, which `predicate`
/// computes, in post-order.
pub(crate) fn find_all_by<'a, P: Fn(&Node) -> bool>(
    parent: &'a Node,
    predicate: &P,
    Ghost(p): Ghost<spec_fn(Node) -> bool>,
) -> (r: Vec<&'a Node>)
    requires
        computes(predicate, p),
    ensures
        targets(r@) == all_matches(*parent, p),
        targets(r@) == postorder(*parent).filter(p),
{
    let mut res: Vec<&'a Node> = Vec::new();
    find_all_into(parent, predicate, Ghost(p), &mut res);
    proof {
        assert(targets(Seq::<&Node>::empty()) =~= Seq::<Node>::empty());
        assert(targets(res@) =~= all_matches(*parent, p));
        lemma_all_matches_filter(*parent, p);
    }
    res
}

fn find_all_into<'a, P: Fn(&Node) -> bool>(
    parent: &'a Node,
    predicate: &P,
    Ghost(p): Ghost<spec_fn(Node) -> bool>,
    res: &mut Vec<&'a Node>,
)
    requires
        computes(predicate, p),
    ensures
        targets(final(res)@) == targets(old(res)@) + all_matches(*parent, p),
    decreases parent,
{
    let ghost start = targets(res@);
    find_all_among(&parent.nodes, predicate, Ghost(p), res);
    find_all_among(&parent.floating_nodes, predicate, Ghost(p), res);
    let ghost before = res@;
    if predicate(parent) {
        res.push(parent);
        assert(targets(res@) =~= targets(before) + seq![*parent]);
    }
    assert(targets(res@) =~= start + all_matches(*parent, p));
}

fn find_all_among<'a, P: Fn(&Node) -> bool>(
    list: &'a Vec<Node>,
    predicate: &P,
    Ghost(p): Ghost<spec_fn(Node) -> bool>,
    res: &mut Vec<&'a Node>,
)
    requires
        computes(predicate, p),
    ensures
        targets(final(res)@) == targets(old(res)@) + all_matches_list(list@, p),
    decreases list,
{
    let ghost start = targets(res@);
    let mut i: usize = 0;
    assert(list@.take(0) =~= Seq::<Node>::empty());
    assert(start + Seq::<Node>::empty() =~= start);
    while i < list.len()
        invariant
            i <= list@.len(),
            computes(predicate, p),
            targets(res@) == start + all_matches_list(list@.take(i as int), p),
        decreases list@.len() - i,
    {
        find_all_into(&list[i], predicate, Ghost(p), res);
        assert(list@.take(i + 1).drop_last() =~= list@.take(i as int));
        assert(targets(res@) =~= start + all_matches_list(list@.take(i + 1), p));
        i = i + 1;
    }
    assert(list@.take(i as int) =~= list@);
}

// ---------------------------------------------------------------------------
// The focused node
// ---------------------------------------------------------------------------

/// The first position at or after `i` of a node with the given id, or -1.
pub open spec fn id_index(s: Seq<Node>, id: usize, i: int) -> int
    decreases s.len() - i,
{
    if i < 0 || i >= s.len() {
        -1
    } else if s[i].id == id {
        i
    } else {
        id_index(s, id, i + 1)
    }
}

/// The child that a focus entry names: the first tiled child with that id,
/// else the first floating child with it.
pub open spec fn focus_child(n: Node, id: usize) -> Option<Node> {
    let i = id_index(n.nodes@, id, 0);
    let j = id_index(n.floating_nodes@, id, 0);
    if 0 <= i < n.nodes@.len() {
        Some(n.nodes@[i])
    } else if 0 <= j < n.floating_nodes@.len() {
        Some(n.floating_nodes@[j])
    } else {
        None
    }
}

/// The node that the search for the focused node stops at: `n` if it is
/// focused, else the result for the child named first in its focus list.
pub open spec fn focused_in(n: Node) -> Option<Node>
    decreases n,
{
    if n.focused {
        Some(n)
    } else if n.focus@.len() == 0 {
        None
    } else {
        let f = n.focus@[0];
        let i = id_index(n.nodes@, f, 0);
        let j = id_index(n.floating_nodes@, f, 0);
        if 0 <= i < n.nodes@.len() {
            focused_in(n.nodes@[i])
        } else if 0 <= j < n.floating_nodes@.len() {
            focused_in(n.floating_nodes@[j])
        } else {
            None
        }
    }
}

/// Where the focus lists lead from `n`: down through the first entry of each
/// focus list until a node whose focus list is empty.
pub open spec fn focus_chain_end(n: Node) -> Option<Node>
    decreases n,
{
    if n.focus@.len() == 0 {
        Some(n)
    } else {
        let f = n.focus@[0];
        let i = id_index(n.nodes@, f, 0);
        let j = id_index(n.floating_nodes@, f, 0);
        if 0 <= i < n.nodes@.len() {
            focus_chain_end(n.nodes@[i])
        } else if 0 <= j < n.floating_nodes@.len() {
            focus_chain_end(n.floating_nodes@[j])
        } else {
            None
        }
    }
}

proof fn lemma_id_index(s: Seq<Node>, id: usize, i: int)
    requires
        0 <= i,
    ensures
        id_index(s, id, i) == -1 || (i <= id_index(s, id, i) < s.len() && s[id_index(
            s,
            id,
            i,
        )].id == id),
    decreases s.len() - i,
{
    if i < s.len() && s[i].id != id {
        lemma_id_index(s, id, i + 1);
    }
}

fn child_with_id(list: &Vec<Node>, id: usize) -> (r: Option<usize>)
    ensures
        match r {
            Some(i) => id_index(list@, id, 0) == i && i < list@.len(),
            None => id_index(list@, id, 0) == -1,
        },
{
    let mut i: usize = 0;
    while i < list.len()
        invariant
            i <= list@.len(),
            id_index(list@, id, i as int) == id_index(list@, id, 0),
        decreases list@.len() - i,
    {
        if list[i].id == id {
            return Some(i);
        }
        i = i + 1;
    }
    None
}

/// Finds the focused node under `parent` by following the focus lists:
/// `parent` itself if it is focused, else the result for the child that the
/// first entry of its focus list names (among the tiled children first, then
/// the floating ones); none when the focus list is empty or names no child.
pub fn i3_find_focused_node(parent: &Node) -> (r: Option<&Node>)
    ensures
        target(r) == focused_in(*parent),
    decreases parent,
{
    if parent.focused {
        return Some(parent);
    }
    if parent.focus.len() == 0 {
        return None;
    }
    let f = parent.focus[0];
    match child_with_id(&parent.nodes, f) {
        Some(i) => i3_find_focused_node(&parent.nodes[i]),
        None => match child_with_id(&parent.floating_nodes, f) {
            Some(j) => i3_find_focused_node(&parent.floating_nodes[j]),
            None => None,
        },
    }
}

proof fn lemma_focused_in_found(n: Node)
    requires
        focus_chain_end(n) is Some,
        focus_chain_end(n)->0.focused,
    ensures
        focused_in(n) is Some,
        focused_in(n)->0.focused,
        postorder(n).contains(focused_in(n)->0),
    decreases n,
{
    lemma_postorder_contains_self(n);
    if !n.focused {
        let f = n.focus@[0];
        let i = id_index(n.nodes@, f, 0);
        let j = id_index(n.floating_nodes@, f, 0);
        lemma_id_index(n.nodes@, f, 0);
        lemma_id_index(n.floating_nodes@, f, 0);
        if 0 <= i < n.nodes@.len() {
            let c = n.nodes@[i];
            lemma_focused_in_found(c);
            assert(n.nodes@.contains(c));
            lemma_child_subtree(n, c, focused_in(c)->0);
        } else {
            let c = n.floating_nodes@[j];
            lemma_focused_in_found(c);
            assert(n.floating_nodes@.contains(c));
            lemma_child_subtree(n, c, focused_in(c)->0);
        }
    }
}

/// In a tree with exactly one focused node, where the focus lists followed
/// from the root lead to a focused node, the search for the focused node
/// returns that one node, however deep it lies.
pub proof fn lemma_find_focused_unique(root: Node, m: Node)
    requires
        postorder(root).filter(|x: Node| x.focused).len() == 1,
        focus_chain_end(root) is Some,
        focus_chain_end(root)->0.focused,
        postorder(root).contains(m),
        m.focused,
    ensures
        focused_in(root) == Some(m),
{
    let p = |x: Node| x.focused;
    let s = postorder(root);
    lemma_focused_in_found(root);
    let x = focused_in(root)->0;
    let ix = choose|k: int| 0 <= k < s.len() && s[k] == x;
    let im = choose|k: int| 0 <= k < s.len() && s[k] == m;
    s.lemma_filter_contains(p, ix);
    s.lemma_filter_contains(p, im);
    let fs = s.filter(p);
    assert(fs.contains(x) && fs.contains(m));
    assert(x == fs[0] && m == fs[0]);
}

// ---------------------------------------------------------------------------
// The largest tiled window
// ---------------------------------------------------------------------------

/// The candidate that a tiled child offers: itself, if it is a container that
/// holds a window; else the largest window of its own subtree.
pub open spec fn is_window_con(c: Node) -> bool {
    c.node_type == NodeType::Con && c.window is Some
}

/// The larger of a current winner and a new candidate; the new candidate wins
/// only with a strictly larger area.
pub open spec fn pick_larger(best: Option<Node>, cand: Option<Node>) -> Option<Node> {
    match cand {
        None => best,
        Some(y) => match best {
            None => cand,
            Some(x) => if area(y) > area(x) {
                cand
            } else {
                best
            },
        },
    }
}

/// The largest window among the tiled subtrees of `n`, the earliest on ties.
pub open spec fn largest_in(n: Node) -> Option<Node>
    decreases n,
{
    largest_in_list(n.nodes@)
}

/// The largest window offered by a list of tiled siblings, left to right.
pub open spec fn largest_in_list(s: Seq<Node>) -> Option<Node>
    decreases s,
{
    if s.len() == 0 {
        None
    } else {
        let c = s.last();
        pick_larger(
            largest_in_list(s.drop_last()),
            if is_window_con(c) {
                Some(c)
            } else {
                largest_in(c)
            },
        )
    }
}

fn area_of(n: &Node) -> (r: i128)
    ensures
        r == area(*n),
{
    let w = n.window_rect.width as i128;
    let h = n.window_rect.height as i128;
    proof {
        let (a, b) = (w as int, h as int);
        assert(-0x8000_0000_0000_0000 <= a <= 0x8000_0000_0000_0000);
        assert(-0x8000_0000_0000_0000 <= b <= 0x8000_0000_0000_0000);
        assert(-0x4000_0000_0000_0000_0000_0000_0000_0000 <= a * b <= 0x4000_0000_0000_0000_0000_0000_0000_0000)
            by (nonlinear_arith)
            requires
                -0x8000_0000_0000_0000 <= a <= 0x8000_0000_0000_0000,
                -0x8000_0000_0000_0000 <= b <= 0x8000_0000_0000_0000,
        ;
    }
    w * h
}

fn larger<'a>(best: Option<&'a Node>, cand: Option<&'a Node>) -> (r: Option<&'a Node>)
    ensures
        target(r) == pick_larger(target(best), target(cand)),
{
    match cand {
        None => best,
        Some(y) => match best {
            None => cand,
            Some(x) => if area_of(y) > area_of(x) {
                cand
            } else {
                best
            },
        },
    }
}

/// Finds the largest tiled window under `parent`: only tiled children are
/// looked at, never floating ones. A container that holds a window is a
/// candidate; any other child is searched in turn. Candidates are compared by
/// the area of their window rectangles, and of equal areas the one found
/// first (left to right, depth first) is kept.
pub fn i3_find_largest_tiled_window(parent: &Node) -> (r: Option<&Node>)
    ensures
        target(r) == largest_in(*parent),
    decreases parent,
{
    let list = &parent.nodes;
    let mut best: Option<&Node> = None;
    let mut i: usize = 0;
    assert(list@.take(0) =~= Seq::<Node>::empty());
    while i < list.len()
        invariant
            i <= list@.len(),
            list == &parent.nodes,
            target(best) == largest_in_list(list@.take(i as int)),
        decreases list@.len() - i,
    {
        let c = &list[i];
        let cand = if c.node_type == NodeType::Con && c.window.is_some() {
            Some(c)
        } else {
            i3_find_largest_tiled_window(c)
        };
        best = larger(best, cand);
        assert(list@.take(i + 1).drop_last() =~= list@.take(i as int));
        i = i + 1;
    }
    assert(list@.take(i as int) =~= list@);
    best
}

/// The windows that compete for the largest tiled window under `n`, in the
/// order that the search meets them.
pub open spec fn tiled_candidates(n: Node) -> Seq<Node>
    decreases n,
{
    tiled_candidates_list(n.nodes@)
}

/// The competing windows of a list of tiled siblings, left to right.
pub open spec fn tiled_candidates_list(s: Seq<Node>) -> Seq<Node>
    decreases s,
{
    if s.len() == 0 {
        seq![]
    } else {
        let c = s.last();
        tiled_candidates_list(s.drop_last()) + if is_window_con(c) {
            seq![c]
        } else {
            tiled_candidates(c)
        }
    }
}

/// The winner among a sequence of windows, compared left to right.
pub open spec fn best_of(s: Seq<Node>) -> Option<Node>
    decreases s.len(),
{
    if s.len() == 0 {
        None
    } else {
        pick_larger(best_of(s.drop_last()), Some(s.last()))
    }
}

/// Whether position `k` holds a window of largest area, and the first one.
pub open spec fn is_first_largest(s: Seq<Node>, k: int) -> bool {
    &&& 0 <= k < s.len()
    &&& forall|j: int| 0 <= j < s.len() ==> area(#[trigger] s[j]) <= area(s[k])
    &&& forall|j: int| 0 <= j < k ==> area(#[trigger] s[j]) < area(s[k])
}

proof fn lemma_best_of_concat(a: Seq<Node>, b: Seq<Node>)
    ensures
        best_of(a + b) == pick_larger(best_of(a), best_of(b)),
    decreases b.len(),
{
    if b.len() == 0 {
        assert(a + b =~= a);
    } else {
        let b1 = b.drop_last();
        lemma_best_of_concat(a, b1);
        assert((a + b).drop_last() =~= a + b1);
        assert((a + b).last() == b.last());
    }
}

proof fn lemma_largest_in_list(s: Seq<Node>)
    ensures
        largest_in_list(s) == best_of(tiled_candidates_list(s)),
    decreases s,
{
    if s.len() > 0 {
        let c = s.last();
        lemma_largest_in_list(s.drop_last());
        let more = if is_window_con(c) {
            seq![c]
        } else {
            tiled_candidates(c)
        };
        if is_window_con(c) {
            assert(seq![c].drop_last() =~= Seq::<Node>::empty());
            assert(best_of(Seq::<Node>::empty()) is None);
            assert(best_of(seq![c]) == Some(c));
        } else {
            lemma_largest_in_list(c.nodes@);
            assert(largest_in(c) == largest_in_list(c.nodes@));
            assert(tiled_candidates(c) == tiled_candidates_list(c.nodes@));
        }
        lemma_best_of_concat(tiled_candidates_list(s.drop_last()), more);
    }
}

proof fn lemma_best_of_first_largest(s: Seq<Node>)
    ensures
        best_of(s) is None <==> s.len() == 0,
        best_of(s) is Some ==> exists|k: int| is_first_largest(s, k) && best_of(s) == Some(s[k]),
    decreases s.len(),
{
    if s.len() > 0 {
        let t = s.drop_last();
        lemma_best_of_first_largest(t);
        if t.len() == 0 {
            assert(is_first_largest(s, 0));
        } else {
            let k = choose|k: int| is_first_largest(t, k) && best_of(t) == Some(t[k]);
            let last = s.len() - 1;
            if area(s[last]) > area(t[k]) {
                assert forall|j: int| 0 <= j < s.len() implies area(#[trigger] s[j]) <= area(s[last]) by {
                    if j < last {
                        assert(s[j] == t[j]);
                    }
                }
                assert forall|j: int| 0 <= j < last implies area(#[trigger] s[j]) < area(s[last]) by {
                    assert(s[j] == t[j]);
                }
                assert(is_first_largest(s, last));
            } else {
                assert forall|j: int| 0 <= j < s.len() implies area(#[trigger] s[j]) <= area(s[k]) by {
                    if j < last {
                        assert(s[j] == t[j]);
                    }
                }
                assert forall|j: int| 0 <= j < k implies area(#[trigger] s[j]) < area(s[k]) by {
                    assert(s[j] == t[j]);
                }
                assert(is_first_largest(s, k));
            }
        }
    }
}

/// The largest tiled window is a competing window of largest area, and the
/// first such in depth-first order, left to right; there is none exactly when
/// no window competes.
pub proof fn lemma_largest_tiled_is_first_largest(n: Node)
    ensures
        largest_in(n) is None <==> tiled_candidates(n).len() == 0,
        largest_in(n) is Some ==> exists|k: int|
            is_first_largest(tiled_candidates(n), k) && largest_in(n) == Some(
                tiled_candidates(n)[k],
            ),
{
    lemma_largest_in_list(n.nodes@);
    lemma_best_of_first_largest(tiled_candidates(n));
}

// ---------------------------------------------------------------------------
// The focused workspace
// ---------------------------------------------------------------------------

/// The first workspace at or after `i` that is marked focused.
pub open spec fn first_focused_workspace(ws: Seq<Workspace>, i: int) -> Option<Workspace>
    decreases ws.len() - i,
{
    if i < 0 || i >= ws.len() {
        None
    } else if ws[i].focused {
        Some(ws[i])
    } else {
        first_focused_workspace(ws, i + 1)
    }
}

/// The nodes whose name is the given text.
pub open spec fn named(name: Seq<char>) -> spec_fn(Node) -> bool {
    |n: Node| name_text(n) == name
}

/// The tree node of the focused workspace: the first node, in pre-order, whose
/// name is that of the first workspace marked focused in the list.
pub open spec fn focused_workspace_in(ws: Seq<Workspace>, tree: Node) -> Option<Node> {
    match first_focused_workspace(ws, 0) {
        Some(w) => first_match(tree, named(w.name@)),
        None => None,
    }
}

/// Whether a node's name is `name` (a node without a name has the empty one).
pub fn has_name(n: &Node, name: &str) -> (r: bool)
    ensures
        r == (name_text(*n) == name@),
{
    match &n.name {
        Some(s) => text_eq(s.as_str(), name),
        None => {
            let empty = name.unicode_len() == 0;
            assert(empty ==> name@ =~= Seq::<char>::empty());
            empty
        },
    }
}

/// Finds the tree node of the focused workspace: the workspace list names the
/// focused workspace, and the tree is searched for a node of that name.
/// Returns none when no workspace is marked focused or no node has its name.
pub fn i3_find_focused_workspace<'a>(workspaces: &Vec<Workspace>, tree: &'a Node) -> (r: Option<
    &'a Node,
>)
    ensures
        target(r) == focused_workspace_in(workspaces@, *tree),
{
    let mut i: usize = 0;
    while i < workspaces.len()
        invariant
            i <= workspaces@.len(),
            first_focused_workspace(workspaces@, i as int) == first_focused_workspace(workspaces@, 0),
        decreases workspaces@.len() - i,
    {
        if workspaces[i].focused {
            let name = workspaces[i].name.as_str();
            let pred = |n: &Node| -> (b: bool)
                ensures
                    b == (name_text(*n) == name@),
                { has_name(n, name) };
            let found = find_first_in(tree, &pred, Ghost(named(name@)));
            return found;
        }
        i = i + 1;
    }
    None
}

// ---------------------------------------------------------------------------
// Paths
// ---------------------------------------------------------------------------

/// One step down the tree: to a tiled child or to a floating child, by its
/// position in that list.
#[derive(Debug, Clone, Copy, PartialEq, Eq, Structural)]
pub enum Step {
    Tiled(usize),
    Floating(usize),
}

/// The node that a path of steps leads to from `n`, if every step exists.
pub open spec fn node_at(n: Node, path: Seq<Step>) -> Option<Node>
    decreases path.len(),
{
    if path.len() == 0 {
        Some(n)
    } else {
        match path[0] {
            Step::Tiled(i) => if i < n.nodes@.len() {
                node_at(n.nodes@[i as int], path.skip(1))
            } else {
                None
            },
            Step::Floating(i) => if i < n.floating_nodes@.len() {
                node_at(n.floating_nodes@[i as int], path.skip(1))
            } else {
                None
            },
        }
    }
}

proof fn lemma_node_at_step(n: Node, s: Step, rest: Seq<Step>)
    ensures
        node_at(n, seq![s] + rest) == match s {
            Step::Tiled(i) => if i < n.nodes@.len() {
                node_at(n.nodes@[i as int], rest)
            } else {
                None
            },
            Step::Floating(i) => if i < n.floating_nodes@.len() {
                node_at(n.floating_nodes@[i as int], rest)
            } else {
                None
            },
        },
{
    assert((seq![s] + rest).skip(1) =~= rest);
}

/// Follows a path from `n`.
pub fn resolve_path<'a>(n: &'a Node, path: &Vec<Step>) -> (r: Option<&'a Node>)
    ensures
        target(r) == node_at(*n, path@),
{
    let mut cur: &'a Node = n;
    let mut k: usize = 0;
    assert(path@.skip(0) =~= path@);
    while k < path.len()
        invariant
            k <= path@.len(),
            node_at(*n, path@) == node_at(*cur, path@.skip(k as int)),
        decreases path@.len() - k,
    {
        proof {
            assert(path@.skip(k as int) =~= seq![path@[k as int]] + path@.skip(k + 1));
            lemma_node_at_step(*cur, path@[k as int], path@.skip(k + 1));
        }
        match path[k] {
            Step::Tiled(i) => {
                if i >= cur.nodes.len() {
                    return None;
                }
                cur = &cur.nodes[i];
            },
            Step::Floating(i) => {
                if i >= cur.floating_nodes.len() {
                    return None;
                }
                cur = &cur.floating_nodes[i];
            },
        }
        k = k + 1;
    }
    assert(path@.skip(k as int) =~= Seq::<Step>::empty());
    Some(cur)
}

/// Appends to `path` the steps from `n` to the node that the search for the
/// focused node stops at; returns whether there is one.
pub(crate) fn focused_path(n: &Node, path: &mut Vec<Step>) -> (r: (bool, Ghost<Seq<Step>>))
    ensures
        r.0 == focused_in(*n) is Some,
        r.0 ==> final(path)@ == old(path)@ + r.1@ && node_at(*n, r.1@) == focused_in(*n),
        !r.0 ==> final(path)@ == old(path)@,
    decreases n,
{
    if n.focused {
        assert(old(path)@ + Seq::<Step>::empty() =~= old(path)@);
        return (true, Ghost(Seq::<Step>::empty()));
    }
    if n.focus.len() == 0 {
        return (false, Ghost(Seq::<Step>::empty()));
    }
    let f = n.focus[0];
    let (step, child) = match child_with_id(&n.nodes, f) {
        Some(i) => (Step::Tiled(i), &n.nodes[i]),
        None => match child_with_id(&n.floating_nodes, f) {
            Some(j) => (Step::Floating(j), &n.floating_nodes[j]),
            None => {
                return (false, Ghost(Seq::<Step>::empty()));
            },
        },
    };
    path.push(step);
    let ghost mid = path@;
    let (found, Ghost(rest)) = focused_path(child, path);
    if !found {
        path.pop();
        assert(path@ =~= old(path)@);
        return (false, Ghost(Seq::<Step>::empty()));
    }
    proof {
        lemma_node_at_step(*n, step, rest);
        assert(path@ =~= old(path)@ + (seq![step] + rest));
    }
    (true, Ghost(seq![step] + rest))
}

/// Appends to `path` the steps from `parent` to the first node, in pre-order,
/// that satisfies `p`; returns whether there is one.
pub(crate) fn first_match_path<P: Fn(&Node) -> bool>(
    parent: &Node,
    predicate: &P,
    Ghost(p): Ghost<spec_fn(Node) -> bool>,
    path: &mut Vec<Step>,
) -> (r: (bool, Ghost<Seq<Step>>))
    requires
        computes(predicate, p),
    ensures
        r.0 == first_match(*parent, p) is Some,
        r.0 ==> final(path)@ == old(path)@ + r.1@ && node_at(*parent, r.1@) == first_match(
            *parent,
            p,
        ),
        !r.0 ==> final(path)@ == old(path)@,
    decreases parent,
{
    if predicate(parent) {
        assert(old(path)@ + Seq::<Step>::empty() =~= old(path)@);
        return (true, Ghost(Seq::<Step>::empty()));
    }
    let (found, Ghost(rest)) = first_match_path_among(parent, false, predicate, Ghost(p), path);
    if found {
        return (true, Ghost(rest));
    }
    first_match_path_among(parent, true, predicate, Ghost(p), path)
}

fn first_match_path_among<P: Fn(&Node) -> bool>(
    parent: &Node,
    floating: bool,
    predicate: &P,
    Ghost(p): Ghost<spec_fn(Node) -> bool>,
    path: &mut Vec<Step>,
) -> (r: (bool, Ghost<Seq<Step>>))
    requires
        computes(predicate, p),
    ensures
        ({
            let list = if floating {
                parent.floating_nodes@
            } else {
                parent.nodes@
            };
            &&& r.0 == first_match_list(list, p) is Some
            &&& r.0 ==> final(path)@ == old(path)@ + r.1@ && node_at(*parent, r.1@)
                == first_match_list(list, p)
            &&& !r.0 ==> final(path)@ == old(path)@
        }),
    decreases parent, 0nat,
{
    let list = if floating {
        &parent.floating_nodes
    } else {
        &parent.nodes
    };
    let mut i: usize = 0;
    assert(list@.subrange(0, list@.len() as int) =~= list@);
    while i < list.len()
        invariant
            i <= list@.len(),
            computes(predicate, p),
            list@ == if floating {
                parent.floating_nodes@
            } else {
                parent.nodes@
            },
            path@ == old(path)@,
            first_match_list(list@, p) == first_match_list(list@.subrange(i as int, list@.len() as int), p),
        decreases list@.len() - i,
    {
        let ghost tail = list@.subrange(i as int, list@.len() as int);
        assert(tail[0] == list@[i as int]);
        assert(tail.subrange(1, tail.len() as int) =~= list@.subrange(i + 1, list@.len() as int));
        let step = if floating {
            Step::Floating(i)
        } else {
            Step::Tiled(i)
        };
        path.push(step);
        let (found, Ghost(rest)) = first_match_path(&list[i], predicate, Ghost(p), path);
        if found {
            proof {
                lemma_node_at_step(*parent, step, rest);
                assert(path@ =~= old(path)@ + (seq![step] + rest));
            }
            return (true, Ghost(seq![step] + rest));
        }
        path.pop();
        assert(path@ =~= old(path)@);
        i = i + 1;
    }
    assert(list@.subrange(i as int, list@.len() as int) =~= Seq::<Node>::empty());
    (false, Ghost(Seq::<Step>::empty()))
}

/// Appends to `path` the steps from `tree` to the focused workspace's node;
/// returns whether there is one.
pub(crate) fn focused_workspace_path(workspaces: &Vec<Workspace>, tree: &Node, path: &mut Vec<Step>) -> (r: (
    bool,
    Ghost<Seq<Step>>,
))
    ensures
        r.0 == focused_workspace_in(workspaces@, *tree) is Some,
        r.0 ==> final(path)@ == old(path)@ + r.1@ && node_at(*tree, r.1@) == focused_workspace_in(
            workspaces@,
            *tree,
        ),
        !r.0 ==> final(path)@ == old(path)@,
{
    let mut i: usize = 0;
    while i < workspaces.len()
        invariant
            i <= workspaces@.len(),
            path@ == old(path)@,
            first_focused_workspace(workspaces@, i as int) == first_focused_workspace(workspaces@, 0),
        decreases workspaces@.len() - i,
    {
        if workspaces[i].focused {
            let name = workspaces[i].name.as_str();
            let pred = |n: &Node| -> (b: bool)
                ensures
                    b == (name_text(*n) == name@),
                { has_name(n, name) };
            return first_match_path(tree, &pred, Ghost(named(name@)), path);
        }
        i = i + 1;
    }
    (false, Ghost(Seq::<Step>::empty()))
}

// ---------------------------------------------------------------------------
// Pre-order walk
// ---------------------------------------------------------------------------

/// The nodes of the tree under `n` in pre-order: `n`, then its tiled
/// children's subtrees, then its floating children's.
pub open spec fn preorder(n: Node) -> Seq<Node>
    decreases n,
{
    seq![n] + preorder_list(n.nodes@) + preorder_list(n.floating_nodes@)
}

/// The pre-order sequences of a list of sibling subtrees, one after another.
pub open spec fn preorder_list(s: Seq<Node>) -> Seq<Node>
    decreases s,
{
    if s.len() == 0 {
        seq![]
    } else {
        preorder(s[0]) + preorder_list(s.subrange(1, s.len() as int))
    }
}

/// The nodes still to come from a stack of subtrees, top (last) first.
pub open spec fn pending(stack: Seq<&Node>) -> Seq<Node>
    decreases stack.len(),
{
    if stack.len() == 0 {
        seq![]
    } else {
        preorder(*stack.last()) + pending(stack.drop_last())
    }
}

/// A walk over a tree in pre-order that keeps its place on an explicit stack
/// of subtrees still to visit, so that deep trees need no deep recursion.
pub struct TreeIter<'a> {
    stack: Vec<&'a Node>,
}

impl<'a> View for TreeIter<'a> {
    type V = Seq<Node>;

    /// The nodes that the walk has still to give, in order.
    closed spec fn view(&self) -> Seq<Node> {
        pending(self.stack@)
    }
}

impl<'a> TreeIter<'a> {
    /// A walk over the whole tree under `root`.
    pub fn new(root: &'a Node) -> (r: TreeIter<'a>)
        ensures
            r@ == preorder(*root),
    {
        let mut stack: Vec<&'a Node> = Vec::new();
        stack.push(root);
        proof {
            assert(stack@.drop_last() =~= Seq::<&Node>::empty());
            assert(pending(stack@.drop_last()) == Seq::<Node>::empty());
            assert(stack@.last() == root);
            assert(pending(stack@) =~= preorder(*root));
        }
        TreeIter { stack }
    }

    /// Pushes the subtrees of `list`, last first, so that the first comes out
    /// first.
    fn push_all(&mut self, list: &'a Vec<Node>)
        ensures
            final(self)@ == preorder_list(list@) + old(self)@,
    {
        let mut j: usize = list.len();
        assert(list@.subrange(j as int, list@.len() as int) =~= Seq::<Node>::empty());
        assert(Seq::<Node>::empty() + old(self)@ =~= old(self)@);
        while j > 0
            invariant
                j <= list@.len(),
                self@ == preorder_list(list@.subrange(j as int, list@.len() as int)) + old(self)@,
            decreases j,
        {
            j = j - 1;
            let ghost before = self.stack@;
            self.stack.push(&list[j]);
            proof {
                let tail = list@.subrange(j as int, list@.len() as int);
                assert(self.stack@.drop_last() =~= before);
                assert(tail[0] == list@[j as int]);
                assert(tail.subrange(1, tail.len() as int) =~= list@.subrange(j + 1, list@.len() as int));
                assert(self@ =~= preorder_list(tail) + old(self)@);
            }
        }
        assert(list@.subrange(0, list@.len() as int) =~= list@);
    }

    /// The next node of the walk, or none when the walk is over.
    pub fn next(&mut self) -> (r: Option<&'a Node>)
        ensures
            match r {
                Some(n) => old(self)@.len() > 0 && *n == old(self)@[0] && final(self)@ == old(
                    self,
                )@.skip(1),
                None => old(self)@.len() == 0 && final(self)@ == old(self)@,
            },
    {
        match self.stack.pop() {
            None => {
                assert(self.stack@.len() == 0);
                None
            },
            Some(top) => {
                let ghost rest = self@;
                self.push_all(&top.floating_nodes);
                self.push_all(&top.nodes);
                proof {
                    assert(old(self)@ =~= preorder(*top) + rest);
                    assert(self@ =~= old(self)@.skip(1));
                }
                Some(top)
            },
        }
    }
}

} // verus!
