//! The dependency graph around one task: its predecessors and successors,
//! level by level up to a depth, each task listed once.
//!
//! The walk goes backward first (the tasks the focus depends on, then
//! theirs, ...), then forward (the tasks that depend on it, ...). A task met
//! in an earlier level or phase is not listed or followed again, but every
//! dependency met on the way is listed.

use vstd::prelude::*;
use crate::dashboard::{GraphNode, GraphEdge, DependencyGraph};
use crate::import::contains_string;
use crate::text::{views, lemma_views_push, string_of};

verus! {

/// A dependency as the store holds it, with the tasks at its two ends as
/// graph nodes (`None` for a task that is missing or deleted).
#[derive(Debug, Clone)]
pub struct GraphLink {
    pub from_id: String,
    pub to_id: String,
    pub dep_type: String,
    pub from_task: Option<GraphNode>,
    pub to_task: Option<GraphNode>,
}

/// The model of a node: ID, title, status, priority.
pub open spec fn node_v(n: GraphNode) -> (Seq<char>, Seq<char>, Seq<char>, i32) {
    (n.id@, n.title@, n.status@, n.priority)
}

/// The model of an edge: from, to, type.
pub open spec fn edge_v(e: GraphEdge) -> (Seq<char>, Seq<char>, Seq<char>) {
    (e.from_id@, e.to_id@, e.dep_type@)
}

/// The state of a walk: the nodes and edges listed so far, the task IDs
/// met, and the IDs to follow at the next level.
pub struct Walk {
    pub nodes: Seq<(Seq<char>, Seq<char>, Seq<char>, i32)>,
    pub edges: Seq<(Seq<char>, Seq<char>, Seq<char>)>,
    pub seen: Seq<Seq<char>>,
    pub next: Seq<Seq<char>>,
}

/// The walk after meeting task `t` by the edge `e`: the edge is listed; a
/// task not met before is listed and followed at the next level.
pub open spec fn visit(w: Walk, t: GraphNode, e: (Seq<char>, Seq<char>, Seq<char>)) -> Walk {
    if w.seen.contains(t.id@) {
        Walk { edges: w.edges.push(e), ..w }
    } else {
        Walk {
            nodes: w.nodes.push(node_v(t)),
            edges: w.edges.push(e),
            seen: w.seen.push(t.id@),
            next: w.next.push(t.id@),
        }
    }
}

/// The walk after looking at one dependency from the task `tid`: backward,
/// a dependency that ends at `tid` and starts at a live task; forward, one
/// that starts at `tid` and ends at a live task.
pub open spec fn link_step(w: Walk, l: GraphLink, tid: Seq<char>, backward: bool) -> Walk {
    if backward {
        match l.from_task {
            Some(t) => if l.to_id@ == tid {
                visit(w, t, (l.from_id@, tid, l.dep_type@))
            } else {
                w
            },
            None => w,
        }
    } else {
        match l.to_task {
            Some(t) => if l.from_id@ == tid {
                visit(w, t, (tid, l.to_id@, l.dep_type@))
            } else {
                w
            },
            None => w,
        }
    }
}

/// The walk after looking at every dependency from the task `tid`, in order.
pub open spec fn links_step(w: Walk, links: Seq<GraphLink>, tid: Seq<char>, backward: bool) -> Walk
    decreases links.len(),
{
    if links.len() == 0 {
        w
    } else {
        link_step(links_step(w, links.drop_last(), tid, backward), links.last(), tid, backward)
    }
}

/// The walk after following every task of one level, in order.
pub open spec fn level_step(w: Walk, links: Seq<GraphLink>, current: Seq<Seq<char>>, backward: bool) -> Walk
    decreases current.len(),
{
    if current.len() == 0 {
        w
    } else {
        links_step(level_step(w, links, current.drop_last(), backward), links, current.last(), backward)
    }
}

/// The walk after following up to `depth` levels from `current`; it stops
/// early at an empty level.
pub open spec fn walk_levels(w: Walk, links: Seq<GraphLink>, current: Seq<Seq<char>>, depth: nat, backward: bool) -> Walk
    decreases depth,
{
    if depth == 0 || current.len() == 0 {
        w
    } else {
        let w2 = level_step(Walk { next: Seq::empty(), ..w }, links, current, backward);
        walk_levels(w2, links, w2.next, (depth - 1) as nat, backward)
    }
}

/// The walk around `focus`: it starts with the focus task when it is live,
/// goes `depth` levels backward (100 for a negative depth), then as many
/// forward.
pub open spec fn focus_walk(focus: Seq<char>, focus_task: Option<GraphNode>, links: Seq<GraphLink>, depth: i32) -> Walk {
    let d: nat = if depth < 0 { 100 } else { depth as nat };
    let start = match focus_task {
        Some(t) => Walk { nodes: seq![node_v(t)], edges: Seq::empty(), seen: seq![t.id@], next: Seq::empty() },
        None => Walk { nodes: Seq::empty(), edges: Seq::empty(), seen: Seq::empty(), next: Seq::empty() },
    };
    let back = walk_levels(start, links, seq![focus], d, true);
    walk_levels(back, links, seq![focus], d, false)
}

/// The walk's listed IDs are its met IDs, each met once.
pub open spec fn walk_ok(w: Walk) -> bool {
    &&& w.nodes.len() == w.seen.len()
    &&& forall|i: int| 0 <= i < w.nodes.len() ==> (#[trigger] w.nodes[i]).0 == w.seen[i]
    &&& w.seen.no_duplicates()
}

proof fn lemma_link_step_ok(w: Walk, l: GraphLink, tid: Seq<char>, backward: bool)
    requires
        walk_ok(w),
    ensures
        walk_ok(link_step(w, l, tid, backward)),
{
    let r = link_step(w, l, tid, backward);
    if r.seen.len() > w.seen.len() {
        assert forall|i: int, j: int| 0 <= i < r.seen.len() && 0 <= j < r.seen.len() && i != j implies r.seen[i]
            != r.seen[j] by {
            if i < w.seen.len() && j < w.seen.len() {
            } else if i == w.seen.len() as int {
                assert(w.seen.contains(w.seen[j]));
            } else {
                assert(w.seen.contains(w.seen[i]));
            }
        }
    }
}

proof fn lemma_links_step_ok(w: Walk, links: Seq<GraphLink>, tid: Seq<char>, backward: bool)
    requires
        walk_ok(w),
    ensures
        walk_ok(links_step(w, links, tid, backward)),
    decreases links.len(),
{
    if links.len() > 0 {
        lemma_links_step_ok(w, links.drop_last(), tid, backward);
        lemma_link_step_ok(links_step(w, links.drop_last(), tid, backward), links.last(), tid, backward);
    }
}

proof fn lemma_level_step_ok(w: Walk, links: Seq<GraphLink>, current: Seq<Seq<char>>, backward: bool)
    requires
        walk_ok(w),
    ensures
        walk_ok(level_step(w, links, current, backward)),
    decreases current.len(),
{
    if current.len() > 0 {
        lemma_level_step_ok(w, links, current.drop_last(), backward);
        lemma_links_step_ok(level_step(w, links, current.drop_last(), backward), links, current.last(), backward);
    }
}

proof fn lemma_walk_levels_ok(w: Walk, links: Seq<GraphLink>, current: Seq<Seq<char>>, depth: nat, backward: bool)
    requires
        walk_ok(w),
    ensures
        walk_ok(walk_levels(w, links, current, depth, backward)),
    decreases depth,
{
    if depth > 0 && current.len() > 0 {
        let w1 = Walk { next: Seq::empty(), ..w };
        lemma_level_step_ok(w1, links, current, backward);
        let w2 = level_step(w1, links, current, backward);
        lemma_walk_levels_ok(w2, links, w2.next, (depth - 1) as nat, backward);
    }
}

/// Each task is listed at most once in the graph around a task.
pub proof fn lemma_focus_nodes_distinct(focus: Seq<char>, focus_task: Option<GraphNode>, links: Seq<GraphLink>, depth: i32)
    ensures
        forall|i: int, j: int|
            0 <= i < j < focus_walk(focus, focus_task, links, depth).nodes.len() ==> (#[trigger] focus_walk(
                focus,
                focus_task,
                links,
                depth,
            ).nodes[i]).0 != (#[trigger] focus_walk(focus, focus_task, links, depth).nodes[j]).0,
{
    let d: nat = if depth < 0 { 100 } else { depth as nat };
    let start = match focus_task {
        Some(t) => Walk { nodes: seq![node_v(t)], edges: Seq::empty(), seen: seq![t.id@], next: Seq::empty() },
        None => Walk { nodes: Seq::empty(), edges: Seq::empty(), seen: Seq::empty(), next: Seq::empty() },
    };
    assert(walk_ok(start));
    lemma_walk_levels_ok(start, links, seq![focus], d, true);
    let back = walk_levels(start, links, seq![focus], d, true);
    lemma_walk_levels_ok(back, links, seq![focus], d, false);
    let w = focus_walk(focus, focus_task, links, depth);
    assert forall|i: int, j: int| 0 <= i < j < w.nodes.len() implies (#[trigger] w.nodes[i]).0 != (
    #[trigger] w.nodes[j]).0 by {
        assert(w.nodes[i].0 == w.seen[i]);
        assert(w.nodes[j].0 == w.seen[j]);
    }
}

/// Every listed dependency joins two met tasks, and every task to follow
/// next has been met.
pub open spec fn walk_closed(w: Walk) -> bool {
    &&& forall|i: int| 0 <= i < w.edges.len() ==> w.seen.contains((#[trigger] w.edges[i]).0) && w.seen.contains(w.edges[i].1)
    &&& forall|i: int| 0 <= i < w.next.len() ==> w.seen.contains(#[trigger] w.next[i])
}

/// Each dependency's node at an end is the task of that end's ID.
pub open spec fn links_consistent(links: Seq<GraphLink>) -> bool {
    forall|i: int| 0 <= i < links.len() ==> {
        &&& (#[trigger] links[i]).from_task matches Some(n) ==> n.id@ == links[i].from_id@
        &&& links[i].to_task matches Some(n) ==> n.id@ == links[i].to_id@
    }
}

/// The `i`-th listed dependency starts and ends at listed nodes.
pub open spec fn edge_joins(w: Walk, i: int) -> bool {
    &&& exists|j: int| 0 <= j < w.nodes.len() && (#[trigger] w.nodes[j]).0 == w.edges[i].0
    &&& exists|k: int| 0 <= k < w.nodes.len() && (#[trigger] w.nodes[k]).0 == w.edges[i].1
}

/// Each listed dependency starts and ends at a listed node.
pub open spec fn edges_join_nodes(w: Walk) -> bool {
    forall|i: int| 0 <= i < w.edges.len() ==> #[trigger] edge_joins(w, i)
}

/// The met tasks of `w` stay met in `w2`.
pub open spec fn seen_kept(w: Walk, w2: Walk) -> bool {
    forall|x: Seq<char>| w.seen.contains(x) ==> #[trigger] w2.seen.contains(x)
}

proof fn lemma_link_step_closed(w: Walk, l: GraphLink, tid: Seq<char>, backward: bool)
    requires
        l.from_task matches Some(n) ==> n.id@ == l.from_id@,
        l.to_task matches Some(n) ==> n.id@ == l.to_id@,
        walk_closed(w),
        w.seen.contains(tid),
    ensures
        walk_closed(link_step(w, l, tid, backward)),
        seen_kept(w, link_step(w, l, tid, backward)),
{
    let r = link_step(w, l, tid, backward);
    assert forall|x: Seq<char>| w.seen.contains(x) implies #[trigger] r.seen.contains(x) by {
        if r.seen.len() > w.seen.len() {
            let k = choose|k: int| 0 <= k < w.seen.len() && w.seen[k] == x;
            assert(r.seen[k] == x);
        }
    }
    if r.edges.len() > w.edges.len() {
        let e = r.edges.last();
        let t = if backward { l.from_task->0 } else { l.to_task->0 };
        assert(r.seen.contains(t.id@)) by {
            if w.seen.contains(t.id@) {
            } else {
                assert(r.seen[r.seen.len() - 1] == t.id@);
            }
        }
        assert forall|i: int| 0 <= i < r.edges.len() implies r.seen.contains((#[trigger] r.edges[i]).0)
            && r.seen.contains(r.edges[i].1) by {
            if i < w.edges.len() {
                assert(r.edges[i] == w.edges[i]);
            }
        }
        assert forall|i: int| 0 <= i < r.next.len() implies r.seen.contains(#[trigger] r.next[i]) by {
            if i < w.next.len() {
                assert(r.next[i] == w.next[i]);
            } else {
                assert(r.next[i] == t.id@);
            }
        }
    }
}

proof fn lemma_links_step_closed(w: Walk, links: Seq<GraphLink>, tid: Seq<char>, backward: bool)
    requires
        links_consistent(links),
        walk_closed(w),
        w.seen.contains(tid),
    ensures
        walk_closed(links_step(w, links, tid, backward)),
        seen_kept(w, links_step(w, links, tid, backward)),
    decreases links.len(),
{
    if links.len() > 0 {
        let w1 = links_step(w, links.drop_last(), tid, backward);
        assert forall|i: int| 0 <= i < links.drop_last().len() implies {
            &&& (#[trigger] links.drop_last()[i]).from_task matches Some(n) ==> n.id@ == links.drop_last()[i].from_id@
            &&& links.drop_last()[i].to_task matches Some(n) ==> n.id@ == links.drop_last()[i].to_id@
        } by {
            assert(links.drop_last()[i] == links[i]);
        }
        assert(links.last() == links[links.len() - 1]);
        lemma_links_step_closed(w, links.drop_last(), tid, backward);
        lemma_link_step_closed(w1, links.last(), tid, backward);
    }
}

proof fn lemma_level_step_closed(w: Walk, links: Seq<GraphLink>, current: Seq<Seq<char>>, backward: bool)
    requires
        links_consistent(links),
        walk_closed(w),
        forall|i: int| 0 <= i < current.len() ==> w.seen.contains(#[trigger] current[i]),
    ensures
        walk_closed(level_step(w, links, current, backward)),
        seen_kept(w, level_step(w, links, current, backward)),
    decreases current.len(),
{
    if current.len() > 0 {
        let pre = current.drop_last();
        assert forall|i: int| 0 <= i < pre.len() implies w.seen.contains(#[trigger] pre[i]) by {
            assert(pre[i] == current[i]);
        }
        lemma_level_step_closed(w, links, pre, backward);
        let w1 = level_step(w, links, pre, backward);
        assert(w.seen.contains(current[current.len() - 1]));
        lemma_links_step_closed(w1, links, current.last(), backward);
    }
}

proof fn lemma_walk_levels_closed(w: Walk, links: Seq<GraphLink>, current: Seq<Seq<char>>, depth: nat, backward: bool)
    requires
        links_consistent(links),
        walk_closed(w),
        forall|i: int| 0 <= i < current.len() ==> w.seen.contains(#[trigger] current[i]),
    ensures
        walk_closed(walk_levels(w, links, current, depth, backward)),
        seen_kept(w, walk_levels(w, links, current, depth, backward)),
    decreases depth,
{
    if depth > 0 && current.len() > 0 {
        let w1 = Walk { next: Seq::empty(), ..w };
        lemma_level_step_closed(w1, links, current, backward);
        let w2 = level_step(w1, links, current, backward);
        lemma_walk_levels_closed(w2, links, w2.next, (depth - 1) as nat, backward);
    }
}

/// The graph around a live task is closed: every dependency it lists joins
/// two tasks that it lists as nodes. A dependency whose other end is
/// missing or deleted adds neither a node nor an edge.
pub proof fn lemma_focus_edges_join_nodes(focus: Seq<char>, focus_task: Option<GraphNode>, links: Seq<GraphLink>, depth: i32)
    requires
        focus_task matches Some(t) && t.id@ == focus,
        links_consistent(links),
    ensures
        edges_join_nodes(focus_walk(focus, focus_task, links, depth)),
{
    let d: nat = if depth < 0 { 100 } else { depth as nat };
    let t = focus_task->0;
    let start = Walk { nodes: seq![node_v(t)], edges: Seq::empty(), seen: seq![t.id@], next: Seq::empty() };
    assert(start.seen[0] == focus);
    assert(walk_ok(start));
    lemma_walk_levels_closed(start, links, seq![focus], d, true);
    lemma_walk_levels_ok(start, links, seq![focus], d, true);
    let back = walk_levels(start, links, seq![focus], d, true);
    assert(seq![focus][0] == focus);
    assert(back.seen.contains(focus));
    lemma_walk_levels_closed(back, links, seq![focus], d, false);
    lemma_walk_levels_ok(back, links, seq![focus], d, false);
    let w = focus_walk(focus, focus_task, links, depth);
    assert(w == walk_levels(back, links, seq![focus], d, false));
    assert(walk_closed(w));
    assert(walk_ok(w));
    assert forall|i: int| 0 <= i < w.edges.len() implies #[trigger] edge_joins(w, i) by {
        assert(w.seen.contains(w.edges[i].0));
        assert(w.seen.contains(w.edges[i].1));
        let a = choose|j: int| 0 <= j < w.seen.len() && w.seen[j] == w.edges[i].0;
        let b = choose|j: int| 0 <= j < w.seen.len() && w.seen[j] == w.edges[i].1;
        assert(w.nodes[a].0 == w.seen[a]);
        assert(w.nodes[b].0 == w.seen[b]);
    }
}

/// The walk state as it is built.
struct WalkBuf {
    nodes: Vec<GraphNode>,
    edges: Vec<GraphEdge>,
    seen: Vec<String>,
    next: Vec<String>,
}

/// The model of the state being built.
spec fn buf_view(b: WalkBuf) -> Walk {
    Walk {
        nodes: b.nodes@.map_values(|n: GraphNode| node_v(n)),
        edges: b.edges@.map_values(|e: GraphEdge| edge_v(e)),
        seen: views(b.seen@),
        next: views(b.next@),
    }
}

/// A copy of a node.
fn copy_node(n: &GraphNode) -> (r: GraphNode)
    ensures
        node_v(r) == node_v(*n),
{
    GraphNode { id: n.id.clone(), title: n.title.clone(), status: n.status.clone(), priority: n.priority }
}

/// Meets the task `t` by the edge (`from`, `to`, `dep_type`).
fn visit_buf(b: &mut WalkBuf, t: &GraphNode, from: &String, to: &String, dep_type: &String)
    ensures
        buf_view(*final(b)) == visit(buf_view(*old(b)), *t, (from@, to@, dep_type@)),
{
    let ghost w = buf_view(*b);
    let e = GraphEdge { from_id: from.clone(), to_id: to.clone(), dep_type: dep_type.clone() };
    b.edges.push(e);
    let met = contains_string(&b.seen, t.id.as_str());
    proof {
        if met {
            let k = choose|k: int| 0 <= k < b.seen@.len() && b.seen@[k]@ == t.id@;
            assert(views(b.seen@)[k] == t.id@);
        } else {
            if w.seen.contains(t.id@) {
                let k = choose|k: int| 0 <= k < w.seen.len() && w.seen[k] == t.id@;
                assert(b.seen@[k]@ == t.id@);
            }
        }
    }
    if !met {
        proof {
            lemma_views_push(b.seen@, t.id);
            lemma_views_push(b.next@, t.id);
        }
        b.nodes.push(copy_node(t));
        b.seen.push(t.id.clone());
        b.next.push(t.id.clone());
    }
    proof {
        let r = visit(w, *t, (from@, to@, dep_type@));
        assert(buf_view(*b).nodes =~= r.nodes);
        assert(buf_view(*b).edges =~= r.edges);
        assert(buf_view(*b).seen =~= r.seen);
        assert(buf_view(*b).next =~= r.next);
    }
}

/// Looks at one dependency from the task `tid`.
fn walk_link(b: &mut WalkBuf, l: &GraphLink, tid: &String, backward: bool)
    ensures
        buf_view(*final(b)) == link_step(buf_view(*old(b)), *l, tid@, backward),
{
    if backward {
        match &l.from_task {
            Some(t) => {
                if crate::text::str_eq(l.to_id.as_str(), tid.as_str()) {
                    visit_buf(b, t, &l.from_id, tid, &l.dep_type);
                }
            },
            None => {},
        }
    } else {
        match &l.to_task {
            Some(t) => {
                if crate::text::str_eq(l.from_id.as_str(), tid.as_str()) {
                    visit_buf(b, t, tid, &l.to_id, &l.dep_type);
                }
            },
            None => {},
        }
    }
}

/// Looks at every dependency from the task `tid`.
fn walk_links(b: &mut WalkBuf, links: &Vec<GraphLink>, tid: &String, backward: bool)
    ensures
        buf_view(*final(b)) == links_step(buf_view(*old(b)), links@, tid@, backward),
{
    let ghost w0 = buf_view(*b);
    let mut j: usize = 0;
    while j < links.len()
        invariant
            j <= links@.len(),
            buf_view(*b) == links_step(w0, links@.take(j as int), tid@, backward),
        decreases links@.len() - j,
    {
        proof {
            assert(links@.take(j + 1).drop_last() =~= links@.take(j as int));
            assert(links@.take(j + 1).last() == links@[j as int]);
        }
        walk_link(b, &links[j], tid, backward);
        j = j + 1;
    }
    proof {
        assert(links@.take(links@.len() as int) =~= links@);
    }
}

/// Follows every task of one level.
fn walk_level(b: &mut WalkBuf, links: &Vec<GraphLink>, current: &Vec<String>, backward: bool)
    ensures
        buf_view(*final(b)) == level_step(buf_view(*old(b)), links@, views(current@), backward),
{
    let ghost w0 = buf_view(*b);
    let mut i: usize = 0;
    while i < current.len()
        invariant
            i <= current@.len(),
            buf_view(*b) == level_step(w0, links@, views(current@).take(i as int), backward),
        decreases current@.len() - i,
    {
        proof {
            assert(views(current@).take(i + 1).drop_last() =~= views(current@).take(i as int));
            assert(views(current@).take(i + 1).last() == current@[i as int]@);
        }
        walk_links(b, links, &current[i], backward);
        i = i + 1;
    }
    proof {
        assert(views(current@).take(current@.len() as int) =~= views(current@));
    }
}

/// A copy of a list of IDs.
fn copy_ids(v: &Vec<String>) -> (r: Vec<String>)
    ensures
        views(r@) == views(v@),
{
    let mut out: Vec<String> = Vec::new();
    let mut i: usize = 0;
    while i < v.len()
        invariant
            i <= v@.len(),
            views(out@) == views(v@.take(i as int)),
        decreases v@.len() - i,
    {
        proof {
            lemma_views_push(out@, v@[i as int]);
            assert(v@.take(i + 1) =~= v@.take(i as int).push(v@[i as int]));
            lemma_views_push(v@.take(i as int), v@[i as int]);
        }
        out.push(v[i].clone());
        i = i + 1;
    }
    proof {
        assert(v@.take(v@.len() as int) =~= v@);
    }
    out
}

/// Follows up to `depth` levels from `start`.
fn walk_phase(b: &mut WalkBuf, links: &Vec<GraphLink>, start: Vec<String>, depth: u32, backward: bool)
    ensures
        buf_view(*final(b)) == walk_levels(buf_view(*old(b)), links@, views(start@), depth as nat, backward),
{
    let ghost goal = walk_levels(buf_view(*b), links@, views(start@), depth as nat, backward);
    let mut current = start;
    let mut left: u32 = depth;
    while left > 0 && current.len() > 0
        invariant
            walk_levels(buf_view(*b), links@, views(current@), left as nat, backward) == goal,
        decreases left,
    {
        let ghost before = buf_view(*b);
        b.next = Vec::new();
        proof {
            assert(buf_view(*b).next =~= Seq::<Seq<char>>::empty());
            assert(buf_view(*b) == Walk { next: Seq::empty(), ..before });
        }
        walk_level(b, links, &current, backward);
        current = copy_ids(&b.next);
        left = left - 1;
    }
}

/// The dependency graph around `focus` (see `focus_walk`): `focus_task` is
/// the focus task when it is live, and `links` every dependency of the
/// selected types with the tasks at its ends.
pub fn focus_graph(focus: &str, focus_task: Option<GraphNode>, links: &Vec<GraphLink>, depth: i32) -> (r: DependencyGraph)
    ensures
        r.nodes@.map_values(|n: GraphNode| node_v(n)) == focus_walk(focus@, focus_task, links@, depth).nodes,
        r.edges@.map_values(|e: GraphEdge| edge_v(e)) == focus_walk(focus@, focus_task, links@, depth).edges,
{
    let d: u32 = if depth < 0 { 100 } else { depth as u32 };
    let mut b = WalkBuf { nodes: Vec::new(), edges: Vec::new(), seen: Vec::new(), next: Vec::new() };
    match &focus_task {
        Some(t) => {
            b.seen.push(t.id.clone());
            b.nodes.push(copy_node(t));
        },
        None => {},
    }
    proof {
        let start = match focus_task {
            Some(t) => Walk { nodes: seq![node_v(t)], edges: Seq::empty(), seen: seq![t.id@], next: Seq::empty() },
            None => Walk { nodes: Seq::empty(), edges: Seq::empty(), seen: Seq::empty(), next: Seq::empty() },
        };
        assert(buf_view(b).nodes =~= start.nodes);
        assert(buf_view(b).edges =~= start.edges);
        assert(buf_view(b).seen =~= start.seen);
        assert(buf_view(b).next =~= start.next);
    }
    let mut back_start: Vec<String> = Vec::new();
    back_start.push(string_of(focus));
    proof {
        assert(views(back_start@) =~= seq![focus@]);
    }
    walk_phase(&mut b, links, back_start, d, true);
    let mut fwd_start: Vec<String> = Vec::new();
    fwd_start.push(string_of(focus));
    proof {
        assert(views(fwd_start@) =~= seq![focus@]);
    }
    walk_phase(&mut b, links, fwd_start, d, false);
    DependencyGraph { nodes: b.nodes, edges: b.edges }
}

/// The SQL condition that keeps the dependencies of the asked type: one of
/// `blocks`, `follows`, `contains`; any other asks for every type.
pub fn type_clause(dep_type: Option<&str>) -> (r: &'static str)
    ensures
        r@ == (match dep_type {
            Some(t) => if t@ == "blocks"@ {
                "AND d.dep_type = 'blocks'"@
            } else if t@ == "follows"@ {
                "AND d.dep_type = 'follows'"@
            } else if t@ == "contains"@ {
                "AND d.dep_type = 'contains'"@
            } else {
                ""@
            },
            None => ""@,
        }),
{
    match dep_type {
        Some(t) => {
            if crate::text::str_eq(t, "blocks") {
                "AND d.dep_type = 'blocks'"
            } else if crate::text::str_eq(t, "follows") {
                "AND d.dep_type = 'follows'"
            } else if crate::text::str_eq(t, "contains") {
                "AND d.dep_type = 'contains'"
            } else {
                ""
            }
        },
        None => "",
    }
}

/// The task IDs at the ends of the edges, each once, in order of first
/// appearance (the start of an edge before its end).
pub open spec fn edge_task_ids(edges: Seq<GraphEdge>) -> Seq<Seq<char>>
    decreases edges.len(),
{
    if edges.len() == 0 {
        Seq::empty()
    } else {
        let pre = edge_task_ids(edges.drop_last());
        let e = edges.last();
        let with_from = if pre.contains(e.from_id@) { pre } else { pre.push(e.from_id@) };
        if with_from.contains(e.to_id@) { with_from } else { with_from.push(e.to_id@) }
    }
}

/// Adds an ID unless it is listed.
fn add_id(ids: &mut Vec<String>, id: &String)
    ensures
        views(final(ids)@) == (if views(old(ids)@).contains(id@) {
            views(old(ids)@)
        } else {
            views(old(ids)@).push(id@)
        }),
{
    let met = contains_string(ids, id.as_str());
    proof {
        if met {
            let k = choose|k: int| 0 <= k < ids@.len() && ids@[k]@ == id@;
            assert(views(ids@)[k] == id@);
        } else if views(ids@).contains(id@) {
            let k = choose|k: int| 0 <= k < views(ids@).len() && views(ids@)[k] == id@;
            assert(ids@[k]@ == id@);
        }
    }
    if !met {
        proof {
            lemma_views_push(ids@, *id);
        }
        ids.push(id.clone());
    }
}

/// The tasks of a whole graph: the IDs at the ends of its edges (see
/// `edge_task_ids`).
pub fn graph_task_ids(edges: &Vec<GraphEdge>) -> (r: Vec<String>)
    ensures
        views(r@) == edge_task_ids(edges@),
{
    let mut ids: Vec<String> = Vec::new();
    proof {
        assert(views(ids@) =~= Seq::<Seq<char>>::empty());
    }
    let mut i: usize = 0;
    while i < edges.len()
        invariant
            i <= edges@.len(),
            views(ids@) == edge_task_ids(edges@.take(i as int)),
        decreases edges@.len() - i,
    {
        proof {
            assert(edges@.take(i + 1).drop_last() =~= edges@.take(i as int));
            assert(edges@.take(i + 1).last() == edges@[i as int]);
        }
        add_id(&mut ids, &edges[i].from_id);
        add_id(&mut ids, &edges[i].to_id);
        i = i + 1;
    }
    proof {
        assert(edges@.take(edges@.len() as int) =~= edges@);
    }
    ids
}

} // verus!
