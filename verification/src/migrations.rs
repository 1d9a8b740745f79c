//! Registry of export-data migrations between schema versions, shortest
//! migration paths, and the compatibility check that import runs.

use vstd::prelude::*;
use crate::text::{dec_nat, join, u64_to_dec, join_strings, views, lemma_views_push};
use crate::json::{Json, JsonV, json_set, json_get};

verus! {

/// Schema version identifier: a positive integer that grows with each schema change.
pub type SchemaVersion = u32;

/// A registered migration step.
#[derive(Debug, Clone)]
pub struct Migration {
    /// Source schema version.
    pub from: SchemaVersion,
    /// Target schema version.
    pub to: SchemaVersion,
    /// Description of what this migration does.
    pub description: String,
}

/// Error type for migration operations.
#[derive(Debug, Clone)]
pub enum MigrationError {
    /// No migration path exists between the versions.
    NoPath { from: SchemaVersion, to: SchemaVersion, available: Vec<(SchemaVersion, SchemaVersion)> },
    /// A migration function failed.
    MigrationFailed { from: SchemaVersion, to: SchemaVersion, reason: String },
    /// The source version is greater than or equal to the target.
    InvalidVersionRange { from: SchemaVersion, to: SchemaVersion },
    /// Circular dependency detected in migration graph.
    CycleDetected { versions: Vec<SchemaVersion> },
}

/// Registry for data migrations between schema versions: a directed graph
/// whose edges always go from a lower to a higher version.
#[derive(Debug, Clone)]
pub struct MigrationRegistry {
    migrations: Vec<Migration>,
}

// ---------------------------------------------------------------------------
// The graph model
// ---------------------------------------------------------------------------

/// Whether `(a, b)` is one of the edges.
pub open spec fn edge_in(edges: Seq<(u32, u32)>, a: u32, b: u32) -> bool {
    exists|i: int| 0 <= i < edges.len() && edges[i] == (a, b)
}

/// Every edge goes to a higher version.
pub open spec fn edges_forward(edges: Seq<(u32, u32)>) -> bool {
    forall|i: int| 0 <= i < edges.len() ==> (#[trigger] edges[i]).0 < edges[i].1
}

/// No edge occurs twice.
pub open spec fn edges_unique(edges: Seq<(u32, u32)>) -> bool {
    forall|i: int, j: int| 0 <= i < j < edges.len() ==> edges[i] != edges[j]
}

/// `path` is a chain of edges that leads from `from` to `to`.
pub open spec fn is_chain(edges: Seq<(u32, u32)>, path: Seq<(u32, u32)>, from: u32, to: u32) -> bool {
    &&& path.len() > 0
    &&& path[0].0 == from
    &&& path.last().1 == to
    &&& forall|i: int| 0 <= i < path.len() ==> edge_in(edges, (#[trigger] path[i]).0, path[i].1)
    &&& forall|i: int| 0 <= i < path.len() - 1 ==> (#[trigger] path[i]).1 == path[i + 1].0
}

/// `path` is a chain from `from` to `to` and no chain between them is shorter.
pub open spec fn is_shortest_chain(edges: Seq<(u32, u32)>, path: Seq<(u32, u32)>, from: u32, to: u32) -> bool {
    &&& is_chain(edges, path, from, to)
    &&& forall|p: Seq<(u32, u32)>| is_chain(edges, p, from, to) ==> path.len() <= p.len()
}

/// Some chain of edges leads from `from` to `to`.
pub open spec fn has_chain(edges: Seq<(u32, u32)>, from: u32, to: u32) -> bool {
    exists|p: Seq<(u32, u32)>| is_chain(edges, p, from, to)
}

/// A walk through nodes, each step an edge, no node above `bound`.
pub open spec fn node_walk(edges: Seq<(u32, u32)>, ns: Seq<u32>, bound: u32) -> bool {
    &&& ns.len() >= 1
    &&& forall|i: int| 0 <= i < ns.len() - 1 ==> edge_in(edges, #[trigger] ns[i], ns[i + 1])
    &&& forall|i: int| 0 <= i < ns.len() ==> #[trigger] ns[i] <= bound
}

/// `v` is reached from `from` in at most `k` steps without passing above `bound`.
pub open spec fn reach_within(edges: Seq<(u32, u32)>, from: u32, v: u32, k: nat, bound: u32) -> bool {
    exists|ns: Seq<u32>|
        #![trigger node_walk(edges, ns, bound), ns.last()]
        node_walk(edges, ns, bound) && ns[0] == from && ns.last() == v && ns.len() <= k + 1
}

/// The nodes that a chain of edges passes through.
pub open spec fn chain_nodes(path: Seq<(u32, u32)>) -> Seq<u32> {
    Seq::new(path.len() + 1, |i: int| if i == 0 { path[0].0 } else { path[i - 1].1 })
}

impl MigrationRegistry {
    /// The registered edges, in registration order.
    pub closed spec fn edges(self) -> Seq<(u32, u32)> {
        self.migrations@.map_values(|m: Migration| (m.from, m.to))
    }

    /// The registered migrations, in registration order.
    pub closed spec fn entries(self) -> Seq<Migration> {
        self.migrations@
    }

    /// Every edge goes forward and no edge is registered twice.
    pub closed spec fn wf(self) -> bool {
        edges_forward(self.edges()) && edges_unique(self.edges())
    }
}

/// A well-formed registry's migrations all go to a higher version, and no
/// migration is registered twice.
pub proof fn lemma_registry_wf(registry: MigrationRegistry)
    requires
        registry.wf(),
    ensures
        edges_forward(registry.edges()),
        edges_unique(registry.edges()),
{
}

proof fn lemma_chain_nodes_walk(edges: Seq<(u32, u32)>, path: Seq<(u32, u32)>, from: u32, to: u32)
    requires
        edges_forward(edges),
        is_chain(edges, path, from, to),
    ensures
        node_walk(edges, chain_nodes(path), to),
        chain_nodes(path)[0] == from,
        chain_nodes(path).last() == to,
        chain_nodes(path).len() == path.len() + 1,
{
    let ns = chain_nodes(path);
    assert forall|i: int| 0 <= i < ns.len() - 1 implies edge_in(edges, #[trigger] ns[i], ns[i + 1]) by {
        assert(edge_in(edges, path[i].0, path[i].1));
        if i > 0 {
            assert(path[i - 1].1 == path[i].0);
        }
    }
    // nodes strictly increase along the walk, so each is at most the last
    assert forall|i: int| 0 <= i < ns.len() implies #[trigger] ns[i] <= to by {
        lemma_walk_increasing(edges, ns, i);
    }
}

proof fn lemma_walk_increasing(edges: Seq<(u32, u32)>, ns: Seq<u32>, i: int)
    requires
        edges_forward(edges),
        ns.len() >= 1,
        0 <= i < ns.len(),
        forall|j: int| 0 <= j < ns.len() - 1 ==> edge_in(edges, #[trigger] ns[j], ns[j + 1]),
    ensures
        ns[i] <= ns.last(),
    decreases ns.len() - i,
{
    if i < ns.len() - 1 {
        assert(edge_in(edges, ns[i], ns[i + 1]));
        let k = choose|k: int| 0 <= k < edges.len() && edges[k] == (ns[i], ns[i + 1]);
        assert(edges[k].0 < edges[k].1);
        lemma_walk_increasing(edges, ns, i + 1);
    }
}

/// Every node of a walk from a node whose edges were all followed is visited,
/// when the visited set is closed under the edges that stay within `bound`.
proof fn lemma_closed_walk(edges: Seq<(u32, u32)>, ns: Seq<u32>, bound: u32, vis: Set<u32>, i: int)
    requires
        node_walk(edges, ns, bound),
        vis.contains(ns[0]),
        forall|a: u32, b: u32| vis.contains(a) && edge_in(edges, a, b) && b <= bound ==> vis.contains(b),
        0 <= i < ns.len(),
    ensures
        vis.contains(ns[i]),
    decreases i,
{
    if i > 0 {
        lemma_closed_walk(edges, ns, bound, vis, i - 1);
        assert(edge_in(edges, ns[i - 1], ns[i]));
    }
}

/// A walk of `k + 1` steps to `v` passes through a node reached in `k` steps
/// that has an edge to `v`.
proof fn lemma_walk_prefix(edges: Seq<(u32, u32)>, from: u32, v: u32, k: nat, bound: u32) -> (u: u32)
    requires
        reach_within(edges, from, v, k + 1, bound),
        !reach_within(edges, from, v, k, bound),
    ensures
        reach_within(edges, from, u, k, bound),
        edge_in(edges, u, v),
{
    let ns = choose|ns: Seq<u32>|
        node_walk(edges, ns, bound) && ns[0] == from && ns.last() == v && ns.len() <= k + 2;
    if ns.len() <= k + 1 {
        assert(reach_within(edges, from, v, k, bound));
    }
    assert(ns.len() == k + 2);
    let pre = ns.drop_last();
    assert(node_walk(edges, pre, bound)) by {
        assert forall|i: int| 0 <= i < pre.len() - 1 implies edge_in(edges, #[trigger] pre[i], pre[i + 1]) by {
            assert(pre[i] == ns[i] && pre[i + 1] == ns[i + 1]);
        }
        assert forall|i: int| 0 <= i < pre.len() implies #[trigger] pre[i] <= bound by {
            assert(pre[i] == ns[i]);
        }
    }
    assert(pre[0] == from);
    assert(reach_within(edges, from, pre.last(), k, bound));
    assert(edge_in(edges, ns[k as int], ns[k as int + 1]));
    pre.last()
}

/// Position of `v` among the visited entries, if it is there.
fn find_visited(visited: &Vec<(u32, u32, usize)>, v: u32) -> (r: Option<usize>)
    ensures
        match r {
            Some(i) => i < visited@.len() && visited@[i as int].0 == v,
            None => forall|i: int| 0 <= i < visited@.len() ==> visited@[i].0 != v,
        },
{
    let mut i: usize = 0;
    while i < visited.len()
        invariant
            i <= visited@.len(),
            forall|j: int| 0 <= j < i ==> visited@[j].0 != v,
        decreases visited@.len() - i,
    {
        if visited[i].0 == v {
            return Some(i);
        }
        i = i + 1;
    }
    None
}

/// Some visited entry holds `v` at `level`.
spec fn at_level(visited: Seq<(u32, u32, usize)>, v: u32, level: nat) -> bool {
    exists|j: int| 0 <= j < visited.len() && visited[j].0 == v && visited[j].2 == level
}

/// The set of nodes in the visited entries.
spec fn vis_set(visited: Seq<(u32, u32, usize)>) -> Set<u32> {
    Set::new(|v: u32| exists|i: int| 0 <= i < visited.len() && visited[i].0 == v)
}

/// Each visited entry (node, parent, level) other than the start is reached
/// from its parent by an edge, and the parent was visited one level earlier.
spec fn parents_ok(
    edges: Seq<(u32, u32)>,
    from: u32,
    bound: u32,
    visited: Seq<(u32, u32, usize)>,
    level: nat,
) -> bool {
    &&& visited.len() >= 1
    &&& visited[0] == (from, from, 0usize)
    &&& from <= bound
    &&& forall|i: int, j: int| 0 <= i < j < visited.len() ==> visited[i].0 != visited[j].0
    &&& forall|i: int| 0 <= i < visited.len() ==> (#[trigger] visited[i]).2 <= level
    &&& forall|i: int| 1 <= i < visited.len() ==> {
        &&& (#[trigger] visited[i]).2 >= 1
        &&& edge_in(edges, visited[i].1, visited[i].0)
        &&& visited[i].0 <= bound
        &&& exists|j: int| 0 <= j < visited.len() && visited[j].0 == visited[i].1 && visited[j].2 + 1 == visited[i].2
    }
}

/// The breadth-first search state after finishing `level`: the frontier holds
/// the nodes of that level, everything below it has been expanded, and every
/// node reachable within `k <= level` steps has been visited at level `k` or less.
#[verifier::opaque]
spec fn bfs_inv(
    edges: Seq<(u32, u32)>,
    from: u32,
    bound: u32,
    visited: Seq<(u32, u32, usize)>,
    frontier: Seq<u32>,
    level: nat,
) -> bool {
    &&& parents_ok(edges, from, bound, visited, level)
    &&& forall|i: int| 0 <= i < frontier.len() ==> at_level(visited, #[trigger] frontier[i], level)
    &&& forall|j: int| 0 <= j < visited.len() && (#[trigger] visited[j]).2 == level ==> frontier.contains(visited[j].0)
    &&& forall|j: int, b: u32| 0 <= j < visited.len() && (#[trigger] visited[j]).2 < level
        && edge_in(edges, visited[j].0, b) && b <= bound ==> #[trigger] vis_set(visited).contains(b)
    &&& forall|v: u32, k: nat| k <= level && #[trigger] reach_within(edges, from, v, k, bound) ==>
        exists|j: int| 0 <= j < visited.len() && visited[j].0 == v && visited[j].2 <= k
}

/// The search starts from `from` alone, at level zero.
proof fn lemma_bfs_start(edges: Seq<(u32, u32)>, from: u32, to: u32)
    requires
        from < to,
        edges_forward(edges),
    ensures
        parents_ok(edges, from, to, seq![(from, from, 0usize)], 0),
        bfs_inv(edges, from, to, seq![(from, from, 0usize)], seq![from], 0),
        !vis_set(seq![(from, from, 0usize)]).contains(to),
{
    let visited = seq![(from, from, 0usize)];
    let frontier = seq![from];
    assert forall|v: u32, k: nat| k <= 0 && #[trigger] reach_within(edges, from, v, k, to) implies
        exists|j: int| 0 <= j < visited.len() && visited[j].0 == v && visited[j].2 <= k by {
        let ns = choose|ns: Seq<u32>| node_walk(edges, ns, to) && ns[0] == from && ns.last() == v && ns.len() <= k + 1;
        assert(visited[0].0 == v);
    }
    assert(frontier.contains(from)) by { assert(frontier[0] == from); }
    assert forall|i: int| 0 <= i < frontier.len() implies at_level(visited, #[trigger] frontier[i], 0) by {
        assert(visited[0].0 == frontier[i] && visited[0].2 == 0);
    }
    assert forall|j: int| 0 <= j < visited.len() && (#[trigger] visited[j]).2 == 0 implies frontier.contains(visited[j].0) by {
        assert(frontier[0] == visited[j].0);
    }
    reveal(bfs_inv);
    assert(!vis_set(visited).contains(to)) by {
        if vis_set(visited).contains(to) {
            let j = choose|j: int| 0 <= j < visited.len() && visited[j].0 == to;
        }
    }
}

/// The entries added while expanding a level: each is a successor of a
/// frontier node, one level further.
#[verifier::opaque]
spec fn new_entries_ok(
    edges: Seq<(u32, u32)>,
    bound: u32,
    old_visited: Seq<(u32, u32, usize)>,
    visited: Seq<(u32, u32, usize)>,
    next: Seq<u32>,
    level: nat,
) -> bool {
    &&& old_visited.len() <= visited.len()
    &&& visited.subrange(0, old_visited.len() as int) == old_visited
    &&& forall|i: int, j: int| 0 <= i < j < visited.len() ==> visited[i].0 != visited[j].0
    &&& forall|i: int| old_visited.len() <= i < visited.len() ==> {
        &&& (#[trigger] visited[i]).2 == level + 1
        &&& edge_in(edges, visited[i].1, visited[i].0)
        &&& visited[i].0 <= bound
        &&& exists|j: int| 0 <= j < old_visited.len() && old_visited[j].0 == visited[i].1 && old_visited[j].2 == level
    }
    &&& next.len() == visited.len() - old_visited.len()
    &&& forall|i: int| 0 <= i < next.len() ==> next[i] == visited[old_visited.len() + i].0
}

proof fn lemma_vis_grows(old_visited: Seq<(u32, u32, usize)>, visited: Seq<(u32, u32, usize)>)
    requires
        old_visited.len() <= visited.len(),
        visited.subrange(0, old_visited.len() as int) == old_visited,
    ensures
        forall|x: u32| vis_set(old_visited).contains(x) ==> #[trigger] vis_set(visited).contains(x),
{
    assert forall|x: u32| vis_set(old_visited).contains(x) implies #[trigger] vis_set(visited).contains(x) by {
        let j = choose|j: int| 0 <= j < old_visited.len() && old_visited[j].0 == x;
        assert(visited[j] == old_visited[j]);
    }
}

proof fn lemma_prefix_same(old_visited: Seq<(u32, u32, usize)>, visited: Seq<(u32, u32, usize)>)
    requires
        old_visited.len() <= visited.len(),
        visited.subrange(0, old_visited.len() as int) == old_visited,
    ensures
        forall|i: int| 0 <= i < old_visited.len() ==> #[trigger] visited[i] == old_visited[i],
{
    assert forall|i: int| 0 <= i < old_visited.len() implies #[trigger] visited[i] == old_visited[i] by {
        assert(visited.subrange(0, old_visited.len() as int)[i] == visited[i]);
    }
}

/// After expanding a level, the parent structure holds one level further.
proof fn lemma_step_parents(
    edges: Seq<(u32, u32)>,
    from: u32,
    bound: u32,
    old_visited: Seq<(u32, u32, usize)>,
    visited: Seq<(u32, u32, usize)>,
    next: Seq<u32>,
    level: nat,
)
    requires
        parents_ok(edges, from, bound, old_visited, level),
        new_entries_ok(edges, bound, old_visited, visited, next, level),
    ensures
        parents_ok(edges, from, bound, visited, level + 1),
{
    reveal(bfs_inv);
    reveal(new_entries_ok);
    lemma_prefix_same(old_visited, visited);
    assert forall|i: int| 1 <= i < visited.len() implies {
        &&& (#[trigger] visited[i]).2 >= 1
        &&& edge_in(edges, visited[i].1, visited[i].0)
        &&& visited[i].0 <= bound
        &&& exists|j: int| 0 <= j < visited.len() && visited[j].0 == visited[i].1 && visited[j].2 + 1 == visited[i].2
    } by {
        if i < old_visited.len() {
            assert(visited[i] == old_visited[i]);
            let j = choose|j: int| 0 <= j < old_visited.len() && old_visited[j].0 == old_visited[i].1 && old_visited[j].2 + 1 == old_visited[i].2;
            assert(visited[j] == old_visited[j]);
        } else {
            let j = choose|j: int| 0 <= j < old_visited.len() && old_visited[j].0 == visited[i].1 && old_visited[j].2 == level;
            assert(visited[j] == old_visited[j]);
        }
    }
    assert forall|i: int| 0 <= i < visited.len() implies (#[trigger] visited[i]).2 <= level + 1 by {
        if i < old_visited.len() {
            assert(visited[i] == old_visited[i]);
        }
    }
}

/// Expanding every node of the frontier yields the state of the next level.
proof fn lemma_bfs_step(
    edges: Seq<(u32, u32)>,
    from: u32,
    bound: u32,
    old_visited: Seq<(u32, u32, usize)>,
    frontier: Seq<u32>,
    visited: Seq<(u32, u32, usize)>,
    next: Seq<u32>,
    level: nat,
)
    requires
        bfs_inv(edges, from, bound, old_visited, frontier, level),
        new_entries_ok(edges, bound, old_visited, visited, next, level),
        forall|f: int, b: u32| 0 <= f < frontier.len() && #[trigger] edge_in(edges, frontier[f], b) && b <= bound
            ==> vis_set(visited).contains(b),
    ensures
        bfs_inv(edges, from, bound, visited, next, level + 1),
{
    reveal(bfs_inv);
    reveal(new_entries_ok);
    lemma_step_parents(edges, from, bound, old_visited, visited, next, level);
    lemma_step_frontier(edges, bound, old_visited, visited, next, level);
    lemma_step_closure(edges, from, bound, old_visited, frontier, visited, next, level);
    lemma_step_reach(edges, from, bound, old_visited, frontier, visited, next, level);
}

proof fn lemma_step_frontier(
    edges: Seq<(u32, u32)>,
    bound: u32,
    old_visited: Seq<(u32, u32, usize)>,
    visited: Seq<(u32, u32, usize)>,
    next: Seq<u32>,
    level: nat,
)
    requires
        forall|i: int| 0 <= i < old_visited.len() ==> (#[trigger] old_visited[i]).2 <= level,
        new_entries_ok(edges, bound, old_visited, visited, next, level),
    ensures
        forall|i: int| 0 <= i < next.len() ==> at_level(visited, #[trigger] next[i], level + 1),
        forall|j: int| 0 <= j < visited.len() && (#[trigger] visited[j]).2 == level + 1 ==> next.contains(visited[j].0),
{
    reveal(bfs_inv);
    reveal(new_entries_ok);
    lemma_prefix_same(old_visited, visited);
    assert forall|i: int| 0 <= i < next.len() implies at_level(visited, #[trigger] next[i], level + 1) by {
        let j = old_visited.len() + i;
        assert(old_visited.len() <= j < visited.len());
        assert(visited[j].0 == next[i] && visited[j].2 == level + 1);
    }
    assert forall|j: int| 0 <= j < visited.len() && (#[trigger] visited[j]).2 == level + 1 implies next.contains(visited[j].0) by {
        if j < old_visited.len() {
            assert(visited[j] == old_visited[j]);
        } else {
            let i = j - old_visited.len();
            assert(next[i] == visited[j].0);
        }
    }
}

proof fn lemma_step_closure(
    edges: Seq<(u32, u32)>,
    from: u32,
    bound: u32,
    old_visited: Seq<(u32, u32, usize)>,
    frontier: Seq<u32>,
    visited: Seq<(u32, u32, usize)>,
    next: Seq<u32>,
    level: nat,
)
    requires
        bfs_inv(edges, from, bound, old_visited, frontier, level),
        new_entries_ok(edges, bound, old_visited, visited, next, level),
        forall|f: int, b: u32| 0 <= f < frontier.len() && #[trigger] edge_in(edges, frontier[f], b) && b <= bound
            ==> vis_set(visited).contains(b),
    ensures
        forall|j: int, b: u32| 0 <= j < visited.len() && (#[trigger] visited[j]).2 < level + 1
            && edge_in(edges, visited[j].0, b) && b <= bound ==> #[trigger] vis_set(visited).contains(b),
{
    reveal(bfs_inv);
    reveal(new_entries_ok);
    lemma_prefix_same(old_visited, visited);
    lemma_vis_grows(old_visited, visited);
    assert forall|j: int, b: u32| 0 <= j < visited.len() && (#[trigger] visited[j]).2 < level + 1
        && edge_in(edges, visited[j].0, b) && b <= bound implies #[trigger] vis_set(visited).contains(b) by {
        if j >= old_visited.len() {
            assert(visited[j].2 == level + 1);
        }
        assert(visited[j] == old_visited[j]);
        assert(parents_ok(edges, from, bound, old_visited, level));
        assert(old_visited[j].2 <= level);
        if old_visited[j].2 < level {
            assert(vis_set(old_visited).contains(b));
        } else {
            assert(old_visited[j].2 == level);
            assert(frontier.contains(old_visited[j].0));
            let f = choose|f: int| 0 <= f < frontier.len() && frontier[f] == old_visited[j].0;
            assert(edge_in(edges, frontier[f], b));
        }
    }
}

proof fn lemma_step_reach(
    edges: Seq<(u32, u32)>,
    from: u32,
    bound: u32,
    old_visited: Seq<(u32, u32, usize)>,
    frontier: Seq<u32>,
    visited: Seq<(u32, u32, usize)>,
    next: Seq<u32>,
    level: nat,
)
    requires
        bfs_inv(edges, from, bound, old_visited, frontier, level),
        new_entries_ok(edges, bound, old_visited, visited, next, level),
        forall|f: int, b: u32| 0 <= f < frontier.len() && #[trigger] edge_in(edges, frontier[f], b) && b <= bound
            ==> vis_set(visited).contains(b),
    ensures
        forall|v: u32, k: nat| k <= level + 1 && #[trigger] reach_within(edges, from, v, k, bound) ==>
            exists|j: int| 0 <= j < visited.len() && visited[j].0 == v && visited[j].2 <= k,
{
    reveal(bfs_inv);
    reveal(new_entries_ok);
    lemma_prefix_same(old_visited, visited);
    lemma_vis_grows(old_visited, visited);
    assert forall|v: u32, k: nat| k <= level + 1 && #[trigger] reach_within(edges, from, v, k, bound) implies
        exists|j: int| 0 <= j < visited.len() && visited[j].0 == v && visited[j].2 <= k by {
        if k <= level {
            let j = choose|j: int| 0 <= j < old_visited.len() && old_visited[j].0 == v && old_visited[j].2 <= k;
            assert(visited[j] == old_visited[j]);
        } else if reach_within(edges, from, v, level, bound) {
            let j = choose|j: int| 0 <= j < old_visited.len() && old_visited[j].0 == v && old_visited[j].2 <= level;
            assert(visited[j] == old_visited[j]);
        } else {
            let u = lemma_walk_prefix(edges, from, v, level, bound);
            let ns = choose|ns: Seq<u32>| node_walk(edges, ns, bound) && ns[0] == from && ns.last() == v && ns.len() <= k + 1;
            assert(v <= bound) by {
                assert(ns[ns.len() - 1] <= bound);
            }
            let ju = choose|j: int| 0 <= j < old_visited.len() && old_visited[j].0 == u && old_visited[j].2 <= level;
            assert(visited[ju] == old_visited[ju]);
            assert(vis_set(visited).contains(v)) by {
                if old_visited[ju].2 < level {
                    assert(vis_set(old_visited).contains(v));
                } else {
                    assert(frontier.contains(u));
                    let f = choose|f: int| 0 <= f < frontier.len() && frontier[f] == u;
                    assert(edge_in(edges, frontier[f], v));
                }
            }
            let j = choose|j: int| 0 <= j < visited.len() && visited[j].0 == v;
            if j < old_visited.len() {
                assert(visited[j] == old_visited[j]);
            }
        }
    }
}

/// Adding an unvisited successor of a frontier node keeps the expansion bookkeeping.
proof fn lemma_expand_one(
    edges: Seq<(u32, u32)>,
    from: u32,
    bound: u32,
    old_visited: Seq<(u32, u32, usize)>,
    frontier: Seq<u32>,
    fi: int,
    level: nat,
    before: Seq<(u32, u32, usize)>,
    before_next: Seq<u32>,
    u: u32,
    b: u32,
)
    requires
        bfs_inv(edges, from, bound, old_visited, frontier, level),
        new_entries_ok(edges, bound, old_visited, before, before_next, level),
        0 <= fi < frontier.len(),
        u == frontier[fi],
        edge_in(edges, u, b),
        b <= bound,
        forall|i: int| 0 <= i < before.len() ==> before[i].0 != b,
        level + 1 <= usize::MAX,
    ensures
        before.len() + 1 <= edges.len() + 1,
        new_entries_ok(edges, bound, old_visited, before.push((b, u, (level + 1) as usize)), before_next.push(b), level),
        vis_set(before.push((b, u, (level + 1) as usize))).contains(b),
        forall|x: u32| vis_set(before).contains(x) ==> #[trigger] vis_set(before.push((b, u, (level + 1) as usize))).contains(x),
{
    reveal(bfs_inv);
    reveal(new_entries_ok);
    let after = before.push((b, u, (level + 1) as usize));
    let after_next = before_next.push(b);
    lemma_prefix_same(old_visited, before);
    assert forall|i: int| 1 <= i < before.len() implies edge_in(edges, (#[trigger] before[i]).1, before[i].0) by {
        if i < old_visited.len() {
            assert(before[i] == old_visited[i]);
        }
    }
    assert(before[0] == old_visited[0]);
    let ke = choose|k: int| 0 <= k < edges.len() && edges[k] == (u, b);
    assert(edges[ke].1 == b);
    lemma_visited_bound(edges, from, before, b, edges.len());
    let jf = choose|j: int| 0 <= j < old_visited.len() && old_visited[j].0 == frontier[fi] && old_visited[j].2 == level;
    assert(after.subrange(0, old_visited.len() as int) =~= old_visited) by {
        assert forall|i: int| 0 <= i < old_visited.len() implies after.subrange(0, old_visited.len() as int)[i] == old_visited[i] by {
            assert(after[i] == before[i]);
        }
    }
    assert forall|i: int, j: int| 0 <= i < j < after.len() implies after[i].0 != after[j].0 by {
        if j < before.len() {
            assert(after[i] == before[i] && after[j] == before[j]);
        } else {
            assert(after[i] == before[i]);
        }
    }
    assert forall|i: int| old_visited.len() <= i < after.len() implies {
        &&& (#[trigger] after[i]).2 == level + 1
        &&& edge_in(edges, after[i].1, after[i].0)
        &&& after[i].0 <= bound
        &&& exists|j: int| 0 <= j < old_visited.len() && old_visited[j].0 == after[i].1 && old_visited[j].2 == level
    } by {
        if i < before.len() {
            assert(after[i] == before[i]);
        } else {
            assert(after[i] == (b, u, (level + 1) as usize));
        }
    }
    assert forall|i: int| 0 <= i < after_next.len() implies after_next[i] == after[old_visited.len() + i].0 by {
        if i < before_next.len() {
            assert(after_next[i] == before_next[i]);
            assert(after[old_visited.len() + i] == before[old_visited.len() + i]);
        }
    }
    assert(after[before.len() as int].0 == b);
    assert(after.subrange(0, before.len() as int) =~= before);
    lemma_vis_grows(before, after);
}

/// When the frontier runs empty, the visited nodes are closed under the edges,
/// so a target that was never visited cannot be reached.
proof fn lemma_bfs_exhausted(
    edges: Seq<(u32, u32)>,
    from: u32,
    to: u32,
    visited: Seq<(u32, u32, usize)>,
    frontier: Seq<u32>,
    level: nat,
)
    requires
        edges_forward(edges),
        bfs_inv(edges, from, to, visited, frontier, level),
        frontier.len() == 0,
        !vis_set(visited).contains(to),
    ensures
        !has_chain(edges, from, to),
{
    reveal(bfs_inv);
    reveal(new_entries_ok);
    let vis = vis_set(visited);
    assert forall|a: u32, b: u32| vis.contains(a) && edge_in(edges, a, b) && b <= to implies vis.contains(b) by {
        let j = choose|j: int| 0 <= j < visited.len() && visited[j].0 == a;
        if visited[j].2 == level {
            assert(frontier.contains(visited[j].0));
        }
        assert(visited[j].2 < level);
    }
    if has_chain(edges, from, to) {
        let p = choose|p: Seq<(u32, u32)>| is_chain(edges, p, from, to);
        lemma_chain_nodes_walk(edges, p, from, to);
        let ns = chain_nodes(p);
        assert(vis.contains(ns[0])) by {
            assert(visited[0].0 == from);
        }
        lemma_closed_walk(edges, ns, to, vis, ns.len() - 1);
    }
}

/// A target first found at `level` has no chain of fewer steps.
proof fn lemma_found_shortest(edges: Seq<(u32, u32)>, from: u32, to: u32, level: nat)
    requires
        edges_forward(edges),
        level >= 1,
        !reach_within(edges, from, to, (level - 1) as nat, to),
    ensures
        forall|p: Seq<(u32, u32)>| is_chain(edges, p, from, to) ==> level <= p.len(),
{
    assert forall|p: Seq<(u32, u32)>| is_chain(edges, p, from, to) implies level <= p.len() by {
        lemma_chain_nodes_walk(edges, p, from, to);
        let ns = chain_nodes(p);
        if p.len() < level {
            assert(node_walk(edges, ns, to) && ns[0] == from && ns.last() == to && ns.len() <= (level - 1) as nat + 1);
        }
    }
}

/// The registration position of edge `e`.
pub open spec fn edge_pos(edges: Seq<(u32, u32)>, e: (u32, u32)) -> int {
    choose|k: int| 0 <= k < edges.len() && edges[k] == e
}

/// The registration positions of the edges of a chain, step by step.
pub open spec fn chain_positions(edges: Seq<(u32, u32)>, path: Seq<(u32, u32)>) -> Seq<int> {
    Seq::new(path.len(), |i: int| edge_pos(edges, path[i]))
}

/// `a` comes before `b`: of the same length, equal up to a position where
/// `a` holds the smaller number.
pub open spec fn lex_lt(a: Seq<int>, b: Seq<int>) -> bool {
    &&& a.len() == b.len()
    &&& exists|k: int| 0 <= k < a.len() && a.take(k) == b.take(k) && a[k] < b[k]
}

/// `path` is the shortest chain from `from` to `to` whose migrations were
/// registered first: among shortest chains, compared step by step by the
/// registration order of their migrations, none comes before it. This is
/// the chain a breadth-first search finds when it follows each version's
/// migrations in registration order and keeps the first way it reaches a
/// version.
pub open spec fn is_first_shortest_chain(edges: Seq<(u32, u32)>, path: Seq<(u32, u32)>, from: u32, to: u32) -> bool {
    &&& is_shortest_chain(edges, path, from, to)
    &&& forall|q: Seq<(u32, u32)>| #[trigger] is_shortest_chain(edges, q, from, to)
        ==> !lex_lt(chain_positions(edges, q), chain_positions(edges, path))
}

/// `to` is reached from `x` in exactly `k` steps.
pub open spec fn can_reach(edges: Seq<(u32, u32)>, x: u32, to: u32, k: nat) -> bool
    decreases k,
{
    if k == 0 {
        x == to
    } else {
        exists|i: int| 0 <= i < edges.len() && (#[trigger] edges[i]).0 == x && can_reach(edges, edges[i].1, to, (k - 1) as nat)
    }
}

/// A chain's steps, from position `i` on, reach its end.
proof fn lemma_chain_reaches(edges: Seq<(u32, u32)>, q: Seq<(u32, u32)>, from: u32, to: u32, i: int)
    requires
        is_chain(edges, q, from, to),
        0 <= i < q.len(),
    ensures
        can_reach(edges, q[i].0, to, (q.len() - i) as nat),
    decreases q.len() - i,
{
    assert(edge_in(edges, q[i].0, q[i].1));
    let k = choose|k: int| 0 <= k < edges.len() && edges[k] == (q[i].0, q[i].1);
    let n = (q.len() - i) as nat;
    if i == q.len() - 1 {
        assert(can_reach(edges, edges[k].1, to, (n - 1) as nat));
    } else {
        lemma_chain_reaches(edges, q, from, to, i + 1);
        assert(q[i].1 == q[i + 1].0);
        assert(can_reach(edges, edges[k].1, to, (n - 1) as nat));
    }
    assert(edges[k].0 == q[i].0);
    assert(n > 0);
}

/// Positions of a longer prefix extend those of a shorter one.
proof fn lemma_positions_push(edges: Seq<(u32, u32)>, q: Seq<(u32, u32)>, i: int)
    requires
        0 <= i < q.len(),
    ensures
        chain_positions(edges, q.take(i + 1)) == chain_positions(edges, q.take(i)).push(edge_pos(edges, q[i])),
{
    assert(chain_positions(edges, q.take(i + 1)) =~= chain_positions(edges, q.take(i)).push(edge_pos(edges, q[i])));
}

/// Extending two sequences of the same length keeps their order.
proof fn lemma_lex_push(a: Seq<int>, b: Seq<int>, x: int, y: int)
    requires
        lex_lt(a, b),
    ensures
        lex_lt(a.push(x), b.push(y)),
{
    let k = choose|k: int| 0 <= k < a.len() && a.take(k) == b.take(k) && a[k] < b[k];
    assert(a.push(x).take(k) =~= a.take(k));
    assert(b.push(y).take(k) =~= b.take(k));
    assert(a.push(x)[k] == a[k] && b.push(y)[k] == b[k]);
}

/// Equal sequences extended by a smaller and a larger number are ordered.
proof fn lemma_lex_last(a: Seq<int>, x: int, y: int)
    requires
        x < y,
    ensures
        lex_lt(a.push(x), a.push(y)),
{
    let k = a.len() as int;
    assert(a.push(x).take(k) =~= a);
    assert(a.push(y).take(k) =~= a);
}

/// No sequence comes before one that comes before it.
proof fn lemma_lex_asym(a: Seq<int>, b: Seq<int>)
    requires
        lex_lt(a, b),
    ensures
        !lex_lt(b, a),
{
    if lex_lt(b, a) {
        let k = choose|k: int| 0 <= k < a.len() && a.take(k) == b.take(k) && a[k] < b[k];
        let m = choose|m: int| 0 <= m < b.len() && b.take(m) == a.take(m) && b[m] < a[m];
        if k < m {
            assert(b.take(m)[k] == a.take(m)[k]);
        } else if m < k {
            assert(a.take(k)[m] == b.take(k)[m]);
        }
    }
}

/// Of two different sequences of the same length, one comes first.
proof fn lemma_lex_total(a: Seq<int>, b: Seq<int>)
    requires
        a.len() == b.len(),
        a != b,
    ensures
        lex_lt(a, b) || lex_lt(b, a),
{
    assert(a.take(0) =~= b.take(0));
    lemma_first_diff(a, b, 0);
}

proof fn lemma_first_diff(a: Seq<int>, b: Seq<int>, i: int)
    requires
        a.len() == b.len(),
        a != b,
        0 <= i <= a.len(),
        a.take(i) == b.take(i),
    ensures
        lex_lt(a, b) || lex_lt(b, a),
    decreases a.len() - i,
{
    if i == a.len() {
        assert(a =~= a.take(i));
        assert(b =~= b.take(i));
    } else if a[i] == b[i] {
        assert(a.take(i + 1) =~= a.take(i).push(a[i]));
        assert(b.take(i + 1) =~= b.take(i).push(b[i]));
        lemma_first_diff(a, b, i + 1);
    } else if a[i] < b[i] {
        assert(lex_lt(a, b));
    } else {
        assert(lex_lt(b, a));
    }
}

/// One step of building the first chain keeps it before every other
/// chain of the same length that differs from it so far.
proof fn lemma_greedy_step(
    edges: Seq<(u32, u32)>,
    from: u32,
    to: u32,
    len: int,
    i: int,
    old_path: Seq<(u32, u32)>,
    cur: u32,
    j: int,
)
    requires
        edges_unique(edges),
        0 <= i < len,
        old_path.len() == i,
        i == 0 ==> cur == from,
        i > 0 ==> old_path.last().1 == cur,
        0 <= j < edges.len(),
        edges[j].0 == cur,
        forall|m: int| 0 <= m < j && (#[trigger] edges[m]).0 == cur ==> !can_reach(edges, edges[m].1, to, (len - i - 1) as nat),
        forall|q: Seq<(u32, u32)>| #[trigger] is_chain(edges, q, from, to) && q.len() == len && q.take(i) != old_path
            ==> lex_lt(chain_positions(edges, old_path), chain_positions(edges, q.take(i))),
    ensures
        forall|q: Seq<(u32, u32)>| #[trigger] is_chain(edges, q, from, to) && q.len() == len && q.take(i + 1) != old_path.push(edges[j])
            ==> lex_lt(chain_positions(edges, old_path.push(edges[j])), chain_positions(edges, q.take(i + 1))),
{
    let e = edges[j];
    let path = old_path.push(e);
    assert(edge_pos(edges, e) == j) by {
        let k = edge_pos(edges, e);
        if k != j {
            if k < j {} else {}
        }
    }
    assert(chain_positions(edges, path) =~= chain_positions(edges, old_path).push(j));
    assert forall|q: Seq<(u32, u32)>| #[trigger] is_chain(edges, q, from, to) && q.len() == len && q.take(i + 1) != path
        implies lex_lt(chain_positions(edges, path), chain_positions(edges, q.take(i + 1))) by {
        lemma_positions_push(edges, q, i);
        assert(q.take(i + 1) =~= q.take(i).push(q[i]));
        if q.take(i) != old_path {
            lemma_lex_push(chain_positions(edges, old_path), chain_positions(edges, q.take(i)), j, edge_pos(edges, q[i]));
        } else {
            assert(q[i] != e);
            if i == 0 {
                assert(q[0].0 == from);
            } else {
                assert(q.take(i).last() == q[i - 1]);
                assert(q[i - 1].1 == q[i].0);
            }
            assert(q[i].0 == cur);
            assert(edge_in(edges, q[i].0, q[i].1));
            let m = choose|m: int| 0 <= m < edges.len() && edges[m] == (q[i].0, q[i].1);
            if i + 1 < len {
                lemma_chain_reaches(edges, q, from, to, i + 1);
                assert(q[i].1 == q[i + 1].0);
            } else {
                assert(q[i].1 == to);
            }
            assert(can_reach(edges, edges[m].1, to, (len - i - 1) as nat));
            assert(m != j);
            assert(!(m < j));
            assert(edge_pos(edges, q[i]) == m) by {
                let k = edge_pos(edges, q[i]);
                if k != m {
                    if k < m {} else {}
                }
            }
            lemma_lex_last(chain_positions(edges, old_path), j, m);
        }
    }
}

/// The shortest chain whose migrations were registered first is unique: a
/// registry with forward, distinct migrations gives one migration path
/// between two versions, whichever way it is found.
pub proof fn lemma_first_shortest_chain_unique(edges: Seq<(u32, u32)>, p: Seq<(u32, u32)>, q: Seq<(u32, u32)>, from: u32, to: u32)
    requires
        edges_unique(edges),
        is_first_shortest_chain(edges, p, from, to),
        is_first_shortest_chain(edges, q, from, to),
    ensures
        p == q,
{
    let a = chain_positions(edges, p);
    let b = chain_positions(edges, q);
    assert(p.len() == q.len());
    if p != q {
        assert(exists|i: int| 0 <= i < p.len() && p[i] != q[i]) by {
            if forall|i: int| 0 <= i < p.len() ==> p[i] == q[i] {
                assert(p =~= q);
            }
        }
        let i = choose|i: int| 0 <= i < p.len() && p[i] != q[i];
        assert(edge_in(edges, p[i].0, p[i].1));
        assert(edge_in(edges, q[i].0, q[i].1));
        assert(edges[a[i]] == p[i]);
        assert(edges[b[i]] == q[i]);
        assert(a[i] != b[i]);
        assert(a != b);
        lemma_lex_total(a, b);
    }
}

impl MigrationRegistry {
    /// Create an empty migration registry.
    pub fn new() -> (r: Self)
        ensures
            r.edges() == Seq::<(u32, u32)>::empty(),
            r.wf(),
    {
        MigrationRegistry { migrations: Vec::new() }
    }

    /// Register a migration between two schema versions. Registering the
    /// same pair again replaces its description.
    pub fn register(self, from: SchemaVersion, to: SchemaVersion, description: &str) -> (r: Self)
        requires
            from < to,
            self.wf(),
        ensures
            r.wf(),
            edge_in(self.edges(), from, to) ==> r.edges() == self.edges(),
            !edge_in(self.edges(), from, to) ==> r.edges() == self.edges().push((from, to)),
            forall|i: int| 0 <= i < r.entries().len() ==> {
                let m = #[trigger] r.entries()[i];
                (m.from, m.to) == (from, to) ==> m.description@ == description@
            },
            forall|i: int| 0 <= i < self.entries().len() && (self.entries()[i].from, self.entries()[i].to) != (from, to)
                ==> #[trigger] r.entries()[i] == self.entries()[i],
    {
        let mut me = self;
        let ghost old_edges = me.edges();
        let ghost old_entries = me.migrations@;
        let n = me.migrations.len();
        let mut i: usize = 0;
        while i < n
            invariant
                n == me.migrations@.len(),
                i <= n,
                me.migrations@ == old_entries,
                old_entries == self.entries(),
                old_edges == self.edges(),
                old_edges == old_entries.map_values(|m: Migration| (m.from, m.to)),
                edges_unique(old_edges),
                edges_forward(old_edges),
                forall|j: int| 0 <= j < i ==> old_edges[j] != (from, to),
            decreases n - i,
        {
            if me.migrations[i].from == from && me.migrations[i].to == to {
                me.migrations.set(i, Migration { from, to, description: String::from_str(description) });
                proof {
                    assert(old_edges[i as int] == (from, to));
                    assert(me.edges() =~= old_edges) by {
                        assert forall|j: int| 0 <= j < me.migrations@.len() implies
                            me.edges()[j] == old_edges[j] by {
                            if j != i {
                                assert(me.migrations@[j] == old_entries[j]);
                            }
                        }
                    }
                    assert forall|k: int| 0 <= k < me.entries().len() && (me.entries()[k].from, me.entries()[k].to) == (from, to)
                        implies me.entries()[k].description@ == description@ by {
                        if k != i {
                            assert(me.entries()[k] == old_entries[k]);
                            assert(old_edges[k] == (me.entries()[k].from, me.entries()[k].to));
                        }
                    }
                    assert forall|k: int| 0 <= k < old_entries.len() && (old_entries[k].from, old_entries[k].to) != (from, to)
                        implies #[trigger] me.entries()[k] == old_entries[k] by {
                        if k == i {
                            assert(old_edges[k] == (old_entries[k].from, old_entries[k].to));
                        }
                    }
                }
                return me;
            }
            proof {
                assert(old_edges[i as int] == (old_entries[i as int].from, old_entries[i as int].to));
            }
            i = i + 1;
        }
        me.migrations.push(Migration { from, to, description: String::from_str(description) });
        proof {
            assert(me.edges() =~= old_edges.push((from, to))) by {
                assert forall|j: int| 0 <= j < old_edges.len() implies me.edges()[j] == old_edges[j] by {
                    assert(me.migrations@[j] == old_entries[j]);
                }
            }
            assert(!edge_in(old_edges, from, to));
            let ne = me.edges();
            assert forall|x: int, y: int| 0 <= x < y < ne.len() implies ne[x] != ne[y] by {
                if y == ne.len() - 1 {
                    assert(ne[x] == old_edges[x]);
                }
            }
            assert forall|x: int| 0 <= x < ne.len() implies (#[trigger] ne[x]).0 < ne[x].1 by {
                if x < old_edges.len() {
                    assert(ne[x] == old_edges[x]);
                }
            }
            assert forall|k: int| 0 <= k < me.entries().len() && (me.entries()[k].from, me.entries()[k].to) == (from, to)
                implies me.entries()[k].description@ == description@ by {
                if k < old_entries.len() {
                    assert(me.entries()[k] == old_entries[k]);
                    assert(old_edges[k] == (me.entries()[k].from, me.entries()[k].to));
                }
            }
            assert forall|k: int| 0 <= k < old_entries.len() && (old_entries[k].from, old_entries[k].to) != (from, to)
                implies #[trigger] me.entries()[k] == old_entries[k] by {
                assert(me.migrations@[k] == old_entries[k]);
            }
        }
        me
    }

    /// The registered migrations, in registration order.
    pub fn migrations(&self) -> (r: &Vec<Migration>)
        ensures
            r@ == self.entries(),
    {
        &self.migrations
    }

    /// The direct migrations as (from, to) pairs, each once.
    pub fn available_migrations(&self) -> (r: Vec<(SchemaVersion, SchemaVersion)>)
        ensures
            r@ == self.edges(),
    {
        let mut r: Vec<(u32, u32)> = Vec::new();
        let mut i: usize = 0;
        while i < self.migrations.len()
            invariant
                i <= self.migrations@.len(),
                r@ == self.edges().take(i as int),
            decreases self.migrations@.len() - i,
        {
            r.push((self.migrations[i].from, self.migrations[i].to));
            i = i + 1;
            proof {
                assert(r@ =~= self.edges().take(i as int));
            }
        }
        proof {
            assert(self.edges().take(i as int) =~= self.edges());
        }
        r
    }

    /// Whether a direct migration exists.
    pub fn has_direct_migration(&self, from: SchemaVersion, to: SchemaVersion) -> (r: bool)
        ensures
            r == edge_in(self.edges(), from, to),
    {
        match self.get_migration(from, to) {
            Some(m) => {
                proof {
                    let i = choose|i: int| 0 <= i < self.entries().len() && self.entries()[i] == *m;
                    assert(self.edges()[i] == (from, to));
                }
                true
            }
            None => false,
        }
    }

    /// The direct migration for the pair, if registered.
    pub fn get_migration(&self, from: SchemaVersion, to: SchemaVersion) -> (r: Option<&Migration>)
        ensures
            match r {
                Some(m) => m.from == from && m.to == to && exists|i: int|
                    0 <= i < self.entries().len() && self.entries()[i] == *m,
                None => !edge_in(self.edges(), from, to),
            },
    {
        let mut i: usize = 0;
        while i < self.migrations.len()
            invariant
                i <= self.migrations@.len(),
                forall|j: int| 0 <= j < i ==> self.edges()[j] != (from, to),
            decreases self.migrations@.len() - i,
        {
            if self.migrations[i].from == from && self.migrations[i].to == to {
                proof {
                    assert(self.entries()[i as int] == self.migrations@[i as int]);
                }
                return Some(&self.migrations[i]);
            }
            proof {
                assert(self.edges()[i as int] == (self.migrations@[i as int].from, self.migrations@[i as int].to));
            }
            i = i + 1;
        }
        None
    }

    /// Find the shortest migration path between two versions: of the
    /// shortest chains, the one whose migrations were registered first (see
    /// `is_first_shortest_chain`).
    pub fn find_path(&self, from: SchemaVersion, to: SchemaVersion) -> (r: Result<Vec<(SchemaVersion, SchemaVersion)>, MigrationError>)
        requires
            self.wf(),
        ensures
            from >= to ==> (r matches Err(MigrationError::InvalidVersionRange { from: f, to: t }) && f == from && t == to),
            from < to ==> match r {
                Ok(path) => is_first_shortest_chain(self.edges(), path@, from, to),
                Err(MigrationError::NoPath { from: f, to: t, available }) =>
                    f == from && t == to && available@ == self.edges() && !has_chain(self.edges(), from, to),
                _ => false,
            },
    {
        match self.shortest_path(from, to) {
            Ok(p) => {
                proof {
                    lemma_chain_reaches(self.edges(), p@, from, to, 0);
                }
                Ok(self.first_chain(from, to, p.len()))
            },
            Err(e) => Err(e),
        }
    }

    /// Whether `to` is reached from `x` in exactly `k` steps.
    fn reaches_in(&self, x: SchemaVersion, to: SchemaVersion, k: usize) -> (r: bool)
        ensures
            r == can_reach(self.edges(), x, to, k as nat),
        decreases k,
    {
        if k == 0 {
            return x == to;
        }
        let n = self.migrations.len();
        let mut i: usize = 0;
        while i < n
            invariant
                n == self.migrations@.len(),
                i <= n,
                k >= 1,
                forall|j: int| 0 <= j < i && (#[trigger] self.edges()[j]).0 == x
                    ==> !can_reach(self.edges(), self.edges()[j].1, to, (k - 1) as nat),
            decreases n - i,
        {
            proof {
                assert(self.edges()[i as int] == (self.migrations@[i as int].from, self.migrations@[i as int].to));
            }
            if self.migrations[i].from == x && self.reaches_in(self.migrations[i].to, to, k - 1) {
                return true;
            }
            i = i + 1;
        }
        false
    }

    /// The first registered migration from `cur` after which `to` is
    /// reached in exactly `rest` more steps.
    fn first_step(&self, cur: SchemaVersion, to: SchemaVersion, rest: usize) -> (j: usize)
        requires
            can_reach(self.edges(), cur, to, (rest + 1) as nat),
        ensures
            j < self.edges().len(),
            self.edges()[j as int].0 == cur,
            can_reach(self.edges(), self.edges()[j as int].1, to, rest as nat),
            forall|m: int| 0 <= m < j && (#[trigger] self.edges()[m]).0 == cur
                ==> !can_reach(self.edges(), self.edges()[m].1, to, rest as nat),
    {
        let n = self.migrations.len();
        let mut i: usize = 0;
        while i < n
            invariant
                n == self.migrations@.len(),
                n == self.edges().len(),
                i <= n,
                can_reach(self.edges(), cur, to, (rest + 1) as nat),
                forall|m: int| 0 <= m < i && (#[trigger] self.edges()[m]).0 == cur
                    ==> !can_reach(self.edges(), self.edges()[m].1, to, rest as nat),
            decreases n - i,
        {
            proof {
                assert(self.edges()[i as int] == (self.migrations@[i as int].from, self.migrations@[i as int].to));
            }
            if self.migrations[i].from == cur && self.reaches_in(self.migrations[i].to, to, rest) {
                return i;
            }
            i = i + 1;
        }
        proof {
            let w = choose|w: int| 0 <= w < self.edges().len() && (#[trigger] self.edges()[w]).0 == cur
                && can_reach(self.edges(), self.edges()[w].1, to, rest as nat);
        }
        0
    }

    /// Of the chains of `len` steps from `from` to `to`, none shorter, the
    /// one whose migrations were registered first, built step by step.
    fn first_chain(&self, from: SchemaVersion, to: SchemaVersion, len: usize) -> (r: Vec<(SchemaVersion, SchemaVersion)>)
        requires
            self.wf(),
            len >= 1,
            can_reach(self.edges(), from, to, len as nat),
            forall|p: Seq<(u32, u32)>| is_chain(self.edges(), p, from, to) ==> len <= p.len(),
        ensures
            is_first_shortest_chain(self.edges(), r@, from, to),
    {
        let ghost edges = self.edges();
        let mut path: Vec<(u32, u32)> = Vec::new();
        let mut cur = from;
        let mut i: usize = 0;
        proof {
            assert forall|q: Seq<(u32, u32)>| #[trigger] is_chain(edges, q, from, to) && q.len() == len
                implies q.take(0) == path@ by {
                assert(q.take(0) =~= path@);
            }
        }
        while i < len
            invariant
                edges == self.edges(),
                edges_unique(edges),
                i <= len,
                path@.len() == i,
                i == 0 ==> cur == from,
                i > 0 ==> path@[0].0 == from && path@.last().1 == cur,
                forall|t: int| 0 <= t < i ==> edge_in(edges, (#[trigger] path@[t]).0, path@[t].1),
                forall|t: int| 0 <= t < i - 1 ==> (#[trigger] path@[t]).1 == path@[t + 1].0,
                can_reach(edges, cur, to, (len - i) as nat),
                forall|q: Seq<(u32, u32)>| #[trigger] is_chain(edges, q, from, to) && q.len() == len && q.take(i as int) != path@
                    ==> lex_lt(chain_positions(edges, path@), chain_positions(edges, q.take(i as int))),
            decreases len - i,
        {
            let j = self.first_step(cur, to, len - i - 1);
            let e = (self.migrations[j].from, self.migrations[j].to);
            let ghost old_path = path@;
            proof {
                assert(edges[j as int] == e);
            }
            path.push(e);
            proof {
                assert(edge_in(edges, e.0, e.1));
                assert(edge_pos(edges, e) == j as int) by {
                    let k = edge_pos(edges, e);
                    if k != j as int {
                        if k < j as int {} else {}
                    }
                }
                lemma_greedy_step(edges, from, to, len as int, i as int, old_path, cur, j as int);
            }
            cur = e.1;
            i = i + 1;
        }
        proof {
            assert(path@.take(len as int) =~= path@);
            assert(is_chain(edges, path@, from, to));
            assert forall|q: Seq<(u32, u32)>| #[trigger] is_shortest_chain(edges, q, from, to)
                implies !lex_lt(chain_positions(edges, q), chain_positions(edges, path@)) by {
                assert(q.len() <= path@.len());
                assert(q.take(len as int) =~= q);
                if q != path@ {
                    lemma_lex_asym(chain_positions(edges, path@), chain_positions(edges, q));
                } else if lex_lt(chain_positions(edges, q), chain_positions(edges, path@)) {
                    lemma_lex_asym(chain_positions(edges, q), chain_positions(edges, path@));
                }
            }
        }
        path
    }

    /// The shortest migration path between two versions, by breadth-first
    /// search over the registered migrations.
    fn shortest_path(&self, from: SchemaVersion, to: SchemaVersion) -> (r: Result<Vec<(SchemaVersion, SchemaVersion)>, MigrationError>)
        requires
            self.wf(),
        ensures
            from >= to ==> (r matches Err(MigrationError::InvalidVersionRange { from: f, to: t }) && f == from && t == to),
            from < to ==> match r {
                Ok(path) => is_shortest_chain(self.edges(), path@, from, to),
                Err(MigrationError::NoPath { from: f, to: t, available }) =>
                    f == from && t == to && available@ == self.edges() && !has_chain(self.edges(), from, to),
                _ => false,
            },
    {
        if from >= to {
            return Err(MigrationError::InvalidVersionRange { from, to });
        }
        let ghost edges = self.edges();
        let mut visited: Vec<(u32, u32, usize)> = Vec::new();
        visited.push((from, from, 0usize));
        let mut frontier: Vec<u32> = Vec::new();
        frontier.push(from);
        let mut level: usize = 0;
        let n = self.migrations.len();
        proof {
            assert(visited@ =~= seq![(from, from, 0usize)]);
            assert(frontier@ =~= seq![from]);
            lemma_bfs_start(edges, from, to);
        }
        let mut found: bool = false;
        while frontier.len() > 0 && !found
            invariant
                from < to,
                n == self.migrations@.len(),
                edges == self.edges(),
                edges_forward(edges),
                visited@.len() <= n + 1,
                frontier@.len() > 0 ==> level < visited@.len(),
                parents_ok(edges, from, to, visited@, level as nat),
                !found ==> bfs_inv(edges, from, to, visited@, frontier@, level as nat),
                !found ==> !vis_set(visited@).contains(to),
                found ==> level >= 1,
                found ==> exists|j: int| 0 <= j < visited@.len() && visited@[j].0 == to && visited@[j].2 == level,
                found ==> !reach_within(edges, from, to, (level - 1) as nat, to),
            decreases (n + 1 - visited@.len()) * 2 + if frontier@.len() > 0 { 1int } else { 0int },
        {
            let ghost old_visited = visited@;
            let ghost old_frontier = frontier@;
            let mut next: Vec<u32> = Vec::new();
            let mut fi: usize = 0;
            let cur_len = visited.len();
            proof {
                assert(old_visited.len() == cur_len as nat);
                assert(visited@.subrange(0, visited@.len() as int) =~= visited@);
                reveal(bfs_inv);
                reveal(new_entries_ok);
            }
            while fi < frontier.len() && !found
                invariant
                    from < to,
                    n == self.migrations@.len(),
                    edges == self.edges(),
                    edges_forward(edges),
                    frontier@ == old_frontier,
                    fi <= frontier@.len(),
                    level < old_visited.len(),
                    old_visited.len() <= usize::MAX,
                    visited@.len() <= n + 1,
                    bfs_inv(edges, from, to, old_visited, old_frontier, level as nat),
                    !vis_set(old_visited).contains(to),
                    new_entries_ok(edges, to, old_visited, visited@, next@, level as nat),
                    !found ==> forall|f: int, b: u32| 0 <= f < fi && #[trigger] edge_in(edges, old_frontier[f], b) && b <= to
                        ==> vis_set(visited@).contains(b),
                    found ==> exists|j: int| 0 <= j < visited@.len() && visited@[j].0 == to && visited@[j].2 == level + 1,
                    !found ==> !vis_set(visited@).contains(to),
                decreases frontier@.len() - fi,
            {
                let u = frontier[fi];
                let mut ei: usize = 0;
                while ei < n && !found
                    invariant
                        from < to,
                        n == self.migrations@.len(),
                        edges == self.edges(),
                        edges_forward(edges),
                        frontier@ == old_frontier,
                        fi < frontier@.len(),
                        u == old_frontier[fi as int],
                        ei <= n,
                        level < old_visited.len(),
                        old_visited.len() <= usize::MAX,
                        visited@.len() <= n + 1,
                        bfs_inv(edges, from, to, old_visited, old_frontier, level as nat),
                        !vis_set(old_visited).contains(to),
                        new_entries_ok(edges, to, old_visited, visited@, next@, level as nat),
                        !found ==> forall|f: int, b: u32| 0 <= f < fi && #[trigger] edge_in(edges, old_frontier[f], b) && b <= to
                            ==> vis_set(visited@).contains(b),
                        !found ==> forall|k: int| 0 <= k < ei && edges[k].0 == u && edges[k].1 <= to
                            ==> #[trigger] vis_set(visited@).contains(edges[k].1),
                        found ==> exists|j: int| 0 <= j < visited@.len() && visited@[j].0 == to && visited@[j].2 == level + 1,
                        !found ==> !vis_set(visited@).contains(to),
                    decreases n - ei,
                {
                    let a = self.migrations[ei].from;
                    let b = self.migrations[ei].to;
                    let ghost before = visited@;
                    let ghost before_next = next@;
                    proof {
                        assert(edges[ei as int] == (a, b));
                        assert(edge_in(edges, a, b));
                    }
                    if a == u && b <= to {
                        match find_visited(&visited, b) {
                            Some(w) => {
                                proof {
                                    assert(vis_set(visited@).contains(b)) by {
                                        assert(visited@[w as int].0 == b);
                                    }
                                }
                            }
                            None => {
                                proof {
                                    lemma_expand_one(edges, from, to, old_visited, old_frontier, fi as int, level as nat, before, before_next, u, b);
                                }
                                visited.push((b, u, level + 1));
                                next.push(b);
                                if b == to {
                                    found = true;
                                    proof {
                                        assert(visited@[before.len() as int] == (to, u, (level + 1) as usize));
                                    }
                                }
                            }
                        }
                    }
                    ei = ei + 1;
                }
                proof {
                    if !found {
                        assert forall|b: u32| edge_in(edges, u, b) && b <= to implies #[trigger] vis_set(visited@).contains(b) by {
                            let k = choose|k: int| 0 <= k < edges.len() && edges[k] == (u, b);
                        }
                    }
                }
                fi = fi + 1;
            }
            proof {
                if !found {
                    lemma_bfs_step(edges, from, to, old_visited, old_frontier, visited@, next@, level as nat);
                } else {
                    reveal(bfs_inv);
                    // the target was not reachable within `level` steps
                    if reach_within(edges, from, to, level as nat, to) {
                        let j = choose|j: int| 0 <= j < old_visited.len() && old_visited[j].0 == to && old_visited[j].2 <= level;
                        assert(vis_set(old_visited).contains(to));
                    }
                    lemma_step_parents(edges, from, to, old_visited, visited@, next@, level as nat);
                }
            }
            frontier = next;
            level = level + 1;
        }
        if !found {
            proof {
                lemma_bfs_exhausted(edges, from, to, visited@, frontier@, level as nat);
            }
            return Err(MigrationError::NoPath { from, to, available: self.available_migrations() });
        }
        // Reconstruct the path by following parents from `to` back to `from`.
        let ghost lv = level;
        proof {
            lemma_found_shortest(edges, from, to, lv as nat);
        }
        let mut path: Vec<(u32, u32)> = Vec::new();
        let mut cur = to;
        let mut cur_level = level;
        while cur_level > 0
            invariant
                parents_ok(edges, from, to, visited@, lv as nat),
                lv >= 1,
                cur_level <= lv,
                exists|j: int| 0 <= j < visited@.len() && visited@[j].0 == cur && visited@[j].2 == cur_level,
                path@.len() == lv - cur_level,
                cur_level == lv ==> cur == to,
                cur_level < lv ==> is_chain(edges, path@.reverse(), cur, to),
            decreases cur_level,
        {
            let j = find_visited(&visited, cur);
            let j = j.unwrap();
            proof {
                let w = choose|w: int| 0 <= w < visited@.len() && visited@[w].0 == cur && visited@[w].2 == cur_level;
                if w != j as int {
                    assert(visited@[w].0 != visited@[j as int].0) by {
                        if w < j as int {} else {}
                    }
                }
            }
            let parent = visited[j].1;
            proof {
                assert(j as int >= 1) by {
                    if j == 0 {
                        assert(visited@[0].2 == 0);
                    }
                }
                assert(edge_in(edges, visited@[j as int].1, visited@[j as int].0));
                let p = choose|p: int| 0 <= p < visited@.len() && visited@[p].0 == visited@[j as int].1 && visited@[p].2 + 1 == visited@[j as int].2;
                assert(visited@[p].0 == parent && visited@[p].2 == cur_level - 1);
            }
            let ghost old_path = path@;
            path.push((parent, cur));
            proof {
                let rp = path@.reverse();
                assert(rp =~= seq![(parent, cur)] + old_path.reverse());
                assert(rp[0] == (parent, cur));
                if cur_level < lv {
                    let orp = old_path.reverse();
                    assert(is_chain(edges, orp, cur, to));
                    assert forall|i: int| 0 <= i < rp.len() - 1 implies (#[trigger] rp[i]).1 == rp[i + 1].0 by {
                        assert(rp[i + 1] == orp[i]);
                        if i > 0 {
                            assert(rp[i] == orp[i - 1]);
                        }
                    }
                    assert forall|i: int| 0 <= i < rp.len() implies edge_in(edges, (#[trigger] rp[i]).0, rp[i].1) by {
                        if i > 0 {
                            assert(rp[i] == orp[i - 1]);
                        }
                    }
                    assert(rp.last() == orp.last());
                } else {
                    assert forall|i: int| 0 <= i < rp.len() implies edge_in(edges, (#[trigger] rp[i]).0, rp[i].1) by {
                        assert(rp[i] == (parent, cur));
                    }
                }
            }
            cur = parent;
            cur_level = cur_level - 1;
        }
        proof {
            let w = choose|w: int| 0 <= w < visited@.len() && visited@[w].0 == cur && visited@[w].2 == 0;
            if w != 0 {
                assert(visited@[w].2 >= 1);
            }
        }
        let out = reversed(&path);
        Ok(out)
    }
}

/// The pairs in reverse order.
fn reversed(v: &Vec<(u32, u32)>) -> (r: Vec<(u32, u32)>)
    ensures
        r@ == v@.reverse(),
{
    let mut r: Vec<(u32, u32)> = Vec::new();
    let mut i: usize = v.len();
    while i > 0
        invariant
            i <= v@.len(),
            r@ == v@.subrange(i as int, v@.len() as int).reverse(),
        decreases i,
    {
        i = i - 1;
        r.push(v[i]);
        proof {
            assert(r@ =~= v@.subrange(i as int, v@.len() as int).reverse());
        }
    }
    proof {
        assert(v@.subrange(0, v@.len() as int) =~= v@);
    }
    r
}

proof fn lemma_visited_bound(edges: Seq<(u32, u32)>, from: u32, visited: Seq<(u32, u32, usize)>, b: u32, n: nat)
    requires
        n == edges.len(),
        visited.len() >= 1,
        visited[0].0 == from,
        forall|i: int, j: int| 0 <= i < j < visited.len() ==> visited[i].0 != visited[j].0,
        forall|i: int| 1 <= i < visited.len() ==> edge_in(edges, (#[trigger] visited[i]).1, visited[i].0),
        forall|i: int| 0 <= i < visited.len() ==> visited[i].0 != b,
        b != from,
        exists|k: int| 0 <= k < edges.len() && edges[k].1 == b,
    ensures
        visited.len() + 1 <= n + 1,
{
    // the targets of visited entries other than the start are distinct edge targets
    let targets = Set::new(|x: u32| exists|k: int| 0 <= k < edges.len() && edges[k].1 == x);
    let tail = Set::new(|x: u32| exists|i: int| 1 <= i < visited.len() && visited[i].0 == x).insert(b);
    assert(tail.subset_of(targets)) by {
        assert forall|x: u32| tail.contains(x) implies targets.contains(x) by {
            if x != b {
                let i = choose|i: int| 1 <= i < visited.len() && visited[i].0 == x;
                assert(edge_in(edges, visited[i].1, visited[i].0));
                let k = choose|k: int| 0 <= k < edges.len() && edges[k] == (visited[i].1, visited[i].0);
                assert(edges[k].1 == x);
            }
        }
    }
    lemma_targets_finite(edges);
    vstd::set_lib::lemma_len_subset(tail, targets);
    lemma_tail_len(visited, b);
}

proof fn lemma_targets_finite(edges: Seq<(u32, u32)>)
    ensures
        Set::new(|x: u32| exists|k: int| 0 <= k < edges.len() && edges[k].1 == x).finite(),
        Set::new(|x: u32| exists|k: int| 0 <= k < edges.len() && edges[k].1 == x).len() <= edges.len(),
    decreases edges.len(),
{
    let t = Set::new(|x: u32| exists|k: int| 0 <= k < edges.len() && edges[k].1 == x);
    if edges.len() == 0 {
        assert(t =~= Set::empty());
    } else {
        let pre = edges.drop_last();
        lemma_targets_finite(pre);
        let tp = Set::new(|x: u32| exists|k: int| 0 <= k < pre.len() && pre[k].1 == x);
        assert(t =~= tp.insert(edges.last().1)) by {
            assert forall|x: u32| t.contains(x) implies tp.insert(edges.last().1).contains(x) by {
                let k = choose|k: int| 0 <= k < edges.len() && edges[k].1 == x;
                if k < pre.len() {
                    assert(pre[k] == edges[k]);
                }
            }
            assert forall|x: u32| tp.contains(x) implies t.contains(x) by {
                let k = choose|k: int| 0 <= k < pre.len() && pre[k].1 == x;
                assert(pre[k] == edges[k]);
            }
        }
    }
}

proof fn lemma_tail_len(visited: Seq<(u32, u32, usize)>, b: u32)
    requires
        visited.len() >= 1,
        forall|i: int, j: int| 0 <= i < j < visited.len() ==> visited[i].0 != visited[j].0,
        forall|i: int| 0 <= i < visited.len() ==> visited[i].0 != b,
    ensures
        Set::new(|x: u32| exists|i: int| 1 <= i < visited.len() && visited[i].0 == x).insert(b).finite(),
        Set::new(|x: u32| exists|i: int| 1 <= i < visited.len() && visited[i].0 == x).insert(b).len() == visited.len(),
    decreases visited.len(),
{
    let s = Set::new(|x: u32| exists|i: int| 1 <= i < visited.len() && visited[i].0 == x);
    if visited.len() == 1 {
        assert(s =~= Set::empty());
    } else {
        let pre = visited.drop_last();
        lemma_tail_len(pre, b);
        let sp = Set::new(|x: u32| exists|i: int| 1 <= i < pre.len() && pre[i].0 == x);
        let lastv = visited.last().0;
        assert(s =~= sp.insert(lastv)) by {
            assert forall|x: u32| s.contains(x) implies sp.insert(lastv).contains(x) by {
                let i = choose|i: int| 1 <= i < visited.len() && visited[i].0 == x;
                if i < pre.len() {
                    assert(pre[i] == visited[i]);
                }
            }
            assert forall|x: u32| sp.contains(x) implies s.contains(x) by {
                let i = choose|i: int| 1 <= i < pre.len() && pre[i].0 == x;
                assert(pre[i] == visited[i]);
            }
        }
        assert(!sp.insert(b).contains(lastv)) by {
            if sp.contains(lastv) {
                let i = choose|i: int| 1 <= i < pre.len() && pre[i].0 == lastv;
                assert(pre[i] == visited[i]);
                assert(visited[i].0 != visited[visited.len() - 1].0);
            }
        }
        assert(s.insert(b) =~= sp.insert(b).insert(lastv));
    }
}


// ---------------------------------------------------------------------------
// Queries over the registry
// ---------------------------------------------------------------------------

/// "v" followed by the decimal version.
pub open spec fn v_text(n: u32) -> Seq<char> {
    "v"@ + dec_nat(n as nat)
}

/// Two versions joined by an arrow, each with its "v" prefix.
pub open spec fn pair_text(p: (u32, u32), arrow: Seq<char>) -> Seq<char> {
    v_text(p.0) + arrow + v_text(p.1)
}

/// The texts of the pairs, each rendered with the arrow.
pub open spec fn pair_texts(ps: Seq<(u32, u32)>, arrow: Seq<char>) -> Seq<Seq<char>> {
    Seq::new(ps.len(), |i: int| pair_text(ps[i], arrow))
}

fn v_string(n: u32) -> (r: String)
    ensures
        r@ == v_text(n),
{
    let mut r = String::from_str("v");
    let d = u64_to_dec(n as u64);
    r.append(d.as_str());
    r
}

fn pair_string(p: (u32, u32), arrow: &str) -> (r: String)
    ensures
        r@ == pair_text(p, arrow@),
{
    let mut r = v_string(p.0);
    r.append(arrow);
    let b = v_string(p.1);
    r.append(b.as_str());
    r
}

/// The pairs rendered with the arrow and joined by the separator.
fn join_pairs(ps: &Vec<(u32, u32)>, arrow: &str, sep: &str) -> (r: String)
    ensures
        r@ == join(pair_texts(ps@, arrow@), sep@),
{
    let mut parts: Vec<String> = Vec::new();
    let mut i: usize = 0;
    while i < ps.len()
        invariant
            i <= ps@.len(),
            views(parts@) == pair_texts(ps@.take(i as int), arrow@),
        decreases ps@.len() - i,
    {
        let t = pair_string(ps[i], arrow);
        let ghost tg = t;
        let ghost before = parts@;
        parts.push(t);
        proof {
            lemma_views_push(before, tg);
            assert(pair_texts(ps@.take(i + 1), arrow@) =~= pair_texts(ps@.take(i as int), arrow@).push(tg@));
        }
        i = i + 1;
    }
    proof {
        assert(ps@.take(ps@.len() as int) =~= ps@);
    }
    join_strings(parts.as_slice(), sep)
}

/// How a migration error is shown to users.
pub open spec fn migration_error_text(e: MigrationError) -> Seq<char> {
    match e {
        MigrationError::NoPath { from, to, available } =>
            "Cannot migrate from schema "@ + v_text(from) + " to "@ + v_text(to) + ". "@
                + if available@.len() == 0 {
                    "No migrations registered."@
                } else {
                    "Supported migrations: "@ + join(pair_texts(available@, "->"@), ", "@)
                },
        MigrationError::MigrationFailed { from, to, reason } =>
            "Migration "@ + v_text(from) + "->"@ + v_text(to) + " failed: "@ + reason@,
        MigrationError::InvalidVersionRange { from, to } =>
            "Invalid version range: source ("@ + dec_nat(from as nat) + ") must be less than target ("@
                + dec_nat(to as nat) + ")"@,
        MigrationError::CycleDetected { versions } =>
            "Cycle detected in migration graph: "@ + join(Seq::new(versions@.len(), |i: int| v_text(versions@[i])), " -> "@),
    }
}

impl MigrationError {
    /// The text shown for this error.
    pub fn to_display_string(&self) -> (r: String)
        ensures
            r@ == migration_error_text(*self),
    {
        match self {
            MigrationError::NoPath { from, to, available } => {
                let mut r = String::from_str("Cannot migrate from schema ");
                let a = v_string(*from);
                r.append(a.as_str());
                r.append(" to ");
                let b = v_string(*to);
                r.append(b.as_str());
                r.append(". ");
                if available.len() == 0 {
                    r.append("No migrations registered.");
                } else {
                    r.append("Supported migrations: ");
                    let j = join_pairs(available, "->", ", ");
                    r.append(j.as_str());
                }
                r
            }
            MigrationError::MigrationFailed { from, to, reason } => {
                let mut r = String::from_str("Migration ");
                let a = v_string(*from);
                r.append(a.as_str());
                r.append("->");
                let b = v_string(*to);
                r.append(b.as_str());
                r.append(" failed: ");
                r.append(reason.as_str());
                r
            }
            MigrationError::InvalidVersionRange { from, to } => {
                let mut r = String::from_str("Invalid version range: source (");
                let a = u64_to_dec(*from as u64);
                r.append(a.as_str());
                r.append(") must be less than target (");
                let b = u64_to_dec(*to as u64);
                r.append(b.as_str());
                r.append(")");
                r
            }
            MigrationError::CycleDetected { versions } => {
                let mut parts: Vec<String> = Vec::new();
                let mut i: usize = 0;
                while i < versions.len()
                    invariant
                        i <= versions@.len(),
                        views(parts@) == Seq::new(i as nat, |k: int| v_text(versions@[k])),
                    decreases versions@.len() - i,
                {
                    let t = v_string(versions[i]);
                    let ghost tg = t;
                    let ghost before = parts@;
                    parts.push(t);
                    proof {
                        lemma_views_push(before, tg);
                        assert(Seq::new((i + 1) as nat, |k: int| v_text(versions@[k])) =~= Seq::new(i as nat, |k: int| v_text(versions@[k])).push(tg@));
                    }
                    i = i + 1;
                }
                let mut r = String::from_str("Cycle detected in migration graph: ");
                let j = join_strings(parts.as_slice(), " -> ");
                r.append(j.as_str());
                r
            }
        }
    }
}


/// The description registered for the pair.
pub open spec fn description_of(entries: Seq<Migration>, p: (u32, u32)) -> Seq<char> {
    entries[choose|i: int| 0 <= i < entries.len() && entries[i].from == p.0 && entries[i].to == p.1].description@
}

/// One line of a path description.
pub open spec fn step_description(entries: Seq<Migration>, p: (u32, u32)) -> Seq<char> {
    pair_text(p, " -> "@) + ": "@ + description_of(entries, p)
}

impl MigrationRegistry {
    /// Whether data can be migrated from one version to another.
    pub fn can_migrate(&self, from: SchemaVersion, to: SchemaVersion) -> (r: bool)
        requires
            self.wf(),
        ensures
            r == (from < to && has_chain(self.edges(), from, to)),
    {
        if from >= to {
            return false;
        }
        match self.find_path(from, to) {
            Ok(_) => true,
            Err(_) => false,
        }
    }

    /// The descriptions of the steps of the shortest path, one line per step.
    pub fn describe_path(&self, from: SchemaVersion, to: SchemaVersion) -> (r: Result<Vec<String>, MigrationError>)
        requires
            self.wf(),
        ensures
            from >= to ==> (r matches Err(MigrationError::InvalidVersionRange { from: f, to: t }) && f == from && t == to),
            from < to ==> match r {
                Ok(lines) => exists|p: Seq<(u32, u32)>| is_first_shortest_chain(self.edges(), p, from, to)
                    && views(lines@) == Seq::new(p.len(), |i: int| step_description(self.entries(), p[i])),
                Err(MigrationError::NoPath { from: f, to: t, available }) =>
                    f == from && t == to && available@ == self.edges() && !has_chain(self.edges(), from, to),
                _ => false,
            },
    {
        let path = match self.find_path(from, to) {
            Ok(p) => p,
            Err(e) => return Err(e),
        };
        let mut lines: Vec<String> = Vec::new();
        let mut i: usize = 0;
        while i < path.len()
            invariant
                i <= path@.len(),
                self.wf(),
                from < to,
                is_first_shortest_chain(self.edges(), path@, from, to),
                views(lines@) == Seq::new(i as nat, |k: int| step_description(self.entries(), path@[k])),
            decreases path@.len() - i,
        {
            let (f, t) = path[i];
            proof {
                assert(edge_in(self.edges(), path@[i as int].0, path@[i as int].1));
            }
            let m = self.get_migration(f, t);
            let m = m.unwrap();
            let mut line = pair_string((f, t), " -> ");
            line.append(": ");
            line.append(m.description.as_str());
            proof {
                let w = choose|w: int| 0 <= w < self.entries().len() && self.entries()[w] == *m;
                let c = choose|c: int| 0 <= c < self.entries().len() && self.entries()[c].from == f && self.entries()[c].to == t;
                if c != w {
                    assert(self.edges()[c] == (f, t));
                    assert(self.edges()[w] == (f, t));
                    if c < w {} else {}
                }
                assert(line@ == step_description(self.entries(), (f, t)));
            }
            let ghost tg = line;
            let ghost before = lines@;
            lines.push(line);
            proof {
                lemma_views_push(before, tg);
                assert(Seq::new((i + 1) as nat, |k: int| step_description(self.entries(), path@[k]))
                    =~= Seq::new(i as nat, |k: int| step_description(self.entries(), path@[k])).push(tg@));
            }
            i = i + 1;
        }
        Ok(lines)
    }

    /// The highest version that any migration leads to.
    pub fn max_version(&self) -> (r: Option<SchemaVersion>)
        ensures
            match r {
                None => self.entries().len() == 0,
                Some(m) => (exists|i: int| 0 <= i < self.entries().len() && self.entries()[i].to == m)
                    && forall|i: int| 0 <= i < self.entries().len() ==> self.entries()[i].to <= m,
            },
    {
        let mut best: Option<u32> = None;
        let mut i: usize = 0;
        while i < self.migrations.len()
            invariant
                i <= self.migrations@.len(),
                match best {
                    None => i == 0,
                    Some(m) => (exists|k: int| 0 <= k < i && self.migrations@[k].to == m)
                        && forall|k: int| 0 <= k < i ==> self.migrations@[k].to <= m,
                },
            decreases self.migrations@.len() - i,
        {
            let t = self.migrations[i].to;
            match best {
                None => { best = Some(t); }
                Some(m) => {
                    if t > m {
                        best = Some(t);
                    }
                }
            }
            i = i + 1;
        }
        proof {
            assert(self.entries() == self.migrations@);
        }
        best
    }

    /// All versions that occur as a source or target, ascending, each once.
    pub fn all_versions(&self) -> (r: Vec<SchemaVersion>)
        ensures
            forall|i: int, j: int| 0 <= i < j < r@.len() ==> r@[i] < r@[j],
            forall|v: u32| r@.contains(v) <==> exists|i: int| 0 <= i < self.entries().len()
                && (self.entries()[i].from == v || self.entries()[i].to == v),
    {
        let mut r: Vec<u32> = Vec::new();
        let mut i: usize = 0;
        while i < self.migrations.len()
            invariant
                i <= self.migrations@.len(),
                forall|a: int, b: int| 0 <= a < b < r@.len() ==> r@[a] < r@[b],
                forall|v: u32| r@.contains(v) <==> exists|k: int| 0 <= k < i
                    && (self.migrations@[k].from == v || self.migrations@[k].to == v),
            decreases self.migrations@.len() - i,
        {
            let ghost before = r@;
            r = insert_sorted(r, self.migrations[i].from);
            r = insert_sorted(r, self.migrations[i].to);
            proof {
                assert forall|v: u32| r@.contains(v) <==> exists|k: int| 0 <= k < i + 1
                    && (self.migrations@[k].from == v || self.migrations@[k].to == v) by {
                    if r@.contains(v) && !before.contains(v) {
                        assert(v == self.migrations@[i as int].from || v == self.migrations@[i as int].to);
                    }
                    if exists|k: int| 0 <= k < i + 1 && (self.migrations@[k].from == v || self.migrations@[k].to == v) {
                        let k = choose|k: int| 0 <= k < i + 1 && (self.migrations@[k].from == v || self.migrations@[k].to == v);
                        if k < i {
                            assert(before.contains(v));
                        }
                    }
                }
            }
            i = i + 1;
        }
        proof {
            assert(self.entries() == self.migrations@);
        }
        r
    }
}

/// Inserts `v` into an ascending vector of distinct values, keeping it so.
fn insert_sorted(v: Vec<u32>, x: u32) -> (r: Vec<u32>)
    requires
        forall|a: int, b: int| 0 <= a < b < v@.len() ==> v@[a] < v@[b],
    ensures
        forall|a: int, b: int| 0 <= a < b < r@.len() ==> r@[a] < r@[b],
        forall|y: u32| r@.contains(y) <==> (v@.contains(y) || y == x),
{
    let mut r: Vec<u32> = Vec::new();
    let mut i: usize = 0;
    let mut placed = false;
    while i < v.len()
        invariant
            i <= v@.len(),
            forall|a: int, b: int| 0 <= a < b < v@.len() ==> v@[a] < v@[b],
            forall|a: int, b: int| 0 <= a < b < r@.len() ==> r@[a] < r@[b],
            placed ==> r@.contains(x),
            !placed ==> forall|a: int| 0 <= a < r@.len() ==> r@[a] < x,
            placed ==> forall|a: int| 0 <= a < r@.len() ==> r@[a] <= x || (exists|k: int| 0 <= k < i && v@[k] == r@[a]),
            r@.len() > 0 && i < v@.len() ==> r@.last() < v@[i as int],
            forall|y: u32| r@.contains(y) <==> ((exists|k: int| 0 <= k < i && v@[k] == y) || (placed && y == x)),
        decreases v@.len() - i,
    {
        let c = v[i];
        let ghost before = r@;
        if !placed && x < c {
            r.push(x);
            placed = true;
        }
        if !placed && x == c {
            placed = true;
        }
        r.push(c);
        proof {
            assert forall|a: int, b: int| 0 <= a < b < r@.len() implies r@[a] < r@[b] by {
                if b == r@.len() - 1 {
                    if a < before.len() {
                        assert(before[a] == r@[a]);
                    }
                } else if b == r@.len() - 2 && r@.len() == before.len() + 2 {
                    assert(r@[b] == x);
                    if a < before.len() {
                        assert(before[a] == r@[a]);
                    }
                } else {
                    assert(before[a] == r@[a] && before[b] == r@[b]);
                }
            }
            assert forall|y: u32| r@.contains(y) <==> ((exists|k: int| 0 <= k < i + 1 && v@[k] == y) || (placed && y == x)) by {
                if r@.contains(y) {
                    let a = choose|a: int| 0 <= a < r@.len() && r@[a] == y;
                    if a < before.len() {
                        assert(before.contains(y));
                    }
                }
                if exists|k: int| 0 <= k < i + 1 && v@[k] == y {
                    let k = choose|k: int| 0 <= k < i + 1 && v@[k] == y;
                    if k < i {
                        assert(before.contains(y));
                        let a = choose|a: int| 0 <= a < before.len() && before[a] == y;
                        assert(r@[a] == y);
                    } else {
                        assert(r@[r@.len() - 1] == y);
                    }
                }
                if placed && y == x {
                    if before.contains(x) {
                        let a = choose|a: int| 0 <= a < before.len() && before[a] == x;
                        assert(r@[a] == x);
                    } else if x == c {
                        assert(r@[r@.len() - 1] == x);
                    } else {
                        assert(r@[before.len() as int] == x);
                    }
                }
            }
        }
        i = i + 1;
    }
    if !placed {
        let ghost before = r@;
        r.push(x);
        proof {
            assert forall|a: int, b: int| 0 <= a < b < r@.len() implies r@[a] < r@[b] by {
                if b < before.len() {
                    assert(before[a] == r@[a] && before[b] == r@[b]);
                } else {
                    assert(before[a] == r@[a]);
                }
            }
            assert forall|y: u32| r@.contains(y) <==> (v@.contains(y) || y == x) by {
                if r@.contains(y) && y != x {
                    let a = choose|a: int| 0 <= a < r@.len() && r@[a] == y;
                    assert(before[a] == y);
                    assert(before.contains(y));
                    let k = choose|k: int| 0 <= k < v@.len() && v@[k] == y;
                }
                if v@.contains(y) {
                    let k = choose|k: int| 0 <= k < v@.len() && v@[k] == y;
                    assert(exists|k2: int| 0 <= k2 < v@.len() && v@[k2] == y);
                    assert(before.contains(y));
                    let a = choose|a: int| 0 <= a < before.len() && before[a] == y;
                    assert(r@[a] == y);
                }
                if y == x {
                    assert(r@[r@.len() - 1] == x);
                }
            }
        }
    } else {
        proof {
            assert forall|y: u32| r@.contains(y) <==> (v@.contains(y) || y == x) by {
                if v@.contains(y) {
                    let k = choose|k: int| 0 <= k < v@.len() && v@[k] == y;
                    assert(exists|k2: int| 0 <= k2 < v@.len() && v@[k2] == y);
                }
                if r@.contains(y) && y != x {
                    let k = choose|k: int| 0 <= k < v@.len() && v@[k] == y;
                    assert(v@.contains(y));
                }
            }
        }
    }
    r
}

/// The registry with every migration that this version of the library knows.
/// No export-data migrations have been needed yet, so it is empty.
pub fn build_default_registry() -> (r: MigrationRegistry)
    ensures
        r.edges() == Seq::<(u32, u32)>::empty(),
        r.wf(),
{
    MigrationRegistry::new()
}


// ---------------------------------------------------------------------------
// Import compatibility
// ---------------------------------------------------------------------------

/// Result of checking schema compatibility.
#[derive(Debug, Clone)]
pub enum SchemaCompatibility {
    /// Versions match, no migration needed.
    Compatible,
    /// Migration is required and a path exists.
    NeedsMigration { from: SchemaVersion, to: SchemaVersion, path: Vec<(SchemaVersion, SchemaVersion)> },
    /// Migration is required but no path exists.
    Incompatible { from: SchemaVersion, to: SchemaVersion, error: MigrationError },
    /// Export is newer than database schema.
    ExportNewer { export_version: SchemaVersion, database_version: SchemaVersion },
}

/// How a compatibility status is described.
pub open spec fn compatibility_text(c: SchemaCompatibility) -> Seq<char> {
    match c {
        SchemaCompatibility::Compatible => "Schema versions match, no migration needed."@,
        SchemaCompatibility::NeedsMigration { from, to, path } =>
            "Migration required from "@ + v_text(from) + " to "@ + v_text(to) + ": "@
                + join(pair_texts(path@, " -> "@), " -> "@),
        SchemaCompatibility::Incompatible { from, to, error } =>
            "Cannot migrate from "@ + v_text(from) + " to "@ + v_text(to) + ": "@ + migration_error_text(error),
        SchemaCompatibility::ExportNewer { export_version, database_version } =>
            "Export schema "@ + v_text(export_version) + " is newer than database schema "@ + v_text(database_version)
                + ". Please upgrade the database first."@,
    }
}

impl SchemaCompatibility {
    /// Whether import can go on: the versions match or a migration path exists.
    pub fn can_proceed(&self) -> (r: bool)
        ensures
            r == (self is Compatible || self is NeedsMigration),
    {
        match self {
            SchemaCompatibility::Compatible => true,
            SchemaCompatibility::NeedsMigration { .. } => true,
            _ => false,
        }
    }

    /// A human-readable description of the compatibility status.
    pub fn describe(&self) -> (r: String)
        ensures
            r@ == compatibility_text(*self),
    {
        match self {
            SchemaCompatibility::Compatible => String::from_str("Schema versions match, no migration needed."),
            SchemaCompatibility::NeedsMigration { from, to, path } => {
                let mut r = String::from_str("Migration required from ");
                let a = v_string(*from);
                r.append(a.as_str());
                r.append(" to ");
                let b = v_string(*to);
                r.append(b.as_str());
                r.append(": ");
                let j = join_pairs(path, " -> ", " -> ");
                r.append(j.as_str());
                r
            }
            SchemaCompatibility::Incompatible { from, to, error } => {
                let mut r = String::from_str("Cannot migrate from ");
                let a = v_string(*from);
                r.append(a.as_str());
                r.append(" to ");
                let b = v_string(*to);
                r.append(b.as_str());
                r.append(": ");
                let e = error.to_display_string();
                r.append(e.as_str());
                r
            }
            SchemaCompatibility::ExportNewer { export_version, database_version } => {
                let mut r = String::from_str("Export schema ");
                let a = v_string(*export_version);
                r.append(a.as_str());
                r.append(" is newer than database schema ");
                let b = v_string(*database_version);
                r.append(b.as_str());
                r.append(". Please upgrade the database first.");
                r
            }
        }
    }
}

/// What the compatibility check decides for the two versions.
pub open spec fn compatibility_ok(edges: Seq<(u32, u32)>, export_version: u32, database_version: u32, c: SchemaCompatibility) -> bool {
    if export_version == database_version {
        c is Compatible
    } else if export_version > database_version {
        c == SchemaCompatibility::ExportNewer { export_version, database_version }
    } else {
        match c {
            SchemaCompatibility::NeedsMigration { from, to, path } =>
                from == export_version && to == database_version
                    && is_first_shortest_chain(edges, path@, export_version, database_version),
            SchemaCompatibility::Incompatible { from, to, error } =>
                from == export_version && to == database_version
                    && !has_chain(edges, export_version, database_version)
                    && (error matches MigrationError::NoPath { from: f, to: t, available }
                    && f == export_version && t == database_version && available@ == edges),
            _ => false,
        }
    }
}

/// Check schema compatibility between an export and the target database.
/// A migration's path is the one `find_path` returns: the shortest chain
/// whose migrations were registered first, which is unique
/// (`lemma_first_shortest_chain_unique`).
pub fn check_schema_compatibility(
    registry: &MigrationRegistry,
    export_version: SchemaVersion,
    database_version: SchemaVersion,
) -> (r: SchemaCompatibility)
    requires
        registry.wf(),
    ensures
        compatibility_ok(registry.edges(), export_version, database_version, r),
{
    if export_version == database_version {
        return SchemaCompatibility::Compatible;
    }
    if export_version > database_version {
        return SchemaCompatibility::ExportNewer { export_version, database_version };
    }
    match registry.find_path(export_version, database_version) {
        Ok(path) => SchemaCompatibility::NeedsMigration { from: export_version, to: database_version, path },
        Err(error) => SchemaCompatibility::Incompatible { from: export_version, to: database_version, error },
    }
}

/// Report of a completed migration operation.
#[derive(Debug, Clone)]
pub struct MigrationReport {
    /// Original schema version of the data.
    pub from_version: SchemaVersion,
    /// Target schema version (same as from if no migration needed).
    pub to_version: SchemaVersion,
    /// List of migration steps that were applied.
    pub steps_applied: Vec<MigrationStep>,
    /// Whether any migrations were actually applied.
    pub was_migrated: bool,
}

/// A single migration step that was applied.
#[derive(Debug, Clone)]
pub struct MigrationStep {
    /// Source version.
    pub from: SchemaVersion,
    /// Target version.
    pub to: SchemaVersion,
    /// Description of what the migration did.
    pub description: String,
}

/// How a migration report is summarized.
pub open spec fn report_summary_text(r: MigrationReport) -> Seq<char> {
    if !r.was_migrated {
        "No migration needed (schema "@ + v_text(r.from_version) + ")"@
    } else {
        "Migrated from "@ + v_text(r.from_version) + " to "@ + v_text(r.to_version) + " ("@
            + dec_nat(r.steps_applied@.len()) + " steps: "@
            + join(pair_texts(r.steps_applied@.map_values(|s: MigrationStep| (s.from, s.to)), " -> "@), ", "@)
            + ")"@
    }
}

impl MigrationReport {
    /// A human-readable summary of the migration.
    pub fn summary(&self) -> (r: String)
        ensures
            r@ == report_summary_text(*self),
    {
        if !self.was_migrated {
            let mut r = String::from_str("No migration needed (schema ");
            let a = v_string(self.from_version);
            r.append(a.as_str());
            r.append(")");
            r
        } else {
            let mut pairs: Vec<(u32, u32)> = Vec::new();
            let mut i: usize = 0;
            while i < self.steps_applied.len()
                invariant
                    i <= self.steps_applied@.len(),
                    pairs@ == self.steps_applied@.map_values(|s: MigrationStep| (s.from, s.to)).take(i as int),
                decreases self.steps_applied@.len() - i,
            {
                pairs.push((self.steps_applied[i].from, self.steps_applied[i].to));
                i = i + 1;
                proof {
                    assert(pairs@ =~= self.steps_applied@.map_values(|s: MigrationStep| (s.from, s.to)).take(i as int));
                }
            }
            proof {
                assert(pairs@ =~= self.steps_applied@.map_values(|s: MigrationStep| (s.from, s.to)));
            }
            let mut r = String::from_str("Migrated from ");
            let a = v_string(self.from_version);
            r.append(a.as_str());
            r.append(" to ");
            let b = v_string(self.to_version);
            r.append(b.as_str());
            r.append(" (");
            let n = u64_to_dec(self.steps_applied.len() as u64);
            r.append(n.as_str());
            r.append(" steps: ");
            let j = join_pairs(&pairs, " -> ", ", ");
            r.append(j.as_str());
            r.append(")");
            r
        }
    }
}

/// Result of validating an import's schema version.
#[derive(Debug, Clone)]
pub struct SchemaValidationResult {
    /// Schema version of the export file.
    pub export_version: SchemaVersion,
    /// Current database schema version.
    pub database_version: SchemaVersion,
    /// Compatibility status.
    pub compatibility: SchemaCompatibility,
}

/// The user-facing message for a validation result.
pub open spec fn validation_message_text(r: SchemaValidationResult) -> Seq<char> {
    match r.compatibility {
        SchemaCompatibility::Compatible =>
            "Schema compatible: export "@ + v_text(r.export_version) + " matches database "@ + v_text(r.database_version),
        SchemaCompatibility::NeedsMigration { path, .. } =>
            "Schema migration required: export "@ + v_text(r.export_version) + " will be migrated to "@
                + v_text(r.database_version) + " ("@ + dec_nat(path@.len()) + " steps)"@,
        SchemaCompatibility::Incompatible { error, .. } =>
            "Schema incompatible: "@ + migration_error_text(error),
        SchemaCompatibility::ExportNewer { .. } =>
            "Schema incompatible: export "@ + v_text(r.export_version) + " is newer than database "@
                + v_text(r.database_version) + ". Upgrade the database or use a compatible export."@,
    }
}

impl SchemaValidationResult {
    /// Whether the import can proceed.
    pub fn is_valid(&self) -> (r: bool)
        ensures
            r == (self.compatibility is Compatible || self.compatibility is NeedsMigration),
    {
        self.compatibility.can_proceed()
    }

    /// A user-friendly message about the validation result.
    pub fn message(&self) -> (r: String)
        ensures
            r@ == validation_message_text(*self),
    {
        match &self.compatibility {
            SchemaCompatibility::Compatible => {
                let mut r = String::from_str("Schema compatible: export ");
                let a = v_string(self.export_version);
                r.append(a.as_str());
                r.append(" matches database ");
                let b = v_string(self.database_version);
                r.append(b.as_str());
                r
            }
            SchemaCompatibility::NeedsMigration { path, .. } => {
                let mut r = String::from_str("Schema migration required: export ");
                let a = v_string(self.export_version);
                r.append(a.as_str());
                r.append(" will be migrated to ");
                let b = v_string(self.database_version);
                r.append(b.as_str());
                r.append(" (");
                let n = u64_to_dec(path.len() as u64);
                r.append(n.as_str());
                r.append(" steps)");
                r
            }
            SchemaCompatibility::Incompatible { error, .. } => {
                let mut r = String::from_str("Schema incompatible: ");
                let e = error.to_display_string();
                r.append(e.as_str());
                r
            }
            SchemaCompatibility::ExportNewer { .. } => {
                let mut r = String::from_str("Schema incompatible: export ");
                let a = v_string(self.export_version);
                r.append(a.as_str());
                r.append(" is newer than database ");
                let b = v_string(self.database_version);
                r.append(b.as_str());
                r.append(". Upgrade the database or use a compatible export.");
                r
            }
        }
    }

    /// A detailed description suitable for verbose output.
    pub fn details(&self) -> (r: String)
        ensures
            r@ == compatibility_text(self.compatibility),
    {
        self.compatibility.describe()
    }
}

/// Validate that an export can be imported into the current database schema,
/// using the default registry.
pub fn validate_import_schema(
    export_schema_version: SchemaVersion,
    current_schema_version: SchemaVersion,
) -> (r: SchemaValidationResult)
    ensures
        r.export_version == export_schema_version,
        r.database_version == current_schema_version,
        compatibility_ok(Seq::empty(), export_schema_version, current_schema_version, r.compatibility),
{
    let registry = build_default_registry();
    let compatibility = check_schema_compatibility(&registry, export_schema_version, current_schema_version);
    SchemaValidationResult {
        export_version: export_schema_version,
        database_version: current_schema_version,
        compatibility,
    }
}


/// The registered migration for the step `(a, b)`.
pub open spec fn step_of(ms: Seq<Migration>, a: u32, b: u32) -> Migration {
    ms[choose|i: int| 0 <= i < ms.len() && ms[i].from == a && ms[i].to == b]
}

/// The data as a step leaves it: what the step returned, with its
/// `schema_version` set to the step's target version.
pub open spec fn versioned(d: Json, v: u32) -> JsonV {
    json_set(d@, "schema_version"@, JsonV::Int(v as i64))
}

/// `ds` records a successful run of the first `k` steps of `path`: `ds[0]`
/// is the data before, and each next value is what `run` returned for the
/// step (with no failure reason), stamped with the step's target version.
pub open spec fn steps_ran<F: Fn(&Migration, Json) -> (Json, Option<String>)>(
    run: F,
    ms: Seq<Migration>,
    path: Seq<(u32, u32)>,
    ds: Seq<Json>,
    k: int,
) -> bool {
    &&& 0 <= k <= path.len()
    &&& ds.len() == k + 1
    &&& forall|i: int| 0 <= i < k ==> #[trigger] step_ran(run, ms, path, ds, i)
}

/// Step `i` of `path` ran on `ds[i]`, succeeded, and left `ds[i + 1]`.
pub open spec fn step_ran<F: Fn(&Migration, Json) -> (Json, Option<String>)>(
    run: F,
    ms: Seq<Migration>,
    path: Seq<(u32, u32)>,
    ds: Seq<Json>,
    i: int,
) -> bool {
    exists|e: Json| #[trigger] call_ensures(run, (&step_of(ms, path[i].0, path[i].1), ds[i]), (e, None::<String>))
        && ds[i + 1]@ == versioned(e, path[i].1)
}

/// The outcome of running the steps of `path` over `before`, leaving
/// `after`: either every step ran and `steps` lists them with their
/// descriptions, or step `k` failed with a reason and left the data as
/// `after`.
pub open spec fn run_outcome<F: Fn(&Migration, Json) -> (Json, Option<String>)>(
    run: F,
    ms: Seq<Migration>,
    path: Seq<(u32, u32)>,
    before: Json,
    after: Json,
    r: Result<Vec<MigrationStep>, MigrationError>,
) -> bool {
    match r {
        Ok(steps) => {
            &&& exists|ds: Seq<Json>| #[trigger] steps_ran(run, ms, path, ds, path.len() as int) && ds[0] == before && after == ds.last()
            &&& steps@.len() == path.len()
            &&& forall|i: int| 0 <= i < path.len() ==> (#[trigger] steps@[i]).from == path[i].0 && steps@[i].to == path[i].1
                && steps@[i].description == step_of(ms, path[i].0, path[i].1).description
        },
        Err(MigrationError::MigrationFailed { from: a, to: b, reason }) => exists|k: int, ds: Seq<Json>|
            #[trigger] steps_ran(run, ms, path, ds, k) && k < path.len() && ds[0] == before && path[k] == (a, b)
                && call_ensures(run, (&step_of(ms, a, b), ds[k]), (after, Some(reason))),
        _ => false,
    }
}

proof fn lemma_step_of_unique(ms: Seq<Migration>, edges: Seq<(u32, u32)>, i: int)
    requires
        edges == ms.map_values(|m: Migration| (m.from, m.to)),
        edges_unique(edges),
        0 <= i < ms.len(),
    ensures
        step_of(ms, ms[i].from, ms[i].to) == ms[i],
{
    let a = ms[i].from;
    let b = ms[i].to;
    let c = choose|c: int| 0 <= c < ms.len() && ms[c].from == a && ms[c].to == b;
    if c != i {
        assert(edges[c] == edges[i]);
    }
}

impl MigrationRegistry {
    /// Runs the steps of the path over the data, stamping the data with each
    /// step's target version; stops at the first step that fails.
    fn run_steps<F: Fn(&Migration, Json) -> (Json, Option<String>)>(
        &self,
        data: &mut Json,
        path: &Vec<(SchemaVersion, SchemaVersion)>,
        run: &F,
    ) -> (r: Result<Vec<MigrationStep>, MigrationError>)
        requires
            self.wf(),
            forall|i: int| 0 <= i < path@.len() ==> edge_in(self.edges(), (#[trigger] path@[i]).0, path@[i].1),
            forall|m: &Migration, d: Json| call_requires(*run, (m, d)),
        ensures
            run_outcome(*run, self.entries(), path@, *old(data), *final(data), r),
    {
        let ghost d0 = *data;
        let ghost ms = self.entries();
        let mut steps: Vec<MigrationStep> = Vec::new();
        let ghost mut ds: Seq<Json> = seq![*data];
        let mut i: usize = 0;
        while i < path.len()
            invariant
                self.wf(),
                ms == self.entries(),
                forall|j: int| 0 <= j < path@.len() ==> edge_in(self.edges(), (#[trigger] path@[j]).0, path@[j].1),
                forall|m: &Migration, d: Json| call_requires(*run, (m, d)),
                i <= path@.len(),
                steps_ran(*run, ms, path@, ds, i as int),
                d0 == *old(data),
                ds[0] == d0,
                ds.last() == *data,
                steps@.len() == i,
                forall|j: int| 0 <= j < i ==> (#[trigger] steps@[j]).from == path@[j].0 && steps@[j].to == path@[j].1
                    && steps@[j].description == step_of(ms, path@[j].0, path@[j].1).description,
            decreases path@.len() - i,
        {
            let a = path[i].0;
            let b = path[i].1;
            proof {
                assert(edge_in(self.edges(), a, b));
            }
            let m = match self.get_migration(a, b) {
                Some(m) => m,
                None => {
                    proof {
                        assert(false);
                    }
                    return Err(MigrationError::InvalidVersionRange { from: a, to: b });
                },
            };
            proof {
                let w = choose|w: int| 0 <= w < self.entries().len() && self.entries()[w] == *m;
                lemma_step_of_unique(ms, self.edges(), w);
                assert(step_of(ms, a, b) == *m);
            }
            let mut taken = Json::Null;
            std::mem::swap(&mut taken, data);
            let ghost given = taken;
            let res = run(m, taken);
            proof {
                assert(call_ensures(*run, (m, given), res));
            }
            let (out, status) = res;
            match status {
                None => {
                    let ghost e = out;
                    let mut out = out;
                    out.set_field("schema_version", Json::Int(b as i64));
                    *data = out;
                    steps.push(MigrationStep { from: a, to: b, description: m.description.clone() });
                    proof {
                        let ds2 = ds.push(*data);
                        assert(ds2[i as int] == given);
                        assert(path@[i as int] == (a, b));
                        assert(call_ensures(*run, (&step_of(ms, path@[i as int].0, path@[i as int].1), ds2[i as int]), (e, None::<String>)));
                        assert(ds2[i + 1]@ == versioned(e, path@[i as int].1));
                        assert(step_ran(*run, ms, path@, ds2, i as int));
                        assert forall|j: int| 0 <= j < i + 1 implies #[trigger] step_ran(*run, ms, path@, ds2, j) by {
                            if j < i {
                                assert(step_ran(*run, ms, path@, ds, j));
                                assert(ds2[j] == ds[j] && ds2[j + 1] == ds[j + 1]);
                            }
                        }
                        ds = ds2;
                    }
                    i = i + 1;
                }
                Some(reason) => {
                    let ghost after = out;
                    *data = out;
                    proof {
                        assert(ds[i as int] == given);
                        assert(path@[i as int] == (a, b));
                        assert(call_ensures(*run, (&step_of(ms, a, b), ds[i as int]), (after, Some(reason))));
                        assert(steps_ran(*run, ms, path@, ds, i as int));
                    }
                    let err: Result<Vec<MigrationStep>, MigrationError> =
                        Err(MigrationError::MigrationFailed { from: a, to: b, reason });
                    proof {
                        assert(run_outcome(*run, ms, path@, d0, *data, err));
                    }
                    return err;
                }
            }
        }
        proof {
            assert(steps_ran(*run, ms, path@, ds, path@.len() as int));
        }
        Ok(steps)
    }
}

impl MigrationRegistry {
    /// Migrate data from one schema version to another along the shortest
    /// migration path, running each step with `run` and stamping the data
    /// with each step's target version. Nothing is done when the versions
    /// are the same; the data is left as it is when no path exists.
    pub fn migrate<F: Fn(&Migration, Json) -> (Json, Option<String>)>(
        &self,
        data: &mut Json,
        from: SchemaVersion,
        to: SchemaVersion,
        run: &F,
    ) -> (r: Result<(), MigrationError>)
        requires
            self.wf(),
            forall|m: &Migration, d: Json| call_requires(*run, (m, d)),
        ensures
            from == to ==> r is Ok && *final(data) == *old(data),
            from > to ==> r == Err::<(), MigrationError>(MigrationError::InvalidVersionRange { from, to }) && *final(data) == *old(data),
            from < to && !has_chain(self.edges(), from, to) ==> *final(data) == *old(data)
                && (r matches Err(MigrationError::NoPath { from: f, to: t, available }) && f == from && t == to && available@ == self.edges()),
            from < to && has_chain(self.edges(), from, to) ==> exists|path: Seq<(u32, u32)>, sr: Result<Vec<MigrationStep>, MigrationError>|
                #[trigger] run_outcome(*run, self.entries(), path, *old(data), *final(data), sr)
                    && is_first_shortest_chain(self.edges(), path, from, to)
                    && (r is Ok <==> sr is Ok)
                    && (sr matches Err(e) ==> r == Err::<(), MigrationError>(e)),
    {
        if from == to {
            return Ok(());
        }
        let path = match self.find_path(from, to) {
            Ok(p) => p,
            Err(e) => {
                proof {
                    if from < to && has_chain(self.edges(), from, to) {
                        assert(false);
                    }
                }
                return Err(e);
            },
        };
        proof {
            assert(forall|i: int| 0 <= i < path@.len() ==> edge_in(self.edges(), (#[trigger] path@[i]).0, path@[i].1));
        }
        let ghost before = *data;
        let sr = self.run_steps(data, &path, run);
        proof {
            assert(has_chain(self.edges(), from, to));
            assert(run_outcome(*run, self.entries(), path@, before, *data, sr));
        }
        match sr {
            Ok(_) => Ok(()),
            Err(e) => Err(e),
        }
    }
}

/// The schema version an export declares: its `schema_version` field when
/// that is a non-negative integer (cut to 32 bits), else version 1.
pub open spec fn data_version(d: JsonV) -> u32 {
    match json_get(d, "schema_version"@) {
        Some(JsonV::Int(i)) => if i >= 0 { (i as u64) as u32 } else { 1 },
        _ => 1,
    }
}

/// Migrate exported data to the target schema version before import.
///
/// Data at the target version is left as it is; data from a newer schema
/// is refused; otherwise the steps of the shortest migration path are run
/// (see `MigrationRegistry::migrate`) and reported.
pub fn migrate_export_data<F: Fn(&Migration, Json) -> (Json, Option<String>)>(
    registry: &MigrationRegistry,
    data: &mut Json,
    target_version: SchemaVersion,
    run: &F,
) -> (r: Result<MigrationReport, MigrationError>)
    requires
        registry.wf(),
        forall|m: &Migration, d: Json| call_requires(*run, (m, d)),
    ensures
        ({
            let v = data_version(old(data)@);
            &&& v == target_version ==> *final(data) == *old(data) && (r matches Ok(rep)
                && rep.from_version == v && rep.to_version == target_version
                && rep.steps_applied@.len() == 0 && !rep.was_migrated)
            &&& v > target_version ==> *final(data) == *old(data)
                && r == Err::<MigrationReport, MigrationError>(MigrationError::InvalidVersionRange { from: v, to: target_version })
            &&& v < target_version && !has_chain(registry.edges(), v, target_version) ==> *final(data) == *old(data)
                && (r matches Err(MigrationError::NoPath { from: f, to: t, available })
                    && f == v && t == target_version && available@ == registry.edges())
            &&& v < target_version && has_chain(registry.edges(), v, target_version) ==>
                exists|path: Seq<(u32, u32)>, sr: Result<Vec<MigrationStep>, MigrationError>|
                    #[trigger] run_outcome(*run, registry.entries(), path, *old(data), *final(data), sr)
                        && is_first_shortest_chain(registry.edges(), path, v, target_version)
                        && match sr {
                            Ok(steps) => r matches Ok(rep) && rep.from_version == v && rep.to_version == target_version
                                && rep.steps_applied@ == steps@ && rep.was_migrated,
                            Err(e) => r == Err::<MigrationReport, MigrationError>(e),
                        }
        }),
{
    let export_version: SchemaVersion = match data.get("schema_version") {
        Some(Json::Int(i)) => if *i >= 0 { (*i as u64) as u32 } else { 1 },
        _ => 1,
    };
    let ghost before = *data;
    let compatibility = check_schema_compatibility(registry, export_version, target_version);
    match compatibility {
        SchemaCompatibility::Compatible => Ok(MigrationReport {
            from_version: export_version,
            to_version: target_version,
            steps_applied: Vec::new(),
            was_migrated: false,
        }),
        SchemaCompatibility::NeedsMigration { from, to, path } => {
            proof {
                assert(forall|i: int| 0 <= i < path@.len() ==> edge_in(registry.edges(), (#[trigger] path@[i]).0, path@[i].1));
            }
            let sr = registry.run_steps(data, &path, run);
            proof {
                assert(run_outcome(*run, registry.entries(), path@, before, *data, sr));
            }
            match sr {
                Ok(steps) => Ok(MigrationReport { from_version: from, to_version: to, steps_applied: steps, was_migrated: true }),
                Err(e) => Err(e),
            }
        },
        SchemaCompatibility::Incompatible { error, .. } => Err(error),
        SchemaCompatibility::ExportNewer { export_version, database_version } => Err(
            MigrationError::InvalidVersionRange { from: export_version, to: database_version },
        ),
    }
}

} // verus!
