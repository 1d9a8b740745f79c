//! Planning the creation of a task tree from nested input: the order in
//! which the nodes are visited, the ID of each node, the new tasks and the
//! parent and sibling dependencies between them.
//!
//! A node either refers to an existing task (`ref_id`) or describes a new
//! one. Nodes are visited in preorder: a node, then each of its children
//! with its own subtree, first child first. The plan is carried out by
//! inserting its new tasks and edges in that order, in one transaction.

use vstd::prelude::*;
use crate::text::{views, lemma_views_push, string_of};
use crate::types::{TaskTreeInput, PRIORITY_DEFAULT, clamp_priority, clamped_priority};
use crate::format::{truncate_title, truncated_title};
use crate::text::str_eq;
use crate::error::opt_view;
use crate::ids::{IdsConfig, generate_task_id, petname_shape};
use crate::import::contains_string;

verus! {

/// A task to be created for a node of the tree.
#[derive(Debug)]
pub struct PlannedTask {
    pub id: String,
    /// The node's title, else one taken from its description.
    pub title: String,
    pub description: Option<String>,
    pub status: String,
    pub phase: Option<String>,
    pub priority: i32,
    pub points: Option<i32>,
    pub time_estimate_ms: Option<i64>,
    pub tags: Vec<String>,
    pub needed_tags: Vec<String>,
    pub wanted_tags: Vec<String>,
}

/// What creating a task tree does: the root's ID, the ID of every node in
/// preorder, the tasks to insert and the dependencies to add, as
/// `(from, to, type)`, in the order they are added.
#[derive(Debug)]
pub struct TreePlan {
    pub root_id: String,
    pub ids: Vec<String>,
    pub new_tasks: Vec<PlannedTask>,
    pub edges: Vec<(String, String, String)>,
}

/// A node of the tree in preorder, with the preorder positions of its
/// parent and of its previous sibling.
pub type FlatNode = (TaskTreeInput, Option<int>, Option<int>);

/// The preorder of the first `n` children `cs` of the node at position
/// `parent`, the first of them placed at position `start`.
pub open spec fn flat_forest(cs: Seq<TaskTreeInput>, n: int, start: int, parent: int) -> Seq<FlatNode>
    decreases cs, n,
{
    if n <= 0 || n > cs.len() {
        Seq::empty()
    } else {
        let front = flat_forest(cs, n - 1, start, parent);
        let prev = if n > 1 {
            Some(start + flat_forest(cs, n - 2, start, parent).len())
        } else {
            None
        };
        let at = start + front.len();
        let c = cs[n - 1];
        front + seq![(c, Some(parent), prev)] + flat_forest(c.children@, c.children@.len() as int, at + 1, at)
    }
}

/// The nodes of a tree in preorder: the root has neither parent nor
/// previous sibling within the tree.
pub open spec fn flat_tree(t: TaskTreeInput) -> Seq<FlatNode> {
    seq![(t, None::<int>, None::<int>)] + flat_forest(t.children@, t.children@.len() as int, 1, 0)
}

/// The node describes a new task without an ID of its own: one is
/// generated for it.
pub open spec fn needs_fresh(t: TaskTreeInput) -> bool {
    t.ref_id is None && t.id is None
}

/// How many of the first `n` nodes get a generated ID.
pub open spec fn fresh_count(f: Seq<FlatNode>, n: int) -> nat
    decreases n,
{
    if n <= 0 {
        0
    } else {
        fresh_count(f, n - 1) + if needs_fresh(f[n - 1].0) { 1nat } else { 0nat }
    }
}

/// The ID of the node at position `i`: the task it refers to, the ID it
/// gives, or the next of the generated IDs `fresh`, taken in order.
pub open spec fn node_id(f: Seq<FlatNode>, fresh: Seq<Seq<char>>, i: int) -> Seq<char> {
    let t = f[i].0;
    match t.ref_id {
        Some(r) => r@,
        None => match t.id {
            Some(x) => x@,
            None => fresh[fresh_count(f, i) as int],
        },
    }
}

/// The IDs of the first `n` nodes.
pub open spec fn plan_ids(f: Seq<FlatNode>, fresh: Seq<Seq<char>>, n: int) -> Seq<Seq<char>> {
    Seq::new(n as nat, |i: int| node_id(f, fresh, i))
}

/// The task that the node at position `i` refers to exists when the node
/// is reached: it is among the `existing` tasks or was made by an earlier
/// node of the tree. A node without a reference passes.
pub open spec fn ref_found(f: Seq<FlatNode>, existing: Seq<Seq<char>>, fresh: Seq<Seq<char>>, i: int) -> bool {
    match f[i].0.ref_id {
        None => true,
        Some(r) => existing.contains(r@) || plan_ids(f, fresh, i).contains(r@),
    }
}

/// The first of the first `n` nodes whose referenced task does not exist.
pub open spec fn first_missing_ref(f: Seq<FlatNode>, existing: Seq<Seq<char>>, fresh: Seq<Seq<char>>, n: int) -> Option<int>
    decreases n,
{
    if n <= 0 {
        None
    } else {
        match first_missing_ref(f, existing, fresh, n - 1) {
            Some(k) => Some(k),
            None => if ref_found(f, existing, fresh, n - 1) { None } else { Some(n - 1) },
        }
    }
}

/// The error for a reference to a task that does not exist.
pub open spec fn missing_ref_message(r: Seq<char>) -> Seq<char> {
    "Referenced task '"@ + r + "' not found"@
}

/// The type of the dependency of a node on its previous sibling, if it
/// gets one: a `then` node follows it (with the tree's sibling type, or
/// `follows` when none is given), an `also` node runs beside it and gets
/// none, and any other node gets the tree's sibling type, if any.
pub open spec fn sibling_kind(join_mode: Option<String>, sibling_type: Option<Seq<char>>) -> Option<Seq<char>> {
    match join_mode {
        Some(m) => if m@ == "then"@ {
            match sibling_type {
                Some(st) => Some(st),
                None => Some("follows"@),
            }
        } else if m@ == "also"@ {
            None
        } else {
            sibling_type
        },
        None => sibling_type,
    }
}

/// The dependencies added for the node at position `i`: from its parent
/// (the given `parent_id` for the root) with `child_type`, then from its
/// previous sibling, with the type its join mode gives (see
/// `sibling_kind`).
pub open spec fn node_edges(
    f: Seq<FlatNode>,
    fresh: Seq<Seq<char>>,
    i: int,
    parent_id: Option<Seq<char>>,
    child_type: Seq<char>,
    sibling_type: Option<Seq<char>>,
) -> Seq<(Seq<char>, Seq<char>, Seq<char>)> {
    let me = node_id(f, fresh, i);
    let up = match f[i].1 {
        Some(p) => seq![(node_id(f, fresh, p), me, child_type)],
        None => match parent_id {
            Some(pid) => seq![(pid, me, child_type)],
            None => Seq::empty(),
        },
    };
    let side = match f[i].2 {
        Some(q) => match sibling_kind(f[i].0.join_mode, sibling_type) {
            Some(st) => seq![(node_id(f, fresh, q), me, st)],
            None => Seq::empty(),
        },
        None => Seq::empty(),
    };
    up + side
}

/// The dependencies added for the first `n` nodes, in order.
pub open spec fn plan_edges(
    f: Seq<FlatNode>,
    fresh: Seq<Seq<char>>,
    n: int,
    parent_id: Option<Seq<char>>,
    child_type: Seq<char>,
    sibling_type: Option<Seq<char>>,
) -> Seq<(Seq<char>, Seq<char>, Seq<char>)>
    decreases n,
{
    if n <= 0 {
        Seq::empty()
    } else {
        plan_edges(f, fresh, n - 1, parent_id, child_type, sibling_type)
            + node_edges(f, fresh, n - 1, parent_id, child_type, sibling_type)
    }
}

/// The positions, among the first `n`, of the nodes that describe a new
/// task.
pub open spec fn new_positions(f: Seq<FlatNode>, n: int) -> Seq<int>
    decreases n,
{
    if n <= 0 {
        Seq::empty()
    } else if f[n - 1].0.ref_id is None {
        new_positions(f, n - 1).push(n - 1)
    } else {
        new_positions(f, n - 1)
    }
}

/// The strings of an optional list, none when it is absent.
pub open spec fn or_empty(o: Option<Vec<String>>) -> Seq<String> {
    match o {
        Some(v) => v@,
        None => Seq::empty(),
    }
}

/// The title of the task planned for a node: the node's title, else the
/// title taken from its description, else empty.
pub open spec fn node_title(t: TaskTreeInput) -> Seq<char> {
    match t.title {
        Some(x) => x@,
        None => match t.description {
            Some(d) => truncated_title(d@),
            None => Seq::empty(),
        },
    }
}

/// The task planned for node `t` with ID `id`: in the initial state, with
/// the node's fields, its title (see `node_title`), its priority (the
/// default when it gives none) brought into range, and no tags where it
/// gives none.
pub open spec fn planned_for(p: PlannedTask, t: TaskTreeInput, id: Seq<char>, initial: Seq<char>) -> bool {
    &&& p.id@ == id
    &&& p.title@ == node_title(t)
    &&& p.description == t.description
    &&& p.status@ == initial
    &&& p.phase == t.phase
    &&& p.priority == clamped_priority(match t.priority {
        Some(x) => x as int,
        None => PRIORITY_DEFAULT as int,
    })
    &&& p.points == t.points
    &&& p.time_estimate_ms == t.time_estimate_ms
    &&& p.tags@ == or_empty(t.tags)
    &&& p.needed_tags@ == or_empty(t.needed_tags)
    &&& p.wanted_tags@ == or_empty(t.wanted_tags)
}

/// The views of dependency triples.
pub open spec fn edge_views(e: Seq<(String, String, String)>) -> Seq<(Seq<char>, Seq<char>, Seq<char>)> {
    e.map_values(|x: (String, String, String)| (x.0@, x.1@, x.2@))
}

/// The plan for the nodes `f` in preorder, given the generated IDs `fresh`:
/// the IDs, tasks and dependencies described above.
pub open spec fn plan_matches(
    p: TreePlan,
    f: Seq<FlatNode>,
    fresh: Seq<Seq<char>>,
    parent_id: Option<Seq<char>>,
    child_type: Seq<char>,
    sibling_type: Option<Seq<char>>,
    initial: Seq<char>,
) -> bool {
    let n = f.len() as int;
    let np = new_positions(f, n);
    &&& views(p.ids@) == plan_ids(f, fresh, n)
    &&& p.root_id@ == node_id(f, fresh, 0)
    &&& edge_views(p.edges@) == plan_edges(f, fresh, n, parent_id, child_type, sibling_type)
    &&& p.new_tasks@.len() == np.len()
    &&& forall|k: int| 0 <= k < np.len() ==>
        planned_for(#[trigger] p.new_tasks@[k], f[np[k]].0, node_id(f, fresh, np[k]), initial)
}

/// The outcome of creating the tree whose nodes are `f` in preorder, given
/// the generated IDs `fresh`: an error naming the first reference to a
/// task that does not exist, else the plan.
pub open spec fn tree_outcome(
    r: Result<TreePlan, String>,
    f: Seq<FlatNode>,
    existing: Seq<Seq<char>>,
    fresh: Seq<Seq<char>>,
    parent_id: Option<Seq<char>>,
    child_type: Seq<char>,
    sibling_type: Option<Seq<char>>,
    initial: Seq<char>,
) -> bool {
    match first_missing_ref(f, existing, fresh, f.len() as int) {
        Some(k) => r is Err && r->Err_0@ == missing_ref_message(f[k].0.ref_id->0@),
        None => r is Ok && plan_matches(r->Ok_0, f, fresh, parent_id, child_type, sibling_type, initial),
    }
}

/// In the preorder of a level of children, each node's parent is the
/// level's parent or a node placed before it on the level, and its previous
/// sibling, if any, is placed before it on the level.
proof fn lemma_flat_forest_links(cs: Seq<TaskTreeInput>, n: int, start: int, parent: int)
    requires
        0 <= parent < start,
    ensures
        forall|k: int| 0 <= k < flat_forest(cs, n, start, parent).len() ==> {
            let e = #[trigger] flat_forest(cs, n, start, parent)[k];
            &&& e.1 is Some
            &&& e.1->0 == parent || start <= e.1->0 < start + k
            &&& e.2 is Some ==> start <= e.2->0 < start + k
        },
    decreases cs, n,
{
    if n <= 0 || n > cs.len() {
    } else {
        let front = flat_forest(cs, n - 1, start, parent);
        let at = start + front.len();
        let c = cs[n - 1];
        let sub = flat_forest(c.children@, c.children@.len() as int, at + 1, at);
        lemma_flat_forest_links(cs, n - 1, start, parent);
        lemma_flat_forest_links(c.children@, c.children@.len() as int, at + 1, at);
        if n > 1 {
            let before = flat_forest(cs, n - 2, start, parent);
            assert(front.len() >= before.len() + 1);
        }
        let all = flat_forest(cs, n, start, parent);
        assert forall|k: int| 0 <= k < all.len() implies {
            let e = #[trigger] all[k];
            &&& e.1 is Some
            &&& e.1->0 == parent || start <= e.1->0 < start + k
            &&& e.2 is Some ==> start <= e.2->0 < start + k
        } by {
            if k < front.len() {
                assert(all[k] == front[k]);
            } else if k == front.len() {
            } else {
                assert(all[k] == sub[k - front.len() - 1]);
            }
        }
    }
}

/// In the preorder of a tree, each node's parent and previous sibling come
/// before it.
proof fn lemma_flat_tree_links(t: TaskTreeInput)
    ensures
        forall|k: int| 0 <= k < flat_tree(t).len() ==> {
            let e = #[trigger] flat_tree(t)[k];
            &&& e.1 is Some ==> 0 <= e.1->0 < k
            &&& e.2 is Some ==> 0 <= e.2->0 < k
        },
{
    let cs = t.children@;
    let sub = flat_forest(cs, cs.len() as int, 1, 0);
    lemma_flat_forest_links(cs, cs.len() as int, 1, 0);
    assert forall|k: int| 0 <= k < flat_tree(t).len() implies {
        let e = #[trigger] flat_tree(t)[k];
        &&& e.1 is Some ==> 0 <= e.1->0 < k
        &&& e.2 is Some ==> 0 <= e.2->0 < k
    } by {
        if k > 0 {
            assert(flat_tree(t)[k] == sub[k - 1]);
        }
    }
}

/// Counting generated IDs over more nodes never counts fewer.
proof fn lemma_fresh_count_grows(f: Seq<FlatNode>, i: int, j: int)
    requires
        i <= j,
    ensures
        fresh_count(f, i) <= fresh_count(f, j),
    decreases j - i,
{
    if i < j {
        lemma_fresh_count_grows(f, i, j - 1);
    }
}

/// Once a missing reference is found, it stays the first one.
proof fn lemma_first_missing_stays(f: Seq<FlatNode>, existing: Seq<Seq<char>>, fresh: Seq<Seq<char>>, n: int, m: int)
    requires
        n <= m,
        first_missing_ref(f, existing, fresh, n) is Some,
    ensures
        first_missing_ref(f, existing, fresh, m) == first_missing_ref(f, existing, fresh, n),
    decreases m - n,
{
    if n < m {
        lemma_first_missing_stays(f, existing, fresh, n, m - 1);
    }
}

/// When every referenced task is among the existing ones, no reference is
/// missing, whatever IDs are generated.
proof fn lemma_refs_exist(f: Seq<FlatNode>, existing: Seq<Seq<char>>, fresh: Seq<Seq<char>>, n: int)
    requires
        forall|i: int| 0 <= i < n && (#[trigger] f[i]).0.ref_id is Some ==> existing.contains(f[i].0.ref_id->0@),
    ensures
        first_missing_ref(f, existing, fresh, n) is None,
    decreases n,
{
    if n > 0 {
        lemma_refs_exist(f, existing, fresh, n - 1);
    }
}

/// A node of the tree in preorder, as the planner walks it.
struct FlatEntry<'a> {
    node: &'a TaskTreeInput,
    parent: Option<usize>,
    prev: Option<usize>,
}

/// A position as an integer.
pub open spec fn opt_pos(o: Option<usize>) -> Option<int> {
    match o {
        Some(x) => Some(x as int),
        None => None,
    }
}

/// What the walked nodes stand for.
spec fn flat_view(v: Seq<FlatEntry>) -> Seq<FlatNode> {
    v.map_values(|e: FlatEntry| (*e.node, opt_pos(e.parent), opt_pos(e.prev)))
}

/// Appends the preorder of the children `cs` of the node at position `at`.
fn flatten_children<'a>(cs: &'a Vec<TaskTreeInput>, at: usize, out: &mut Vec<FlatEntry<'a>>)
    ensures
        flat_view(final(out)@) == flat_view(old(out)@) + flat_forest(
            cs@,
            cs@.len() as int,
            old(out)@.len() as int,
            at as int,
        ),
    decreases cs@,
{
    let ghost start_out = out@;
    let ghost start = out@.len() as int;
    let mut prev: Option<usize> = None;
    let mut i: usize = 0;
    while i < cs.len()
        invariant
            i <= cs@.len(),
            start == start_out.len(),
            flat_view(out@) == flat_view(start_out) + flat_forest(cs@, i as int, start, at as int),
            i == 0 ==> prev is None,
            i > 0 ==> opt_pos(prev) == Some(start + flat_forest(cs@, i - 1, start, at as int).len()),
        decreases cs@.len() - i,
    {
        let ghost front = flat_forest(cs@, i as int, start, at as int);
        let child = &cs[i];
        let p = out.len();
        let ghost before = out@;
        out.push(FlatEntry { node: child, parent: Some(at), prev });
        proof {
            assert(flat_view(out@) =~= flat_view(before).push((*child, Some(at as int), opt_pos(prev))));
            assert(decreases_to!(cs@ => cs@[i as int]));
            assert(decreases_to!(cs@[i as int] => cs@[i as int].children));
            assert(decreases_to!(cs@[i as int].children => cs@[i as int].children@));
        }
        flatten_children(&child.children, p, out);
        proof {
            assert(p as int == start + front.len());
            assert(flat_forest(cs@, i + 1, start, at as int) == front + seq![(*child, Some(at as int), opt_pos(prev))]
                + flat_forest(child.children@, child.children@.len() as int, p + 1, p as int));
            assert(flat_view(out@) =~= flat_view(start_out) + flat_forest(cs@, i + 1, start, at as int));
        }
        prev = Some(p);
        i = i + 1;
    }
}

/// The nodes of the tree in preorder.
fn flatten<'a>(input: &'a TaskTreeInput) -> (r: Vec<FlatEntry<'a>>)
    ensures
        flat_view(r@) == flat_tree(*input),
{
    let mut out: Vec<FlatEntry<'a>> = Vec::new();
    out.push(FlatEntry { node: input, parent: None, prev: None });
    let ghost one = out@;
    flatten_children(&input.children, 0, &mut out);
    proof {
        assert(flat_view(one) =~= seq![(*input, None::<int>, None::<int>)]);
    }
    out
}

/// A copy of the strings.
fn copy_list(v: &Vec<String>) -> (r: Vec<String>)
    ensures
        r@ == v@,
{
    let mut out: Vec<String> = Vec::new();
    let mut i: usize = 0;
    while i < v.len()
        invariant
            i <= v@.len(),
            out@ == v@.take(i as int),
        decreases v@.len() - i,
    {
        out.push(v[i].clone());
        proof {
            assert(out@ =~= v@.take(i + 1));
        }
        i = i + 1;
    }
    proof {
        assert(v@.take(v@.len() as int) =~= v@);
    }
    out
}

/// A copy of an optional list, or no strings when it is absent.
fn list_or_empty(o: &Option<Vec<String>>) -> (r: Vec<String>)
    ensures
        r@ == or_empty(*o),
{
    match o {
        Some(v) => copy_list(v),
        None => Vec::new(),
    }
}

/// A copy of an optional string.
fn copy_text(o: &Option<String>) -> (r: Option<String>)
    ensures
        r == *o,
{
    match o {
        Some(s) => Some(s.clone()),
        None => None,
    }
}

/// The view of an optional string slice.
pub open spec fn opt_text(o: Option<&str>) -> Option<Seq<char>> {
    match o {
        Some(s) => Some(s@),
        None => None,
    }
}

/// The type of a node's dependency on its previous sibling (see
/// `sibling_kind`).
fn sibling_dep_type(join_mode: &Option<String>, sibling_type: Option<&str>) -> (r: Option<String>)
    ensures
        opt_view(r) == sibling_kind(*join_mode, opt_text(sibling_type)),
{
    let given: Option<String> = match sibling_type {
        Some(st) => Some(string_of(st)),
        None => None,
    };
    match join_mode {
        Some(m) => if str_eq(m.as_str(), "then") {
            match given {
                Some(st) => Some(st),
                None => Some(string_of("follows")),
            }
        } else if str_eq(m.as_str(), "also") {
            None
        } else {
            given
        },
        None => given,
    }
}

/// The title of the task planned for a node (see `node_title`).
fn title_of(t: &TaskTreeInput) -> (r: String)
    ensures
        r@ == node_title(*t),
{
    match &t.title {
        Some(x) => x.clone(),
        None => match &t.description {
            Some(d) => truncate_title(d.as_str()),
            None => String::new(),
        },
    }
}

/// Pushing a triple pushes its view.
proof fn lemma_edge_views_push(e: Seq<(String, String, String)>, x: (String, String, String))
    ensures
        edge_views(e.push(x)) == edge_views(e).push((x.0@, x.1@, x.2@)),
{
    assert(edge_views(e.push(x)) =~= edge_views(e).push((x.0@, x.1@, x.2@)));
}

/// Plan the creation of the tree `input` under the task `parent_id`, if
/// one is given, with the IDs `fresh` for the nodes that neither refer to a
/// task nor give an ID, taken in preorder.
///
/// Nodes are taken in preorder. A node that refers to a task keeps that
/// task's ID, and the task must exist, among `existing_refs` or made by an
/// earlier node; otherwise the plan fails with
/// `Referenced task '<id>' not found` for the first such node. Any other
/// node becomes a new task in state `initial`. Each node depends on its
/// parent (the root on `parent_id`) with `child_type`, and, when
/// `sibling_type` is given, on its previous sibling with that type.
pub fn plan_task_tree_with(
    input: &TaskTreeInput,
    parent_id: Option<&str>,
    child_type: &str,
    sibling_type: Option<&str>,
    existing_refs: &Vec<String>,
    fresh: &Vec<String>,
    initial: &str,
) -> (r: Result<TreePlan, String>)
    requires
        fresh@.len() >= fresh_count(flat_tree(*input), flat_tree(*input).len() as int),
    ensures
        tree_outcome(
            r,
            flat_tree(*input),
            views(existing_refs@),
            views(fresh@),
            opt_text(parent_id),
            child_type@,
            opt_text(sibling_type),
            initial@,
        ),
{
    let flat = flatten(input);
    let ghost f = flat_tree(*input);
    let ghost fv = views(fresh@);
    let ghost ev = views(existing_refs@);
    let ghost pid = opt_text(parent_id);
    let ghost st = opt_text(sibling_type);
    proof {
        lemma_flat_tree_links(*input);
    }
    let n = flat.len();
    let fresh_len = fresh.len();
    let mut ids: Vec<String> = Vec::new();
    let mut new_tasks: Vec<PlannedTask> = Vec::new();
    let mut edges: Vec<(String, String, String)> = Vec::new();
    let mut used: usize = 0;
    let mut i: usize = 0;
    while i < n
        invariant
            n == flat@.len(),
            fresh_len == fresh@.len(),
            flat_view(flat@) == f,
            f == flat_tree(*input),
            fv == views(fresh@),
            ev == views(existing_refs@),
            pid == opt_text(parent_id),
            st == opt_text(sibling_type),
            i <= n,
            fresh_count(f, n as int) <= fresh@.len(),
            used == fresh_count(f, i as int),
            views(ids@) == plan_ids(f, fv, i as int),
            first_missing_ref(f, ev, fv, i as int) is None,
            edge_views(edges@) == plan_edges(f, fv, i as int, pid, child_type@, st),
            new_tasks@.len() == new_positions(f, i as int).len(),
            forall|k: int| 0 <= k < new_positions(f, i as int).len() ==>
                planned_for(#[trigger] new_tasks@[k], f[new_positions(f, i as int)[k]].0,
                    node_id(f, fv, new_positions(f, i as int)[k]), initial@),
            forall|k: int| 0 <= k < f.len() ==> {
                let e = #[trigger] f[k];
                &&& e.1 is Some ==> 0 <= e.1->0 < k
                &&& e.2 is Some ==> 0 <= e.2->0 < k
            },
        decreases n - i,
    {
        let e = &flat[i];
        let node = e.node;
        proof {
            assert(f[i as int] == (*node, opt_pos(e.parent), opt_pos(e.prev)));
            assert(views(ids@).len() == i);
        }
        let id: String = match &node.ref_id {
            Some(r) => {
                let known = contains_string(existing_refs, r.as_str());
                let earlier = contains_string(&ids, r.as_str());
                proof {
                    if known {
                        let k = choose|k: int| 0 <= k < existing_refs@.len() && existing_refs@[k]@ == r@;
                        assert(ev[k] == r@);
                    }
                    if earlier {
                        let k = choose|k: int| 0 <= k < ids@.len() && ids@[k]@ == r@;
                        assert(plan_ids(f, fv, i as int)[k] == r@);
                    }
                    if ev.contains(r@) {
                        let k = choose|k: int| 0 <= k < ev.len() && ev[k] == r@;
                        assert(existing_refs@[k]@ == r@);
                    }
                    if plan_ids(f, fv, i as int).contains(r@) {
                        let k = choose|k: int| 0 <= k < i && plan_ids(f, fv, i as int)[k] == r@;
                        assert(views(ids@)[k] == r@);
                    }
                }
                if !(known || earlier) {
                    let mut m = string_of("Referenced task '");
                    m.append(r.as_str());
                    m.append("' not found");
                    proof {
                        reveal_strlit("Referenced task '");
                        reveal_strlit("' not found");
                        assert(!ref_found(f, ev, fv, i as int));
                        assert(first_missing_ref(f, ev, fv, i + 1) == Some(i as int));
                        lemma_first_missing_stays(f, ev, fv, i + 1, n as int);
                    }
                    return Err(m);
                }
                r.clone()
            },
            None => match &node.id {
                Some(x) => x.clone(),
                None => {
                    proof {
                        lemma_fresh_count_grows(f, i + 1, n as int);
                        assert(needs_fresh(f[i as int].0));
                        assert(fresh_count(f, i + 1) == used + 1);
                    }
                    let x = fresh[used].clone();
                    used = used + 1;
                    x
                },
            },
        };
        proof {
            assert(id@ == node_id(f, fv, i as int));
            assert(ref_found(f, ev, fv, i as int));
        }
        let ghost edges0 = edges@;
        match e.parent {
            Some(p) => {
                let x = (ids[p].clone(), id.clone(), string_of(child_type));
                proof {
                    lemma_edge_views_push(edges@, x);
                    assert(views(ids@)[p as int] == node_id(f, fv, p as int));
                }
                edges.push(x);
            },
            None => match parent_id {
                Some(pt) => {
                    let x = (string_of(pt), id.clone(), string_of(child_type));
                    proof {
                        lemma_edge_views_push(edges@, x);
                    }
                    edges.push(x);
                },
                None => {},
            },
        }
        let ghost edges1 = edges@;
        match e.prev {
            Some(q) => match sibling_dep_type(&node.join_mode, sibling_type) {
                Some(sl) => {
                    let x = (ids[q].clone(), id.clone(), sl);
                    proof {
                        lemma_edge_views_push(edges@, x);
                        assert(views(ids@)[q as int] == node_id(f, fv, q as int));
                    }
                    edges.push(x);
                },
                None => {},
            },
            None => {},
        }
        proof {
            let ne = node_edges(f, fv, i as int, pid, child_type@, st);
            assert(edge_views(edges@) =~= edge_views(edges0) + ne);
        }
        let ghost tasks0 = new_tasks@;
        if node.ref_id.is_none() {
            let t = PlannedTask {
                id: id.clone(),
                title: title_of(node),
                description: copy_text(&node.description),
                status: string_of(initial),
                phase: copy_text(&node.phase),
                priority: clamp_priority(match node.priority {
                    Some(x) => x,
                    None => PRIORITY_DEFAULT,
                }),
                points: node.points,
                time_estimate_ms: node.time_estimate_ms,
                tags: list_or_empty(&node.tags),
                needed_tags: list_or_empty(&node.needed_tags),
                wanted_tags: list_or_empty(&node.wanted_tags),
            };
            new_tasks.push(t);
        }
        proof {
            let np = new_positions(f, i + 1);
            assert forall|k: int| 0 <= k < np.len() implies
                planned_for(#[trigger] new_tasks@[k], f[np[k]].0, node_id(f, fv, np[k]), initial@) by {
                if k < new_positions(f, i as int).len() {
                    assert(new_tasks@[k] == tasks0[k]);
                }
            }
        }
        let ghost ids0 = ids@;
        ids.push(id);
        proof {
            lemma_views_push(ids0, id);
            assert(views(ids@) =~= plan_ids(f, fv, i + 1));
        }
        i = i + 1;
    }
    let root_id = ids[0].clone();
    proof {
        assert(views(ids@)[0] == node_id(f, fv, 0));
    }
    Ok(TreePlan { root_id, ids, new_tasks, edges })
}

/// The generated IDs: `count` of them, each non-empty and, for a positive
/// word count, made of that many words joined by hyphens.
pub open spec fn fresh_ids_ok(fresh: Seq<Seq<char>>, count: nat, words: u8) -> bool {
    &&& fresh.len() == count
    &&& forall|i: int| 0 <= i < fresh.len() ==> (#[trigger] fresh[i]).len() > 0 && (words > 0 ==> petname_shape(fresh[i], words))
}

/// Every node of the tree that refers to a task refers to one of `existing`.
pub open spec fn refs_all_exist(f: Seq<FlatNode>, existing: Seq<Seq<char>>) -> bool {
    forall|i: int| 0 <= i < f.len() && (#[trigger] f[i]).0.ref_id is Some ==> existing.contains(f[i].0.ref_id->0@)
}

/// Plan the creation of the tree `input` under the task `parent_id`, if
/// one is given, generating a task ID (see `generate_task_id`) for each
/// node that neither refers to a task nor gives an ID.
///
/// The plan is the one `plan_task_tree_with` makes from the generated IDs.
/// Which IDs are drawn is left to chance; when every referenced task is
/// among `existing_refs`, the plan succeeds whatever they are.
pub fn plan_task_tree(
    input: &TaskTreeInput,
    parent_id: Option<&str>,
    child_type: &str,
    sibling_type: Option<&str>,
    existing_refs: &Vec<String>,
    ids_config: &IdsConfig,
    initial: &str,
) -> (r: Result<TreePlan, String>)
    ensures
        exists|fresh: Seq<Seq<char>>|
            fresh_ids_ok(fresh, fresh_count(flat_tree(*input), flat_tree(*input).len() as int), ids_config.task_id_words)
            && #[trigger] tree_outcome(
                r,
                flat_tree(*input),
                views(existing_refs@),
                fresh,
                opt_text(parent_id),
                child_type@,
                opt_text(sibling_type),
                initial@,
            ),
        refs_all_exist(flat_tree(*input), views(existing_refs@)) ==> r is Ok,
{
    let flat = flatten(input);
    let ghost f = flat_tree(*input);
    let n = flat.len();
    let mut count: usize = 0;
    let mut i: usize = 0;
    while i < n
        invariant
            n == flat@.len(),
            flat_view(flat@) == f,
            i <= n,
            count <= i,
            count == fresh_count(f, i as int),
        decreases n - i,
    {
        let node = flat[i].node;
        proof {
            assert(f[i as int].0 == *node);
        }
        if node.ref_id.is_none() && node.id.is_none() {
            count = count + 1;
        }
        i = i + 1;
    }
    let mut fresh: Vec<String> = Vec::new();
    let mut j: usize = 0;
    while j < count
        invariant
            j <= count,
            fresh@.len() == j,
            forall|k: int| 0 <= k < j ==> (#[trigger] fresh@[k])@.len() > 0
                && (ids_config.task_id_words > 0 ==> petname_shape(fresh@[k]@, ids_config.task_id_words)),
        decreases count - j,
    {
        let id = generate_task_id(ids_config);
        fresh.push(id);
        j = j + 1;
    }
    let r = plan_task_tree_with(input, parent_id, child_type, sibling_type, existing_refs, &fresh, initial);
    proof {
        let fv = views(fresh@);
        assert(fresh_ids_ok(fv, fresh_count(f, f.len() as int), ids_config.task_id_words));
        if refs_all_exist(f, views(existing_refs@)) {
            lemma_refs_exist(f, views(existing_refs@), fv, f.len() as int);
        }
    }
    r
}

/// The dependencies of the first `n` nodes hold those of each of them.
proof fn lemma_plan_edges_hold(
    f: Seq<FlatNode>,
    fresh: Seq<Seq<char>>,
    n: int,
    parent_id: Option<Seq<char>>,
    child_type: Seq<char>,
    sibling_type: Option<Seq<char>>,
    k: int,
    x: (Seq<char>, Seq<char>, Seq<char>),
)
    requires
        0 <= k < n,
        node_edges(f, fresh, k, parent_id, child_type, sibling_type).contains(x),
    ensures
        plan_edges(f, fresh, n, parent_id, child_type, sibling_type).contains(x),
    decreases n,
{
    let front = plan_edges(f, fresh, n - 1, parent_id, child_type, sibling_type);
    let last = node_edges(f, fresh, n - 1, parent_id, child_type, sibling_type);
    if k < n - 1 {
        lemma_plan_edges_hold(f, fresh, n - 1, parent_id, child_type, sibling_type, k, x);
        let j = choose|j: int| 0 <= j < front.len() && front[j] == x;
        assert((front + last)[j] == x);
    } else {
        let j = choose|j: int| 0 <= j < last.len() && last[j] == x;
        assert((front + last)[front.len() + j] == x);
    }
}

/// A node with a parent in the tree depends on it with the child type.
proof fn lemma_parent_edge(
    f: Seq<FlatNode>,
    fresh: Seq<Seq<char>>,
    parent_id: Option<Seq<char>>,
    child_type: Seq<char>,
    sibling_type: Option<Seq<char>>,
    k: int,
)
    requires
        0 <= k < f.len(),
        f[k].1 is Some,
    ensures
        plan_edges(f, fresh, f.len() as int, parent_id, child_type, sibling_type).contains(
            (node_id(f, fresh, f[k].1->0), node_id(f, fresh, k), child_type)),
{
    let ne = node_edges(f, fresh, k, parent_id, child_type, sibling_type);
    let x = (node_id(f, fresh, f[k].1->0), node_id(f, fresh, k), child_type);
    assert(ne[0] == x);
    lemma_plan_edges_hold(f, fresh, f.len() as int, parent_id, child_type, sibling_type, k, x);
}

/// A node with a previous sibling depends on it with the type its join
/// mode gives, when it gives one.
proof fn lemma_sibling_edge(
    f: Seq<FlatNode>,
    fresh: Seq<Seq<char>>,
    parent_id: Option<Seq<char>>,
    child_type: Seq<char>,
    sibling_type: Option<Seq<char>>,
    k: int,
)
    requires
        0 <= k < f.len(),
        f[k].2 is Some,
        sibling_kind(f[k].0.join_mode, sibling_type) is Some,
    ensures
        plan_edges(f, fresh, f.len() as int, parent_id, child_type, sibling_type).contains(
            (node_id(f, fresh, f[k].2->0), node_id(f, fresh, k), sibling_kind(f[k].0.join_mode, sibling_type)->0)),
{
    let ne = node_edges(f, fresh, k, parent_id, child_type, sibling_type);
    let x = (node_id(f, fresh, f[k].2->0), node_id(f, fresh, k), sibling_kind(f[k].0.join_mode, sibling_type)->0);
    assert(ne[ne.len() - 1] == x);
    lemma_plan_edges_hold(f, fresh, f.len() as int, parent_id, child_type, sibling_type, k, x);
}

/// Every node of a tree but the root depends on its parent with the child
/// type.
pub proof fn lemma_join_parents(
    input: TaskTreeInput,
    fresh: Seq<Seq<char>>,
    parent_id: Option<Seq<char>>,
    child_type: Seq<char>,
    sibling_type: Option<Seq<char>>,
)
    ensures
        forall|k: int| 1 <= k < flat_tree(input).len() ==> (#[trigger] flat_tree(input)[k]).1 is Some
            && plan_edges(flat_tree(input), fresh, flat_tree(input).len() as int, parent_id, child_type, sibling_type).contains(
                (node_id(flat_tree(input), fresh, flat_tree(input)[k].1->0), node_id(flat_tree(input), fresh, k), child_type)),
{
    let f = flat_tree(input);
    let n = f.len() as int;
    let cs = input.children@;
    let sub = flat_forest(cs, cs.len() as int, 1, 0);
    lemma_flat_forest_links(cs, cs.len() as int, 1, 0);
    assert forall|k: int| 1 <= k < n implies (#[trigger] f[k]).1 is Some
        && plan_edges(f, fresh, n, parent_id, child_type, sibling_type).contains(
            (node_id(f, fresh, f[k].1->0), node_id(f, fresh, k), child_type)) by {
        assert(f[k] == sub[k - 1]);
        lemma_parent_edge(f, fresh, parent_id, child_type, sibling_type, k);
    }
}

/// Join mode `then`: a node of a tree that has a previous sibling depends
/// on it, with the sibling type, or `follows` when none is given.
pub proof fn lemma_join_then(
    input: TaskTreeInput,
    fresh: Seq<Seq<char>>,
    parent_id: Option<Seq<char>>,
    child_type: Seq<char>,
    sibling_type: Option<Seq<char>>,
)
    ensures
        forall|k: int| 0 <= k < flat_tree(input).len() && (#[trigger] flat_tree(input)[k]).2 is Some
            && flat_tree(input)[k].0.join_mode is Some && flat_tree(input)[k].0.join_mode->0@ == "then"@
            ==> plan_edges(flat_tree(input), fresh, flat_tree(input).len() as int, parent_id, child_type, sibling_type).contains(
                (node_id(flat_tree(input), fresh, flat_tree(input)[k].2->0), node_id(flat_tree(input), fresh, k),
                match sibling_type {
                    Some(st) => st,
                    None => "follows"@,
                })),
{
    let f = flat_tree(input);
    assert forall|k: int| 0 <= k < f.len() && (#[trigger] f[k]).2 is Some && f[k].0.join_mode is Some
        && f[k].0.join_mode->0@ == "then"@ implies plan_edges(f, fresh, f.len() as int, parent_id, child_type, sibling_type).contains(
            (node_id(f, fresh, f[k].2->0), node_id(f, fresh, k), match sibling_type {
                Some(st) => st,
                None => "follows"@,
            })) by {
        lemma_sibling_edge(f, fresh, parent_id, child_type, sibling_type, k);
    }
}

/// Join mode `also`: a node of a tree other than the root runs beside its
/// previous sibling; the one dependency it gets is from its parent.
pub proof fn lemma_join_also(
    input: TaskTreeInput,
    fresh: Seq<Seq<char>>,
    parent_id: Option<Seq<char>>,
    child_type: Seq<char>,
    sibling_type: Option<Seq<char>>,
)
    ensures
        forall|k: int| 1 <= k < flat_tree(input).len() && (#[trigger] flat_tree(input)[k]).0.join_mode is Some
            && flat_tree(input)[k].0.join_mode->0@ == "also"@
            ==> node_edges(flat_tree(input), fresh, k, parent_id, child_type, sibling_type)
                == seq![(node_id(flat_tree(input), fresh, flat_tree(input)[k].1->0), node_id(flat_tree(input), fresh, k), child_type)],
{
    let f = flat_tree(input);
    let n = f.len() as int;
    let cs = input.children@;
    let sub = flat_forest(cs, cs.len() as int, 1, 0);
    lemma_flat_forest_links(cs, cs.len() as int, 1, 0);
    reveal_strlit("then");
    reveal_strlit("also");
    assert("then"@ != "also"@) by {
        assert("then"@[0] != "also"@[0]);
    }
    assert forall|k: int| 1 <= k < n && (#[trigger] f[k]).0.join_mode is Some && f[k].0.join_mode->0@ == "also"@
        implies node_edges(f, fresh, k, parent_id, child_type, sibling_type)
            == seq![(node_id(f, fresh, f[k].1->0), node_id(f, fresh, k), child_type)] by {
        assert(f[k] == sub[k - 1]);
        let ne = node_edges(f, fresh, k, parent_id, child_type, sibling_type);
        assert(ne =~= seq![(node_id(f, fresh, f[k].1->0), node_id(f, fresh, k), child_type)]);
    }
}

/// `Task '<id><tail><warning>` for each warning.
pub open spec fn prefixed(id: Seq<char>, tail: Seq<char>, ws: Seq<Seq<char>>) -> Seq<Seq<char>> {
    ws.map_values(|w: Seq<char>| "Task '"@ + id + tail + w)
}

/// The phase warnings of the first `n` planned tasks: for each task that
/// has a phase, what the phase check said of it, if anything.
pub open spec fn phase_warnings_of(ts: Seq<PlannedTask>, checks: Seq<Option<String>>, n: int) -> Seq<Seq<char>>
    decreases n,
{
    if n <= 0 {
        Seq::empty()
    } else {
        let t = ts[n - 1];
        phase_warnings_of(ts, checks, n - 1) + if t.phase is Some && checks[n - 1] is Some {
            seq!["Task '"@ + t.id@ + "': "@ + checks[n - 1]->0@]
        } else {
            Seq::empty()
        }
    }
}

/// The tag warnings of the first `n` planned tasks: for each, what the tag
/// check said of its tags, then of its needed tags, then of its wanted
/// tags.
pub open spec fn tag_warnings_of(
    ts: Seq<PlannedTask>,
    tags: Seq<Vec<String>>,
    needed: Seq<Vec<String>>,
    wanted: Seq<Vec<String>>,
    n: int,
) -> Seq<Seq<char>>
    decreases n,
{
    if n <= 0 {
        Seq::empty()
    } else {
        let id = ts[n - 1].id@;
        tag_warnings_of(ts, tags, needed, wanted, n - 1)
            + prefixed(id, "': "@, views(tags[n - 1]@))
            + prefixed(id, "' needed_tags: "@, views(needed[n - 1]@))
            + prefixed(id, "' wanted_tags: "@, views(wanted[n - 1]@))
    }
}

/// Appends `Task '<id><tail><warning>` for each warning.
fn push_prefixed(out: &mut Vec<String>, id: &str, tail: &str, ws: &Vec<String>)
    ensures
        views(final(out)@) == views(old(out)@) + prefixed(id@, tail@, views(ws@)),
{
    let ghost start = views(out@);
    let mut i: usize = 0;
    while i < ws.len()
        invariant
            i <= ws@.len(),
            views(out@) == start + prefixed(id@, tail@, views(ws@).take(i as int)),
        decreases ws@.len() - i,
    {
        let mut m = string_of("Task '");
        m.append(id);
        m.append(tail);
        m.append(ws[i].as_str());
        proof {
            reveal_strlit("Task '");
            lemma_views_push(out@, m);
            assert(views(ws@).take(i + 1) =~= views(ws@).take(i as int).push(ws@[i as int]@));
            assert(prefixed(id@, tail@, views(ws@).take(i + 1)) =~= prefixed(id@, tail@, views(ws@).take(i as int)).push(m@));
        }
        out.push(m);
        i = i + 1;
    }
    proof {
        assert(views(ws@).take(ws@.len() as int) =~= views(ws@));
    }
}

/// The warnings of creating a tree, as phase warnings and tag warnings, in
/// the order of the plan's new tasks. For the `k`-th new task,
/// `phase_checks[k]` is what the configured phases say of its phase (read
/// only when it has one), and `tag_checks[k]`, `needed_checks[k]` and
/// `wanted_checks[k]` what the configured tags say of its tags, needed tags
/// and wanted tags.
pub fn tree_warnings(
    plan: &TreePlan,
    phase_checks: &Vec<Option<String>>,
    tag_checks: &Vec<Vec<String>>,
    needed_checks: &Vec<Vec<String>>,
    wanted_checks: &Vec<Vec<String>>,
) -> (r: (Vec<String>, Vec<String>))
    requires
        phase_checks@.len() == plan.new_tasks@.len(),
        tag_checks@.len() == plan.new_tasks@.len(),
        needed_checks@.len() == plan.new_tasks@.len(),
        wanted_checks@.len() == plan.new_tasks@.len(),
    ensures
        views(r.0@) == phase_warnings_of(plan.new_tasks@, phase_checks@, plan.new_tasks@.len() as int),
        views(r.1@) == tag_warnings_of(plan.new_tasks@, tag_checks@, needed_checks@, wanted_checks@, plan.new_tasks@.len() as int),
{
    let ts = &plan.new_tasks;
    let mut phase: Vec<String> = Vec::new();
    let mut tags: Vec<String> = Vec::new();
    let mut k: usize = 0;
    while k < ts.len()
        invariant
            k <= ts@.len(),
            ts@ == plan.new_tasks@,
            phase_checks@.len() == ts@.len(),
            tag_checks@.len() == ts@.len(),
            needed_checks@.len() == ts@.len(),
            wanted_checks@.len() == ts@.len(),
            views(phase@) == phase_warnings_of(ts@, phase_checks@, k as int),
            views(tags@) == tag_warnings_of(ts@, tag_checks@, needed_checks@, wanted_checks@, k as int),
        decreases ts@.len() - k,
    {
        let t = &ts[k];
        let ghost phase0 = views(phase@);
        match (&t.phase, &phase_checks[k]) {
            (Some(_), Some(w)) => {
                let mut m = string_of("Task '");
                m.append(t.id.as_str());
                m.append("': ");
                m.append(w.as_str());
                proof {
                    reveal_strlit("Task '");
                    reveal_strlit("': ");
                    lemma_views_push(phase@, m);
                }
                phase.push(m);
            },
            _ => {},
        }
        proof {
            assert(views(phase@) =~= phase_warnings_of(ts@, phase_checks@, k + 1));
        }
        let ghost tags0 = views(tags@);
        push_prefixed(&mut tags, t.id.as_str(), "': ", &tag_checks[k]);
        push_prefixed(&mut tags, t.id.as_str(), "' needed_tags: ", &needed_checks[k]);
        push_prefixed(&mut tags, t.id.as_str(), "' wanted_tags: ", &wanted_checks[k]);
        proof {
            reveal_strlit("': ");
            reveal_strlit("' needed_tags: ");
            reveal_strlit("' wanted_tags: ");
            assert(views(tags@) =~= tag_warnings_of(ts@, tag_checks@, needed_checks@, wanted_checks@, k + 1));
        }
        k = k + 1;
    }
    (phase, tags)
}

} // verus!
