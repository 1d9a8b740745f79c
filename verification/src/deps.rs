//! Dependencies: the checks run before a dependency is added, the
//! ordering of dependency listings, and which waiting tasks advance when a
//! blocker is done.

use vstd::prelude::*;
use crate::text::{str_eq, string_of, views};
use crate::types::{StatesConfig, valid_state, valid_transition};
use crate::tasks::opt_str_view;
use crate::task_update::{debug_list_of, debug_strings};

verus! {

/// The column a dependency listing is sorted by; priority sorts high,
/// medium, then the rest.
pub open spec fn dep_order_field(sort_by: Option<Seq<char>>) -> Seq<char> {
    match sort_by {
        Some(s) => if s == "priority"@ {
            "CASE t.priority WHEN 'high' THEN 0 WHEN 'medium' THEN 1 ELSE 2 END"@
        } else if s == "updated_at"@ {
            "t.updated_at"@
        } else {
            "t.created_at"@
        },
        None => "t.created_at"@,
    }
}

/// The sort direction: as asked for, else ascending for priority and
/// descending for dates.
pub open spec fn dep_order_direction(sort_by: Option<Seq<char>>, sort_order: Option<Seq<char>>) -> Seq<char> {
    if sort_order == Some("asc"@) {
        "ASC"@
    } else if sort_order == Some("desc"@) {
        "DESC"@
    } else if sort_by == Some("priority"@) {
        "ASC"@
    } else {
        "DESC"@
    }
}

/// Build an ORDER BY clause for dependency listings: `<column> <direction>`.
pub fn build_order_clause(sort_by: Option<&str>, sort_order: Option<&str>) -> (r: String)
    ensures
        r@ == dep_order_field(opt_str_view(sort_by)) + " "@
            + dep_order_direction(opt_str_view(sort_by), opt_str_view(sort_order)),
{
    proof {
        reveal_strlit("priority");
        reveal_strlit("created_at");
        reveal_strlit("updated_at");
        reveal_strlit("asc");
        reveal_strlit("desc");
        assert("created_at"@[0] != "updated_at"@[0]);
        assert("created_at"@.len() != "priority"@.len());
        assert("updated_at"@.len() != "priority"@.len());
        assert("asc"@.len() != "desc"@.len());
    }
    let by_priority = match sort_by {
        Some(s) => str_eq(s, "priority"),
        None => false,
    };
    let field: &str = match sort_by {
        Some(s) => if str_eq(s, "priority") {
            "CASE t.priority WHEN 'high' THEN 0 WHEN 'medium' THEN 1 ELSE 2 END"
        } else if str_eq(s, "created_at") {
            "t.created_at"
        } else if str_eq(s, "updated_at") {
            "t.updated_at"
        } else {
            "t.created_at"
        },
        None => "t.created_at",
    };
    let order: &str = match sort_order {
        Some(o) => if str_eq(o, "asc") {
            "ASC"
        } else if str_eq(o, "desc") {
            "DESC"
        } else if by_priority {
            "ASC"
        } else {
            "DESC"
        },
        None => if by_priority { "ASC" } else { "DESC" },
    };
    let mut r = string_of(field);
    r.append(" ");
    r.append(order);
    r
}

/// `(a, b)` is one of the edges.
pub open spec fn has_edge(edges: Seq<(String, String)>, a: Seq<char>, b: Seq<char>) -> bool {
    exists|i: int| 0 <= i < edges.len() && edges[i].0@ == a && edges[i].1@ == b
}

/// Node `i` of `ns` is joined to node `i + 1` by an edge.
pub open spec fn walk_step(edges: Seq<(String, String)>, ns: Seq<Seq<char>>, i: int) -> bool {
    has_edge(edges, ns[i], ns[i + 1])
}

/// `ns` is a walk along the edges: consecutive nodes are joined by an edge.
pub open spec fn is_walk(edges: Seq<(String, String)>, ns: Seq<Seq<char>>) -> bool {
    &&& ns.len() >= 1
    &&& forall|i: int| 0 <= i < ns.len() - 1 ==> #[trigger] walk_step(edges, ns, i)
}

/// Following the edges leads from `a` to `b` (in zero or more steps).
pub open spec fn reaches(edges: Seq<(String, String)>, a: Seq<char>, b: Seq<char>) -> bool {
    exists|ns: Seq<Seq<char>>| #[trigger] is_walk(edges, ns) && ns[0] == a && ns.last() == b
}

/// A walk that starts in a set closed under the edges stays in it.
proof fn lemma_closed_walk(edges: Seq<(String, String)>, ns: Seq<Seq<char>>, s: Set<Seq<char>>, k: int)
    requires
        is_walk(edges, ns),
        s.contains(ns[0]),
        forall|a: Seq<char>, b: Seq<char>| s.contains(a) && has_edge(edges, a, b) ==> s.contains(b),
        0 <= k < ns.len(),
    ensures
        s.contains(ns[k]),
    decreases k,
{
    if k > 0 {
        lemma_closed_walk(edges, ns, s, k - 1);
        assert(walk_step(edges, ns, k - 1));
    }
}

/// A walk extended by one more edge.
proof fn lemma_walk_extend(edges: Seq<(String, String)>, ns: Seq<Seq<char>>, b: Seq<char>)
    requires
        is_walk(edges, ns),
        has_edge(edges, ns.last(), b),
    ensures
        is_walk(edges, ns.push(b)),
        ns.push(b)[0] == ns[0],
        ns.push(b).last() == b,
{
    let m = ns.push(b);
    assert forall|i: int| 0 <= i < m.len() - 1 implies #[trigger] walk_step(edges, m, i) by {
        if i < ns.len() - 1 {
            assert(m[i] == ns[i] && m[i + 1] == ns[i + 1]);
            assert(walk_step(edges, ns, i));
        } else {
            assert(m[i] == ns.last());
        }
    }
}

/// The number of edges not yet followed.
spec fn unused(used: Seq<bool>) -> nat
    decreases used.len(),
{
    if used.len() == 0 {
        0
    } else {
        unused(used.drop_last()) + if used.last() { 0nat } else { 1nat }
    }
}

proof fn lemma_unused_mark(used: Seq<bool>, i: int)
    requires
        0 <= i < used.len(),
        !used[i],
    ensures
        unused(used.update(i, true)) + 1 == unused(used),
    decreases used.len(),
{
    if i == used.len() - 1 {
        assert(used.update(i, true).drop_last() =~= used.drop_last());
    } else {
        lemma_unused_mark(used.drop_last(), i);
        assert(used.update(i, true).drop_last() =~= used.drop_last().update(i, true));
    }
}

/// Whether adding a dependency from `from` to `to` would close a cycle:
/// whether `to` already leads to `from` along the given edges (each a
/// dependency `(from_task_id, to_task_id)` of the relevant kinds). A task
/// depending on itself is a cycle too.
pub fn would_create_cycle(edges: &Vec<(String, String)>, from: &str, to: &str) -> (r: bool)
    ensures
        r == reaches(edges@, to@, from@),
{
    let ghost es = edges@;
    let mut used: Vec<bool> = Vec::new();
    let mut u: usize = 0;
    while u < edges.len()
        invariant
            u <= edges@.len(),
            used@.len() == u,
            forall|k: int| 0 <= k < u ==> !used@[k],
        decreases edges@.len() - u,
    {
        used.push(false);
        u = u + 1;
    }
    let mut stack: Vec<String> = Vec::new();
    stack.push(string_of(to));
    let mut done: Vec<String> = Vec::new();
    proof {
        assert(is_walk(es, seq![to@]));
        assert(stack@[0]@ == to@);
    }
    while stack.len() > 0
        invariant
            es == edges@,
            used@.len() == es.len(),
            // everything met so far is reached from `to`
            forall|k: int| 0 <= k < stack@.len() ==> reaches(es, to@, (#[trigger] stack@[k])@),
            forall|k: int| 0 <= k < done@.len() ==> reaches(es, to@, (#[trigger] done@[k])@),
            // `to` was met, `from` not yet
            listed_in(stack@, to@) || listed_in(done@, to@),
            !listed_in(done@, from@),
            // every edge of a finished node was followed, and every followed
            // edge leads to a node met
            forall|k: int, i: int| 0 <= k < done@.len() && 0 <= i < es.len() && #[trigger] es[i].0@ == (#[trigger] done@[k])@
                ==> used@[i],
            forall|i: int| 0 <= i < es.len() && #[trigger] used@[i] ==> listed_in(stack@, es[i].1@) || listed_in(done@, es[i].1@),
        decreases unused(used@) * 2 + stack@.len(),
    {
        let ghost old_stack = stack@;
        let cur = stack.pop().unwrap();
        proof {
            assert(stack@ == old_stack.drop_last());
            assert(cur == old_stack.last());
            assert(reaches(es, to@, cur@)) by {
                assert(old_stack[old_stack.len() - 1] == cur);
            }
            if listed_in(old_stack, to@) {
                let k = choose|k: int| 0 <= k < old_stack.len() && old_stack[k]@ == to@;
                if k < stack@.len() {
                    assert(stack@[k] == old_stack[k]);
                }
            }
            assert forall|j: int| 0 <= j < es.len() && #[trigger] used@[j]
                implies listed_in(stack@, es[j].1@) || listed_in(done@, es[j].1@) || es[j].1@ == cur@ by {
                if listed_in(old_stack, es[j].1@) {
                    let k = choose|k: int| 0 <= k < old_stack.len() && old_stack[k]@ == es[j].1@;
                    if k < stack@.len() {
                        assert(stack@[k] == old_stack[k]);
                    }
                }
            }
            assert forall|k: int| 0 <= k < stack@.len() implies reaches(es, to@, (#[trigger] stack@[k])@) by {
                assert(stack@[k] == old_stack[k]);
            }
        }
        if str_eq(cur.as_str(), from) {
            return true;
        }
        let ghost stack_rest = stack@;
        let ghost used_before = used@;
        let mut i: usize = 0;
        while i < edges.len()
            invariant
                es == edges@,
                used@.len() == es.len(),
                i <= es.len(),
                reaches(es, to@, cur@),
                cur@ != from@,
                forall|k: int| 0 <= k < stack@.len() ==> reaches(es, to@, (#[trigger] stack@[k])@),
                forall|k: int| 0 <= k < done@.len() ==> reaches(es, to@, (#[trigger] done@[k])@),
                listed_in(stack@, to@) || listed_in(done@, to@) || cur@ == to@,
                !listed_in(done@, from@),
                forall|k: int, j: int| 0 <= k < done@.len() && 0 <= j < es.len() && #[trigger] es[j].0@ == (#[trigger] done@[k])@
                    ==> used@[j],
                forall|j: int| 0 <= j < i && es[j].0@ == cur@ ==> #[trigger] used@[j],
                forall|j: int| 0 <= j < es.len() && #[trigger] used@[j]
                    ==> listed_in(stack@, es[j].1@) || listed_in(done@, es[j].1@) || es[j].1@ == cur@,
                unused(used@) * 2 + stack@.len() <= unused(used_before) * 2 + stack_rest.len(),
                used_before.len() == es.len(),
                forall|j: int| 0 <= j < es.len() && used_before[j] ==> #[trigger] used@[j],
            decreases es.len() - i,
        {
            if !used[i] && str_eq(edges[i].0.as_str(), cur.as_str()) {
                let ghost before_used = used@;
                let ghost before_stack = stack@;
                proof {
                    lemma_unused_mark(used@, i as int);
                    let ns = choose|ns: Seq<Seq<char>>| #[trigger] is_walk(es, ns) && ns[0] == to@ && ns.last() == cur@;
                    assert(has_edge(es, cur@, es[i as int].1@));
                    lemma_walk_extend(es, ns, es[i as int].1@);
                }
                used.set(i, true);
                stack.push(edges[i].1.clone());
                proof {
                    assert(stack@.last()@ == es[i as int].1@);
                    assert forall|k: int| 0 <= k < stack@.len() implies reaches(es, to@, (#[trigger] stack@[k])@) by {
                        if k < before_stack.len() {
                            assert(stack@[k] == before_stack[k]);
                        }
                    }
                    assert forall|j: int| 0 <= j < es.len() && #[trigger] used@[j]
                        implies listed_in(stack@, es[j].1@) || listed_in(done@, es[j].1@) || es[j].1@ == cur@ by {
                        if j == i {
                            assert(stack@[before_stack.len() as int]@ == es[j].1@);
                        } else {
                            assert(before_used[j]);
                            if listed_in(before_stack, es[j].1@) {
                                let k = choose|k: int| 0 <= k < before_stack.len() && before_stack[k]@ == es[j].1@;
                                assert(stack@[k] == before_stack[k]);
                            }
                        }
                    }
                    if listed_in(before_stack, to@) {
                        let k = choose|k: int| 0 <= k < before_stack.len() && before_stack[k]@ == to@;
                        assert(stack@[k] == before_stack[k]);
                    }
                }
            }
            i = i + 1;
        }
        let ghost before_done = done@;
        done.push(cur);
        proof {
            let c = done@.last();
            assert forall|k: int| 0 <= k < done@.len() implies reaches(es, to@, (#[trigger] done@[k])@) by {
                if k < before_done.len() {
                    assert(done@[k] == before_done[k]);
                }
            }
            assert(listed_in(done@, c@)) by {
                assert(done@[before_done.len() as int] == c);
            }
            assert forall|k: int, j: int| 0 <= k < done@.len() && 0 <= j < es.len() && #[trigger] es[j].0@ == (#[trigger] done@[k])@
                implies used@[j] by {
                if k < before_done.len() {
                    assert(done@[k] == before_done[k]);
                }
            }
            assert forall|j: int| 0 <= j < es.len() && #[trigger] used@[j]
                implies listed_in(stack@, es[j].1@) || listed_in(done@, es[j].1@) by {
                if listed_in(before_done, es[j].1@) {
                    let k = choose|k: int| 0 <= k < before_done.len() && before_done[k]@ == es[j].1@;
                    assert(done@[k] == before_done[k]);
                }
            }
            if listed_in(before_done, to@) {
                let k = choose|k: int| 0 <= k < before_done.len() && before_done[k]@ == to@;
                assert(done@[k] == before_done[k]);
            }
            assert(!listed_in(done@, from@)) by {
                if listed_in(done@, from@) {
                    let k = choose|k: int| 0 <= k < done@.len() && done@[k]@ == from@;
                    if k < before_done.len() {
                        assert(done@[k] == before_done[k]);
                    }
                }
            }
        }
    }
    proof {
        let s = Set::new(|v: Seq<char>| listed_in(done@, v));
        assert forall|a: Seq<char>, b: Seq<char>| s.contains(a) && has_edge(es, a, b) implies s.contains(b) by {
            let k = choose|k: int| 0 <= k < done@.len() && done@[k]@ == a;
            let i = choose|i: int| 0 <= i < es.len() && es[i].0@ == a && es[i].1@ == b;
            assert(used@[i]);
        }
        if reaches(es, to@, from@) {
            let ns = choose|ns: Seq<Seq<char>>| #[trigger] is_walk(es, ns) && ns[0] == to@ && ns.last() == from@;
            lemma_closed_walk(es, ns, s, ns.len() - 1);
        }
    }
    false
}

/// Some string of the sequence has the characters `s`.
pub open spec fn listed_in(v: Seq<String>, s: Seq<char>) -> bool {
    exists|k: int| 0 <= k < v.len() && v[k]@ == s
}

/// No edge closes a cycle: the target of an edge never leads back to its
/// source.
pub open spec fn acyclic(edges: Seq<(String, String)>) -> bool {
    forall|a: Seq<char>, b: Seq<char>| #[trigger] has_edge(edges, a, b) ==> !reaches(edges, b, a)
}

/// Every node reaches itself.
proof fn lemma_reach_self(edges: Seq<(String, String)>, a: Seq<char>)
    ensures
        reaches(edges, a, a),
{
    assert(is_walk(edges, seq![a]));
}

/// Reaching is transitive.
proof fn lemma_reach_trans(edges: Seq<(String, String)>, a: Seq<char>, b: Seq<char>, c: Seq<char>)
    requires
        reaches(edges, a, b),
        reaches(edges, b, c),
    ensures
        reaches(edges, a, c),
{
    let n1 = choose|ns: Seq<Seq<char>>| #[trigger] is_walk(edges, ns) && ns[0] == a && ns.last() == b;
    let n2 = choose|ns: Seq<Seq<char>>| #[trigger] is_walk(edges, ns) && ns[0] == b && ns.last() == c;
    let m = n1 + n2.drop_first();
    assert forall|i: int| 0 <= i < m.len() - 1 implies #[trigger] walk_step(edges, m, i) by {
        if i < n1.len() - 1 {
            assert(m[i] == n1[i] && m[i + 1] == n1[i + 1]);
            assert(walk_step(edges, n1, i));
        } else {
            let j = i - n1.len() + 1;
            assert(m[i] == n2[j]) by {
                if i == n1.len() - 1 {
                    assert(m[i] == n1.last());
                }
            }
            assert(m[i + 1] == n2[j + 1]);
            assert(walk_step(edges, n2, j));
        }
    }
    assert(m[0] == a);
    if n2.len() == 1 {
        assert(m =~= n1);
        assert(n2[0] == n2.last());
    } else {
        assert(m.last() == n2.last());
    }
    assert(is_walk(edges, m) && m[0] == a && m.last() == c);
}

/// One more edge `e`: a node reaches another either as before, or by
/// reaching the source of `e` and continuing from its target.
proof fn lemma_reach_with_edge(edges: Seq<(String, String)>, e: (String, String), u: Seq<char>, v: Seq<char>)
    requires
        reaches(edges.push(e), u, v),
    ensures
        reaches(edges, u, v) || (reaches(edges, u, e.0@) && reaches(edges, e.1@, v)),
{
    let ne = edges.push(e);
    let ns = choose|ns: Seq<Seq<char>>| #[trigger] is_walk(ne, ns) && ns[0] == u && ns.last() == v;
    lemma_reach_prefix(edges, e, ns, ns.len() - 1);
}

proof fn lemma_reach_prefix(edges: Seq<(String, String)>, e: (String, String), ns: Seq<Seq<char>>, k: int)
    requires
        is_walk(edges.push(e), ns),
        0 <= k < ns.len(),
    ensures
        reaches(edges, ns[0], ns[k]) || (reaches(edges, ns[0], e.0@) && reaches(edges, e.1@, ns[k])),
    decreases k,
{
    let ne = edges.push(e);
    if k == 0 {
        lemma_reach_self(edges, ns[0]);
    } else {
        lemma_reach_prefix(edges, e, ns, k - 1);
        assert(walk_step(ne, ns, k - 1));
        let w = ns[k - 1];
        let x = ns[k];
        let i = choose|i: int| 0 <= i < ne.len() && ne[i].0@ == w && ne[i].1@ == x;
        if i < edges.len() {
            assert(ne[i] == edges[i]);
            assert(has_edge(edges, w, x));
            if reaches(edges, ns[0], w) {
                let p = choose|p: Seq<Seq<char>>| #[trigger] is_walk(edges, p) && p[0] == ns[0] && p.last() == w;
                lemma_walk_extend(edges, p, x);
            } else {
                let p = choose|p: Seq<Seq<char>>| #[trigger] is_walk(edges, p) && p[0] == e.1@ && p.last() == w;
                lemma_walk_extend(edges, p, x);
            }
        } else {
            assert(ne[i] == e);
            lemma_reach_self(edges, x);
            if reaches(edges, ns[0], w) {
                assert(w == e.0@);
            }
        }
    }
}

/// The dependency graph stays a DAG: adding an edge that the cycle check
/// accepts (its target does not already lead to its source) to an acyclic
/// graph gives an acyclic graph.
pub proof fn lemma_checked_edge_keeps_acyclic(edges: Seq<(String, String)>, e: (String, String))
    requires
        acyclic(edges),
        !reaches(edges, e.1@, e.0@),
    ensures
        acyclic(edges.push(e)),
{
    let ne = edges.push(e);
    assert forall|x: Seq<char>, y: Seq<char>| #[trigger] has_edge(ne, x, y) implies !reaches(ne, y, x) by {
        if reaches(ne, y, x) {
            lemma_reach_with_edge(edges, e, y, x);
            let i = choose|i: int| 0 <= i < ne.len() && ne[i].0@ == x && ne[i].1@ == y;
            if i < edges.len() {
                assert(ne[i] == edges[i]);
                assert(has_edge(edges, x, y));
                if reaches(edges, y, x) {
                    assert(!reaches(edges, y, x));
                } else {
                    // to -> x -> y -> from
                    let p = choose|p: Seq<Seq<char>>| #[trigger] is_walk(edges, p) && p[0] == e.1@ && p.last() == x;
                    lemma_walk_extend(edges, p, y);
                    lemma_reach_trans(edges, e.1@, y, e.0@);
                }
            } else {
                assert(ne[i] == e);
                if reaches(edges, y, x) {
                    assert(false);
                } else {
                    assert(reaches(edges, y, e.0@));
                }
            }
        }
    }
}

/// A task cannot depend on itself: that would be a cycle.
pub proof fn lemma_self_dependency_is_cycle(edges: Seq<(String, String)>, a: Seq<char>)
    ensures
        reaches(edges, a, a),
{
    lemma_reach_self(edges, a);
}

/// Why adding the dependency `from -> to` of type `dep_type` is refused, if
/// it is: the type is not one of `valid_types`; for a vertical (containment)
/// type, `to` already has another parent; or `to` already leads to `from`
/// along `edges`, the dependencies of the same graph (horizontal or
/// vertical), so the new one would close a cycle.
pub open spec fn dependency_refusal(
    from: Seq<char>,
    to: Seq<char>,
    dep_type: Seq<char>,
    valid_types: Seq<Seq<char>>,
    vertical: bool,
    existing_parent: Option<Seq<char>>,
    edges: Seq<(String, String)>,
) -> Option<Seq<char>> {
    if !valid_types.contains(dep_type) {
        Some("Invalid dependency type '"@ + dep_type + "'. Valid types: "@ + debug_list_of(valid_types))
    } else if vertical && existing_parent is Some && existing_parent->0 != from {
        Some("Task "@ + to + " already has parent "@ + existing_parent->0)
    } else if reaches(edges, to, from) {
        Some("Adding this dependency would create a cycle"@)
    } else {
        None
    }
}

/// The checks run before the dependency `from -> to` of type `dep_type` is
/// added: `vertical` says whether the type is a containment one,
/// `existing_parent` is the current parent of `to`, and `edges` the
/// dependencies of the graph the type belongs to.
pub fn check_add_dependency(
    from: &str,
    to: &str,
    dep_type: &str,
    valid_types: &Vec<String>,
    vertical: bool,
    existing_parent: Option<&str>,
    edges: &Vec<(String, String)>,
) -> (r: Result<(), String>)
    ensures
        match dependency_refusal(from@, to@, dep_type@, views(valid_types@), vertical, opt_str_view(existing_parent), edges@) {
            Some(m) => r is Err && r->Err_0@ == m,
            None => r is Ok,
        },
{
    let mut known = false;
    let mut i: usize = 0;
    while i < valid_types.len()
        invariant
            i <= valid_types@.len(),
            known == exists|k: int| 0 <= k < i && valid_types@[k]@ == dep_type@,
        decreases valid_types@.len() - i,
    {
        if str_eq(valid_types[i].as_str(), dep_type) {
            known = true;
        }
        i = i + 1;
    }
    proof {
        let vs = views(valid_types@);
        if known {
            let k = choose|k: int| 0 <= k < valid_types@.len() && valid_types@[k]@ == dep_type@;
            assert(vs[k] == dep_type@);
        }
        if vs.contains(dep_type@) {
            let k = choose|k: int| 0 <= k < vs.len() && vs[k] == dep_type@;
            assert(valid_types@[k]@ == dep_type@);
        }
    }
    if !known {
        let mut m = string_of("Invalid dependency type '");
        m.append(dep_type);
        m.append("'. Valid types: ");
        m.append(debug_strings(valid_types).as_str());
        proof {
            reveal_strlit("Invalid dependency type '");
            reveal_strlit("'. Valid types: ");
        }
        return Err(m);
    }
    if vertical {
        match existing_parent {
            Some(p) => {
                if !str_eq(p, from) {
                    let mut m = string_of("Task ");
                    m.append(to);
                    m.append(" already has parent ");
                    m.append(p);
                    proof {
                        reveal_strlit("Task ");
                        reveal_strlit(" already has parent ");
                    }
                    return Err(m);
                }
            },
            None => {},
        }
    }
    if would_create_cycle(edges, from, to) {
        proof {
            reveal_strlit("Adding this dependency would create a cycle");
        }
        return Err(string_of("Adding this dependency would create a cycle"));
    }
    Ok(())
}

/// Every task has at most one parent along the edges.
pub open spec fn single_parent(edges: Seq<(String, String)>) -> bool {
    forall|i: int, j: int| 0 <= i < edges.len() && 0 <= j < edges.len() && #[trigger] edges[i].1@ == #[trigger] edges[j].1@
        ==> edges[i].0@ == edges[j].0@
}

/// `parent` is the parent of `to` along the edges: the source of an edge
/// into `to`, or none when no edge leads into it.
pub open spec fn parent_along(edges: Seq<(String, String)>, to: Seq<char>, parent: Option<Seq<char>>) -> bool {
    match parent {
        Some(p) => has_edge(edges, p, to),
        None => forall|i: int| 0 <= i < edges.len() ==> (#[trigger] edges[i]).1@ != to,
    }
}

/// Containment stays a forest: adding a containment dependency that the
/// checks accept, with the parent of its target looked up in the same
/// containment graph, keeps every task at one parent at most, and keeps the
/// graph free of cycles.
pub proof fn lemma_accepted_contains_keeps_forest(
    edges: Seq<(String, String)>,
    e: (String, String),
    dep_type: Seq<char>,
    valid_types: Seq<Seq<char>>,
    existing_parent: Option<Seq<char>>,
)
    requires
        single_parent(edges),
        acyclic(edges),
        parent_along(edges, e.1@, existing_parent),
        dependency_refusal(e.0@, e.1@, dep_type, valid_types, true, existing_parent, edges) is None,
    ensures
        single_parent(edges.push(e)),
        acyclic(edges.push(e)),
{
    let ne = edges.push(e);
    lemma_checked_edge_keeps_acyclic(edges, e);
    assert forall|i: int, j: int| 0 <= i < ne.len() && 0 <= j < ne.len() && #[trigger] ne[i].1@ == #[trigger] ne[j].1@
        implies ne[i].0@ == ne[j].0@ by {
        if i < edges.len() && j < edges.len() {
            assert(ne[i] == edges[i] && ne[j] == edges[j]);
        } else if i < edges.len() {
            assert(ne[i] == edges[i]);
            assert(ne[j] == e);
            let p = existing_parent->0;
            let k = choose|k: int| 0 <= k < edges.len() && edges[k].0@ == p && edges[k].1@ == e.1@;
            assert(edges[k].1@ == edges[i].1@);
        } else if j < edges.len() {
            assert(ne[j] == edges[j]);
            assert(ne[i] == e);
            let p = existing_parent->0;
            let k = choose|k: int| 0 <= k < edges.len() && edges[k].0@ == p && edges[k].1@ == e.1@;
            assert(edges[k].1@ == edges[j].1@);
        }
    }
}

/// Automatic advancing of tasks whose blockers are all done: whether it is
/// on, and the state such tasks move to.
#[derive(Debug, Clone)]
pub struct AutoAdvanceConfig {
    pub enabled: bool,
    pub target_state: Option<String>,
}

/// A task that waits on a task that is now done, as the store holds it.
#[derive(Debug, Clone)]
pub struct Dependent {
    pub task_id: String,
    /// The task's state; `None` when the task is gone.
    pub status: Option<String>,
    /// Some worker holds the task.
    pub claimed: bool,
    /// The number of its other start-blocking tasks still in a blocking state.
    pub remaining_blockers: i32,
}

/// The dependent moves to `target`: it is in the initial state, nobody holds
/// it, nothing else blocks it, and the initial state may move to `target`.
pub open spec fn advances(cfg: StatesConfig, target: Seq<char>, d: Dependent) -> bool {
    &&& d.status matches Some(s) && s@ == cfg.initial@
    &&& !d.claimed
    &&& d.remaining_blockers <= 0
    &&& valid_transition(cfg, cfg.initial@, target)
}

/// The IDs of the dependents that advance, in order.
pub open spec fn advancing_ids(cfg: StatesConfig, target: Seq<char>, ds: Seq<Dependent>) -> Seq<Seq<char>>
    decreases ds.len(),
{
    if ds.len() == 0 {
        Seq::empty()
    } else {
        let pre = advancing_ids(cfg, target, ds.drop_last());
        if advances(cfg, target, ds.last()) {
            pre.push(ds.last().task_id@)
        } else {
            pre
        }
    }
}

/// What automatic advancing does once a blocker is done: nothing when it is
/// off, has no target or no dependency type blocks starting; an error when
/// the target is not a configured state; else the dependents that advance.
pub open spec fn auto_advance_outcome(
    cfg: StatesConfig,
    auto: AutoAdvanceConfig,
    no_start_blocking_types: bool,
    ds: Seq<Dependent>,
) -> Result<Seq<Seq<char>>, Seq<char>> {
    if !auto.enabled || auto.target_state is None {
        Ok(Seq::empty())
    } else if !valid_state(cfg, auto.target_state->0@) {
        Err("Auto-advance target state '"@ + auto.target_state->0@ + "' is not a valid state"@)
    } else if no_start_blocking_types {
        Ok(Seq::empty())
    } else {
        Ok(advancing_ids(cfg, auto.target_state->0@, ds))
    }
}

/// No IDs.
fn no_ids() -> (r: Vec<String>)
    ensures
        crate::text::views(r@) == Seq::<Seq<char>>::empty(),
{
    let r: Vec<String> = Vec::new();
    proof {
        assert(crate::text::views(r@) =~= Seq::<Seq<char>>::empty());
    }
    r
}

/// The tasks to advance once a blocker is done (see `auto_advance_outcome`);
/// `dependents` are the tasks that wait on it through a start-blocking
/// dependency, and `no_start_blocking_types` says that no dependency type
/// blocks starting.
pub fn plan_auto_advance(
    states_config: &StatesConfig,
    auto: &AutoAdvanceConfig,
    no_start_blocking_types: bool,
    dependents: &Vec<Dependent>,
) -> (r: Result<Vec<String>, String>)
    ensures
        match r {
            Ok(ids) => auto_advance_outcome(*states_config, *auto, no_start_blocking_types, dependents@) == Ok::<
                Seq<Seq<char>>,
                Seq<char>,
            >(crate::text::views(ids@)),
            Err(m) => auto_advance_outcome(*states_config, *auto, no_start_blocking_types, dependents@) == Err::<
                Seq<Seq<char>>,
                Seq<char>,
            >(m@),
        },
{
    if !auto.enabled {
        return Ok(no_ids());
    }
    let target = match &auto.target_state {
        Some(t) => t,
        None => {
            return Ok(no_ids());
        },
    };
    if !states_config.is_valid_state(target.as_str()) {
        let mut m = string_of("Auto-advance target state '");
        m.append(target.as_str());
        m.append("' is not a valid state");
        return Err(m);
    }
    if no_start_blocking_types {
        return Ok(no_ids());
    }
    let allowed = states_config.is_valid_transition(states_config.initial.as_str(), target.as_str());
    let mut out: Vec<String> = Vec::new();
    let mut i: usize = 0;
    while i < dependents.len()
        invariant
            i <= dependents@.len(),
            allowed == valid_transition(*states_config, states_config.initial@, target@),
            crate::text::views(out@) == advancing_ids(*states_config, target@, dependents@.take(i as int)),
        decreases dependents@.len() - i,
    {
        proof {
            assert(dependents@.take(i + 1).drop_last() =~= dependents@.take(i as int));
            assert(dependents@.take(i + 1).last() == dependents@[i as int]);
        }
        let d = &dependents[i];
        let initial = match &d.status {
            Some(st) => str_eq(st.as_str(), states_config.initial.as_str()),
            None => false,
        };
        if initial && !d.claimed && d.remaining_blockers <= 0 && allowed {
            proof {
                crate::text::lemma_views_push(out@, d.task_id);
            }
            out.push(d.task_id.clone());
        }
        i = i + 1;
    }
    proof {
        assert(dependents@.take(dependents@.len() as int) =~= dependents@);
    }
    Ok(out)
}

/// The reason recorded for a task advanced automatically.
pub fn auto_advance_reason(completed_task_id: &str) -> (r: String)
    ensures
        r@ == "auto-advanced: blocker '"@ + completed_task_id@ + "' completed"@,
{
    let mut m = string_of("auto-advanced: blocker '");
    m.append(completed_task_id);
    m.append("' completed");
    m
}

} // verus!
