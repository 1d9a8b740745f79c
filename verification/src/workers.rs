//! The rules of worker registration: the checks of a chosen worker ID, the
//! claim limit, and whether a known ID may reconnect; the condition that
//! selects the tasks a worker holds; and the filter of listed workers by
//! their tags, and the tasks related to a task within some steps.

use vstd::prelude::*;
use crate::text::{dec_nat, string_of, str_eq, u64_to_dec, join, views};
use crate::types::WorkerInfo;

verus! {

/// The longest worker ID, in bytes.
pub const MAX_WORKER_ID_LEN: usize = 36;

/// Why a chosen worker ID is refused, if it is: longer than the limit, or
/// empty.
pub open spec fn worker_id_refusal(id: Seq<char>, bytes: nat) -> Option<Seq<char>> {
    if bytes > MAX_WORKER_ID_LEN {
        Some("Worker ID must be at most "@ + dec_nat(MAX_WORKER_ID_LEN as nat) + " characters, got "@ + dec_nat(bytes))
    } else if id.len() == 0 {
        Some("Worker ID cannot be empty"@)
    } else {
        None
    }
}

/// Checks a worker ID chosen by the caller.
pub fn validate_worker_id(id: &str) -> (r: Result<(), String>)
    ensures
        match r {
            Ok(()) => worker_id_refusal(id@, id.len() as nat) is None,
            Err(m) => worker_id_refusal(id@, id.len() as nat) == Some(m@),
        },
{
    if id.len() > MAX_WORKER_ID_LEN {
        let mut m = string_of("Worker ID must be at most ");
        m.append(u64_to_dec(MAX_WORKER_ID_LEN as u64).as_str());
        m.append(" characters, got ");
        m.append(u64_to_dec(id.len() as u64).as_str());
        return Err(m);
    }
    if id.is_empty() {
        return Err(string_of("Worker ID cannot be empty"));
    }
    Ok(())
}

/// How many tasks a worker may hold at once: one by default, no limit for
/// zero, else as asked.
pub open spec fn claim_limit(max_claims: Option<i32>) -> i32 {
    match max_claims {
        Some(0) => i32::MAX,
        Some(n) => n,
        None => 1,
    }
}

/// The claim limit of a registering worker (see `claim_limit`).
pub fn effective_max_claims(max_claims: Option<i32>) -> (r: i32)
    ensures
        r == claim_limit(max_claims),
{
    match max_claims {
        Some(0) => i32::MAX,
        Some(n) => n,
        None => 1,
    }
}

/// What registering does with the store.
#[derive(Debug, Clone, Copy, PartialEq, Eq, Structural)]
pub enum Registration {
    /// Add a new worker.
    Insert,
    /// Reconnect the known worker, resetting its settings.
    Reconnect,
}

/// Decide a registration of the worker `id`, given whether it is known:
/// a known worker reconnects only when forced.
pub fn plan_registration(id: &str, exists: bool, force: bool) -> (r: Result<Registration, String>)
    ensures
        match r {
            Ok(Registration::Insert) => !exists,
            Ok(Registration::Reconnect) => exists && force,
            Err(m) => exists && !force && m@ == "Worker ID '"@ + id@ + "' already registered. Use force=true to reconnect."@,
        },
{
    if exists {
        if force {
            Ok(Registration::Reconnect)
        } else {
            let mut m = string_of("Worker ID '");
            m.append(id);
            m.append("' already registered. Use force=true to reconnect.");
            Err(m)
        }
    } else {
        Ok(Registration::Insert)
    }
}

/// The SQL condition on a task's state that counts it as held: its state
/// is one of the timed states (quoted), or a state no task has when none is
/// timed.
pub open spec fn held_status_clause(timed: Seq<Seq<char>>) -> Seq<char> {
    if timed.len() == 0 {
        "status = '__none__'"@
    } else {
        "status IN ("@ + join(timed.map_values(|n: Seq<char>| "'"@ + n + "'"@), ", "@) + ")"@
    }
}

/// The condition on a task's state that counts it as held by a worker (see
/// `held_status_clause`); `timed` are the timed state names.
pub fn held_status_condition(timed: &Vec<String>) -> (r: String)
    ensures
        r@ == held_status_clause(views(timed@)),
{
    if timed.len() == 0 {
        return string_of("status = '__none__'");
    }
    let mut quoted: Vec<String> = Vec::new();
    let mut i: usize = 0;
    while i < timed.len()
        invariant
            i <= timed@.len(),
            views(quoted@) == views(timed@).take(i as int).map_values(|n: Seq<char>| "'"@ + n + "'"@),
        decreases timed@.len() - i,
    {
        let mut q = string_of("'");
        q.append(timed[i].as_str());
        q.append("'");
        proof {
            crate::text::lemma_views_push(quoted@, q);
            assert(views(timed@).take(i + 1).map_values(|n: Seq<char>| "'"@ + n + "'"@) =~= views(timed@).take(
                i as int,
            ).map_values(|n: Seq<char>| "'"@ + n + "'"@).push(q@));
        }
        quoted.push(q);
        i = i + 1;
    }
    proof {
        assert(views(timed@).take(timed@.len() as int) =~= views(timed@));
    }
    let mut r = string_of("status IN (");
    r.append(crate::text::join_strings(quoted.as_slice(), ", ").as_str());
    r.append(")");
    r
}

/// The worker has every one of the required tags.
pub open spec fn has_all_tags(w: WorkerInfo, required: Seq<Seq<char>>) -> bool {
    forall|i: int| 0 <= i < required.len() ==> views(w.tags@).contains(#[trigger] required[i])
}

/// The first `n` workers that have every required tag, in order.
pub open spec fn workers_with_tags(ws: Seq<WorkerInfo>, required: Seq<Seq<char>>, n: int) -> Seq<WorkerInfo>
    decreases n,
{
    if n <= 0 {
        Seq::empty()
    } else if has_all_tags(ws[n - 1], required) {
        workers_with_tags(ws, required, n - 1).push(ws[n - 1])
    } else {
        workers_with_tags(ws, required, n - 1)
    }
}

/// Whether the tag is among the worker's tags.
fn has_tag(tags: &Vec<String>, tag: &str) -> (r: bool)
    ensures
        r == views(tags@).contains(tag@),
{
    let mut i: usize = 0;
    while i < tags.len()
        invariant
            i <= tags@.len(),
            forall|k: int| 0 <= k < i ==> tags@[k]@ != tag@,
        decreases tags@.len() - i,
    {
        if str_eq(tags[i].as_str(), tag) {
            proof {
                assert(views(tags@)[i as int] == tag@);
            }
            return true;
        }
        i = i + 1;
    }
    proof {
        if views(tags@).contains(tag@) {
            let k = choose|k: int| 0 <= k < views(tags@).len() && views(tags@)[k] == tag@;
            assert(tags@[k]@ == tag@);
        }
    }
    false
}

/// Whether the worker has every required tag.
fn has_all(w: &WorkerInfo, required: &Vec<String>) -> (r: bool)
    ensures
        r == has_all_tags(*w, views(required@)),
{
    let mut i: usize = 0;
    while i < required.len()
        invariant
            i <= required@.len(),
            forall|k: int| 0 <= k < i ==> views(w.tags@).contains(#[trigger] views(required@)[k]),
        decreases required@.len() - i,
    {
        if !has_tag(&w.tags, required[i].as_str()) {
            proof {
                assert(views(required@)[i as int] == required@[i as int]@);
            }
            return false;
        }
        i = i + 1;
    }
    true
}

/// Keep the listed workers that have all the required tags, in order;
/// all of them when no tags are required.
pub fn filter_workers_by_tags(workers: Vec<WorkerInfo>, required: Option<&Vec<String>>) -> (r: Vec<WorkerInfo>)
    ensures
        match required {
            None => r@ == workers@,
            Some(req) => r@ == workers_with_tags(workers@, views(req@), workers@.len() as int),
        },
{
    match required {
        None => workers,
        Some(req) => {
            let ghost orig = workers@;
            let mut rest = workers;
            let mut out: Vec<WorkerInfo> = Vec::new();
            let mut i: usize = 0;
            let n = rest.len();
            while rest.len() > 0
                invariant
                    n == orig.len(),
                    i + rest@.len() == orig.len(),
                    rest@ == orig.subrange(i as int, orig.len() as int),
                    out@ == workers_with_tags(orig, views(req@), i as int),
                decreases rest@.len(),
            {
                let w = rest.remove(0);
                proof {
                    assert(w == orig[i as int]);
                }
                if has_all(&w, req) {
                    out.push(w);
                }
                proof {
                    assert(rest@ =~= orig.subrange(i + 1, orig.len() as int));
                }
                i = i + 1;
            }
            out
        },
    }
}

/// The task an edge leads from, in the direction of the walk: forward
/// goes from a task to those it leads to (children, blocked tasks),
/// backward to those that lead to it (parents, blockers).
pub open spec fn edge_source(e: (String, String), forward: bool) -> Seq<char> {
    if forward { e.0@ } else { e.1@ }
}

/// The task an edge leads to, in the direction of the walk.
pub open spec fn edge_target(e: (String, String), forward: bool) -> Seq<char> {
    if forward { e.1@ } else { e.0@ }
}

/// The tasks of `s` and those one step from them.
pub open spec fn grow(edges: Seq<(String, String)>, forward: bool, s: Set<Seq<char>>) -> Set<Seq<char>> {
    s.union(Set::new(|b: Seq<char>| exists|i: int| 0 <= i < edges.len()
        && s.contains(edge_source(edges[i], forward)) && edge_target(edges[i], forward) == b))
}

/// The tasks within `k` steps of `start`.
pub open spec fn within(edges: Seq<(String, String)>, forward: bool, start: Seq<char>, k: nat) -> Set<Seq<char>>
    decreases k,
{
    if k == 0 {
        set![start]
    } else {
        grow(edges, forward, within(edges, forward, start, (k - 1) as nat))
    }
}

/// The set of the strings' texts.
pub open spec fn text_set(v: Seq<String>) -> Set<Seq<char>> {
    Set::new(|x: Seq<char>| exists|k: int| 0 <= k < v.len() && v[k]@ == x)
}

/// No text occurs twice.
pub open spec fn texts_distinct(v: Seq<String>) -> bool {
    forall|i: int, j: int| 0 <= i < j < v.len() ==> v[i]@ != v[j]@
}

/// Once a step adds nothing, further steps add nothing either.
proof fn lemma_within_stable(edges: Seq<(String, String)>, forward: bool, start: Seq<char>, k: nat, m: nat)
    requires
        k <= m,
        within(edges, forward, start, k + 1) == within(edges, forward, start, k),
    ensures
        within(edges, forward, start, m) == within(edges, forward, start, k),
    decreases m - k,
{
    if m > k {
        lemma_within_stable(edges, forward, start, k, (m - 1) as nat);
    }
}

/// The number of steps a depth walks: its absolute value.
pub open spec fn depth_steps(depth: i32) -> nat {
    if depth < 0 { (-(depth as int)) as nat } else { depth as nat }
}

/// Whether `s` is among the first `n` strings.
fn listed_before(v: &Vec<String>, n: usize, s: &str) -> (r: bool)
    requires
        n <= v@.len(),
    ensures
        r == exists|k: int| 0 <= k < n && v@[k]@ == s@,
{
    let mut i: usize = 0;
    while i < n
        invariant
            n <= v@.len(),
            i <= n,
            forall|k: int| 0 <= k < i ==> v@[k]@ != s@,
        decreases n - i,
    {
        if str_eq(v[i].as_str(), s) {
            return true;
        }
        i = i + 1;
    }
    false
}

/// The tasks related to `task_id` within `|depth|` steps along the
/// dependencies `edges` (each `(from, to)`): descendants for a positive
/// depth, ancestors for a negative one, the task alone for zero. Each task
/// is listed once.
pub fn related_task_ids(edges: &Vec<(String, String)>, task_id: &str, depth: i32) -> (r: Vec<String>)
    requires
        depth > i32::MIN,
    ensures
        texts_distinct(r@),
        text_set(r@) == within(edges@, depth > 0, task_id@, depth_steps(depth)),
{
    let forward = depth > 0;
    let steps: i32 = if depth < 0 { -depth } else { depth };
    let ghost es = edges@;
    let mut result: Vec<String> = Vec::new();
    result.push(string_of(task_id));
    proof {
        assert(text_set(result@) =~= within(es, forward, task_id@, 0)) by {
            assert(result@[0]@ == task_id@);
        }
    }
    let mut round: i32 = 0;
    while round < steps
        invariant
            es == edges@,
            0 <= round <= steps,
            steps as nat == depth_steps(depth),
            forward == (depth > 0),
            texts_distinct(result@),
            text_set(result@) == within(es, forward, task_id@, round as nat),
        decreases steps - round,
    {
        let ghost prev = text_set(result@);
        let ghost prev_list = result@;
        let n0 = result.len();
        let mut j: usize = 0;
        while j < edges.len()
            invariant
                es == edges@,
                n0 == prev_list.len(),
                n0 <= result@.len(),
                j <= es.len(),
                prev == text_set(prev_list),
                forall|k: int| 0 <= k < n0 ==> result@[k] == prev_list[k],
                texts_distinct(result@),
                text_set(result@) == prev.union(Set::new(|b: Seq<char>| exists|i: int| 0 <= i < j
                    && prev.contains(edge_source(es[i], forward)) && edge_target(es[i], forward) == b)),
            decreases es.len() - j,
        {
            let (a, b) = if forward {
                (edges[j].0.as_str(), edges[j].1.as_str())
            } else {
                (edges[j].1.as_str(), edges[j].0.as_str())
            };
            let ghost before = result@;
            let from_prev = listed_before(&result, n0, a);
            proof {
                if from_prev {
                    let k = choose|k: int| 0 <= k < n0 && result@[k]@ == a@;
                    assert(prev_list[k]@ == a@);
                }
                if prev.contains(a@) {
                    let k = choose|k: int| 0 <= k < prev_list.len() && prev_list[k]@ == a@;
                    assert(result@[k]@ == a@);
                }
            }
            if from_prev && !listed_before(&result, result.len(), b) {
                result.push(string_of(b));
            }
            proof {
                let old_new = Set::new(|x: Seq<char>| exists|i: int| 0 <= i < j
                    && prev.contains(edge_source(es[i], forward)) && edge_target(es[i], forward) == x);
                let new_new = Set::new(|x: Seq<char>| exists|i: int| 0 <= i < j + 1
                    && prev.contains(edge_source(es[i], forward)) && edge_target(es[i], forward) == x);
                assert(edge_source(es[j as int], forward) == a@);
                assert(edge_target(es[j as int], forward) == b@);
                assert(text_set(before) == prev.union(old_new));
                assert forall|x: Seq<char>| #[trigger] text_set(before).contains(x) implies text_set(result@).contains(x) by {
                    let k = choose|k: int| 0 <= k < before.len() && before[k]@ == x;
                    assert(result@[k]@ == x);
                }
                assert forall|x: Seq<char>| #[trigger] text_set(result@).contains(x) implies
                    text_set(before).contains(x) || (x == b@ && prev.contains(a@)) by {
                    let k = choose|k: int| 0 <= k < result@.len() && result@[k]@ == x;
                    if k < before.len() {
                        assert(before[k]@ == x);
                    }
                }
                assert forall|x: Seq<char>| #[trigger] old_new.contains(x) implies new_new.contains(x) by {
                    let i = choose|i: int| 0 <= i < j && prev.contains(edge_source(es[i], forward))
                        && edge_target(es[i], forward) == x;
                }
                assert forall|x: Seq<char>| #[trigger] new_new.contains(x) implies old_new.contains(x)
                    || (x == b@ && prev.contains(a@)) by {
                    let i = choose|i: int| 0 <= i < j + 1 && prev.contains(edge_source(es[i], forward))
                        && edge_target(es[i], forward) == x;
                    if i < j {
                        assert(old_new.contains(x));
                    }
                }
                if prev.contains(a@) {
                    assert(new_new.contains(b@));
                    assert(text_set(result@).contains(b@)) by {
                        if !text_set(before).contains(b@) {
                            assert(result@.len() == before.len() + 1);
                            assert(result@[before.len() as int]@ == b@);
                        }
                    }
                }
                assert forall|x: Seq<char>| #[trigger] text_set(result@).contains(x) == prev.union(new_new).contains(x) by {
                    if text_set(result@).contains(x) {
                        if text_set(before).contains(x) {
                            assert(prev.contains(x) || old_new.contains(x));
                        } else {
                            assert(x == b@ && prev.contains(a@));
                            assert(new_new.contains(x));
                        }
                    }
                    if prev.contains(x) {
                        assert(text_set(before).contains(x));
                    } else if new_new.contains(x) {
                        if old_new.contains(x) {
                            assert(text_set(before).contains(x));
                        } else {
                            assert(x == b@ && prev.contains(a@));
                        }
                    }
                }
                assert(text_set(result@) =~= prev.union(new_new));
            }
            j = j + 1;
        }
        proof {
            let step = Set::new(|b: Seq<char>| exists|i: int| 0 <= i < es.len()
                && prev.contains(edge_source(es[i], forward)) && edge_target(es[i], forward) == b);
            assert(Set::new(|b: Seq<char>| exists|i: int| 0 <= i < es.len()
                && prev.contains(edge_source(es[i], forward)) && edge_target(es[i], forward) == b) =~= step);
            assert(text_set(result@) == grow(es, forward, prev));
        }
        let grew = result.len() > n0;
        round = round + 1;
        if !grew {
            proof {
                assert(result@ =~= prev_list);
                lemma_within_stable(es, forward, task_id@, (round - 1) as nat, steps as nat);
            }
            return result;
        }
    }
    result
}

} // verus!
