//! Templates: reusable task structures stored in the snapshot format.
//!
//! - Entry points are the root tasks of a template: tasks that no other task
//!   of the template contains.
//! - Exit points are tasks with a dependency on a task outside the template.
//!
//! Instantiation gives every task a fresh ID, resets the task state, and
//! hands the prepared snapshot to import.

use vstd::prelude::*;
use crate::json::{Json, JsonV, json_str_field, json_set, json_get, lemma_json_get_set};
use crate::export::{Snapshot, rows_view, tables_get};
use crate::import::{
    table_rows, task_ids, listed, contains_string, collect_task_ids, tasks_of, ImportResult, counts_get, counts_sum,
    remap_snapshot, remap_tables, id_map_ok, picked_ids, remap_draws_made, remap_outcome,
};
use crate::ids::{IdsConfig, now_ms};
use crate::text::{str_eq, string_of, views, lemma_views_push, str_lt, str_less, lemma_str_lt_total, lemma_str_lt_trans, lemma_str_lt_irrefl};
use crate::tasks::opt_str_view;
use crate::error::opt_view;

verus! {

/// Metadata about a template, extracted during analysis.
#[derive(Debug, Clone)]
pub struct TemplateMetadata {
    /// Name of the template (derived from filename or explicit).
    pub name: String,
    /// Source file path the template was loaded from.
    pub source_path: Option<String>,
    /// Entry point task IDs (root tasks with no parent in the template).
    pub entry_points: Vec<String>,
    /// Exit point task IDs (tasks with external dependency references).
    pub exit_points: Vec<String>,
    /// Total number of tasks in the template.
    pub task_count: usize,
    /// Total number of dependencies in the template.
    pub dependency_count: usize,
    /// Tags found across all tasks in the template, sorted.
    pub all_tags: Vec<String>,
}

/// Options for controlling template instantiation.
#[derive(Debug, Clone, Default)]
pub struct InstantiateOptions {
    /// Parent task ID to attach the template's entry points to.
    pub parent_task_id: Option<String>,
    /// Dependency type to use when attaching to parent (default: "contains").
    pub attach_dep_type: String,
    /// Optional prefix to add to task titles for disambiguation.
    pub title_prefix: Option<String>,
    /// Additional tags to add to all instantiated tasks.
    pub extra_tags: Vec<String>,
    /// Whether to reset all task statuses to the initial state.
    pub reset_status: bool,
    /// Override the initial status for instantiated tasks.
    pub initial_status: Option<String>,
}

impl InstantiateOptions {
    /// Default instantiation options: attach with "contains", reset statuses.
    pub fn new() -> (r: Self)
        ensures
            r.parent_task_id is None,
            r.attach_dep_type@ == "contains"@,
            r.title_prefix is None,
            r.extra_tags@.len() == 0,
            r.reset_status,
            r.initial_status is None,
    {
        InstantiateOptions {
            parent_task_id: None,
            attach_dep_type: string_of("contains"),
            title_prefix: None,
            extra_tags: Vec::new(),
            reset_status: true,
            initial_status: None,
        }
    }

    /// The same options with the parent task set.
    pub fn with_parent(self, parent_id: &str) -> (r: Self)
        ensures
            opt_view(r.parent_task_id) == Some(parent_id@),
            r.attach_dep_type == self.attach_dep_type,
            r.title_prefix == self.title_prefix,
            r.extra_tags == self.extra_tags,
            r.reset_status == self.reset_status,
            r.initial_status == self.initial_status,
    {
        let mut r = self;
        r.parent_task_id = Some(string_of(parent_id));
        r
    }

    /// The same options with a title prefix.
    pub fn with_title_prefix(self, prefix: &str) -> (r: Self)
        ensures
            r.parent_task_id == self.parent_task_id,
            r.attach_dep_type == self.attach_dep_type,
            opt_view(r.title_prefix) == Some(prefix@),
            r.extra_tags == self.extra_tags,
            r.reset_status == self.reset_status,
            r.initial_status == self.initial_status,
    {
        let mut r = self;
        r.title_prefix = Some(string_of(prefix));
        r
    }

    /// The same options with extra tags for every instantiated task.
    pub fn with_extra_tags(self, tags: Vec<String>) -> (r: Self)
        ensures
            r.parent_task_id == self.parent_task_id,
            r.attach_dep_type == self.attach_dep_type,
            r.title_prefix == self.title_prefix,
            r.extra_tags == tags,
            r.reset_status == self.reset_status,
            r.initial_status == self.initial_status,
    {
        let mut r = self;
        r.extra_tags = tags;
        r
    }
}

/// Simplified import stats for the instantiation result.
#[derive(Debug, Clone)]
pub struct ImportStats {
    pub tasks_imported: usize,
    pub dependencies_imported: usize,
    pub tags_imported: usize,
    pub total_rows: usize,
}

/// A stored count, or zero.
pub open spec fn count_or_zero(c: Option<usize>) -> int {
    match c {
        Some(n) => n as int,
        None => 0,
    }
}

impl ImportStats {
    /// The stats of an import: imported tasks, dependencies, tag rows of the
    /// three tag tables, and all imported rows.
    pub fn from_result(result: &ImportResult) -> (r: Self)
        requires
            result.rows_imported.wf(),
            counts_sum(result.rows_imported@) <= usize::MAX,
            count_or_zero(counts_get(result.rows_imported@, "task_tags"@))
                + count_or_zero(counts_get(result.rows_imported@, "task_needed_tags"@))
                + count_or_zero(counts_get(result.rows_imported@, "task_wanted_tags"@)) <= usize::MAX,
        ensures
            r.tasks_imported == count_or_zero(counts_get(result.rows_imported@, "tasks"@)),
            r.dependencies_imported == count_or_zero(counts_get(result.rows_imported@, "dependencies"@)),
            r.tags_imported == count_or_zero(counts_get(result.rows_imported@, "task_tags"@))
                + count_or_zero(counts_get(result.rows_imported@, "task_needed_tags"@))
                + count_or_zero(counts_get(result.rows_imported@, "task_wanted_tags"@)),
            r.total_rows == counts_sum(result.rows_imported@),
    {
        let c = &result.rows_imported;
        let tasks = match c.get("tasks") { Some(n) => n, None => 0 };
        let deps = match c.get("dependencies") { Some(n) => n, None => 0 };
        let t1 = match c.get("task_tags") { Some(n) => n, None => 0 };
        let t2 = match c.get("task_needed_tags") { Some(n) => n, None => 0 };
        let t3 = match c.get("task_wanted_tags") { Some(n) => n, None => 0 };
        ImportStats {
            tasks_imported: tasks,
            dependencies_imported: deps,
            tags_imported: t1 + t2 + t3,
            total_rows: result.total_rows(),
        }
    }
}

/// Result of a template instantiation operation.
#[derive(Debug, Clone)]
pub struct InstantiateResult {
    /// Template metadata (from the source template).
    pub metadata: TemplateMetadata,
    /// ID remapping table: (original template ID, new database ID).
    pub id_map: Vec<(String, String)>,
    /// New IDs of the entry point tasks (after remapping).
    pub entry_point_ids: Vec<String>,
    /// New IDs of the exit point tasks (after remapping).
    pub exit_point_ids: Vec<String>,
    /// Import statistics from the database insertion.
    pub import_stats: ImportStats,
    /// Parent task ID if attachment was performed.
    pub attached_to_parent: Option<String>,
}

/// The text of a string field, or the empty text.
pub open spec fn str_or_empty(row: JsonV, key: Seq<char>) -> Seq<char> {
    match json_str_field(row, key) {
        Some(s) => s,
        None => ""@,
    }
}

/// The dependency makes `t` a child: a "contains" dependency between two
/// tasks of the template, pointing to `t`.
pub open spec fn child_of_dep(ids: Seq<Seq<char>>, d: JsonV, t: Seq<char>) -> bool {
    &&& str_or_empty(d, "dep_type"@) == "contains"@
    &&& ids.contains(str_or_empty(d, "from_task_id"@))
    &&& ids.contains(str_or_empty(d, "to_task_id"@))
    &&& str_or_empty(d, "to_task_id"@) == t
}

/// The dependency makes `t` an exit point: it links `t`, a task of the
/// template, with a task outside it.
pub open spec fn exit_of_dep(ids: Seq<Seq<char>>, d: JsonV, t: Seq<char>) -> bool {
    let f = str_or_empty(d, "from_task_id"@);
    let to = str_or_empty(d, "to_task_id"@);
    &&& !ids.contains(f) || !ids.contains(to)
    &&& (ids.contains(f) && f == t) || (ids.contains(to) && to == t)
}

/// Some dependency of the template makes `t` a child.
pub open spec fn is_child(ids: Seq<Seq<char>>, deps: Seq<JsonV>, t: Seq<char>) -> bool {
    exists|i: int| 0 <= i < deps.len() && child_of_dep(ids, deps[i], t)
}

/// Some dependency of the template makes `t` an exit point.
pub open spec fn is_exit(ids: Seq<Seq<char>>, deps: Seq<JsonV>, t: Seq<char>) -> bool {
    exists|i: int| 0 <= i < deps.len() && exit_of_dep(ids, deps[i], t)
}

/// Some tag row carries the tag `t`.
pub open spec fn has_tag(rows: Seq<JsonV>, t: Seq<char>) -> bool {
    exists|i: int| 0 <= i < rows.len() && json_str_field(rows[i], "tag"@) == Some(t)
}

/// No string is listed twice.
pub open spec fn distinct(v: Seq<String>) -> bool {
    forall|a: int, b: int| 0 <= a < b < v.len() ==> v[a]@ != v[b]@
}

/// The strings are in strictly increasing string order.
pub open spec fn strictly_sorted(v: Seq<String>) -> bool {
    forall|a: int, b: int| 0 <= a < b < v.len() ==> str_lt(v[a]@, v[b]@)
}

/// The metadata describes the template with the given tables.
pub open spec fn metadata_of(m: TemplateMetadata, tv: Seq<(Seq<char>, Seq<JsonV>)>, name: Seq<char>, source_path: Option<Seq<char>>) -> bool {
    let ids = task_ids(table_rows(tv, "tasks"@));
    let deps = table_rows(tv, "dependencies"@);
    &&& m.name@ == name
    &&& opt_view(m.source_path) == source_path
    &&& distinct(m.entry_points@)
    &&& forall|t: Seq<char>| #[trigger] listed(m.entry_points@, t) <==> (ids.contains(t) && !is_child(ids, deps, t))
    &&& distinct(m.exit_points@)
    &&& forall|t: Seq<char>| #[trigger] listed(m.exit_points@, t) <==> is_exit(ids, deps, t)
    &&& strictly_sorted(m.all_tags@)
    &&& forall|t: Seq<char>| #[trigger] listed(m.all_tags@, t) <==> has_tag(table_rows(tv, "task_tags"@), t)
    &&& m.task_count == ids.to_set().len()
    &&& m.dependency_count == deps.len()
}

/// The rows of the named table of the snapshot, or no rows.
fn rows_of(snapshot: &Snapshot, name: &str) -> (r: Vec<Json>)
    requires
        snapshot.tables.wf(),
    ensures
        rows_view(r@) == table_rows(snapshot.tables@, name@),
{
    match snapshot.get_table(name) {
        Some(rows) => {
            let mut out: Vec<Json> = Vec::new();
            let mut i: usize = 0;
            while i < rows.len()
                invariant
                    i <= rows@.len(),
                    out@.len() == i,
                    forall|k: int| 0 <= k < i ==> (#[trigger] out@[k])@ == rows@[k]@,
                decreases rows@.len() - i,
            {
                out.push(rows[i].clone());
                i = i + 1;
            }
            proof {
                assert(rows_view(out@) =~= rows_view(rows@));
            }
            out
        }
        None => {
            let out: Vec<Json> = Vec::new();
            proof {
                assert(rows_view(out@) =~= Seq::<JsonV>::empty());
            }
            out
        }
    }
}

/// Adds the string when it is not listed yet.
fn push_unique(v: &mut Vec<String>, s: &str)
    requires
        distinct(old(v)@),
    ensures
        distinct(final(v)@),
        forall|t: Seq<char>| #[trigger] listed(final(v)@, t) <==> (listed(old(v)@, t) || t == s@),
{
    if !contains_string(v, s) {
        let ghost before = v@;
        v.push(string_of(s));
        proof {
            assert forall|a: int, b: int| 0 <= a < b < v@.len() implies v@[a]@ != v@[b]@ by {
                if b < before.len() {
                    assert(v@[a] == before[a] && v@[b] == before[b]);
                } else {
                    assert(v@[a] == before[a]);
                }
            }
            assert forall|t: Seq<char>| #[trigger] listed(v@, t) <==> (listed(before, t) || t == s@) by {
                if listed(v@, t) {
                    let a = choose|a: int| 0 <= a < v@.len() && v@[a]@ == t;
                    if a < before.len() {
                        assert(v@[a] == before[a]);
                    }
                }
                if listed(before, t) {
                    let a = choose|a: int| 0 <= a < before.len() && before[a]@ == t;
                    assert(v@[a] == before[a]);
                }
                if t == s@ {
                    assert(v@[before.len() as int]@ == s@);
                }
            }
        }
    } else {
        proof {
            assert forall|t: Seq<char>| #[trigger] listed(v@, t) <==> (listed(v@, t) || t == s@) by {
                if t == s@ {
                    let k = choose|k: int| 0 <= k < v@.len() && v@[k]@ == s@;
                    assert(listed(v@, t));
                }
            }
        }
    }
}

/// Inserts the string at its place in a strictly sorted list, unless listed.
fn insert_sorted_unique(v: &mut Vec<String>, s: &str)
    requires
        strictly_sorted(old(v)@),
    ensures
        strictly_sorted(final(v)@),
        forall|t: Seq<char>| #[trigger] listed(final(v)@, t) <==> (listed(old(v)@, t) || t == s@),
{
    let ghost before = v@;
    let mut p: usize = 0;
    while p < v.len() && str_less(v[p].as_str(), s)
        invariant
            v@ == before,
            p <= v@.len(),
            forall|k: int| 0 <= k < p ==> str_lt(v@[k]@, s@),
        decreases v@.len() - p,
    {
        p = p + 1;
    }
    if p < v.len() && str_eq(v[p].as_str(), s) {
        proof {
            assert forall|t: Seq<char>| #[trigger] listed(v@, t) <==> (listed(v@, t) || t == s@) by {
                if t == s@ {
                    assert(v@[p as int]@ == t);
                }
            }
        }
        return;
    }
    proof {
        if p < v@.len() {
            lemma_str_lt_total(v@[p as int]@, s@);
            assert(str_lt(s@, v@[p as int]@));
            assert forall|k: int| p < k < v@.len() implies str_lt(s@, v@[k]@) by {
                lemma_str_lt_trans(s@, v@[p as int]@, v@[k]@);
            }
        }
    }
    v.insert(p, string_of(s));
    proof {
        assert(v@ == before.insert(p as int, v@[p as int]));
        assert forall|a: int, b: int| 0 <= a < b < v@.len() implies str_lt(v@[a]@, v@[b]@) by {
            if b < p {
                assert(v@[a] == before[a] && v@[b] == before[b]);
            } else if b == p {
                assert(v@[a] == before[a]);
            } else if a < p {
                assert(v@[a] == before[a] && v@[b] == before[b - 1]);
                if p < before.len() {
                    lemma_str_lt_trans(before[a]@, s@, before[b - 1]@);
                }
            } else if a == p {
                assert(v@[b] == before[b - 1]);
            } else {
                assert(v@[a] == before[a - 1] && v@[b] == before[b - 1]);
            }
        }
        assert forall|t: Seq<char>| #[trigger] listed(v@, t) <==> (listed(before, t) || t == s@) by {
            if listed(v@, t) {
                let a = choose|a: int| 0 <= a < v@.len() && v@[a]@ == t;
                if a < p {
                    assert(v@[a] == before[a]);
                } else if a > p {
                    assert(v@[a] == before[a - 1]);
                }
            }
            if listed(before, t) {
                let a = choose|a: int| 0 <= a < before.len() && before[a]@ == t;
                if a < p {
                    assert(v@[a] == before[a]);
                } else {
                    assert(v@[a + 1] == before[a]);
                }
            }
            if t == s@ {
                assert(v@[p as int]@ == t);
            }
        }
    }
}

/// The text of the string field, or the empty text.
fn field_or_empty<'a>(row: &'a Json, key: &str) -> (r: &'a str)
    ensures
        r@ == str_or_empty(row@, key@),
{
    match row.get_str(key) {
        Some(s) => s,
        None => {
            let e: &'a str = "";
            e
        }
    }
}

/// Analyze a template snapshot: its entry points (tasks that no task of the
/// template contains), its exit points (tasks linked with a task outside the
/// template), its sorted tags, and its task and dependency counts. A
/// template without tasks is refused.
pub fn analyze_template(snapshot: &Snapshot, name: &str, source_path: Option<&str>) -> (r: Result<TemplateMetadata, String>)
    requires
        snapshot.tables.wf(),
    ensures
        r is Err <==> task_ids(table_rows(snapshot.tables@, "tasks"@)).len() == 0,
        r matches Err(e) ==> e@ == "Template contains no tasks"@,
        r matches Ok(m) ==> metadata_of(m, snapshot.tables@, name@, opt_str_view(source_path)),
{
    let ghost tv = snapshot.tables@;
    let tasks = tasks_of(snapshot);
    let all_ids = collect_task_ids(&tasks);
    let ghost ids = views(all_ids@);
    proof {
        assert(ids.len() == all_ids@.len());
    }
    if all_ids.len() == 0 {
        return Err(string_of("Template contains no tasks"));
    }
    // the distinct task IDs
    let mut uniq: Vec<String> = Vec::new();
    let mut i: usize = 0;
    while i < all_ids.len()
        invariant
            i <= all_ids@.len(),
            ids == views(all_ids@),
            ids.len() == all_ids@.len(),
            distinct(uniq@),
            forall|t: Seq<char>| #[trigger] listed(uniq@, t) <==> ids.take(i as int).contains(t),
        decreases all_ids@.len() - i,
    {
        let ghost before = uniq@;
        push_unique(&mut uniq, all_ids[i].as_str());
        proof {
            assert(ids[i as int] == all_ids@[i as int]@);
            assert(ids.take(i + 1) =~= ids.take(i as int).push(ids[i as int]));
            assert forall|t: Seq<char>| #[trigger] listed(uniq@, t) <==> ids.take(i + 1).contains(t) by {
                assert(listed(before, t) <==> ids.take(i as int).contains(t));
                let s1 = ids.take(i + 1);
                let s0 = ids.take(i as int);
                if s1.contains(t) {
                    let w = choose|w: int| 0 <= w < s1.len() && s1[w] == t;
                    if w < i {
                        assert(s0[w] == t);
                    }
                }
                if s0.contains(t) {
                    let w = choose|w: int| 0 <= w < s0.len() && s0[w] == t;
                    assert(s1[w] == t);
                }
                if t == ids[i as int] {
                    assert(ids.take(i + 1)[i as int] == t);
                }
            }
        }
        i = i + 1;
    }
    proof {
        assert(ids.take(all_ids@.len() as int) =~= ids);
    }
    // children and exit points
    let deps = rows_of(snapshot, "dependencies");
    let ghost dv = rows_view(deps@);
    let mut children: Vec<String> = Vec::new();
    let mut exits: Vec<String> = Vec::new();
    let mut j: usize = 0;
    while j < deps.len()
        invariant
            j <= deps@.len(),
            dv == rows_view(deps@),
            distinct(uniq@),
            forall|t: Seq<char>| #[trigger] listed(uniq@, t) <==> ids.contains(t),
            distinct(children@),
            distinct(exits@),
            forall|t: Seq<char>| #[trigger] listed(children@, t) <==> exists|k: int| 0 <= k < j && child_of_dep(ids, dv[k], t),
            forall|t: Seq<char>| #[trigger] listed(exits@, t) <==> exists|k: int| 0 <= k < j && exit_of_dep(ids, dv[k], t),
        decreases deps@.len() - j,
    {
        let d = &deps[j];
        proof {
            assert(dv[j as int] == deps@[j as int]@);
        }
        let f = field_or_empty(d, "from_task_id");
        let to = field_or_empty(d, "to_task_id");
        let dt = field_or_empty(d, "dep_type");
        let in_f = contains_string(&uniq, f);
        let in_t = contains_string(&uniq, to);
        proof {
            assert(in_f == listed(uniq@, f@));
            assert(in_t == listed(uniq@, to@));
        }
        let ghost ch_before = children@;
        let ghost ex_before = exits@;
        if str_eq(dt, "contains") && in_f && in_t {
            push_unique(&mut children, to);
        }
        if !in_f || !in_t {
            if in_f {
                push_unique(&mut exits, f);
            }
            if in_t {
                push_unique(&mut exits, to);
            }
        }
        proof {
            assert forall|t: Seq<char>| #[trigger] listed(children@, t)
                <==> exists|k: int| 0 <= k < j + 1 && child_of_dep(ids, dv[k], t) by {
                assert(listed(ch_before, t) <==> exists|k: int| 0 <= k < j && child_of_dep(ids, dv[k], t));
                if exists|k: int| 0 <= k < j + 1 && child_of_dep(ids, dv[k], t) {
                    let k = choose|k: int| 0 <= k < j + 1 && child_of_dep(ids, dv[k], t);
                    if k < j {
                        assert(exists|k2: int| 0 <= k2 < j && child_of_dep(ids, dv[k2], t));
                    }
                }
                if listed(ch_before, t) {
                    let k = choose|k: int| 0 <= k < j && child_of_dep(ids, dv[k], t);
                    assert(0 <= k < j + 1 && child_of_dep(ids, dv[k], t));
                }
                if listed(children@, t) && !listed(ch_before, t) {
                    assert(child_of_dep(ids, dv[j as int], t));
                }
            }
            assert forall|t: Seq<char>| #[trigger] listed(exits@, t)
                <==> exists|k: int| 0 <= k < j + 1 && exit_of_dep(ids, dv[k], t) by {
                assert(listed(ex_before, t) <==> exists|k: int| 0 <= k < j && exit_of_dep(ids, dv[k], t));
                if exists|k: int| 0 <= k < j + 1 && exit_of_dep(ids, dv[k], t) {
                    let k = choose|k: int| 0 <= k < j + 1 && exit_of_dep(ids, dv[k], t);
                    if k < j {
                        assert(exists|k2: int| 0 <= k2 < j && exit_of_dep(ids, dv[k2], t));
                    }
                }
                if listed(ex_before, t) {
                    let k = choose|k: int| 0 <= k < j && exit_of_dep(ids, dv[k], t);
                    assert(0 <= k < j + 1 && exit_of_dep(ids, dv[k], t));
                }
                if listed(exits@, t) && !listed(ex_before, t) {
                    assert(exit_of_dep(ids, dv[j as int], t));
                }
            }
        }
        j = j + 1;
    }
    // entry points: the task IDs that are not children
    let mut entries: Vec<String> = Vec::new();
    let mut e: usize = 0;
    while e < uniq.len()
        invariant
            e <= uniq@.len(),
            distinct(entries@),
            forall|t: Seq<char>| #[trigger] listed(entries@, t)
                <==> (exists|k: int| 0 <= k < e && uniq@[k]@ == t) && !listed(children@, t),
        decreases uniq@.len() - e,
    {
        let ghost before = entries@;
        let is_ch = contains_string(&children, uniq[e].as_str());
        if !is_ch {
            push_unique(&mut entries, uniq[e].as_str());
        }
        proof {
            assert forall|t: Seq<char>| #[trigger] listed(entries@, t)
                <==> (exists|k: int| 0 <= k < e + 1 && uniq@[k]@ == t) && !listed(children@, t) by {
                if exists|k: int| 0 <= k < e + 1 && uniq@[k]@ == t {
                    let k = choose|k: int| 0 <= k < e + 1 && uniq@[k]@ == t;
                    if k < e {
                        assert(exists|k2: int| 0 <= k2 < e && uniq@[k2]@ == t);
                    }
                }
                if exists|k: int| 0 <= k < e && uniq@[k]@ == t {
                    let k = choose|k: int| 0 <= k < e && uniq@[k]@ == t;
                    assert(0 <= k < e + 1 && uniq@[k]@ == t);
                }
            }
        }
        e = e + 1;
    }
    // sorted unique tags
    let tag_rows = rows_of(snapshot, "task_tags");
    let ghost gv = rows_view(tag_rows@);
    let mut tags: Vec<String> = Vec::new();
    let mut g: usize = 0;
    while g < tag_rows.len()
        invariant
            g <= tag_rows@.len(),
            gv == rows_view(tag_rows@),
            strictly_sorted(tags@),
            forall|t: Seq<char>| #[trigger] listed(tags@, t)
                <==> exists|k: int| 0 <= k < g && json_str_field(gv[k], "tag"@) == Some(t),
        decreases tag_rows@.len() - g,
    {
        proof {
            assert(gv[g as int] == tag_rows@[g as int]@);
        }
        let ghost before = tags@;
        match tag_rows[g].get_str("tag") {
            Some(tag) => {
                insert_sorted_unique(&mut tags, tag);
            }
            None => {}
        }
        proof {
            assert forall|t: Seq<char>| #[trigger] listed(tags@, t)
                <==> exists|k: int| 0 <= k < g + 1 && json_str_field(gv[k], "tag"@) == Some(t) by {
                assert(listed(before, t) <==> exists|k: int| 0 <= k < g && json_str_field(gv[k], "tag"@) == Some(t));
                if exists|k: int| 0 <= k < g + 1 && json_str_field(gv[k], "tag"@) == Some(t) {
                    let k = choose|k: int| 0 <= k < g + 1 && json_str_field(gv[k], "tag"@) == Some(t);
                    if k < g {
                        assert(exists|k2: int| 0 <= k2 < g && json_str_field(gv[k2], "tag"@) == Some(t));
                    }
                }
                if listed(before, t) {
                    let k = choose|k: int| 0 <= k < g && json_str_field(gv[k], "tag"@) == Some(t);
                    assert(0 <= k < g + 1 && json_str_field(gv[k], "tag"@) == Some(t));
                }
            }
        }
        g = g + 1;
    }
    proof {
        let u = views(uniq@);
        assert(u.no_duplicates()) by {
            assert forall|a: int, b: int| 0 <= a < u.len() && 0 <= b < u.len() && a != b implies u[a] != u[b] by {
                if a < b {
                    assert(uniq@[a]@ != uniq@[b]@);
                } else {
                    assert(uniq@[b]@ != uniq@[a]@);
                }
            }
        }
        u.unique_seq_to_set();
        assert forall|t: Seq<char>| #[trigger] u.to_set().contains(t) <==> ids.to_set().contains(t) by {
            if u.contains(t) {
                let a = choose|a: int| 0 <= a < u.len() && u[a] == t;
                assert(listed(uniq@, t));
            }
            if ids.contains(t) {
                assert(listed(uniq@, t));
                let a = choose|a: int| 0 <= a < uniq@.len() && uniq@[a]@ == t;
                assert(u[a] == t);
            }
        }
        assert(u.to_set() =~= ids.to_set());
        assert forall|t: Seq<char>| #[trigger] listed(entries@, t) <==> (ids.contains(t) && !is_child(ids, dv, t)) by {
            if exists|k: int| 0 <= k < uniq@.len() && uniq@[k]@ == t {
                assert(listed(uniq@, t));
            }
            if ids.contains(t) {
                assert(listed(uniq@, t));
            }
        }
        assert forall|t: Seq<char>| #[trigger] listed(exits@, t) <==> is_exit(ids, dv, t) by {}
        assert forall|t: Seq<char>| #[trigger] listed(tags@, t) <==> has_tag(gv, t) by {}
    }
    let source = match source_path {
        Some(p) => Some(string_of(p)),
        None => None,
    };
    let count = uniq.len();
    Ok(TemplateMetadata {
        name: string_of(name),
        source_path: source,
        entry_points: entries,
        exit_points: exits,
        task_count: count,
        dependency_count: deps.len(),
        all_tags: tags,
    })
}

/// The status an instantiated task gets when statuses are reset.
pub open spec fn initial_status_of(o: InstantiateOptions) -> Seq<char> {
    match o.initial_status {
        Some(s) => s@,
        None => "pending"@,
    }
}

/// The metrics of a fresh task: eight zeros.
pub open spec fn zero_metrics() -> JsonV {
    JsonV::Array(Seq::new(8, |i: int| JsonV::Int(0)))
}

/// A task row prepared for instantiation: status reset (when asked), title
/// prefixed (when asked and the title is a string), runtime fields cleared,
/// cost and metrics zeroed, and both timestamps set to `now`.
pub open spec fn prepared_row(row: JsonV, o: InstantiateOptions, now: i64) -> JsonV {
    let r1 = if o.reset_status { json_set(row, "status"@, JsonV::Str(initial_status_of(o))) } else { row };
    let r2 = match o.title_prefix {
        Some(p) => match json_str_field(r1, "title"@) {
            Some(t) => json_set(r1, "title"@, JsonV::Str(p@ + ": "@ + t)),
            None => r1,
        },
        None => r1,
    };
    let r3 = json_set(r2, "worker_id"@, JsonV::Null);
    let r4 = json_set(r3, "claimed_at"@, JsonV::Null);
    let r5 = json_set(r4, "current_thought"@, JsonV::Null);
    let r6 = json_set(r5, "started_at"@, JsonV::Null);
    let r7 = json_set(r6, "completed_at"@, JsonV::Null);
    let r8 = json_set(r7, "time_actual_ms"@, JsonV::Null);
    let r9 = json_set(r8, "cost_usd"@, JsonV::Float("0.0"@));
    let r10 = json_set(r9, "metrics"@, zero_metrics());
    let r11 = json_set(r10, "created_at"@, JsonV::Int(now));
    json_set(r11, "updated_at"@, JsonV::Int(now))
}

/// A tag row linking a task to a tag.
pub open spec fn tag_row(id: Seq<char>, tag: Seq<char>) -> JsonV {
    JsonV::Object(seq![("task_id"@, JsonV::Str(id)), ("tag"@, JsonV::Str(tag))])
}

/// One tag row per task and extra tag, task by task.
pub open spec fn extra_tag_rows(ids: Seq<Seq<char>>, tags: Seq<Seq<char>>) -> Seq<JsonV>
    decreases ids.len(),
{
    if ids.len() == 0 {
        Seq::empty()
    } else {
        extra_tag_rows(ids.drop_last(), tags) + Seq::new(tags.len(), |j: int| tag_row(ids.last(), tags[j]))
    }
}

/// Preparing rows, as a function.
pub open spec fn prep_fn(o: InstantiateOptions, now: i64) -> spec_fn(JsonV) -> JsonV {
    |r: JsonV| prepared_row(r, o, now)
}

/// The prepared task rows (none when there is no task table).
pub open spec fn prepared_tasks(tv: Seq<(Seq<char>, Seq<JsonV>)>, o: InstantiateOptions, now: i64) -> Seq<JsonV> {
    table_rows(tv, "tasks"@).map_values(prep_fn(o, now))
}

/// The rows stored under `name` after preparing the (already remapped)
/// tables `tv`: prepared task rows, extra tag rows added to the tag table
/// when there are extra tags, an empty state history, and every other table
/// as it was.
pub open spec fn prepared_get(tv: Seq<(Seq<char>, Seq<JsonV>)>, o: InstantiateOptions, now: i64, name: Seq<char>) -> Option<Seq<JsonV>> {
    if name == "task_sequence"@ {
        Some(Seq::empty())
    } else if name == "task_tags"@ && o.extra_tags@.len() > 0 {
        Some(table_rows(tv, "task_tags"@) + extra_tag_rows(task_ids(prepared_tasks(tv, o, now)), views(o.extra_tags@)))
    } else if name == "tasks"@ {
        match tables_get(tv, "tasks"@) {
            Some(rows) => Some(rows.map_values(prep_fn(o, now))),
            None => None,
        }
    } else {
        tables_get(tv, name)
    }
}

/// The fresh IDs `news` replace the task IDs of the snapshot one for one,
/// are distinct and non-empty, and `map` pairs each old ID with its new one.
pub open spec fn fresh_ids_ok(snapshot: Snapshot, map: Seq<(String, String)>, news: Seq<Seq<char>>) -> bool {
    let olds = task_ids(table_rows(snapshot.tables@, "tasks"@));
    &&& news.len() == olds.len()
    &&& forall|a: int, b: int| 0 <= a < b < news.len() ==> news[a] != news[b]
    &&& forall|a: int| 0 <= a < news.len() ==> (#[trigger] news[a]).len() > 0
    &&& id_map_ok(map, olds, news)
}

/// `prepared` is `snapshot` with its task IDs replaced by `news` and then
/// prepared for instantiation at time `now`.
pub open spec fn prepared_from(snapshot: Snapshot, prepared: Snapshot, map: Seq<(String, String)>, news: Seq<Seq<char>>, now: i64, o: InstantiateOptions) -> bool {
    let rt = remap_tables(snapshot.tables@, task_ids(table_rows(snapshot.tables@, "tasks"@)), news);
    &&& fresh_ids_ok(snapshot, map, news)
    &&& prepared.tables.wf()
    &&& forall|name: Seq<char>| #[trigger] tables_get(prepared.tables@, name) == prepared_get(rt, o, now, name)
    &&& prepared.schema_version == snapshot.schema_version
    &&& prepared.export_version@ == snapshot.export_version@
    &&& prepared.exported_at@ == snapshot.exported_at@
    &&& prepared.exported_by@ == snapshot.exported_by@
}

/// Prepares one task row (see `prepared_row`).
fn prepare_row(row: &mut Json, o: &InstantiateOptions, now: i64)
    ensures
        final(row)@ == prepared_row(old(row)@, *o, now),
{
    if o.reset_status {
        let status = match &o.initial_status {
            Some(s) => s.clone(),
            None => string_of("pending"),
        };
        row.set_field("status", Json::Str(status));
    }
    match &o.title_prefix {
        Some(p) => {
            let title: Option<String> = match row.get_str("title") {
                Some(t) => Some(string_of(t)),
                None => None,
            };
            match title {
                Some(t) => {
                    let mut nt = p.clone();
                    nt.append(": ");
                    nt.append(t.as_str());
                    row.set_field("title", Json::Str(nt));
                }
                None => {}
            }
        }
        None => {}
    }
    row.set_field("worker_id", Json::Null);
    row.set_field("claimed_at", Json::Null);
    row.set_field("current_thought", Json::Null);
    row.set_field("started_at", Json::Null);
    row.set_field("completed_at", Json::Null);
    row.set_field("time_actual_ms", Json::Null);
    row.set_field("cost_usd", Json::Float(string_of("0.0")));
    let mut zeros: Vec<Json> = Vec::new();
    let mut k: usize = 0;
    while k < 8
        invariant
            k <= 8,
            zeros@.len() == k,
            forall|m: int| 0 <= m < k ==> (#[trigger] zeros@[m])@ == JsonV::Int(0),
        decreases 8 - k,
    {
        zeros.push(Json::Int(0));
        k = k + 1;
    }
    let metrics = Json::Array(zeros);
    proof {
        let mv = metrics@->Array_0;
        assert forall|m: int| 0 <= m < 8 implies mv[m] == JsonV::Int(0) by {
            assert(zeros@[m]@ == JsonV::Int(0));
        }
        assert(mv =~= Seq::new(8, |i: int| JsonV::Int(0)));
    }
    row.set_field("metrics", metrics);
    row.set_field("created_at", Json::Int(now));
    row.set_field("updated_at", Json::Int(now));
}

/// The rows, each prepared.
fn prepare_rows(rows: &Vec<Json>, o: &InstantiateOptions, now: i64) -> (r: Vec<Json>)
    ensures
        rows_view(r@) == rows_view(rows@).map_values(prep_fn(*o, now)),
{
    let mut out: Vec<Json> = Vec::new();
    let mut i: usize = 0;
    while i < rows.len()
        invariant
            i <= rows@.len(),
            out@.len() == i,
            forall|k: int| 0 <= k < i ==> (#[trigger] out@[k])@ == prepared_row(rows@[k]@, *o, now),
        decreases rows@.len() - i,
    {
        let mut row = rows[i].clone();
        prepare_row(&mut row, o, now);
        out.push(row);
        i = i + 1;
    }
    proof {
        assert(rows_view(out@) =~= rows_view(rows@).map_values(prep_fn(*o, now)));
    }
    out
}

/// A new tag row linking the task to the tag.
fn new_tag_row(id: &String, tag: &String) -> (r: Json)
    ensures
        r@ == tag_row(id@, tag@),
{
    let mut es: Vec<(String, Json)> = Vec::new();
    es.push((string_of("task_id"), Json::Str(id.clone())));
    es.push((string_of("tag"), Json::Str(tag.clone())));
    let r = Json::Object(es);
    proof {
        let ov = r@->Object_0;
        assert(es@.len() == 2);
        assert(ov.len() == 2);
        assert(ov[0] == (es@[0].0@, es@[0].1@));
        assert(ov[1] == (es@[1].0@, es@[1].1@));
        assert(ov =~= seq![("task_id"@, JsonV::Str(id@)), ("tag"@, JsonV::Str(tag@))]);
    }
    r
}

/// The outcome of preparing `snapshot` given the IDs drawn while
/// remapping it (see `remap_snapshot`): the prepared snapshot with the
/// picked IDs, or the failure when some task found no free ID.
pub open spec fn prepare_outcome(
    snapshot: Snapshot,
    draws: Seq<Seq<Seq<char>>>,
    now: i64,
    o: InstantiateOptions,
    r: Result<(Snapshot, Vec<(String, String)>), String>,
) -> bool {
    match r {
        Ok(p) => picked_ids(draws, draws.len() as int) matches Some(news) && prepared_from(snapshot, p.0, p.1@, news, now, o),
        Err(e) => picked_ids(draws, draws.len() as int) is None && e@ == "Failed to remap template IDs"@,
    }
}

/// Prepare a template snapshot for instantiation: every task ID is replaced
/// by a fresh one (see `remap_snapshot`), then every task row is prepared
/// (see `prepared_row`), each extra tag is added to each task, and the state
/// history is cleared. It fails only when the remapping finds no free ID
/// for some task.
pub fn prepare_snapshot(snapshot: &Snapshot, ids_config: &IdsConfig, options: &InstantiateOptions) -> (r: Result<(Snapshot, Vec<(String, String)>), String>)
    requires
        snapshot.tables.wf(),
    ensures
        exists|draws: Seq<Seq<Seq<char>>>, now: i64|
            remap_draws_made(draws, ids_config.task_id_words, task_ids(table_rows(snapshot.tables@, "tasks"@)).len())
            && #[trigger] prepare_outcome(*snapshot, draws, now, *options, r),
        task_ids(table_rows(snapshot.tables@, "tasks"@)).len() <= 1 ==> r is Ok,
{
    let ghost count = task_ids(table_rows(snapshot.tables@, "tasks"@)).len();
    let ghost words = ids_config.task_id_words;
    let remapped = remap_snapshot(snapshot, ids_config);
    let ghost draws = choose|draws: Seq<Seq<Seq<char>>>|
        remap_draws_made(draws, words, count) && #[trigger] remap_outcome(*snapshot, draws, remapped);
    let (mut prepared, id_map) = match remapped {
        Ok(p) => p,
        Err(_) => {
            let e = string_of("Failed to remap template IDs");
            proof {
                reveal_strlit("Failed to remap template IDs");
                assert(prepare_outcome(*snapshot, draws, 0, *options, Err(e)));
            }
            return Err(e);
        },
    };
    let ghost news = picked_ids(draws, draws.len() as int)->0;
    let ghost rt = prepared.tables@;
    let now = now_ms();
    let ghost o = *options;
    proof {
        reveal_strlit("tasks");
        reveal_strlit("task_tags");
        reveal_strlit("task_sequence");
        assert("tasks"@.len() != "task_sequence"@.len());
        assert("tasks"@.len() != "task_tags"@.len());
        assert("task_tags"@.len() != "task_sequence"@.len());
        assert(rt == remap_tables(snapshot.tables@, task_ids(table_rows(snapshot.tables@, "tasks"@)), news));
    }
    // prepare the task rows
    match prepared.get_table("tasks") {
        Some(rows) => {
            let ghost orig = rows_view(rows@);
            let nr = prepare_rows(rows, options, now);
            prepared.tables.insert(string_of("tasks"), nr);
            proof {
                assert(tables_get(rt, "tasks"@) == Some(orig));
                assert(tables_get(prepared.tables@, "tasks"@) == Some(orig.map_values(prep_fn(o, now))));
                assert(prepared_get(rt, o, now, "tasks"@) == Some(orig.map_values(prep_fn(o, now))));
            }
        }
        None => {}
    }
    let ghost t1 = prepared.tables@;
    proof {
        assert(tables_get(t1, "tasks"@) == prepared_get(rt, o, now, "tasks"@));
        assert forall|name: Seq<char>| name != "tasks"@ implies #[trigger] tables_get(t1, name) == tables_get(rt, name) by {}
        assert(table_rows(t1, "tasks"@) == prepared_tasks(rt, o, now)) by {
            if tables_get(rt, "tasks"@) is None {
                assert(prepared_tasks(rt, o, now) =~= Seq::<JsonV>::empty());
            }
        }
    }
    // extra tags for every task
    if options.extra_tags.len() > 0 {
        let task_rows = rows_of(&prepared, "tasks");
        let ids = collect_task_ids(&task_rows);
        let mut tag_rows = rows_of(&prepared, "task_tags");
        let ghost base = rows_view(tag_rows@);
        let ghost iv = views(ids@);
        let ghost xv = views(options.extra_tags@);
        let mut i: usize = 0;
        while i < ids.len()
            invariant
                i <= ids@.len(),
                iv == views(ids@),
                xv == views(options.extra_tags@),
                rows_view(tag_rows@) == base + extra_tag_rows(iv.take(i as int), xv),
            decreases ids@.len() - i,
        {
            let ghost before = rows_view(tag_rows@);
            let mut k: usize = 0;
            while k < options.extra_tags.len()
                invariant
                    i < ids@.len(),
                    k <= options.extra_tags@.len(),
                    iv == views(ids@),
                    xv == views(options.extra_tags@),
                    rows_view(tag_rows@) == before + Seq::new(k as nat, |j: int| tag_row(iv[i as int], xv[j])),
                decreases options.extra_tags@.len() - k,
            {
                let row = new_tag_row(&ids[i], &options.extra_tags[k]);
                let ghost prev = tag_rows@;
                let ghost rv = row@;
                tag_rows.push(row);
                proof {
                    assert(iv[i as int] == ids@[i as int]@);
                    assert(xv[k as int] == options.extra_tags@[k as int]@);
                    assert(rows_view(tag_rows@) =~= rows_view(prev).push(rv));
                    assert(rows_view(tag_rows@) =~= before + Seq::new((k + 1) as nat, |j: int| tag_row(iv[i as int], xv[j])));
                }
                k = k + 1;
            }
            proof {
                let ids_next = iv.take(i + 1);
                assert(ids_next.drop_last() =~= iv.take(i as int));
                assert(ids_next.last() == iv[i as int]);
                assert(extra_tag_rows(ids_next, xv) == extra_tag_rows(iv.take(i as int), xv)
                    + Seq::new(xv.len(), |j: int| tag_row(iv[i as int], xv[j])));
                assert(rows_view(tag_rows@) =~= base + extra_tag_rows(ids_next, xv));
            }
            i = i + 1;
        }
        proof {
            assert(iv.take(ids@.len() as int) =~= iv);
            assert(tables_get(t1, "task_tags"@) == tables_get(rt, "task_tags"@));
            assert(base == table_rows(rt, "task_tags"@));
            assert(iv == task_ids(prepared_tasks(rt, o, now)));
        }
        prepared.tables.insert(string_of("task_tags"), tag_rows);
        proof {
            assert(tables_get(prepared.tables@, "task_tags"@) == prepared_get(rt, o, now, "task_tags"@));
        }
    }
    let ghost t2 = prepared.tables@;
    proof {
        assert forall|name: Seq<char>| name != "task_sequence"@ implies #[trigger] tables_get(t2, name) == prepared_get(rt, o, now, name) by {
            if name == "tasks"@ {
                assert(tables_get(t2, "tasks"@) == tables_get(t1, "tasks"@));
            }
        }
    }
    let empty: Vec<Json> = Vec::new();
    proof {
        assert(rows_view(empty@) =~= Seq::<JsonV>::empty());
    }
    prepared.tables.insert(string_of("task_sequence"), empty);
    proof {
        let pv = prepared.tables@;
        assert forall|name: Seq<char>| #[trigger] tables_get(pv, name) == prepared_get(rt, o, now, name) by {}
        assert(prepared_from(*snapshot, prepared, id_map@, news, now, o));
    }
    let res: Result<(Snapshot, Vec<(String, String)>), String> = Ok((prepared, id_map));
    proof {
        assert(res matches Ok(p) && prepared_from(*snapshot, p.0, p.1@, news, now, o));
        assert(prepare_outcome(*snapshot, draws, now, *options, res));
    }
    res
}

/// The new ID paired with `old` in the remapping table (its first pair).
pub open spec fn pair_lookup(map: Seq<(String, String)>, old: Seq<char>) -> Option<Seq<char>>
    decreases map.len(),
{
    if map.len() == 0 {
        None
    } else if map[0].0@ == old {
        Some(map[0].1@)
    } else {
        pair_lookup(map.drop_first(), old)
    }
}

/// The new IDs of the old IDs that the table maps, in order; unmapped IDs
/// are left out.
pub open spec fn mapped_ids(olds: Seq<String>, map: Seq<(String, String)>) -> Seq<Seq<char>>
    decreases olds.len(),
{
    if olds.len() == 0 {
        Seq::empty()
    } else {
        let pre = mapped_ids(olds.drop_last(), map);
        match pair_lookup(map, olds.last()@) {
            Some(n) => pre.push(n),
            None => pre,
        }
    }
}

/// The new ID of `old` in the remapping table.
fn lookup_pair(map: &[(String, String)], old: &str) -> (r: Option<String>)
    ensures
        match r {
            Some(n) => pair_lookup(map@, old@) == Some(n@),
            None => pair_lookup(map@, old@) is None,
        },
{
    let mut i: usize = 0;
    proof {
        assert(map@.skip(0) =~= map@);
    }
    while i < map.len()
        invariant
            i <= map@.len(),
            pair_lookup(map@, old@) == pair_lookup(map@.skip(i as int), old@),
        decreases map@.len() - i,
    {
        proof {
            assert(map@.skip(i as int).drop_first() =~= map@.skip(i + 1));
            assert(map@.skip(i as int)[0] == map@[i as int]);
        }
        if str_eq(map[i].0.as_str(), old) {
            return Some(map[i].1.clone());
        }
        i = i + 1;
    }
    None
}

/// The new IDs of the given task IDs under the remapping table, in order;
/// IDs the table does not map are left out.
pub fn map_template_ids(olds: &[String], id_map: &[(String, String)]) -> (r: Vec<String>)
    ensures
        views(r@) == mapped_ids(olds@, id_map@),
{
    let mut out: Vec<String> = Vec::new();
    let mut i: usize = 0;
    while i < olds.len()
        invariant
            i <= olds@.len(),
            views(out@) == mapped_ids(olds@.take(i as int), id_map@),
        decreases olds@.len() - i,
    {
        proof {
            assert(olds@.take(i + 1).drop_last() =~= olds@.take(i as int));
            assert(olds@.take(i + 1).last() == olds@[i as int]);
        }
        match lookup_pair(id_map, olds[i].as_str()) {
            Some(n) => {
                let ghost before = out@;
                let ghost ng = n;
                out.push(n);
                proof {
                    lemma_views_push(before, ng);
                }
            }
            None => {}
        }
        i = i + 1;
    }
    proof {
        assert(olds@.take(olds@.len() as int) =~= olds@);
    }
    out
}

/// The result of an instantiation: the template's metadata, the remapping
/// table, the new IDs of its entry and exit points, the import statistics,
/// and the parent the entry points were attached to, if any.
pub fn instantiation_result(
    metadata: TemplateMetadata,
    id_map: Vec<(String, String)>,
    import_stats: ImportStats,
    parent_task_id: Option<String>,
) -> (r: InstantiateResult)
    ensures
        r.metadata == metadata,
        r.id_map == id_map,
        views(r.entry_point_ids@) == mapped_ids(metadata.entry_points@, id_map@),
        views(r.exit_point_ids@) == mapped_ids(metadata.exit_points@, id_map@),
        r.import_stats == import_stats,
        r.attached_to_parent == parent_task_id,
{
    let entry = map_template_ids(metadata.entry_points.as_slice(), id_map.as_slice());
    let exit = map_template_ids(metadata.exit_points.as_slice(), id_map.as_slice());
    InstantiateResult {
        metadata,
        id_map,
        entry_point_ids: entry,
        exit_point_ids: exit,
        import_stats,
        attached_to_parent: parent_task_id,
    }
}

/// A prepared task row is a fresh task, whatever the template row held:
/// nobody holds it (`worker_id`, `claimed_at` null), it has not started or
/// finished (`started_at`, `completed_at` null), it has no recorded thought
/// or time (`current_thought`, `time_actual_ms` null), both timestamps are
/// `now`, and when statuses are reset its status is the initial one
/// (`pending` unless another is given).
pub proof fn lemma_prepared_row_fresh(row: JsonV, o: InstantiateOptions, now: i64)
    requires
        row is Object,
    ensures
        prepared_row(row, o, now) is Object,
        json_get(prepared_row(row, o, now), "worker_id"@) == Some(JsonV::Null),
        json_get(prepared_row(row, o, now), "claimed_at"@) == Some(JsonV::Null),
        json_get(prepared_row(row, o, now), "current_thought"@) == Some(JsonV::Null),
        json_get(prepared_row(row, o, now), "started_at"@) == Some(JsonV::Null),
        json_get(prepared_row(row, o, now), "completed_at"@) == Some(JsonV::Null),
        json_get(prepared_row(row, o, now), "time_actual_ms"@) == Some(JsonV::Null),
        json_get(prepared_row(row, o, now), "created_at"@) == Some(JsonV::Int(now)),
        json_get(prepared_row(row, o, now), "updated_at"@) == Some(JsonV::Int(now)),
        o.reset_status ==> json_get(prepared_row(row, o, now), "status"@) == Some(JsonV::Str(match o.initial_status {
            Some(s) => s@,
            None => "pending"@,
        })),
{
    reveal_strlit("status");
    reveal_strlit("title");
    reveal_strlit("worker_id");
    reveal_strlit("claimed_at");
    reveal_strlit("current_thought");
    reveal_strlit("started_at");
    reveal_strlit("completed_at");
    reveal_strlit("time_actual_ms");
    reveal_strlit("cost_usd");
    reveal_strlit("metrics");
    reveal_strlit("created_at");
    reveal_strlit("updated_at");
    let r1 = if o.reset_status { json_set(row, "status"@, JsonV::Str(initial_status_of(o))) } else { row };
    let r2 = match o.title_prefix {
        Some(p) => match json_str_field(r1, "title"@) {
            Some(t) => json_set(r1, "title"@, JsonV::Str(p@ + ": "@ + t)),
            None => r1,
        },
        None => r1,
    };
    let r3 = json_set(r2, "worker_id"@, JsonV::Null);
    let r4 = json_set(r3, "claimed_at"@, JsonV::Null);
    let r5 = json_set(r4, "current_thought"@, JsonV::Null);
    let r6 = json_set(r5, "started_at"@, JsonV::Null);
    let r7 = json_set(r6, "completed_at"@, JsonV::Null);
    let r8 = json_set(r7, "time_actual_ms"@, JsonV::Null);
    let r9 = json_set(r8, "cost_usd"@, JsonV::Float("0.0"@));
    let r10 = json_set(r9, "metrics"@, zero_metrics());
    let r11 = json_set(r10, "created_at"@, JsonV::Int(now));
    let r12 = json_set(r11, "updated_at"@, JsonV::Int(now));
    assert(r12 == prepared_row(row, o, now));
    assert("status"@.len() != "title"@.len());
    assert("status"@.len() != "worker_id"@.len());
    assert("status"@.len() != "claimed_at"@.len());
    assert("status"@.len() != "current_thought"@.len());
    assert("status"@.len() != "started_at"@.len());
    assert("status"@.len() != "completed_at"@.len());
    assert("status"@.len() != "time_actual_ms"@.len());
    assert("status"@.len() != "cost_usd"@.len());
    assert("status"@.len() != "metrics"@.len());
    assert("status"@.len() != "created_at"@.len());
    assert("status"@.len() != "updated_at"@.len());
    assert("title"@.len() != "worker_id"@.len());
    assert("title"@.len() != "claimed_at"@.len());
    assert("title"@.len() != "current_thought"@.len());
    assert("title"@.len() != "started_at"@.len());
    assert("title"@.len() != "completed_at"@.len());
    assert("title"@.len() != "time_actual_ms"@.len());
    assert("title"@.len() != "cost_usd"@.len());
    assert("title"@.len() != "metrics"@.len());
    assert("title"@.len() != "created_at"@.len());
    assert("title"@.len() != "updated_at"@.len());
    assert("worker_id"@.len() != "claimed_at"@.len());
    assert("worker_id"@.len() != "current_thought"@.len());
    assert("worker_id"@.len() != "started_at"@.len());
    assert("worker_id"@.len() != "completed_at"@.len());
    assert("worker_id"@.len() != "time_actual_ms"@.len());
    assert("worker_id"@.len() != "cost_usd"@.len());
    assert("worker_id"@.len() != "metrics"@.len());
    assert("worker_id"@.len() != "created_at"@.len());
    assert("worker_id"@.len() != "updated_at"@.len());
    assert("claimed_at"@.len() != "current_thought"@.len());
    assert("claimed_at"@[0] != "started_at"@[0]);
    assert("claimed_at"@.len() != "completed_at"@.len());
    assert("claimed_at"@.len() != "time_actual_ms"@.len());
    assert("claimed_at"@.len() != "cost_usd"@.len());
    assert("claimed_at"@.len() != "metrics"@.len());
    assert("claimed_at"@[1] != "created_at"@[1]);
    assert("claimed_at"@[0] != "updated_at"@[0]);
    assert("current_thought"@.len() != "started_at"@.len());
    assert("current_thought"@.len() != "completed_at"@.len());
    assert("current_thought"@.len() != "time_actual_ms"@.len());
    assert("current_thought"@.len() != "cost_usd"@.len());
    assert("current_thought"@.len() != "metrics"@.len());
    assert("current_thought"@.len() != "created_at"@.len());
    assert("current_thought"@.len() != "updated_at"@.len());
    assert("started_at"@.len() != "completed_at"@.len());
    assert("started_at"@.len() != "time_actual_ms"@.len());
    assert("started_at"@.len() != "cost_usd"@.len());
    assert("started_at"@.len() != "metrics"@.len());
    assert("started_at"@[0] != "created_at"@[0]);
    assert("started_at"@[0] != "updated_at"@[0]);
    assert("completed_at"@.len() != "time_actual_ms"@.len());
    assert("completed_at"@.len() != "cost_usd"@.len());
    assert("completed_at"@.len() != "metrics"@.len());
    assert("completed_at"@.len() != "created_at"@.len());
    assert("completed_at"@.len() != "updated_at"@.len());
    assert("time_actual_ms"@.len() != "cost_usd"@.len());
    assert("time_actual_ms"@.len() != "metrics"@.len());
    assert("time_actual_ms"@.len() != "created_at"@.len());
    assert("time_actual_ms"@.len() != "updated_at"@.len());
    assert("cost_usd"@.len() != "metrics"@.len());
    assert("cost_usd"@.len() != "created_at"@.len());
    assert("cost_usd"@.len() != "updated_at"@.len());
    assert("metrics"@.len() != "created_at"@.len());
    assert("metrics"@.len() != "updated_at"@.len());
    assert("created_at"@[0] != "updated_at"@[0]);
    if o.reset_status {
        lemma_json_get_set(row, "status"@, JsonV::Str(initial_status_of(o)), "status"@);
    }
    assert(r1 is Object);
    match o.title_prefix {
        Some(p) => match json_str_field(r1, "title"@) {
            Some(t) => {
                lemma_json_get_set(r1, "title"@, JsonV::Str(p@ + ": "@ + t), "status"@);
            },
            None => {},
        },
        None => {},
    }
    assert(r2 is Object);
    lemma_json_get_set(r2, "worker_id"@, JsonV::Null, "status"@);
    lemma_json_get_set(r2, "worker_id"@, JsonV::Null, "worker_id"@);
    lemma_json_get_set(r2, "worker_id"@, JsonV::Null, "claimed_at"@);
    lemma_json_get_set(r2, "worker_id"@, JsonV::Null, "current_thought"@);
    lemma_json_get_set(r2, "worker_id"@, JsonV::Null, "started_at"@);
    lemma_json_get_set(r2, "worker_id"@, JsonV::Null, "completed_at"@);
    lemma_json_get_set(r2, "worker_id"@, JsonV::Null, "time_actual_ms"@);
    lemma_json_get_set(r2, "worker_id"@, JsonV::Null, "created_at"@);
    lemma_json_get_set(r2, "worker_id"@, JsonV::Null, "updated_at"@);
    lemma_json_get_set(r3, "claimed_at"@, JsonV::Null, "status"@);
    lemma_json_get_set(r3, "claimed_at"@, JsonV::Null, "worker_id"@);
    lemma_json_get_set(r3, "claimed_at"@, JsonV::Null, "claimed_at"@);
    lemma_json_get_set(r3, "claimed_at"@, JsonV::Null, "current_thought"@);
    lemma_json_get_set(r3, "claimed_at"@, JsonV::Null, "started_at"@);
    lemma_json_get_set(r3, "claimed_at"@, JsonV::Null, "completed_at"@);
    lemma_json_get_set(r3, "claimed_at"@, JsonV::Null, "time_actual_ms"@);
    lemma_json_get_set(r3, "claimed_at"@, JsonV::Null, "created_at"@);
    lemma_json_get_set(r3, "claimed_at"@, JsonV::Null, "updated_at"@);
    lemma_json_get_set(r4, "current_thought"@, JsonV::Null, "status"@);
    lemma_json_get_set(r4, "current_thought"@, JsonV::Null, "worker_id"@);
    lemma_json_get_set(r4, "current_thought"@, JsonV::Null, "claimed_at"@);
    lemma_json_get_set(r4, "current_thought"@, JsonV::Null, "current_thought"@);
    lemma_json_get_set(r4, "current_thought"@, JsonV::Null, "started_at"@);
    lemma_json_get_set(r4, "current_thought"@, JsonV::Null, "completed_at"@);
    lemma_json_get_set(r4, "current_thought"@, JsonV::Null, "time_actual_ms"@);
    lemma_json_get_set(r4, "current_thought"@, JsonV::Null, "created_at"@);
    lemma_json_get_set(r4, "current_thought"@, JsonV::Null, "updated_at"@);
    lemma_json_get_set(r5, "started_at"@, JsonV::Null, "status"@);
    lemma_json_get_set(r5, "started_at"@, JsonV::Null, "worker_id"@);
    lemma_json_get_set(r5, "started_at"@, JsonV::Null, "claimed_at"@);
    lemma_json_get_set(r5, "started_at"@, JsonV::Null, "current_thought"@);
    lemma_json_get_set(r5, "started_at"@, JsonV::Null, "started_at"@);
    lemma_json_get_set(r5, "started_at"@, JsonV::Null, "completed_at"@);
    lemma_json_get_set(r5, "started_at"@, JsonV::Null, "time_actual_ms"@);
    lemma_json_get_set(r5, "started_at"@, JsonV::Null, "created_at"@);
    lemma_json_get_set(r5, "started_at"@, JsonV::Null, "updated_at"@);
    lemma_json_get_set(r6, "completed_at"@, JsonV::Null, "status"@);
    lemma_json_get_set(r6, "completed_at"@, JsonV::Null, "worker_id"@);
    lemma_json_get_set(r6, "completed_at"@, JsonV::Null, "claimed_at"@);
    lemma_json_get_set(r6, "completed_at"@, JsonV::Null, "current_thought"@);
    lemma_json_get_set(r6, "completed_at"@, JsonV::Null, "started_at"@);
    lemma_json_get_set(r6, "completed_at"@, JsonV::Null, "completed_at"@);
    lemma_json_get_set(r6, "completed_at"@, JsonV::Null, "time_actual_ms"@);
    lemma_json_get_set(r6, "completed_at"@, JsonV::Null, "created_at"@);
    lemma_json_get_set(r6, "completed_at"@, JsonV::Null, "updated_at"@);
    lemma_json_get_set(r7, "time_actual_ms"@, JsonV::Null, "status"@);
    lemma_json_get_set(r7, "time_actual_ms"@, JsonV::Null, "worker_id"@);
    lemma_json_get_set(r7, "time_actual_ms"@, JsonV::Null, "claimed_at"@);
    lemma_json_get_set(r7, "time_actual_ms"@, JsonV::Null, "current_thought"@);
    lemma_json_get_set(r7, "time_actual_ms"@, JsonV::Null, "started_at"@);
    lemma_json_get_set(r7, "time_actual_ms"@, JsonV::Null, "completed_at"@);
    lemma_json_get_set(r7, "time_actual_ms"@, JsonV::Null, "time_actual_ms"@);
    lemma_json_get_set(r7, "time_actual_ms"@, JsonV::Null, "created_at"@);
    lemma_json_get_set(r7, "time_actual_ms"@, JsonV::Null, "updated_at"@);
    lemma_json_get_set(r8, "cost_usd"@, JsonV::Float("0.0"@), "status"@);
    lemma_json_get_set(r8, "cost_usd"@, JsonV::Float("0.0"@), "worker_id"@);
    lemma_json_get_set(r8, "cost_usd"@, JsonV::Float("0.0"@), "claimed_at"@);
    lemma_json_get_set(r8, "cost_usd"@, JsonV::Float("0.0"@), "current_thought"@);
    lemma_json_get_set(r8, "cost_usd"@, JsonV::Float("0.0"@), "started_at"@);
    lemma_json_get_set(r8, "cost_usd"@, JsonV::Float("0.0"@), "completed_at"@);
    lemma_json_get_set(r8, "cost_usd"@, JsonV::Float("0.0"@), "time_actual_ms"@);
    lemma_json_get_set(r8, "cost_usd"@, JsonV::Float("0.0"@), "created_at"@);
    lemma_json_get_set(r8, "cost_usd"@, JsonV::Float("0.0"@), "updated_at"@);
    lemma_json_get_set(r9, "metrics"@, zero_metrics(), "status"@);
    lemma_json_get_set(r9, "metrics"@, zero_metrics(), "worker_id"@);
    lemma_json_get_set(r9, "metrics"@, zero_metrics(), "claimed_at"@);
    lemma_json_get_set(r9, "metrics"@, zero_metrics(), "current_thought"@);
    lemma_json_get_set(r9, "metrics"@, zero_metrics(), "started_at"@);
    lemma_json_get_set(r9, "metrics"@, zero_metrics(), "completed_at"@);
    lemma_json_get_set(r9, "metrics"@, zero_metrics(), "time_actual_ms"@);
    lemma_json_get_set(r9, "metrics"@, zero_metrics(), "created_at"@);
    lemma_json_get_set(r9, "metrics"@, zero_metrics(), "updated_at"@);
    lemma_json_get_set(r10, "created_at"@, JsonV::Int(now), "status"@);
    lemma_json_get_set(r10, "created_at"@, JsonV::Int(now), "worker_id"@);
    lemma_json_get_set(r10, "created_at"@, JsonV::Int(now), "claimed_at"@);
    lemma_json_get_set(r10, "created_at"@, JsonV::Int(now), "current_thought"@);
    lemma_json_get_set(r10, "created_at"@, JsonV::Int(now), "started_at"@);
    lemma_json_get_set(r10, "created_at"@, JsonV::Int(now), "completed_at"@);
    lemma_json_get_set(r10, "created_at"@, JsonV::Int(now), "time_actual_ms"@);
    lemma_json_get_set(r10, "created_at"@, JsonV::Int(now), "created_at"@);
    lemma_json_get_set(r10, "created_at"@, JsonV::Int(now), "updated_at"@);
    lemma_json_get_set(r11, "updated_at"@, JsonV::Int(now), "status"@);
    lemma_json_get_set(r11, "updated_at"@, JsonV::Int(now), "worker_id"@);
    lemma_json_get_set(r11, "updated_at"@, JsonV::Int(now), "claimed_at"@);
    lemma_json_get_set(r11, "updated_at"@, JsonV::Int(now), "current_thought"@);
    lemma_json_get_set(r11, "updated_at"@, JsonV::Int(now), "started_at"@);
    lemma_json_get_set(r11, "updated_at"@, JsonV::Int(now), "completed_at"@);
    lemma_json_get_set(r11, "updated_at"@, JsonV::Int(now), "time_actual_ms"@);
    lemma_json_get_set(r11, "updated_at"@, JsonV::Int(now), "created_at"@);
    lemma_json_get_set(r11, "updated_at"@, JsonV::Int(now), "updated_at"@);
}

/// Every task of a prepared template snapshot is a fresh task (see
/// `lemma_prepared_row_fresh`): whatever the template's task rows held, the
/// prepared rows carry no worker, no claim, no start or completion time, no
/// thought and no recorded time.
pub proof fn lemma_prepared_snapshot_fresh(
    snapshot: Snapshot,
    prepared: Snapshot,
    map: Seq<(String, String)>,
    news: Seq<Seq<char>>,
    now: i64,
    o: InstantiateOptions,
    i: int,
)
    requires
        prepared_from(snapshot, prepared, map, news, now, o),
        0 <= i < table_rows(prepared.tables@, "tasks"@).len(),
        table_rows(prepared.tables@, "tasks"@)[i] is Object,
    ensures
        json_get(table_rows(prepared.tables@, "tasks"@)[i], "worker_id"@) == Some(JsonV::Null),
        json_get(table_rows(prepared.tables@, "tasks"@)[i], "claimed_at"@) == Some(JsonV::Null),
        json_get(table_rows(prepared.tables@, "tasks"@)[i], "current_thought"@) == Some(JsonV::Null),
        json_get(table_rows(prepared.tables@, "tasks"@)[i], "started_at"@) == Some(JsonV::Null),
        json_get(table_rows(prepared.tables@, "tasks"@)[i], "completed_at"@) == Some(JsonV::Null),
        json_get(table_rows(prepared.tables@, "tasks"@)[i], "time_actual_ms"@) == Some(JsonV::Null),
        json_get(table_rows(prepared.tables@, "tasks"@)[i], "created_at"@) == Some(JsonV::Int(now)),
        json_get(table_rows(prepared.tables@, "tasks"@)[i], "updated_at"@) == Some(JsonV::Int(now)),
        o.reset_status ==> json_get(table_rows(prepared.tables@, "tasks"@)[i], "status"@) == Some(JsonV::Str(
            match o.initial_status {
                Some(s) => s@,
                None => "pending"@,
            },
        )),
{
    let rt = remap_tables(snapshot.tables@, task_ids(table_rows(snapshot.tables@, "tasks"@)), news);
    reveal_strlit("tasks");
    reveal_strlit("task_tags");
    reveal_strlit("task_sequence");
    assert("tasks"@.len() != "task_sequence"@.len());
    assert("tasks"@.len() != "task_tags"@.len());
    assert(tables_get(prepared.tables@, "tasks"@) == prepared_get(rt, o, now, "tasks"@));
    let rows = tables_get(rt, "tasks"@)->0;
    assert(tables_get(rt, "tasks"@) is Some);
    assert(table_rows(prepared.tables@, "tasks"@) == rows.map_values(prep_fn(o, now)));
    let x = rows[i];
    assert(table_rows(prepared.tables@, "tasks"@)[i] == prepared_row(x, o, now));
    if !(x is Object) {
        assert(prepared_row(x, o, now) == x);
    }
    lemma_prepared_row_fresh(x, o, now);
}

/// Only containment makes a template task a child. A task of the template
/// that no `contains` dependency points to is an entry point, whatever
/// other dependencies (`blocks`, `follows`, ...) link it; a task that a
/// `contains` dependency from another task of the template points to is
/// not.
pub proof fn lemma_entry_points_by_containment(
    m: TemplateMetadata,
    tv: Seq<(Seq<char>, Seq<JsonV>)>,
    name: Seq<char>,
    source_path: Option<Seq<char>>,
    t: Seq<char>,
)
    requires
        metadata_of(m, tv, name, source_path),
        task_ids(table_rows(tv, "tasks"@)).contains(t),
        t.len() > 0,
    ensures
        (forall|i: int| 0 <= i < table_rows(tv, "dependencies"@).len() ==> !(
            json_str_field(#[trigger] table_rows(tv, "dependencies"@)[i], "dep_type"@) == Some("contains"@)
            && json_str_field(table_rows(tv, "dependencies"@)[i], "to_task_id"@) == Some(t)))
            ==> listed(m.entry_points@, t),
        (exists|i: int| 0 <= i < table_rows(tv, "dependencies"@).len()
            && json_str_field(#[trigger] table_rows(tv, "dependencies"@)[i], "dep_type"@) == Some("contains"@)
            && json_str_field(table_rows(tv, "dependencies"@)[i], "to_task_id"@) == Some(t)
            && json_str_field(table_rows(tv, "dependencies"@)[i], "from_task_id"@) is Some
            && task_ids(table_rows(tv, "tasks"@)).contains(
                json_str_field(table_rows(tv, "dependencies"@)[i], "from_task_id"@)->0))
            ==> !listed(m.entry_points@, t),
{
    let ids = task_ids(table_rows(tv, "tasks"@));
    let deps = table_rows(tv, "dependencies"@);
    reveal_strlit("contains");
    reveal_strlit("");
    assert("contains"@ != ""@) by {
        assert("contains"@.len() != ""@.len());
    }
    if forall|i: int| 0 <= i < deps.len() ==> !(json_str_field(#[trigger] deps[i], "dep_type"@) == Some("contains"@)
        && json_str_field(deps[i], "to_task_id"@) == Some(t)) {
        if is_child(ids, deps, t) {
            let i = choose|i: int| 0 <= i < deps.len() && child_of_dep(ids, deps[i], t);
            assert(json_str_field(deps[i], "dep_type"@) == Some("contains"@));
            assert(json_str_field(deps[i], "to_task_id"@) == Some(t));
        }
    }
    if exists|i: int| 0 <= i < deps.len()
        && json_str_field(#[trigger] deps[i], "dep_type"@) == Some("contains"@)
        && json_str_field(deps[i], "to_task_id"@) == Some(t)
        && json_str_field(deps[i], "from_task_id"@) is Some
        && ids.contains(json_str_field(deps[i], "from_task_id"@)->0) {
        let i = choose|i: int| 0 <= i < deps.len()
            && json_str_field(#[trigger] deps[i], "dep_type"@) == Some("contains"@)
            && json_str_field(deps[i], "to_task_id"@) == Some(t)
            && json_str_field(deps[i], "from_task_id"@) is Some
            && ids.contains(json_str_field(deps[i], "from_task_id"@)->0);
        assert(child_of_dep(ids, deps[i], t));
        assert(is_child(ids, deps, t));
    }
}

} // verus!
