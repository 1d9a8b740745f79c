//! Import options and results, the roots of an imported task tree, and the
//! remapping of task IDs in a snapshot.

use vstd::prelude::*;
use crate::json::{Json, JsonV, json_str_field, json_set};
use crate::export::{Snapshot, Tables, rows_view, tables_get};
use crate::text::{str_eq, views, lemma_views_push, string_of};
use crate::ids::{IdsConfig, generate_task_id, petname_shape, fallback_task_id};

verus! {

/// Import mode determining how to handle existing data.
#[derive(Debug, Clone, Copy, PartialEq, Eq, Structural)]
pub enum ImportMode {
    /// Import into an empty database. Fails if any project data exists.
    Fresh,
    /// Clear all existing project data before importing.
    Replace,
    /// Add missing items, skip existing ones.
    Merge,
}

impl Default for ImportMode {
    fn default() -> (r: Self)
        ensures
            r == ImportMode::Fresh,
    {
        ImportMode::Fresh
    }
}

/// Row counts keyed by table name, each name at most once.
#[derive(Debug, Clone)]
pub struct TableCounts {
    entries: Vec<(String, usize)>,
}

/// The sum of the counts.
pub open spec fn counts_sum(s: Seq<(Seq<char>, usize)>) -> nat
    decreases s.len(),
{
    if s.len() == 0 { 0 } else { counts_sum(s.drop_last()) + s.last().1 as nat }
}

/// The count stored under the name, if any.
pub open spec fn counts_get(s: Seq<(Seq<char>, usize)>, name: Seq<char>) -> Option<usize> {
    if exists|i: int| 0 <= i < s.len() && s[i].0 == name {
        Some(s[choose|i: int| 0 <= i < s.len() && s[i].0 == name].1)
    } else {
        None
    }
}

proof fn lemma_counts_sum_update(s: Seq<(Seq<char>, usize)>, i: int, e: (Seq<char>, usize))
    requires
        0 <= i < s.len(),
    ensures
        counts_sum(s.update(i, e)) == counts_sum(s) - s[i].1 + e.1,
    decreases s.len(),
{
    if i == s.len() - 1 {
        assert(s.update(i, e).drop_last() =~= s.drop_last());
    } else {
        lemma_counts_sum_update(s.drop_last(), i, e);
        assert(s.update(i, e).drop_last() =~= s.drop_last().update(i, e));
    }
}

impl View for TableCounts {
    type V = Seq<(Seq<char>, usize)>;

    closed spec fn view(&self) -> Seq<(Seq<char>, usize)> {
        Seq::new(self.entries@.len(), |i: int| (self.entries@[i].0@, self.entries@[i].1))
    }
}

impl TableCounts {
    /// Every name occurs once.
    pub closed spec fn wf(&self) -> bool {
        forall|i: int, j: int| 0 <= i < j < self@.len() ==> self@[i].0 != self@[j].0
    }

    /// No counts.
    pub fn new() -> (r: Self)
        ensures
            r@.len() == 0,
            r.wf(),
    {
        TableCounts { entries: Vec::new() }
    }

    /// The count stored under the name.
    pub fn get(&self, name: &str) -> (r: Option<usize>)
        requires
            self.wf(),
        ensures
            r == counts_get(self@, name@),
    {
        let mut i: usize = 0;
        while i < self.entries.len()
            invariant
                i <= self.entries@.len(),
                self.wf(),
                self@.len() == self.entries@.len(),
                forall|k: int| 0 <= k < i ==> self@[k].0 != name@,
            decreases self.entries@.len() - i,
        {
            if str_eq(self.entries[i].0.as_str(), name) {
                proof {
                    assert(self@[i as int] == (self.entries@[i as int].0@, self.entries@[i as int].1));
                    let c = choose|k: int| 0 <= k < self@.len() && self@[k].0 == name@;
                    assert(self@[i as int].0 == name@);
                    if c != i as int { if c < i as int {} else {} }
                }
                return Some(self.entries[i].1);
            }
            i = i + 1;
        }
        None
    }

    /// Stores the count under the name, replacing any stored count.
    pub fn insert(&mut self, name: String, count: usize)
        requires
            old(self).wf(),
        ensures
            final(self).wf(),
            counts_get(final(self)@, name@) == Some(count),
            forall|other: Seq<char>| other != name@ ==> counts_get(final(self)@, other) == counts_get(old(self)@, other),
            counts_get(old(self)@, name@) is None ==> counts_sum(final(self)@) == counts_sum(old(self)@) + count,
            counts_get(old(self)@, name@) matches Some(c) ==> counts_sum(final(self)@) == counts_sum(old(self)@) - c + count,
    {
        let ghost before = self@;
        let ghost nm = name@;
        let mut i: usize = 0;
        while i < self.entries.len()
            invariant
                i <= self.entries@.len(),
                self@ == before,
                before == old(self)@,
                nm == name@,
                forall|x: int, y: int| 0 <= x < y < before.len() ==> before[x].0 != before[y].0,
                self@.len() == self.entries@.len(),
                forall|k: int| 0 <= k < i ==> self@[k].0 != name@,
            decreases self.entries@.len() - i,
        {
            if str_eq(self.entries[i].0.as_str(), name.as_str()) {
                let ghost old_entries = self.entries@;
                self.entries.set(i, (name, count));
                proof {
                    assert forall|k: int| 0 <= k < self@.len() implies self@[k] == before.update(i as int, (nm, count))[k] by {
                        if k != i as int {
                            assert(self.entries@[k] == old_entries[k]);
                        } else {
                            assert(self.entries@[k].0@ == nm);
                        }
                    }
                    assert(self@ =~= before.update(i as int, (nm, count)));
                    lemma_counts_sum_update(before, i as int, (nm, count));
                    let after = self@;
                    assert forall|x: int, y: int| 0 <= x < y < after.len() implies after[x].0 != after[y].0 by {
                        assert(before[x].0 != before[y].0);
                    }
                    assert forall|other: Seq<char>| other != nm implies counts_get(after, other) == counts_get(before, other) by {
                        if exists|k: int| 0 <= k < before.len() && before[k].0 == other {
                            let k = choose|k: int| 0 <= k < before.len() && before[k].0 == other;
                            assert(after[k] == before[k]);
                            let ka = choose|k2: int| 0 <= k2 < after.len() && after[k2].0 == other;
                            if ka != k { if ka < k {} else {} }
                        }
                        if exists|k: int| 0 <= k < after.len() && after[k].0 == other {
                            let k = choose|k: int| 0 <= k < after.len() && after[k].0 == other;
                            assert(before[k] == after[k]);
                        }
                    }
                    assert(after[i as int].0 == nm);
                    let c = choose|k: int| 0 <= k < after.len() && after[k].0 == nm;
                    if c != i as int { if c < i as int {} else {} }
                    let cb = choose|k: int| 0 <= k < before.len() && before[k].0 == nm;
                    assert(before[i as int].0 == nm);
                    if cb != i as int { if cb < i as int {} else {} }
                }
                return;
            }
            i = i + 1;
        }
        let ghost old_entries = self.entries@;
        self.entries.push((name, count));
        proof {
            assert forall|k: int| 0 <= k < before.len() implies self@[k] == before[k] by {
                assert(self.entries@[k] == old_entries[k]);
            }
            assert(self@ =~= before.push((nm, count)));
            assert(self@.drop_last() =~= before);
            let after = self@;
            assert forall|x: int, y: int| 0 <= x < y < after.len() implies after[x].0 != after[y].0 by {
                if y < before.len() {
                    assert(before[x].0 != before[y].0);
                }
            }
            assert forall|other: Seq<char>| other != nm implies counts_get(after, other) == counts_get(before, other) by {
                if exists|k: int| 0 <= k < before.len() && before[k].0 == other {
                    let k = choose|k: int| 0 <= k < before.len() && before[k].0 == other;
                    assert(after[k] == before[k]);
                    let ka = choose|k2: int| 0 <= k2 < after.len() && after[k2].0 == other;
                    if ka != k { if ka < k {} else {} }
                }
                if exists|k: int| 0 <= k < after.len() && after[k].0 == other {
                    let k = choose|k: int| 0 <= k < after.len() && after[k].0 == other;
                    assert(before[k] == after[k]);
                }
            }
            assert(after[before.len() as int].0 == nm);
            let c = choose|k: int| 0 <= k < after.len() && after[k].0 == nm;
            if c != before.len() as int {}
        }
    }

    /// The sum of all counts.
    pub fn total(&self) -> (r: usize)
        requires
            counts_sum(self@) <= usize::MAX,
        ensures
            r == counts_sum(self@),
    {
        let mut sum: usize = 0;
        let mut i: usize = 0;
        while i < self.entries.len()
            invariant
                i <= self.entries@.len(),
                self@.len() == self.entries@.len(),
                counts_sum(self@) <= usize::MAX,
                sum == counts_sum(self@.take(i as int)),
            decreases self.entries@.len() - i,
        {
            proof {
                assert(self@.take(i + 1).drop_last() =~= self@.take(i as int));
                lemma_counts_sum_prefix(self@, i + 1);
            }
            sum = sum + self.entries[i].1;
            i = i + 1;
        }
        proof {
            assert(self@.take(i as int) =~= self@);
        }
        sum
    }

    /// The stored (name, count) pairs, in insertion order.
    pub fn entries(&self) -> (r: &Vec<(String, usize)>)
        ensures
            r@.len() == self@.len(),
            forall|i: int| 0 <= i < r@.len() ==> (#[trigger] r@[i]).0@ == self@[i].0 && r@[i].1 == self@[i].1,
    {
        &self.entries
    }
}

proof fn lemma_counts_sum_prefix(s: Seq<(Seq<char>, usize)>, k: int)
    requires
        0 <= k <= s.len(),
    ensures
        counts_sum(s.take(k)) <= counts_sum(s),
    decreases s.len() - k,
{
    if k < s.len() {
        lemma_counts_sum_prefix(s, k + 1);
        assert(s.take(k + 1).drop_last() =~= s.take(k));
    } else {
        assert(s.take(k) =~= s);
    }
}

/// Result of a dry-run import preview.
#[derive(Debug, Clone)]
pub struct DryRunResult {
    /// Import mode that would be used.
    pub mode: ImportMode,
    /// Whether the database is empty (relevant for Fresh mode).
    pub database_is_empty: bool,
    /// Number of existing rows per table (before import).
    pub existing_rows: TableCounts,
    /// Number of rows that would be deleted per table (Replace mode).
    pub would_delete: TableCounts,
    /// Number of rows that would be inserted per table.
    pub would_insert: TableCounts,
    /// Number of rows that would be skipped per table (Merge mode).
    pub would_skip: TableCounts,
    /// Whether the import would succeed with the given mode.
    pub would_succeed: bool,
    /// Reason for failure if would_succeed is false.
    pub failure_reason: Option<String>,
    /// Any warnings that would be generated.
    pub warnings: Vec<String>,
}

impl DryRunResult {
    /// A new preview for the mode: nothing counted, success expected.
    pub fn new(mode: ImportMode) -> (r: Self)
        ensures
            r.mode == mode,
            r.database_is_empty,
            r.existing_rows@.len() == 0 && r.existing_rows.wf(),
            r.would_delete@.len() == 0 && r.would_delete.wf(),
            r.would_insert@.len() == 0 && r.would_insert.wf(),
            r.would_skip@.len() == 0 && r.would_skip.wf(),
            r.would_succeed,
            r.failure_reason is None,
            r.warnings@.len() == 0,
    {
        DryRunResult {
            mode,
            database_is_empty: true,
            existing_rows: TableCounts::new(),
            would_delete: TableCounts::new(),
            would_insert: TableCounts::new(),
            would_skip: TableCounts::new(),
            would_succeed: true,
            failure_reason: None,
            warnings: Vec::new(),
        }
    }

    /// Total number of rows that would be deleted.
    pub fn total_would_delete(&self) -> (r: usize)
        requires
            counts_sum(self.would_delete@) <= usize::MAX,
        ensures
            r == counts_sum(self.would_delete@),
    {
        self.would_delete.total()
    }

    /// Total number of rows that would be inserted.
    pub fn total_would_insert(&self) -> (r: usize)
        requires
            counts_sum(self.would_insert@) <= usize::MAX,
        ensures
            r == counts_sum(self.would_insert@),
    {
        self.would_insert.total()
    }

    /// Total number of rows that would be skipped.
    pub fn total_would_skip(&self) -> (r: usize)
        requires
            counts_sum(self.would_skip@) <= usize::MAX,
        ensures
            r == counts_sum(self.would_skip@),
    {
        self.would_skip.total()
    }

    /// Total existing rows in the database.
    pub fn total_existing(&self) -> (r: usize)
        requires
            counts_sum(self.existing_rows@) <= usize::MAX,
        ensures
            r == counts_sum(self.existing_rows@),
    {
        self.existing_rows.total()
    }
}

/// Result of an import operation.
#[derive(Debug, Clone)]
pub struct ImportResult {
    /// Number of rows imported per table.
    pub rows_imported: TableCounts,
    /// Number of rows deleted per table (for replace mode).
    pub rows_deleted: TableCounts,
    /// Number of rows skipped per table (for merge mode).
    pub rows_skipped: TableCounts,
    /// Whether FTS indexes were rebuilt.
    pub fts_rebuilt: bool,
    /// Any warnings encountered during import.
    pub warnings: Vec<String>,
    /// ID remapping table (old_id, new_id), present when remapping was used.
    pub id_remap: Option<Vec<(String, String)>>,
    /// Root task IDs that were attached to a parent.
    pub parent_linked_roots: Vec<String>,
}

impl ImportResult {
    /// A new result with nothing counted.
    pub fn new() -> (r: Self)
        ensures
            r.rows_imported@.len() == 0 && r.rows_imported.wf(),
            r.rows_deleted@.len() == 0 && r.rows_deleted.wf(),
            r.rows_skipped@.len() == 0 && r.rows_skipped.wf(),
            !r.fts_rebuilt,
            r.warnings@.len() == 0,
            r.id_remap is None,
            r.parent_linked_roots@.len() == 0,
    {
        ImportResult {
            rows_imported: TableCounts::new(),
            rows_deleted: TableCounts::new(),
            rows_skipped: TableCounts::new(),
            fts_rebuilt: false,
            warnings: Vec::new(),
            id_remap: None,
            parent_linked_roots: Vec::new(),
        }
    }

    /// Total number of rows imported.
    pub fn total_rows(&self) -> (r: usize)
        requires
            counts_sum(self.rows_imported@) <= usize::MAX,
        ensures
            r == counts_sum(self.rows_imported@),
    {
        self.rows_imported.total()
    }

    /// Total number of rows deleted.
    pub fn total_deleted(&self) -> (r: usize)
        requires
            counts_sum(self.rows_deleted@) <= usize::MAX,
        ensures
            r == counts_sum(self.rows_deleted@),
    {
        self.rows_deleted.total()
    }

    /// Total number of rows skipped.
    pub fn total_skipped(&self) -> (r: usize)
        requires
            counts_sum(self.rows_skipped@) <= usize::MAX,
        ensures
            r == counts_sum(self.rows_skipped@),
    {
        self.rows_skipped.total()
    }
}

/// Options for controlling import behavior.
#[derive(Debug, Clone)]
pub struct ImportOptions {
    /// Import mode.
    pub mode: ImportMode,
    /// Whether to remap all task IDs to fresh IDs.
    pub remap_ids: bool,
    /// Optional parent task ID for the imported root tasks.
    pub parent_id: Option<String>,
}

impl Default for ImportOptions {
    fn default() -> (r: Self)
        ensures
            r.mode == ImportMode::Fresh,
            !r.remap_ids,
            r.parent_id is None,
    {
        ImportOptions::fresh()
    }
}

impl ImportOptions {
    /// Options for fresh import (empty database required).
    pub fn fresh() -> (r: Self)
        ensures
            r.mode == ImportMode::Fresh,
            !r.remap_ids,
            r.parent_id is None,
    {
        ImportOptions { mode: ImportMode::Fresh, remap_ids: false, parent_id: None }
    }

    /// Options for replace import (clear existing data).
    pub fn replace() -> (r: Self)
        ensures
            r.mode == ImportMode::Replace,
            !r.remap_ids,
            r.parent_id is None,
    {
        ImportOptions { mode: ImportMode::Replace, remap_ids: false, parent_id: None }
    }

    /// Options for merge import (add missing items, skip existing).
    pub fn merge() -> (r: Self)
        ensures
            r.mode == ImportMode::Merge,
            !r.remap_ids,
            r.parent_id is None,
    {
        ImportOptions { mode: ImportMode::Merge, remap_ids: false, parent_id: None }
    }

    /// The same options with ID remapping enabled.
    pub fn with_remap_ids(self) -> (r: Self)
        ensures
            r.mode == self.mode,
            r.remap_ids,
            r.parent_id == self.parent_id,
    {
        let mut r = self;
        r.remap_ids = true;
        r
    }

    /// The same options with the parent task set.
    pub fn with_parent(self, parent_id: String) -> (r: Self)
        ensures
            r.mode == self.mode,
            r.remap_ids == self.remap_ids,
            r.parent_id == Some(parent_id),
    {
        let mut r = self;
        r.parent_id = Some(parent_id);
        r
    }
}

} // verus!

verus! {

/// The rows of the named table, or no rows when the table is absent.
pub open spec fn table_rows(tv: Seq<(Seq<char>, Seq<JsonV>)>, name: Seq<char>) -> Seq<JsonV> {
    match tables_get(tv, name) {
        Some(rows) => rows,
        None => Seq::empty(),
    }
}

/// The string `id` fields of the rows, in row order.
pub open spec fn task_ids(rows: Seq<JsonV>) -> Seq<Seq<char>>
    decreases rows.len(),
{
    if rows.len() == 0 {
        Seq::empty()
    } else {
        let pre = task_ids(rows.drop_last());
        match json_str_field(rows.last(), "id"@) {
            Some(id) => pre.push(id),
            None => pre,
        }
    }
}

/// The task IDs that are the target of a "contains" dependency.
pub open spec fn contained_ids(deps: Seq<JsonV>) -> Set<Seq<char>> {
    Set::new(|t: Seq<char>| exists|i: int| 0 <= i < deps.len()
        && json_str_field(deps[i], "dep_type"@) == Some("contains"@)
        && json_str_field(deps[i], "to_task_id"@) == Some(t))
}

/// The root tasks of a snapshot: task IDs that no "contains" dependency points to.
pub open spec fn root_task_ids(tv: Seq<(Seq<char>, Seq<JsonV>)>) -> Set<Seq<char>> {
    Set::new(|t: Seq<char>| task_ids(table_rows(tv, "tasks"@)).contains(t)
        && !contained_ids(table_rows(tv, "dependencies"@)).contains(t))
}

/// Some string of the vector has the characters `t`.
pub open spec fn listed(v: Seq<String>, t: Seq<char>) -> bool {
    exists|a: int| 0 <= a < v.len() && v[a]@ == t
}

proof fn lemma_task_ids_prefix(rows: Seq<JsonV>, i: int)
    requires
        0 <= i < rows.len(),
    ensures
        task_ids(rows.take(i + 1)) == match json_str_field(rows[i], "id"@) {
            Some(id) => task_ids(rows.take(i)).push(id),
            None => task_ids(rows.take(i)),
        },
{
    assert(rows.take(i + 1).drop_last() =~= rows.take(i));
}

/// Whether some "contains" dependency row points to `id`.
fn is_contained(deps: &Vec<Json>, id: &str) -> (r: bool)
    ensures
        r == contained_ids(rows_view(deps@)).contains(id@),
{
    let ghost dv = rows_view(deps@);
    let mut i: usize = 0;
    while i < deps.len()
        invariant
            i <= deps@.len(),
            dv == rows_view(deps@),
            forall|k: int| 0 <= k < i ==> !(json_str_field(dv[k], "dep_type"@) == Some("contains"@)
                && json_str_field(dv[k], "to_task_id"@) == Some(id@)),
        decreases deps@.len() - i,
    {
        let d = &deps[i];
        let mut hit = false;
        match d.get_str("dep_type") {
            Some(t) => {
                if str_eq(t, "contains") {
                    match d.get_str("to_task_id") {
                        Some(to) => {
                            if str_eq(to, id) {
                                hit = true;
                            }
                        }
                        None => {}
                    }
                }
            }
            None => {}
        }
        proof {
            assert(dv[i as int] == deps@[i as int]@);
        }
        if hit {
            return true;
        }
        i = i + 1;
    }
    false
}

/// Whether the string is among the strings.
pub(crate) fn contains_string(v: &Vec<String>, s: &str) -> (r: bool)
    ensures
        r == exists|k: int| 0 <= k < v@.len() && v@[k]@ == s@,
{
    let mut i: usize = 0;
    while i < v.len()
        invariant
            i <= v@.len(),
            forall|k: int| 0 <= k < i ==> v@[k]@ != s@,
        decreases v@.len() - i,
    {
        if str_eq(v[i].as_str(), s) {
            return true;
        }
        i = i + 1;
    }
    false
}

/// The IDs of the root tasks of a snapshot: tasks that are not the target of
/// a "contains" dependency within the snapshot. Each ID is listed once.
pub fn snapshot_root_task_ids(snapshot: &Snapshot) -> (r: Vec<String>)
    requires
        snapshot.tables.wf(),
    ensures
        forall|i: int, j: int| 0 <= i < j < r@.len() ==> r@[i]@ != r@[j]@,
        forall|t: Seq<char>| (exists|i: int| 0 <= i < r@.len() && r@[i]@ == t) <==> root_task_ids(snapshot.tables@).contains(t),
{
    let ghost tv = snapshot.tables@;
    let empty_tasks: Vec<Json> = Vec::new();
    let empty_deps: Vec<Json> = Vec::new();
    let tasks = match snapshot.get_table("tasks") { Some(t) => t, None => &empty_tasks };
    let deps = match snapshot.get_table("dependencies") { Some(d) => d, None => &empty_deps };
    proof {
        assert(rows_view(tasks@) == table_rows(tv, "tasks"@)) by {
            if tables_get(tv, "tasks"@) is None {
                assert(rows_view(tasks@) =~= Seq::<JsonV>::empty());
            }
        }
        assert(rows_view(deps@) == table_rows(tv, "dependencies"@)) by {
            if tables_get(tv, "dependencies"@) is None {
                assert(rows_view(deps@) =~= Seq::<JsonV>::empty());
            }
        }
    }
    let ghost trows = rows_view(tasks@);
    let ghost cset = contained_ids(rows_view(deps@));
    let mut out: Vec<String> = Vec::new();
    let mut i: usize = 0;
    while i < tasks.len()
        invariant
            i <= tasks@.len(),
            trows == rows_view(tasks@),
            cset == contained_ids(rows_view(deps@)),
            forall|a: int, b: int| 0 <= a < b < out@.len() ==> out@[a]@ != out@[b]@,
            forall|t: Seq<char>| #[trigger] listed(out@, t)
                <==> (task_ids(trows.take(i as int)).contains(t) && !cset.contains(t)),
        decreases tasks@.len() - i,
    {
        proof {
            lemma_task_ids_prefix(trows, i as int);
            assert(trows[i as int] == tasks@[i as int]@);
        }
        match tasks[i].get_str("id") {
            Some(id) => {
                let c = is_contained(deps, id);
                let dup = contains_string(&out, id);
                let ghost before = out@;
                if !c && !dup {
                    out.push(String::from_str(id));
                }
                proof {
                    let pre = task_ids(trows.take(i as int));
                    assert forall|t: Seq<char>| #[trigger] listed(out@, t)
                        <==> (pre.push(id@).contains(t) && !cset.contains(t)) by {
                        assert(listed(before, t) <==> (pre.contains(t) && !cset.contains(t)));
                        if listed(out@, t) {
                            let a = choose|a: int| 0 <= a < out@.len() && out@[a]@ == t;
                            if a < before.len() {
                                assert(before[a] == out@[a]);
                                assert(listed(before, t));
                                let w = choose|w: int| 0 <= w < pre.len() && pre[w] == t;
                                assert(pre.push(id@)[w] == t);
                            } else {
                                assert(pre.push(id@)[pre.len() as int] == t);
                            }
                        }
                        if pre.push(id@).contains(t) && !cset.contains(t) {
                            let w = choose|w: int| 0 <= w < pre.push(id@).len() && pre.push(id@)[w] == t;
                            if w < pre.len() {
                                assert(pre[w] == t);
                                assert(pre.contains(t));
                                assert(listed(before, t));
                                let a = choose|a: int| 0 <= a < before.len() && before[a]@ == t;
                                assert(out@[a] == before[a]);
                            } else {
                                assert(t == id@);
                                if dup {
                                    let a = choose|a: int| 0 <= a < before.len() && before[a]@ == id@;
                                    assert(out@[a] == before[a]);
                                } else {
                                    assert(out@[before.len() as int]@ == id@);
                                }
                            }
                        }
                    }
                    assert forall|a: int, b: int| 0 <= a < b < out@.len() implies out@[a]@ != out@[b]@ by {
                        if b < before.len() {
                            assert(out@[a] == before[a] && out@[b] == before[b]);
                        } else {
                            assert(out@[a] == before[a]);
                        }
                    }
                }
            }
            None => {}
        }
        i = i + 1;
    }
    proof {
        assert(trows.take(tasks@.len() as int) =~= trows);
        assert forall|t: Seq<char>| (exists|a: int| 0 <= a < out@.len() && out@[a]@ == t) <==> root_task_ids(tv).contains(t) by {
            assert(listed(out@, t) <==> (task_ids(trows).contains(t) && !cset.contains(t)));
        }
    }
    out
}


/// The new ID for `x`: the one paired with its last occurrence among the old IDs.
pub open spec fn lookup_last(olds: Seq<Seq<char>>, news: Seq<Seq<char>>, x: Seq<char>) -> Option<Seq<char>>
    decreases olds.len(),
{
    if olds.len() == 0 {
        None
    } else if olds.last() == x {
        Some(news[olds.len() - 1])
    } else {
        lookup_last(olds.drop_last(), news, x)
    }
}

/// The row with the string field replaced by its new ID, when it has one.
pub open spec fn remap_field(row: JsonV, field: Seq<char>, olds: Seq<Seq<char>>, news: Seq<Seq<char>>) -> JsonV {
    match json_str_field(row, field) {
        Some(s) => match lookup_last(olds, news, s) {
            Some(n) => json_set(row, field, JsonV::Str(n)),
            None => row,
        },
        None => row,
    }
}

/// The row with every task reference of its table replaced by its new ID.
pub open spec fn remap_row(table: Seq<char>, row: JsonV, olds: Seq<Seq<char>>, news: Seq<Seq<char>>) -> JsonV {
    if table == "tasks"@ {
        remap_field(row, "id"@, olds, news)
    } else if table == "dependencies"@ {
        remap_field(remap_field(row, "from_task_id"@, olds, news), "to_task_id"@, olds, news)
    } else if table == "attachments"@ || table == "task_tags"@ || table == "task_needed_tags"@
        || table == "task_wanted_tags"@ || table == "task_sequence"@ {
        remap_field(row, "task_id"@, olds, news)
    } else {
        row
    }
}

/// Every table with its rows remapped.
pub open spec fn remap_tables(tv: Seq<(Seq<char>, Seq<JsonV>)>, olds: Seq<Seq<char>>, news: Seq<Seq<char>>) -> Seq<(Seq<char>, Seq<JsonV>)> {
    Seq::new(tv.len(), |i: int| (tv[i].0, Seq::new(tv[i].1.len(), |k: int| remap_row(tv[i].0, tv[i].1[k], olds, news))))
}

/// The pairs (old ID, new ID) that the remapping uses: each old ID once,
/// with the new ID of its last occurrence.
pub open spec fn id_map_ok(map: Seq<(String, String)>, olds: Seq<Seq<char>>, news: Seq<Seq<char>>) -> bool {
    &&& forall|a: int, b: int| 0 <= a < b < map.len() ==> map[a].0@ != map[b].0@
    &&& forall|a: int| 0 <= a < map.len() ==> lookup_last(olds, news, (#[trigger] map[a]).0@) == Some(map[a].1@)
    &&& forall|x: Seq<char>| olds.contains(x) ==> exists|a: int| 0 <= a < map.len() && (#[trigger] map[a]).0@ == x
}

proof fn lemma_lookup_last(olds: Seq<Seq<char>>, news: Seq<Seq<char>>, x: Seq<char>)
    ensures
        lookup_last(olds, news, x) is Some <==> olds.contains(x),
        lookup_last(olds, news, x) is Some ==> exists|k: int| 0 <= k < olds.len() && olds[k] == x
            && lookup_last(olds, news, x) == Some(news[k]) && forall|j: int| k < j < olds.len() ==> olds[j] != x,
    decreases olds.len(),
{
    if olds.len() > 0 {
        let d = olds.drop_last();
        lemma_lookup_last(d, news, x);
        if olds.last() != x {
            if lookup_last(d, news, x) is Some {
                let k = choose|k: int| 0 <= k < d.len() && d[k] == x
                    && lookup_last(d, news, x) == Some(news[k]) && forall|j: int| k < j < d.len() ==> d[j] != x;
                assert(olds[k] == x);
                assert forall|j: int| k < j < olds.len() implies olds[j] != x by {
                    if j < d.len() {
                        assert(d[j] == olds[j]);
                    }
                }
            }
            if olds.drop_last().contains(x) {
                let k = choose|k: int| 0 <= k < olds.drop_last().len() && olds.drop_last()[k] == x;
                assert(olds[k] == x);
            }
            if olds.contains(x) {
                let k = choose|k: int| 0 <= k < olds.len() && olds[k] == x;
                assert(olds.drop_last()[k] == x);
            }
        } else {
            assert(olds[olds.len() - 1] == x);
        }
    }
}

/// The new ID paired with the last occurrence of `x` among the old IDs.
fn lookup_new_id<'a>(olds: &Vec<String>, news: &'a Vec<String>, x: &str) -> (r: Option<&'a String>)
    requires
        news@.len() == olds@.len(),
    ensures
        match r {
            Some(n) => lookup_last(views(olds@), views(news@), x@) == Some(n@),
            None => lookup_last(views(olds@), views(news@), x@) is None,
        },
{
    let ghost ov = views(olds@);
    let ghost nv = views(news@);
    let mut i: usize = olds.len();
    proof {
        assert(ov.take(i as int) =~= ov);
    }
    while i > 0
        invariant
            i <= olds@.len(),
            news@.len() == olds@.len(),
            ov == views(olds@),
            nv == views(news@),
            lookup_last(ov, nv, x@) == lookup_last(ov.take(i as int), nv, x@),
        decreases i,
    {
        proof {
            assert(ov.take(i as int).drop_last() =~= ov.take(i - 1));
            assert(ov.take(i as int).last() == olds@[i - 1]@);
        }
        if str_eq(olds[i - 1].as_str(), x) {
            proof {
                assert(nv[i - 1] == news@[i - 1]@);
            }
            return Some(&news[i - 1]);
        }
        i = i - 1;
    }
    None
}

/// Replaces the string field of the row by its new ID, when it has one.
fn remap_field_in(row: &mut Json, field: &str, olds: &Vec<String>, news: &Vec<String>)
    requires
        news@.len() == olds@.len(),
    ensures
        final(row)@ == remap_field(old(row)@, field@, views(olds@), views(news@)),
{
    let current: Option<String> = match row.get_str(field) {
        Some(s) => Some(String::from_str(s)),
        None => None,
    };
    match current {
        Some(s) => {
            match lookup_new_id(olds, news, s.as_str()) {
                Some(n) => {
                    row.set_field(field, Json::Str(n.clone()));
                }
                None => {}
            }
        }
        None => {}
    }
}

/// Replaces every task reference of the row, as its table calls for.
fn remap_row_in(table: &str, row: &mut Json, olds: &Vec<String>, news: &Vec<String>)
    requires
        news@.len() == olds@.len(),
    ensures
        final(row)@ == remap_row(table@, old(row)@, views(olds@), views(news@)),
{
    if str_eq(table, "tasks") {
        remap_field_in(row, "id", olds, news);
    } else if str_eq(table, "dependencies") {
        remap_field_in(row, "from_task_id", olds, news);
        remap_field_in(row, "to_task_id", olds, news);
    } else if str_eq(table, "attachments") || str_eq(table, "task_tags") || str_eq(table, "task_needed_tags")
        || str_eq(table, "task_wanted_tags") || str_eq(table, "task_sequence") {
        remap_field_in(row, "task_id", olds, news);
    }
}

/// The string `id` fields of the task rows, in row order.
pub(crate) fn collect_task_ids(rows: &Vec<Json>) -> (r: Vec<String>)
    ensures
        views(r@) == task_ids(rows_view(rows@)),
{
    let ghost rv = rows_view(rows@);
    let mut out: Vec<String> = Vec::new();
    let mut i: usize = 0;
    while i < rows.len()
        invariant
            i <= rows@.len(),
            rv == rows_view(rows@),
            views(out@) == task_ids(rv.take(i as int)),
        decreases rows@.len() - i,
    {
        proof {
            lemma_task_ids_prefix(rv, i as int);
            assert(rv[i as int] == rows@[i as int]@);
        }
        match rows[i].get_str("id") {
            Some(id) => {
                let t = String::from_str(id);
                let ghost tg = t;
                let ghost before = out@;
                out.push(t);
                proof {
                    lemma_views_push(before, tg);
                }
            }
            None => {}
        }
        i = i + 1;
    }
    proof {
        assert(rv.take(rows@.len() as int) =~= rv);
    }
    out
}

/// The remapped table rows, in the same order.
fn remap_rows(table: &str, rows: &Vec<Json>, olds: &Vec<String>, news: &Vec<String>) -> (r: Vec<Json>)
    requires
        news@.len() == olds@.len(),
    ensures
        rows_view(r@) == Seq::new(rows@.len(), |k: int| remap_row(table@, rows@[k]@, views(olds@), views(news@))),
{
    let mut out: Vec<Json> = Vec::new();
    let mut i: usize = 0;
    while i < rows.len()
        invariant
            i <= rows@.len(),
            news@.len() == olds@.len(),
            out@.len() == i,
            forall|k: int| 0 <= k < i ==> (#[trigger] out@[k])@ == remap_row(table@, rows@[k]@, views(olds@), views(news@)),
        decreases rows@.len() - i,
    {
        let mut row = rows[i].clone();
        remap_row_in(table, &mut row, olds, news);
        out.push(row);
        i = i + 1;
    }
    proof {
        assert(rows_view(out@) =~= Seq::new(rows@.len(), |k: int| remap_row(table@, rows@[k]@, views(olds@), views(news@))));
    }
    out
}

/// The task rows of the snapshot, or no rows.
pub(crate) fn tasks_of(snapshot: &Snapshot) -> (r: Vec<Json>)
    requires
        snapshot.tables.wf(),
    ensures
        rows_view(r@) == table_rows(snapshot.tables@, "tasks"@),
{
    match snapshot.get_table("tasks") {
        Some(rows) => {
            let mut out: Vec<Json> = Vec::new();
            let mut i: usize = 0;
            while i < rows.len()
                invariant
                    i <= rows@.len(),
                    out@.len() == i,
                    forall|k: int| 0 <= k < i ==> (#[trigger] out@[k])@ == rows@[k]@,
                decreases rows@.len() - i,
            {
                out.push(rows[i].clone());
                i = i + 1;
            }
            proof {
                assert(rows_view(out@) =~= rows_view(rows@));
            }
            out
        }
        None => {
            let out: Vec<Json> = Vec::new();
            proof {
                assert(rows_view(out@) =~= Seq::<JsonV>::empty());
            }
            out
        }
    }
}

/// Remaps the task IDs of a snapshot to the given new IDs: the `i`-th task
/// row with a string `id` gets `new_ids[i]`, and every reference to an old ID
/// in the exported tables follows. References to IDs outside the snapshot
/// stay as they are. Returns the remapped snapshot and the (old, new) pairs.
pub fn remap_snapshot_with(snapshot: &Snapshot, new_ids: &Vec<String>) -> (r: (Snapshot, Vec<(String, String)>))
    requires
        snapshot.tables.wf(),
        new_ids@.len() == task_ids(table_rows(snapshot.tables@, "tasks"@)).len(),
    ensures
        r.0.tables.wf(),
        r.0.tables@ == remap_tables(snapshot.tables@, task_ids(table_rows(snapshot.tables@, "tasks"@)), views(new_ids@)),
        r.0.schema_version == snapshot.schema_version,
        r.0.export_version@ == snapshot.export_version@,
        r.0.exported_at@ == snapshot.exported_at@,
        r.0.exported_by@ == snapshot.exported_by@,
        id_map_ok(r.1@, task_ids(table_rows(snapshot.tables@, "tasks"@)), views(new_ids@)),
{
    let tasks = tasks_of(snapshot);
    let olds = collect_task_ids(&tasks);
    let ghost ov = views(olds@);
    let ghost nv = views(new_ids@);
    // the remapped tables
    let entries = snapshot.tables.entries();
    let ghost tv = snapshot.tables@;
    let mut out: Vec<(String, Vec<Json>)> = Vec::new();
    let mut i: usize = 0;
    while i < entries.len()
        invariant
            i <= entries@.len(),
            entries@.len() == tv.len(),
            tv == snapshot.tables@,
            snapshot.tables.wf(),
            forall|k: int| 0 <= k < entries@.len() ==> (#[trigger] entries@[k]).0@ == tv[k].0 && rows_view(entries@[k].1@) == tv[k].1,
            new_ids@.len() == olds@.len(),
            out@.len() == i,
            forall|k: int| 0 <= k < i ==> (#[trigger] out@[k]).0@ == tv[k].0
                && rows_view(out@[k].1@) == remap_tables(tv, views(olds@), views(new_ids@))[k].1,
        decreases entries@.len() - i,
    {
        let rows = remap_rows(entries[i].0.as_str(), &entries[i].1, &olds, new_ids);
        proof {
            let src = entries@[i as int].1@;
            let want = remap_tables(tv, views(olds@), views(new_ids@))[i as int].1;
            assert(tv[i as int].1 == rows_view(src));
            assert(want.len() == src.len());
            assert forall|k: int| 0 <= k < src.len() implies rows_view(rows@)[k] == want[k] by {
                assert(rows_view(src)[k] == src[k]@);
            }
            assert(rows_view(rows@) =~= want);
        }
        out.push((entries[i].0.clone(), rows));
        i = i + 1;
    }
    proof {
        assert forall|a: int, b: int| 0 <= a < b < out@.len() implies out@[a].0@ != out@[b].0@ by {
            assert(out@[a].0@ == tv[a].0 && out@[b].0@ == tv[b].0);
        }
    }
    let tables = Tables::from_entries(out);
    proof {
        assert(tables@ =~= remap_tables(tv, ov, nv));
    }
    // the (old, new) pairs, each old ID once
    let mut map: Vec<(String, String)> = Vec::new();
    let mut j: usize = 0;
    while j < olds.len()
        invariant
            j <= olds@.len(),
            new_ids@.len() == olds@.len(),
            ov == views(olds@),
            nv == views(new_ids@),
            forall|a: int, b: int| 0 <= a < b < map@.len() ==> map@[a].0@ != map@[b].0@,
            forall|a: int| 0 <= a < map@.len() ==> lookup_last(ov, nv, (#[trigger] map@[a]).0@) == Some(map@[a].1@),
            forall|x: Seq<char>| ov.take(j as int).contains(x) ==> exists|a: int| 0 <= a < map@.len() && (#[trigger] map@[a]).0@ == x,
        decreases olds@.len() - j,
    {
        let mut seen = false;
        let mut k: usize = 0;
        while k < map.len()
            invariant
                k <= map@.len(),
                j < olds@.len(),
                !seen ==> forall|a: int| 0 <= a < k ==> map@[a].0@ != olds@[j as int]@,
                seen ==> exists|a: int| 0 <= a < map@.len() && map@[a].0@ == olds@[j as int]@,
            decreases map@.len() - k,
        {
            if str_eq(map[k].0.as_str(), olds[j].as_str()) {
                seen = true;
            }
            k = k + 1;
        }
        proof {
            assert(ov[j as int] == olds@[j as int]@);
            assert(ov.take(j + 1) =~= ov.take(j as int).push(ov[j as int]));
        }
        if !seen {
            let n = lookup_new_id(&olds, new_ids, olds[j].as_str());
            proof {
                lemma_lookup_last(ov, nv, ov[j as int]);
                assert(ov.contains(ov[j as int]));
            }
            let n = n.unwrap();
            let ghost before = map@;
            map.push((olds[j].clone(), n.clone()));
            proof {
                assert forall|x: Seq<char>| #[trigger] ov.take(j + 1).contains(x) implies exists|a: int| 0 <= a < map@.len() && (#[trigger] map@[a]).0@ == x by {
                    let s2 = ov.take(j + 1);
                    let w = choose|w: int| 0 <= w < s2.len() && s2[w] == x;
                    if w < j {
                        assert(ov.take(j as int)[w] == x);
                        assert(ov.take(j as int).contains(x));
                        let a = choose|a: int| 0 <= a < before.len() && before[a].0@ == x;
                        assert(map@[a] == before[a]);
                    } else {
                        assert(map@[before.len() as int].0@ == x);
                    }
                }
                assert forall|a: int, b: int| 0 <= a < b < map@.len() implies map@[a].0@ != map@[b].0@ by {
                    if b < before.len() {
                        assert(map@[a] == before[a] && map@[b] == before[b]);
                    } else {
                        assert(map@[a] == before[a]);
                    }
                }
                assert forall|a: int| 0 <= a < map@.len() implies lookup_last(ov, nv, (#[trigger] map@[a]).0@) == Some(map@[a].1@) by {
                    if a < before.len() {
                        assert(map@[a] == before[a]);
                    }
                }
            }
        } else {
            proof {
                assert forall|x: Seq<char>| #[trigger] ov.take(j + 1).contains(x) implies exists|a: int| 0 <= a < map@.len() && (#[trigger] map@[a]).0@ == x by {
                    let s2 = ov.take(j + 1);
                    let w = choose|w: int| 0 <= w < s2.len() && s2[w] == x;
                    if w < j {
                        assert(ov.take(j as int)[w] == x);
                        assert(ov.take(j as int).contains(x));
                    } else {
                        assert(x == olds@[j as int]@);
                        let a = choose|a: int| 0 <= a < map@.len() && map@[a].0@ == olds@[j as int]@;
                        assert(map@[a].0@ == x);
                    }
                }
            }
        }
        j = j + 1;
    }
    proof {
        assert(ov.take(olds@.len() as int) =~= ov);
    }
    let snap = Snapshot {
        schema_version: snapshot.schema_version,
        export_version: snapshot.export_version.clone(),
        exported_at: snapshot.exported_at.clone(),
        exported_by: snapshot.exported_by.clone(),
        tables,
    };
    (snap, map)
}

/// The message of the error returned when no unused ID could be generated.
pub open spec fn unique_id_failure_message() -> Seq<char> {
    "Failed to generate unique ID after 100 attempts. Consider increasing ids.task_id_words in config."@
}

/// `remapped` is `snapshot` with its task IDs replaced by `news` (one new ID
/// per task row with a string `id`, all distinct and non-empty), and `map`
/// holds the (old, new) pairs of that replacement.
pub open spec fn remapped_with(snapshot: Snapshot, remapped: Snapshot, map: Seq<(String, String)>, news: Seq<Seq<char>>) -> bool {
    let olds = task_ids(table_rows(snapshot.tables@, "tasks"@));
    &&& news.len() == olds.len()
    &&& forall|a: int, b: int| 0 <= a < b < news.len() ==> news[a] != news[b]
    &&& forall|a: int| 0 <= a < news.len() ==> (#[trigger] news[a]).len() > 0
    &&& remapped.tables.wf()
    &&& remapped.tables@ == remap_tables(snapshot.tables@, olds, news)
    &&& remapped.schema_version == snapshot.schema_version
    &&& remapped.export_version@ == snapshot.export_version@
    &&& remapped.exported_at@ == snapshot.exported_at@
    &&& remapped.exported_by@ == snapshot.exported_by@
    &&& id_map_ok(map, olds, news)
}

/// How many retries a task gets when its drawn ID is already used.
pub const ID_RETRIES: usize = 100;

/// How many of a task's draws count: the first and up to `ID_RETRIES`
/// retries.
pub open spec fn allowed_draws(d: Seq<Seq<char>>) -> int {
    if d.len() <= ID_RETRIES { d.len() as int } else { ID_RETRIES as int + 1 }
}

/// The first of the first `k` draws that is not among `used`.
pub open spec fn first_free(d: Seq<Seq<char>>, used: Seq<Seq<char>>, k: int) -> Option<int>
    decreases k,
{
    if k <= 0 {
        None
    } else {
        match first_free(d, used, k - 1) {
            Some(i) => Some(i),
            None => if !used.contains(d[k - 1]) { Some(k - 1) } else { None },
        }
    }
}

/// The IDs picked for the first `n` tasks, `draws[t]` being the IDs drawn
/// for task `t` in order: each task takes the first of its counting draws
/// that no earlier task took; `None` when every counting draw of some task
/// was taken.
pub open spec fn picked_ids(draws: Seq<Seq<Seq<char>>>, n: int) -> Option<Seq<Seq<char>>>
    decreases n,
{
    if n <= 0 {
        Some(Seq::empty())
    } else {
        match picked_ids(draws, n - 1) {
            None => None,
            Some(used) => match first_free(draws[n - 1], used, allowed_draws(draws[n - 1])) {
                Some(i) => Some(used.push(draws[n - 1][i])),
                None => None,
            },
        }
    }
}

/// The draws of the tasks, as a search for free IDs makes them: each task
/// draws until it draws a free ID, or, when its first draw and every retry
/// are taken, once more before giving up; only the last task can give up.
pub open spec fn draws_followed(draws: Seq<Seq<Seq<char>>>) -> bool {
    forall|t: int| 0 <= t < draws.len() ==> {
        &&& picked_ids(draws, t) is Some
        &&& match first_free(#[trigger] draws[t], picked_ids(draws, t)->0, allowed_draws(draws[t])) {
            Some(i) => draws[t].len() == i + 1,
            None => draws[t].len() == ID_RETRIES + 2,
        }
    }
}

/// An ID as `generate_task_id` draws it for `words` words.
pub open spec fn drawn_id(s: Seq<char>, words: u8) -> bool {
    &&& s.len() > 0
    &&& words > 0 ==> petname_shape(s, words)
    &&& words == 0 ==> exists|ms: i64| s == fallback_task_id(ms as int)
}

/// The draws made while remapping a snapshot with `count` tasks: drawn by
/// `generate_task_id`, made as the search needs them, and for every task
/// when the search succeeds.
pub open spec fn remap_draws_made(draws: Seq<Seq<Seq<char>>>, words: u8, count: nat) -> bool {
    &&& draws.len() <= count
    &&& draws_followed(draws)
    &&& forall|t: int, k: int| 0 <= t < draws.len() && 0 <= k < draws[t].len() ==> drawn_id(#[trigger] draws[t][k], words)
    &&& picked_ids(draws, draws.len() as int) is Some ==> draws.len() == count
}

/// The outcome of remapping `snapshot` given the draws: the remapped
/// snapshot with the picked IDs, or the failure when some task found no
/// free ID.
pub open spec fn remap_outcome(snapshot: Snapshot, draws: Seq<Seq<Seq<char>>>, r: Result<(Snapshot, Vec<(String, String)>), String>) -> bool {
    match r {
        Ok(p) => picked_ids(draws, draws.len() as int) matches Some(news) && remapped_with(snapshot, p.0, p.1@, news),
        Err(e) => picked_ids(draws, draws.len() as int) is None && e@ == unique_id_failure_message(),
    }
}

/// The views of each task's draws.
pub open spec fn draw_views(draws: Seq<Vec<String>>) -> Seq<Seq<Seq<char>>> {
    draws.map_values(|d: Vec<String>| views(d@))
}

/// `first_free` looks at the first `k` draws only.
proof fn lemma_first_free_prefix(d: Seq<Seq<char>>, e: Seq<Seq<char>>, used: Seq<Seq<char>>, k: int)
    requires
        0 <= k <= d.len(),
        k <= e.len(),
        forall|i: int| 0 <= i < k ==> d[i] == e[i],
    ensures
        first_free(d, used, k) == first_free(e, used, k),
    decreases k,
{
    if k > 0 {
        lemma_first_free_prefix(d, e, used, k - 1);
    }
}

/// `picked_ids` looks at the first `n` tasks' draws only.
proof fn lemma_picked_prefix(a: Seq<Seq<Seq<char>>>, b: Seq<Seq<Seq<char>>>, n: int)
    requires
        0 <= n <= a.len(),
        n <= b.len(),
        forall|t: int| 0 <= t < n ==> a[t] == b[t],
    ensures
        picked_ids(a, n) == picked_ids(b, n),
    decreases n,
{
    if n > 0 {
        lemma_picked_prefix(a, b, n - 1);
    }
}

/// A first free draw is one of the draws looked at, and not used.
proof fn lemma_first_free_found(d: Seq<Seq<char>>, used: Seq<Seq<char>>, k: int)
    requires
        first_free(d, used, k) is Some,
    ensures
        0 <= first_free(d, used, k)->0 < k,
        !used.contains(d[first_free(d, used, k)->0]),
    decreases k,
{
    if k > 0 && first_free(d, used, k - 1) is Some {
        lemma_first_free_found(d, used, k - 1);
    }
}

/// Picks an ID for each task from the IDs drawn for it (`draws[t]` for
/// task `t`, in the order drawn): the first of its draws that counts (the
/// first and up to `ID_RETRIES` retries) and that no earlier task took.
/// Fails when every counting draw of some task was taken.
pub fn pick_fresh_ids(draws: &Vec<Vec<String>>) -> (r: Result<Vec<String>, String>)
    ensures
        match picked_ids(draw_views(draws@), draws@.len() as int) {
            Some(news) => r is Ok && views(r->Ok_0@) == news,
            None => r is Err && r->Err_0@ == unique_id_failure_message(),
        },
{
    let ghost dv = draw_views(draws@);
    let mut used: Vec<String> = Vec::new();
    let mut t: usize = 0;
    while t < draws.len()
        invariant
            t <= draws@.len(),
            dv == draw_views(draws@),
            picked_ids(dv, t as int) == Some(views(used@)),
        decreases draws@.len() - t,
    {
        let d = &draws[t];
        proof {
            assert(dv[t as int] == views(d@));
        }
        let limit: usize = if d.len() <= ID_RETRIES { d.len() } else { ID_RETRIES + 1 };
        let mut k: usize = 0;
        let mut pick: Option<usize> = None;
        while k < limit && pick.is_none()
            invariant
                limit == allowed_draws(views(d@)),
                limit <= d@.len(),
                k <= limit,
                dv[t as int] == views(d@),
                pick is None ==> first_free(views(d@), views(used@), k as int) is None,
                pick matches Some(i) ==> first_free(views(d@), views(used@), limit as int) == Some(i as int),
            decreases limit - k + if pick is None { 1int } else { 0int },
        {
            let taken = contains_string(&used, d[k].as_str());
            proof {
                let uv = views(used@);
                if taken {
                    let j = choose|j: int| 0 <= j < used@.len() && used@[j]@ == d@[k as int]@;
                    assert(uv[j] == views(d@)[k as int]);
                }
                if uv.contains(views(d@)[k as int]) {
                    let j = choose|j: int| 0 <= j < uv.len() && uv[j] == views(d@)[k as int];
                    assert(used@[j]@ == d@[k as int]@);
                }
            }
            if !taken {
                pick = Some(k);
                proof {
                    assert(first_free(views(d@), views(used@), k + 1) == Some(k as int));
                    lemma_first_free_stays(views(d@), views(used@), k + 1, limit as int);
                }
            }
            k = k + 1;
        }
        match pick {
            Some(i) => {
                proof {
                    lemma_first_free_found(views(d@), views(used@), limit as int);
                }
                let ghost before = used@;
                used.push(d[i].clone());
                proof {
                    lemma_views_push(before, used@.last());
                    assert(views(d@)[i as int] == d@[i as int]@);
                    assert(views(used@) == views(before).push(views(d@)[i as int]));
                }
            },
            None => {
                proof {
                    assert(picked_ids(dv, t + 1) is None);
                    lemma_picked_stays_none(dv, t + 1, draws@.len() as int);
                }
                let msg = string_of("Failed to generate unique ID after 100 attempts. Consider increasing ids.task_id_words in config.");
                proof {
                    reveal_strlit("Failed to generate unique ID after 100 attempts. Consider increasing ids.task_id_words in config.");
                }
                return Err(msg);
            },
        }
        t = t + 1;
    }
    Ok(used)
}

/// Once a free draw is found, it stays the first.
proof fn lemma_first_free_stays(d: Seq<Seq<char>>, used: Seq<Seq<char>>, n: int, m: int)
    requires
        n <= m,
        first_free(d, used, n) is Some,
    ensures
        first_free(d, used, m) == first_free(d, used, n),
    decreases m - n,
{
    if n < m {
        lemma_first_free_stays(d, used, n, m - 1);
    }
}

/// Once a task finds no free ID, the picking fails.
proof fn lemma_picked_stays_none(draws: Seq<Seq<Seq<char>>>, n: int, m: int)
    requires
        n <= m,
        picked_ids(draws, n) is None,
    ensures
        picked_ids(draws, m) is None,
    decreases m - n,
{
    if n < m {
        lemma_picked_stays_none(draws, n, m - 1);
    }
}

/// Picked IDs are distinct, and each is one of the draws.
proof fn lemma_picked_shape(draws: Seq<Seq<Seq<char>>>, words: u8, n: int)
    requires
        0 <= n <= draws.len(),
        picked_ids(draws, n) is Some,
        forall|t: int, k: int| 0 <= t < draws.len() && 0 <= k < draws[t].len() ==> drawn_id(#[trigger] draws[t][k], words),
    ensures
        picked_ids(draws, n)->0.len() == n,
        forall|a: int, b: int| 0 <= a < b < n ==> picked_ids(draws, n)->0[a] != picked_ids(draws, n)->0[b],
        forall|a: int| 0 <= a < n ==> (#[trigger] picked_ids(draws, n)->0[a]).len() > 0,
    decreases n,
{
    if n > 0 {
        lemma_picked_shape(draws, words, n - 1);
        let used = picked_ids(draws, n - 1)->0;
        let d = draws[n - 1];
        lemma_first_free_found(d, used, allowed_draws(d));
        let i = first_free(d, used, allowed_draws(d))->0;
        let news = used.push(d[i]);
        assert(drawn_id(draws[n - 1][i], words));
        assert forall|a: int, b: int| 0 <= a < b < n implies news[a] != news[b] by {
            if b == n - 1 {
                assert(news[a] == used[a]);
                if news[a] == news[b] {
                    assert(used.contains(d[i]));
                }
            }
        }
    }
}

/// Remaps every task ID of the snapshot to a freshly generated ID, and every
/// reference to it in the exported tables (see `remap_snapshot_with`).
///
/// Each task draws IDs with `generate_task_id` until it draws one that no
/// earlier task took; after `ID_RETRIES` retries that all clash it draws
/// once more and the remapping fails. The outcome is the one
/// `pick_fresh_ids` gives for the draws made. Which IDs are drawn is left
/// to chance; with at most one task the remapping succeeds.
pub fn remap_snapshot(snapshot: &Snapshot, ids_config: &IdsConfig) -> (r: Result<(Snapshot, Vec<(String, String)>), String>)
    requires
        snapshot.tables.wf(),
    ensures
        exists|draws: Seq<Seq<Seq<char>>>|
            remap_draws_made(draws, ids_config.task_id_words, task_ids(table_rows(snapshot.tables@, "tasks"@)).len())
            && #[trigger] remap_outcome(*snapshot, draws, r),
        task_ids(table_rows(snapshot.tables@, "tasks"@)).len() <= 1 ==> r is Ok,
{
    let tasks = tasks_of(snapshot);
    let olds = collect_task_ids(&tasks);
    let ghost count = task_ids(table_rows(snapshot.tables@, "tasks"@)).len();
    let ghost words = ids_config.task_id_words;
    proof {
        assert(views(olds@).len() == olds@.len());
    }
    let n = olds.len();
    let mut draws: Vec<Vec<String>> = Vec::new();
    let mut used: Vec<String> = Vec::new();
    let mut gave_up = false;
    let mut t: usize = 0;
    while t < n && !gave_up
        invariant
            n == count,
            count == task_ids(table_rows(snapshot.tables@, "tasks"@)).len(),
            words == ids_config.task_id_words,
            t <= n,
            draws@.len() == t,
            gave_up ==> picked_ids(draw_views(draws@), t as int) is None,
            !gave_up ==> picked_ids(draw_views(draws@), t as int) == Some(views(used@)),
            !gave_up ==> used@.len() == t,
            draws_followed(draw_views(draws@)),
            forall|a: int, k: int| 0 <= a < t && 0 <= k < draw_views(draws@)[a].len()
                ==> drawn_id(#[trigger] draw_views(draws@)[a][k], words),
        decreases n - t,
    {
        let ghost dv = draw_views(draws@);
        let ghost uv = views(used@);
        let mut tries: Vec<String> = Vec::new();
        let first = generate_task_id(ids_config);
        tries.push(first);
        let mut taken = contains_string(&used, tries[0].as_str());
        proof {
            assert(views(tries@)[0] == tries@[0]@);
            assert(first_free(views(tries@), uv, 0) is None);
        }
        while taken && tries.len() <= ID_RETRIES + 1
            invariant
                uv == views(used@),
                1 <= tries@.len() <= ID_RETRIES + 2,
                taken == exists|j: int| 0 <= j < used@.len() && used@[j]@ == tries@[tries@.len() - 1]@,
                first_free(views(tries@), uv, tries@.len() - 1) is None,
                forall|k: int| 0 <= k < tries@.len() ==> drawn_id(#[trigger] views(tries@)[k], words),
                words == ids_config.task_id_words,
            decreases ID_RETRIES + 2 - tries@.len(),
        {
            let ghost before = tries@;
            proof {
                let last = tries@[tries@.len() - 1];
                let j = choose|j: int| 0 <= j < used@.len() && used@[j]@ == last@;
                assert(uv[j] == views(tries@)[tries@.len() - 1]);
                assert(first_free(views(tries@), uv, tries@.len() as int) is None);
            }
            let next = generate_task_id(ids_config);
            tries.push(next);
            proof {
                assert(views(tries@) =~= views(before).push(next@));
                lemma_first_free_prefix(views(tries@), views(before), uv, before.len() as int);
            }
            let last = tries.len() - 1;
            taken = contains_string(&used, tries[last].as_str());
        }
        let ghost tv = views(tries@);
        let len = tries.len();
        proof {
            let l = (len - 1) as int;
            if !taken {
                assert(!uv.contains(tv[l])) by {
                    if uv.contains(tv[l]) {
                        let j = choose|j: int| 0 <= j < uv.len() && uv[j] == tv[l];
                        assert(used@[j]@ == tries@[l]@);
                    }
                }
            }
        }
        if len <= ID_RETRIES + 1 {
            let ghost before = used@;
            used.push(tries[len - 1].clone());
            proof {
                lemma_views_push(before, used@.last());
            }
        } else {
            gave_up = true;
        }
        let ghost before_draws = draws@;
        draws.push(tries);
        proof {
            let nd = draw_views(draws@);
            assert(nd =~= dv.push(tv));
            lemma_picked_prefix(nd, dv, t as int);
            let l = (len - 1) as int;
            if len <= ID_RETRIES + 1 {
                assert(allowed_draws(tv) == len);
                assert(first_free(tv, uv, len as int) == Some(l));
                assert(nd[t as int] == tv);
                assert(views(used@) =~= uv.push(tv[l]));
            } else {
                assert(allowed_draws(tv) == ID_RETRIES + 1);
                assert(first_free(tv, uv, allowed_draws(tv)) is None);
            }
            assert forall|a: int| 0 <= a < nd.len() implies {
                &&& picked_ids(nd, a) is Some
                &&& match first_free(#[trigger] nd[a], picked_ids(nd, a)->0, allowed_draws(nd[a])) {
                    Some(i) => nd[a].len() == i + 1,
                    None => nd[a].len() == ID_RETRIES + 2,
                }
            } by {
                if a < t {
                    lemma_picked_prefix(nd, dv, a);
                    assert(nd[a] == dv[a]);
                }
            }
            assert forall|a: int, k: int| 0 <= a < t + 1 && 0 <= k < nd[a].len()
                implies drawn_id(#[trigger] nd[a][k], words) by {
                if a < t {
                    assert(nd[a] == dv[a]);
                }
            }
        }
        t = t + 1;
    }
    let ghost dv = draw_views(draws@);
    proof {
        if !gave_up {
            assert(t == n);
        }
        if count <= 1 {
            assert(!gave_up);
        }
    }
    match pick_fresh_ids(&draws) {
        Ok(ids) => {
            proof {
                assert(!gave_up);
                lemma_picked_shape(dv, words, t as int);
                let news = views(ids@);
                assert(news.len() == ids@.len());
            }
            let pair = remap_snapshot_with(snapshot, &ids);
            proof {
                let news = views(ids@);
                assert(remapped_with(*snapshot, pair.0, pair.1@, news));
                assert(remap_draws_made(dv, words, count));
                assert(remap_outcome(*snapshot, dv, Ok(pair)));
            }
            Ok(pair)
        },
        Err(e) => {
            proof {
                assert(remap_draws_made(dv, words, count));
                assert(remap_outcome(*snapshot, dv, Err(e)));
            }
            Err(e)
        },
    }
}

/// Checks that a snapshot has the current schema version before it is
/// imported; otherwise the error asks for a migration.
pub fn check_snapshot_schema(schema_version: i32) -> (r: Result<(), String>)
    ensures
        match r {
            Ok(()) => schema_version == crate::export::CURRENT_SCHEMA_VERSION,
            Err(m) => schema_version != crate::export::CURRENT_SCHEMA_VERSION && m@ == "Schema version mismatch: snapshot is v"@
                + crate::text::dec_int(schema_version as int) + ", database is v"@ + crate::text::dec_int(
                crate::export::CURRENT_SCHEMA_VERSION as int,
            ) + ". Migration required."@,
        },
{
    if schema_version == crate::export::CURRENT_SCHEMA_VERSION {
        return Ok(());
    }
    let mut m = string_of("Schema version mismatch: snapshot is v");
    m.append(crate::text::i64_to_dec(schema_version as i64).as_str());
    m.append(", database is v");
    m.append(crate::text::i64_to_dec(crate::export::CURRENT_SCHEMA_VERSION as i64).as_str());
    m.append(". Migration required.");
    Err(m)
}

/// The error when the task that imported roots are to be attached to does
/// not exist.
pub fn parent_not_found_message(parent_id: &str) -> (r: String)
    ensures
        r@ == "Parent task '"@ + parent_id@ + "' not found in database. Cannot attach imported roots."@,
{
    let mut m = string_of("Parent task '");
    m.append(parent_id);
    m.append("' not found in database. Cannot attach imported roots.");
    m
}

} // verus!
