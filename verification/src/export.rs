//! Structured export snapshots of the task data, and the per-table ordering
//! and key rules that keep exports deterministic.

use vstd::prelude::*;
use crate::json::{Json, JsonV};
use crate::text::str_eq;

verus! {

/// Schema version of the current database.
pub const CURRENT_SCHEMA_VERSION: i32 = 3;

/// Export format version (semver).
pub const EXPORT_VERSION: &'static str = "1.0.0";

/// Name of the tool recorded in exports.
pub const EXPORTED_BY: &'static str = "task-graph-mcp v0.1.0";

/// The tables that are exported (project data), in import order.
pub fn exported_tables() -> (r: Vec<&'static str>)
    ensures
        r@.map_values(|s: &str| s@) == exported_table_names(),
{
    let r = vec!["tasks", "dependencies", "attachments", "task_tags", "task_needed_tags", "task_wanted_tags", "task_sequence"];
    proof {
        assert(r@.map_values(|s: &str| s@) =~= exported_table_names());
    }
    r
}

/// The names of the exported tables, in import order.
pub open spec fn exported_table_names() -> Seq<Seq<char>> {
    seq!["tasks"@, "dependencies"@, "attachments"@, "task_tags"@, "task_needed_tags"@, "task_wanted_tags"@, "task_sequence"@]
}

/// The tables excluded from export (runtime state).
pub fn excluded_tables() -> (r: Vec<&'static str>)
    ensures
        r@.map_values(|s: &str| s@) == seq!["workers"@, "file_locks"@, "claim_sequence"@],
{
    let r = vec!["workers", "file_locks", "claim_sequence"];
    proof {
        assert(r@.map_values(|s: &str| s@) =~= seq!["workers"@, "file_locks"@, "claim_sequence"@]);
    }
    r
}

/// Row ordering clause for a table, chosen so that exports diff cleanly.
pub open spec fn table_ordering(table: Seq<char>) -> Seq<char> {
    if table == "tasks"@ {
        "ORDER BY id"@
    } else if table == "dependencies"@ {
        "ORDER BY from_task_id, to_task_id, dep_type"@
    } else if table == "attachments"@ {
        "ORDER BY task_id, order_index"@
    } else if table == "task_tags"@ || table == "task_needed_tags"@ || table == "task_wanted_tags"@ {
        "ORDER BY task_id, tag"@
    } else if table == "task_sequence"@ {
        "ORDER BY task_id, id"@
    } else {
        "ORDER BY rowid"@
    }
}

/// Primary key columns of a table, used to match records in diffs.
pub open spec fn table_primary_key(table: Seq<char>) -> Seq<Seq<char>> {
    if table == "tasks"@ {
        seq!["id"@]
    } else if table == "dependencies"@ {
        seq!["from_task_id"@, "to_task_id"@, "dep_type"@]
    } else if table == "attachments"@ {
        seq!["task_id"@, "order_index"@]
    } else if table == "task_tags"@ || table == "task_needed_tags"@ || table == "task_wanted_tags"@ {
        seq!["task_id"@, "tag"@]
    } else if table == "task_sequence"@ {
        seq!["id"@]
    } else {
        seq!["rowid"@]
    }
}

/// Row ordering specification for a table.
pub fn get_table_ordering(table: &str) -> (r: &'static str)
    ensures
        r@ == table_ordering(table@),
{
    if str_eq(table, "tasks") {
        "ORDER BY id"
    } else if str_eq(table, "dependencies") {
        "ORDER BY from_task_id, to_task_id, dep_type"
    } else if str_eq(table, "attachments") {
        "ORDER BY task_id, order_index"
    } else if str_eq(table, "task_tags") || str_eq(table, "task_needed_tags") || str_eq(table, "task_wanted_tags") {
        "ORDER BY task_id, tag"
    } else if str_eq(table, "task_sequence") {
        "ORDER BY task_id, id"
    } else {
        "ORDER BY rowid"
    }
}

/// The primary key column(s) of a table.
pub fn get_table_primary_key(table: &str) -> (r: Vec<&'static str>)
    ensures
        r@.map_values(|s: &str| s@) == table_primary_key(table@),
{
    let r = if str_eq(table, "tasks") {
        vec!["id"]
    } else if str_eq(table, "dependencies") {
        vec!["from_task_id", "to_task_id", "dep_type"]
    } else if str_eq(table, "attachments") {
        vec!["task_id", "order_index"]
    } else if str_eq(table, "task_tags") || str_eq(table, "task_needed_tags") || str_eq(table, "task_wanted_tags") {
        vec!["task_id", "tag"]
    } else if str_eq(table, "task_sequence") {
        vec!["id"]
    } else {
        vec!["rowid"]
    };
    proof {
        assert(r@.map_values(|s: &str| s@) =~= table_primary_key(table@));
    }
    r
}

/// Table data keyed by table name: each name at most once, in the order the
/// tables were first inserted.
#[derive(Debug, Clone)]
pub struct Tables {
    entries: Vec<(String, Vec<Json>)>,
}

/// The models of a vector of rows.
pub open spec fn rows_view(rows: Seq<Json>) -> Seq<JsonV> {
    rows.map_values(|j: Json| j@)
}

/// The rows stored under `name`, if any.
pub open spec fn tables_get(t: Seq<(Seq<char>, Seq<JsonV>)>, name: Seq<char>) -> Option<Seq<JsonV>> {
    if exists|i: int| 0 <= i < t.len() && t[i].0 == name {
        Some(t[choose|i: int| 0 <= i < t.len() && t[i].0 == name].1)
    } else {
        None
    }
}

/// No table name occurs twice.
pub open spec fn names_unique(t: Seq<(Seq<char>, Seq<JsonV>)>) -> bool {
    forall|i: int, j: int| 0 <= i < j < t.len() ==> t[i].0 != t[j].0
}

impl View for Tables {
    type V = Seq<(Seq<char>, Seq<JsonV>)>;

    closed spec fn view(&self) -> Seq<(Seq<char>, Seq<JsonV>)> {
        Seq::new(self.entries@.len(), |i: int| (self.entries@[i].0@, rows_view(self.entries@[i].1@)))
    }
}

impl Tables {
    /// Every table name occurs once.
    pub open spec fn wf(&self) -> bool {
        names_unique(self@)
    }

    /// No tables.
    pub fn new() -> (r: Self)
        ensures
            r@ == Seq::<(Seq<char>, Seq<JsonV>)>::empty(),
            r.wf(),
    {
        let r = Tables { entries: Vec::new() };
        proof {
            assert(r@ =~= Seq::<(Seq<char>, Seq<JsonV>)>::empty());
        }
        r
    }

    /// Tables built from (name, rows) pairs whose names are distinct.
    pub fn from_entries(entries: Vec<(String, Vec<Json>)>) -> (r: Self)
        requires
            forall|i: int, j: int| 0 <= i < j < entries@.len() ==> entries@[i].0@ != entries@[j].0@,
        ensures
            r.wf(),
            r@.len() == entries@.len(),
            forall|i: int| 0 <= i < entries@.len() ==> (#[trigger] r@[i]).0 == entries@[i].0@ && r@[i].1 == rows_view(entries@[i].1@),
    {
        Tables { entries }
    }

    /// Position of the named table, if present.
    fn position(&self, name: &str) -> (r: Option<usize>)
        ensures
            match r {
                Some(i) => i < self@.len() && self@[i as int].0 == name@,
                None => forall|i: int| 0 <= i < self@.len() ==> self@[i].0 != name@,
            },
    {
        let mut i: usize = 0;
        while i < self.entries.len()
            invariant
                i <= self.entries@.len(),
                self@.len() == self.entries@.len(),
                forall|k: int| 0 <= k < i ==> self@[k].0 != name@,
            decreases self.entries@.len() - i,
        {
            if str_eq(self.entries[i].0.as_str(), name) {
                return Some(i);
            }
            i = i + 1;
        }
        None
    }

    /// The rows of the named table, if present.
    pub fn get(&self, name: &str) -> (r: Option<&Vec<Json>>)
        requires
            self.wf(),
        ensures
            match r {
                Some(rows) => tables_get(self@, name@) == Some(rows_view(rows@)),
                None => tables_get(self@, name@) is None,
            },
    {
        match self.position(name) {
            Some(i) => {
                proof {
                    let c = choose|k: int| 0 <= k < self@.len() && self@[k].0 == name@;
                    if c != i as int {
                        if c < i as int {} else {}
                    }
                }
                Some(&self.entries[i].1)
            }
            None => None,
        }
    }

    /// Whether the named table is present.
    pub fn contains_key(&self, name: &str) -> (r: bool)
        ensures
            r == exists|i: int| 0 <= i < self@.len() && self@[i].0 == name@,
    {
        self.position(name).is_some()
    }

    /// Stores the rows under the name, replacing any rows stored there.
    pub fn insert(&mut self, name: String, rows: Vec<Json>)
        requires
            old(self).wf(),
        ensures
            final(self).wf(),
            tables_get(final(self)@, name@) == Some(rows_view(rows@)),
            forall|other: Seq<char>| other != name@ ==> tables_get(final(self)@, other) == tables_get(old(self)@, other),
            (exists|i: int| 0 <= i < old(self)@.len() && old(self)@[i].0 == name@) ==> final(self)@.len() == old(self)@.len(),
            !(exists|i: int| 0 <= i < old(self)@.len() && old(self)@[i].0 == name@) ==> final(self)@ == old(self)@.push((name@, rows_view(rows@))),
    {
        let ghost before = self@;
        match self.position(name.as_str()) {
            Some(i) => {
                let ghost nm = name@;
                let ghost rv = rows_view(rows@);
                self.entries.set(i, (name, rows));
                proof {
                    assert(self@ =~= before.update(i as int, (nm, rv)));
                    let after = self@;
                    assert forall|x: int, y: int| 0 <= x < y < after.len() implies after[x].0 != after[y].0 by {
                        assert(before[x].0 != before[y].0);
                    }
                    assert forall|other: Seq<char>| other != nm implies tables_get(after, other) == tables_get(before, other) by {
                        if exists|k: int| 0 <= k < before.len() && before[k].0 == other {
                            let k = choose|k: int| 0 <= k < before.len() && before[k].0 == other;
                            assert(after[k] == before[k]);
                            let ka = choose|k2: int| 0 <= k2 < after.len() && after[k2].0 == other;
                            if ka != k { if ka < k {} else {} }
                        }
                        if exists|k: int| 0 <= k < after.len() && after[k].0 == other {
                            let k = choose|k: int| 0 <= k < after.len() && after[k].0 == other;
                            assert(before[k] == after[k]);
                        }
                    }
                    assert(after[i as int].0 == nm);
                    let c = choose|k: int| 0 <= k < after.len() && after[k].0 == nm;
                    if c != i as int { if c < i as int {} else {} }
                }
            }
            None => {
                let ghost nm = name@;
                let ghost rv = rows_view(rows@);
                self.entries.push((name, rows));
                proof {
                    assert(self@ =~= before.push((nm, rv)));
                    let after = self@;
                    assert forall|x: int, y: int| 0 <= x < y < after.len() implies after[x].0 != after[y].0 by {
                        if y < before.len() {
                            assert(before[x].0 != before[y].0);
                        }
                    }
                    assert forall|other: Seq<char>| other != nm implies tables_get(after, other) == tables_get(before, other) by {
                        if exists|k: int| 0 <= k < before.len() && before[k].0 == other {
                            let k = choose|k: int| 0 <= k < before.len() && before[k].0 == other;
                            assert(after[k] == before[k]);
                            let ka = choose|k2: int| 0 <= k2 < after.len() && after[k2].0 == other;
                            if ka != k { if ka < k {} else {} }
                        }
                        if exists|k: int| 0 <= k < after.len() && after[k].0 == other {
                            let k = choose|k: int| 0 <= k < after.len() && after[k].0 == other;
                            assert(before[k] == after[k]);
                        }
                    }
                    assert(after[before.len() as int].0 == nm);
                    let c = choose|k: int| 0 <= k < after.len() && after[k].0 == nm;
                    if c != before.len() as int {}
                }
            }
        }
    }

    /// The table names, in insertion order.
    pub fn names(&self) -> (r: Vec<&str>)
        ensures
            r@.map_values(|s: &str| s@) == self@.map_values(|e: (Seq<char>, Seq<JsonV>)| e.0),
    {
        let mut r: Vec<&str> = Vec::new();
        let mut i: usize = 0;
        while i < self.entries.len()
            invariant
                i <= self.entries@.len(),
                self@.len() == self.entries@.len(),
                r@.len() == i,
                forall|k: int| 0 <= k < i ==> (#[trigger] r@[k])@ == self@[k].0,
            decreases self.entries@.len() - i,
        {
            proof {
                assert(self@[i as int].0 == self.entries@[i as int].0@);
            }
            r.push(self.entries[i].0.as_str());
            i = i + 1;
        }
        proof {
            assert(r@.map_values(|s: &str| s@) =~= self@.map_values(|e: (Seq<char>, Seq<JsonV>)| e.0));
        }
        r
    }

    /// The number of tables.
    pub fn len(&self) -> (r: usize)
        ensures
            r == self@.len(),
    {
        self.entries.len()
    }

    /// Whether there are no tables.
    pub fn is_empty(&self) -> (r: bool)
        ensures
            r == (self@.len() == 0),
    {
        self.entries.len() == 0
    }

    /// The stored (name, rows) pairs, in insertion order.
    pub fn entries(&self) -> (r: &Vec<(String, Vec<Json>)>)
        ensures
            r@.len() == self@.len(),
            forall|i: int| 0 <= i < r@.len() ==> (#[trigger] r@[i]).0@ == self@[i].0 && rows_view(r@[i].1@) == self@[i].1,
    {
        &self.entries
    }

    /// Takes the stored pairs out, leaving no tables.
    pub fn into_entries(self) -> (r: Vec<(String, Vec<Json>)>)
        ensures
            r@.len() == self@.len(),
            forall|i: int| 0 <= i < r@.len() ==> (#[trigger] r@[i]).0@ == self@[i].0 && rows_view(r@[i].1@) == self@[i].1,
    {
        self.entries
    }
}

/// A structured export snapshot of the task-graph database.
#[derive(Debug, Clone)]
pub struct Snapshot {
    /// Database schema version.
    pub schema_version: i32,
    /// Export format version (semver).
    pub export_version: String,
    /// ISO 8601 timestamp of export.
    pub exported_at: String,
    /// Tool name and version that created this export.
    pub exported_by: String,
    /// Table data, keyed by table name.
    pub tables: Tables,
}

/// The current time as an RFC 3339 timestamp (`chrono::Utc::now().to_rfc3339()`).
/// It depends on the clock; nothing is stated of it.
#[verifier::external_body]
fn now_rfc3339() -> String {
    chrono::Utc::now().to_rfc3339()
}

impl Snapshot {
    /// A new empty snapshot stamped with the current schema, format version
    /// and time.
    pub fn new() -> (r: Self)
        ensures
            r.schema_version == CURRENT_SCHEMA_VERSION,
            r.export_version@ == EXPORT_VERSION@,
            r.exported_by@ == EXPORTED_BY@,
            r.tables@.len() == 0,
            r.tables.wf(),
    {
        Snapshot {
            schema_version: CURRENT_SCHEMA_VERSION,
            export_version: String::from_str(EXPORT_VERSION),
            exported_at: now_rfc3339(),
            exported_by: String::from_str(EXPORTED_BY),
            tables: Tables::new(),
        }
    }

    /// The rows of the named table.
    pub fn get_table(&self, name: &str) -> (r: Option<&Vec<Json>>)
        requires
            self.tables.wf(),
        ensures
            match r {
                Some(rows) => tables_get(self.tables@, name@) == Some(rows_view(rows@)),
                None => tables_get(self.tables@, name@) is None,
            },
    {
        self.tables.get(name)
    }

    /// Whether this snapshot's schema is the current one.
    pub fn is_schema_compatible(&self) -> (r: bool)
        ensures
            r == (self.schema_version == CURRENT_SCHEMA_VERSION),
    {
        self.schema_version == CURRENT_SCHEMA_VERSION
    }

    /// The names of the tables present.
    pub fn table_names(&self) -> (r: Vec<&str>)
        ensures
            r@.map_values(|s: &str| s@) == self.tables@.map_values(|e: (Seq<char>, Seq<JsonV>)| e.0),
    {
        self.tables.names()
    }
}

/// Options for controlling an export.
#[derive(Debug, Clone)]
pub struct ExportOptions {
    /// Leave out soft-deleted tasks.
    pub exclude_deleted: bool,
    /// The tables to export; all of them when `None`.
    pub tables: Option<Vec<String>>,
}

impl Default for ExportOptions {
    fn default() -> (r: Self)
        ensures
            !r.exclude_deleted,
            r.tables is None,
    {
        ExportOptions { exclude_deleted: false, tables: None }
    }
}

impl ExportOptions {
    /// Whether the table is to be exported: every table when no list is
    /// given, else the listed ones.
    pub fn should_export(&self, table: &str) -> (r: bool)
        ensures
            r == match self.tables {
                None => true,
                Some(ts) => crate::types::mentions(ts@, table@),
            },
    {
        match &self.tables {
            None => true,
            Some(ts) => crate::import::contains_string(ts, table),
        }
    }

    /// The query that reads the tasks to export, ordered by ID.
    pub fn tasks_query(&self) -> (r: &'static str)
        ensures
            r@ == (if self.exclude_deleted {
                "SELECT * FROM tasks WHERE deleted_at IS NULL ORDER BY id"@
            } else {
                "SELECT * FROM tasks ORDER BY id"@
            }),
    {
        if self.exclude_deleted {
            "SELECT * FROM tasks WHERE deleted_at IS NULL ORDER BY id"
        } else {
            "SELECT * FROM tasks ORDER BY id"
        }
    }
}

} // verus!
