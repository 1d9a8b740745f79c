//! The decisions an import makes around the store's work: whether it may
//! start, what it deletes first and which tables it writes, what it reports
//! afterwards, and the preview of what an import would insert, delete or
//! skip in each table. Row counts of the database are given per table,
//! in import order (the order of `exported_tables`).

use vstd::prelude::*;
use crate::export::{Snapshot, tables_get, exported_tables, exported_table_names, CURRENT_SCHEMA_VERSION};
use crate::import::{ImportMode, DryRunResult, ImportResult, TableCounts, counts_get, counts_sum, check_snapshot_schema, parent_not_found_message};
use crate::text::{str_eq, dec_nat, dec_int, join, join_strings, string_of, u64_to_dec, views, lemma_views_push};

verus! {

/// What a table of counts holds under `name` after storing, for each
/// `k < i` in turn, `vals[k]` (where there is one) under `names[k]`.
pub open spec fn counts_after(names: Seq<Seq<char>>, vals: Seq<Option<usize>>, name: Seq<char>, i: int) -> Option<usize>
    decreases i,
{
    if i <= 0 {
        None
    } else if names[i - 1] == name && vals[i - 1] is Some {
        vals[i - 1]
    } else {
        counts_after(names, vals, name, i - 1)
    }
}

/// The table of counts holds, under each table name, the value given for
/// that table in import order.
pub open spec fn holds_counts(c: TableCounts, vals: Seq<Option<usize>>) -> bool {
    &&& c.wf()
    &&& forall|name: Seq<char>| #[trigger] counts_get(c@, name) == counts_after(exported_table_names(), vals, name, 7)
}

/// The number of rows the snapshot holds for the table.
pub open spec fn snapshot_rows(s: Snapshot, name: Seq<char>) -> nat {
    match tables_get(s.tables@, name) {
        Some(rows) => rows.len(),
        None => 0,
    }
}

/// The database's counts, per table.
pub open spec fn existing_vals(existing: Seq<usize>) -> Seq<Option<usize>> {
    Seq::new(7, |k: int| Some(existing[k]))
}

/// Every row of the snapshot is inserted.
pub open spec fn snapshot_vals(s: Snapshot) -> Seq<Option<usize>> {
    Seq::new(7, |k: int| Some(snapshot_rows(s, exported_table_names()[k]) as usize))
}

/// Every row of the database is deleted: the tables that hold rows.
pub open spec fn delete_vals(existing: Seq<usize>) -> Seq<Option<usize>> {
    Seq::new(7, |k: int| if existing[k] > 0 { Some(existing[k]) } else { None })
}

/// The position of `task_sequence` in import order: its rows are always
/// skipped by a merge.
pub open spec fn sequence_pos() -> int {
    6
}

/// A merge inserts the rows of each table that the database lacks
/// (`present[k]` of them it already has); a table absent from the snapshot
/// inserts none.
pub open spec fn merge_insert_vals(s: Snapshot, present: Seq<usize>) -> Seq<Option<usize>> {
    Seq::new(7, |k: int| match tables_get(s.tables@, exported_table_names()[k]) {
        Some(rows) => if k == sequence_pos() { Some(0usize) } else { Some((rows.len() - present[k]) as usize) },
        None => Some(0usize),
    })
}

/// A merge skips the rows the database already has, and every sequence
/// row; tables with nothing skipped are not listed.
pub open spec fn merge_skip_vals(s: Snapshot, present: Seq<usize>) -> Seq<Option<usize>> {
    Seq::new(7, |k: int| match tables_get(s.tables@, exported_table_names()[k]) {
        Some(rows) => {
            let n = if k == sequence_pos() { rows.len() } else { present[k] as nat };
            if n > 0 { Some(n as usize) } else { None }
        },
        None => None,
    })
}

/// The import-order positions of the tables in name order, the order in
/// which the non-empty tables are listed.
pub open spec fn name_order() -> Seq<int> {
    seq![2int, 1, 4, 6, 3, 5, 0]
}

/// `<table>: <count> rows` for each non-empty table among the first `j` in
/// name order.
pub open spec fn non_empty_pieces(existing: Seq<usize>, j: int) -> Seq<Seq<char>>
    decreases j,
{
    if j <= 0 {
        Seq::empty()
    } else {
        let k = name_order()[j - 1];
        let front = non_empty_pieces(existing, j - 1);
        if existing[k] > 0 {
            front.push(exported_table_names()[k] + ": "@ + dec_nat(existing[k] as nat) + " rows"@)
        } else {
            front
        }
    }
}

/// Why a fresh import is refused in the preview: the non-empty tables.
pub open spec fn not_empty_preview_message(existing: Seq<usize>) -> Seq<char> {
    "Database is not empty. Use --force to overwrite or --merge to add. Non-empty tables: "@
        + join(non_empty_pieces(existing, 7), ", "@)
}

/// The error for a snapshot of another schema version.
pub open spec fn schema_mismatch_message(v: i32) -> Seq<char> {
    "Schema version mismatch: snapshot is v"@ + dec_int(v as int) + ", database is v"@ + dec_int(
        CURRENT_SCHEMA_VERSION as int,
    ) + ". Migration required."@
}

/// No table of the database holds a row.
pub open spec fn all_empty(existing: Seq<usize>) -> bool {
    forall|k: int| 0 <= k < 7 ==> existing[k] == 0
}

/// The preview of importing `s` in `mode` into a database with `existing`
/// rows per table, `present[k]` of the snapshot's rows of table `k` being
/// there already.
pub open spec fn preview_ok(r: DryRunResult, s: Snapshot, mode: ImportMode, existing: Seq<usize>, present: Seq<usize>) -> bool {
    &&& r.mode == mode
    &&& r.warnings@.len() == 0
    &&& r.would_delete.wf() && r.would_insert.wf() && r.would_skip.wf() && r.existing_rows.wf()
    &&& if s.schema_version != CURRENT_SCHEMA_VERSION {
        &&& !r.would_succeed
        &&& r.failure_reason is Some && r.failure_reason->0@ == schema_mismatch_message(s.schema_version)
        &&& r.database_is_empty
        &&& r.existing_rows@.len() == 0 && r.would_delete@.len() == 0
        &&& r.would_insert@.len() == 0 && r.would_skip@.len() == 0
    } else {
        &&& holds_counts(r.existing_rows, existing_vals(existing))
        &&& r.database_is_empty == all_empty(existing)
        &&& match mode {
            ImportMode::Fresh => if !all_empty(existing) {
                &&& !r.would_succeed
                &&& r.failure_reason is Some && r.failure_reason->0@ == not_empty_preview_message(existing)
                &&& r.would_insert@.len() == 0 && r.would_delete@.len() == 0 && r.would_skip@.len() == 0
            } else {
                &&& r.would_succeed && r.failure_reason is None
                &&& holds_counts(r.would_insert, snapshot_vals(s))
                &&& r.would_delete@.len() == 0 && r.would_skip@.len() == 0
            },
            ImportMode::Replace => {
                &&& r.would_succeed && r.failure_reason is None
                &&& holds_counts(r.would_insert, snapshot_vals(s))
                &&& holds_counts(r.would_delete, delete_vals(existing))
                &&& r.would_skip@.len() == 0
            },
            ImportMode::Merge => {
                &&& r.would_succeed && r.failure_reason is None
                &&& holds_counts(r.would_insert, merge_insert_vals(s, present))
                &&& holds_counts(r.would_skip, merge_skip_vals(s, present))
                &&& r.would_delete@.len() == 0
            },
        }
    }
}

/// What a preview promises whatever the database holds: it keeps the
/// mode; a snapshot of another schema version, or a fresh import into a
/// database with rows, would not succeed; and only a replace deletes rows.
pub proof fn lemma_preview_laws(r: DryRunResult, s: Snapshot, mode: ImportMode, existing: Seq<usize>, present: Seq<usize>)
    requires
        preview_ok(r, s, mode, existing, present),
    ensures
        r.mode == mode,
        s.schema_version != CURRENT_SCHEMA_VERSION ==> !r.would_succeed,
        s.schema_version == CURRENT_SCHEMA_VERSION && mode == ImportMode::Fresh && !all_empty(existing)
            ==> !r.would_succeed && !r.database_is_empty,
        mode != ImportMode::Replace ==> counts_sum(r.would_delete@) == 0,
{
}

/// The first table, in import order, that holds rows.
pub open spec fn first_non_empty(existing: Seq<usize>, i: int) -> Option<int>
    decreases i,
{
    if i <= 0 {
        None
    } else {
        match first_non_empty(existing, i - 1) {
            Some(k) => Some(k),
            None => if existing[i - 1] > 0 { Some(i - 1) } else { None },
        }
    }
}

/// A table of counts holding `vals[k]`, where there is one, under the
/// `k`-th table in import order.
fn fill_counts(vals: &Vec<Option<usize>>) -> (r: TableCounts)
    requires
        vals@.len() == 7,
    ensures
        holds_counts(r, vals@),
{
    let names = exported_tables();
    let mut r = TableCounts::new();
    let mut i: usize = 0;
    while i < 7
        invariant
            names@.map_values(|s: &str| s@) == exported_table_names(),
            vals@.len() == 7,
            i <= 7,
            r.wf(),
            forall|name: Seq<char>| #[trigger] counts_get(r@, name) == counts_after(exported_table_names(), vals@, name, i as int),
        decreases 7 - i,
    {
        proof {
            lemma_names(names@, i as int);
        }
        match vals[i] {
            Some(c) => {
                r.insert(string_of(names[i]), c);
            },
            None => {},
        }
        i = i + 1;
    }
    r
}

/// The names of the tables in import order, as text.
proof fn lemma_names(names: Seq<&str>, k: int)
    requires
        names.map_values(|s: &str| s@) == exported_table_names(),
        0 <= k < 7,
    ensures
        names[k]@ == exported_table_names()[k],
        names.len() == 7,
{
    assert(exported_table_names().len() == 7);
    assert(names.map_values(|s: &str| s@).len() == names.len());
    assert(names.map_values(|s: &str| s@)[k] == names[k]@);
}

/// The database's counts as values to store.
fn existing_counts(existing: &Vec<usize>) -> (r: Vec<Option<usize>>)
    requires
        existing@.len() == 7,
    ensures
        r@ == existing_vals(existing@),
{
    let mut r: Vec<Option<usize>> = Vec::new();
    let mut k: usize = 0;
    while k < 7
        invariant
            existing@.len() == 7,
            k <= 7,
            r@.len() == k,
            forall|j: int| 0 <= j < k ==> r@[j] == existing_vals(existing@)[j],
        decreases 7 - k,
    {
        r.push(Some(existing[k]));
        k = k + 1;
    }
    assert(r@ =~= existing_vals(existing@));
    r
}

/// The counts of deleting every row of the database.
fn delete_counts(existing: &Vec<usize>) -> (r: Vec<Option<usize>>)
    requires
        existing@.len() == 7,
    ensures
        r@ == delete_vals(existing@),
{
    let mut r: Vec<Option<usize>> = Vec::new();
    let mut k: usize = 0;
    while k < 7
        invariant
            existing@.len() == 7,
            k <= 7,
            r@.len() == k,
            forall|j: int| 0 <= j < k ==> r@[j] == delete_vals(existing@)[j],
        decreases 7 - k,
    {
        if existing[k] > 0 {
            r.push(Some(existing[k]));
        } else {
            r.push(None);
        }
        k = k + 1;
    }
    assert(r@ =~= delete_vals(existing@));
    r
}

/// The counts of inserting every row of the snapshot.
fn snapshot_counts(s: &Snapshot) -> (r: Vec<Option<usize>>)
    requires
        s.tables.wf(),
    ensures
        r@ == snapshot_vals(*s),
{
    let names = exported_tables();
    let mut r: Vec<Option<usize>> = Vec::new();
    let mut k: usize = 0;
    while k < 7
        invariant
            s.tables.wf(),
            names@.map_values(|x: &str| x@) == exported_table_names(),
            k <= 7,
            r@.len() == k,
            forall|j: int| 0 <= j < k ==> r@[j] == snapshot_vals(*s)[j],
        decreases 7 - k,
    {
        proof {
            lemma_names(names@, k as int);
        }
        match s.tables.get(names[k]) {
            Some(rows) => {
                r.push(Some(rows.len()));
            },
            None => {
                r.push(Some(0));
            },
        }
        k = k + 1;
    }
    assert(r@ =~= snapshot_vals(*s));
    r
}

/// The counts a merge inserts and skips.
fn merge_counts(s: &Snapshot, present: &Vec<usize>) -> (r: (Vec<Option<usize>>, Vec<Option<usize>>))
    requires
        s.tables.wf(),
        present@.len() == 7,
        forall|k: int| 0 <= k < 7 && k != sequence_pos() ==> present[k] <= snapshot_rows(*s, #[trigger] exported_table_names()[k]),
    ensures
        r.0@ == merge_insert_vals(*s, present@),
        r.1@ == merge_skip_vals(*s, present@),
{
    let names = exported_tables();
    let mut ins: Vec<Option<usize>> = Vec::new();
    let mut skip: Vec<Option<usize>> = Vec::new();
    let mut k: usize = 0;
    while k < 7
        invariant
            s.tables.wf(),
            present@.len() == 7,
            forall|k: int| 0 <= k < 7 && k != sequence_pos() ==> present[k] <= snapshot_rows(*s, #[trigger] exported_table_names()[k]),
            names@.map_values(|x: &str| x@) == exported_table_names(),
            k <= 7,
            ins@.len() == k,
            skip@.len() == k,
            forall|j: int| 0 <= j < k ==> ins@[j] == merge_insert_vals(*s, present@)[j],
            forall|j: int| 0 <= j < k ==> skip@[j] == merge_skip_vals(*s, present@)[j],
        decreases 7 - k,
    {
        proof {
            lemma_names(names@, k as int);
        }
        match s.tables.get(names[k]) {
            Some(rows) => {
                let n: usize = rows.len();
                if k == 6 {
                    ins.push(Some(0));
                    if n > 0 {
                        skip.push(Some(n));
                    } else {
                        skip.push(None);
                    }
                } else {
                    proof {
                        assert(present[k as int] <= snapshot_rows(*s, exported_table_names()[k as int]));
                    }
                    ins.push(Some(n - present[k]));
                    if present[k] > 0 {
                        skip.push(Some(present[k]));
                    } else {
                        skip.push(None);
                    }
                }
            },
            None => {
                ins.push(Some(0));
                skip.push(None);
            },
        }
        k = k + 1;
    }
    assert(ins@ =~= merge_insert_vals(*s, present@));
    assert(skip@ =~= merge_skip_vals(*s, present@));
    (ins, skip)
}

/// Whether no table of the database holds a row.
fn no_rows(existing: &Vec<usize>) -> (r: bool)
    requires
        existing@.len() == 7,
    ensures
        r == all_empty(existing@),
{
    let mut k: usize = 0;
    while k < 7
        invariant
            existing@.len() == 7,
            k <= 7,
            forall|j: int| 0 <= j < k ==> existing@[j] == 0,
        decreases 7 - k,
    {
        if existing[k] > 0 {
            return false;
        }
        k = k + 1;
    }
    true
}

/// The preview's message for a fresh import into a database with rows.
fn not_empty_message(existing: &Vec<usize>) -> (r: String)
    requires
        existing@.len() == 7,
    ensures
        r@ == not_empty_preview_message(existing@),
{
    let names = exported_tables();
    let order: Vec<usize> = vec![2, 1, 4, 6, 3, 5, 0];
    let mut parts: Vec<String> = Vec::new();
    let mut j: usize = 0;
    while j < 7
        invariant
            existing@.len() == 7,
            names@.map_values(|x: &str| x@) == exported_table_names(),
            order@ == seq![2usize, 1, 4, 6, 3, 5, 0],
            j <= 7,
            views(parts@) == non_empty_pieces(existing@, j as int),
        decreases 7 - j,
    {
        let k = order[j];
        proof {
            assert(k as int == name_order()[j as int]);
            lemma_names(names@, k as int);
        }
        if existing[k] > 0 {
            let mut p = string_of(names[k]);
            p.append(": ");
            p.append(u64_to_dec(existing[k] as u64).as_str());
            p.append(" rows");
            proof {
                lemma_views_push(parts@, p);
            }
            parts.push(p);
        }
        j = j + 1;
    }
    let mut m = string_of("Database is not empty. Use --force to overwrite or --merge to add. Non-empty tables: ");
    m.append(join_strings(parts.as_slice(), ", ").as_str());
    m
}

/// Checks that a fresh import may start: no table of the database, given
/// by its row counts in import order, holds a row; otherwise the error
/// names the first table in import order that does.
pub fn check_empty_database(existing: &Vec<usize>) -> (r: Result<(), String>)
    requires
        existing@.len() == 7,
    ensures
        match first_non_empty(existing@, 7) {
            Some(k) => r is Err && r->Err_0@ == "Database is not empty: table '"@ + exported_table_names()[k]
                + "' contains "@ + dec_nat(existing@[k] as nat) + " rows. Use --force to overwrite."@,
            None => r is Ok,
        },
{
    let names = exported_tables();
    let mut k: usize = 0;
    while k < 7
        invariant
            existing@.len() == 7,
            names@.map_values(|x: &str| x@) == exported_table_names(),
            k <= 7,
            first_non_empty(existing@, k as int) is None,
        decreases 7 - k,
    {
        if existing[k] > 0 {
            proof {
                lemma_names(names@, k as int);
                lemma_first_non_empty_stays(existing@, k + 1, 7);
            }
            let mut m = string_of("Database is not empty: table '");
            m.append(names[k]);
            m.append("' contains ");
            m.append(u64_to_dec(existing[k] as u64).as_str());
            m.append(" rows. Use --force to overwrite.");
            return Err(m);
        }
        k = k + 1;
    }
    Ok(())
}

/// Once a table with rows is found, it stays the first.
proof fn lemma_first_non_empty_stays(existing: Seq<usize>, n: int, m: int)
    requires
        n <= m,
        first_non_empty(existing, n) is Some,
    ensures
        first_non_empty(existing, m) == first_non_empty(existing, n),
    decreases m - n,
{
    if n < m {
        lemma_first_non_empty_stays(existing, n, m - 1);
    }
}

/// Preview importing `snapshot` in `mode` without changing anything.
///
/// `existing` holds the database's row count per table and `present[k]`
/// how many of the snapshot's rows of table `k` the database already has
/// (both in import order). A snapshot of another schema version fails; a
/// fresh import fails unless every table is empty and would then insert
/// every row; a replace deletes every row and inserts every row; a merge
/// inserts what is missing and skips the rest, and every sequence row.
pub fn plan_preview(snapshot: &Snapshot, mode: ImportMode, existing: &Vec<usize>, present: &Vec<usize>) -> (r: DryRunResult)
    requires
        snapshot.tables.wf(),
        existing@.len() == 7,
        present@.len() == 7,
        forall|k: int| 0 <= k < 7 && k != sequence_pos()
            ==> present[k] <= snapshot_rows(*snapshot, #[trigger] exported_table_names()[k]),
    ensures
        preview_ok(r, *snapshot, mode, existing@, present@),
{
    let mut r = DryRunResult::new(mode);
    match check_snapshot_schema(snapshot.schema_version) {
        Err(m) => {
            r.would_succeed = false;
            r.failure_reason = Some(m);
            return r;
        },
        Ok(()) => {},
    }
    r.existing_rows = fill_counts(&existing_counts(existing));
    let empty = no_rows(existing);
    r.database_is_empty = empty;
    match mode {
        ImportMode::Fresh => {
            if !empty {
                r.would_succeed = false;
                r.failure_reason = Some(not_empty_message(existing));
                return r;
            }
            r.would_insert = fill_counts(&snapshot_counts(snapshot));
        },
        ImportMode::Replace => {
            r.would_delete = fill_counts(&delete_counts(existing));
            r.would_insert = fill_counts(&snapshot_counts(snapshot));
        },
        ImportMode::Merge => {
            let (ins, skip) = merge_counts(snapshot, present);
            r.would_insert = fill_counts(&ins);
            r.would_skip = fill_counts(&skip);
        },
    }
    r
}

/// How a table's rows are written.
#[derive(Debug, Clone, Copy, PartialEq, Eq, Structural)]
pub enum TableWrite {
    /// Every row is inserted.
    Insert,
    /// Rows the database lacks are inserted, the others skipped.
    InsertMissing,
    /// Every row is skipped: a merge keeps the database's state history.
    SkipAll,
}

/// How a merge or another import writes the named table.
pub open spec fn table_write(mode: ImportMode, name: Seq<char>) -> TableWrite {
    if mode != ImportMode::Merge {
        TableWrite::Insert
    } else if name == "task_sequence"@ {
        TableWrite::SkipAll
    } else {
        TableWrite::InsertMissing
    }
}

/// What an import does before it writes rows: the rows it deletes first,
/// per table, and the tables it then writes, in import order, each with
/// how it is written.
#[derive(Debug)]
pub struct ImportStart {
    /// `(table, rows)` for each table cleared first, children first.
    pub deletes: Vec<(String, usize)>,
    /// The snapshot's tables to write, in import order.
    pub tables: Vec<String>,
    /// How each of `tables` is written.
    pub writes: Vec<TableWrite>,
}

/// The import-order tables, among the first `k`, that the snapshot holds.
pub open spec fn present_tables(s: Snapshot, k: int) -> Seq<Seq<char>>
    decreases k,
{
    if k <= 0 {
        Seq::empty()
    } else {
        let name = exported_table_names()[k - 1];
        if tables_get(s.tables@, name) is Some {
            present_tables(s, k - 1).push(name)
        } else {
            present_tables(s, k - 1)
        }
    }
}

/// The tables a replace clears, last import-order table first, among the
/// last `j` tables: those holding rows, with their counts.
pub open spec fn clearing(existing: Seq<usize>, j: int) -> Seq<(Seq<char>, usize)>
    decreases j,
{
    if j <= 0 {
        Seq::empty()
    } else {
        let k = 7 - j;
        let front = clearing(existing, j - 1);
        if existing[k] > 0 {
            front.push((exported_table_names()[k], existing[k]))
        } else {
            front
        }
    }
}

/// The message of the refusal of a fresh import into a database with rows.
pub open spec fn empty_refusal_message(existing: Seq<usize>, k: int) -> Seq<char> {
    "Database is not empty: table '"@ + exported_table_names()[k] + "' contains "@ + dec_nat(existing[k] as nat)
        + " rows. Use --force to overwrite."@
}

/// The views of `(name, count)` pairs.
pub open spec fn pair_views(v: Seq<(String, usize)>) -> Seq<(Seq<char>, usize)> {
    v.map_values(|p: (String, usize)| (p.0@, p.1))
}

/// How an import of `s` in `mode` into a database with `existing` rows per
/// table starts: refused for a snapshot of another schema version, or for a
/// fresh import into a database with rows; otherwise a replace clears every
/// table that holds rows, and the snapshot's tables are written in import
/// order.
pub open spec fn import_start_ok(s: Snapshot, mode: ImportMode, existing: Seq<usize>, r: Result<ImportStart, String>) -> bool {
    if s.schema_version != CURRENT_SCHEMA_VERSION {
        r is Err && r->Err_0@ == schema_mismatch_message(s.schema_version)
    } else if mode == ImportMode::Fresh && first_non_empty(existing, 7) is Some {
        r is Err && r->Err_0@ == empty_refusal_message(existing, first_non_empty(existing, 7)->0)
    } else {
        &&& r is Ok
        &&& views(r->Ok_0.tables@) == present_tables(s, 7)
        &&& r->Ok_0.writes@.len() == r->Ok_0.tables@.len()
        &&& forall|i: int| 0 <= i < r->Ok_0.writes@.len()
            ==> #[trigger] r->Ok_0.writes@[i] == table_write(mode, r->Ok_0.tables@[i]@)
        &&& pair_views(r->Ok_0.deletes@) == if mode == ImportMode::Replace { clearing(existing, 7) } else { Seq::empty() }
    }
}

/// Decide how importing `snapshot` in `mode` starts, given the database's
/// row count per table in import order (see `import_start_ok`).
pub fn plan_import_start(snapshot: &Snapshot, mode: ImportMode, existing: &Vec<usize>) -> (r: Result<ImportStart, String>)
    requires
        snapshot.tables.wf(),
        existing@.len() == 7,
    ensures
        import_start_ok(*snapshot, mode, existing@, r),
{
    match check_snapshot_schema(snapshot.schema_version) {
        Err(m) => {
            return Err(m);
        },
        Ok(()) => {},
    }
    if mode == ImportMode::Fresh {
        match check_empty_database(existing) {
            Err(m) => {
                return Err(m);
            },
            Ok(()) => {},
        }
    }
    let names = exported_tables();
    let mut tables: Vec<String> = Vec::new();
    let mut writes: Vec<TableWrite> = Vec::new();
    let mut k: usize = 0;
    while k < 7
        invariant
            snapshot.tables.wf(),
            names@.map_values(|x: &str| x@) == exported_table_names(),
            k <= 7,
            views(tables@) == present_tables(*snapshot, k as int),
            writes@.len() == tables@.len(),
            forall|i: int| 0 <= i < writes@.len() ==> #[trigger] writes@[i] == table_write(mode, tables@[i]@),
        decreases 7 - k,
    {
        proof {
            lemma_names(names@, k as int);
        }
        if snapshot.tables.contains_key(names[k]) {
            let ghost before = tables@;
            let w = if mode != ImportMode::Merge {
                TableWrite::Insert
            } else if str_eq(names[k], "task_sequence") {
                TableWrite::SkipAll
            } else {
                TableWrite::InsertMissing
            };
            tables.push(string_of(names[k]));
            writes.push(w);
            proof {
                lemma_views_push(before, tables@.last());
                assert(views(before).len() == before.len());
            }
        }
        k = k + 1;
    }
    let mut deletes: Vec<(String, usize)> = Vec::new();
    if mode == ImportMode::Replace {
        let mut j: usize = 0;
        while j < 7
            invariant
                existing@.len() == 7,
                names@.map_values(|x: &str| x@) == exported_table_names(),
                j <= 7,
                pair_views(deletes@) == clearing(existing@, j as int),
            decreases 7 - j,
        {
            let k = 6 - j;
            proof {
                lemma_names(names@, k as int);
            }
            if existing[k] > 0 {
                let ghost before = deletes@;
                deletes.push((string_of(names[k]), existing[k]));
                proof {
                    assert(pair_views(deletes@) =~= pair_views(before).push((names@[k as int]@, existing@[k as int])));
                }
            }
            j = j + 1;
        }
    }
    proof {
        assert(pair_views(Seq::<(String, usize)>::empty()) =~= Seq::<(Seq<char>, usize)>::empty());
    }
    Ok(ImportStart { deletes, tables, writes })
}

/// A table of counts holding, under each name, the value given for it
/// (the last, should a name come twice).
fn fill_named(names: &Vec<String>, vals: &Vec<Option<usize>>) -> (r: TableCounts)
    requires
        vals@.len() == names@.len(),
    ensures
        r.wf(),
        forall|name: Seq<char>| #[trigger] counts_get(r@, name) == counts_after(views(names@), vals@, name, names@.len() as int),
{
    let mut r = TableCounts::new();
    let mut i: usize = 0;
    while i < names.len()
        invariant
            vals@.len() == names@.len(),
            i <= names@.len(),
            r.wf(),
            forall|name: Seq<char>| #[trigger] counts_get(r@, name) == counts_after(views(names@), vals@, name, i as int),
        decreases names@.len() - i,
    {
        proof {
            assert(views(names@)[i as int] == names@[i as int]@);
        }
        match vals[i] {
            Some(c) => {
                r.insert(names[i].clone(), c);
            },
            None => {},
        }
        i = i + 1;
    }
    r
}

/// The names of `(name, count)` pairs.
pub open spec fn pair_names(v: Seq<(Seq<char>, usize)>) -> Seq<Seq<char>> {
    v.map_values(|p: (Seq<char>, usize)| p.0)
}

/// The counts of `(name, count)` pairs.
pub open spec fn pair_counts(v: Seq<(Seq<char>, usize)>) -> Seq<Option<usize>> {
    v.map_values(|p: (Seq<char>, usize)| Some(p.1))
}

/// The rows written per table: `written[i]` rows inserted and skipped for
/// the `i`-th table; skips count in a merge only.
pub open spec fn imported_vals(written: Seq<(usize, usize)>) -> Seq<Option<usize>> {
    written.map_values(|w: (usize, usize)| Some(w.0))
}

/// The rows skipped per table in a merge, where any were.
pub open spec fn skipped_vals(mode: ImportMode, written: Seq<(usize, usize)>) -> Seq<Option<usize>> {
    written.map_values(|w: (usize, usize)| if mode == ImportMode::Merge && w.1 > 0 { Some(w.1) } else { None })
}

/// The result of an import that started as `start` and wrote `written`
/// rows per table: what it deleted, inserted and skipped, the search index
/// rebuilt, and, under a parent task, the roots attached to it; refused
/// when the parent task does not exist.
pub open spec fn import_result_ok(
    mode: ImportMode,
    start: ImportStart,
    written: Seq<(usize, usize)>,
    parent_id: Option<Seq<char>>,
    parent_exists: bool,
    roots: Seq<String>,
    r: Result<ImportResult, String>,
) -> bool {
    if parent_id is Some && !parent_exists {
        r is Err && r->Err_0@ == "Parent task '"@ + parent_id->0 + "' not found in database. Cannot attach imported roots."@
    } else {
        let res = r->Ok_0;
        let dv = pair_views(start.deletes@);
        &&& r is Ok
        &&& res.rows_imported.wf() && res.rows_deleted.wf() && res.rows_skipped.wf()
        &&& forall|name: Seq<char>| #[trigger] counts_get(res.rows_imported@, name)
            == counts_after(views(start.tables@), imported_vals(written), name, written.len() as int)
        &&& forall|name: Seq<char>| #[trigger] counts_get(res.rows_skipped@, name)
            == counts_after(views(start.tables@), skipped_vals(mode, written), name, written.len() as int)
        &&& forall|name: Seq<char>| #[trigger] counts_get(res.rows_deleted@, name)
            == counts_after(pair_names(dv), pair_counts(dv), name, dv.len() as int)
        &&& res.fts_rebuilt
        &&& res.warnings@.len() == 0
        &&& res.id_remap is None
        &&& views(res.parent_linked_roots@) == if parent_id is Some { views(roots) } else { Seq::empty() }
    }
}

/// The result of an import (see `import_result_ok`): `written[i]` are the
/// rows inserted and skipped for `start.tables[i]`, `parent_exists` whether
/// the parent task, if one is given, exists after the writes, and `roots`
/// the snapshot's root tasks (see `snapshot_root_task_ids`), each attached
/// to the parent with a `contains` dependency.
pub fn import_result(
    mode: ImportMode,
    start: &ImportStart,
    written: &Vec<(usize, usize)>,
    parent_id: Option<&str>,
    parent_exists: bool,
    roots: &Vec<String>,
) -> (r: Result<ImportResult, String>)
    requires
        written@.len() == start.tables@.len(),
    ensures
        import_result_ok(mode, *start, written@, opt_str(parent_id), parent_exists, roots@, r),
{
    match parent_id {
        Some(p) => {
            if !parent_exists {
                return Err(parent_not_found_message(p));
            }
        },
        None => {},
    }
    let mut imported: Vec<Option<usize>> = Vec::new();
    let mut skipped: Vec<Option<usize>> = Vec::new();
    let mut i: usize = 0;
    while i < written.len()
        invariant
            i <= written@.len(),
            imported@ == imported_vals(written@).take(i as int),
            skipped@ == skipped_vals(mode, written@).take(i as int),
        decreases written@.len() - i,
    {
        let (ins, skip) = written[i];
        imported.push(Some(ins));
        skipped.push(if mode == ImportMode::Merge && skip > 0 { Some(skip) } else { None });
        proof {
            assert(imported@ =~= imported_vals(written@).take(i + 1));
            assert(skipped@ =~= skipped_vals(mode, written@).take(i + 1));
        }
        i = i + 1;
    }
    proof {
        assert(imported@ =~= imported_vals(written@));
        assert(skipped@ =~= skipped_vals(mode, written@));
    }
    let mut del_names: Vec<String> = Vec::new();
    let mut del_counts: Vec<Option<usize>> = Vec::new();
    let ghost dv = pair_views(start.deletes@);
    let mut j: usize = 0;
    while j < start.deletes.len()
        invariant
            j <= start.deletes@.len(),
            dv == pair_views(start.deletes@),
            views(del_names@) == pair_names(dv).take(j as int),
            del_counts@ == pair_counts(dv).take(j as int),
        decreases start.deletes@.len() - j,
    {
        let ghost before = del_names@;
        del_names.push(start.deletes[j].0.clone());
        del_counts.push(Some(start.deletes[j].1));
        proof {
            lemma_views_push(before, del_names@.last());
            assert(views(del_names@) =~= pair_names(dv).take(j + 1));
            assert(del_counts@ =~= pair_counts(dv).take(j + 1));
        }
        j = j + 1;
    }
    proof {
        assert(views(del_names@) =~= pair_names(dv));
        assert(del_counts@ =~= pair_counts(dv));
    }
    let mut linked: Vec<String> = Vec::new();
    if parent_id.is_some() {
        let mut k: usize = 0;
        while k < roots.len()
            invariant
                k <= roots@.len(),
                views(linked@) == views(roots@).take(k as int),
            decreases roots@.len() - k,
        {
            let ghost before = linked@;
            linked.push(roots[k].clone());
            proof {
                lemma_views_push(before, linked@.last());
                assert(views(roots@).take(k + 1) =~= views(roots@).take(k as int).push(roots@[k as int]@));
            }
            k = k + 1;
        }
        proof {
            assert(views(roots@).take(roots@.len() as int) =~= views(roots@));
        }
    } else {
        proof {
            assert(views(linked@) =~= Seq::<Seq<char>>::empty());
        }
    }
    let mut res = ImportResult::new();
    res.rows_imported = fill_named(&start.tables, &imported);
    res.rows_skipped = fill_named(&start.tables, &skipped);
    res.rows_deleted = fill_named(&del_names, &del_counts);
    res.fts_rebuilt = true;
    res.parent_linked_roots = linked;
    Ok(res)
}

/// The view of an optional string slice.
pub open spec fn opt_str(o: Option<&str>) -> Option<Seq<char>> {
    match o {
        Some(s) => Some(s@),
        None => None,
    }
}

} // verus!
