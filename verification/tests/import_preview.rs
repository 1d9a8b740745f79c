use task_graph::export::Snapshot;
use task_graph::import::ImportMode;
use task_graph::import_plan::{check_empty_database, plan_preview, TableWrite};
use task_graph::json::Json;

fn row(id: &str) -> Json {
    Json::Object(vec![("id".to_string(), Json::Str(id.to_string()))])
}

fn snapshot() -> Snapshot {
    let mut s = Snapshot::new();
    s.tables.insert("tasks".to_string(), vec![row("a"), row("b"), row("c")]);
    s.tables.insert("dependencies".to_string(), vec![row("d")]);
    s.tables.insert("task_sequence".to_string(), vec![row("s1"), row("s2")]);
    s
}

#[test]
fn preview_fresh_into_empty_database_inserts_everything() {
    let r = plan_preview(&snapshot(), ImportMode::Fresh, &vec![0; 7], &vec![0; 7]);
    assert!(r.would_succeed);
    assert!(r.database_is_empty);
    assert_eq!(r.would_insert.get("tasks"), Some(3));
    assert_eq!(r.would_insert.get("dependencies"), Some(1));
    assert_eq!(r.would_insert.get("attachments"), Some(0));
    assert_eq!(r.would_insert.get("task_sequence"), Some(2));
    assert_eq!(r.total_would_insert(), 6);
    assert_eq!(r.total_would_delete(), 0);
}

#[test]
fn preview_fresh_into_non_empty_database_fails() {
    let existing = vec![4, 0, 1, 0, 0, 0, 2];
    let r = plan_preview(&snapshot(), ImportMode::Fresh, &existing, &vec![0; 7]);
    assert!(!r.would_succeed);
    assert!(!r.database_is_empty);
    assert_eq!(
        r.failure_reason.as_deref(),
        Some("Database is not empty. Use --force to overwrite or --merge to add. Non-empty tables: attachments: 1 rows, task_sequence: 2 rows, tasks: 4 rows")
    );
    assert_eq!(r.existing_rows.get("tasks"), Some(4));
    assert_eq!(r.total_would_insert(), 0);
}

#[test]
fn preview_replace_deletes_existing_rows() {
    let existing = vec![4, 0, 1, 0, 0, 0, 0];
    let r = plan_preview(&snapshot(), ImportMode::Replace, &existing, &vec![0; 7]);
    assert!(r.would_succeed);
    assert_eq!(r.would_delete.get("tasks"), Some(4));
    assert_eq!(r.would_delete.get("attachments"), Some(1));
    assert_eq!(r.would_delete.get("dependencies"), None);
    assert_eq!(r.total_would_delete(), 5);
    assert_eq!(r.total_would_insert(), 6);
}

#[test]
fn preview_merge_skips_present_rows_and_sequence() {
    let present = vec![2, 0, 0, 0, 0, 0, 0];
    let r = plan_preview(&snapshot(), ImportMode::Merge, &vec![2, 0, 0, 0, 0, 0, 0], &present);
    assert!(r.would_succeed);
    assert_eq!(r.would_insert.get("tasks"), Some(1));
    assert_eq!(r.would_skip.get("tasks"), Some(2));
    assert_eq!(r.would_insert.get("dependencies"), Some(1));
    assert_eq!(r.would_skip.get("dependencies"), None);
    assert_eq!(r.would_insert.get("task_sequence"), Some(0));
    assert_eq!(r.would_skip.get("task_sequence"), Some(2));
    assert_eq!(r.would_insert.get("attachments"), Some(0));
    assert_eq!(r.total_would_skip(), 4);
}

#[test]
fn preview_refuses_other_schema_version() {
    let mut s = snapshot();
    s.schema_version = 1;
    let r = plan_preview(&s, ImportMode::Merge, &vec![0; 7], &vec![0; 7]);
    assert!(!r.would_succeed);
    assert_eq!(
        r.failure_reason.as_deref(),
        Some("Schema version mismatch: snapshot is v1, database is v3. Migration required.")
    );
}

#[test]
fn fresh_import_needs_empty_database() {
    assert_eq!(check_empty_database(&vec![0; 7]), Ok(()));
    assert_eq!(
        check_empty_database(&vec![0, 3, 5, 0, 0, 0, 0]),
        Err("Database is not empty: table 'dependencies' contains 3 rows. Use --force to overwrite.".to_string())
    );
}

#[test]
fn import_start_decisions() {
    let s = snapshot();
    let start = task_graph::import_plan::plan_import_start(&s, ImportMode::Replace, &vec![4, 0, 1, 0, 0, 0, 2]).unwrap();
    assert_eq!(start.tables, vec!["tasks", "dependencies", "task_sequence"]);
    assert_eq!(start.deletes, vec![("task_sequence".to_string(), 2), ("attachments".to_string(), 1), ("tasks".to_string(), 4)]);

    assert_eq!(start.writes, vec![TableWrite::Insert; 3]);
    let merge = task_graph::import_plan::plan_import_start(&s, ImportMode::Merge, &vec![4, 0, 1, 0, 0, 0, 2]).unwrap();
    assert!(merge.deletes.is_empty());
    assert_eq!(merge.writes, vec![TableWrite::InsertMissing, TableWrite::InsertMissing, TableWrite::SkipAll]);

    let fresh = task_graph::import_plan::plan_import_start(&s, ImportMode::Fresh, &vec![0, 0, 1, 0, 0, 0, 0]);
    assert_eq!(
        fresh.err(),
        Some("Database is not empty: table 'attachments' contains 1 rows. Use --force to overwrite.".to_string())
    );

    let mut old = snapshot();
    old.schema_version = 2;
    let refused = task_graph::import_plan::plan_import_start(&old, ImportMode::Merge, &vec![0; 7]);
    assert_eq!(
        refused.err(),
        Some("Schema version mismatch: snapshot is v2, database is v3. Migration required.".to_string())
    );
}

#[test]
fn import_result_counts_and_parent() {
    let s = snapshot();
    let start = task_graph::import_plan::plan_import_start(&s, ImportMode::Merge, &vec![0; 7]).unwrap();
    let roots = vec!["a".to_string()];
    let written = vec![(2, 1), (1, 0), (0, 2)];
    let r = task_graph::import_plan::import_result(ImportMode::Merge, &start, &written, Some("epic"), true, &roots).unwrap();
    assert_eq!(r.rows_imported.get("tasks"), Some(2));
    assert_eq!(r.rows_imported.get("task_sequence"), Some(0));
    assert_eq!(r.rows_skipped.get("tasks"), Some(1));
    assert_eq!(r.rows_skipped.get("dependencies"), None);
    assert_eq!(r.rows_skipped.get("task_sequence"), Some(2));
    assert!(r.fts_rebuilt);
    assert_eq!(r.parent_linked_roots, vec!["a"]);

    let missing = task_graph::import_plan::import_result(ImportMode::Merge, &start, &written, Some("epic"), false, &roots);
    assert_eq!(
        missing.err(),
        Some("Parent task 'epic' not found in database. Cannot attach imported roots.".to_string())
    );
}
