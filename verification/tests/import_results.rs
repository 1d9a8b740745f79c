use task_graph::import::{DryRunResult, ImportMode, ImportOptions, ImportResult, TableCounts};

#[test]
fn test_import_result_total_deleted() {
    let mut result = ImportResult::new();
    result.rows_deleted.insert("tasks".to_string(), 5);
    result.rows_deleted.insert("dependencies".to_string(), 3);
    assert_eq!(result.total_deleted(), 8);
}

#[test]
fn test_import_result_total_skipped() {
    let mut result = ImportResult::new();
    result.rows_skipped.insert("tasks".to_string(), 3);
    result.rows_skipped.insert("dependencies".to_string(), 2);
    assert_eq!(result.total_skipped(), 5);
}

#[test]
fn test_import_options_merge() {
    let options = ImportOptions::merge();
    assert_eq!(options.mode, ImportMode::Merge);
}

#[test]
fn test_dry_run_result_totals() {
    let mut result = DryRunResult::new(ImportMode::Replace);
    result.existing_rows.insert("tasks".to_string(), 5);
    result.existing_rows.insert("dependencies".to_string(), 3);
    result.would_delete.insert("tasks".to_string(), 5);
    result.would_delete.insert("dependencies".to_string(), 3);
    result.would_insert.insert("tasks".to_string(), 2);
    result.would_skip.insert("attachments".to_string(), 1);

    assert_eq!(result.total_existing(), 8);
    assert_eq!(result.total_would_delete(), 8);
    assert_eq!(result.total_would_insert(), 2);
    assert_eq!(result.total_would_skip(), 1);
}

#[test]
fn test_import_options_with_parent_builder() {
    let options = ImportOptions::merge().with_parent("my-parent".to_string());
    assert_eq!(options.mode, ImportMode::Merge);
    assert_eq!(options.parent_id, Some("my-parent".to_string()));
    assert!(!options.remap_ids);
}

#[test]
fn test_import_mode_default() {
    let options = ImportOptions::default();
    assert_eq!(options.mode, ImportMode::Fresh);
}

#[test]
fn import_result_total_rows_sums_counts() {
    let mut result = ImportResult::new();
    assert_eq!(result.total_rows(), 0);
    result.rows_imported.insert("tasks".to_string(), 4);
    result.rows_imported.insert("task_tags".to_string(), 6);
    assert_eq!(result.total_rows(), 10);
}

#[test]
fn table_counts_insert_replaces_existing_count() {
    let mut counts = TableCounts::new();
    counts.insert("tasks".to_string(), 5);
    counts.insert("tasks".to_string(), 2);
    assert_eq!(counts.get("tasks"), Some(2));
    assert_eq!(counts.get("dependencies"), None);
    assert_eq!(counts.total(), 2);
    assert_eq!(counts.entries().len(), 1);
}

#[test]
fn import_options_builders_keep_other_fields() {
    let options = ImportOptions::replace().with_remap_ids().with_parent("p".to_string());
    assert_eq!(options.mode, ImportMode::Replace);
    assert!(options.remap_ids);
    assert_eq!(options.parent_id, Some("p".to_string()));
    let fresh = ImportOptions::fresh();
    assert_eq!(fresh.mode, ImportMode::Fresh);
    assert!(!fresh.remap_ids);
    assert_eq!(fresh.parent_id, None);
}

#[test]
fn dry_run_result_new_is_empty_and_succeeds() {
    let result = DryRunResult::new(ImportMode::Merge);
    assert_eq!(result.mode, ImportMode::Merge);
    assert!(result.would_succeed);
    assert!(result.database_is_empty);
    assert_eq!(result.failure_reason, None);
    assert_eq!(result.total_existing(), 0);
}
