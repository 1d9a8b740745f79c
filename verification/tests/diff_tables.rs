use task_graph::diff::{diff_records, diff_snapshots, diff_table, extract_key, key_to_string, FieldChange, ModifiedRecord, SnapshotDiff, TableDiff};
use task_graph::diff_report::format_record_brief;
use task_graph::export::Snapshot;
use task_graph::json::{json_same, Json};

fn s(v: &str) -> Json {
    Json::Str(v.to_string())
}

fn obj(fields: Vec<(&str, Json)>) -> Json {
    Json::Object(fields.into_iter().map(|(k, v)| (k.to_string(), v)).collect())
}

fn row(id: &str, title: &str) -> Json {
    obj(vec![("id", s(id)), ("title", s(title))])
}

fn same(a: &Json, b: &Json) -> bool {
    json_same(a, b)
}

fn field<'a>(row: &'a Json, key: &str) -> &'a str {
    row.get_str(key).unwrap()
}

#[test]
fn test_extract_key_single() {
    let record = obj(vec![("id", s("task-1")), ("title", s("Test"))]);
    let key = extract_key(&record, &["id"]);
    assert!(json_same(&key, &s("task-1")));
}

#[test]
fn test_extract_key_composite() {
    let record = obj(vec![("from_task_id", s("a")), ("to_task_id", s("b")), ("dep_type", s("blocks"))]);
    let key = extract_key(&record, &["from_task_id", "to_task_id", "dep_type"]);
    assert!(json_same(&key, &Json::Array(vec![s("a"), s("b"), s("blocks")])));
}

#[test]
fn test_extract_key_missing_column_is_null() {
    let record = obj(vec![("id", s("task-1"))]);
    let key = extract_key(&record, &["id", "other"]);
    assert!(json_same(&key, &Json::Array(vec![s("task-1"), Json::Null])));
    assert!(json_same(&extract_key(&record, &["other"]), &Json::Null));
}

#[test]
fn test_key_to_string_texts() {
    assert_eq!(key_to_string(&s("task-1")), "\"task-1\"");
    assert_eq!(key_to_string(&Json::Array(vec![s("a"), Json::Int(7), Json::Null])), "\"a\"|7|null");
}

#[test]
fn test_diff_records() {
    let source = obj(vec![("id", s("task-1")), ("title", s("Old Title")), ("status", s("pending"))]);
    let target = obj(vec![("id", s("task-1")), ("title", s("New Title")), ("status", s("pending"))]);
    let changes = diff_records(&source, &target, &["id"], &same);
    assert_eq!(changes.len(), 1);
    assert_eq!(changes[0].field, "title");
    assert!(json_same(&changes[0].old_value, &s("Old Title")));
    assert!(json_same(&changes[0].new_value, &s("New Title")));
}

#[test]
fn test_diff_records_field_only_on_one_side() {
    let source = obj(vec![("id", s("x")), ("a", Json::Int(1))]);
    let target = obj(vec![("id", s("y")), ("b", Json::Int(2))]);
    let changes = diff_records(&source, &target, &["id"], &same);
    assert_eq!(changes.len(), 2);
    let a = changes.iter().find(|c| c.field == "a").unwrap();
    assert!(json_same(&a.old_value, &Json::Int(1)));
    assert!(json_same(&a.new_value, &Json::Null));
    let b = changes.iter().find(|c| c.field == "b").unwrap();
    assert!(json_same(&b.old_value, &Json::Null));
    assert!(json_same(&b.new_value, &Json::Int(2)));
}

#[test]
fn test_diff_records_non_objects_have_no_changes() {
    let changes = diff_records(&Json::Int(1), &obj(vec![("a", Json::Int(1))]), &["id"], &same);
    assert!(changes.is_empty());
}

#[test]
fn test_diff_table() {
    let source = vec![row("1", "Keep"), row("2", "Remove"), row("3", "Old")];
    let target = vec![row("1", "Keep"), row("3", "New"), row("4", "Added")];
    let diff = diff_table(&source, &target, &["id"], &same);
    assert_eq!(diff.added.len(), 1);
    assert_eq!(diff.removed.len(), 1);
    assert_eq!(diff.modified.len(), 1);
    assert_eq!(field(&diff.added[0], "id"), "4");
    assert_eq!(field(&diff.removed[0], "id"), "2");
    assert!(json_same(&diff.modified[0].key, &s("3")));
    assert_eq!(diff.change_count(), 3);
    assert!(!diff.is_empty());
}

#[test]
fn test_diff_table_identical_is_empty() {
    let rows = vec![row("1", "A"), row("2", "B")];
    let diff = diff_table(&rows, &rows, &["id"], &same);
    assert!(diff.is_empty());
    assert_eq!(diff.change_count(), 0);
    assert!(TableDiff::new().is_empty());
}

#[test]
fn test_diff_snapshots() {
    let mut source = Snapshot::new();
    source.tables.insert("tasks".to_string(), vec![row("1", "Task 1"), row("2", "Task 2")]);
    let mut target = Snapshot::new();
    target.tables.insert("tasks".to_string(), vec![row("1", "Task 1 Updated"), row("3", "Task 3")]);
    let diff = diff_snapshots(&source, &target, &same);
    assert!(!diff.is_empty());
    let tasks_diff = &diff.tables.iter().find(|(n, _)| n == "tasks").unwrap().1;
    assert_eq!(tasks_diff.added.len(), 1);
    assert_eq!(tasks_diff.removed.len(), 1);
    assert_eq!(tasks_diff.modified.len(), 1);
    assert_eq!(diff.total_changes(), 3);
    let summary = diff.summary();
    assert_eq!(summary, vec![("tasks".to_string(), 1, 1, 1)]);
    assert_eq!(diff.source_label, "source");
    assert_eq!(diff.target_label, "target");
}

#[test]
fn test_diff_snapshots_skips_unchanged_tables() {
    let mut source = Snapshot::new();
    source.tables.insert("tasks".to_string(), vec![row("1", "Same")]);
    source.tables.insert("tags".to_string(), vec![obj(vec![("task_id", s("1")), ("tag", s("x"))])]);
    let mut target = Snapshot::new();
    target.tables.insert("tasks".to_string(), vec![row("1", "Same")]);
    let diff = diff_snapshots(&source, &target, &same);
    assert_eq!(diff.tables.len(), 1);
    assert_eq!(diff.tables[0].0, "tags");
    assert_eq!(diff.tables[0].1.removed.len(), 1);
}

#[test]
fn test_json_same() {
    assert!(json_same(&Json::Int(1), &Json::Int(1)));
    assert!(json_same(&s("a"), &s("a")));
    assert!(!json_same(&Json::Int(1), &Json::Int(2)));
    assert!(!json_same(&s("a"), &s("b")));
    assert!(!json_same(&Json::Int(1), &s("1")));
    assert!(json_same(&row("1", "A"), &row("1", "A")));
    assert!(!json_same(&row("1", "A"), &row("1", "B")));
}

#[test]
fn test_snapshot_diff_display() {
    let diff = SnapshotDiff {
        source_label: "old.json".to_string(),
        target_label: "new.json".to_string(),
        tables: vec![(
            "tasks".to_string(),
            TableDiff { added: vec![row("new-task", "New Task")], removed: vec![], modified: vec![] },
        )],
    };
    let output = diff.to_string();
    assert!(output.contains("old.json -> new.json"));
    assert!(output.contains("Table: tasks"));
    assert!(output.contains("Added (1)"));
}

#[test]
fn test_snapshot_diff_display_exact() {
    let diff = SnapshotDiff {
        source_label: "a".to_string(),
        target_label: "b".to_string(),
        tables: vec![(
            "tasks".to_string(),
            TableDiff {
                added: vec![],
                removed: vec![obj(vec![("id", s("x"))])],
                modified: vec![ModifiedRecord {
                    key: s("y"),
                    changes: vec![FieldChange { field: "title".to_string(), old_value: s("Old"), new_value: Json::Int(3) }],
                }],
            },
        )],
    };
    let expected = format!(
        "Diff: a -> b\n{}\n\nTable: tasks\n{}\n  Removed (1):\n    - \"x\"\n  Modified (1):\n    ~ \"y\"\n        title: \"Old\" -> 3\n\nSummary: 2 total changes\n",
        "=".repeat(60),
        "-".repeat(40)
    );
    assert_eq!(diff.to_string(), expected);
}

#[test]
fn test_snapshot_diff_display_empty() {
    let diff = SnapshotDiff { source_label: "a".to_string(), target_label: "b".to_string(), tables: vec![] };
    assert_eq!(diff.to_string(), "No differences found.\n");
}

#[test]
fn test_format_record_brief() {
    assert_eq!(format_record_brief(&row("t1", "Short")), "\"t1\" (Short)");
    let long = "x".repeat(45);
    assert_eq!(format_record_brief(&row("t1", &long)), format!("\"t1\" ({}...)", "x".repeat(37)));
    assert_eq!(format_record_brief(&obj(vec![("title", s("T"))])), " (T)");
    assert_eq!(format_record_brief(&obj(vec![("id", Json::Int(4))])), "4");
    assert_eq!(format_record_brief(&s("plain")), "\"plain\"");
}

#[test]
fn test_snapshot_diff_with_itself_is_empty() {
    let mut snap = Snapshot::new();
    snap.tables.insert("tasks".to_string(), vec![row("1", "A"), row("1", "B"), row("2", "C")]);
    snap.tables.insert("dependencies".to_string(), vec![obj(vec![("from_task_id", s("1")), ("to_task_id", s("2")), ("dep_type", s("blocks"))])]);
    let diff = diff_snapshots(&snap, &snap, &same);
    assert!(diff.tables.is_empty());
    assert!(diff.is_empty());
}
