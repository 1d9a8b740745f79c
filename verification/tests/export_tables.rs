use task_graph::export::{
    excluded_tables, exported_tables, get_table_ordering, get_table_primary_key, Snapshot, Tables,
    CURRENT_SCHEMA_VERSION, EXPORT_VERSION,
};
use task_graph::json::Json;

#[test]
fn test_table_ordering() {
    assert_eq!(get_table_ordering("tasks"), "ORDER BY id");
    assert_eq!(get_table_ordering("dependencies"), "ORDER BY from_task_id, to_task_id, dep_type");
}

#[test]
fn test_table_primary_key() {
    assert_eq!(get_table_primary_key("tasks"), &["id"]);
    assert_eq!(get_table_primary_key("dependencies"), &["from_task_id", "to_task_id", "dep_type"]);
    assert_eq!(get_table_primary_key("attachments"), &["task_id", "order_index"]);
}

#[test]
fn test_snapshot_new() {
    let snapshot = Snapshot::new();
    assert_eq!(snapshot.schema_version, CURRENT_SCHEMA_VERSION);
    assert_eq!(snapshot.export_version, EXPORT_VERSION);
    assert!(snapshot.tables.is_empty());
    assert!(snapshot.is_schema_compatible());
}

#[test]
fn tables_insert_replaces_and_keeps_order() {
    let mut tables = Tables::new();
    tables.insert("tasks".to_string(), vec![Json::Int(1)]);
    tables.insert("dependencies".to_string(), vec![]);
    tables.insert("tasks".to_string(), vec![Json::Int(2), Json::Int(3)]);
    assert_eq!(tables.len(), 2);
    assert_eq!(tables.names(), vec!["tasks", "dependencies"]);
    assert_eq!(tables.get("tasks").map(|r| r.len()), Some(2));
    assert!(tables.contains_key("dependencies"));
    assert!(!tables.contains_key("attachments"));
}

#[test]
fn exported_and_excluded_tables_are_disjoint() {
    let exported = exported_tables();
    for t in excluded_tables() {
        assert!(!exported.contains(&t));
    }
    assert!(exported.contains(&"tasks"));
}

#[test]
fn unknown_table_falls_back_to_rowid() {
    assert_eq!(get_table_ordering("workers"), "ORDER BY rowid");
    assert_eq!(get_table_primary_key("workers"), &["rowid"]);
}
