use task_graph::json::Json;
use task_graph::migrations::{migrate_export_data, Migration, MigrationError, MigrationRegistry};

fn s(v: &str) -> Json {
    Json::Str(v.to_string())
}

fn obj(fields: Vec<(&str, Json)>) -> Json {
    Json::Object(fields.into_iter().map(|(k, v)| (k.to_string(), v)).collect())
}

/// Runs the migrations by description: "Add new_field to tasks" and
/// "Add new field" add `new_field: "default"` to every task; "Failing
/// migration" fails; anything else changes nothing.
fn run(m: &Migration, mut data: Json) -> (Json, Option<String>) {
    match m.description.as_str() {
        "Add new_field to tasks" | "Add new field" => {
            if let Json::Object(entries) = &mut data {
                for (k, v) in entries.iter_mut() {
                    if k == "tables" {
                        if let Json::Object(tables) = v {
                            for (name, rows) in tables.iter_mut() {
                                if name == "tasks" {
                                    if let Json::Array(tasks) = rows {
                                        for t in tasks.iter_mut() {
                                            t.set_field("new_field", s("default"));
                                        }
                                    }
                                }
                            }
                        }
                    }
                }
            }
            (data, None)
        }
        "Failing migration" => (data, Some("Migration failed intentionally".to_string())),
        _ => (data, None),
    }
}

fn tasks_of(data: &Json) -> &Vec<Json> {
    match data.get("tables").and_then(|t| t.get("tasks")) {
        Some(Json::Array(v)) => v,
        _ => panic!("no tasks"),
    }
}

#[test]
fn test_migrate_data() {
    let registry = MigrationRegistry::new().register(1, 2, "Add new_field to tasks");
    let mut data = obj(vec![
        ("schema_version", Json::Int(1)),
        (
            "tables",
            obj(vec![(
                "tasks",
                Json::Array(vec![
                    obj(vec![("id", s("1")), ("title", s("Task 1"))]),
                    obj(vec![("id", s("2")), ("title", s("Task 2"))]),
                ]),
            )]),
        ),
    ]);
    registry.migrate(&mut data, 1, 2, &run).unwrap();
    assert!(matches!(data.get("schema_version"), Some(Json::Int(2))));
    let tasks = tasks_of(&data);
    assert_eq!(tasks[0].get_str("new_field"), Some("default"));
    assert_eq!(tasks[1].get_str("new_field"), Some("default"));
}

#[test]
fn test_migrate_same_version() {
    let registry = MigrationRegistry::new();
    let mut data = obj(vec![("schema_version", Json::Int(2))]);
    registry.migrate(&mut data, 2, 2, &run).unwrap();
    assert!(matches!(data.get("schema_version"), Some(Json::Int(2))));
}

#[test]
fn test_migration_failure() {
    let registry = MigrationRegistry::new().register(1, 2, "Failing migration");
    let mut data = obj(vec![("schema_version", Json::Int(1)), ("tables", obj(vec![]))]);
    let result = registry.migrate(&mut data, 1, 2, &run);
    assert!(matches!(result, Err(MigrationError::MigrationFailed { from: 1, to: 2, .. })));
}

#[test]
fn test_migrate_export_data_no_migration() {
    let registry = MigrationRegistry::new();
    let mut data = obj(vec![("schema_version", Json::Int(3)), ("tables", obj(vec![]))]);
    let report = migrate_export_data(&registry, &mut data, 3, &run).unwrap();
    assert!(!report.was_migrated);
    assert_eq!(report.from_version, 3);
    assert_eq!(report.to_version, 3);
    assert!(report.steps_applied.is_empty());
}

#[test]
fn test_migrate_export_data_with_migration() {
    let registry = MigrationRegistry::new()
        .register(1, 2, "Add new field")
        .register(2, 3, "No-op migration");
    let mut data = obj(vec![
        ("schema_version", Json::Int(1)),
        ("tables", obj(vec![("tasks", Json::Array(vec![obj(vec![("id", s("1")), ("title", s("Task 1"))])]))])),
    ]);
    let report = migrate_export_data(&registry, &mut data, 3, &run).unwrap();
    assert!(report.was_migrated);
    assert_eq!(report.from_version, 1);
    assert_eq!(report.to_version, 3);
    assert_eq!(report.steps_applied.len(), 2);
    assert_eq!(report.steps_applied[0].from, 1);
    assert_eq!(report.steps_applied[0].to, 2);
    assert_eq!(report.steps_applied[1].from, 2);
    assert_eq!(report.steps_applied[1].to, 3);
    assert!(matches!(data.get("schema_version"), Some(Json::Int(3))));
    assert_eq!(tasks_of(&data)[0].get_str("new_field"), Some("default"));
}

#[test]
fn test_migrate_export_data_missing_version() {
    let registry = MigrationRegistry::new().register(1, 2, "v1 to v2");
    let mut data = obj(vec![("tables", obj(vec![]))]);
    let report = migrate_export_data(&registry, &mut data, 2, &run).unwrap();
    assert!(report.was_migrated);
    assert_eq!(report.from_version, 1);
}

#[test]
fn test_migrate_export_data_export_newer_fails() {
    let registry = MigrationRegistry::new();
    let mut data = obj(vec![("schema_version", Json::Int(5)), ("tables", obj(vec![]))]);
    let result = migrate_export_data(&registry, &mut data, 3, &run);
    assert!(result.is_err());
    assert!(matches!(result, Err(MigrationError::InvalidVersionRange { from: 5, to: 3 })));
}

#[test]
fn migrate_export_data_without_path_leaves_data() {
    let registry = MigrationRegistry::new().register(2, 3, "x");
    let mut data = obj(vec![("schema_version", Json::Int(1))]);
    let result = migrate_export_data(&registry, &mut data, 3, &run);
    assert!(matches!(result, Err(MigrationError::NoPath { from: 1, to: 3, .. })));
    assert!(matches!(data.get("schema_version"), Some(Json::Int(1))));
}

#[test]
fn migration_step_failure_stops_the_run() {
    let registry = MigrationRegistry::new()
        .register(1, 2, "Add new field")
        .register(2, 3, "Failing migration");
    let mut data = obj(vec![("schema_version", Json::Int(1))]);
    let result = migrate_export_data(&registry, &mut data, 3, &run);
    match result {
        Err(MigrationError::MigrationFailed { from, to, reason }) => {
            assert_eq!((from, to), (2, 3));
            assert_eq!(reason, "Migration failed intentionally");
        }
        _ => panic!("expected a failed step"),
    }
    assert!(matches!(data.get("schema_version"), Some(Json::Int(2))));
}
