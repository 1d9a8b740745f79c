use task_graph::export::{Snapshot, Tables, CURRENT_SCHEMA_VERSION, EXPORT_VERSION};
use task_graph::ids::IdsConfig;
use task_graph::import::{ImportResult};
use task_graph::json::Json;
use task_graph::template::{
    analyze_template, instantiation_result, map_template_ids, prepare_snapshot, ImportStats, InstantiateOptions,
};

fn s(v: &str) -> Json {
    Json::Str(v.to_string())
}

fn obj(fields: Vec<(&str, Json)>) -> Json {
    Json::Object(fields.into_iter().map(|(k, v)| (k.to_string(), v)).collect())
}

fn arr(items: Vec<Json>) -> Json {
    Json::Array(items)
}

fn template_task(id: &str, title: &str, description: &str, tag: &str, points: Json, created: i64) -> Json {
    obj(vec![
        ("id", s(id)),
        ("title", s(title)),
        ("description", s(description)),
        ("status", s("pending")),
        ("priority", s("5")),
        ("worker_id", Json::Null),
        ("claimed_at", Json::Null),
        ("needed_tags", arr(vec![])),
        ("wanted_tags", arr(vec![])),
        ("tags", arr(vec![s(tag)])),
        ("points", points),
        ("time_estimate_ms", Json::Null),
        ("time_actual_ms", Json::Null),
        ("started_at", Json::Null),
        ("completed_at", Json::Null),
        ("current_thought", Json::Null),
        ("cost_usd", Json::Float("0.0".to_string())),
        ("metrics", arr(vec![Json::Int(0); 8])),
        ("created_at", Json::Int(created)),
        ("updated_at", Json::Int(created)),
    ])
}

fn make_test_template() -> Snapshot {
    let mut tables = Tables::new();
    tables.insert(
        "tasks".to_string(),
        vec![
            template_task("tpl-root", "Root Task", "The root of the template", "template", Json::Null, 1000000),
            template_task("tpl-child-1", "Child Task 1", "First child", "child", Json::Int(3), 1000001),
        ],
    );
    tables.insert(
        "dependencies".to_string(),
        vec![obj(vec![("from_task_id", s("tpl-root")), ("to_task_id", s("tpl-child-1")), ("dep_type", s("contains"))])],
    );
    tables.insert(
        "task_tags".to_string(),
        vec![
            obj(vec![("task_id", s("tpl-root")), ("tag", s("template"))]),
            obj(vec![("task_id", s("tpl-child-1")), ("tag", s("child"))]),
        ],
    );
    tables.insert("attachments".to_string(), Vec::new());
    tables.insert("task_needed_tags".to_string(), Vec::new());
    tables.insert("task_wanted_tags".to_string(), Vec::new());
    tables.insert("task_sequence".to_string(), Vec::new());
    Snapshot {
        schema_version: CURRENT_SCHEMA_VERSION,
        export_version: EXPORT_VERSION.to_string(),
        exported_at: chrono::Utc::now().to_rfc3339(),
        exported_by: "test-template".to_string(),
        tables,
    }
}

fn ids_config() -> IdsConfig {
    IdsConfig { task_id_words: 3, agent_id_words: 4 }
}

fn find<'a>(pairs: &'a [(String, String)], old: &str) -> &'a str {
    pairs.iter().find(|(o, _)| o == old).map(|(_, n)| n.as_str()).unwrap()
}

#[test]
fn test_analyze_template_entry_points() {
    let snapshot = make_test_template();
    let metadata = analyze_template(&snapshot, "test-template", None).unwrap();
    assert_eq!(metadata.entry_points.len(), 1);
    assert!(metadata.entry_points.contains(&"tpl-root".to_string()));
    assert_eq!(metadata.task_count, 2);
    assert_eq!(metadata.dependency_count, 1);
}

#[test]
fn test_analyze_template_exit_points() {
    let mut snapshot = make_test_template();
    let mut deps = snapshot.tables.get("dependencies").unwrap().clone();
    deps.push(obj(vec![
        ("from_task_id", s("tpl-child-1")),
        ("to_task_id", s("external-task-123")),
        ("dep_type", s("blocks")),
    ]));
    snapshot.tables.insert("dependencies".to_string(), deps);
    let metadata = analyze_template(&snapshot, "test-template", None).unwrap();
    assert!(metadata.exit_points.contains(&"tpl-child-1".to_string()));
}

#[test]
fn test_analyze_empty_template() {
    let snapshot = Snapshot {
        schema_version: CURRENT_SCHEMA_VERSION,
        export_version: EXPORT_VERSION.to_string(),
        exported_at: chrono::Utc::now().to_rfc3339(),
        exported_by: "test".to_string(),
        tables: Tables::new(),
    };
    let result = analyze_template(&snapshot, "empty", None);
    assert!(result.is_err());
    assert!(result.unwrap_err().contains("no tasks"));
}

#[test]
fn analyze_template_sorted_tags_and_metadata() {
    let snapshot = make_test_template();
    let metadata = analyze_template(&snapshot, "tpl", Some("/t/tpl.json")).unwrap();
    assert_eq!(metadata.name, "tpl");
    assert_eq!(metadata.source_path, Some("/t/tpl.json".to_string()));
    assert_eq!(metadata.all_tags, vec!["child".to_string(), "template".to_string()]);
    assert!(metadata.exit_points.is_empty());
}

#[test]
fn test_prepare_snapshot_remaps_ids() {
    let snapshot = make_test_template();
    let options = InstantiateOptions::new();
    let (prepared, id_map) = prepare_snapshot(&snapshot, &ids_config(), &options).unwrap();
    assert_ne!(find(&id_map, "tpl-root"), "tpl-root");
    assert_ne!(find(&id_map, "tpl-child-1"), "tpl-child-1");
    let tasks = prepared.tables.get("tasks").unwrap();
    let task_ids: Vec<&str> = tasks.iter().filter_map(|t| t.get_str("id")).collect();
    assert!(!task_ids.contains(&"tpl-root"));
    assert!(task_ids.contains(&find(&id_map, "tpl-root")));
}

#[test]
fn test_prepare_snapshot_resets_status() {
    let mut snapshot = make_test_template();
    let mut tasks = snapshot.tables.get("tasks").unwrap().clone();
    for task in tasks.iter_mut() {
        task.set_field("status", s("completed"));
        task.set_field("worker_id", s("old-worker"));
    }
    snapshot.tables.insert("tasks".to_string(), tasks);
    let options = InstantiateOptions::new();
    let (prepared, _) = prepare_snapshot(&snapshot, &ids_config(), &options).unwrap();
    let tasks = prepared.tables.get("tasks").unwrap();
    for task in tasks {
        assert_eq!(task.get_str("status"), Some("pending"));
        assert!(matches!(task.get("worker_id"), Some(Json::Null)));
        assert!(matches!(task.get("claimed_at"), Some(Json::Null)));
    }
}

#[test]
fn test_prepare_snapshot_title_prefix() {
    let snapshot = make_test_template();
    let options = InstantiateOptions::new().with_title_prefix("Sprint-1");
    let (prepared, _) = prepare_snapshot(&snapshot, &ids_config(), &options).unwrap();
    let tasks = prepared.tables.get("tasks").unwrap();
    for task in tasks {
        let title = task.get_str("title").unwrap();
        assert!(title.starts_with("Sprint-1: "), "Title should be prefixed: {}", title);
    }
}

#[test]
fn test_prepare_snapshot_extra_tags() {
    let snapshot = make_test_template();
    let options = InstantiateOptions::new().with_extra_tags(vec!["sprint-1".into(), "team-a".into()]);
    let (prepared, _) = prepare_snapshot(&snapshot, &ids_config(), &options).unwrap();
    let tags = prepared.tables.get("task_tags").unwrap();
    assert!(tags.len() >= 6, "Expected at least 6 tag rows, got {}", tags.len());
}

#[test]
fn test_prepare_snapshot_clears_sequence() {
    let mut snapshot = make_test_template();
    snapshot.tables.insert(
        "task_sequence".to_string(),
        vec![obj(vec![
            ("id", Json::Int(1)),
            ("task_id", s("tpl-root")),
            ("worker_id", s("old-worker")),
            ("status", s("working")),
            ("phase", Json::Null),
            ("reason", s("started")),
            ("timestamp", Json::Int(1000000)),
            ("end_timestamp", Json::Int(1000100)),
        ])],
    );
    let options = InstantiateOptions::new();
    let (prepared, _) = prepare_snapshot(&snapshot, &ids_config(), &options).unwrap();
    let sequence = prepared.tables.get("task_sequence").unwrap();
    assert!(sequence.is_empty(), "task_sequence should be empty after instantiation");
}

#[test]
fn prepare_snapshot_clears_runtime_fields_and_keeps_status_when_asked() {
    let snapshot = make_test_template();
    let mut options = InstantiateOptions::new();
    options.reset_status = false;
    let (prepared, id_map) = prepare_snapshot(&snapshot, &ids_config(), &options).unwrap();
    let tasks = prepared.tables.get("tasks").unwrap();
    for task in tasks {
        assert_eq!(task.get_str("status"), Some("pending"));
        assert!(matches!(task.get("metrics"), Some(Json::Array(v)) if v.len() == 8));
        assert!(matches!(task.get("cost_usd"), Some(Json::Float(t)) if t == "0.0"));
        assert!(matches!(task.get("created_at"), Some(Json::Int(_))));
    }
    let tags = prepared.tables.get("task_tags").unwrap();
    assert_eq!(tags.len(), 2);
    assert_eq!(tags[0].get_str("task_id"), Some(find(&id_map, "tpl-root")));
}

#[test]
fn instantiate_options_defaults() {
    let o = InstantiateOptions::new().with_parent("p-1");
    assert_eq!(o.attach_dep_type, "contains");
    assert!(o.reset_status);
    assert_eq!(o.parent_task_id, Some("p-1".to_string()));
    assert_eq!(o.title_prefix, None);
    assert!(o.extra_tags.is_empty());
}

#[test]
fn entry_and_exit_points_follow_the_id_map() {
    let map = vec![("a".to_string(), "x".to_string()), ("b".to_string(), "y".to_string())];
    assert_eq!(map_template_ids(&["b".to_string(), "zz".to_string(), "a".to_string()], &map), vec!["y", "x"]);
    let snapshot = make_test_template();
    let metadata = analyze_template(&snapshot, "t", None).unwrap();
    let map = vec![("tpl-root".to_string(), "new-root".to_string())];
    let mut result = ImportResult::new();
    result.rows_imported.insert("tasks".to_string(), 2);
    result.rows_imported.insert("task_tags".to_string(), 2);
    result.rows_imported.insert("dependencies".to_string(), 1);
    let stats = ImportStats::from_result(&result);
    assert_eq!(stats.tasks_imported, 2);
    assert_eq!(stats.tags_imported, 2);
    assert_eq!(stats.total_rows, 5);
    let r = instantiation_result(metadata, map, stats, Some("parent".to_string()));
    assert_eq!(r.entry_point_ids, vec!["new-root".to_string()]);
    assert!(r.exit_point_ids.is_empty());
    assert_eq!(r.attached_to_parent, Some("parent".to_string()));
}
